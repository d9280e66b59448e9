//! Path confinement for volume file sessions. A Unix path is read as its
//! components (the rules of `std::path::Path::components`); browser input
//! is confined below a controller-approved root and may never climb out.
//! The directory walks these plans describe are performed by the caller,
//! which inspects each step without following symlinks.

use crate::ids::{uuid_string, uuid_text};
use crate::text::{
    chars_of, copy_chars, join, join_chars, push_str, split, split_chars, string_from, string_of, views,
    lemma_split_nonempty,
};
use vstd::prelude::*;

verus! {

pub const STORAGE_ROOT: &'static str = "/storage/containers";

/// The non-empty parts between `/`s, without `.` parts.
pub open spec fn kept_parts(parts: Seq<Seq<char>>) -> Seq<Seq<char>>
    decreases parts.len(),
{
    if parts.len() == 0 {
        Seq::empty()
    } else {
        let r = kept_parts(parts.drop_last());
        let p = parts.last();
        if p.len() == 0 || p == seq!['.'] {
            r
        } else {
            r.push(p)
        }
    }
}

pub open spec fn path_parts(s: Seq<char>) -> Seq<Seq<char>> {
    kept_parts(split(s, '/'))
}

pub open spec fn is_absolute(s: Seq<char>) -> bool {
    s.len() > 0 && s[0] == '/'
}

/// A relative path that starts with a `.` component keeps it.
pub open spec fn leading_cur_dir(s: Seq<char>) -> bool {
    s.len() > 0 && s[0] == '.' && (s.len() == 1 || s[1] == '/')
}

/// The components of a path, each written as its text: `/` for the root,
/// `.` for a leading current directory, `..` for a parent and the name of
/// every other part.
pub open spec fn components(s: Seq<char>) -> Seq<Seq<char>> {
    if is_absolute(s) {
        seq![seq!['/']] + path_parts(s)
    } else if leading_cur_dir(s) {
        seq![seq!['.']] + path_parts(s)
    } else {
        path_parts(s)
    }
}

pub open spec fn is_normal(c: Seq<char>) -> bool {
    c != seq!['/'] && c != seq!['.'] && c != seq!['.', '.']
}

fn is_dot_dot(p: &Vec<char>) -> (b: bool)
    ensures
        b == (p@ == seq!['.', '.']),
{
    let r = p.len() == 2 && p[0] == '.' && p[1] == '.';
    if p.len() == 2 {
        assert(r ==> p@ =~= seq!['.', '.']);
    }
    r
}

/// The kept parts of a path, in order.
fn parts_of(v: &[char]) -> (r: Vec<Vec<char>>)
    ensures
        views(r@) == path_parts(v@),
{
    let all = split_chars(v, '/');
    let n = all.len();
    let mut r: Vec<Vec<char>> = Vec::new();
    assert(views(all@).take(0) =~= Seq::<Seq<char>>::empty());
    for i in 0..n
        invariant
            n == all@.len(),
            views(all@) == split(v@, '/'),
            views(r@) == kept_parts(views(all@).take(i as int)),
    {
        let p = &all[i];
        assert(views(all@).take(i + 1).drop_last() =~= views(all@).take(i as int));
        assert(views(all@).take(i + 1).last() == p@);
        let dot = p.len() == 1 && p[0] == '.';
        if p.len() == 1 {
            assert(dot ==> p@ =~= seq!['.']);
        }
        if !(p.len() == 0 || dot) {
            r.push(copy_chars(p.as_slice()));
            assert(views(r@) =~= views(r@.drop_last()).push(p@));
        }
    }
    assert(views(all@).take(n as int) =~= views(all@));
    r
}

/// Components of a path, as `components` describes them.
pub fn path_components(v: &[char]) -> (r: Vec<Vec<char>>)
    ensures
        views(r@) == components(v@),
{
    let parts = parts_of(v);
    let mut r: Vec<Vec<char>> = Vec::new();
    if v.len() > 0 && v[0] == '/' {
        let mut c: Vec<char> = Vec::new();
        c.push('/');
        r.push(c);
        assert(views(r@) =~= seq![seq!['/']]);
    } else if v.len() > 0 && v[0] == '.' && (v.len() == 1 || v[1] == '/') {
        let mut c: Vec<char> = Vec::new();
        c.push('.');
        r.push(c);
        assert(views(r@) =~= seq![seq!['.']]);
    } else {
        assert(views(r@) =~= Seq::<Seq<char>>::empty());
    }
    let ghost head = views(r@);
    let n = parts.len();
    for i in 0..n
        invariant
            n == parts@.len(),
            views(parts@) == path_parts(v@),
            views(r@) == head + views(parts@).take(i as int),
    {
        let ghost prev = views(r@);
        r.push(copy_chars(parts[i].as_slice()));
        assert(views(r@) =~= prev.push(parts@[i as int]@));
        assert(views(parts@).take(i + 1) =~= views(parts@).take(i as int).push(parts@[i as int]@));
        assert(views(r@) =~= head + views(parts@).take(i + 1));
    }
    assert(views(parts@).take(n as int) =~= views(parts@));
    assert(head + path_parts(v@) =~= components(v@));
    r
}

/// `Path::is_absolute` on Unix.
pub fn absolute(v: &[char]) -> (b: bool)
    ensures
        b == is_absolute(v@),
{
    v.len() > 0 && v[0] == '/'
}

/// A browser-supplied path, made relative to the volume root: `.` parts
/// dropped, absolute paths and `..` refused.
pub open spec fn normalize_relative_spec(raw: Seq<char>) -> Result<Seq<char>, Seq<char>> {
    if is_absolute(raw) {
        Err("absolute paths are not allowed"@)
    } else if exists|i: int|
        0 <= i < path_parts(raw).len() && #[trigger] path_parts(raw)[i] == seq!['.', '.'] {
        Err("path traversal is not allowed"@)
    } else {
        Ok(join(path_parts(raw), seq!['/']))
    }
}

pub fn normalize_relative(raw: &str) -> (r: Result<String, String>)
    ensures
        r matches Ok(s) ==> normalize_relative_spec(raw@) == Ok::<Seq<char>, Seq<char>>(s@),
        r matches Err(m) ==> normalize_relative_spec(raw@) == Err::<Seq<char>, Seq<char>>(m@),
{
    let v = chars_of(raw);
    if absolute(v.as_slice()) {
        return Err(string_from("absolute paths are not allowed"));
    }
    let parts = parts_of(v.as_slice());
    let n = parts.len();
    for i in 0..n
        invariant
            n == parts@.len(),
            v@ == raw@,
            !is_absolute(raw@),
            views(parts@) == path_parts(v@),
            forall|k: int| 0 <= k < i ==> (#[trigger] views(parts@)[k]) != seq!['.', '.'],
    {
        assert(views(parts@)[i as int] == parts@[i as int]@);
        if is_dot_dot(&parts[i]) {
            assert(path_parts(raw@)[i as int] == seq!['.', '.']);
            return Err(string_from("path traversal is not allowed"));
        }
    }
    let sep = ['/'];
    let joined = join_chars(&parts, sep.as_slice());
    assert(sep@ =~= seq!['/']);
    Ok(string_of(joined.as_slice()))
}

pub open spec fn outside_message(storage_root: Seq<char>, path: Seq<char>) -> Seq<char> {
    "refusing volume root outside "@ + storage_root + ": "@ + path
}

/// The components of `path` below `storage_root` (compared component by
/// component, as `Path::strip_prefix` does): at least one, all plain names.
pub open spec fn volume_components_spec(storage_root: Seq<char>, path: Seq<char>) -> Result<
    Seq<Seq<char>>,
    Seq<char>,
> {
    let root = components(storage_root);
    let all = components(path);
    if root.len() <= all.len() && all.take(root.len() as int) == root && all.len() > root.len()
        && forall|i: int| root.len() <= i < all.len() ==> is_normal(#[trigger] all[i]) {
        Ok(all.skip(root.len() as int))
    } else {
        Err(outside_message(storage_root, path))
    }
}

fn same_chars(a: &Vec<char>, b: &Vec<char>) -> (r: bool)
    ensures
        r == (a@ == b@),
{
    if a.len() != b.len() {
        return false;
    }
    let n = a.len();
    for i in 0..n
        invariant
            n == a@.len() == b@.len(),
            forall|k: int| 0 <= k < i ==> a@[k] == b@[k],
    {
        if a[i] != b[i] {
            return false;
        }
    }
    assert(a@ =~= b@);
    true
}

pub fn volume_components(storage_root: &str, path: &str) -> (r: Result<Vec<Vec<char>>, String>)
    ensures
        r matches Ok(cs) ==> volume_components_spec(storage_root@, path@) == Ok::<
            Seq<Seq<char>>,
            Seq<char>,
        >(views(cs@)),
        r matches Err(m) ==> volume_components_spec(storage_root@, path@) == Err::<
            Seq<Seq<char>>,
            Seq<char>,
        >(m@),
{
    let rv = chars_of(storage_root);
    let pv = chars_of(path);
    let root = path_components(rv.as_slice());
    let all = path_components(pv.as_slice());
    let ghost rs = views(root@);
    let ghost ps = views(all@);
    let rn = root.len();
    let pn = all.len();
    let mut ok = rn < pn;
    let mut i: usize = 0;
    while ok && i < pn
        invariant
            rn == rs.len(),
            pn == ps.len(),
            rs == views(root@),
            ps == views(all@),
            i <= pn,
            ok ==> rn < pn,
            ok ==> forall|k: int| 0 <= k < i && k < rn ==> ps[k] == rs[k],
            ok ==> forall|k: int| rn <= k < i ==> is_normal(#[trigger] ps[k]),
            !ok ==> !(rs.len() <= ps.len() && ps.take(rs.len() as int) == rs && ps.len() > rs.len()
                && forall|k: int| rs.len() <= k < ps.len() ==> is_normal(#[trigger] ps[k])),
        decreases pn - i,
    {
        let c = &all[i];
        assert(ps[i as int] == c@);
        if i < rn {
            assert(rs[i as int] == root@[i as int]@);
            if !same_chars(c, &root[i]) {
                ok = false;
                assert(ps.take(rs.len() as int)[i as int] != rs[i as int]);
            }
        } else {
            let slash = c.len() == 1 && c[0] == '/';
            let dot = c.len() == 1 && c[0] == '.';
            let dotdot = is_dot_dot(c);
            if c.len() == 1 {
                assert(slash ==> c@ =~= seq!['/']);
                assert(dot ==> c@ =~= seq!['.']);
                assert(c@ =~= seq!['/'] ==> slash);
                assert(c@ =~= seq!['.'] ==> dot);
            }
            if slash || dot || dotdot {
                ok = false;
            }
        }
        i = i + 1;
    }
    if !ok {
        let mut m = string_from("refusing volume root outside ");
        push_str(&mut m, storage_root);
        push_str(&mut m, ": ");
        push_str(&mut m, path);
        return Err(m);
    }
    assert(ps.take(rs.len() as int) =~= rs);
    let mut out: Vec<Vec<char>> = Vec::new();
    let mut j = rn;
    while j < pn
        invariant
            rn <= j <= pn,
            pn == ps.len(),
            rn == rs.len(),
            ps == views(all@),
            views(out@) == ps.subrange(rn as int, j as int),
        decreases pn - j,
    {
        let ghost prev = views(out@);
        out.push(copy_chars(all[j].as_slice()));
        assert(views(out@) =~= prev.push(all@[j as int]@));
        assert(views(out@) =~= ps.subrange(rn as int, j + 1));
        j = j + 1;
    }
    assert(ps.subrange(rn as int, pn as int) =~= ps.skip(rn as int));
    Ok(out)
}

/// A volume root must lie strictly below the storage root.
pub fn validate_root_path(path: &str) -> (r: Result<(), String>)
    ensures
        r is Ok <==> volume_components_spec(STORAGE_ROOT@, path@) is Ok,
        r matches Err(m) ==> volume_components_spec(STORAGE_ROOT@, path@) == Err::<
            Seq<Seq<char>>,
            Seq<char>,
        >(m@),
{
    match volume_components(STORAGE_ROOT, path) {
        Ok(_) => Ok(()),
        Err(m) => Err(m),
    }
}

/// The directories a walk from `/` down to `path` visits, one per plain
/// component: `/a`, `/a/b`, ... Anything but the root and plain names is
/// refused.
pub open spec fn tree_steps_spec(path: Seq<char>) -> Result<Seq<Seq<char>>, Seq<char>> {
    let cs = components(path);
    if forall|i: int| 0 <= i < cs.len() ==> (#[trigger] cs[i] == seq!['/'] || is_normal(cs[i])) {
        Ok(
            Seq::new(
                path_parts(path).len(),
                |i: int| seq!['/'] + join(path_parts(path).take(i + 1), seq!['/']),
            ),
        )
    } else {
        Err("invalid storage root: "@ + path)
    }
}

/// The walk of `ensure_directory_tree` and `existing_directory_tree`.
pub fn directory_tree_steps(path: &str) -> (r: Result<Vec<String>, String>)
    ensures
        r matches Ok(steps) ==> tree_steps_spec(path@) == Ok::<Seq<Seq<char>>, Seq<char>>(
            crate::controller::deployments::string_views(steps@),
        ),
        r matches Err(m) ==> tree_steps_spec(path@) == Err::<Seq<Seq<char>>, Seq<char>>(m@),
{
    let v = chars_of(path);
    let cs = path_components(v.as_slice());
    let n = cs.len();
    for i in 0..n
        invariant
            n == cs@.len(),
            views(cs@) == components(v@),
            v@ == path@,
            forall|k: int|
                0 <= k < i ==> (#[trigger] views(cs@)[k] == seq!['/'] || is_normal(views(cs@)[k])),
    {
        let c = &cs[i];
        assert(views(cs@)[i as int] == c@);
        let slash = c.len() == 1 && c[0] == '/';
        let dot = c.len() == 1 && c[0] == '.';
        if c.len() == 1 {
            assert(slash ==> c@ =~= seq!['/']);
            assert(dot ==> c@ =~= seq!['.']);
            assert(c@ =~= seq!['/'] ==> slash);
            assert(c@ =~= seq!['.'] ==> dot);
        }
        if dot || is_dot_dot(c) {
            assert(!(views(cs@)[i as int] == seq!['/'] || is_normal(views(cs@)[i as int])));
            let mut m = string_from("invalid storage root: ");
            push_str(&mut m, path);
            return Err(m);
        }
    }
    let parts = parts_of(v.as_slice());
    let pn = parts.len();
    let mut steps: Vec<String> = Vec::new();
    let mut current: Vec<char> = Vec::new();
    current.push('/');
    for i in 0..pn
        invariant
            pn == parts@.len(),
            views(parts@) == path_parts(path@),
            v@ == path@,
            steps@.len() == i,
            forall|k: int|
                0 <= k < i ==> (#[trigger] steps@[k])@ == seq!['/'] + join(
                    views(parts@).take(k + 1),
                    seq!['/'],
                ),
            i == 0 ==> current@ == seq!['/'],
            i > 0 ==> current@ == seq!['/'] + join(views(parts@).take(i as int), seq!['/']),
    {
        let ghost before = current@;
        if i > 0 {
            current.push('/');
        }
        let p = &parts[i];
        let m = p.len();
        let ghost mid = current@;
        for j in 0..m
            invariant
                m == p@.len(),
                current@ == mid + p@.take(j as int),
        {
            current.push(p[j]);
            assert(current@ =~= mid + p@.take(j + 1));
        }
        assert(p@.take(m as int) =~= p@);
        proof {
            let ps = views(parts@);
            assert(ps.take(i + 1).drop_last() =~= ps.take(i as int));
            assert(ps.take(i + 1).last() == p@);
            if i == 0 {
                assert(ps.take(1) =~= seq![p@]);
                assert(current@ =~= seq!['/'] + join(ps.take(1), seq!['/']));
            } else {
                assert(current@ =~= seq!['/'] + (join(ps.take(i as int), seq!['/']) + seq!['/']
                    + p@));
            }
        }
        steps.push(string_of(current.as_slice()));
    }
    assert(crate::controller::deployments::string_views(steps@) =~= Seq::new(
        path_parts(path@).len(),
        |i: int| seq!['/'] + join(path_parts(path@).take(i + 1), seq!['/']),
    ));
    Ok(steps)
}

/// An I/O failure, reduced to what the messages distinguish.
#[derive(Clone, Copy, Debug, PartialEq, Eq, Structural)]
pub enum IoErrorKind {
    PermissionDenied,
    NotFound,
    AlreadyExists,
    Other,
}

/// The operator-facing text of a failed filesystem action; `display` is the
/// error's own text, used for kinds without a fixed wording.
pub open spec fn fs_error_spec(action: Seq<char>, kind: IoErrorKind, display: Seq<char>) -> Seq<
    char,
> {
    match kind {
        IoErrorKind::PermissionDenied => action
            + ": permission denied (upgrade the agent setup if this persists)"@,
        IoErrorKind::NotFound => action + ": path no longer exists"@,
        IoErrorKind::AlreadyExists => action + ": destination already exists"@,
        IoErrorKind::Other => action + ": "@ + display,
    }
}

pub fn fs_error(action: &str, kind: IoErrorKind, display: &str) -> (r: String)
    ensures
        r@ == fs_error_spec(action@, kind, display@),
{
    let mut m = string_from(action);
    match kind {
        IoErrorKind::PermissionDenied => push_str(
            &mut m,
            ": permission denied (upgrade the agent setup if this persists)",
        ),
        IoErrorKind::NotFound => push_str(&mut m, ": path no longer exists"),
        IoErrorKind::AlreadyExists => push_str(&mut m, ": destination already exists"),
        IoErrorKind::Other => {
            push_str(&mut m, ": ");
            push_str(&mut m, display);
        },
    }
    m
}

/// The root itself may not be the target of a change.
pub open spec fn non_root_spec(raw: Seq<char>) -> Result<Seq<char>, Seq<char>> {
    match normalize_relative_spec(raw) {
        Err(m) => Err(m),
        Ok(rel) => if rel.len() == 0 {
            Err("the volume root itself cannot be changed"@)
        } else {
            Ok(rel)
        },
    }
}

/// Checks a path that must name something below the root and returns it
/// relative to the root; the caller then resolves it without following
/// symlinks.
pub fn non_root_existing(raw: &str) -> (r: Result<String, String>)
    ensures
        r matches Ok(s) ==> non_root_spec(raw@) == Ok::<Seq<char>, Seq<char>>(s@),
        r matches Err(m) ==> non_root_spec(raw@) == Err::<Seq<char>, Seq<char>>(m@),
{
    let rel = match normalize_relative(raw) {
        Ok(rel) => rel,
        Err(m) => {
            return Err(m);
        },
    };
    if rel.as_str().is_empty() {
        return Err(string_from("the volume root itself cannot be changed"));
    }
    Ok(rel)
}

/// Normalized browser paths never climb above the root: they are relative
/// and carry no `..` part.
pub proof fn lemma_normalized_paths_stay_inside(raw: Seq<char>)
    requires
        normalize_relative_spec(raw) is Ok,
    ensures
        !is_absolute(raw),
        forall|i: int| 0 <= i < path_parts(raw).len() ==> #[trigger] path_parts(raw)[i] != seq![
            '.',
            '.',
        ],
{
}

/// The text of `parent` (a path given by its components) joined with one
/// more plain name, as `Path::join` writes it: nothing before the name when
/// there is no parent, no second `/` after the root.
pub open spec fn sibling_text(parent: Seq<Seq<char>>, name: Seq<char>) -> Seq<char> {
    if parent.len() == 0 {
        name
    } else if parent[0] == seq!['/'] {
        if parent.len() == 1 {
            seq!['/'] + name
        } else {
            seq!['/'] + join(parent.drop_first(), seq!['/']) + seq!['/'] + name
        }
    } else {
        join(parent, seq!['/']) + seq!['/'] + name
    }
}

/// The name of the partial file an upload writes: `.foundry-upload-` and
/// the upload's request id.
pub open spec fn upload_file_name(request_id: u128) -> Seq<char> {
    ".foundry-upload-"@ + uuid_text(request_id)
}

/// The partial file of an upload, beside its destination, named after the
/// request id so that the same request resumes the same file. A path without
/// a parent (empty, or only the root) is refused.
pub open spec fn temporary_sibling_spec(destination: Seq<char>, request_id: u128) -> Result<Seq<char>, Seq<char>> {
    let cs = components(destination);
    if cs.len() == 0 || cs.last() == seq!['/'] {
        Err("destination has no parent"@)
    } else {
        Ok(sibling_text(cs.drop_last(), upload_file_name(request_id)))
    }
}

/// The parts `from..to` of a list of parts, copied.
fn parts_range(ps: &Vec<Vec<char>>, from: usize, to: usize) -> (r: Vec<Vec<char>>)
    requires
        from <= to <= ps@.len(),
    ensures
        views(r@) == views(ps@).subrange(from as int, to as int),
{
    let mut r: Vec<Vec<char>> = Vec::new();
    let mut i = from;
    while i < to
        invariant
            from <= i <= to <= ps@.len(),
            views(r@) == views(ps@).subrange(from as int, i as int),
        decreases to - i,
    {
        let ghost prev = views(r@);
        r.push(copy_chars(ps[i].as_slice()));
        assert(views(r@) =~= prev.push(ps@[i as int]@));
        assert(views(ps@).subrange(from as int, i + 1) =~= views(ps@).subrange(from as int, i as int).push(
            ps@[i as int]@,
        ));
        i = i + 1;
    }
    r
}

/// The partial file of upload `request_id` beside `destination`; the same
/// request always selects the same file, which is what lets it resume.
pub fn temporary_sibling(destination: &str, request_id: u128) -> (r: Result<String, String>)
    ensures
        match temporary_sibling_spec(destination@, request_id) {
            Ok(t) => r matches Ok(s) && s@ == t,
            Err(m) => r matches Err(e) && e@ == m,
        },
{
    let v = chars_of(destination);
    let comps = path_components(v.as_slice());
    let n = comps.len();
    if n == 0 {
        return Err(string_from("destination has no parent"));
    }
    let last_is_root = comps[n - 1].len() == 1 && comps[n - 1][0] == '/';
    proof {
        if comps@[n - 1]@.len() == 1 {
            assert(last_is_root ==> comps@[n - 1]@ =~= seq!['/']);
        }
        assert(views(comps@).last() == comps@[n - 1]@);
    }
    if last_is_root {
        return Err(string_from("destination has no parent"));
    }
    let m = n - 1;
    let ghost parent = components(destination@).drop_last();
    let sep: Vec<char> = vec!['/'];
    let mut out: Vec<char> = Vec::new();
    if m > 0 {
        let first_is_root = comps[0].len() == 1 && comps[0][0] == '/';
        proof {
            assert(views(comps@)[0] == comps@[0]@);
            if comps@[0]@.len() == 1 {
                assert(first_is_root ==> comps@[0]@ =~= seq!['/']);
            }
            assert(parent[0] == comps@[0]@);
        }
        if first_is_root {
            out.push('/');
            if m > 1 {
                let rest = parts_range(&comps, 1, m);
                assert(views(rest@) =~= parent.drop_first());
                let mut j = join_chars(&rest, sep.as_slice());
                out.append(&mut j);
                out.push('/');
            }
        } else {
            let all = parts_range(&comps, 0, m);
            assert(views(all@) =~= parent);
            let mut j = join_chars(&all, sep.as_slice());
            out.append(&mut j);
            out.push('/');
        }
    }
    let mut name = chars_of(".foundry-upload-");
    let id = uuid_string(request_id);
    let mut idc = chars_of(id.as_str());
    name.append(&mut idc);
    out.append(&mut name);
    proof {
        assert(sep@ =~= seq!['/']);
        if m > 0 && parent[0] == seq!['/'] && m == 1 {
            assert(out@ =~= seq!['/'] + upload_file_name(request_id));
        }
    }
    assert(out@ =~= sibling_text(parent, upload_file_name(request_id)));
    Ok(string_of(out.as_slice()))
}

} // verus!

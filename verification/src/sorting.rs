//! The order `String` sorts by, over characters, and an insertion sort
//! that puts text in that order.

use crate::encoding::string_seq;
use crate::text::chars_of;
use vstd::prelude::*;
use vstd::relations::{sorted_by, total_ordering};
use vstd::seq_lib::{to_multiset_build, to_multiset_insert};

verus! {

/// `a <= b` as `String`'s `Ord` decides: byte-wise over UTF-8, which is the
/// same as code point by code point, a prefix coming first.
pub open spec fn text_le(a: Seq<char>, b: Seq<char>) -> bool
    decreases a.len(),
{
    if a.len() == 0 {
        true
    } else if b.len() == 0 {
        false
    } else if a[0] != b[0] {
        a[0] < b[0]
    } else {
        text_le(a.drop_first(), b.drop_first())
    }
}

pub open spec fn text_order() -> spec_fn(Seq<char>, Seq<char>) -> bool {
    |a: Seq<char>, b: Seq<char>| text_le(a, b)
}

pub proof fn lemma_text_le_reflexive(a: Seq<char>)
    ensures
        text_le(a, a),
    decreases a.len(),
{
    if a.len() > 0 {
        lemma_text_le_reflexive(a.drop_first());
    }
}

pub proof fn lemma_text_le_antisymmetric(a: Seq<char>, b: Seq<char>)
    requires
        text_le(a, b),
        text_le(b, a),
    ensures
        a == b,
    decreases a.len(),
{
    if a.len() > 0 && b.len() > 0 {
        if a[0] == b[0] {
            lemma_text_le_antisymmetric(a.drop_first(), b.drop_first());
            assert(a =~= seq![a[0]] + a.drop_first());
            assert(b =~= seq![b[0]] + b.drop_first());
        }
    } else {
        assert(a =~= b);
    }
}

pub proof fn lemma_text_le_transitive(a: Seq<char>, b: Seq<char>, c: Seq<char>)
    requires
        text_le(a, b),
        text_le(b, c),
    ensures
        text_le(a, c),
    decreases a.len(),
{
    if a.len() > 0 && b.len() > 0 && c.len() > 0 {
        if a[0] == b[0] && b[0] == c[0] {
            lemma_text_le_transitive(a.drop_first(), b.drop_first(), c.drop_first());
        }
    }
}

pub proof fn lemma_text_le_total(a: Seq<char>, b: Seq<char>)
    ensures
        text_le(a, b) || text_le(b, a),
    decreases a.len(),
{
    if a.len() > 0 && b.len() > 0 && a[0] == b[0] {
        lemma_text_le_total(a.drop_first(), b.drop_first());
    }
}

/// `text_le` is a total order.
pub proof fn lemma_text_order_total()
    ensures
        total_ordering(text_order()),
{
    assert forall|x: Seq<char>| #[trigger] text_order()(x, x) by {
        lemma_text_le_reflexive(x);
    }
    assert forall|x: Seq<char>, y: Seq<char>| #[trigger] text_order()(x, y) && #[trigger] text_order()(y, x) implies x == y by {
        lemma_text_le_antisymmetric(x, y);
    }
    assert forall|x: Seq<char>, y: Seq<char>, z: Seq<char>| #[trigger] text_order()(x, y) && #[trigger] text_order()(y, z) implies text_order()(x, z) by {
        lemma_text_le_transitive(x, y, z);
    }
    assert forall|x: Seq<char>, y: Seq<char>| #[trigger] text_order()(x, y) || #[trigger] text_order()(y, x) by {
        lemma_text_le_total(x, y);
    }
}

/// Decides `text_le`.
pub fn text_le_exec(a: &[char], b: &[char]) -> (r: bool)
    ensures
        r == text_le(a@, b@),
{
    let mut i: usize = 0;
    assert(a@.skip(0) =~= a@);
    assert(b@.skip(0) =~= b@);
    while i < a.len() && i < b.len() && a[i] == b[i]
        invariant
            i <= a@.len(),
            i <= b@.len(),
            text_le(a@, b@) == text_le(a@.skip(i as int), b@.skip(i as int)),
        decreases a@.len() - i,
    {
        assert(a@.skip(i as int).drop_first() =~= a@.skip(i + 1));
        assert(b@.skip(i as int).drop_first() =~= b@.skip(i + 1));
        i = i + 1;
    }
    if i == a.len() {
        true
    } else if i == b.len() {
        false
    } else {
        a[i] < b[i]
    }
}

/// The strings of `v` in `String` order (equal strings keep their order).
pub fn sort_strings(v: Vec<String>) -> (r: Vec<String>)
    ensures
        sorted_by(string_seq(r@), text_order()),
        string_seq(r@).to_multiset() == string_seq(v@).to_multiset(),
{
    proof {
        lemma_text_order_total();
    }
    let mut out: Vec<String> = Vec::new();
    let mut rest = v;
    let ghost input = string_seq(rest@);
    let n = rest.len();
    let mut i: usize = 0;
    assert(string_seq(out@) =~= Seq::<Seq<char>>::empty());
    assert(input.take(0) =~= Seq::<Seq<char>>::empty());
    assert(input.skip(0) =~= input);
    while i < n
        invariant
            i <= n == input.len(),
            string_seq(rest@) == input.skip(i as int),
            sorted_by(string_seq(out@), text_order()),
            total_ordering(text_order()),
            string_seq(out@).to_multiset() == input.take(i as int).to_multiset(),
        decreases n - i,
    {
        let ghost before = rest@;
        assert(string_seq(rest@).len() == rest@.len());
        let x = rest.remove(0);
        assert(x@ == string_seq(before)[0]);
        assert(x@ == input[i as int]);
        assert(rest@ =~= before.subrange(1, before.len() as int));
        assert forall|k: int| 0 <= k < string_seq(rest@).len() implies string_seq(rest@)[k] == input.skip(i + 1)[k] by {
            assert(string_seq(rest@)[k] == rest@[k]@);
            assert(rest@[k] == before[k + 1]);
            assert(string_seq(before)[k + 1] == before[k + 1]@);
        }
        assert(string_seq(rest@) =~= input.skip(i + 1));
        let xv = chars_of(x.as_str());
        let ghost cur = string_seq(out@);
        let mut p: usize = 0;
        while p < out.len() && text_le_exec(chars_of(out[p].as_str()).as_slice(), xv.as_slice())
            invariant
                p <= out@.len(),
                cur == string_seq(out@),
                xv@ == x@,
                forall|k: int| 0 <= k < p ==> text_le(#[trigger] cur[k], x@),
            decreases out@.len() - p,
        {
            assert(cur[p as int] == out@[p as int]@);
            p = p + 1;
        }
        proof {
            if p < out@.len() {
                assert(cur[p as int] == out@[p as int]@);
                assert(!text_le(cur[p as int], x@));
                assert(text_order()(cur[p as int], x@) || text_order()(x@, cur[p as int]));
            }
        }
        out.insert(p, x);
        let ghost next = cur.insert(p as int, x@);
        assert(string_seq(out@) =~= next);
        proof {
            assert forall|a: int, b: int| 0 <= a < b < next.len() implies #[trigger] text_order()(next[a], next[b]) by {
                if b < p {
                    assert(text_order()(cur[a], cur[b]));
                } else if b == p {
                    assert(text_le(cur[a], x@));
                } else if a < p {
                    assert(text_le(cur[a], x@));
                    assert(text_order()(x@, cur[p as int]));
                    if b - 1 > p {
                        assert(text_order()(cur[p as int], cur[b - 1]));
                    }
                    assert(text_order()(x@, cur[b - 1]));
                } else if a == p {
                    assert(text_order()(x@, cur[p as int]));
                    if b - 1 > p {
                        assert(text_order()(cur[p as int], cur[b - 1]));
                    }
                } else {
                    assert(text_order()(cur[a - 1], cur[b - 1]));
                }
            }
            to_multiset_insert(cur, p as int, x@);
            assert(input.take(i + 1) =~= input.take(i as int).push(x@));
            to_multiset_build(input.take(i as int), x@);
        }
        i = i + 1;
    }
    assert(input.take(n as int) =~= input);
    out
}

/// `(port, protocol)` pairs in the order of the tuple: by port, then by
/// protocol text.
pub open spec fn port_le(a: (u16, Seq<char>), b: (u16, Seq<char>)) -> bool {
    a.0 < b.0 || (a.0 == b.0 && text_le(a.1, b.1))
}

pub open spec fn port_order() -> spec_fn((u16, Seq<char>), (u16, Seq<char>)) -> bool {
    |a: (u16, Seq<char>), b: (u16, Seq<char>)| port_le(a, b)
}

/// `port_le` is a total order.
pub proof fn lemma_port_order_total()
    ensures
        total_ordering(port_order()),
{
    assert forall|x: (u16, Seq<char>)| #[trigger] port_order()(x, x) by {
        lemma_text_le_reflexive(x.1);
    }
    assert forall|x: (u16, Seq<char>), y: (u16, Seq<char>)| #[trigger] port_order()(x, y) && #[trigger] port_order()(y, x) implies x == y by {
        lemma_text_le_antisymmetric(x.1, y.1);
    }
    assert forall|x: (u16, Seq<char>), y: (u16, Seq<char>), z: (u16, Seq<char>)| #[trigger] port_order()(x, y) && #[trigger] port_order()(y, z) implies port_order()(x, z) by {
        if x.0 == y.0 && y.0 == z.0 {
            lemma_text_le_transitive(x.1, y.1, z.1);
        }
    }
    assert forall|x: (u16, Seq<char>), y: (u16, Seq<char>)| #[trigger] port_order()(x, y) || #[trigger] port_order()(y, x) by {
        lemma_text_le_total(x.1, y.1);
    }
}

pub open spec fn port_views(v: Seq<(u16, String)>) -> Seq<(u16, Seq<char>)> {
    v.map_values(|p: (u16, String)| (p.0, p.1@))
}

/// Port/protocol pairs sorted by port, then protocol.
pub fn sort_ports(v: Vec<(u16, String)>) -> (r: Vec<(u16, String)>)
    ensures
        sorted_by(port_views(r@), port_order()),
        port_views(r@).to_multiset() == port_views(v@).to_multiset(),
{
    proof {
        lemma_port_order_total();
    }
    let mut out: Vec<(u16, String)> = Vec::new();
    let mut rest = v;
    let ghost input = port_views(rest@);
    let n = rest.len();
    let mut i: usize = 0;
    assert(port_views(out@) =~= Seq::<(u16, Seq<char>)>::empty());
    assert(input.take(0) =~= Seq::<(u16, Seq<char>)>::empty());
    assert(input.skip(0) =~= input);
    while i < n
        invariant
            i <= n == input.len(),
            port_views(rest@) == input.skip(i as int),
            sorted_by(port_views(out@), port_order()),
            total_ordering(port_order()),
            port_views(out@).to_multiset() == input.take(i as int).to_multiset(),
        decreases n - i,
    {
        let ghost before = rest@;
        assert(port_views(rest@).len() == rest@.len());
        let x = rest.remove(0);
        let ghost xv = (x.0, x.1@);
        assert(xv == port_views(before)[0]);
        assert(xv == input[i as int]);
        assert(rest@ =~= before.subrange(1, before.len() as int));
        assert forall|k: int| 0 <= k < port_views(rest@).len() implies port_views(rest@)[k] == input.skip(i + 1)[k] by {
            assert(port_views(rest@)[k] == (rest@[k].0, rest@[k].1@));
            assert(rest@[k] == before[k + 1]);
            assert(port_views(before)[k + 1] == (before[k + 1].0, before[k + 1].1@));
        }
        assert(port_views(rest@) =~= input.skip(i + 1));
        let xs = chars_of(x.1.as_str());
        let ghost cur = port_views(out@);
        let mut p: usize = 0;
        while p < out.len() && (out[p].0 < x.0 || (out[p].0 == x.0 && text_le_exec(
            chars_of(out[p].1.as_str()).as_slice(),
            xs.as_slice(),
        )))
            invariant
                p <= out@.len(),
                cur == port_views(out@),
                xs@ == x.1@,
                xv == (x.0, x.1@),
                forall|k: int| 0 <= k < p ==> port_le(#[trigger] cur[k], xv),
            decreases out@.len() - p,
        {
            assert(cur[p as int] == (out@[p as int].0, out@[p as int].1@));
            p = p + 1;
        }
        proof {
            if p < out@.len() {
                assert(cur[p as int] == (out@[p as int].0, out@[p as int].1@));
                assert(!port_le(cur[p as int], xv));
                assert(port_order()(cur[p as int], xv) || port_order()(xv, cur[p as int]));
            }
        }
        out.insert(p, x);
        let ghost next = cur.insert(p as int, xv);
        assert(port_views(out@) =~= next);
        proof {
            assert forall|a: int, b: int| 0 <= a < b < next.len() implies #[trigger] port_order()(next[a], next[b]) by {
                if b < p {
                    assert(port_order()(cur[a], cur[b]));
                } else if b == p {
                    assert(port_le(cur[a], xv));
                } else if a < p {
                    assert(port_le(cur[a], xv));
                    assert(port_order()(xv, cur[p as int]));
                    if b - 1 > p {
                        assert(port_order()(cur[p as int], cur[b - 1]));
                    }
                    assert(port_order()(xv, cur[b - 1]));
                } else if a == p {
                    assert(port_order()(xv, cur[p as int]));
                    if b - 1 > p {
                        assert(port_order()(cur[p as int], cur[b - 1]));
                    }
                } else {
                    assert(port_order()(cur[a - 1], cur[b - 1]));
                }
            }
            to_multiset_insert(cur, p as int, xv);
            assert(input.take(i + 1) =~= input.take(i as int).push(xv));
            to_multiset_build(input.take(i as int), xv);
        }
        i = i + 1;
    }
    assert(input.take(n as int) =~= input);
    out
}


/// `a` comes strictly before `b` in `String` order.
pub open spec fn text_lt(a: Seq<char>, b: Seq<char>) -> bool {
    text_le(a, b) && a != b
}

/// Strictly increasing in `String` order: sorted, no text twice.
pub open spec fn strictly_sorted_text(s: Seq<Seq<char>>) -> bool {
    forall|i: int, j: int| 0 <= i < j < s.len() ==> text_lt(#[trigger] s[i], #[trigger] s[j])
}

pub proof fn lemma_text_lt_transitive(a: Seq<char>, b: Seq<char>, c: Seq<char>)
    requires
        text_lt(a, b),
        text_lt(b, c),
    ensures
        text_lt(a, c),
{
    lemma_text_le_transitive(a, b, c);
    if a == c {
        lemma_text_le_antisymmetric(a, b);
    }
}

/// Decides `text_lt`.
pub fn text_lt_exec(a: &[char], b: &[char]) -> (r: bool)
    ensures
        r == text_lt(a@, b@),
{
    if !text_le_exec(a, b) {
        return false;
    }
    let back = text_le_exec(b, a);
    proof {
        if back {
            lemma_text_le_antisymmetric(a@, b@);
        } else {
            lemma_text_le_reflexive(a@);
        }
    }
    !back
}

/// Adds `x` to a strictly sorted list of strings, where it belongs, unless
/// it is there already (a `BTreeSet<String>` insertion).
pub fn insert_text_set(v: &mut Vec<String>, x: String)
    requires
        strictly_sorted_text(string_seq(old(v)@)),
    ensures
        strictly_sorted_text(string_seq(final(v)@)),
        forall|y: Seq<char>| #[trigger] string_seq(final(v)@).contains(y) <==> (string_seq(old(v)@).contains(y) || y == x@),
{
    let ghost cur = string_seq(v@);
    let xv = chars_of(x.as_str());
    let mut p: usize = 0;
    while p < v.len() && text_lt_exec(chars_of(v[p].as_str()).as_slice(), xv.as_slice())
        invariant
            p <= v@.len(),
            cur == string_seq(v@),
            xv@ == x@,
            forall|k: int| 0 <= k < p ==> text_lt(#[trigger] cur[k], x@),
        decreases v@.len() - p,
    {
        assert(cur[p as int] == v@[p as int]@);
        p = p + 1;
    }
    if p < v.len() {
        let same = !text_lt_exec(xv.as_slice(), chars_of(v[p].as_str()).as_slice());
        assert(cur[p as int] == v@[p as int]@);
        proof {
            lemma_text_le_total(cur[p as int], x@);
            lemma_text_le_reflexive(x@);
        }
        if same {
            assert(cur[p as int] == x@);
            assert forall|y: Seq<char>| #[trigger] string_seq(v@).contains(y) <==> (cur.contains(y) || y == x@) by {
                if y == x@ {
                    assert(cur[p as int] == y);
                }
            }
            return;
        }
    }
    proof {
        if p < cur.len() {
            lemma_text_le_total(cur[p as int], x@);
            lemma_text_le_reflexive(x@);
            assert(text_lt(x@, cur[p as int]));
        }
    }
    v.insert(p, x);
    let ghost next = cur.insert(p as int, x@);
    assert(string_seq(v@) =~= next);
    assert forall|a: int, b: int| 0 <= a < b < next.len() implies text_lt(#[trigger] next[a], #[trigger] next[b]) by {
        if b < p {
            assert(text_lt(cur[a], cur[b]));
        } else if b == p {
        } else if a < p {
            if b - 1 > p {
                assert(text_lt(cur[p as int], cur[b - 1]));
                lemma_text_lt_transitive(x@, cur[p as int], cur[b - 1]);
            }
            lemma_text_lt_transitive(cur[a], x@, cur[b - 1]);
        } else if a == p {
            if b - 1 > p {
                assert(text_lt(cur[p as int], cur[b - 1]));
                lemma_text_lt_transitive(x@, cur[p as int], cur[b - 1]);
            }
        } else {
            assert(text_lt(cur[a - 1], cur[b - 1]));
        }
    }
    assert forall|y: Seq<char>| #[trigger] next.contains(y) <==> (cur.contains(y) || y == x@) by {
        if next.contains(y) {
            let k = choose|k: int| 0 <= k < next.len() && next[k] == y;
            if k < p {
                assert(cur[k] == y);
            } else if k > p {
                assert(cur[k - 1] == y);
            }
        }
        if cur.contains(y) {
            let k = choose|k: int| 0 <= k < cur.len() && cur[k] == y;
            if k < p {
                assert(next[k] == y);
            } else {
                assert(next[k + 1] == y);
            }
        }
        if y == x@ {
            assert(next[p as int] == y);
        }
    }
}

} // verus!

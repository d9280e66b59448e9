//! Agent protocol-version gates used before the controller queues wire
//! variants that an older agent cannot deserialize.

use crate::text::{
    decimal_text, is_ascii_digit, is_white_space, lemma_decimal_text_reads_back,
    lemma_split_then_part, lemma_split_without_separator, trim_end, trim_start, unsigned_digits,
    chars_of, lemma_split_nonempty, parse_unsigned, parse_unsigned_chars, slice_chars, split,
    split_chars, strip_leading, strip_leading_chars, trim, trim_chars, views,
};
use vstd::prelude::*;

verus! {

pub const OPERATIONAL_MIN_AGENT_VERSION: (u32, u32, u32) = (0, 59, 0);

/// Deployment requires the NVIDIA-container readiness probe introduced in
/// 0.63. Operational commands keep the lower gate so an older host can
/// still be repaired and upgraded remotely.
pub const DEPLOYMENT_MIN_AGENT_VERSION: (u32, u32, u32) = (0, 63, 0);

/// Stable-name replacement handoff was added in 0.64.
pub const REPLACEMENT_MIN_AGENT_VERSION: (u32, u32, u32) = (0, 64, 0);

/// The part of a version string before the first `-` or `+` (pre-release
/// and build metadata are ignored).
pub open spec fn version_core(s: Seq<char>) -> Seq<char>
    decreases s.len(),
{
    if s.len() == 0 || s[0] == '-' || s[0] == '+' {
        Seq::empty()
    } else {
        seq![s[0]] + version_core(s.drop_first())
    }
}

pub open spec fn u32_of(part: Seq<char>) -> Option<u32> {
    match parse_unsigned(part, u32::MAX as nat) {
        Some(v) => Some(v as u32),
        None => None,
    }
}

/// A release version `MAJOR.MINOR.PATCH`, after trimming white space and
/// leading `v`s; exactly three numeric components are required.
pub open spec fn parse_spec(s: Seq<char>) -> Option<(u32, u32, u32)> {
    let parts = split(version_core(strip_leading(trim(s), 'v')), '.');
    if parts.len() == 3 && u32_of(parts[0]) is Some && u32_of(parts[1]) is Some && u32_of(
        parts[2],
    ) is Some {
        Some((u32_of(parts[0])->0, u32_of(parts[1])->0, u32_of(parts[2])->0))
    } else {
        None
    }
}

/// Lexicographic `a >= b` on version triples.
pub open spec fn version_ge(a: (u32, u32, u32), b: (u32, u32, u32)) -> bool {
    a.0 > b.0 || (a.0 == b.0 && (a.1 > b.1 || (a.1 == b.1 && a.2 >= b.2)))
}

pub open spec fn supports_spec(version: Option<Seq<char>>, minimum: (u32, u32, u32)) -> bool {
    match version {
        Some(v) => match parse_spec(v) {
            Some(p) => version_ge(p, minimum),
            None => false,
        },
        None => false,
    }
}

fn version_core_chars(v: &[char]) -> (r: Vec<char>)
    ensures
        r@ == version_core(v@),
{
    let n = v.len();
    let mut i: usize = 0;
    assert(v@.subrange(0, n as int) =~= v@);
    assert(v@.subrange(0, 0) + v@ =~= v@);
    while i < n && v[i] != '-' && v[i] != '+'
        invariant
            i <= n == v@.len(),
            version_core(v@) == v@.subrange(0, i as int) + version_core(
                v@.subrange(i as int, n as int),
            ),
        decreases n - i,
    {
        assert(v@.subrange(i as int, n as int).drop_first() =~= v@.subrange(i + 1, n as int));
        assert(v@.subrange(0, i as int) + seq![v@[i as int]] =~= v@.subrange(0, i + 1));
        i = i + 1;
    }
    assert(version_core(v@.subrange(i as int, n as int)) =~= Seq::<char>::empty());
    assert(v@.subrange(0, i as int) + Seq::<char>::empty() =~= v@.subrange(0, i as int));
    slice_chars(v, 0, i)
}

pub fn parse_u32(part: &[char]) -> (r: Option<u32>)
    ensures
        r == u32_of(part@),
{
    match parse_unsigned_chars(part, 0xffff_ffff) {
        Some(v) => Some(v as u32),
        None => None,
    }
}

/// Parses an agent's reported version.
pub fn parse(version: &str) -> (r: Option<(u32, u32, u32)>)
    ensures
        r == parse_spec(version@),
{
    let chars = chars_of(version);
    let trimmed = trim_chars(chars.as_slice());
    let unprefixed = strip_leading_chars(trimmed.as_slice(), 'v');
    let core = version_core_chars(unprefixed.as_slice());
    let parts = split_chars(core.as_slice(), '.');
    proof {
        lemma_split_nonempty(core@, '.');
    }
    if parts.len() != 3 {
        return None;
    }
    assert(parts@[0]@ == views(parts@)[0]);
    assert(parts@[1]@ == views(parts@)[1]);
    assert(parts@[2]@ == views(parts@)[2]);
    let major = parse_u32(parts[0].as_slice());
    let minor = parse_u32(parts[1].as_slice());
    let patch = parse_u32(parts[2].as_slice());
    match (major, minor, patch) {
        (Some(a), Some(b), Some(c)) => Some((a, b, c)),
        _ => None,
    }
}

pub fn version_at_least(a: (u32, u32, u32), b: (u32, u32, u32)) -> (r: bool)
    ensures
        r == version_ge(a, b),
{
    a.0 > b.0 || (a.0 == b.0 && (a.1 > b.1 || (a.1 == b.1 && a.2 >= b.2)))
}

/// Whether a reported agent version is at least `minimum`. A missing or
/// unparseable version never qualifies.
pub fn supports(version: Option<&str>, minimum: (u32, u32, u32)) -> (r: bool)
    ensures
        r == supports_spec(
            match version {
                Some(v) => Some(v@),
                None => None,
            },
            minimum,
        ),
{
    match version {
        Some(v) => match parse(v) {
            Some(p) => version_at_least(p, minimum),
            None => false,
        },
        None => false,
    }
}

proof fn lemma_core_without_markers(s: Seq<char>)
    requires
        forall|i: int| 0 <= i < s.len() ==> #[trigger] s[i] != '-' && s[i] != '+',
    ensures
        version_core(s) == s,
    decreases s.len(),
{
    if s.len() > 0 {
        lemma_core_without_markers(s.drop_first());
        assert(seq![s[0]] + s.drop_first() =~= s);
    }
}

/// Formatting a version triple as `a.b.c` and parsing it gives the triple
/// back.
pub proof fn lemma_parse_formatted_version(a: u32, b: u32, c: u32)
    ensures
        parse_spec(
            decimal_text(a as nat) + seq!['.'] + decimal_text(b as nat) + seq!['.'] + decimal_text(c as nat),
        ) == Some((a, b, c)),
{
    let da = decimal_text(a as nat);
    let db = decimal_text(b as nat);
    let dc = decimal_text(c as nat);
    lemma_decimal_text_reads_back(a as nat);
    lemma_decimal_text_reads_back(b as nat);
    lemma_decimal_text_reads_back(c as nat);
    let s = da + seq!['.'] + db + seq!['.'] + dc;
    assert forall|i: int| 0 <= i < s.len() implies #[trigger] s[i] == '.' || is_ascii_digit(s[i]) by {
        if i < da.len() {
            assert(s[i] == da[i]);
        } else if i == da.len() {
        } else if i < da.len() + 1 + db.len() {
            assert(s[i] == db[i - da.len() - 1]);
        } else if i == da.len() + 1 + db.len() {
        } else {
            assert(s[i] == dc[i - da.len() - 2 - db.len()]);
        }
    }
    assert(s[0] == da[0]);
    assert(s.last() == dc.last());
    assert(!is_white_space(s[0]) && !is_white_space(s.last()));
    assert(trim_start(s) == s);
    assert(trim_end(s) == s);
    assert(strip_leading(s, 'v') == s);
    lemma_core_without_markers(s);
    assert forall|k: int| 0 <= k < db.len() implies #[trigger] db[k] != '.' by {}
    assert(!da.contains('.'));
    assert(!db.contains('.'));
    assert(!dc.contains('.'));
    lemma_split_without_separator(da, '.');
    lemma_split_then_part(da, '.', db);
    lemma_split_then_part(da + seq!['.'] + db, '.', dc);
    let parts = split(s, '.');
    assert(parts =~= seq![da, db, dc]);
    assert(unsigned_digits(da) == da);
    assert(unsigned_digits(db) == db);
    assert(unsigned_digits(dc) == dc);
}

/// Version triples are ordered lexicographically: the major number decides,
/// then the minor, then the patch. The order is total, antisymmetric and
/// transitive.
pub proof fn lemma_version_order_is_lexicographic(a: (u32, u32, u32), b: (u32, u32, u32), c: (u32, u32, u32))
    ensures
        a.0 > b.0 ==> version_ge(a, b),
        a.0 < b.0 ==> !version_ge(a, b),
        a.0 == b.0 && a.1 > b.1 ==> version_ge(a, b),
        a.0 == b.0 && a.1 < b.1 ==> !version_ge(a, b),
        a.0 == b.0 && a.1 == b.1 ==> (version_ge(a, b) <==> a.2 >= b.2),
        version_ge(a, b) || version_ge(b, a),
        version_ge(a, b) && version_ge(b, a) ==> a == b,
        version_ge(a, b) && version_ge(b, c) ==> version_ge(a, c),
{
}

/// A reported version passes a gate exactly when it parses to a triple that
/// is at least the minimum in that order: a higher major number passes
/// whatever the minor and patch, a lower one never does.
pub proof fn lemma_version_gate(version: Seq<char>, minimum: (u32, u32, u32))
    ensures
        parse_spec(version) is None ==> !supports_spec(Some(version), minimum),
        parse_spec(version) matches Some(p) ==> {
            &&& p.0 > minimum.0 ==> supports_spec(Some(version), minimum)
            &&& p.0 < minimum.0 ==> !supports_spec(Some(version), minimum)
            &&& p.0 == minimum.0 && p.1 > minimum.1 ==> supports_spec(Some(version), minimum)
            &&& p.0 == minimum.0 && p.1 < minimum.1 ==> !supports_spec(Some(version), minimum)
            &&& p.0 == minimum.0 && p.1 == minimum.1 ==> (supports_spec(Some(version), minimum) <==> p.2
                >= minimum.2)
        },
        !supports_spec(None, minimum),
{
}

} // verus!

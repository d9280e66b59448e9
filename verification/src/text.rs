//! Character-level text primitives shared by every parser and validator of
//! the crate. Strings are modelled by their `Seq<char>` view; each
//! executable helper is proved equal to the spec function beside it.

use vstd::prelude::*;

verus! {

pub open spec fn is_ascii_digit(c: char) -> bool {
    '0' <= c && c <= '9'
}

pub open spec fn is_ascii_lower(c: char) -> bool {
    'a' <= c && c <= 'z'
}

pub open spec fn is_ascii_upper(c: char) -> bool {
    'A' <= c && c <= 'Z'
}

pub open spec fn is_ascii_alnum(c: char) -> bool {
    is_ascii_digit(c) || is_ascii_lower(c) || is_ascii_upper(c)
}

/// The Unicode `White_Space` property, which is what `char::is_whitespace`
/// (and therefore `str::trim`) tests.
pub open spec fn is_white_space(c: char) -> bool {
    ||| ('\u{9}' <= c && c <= '\u{D}')
    ||| c == ' '
    ||| c == '\u{85}'
    ||| c == '\u{A0}'
    ||| c == '\u{1680}'
    ||| ('\u{2000}' <= c && c <= '\u{200A}')
    ||| c == '\u{2028}'
    ||| c == '\u{2029}'
    ||| c == '\u{202F}'
    ||| c == '\u{205F}'
    ||| c == '\u{3000}'
}

/// General category `Cc`, which is what `char::is_control` tests.
pub open spec fn is_control_char(c: char) -> bool {
    c <= '\u{1F}' || ('\u{7F}' <= c && c <= '\u{9F}')
}

pub open spec fn ascii_lower(c: char) -> char {
    if is_ascii_upper(c) {
        ((c as u32) + 32) as char
    } else {
        c
    }
}

/// Number of bytes of the UTF-8 encoding of one character.
pub open spec fn utf8_width(c: char) -> nat {
    if (c as u32) < 0x80 {
        1
    } else if (c as u32) < 0x800 {
        2
    } else if (c as u32) < 0x10000 {
        3
    } else {
        4
    }
}

/// Byte length of the UTF-8 encoding of a string (what `str::len` reports).
pub open spec fn utf8_len(s: Seq<char>) -> nat
    decreases s.len(),
{
    if s.len() == 0 {
        0
    } else {
        utf8_len(s.drop_last()) + utf8_width(s.last())
    }
}

pub open spec fn all_digits(s: Seq<char>) -> bool {
    forall|i: int| 0 <= i < s.len() ==> is_ascii_digit(#[trigger] s[i])
}

pub open spec fn trim_start(s: Seq<char>) -> Seq<char>
    decreases s.len(),
{
    if s.len() > 0 && is_white_space(s[0]) {
        trim_start(s.drop_first())
    } else {
        s
    }
}

pub open spec fn trim_end(s: Seq<char>) -> Seq<char>
    decreases s.len(),
{
    if s.len() > 0 && is_white_space(s.last()) {
        trim_end(s.drop_last())
    } else {
        s
    }
}

/// `str::trim`: leading and trailing white space removed.
pub open spec fn trim(s: Seq<char>) -> Seq<char> {
    trim_end(trim_start(s))
}

/// `str::trim_start_matches(c)` for a single character.
pub open spec fn strip_leading(s: Seq<char>, c: char) -> Seq<char>
    decreases s.len(),
{
    if s.len() > 0 && s[0] == c {
        strip_leading(s.drop_first(), c)
    } else {
        s
    }
}

/// `str::trim_end_matches(c)` for a single character.
pub open spec fn strip_trailing(s: Seq<char>, c: char) -> Seq<char>
    decreases s.len(),
{
    if s.len() > 0 && s.last() == c {
        strip_trailing(s.drop_last(), c)
    } else {
        s
    }
}

/// `str::trim_matches(c)` for a single character.
pub open spec fn strip_both(s: Seq<char>, c: char) -> Seq<char> {
    strip_trailing(strip_leading(s, c), c)
}

/// What `strip_leading` leaves is a suffix of its input that does not start
/// with the stripped character.
pub proof fn lemma_strip_leading_suffix(s: Seq<char>, c: char)
    ensures
        strip_leading(s, c).len() <= s.len(),
        strip_leading(s, c) == s.subrange(s.len() - strip_leading(s, c).len(), s.len() as int),
        strip_leading(s, c).len() > 0 ==> strip_leading(s, c)[0] != c,
    decreases s.len(),
{
    if s.len() > 0 && s[0] == c {
        lemma_strip_leading_suffix(s.drop_first(), c);
        let r = strip_leading(s.drop_first(), c);
        assert(s.drop_first().subrange(s.len() - 1 - r.len(), s.len() - 1) =~= s.subrange(
            s.len() - r.len(),
            s.len() as int,
        ));
    } else {
        assert(s.subrange(0, s.len() as int) =~= s);
    }
}

/// What `strip_trailing` leaves is a prefix of its input that does not end
/// with the stripped character.
pub proof fn lemma_strip_trailing_prefix(s: Seq<char>, c: char)
    ensures
        strip_trailing(s, c).len() <= s.len(),
        strip_trailing(s, c) == s.subrange(0, strip_trailing(s, c).len() as int),
        strip_trailing(s, c).len() > 0 ==> strip_trailing(s, c).last() != c,
    decreases s.len(),
{
    if s.len() > 0 && s.last() == c {
        lemma_strip_trailing_prefix(s.drop_last(), c);
        let r = strip_trailing(s.drop_last(), c);
        assert(s.drop_last().subrange(0, r.len() as int) =~= s.subrange(0, r.len() as int));
    } else {
        assert(s.subrange(0, s.len() as int) =~= s);
    }
}

pub open spec fn starts_with(s: Seq<char>, w: Seq<char>) -> bool {
    w.len() <= s.len() && s.subrange(0, w.len() as int) == w
}

pub open spec fn ends_with(s: Seq<char>, w: Seq<char>) -> bool {
    w.len() <= s.len() && s.subrange(s.len() - w.len(), s.len() as int) == w
}

pub open spec fn matches_at(s: Seq<char>, w: Seq<char>, i: int) -> bool {
    0 <= i && i + w.len() <= s.len() && s.subrange(i, i + w.len()) == w
}

/// `str::contains` with a string pattern.
pub open spec fn contains(s: Seq<char>, w: Seq<char>) -> bool {
    exists|i: int| #[trigger] matches_at(s, w, i)
}

/// Position of the first occurrence of `w` at or after `i`.
pub open spec fn first_match_from(s: Seq<char>, w: Seq<char>, i: int) -> Option<int>
    decreases s.len() + 1 - i,
{
    if i < 0 || i + w.len() > s.len() {
        None
    } else if matches_at(s, w, i) {
        Some(i)
    } else {
        first_match_from(s, w, i + 1)
    }
}

/// `str::find` with a string pattern.
pub open spec fn first_match(s: Seq<char>, w: Seq<char>) -> Option<int> {
    first_match_from(s, w, 0)
}

/// `str::trim_end_matches(w)` for a non-empty string pattern.
pub open spec fn strip_trailing_seq(s: Seq<char>, w: Seq<char>) -> Seq<char>
    decreases s.len(),
{
    if w.len() > 0 && ends_with(s, w) {
        strip_trailing_seq(s.subrange(0, s.len() - w.len()), w)
    } else {
        s
    }
}

/// `str::split(sep)` for a single-character separator: always at least one
/// (possibly empty) part.
pub open spec fn split(s: Seq<char>, sep: char) -> Seq<Seq<char>>
    decreases s.len(),
{
    if s.len() == 0 {
        seq![Seq::<char>::empty()]
    } else {
        let p = split(s.drop_last(), sep);
        if s.last() == sep {
            p.push(Seq::<char>::empty())
        } else {
            p.update(p.len() - 1, p.last().push(s.last()))
        }
    }
}

/// `a.join(sep)` over parts.
pub open spec fn join(parts: Seq<Seq<char>>, sep: Seq<char>) -> Seq<char>
    decreases parts.len(),
{
    if parts.len() == 0 {
        Seq::empty()
    } else if parts.len() == 1 {
        parts[0]
    } else {
        join(parts.drop_last(), sep) + sep + parts.last()
    }
}

pub open spec fn digit_value(c: char) -> nat {
    ((c as u32) - ('0' as u32)) as nat
}

pub open spec fn decimal_value(s: Seq<char>) -> nat
    decreases s.len(),
{
    if s.len() == 0 {
        0
    } else {
        decimal_value(s.drop_last()) * 10 + digit_value(s.last())
    }
}

/// The digits that `FromStr` for an unsigned integer reads: one optional
/// leading `+` is skipped.
pub open spec fn unsigned_digits(s: Seq<char>) -> Seq<char> {
    if s.len() > 0 && s[0] == '+' {
        s.drop_first()
    } else {
        s
    }
}

/// `str::parse::<uN>()` where `max` is `uN::MAX`: an optional `+`, then at
/// least one ASCII digit, and a value that fits.
pub open spec fn parse_unsigned(s: Seq<char>, max: nat) -> Option<nat> {
    let d = unsigned_digits(s);
    if d.len() > 0 && all_digits(d) && decimal_value(d) <= max {
        Some(decimal_value(d))
    } else {
        None
    }
}

pub open spec fn views(v: Seq<Vec<char>>) -> Seq<Seq<char>> {
    v.map_values(|x: Vec<char>| x@)
}

pub proof fn lemma_split_nonempty(s: Seq<char>, sep: char)
    ensures
        split(s, sep).len() >= 1,
    decreases s.len(),
{
    if s.len() > 0 {
        lemma_split_nonempty(s.drop_last(), sep);
    }
}

pub proof fn lemma_decimal_prefix(s: Seq<char>, k: int)
    requires
        0 <= k <= s.len(),
    ensures
        decimal_value(s.take(k)) <= decimal_value(s),
    decreases s.len(),
{
    if k < s.len() {
        assert(s.drop_last().take(k) =~= s.take(k));
        lemma_decimal_prefix(s.drop_last(), k);
    } else {
        assert(s.take(k) =~= s);
    }
}

/// The decimal digit character for `d < 10`.
pub open spec fn digit_char(d: nat) -> char {
    (('0' as u32) + d) as char
}

/// Decimal rendering of a natural number, as `Display` writes it.
pub open spec fn decimal_text(n: nat) -> Seq<char>
    decreases n,
{
    if n < 10 {
        seq![digit_char(n)]
    } else {
        decimal_text(n / 10).push(digit_char(n % 10))
    }
}

/// The decimal text of `n` is a non-empty run of digits that reads back as
/// `n`.
pub proof fn lemma_decimal_text_reads_back(n: nat)
    ensures
        decimal_text(n).len() > 0,
        all_digits(decimal_text(n)),
        decimal_value(decimal_text(n)) == n,
    decreases n,
{
    let d = digit_char(n % 10);
    assert((('0' as u32) + n % 10) as char as u32 == ('0' as u32) + n % 10);
    assert(is_ascii_digit(d));
    assert(digit_value(d) == n % 10);
    if n < 10 {
        assert(n % 10 == n);
        assert(seq![d].drop_last() =~= Seq::<char>::empty());
        assert(decimal_value(Seq::<char>::empty()) == 0);
        assert(decimal_value(seq![d]) == decimal_value(seq![d].drop_last()) * 10 + digit_value(d));
    } else {
        lemma_decimal_text_reads_back(n / 10);
        let t = decimal_text(n / 10);
        assert(decimal_text(n) == t.push(d));
        assert(t.push(d).drop_last() =~= t);
        assert(decimal_value(t.push(d)) == decimal_value(t) * 10 + digit_value(d));
        assert(n == (n / 10) * 10 + n % 10) by (nonlinear_arith);
        assert forall|i: int| 0 <= i < t.push(d).len() implies is_ascii_digit(#[trigger] t.push(d)[i]) by {
            if i < t.len() {
                assert(t.push(d)[i] == t[i]);
            }
        }
    }
}

/// Splitting text without the separator gives the text itself.
pub proof fn lemma_split_without_separator(a: Seq<char>, sep: char)
    requires
        !a.contains(sep),
    ensures
        split(a, sep) == seq![a],
    decreases a.len(),
{
    if a.len() == 0 {
        assert(a =~= Seq::<char>::empty());
    } else {
        assert(!a.drop_last().contains(sep)) by {
            if a.drop_last().contains(sep) {
                let k = choose|k: int| 0 <= k < a.drop_last().len() && a.drop_last()[k] == sep;
                assert(a[k] == sep);
            }
        }
        lemma_split_without_separator(a.drop_last(), sep);
        assert(a[a.len() - 1] != sep);
        assert(a.drop_last().push(a.last()) =~= a);
        assert(seq![a.drop_last()].update(0, a.drop_last().push(a.last())) =~= seq![a]);
    }
}

/// A separator followed by text without one adds that text as the last
/// part.
pub proof fn lemma_split_then_part(a: Seq<char>, sep: char, b: Seq<char>)
    requires
        !b.contains(sep),
    ensures
        split(a + seq![sep] + b, sep) == split(a, sep).push(b),
    decreases b.len(),
{
    let s = a + seq![sep] + b;
    if b.len() == 0 {
        assert(b =~= Seq::<char>::empty());
        assert(s.drop_last() =~= a);
        assert(s.last() == sep);
        assert(split(s, sep) == split(s.drop_last(), sep).push(Seq::<char>::empty()));
    } else {
        assert(!b.drop_last().contains(sep)) by {
            if b.drop_last().contains(sep) {
                let k = choose|k: int| 0 <= k < b.drop_last().len() && b.drop_last()[k] == sep;
                assert(b[k] == sep);
            }
        }
        lemma_split_then_part(a, sep, b.drop_last());
        assert(s.drop_last() =~= a + seq![sep] + b.drop_last());
        assert(s.last() == b.last());
        assert(b[b.len() - 1] != sep);
        lemma_split_nonempty(a, sep);
        assert(b.drop_last().push(b.last()) =~= b);
        assert(split(a, sep).push(b.drop_last()).update(split(a, sep).len() as int, b) =~= split(a, sep).push(
            b,
        ));
    }
}

/// The decimal text of `n`.
pub fn decimal_string(n: u64) -> (r: String)
    ensures
        r@ == decimal_text(n as nat),
{
    let mut digits: Vec<char> = Vec::new();
    let mut m: u64 = n;
    // `digits` holds the low-order digits, least significant first.
    while m >= 10
        invariant
            decimal_text(n as nat) == decimal_text(m as nat) + digits@.reverse(),
        decreases m,
    {
        let d = m % 10;
        let c = (('0' as u32) + (d as u32)) as u8 as char;
        assert(c == digit_char(d as nat)) by {
            assert(('0' as u32) + (d as u32) < 256);
        }
        assert(decimal_text(m as nat) == decimal_text((m / 10) as nat).push(c));
        digits.push(c);
        assert(digits@.reverse() =~= seq![c] + digits@.drop_last().reverse());
        m = m / 10;
    }
    let first = (('0' as u32) + (m as u32)) as u8 as char;
    assert(first == digit_char(m as nat));
    let mut out: Vec<char> = Vec::new();
    out.push(first);
    let k = digits.len();
    let mut i: usize = k;
    while i > 0
        invariant
            i <= k == digits@.len(),
            out@ == seq![first] + digits@.subrange(i as int, k as int).reverse(),
        decreases i,
    {
        i = i - 1;
        out.push(digits[i]);
        assert(digits@.subrange(i as int, k as int).reverse() =~= digits@.subrange(
            i + 1,
            k as int,
        ).reverse().push(digits@[i as int]));
    }
    assert(digits@.subrange(0, k as int) =~= digits@);
    string_of(out.as_slice())
}

/// Decimal rendering of a signed number, as `Display` writes it.
pub open spec fn signed_decimal_text(v: int) -> Seq<char> {
    if v < 0 {
        seq!['-'] + decimal_text((-v) as nat)
    } else {
        decimal_text(v as nat)
    }
}

/// The decimal text of a signed 64-bit number.
pub fn signed_decimal_string(v: i64) -> (r: String)
    ensures
        r@ == signed_decimal_text(v as int),
{
    if v < 0 {
        let a: u64 = ((-(v + 1)) as u64) + 1;
        let mut r = String::new();
        push_char(&mut r, '-');
        let d = decimal_string(a);
        push_str(&mut r, d.as_str());
        assert(r@ =~= seq!['-'] + decimal_text((-v) as nat));
        r
    } else {
        decimal_string(v as u64)
    }
}

pub fn ascii_digit(c: char) -> (b: bool)
    ensures
        b == is_ascii_digit(c),
{
    '0' <= c && c <= '9'
}

pub fn ascii_lowercase_letter(c: char) -> (b: bool)
    ensures
        b == is_ascii_lower(c),
{
    'a' <= c && c <= 'z'
}

pub fn ascii_alnum(c: char) -> (b: bool)
    ensures
        b == is_ascii_alnum(c),
{
    ('0' <= c && c <= '9') || ('a' <= c && c <= 'z') || ('A' <= c && c <= 'Z')
}

pub fn white_space(c: char) -> (b: bool)
    ensures
        b == is_white_space(c),
{
    ('\u{9}' <= c && c <= '\u{D}') || c == ' ' || c == '\u{85}' || c == '\u{A0}' || c
        == '\u{1680}' || ('\u{2000}' <= c && c <= '\u{200A}') || c == '\u{2028}' || c
        == '\u{2029}' || c == '\u{202F}' || c == '\u{205F}' || c == '\u{3000}'
}

pub fn control_char(c: char) -> (b: bool)
    ensures
        b == is_control_char(c),
{
    c <= '\u{1F}' || ('\u{7F}' <= c && c <= '\u{9F}')
}

pub fn to_ascii_lower(c: char) -> (r: char)
    ensures
        r == ascii_lower(c),
{
    if 'A' <= c && c <= 'Z' {
        let u: u32 = (c as u32) + 32;
        assert(u <= 0x7f);
        let r: char = (u as u8) as char;
        assert(r as u32 == u);
        r
    } else {
        c
    }
}

pub fn char_utf8_width(c: char) -> (n: usize)
    ensures
        n == utf8_width(c),
{
    let u = c as u32;
    if u < 0x80 {
        1
    } else if u < 0x800 {
        2
    } else if u < 0x10000 {
        3
    } else {
        4
    }
}

/// The characters of a string, in order.
pub fn chars_of(s: &str) -> (out: Vec<char>)
    ensures
        out@ == s@,
{
    let mut out: Vec<char> = Vec::new();
    for c in it: s.chars()
        invariant
            out@ == it.seq().take(it.index() as int),
    {
        out.push(c);
    }
    out
}

/// Appends one character (`String::push`).
#[verifier::external_body]
pub(crate) fn push_char(s: &mut String, c: char)
    ensures
        final(s)@ == old(s)@.push(c),
{
    s.push(c);
}

/// The string made of the given characters.
pub fn string_of(v: &[char]) -> (s: String)
    ensures
        s@ == v@,
{
    let mut s = String::new();
    let n = v.len();
    for i in 0..n
        invariant
            n == v@.len(),
            s@ == v@.take(i as int),
    {
        push_char(&mut s, v[i]);
        assert(v@.take(i as int).push(v@[i as int]) =~= v@.take(i + 1));
    }
    assert(v@.take(n as int) =~= v@);
    s
}

pub fn string_from(s: &str) -> (r: String)
    ensures
        r@ == s@,
{
    let v = chars_of(s);
    string_of(v.as_slice())
}

/// Byte length of the UTF-8 encoding of `v`, saturating at `usize::MAX`.
pub fn utf8_length(v: &[char]) -> (n: usize)
    ensures
        utf8_len(v@) <= usize::MAX ==> n == utf8_len(v@),
        utf8_len(v@) > usize::MAX ==> n == usize::MAX,
{
    let mut n: usize = 0;
    let len = v.len();
    let mut saturated = false;
    for i in 0..len
        invariant
            len == v@.len(),
            !saturated ==> n == utf8_len(v@.take(i as int)),
            saturated ==> n == usize::MAX && utf8_len(v@.take(i as int)) > usize::MAX,
    {
        proof {
            assert(v@.take(i + 1).drop_last() =~= v@.take(i as int));
        }
        let w = char_utf8_width(v[i]);
        if saturated {
        } else if n > usize::MAX - w {
            saturated = true;
            n = usize::MAX;
        } else {
            n = n + w;
        }
    }
    assert(v@.take(len as int) =~= v@);
    n
}

/// The text that `format!("{s:?}")` produces for a string: Rust's quoted,
/// escaped debug form.
pub uninterp spec fn debug_quoted(s: Seq<char>) -> Seq<char>;

/// `<str as Debug>::fmt`, rendered into a new string.
#[verifier::external_body]
pub(crate) fn debug_str(s: &str) -> (r: String)
    ensures
        r@ == debug_quoted(s@),
{
    format!("{s:?}")
}

/// The lowercase form of a string under the Unicode `Lowercase` mapping, as
/// `str::to_lowercase` computes it.
pub uninterp spec fn unicode_lowercase(s: Seq<char>) -> Seq<char>;

/// `str::to_lowercase`. Besides naming the result, claimed from the
/// documented mapping: no ASCII uppercase letter survives lowercasing, and an
/// all-ASCII string is lowered character by character as
/// `to_ascii_lowercase` does.
#[verifier::external_body]
pub(crate) fn to_lowercase(s: &str) -> (r: String)
    ensures
        r@ == unicode_lowercase(s@),
        forall|i: int| 0 <= i < r@.len() ==> !is_ascii_upper(#[trigger] r@[i]),
        (forall|i: int| 0 <= i < s@.len() ==> (#[trigger] s@[i] as u32) < 0x80) ==> r@
            == s@.map_values(|c: char| ascii_lower(c)),
{
    s.to_lowercase()
}

/// Appends a string (`String::push_str`), proved from `push_char`.
pub fn push_str(s: &mut String, t: &str)
    ensures
        final(s)@ == old(s)@ + t@,
{
    let v = chars_of(t);
    let n = v.len();
    let ghost start = s@;
    for i in 0..n
        invariant
            n == v@.len(),
            v@ == t@,
            s@ == start + v@.take(i as int),
    {
        push_char(s, v[i]);
        assert(start + v@.take(i + 1) =~= start + v@.take(i as int) + seq![v@[i as int]]);
    }
    assert(v@.take(n as int) =~= v@);
}

/// `a + b + c` as a new string.
pub fn concat3(a: &str, b: &str, c: &str) -> (r: String)
    ensures
        r@ == a@ + b@ + c@,
{
    let mut r = string_from(a);
    push_str(&mut r, b);
    push_str(&mut r, c);
    r
}

/// Joins the parts with `sep` between consecutive parts.
pub fn join_chars(parts: &Vec<Vec<char>>, sep: &[char]) -> (r: Vec<char>)
    ensures
        r@ == join(views(parts@), sep@),
{
    let mut r: Vec<char> = Vec::new();
    let n = parts.len();
    let ghost ps = views(parts@);
    for i in 0..n
        invariant
            n == parts@.len(),
            ps == views(parts@),
            r@ == join(ps.take(i as int), sep@),
    {
        if i > 0 {
            let mut k: usize = 0;
            let ghost before = r@;
            while k < sep.len()
                invariant
                    k <= sep@.len(),
                    r@ == before + sep@.take(k as int),
                decreases sep@.len() - k,
            {
                r.push(sep[k]);
                assert(before + sep@.take(k + 1) =~= before + sep@.take(k as int) + seq![sep@[k as int]]);
                k = k + 1;
            }
            assert(sep@.take(k as int) =~= sep@);
        }
        let part = &parts[i];
        let ghost mid = r@;
        let m = part.len();
        for j in 0..m
            invariant
                m == part@.len(),
                r@ == mid + part@.take(j as int),
        {
            r.push(part[j]);
            assert(mid + part@.take(j + 1) =~= mid + part@.take(j as int) + seq![part@[j as int]]);
        }
        assert(part@.take(m as int) =~= part@);
        assert(ps.take(i + 1).drop_last() =~= ps.take(i as int));
        assert(ps.take(i + 1).last() == part@);
        if i == 0 {
            assert(ps.take(1) =~= seq![part@]);
        }
    }
    assert(ps.take(n as int) =~= ps);
    r
}

pub fn all_ascii_digits(v: &[char]) -> (b: bool)
    ensures
        b == all_digits(v@),
{
    let n = v.len();
    for i in 0..n
        invariant
            n == v@.len(),
            forall|k: int| 0 <= k < i ==> is_ascii_digit(#[trigger] v@[k]),
    {
        if !ascii_digit(v[i]) {
            return false;
        }
    }
    true
}

/// `str::parse::<uN>()` with `uN::MAX == max`.
pub fn parse_unsigned_chars(s: &[char], max: u64) -> (r: Option<u64>)
    ensures
        r matches Some(v) ==> parse_unsigned(s@, max as nat) == Some(v as nat),
        r is None ==> parse_unsigned(s@, max as nat) is None,
{
    let ghost d = unsigned_digits(s@);
    let start: usize = if s.len() > 0 && s[0] == '+' {
        1
    } else {
        0
    };
    assert(d =~= s@.subrange(start as int, s@.len() as int));
    if start >= s.len() {
        return None;
    }
    let mut acc: u64 = 0;
    let mut i = start;
    while i < s.len()
        invariant
            start <= i <= s.len(),
            d == unsigned_digits(s@),
            d =~= s@.subrange(start as int, s@.len() as int),
            d.len() > 0,
            acc == decimal_value(d.take(i - start)),
            acc <= max,
            forall|k: int| 0 <= k < i - start ==> is_ascii_digit(#[trigger] d[k]),
        decreases s.len() - i,
    {
        let c = s[i];
        let ghost j: int = i - start;
        assert(d[j] == c);
        assert(d.take(j + 1).drop_last() =~= d.take(j));
        if !ascii_digit(c) {
            return None;
        }
        let dv = (c as u32 - '0' as u32) as u64;
        assert(dv == digit_value(c));
        if dv > max {
            proof {
                assert(decimal_value(d.take(j + 1)) >= dv) by (nonlinear_arith)
                    requires
                        decimal_value(d.take(j + 1)) == decimal_value(d.take(j)) * 10 + dv,
                ;
                lemma_decimal_prefix(d, j + 1);
            }
            return None;
        }
        if acc > (max - dv) / 10 {
            proof {
                assert(acc * 10 + dv > max) by (nonlinear_arith)
                    requires
                        acc > (max - dv) / 10,
                        dv <= max,
                ;
                lemma_decimal_prefix(d, j + 1);
            }
            return None;
        }
        proof {
            assert(acc * 10 + dv <= max) by (nonlinear_arith)
                requires
                    acc <= (max - dv) / 10,
                    dv <= max,
            ;
        }
        acc = acc * 10 + dv;
        i = i + 1;
    }
    assert(d.take(d.len() as int) =~= d);
    assert(all_digits(d));
    Some(acc)
}

/// Whether two character sequences are the same.
pub fn equals_chars(a: &[char], b: &[char]) -> (r: bool)
    ensures
        r == (a@ == b@),
{
    if a.len() != b.len() {
        return false;
    }
    let r = match_at(a, b, 0);
    assert(a@.subrange(0, b@.len() as int) =~= a@);
    r
}

/// Whether the characters `v` spell exactly the string `t`.
pub fn equals_str(v: &[char], t: &str) -> (b: bool)
    ensures
        b == (v@ == t@),
{
    let w = chars_of(t);
    if w.len() != v.len() {
        return false;
    }
    let r = match_at(v, w.as_slice(), 0);
    assert(v@.subrange(0, w@.len() as int) =~= v@);
    r
}

/// Whether `w` occurs in `s` at position `i`.
pub fn match_at(s: &[char], w: &[char], i: usize) -> (b: bool)
    ensures
        b == matches_at(s@, w@, i as int),
{
    if i > s.len() || w.len() > s.len() - i {
        return false;
    }
    let m = w.len();
    let sl = s.len();
    for k in 0..m
        invariant
            m == w@.len(),
            sl == s@.len(),
            i + m <= s@.len(),
            forall|t: int| 0 <= t < k ==> s@[i + t] == w@[t],
    {
        assert(k < m);
        if s[i + k] != w[k] {
            assert(s@.subrange(i as int, i + m)[k as int] != w@[k as int]);
            return false;
        }
    }
    assert(s@.subrange(i as int, i + m) =~= w@);
    true
}

/// First position where `w` occurs in `s`, if any (`str::find`).
pub fn find_seq(s: &[char], w: &[char]) -> (r: Option<usize>)
    ensures
        r matches Some(i) ==> matches_at(s@, w@, i as int) && forall|k: int|
            0 <= k < i ==> !#[trigger] matches_at(s@, w@, k),
        r is None ==> !contains(s@, w@),
        r matches Some(i) ==> first_match(s@, w@) == Some(i as int),
        r is None ==> first_match(s@, w@) is None,
{
    if w.len() > s.len() {
        assert forall|k: int| !#[trigger] matches_at(s@, w@, k) by {}
        return None;
    }
    let last = s.len() - w.len();
    let mut i: usize = 0;
    while i < last
        invariant
            i <= last,
            last == s@.len() - w@.len(),
            forall|k: int| 0 <= k < i ==> !#[trigger] matches_at(s@, w@, k),
            first_match(s@, w@) == first_match_from(s@, w@, i as int),
        decreases last - i,
    {
        if match_at(s, w, i) {
            return Some(i);
        }
        i = i + 1;
    }
    if match_at(s, w, last) {
        return Some(last);
    }
    assert(first_match_from(s@, w@, last + 1) is None);
    assert forall|k: int| !#[trigger] matches_at(s@, w@, k) by {
        if 0 <= k < i {
        }
    }
    None
}

pub fn contains_seq(s: &[char], w: &[char]) -> (b: bool)
    ensures
        b == contains(s@, w@),
{
    match find_seq(s, w) {
        Some(i) => {
            assert(matches_at(s@, w@, i as int));
            true
        },
        None => false,
    }
}

pub fn starts_with_seq(s: &[char], w: &[char]) -> (b: bool)
    ensures
        b == starts_with(s@, w@),
{
    match_at(s, w, 0)
}

pub fn ends_with_seq(s: &[char], w: &[char]) -> (b: bool)
    ensures
        b == ends_with(s@, w@),
{
    if w.len() > s.len() {
        return false;
    }
    match_at(s, w, s.len() - w.len())
}

/// `v[from..to]` as an owned vector.
pub fn slice_chars(v: &[char], from: usize, to: usize) -> (r: Vec<char>)
    requires
        from <= to <= v@.len(),
    ensures
        r@ == v@.subrange(from as int, to as int),
{
    let mut r: Vec<char> = Vec::new();
    let mut i = from;
    while i < to
        invariant
            from <= i <= to <= v@.len(),
            r@ == v@.subrange(from as int, i as int),
        decreases to - i,
    {
        r.push(v[i]);
        assert(v@.subrange(from as int, i as int).push(v@[i as int]) =~= v@.subrange(
            from as int,
            i + 1,
        ));
        i = i + 1;
    }
    r
}

/// An owned copy of the characters.
pub fn copy_chars(v: &[char]) -> (r: Vec<char>)
    ensures
        r@ == v@,
{
    let r = slice_chars(v, 0, v.len());
    assert(v@.subrange(0, v@.len() as int) =~= v@);
    r
}

pub fn trim_chars(v: &[char]) -> (r: Vec<char>)
    ensures
        r@ == trim(v@),
{
    let n = v.len();
    let mut i: usize = 0;
    assert(v@.subrange(0, n as int) =~= v@);
    while i < n && white_space(v[i])
        invariant
            i <= n == v@.len(),
            trim_start(v@) == trim_start(v@.subrange(i as int, n as int)),
        decreases n - i,
    {
        assert(v@.subrange(i as int, n as int).drop_first() =~= v@.subrange(i + 1, n as int));
        i = i + 1;
    }
    let mut j: usize = n;
    while j > i && white_space(v[j - 1])
        invariant
            i <= j <= n == v@.len(),
            trim_start(v@) == trim_start(v@.subrange(i as int, n as int)),
            i < n ==> !is_white_space(v@[i as int]),
            trim_end(v@.subrange(i as int, n as int)) == trim_end(v@.subrange(i as int, j as int)),
        decreases j - i,
    {
        assert(v@.subrange(i as int, j as int).drop_last() =~= v@.subrange(i as int, j - 1));
        j = j - 1;
    }
    assert(trim_start(v@.subrange(i as int, n as int)) == v@.subrange(i as int, n as int));
    slice_chars(v, i, j)
}

pub fn strip_leading_chars(v: &[char], c: char) -> (r: Vec<char>)
    ensures
        r@ == strip_leading(v@, c),
{
    let n = v.len();
    let mut i: usize = 0;
    assert(v@.subrange(0, n as int) =~= v@);
    while i < n && v[i] == c
        invariant
            i <= n == v@.len(),
            strip_leading(v@, c) == strip_leading(v@.subrange(i as int, n as int), c),
        decreases n - i,
    {
        assert(v@.subrange(i as int, n as int).drop_first() =~= v@.subrange(i + 1, n as int));
        i = i + 1;
    }
    slice_chars(v, i, n)
}

pub fn strip_trailing_chars(v: &[char], c: char) -> (r: Vec<char>)
    ensures
        r@ == strip_trailing(v@, c),
{
    let n = v.len();
    let mut j: usize = n;
    assert(v@.subrange(0, n as int) =~= v@);
    while j > 0 && v[j - 1] == c
        invariant
            j <= n == v@.len(),
            strip_trailing(v@, c) == strip_trailing(v@.subrange(0, j as int), c),
        decreases j,
    {
        assert(v@.subrange(0, j as int).drop_last() =~= v@.subrange(0, j - 1));
        j = j - 1;
    }
    slice_chars(v, 0, j)
}

pub fn strip_both_chars(v: &[char], c: char) -> (r: Vec<char>)
    ensures
        r@ == strip_both(v@, c),
{
    let a = strip_leading_chars(v, c);
    strip_trailing_chars(a.as_slice(), c)
}

/// Splits on every occurrence of `sep`.
pub fn split_chars(v: &[char], sep: char) -> (parts: Vec<Vec<char>>)
    ensures
        views(parts@) == split(v@, sep),
{
    let mut parts: Vec<Vec<char>> = Vec::new();
    let mut cur: Vec<char> = Vec::new();
    let n = v.len();
    assert(v@.take(0) =~= Seq::<char>::empty());
    assert(views(parts@).push(cur@) =~= split(v@.take(0), sep));
    for i in 0..n
        invariant
            n == v@.len(),
            views(parts@).push(cur@) == split(v@.take(i as int), sep),
    {
        let c = v[i];
        let ghost before = split(v@.take(i as int), sep);
        assert(v@.take(i + 1).drop_last() =~= v@.take(i as int));
        assert(v@.take(i + 1).last() == c);
        proof {
            lemma_split_nonempty(v@.take(i as int), sep);
        }
        if c == sep {
            let done = cur;
            parts.push(done);
            cur = Vec::new();
            assert(views(parts@) =~= before);
            assert(views(parts@).push(cur@) =~= split(v@.take(i + 1), sep));
        } else {
            cur.push(c);
            assert(views(parts@).push(cur@) =~= split(v@.take(i + 1), sep));
        }
    }
    assert(v@.take(n as int) =~= v@);
    parts.push(cur);
    assert(views(parts@) =~= split(v@, sep));
    parts
}

} // verus!

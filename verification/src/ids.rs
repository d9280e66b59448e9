//! Identifiers as text: the hyphenated lowercase form of a UUID's 128-bit
//! value, as `uuid::Uuid` displays it.

use vstd::prelude::*;

verus! {

/// The lowercase hexadecimal digit for `d < 16`.
pub open spec fn hex_char(d: nat) -> char {
    if d < 10 {
        (('0' as u32) + d) as char
    } else {
        (('a' as u32) + d - 10) as char
    }
}

/// The `n` lowest hexadecimal digits of `x`, most significant first.
pub open spec fn hex_digits(x: nat, n: nat) -> Seq<char>
    decreases n,
{
    if n == 0 {
        Seq::empty()
    } else {
        hex_digits(x / 16, (n - 1) as nat).push(hex_char(x % 16))
    }
}

/// What `uuid::Uuid::parse_str` makes of a text, as the 128-bit value
/// (`Uuid::as_u128`), when it accepts it.
pub uninterp spec fn parsed_uuid(s: Seq<char>) -> Option<u128>;

/// `uuid::Uuid::parse_str(s)` as a 128-bit value. It accepts the simple,
/// hyphenated, braced and URN forms; of these only the hyphenated
/// lowercase form is stated here: it parses back to the value it shows.
#[verifier::external_body]
pub(crate) fn parse_uuid(s: &str) -> (r: Option<u128>)
    ensures
        r == parsed_uuid(s@),
        forall|v: u128| s@ == #[trigger] uuid_text(v) ==> r == Some(v),
{
    match uuid::Uuid::parse_str(s) {
        Ok(u) => Some(u.as_u128()),
        Err(_) => None,
    }
}

/// `xxxxxxxx-xxxx-xxxx-xxxx-xxxxxxxxxxxx` over the 32 digits of the value.
pub open spec fn uuid_text(id: u128) -> Seq<char> {
    let h = hex_digits(id as nat, 32);
    h.subrange(0, 8) + "-"@ + h.subrange(8, 12) + "-"@ + h.subrange(12, 16) + "-"@ + h.subrange(16, 20)
        + "-"@ + h.subrange(20, 32)
}

proof fn lemma_hex_digits_len(x: nat, n: nat)
    ensures
        hex_digits(x, n).len() == n,
    decreases n,
{
    if n > 0 {
        lemma_hex_digits_len(x / 16, (n - 1) as nat);
    }
}

fn hex_of(d: u128) -> (c: char)
    requires
        d < 16,
    ensures
        c == hex_char(d as nat),
{
    let v = d as u8;
    if v < 10 {
        (('0' as u8) + v) as char
    } else {
        (('a' as u8) + v - 10) as char
    }
}

fn hex_digits_of(x: u128, n: usize) -> (r: Vec<char>)
    ensures
        r@ == hex_digits(x as nat, n as nat),
    decreases n,
{
    if n == 0 {
        Vec::new()
    } else {
        let mut v = hex_digits_of(x / 16, n - 1);
        v.push(hex_of(x % 16));
        v
    }
}

/// The hyphenated text of a UUID given by its 128-bit value.
pub fn uuid_string(id: u128) -> (r: String)
    ensures
        r@ == uuid_text(id),
{
    let h = hex_digits_of(id, 32);
    proof {
        lemma_hex_digits_len(id as nat, 32);
    }
    let mut out: Vec<char> = Vec::new();
    let mut i: usize = 0;
    while i < 32
        invariant
            h@ == hex_digits(id as nat, 32),
            h@.len() == 32,
            i <= 32,
            out@ == (if i <= 8 {
                h@.subrange(0, i as int)
            } else if i <= 12 {
                h@.subrange(0, 8) + "-"@ + h@.subrange(8, i as int)
            } else if i <= 16 {
                h@.subrange(0, 8) + "-"@ + h@.subrange(8, 12) + "-"@ + h@.subrange(12, i as int)
            } else if i <= 20 {
                h@.subrange(0, 8) + "-"@ + h@.subrange(8, 12) + "-"@ + h@.subrange(12, 16) + "-"@
                    + h@.subrange(16, i as int)
            } else {
                h@.subrange(0, 8) + "-"@ + h@.subrange(8, 12) + "-"@ + h@.subrange(12, 16) + "-"@
                    + h@.subrange(16, 20) + "-"@ + h@.subrange(20, i as int)
            }),
        decreases 32 - i,
    {
        proof {
            reveal_strlit("-");
        }
        let ghost prev = out@;
        if i == 8 || i == 12 || i == 16 || i == 20 {
            out.push('-');
        }
        out.push(h[i]);
        assert(h@.subrange(0, i + 1) =~= h@.subrange(0, i as int).push(h@[i as int]));
        proof {
            if i >= 8 {
                assert(h@.subrange(8, i + 1) =~= h@.subrange(8, i as int).push(h@[i as int]));
            }
            if i >= 12 {
                assert(h@.subrange(12, i + 1) =~= h@.subrange(12, i as int).push(h@[i as int]));
            }
            if i >= 16 {
                assert(h@.subrange(16, i + 1) =~= h@.subrange(16, i as int).push(h@[i as int]));
            }
            if i >= 20 {
                assert(h@.subrange(20, i + 1) =~= h@.subrange(20, i as int).push(h@[i as int]));
            }
            assert(h@.subrange(8, 8) =~= Seq::<char>::empty());
            assert(h@.subrange(12, 12) =~= Seq::<char>::empty());
            assert(h@.subrange(16, 16) =~= Seq::<char>::empty());
            assert(h@.subrange(20, 20) =~= Seq::<char>::empty());
        }
        assert(out@ =~= (if i + 1 <= 8 {
            h@.subrange(0, i + 1)
        } else if i + 1 <= 12 {
            h@.subrange(0, 8) + "-"@ + h@.subrange(8, i + 1)
        } else if i + 1 <= 16 {
            h@.subrange(0, 8) + "-"@ + h@.subrange(8, 12) + "-"@ + h@.subrange(12, i + 1)
        } else if i + 1 <= 20 {
            h@.subrange(0, 8) + "-"@ + h@.subrange(8, 12) + "-"@ + h@.subrange(12, 16) + "-"@
                + h@.subrange(16, i + 1)
        } else {
            h@.subrange(0, 8) + "-"@ + h@.subrange(8, 12) + "-"@ + h@.subrange(12, 16) + "-"@
                + h@.subrange(16, 20) + "-"@ + h@.subrange(20, i + 1)
        }));
        i = i + 1;
    }
    crate::text::string_of(out.as_slice())
}

/// The lowercase hexadecimal text of `n` without leading zeros, as
/// `format!("{n:x}")` writes it.
pub open spec fn hex_text(n: nat) -> Seq<char>
    decreases n,
{
    if n < 16 {
        seq![hex_char(n)]
    } else {
        hex_text(n / 16).push(hex_char(n % 16))
    }
}

pub fn hex_string(n: u64) -> (r: String)
    ensures
        r@ == hex_text(n as nat),
    decreases n,
{
    if n < 16 {
        let mut s = String::new();
        crate::text::push_char(&mut s, hex_of(n as u128));
        assert(s@ =~= seq![hex_char(n as nat)]);
        s
    } else {
        let mut s = hex_string(n / 16);
        crate::text::push_char(&mut s, hex_of((n % 16) as u128));
        s
    }
}

/// The value of a hexadecimal digit (either case), if it is one.
pub open spec fn hex_value(c: char) -> Option<nat> {
    if '0' <= c && c <= '9' {
        Some((c as u32 - '0' as u32) as nat)
    } else if 'a' <= c && c <= 'f' {
        Some((c as u32 - 'a' as u32 + 10) as nat)
    } else if 'A' <= c && c <= 'F' {
        Some((c as u32 - 'A' as u32 + 10) as nat)
    } else {
        None
    }
}

pub open spec fn all_hex(s: Seq<char>) -> bool {
    forall|i: int| 0 <= i < s.len() ==> hex_value(#[trigger] s[i]) is Some
}

pub open spec fn hex_number(s: Seq<char>) -> nat
    decreases s.len(),
{
    if s.len() == 0 {
        0
    } else {
        hex_number(s.drop_last()) * 16 + hex_value(s.last())->0
    }
}

/// `u64::from_str_radix(s, 16)`: an optional `+`, then at least one
/// hexadecimal digit, and a value that fits.
pub open spec fn parse_hex_u64(s: Seq<char>) -> Option<u64> {
    let d = if s.len() > 0 && s[0] == '+' {
        s.drop_first()
    } else {
        s
    };
    if d.len() > 0 && all_hex(d) && hex_number(d) <= u64::MAX {
        Some(hex_number(d) as u64)
    } else {
        None
    }
}

fn hex_digit_value(c: char) -> (r: Option<u64>)
    ensures
        r matches Some(v) ==> v < 16,
        match hex_value(c) {
            Some(v) => r == Some(v as u64),
            None => r is None,
        },
{
    if '0' <= c && c <= '9' {
        Some((c as u32 - '0' as u32) as u64)
    } else if 'a' <= c && c <= 'f' {
        Some((c as u32 - 'a' as u32 + 10) as u64)
    } else if 'A' <= c && c <= 'F' {
        Some((c as u32 - 'A' as u32 + 10) as u64)
    } else {
        None
    }
}

proof fn lemma_hex_prefix(s: Seq<char>, k: int)
    requires
        0 <= k <= s.len(),
        all_hex(s),
    ensures
        hex_number(s.take(k)) <= hex_number(s),
    decreases s.len() - k,
{
    if k < s.len() {
        lemma_hex_prefix(s, k + 1);
        assert(s.take(k + 1).drop_last() =~= s.take(k));
    } else {
        assert(s.take(k) =~= s);
    }
}

pub fn parse_hex(s: &[char]) -> (r: Option<u64>)
    ensures
        r == parse_hex_u64(s@),
{
    let start: usize = if s.len() > 0 && s[0] == '+' {
        1
    } else {
        0
    };
    let ghost d = if s@.len() > 0 && s@[0] == '+' {
        s@.drop_first()
    } else {
        s@
    };
    assert(d =~= s@.skip(start as int));
    if start == s.len() {
        return None;
    }
    let mut acc: u64 = 0;
    let mut i: usize = start;
    assert(d.take(0) =~= Seq::<char>::empty());
    while i < s.len()
        invariant
            start <= i <= s@.len(),
            start < s@.len(),
            d == s@.skip(start as int),
            d == (if s@.len() > 0 && s@[0] == '+' {
                s@.drop_first()
            } else {
                s@
            }),
            all_hex(d.take(i - start)),
            acc == hex_number(d.take(i - start)),
        decreases s@.len() - i,
    {
        let v = match hex_digit_value(s[i]) {
            Some(v) => v,
            None => {
                assert(d[i - start] == s@[i as int]);
                assert(hex_value(d[i - start]) is None);
                assert(!all_hex(d));
                return None;
            },
        };
        assert(d.take(i + 1 - start).drop_last() =~= d.take(i - start));
        assert(d[i - start] == s@[i as int]);
        if acc > (u64::MAX - v) / 16 {
            proof {
                let t = d.take(i + 1 - start);
                assert(all_hex(t));
                assert(hex_number(t) == acc * 16 + v);
                assert(acc * 16 + v > u64::MAX) by (nonlinear_arith)
                    requires
                        acc > (u64::MAX - v) / 16,
                        v < 16,
                ;
                if all_hex(d) {
                    lemma_hex_prefix(d, i + 1 - start);
                }
            }
            return None;
        }
        acc = acc * 16 + v;
        i = i + 1;
    }
    assert(d.take(s@.len() - start) =~= d);
    Some(acc)
}

} // verus!
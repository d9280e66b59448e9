//! Container logs on the controller: which uploaded chunks are kept, and
//! the bounded window the log viewer shows.

use crate::shared::{truncate, truncated};
use crate::text::{char_utf8_width, chars_of, string_of, utf8_len, utf8_width};
use vstd::prelude::*;

verus! {

/// Characters kept of one uploaded chunk.
pub const MAX_CHUNK_CHARS: usize = 32768;

/// Bytes the viewer's window holds at most.
pub const RESPONSE_BYTES: usize = 262144;

/// Chunks kept per deployment, newest first.
pub const MAX_CHUNKS_PER_DEPLOYMENT: i64 = 600;

/// Days of logs kept.
pub const RETENTION_DAYS: i64 = 7;

/// What an uploaded chunk is stored as: its first 32768 characters, when
/// its deployment exists on the uploading server and is not REMOVED and
/// the kept content is not empty; otherwise it is skipped.
pub open spec fn kept_chunk_spec(owner: Option<(u128, Seq<char>)>, server_id: u128, content: Seq<char>) -> Option<Seq<char>> {
    match owner {
        None => None,
        Some((s, state)) => if s != server_id || state == "REMOVED"@ {
            None
        } else {
            let c = truncated(content, MAX_CHUNK_CHARS as nat);
            if c.len() == 0 {
                None
            } else {
                Some(c)
            }
        },
    }
}

pub fn kept_chunk(owner: Option<(u128, &str)>, server_id: u128, content: &str) -> (r: Option<String>)
    ensures
        match kept_chunk_spec(
            match owner {
                Some((s, st)) => Some((s, st@)),
                None => None,
            },
            server_id,
            content@,
        ) {
            Some(c) => r matches Some(x) && x@ == c,
            None => r is None,
        },
{
    let (s, state) = match owner {
        None => return None,
        Some(o) => o,
    };
    if s != server_id || crate::text::equals_str(chars_of(state).as_slice(), "REMOVED") {
        return None;
    }
    let c = truncate(content, MAX_CHUNK_CHARS);
    if c.as_str().is_empty() {
        return None;
    }
    Some(c)
}

/// The chunks joined oldest to newest, each ending a line: after a chunk,
/// a newline is added unless the text already ends with one.
pub open spec fn log_text(chunks: Seq<Seq<char>>) -> Seq<char>
    decreases chunks.len(),
{
    if chunks.len() == 0 {
        Seq::empty()
    } else {
        let a = log_text(chunks.drop_last()) + chunks.last();
        if a.len() > 0 && a.last() == '\n' {
            a
        } else {
            a.push('\n')
        }
    }
}

/// The first position at or after `k` whose prefix holds at least `bytes`
/// bytes (or the length).
pub open spec fn first_at_least(c: Seq<char>, bytes: nat, k: int) -> int
    decreases c.len() - k,
{
    if k < 0 || k >= c.len() || utf8_len(c.take(k)) >= bytes {
        if k < 0 {
            0
        } else if k > c.len() {
            c.len() as int
        } else {
            k
        }
    } else {
        first_at_least(c, bytes, k + 1)
    }
}

/// The first newline at or after `k`, if any.
pub open spec fn newline_from(c: Seq<char>, k: int) -> Option<int>
    decreases c.len() - k,
{
    if k < 0 || k >= c.len() {
        None
    } else if c[k] == '\n' {
        Some(k)
    } else {
        newline_from(c, k + 1)
    }
}

/// The viewer's window: all the text when it fits in 256 KiB, else its
/// newest 256 KiB, moved forward to just after the first line break in
/// them (when there is one).
pub open spec fn log_window(c: Seq<char>) -> Seq<char> {
    let total = utf8_len(c);
    if total > RESPONSE_BYTES {
        let k = first_at_least(c, (total - RESPONSE_BYTES) as nat, 0);
        match newline_from(c, k) {
            Some(j) => c.skip(j + 1),
            None => c.skip(k),
        }
    } else {
        c
    }
}

/// The cut falls between characters (where the original text can be
/// sliced).
pub open spec fn cut_on_boundary(c: Seq<char>) -> bool {
    let total = utf8_len(c);
    total > RESPONSE_BYTES ==> utf8_len(c.take(first_at_least(c, (total - RESPONSE_BYTES) as nat, 0)))
        == total - RESPONSE_BYTES
}

pub open spec fn chunk_views(v: Seq<String>) -> Seq<Seq<char>> {
    v.map_values(|s: String| s@)
}

/// The log viewer's text for the stored chunks (oldest first).
pub fn recent_window(chunks: &Vec<String>) -> (r: String)
    requires
        utf8_len(log_text(chunk_views(chunks@))) <= usize::MAX,
        cut_on_boundary(log_text(chunk_views(chunks@))),
    ensures
        r@ == log_window(log_text(chunk_views(chunks@))),
{
    let ghost cv = chunk_views(chunks@);
    let mut content: Vec<char> = Vec::new();
    let n = chunks.len();
    let mut i: usize = 0;
    while i < n
        invariant
            i <= n == chunks@.len(),
            cv == chunk_views(chunks@),
            content@ == log_text(cv.take(i as int)),
        decreases n - i,
    {
        assert(cv.take(i + 1).drop_last() =~= cv.take(i as int));
        assert(cv.take(i + 1).last() == chunks@[i as int]@);
        let part = chars_of(chunks[i].as_str());
        let ghost before = content@;
        let m = part.len();
        let mut j: usize = 0;
        while j < m
            invariant
                j <= m == part@.len(),
                content@ == before + part@.take(j as int),
            decreases m - j,
        {
            content.push(part[j]);
            assert(part@.take(j + 1) =~= part@.take(j as int).push(part@[j as int]));
            j = j + 1;
        }
        assert(part@.take(m as int) =~= part@);
        let l = content.len();
        if !(l > 0 && content[l - 1] == '\n') {
            content.push('\n');
        }
        i = i + 1;
    }
    assert(cv.take(n as int) =~= cv);
    let ghost c = content@;
    // Byte length of the whole text and of each prefix.
    let mut total: usize = 0;
    let len = content.len();
    let mut p: usize = 0;
    while p < len
        invariant
            p <= len == c.len(),
            content@ == c,
            utf8_len(c) <= usize::MAX,
            total == utf8_len(c.take(p as int)),
        decreases len - p,
    {
        assert(c.take(p + 1).drop_last() =~= c.take(p as int));
        proof {
            lemma_prefix_bytes(c, p as int + 1);
        }
        total = total + char_utf8_width(content[p]);
        p = p + 1;
    }
    assert(c.take(len as int) =~= c);
    if total <= RESPONSE_BYTES {
        return string_of(content.as_slice());
    }
    let cut = total - RESPONSE_BYTES;
    let mut k: usize = 0;
    let mut bytes: usize = 0;
    assert(c.take(0) =~= Seq::<char>::empty());
    while k < len && bytes < cut
        invariant
            k <= len == c.len(),
            content@ == c,
            utf8_len(c) <= usize::MAX,
            bytes == utf8_len(c.take(k as int)),
            first_at_least(c, cut as nat, 0) == first_at_least(c, cut as nat, k as int),
        decreases len - k,
    {
        assert(c.take(k + 1).drop_last() =~= c.take(k as int));
        proof {
            lemma_prefix_bytes(c, k as int + 1);
        }
        bytes = bytes + char_utf8_width(content[k]);
        k = k + 1;
    }
    assert(first_at_least(c, cut as nat, k as int) == k as int);
    let mut j: usize = k;
    while j < len && content[j] != '\n'
        invariant
            k <= j <= len == c.len(),
            content@ == c,
            newline_from(c, k as int) == newline_from(c, j as int),
        decreases len - j,
    {
        j = j + 1;
    }
    let start = if j < len {
        j + 1
    } else {
        k
    };
    let out = crate::text::slice_chars(content.as_slice(), start, len);
    assert(out@ =~= c.skip(start as int));
    string_of(out.as_slice())
}

/// A prefix holds no more bytes than the whole text.
proof fn lemma_prefix_bytes(c: Seq<char>, k: int)
    requires
        0 <= k <= c.len(),
    ensures
        utf8_len(c.take(k)) <= utf8_len(c),
    decreases c.len() - k,
{
    if k < c.len() {
        lemma_prefix_bytes(c, k + 1);
        assert(c.take(k + 1).drop_last() =~= c.take(k));
    } else {
        assert(c.take(k) =~= c);
    }
}

} // verus!

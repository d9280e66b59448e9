//! Container log capture on the agent: which streamed lines are new since
//! the last upload, their order, and how much of them one chunk carries.

use crate::text::{chars_of, push_str, utf8_len, utf8_length};
use vstd::prelude::*;

verus! {

/// Bytes one uploaded chunk may hold (the newest lines win).
pub const MAX_CHUNK_BYTES: usize = 32768;

/// Lines of backlog read on first sight of a container.
pub const INITIAL_TAIL: &'static str = "500";

pub open spec fn line_views(v: Seq<(i64, String)>) -> Seq<(i64, Seq<char>)> {
    v.map_values(|l: (i64, String)| (l.0, l.1@))
}

/// The lines newer than the cursor (all of them without one).
pub open spec fn fresh_lines(lines: Seq<(i64, Seq<char>)>, cursor: Option<i64>) -> Seq<(i64, Seq<char>)>
    decreases lines.len(),
{
    if lines.len() == 0 {
        Seq::empty()
    } else {
        let r = fresh_lines(lines.drop_last(), cursor);
        let l = lines.last();
        if cursor matches Some(c) && l.0 <= c {
            r
        } else {
            r.push(l)
        }
    }
}

/// Where a line of time `t` goes among lines in time order: after every
/// line that is not later.
pub open spec fn insert_pos(s: Seq<(i64, Seq<char>)>, t: i64, i: int) -> int
    decreases s.len() - i,
{
    if i < 0 || i >= s.len() || s[i].0 > t {
        if i < 0 {
            0
        } else if i > s.len() {
            s.len() as int
        } else {
            i
        }
    } else {
        insert_pos(s, t, i + 1)
    }
}

/// The lines in time order, lines of equal time in the order they came
/// (stdout and stderr frames merged).
pub open spec fn by_time(s: Seq<(i64, Seq<char>)>) -> Seq<(i64, Seq<char>)>
    decreases s.len(),
{
    if s.len() == 0 {
        Seq::empty()
    } else {
        let r = by_time(s.drop_last());
        r.insert(insert_pos(r, s.last().0, 0), s.last())
    }
}

pub open spec fn bytes_of(s: Seq<(i64, Seq<char>)>) -> nat
    decreases s.len(),
{
    if s.len() == 0 {
        0
    } else {
        bytes_of(s.drop_last()) + utf8_len(s.last().1)
    }
}

/// The first line kept: older lines are dropped while the rest exceeds the
/// budget, but the newest line is always kept.
pub open spec fn budget_start(s: Seq<(i64, Seq<char>)>, start: int) -> int
    decreases s.len() - start,
{
    if start < 0 || start + 1 >= s.len() || bytes_of(s.skip(start)) <= MAX_CHUNK_BYTES {
        start
    } else {
        budget_start(s, start + 1)
    }
}

pub open spec fn joined(s: Seq<(i64, Seq<char>)>) -> Seq<char>
    decreases s.len(),
{
    if s.len() == 0 {
        Seq::empty()
    } else {
        joined(s.drop_last()) + s.last().1
    }
}

/// The chunk a capture round ships for a container: the new lines in time
/// order, cut to the byte budget, with the time of the newest line (the
/// next cursor). Nothing when no line is new.
pub open spec fn chunk_spec(lines: Seq<(i64, Seq<char>)>, cursor: Option<i64>) -> Option<(i64, Seq<char>)> {
    let sorted = by_time(fresh_lines(lines, cursor));
    if sorted.len() == 0 {
        None
    } else {
        let kept = sorted.skip(budget_start(sorted, 0));
        Some((kept.last().0, joined(kept)))
    }
}

proof fn lemma_insert_pos_bounds(s: Seq<(i64, Seq<char>)>, t: i64, i: int)
    requires
        0 <= i <= s.len(),
    ensures
        i <= insert_pos(s, t, i) <= s.len(),
    decreases s.len() - i,
{
    if i < s.len() && s[i].0 <= t {
        lemma_insert_pos_bounds(s, t, i + 1);
    }
}

proof fn lemma_by_time_len(s: Seq<(i64, Seq<char>)>)
    ensures
        by_time(s).len() == s.len(),
    decreases s.len(),
{
    if s.len() > 0 {
        lemma_by_time_len(s.drop_last());
        lemma_insert_pos_bounds(by_time(s.drop_last()), s.last().0, 0);
    }
}

proof fn lemma_bytes_split(s: Seq<(i64, Seq<char>)>, k: int)
    requires
        0 <= k < s.len(),
    ensures
        bytes_of(s.skip(k)) == utf8_len(s[k].1) + bytes_of(s.skip(k + 1)),
    decreases s.len() - k,
{
    if k == s.len() - 1 {
        assert(s.skip(k).drop_last() =~= Seq::<(i64, Seq<char>)>::empty());
        assert(s.skip(k + 1) =~= Seq::<(i64, Seq<char>)>::empty());
    } else {
        lemma_bytes_split(s.drop_last(), k);
        assert(s.skip(k).drop_last() =~= s.drop_last().skip(k));
        assert(s.skip(k + 1).drop_last() =~= s.drop_last().skip(k + 1));
        assert(s.drop_last()[k] == s[k]);
    }
}

/// Builds the chunk of one capture round from the lines read (each with
/// its time) and the cursor of the previous round.
pub fn log_chunk(lines: Vec<(i64, String)>, cursor: Option<i64>) -> (r: Option<(i64, String)>)
    requires
        bytes_of(line_views(lines@)) <= usize::MAX,
    ensures
        match chunk_spec(line_views(lines@), cursor) {
            Some((t, c)) => r matches Some(x) && x.0 == t && x.1@ == c,
            None => r is None,
        },
{
    let ghost all = line_views(lines@);
    // Keep the new lines, inserting each after the lines not later than it.
    let mut sorted: Vec<(i64, String)> = Vec::new();
    let mut rest = lines;
    let n = rest.len();
    let mut i: usize = 0;
    assert(all.take(0) =~= Seq::<(i64, Seq<char>)>::empty());
    assert(all.skip(0) =~= all);
    while i < n
        invariant
            i <= n == all.len(),
            line_views(rest@) == all.skip(i as int),
            line_views(sorted@) == by_time(fresh_lines(all.take(i as int), cursor)),
        decreases n - i,
    {
        let ghost before = rest@;
        assert(line_views(rest@).len() == rest@.len());
        let (t, text) = rest.remove(0);
        assert((t, text@) == line_views(before)[0]);
        assert(rest@ =~= before.subrange(1, before.len() as int));
        assert forall|k: int| 0 <= k < line_views(rest@).len() implies line_views(rest@)[k] == all.skip(i + 1)[k] by {
            assert(line_views(rest@)[k] == (rest@[k].0, rest@[k].1@));
            assert(rest@[k] == before[k + 1]);
            assert(line_views(before)[k + 1] == (before[k + 1].0, before[k + 1].1@));
        }
        assert(line_views(rest@) =~= all.skip(i + 1));
        assert(all.take(i + 1).drop_last() =~= all.take(i as int));
        assert(all.take(i + 1).last() == (t, text@));
        let fresh = match cursor {
            Some(c) => t > c,
            None => true,
        };
        if fresh {
            let ghost cur = line_views(sorted@);
            let mut p: usize = 0;
            assert(insert_pos(cur, t, 0) == insert_pos(cur, t, p as int));
            while p < sorted.len() && sorted[p].0 <= t
                invariant
                    p <= sorted@.len(),
                    cur == line_views(sorted@),
                    insert_pos(cur, t, 0) == insert_pos(cur, t, p as int),
                decreases sorted@.len() - p,
            {
                assert(cur[p as int] == (sorted@[p as int].0, sorted@[p as int].1@));
                p = p + 1;
            }
            proof {
                if p < sorted@.len() {
                    assert(cur[p as int] == (sorted@[p as int].0, sorted@[p as int].1@));
                }
            }
            let ghost tv = text@;
            assert(insert_pos(cur, t, p as int) == p);
            sorted.insert(p, (t, text));
            assert(line_views(sorted@) =~= cur.insert(p as int, (t, tv)));
            proof {
                let f0 = fresh_lines(all.take(i as int), cursor);
                assert(fresh_lines(all.take(i + 1), cursor) == f0.push((t, tv)));
                assert(f0.push((t, tv)).drop_last() =~= f0);
                assert(by_time(f0.push((t, tv))) == cur.insert(insert_pos(cur, t, 0), (t, tv)));
            }
        } else {
            assert(fresh_lines(all.take(i + 1), cursor) == fresh_lines(all.take(i as int), cursor));
        }
        i = i + 1;
    }
    assert(all.take(n as int) =~= all);
    let ghost s = line_views(sorted@);
    proof {
        lemma_by_time_len(fresh_lines(all, cursor));
        lemma_fresh_bytes(all, cursor);
        lemma_by_time_bytes(fresh_lines(all, cursor));
    }
    let m = sorted.len();
    if m == 0 {
        return None;
    }
    // Byte total of the sorted lines.
    let mut total: usize = 0;
    let mut k: usize = 0;
    assert(s.take(0) =~= Seq::<(i64, Seq<char>)>::empty());
    while k < m
        invariant
            k <= m == s.len(),
            s == line_views(sorted@),
            bytes_of(s) <= usize::MAX,
            total == bytes_of(s.take(k as int)),
        decreases m - k,
    {
        assert(s.take(k + 1).drop_last() =~= s.take(k as int));
        assert(s[k as int] == (sorted@[k as int].0, sorted@[k as int].1@));
        proof {
            lemma_bytes_prefix(s, k as int + 1);
        }
        total = total + utf8_length(chars_of(sorted[k].1.as_str()).as_slice());
        k = k + 1;
    }
    assert(s.take(m as int) =~= s);
    assert(s.skip(0) =~= s);
    let mut start: usize = 0;
    while total > MAX_CHUNK_BYTES && start + 1 < m
        invariant
            start < m == s.len(),
            s == line_views(sorted@),
            total == bytes_of(s.skip(start as int)),
            budget_start(s, 0) == budget_start(s, start as int),
        decreases m - start,
    {
        proof {
            lemma_bytes_split(s, start as int);
        }
        assert(s[start as int] == (sorted@[start as int].0, sorted@[start as int].1@));
        total = total - utf8_length(chars_of(sorted[start].1.as_str()).as_slice());
        start = start + 1;
    }
    let ghost kept = s.skip(start as int);
    let mut content = String::new();
    let mut j: usize = start;
    assert(kept.take(0) =~= Seq::<(i64, Seq<char>)>::empty());
    while j < m
        invariant
            start <= j <= m == s.len(),
            s == line_views(sorted@),
            kept == s.skip(start as int),
            content@ == joined(kept.take(j - start)),
        decreases m - j,
    {
        assert(kept.take(j + 1 - start).drop_last() =~= kept.take(j - start));
        assert(kept[j - start] == (sorted@[j as int].0, sorted@[j as int].1@));
        push_str(&mut content, sorted[j].1.as_str());
        j = j + 1;
    }
    assert(kept.take(m - start) =~= kept);
    assert(kept.last() == (sorted@[m - 1].0, sorted@[m - 1].1@));
    Some((sorted[m - 1].0, content))
}

proof fn lemma_bytes_prefix(s: Seq<(i64, Seq<char>)>, k: int)
    requires
        0 <= k <= s.len(),
    ensures
        bytes_of(s.take(k)) <= bytes_of(s),
    decreases s.len() - k,
{
    if k < s.len() {
        lemma_bytes_prefix(s, k + 1);
        assert(s.take(k + 1).drop_last() =~= s.take(k));
    } else {
        assert(s.take(k) =~= s);
    }
}

proof fn lemma_fresh_bytes(s: Seq<(i64, Seq<char>)>, cursor: Option<i64>)
    ensures
        bytes_of(fresh_lines(s, cursor)) <= bytes_of(s),
    decreases s.len(),
{
    if s.len() > 0 {
        lemma_fresh_bytes(s.drop_last(), cursor);
        let r = fresh_lines(s.drop_last(), cursor);
        assert(r.push(s.last()).drop_last() =~= r);
    }
}

proof fn lemma_bytes_insert(s: Seq<(i64, Seq<char>)>, p: int, x: (i64, Seq<char>))
    requires
        0 <= p <= s.len(),
    ensures
        bytes_of(s.insert(p, x)) == bytes_of(s) + utf8_len(x.1),
    decreases s.len(),
{
    if p == s.len() {
        assert(s.insert(p, x) =~= s.push(x));
        assert(s.push(x).drop_last() =~= s);
    } else {
        lemma_bytes_insert(s.drop_last(), p, x);
        assert(s.insert(p, x).drop_last() =~= s.drop_last().insert(p, x));
        assert(s.insert(p, x).last() == s.last());
    }
}

proof fn lemma_by_time_bytes(s: Seq<(i64, Seq<char>)>)
    ensures
        bytes_of(by_time(s)) == bytes_of(s),
    decreases s.len(),
{
    if s.len() > 0 {
        lemma_by_time_bytes(s.drop_last());
        let r = by_time(s.drop_last());
        lemma_by_time_len(s.drop_last());
        lemma_insert_pos_bounds(r, s.last().0, 0);
        lemma_bytes_insert(r, insert_pos(r, s.last().0, 0), s.last());
    }
}

} // verus!

//! Application traffic: record validation and request metrics.

use crate::controller::error::AppError;
use crate::text::{chars_of, string_from, utf8_len, utf8_length};
use vstd::prelude::*;
use vstd::relations::{sorted_by, total_ordering};
use vstd::seq_lib::{to_multiset_build, to_multiset_insert};

verus! {

/// The 0-based nearest-rank index for `percentage` of `len` values.
pub open spec fn rank_index(len: nat, percentage: nat) -> int {
    let ceil = (len * percentage + 99) / 100;
    if ceil >= 1 {
        ceil - 1
    } else {
        0
    }
}

/// The nearest-rank percentile of the values; 0 when there is no value of
/// that rank.
pub open spec fn percentile_spec(sorted: Seq<u32>, percentage: nat) -> u32 {
    let i = rank_index(sorted.len(), percentage);
    if i < sorted.len() {
        sorted[i]
    } else {
        0
    }
}

pub fn percentile(sorted: &[u32], percentage: usize) -> (r: u32)
    requires
        sorted@.len() * percentage <= usize::MAX,
    ensures
        r == percentile_spec(sorted@, percentage as nat),
{
    let product = sorted.len() * percentage;
    let ceil = product / 100 + if product % 100 == 0 {
        0
    } else {
        1
    };
    assert(ceil == (product + 99) / 100);
    let index = if ceil >= 1 {
        ceil - 1
    } else {
        0
    };
    if index < sorted.len() {
        sorted[index]
    } else {
        0
    }
}

pub open spec fn nondecreasing(s: Seq<u32>) -> bool {
    forall|i: int, j: int| 0 <= i <= j < s.len() ==> s[i] <= s[j]
}

/// On sorted values a higher percentage never yields a smaller value, and
/// any percentage up to 100 picks one of the values.
pub proof fn lemma_percentile_monotone(sorted: Seq<u32>, p: nat, q: nat)
    requires
        nondecreasing(sorted),
        p <= q <= 100,
        sorted.len() > 0,
    ensures
        percentile_spec(sorted, p) <= percentile_spec(sorted, q),
        sorted.contains(percentile_spec(sorted, q)),
{
    let n = sorted.len();
    assert(n * p <= n * q) by (nonlinear_arith)
        requires
            p <= q,
    ;
    assert(n * q <= n * 100) by (nonlinear_arith)
        requires
            q <= 100,
    ;
    assert((n * p + 99) / 100 <= (n * q + 99) / 100) by (nonlinear_arith)
        requires
            n * p <= n * q,
    ;
    assert((n * q + 99) / 100 <= n) by (nonlinear_arith)
        requires
            n * q <= n * 100,
            n > 0,
    ;
    let i = rank_index(n, q);
    assert(sorted[i] == percentile_spec(sorted, q));
}

// ------------------------------------------------------------ intake

/// Records one upload may carry at most.
pub const MAX_BATCH_RECORDS: usize = 2000;

/// One request record an agent reports (its time of day travels apart).
pub struct TrafficRecord {
    pub deployment_id: u128,
    pub method: String,
    pub path: String,
    pub status: u16,
    pub request_time_ms: u32,
    pub response_bytes: u64,
    pub request_id: Option<String>,
}

/// A record is stored only when its method is 1 to 16 bytes, its path at
/// most 2048 bytes, its request id (if any) at most 64 bytes and its status
/// a real HTTP status (100 to 599).
pub open spec fn record_valid(r: TrafficRecord) -> bool {
    &&& 1 <= utf8_len(r.method@) <= 16
    &&& utf8_len(r.path@) <= 2048
    &&& r.request_id matches Some(id) ==> utf8_len(id@) <= 64
    &&& 100 <= r.status <= 599
}

fn record_ok(r: &TrafficRecord) -> (b: bool)
    ensures
        b == record_valid(*r),
{
    let m = utf8_length(chars_of(r.method.as_str()).as_slice());
    let p = utf8_length(chars_of(r.path.as_str()).as_slice());
    let id_ok = match &r.request_id {
        Some(id) => utf8_length(chars_of(id.as_str()).as_slice()) <= 64,
        None => true,
    };
    m >= 1 && m <= 16 && p <= 2048 && id_ok && r.status >= 100 && r.status <= 599
}

/// Checks an uploaded batch: at most 2000 records, every one valid. One bad
/// record refuses the whole batch.
pub fn validate_batch(records: &Vec<TrafficRecord>) -> (r: Result<(), AppError>)
    ensures
        records@.len() > MAX_BATCH_RECORDS ==> (r matches Err(e) && e matches AppError::BadRequest(m) && m@
            == "application traffic batch too large"@),
        records@.len() <= MAX_BATCH_RECORDS ==> (r is Ok <==> forall|i: int|
            0 <= i < records@.len() ==> record_valid(#[trigger] records@[i])),
        records@.len() <= MAX_BATCH_RECORDS && r is Err ==> (r matches Err(e) && e matches AppError::BadRequest(
            m,
        ) && m@ == "application traffic record is invalid"@),
{
    if records.len() > MAX_BATCH_RECORDS {
        return Err(AppError::BadRequest(string_from("application traffic batch too large")));
    }
    let n = records.len();
    let mut i: usize = 0;
    while i < n
        invariant
            i <= n == records@.len(),
            n <= MAX_BATCH_RECORDS,
            forall|k: int| 0 <= k < i ==> record_valid(#[trigger] records@[k]),
        decreases n - i,
    {
        if !record_ok(&records[i]) {
            return Err(AppError::BadRequest(string_from("application traffic record is invalid")));
        }
        i = i + 1;
    }
    Ok(())
}

// ------------------------------------------------------------ metrics

/// One stored request of the last 24 hours.
pub struct RequestSample {
    pub status: u16,
    pub request_time_ms: u32,
    pub response_bytes: u64,
}

/// How many requests of each status, by status.
pub struct StatusCount {
    pub status: u16,
    pub count: u64,
}

/// A deployment's request metrics over the last 24 hours.
pub struct RequestMetrics {
    pub requests: u64,
    pub errors: u64,
    pub response_bytes: u64,
    pub average_request_time_ms: u64,
    pub p95_request_time_ms: u64,
    pub by_status: Vec<StatusCount>,
}

pub open spec fn errors_in(s: Seq<RequestSample>) -> nat
    decreases s.len(),
{
    if s.len() == 0 {
        0
    } else {
        errors_in(s.drop_last()) + if s.last().status >= 500 {
            1nat
        } else {
            0nat
        }
    }
}

pub open spec fn bytes_in(s: Seq<RequestSample>) -> nat
    decreases s.len(),
{
    if s.len() == 0 {
        0
    } else {
        bytes_in(s.drop_last()) + (s.last().response_bytes as nat)
    }
}

pub open spec fn time_in(s: Seq<RequestSample>) -> nat
    decreases s.len(),
{
    if s.len() == 0 {
        0
    } else {
        time_in(s.drop_last()) + (s.last().request_time_ms as nat)
    }
}

pub open spec fn count_status(s: Seq<RequestSample>, status: u16) -> nat
    decreases s.len(),
{
    if s.len() == 0 {
        0
    } else {
        count_status(s.drop_last(), status) + if s.last().status == status {
            1nat
        } else {
            0nat
        }
    }
}

pub open spec fn times_of(s: Seq<RequestSample>) -> Seq<u32> {
    s.map_values(|r: RequestSample| r.request_time_ms)
}

pub open spec fn u32_order() -> spec_fn(u32, u32) -> bool {
    |a: u32, b: u32| a <= b
}

/// The counts by status: each status that occurs, once, ascending, with
/// how often it occurs.
pub open spec fn status_counts_ok(s: Seq<RequestSample>, c: Seq<StatusCount>) -> bool {
    &&& forall|i: int, j: int| 0 <= i < j < c.len() ==> (#[trigger] c[i]).status < (#[trigger] c[j]).status
    &&& forall|i: int| 0 <= i < c.len() ==> (#[trigger] c[i]).count == count_status(s, c[i].status) && c[i].count > 0
    &&& forall|k: int| 0 <= k < s.len() ==> exists|i: int| 0 <= i < c.len() && (#[trigger] c[i]).status == (#[trigger] s[k]).status
}

proof fn lemma_count_step(s: Seq<RequestSample>, k: int, status: u16)
    requires
        0 <= k < s.len(),
    ensures
        count_status(s.take(k + 1), status) == count_status(s.take(k), status) + if s[k].status == status {
            1nat
        } else {
            0nat
        },
{
    assert(s.take(k + 1).drop_last() =~= s.take(k));
}

proof fn lemma_count_absent(s: Seq<RequestSample>, status: u16)
    requires
        forall|k: int| 0 <= k < s.len() ==> (#[trigger] s[k]).status != status,
    ensures
        count_status(s, status) == 0,
    decreases s.len(),
{
    if s.len() > 0 {
        assert forall|k: int| 0 <= k < s.drop_last().len() implies (#[trigger] s.drop_last()[k]).status != status by {
            assert(s.drop_last()[k] == s[k]);
        }
        lemma_count_absent(s.drop_last(), status);
        assert(s.last() == s[s.len() - 1]);
    }
}

/// Sorts request times ascending.
fn sort_times(v: Vec<u32>) -> (r: Vec<u32>)
    ensures
        sorted_by(r@, u32_order()),
        r@.to_multiset() == v@.to_multiset(),
{
    assert(total_ordering(u32_order()));
    let mut out: Vec<u32> = Vec::new();
    let n = v.len();
    let mut i: usize = 0;
    assert(v@.take(0) =~= Seq::<u32>::empty());
    while i < n
        invariant
            i <= n == v@.len(),
            sorted_by(out@, u32_order()),
            out@.to_multiset() == v@.take(i as int).to_multiset(),
        decreases n - i,
    {
        let x = v[i];
        let ghost cur = out@;
        let mut p: usize = 0;
        while p < out.len() && out[p] <= x
            invariant
                p <= out@.len(),
                cur == out@,
                forall|k: int| 0 <= k < p ==> cur[k] <= x,
            decreases out@.len() - p,
        {
            p = p + 1;
        }
        out.insert(p, x);
        let ghost next = cur.insert(p as int, x);
        assert(out@ =~= next);
        proof {
            assert forall|a: int, b: int| 0 <= a < b < next.len() implies #[trigger] u32_order()(next[a], next[b]) by {
                if b < p {
                    assert(u32_order()(cur[a], cur[b]));
                } else if b == p {
                } else if a <= p {
                    if b - 1 > p {
                        assert(u32_order()(cur[p as int], cur[b - 1]));
                    }
                } else {
                    assert(u32_order()(cur[a - 1], cur[b - 1]));
                }
            }
            to_multiset_insert(cur, p as int, x);
            assert(v@.take(i + 1) =~= v@.take(i as int).push(x));
            to_multiset_build(v@.take(i as int), x);
        }
        i = i + 1;
    }
    assert(v@.take(n as int) =~= v@);
    out
}

/// Adds request `i` of `samples` to the counts of the requests before it.
fn record_status(counts: &mut Vec<StatusCount>, Ghost(samples): Ghost<Seq<RequestSample>>, i: usize, s: &RequestSample)
    requires
        0 <= i < samples.len(),
        i < usize::MAX,
        samples[i as int] == *s,
        status_counts_ok(samples.take(i as int), old(counts)@),
    ensures
        status_counts_ok(samples.take(i + 1), final(counts)@),
{
    let ghost pre = samples.take(i as int);
    let ghost post = samples.take(i + 1);
    assert(post.drop_last() =~= pre);
    assert(post.last() == samples[i as int]);
    assert forall|k: int| 0 <= k < pre.len() implies post[k] == pre[k] by {}
    let ghost before = counts@;
    let mut p: usize = 0;
    while p < counts.len() && counts[p].status < s.status
        invariant
            p <= counts@.len(),
            before == counts@,
            forall|k: int| 0 <= k < p ==> (#[trigger] before[k]).status < s.status,
        decreases counts@.len() - p,
    {
        p = p + 1;
    }
    if p < counts.len() && counts[p].status == s.status {
        let old_entry = counts.remove(p);
        assert(old_entry.count == count_status(pre, s.status));
        proof {
            lemma_prefix_count_bound(samples, i as int, s.status);
        }
        counts.insert(p, StatusCount { status: s.status, count: old_entry.count + 1 });
        proof {
            assert forall|q: int| 0 <= q < counts@.len() implies (#[trigger] counts@[q]).count == count_status(
                post,
                counts@[q].status,
            ) && counts@[q].count > 0 by {
                lemma_count_step(samples, i as int, counts@[q].status);
                if q != p {
                    assert(counts@[q] == before[q]);
                }
            }
            assert forall|a: int, b: int| 0 <= a < b < counts@.len() implies (#[trigger] counts@[a]).status
                < (#[trigger] counts@[b]).status by {
                assert(counts@[a].status == before[a].status);
                assert(counts@[b].status == before[b].status);
            }
            assert forall|k: int| 0 <= k < post.len() implies exists|q: int|
                0 <= q < counts@.len() && (#[trigger] counts@[q]).status == (#[trigger] post[k]).status by {
                if k < pre.len() {
                    assert(post[k] == pre[k]);
                    let q = choose|q: int| 0 <= q < before.len() && (#[trigger] before[q]).status == (#[trigger] pre[k]).status;
                    assert(counts@[q].status == before[q].status);
                } else {
                    assert(counts@[p as int].status == post[k].status);
                }
            }
        }
    } else {
        proof {
            assert forall|k: int| 0 <= k < pre.len() implies (#[trigger] pre[k]).status != s.status by {
                let q = choose|q: int| 0 <= q < before.len() && (#[trigger] before[q]).status == (#[trigger] pre[k]).status;
                if q < p {
                } else if p < before.len() {
                    if q > p {
                        assert(before[p as int].status < before[q].status);
                    }
                }
            }
            lemma_count_absent(pre, s.status);
        }
        counts.insert(p, StatusCount { status: s.status, count: 1 });
        proof {
            assert forall|q: int| 0 <= q < counts@.len() implies (#[trigger] counts@[q]).count == count_status(
                post,
                counts@[q].status,
            ) && counts@[q].count > 0 by {
                lemma_count_step(samples, i as int, counts@[q].status);
                if q < p {
                    assert(counts@[q] == before[q]);
                } else if q > p {
                    assert(counts@[q] == before[q - 1]);
                }
            }
            assert forall|a: int, b: int| 0 <= a < b < counts@.len() implies (#[trigger] counts@[a]).status
                < (#[trigger] counts@[b]).status by {
                if b < p {
                    assert(counts@[a] == before[a]);
                    assert(counts@[b] == before[b]);
                } else if b == p {
                    assert(counts@[a] == before[a]);
                } else if a < p {
                    assert(counts@[a] == before[a]);
                    assert(counts@[b] == before[b - 1]);
                    if b - 1 > p {
                        assert(before[p as int].status < before[b - 1].status);
                    }
                } else if a == p {
                    assert(counts@[b] == before[b - 1]);
                    if b - 1 > p {
                        assert(before[p as int].status < before[b - 1].status);
                    }
                } else {
                    assert(counts@[a] == before[a - 1]);
                    assert(counts@[b] == before[b - 1]);
                }
            }
            assert forall|k: int| 0 <= k < post.len() implies exists|q: int|
                0 <= q < counts@.len() && (#[trigger] counts@[q]).status == (#[trigger] post[k]).status by {
                if k < pre.len() {
                    assert(post[k] == pre[k]);
                    let q = choose|q: int| 0 <= q < before.len() && (#[trigger] before[q]).status == (#[trigger] pre[k]).status;
                    if q < p {
                        assert(counts@[q] == before[q]);
                    } else {
                        assert(counts@[q + 1] == before[q]);
                    }
                } else {
                    assert(counts@[p as int].status == post[k].status);
                }
            }
        }
    }
}

/// A deployment's request metrics: the number of requests, those answered
/// with a server error (5xx), the bytes sent, the mean request time
/// (rounded down, 0 without requests), the 95th-percentile request time
/// (nearest rank) and the counts by status.
pub fn request_metrics(samples: &Vec<RequestSample>) -> (r: RequestMetrics)
    requires
        bytes_in(samples@) <= u64::MAX,
        time_in(samples@) <= u64::MAX,
        samples@.len() * 95 <= usize::MAX,
    ensures
        r.requests == samples@.len(),
        r.errors == errors_in(samples@),
        r.errors == server_errors(samples@).len(),
        r.response_bytes == bytes_in(samples@),
        r.average_request_time_ms == (if samples@.len() == 0 {
            0
        } else {
            time_in(samples@) / samples@.len()
        }),
        r.p95_request_time_ms == percentile_spec(times_of(samples@).sort_by(u32_order()), 95),
        status_counts_ok(samples@, r.by_status@),
{
    let n = samples.len();
    let mut errors: u64 = 0;
    let mut bytes: u64 = 0;
    let mut time: u64 = 0;
    let mut times: Vec<u32> = Vec::new();
    let mut counts: Vec<StatusCount> = Vec::new();
    let mut i: usize = 0;
    assert(samples@.take(0) =~= Seq::<RequestSample>::empty());
    while i < n
        invariant
            i <= n == samples@.len(),
            bytes_in(samples@) <= u64::MAX,
            time_in(samples@) <= u64::MAX,
            errors == errors_in(samples@.take(i as int)),
            bytes == bytes_in(samples@.take(i as int)),
            time == time_in(samples@.take(i as int)),
            times@ == times_of(samples@.take(i as int)),
            status_counts_ok(samples@.take(i as int), counts@),
        decreases n - i,
    {
        let s = &samples[i];
        let ghost pre = samples@.take(i as int);
        let ghost post = samples@.take(i + 1);
        assert(post.drop_last() =~= pre);
        assert(post.last() == samples@[i as int]);
        proof {
            lemma_prefix_sums(samples@, i as int + 1);
            lemma_errors_bound(samples@, i as int);
        }
        if s.status >= 500 {
            errors = errors + 1;
        }
        bytes = bytes + s.response_bytes;
        time = time + s.request_time_ms as u64;
        times.push(s.request_time_ms);
        assert(times_of(post) =~= times_of(pre).push(s.request_time_ms));
        record_status(&mut counts, Ghost(samples@), i, s);
        i = i + 1;
    }
    assert(samples@.take(n as int) =~= samples@);
    let ghost all_times = times@;
    let sorted = sort_times(times);
    proof {
        assert(total_ordering(u32_order()));
        all_times.lemma_sort_by_ensures(u32_order());
        vstd::seq_lib::lemma_sorted_unique(sorted@, all_times.sort_by(u32_order()), u32_order());
    }
    proof {
        vstd::seq_lib::to_multiset_len(sorted@);
        vstd::seq_lib::to_multiset_len(all_times);
        assert(all_times.len() == n);
    }
    let p95 = percentile(sorted.as_slice(), 95) as u64;
    let average: u64 = if n == 0 {
        0
    } else {
        time / (n as u64)
    };
    proof {
        lemma_errors_are_server_errors(samples@);
    }
    RequestMetrics {
        requests: n as u64,
        errors,
        response_bytes: bytes,
        average_request_time_ms: average,
        p95_request_time_ms: p95,
        by_status: counts,
    }
}

/// Running sums over a prefix never exceed those over the whole.
proof fn lemma_prefix_sums(s: Seq<RequestSample>, k: int)
    requires
        0 <= k <= s.len(),
    ensures
        bytes_in(s.take(k)) <= bytes_in(s),
        time_in(s.take(k)) <= time_in(s),
    decreases s.len() - k,
{
    if k < s.len() {
        lemma_prefix_sums(s, k + 1);
        assert(s.take(k + 1).drop_last() =~= s.take(k));
    } else {
        assert(s.take(k) =~= s);
    }
}

/// At most every request is a server error.
proof fn lemma_errors_bound(s: Seq<RequestSample>, k: int)
    requires
        0 <= k <= s.len(),
    ensures
        errors_in(s.take(k)) <= k,
    decreases k,
{
    if k > 0 {
        lemma_errors_bound(s, k - 1);
        assert(s.take(k).drop_last() =~= s.take(k - 1));
    } else {
        assert(s.take(0) =~= Seq::<RequestSample>::empty());
    }
}

/// A status occurs at most as often as there are requests.
proof fn lemma_prefix_count_bound(s: Seq<RequestSample>, k: int, status: u16)
    requires
        0 <= k < s.len(),
    ensures
        count_status(s.take(k), status) <= k,
    decreases k,
{
    if k > 0 {
        lemma_prefix_count_bound(s, k - 1, status);
        lemma_count_step(s, k - 1, status);
    } else {
        assert(s.take(0) =~= Seq::<RequestSample>::empty());
    }
}

/// The samples that count as errors: server errors, status 500 and up.
pub open spec fn server_errors(s: Seq<RequestSample>) -> Seq<RequestSample> {
    s.filter(|x: RequestSample| x.status >= 500)
}

/// The error count is the number of samples answered with a 5xx status;
/// a sample with any lower status (a 404 among them) never counts.
pub proof fn lemma_errors_are_server_errors(s: Seq<RequestSample>)
    ensures
        errors_in(s) == server_errors(s).len(),
        forall|i: int| 0 <= i < server_errors(s).len() ==> (#[trigger] server_errors(s)[i]).status >= 500,
        (forall|i: int| 0 <= i < s.len() ==> (#[trigger] s[i]).status < 500) ==> errors_in(s) == 0,
    decreases s.len(),
{
    reveal(Seq::filter);
    broadcast use vstd::seq_lib::group_filter_ensures;
    if s.len() > 0 {
        lemma_errors_are_server_errors(s.drop_last());
        if forall|i: int| 0 <= i < s.len() ==> (#[trigger] s[i]).status < 500 {
            assert forall|i: int| 0 <= i < s.drop_last().len() implies (#[trigger] s.drop_last()[i]).status < 500 by {
                assert(s.drop_last()[i] == s[i]);
            }
            assert(s[s.len() - 1].status < 500);
        }
    }
}

} // verus!
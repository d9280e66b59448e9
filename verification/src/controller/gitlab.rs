//! GitLab REST browsing: how list calls page through results, how tag
//! details are fanned out, what a failed call becomes, and how mirrored
//! tags are updated.

use crate::controller::error::AppError;
use crate::text::{
    chars_of, contains_seq, decimal_string, decimal_text, parse_unsigned, parse_unsigned_chars,
    push_str, string_from,
};
use vstd::prelude::*;

verus! {

/// Items per page of a list call.
pub const PER_PAGE: u32 = 100;

/// Pages a list call reads at most.
pub const MAX_PAGES: u32 = 50;

/// Tags per repository whose detail (size, date) is fetched.
pub const MAX_TAG_DETAILS: usize = 50;

/// The URL of one page of a list call: the path, then `?` (or `&` when the
/// path already has a query) and `per_page=100&page=<n>`.
pub open spec fn page_url_spec(base: Seq<char>, path: Seq<char>, page: u32) -> Seq<char> {
    let sep = if path.contains('?') {
        "&"@
    } else {
        "?"@
    };
    base + path + sep + "per_page=100&page="@ + decimal_text(page as nat)
}

pub fn page_url(base_url: &str, path: &str, page: u32) -> (r: String)
    ensures
        r@ == page_url_spec(base_url@, path@, page),
{
    let pv = chars_of(path);
    let mut has_query = false;
    let mut i: usize = 0;
    while i < pv.len()
        invariant
            i <= pv@.len(),
            pv@ == path@,
            has_query == exists|k: int| 0 <= k < i && pv@[k] == '?',
        decreases pv@.len() - i,
    {
        if pv[i] == '?' {
            has_query = true;
        }
        i = i + 1;
    }
    let mut s = string_from(base_url);
    push_str(&mut s, path);
    if has_query {
        push_str(&mut s, "&");
    } else {
        push_str(&mut s, "?");
    }
    push_str(&mut s, "per_page=100&page=");
    push_str(&mut s, decimal_string(page as u64).as_str());
    s
}

/// The page to read after `page`, from the `x-next-page` header: only a
/// later page, and only while fewer than 50 pages were read.
pub open spec fn next_page_spec(page: u32, header: Option<Seq<char>>) -> Option<u32> {
    match header {
        Some(h) => match parse_unsigned(h, u32::MAX as nat) {
            Some(n) => if n > page && page < MAX_PAGES {
                Some(n as u32)
            } else {
                None
            },
            None => None,
        },
        None => None,
    }
}

pub fn next_page(page: u32, header: Option<&str>) -> (r: Option<u32>)
    ensures
        r == next_page_spec(
            page,
            match header {
                Some(h) => Some(h@),
                None => None,
            },
        ),
{
    let h = match header {
        Some(h) => h,
        None => return None,
    };
    match parse_unsigned_chars(chars_of(h).as_slice(), 0xffff_ffff) {
        Some(n) => if n > page as u64 && page < MAX_PAGES {
            Some(n as u32)
        } else {
            None
        },
        None => None,
    }
}

/// Paging always moves forward and stops by the 50th page, so a list call
/// reads at most 50 pages whatever the server answers.
pub proof fn lemma_paging_terminates(page: u32, header: Option<Seq<char>>)
    ensures
        next_page_spec(page, header) matches Some(n) ==> (n > page && page < MAX_PAGES),
{
}

/// What an answer that is not a success becomes: 401 is `Unauthorized`,
/// any other status a `GitLab returned <status> for this request` error.
pub fn upstream_error(status: u16, status_text: &str) -> (r: AppError)
    ensures
        status == 401 ==> r is Unauthorized,
        status != 401 ==> (r matches AppError::BadRequest(m) && m@ == "GitLab returned "@ + status_text@
            + " for this request"@),
{
    if status == 401 {
        AppError::Unauthorized
    } else {
        AppError::BadRequest(crate::text::concat3("GitLab returned ", status_text, " for this request"))
    }
}

/// Whether the tag at position `i` of a repository's list gets its detail
/// fetched.
pub fn wants_detail(i: usize) -> (r: bool)
    ensures
        r == (i < MAX_TAG_DETAILS),
{
    i < MAX_TAG_DETAILS
}

/// What a failed tag-detail request does: an authorization failure ends
/// the listing, anything else falls back to the bare tag name.
pub fn detail_failure_is_fatal(e: &AppError) -> (r: bool)
    ensures
        r == (*e is Unauthorized),
{
    match e {
        AppError::Unauthorized => true,
        _ => false,
    }
}

/// The size a mirrored tag records: GitLab reports zero for images whose
/// metadata it lacks, and zero is not kept.
pub fn reported_tag_size(total_size: Option<i64>) -> (r: Option<i64>)
    ensures
        r == (match total_size {
            Some(s) => if s > 0 {
                Some(s)
            } else {
                None::<i64>
            },
            None => None,
        }),
{
    match total_size {
        Some(s) => if s > 0 {
            Some(s)
        } else {
            None
        },
        None => None,
    }
}

/// The tag names a poll newly discovered: those not mirrored yet, in the
/// order GitLab listed them.
pub open spec fn new_names_spec(names: Seq<Seq<char>>, existing: Seq<Seq<char>>) -> Seq<Seq<char>>
    decreases names.len(),
{
    if names.len() == 0 {
        Seq::empty()
    } else {
        let r = new_names_spec(names.drop_last(), existing);
        if existing.contains(names.last()) {
            r
        } else {
            r.push(names.last())
        }
    }
}

pub fn new_tag_names(names: &Vec<String>, existing: &Vec<String>) -> (r: Vec<String>)
    ensures
        crate::encoding::string_seq(r@) == new_names_spec(
            crate::encoding::string_seq(names@),
            crate::encoding::string_seq(existing@),
        ),
{
    let ghost ns = crate::encoding::string_seq(names@);
    let ghost es = crate::encoding::string_seq(existing@);
    let mut out: Vec<String> = Vec::new();
    let n = names.len();
    let mut i: usize = 0;
    assert(crate::encoding::string_seq(out@) =~= new_names_spec(ns.take(0), es)) by {
        assert(ns.take(0) =~= Seq::<Seq<char>>::empty());
    }
    while i < n
        invariant
            i <= n == names@.len(),
            ns == crate::encoding::string_seq(names@),
            es == crate::encoding::string_seq(existing@),
            crate::encoding::string_seq(out@) == new_names_spec(ns.take(i as int), es),
        decreases n - i,
    {
        assert(ns.take(i + 1).drop_last() =~= ns.take(i as int));
        assert(ns.take(i + 1).last() == names@[i as int]@);
        let nv = chars_of(names[i].as_str());
        let mut found = false;
        let mut k: usize = 0;
        while k < existing.len()
            invariant
                k <= existing@.len(),
                es == crate::encoding::string_seq(existing@),
                nv@ == names@[i as int]@,
                found == exists|j: int| 0 <= j < k && existing@[j]@ == names@[i as int]@,
            decreases existing@.len() - k,
        {
            let a = existing[k].as_str();
            assert(a@ == existing@[k as int]@);
            if crate::text::equals_str(nv.as_slice(), a) {
                found = true;
            }
            k = k + 1;
        }
        proof {
            if found {
                let j = choose|j: int| 0 <= j < existing@.len() && existing@[j]@ == names@[i as int]@;
                assert(es[j] == existing@[j]@);
            } else {
                assert forall|j: int| 0 <= j < es.len() implies es[j] != names@[i as int]@ by {
                    assert(es[j] == existing@[j]@);
                }
            }
        }
        if !found {
            let ghost prev = crate::encoding::string_seq(out@);
            let copy = crate::text::string_of(nv.as_slice());
            out.push(copy);
            assert(crate::encoding::string_seq(out@) =~= prev.push(copy@));
        }
        i = i + 1;
    }
    assert(ns.take(n as int) =~= ns);
    out
}

} // verus!

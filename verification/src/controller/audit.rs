//! Audit trail pages: newest-first runs cut into pages with a cursor.

use vstd::prelude::*;

verus! {

/// One audit row as the API returns it. `detail` is the stored JSON text
/// and `created_at` the Unix time of the row.
pub struct AuditLogEntry {
    pub id: String,
    pub actor_type: String,
    pub actor_id: Option<String>,
    pub actor_name: Option<String>,
    pub action: String,
    pub subject_type: Option<String>,
    pub subject_id: Option<String>,
    pub detail: Option<String>,
    pub ip_address: Option<String>,
    pub created_at: i64,
}

pub struct AuditPage {
    pub entries: Vec<AuditLogEntry>,
    /// The id to pass as the exclusive cursor for the next (older) page.
    pub next_cursor: Option<String>,
}

/// Cuts an over-fetched (`limit + 1`) newest-first run into a page: when
/// more than `limit` rows came back, the page keeps the first `limit` and
/// the cursor is the id of the last row kept.
pub fn into_page(entries: Vec<AuditLogEntry>, limit: usize) -> (p: AuditPage)
    ensures
        entries@.len() > limit ==> p.entries@ == entries@.take(limit as int),
        entries@.len() <= limit ==> p.entries@ == entries@,
        entries@.len() > limit && limit > 0 ==> p.next_cursor == Some(entries@[limit - 1].id),
        entries@.len() <= limit || limit == 0 ==> p.next_cursor is None,
{
    let mut entries = entries;
    let next_cursor = if entries.len() > limit {
        entries.truncate(limit);
        if entries.len() > 0 {
            Some(entries[entries.len() - 1].id.clone())
        } else {
            None
        }
    } else {
        None
    };
    AuditPage { entries, next_cursor }
}

} // verus!

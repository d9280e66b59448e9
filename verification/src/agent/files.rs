//! The volume file browser's rules: text-editor limits, resumable uploads
//! and the per-volume quota, decided from what the caller read from disk.

use crate::encoding::{base64_standard_decode, base64_standard_decoded, utf8_decode, utf8_decoded};
use crate::text::{
    chars_of, decimal_string, decimal_text, push_str, starts_with, starts_with_seq, slice_chars,
    string_from, string_of, strip_trailing, strip_trailing_chars, utf8_len, utf8_length,
};
use vstd::prelude::*;

verus! {

/// Largest file the text editor opens or saves.
pub const TEXT_LIMIT: u64 = 2097152;

/// Base64 text of one upload chunk may be at most twice the transfer
/// chunk size.
pub const MAX_CHUNK_TEXT: usize = 262144;

/// An upload in progress: its declared size and how much has arrived.
pub struct UploadState {
    pub size: u64,
    pub written: u64,
}

impl UploadState {
    pub open spec fn wf(&self) -> bool {
        self.written <= self.size
    }
}

/// Starts (or resumes) an upload whose partial file already holds
/// `partial` bytes.
pub fn start_upload(partial: u64, size: u64) -> (r: Result<UploadState, String>)
    ensures
        r is Ok <==> partial <= size,
        r matches Ok(u) ==> u.wf() && u.size == size && u.written == partial,
        r matches Err(m) ==> m@ == "partial upload is larger than the declared file"@,
{
    if partial > size {
        return Err(string_from("partial upload is larger than the declared file"));
    }
    Ok(UploadState { size, written: partial })
}

/// The volume usage once this upload completes: what is used now, minus
/// the file it replaces, plus what is still to come (each step saturating).
pub open spec fn final_usage(used: u64, existing: u64, size: u64, written: u64) -> int {
    let base = if used >= existing {
        used - existing
    } else {
        0
    };
    let rest = if size >= written {
        size - written
    } else {
        0
    };
    if base + rest > u64::MAX {
        u64::MAX as int
    } else {
        base + rest
    }
}

pub fn check_quota(used: u64, existing: u64, size: u64, written: u64, quota: Option<u64>) -> (r:
    Result<(), String>)
    ensures
        r is Ok <==> (quota matches Some(q) ==> final_usage(used, existing, size, written) <= q),
        r matches Err(m) ==> m@ == "upload would exceed the volume quota ("@ + decimal_text(
            final_usage(used, existing, size, written) as nat,
        ) + " > "@ + decimal_text(quota->0 as nat) + " bytes)"@,
{
    let q = match quota {
        Some(q) => q,
        None => {
            return Ok(());
        },
    };
    let final_used = used.saturating_sub(existing).saturating_add(size.saturating_sub(written));
    if final_used > q {
        let mut m = string_from("upload would exceed the volume quota (");
        push_str(&mut m, decimal_string(final_used).as_str());
        push_str(&mut m, " > ");
        push_str(&mut m, decimal_string(q).as_str());
        push_str(&mut m, " bytes)");
        return Err(m);
    }
    Ok(())
}

/// Decodes one chunk's base64 text, refusing text whose UTF-8 encoding is
/// over the limit, or that is not valid base64.
pub fn decode_chunk(data: &str) -> (r: Result<Vec<u8>, String>)
    ensures
        utf8_len(data@) > MAX_CHUNK_TEXT ==> (r matches Err(m) && m@ == "upload chunk is too large"@),
        utf8_len(data@) <= MAX_CHUNK_TEXT ==> match r {
            Ok(b) => base64_standard_decoded(data@) == Some(b@),
            Err(m) => base64_standard_decoded(data@) is None && m@
                == "upload chunk is not valid base64"@,
        },
{
    let v = chars_of(data);
    if utf8_length(v.as_slice()) > MAX_CHUNK_TEXT {
        return Err(string_from("upload chunk is too large"));
    }
    match base64_standard_decode(data) {
        Some(b) => Ok(b),
        None => Err(string_from("upload chunk is not valid base64")),
    }
}

impl UploadState {
    /// Accepts `len` bytes written at `offset`: only at the current end of
    /// the upload and never past its declared size.
    pub fn accept_chunk(&mut self, offset: u64, len: u64) -> (r: Result<(), String>)
        requires
            old(self).wf(),
            offset == old(self).written && old(self).size == u64::MAX ==> old(self).written + len
                <= u64::MAX,
        ensures
            final(self).wf(),
            final(self).size == old(self).size,
            r is Ok <==> offset == old(self).written && old(self).written + len <= old(self).size,
            r is Ok ==> final(self).written == old(self).written + len,
            r is Err ==> final(self).written == old(self).written,
            offset != old(self).written ==> (r matches Err(m) && m@
                == "upload offset mismatch: expected "@ + decimal_text(old(self).written as nat)
                + ", received "@ + decimal_text(offset as nat)),
            offset == old(self).written && old(self).written + len > old(self).size ==> (r matches Err(m)
                && m@ == "upload exceeds its declared size"@),
    {
        if offset != self.written {
            let mut m = string_from("upload offset mismatch: expected ");
            push_str(&mut m, decimal_string(self.written).as_str());
            push_str(&mut m, ", received ");
            push_str(&mut m, decimal_string(offset).as_str());
            return Err(m);
        }
        let total = self.written.saturating_add(len);
        if total > self.size {
            return Err(string_from("upload exceeds its declared size"));
        }
        self.written = total;
        Ok(())
    }

    /// An upload finishes only once every declared byte arrived.
    pub fn finish(&self) -> (r: Result<(), String>)
        requires
            self.wf(),
        ensures
            r is Ok <==> self.written == self.size,
            r matches Err(m) ==> m@ == "upload ended "@ + decimal_text((self.size - self.written) as nat)
                + " bytes before its declared size"@,
    {
        if self.written != self.size {
            let mut m = string_from("upload ended ");
            push_str(&mut m, decimal_string(self.size - self.written).as_str());
            push_str(&mut m, " bytes before its declared size");
            return Err(m);
        }
        Ok(())
    }
}

/// Whether text of this many bytes may be saved from the editor.
pub fn check_text_size(len: u64) -> (r: Result<(), String>)
    ensures
        r is Ok <==> len <= TEXT_LIMIT,
        r matches Err(m) ==> m@ == "text is too large to save (maximum 2 MiB)"@,
{
    if len > TEXT_LIMIT {
        return Err(string_from("text is too large to save (maximum 2 MiB)"));
    }
    Ok(())
}

/// What the editor may open, in the order of the checks: a regular file
/// of at most 2 MiB, without NUL bytes, that is valid UTF-8.
pub open spec fn readable_text(is_file: bool, len: u64, bytes: Seq<u8>) -> Result<Seq<char>, Seq<char>> {
    if !is_file {
        Err("only regular files can be edited"@)
    } else if len > TEXT_LIMIT {
        Err("file is too large for the text editor (maximum 2 MiB)"@)
    } else if bytes.contains(0u8) {
        Err("binary files cannot be opened in the text editor"@)
    } else {
        match utf8_decoded(bytes) {
            Some(s) => Ok(s),
            None => Err("file is not valid UTF-8; use Download instead"@),
        }
    }
}

/// Opens a file's content for the editor; the metadata is checked before
/// the bytes are read, so `bytes` is only consulted for a small file.
pub fn read_text(is_file: bool, len: u64, bytes: Vec<u8>) -> (r: Result<String, String>)
    ensures
        match r {
            Ok(s) => readable_text(is_file, len, bytes@) == Ok::<Seq<char>, Seq<char>>(s@),
            Err(m) => readable_text(is_file, len, bytes@) == Err::<Seq<char>, Seq<char>>(m@),
        },
{
    if !is_file {
        return Err(string_from("only regular files can be edited"));
    }
    if len > TEXT_LIMIT {
        return Err(string_from("file is too large for the text editor (maximum 2 MiB)"));
    }
    let n = bytes.len();
    for i in 0..n
        invariant
            n == bytes@.len(),
            is_file,
            len <= TEXT_LIMIT,
            forall|k: int| 0 <= k < i ==> bytes@[k] != 0u8,
    {
        if bytes[i] == 0 {
            assert(bytes@.contains(0u8)) by {
                assert(bytes@[i as int] == 0u8);
            }
            return Err(string_from("binary files cannot be opened in the text editor"));
        }
    }
    let ghost bv = bytes@;
    match utf8_decode(bytes) {
        Some(s) => Ok(s),
        None => Err(string_from("file is not valid UTF-8; use Download instead")),
    }
}

/// The controller's URL as a WebSocket base: without trailing `/`, its
/// `https` switched to `wss` and `http` to `ws`.
pub open spec fn ws_base(controller_url: Seq<char>) -> Seq<char> {
    let base = strip_trailing(controller_url, '/');
    if starts_with(base, "https://"@) {
        "wss://"@ + base.skip(8)
    } else if starts_with(base, "http://"@) {
        "ws://"@ + base.skip(7)
    } else {
        base
    }
}

/// The WebSocket URL of a file session.
pub open spec fn ws_url_spec(controller_url: Seq<char>, session_id: Seq<char>) -> Seq<char> {
    ws_base(controller_url) + "/agent/volume-files/attach/"@ + session_id
}

/// The WebSocket URL of a container shell.
pub open spec fn shell_ws_url_spec(controller_url: Seq<char>, session_id: Seq<char>) -> Seq<char> {
    ws_base(controller_url) + "/agent/shell/attach/"@ + session_id
}

fn ws_base_exec(controller_url: &str) -> (r: String)
    ensures
        r@ == ws_base(controller_url@),
{
    let v = chars_of(controller_url);
    let base = strip_trailing_chars(v.as_slice(), '/');
    let https = chars_of("https://");
    let http = chars_of("http://");
    proof {
        reveal_strlit("https://");
        reveal_strlit("http://");
    }
    if starts_with_seq(base.as_slice(), https.as_slice()) {
        let rest = slice_chars(base.as_slice(), 8, base.len());
        assert(rest@ =~= base@.skip(8));
        let mut s = string_from("wss://");
        push_str(&mut s, string_of(rest.as_slice()).as_str());
        s
    } else if starts_with_seq(base.as_slice(), http.as_slice()) {
        let rest = slice_chars(base.as_slice(), 7, base.len());
        assert(rest@ =~= base@.skip(7));
        let mut s = string_from("ws://");
        push_str(&mut s, string_of(rest.as_slice()).as_str());
        s
    } else {
        string_of(base.as_slice())
    }
}

pub fn ws_url(controller_url: &str, session_id: &str) -> (r: String)
    ensures
        r@ == ws_url_spec(controller_url@, session_id@),
{
    let mut out = ws_base_exec(controller_url);
    push_str(&mut out, "/agent/volume-files/attach/");
    push_str(&mut out, session_id);
    out
}

pub fn shell_ws_url(controller_url: &str, session_id: &str) -> (r: String)
    ensures
        r@ == shell_ws_url_spec(controller_url@, session_id@),
{
    let mut out = ws_base_exec(controller_url);
    push_str(&mut out, "/agent/shell/attach/");
    push_str(&mut out, session_id);
    out
}

// ------------------------------------------------------------ uploads

/// The uploads of a session in progress, by request id. A partial upload
/// survives a disconnect only on disk; the table lives as long as the
/// session.
pub struct UploadTable {
    entries: Vec<(u128, UploadState)>,
}

impl UploadTable {
    /// Each request id once, each upload within its declared size.
    pub closed spec fn wf(&self) -> bool {
        &&& forall|i: int, j: int| 0 <= i < j < self.entries@.len() ==> self.entries@[i].0 != self.entries@[j].0
        &&& forall|i: int| 0 <= i < self.entries@.len() ==> (#[trigger] self.entries@[i]).1.wf()
    }

    /// The uploads as a map from request id to (declared size, bytes
    /// written).
    pub closed spec fn view(&self) -> Map<u128, (u64, u64)> {
        Map::new(
            |id: u128| exists|i: int| 0 <= i < self.entries@.len() && (#[trigger] self.entries@[i]).0 == id,
            |id: u128| {
                let i = choose|i: int| 0 <= i < self.entries@.len() && (#[trigger] self.entries@[i]).0 == id;
                (self.entries@[i].1.size, self.entries@[i].1.written)
            },
        )
    }

    proof fn lemma_view_at(&self, i: int)
        requires
            self.wf(),
            0 <= i < self.entries@.len(),
        ensures
            self.view().contains_key(self.entries@[i].0),
            self.view()[self.entries@[i].0] == (self.entries@[i].1.size, self.entries@[i].1.written),
    {
        let id = self.entries@[i].0;
        assert(exists|k: int| 0 <= k < self.entries@.len() && (#[trigger] self.entries@[k]).0 == id);
        let k = choose|k: int| 0 <= k < self.entries@.len() && (#[trigger] self.entries@[k]).0 == id;
        if k != i {
            if k < i {
                assert(self.entries@[k].0 != self.entries@[i].0);
            } else {
                assert(self.entries@[i].0 != self.entries@[k].0);
            }
        }
    }

    pub fn new() -> (r: UploadTable)
        ensures
            r.wf(),
            r.view() == Map::<u128, (u64, u64)>::empty(),
    {
        let r = UploadTable { entries: Vec::new() };
        assert(r.view() =~= Map::<u128, (u64, u64)>::empty());
        r
    }

    fn position(&self, id: u128) -> (r: Option<usize>)
        requires
            self.wf(),
        ensures
            match r {
                Some(i) => i < self.entries@.len() && self.entries@[i as int].0 == id,
                None => !self.view().contains_key(id),
            },
    {
        let n = self.entries.len();
        for i in 0..n
            invariant
                n == self.entries@.len(),
                forall|k: int| 0 <= k < i ==> (#[trigger] self.entries@[k]).0 != id,
        {
            if self.entries[i].0 == id {
                return Some(i);
            }
        }
        None
    }

    /// A new upload may not reuse the request id of one in progress.
    pub fn ensure_new(&self, id: u128) -> (r: Result<(), String>)
        requires
            self.wf(),
        ensures
            r is Ok <==> !self.view().contains_key(id),
            r matches Err(m) ==> m@ == "upload already exists"@,
    {
        match self.position(id) {
            Some(i) => {
                proof {
                    self.lemma_view_at(i as int);
                }
                Err(string_from("upload already exists"))
            },
            None => Ok(()),
        }
    }

    /// Registers an upload that passed its checks.
    pub fn insert(&mut self, id: u128, upload: UploadState)
        requires
            old(self).wf(),
            upload.wf(),
            !old(self).view().contains_key(id),
        ensures
            final(self).wf(),
            final(self).view() == old(self).view().insert(id, (upload.size, upload.written)),
    {
        let ghost before = self.entries@;
        let ghost old_view = self.view();
        self.entries.push((id, upload));
        assert forall|i: int| 0 <= i < before.len() implies before[i].0 != id by {
            if before[i].0 == id {
                assert(exists|k: int| 0 <= k < before.len() && (#[trigger] before[k]).0 == id);
            }
        }
        assert(self.wf());
        assert forall|k: u128| #[trigger] self.view().contains_key(k) <==> old_view.insert(
            id,
            (upload.size, upload.written),
        ).contains_key(k) by {
            if k == id {
                assert(self.entries@[before.len() as int].0 == id);
            } else if old_view.contains_key(k) {
                let i = choose|i: int| 0 <= i < before.len() && (#[trigger] before[i]).0 == k;
                assert(self.entries@[i].0 == k);
            } else if self.view().contains_key(k) {
                let i = choose|i: int| 0 <= i < self.entries@.len() && (#[trigger] self.entries@[i]).0 == k;
                assert(before[i].0 == k);
            }
        }
        assert forall|k: u128| #[trigger] self.view().contains_key(k) implies self.view()[k] == old_view.insert(
            id,
            (upload.size, upload.written),
        )[k] by {
            if k == id {
                self.lemma_view_at(before.len() as int);
            } else {
                let i = choose|i: int| 0 <= i < self.entries@.len() && (#[trigger] self.entries@[i]).0 == k;
                self.lemma_view_at(i);
                assert(before[i] == self.entries@[i]);
                assert(old_view.contains_key(k));
                let j = choose|j: int| 0 <= j < before.len() && (#[trigger] before[j]).0 == k;
                if j != i {
                    if j < i {
                        assert(self.entries@[j].0 != self.entries@[i].0);
                    } else {
                        assert(self.entries@[i].0 != self.entries@[j].0);
                    }
                }
            }
        }
        assert(self.view() =~= old_view.insert(id, (upload.size, upload.written)));
    }

    proof fn lemma_set_view(&self, old_table: UploadTable, i: int, id: u128, size: u64, written: u64)
        requires
            old_table.wf(),
            0 <= i < old_table.entries@.len(),
            old_table.entries@[i].0 == id,
            self.entries@ == old_table.entries@.update(i, (id, UploadState { size, written })),
            written <= size,
        ensures
            self.wf(),
            self.view() == old_table.view().insert(id, (size, written)),
    {
        assert forall|a: int, b: int| 0 <= a < b < self.entries@.len() implies self.entries@[a].0 != self.entries@[b].0 by {
            assert(old_table.entries@[a].0 != old_table.entries@[b].0);
        }
        assert forall|a: int| 0 <= a < self.entries@.len() implies (#[trigger] self.entries@[a]).1.wf() by {
            if a != i {
                assert(old_table.entries@[a].1.wf());
            }
        }
        let nv = old_table.view().insert(id, (size, written));
        assert forall|k: u128| #[trigger] self.view().contains_key(k) <==> nv.contains_key(k) by {
            if self.view().contains_key(k) {
                let j = choose|j: int| 0 <= j < self.entries@.len() && (#[trigger] self.entries@[j]).0 == k;
                assert(old_table.entries@[j].0 == k);
            }
            if old_table.view().contains_key(k) {
                let j = choose|j: int| 0 <= j < old_table.entries@.len() && (#[trigger] old_table.entries@[j]).0 == k;
                assert(self.entries@[j].0 == k);
            }
            if k == id {
                assert(self.entries@[i].0 == k);
            }
        }
        assert forall|k: u128| #[trigger] self.view().contains_key(k) implies self.view()[k] == nv[k] by {
            let j = choose|j: int| 0 <= j < self.entries@.len() && (#[trigger] self.entries@[j]).0 == k;
            self.lemma_view_at(j);
            if k != id {
                assert(old_table.entries@[j] == self.entries@[j]);
                old_table.lemma_view_at(j);
            }
        }
        assert(self.view() =~= nv);
    }

    /// A chunk of `len` decoded bytes for upload `id`, written at `offset`.
    pub fn chunk(&mut self, id: u128, offset: u64, len: u64) -> (r: Result<(), String>)
        requires
            old(self).wf(),
            old(self).view().contains_key(id) && offset == old(self).view()[id].1 && old(self).view()[id].0
                == u64::MAX ==> old(self).view()[id].1 + len <= u64::MAX,
        ensures
            final(self).wf(),
            !old(self).view().contains_key(id) ==> (r matches Err(m) && m@ == "upload is not active"@)
                && final(self).view() == old(self).view(),
            old(self).view().contains_key(id) ==> ({
                let (size, written) = old(self).view()[id];
                &&& r is Ok <==> offset == written && written + len <= size
                &&& r is Ok ==> final(self).view() == old(self).view().insert(id, (size, (written + len) as u64))
                &&& r is Err ==> final(self).view() == old(self).view()
                &&& offset != written ==> (r matches Err(m) && m@ == "upload offset mismatch: expected "@
                    + decimal_text(written as nat) + ", received "@ + decimal_text(offset as nat))
                &&& offset == written && written + len > size ==> (r matches Err(m) && m@
                    == "upload exceeds its declared size"@)
            }),
    {
        let i = match self.position(id) {
            Some(i) => i,
            None => {
                return Err(string_from("upload is not active"));
            },
        };
        proof {
            self.lemma_view_at(i as int);
        }
        let mut st = UploadState { size: self.entries[i].1.size, written: self.entries[i].1.written };
        assert(st.wf()) by {
            assert(self.entries@[i as int].1.wf());
        }
        let r = st.accept_chunk(offset, len);
        if r.is_ok() {
            let ghost before = *self;
            self.entries.set(i, (id, st));
            proof {
                self.lemma_set_view(before, i as int, id, st.size, st.written);
            }
        }
        r
    }

    /// Ends upload `id`: it leaves the table either way, and succeeds only
    /// when every declared byte arrived.
    pub fn finish(&mut self, id: u128) -> (r: Result<(), String>)
        requires
            old(self).wf(),
        ensures
            final(self).wf(),
            !old(self).view().contains_key(id) ==> (r matches Err(m) && m@ == "upload is not active"@)
                && final(self).view() == old(self).view(),
            old(self).view().contains_key(id) ==> ({
                let (size, written) = old(self).view()[id];
                &&& final(self).view() == old(self).view().remove(id)
                &&& r is Ok <==> written == size
                &&& r matches Err(m) ==> m@ == "upload ended "@ + decimal_text((size - written) as nat)
                    + " bytes before its declared size"@
            }),
    {
        let i = match self.position(id) {
            Some(i) => i,
            None => {
                return Err(string_from("upload is not active"));
            },
        };
        proof {
            self.lemma_view_at(i as int);
        }
        let ghost before = *self;
        let (_, st) = self.entries.remove(i);
        proof {
            assert forall|a: int, b: int| 0 <= a < b < self.entries@.len() implies self.entries@[a].0 != self.entries@[b].0 by {
                let a2 = if a < i { a } else { a + 1 };
                let b2 = if b < i { b } else { b + 1 };
                assert(before.entries@[a2].0 != before.entries@[b2].0);
            }
            assert forall|a: int| 0 <= a < self.entries@.len() implies (#[trigger] self.entries@[a]).1.wf() by {
                let a2 = if a < i { a } else { a + 1 };
                assert(before.entries@[a2].1.wf());
            }
            let nv = before.view().remove(id);
            assert forall|k: u128| #[trigger] self.view().contains_key(k) <==> nv.contains_key(k) by {
                if self.view().contains_key(k) {
                    let j = choose|j: int| 0 <= j < self.entries@.len() && (#[trigger] self.entries@[j]).0 == k;
                    let j2 = if j < i { j } else { j + 1 };
                    assert(before.entries@[j2].0 == k);
                    if k == id {
                        if j2 < i {
                            assert(before.entries@[j2].0 != before.entries@[i as int].0);
                        } else {
                            assert(before.entries@[i as int].0 != before.entries@[j2].0);
                        }
                    }
                }
                if nv.contains_key(k) {
                    let j = choose|j: int| 0 <= j < before.entries@.len() && (#[trigger] before.entries@[j]).0 == k;
                    assert(j != i);
                    let j2 = if j < i { j } else { j - 1 };
                    assert(self.entries@[j2].0 == k);
                }
            }
            assert forall|k: u128| #[trigger] self.view().contains_key(k) implies self.view()[k] == nv[k] by {
                let j = choose|j: int| 0 <= j < self.entries@.len() && (#[trigger] self.entries@[j]).0 == k;
                self.lemma_view_at(j);
                let j2 = if j < i { j } else { j + 1 };
                assert(before.entries@[j2] == self.entries@[j]);
                before.lemma_view_at(j2);
            }
            assert(self.view() =~= nv);
            assert(st.wf()) by {
                assert(before.entries@[i as int].1.wf());
            }
        }
        st.finish()
    }
}

} // verus!

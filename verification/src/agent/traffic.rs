//! Application traffic upload on the agent: a read batch is held, with the
//! log offsets it reaches, until the controller has accepted it, so an
//! outage repeats the same records instead of losing them.

use vstd::prelude::*;

verus! {

/// The reader's offsets and the batch awaiting the controller's answer.
pub struct TrafficStaging<B, O> {
    pub offsets: O,
    pub pending: Option<(B, O)>,
}

impl<B, O> TrafficStaging<B, O> {
    pub fn new(offsets: O) -> (r: Self)
        ensures
            r.offsets == offsets,
            r.pending is None,
    {
        TrafficStaging { offsets, pending: None }
    }

    /// The batch to upload again, if one is waiting.
    pub fn waiting(&self) -> (r: Option<&B>)
        ensures
            match self.pending {
                Some((b, _)) => r == Some(&b),
                None => r is None,
            },
    {
        match &self.pending {
            Some((b, _)) => Some(b),
            None => None,
        }
    }

    /// Takes a fresh read (made from `offsets`, reaching `next`): records
    /// are held with `next` until committed; a read without records moves
    /// the offsets at once.
    pub fn stage(&mut self, batch: B, has_records: bool, next: O)
        requires
            old(self).pending is None,
        ensures
            has_records ==> final(self).offsets == old(self).offsets && final(self).pending == Some((batch, next)),
            !has_records ==> final(self).offsets == next && final(self).pending is None,
    {
        if has_records {
            self.pending = Some((batch, next));
        } else {
            self.offsets = next;
        }
    }

    /// The controller accepted the batch: the offsets it reaches become
    /// the reader's.
    pub fn commit(&mut self)
        ensures
            match old(self).pending {
                Some((_, o)) => final(self).offsets == o && final(self).pending is None,
                None => final(self).offsets == old(self).offsets && final(self).pending is None,
            },
    {
        let pending = self.pending.take();
        if let Some((_, o)) = pending {
            self.offsets = o;
        }
    }
}

} // verus!

//! Small FIFO of human-readable notices (config warnings, compatibility
//! downgrades), drained by frontends on startup.
use vstd::prelude::*;

verus! {

/// A FIFO of notices.
#[derive(Default)]
pub struct NoticeBuffer {
    inner: Vec<String>,
}

impl NoticeBuffer {
    /// The notices waiting, oldest first.
    pub closed spec fn pending(&self) -> Seq<Seq<char>> {
        self.inner@.map_values(|s: String| s@)
    }

    /// An empty buffer.
    pub fn new() -> (b: NoticeBuffer)
        ensures
            b.pending().len() == 0,
    {
        NoticeBuffer { inner: Vec::new() }
    }

    /// Queue a notice.
    pub fn push(&mut self, msg: String)
        ensures
            final(self).pending() == old(self).pending().push(msg@),
    {
        self.inner.push(msg);
        proof {
            assert(self.pending() == old(self).pending().push(msg@));
        }
    }

    /// Take every queued notice, oldest first, leaving the buffer empty.
    pub fn drain_all(&mut self) -> (r: Vec<String>)
        ensures
            r@.map_values(|s: String| s@) == old(self).pending(),
            final(self).pending().len() == 0,
    {
        let mut out: Vec<String> = Vec::new();
        std::mem::swap(&mut out, &mut self.inner);
        out
    }
}

/// The pending notices after pushing `msgs`, in order, onto `pending`
/// (what [`NoticeBuffer::push`] guarantees, step by step).
pub open spec fn after_pushes(pending: Seq<Seq<char>>, msgs: Seq<Seq<char>>) -> Seq<Seq<char>>
    decreases msgs.len(),
{
    if msgs.len() == 0 {
        pending
    } else {
        after_pushes(pending, msgs.drop_last()).push(msgs.last())
    }
}

/// Law: after any number of pushes onto an empty buffer, the pending
/// notices are exactly the pushed ones in push order, so `drain_all`
/// returns them first-in first-out (and leaves the buffer empty).
pub proof fn law_drain_is_fifo(msgs: Seq<Seq<char>>)
    ensures
        after_pushes(Seq::empty(), msgs) == msgs,
    decreases msgs.len(),
{
    if msgs.len() > 0 {
        law_drain_is_fifo(msgs.drop_last());
        assert(msgs.drop_last().push(msgs.last()) =~= msgs);
    }
}

} // verus!

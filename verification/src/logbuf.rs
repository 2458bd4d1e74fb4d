//! Ring-buffered log for subprocess stderr and internal messages.
//!
//! When the buffer is full the oldest line is dropped to make room; the
//! cumulative count of dropped lines is kept so a UI can show how many
//! lines were lost. Sharing between threads is the caller's concern.
use std::collections::VecDeque;

use vstd::prelude::*;

use crate::text;

verus! {

/// Default capacity.
pub const DEFAULT_MAX_LINES: usize = 1000;

/// A bounded FIFO of formatted log lines.
pub struct LogBuffer {
    queue: VecDeque<String>,
    dropped: u64,
    capacity: usize,
}

/// Is `c` a line-break character (`\n` or `\r`)?
pub open spec fn is_line_break(c: char) -> bool {
    c == '\n' || c == '\r'
}

/// The line as stored: every trailing `\n` and `\r` removed, in any mix.
pub open spec fn trimmed_line(line: Seq<char>) -> Seq<char>
    decreases line.len(),
{
    if line.len() > 0 && is_line_break(line.last()) {
        trimmed_line(line.drop_last())
    } else {
        line
    }
}

/// `line` without its trailing line breaks (see [`trimmed_line`]).
fn trim_line_breaks(line: &[char]) -> (r: Vec<char>)
    ensures
        r@ == trimmed_line(line@),
{
    let mut k: usize = line.len();
    assert(line@.subrange(0, k as int) =~= line@);
    while k > 0 && (line[k - 1] == '\n' || line[k - 1] == '\r')
        invariant
            k <= line@.len(),
            trimmed_line(line@) == trimmed_line(line@.subrange(0, k as int)),
        decreases k,
    {
        proof {
            assert(line@.subrange(0, k as int).drop_last() =~= line@.subrange(0, k - 1));
        }
        k = k - 1;
    }
    text::slice_of(line, 0, k)
}

/// `[source] line`.
pub open spec fn formatted(source: Seq<char>, line: Seq<char>) -> Seq<char> {
    "["@ + source + "] "@ + line
}

/// The lines kept after appending `l` to `lines` in a buffer of `cap`.
pub open spec fn after_push(lines: Seq<Seq<char>>, cap: nat, l: Seq<char>) -> Seq<Seq<char>> {
    if lines.len() == cap && cap > 0 { lines.drop_first().push(l) } else { lines.push(l) }
}

impl LogBuffer {
    /// A buffer of positive capacity never holds more lines than its
    /// capacity.
    #[verifier::type_invariant]
    closed spec fn within_capacity(self) -> bool {
        self.capacity > 0 ==> self.queue@.len() <= self.capacity
    }

    /// The lines currently held, oldest first.
    pub closed spec fn lines(&self) -> Seq<Seq<char>> {
        self.queue@.map_values(|s: String| s@)
    }

    /// Cumulative count of evicted lines.
    pub closed spec fn dropped_count(&self) -> nat {
        self.dropped as nat
    }

    /// Maximum number of lines held.
    pub closed spec fn cap(&self) -> nat {
        self.capacity as nat
    }

    /// An empty buffer holding at most `DEFAULT_MAX_LINES` lines.
    pub fn new() -> (b: LogBuffer)
        ensures
            b.lines().len() == 0,
            b.dropped_count() == 0,
            b.cap() == DEFAULT_MAX_LINES,
    {
        Self::with_capacity(DEFAULT_MAX_LINES)
    }

    /// An empty buffer holding at most `capacity` lines.
    pub fn with_capacity(capacity: usize) -> (b: LogBuffer)
        ensures
            b.lines().len() == 0,
            b.dropped_count() == 0,
            b.cap() == capacity,
    {
        LogBuffer { queue: VecDeque::new(), dropped: 0, capacity }
    }

    /// Append one line, prefixed with `[source] `. Every trailing `\n`
    /// and `\r` is stripped; lines that end up empty are ignored. A full buffer drops
    /// its oldest line and counts the drop.
    pub fn push(&mut self, source: &str, line: &str)
        requires
            old(self).dropped_count() < u64::MAX,
        ensures
            final(self).cap() == old(self).cap(),
            final(self).cap() > 0 ==> final(self).lines().len() <= final(self).cap(),
            trimmed_line(line@).len() == 0 ==> final(self).lines() == old(self).lines()
                && final(self).dropped_count() == old(self).dropped_count(),
            trimmed_line(line@).len() > 0 ==> final(self).lines() == after_push(
                old(self).lines(),
                old(self).cap(),
                formatted(source@, trimmed_line(line@)),
            ) && final(self).dropped_count() == old(self).dropped_count() + if old(
                self,
            ).lines().len() == old(self).cap() {
                1nat
            } else {
                0nat
            },
    {
        proof {
            use_type_invariant(&*self);
        }
        let chars = text::chars_of(line);
        let t = trim_line_breaks(chars.as_slice());
        if t.len() == 0 {
            return;
        }
        let mut s = String::new();
        text::push_str(&mut s, "[");
        text::push_str(&mut s, source);
        text::push_str(&mut s, "] ");
        text::push_chars(&mut s, t.as_slice());
        let ghost old_lines = self.lines();
        let mut q: VecDeque<String> = VecDeque::new();
        std::mem::swap(&mut q, &mut self.queue);
        if q.len() == self.capacity {
            let _ = q.pop_front();
            self.dropped = self.dropped + 1;
        }
        q.push_back(s);
        self.queue = q;
        proof {
            if old_lines.len() == self.capacity && self.capacity > 0 {
                assert(self.lines() == old_lines.drop_first().push(s@));
            } else {
                assert(self.lines() == old_lines.push(s@));
            }
        }
    }

    /// Every line currently in the buffer, oldest first.
    pub fn snapshot(&self) -> (r: Vec<String>)
        ensures
            r@.map_values(|s: String| s@) == self.lines(),
            self.cap() > 0 ==> r@.len() <= self.cap(),
    {
        proof {
            use_type_invariant(self);
        }
        let mut out: Vec<String> = Vec::new();
        let mut i: usize = 0;
        while i < self.queue.len()
            invariant
                i <= self.queue@.len(),
                out@ == self.queue@.subrange(0, i as int),
            decreases self.queue@.len() - i,
        {
            out.push(self.queue[i].clone());
            i = i + 1;
            assert(self.queue@.subrange(0, i as int) == self.queue@.subrange(0, i - 1).push(
                self.queue@[i - 1],
            ));
        }
        assert(self.queue@.subrange(0, i as int) == self.queue@);
        out
    }

    /// Cumulative count of lines dropped due to capacity.
    pub fn dropped(&self) -> (r: u64)
        ensures
            r == self.dropped_count(),
    {
        self.dropped
    }

    /// Number of lines held.
    pub fn len(&self) -> (r: usize)
        ensures
            r == self.lines().len(),
            self.cap() > 0 ==> r <= self.cap(),
    {
        proof {
            use_type_invariant(self);
        }
        self.queue.len()
    }

    /// No lines held.
    pub fn is_empty(&self) -> (r: bool)
        ensures
            r == (self.lines().len() == 0),
    {
        self.len() == 0
    }
}

/// Law: in a buffer of positive capacity, one accepted line raises
/// `held + dropped` by exactly one and never takes the buffer past its
/// capacity.
pub proof fn law_push_conserves_lines(lines: Seq<Seq<char>>, cap: nat, l: Seq<char>)
    requires
        cap > 0,
        lines.len() <= cap,
    ensures
        after_push(lines, cap, l).len() <= cap,
        after_push(lines, cap, l).len() + (if lines.len() == cap { 1nat } else { 0nat })
            == lines.len() + 1,
        after_push(lines, cap, l).last() == l,
{
}

/// Law: eviction removes the oldest line and keeps the rest in order.
pub proof fn law_push_keeps_newest(lines: Seq<Seq<char>>, cap: nat, l: Seq<char>)
    requires
        cap > 0,
        lines.len() == cap,
    ensures
        forall|i: int|
            0 <= i < cap - 1 ==> #[trigger] after_push(lines, cap, l)[i] == lines[i + 1],
{
}

/// The held lines and the drop count after one `push` of `line` from
/// `source` (what [`LogBuffer::push`] guarantees).
pub open spec fn push_step(state: (Seq<Seq<char>>, nat), cap: nat, source: Seq<char>, line: Seq<char>) -> (
    Seq<Seq<char>>,
    nat,
) {
    if trimmed_line(line).len() == 0 {
        state
    } else {
        (
            after_push(state.0, cap, formatted(source, trimmed_line(line))),
            state.1 + if state.0.len() == cap {
                1nat
            } else {
                0nat
            },
        )
    }
}

/// The state after a sequence of pushes, in order.
pub open spec fn replay(state: (Seq<Seq<char>>, nat), cap: nat, pushes: Seq<(Seq<char>, Seq<char>)>) -> (
    Seq<Seq<char>>,
    nat,
)
    decreases pushes.len(),
{
    if pushes.len() == 0 {
        state
    } else {
        let p = pushes.last();
        push_step(replay(state, cap, pushes.drop_last()), cap, p.0, p.1)
    }
}

/// How many of the pushes kept a line and found the buffer full.
pub open spec fn evictions(state: (Seq<Seq<char>>, nat), cap: nat, pushes: Seq<(Seq<char>, Seq<char>)>) -> nat
    decreases pushes.len(),
{
    if pushes.len() == 0 {
        0
    } else {
        let p = pushes.last();
        evictions(state, cap, pushes.drop_last()) + if trimmed_line(p.1).len() > 0 && replay(
            state,
            cap,
            pushes.drop_last(),
        ).0.len() == cap {
            1nat
        } else {
            0nat
        }
    }
}

/// Law: over any sequence of pushes into a buffer of positive capacity,
/// the buffer never holds more than its capacity, and the drop count
/// grows by exactly the number of pushes that kept a line and found the
/// buffer full.
pub proof fn law_dropped_counts_evictions(
    state: (Seq<Seq<char>>, nat),
    cap: nat,
    pushes: Seq<(Seq<char>, Seq<char>)>,
)
    requires
        cap > 0,
        state.0.len() <= cap,
    ensures
        replay(state, cap, pushes).0.len() <= cap,
        replay(state, cap, pushes).1 == state.1 + evictions(state, cap, pushes),
        replay(state, cap, pushes).1 >= state.1,
    decreases pushes.len(),
{
    if pushes.len() > 0 {
        law_dropped_counts_evictions(state, cap, pushes.drop_last());
    }
}

} // verus!

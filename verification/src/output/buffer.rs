//! The bounded buffer that a sink accumulates lines in.

use crate::types::{LineView, RequestLogLine};
use vstd::prelude::*;

verus! {

/// The greatest limit that a [`Batch`] can have: this many lines are held
/// without any allocation.
pub const INLINE_LINES: usize = 20;

/// A `smallvec::SmallVec` of lines with room for [`INLINE_LINES`] of them
/// inline.
#[verifier::external_body]
#[derive(Debug)]
pub struct LineBuffer {
    inner: smallvec::SmallVec<[RequestLogLine; 20]>,
}

/// The lines that a buffer holds, oldest first.
pub uninterp spec fn held_lines(buffer: LineBuffer) -> Seq<RequestLogLine>;

/// `SmallVec::new`: a vector without elements.
#[verifier::external_body]
fn buffer_new() -> (buffer: LineBuffer)
    ensures
        held_lines(buffer) == Seq::<RequestLogLine>::empty(),
{
    LineBuffer { inner: smallvec::SmallVec::new() }
}

/// `SmallVec::len`: the number of elements.
#[verifier::external_body]
fn buffer_len(buffer: &LineBuffer) -> (len: usize)
    ensures
        len == held_lines(*buffer).len(),
{
    buffer.inner.len()
}

/// `SmallVec::push`: appends one element. Below the inline size the vector
/// does not allocate, so the call cannot fail.
#[verifier::external_body]
fn buffer_push(buffer: &mut LineBuffer, line: RequestLogLine)
    requires
        held_lines(*old(buffer)).len() < INLINE_LINES,
    ensures
        held_lines(*final(buffer)) == held_lines(*old(buffer)).push(line),
    no_unwind
{
    buffer.inner.push(line)
}

/// `SmallVec::clear`: removes every element. Dropping a line frees its
/// texts and does nothing else, so the call cannot fail.
#[verifier::external_body]
fn buffer_clear(buffer: &mut LineBuffer)
    ensures
        held_lines(*final(buffer)) == Seq::<RequestLogLine>::empty(),
    no_unwind
{
    buffer.inner.clear()
}

/// Indexing through `SmallVec`'s `Deref` to a slice: the element at `index`.
#[verifier::external_body]
fn buffer_get(buffer: &LineBuffer, index: usize) -> (line: &RequestLogLine)
    requires
        index < held_lines(*buffer).len(),
    ensures
        *line == held_lines(*buffer)[index as int],
{
    &buffer.inner[index]
}

/// The views of a sequence of lines.
pub open spec fn views(lines: Seq<RequestLogLine>) -> Seq<LineView> {
    lines.map_values(|line: RequestLogLine| line@)
}

pub proof fn lemma_views_push(lines: Seq<RequestLogLine>, line: RequestLogLine)
    ensures
        views(lines.push(line)) == views(lines).push(line@),
{
    assert(views(lines.push(line)) =~= views(lines).push(line@));
}

pub proof fn lemma_views_empty(lines: Seq<RequestLogLine>)
    ensures
        views(lines).len() == lines.len(),
        lines.len() == 0 ==> views(lines) == Seq::<LineView>::empty(),
{
    if lines.len() == 0 {
        assert(views(lines) =~= Seq::<LineView>::empty());
    }
}

/// Lines in the order in which they were accepted, never more than a fixed
/// limit of them.
#[derive(Debug)]
pub struct Batch {
    lines: LineBuffer,
    limit: usize,
}

impl Batch {
    #[verifier::type_invariant]
    spec fn bounded(self) -> bool {
        1 <= self.limit <= INLINE_LINES && held_lines(self.lines).len() <= self.limit
    }

    /// The lines held, oldest first.
    pub closed spec fn lines(&self) -> Seq<RequestLogLine> {
        held_lines(self.lines)
    }

    /// The number of lines at which the batch is full.
    pub closed spec fn capacity(&self) -> nat {
        self.limit as nat
    }

    /// An empty batch for `limit` lines; none if the limit is 0 or above
    /// [`INLINE_LINES`].
    pub fn new(limit: usize) -> (res: Option<Batch>)
        ensures
            res is Some <==> 1 <= limit <= INLINE_LINES,
            res matches Some(batch) ==> batch.capacity() == limit && batch.lines().len() == 0,
    {
        if 1 <= limit && limit <= INLINE_LINES {
            Some(Batch { lines: buffer_new(), limit })
        } else {
            None
        }
    }

    pub fn maximum_buffer_size(&self) -> (size: usize)
        ensures
            size == self.capacity(),
            1 <= size <= INLINE_LINES,
            self.lines().len() <= size,
    {
        proof {
            use_type_invariant(self);
        }
        self.limit
    }

    pub fn buffer_len(&self) -> (len: usize)
        ensures
            len == self.lines().len(),
            len <= self.capacity(),
    {
        proof {
            use_type_invariant(self);
        }
        buffer_len(&self.lines)
    }

    pub fn is_full(&self) -> (full: bool)
        ensures
            full == (self.lines().len() == self.capacity()),
            self.lines().len() <= self.capacity(),
            self.capacity() >= 1,
    {
        self.buffer_len() == self.maximum_buffer_size()
    }

    pub fn buffer_is_empty(&self) -> (empty: bool)
        ensures
            empty == (self.lines().len() == 0),
    {
        self.buffer_len() == 0
    }

    /// Forgets every line held.
    pub fn buffer_clear(&mut self)
        ensures
            final(self).lines() == Seq::<RequestLogLine>::empty(),
            final(self).capacity() == old(self).capacity(),
    {
        proof {
            use_type_invariant(&*self);
        }
        buffer_clear(&mut self.lines);
    }

    fn push_to_buffer(&mut self, line: RequestLogLine)
        requires
            old(self).lines().len() < old(self).capacity(),
        ensures
            final(self).lines() == old(self).lines().push(line),
            final(self).capacity() == old(self).capacity(),
    {
        proof {
            use_type_invariant(&*self);
        }
        buffer_push(&mut self.lines, line);
    }

    /// Appends a copy of `line` unless the batch is full; says whether it did.
    pub fn add_to_queue(&mut self, line: &RequestLogLine) -> (taken: bool)
        ensures
            taken == (old(self).lines().len() < old(self).capacity()),
            taken ==> final(self).lines() == old(self).lines().push(*line),
            !taken ==> *final(self) == *old(self),
            final(self).capacity() == old(self).capacity(),
            old(self).capacity() >= 1,
    {
        if self.is_full() {
            return false;
        }
        self.push_to_buffer(line.clone());
        true
    }

    /// The line at `index`, counted from the oldest.
    pub fn get(&self, index: usize) -> (line: &RequestLogLine)
        requires
            index < self.lines().len(),
        ensures
            *line == self.lines()[index as int],
    {
        buffer_get(&self.lines, index)
    }

    /// Copies of the lines held, oldest first.
    pub fn to_vec(&self) -> (lines: Vec<RequestLogLine>)
        ensures
            lines@ == self.lines(),
    {
        let mut lines: Vec<RequestLogLine> = Vec::new();
        let len = self.buffer_len();
        let mut i: usize = 0;
        while i < len
            invariant
                i <= len,
                len == self.lines().len(),
                lines@ == self.lines().take(i as int),
            decreases len - i,
        {
            lines.push(self.get(i).clone());
            assert(self.lines().take(i + 1) == self.lines().take(i as int).push(self.lines()[i as int]));
            i = i + 1;
        }
        assert(self.lines().take(len as int) == self.lines());
        lines
    }
}

} // verus!

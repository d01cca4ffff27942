//! Handles over a shared allocation, and the operations that move bytes between them.
use std::ops::Range;
use std::sync::Arc;
use vstd::prelude::*;

use crate::ranges::{round_up, usize_bytes_round_up, USIZE_BYTES};

verus! {

/// What an allocation records about itself: its size in bytes, header included,
/// and the number of data bytes that follow the header.
#[derive(Debug)]
pub struct LoafHeader {
    pub alloc_size: usize,
    pub loaf_len: usize,
}

/// The largest loaf: `isize::MAX` less a two-word header, rounded down to a word.
pub const MAX_LOAF_LEN: usize = usize::MAX / 2 - 2 * USIZE_BYTES - (USIZE_BYTES - 1);

/// A handle as a value: the header of its allocation, the half-open range
/// `[start, end)` of data offsets it owns, and the bytes in that range.
pub ghost struct LoafView {
    pub arena: LoafHeader,
    pub start: nat,
    pub end: nat,
    pub bytes: Seq<u8>,
}

impl LoafView {
    pub open spec fn len(self) -> nat {
        (self.end - self.start) as nat
    }

    /// The range lies inside the allocation's data and the bytes fill it.
    pub open spec fn wf(self) -> bool {
        &&& self.start <= self.end <= self.arena.loaf_len
        &&& self.bytes.len() == self.end - self.start
        &&& self.arena.loaf_len <= MAX_LOAF_LEN
        &&& self.arena.alloc_size == round_up(self.arena.loaf_len + 2 * USIZE_BYTES)
    }
}

/// `lo` ends where `hi` begins.
pub open spec fn adjacent(lo: LoafView, hi: LoafView) -> bool {
    lo.end == hi.start
}

/// Splitting `v` after its first `n` bytes: `v` keeps the head, a new handle
/// gets the tail.
pub open spec fn split_view(v: LoafView, n: nat) -> (LoafView, LoafView) {
    (
        LoafView { arena: v.arena, start: v.start, end: v.start + n, bytes: v.bytes.subrange(0, n as int) },
        LoafView {
            arena: v.arena,
            start: v.start + n,
            end: v.end,
            bytes: v.bytes.subrange(n as int, v.bytes.len() as int),
        },
    )
}

/// Joining `lo` with the `hi` that follows it: `lo` covers both ranges and
/// `hi` is left empty at its own end.
pub open spec fn join_view(lo: LoafView, hi: LoafView) -> (LoafView, LoafView) {
    (
        LoafView { arena: lo.arena, start: lo.start, end: hi.end, bytes: lo.bytes + hi.bytes },
        LoafView { arena: hi.arena, start: hi.end, end: hi.end, bytes: Seq::empty() },
    )
}

/// Moving the boundary between `a` and the `b` that follows it to `a.start + n`.
pub open spec fn resplit_view(a: LoafView, b: LoafView, n: nat) -> (LoafView, LoafView) {
    let all = a.bytes + b.bytes;
    (
        LoafView { arena: a.arena, start: a.start, end: a.start + n, bytes: all.subrange(0, n as int) },
        LoafView {
            arena: b.arena,
            start: a.start + n,
            end: b.end,
            bytes: all.subrange(n as int, all.len() as int),
        },
    )
}

/// `v` narrowed to the offsets `[s, e)` relative to its start.
pub open spec fn narrow_view(v: LoafView, s: nat, e: nat) -> LoafView {
    LoafView { arena: v.arena, start: v.start + s, end: v.start + e, bytes: v.bytes.subrange(s as int, e as int) }
}

/// The end of a relative range, raised to its start where it lies below it.
pub open spec fn clamped_end(r: Range<usize>) -> nat {
    if r.end < r.start { r.start as nat } else { r.end as nat }
}

#[derive(Debug, Clone, Copy, PartialEq, Eq, Structural, Hash)]
pub enum ResplitError {
    DistinctLoaves,
    PartsAreNotAdjacent,
    OutOfBounds,
}

#[derive(Debug, Clone, Copy, PartialEq, Eq, Structural, Hash)]
pub enum JoinError {
    DistinctLoaves,
    PartsAreNotAdjacent,
}

/// Relies on `Arc::clone`: the new pointer shares the allocation, so it reads
/// the same header; the strong count goes up by one.
#[verifier::external_body]
fn share_header(h: &Arc<LoafHeader>) -> (r: Arc<LoafHeader>)
    ensures
        r == *h,
{
    Arc::clone(h)
}

/// Relies on `Arc::ptr_eq`: true only where both point to one allocation,
/// which holds one header.
#[verifier::external_body]
fn same_header(a: &Arc<LoafHeader>, b: &Arc<LoafHeader>) -> (r: bool)
    ensures
        r ==> *a == *b,
{
    Arc::ptr_eq(a, b)
}

/// Relies on `Arc::strong_count`: the number of handles that share the
/// allocation at the moment of the call.
#[verifier::external_body]
fn count_owners(h: &Arc<LoafHeader>) -> usize {
    Arc::strong_count(h)
}

/// The owner of a range of bytes in a shared allocation. It can be split in
/// two, joined with the handle next to it, and read and written. The
/// allocation is released when the last handle over it is dropped.
#[derive(Debug)]
pub struct LoafPart {
    header: Arc<LoafHeader>,
    ptr_range: Range<usize>,
    bytes: Vec<u8>,
}

impl View for LoafPart {
    type V = LoafView;

    closed spec fn view(&self) -> LoafView {
        LoafView {
            arena: *self.header,
            start: self.ptr_range.start as nat,
            end: self.ptr_range.end as nat,
            bytes: self.bytes@,
        }
    }
}

impl LoafPart {
    pub open spec fn wf(&self) -> bool {
        self@.wf()
    }

    /// A handle over a fresh allocation of `loaf_len` zero bytes.
    pub fn new(loaf_len: usize) -> (r: Self)
        requires
            loaf_len <= MAX_LOAF_LEN,
        ensures
            r.wf(),
            r@.start == 0,
            r@.end == loaf_len,
            r@.arena.loaf_len == loaf_len,
            r@.bytes == Seq::new(loaf_len as nat, |_i: int| 0u8),
    {
        let alloc_size = usize_bytes_round_up(loaf_len + 2 * USIZE_BYTES);
        let header = Arc::new(LoafHeader { alloc_size, loaf_len });
        let mut bytes: Vec<u8> = Vec::new();
        let mut i: usize = 0;
        while i < loaf_len
            invariant
                i <= loaf_len,
                bytes@ == Seq::new(i as nat, |_i: int| 0u8),
            decreases loaf_len - i,
        {
            bytes.push(0u8);
            i = i + 1;
            assert(bytes@ =~= Seq::new(i as nat, |_i: int| 0u8));
        }
        LoafPart { header, ptr_range: Range { start: 0, end: loaf_len }, bytes }
    }

    /// A handle over a fresh allocation that holds a copy of `slice`.
    pub fn new_from_slice(slice: &[u8]) -> (r: Self)
        requires
            slice@.len() <= MAX_LOAF_LEN,
        ensures
            r.wf(),
            r@.start == 0,
            r@.end == slice@.len(),
            r@.arena.loaf_len == slice@.len(),
            r@.bytes == slice@,
    {
        let mut me = Self::new(slice.len());
        let mut i: usize = 0;
        while i < slice.len()
            invariant
                i <= slice@.len(),
                me.wf(),
                me@.start == 0,
                me@.end == slice@.len(),
                me@.arena.loaf_len == slice@.len(),
                me@.bytes.len() == slice@.len(),
                forall|j: int| 0 <= j < i ==> me@.bytes[j] == slice@[j],
            decreases slice@.len() - i,
        {
            me.bytes.set(i, slice[i]);
            i = i + 1;
        }
        assert(me@.bytes =~= slice@);
        me
    }

    pub fn is_empty(&self) -> (r: bool)
        ensures
            r == (self@.bytes.len() == 0),
    {
        self.as_slice().len() == 0
    }

    pub fn len(&self) -> (r: usize)
        ensures
            r == self@.bytes.len(),
    {
        self.as_slice().len()
    }

    /// The bytes this handle owns.
    pub fn as_slice(&self) -> (r: &[u8])
        ensures
            r@ == self@.bytes,
    {
        self.bytes.as_slice()
    }

    /// The bytes this handle owns, for writing.
    pub fn as_slice_mut(&mut self) -> (r: &mut [u8])
        ensures
            r@ == old(self)@.bytes,
            final(self)@ == (LoafView { bytes: final(r)@, ..old(self)@ }),
    {
        self.bytes.as_mut_slice()
    }

    /// The range of data offsets this handle owns.
    pub fn get_ptr_range(&self) -> (r: &Range<usize>)
        ensures
            r.start == self@.start,
            r.end == self@.end,
    {
        &self.ptr_range
    }

    /// Which way two handles may be joined, given whether they share an
    /// allocation: `Ok(true)` where `a` comes first, `Ok(false)` where `b` does.
    pub fn join_order(same_loaf: bool, a: &Range<usize>, b: &Range<usize>) -> (r: Result<bool, JoinError>)
        ensures
            r == (if !same_loaf {
                Err(JoinError::DistinctLoaves)
            } else if a.end == b.start {
                Ok(true)
            } else if b.end == a.start {
                Ok(false)
            } else {
                Err(JoinError::PartsAreNotAdjacent)
            }),
    {
        if !same_loaf {
            Err(JoinError::DistinctLoaves)
        } else if a.end == b.start {
            Ok(true)
        } else if b.end == a.start {
            Ok(false)
        } else {
            Err(JoinError::PartsAreNotAdjacent)
        }
    }

    /// Where the boundary between `a` and the `b` after it moves to when `a` is
    /// to hold `new_a_len` bytes, given whether they share an allocation.
    pub fn resplit_middle(same_loaf: bool, a: &Range<usize>, b: &Range<usize>, new_a_len: usize) -> (r: Result<
        usize,
        ResplitError,
    >)
        ensures
            r == (if !same_loaf {
                Err(ResplitError::DistinctLoaves)
            } else if a.end != b.start {
                Err(ResplitError::PartsAreNotAdjacent)
            } else if a.start + new_a_len > b.end {
                Err(ResplitError::OutOfBounds)
            } else {
                Ok((a.start + new_a_len) as usize)
            }),
    {
        if !same_loaf {
            Err(ResplitError::DistinctLoaves)
        } else if a.end != b.start {
            Err(ResplitError::PartsAreNotAdjacent)
        } else {
            match a.start.checked_add(new_a_len) {
                Some(middle) => {
                    if middle <= b.end {
                        Ok(middle)
                    } else {
                        Err(ResplitError::OutOfBounds)
                    }
                },
                None => Err(ResplitError::OutOfBounds),
            }
        }
    }

    /// Moves the range and bytes of `hi` onto the end of `lo`.
    fn absorb(lo: &mut Self, hi: &mut Self)
        requires
            old(lo).wf(),
            old(hi).wf(),
            old(lo)@.arena == old(hi)@.arena,
            adjacent(old(lo)@, old(hi)@),
        ensures
            final(lo).wf(),
            final(hi).wf(),
            (final(lo)@, final(hi)@) == join_view(old(lo)@, old(hi)@),
    {
        lo.bytes.append(&mut hi.bytes);
        lo.ptr_range.end = hi.ptr_range.end;
        hi.ptr_range.start = hi.ptr_range.end;
        assert(hi.bytes@ =~= Seq::<u8>::empty());
    }

    /// Joins two handles of one allocation whose ranges touch, in either
    /// order: the first of them then covers both ranges and the second is
    /// left empty at its own end. On an error both are left as they were.
    pub fn try_join(&mut self, other: &mut Self) -> (r: Result<(), JoinError>)
        requires
            old(self).wf(),
            old(other).wf(),
        ensures
            final(self).wf(),
            final(other).wf(),
            old(self)@.arena != old(other)@.arena ==> r == Err::<(), JoinError>(JoinError::DistinctLoaves),
            r != Err::<(), JoinError>(JoinError::DistinctLoaves) ==> (r is Ok <==> (adjacent(old(self)@, old(other)@)
                || adjacent(old(other)@, old(self)@))),
            r is Ok ==> old(self)@.arena == old(other)@.arena,
            r is Ok && adjacent(old(self)@, old(other)@) ==> (final(self)@, final(other)@) == join_view(
                old(self)@,
                old(other)@,
            ),
            r is Ok && !adjacent(old(self)@, old(other)@) ==> (final(other)@, final(self)@) == join_view(
                old(other)@,
                old(self)@,
            ),
            r is Err ==> final(self)@ == old(self)@ && final(other)@ == old(other)@,
    {
        let same = same_header(&self.header, &other.header);
        match Self::join_order(same, &self.ptr_range, &other.ptr_range) {
            Ok(true) => {
                Self::absorb(self, other);
                Ok(())
            },
            Ok(false) => {
                Self::absorb(other, self);
                Ok(())
            },
            Err(e) => Err(e),
        }
    }

    /// Moves the boundary between this handle and the `other` that follows it,
    /// so that this one holds `new_self_len` bytes. On an error both are left
    /// as they were.
    pub fn try_resplit_at(&mut self, other: &mut Self, new_self_len: usize) -> (r: Result<(), ResplitError>)
        requires
            old(self).wf(),
            old(other).wf(),
        ensures
            final(self).wf(),
            final(other).wf(),
            old(self)@.arena != old(other)@.arena ==> r == Err::<(), ResplitError>(ResplitError::DistinctLoaves),
            r != Err::<(), ResplitError>(ResplitError::DistinctLoaves) ==> r == (if !adjacent(old(self)@, old(other)@) {
                Err(ResplitError::PartsAreNotAdjacent)
            } else if old(self)@.start + new_self_len > old(other)@.end {
                Err(ResplitError::OutOfBounds)
            } else {
                Ok(())
            }),
            r is Ok ==> old(self)@.arena == old(other)@.arena && (final(self)@, final(other)@) == resplit_view(
                old(self)@,
                old(other)@,
                new_self_len as nat,
            ),
            r is Err ==> final(self)@ == old(self)@ && final(other)@ == old(other)@,
    {
        let same = same_header(&self.header, &other.header);
        match Self::resplit_middle(same, &self.ptr_range, &other.ptr_range, new_self_len) {
            Ok(middle) => {
                self.bytes.append(&mut other.bytes);
                other.bytes = self.bytes.split_off(new_self_len);
                self.ptr_range.end = middle;
                other.ptr_range.start = middle;
                Ok(())
            },
            Err(e) => Err(e),
        }
    }

    /// Splits off the bytes after the first `new_self_len`: this handle keeps
    /// the head and the returned one owns the tail. Past the end it fails and
    /// leaves this handle as it was.
    pub fn try_split_at(&mut self, new_self_len: usize) -> (r: Result<Self, ()>)
        requires
            old(self).wf(),
        ensures
            final(self).wf(),
            r is Ok <==> new_self_len <= old(self)@.len(),
            r matches Ok(tail) ==> tail.wf() && (final(self)@, tail@) == split_view(old(self)@, new_self_len as nat),
            r is Err ==> final(self)@ == old(self)@,
    {
        if self.len() < new_self_len {
            return Err(());
        }
        let end = self.ptr_range.end;
        let middle = self.ptr_range.start + new_self_len;
        let tail_bytes = self.bytes.split_off(new_self_len);
        self.ptr_range.end = middle;
        let header = share_header(&self.header);
        Ok(LoafPart { header, ptr_range: Range { start: middle, end }, bytes: tail_bytes })
    }

    /// Narrows this handle to `new_relative_range`, taken from its start; an
    /// end below the start counts as the start. A range that reaches past the
    /// handle's end fails and leaves it as it was.
    pub fn try_set_relative_range(&mut self, new_relative_range: Range<usize>) -> (r: Result<(), ()>)
        requires
            old(self).wf(),
        ensures
            final(self).wf(),
            r is Ok <==> clamped_end(new_relative_range) <= old(self)@.len(),
            r is Ok ==> final(self)@ == narrow_view(
                old(self)@,
                new_relative_range.start as nat,
                clamped_end(new_relative_range),
            ),
            r is Err ==> final(self)@ == old(self)@,
    {
        let start = new_relative_range.start;
        let end = if new_relative_range.end < start {
            start
        } else {
            new_relative_range.end
        };
        if end > self.len() {
            return Err(());
        }
        let ghost old_bytes = self.bytes@;
        self.bytes.truncate(end);
        let kept = self.bytes.split_off(start);
        self.bytes = kept;
        assert(self.bytes@ =~= old_bytes.subrange(start as int, end as int));
        let base = self.ptr_range.start;
        self.ptr_range = Range { start: base + start, end: base + end };
        Ok(())
    }

    /// Consuming form of `try_set_relative_range`: the narrowed handle, or the
    /// handle as it was.
    pub fn with_try_set_relative_range(self, new_relative_range: Range<usize>) -> (r: Result<Self, Self>)
        requires
            self.wf(),
        ensures
            r is Ok <==> clamped_end(new_relative_range) <= self@.len(),
            r matches Ok(p) ==> p.wf() && p@ == narrow_view(
                self@,
                new_relative_range.start as nat,
                clamped_end(new_relative_range),
            ),
            r matches Err(p) ==> p.wf() && p@ == self@,
    {
        let mut me = self;
        match me.try_set_relative_range(new_relative_range) {
            Ok(()) => Ok(me),
            Err(()) => Err(me),
        }
    }

    /// Consuming form of `try_join`: the handle that covers both ranges, or
    /// the error with both handles as they were.
    pub fn with_try_join(self, other: Self) -> (r: Result<Self, (JoinError, [Self; 2])>)
        requires
            self.wf(),
            other.wf(),
        ensures
            self@.arena != other@.arena ==> r is Err && r->Err_0.0 == JoinError::DistinctLoaves,
            !(r is Err && r->Err_0.0 == JoinError::DistinctLoaves) ==> (r is Ok <==> (adjacent(self@, other@)
                || adjacent(other@, self@))),
            r matches Ok(p) ==> p.wf() && self@.arena == other@.arena && p@ == (if adjacent(self@, other@) {
                join_view(self@, other@).0
            } else {
                join_view(other@, self@).0
            }),
            r matches Err((e, parts)) ==> parts@[0] == self && parts@[1] == other,
    {
        let mut me = self;
        let mut other = other;
        let same = same_header(&me.header, &other.header);
        match Self::join_order(same, &me.ptr_range, &other.ptr_range) {
            Ok(true) => {
                Self::absorb(&mut me, &mut other);
                Ok(me)
            },
            Ok(false) => {
                Self::absorb(&mut other, &mut me);
                Ok(other)
            },
            Err(e) => Err((e, [me, other])),
        }
    }

    /// Consuming form of `try_split_at`: the head and the tail, or the handle
    /// as it was.
    pub fn with_try_split_at(self, new_self_len: usize) -> (r: Result<[Self; 2], Self>)
        requires
            self.wf(),
        ensures
            r is Ok <==> new_self_len <= self@.len(),
            r matches Ok(parts) ==> parts@[0].wf() && parts@[1].wf() && (parts@[0]@, parts@[1]@) == split_view(
                self@,
                new_self_len as nat,
            ),
            r matches Err(p) ==> p.wf() && p@ == self@,
    {
        let mut me = self;
        match me.try_split_at(new_self_len) {
            Ok(tail) => Ok([me, tail]),
            Err(()) => Err(me),
        }
    }

    /// How many handles share this handle's allocation, itself included, at
    /// the moment of the call.
    pub fn owner_count(&self) -> usize {
        count_owners(&self.header)
    }
}

impl AsRef<[u8]> for LoafPart {
    fn as_ref(&self) -> &[u8] {
        self.as_slice()
    }
}

impl AsMut<[u8]> for LoafPart {
    fn as_mut(&mut self) -> &mut [u8] {
        self.as_slice_mut()
    }
}

} // verus!

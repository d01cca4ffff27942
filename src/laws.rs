//! What holds of the range operations over all handles.
use vstd::prelude::*;

use crate::loaf::{adjacent, join_view, resplit_view, split_view, LoafView};

verus! {

/// Splitting a handle at any offset up to its length loses no byte: the head's
/// bytes followed by the tail's are the bytes that were split.
pub proof fn lemma_split_then_concat(v: LoafView, k: nat)
    requires
        v.wf(),
        k <= v.len(),
    ensures
        split_view(v, k).0.wf(),
        split_view(v, k).1.wf(),
        adjacent(split_view(v, k).0, split_view(v, k).1),
        split_view(v, k).0.bytes + split_view(v, k).1.bytes == v.bytes,
{
    assert(split_view(v, k).0.bytes + split_view(v, k).1.bytes =~= v.bytes);
}

/// Joining the two halves of a split gives back the handle that was split.
pub proof fn lemma_join_inverts_split(v: LoafView, k: nat)
    requires
        v.wf(),
        k <= v.len(),
    ensures
        join_view(split_view(v, k).0, split_view(v, k).1).0 == v,
{
    lemma_split_then_concat(v, k);
    assert(join_view(split_view(v, k).0, split_view(v, k).1).0.bytes =~= v.bytes);
}

/// Moving the boundary between two adjacent handles of one allocation keeps
/// their bytes, read in order, and keeps them adjacent.
pub proof fn lemma_resplit_keeps_bytes(a: LoafView, b: LoafView, n: nat)
    requires
        a.wf(),
        b.wf(),
        a.arena == b.arena,
        adjacent(a, b),
        a.start + n <= b.end,
    ensures
        resplit_view(a, b, n).0.wf(),
        resplit_view(a, b, n).1.wf(),
        adjacent(resplit_view(a, b, n).0, resplit_view(a, b, n).1),
        resplit_view(a, b, n).0.bytes + resplit_view(a, b, n).1.bytes == a.bytes + b.bytes,
{
    let all = a.bytes + b.bytes;
    assert(resplit_view(a, b, n).0.bytes + resplit_view(a, b, n).1.bytes =~= all);
}

/// `pieces` are well-formed handles of one allocation whose ranges follow
/// one another from `start` to `end`.
pub open spec fn tiles(pieces: Seq<LoafView>, start: nat, end: nat) -> bool {
    &&& pieces.len() >= 1
    &&& pieces[0].start == start
    &&& pieces.last().end == end
    &&& forall|i: int| 0 <= i < pieces.len() ==> (#[trigger] pieces[i]).wf() && pieces[i].arena == pieces[0].arena
    &&& forall|i: int| 0 <= i < pieces.len() - 1 ==> adjacent(#[trigger] pieces[i], pieces[i + 1])
}

/// `pieces` with the one at `i` split after `k` bytes, as `try_split_at` does;
/// unchanged where that split is refused.
pub open spec fn split_piece(pieces: Seq<LoafView>, i: nat, k: nat) -> Seq<LoafView> {
    if i < pieces.len() && k <= pieces[i as int].len() {
        let halves = split_view(pieces[i as int], k);
        pieces.subrange(0, i as int) + seq![halves.0, halves.1] + pieces.subrange(i + 1int, pieces.len() as int)
    } else {
        pieces
    }
}

/// `pieces` after splitting, in turn, the piece and at the offset that each
/// step names.
pub open spec fn split_steps(pieces: Seq<LoafView>, steps: Seq<(nat, nat)>) -> Seq<LoafView>
    decreases steps.len(),
{
    if steps.len() == 0 {
        pieces
    } else {
        split_steps(split_piece(pieces, steps[0].0, steps[0].1), steps.drop_first())
    }
}

proof fn lemma_split_piece_tiles(pieces: Seq<LoafView>, start: nat, end: nat, i: nat, k: nat)
    requires
        tiles(pieces, start, end),
    ensures
        tiles(split_piece(pieces, i, k), start, end),
        split_piece(pieces, i, k).len() == pieces.len() + (if i < pieces.len() && k <= pieces[i as int].len() {
            1int
        } else {
            0int
        }),
{
    if i < pieces.len() && k <= pieces[i as int].len() {
        let p = pieces[i as int];
        lemma_split_then_concat(p, k);
        let q = split_piece(pieces, i, k);
        assert(q.len() == pieces.len() + 1);
        assert forall|j: int| 0 <= j < q.len() implies (#[trigger] q[j]).wf() && q[j].arena == q[0].arena by {
            if j < i {
                assert(q[j] == pieces[j]);
            } else if j == i {
                assert(q[j] == split_view(p, k).0);
            } else if j == i + 1 {
                assert(q[j] == split_view(p, k).1);
            } else {
                assert(q[j] == pieces[j - 1]);
            }
            if i == 0 {
                assert(q[0] == split_view(p, k).0);
            } else {
                assert(q[0] == pieces[0]);
            }
        }
        assert forall|j: int| 0 <= j < q.len() - 1 implies adjacent(#[trigger] q[j], q[j + 1]) by {
            if j < i - 1 {
                assert(q[j] == pieces[j] && q[j + 1] == pieces[j + 1]);
            } else if j == i - 1 {
                assert(q[j] == pieces[j] && q[j + 1] == split_view(p, k).0);
                assert(adjacent(pieces[j], pieces[j + 1]));
            } else if j == i {
                assert(q[j] == split_view(p, k).0 && q[j + 1] == split_view(p, k).1);
            } else if j == i + 1 {
                assert(q[j] == split_view(p, k).1 && q[j + 1] == pieces[i + 1int]);
                assert(adjacent(pieces[j - 1], pieces[j]));
            } else {
                assert(q[j] == pieces[j - 1] && q[j + 1] == pieces[j]);
                assert(adjacent(pieces[j - 1], pieces[j]));
            }
        }
        if i == 0 {
            assert(q[0] == split_view(p, k).0);
        } else {
            assert(q[0] == pieces[0]);
        }
        if i == pieces.len() - 1 {
            assert(q.last() == split_view(p, k).1);
        } else {
            assert(q.last() == pieces.last());
        }
    }
}

/// Splitting a handle again and again, each time any of the pieces so far at
/// any offset, leaves pieces whose ranges follow one another from the
/// handle's start to its end; each split that is not refused adds one piece.
pub proof fn lemma_splits_tile(v: LoafView, steps: Seq<(nat, nat)>)
    requires
        v.wf(),
    ensures
        tiles(split_steps(seq![v], steps), v.start, v.end),
        split_steps(seq![v], steps).len() <= steps.len() + 1,
{
    lemma_split_steps_tile(seq![v], v.start, v.end, steps);
}

proof fn lemma_split_steps_tile(pieces: Seq<LoafView>, start: nat, end: nat, steps: Seq<(nat, nat)>)
    requires
        tiles(pieces, start, end),
    ensures
        tiles(split_steps(pieces, steps), start, end),
        split_steps(pieces, steps).len() <= pieces.len() + steps.len(),
    decreases steps.len(),
{
    if steps.len() > 0 {
        lemma_split_piece_tiles(pieces, start, end, steps[0].0, steps[0].1);
        lemma_split_steps_tile(split_piece(pieces, steps[0].0, steps[0].1), start, end, steps.drop_first());
    }
}

/// Pieces that tile a range never overlap: each one ends at or before the
/// start of every piece after it.
pub proof fn lemma_tiles_disjoint(pieces: Seq<LoafView>, start: nat, end: nat)
    requires
        tiles(pieces, start, end),
    ensures
        forall|i: int, j: int| 0 <= i < j < pieces.len() ==> #[trigger] pieces[i].end <= #[trigger] pieces[j].start,
{
    assert forall|i: int, j: int| 0 <= i < j < pieces.len() implies #[trigger] pieces[i].end
        <= #[trigger] pieces[j].start by {
        lemma_tiles_ordered(pieces, start, end, i, j);
    }
}

proof fn lemma_tiles_ordered(pieces: Seq<LoafView>, start: nat, end: nat, i: int, j: int)
    requires
        tiles(pieces, start, end),
        0 <= i < j < pieces.len(),
    ensures
        pieces[i].end <= pieces[j].start,
    decreases j - i,
{
    assert(adjacent(pieces[j - 1], pieces[j]));
    if i < j - 1 {
        lemma_tiles_ordered(pieces, start, end, i, j - 1);
        assert(pieces[j - 1].wf());
    }
}

} // verus!

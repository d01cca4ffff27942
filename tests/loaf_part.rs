use byteloaf::loaf::{JoinError, LoafPart, ResplitError, MAX_LOAF_LEN};
use byteloaf::ranges::{usize_bytes_round_down, usize_bytes_round_up};

const HELLO_WORLD: &[u8] = b"HELLO_WORLD";

#[test]
fn new() {
    LoafPart::new(HELLO_WORLD.len());
}

#[test]
fn new_len_ok() {
    for len in 10..14 {
        assert_eq!(len, LoafPart::new(len).len());
    }
}

#[test]
fn new_from_slice() {
    LoafPart::new_from_slice(HELLO_WORLD);
}

#[test]
fn splitting_works() {
    let hello_world = LoafPart::new_from_slice(HELLO_WORLD);
    println!("{:?} {}", hello_world.get_ptr_range(), hello_world.len());
    let [hello, world] = hello_world.with_try_split_at(5).unwrap();
    println!("{:?} {}", hello.get_ptr_range(), hello.len());
    println!("{:?} {}", world.get_ptr_range(), world.len());
    assert_eq!(hello.as_slice(), b"HELLO");
    assert_eq!(world.as_slice(), b"_WORLD");
}

#[test]
fn resplitting() {
    let [mut a, mut b] = LoafPart::new(10).with_try_split_at(5).unwrap();

    LoafPart::try_resplit_at(&mut a, &mut b, 3).unwrap();
    assert_eq!([a.len(), b.len()], [3, 7]);

    LoafPart::try_resplit_at(&mut a, &mut b, 8).unwrap();
    assert_eq!([a.len(), b.len()], [8, 2]);
}

#[test]
fn joining() {
    let [a, b] = LoafPart::new(10).with_try_split_at(5).unwrap();
    a.with_try_join(b).unwrap();
}

#[test]
fn new_range() {
    let llo_w = LoafPart::new_from_slice(HELLO_WORLD)
        .with_try_set_relative_range(2..7)
        .unwrap();
    assert_eq!(llo_w.as_slice(), b"LLO_W");
}

#[test]
fn new_is_zeroed_and_whole() {
    let p = LoafPart::new(4);
    assert_eq!(p.as_slice(), &[0u8, 0, 0, 0]);
    assert_eq!(*p.get_ptr_range(), 0..4);
    assert!(!p.is_empty());
    assert!(LoafPart::new(0).is_empty());
}

#[test]
fn round_trip_bytes() {
    for s in [&b""[..], &b"x"[..], HELLO_WORLD, &[0u8, 255, 7, 7][..]] {
        assert_eq!(LoafPart::new_from_slice(s).as_slice(), s);
    }
}

#[test]
fn split_then_concat_every_offset() {
    for k in 0..=HELLO_WORLD.len() {
        let [h1, h2] = LoafPart::new_from_slice(HELLO_WORLD).with_try_split_at(k).unwrap();
        let mut both = h1.as_slice().to_vec();
        both.extend_from_slice(h2.as_slice());
        assert_eq!(both, HELLO_WORLD);
        assert_eq!(h1.get_ptr_range().end, h2.get_ptr_range().start);
    }
}

#[test]
fn join_inverts_split_every_offset() {
    for k in 0..=HELLO_WORLD.len() {
        let [h1, h2] = LoafPart::new_from_slice(HELLO_WORLD).with_try_split_at(k).unwrap();
        let whole = h1.with_try_join(h2).unwrap();
        assert_eq!(whole.as_slice(), HELLO_WORLD);
        assert_eq!(*whole.get_ptr_range(), 0..HELLO_WORLD.len());
    }
}

#[test]
fn join_in_either_order() {
    let [mut a, mut b] = LoafPart::new_from_slice(HELLO_WORLD).with_try_split_at(5).unwrap();
    assert_eq!(b.try_join(&mut a), Ok(()));
    assert_eq!(a.as_slice(), HELLO_WORLD);
    assert!(b.is_empty());
    assert_eq!(*b.get_ptr_range(), 11..11);

    let [c, d] = LoafPart::new_from_slice(HELLO_WORLD).with_try_split_at(4).unwrap();
    let whole = d.with_try_join(c).unwrap();
    assert_eq!(whole.as_slice(), HELLO_WORLD);
}

#[test]
fn resplit_moves_boundary_only() {
    let [mut a, mut b] = LoafPart::new_from_slice(HELLO_WORLD).with_try_split_at(5).unwrap();
    for n in [0usize, 3, 11, 8, 5] {
        assert_eq!(a.try_resplit_at(&mut b, n), Ok(()));
        let mut both = a.as_slice().to_vec();
        both.extend_from_slice(b.as_slice());
        assert_eq!(both, HELLO_WORLD);
        assert_eq!(a.len(), n);
        assert_eq!(a.get_ptr_range().end, b.get_ptr_range().start);
    }
}

#[test]
fn many_splits_partition_the_range() {
    let mut pieces = vec![LoafPart::new_from_slice(HELLO_WORLD)];
    for k in [2usize, 1, 3, 0, 4] {
        let last = pieces.last_mut().unwrap();
        let tail = last.try_split_at(k).unwrap();
        pieces.push(tail);
    }
    assert_eq!(pieces.len(), 6);
    assert_eq!(pieces[0].get_ptr_range().start, 0);
    assert_eq!(pieces[5].get_ptr_range().end, HELLO_WORLD.len());
    for i in 0..5 {
        assert_eq!(pieces[i].get_ptr_range().end, pieces[i + 1].get_ptr_range().start);
    }
    let mut all = Vec::new();
    for p in &pieces {
        all.extend_from_slice(p.as_slice());
    }
    assert_eq!(all, HELLO_WORLD);
}

#[test]
fn owners_counted_across_splits_and_drops() {
    let mut first = LoafPart::new(8);
    assert_eq!(first.owner_count(), 1);
    let second = first.try_split_at(2).unwrap();
    let mut third = LoafPart::new(0);
    assert_eq!(third.owner_count(), 1);
    let mut second = second;
    third = second.try_split_at(3).unwrap();
    assert_eq!(first.owner_count(), 3);
    drop(second);
    assert_eq!(first.owner_count(), 2);
    assert_eq!(third.owner_count(), 2);
    drop(first);
    assert_eq!(third.owner_count(), 1);
    assert_eq!(third.len(), 3);
}

#[test]
fn not_adjacent_is_rejected_unchanged() {
    let mut a = LoafPart::new(10);
    let mut mid = a.try_split_at(3).unwrap();
    let mut b = mid.try_split_at(2).unwrap();
    let _c = b.try_split_at(3).unwrap();
    assert_eq!(*a.get_ptr_range(), 0..3);
    assert_eq!(*b.get_ptr_range(), 5..8);
    assert_eq!(a.try_join(&mut b), Err(JoinError::PartsAreNotAdjacent));
    assert_eq!(a.try_resplit_at(&mut b, 4), Err(ResplitError::PartsAreNotAdjacent));
    assert_eq!(*a.get_ptr_range(), 0..3);
    assert_eq!(*b.get_ptr_range(), 5..8);
    let (e, [a2, b2]) = a.with_try_join(b).unwrap_err();
    assert_eq!(e, JoinError::PartsAreNotAdjacent);
    assert_eq!(*a2.get_ptr_range(), 0..3);
    assert_eq!(*b2.get_ptr_range(), 5..8);
}

#[test]
fn distinct_loaves_are_rejected() {
    let [mut a, _] = LoafPart::new(10).with_try_split_at(5).unwrap();
    let [_, mut b] = LoafPart::new(10).with_try_split_at(5).unwrap();
    assert_eq!(a.get_ptr_range().end, b.get_ptr_range().start);
    assert_eq!(a.try_join(&mut b), Err(JoinError::DistinctLoaves));
    assert_eq!(a.try_resplit_at(&mut b, 6), Err(ResplitError::DistinctLoaves));
    assert_eq!(a.len(), 5);
    assert_eq!(b.len(), 5);
    let (e, _) = a.with_try_join(b).unwrap_err();
    assert_eq!(e, JoinError::DistinctLoaves);
}

#[test]
fn hello_world_scenario() {
    let [mut hello, mut world] = LoafPart::new_from_slice(HELLO_WORLD).with_try_split_at(5).unwrap();
    assert_eq!(hello.as_slice(), b"HELLO");
    assert_eq!(world.as_slice(), b"_WORLD");
    hello.try_resplit_at(&mut world, 3).unwrap();
    assert_eq!([hello.len(), world.len()], [3, 8]);
    assert_eq!(world.as_slice(), b"LO_WORLD");
    hello.try_resplit_at(&mut world, 8).unwrap();
    assert_eq!([hello.len(), world.len()], [8, 3]);
    assert_eq!(hello.as_slice(), b"HELLO_WO");
}

#[test]
fn split_past_end_is_refused() {
    let mut p = LoafPart::new(13);
    assert!(p.try_split_at(300).is_err());
    assert_eq!(p.len(), 13);
    let q = LoafPart::new(13).with_try_split_at(300).unwrap_err();
    assert_eq!(q.len(), 13);
    let [whole, rest] = LoafPart::new(13).with_try_split_at(13).unwrap();
    assert_eq!(whole.len(), 13);
    assert!(rest.is_empty());
}

#[test]
fn resplit_out_of_bounds() {
    let [mut a, mut b] = LoafPart::new(10).with_try_split_at(5).unwrap();
    assert_eq!(a.try_resplit_at(&mut b, 11), Err(ResplitError::OutOfBounds));
    assert_eq!(a.try_resplit_at(&mut b, usize::MAX), Err(ResplitError::OutOfBounds));
    assert_eq!([a.len(), b.len()], [5, 5]);
    assert_eq!(a.try_resplit_at(&mut b, 10), Ok(()));
    assert_eq!([a.len(), b.len()], [10, 0]);
}

#[test]
fn narrowing_is_bounded_by_own_range() {
    let [mut hello, world] = LoafPart::new_from_slice(HELLO_WORLD).with_try_split_at(5).unwrap();
    assert_eq!(hello.try_set_relative_range(1..7), Err(()));
    assert_eq!(hello.as_slice(), b"HELLO");
    assert_eq!(hello.try_set_relative_range(1..4), Ok(()));
    assert_eq!(hello.as_slice(), b"ELL");
    assert_eq!(*hello.get_ptr_range(), 1..4);
    assert_eq!(hello.try_set_relative_range(2..0), Ok(()));
    assert!(hello.is_empty());
    assert_eq!(*hello.get_ptr_range(), 3..3);
    assert_eq!(world.as_slice(), b"_WORLD");
    let w = world.with_try_set_relative_range(0..9).unwrap_err();
    assert_eq!(w.as_slice(), b"_WORLD");
}

#[test]
fn writes_land_in_own_range() {
    let [mut a, b] = LoafPart::new(6).with_try_split_at(3).unwrap();
    a.as_slice_mut().copy_from_slice(b"abc");
    assert_eq!(a.as_slice(), b"abc");
    assert_eq!(b.as_slice(), &[0u8, 0, 0]);
    let joined = a.with_try_join(b).unwrap();
    assert_eq!(joined.as_slice(), b"abc\0\0\0");
}

#[test]
fn rounding_to_words() {
    assert_eq!(usize_bytes_round_down(17), 16);
    assert_eq!(usize_bytes_round_down(16), 16);
    assert_eq!(usize_bytes_round_up(17), 24);
    assert_eq!(usize_bytes_round_up(16), 16);
    assert_eq!(usize_bytes_round_up(0), 0);
    assert_eq!(MAX_LOAF_LEN % 8, 0);
    assert_eq!(MAX_LOAF_LEN, isize::MAX as usize - 23);
}

#[test]
fn join_and_resplit_decisions() {
    assert_eq!(LoafPart::join_order(false, &(0..3), &(3..5)), Err(JoinError::DistinctLoaves));
    assert_eq!(LoafPart::join_order(true, &(0..3), &(3..5)), Ok(true));
    assert_eq!(LoafPart::join_order(true, &(3..5), &(0..3)), Ok(false));
    assert_eq!(LoafPart::join_order(true, &(0..3), &(4..5)), Err(JoinError::PartsAreNotAdjacent));
    assert_eq!(LoafPart::resplit_middle(false, &(0..3), &(3..5), 1), Err(ResplitError::DistinctLoaves));
    assert_eq!(LoafPart::resplit_middle(true, &(0..3), &(4..5), 1), Err(ResplitError::PartsAreNotAdjacent));
    assert_eq!(LoafPart::resplit_middle(true, &(2..3), &(3..5), 3), Ok(5));
    assert_eq!(LoafPart::resplit_middle(true, &(2..3), &(3..5), 4), Err(ResplitError::OutOfBounds));
}

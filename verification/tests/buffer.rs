use circbuf::CircBuf;

#[test]
fn main_test() {
    let mut a: CircBuf<u8, 4> = CircBuf::new(0);
    a.push_back(1).unwrap();
    a.push_back(2).unwrap();
    a.push_back(3).unwrap();
    a.push_back(4).unwrap();
    a.pop_front().unwrap();
    a.push_back(5).unwrap();
    assert_eq!(a.as_slice(), (4, [2, 3, 4, 5]));

    a.pop_back().unwrap();
    assert_eq!(a.len(), 3);
}

#[test]
fn fifo_round_trip() {
    let mut b: CircBuf<u32, 8> = CircBuf::new(0);
    b.push_back(10).unwrap();
    b.push_back(20).unwrap();
    b.push_back(30).unwrap();
    assert_eq!(b.pop_front(), Some(10));
    assert_eq!(b.pop_front(), Some(20));
    assert_eq!(b.pop_front(), Some(30));
    assert!(b.is_empty());
    assert_eq!(b.pop_front(), None);
}

#[test]
fn stack_at_front() {
    let mut b: CircBuf<u32, 8> = CircBuf::new(0);
    b.push_front(1).unwrap();
    b.push_front(2).unwrap();
    b.push_front(3).unwrap();
    assert_eq!(b.pop_front(), Some(3));
    assert_eq!(b.pop_front(), Some(2));
    assert_eq!(b.pop_front(), Some(1));
    assert!(b.is_empty());
}

#[test]
fn front_pushes_then_back_pops() {
    let mut b: CircBuf<u32, 8> = CircBuf::new(0);
    b.push_front(1).unwrap();
    b.push_front(2).unwrap();
    b.push_front(3).unwrap();
    assert_eq!(b.pop_back(), Some(1));
    assert_eq!(b.pop_back(), Some(2));
    assert_eq!(b.pop_back(), Some(3));
    assert!(b.is_empty());
}

#[test]
fn full_buffer_rejects_insertions() {
    let mut b: CircBuf<u8, 4> = CircBuf::new(0);
    b.push_back(1).unwrap();
    b.push_front(2).unwrap();
    b.push_back(3).unwrap();
    b.push_front(4).unwrap();
    assert!(b.is_full());
    assert_eq!(b.remaining_capacity(), 0);
    assert_eq!(b.push_back(5), Err(()));
    assert_eq!(b.push_front(6), Err(()));
    // A failed insertion is a no-op: the contents are untouched.
    assert!(b.is_full());
    assert_eq!(b.as_slice(), (4, [4, 2, 1, 3]));
}

#[test]
fn empty_buffer_rejects_removals() {
    let mut b: CircBuf<u8, 4> = CircBuf::new(0);
    assert!(b.is_empty());
    assert_eq!(b.pop_front(), None);
    assert_eq!(b.pop_back(), None);
    b.push_back(1).unwrap();
    b.push_front(2).unwrap();
    b.pop_back().unwrap();
    b.pop_front().unwrap();
    assert!(b.is_empty());
    assert_eq!(b.len(), 0);
    assert_eq!(b.pop_front(), None);
    assert_eq!(b.pop_back(), None);
}

#[test]
fn occupancy_plus_remaining_is_capacity() {
    let mut b: CircBuf<u8, 4> = CircBuf::new(0);
    assert_eq!(b.len() + b.remaining_capacity(), b.capacity());
    b.push_back(1).unwrap();
    assert_eq!(b.len() + b.remaining_capacity(), b.capacity());
    b.push_front(2).unwrap();
    assert_eq!(b.len() + b.remaining_capacity(), b.capacity());
    b.pop_back().unwrap();
    assert_eq!(b.len() + b.remaining_capacity(), b.capacity());
    b.pop_front().unwrap();
    assert_eq!(b.len() + b.remaining_capacity(), b.capacity());
}

#[test]
fn get_agrees_with_popping() {
    let mut b: CircBuf<u8, 4> = CircBuf::new(0);
    b.push_back(1).unwrap();
    b.push_back(2).unwrap();
    b.pop_front().unwrap();
    b.push_back(3).unwrap();
    b.push_back(4).unwrap();
    b.push_back(5).unwrap();
    // Contents are now [2, 3, 4, 5] with the head rotated into storage.
    for i in 0..b.len() {
        let via_get = *b.get(i).unwrap();
        let mut drained = b.clone();
        let mut popped: u8 = 0;
        for _ in 0..(i + 1) {
            popped = drained.pop_front().unwrap();
        }
        assert_eq!(via_get, popped);
    }
    // get does not mutate: the buffer still holds all four elements.
    assert_eq!(b.len(), 4);
    assert_eq!(b.get(4), None);
}

#[test]
fn exported_prefix_agrees_with_get() {
    let mut b: CircBuf<u8, 4> = CircBuf::new(0);
    b.push_back(1).unwrap();
    b.push_back(2).unwrap();
    b.push_back(3).unwrap();
    b.push_back(4).unwrap();
    b.pop_front().unwrap();
    b.pop_front().unwrap();
    b.push_back(5).unwrap();
    b.push_back(6).unwrap();
    let (n, rotated) = b.as_slice();
    assert_eq!(n, b.len());
    for i in 0..n {
        assert_eq!(rotated[i], *b.get(i).unwrap());
    }
    assert_eq!(&rotated[..n], &[3, 4, 5, 6]);
}

#[test]
fn sorted_slices_concatenation() {
    let mut b: CircBuf<u8, 4> = CircBuf::new(0);
    b.push_back(1).unwrap();
    b.push_back(2).unwrap();
    b.push_back(3).unwrap();
    b.pop_front().unwrap();
    b.push_back(4).unwrap();
    b.push_back(5).unwrap();
    // Contents [2, 3, 4, 5]; storage is [5, 2, 3, 4] with head at slot 1.
    let (lead, trail) = b.get_sorted_slices();
    assert_eq!(lead.len() + trail.len(), 4);
    let mut joined: Vec<u8> = Vec::new();
    joined.extend_from_slice(lead);
    joined.extend_from_slice(trail);
    assert_eq!(&joined[..b.len()], &[2, 3, 4, 5]);
}

#[test]
fn concrete_scenario() {
    let mut b: CircBuf<u8, 4> = CircBuf::new(0);
    b.push_back(1).unwrap();
    b.push_back(2).unwrap();
    b.push_back(3).unwrap();
    b.push_back(4).unwrap();
    assert!(b.is_full());
    assert_eq!(*b.get(0).unwrap(), 1);
    assert_eq!(*b.get(1).unwrap(), 2);
    assert_eq!(*b.get(2).unwrap(), 3);
    assert_eq!(*b.get(3).unwrap(), 4);
    assert_eq!(b.pop_front(), Some(1));
    assert_eq!(*b.get(0).unwrap(), 2);
    assert_eq!(*b.get(1).unwrap(), 3);
    assert_eq!(*b.get(2).unwrap(), 4);
    b.push_back(5).unwrap();
    assert_eq!(b.as_slice(), (4, [2, 3, 4, 5]));
    assert_eq!(b.pop_back(), Some(5));
    assert_eq!(b.len(), 3);
}

#[test]
fn export_of_partly_filled_buffer() {
    let mut b: CircBuf<u8, 4> = CircBuf::new(0);
    b.push_back(7).unwrap();
    b.push_back(8).unwrap();
    let (n, rotated) = b.as_slice();
    assert_eq!(n, 2);
    assert_eq!(rotated[0], 7);
    assert_eq!(rotated[1], 8);
    // Positions beyond n carry leftover or fill values and mean nothing.
}

#[test]
fn front_wraparound_on_odd_capacity() {
    let mut b: CircBuf<u8, 3> = CircBuf::new(0);
    b.push_front(1).unwrap();
    b.push_front(2).unwrap();
    b.push_front(3).unwrap();
    assert!(b.is_full());
    assert_eq!(*b.get(0).unwrap(), 3);
    assert_eq!(*b.get(1).unwrap(), 2);
    assert_eq!(*b.get(2).unwrap(), 1);
    assert_eq!(b.pop_back(), Some(1));
    assert_eq!(b.pop_back(), Some(2));
    assert_eq!(b.pop_back(), Some(3));
    assert!(b.is_empty());
}

#[test]
fn peeks() {
    let mut b: CircBuf<u8, 4> = CircBuf::new(0);
    assert_eq!(b.first(), None);
    assert_eq!(b.last(), None);
    b.push_back(1).unwrap();
    assert_eq!(b.first(), Some(&1));
    assert_eq!(b.last(), Some(&1));
    b.push_back(2).unwrap();
    b.push_front(3).unwrap();
    assert_eq!(b.first(), Some(&3));
    assert_eq!(b.last(), Some(&2));
}

#[test]
fn mutable_peeks_and_indexing() {
    let mut b: CircBuf<u8, 4> = CircBuf::new(0);
    assert_eq!(b.first_mut(), None);
    assert_eq!(b.last_mut(), None);
    assert_eq!(b.get_mut(0), None);
    b.push_back(1).unwrap();
    b.push_back(2).unwrap();
    b.push_back(3).unwrap();
    *b.first_mut().unwrap() = 10;
    *b.last_mut().unwrap() = 30;
    *b.get_mut(1).unwrap() = 20;
    assert_eq!(b.get_mut(3), None);
    assert_eq!(*b.get(0).unwrap(), 10);
    assert_eq!(*b.get(1).unwrap(), 20);
    assert_eq!(*b.get(2).unwrap(), 30);
    assert_eq!(b.len(), 3);
}

#[test]
fn unchecked_tier() {
    let mut b: CircBuf<u8, 4> = CircBuf::new(0);
    if !b.is_full() {
        b.push_back_unchecked(2);
    }
    if !b.is_full() {
        b.push_front_unchecked(1);
    }
    if !b.is_full() {
        b.push_back_unchecked(3);
    }
    assert_eq!(b.len(), 3);
    assert_eq!(*b.first_unchecked(), 1);
    assert_eq!(*b.last_unchecked(), 3);
    assert_eq!(*b.get_unchecked(1), 2);
    *b.first_unchecked_mut() = 11;
    *b.last_unchecked_mut() = 13;
    *b.get_unchecked_mut(1) = 12;
    if !b.is_empty() {
        assert_eq!(b.pop_front_unchecked(), 11);
    }
    if !b.is_empty() {
        assert_eq!(b.pop_back_unchecked(), 13);
    }
    if !b.is_empty() {
        assert_eq!(b.pop_front_unchecked(), 12);
    }
    assert!(b.is_empty());
}

#[test]
fn zero_capacity() {
    let mut b: CircBuf<u8, 0> = CircBuf::new(0);
    assert!(b.is_empty());
    assert!(b.is_full());
    assert_eq!(b.capacity(), 0);
    assert_eq!(b.remaining_capacity(), 0);
    assert_eq!(b.push_back(1), Err(()));
    assert_eq!(b.push_front(1), Err(()));
    assert_eq!(b.pop_front(), None);
    assert_eq!(b.pop_back(), None);
    assert_eq!(b.as_slice(), (0, []));
}

#[test]
fn fill_value_padding_after_construction() {
    let b: CircBuf<u8, 4> = CircBuf::new(9);
    // A fresh buffer exports only fill values past its (empty) contents.
    let (n, rotated) = b.as_slice();
    assert_eq!(n, 0);
    assert_eq!(rotated, [9, 9, 9, 9]);
}

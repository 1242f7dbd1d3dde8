use gap_buffer::buffer::{GapBuffer, GlobalAllocator};
use std::rc::Rc;

#[test]
fn gap_buffer_with_capacity_8() {
    let mut buf = GapBuffer::<u8>::new();
    buf.gap_ensure_size(1);
    assert_eq!(buf.gap_len(), GapBuffer::<u8>::min_non_zero_cap());
}

#[test]
fn gap_buffer_with_capacity_4() {
    let mut buf = GapBuffer::<[u8; 1024]>::new();
    buf.gap_ensure_size(1);
    assert_eq!(buf.gap_len(), GapBuffer::<[u8; 1024]>::min_non_zero_cap());
}

#[test]
fn gap_buffer_with_capacity_1() {
    let mut buf = GapBuffer::<[u8; 1025]>::new();
    buf.gap_ensure_size(1);
    assert_eq!(buf.gap_len(), GapBuffer::<[u8; 1025]>::min_non_zero_cap());
}

#[test]
fn gap_buffer_get() {
    let mut buf = GapBuffer::<u8>::new();
    buf.push(1);
    buf.push(2);
    buf.push(3);
    assert_eq!(Some(&1u8), buf.get(0));
    assert_eq!(Some(&2u8), buf.get(1));
    assert_eq!(Some(&3u8), buf.get(2));
}

#[test]
fn gap_buffer_push() {
    let mut buf = GapBuffer::<u8>::new();
    buf.push(1);
    buf.push(2);
    buf.push(3);
    let packed = buf.into_vec();
    assert_eq!(&[1, 2, 3], packed.as_slice());
}

#[test]
fn gap_buffer_insert() {
    let mut buf = GapBuffer::<u8>::new();
    buf.push(1);
    buf.push(2);
    buf.push(3);
    buf.insert(0, 5);
    buf.insert(3, 6);
    let packed = buf.into_vec();
    assert_eq!(&[5, 1, 2, 6, 3], packed.as_slice());
}

#[test]
fn gap_buffer_delete() {
    let mut buf = GapBuffer::<u8>::new();
    buf.push(1);
    buf.push(2);
    buf.push(3);
    buf.delete(0);
    buf.delete(1);
    let packed = buf.into_vec();
    assert_eq!(&[2], packed.as_slice());
}

#[test]
fn gap_buffer_grow() {
    let mut buf = GapBuffer::<u8>::new();
    buf.gap_ensure_size(32);
    assert_eq!(buf.gap_len(), 32);
    assert_eq!(buf.capacity(), 32);
    buf.gap_ensure_size(64);
    assert_eq!(buf.gap_len(), 64);
    assert_eq!(buf.capacity(), 64);
    buf.gap_ensure_size(65);
    assert_eq!(buf.gap_len(), 128);
    assert_eq!(buf.capacity(), 128);
}

#[test]
fn gap_buffer_drop_test() {
    let last = Rc::new(0);
    let weak = Rc::downgrade(&last);
    {
        let mut buf = GapBuffer::new();
        buf.push(last);
    };
    assert!(weak.upgrade().is_none());
}

#[test]
fn min_non_zero_cap_by_element_size() {
    assert_eq!(8, GapBuffer::<u8>::min_non_zero_cap());
    assert_eq!(4, GapBuffer::<u64>::min_non_zero_cap());
    assert_eq!(4, GapBuffer::<[u8; 1024]>::min_non_zero_cap());
    assert_eq!(1, GapBuffer::<[u8; 1025]>::min_non_zero_cap());
}

#[test]
fn get_is_absent_at_and_past_length() {
    let empty = GapBuffer::<u8>::new();
    assert_eq!(None, empty.get(0));
    assert_eq!(None, empty.get(7));
    let mut buf = GapBuffer::<u8>::new();
    buf.push(1);
    buf.push(2);
    assert_eq!(None, buf.get(2));
    assert_eq!(None, buf.get(1000));
}

#[test]
fn round_trip_through_buffer_keeps_order() {
    let buf = GapBuffer::<u32>::from_vec(vec![10, 20, 30]);
    assert_eq!(3, buf.len());
    assert_eq!(&[10, 20, 30], buf.into_vec().as_slice());
}

#[test]
fn round_trip_of_empty_vector() {
    let buf = GapBuffer::<u32>::from_vec(Vec::new());
    assert_eq!(0, buf.len());
    assert!(buf.into_vec().is_empty());
}

#[test]
fn delete_returns_the_removed_element() {
    let mut buf = GapBuffer::<u8>::from_vec(vec![7, 8, 9]);
    assert_eq!(8, buf.delete(1));
    assert_eq!(&[7, 9], buf.into_vec().as_slice());
}

#[test]
fn new_with_allocator_starts_empty() {
    let mut buf = GapBuffer::<u8>::new_with_allocator(GlobalAllocator);
    assert_eq!(0, buf.len());
    assert_eq!(0, buf.capacity());
    buf.push(42);
    assert_eq!(Some(&42u8), buf.get(0));
}

#[test]
fn gap_move_keeps_content_and_moves_the_gap() {
    let mut buf = GapBuffer::<u8>::from_vec(vec![1, 2, 3]);
    buf.gap_move_to(0);
    assert_eq!(0, buf.gap_start());
    assert_eq!(Some(&1u8), buf.get(0));
    assert_eq!(Some(&3u8), buf.get(2));
    buf.gap_move_to(2);
    assert_eq!(2, buf.gap_start());
    assert_eq!(&[1, 2, 3], buf.into_vec().as_slice());
}

#[test]
fn capacity_never_shrinks_on_delete() {
    let mut buf = GapBuffer::<u8>::from_vec(vec![1, 2, 3]);
    let cap = buf.capacity();
    buf.delete(2);
    buf.delete(0);
    assert_eq!(cap, buf.capacity());
    assert_eq!(1, buf.len());
}

#[test]
fn extend_appends_in_order() {
    let mut buf = GapBuffer::<u8>::from_vec(vec![1, 2]);
    buf.buffer_extend_from_vec(vec![3, 4]);
    assert_eq!(&[1, 2, 3, 4], buf.into_vec().as_slice());
}

#[test]
fn growth_is_monotonic_under_edits() {
    let mut buf = GapBuffer::<u8>::new();
    let mut last_cap = buf.capacity();
    for v in 0..40u8 {
        buf.push(v);
        assert!(buf.capacity() >= last_cap);
        last_cap = buf.capacity();
    }
    assert_eq!(40, buf.len());
    for i in 0..40u8 {
        assert_eq!(Some(&i), buf.get(i as usize));
    }
}

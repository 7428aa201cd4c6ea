use smart_buffer::iter::{SmartBufferIter, SmartBufferIterRef, SmartBufferIterRefMut};
use smart_buffer::{SmartBuffer, Token};

fn contents<T: Copy, const N: usize>(b: &SmartBuffer<T, N>) -> Vec<T> {
    let mut out = Vec::new();
    let mut it: SmartBufferIterRef<'_, T, N> = b.iter();
    while let Some(x) = it.next() {
        out.push(*x);
    }
    out
}

fn slots<T: Copy, const N: usize>(b: &SmartBuffer<T, N>) -> Vec<T> {
    (0..b.get_capacity()).map(|i| *b.get(i).unwrap()).collect()
}

#[test]
fn it_works() {
    let mut buf = SmartBuffer::<u32, 5>::from_arr([0u32; 5], 10, false);
    buf.insert_arr(&[4, 9, 3, 2, 1, 9, 3, 2, 10, 19]);
    let buf_clone = buf.clone();
    assert_eq!(buf.get_size(), 10);
    assert_eq!(contents(&buf_clone), vec![4, 9, 3, 2, 1, 9, 3, 2, 10, 19]);

    let test = SmartBuffer::from_arr([1u8, 4, 5, 6, 7], 5, true);
    assert_eq!(test.get_size(), 5);
    assert_eq!(test.get_capacity(), 5);
    assert_eq!(contents(&test), vec![1, 4, 5, 6, 7]);
}

#[test]
fn capacity_is_inline_plus_overflow() {
    let b = SmartBuffer::<u8, 2>::new(0, 4);
    assert_eq!(b.get_capacity(), 4);
    assert_eq!(b.get_size(), 0);
    let small = SmartBuffer::<u8, 3>::new(0, 1);
    assert_eq!(small.get_capacity(), 3);
    let exact = SmartBuffer::<u8, 3>::new(0, 3);
    assert_eq!(exact.get_capacity(), 3);
    assert!(exact.get(2).is_some());
    assert!(exact.get(3).is_none());
}

#[test]
fn new_fills_every_slot() {
    let b = SmartBuffer::<u16, 2>::new(9, 5);
    assert_eq!(slots(&b), vec![9, 9, 9, 9, 9]);
}

#[test]
fn from_arr_fills_overflow_with_first_element() {
    let b = SmartBuffer::from_arr([3u8, 1, 2], 6, false);
    assert_eq!(b.get_size(), 0);
    assert_eq!(slots(&b), vec![3, 1, 2, 3, 3, 3]);
}

#[test]
fn read_after_write_in_both_regions() {
    let mut b = SmartBuffer::<u32, 2>::new(0, 5);
    b.insert(11, 1);
    b.insert(44, 4);
    assert_eq!(b.get(1), Some(&11));
    assert_eq!(b.get(4), Some(&44));
    assert_eq!(*b.get_unchecked(4), 44);
    assert_eq!(b.get(5), None);
    assert_eq!(b.get_size(), 4);
}

#[test]
fn insert_past_capacity_is_ignored() {
    let mut b = SmartBuffer::<u32, 2>::new(0, 3);
    b.insert(5, 3);
    assert_eq!(slots(&b), vec![0, 0, 0]);
    assert_eq!(b.get_size(), 0);
}

#[test]
fn insert_below_size_keeps_size() {
    let mut b = SmartBuffer::<u32, 2>::new(0, 4);
    b.push(1);
    b.push(2);
    b.push(3);
    b.insert(7, 0);
    assert_eq!(b.get_size(), 3);
    assert_eq!(contents(&b), vec![7, 2, 3]);
}

#[test]
fn push_grows_by_one_until_full() {
    let mut b = SmartBuffer::<u32, 1>::new(0, 2);
    b.push(10);
    assert_eq!(b.get_size(), 1);
    assert_eq!(b.get(0), Some(&10));
    b.push(20);
    assert_eq!(b.get_size(), 2);
    assert_eq!(b.get(1), Some(&20));
    b.push(30);
    assert_eq!(b.get_size(), 2);
    assert_eq!(slots(&b), vec![10, 20]);
}

#[test]
fn inline_and_overflow_scenario() {
    let mut b = SmartBuffer::<&str, 2>::new("", 4);
    b.push("a");
    b.push("b");
    b.push("c");
    b.push("d");
    assert_eq!(b.get_size(), 4);
    assert_eq!(contents(&b), vec!["a", "b", "c", "d"]);
    assert_eq!(b.get(0), Some(&"a"));
    assert_eq!(b.get(3), Some(&"d"));
    b.push("e");
    assert_eq!(b.get_size(), 4);
    assert_eq!(contents(&b), vec!["a", "b", "c", "d"]);
}

#[test]
fn shift_left_scenario() {
    let mut b = SmartBuffer::<&str, 2>::new("", 4);
    b.insert_slice(&["a", "b", "c", "d"]);
    b.shl(1);
    assert_eq!(slots(&b), vec!["b", "c", "d", ""]);
    assert_eq!(b.get_size(), 4);
}

#[test]
fn shift_left_inline_only() {
    let mut b = SmartBuffer::from_arr([0u8, 1, 2, 3], 0, true);
    b.shl(3);
    assert_eq!(slots(&b), vec![3, 0, 0, 0]);
}

#[test]
fn shift_right_across_regions() {
    let mut b = SmartBuffer::<u8, 2>::new(0, 5);
    b.insert_slice(&[1, 2, 3, 4, 5]);
    b.shr(2);
    assert_eq!(slots(&b), vec![0, 0, 1, 2, 3]);
    assert_eq!(b.get_size(), 5);
}

#[test]
fn shift_by_zero_changes_nothing() {
    let mut b = SmartBuffer::<u8, 2>::new(0, 3);
    b.insert_slice(&[1, 2, 3]);
    b.shl(0);
    b.shr(0);
    assert_eq!(slots(&b), vec![1, 2, 3]);
}

#[test]
fn clear_then_calc_size_gives_one() {
    let mut b = SmartBuffer::<u8, 2>::new(0, 4);
    b.insert_slice(&[5, 6, 7]);
    b.clear();
    assert_eq!(slots(&b), vec![0, 0, 0, 0]);
    assert_eq!(b.get_size(), 3);
    b.calc_size();
    assert_eq!(b.get_size(), 1);

    let mut empty = SmartBuffer::<u8, 2>::new(0, 4);
    empty.clear();
    empty.calc_size();
    assert_eq!(empty.get_size(), 1);
}

#[test]
fn clear_then_calc_size_on_capacity_one() {
    let mut b = SmartBuffer::<u8, 1>::new(0, 1);
    b.clear();
    b.calc_size();
    assert_eq!(b.get_size(), 1);

    let mut full = SmartBuffer::<u8, 1>::new(0, 1);
    full.push(5);
    full.clear();
    full.calc_size();
    assert_eq!(full.get_size(), 1);
}

#[test]
fn calc_size_stops_at_fill_value() {
    let mut b = SmartBuffer::<u8, 2>::new(0, 6);
    b.insert_slice(&[1, 2, 3]);
    b.insert(0, 1);
    b.calc_size();
    assert_eq!(b.get_size(), 2);
}

#[test]
fn calc_size_without_fill_value_counts_all_plus_one() {
    let mut b = SmartBuffer::<u8, 2>::new(0, 6);
    b.insert_slice(&[1, 2, 3]);
    b.calc_size();
    assert_eq!(b.get_size(), 4);

    let mut full = SmartBuffer::<u8, 2>::new(0, 3);
    full.insert_slice(&[1, 2, 3]);
    full.calc_size();
    assert_eq!(full.get_size(), 3);

    let mut one_short = SmartBuffer::<u8, 2>::new(0, 4);
    one_short.insert_slice(&[1, 2, 3]);
    one_short.calc_size();
    assert_eq!(one_short.get_size(), 4);
}

#[test]
fn set_size_only_below_capacity() {
    let mut b = SmartBuffer::<u8, 2>::new(0, 4);
    b.set_size(3);
    assert_eq!(b.get_size(), 3);
    b.set_size(4);
    assert_eq!(b.get_size(), 3);
    b.set_size(0);
    assert_eq!(b.get_size(), 0);
}

#[test]
fn clone_is_independent() {
    let mut src = SmartBuffer::<&str, 2>::new("", 4);
    src.insert_slice(&["a", "b", "c", "d"]);
    let mut copy = src.clone();
    assert_eq!(contents(&copy), vec!["a", "b", "c", "d"]);
    copy.insert("z", 3);
    *copy.get_mut_unchecked(2) = "y";
    assert_eq!(contents(&src), vec!["a", "b", "c", "d"]);
    assert_eq!(contents(&copy), vec!["a", "b", "y", "z"]);
    src.insert("q", 2);
    assert_eq!(copy.get(2), Some(&"y"));
}

#[test]
fn owning_walk_yields_size_elements_in_order() {
    let mut b = SmartBuffer::<u32, 2>::new(0, 5);
    b.insert_slice(&[1, 2, 3]);
    let mut it: SmartBufferIter<u32, 2> = b.into_iter();
    assert_eq!(it.next(), Some(1));
    assert_eq!(it.next(), Some(2));
    assert_eq!(it.next(), Some(3));
    assert_eq!(it.next(), None);
    assert_eq!(it.next(), None);
}

#[test]
fn borrowing_walk_stops_at_size() {
    let mut b = SmartBuffer::<u32, 2>::new(0, 5);
    b.insert_slice(&[1, 2, 3]);
    let mut it = b.iter();
    assert_eq!(it.next(), Some(&1));
    assert_eq!(it.next(), Some(&2));
    assert_eq!(it.next(), Some(&3));
    assert_eq!(it.next(), None);
}

#[test]
fn mutable_walk_writes_through() {
    let mut b = SmartBuffer::<u32, 2>::new(0, 5);
    b.insert_slice(&[1, 2, 3]);
    {
        let mut it: SmartBufferIterRefMut<'_, u32, 2> = b.iter_mut();
        let mut seen = 0;
        while let Some(x) = it.next() {
            *x *= 10;
            seen += 1;
        }
        assert_eq!(seen, 3);
    }
    assert_eq!(slots(&b), vec![10, 20, 30, 0, 0]);
}

#[test]
fn into_vec_keeps_order() {
    let mut b = SmartBuffer::<u32, 2>::new(0, 5);
    b.insert_slice(&[4, 5, 6, 7]);
    assert_eq!(b.into_vec(), vec![4, 5, 6, 7]);
    let empty = SmartBuffer::<u32, 2>::new(0, 5);
    assert_eq!(empty.into_vec(), Vec::<u32>::new());
}

#[test]
fn round_trip_through_vec() {
    let mut b = SmartBuffer::<u32, 2>::new(0, 6);
    b.insert_slice(&[8, 6, 4, 2, 1]);
    let v = b.clone().into_vec();
    let mut rebuilt = SmartBuffer::<u32, 2>::from_arr([v[0], v[1]], 6, true);
    rebuilt.insert_slice(&v[2..]);
    assert_eq!(rebuilt.get_size(), b.get_size());
    assert_eq!(contents(&rebuilt), contents(&b));
}

#[test]
fn insert_slice_stops_when_full() {
    let mut b = SmartBuffer::<u8, 2>::new(0, 3);
    b.push(1);
    b.insert_slice(&[2, 3, 4, 5]);
    assert_eq!(b.get_size(), 3);
    assert_eq!(slots(&b), vec![1, 2, 3]);
}

#[test]
fn insert_slice_at_writes_from_index() {
    let mut b = SmartBuffer::<u8, 2>::new(0, 5);
    b.insert_slice_at(&[7, 8, 9], 1);
    assert_eq!(slots(&b), vec![0, 7, 8, 9, 0]);
    assert_eq!(b.get_size(), 3);

    let mut c = SmartBuffer::<u8, 2>::new(0, 4);
    c.insert_slice_at(&[1, 2, 3], 2);
    assert_eq!(slots(&c), vec![0, 0, 1, 2]);
    assert_eq!(c.get_size(), 3);

    let mut d = SmartBuffer::<u8, 2>::new(0, 4);
    d.insert_slice_at(&[1, 2], 9);
    assert_eq!(slots(&d), vec![0, 0, 0, 0]);
    assert_eq!(d.get_size(), 0);
}

#[test]
fn map_touches_only_elements() {
    let mut b = SmartBuffer::<u32, 2>::new(1, 4);
    b.insert_slice(&[2, 3, 4]);
    b.map(|x| x * 3);
    assert_eq!(slots(&b), vec![6, 9, 12, 1]);
}

#[test]
fn get_mut_unchecked_writes_overflow_slot() {
    let mut b = SmartBuffer::<u32, 1>::new(0, 3);
    *b.get_mut_unchecked(2) = 5;
    *b.get_mut_unchecked(0) = 4;
    assert_eq!(slots(&b), vec![4, 0, 5]);
}

#[test]
fn token_can_be_made() {
    let _t: Token = Token::new();
}

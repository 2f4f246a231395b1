use std::collections::VecDeque;

use strider::SliceRing;
use strider::SliceRingImpl;
use strider::SlidingWindow;

#[test]
fn new_has_default_capacity() {
    let r = SliceRingImpl::<i32>::new();
    assert_eq!(r.cap(), 8);
    assert_eq!(r.capacity(), 7);
    assert_eq!(r.len(), 0);
    assert!(r.is_continuous());
}

#[test]
fn with_capacity_rounds_up() {
    assert_eq!(SliceRingImpl::<u8>::with_capacity(0).cap(), 2);
    assert_eq!(SliceRingImpl::<u8>::with_capacity(1).cap(), 2);
    assert_eq!(SliceRingImpl::<u8>::with_capacity(2).cap(), 4);
    assert_eq!(SliceRingImpl::<u8>::with_capacity(3).cap(), 4);
    assert_eq!(SliceRingImpl::<u8>::with_capacity(7).cap(), 8);
    assert_eq!(SliceRingImpl::<u8>::with_capacity(8).cap(), 16);
    assert_eq!(SliceRingImpl::<u8>::with_capacity(1000).cap(), 1024);
    assert_eq!(SliceRingImpl::<u8>::with_capacity(1023).cap(), 1024);
    assert_eq!(SliceRingImpl::<u8>::with_capacity(1024).cap(), 2048);
}

#[test]
fn wrap_add_wraps_at_capacity() {
    let r = SliceRingImpl::<u8>::new();
    assert_eq!(r.wrap_add(3, 2), 5);
    assert_eq!(r.wrap_add(6, 4), 2);
    assert_eq!(r.wrap_add(7, 1), 0);
    // the addition wraps the address space without changing the result
    assert_eq!(r.wrap_add(usize::MAX, 5), 4);
    assert_eq!(r.wrap_add(usize::MAX - 2, 3), 0);
}

#[test]
fn round_trip_under_growth() {
    let mut r = SliceRingImpl::<i32>::new();
    let input: Vec<i32> = (0..3000).collect();
    r.push_many_back(&input[..]);
    let mut out = vec![0i32; 1000];
    assert_eq!(r.read_many_front(&mut out[..]), 1000);
    assert_eq!(out, (0..1000).collect::<Vec<i32>>());
}

#[test]
fn drop_beyond_length_empties() {
    let mut r = SliceRingImpl::<u8>::new();
    r.push_many_back(&[1, 2, 3, 4, 5]);
    assert_eq!(r.drop_many_front(99), 5);
    assert_eq!(r.len(), 0);
    let mut out = [42u8; 4];
    assert_eq!(r.read_many_front(&mut out[..]), 0);
    assert_eq!(out, [42u8; 4]);
}

#[test]
fn sliding_window_alphabet() {
    let mut w = SlidingWindow::<u8>::new(8, 2);
    let input = b"ABCDEFGHIJKLMNOPQRSTUVWXYZ";
    let mut out: Vec<u8> = Vec::new();
    let mut window = [0u8; 8];
    let mut pos = 0;
    while pos < input.len() {
        let end = if pos + 4 <= input.len() { pos + 4 } else { input.len() };
        w.append(&input[pos..end]);
        pos = end;
        while w.has_full_window() {
            w.read_window_and_advance(&mut window[..]);
            out.extend_from_slice(&window);
        }
    }
    let mut expected = String::new();
    expected.push_str("ABCDEFGH");
    expected.push_str("CDEFGHIJ");
    expected.push_str("EFGHIJKL");
    expected.push_str("GHIJKLMN");
    expected.push_str("IJKLMNOP");
    expected.push_str("KLMNOPQR");
    expected.push_str("MNOPQRST");
    expected.push_str("OPQRSTUV");
    expected.push_str("QRSTUVWX");
    expected.push_str("STUVWXYZ");
    assert_eq!(String::from_utf8(out).unwrap(), expected);
}

#[test]
fn read_window_does_not_advance() {
    let mut w = SlidingWindow::<u8>::new(3, 3);
    w.append(b"abcd");
    let mut win = [0u8; 3];
    w.read_window(&mut win[..]);
    assert_eq!(&win, b"abc");
    w.read_window(&mut win[..]);
    assert_eq!(&win, b"abc");
    assert!(w.can_step());
    w.advance();
    assert!(!w.has_full_window());
    assert!(!w.can_step());
}

#[test]
fn capacity_never_decreases() {
    let mut r = SliceRingImpl::<i32>::new();
    let mut last_cap = r.capacity();
    let mut next_value = 0;
    for round in 0..50usize {
        let chunk: Vec<i32> = (next_value..next_value + 37).collect();
        next_value += 37;
        r.push_many_back(&chunk[..]);
        assert!(r.capacity() >= last_cap);
        assert!(r.cap().is_power_of_two());
        assert!(r.len() <= r.capacity());
        last_cap = r.capacity();
        r.drop_many_front(11 + (round % 7));
        assert!(r.capacity() >= last_cap);
        assert!(r.cap().is_power_of_two());
        assert!(r.len() <= r.capacity());
        last_cap = r.capacity();
    }
}

#[test]
fn growth_capacity_exact() {
    let mut r = SliceRingImpl::<u8>::new();
    let data = vec![7u8; 3000];
    r.push_many_back(&data[..]);
    assert_eq!(r.cap(), 4096);
    // a push that still fits leaves the capacity alone
    let more = vec![8u8; 1095];
    r.push_many_back(&more[..]);
    assert_eq!(r.len(), 4095);
    assert_eq!(r.cap(), 4096);
    // one element past the usable capacity doubles the store
    r.push_many_back(&[9u8]);
    assert_eq!(r.cap(), 8192);
}

#[test]
fn growth_relocates_wrapped_front_half() {
    let mut r = SliceRingImpl::<i32>::new();
    r.push_many_back(&[0, 1, 2, 3, 4, 5]);
    assert_eq!(r.drop_many_front(6), 6);
    // the readable area now wraps: two slots before the end, one after
    r.push_many_back(&[10, 11, 12]);
    assert!(!r.is_continuous());
    assert_eq!(r.cap(), 8);
    r.push_many_back(&[13, 14, 15, 16, 17]);
    assert_eq!(r.cap(), 16);
    let mut out = [0i32; 8];
    assert_eq!(r.read_many_front(&mut out[..]), 8);
    assert_eq!(out, [10, 11, 12, 13, 14, 15, 16, 17]);
}

#[test]
fn growth_relocates_wrapped_rear_half() {
    let mut r = SliceRingImpl::<i32>::new();
    r.push_many_back(&[0, 1, 2, 3, 4, 5]);
    assert_eq!(r.drop_many_front(6), 6);
    // the readable area wraps with as many slots before the end as after
    r.push_many_back(&[20, 21, 22, 23]);
    assert!(!r.is_continuous());
    assert_eq!(r.cap(), 8);
    r.push_many_back(&[24, 25, 26, 27]);
    assert_eq!(r.cap(), 16);
    let mut out = [0i32; 8];
    assert_eq!(r.read_many_front(&mut out[..]), 8);
    assert_eq!(out, [20, 21, 22, 23, 24, 25, 26, 27]);
}

#[test]
fn order_preserved_across_interleavings() {
    let mut r = SliceRingImpl::<u32>::new();
    let mut model: Vec<u32> = Vec::new();
    let mut front = 0usize;
    for round in 0..40u32 {
        let chunk: Vec<u32> = (round * 10..round * 10 + 7).collect();
        r.push_many_back(&chunk[..]);
        model.extend_from_slice(&chunk);
        let dropped = r.drop_many_front(3);
        assert_eq!(dropped, std::cmp::min(3, model.len() - front));
        front += dropped;
        let mut out = vec![0u32; 5];
        let k = r.read_many_front(&mut out[..]);
        assert_eq!(k, std::cmp::min(5, model.len() - front));
        for i in 0..k {
            assert_eq!(out[i], model[front + i]);
        }
    }
}

#[test]
fn implementations_agree_in_lockstep() {
    let mut a = SliceRingImpl::<i32>::new();
    let mut b = VecDeque::<i32>::new();
    let mut next = 0i32;
    for round in 0..60usize {
        let n = (round * 7) % 13;
        let chunk: Vec<i32> = (next..next + n as i32).collect();
        next += n as i32;
        SliceRing::push_many_back(&mut a, &chunk[..]);
        SliceRing::push_many_back(&mut b, &chunk[..]);
        assert_eq!(SliceRing::len(&a), SliceRing::len(&b));
        let d = (round * 5) % 17;
        assert_eq!(
            SliceRing::drop_many_front(&mut a, d),
            SliceRing::drop_many_front(&mut b, d)
        );
        assert_eq!(SliceRing::len(&a), SliceRing::len(&b));
        let mut out_a = vec![-1i32; (round % 9) + 1];
        let mut out_b = vec![-1i32; (round % 9) + 1];
        assert_eq!(
            SliceRing::read_many_front(&a, &mut out_a[..]),
            SliceRing::read_many_front(&b, &mut out_b[..])
        );
        assert_eq!(out_a, out_b);
    }
}

use std::collections::VecDeque;

use strider::SliceRing;
use strider::SliceRingImpl;

/// Feeds the alphabet through a ring in chunks of 4 bytes and reads every
/// full window of 8, stepping by 2, checking the concatenation of all the
/// windows read.
fn string_windowing_case<R: SliceRing<u8>>(mut ring: R) {
    const WINDOW_SIZE: usize = 8;
    const STEP_SIZE: usize = 2;
    let input = b"ABCDEFGHIJKLMNOPQRSTUVWXYZ";
    let mut output: Vec<u8> = Vec::new();
    let mut window_buffer = [0u8; WINDOW_SIZE];

    let mut pos = 0;
    while pos < input.len() {
        let end = if pos + 4 <= input.len() { pos + 4 } else { input.len() };
        ring.push_many_back(&input[pos..end]);
        pos = end;
        // read as long as enough samples are present (remain) in ring
        while WINDOW_SIZE <= ring.len() {
            ring.read_many_front(&mut window_buffer);
            output.extend_from_slice(&window_buffer);
            // step
            ring.drop_many_front(STEP_SIZE);
        }
    }
    let actual = String::from_utf8(output).unwrap();
    let mut expected = String::new();
    expected.push_str("ABCDEFGH");
    expected.push_str("CDEFGHIJ");
    expected.push_str("EFGHIJKL");
    expected.push_str("GHIJKLMN");
    expected.push_str("IJKLMNOP");
    expected.push_str("KLMNOPQR");
    expected.push_str("MNOPQRST");
    expected.push_str("OPQRSTUV");
    expected.push_str("QRSTUVWX");
    expected.push_str("STUVWXYZ");
    assert_eq!(actual, expected);
}

/// A long mixed run of reads, drops and pushes, including pushes that
/// force the capacity to grow, shared by every implementation of the
/// ring contract.
fn slice_ring_case<R: SliceRing<i32>>(mut testable: R) {
    assert_eq!(testable.len(), 0);

    // read nothing
    let mut output: Vec<i32> = std::iter::repeat(0).take(1000).collect();
    assert_eq!(testable.read_many_front(&mut output[..]), 0);
    assert_eq!(output, std::iter::repeat(0).take(1000).collect::<Vec<i32>>());

    // drop nothing
    assert_eq!(testable.drop_many_front(505), 0);
    assert_eq!(testable.len(), 0);

    // first push. forces cap increase
    let input = (0..3000).collect::<Vec<i32>>();
    testable.push_many_back(&input[..]);
    assert_eq!(testable.len(), 3000);

    let mut output: Vec<i32> = std::iter::repeat(0).take(1000).collect();
    assert_eq!(testable.read_many_front(&mut output[..]), 1000);
    assert_eq!(output, (0..1000).collect::<Vec<i32>>());

    // repeated read
    let mut output: Vec<i32> = std::iter::repeat(0).take(200).collect();
    assert_eq!(testable.read_many_front(&mut output[..]), 200);
    assert_eq!(output, (0..200).collect::<Vec<i32>>());

    assert_eq!(testable.drop_many_front(100), 100);
    assert_eq!(testable.len(), 2900);

    // test effect of drop
    let mut output: Vec<i32> = std::iter::repeat(0).take(1000).collect();
    assert_eq!(testable.read_many_front(&mut output[..]), 1000);
    assert_eq!(output, (100..1100).collect::<Vec<i32>>());

    assert_eq!(testable.drop_many_front(505), 505);
    assert_eq!(testable.len(), 2395);

    // test effect of drop. overread
    let mut output: Vec<i32> = std::iter::repeat(0).take(4000).collect();
    assert_eq!(testable.read_many_front(&mut output[..]), 2395);
    assert_eq!(
        output,
        (605..3000).chain(std::iter::repeat(0).take(1605)).collect::<Vec<i32>>()
    );

    // push without cap increase
    let input = (3000..4000).collect::<Vec<i32>>();
    testable.push_many_back(&input[..]);
    assert_eq!(testable.len(), 3395);

    // push that forces cap increase
    let input = (4000..6000).collect::<Vec<i32>>();
    testable.push_many_back(&input[..]);
    assert_eq!(testable.len(), 5395);

    // overread
    let mut output: Vec<i32> = std::iter::repeat(0).take(6000).collect();
    assert_eq!(testable.read_many_front(&mut output[..]), 5395);
    assert_eq!(
        output,
        (605..6000).chain(std::iter::repeat(0).take(605)).collect::<Vec<i32>>()
    );

    assert_eq!(testable.drop_many_front(395), 395);
    assert_eq!(testable.len(), 5000);

    // test effect of drop
    let mut output: Vec<i32> = std::iter::repeat(0).take(5000).collect();
    assert_eq!(testable.read_many_front(&mut output[..]), 5000);
    assert_eq!(output, (1000..6000).collect::<Vec<i32>>());

    assert_eq!(testable.drop_many_front(4000), 4000);
    assert_eq!(testable.len(), 1000);

    // test effect of drop. overread
    let mut output: Vec<i32> = std::iter::repeat(0).take(2000).collect();
    assert_eq!(testable.read_many_front(&mut output[..]), 1000);
    assert_eq!(
        output,
        (5000..6000).chain(std::iter::repeat(0).take(1000)).collect::<Vec<i32>>()
    );

    // drop more than contained
    assert_eq!(testable.drop_many_front(1500), 1000);
    assert_eq!(testable.len(), 0);

    // read nothing
    let mut output: Vec<i32> = std::iter::repeat(0).take(2000).collect();
    assert_eq!(testable.read_many_front(&mut output[..]), 0);
    assert_eq!(output, std::iter::repeat(0).take(2000).collect::<Vec<i32>>());
}

#[test]
fn test_test_string_windowing_deque() {
    string_windowing_case(VecDeque::<u8>::new());
}

#[test]
fn test_string_windowing_optimized() {
    string_windowing_case(SliceRingImpl::<u8>::new());
}

#[test]
fn test_slice_ring_deque() {
    slice_ring_case(VecDeque::<i32>::new());
}

#[test]
fn test_slice_ring_optimized() {
    slice_ring_case(SliceRingImpl::<i32>::new());
}

use bump_buf::BumpBuf;

#[test]
fn test_push() {
    let mut bump_buf = BumpBuf::<f32, 512>::new();
    let range = 51209;
    (0..=51209).into_iter().for_each(|v| bump_buf.push(v as f32));

    assert_eq!(bump_buf.recent(), range as f32);
    assert_eq!(bump_buf.prev(), (range - 1) as f32);
    assert_eq!(bump_buf.last(), (range - 511) as f32);
}

#[test]
fn test_iterator() {
    let mut bump_buf = BumpBuf::<u32, 8>::new();
    (0..=200).into_iter().for_each(|n| bump_buf.push(n));
    let mut printer = bump_buf.iter();
    while let Some(n) = printer.next() {
        println!("{}", n);
    }
    let mut first = bump_buf.iter();
    assert_eq!(bump_buf.last(), first.next().unwrap());
    let mut eighth = bump_buf.iter();
    let mut got = None;
    for _ in 0..8 {
        got = eighth.next();
    }
    assert_eq!(bump_buf.recent(), got.unwrap());
}

#[test]
fn fewer_pushes_than_capacity_keep_everything() {
    let mut buf = BumpBuf::<u32, 4>::new();
    buf.push(10);
    buf.push(20);
    buf.push(30);
    assert_eq!(buf.valid_len(), 3);
    assert_eq!(buf.last(), 10);
    assert_eq!(buf.recent(), 30);
    assert!(!buf.end_of_internal());
}

#[test]
fn pushes_beyond_capacity_keep_the_last_window() {
    let mut buf = BumpBuf::<u32, 4>::new();
    for v in 1..=6u32 {
        buf.push(v);
    }
    assert_eq!(buf.valid_len(), 4);
    assert_eq!(buf.recent(), 6);
    // the oldest retained value was pushed CAP - 1 = 3 pushes before the
    // most recent one
    assert_eq!(buf.last(), 3);
}

#[test]
fn offset_lookup_generalizes_named_accessors() {
    let mut buf = BumpBuf::<u32, 4>::new();
    for v in [7u32, 8, 9, 10, 11] {
        buf.push(v);
    }
    assert_eq!(buf.at(0), Some(buf.recent()));
    assert_eq!(buf.at(1), Some(buf.prev()));
    let span = buf.valid_len() - 1;
    assert_eq!(buf.at(span), Some(buf.last()));
}

#[test]
fn offset_lookup_rejects_out_of_range_offsets() {
    let mut buf = BumpBuf::<u32, 4>::new();
    assert_eq!(buf.at(0), None);
    buf.push(5);
    buf.push(6);
    assert_eq!(buf.at(0), Some(6));
    assert_eq!(buf.at(1), Some(5));
    assert_eq!(buf.at(2), None);
    for v in 0..10u32 {
        buf.push(v);
    }
    assert_eq!(buf.at(3), Some(6));
    assert_eq!(buf.at(4), None);
    assert_eq!(buf.at(usize::MAX), None);
}

#[test]
fn iteration_yields_push_count_items_in_push_order() {
    let mut buf = BumpBuf::<u32, 5>::new();
    buf.push(3);
    buf.push(1);
    buf.push(4);
    let mut it = buf.iter();
    assert_eq!(it.next(), Some(3));
    assert_eq!(it.next(), Some(1));
    assert_eq!(it.next(), Some(4));
    assert_eq!(it.next(), None);
    assert_eq!(it.next(), None);
}

#[test]
fn iteration_after_wrap_yields_capacity_items_oldest_first() {
    let mut buf = BumpBuf::<u32, 3>::new();
    for v in 1..=7u32 {
        buf.push(v);
    }
    let mut it = buf.iter();
    assert_eq!(it.next(), Some(5));
    assert_eq!(it.next(), Some(6));
    assert_eq!(it.next(), Some(7));
    assert_eq!(it.next(), None);
}

#[test]
fn iterator_is_a_snapshot_of_the_buffer() {
    let mut buf = BumpBuf::<u32, 3>::new();
    buf.push(1);
    buf.push(2);
    let mut it = buf.iter();
    buf.push(3);
    buf.push(4);
    assert_eq!(it.next(), Some(1));
    assert_eq!(it.next(), Some(2));
    assert_eq!(it.next(), None);
}

#[test]
fn just_wrapped_flag_on_each_multiple_of_capacity() {
    let mut buf = BumpBuf::<u32, 3>::new();
    assert!(!buf.end_of_internal());
    let mut flags = Vec::new();
    for v in 1..=7u32 {
        buf.push(v);
        flags.push(buf.end_of_internal());
    }
    assert_eq!(flags, vec![false, false, true, false, false, true, false]);
}

#[test]
fn capacity_eight_scenario() {
    let mut buf = BumpBuf::<u32, 8>::new();
    for v in 0..=200u32 {
        buf.push(v);
    }
    assert_eq!(buf.recent(), 200);
    assert_eq!(buf.last(), 193);
    assert_eq!(buf.at(7), Some(buf.last()));
    let mut it = buf.iter();
    let first = it.next().unwrap();
    assert_eq!(first, buf.last());
    let mut last_seen = first;
    let mut count = 1;
    while let Some(v) = it.next() {
        last_seen = v;
        count += 1;
    }
    assert_eq!(count, 8);
    assert_eq!(last_seen, buf.recent());
}

#[test]
fn capacity_512_float_scenario() {
    let mut buf = BumpBuf::<f32, 512>::new();
    let mut v = 0.0f32;
    while v <= 51209.0 {
        buf.push(v);
        v += 1.0;
    }
    assert_eq!(buf.recent(), 51209.0);
    assert_eq!(buf.prev(), 51208.0);
    assert_eq!(buf.last(), 51209.0 - 511.0);
    assert_eq!(buf.last(), 50698.0);
}

#[test]
fn capacity_512_integer_slope_is_one() {
    let mut buf = BumpBuf::<i64, 512>::new();
    for v in 0..=51209i64 {
        buf.push(v);
    }
    assert_eq!(buf.recent(), 51209);
    assert_eq!(buf.prev(), 51208);
    assert_eq!(buf.last(), 50698);
    assert_eq!(buf.slope(), Some(1));
}

#[test]
fn slope_not_computable_below_two_samples() {
    let mut buf = BumpBuf::<i64, 4>::new();
    assert_eq!(buf.slope(), None);
    buf.push(42);
    assert_eq!(buf.slope(), None);
    buf.push(44);
    assert_eq!(buf.slope(), Some(2));
}

#[test]
fn slope_truncates_toward_zero() {
    let mut buf = BumpBuf::<i64, 3>::new();
    buf.push(5);
    buf.push(9);
    assert_eq!(buf.slope(), Some(4));
    buf.push(2);
    // recent - oldest is -3 over a span of 2 steps
    assert_eq!(buf.slope(), Some(-1));
}

#[test]
fn slope_not_computable_when_difference_overflows() {
    let mut buf = BumpBuf::<i64, 2>::new();
    buf.push(i64::MIN);
    buf.push(i64::MAX);
    assert_eq!(buf.slope(), None);
    let mut down = BumpBuf::<i64, 2>::new();
    down.push(i64::MAX);
    down.push(i64::MIN);
    assert_eq!(down.slope(), None);
}

#[test]
fn fresh_buffer_reads_default_values() {
    let buf = BumpBuf::<u32, 4>::new();
    assert_eq!(buf.valid_len(), 0);
    assert_eq!(buf.len(), 4);
    assert_eq!(buf.recent(), 0);
    assert_eq!(buf.prev(), 0);
    assert_eq!(buf.last(), 0);
}

#[test]
fn previous_before_two_pushes_is_the_default() {
    let mut buf = BumpBuf::<u32, 4>::new();
    buf.push(9);
    assert_eq!(buf.prev(), 0);
    buf.push(11);
    assert_eq!(buf.prev(), 9);
}

#[test]
fn capacity_is_constant() {
    let mut buf = BumpBuf::<u32, 8>::new();
    assert_eq!(buf.len(), 8);
    for v in 0..20u32 {
        buf.push(v);
        assert_eq!(buf.len(), 8);
    }
}

use chaos_game::accumulator::{
    accumulate, change_color, decrement, increment, Accumulate, Accumulator, Decrement, Increment,
    Subtractive,
};

#[test]
fn increment_raises_one_byte_by_one() {
    let mut image = vec![0u8; 16];
    increment(&mut image, [1, 2], 4);
    let mut expected = vec![0u8; 16];
    expected[6] = 1;
    assert_eq!(image, expected);
}

#[test]
fn increments_stop_at_255() {
    let mut image = vec![250u8; 4];
    for n in 1..=300u32 {
        increment(&mut image, [1, 1], 2);
        assert_eq!(image[3] as u32, (250 + n).min(255));
    }
    assert_eq!(image, vec![250, 250, 250, 255]);
}

#[test]
fn decrement_lowers_one_byte_by_one() {
    let mut image = vec![255u8; 16];
    decrement(&mut image, [3, 0], 4);
    let mut expected = vec![255u8; 16];
    expected[12] = 254;
    assert_eq!(image, expected);
}

#[test]
fn decrements_stop_at_0() {
    let mut image = vec![5u8; 4];
    for n in 1..=300i32 {
        decrement(&mut image, [0, 1], 2);
        assert_eq!(image[1] as i32, (5 - n).max(0));
    }
    assert_eq!(image, vec![5, 0, 5, 5]);
}

#[test]
fn change_color_lowers_the_three_channels_of_one_pixel() {
    let mut image = vec![255u8; 2 * 9];
    change_color(&mut image, [1, 2], 9);
    let mut expected = vec![255u8; 18];
    expected[15] = 254;
    expected[16] = 254;
    expected[17] = 254;
    assert_eq!(image, expected);
}

#[test]
fn channels_saturate_each_on_its_own() {
    let mut image = vec![0u8, 1, 2, 9];
    change_color(&mut image, [0, 0], 4);
    assert_eq!(image, vec![0, 0, 1, 9]);
    change_color(&mut image, [0, 0], 4);
    assert_eq!(image, vec![0, 0, 0, 9]);
    change_color(&mut image, [0, 0], 4);
    assert_eq!(image, vec![0, 0, 0, 9]);
}

#[test]
fn rows_lie_a_stride_apart() {
    let mut image = vec![255u8; 3 * 10];
    change_color(&mut image, [2, 1], 10);
    for (i, v) in image.iter().enumerate() {
        assert_eq!(*v, if (23..26).contains(&i) { 254 } else { 255 }, "{i}");
    }
}

#[test]
fn accumulate_follows_the_policy() {
    let mut image = vec![10u8; 12];
    accumulate(Accumulator::SingleChannelIncrement, &mut image, [0, 1], 6);
    assert_eq!(image, vec![10, 11, 10, 10, 10, 10, 10, 10, 10, 10, 10, 10]);
    accumulate(Accumulator::SingleChannelDecrement, &mut image, [1, 0], 6);
    assert_eq!(image, vec![10, 11, 10, 10, 10, 10, 9, 10, 10, 10, 10, 10]);
    accumulate(Accumulator::MultiChannelSubtractive, &mut image, [1, 1], 6);
    assert_eq!(image, vec![10, 11, 10, 10, 10, 10, 9, 10, 10, 9, 9, 9]);
}

#[test]
fn accumulators_chosen_at_compile_time_do_as_the_policies() {
    let mut image = vec![100u8; 6];
    Increment.apply(&mut image, [0, 0], 3);
    Decrement.apply(&mut image, [0, 1], 3);
    Subtractive.apply(&mut image, [1, 0], 3);
    assert_eq!(image, vec![101, 99, 100, 99, 99, 99]);
}

#[test]
fn channels_and_background_of_each_policy() {
    assert_eq!(Accumulator::SingleChannelIncrement.channel_count(), 1);
    assert_eq!(Accumulator::SingleChannelDecrement.channel_count(), 1);
    assert_eq!(Accumulator::MultiChannelSubtractive.channel_count(), 3);
    assert_eq!(Accumulator::SingleChannelIncrement.background_value(), 0);
    assert_eq!(Accumulator::SingleChannelDecrement.background_value(), 255);
    assert_eq!(Accumulator::MultiChannelSubtractive.background_value(), 255);
}

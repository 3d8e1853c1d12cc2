use resonant_engine::stream::mix_frames;
use resonant_engine::stream::silence;

#[test]
fn silence_overwrites_every_sample() {
    let mut data = vec![1.0f32, -2.0, 3.0, 4.5, 0.25];
    silence(&mut data, 0.0);
    assert_eq!(data, vec![0.0; 5]);
}

#[test]
fn silence_uses_the_given_equilibrium() {
    let mut data = vec![0u16, 7, 65535];
    silence(&mut data, 32768);
    assert_eq!(data, vec![32768, 32768, 32768]);
}

#[test]
fn silence_of_an_empty_buffer() {
    let mut data: Vec<f32> = Vec::new();
    silence(&mut data, 0.0);
    assert!(data.is_empty());
}

#[test]
fn mix_frames_adds_left_to_even_and_right_to_odd_slots() {
    let mut data = vec![1.0f32, 2.0, 3.0, 4.0];
    mix_frames(&mut data, &[0.5, 0.25], &[-1.0, -2.0], &|a: f32, b: f32| a + b);
    assert_eq!(data, vec![1.5, 1.0, 3.25, 2.0]);
}

#[test]
fn mix_frames_leaves_the_odd_tail() {
    let mut data = vec![1, 2, 3, 4, 5];
    mix_frames(&mut data, &[10, 20], &[100, 200], &|a: i32, b: i32| a + b);
    assert_eq!(data, vec![11, 102, 23, 204, 5]);
}

#[test]
fn mix_frames_stops_at_the_shorter_channel() {
    let mut data = vec![0, 0, 0, 0, 0, 0];
    mix_frames(&mut data, &[1, 2, 3], &[7], &|a: i32, b: i32| a + b);
    assert_eq!(data, vec![1, 7, 0, 0, 0, 0]);
    let mut data = vec![0, 0];
    mix_frames(&mut data, &[1, 2, 3], &[7, 8, 9], &|a: i32, b: i32| a + b);
    assert_eq!(data, vec![1, 7]);
}

#[test]
fn mix_frames_hands_the_buffer_sample_first() {
    let mut data = vec![10, 20];
    mix_frames(&mut data, &[1], &[2], &|a: i32, b: i32| a - b);
    assert_eq!(data, vec![9, 18]);
}

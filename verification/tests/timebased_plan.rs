use heic_to_dynamic_gnome_wallpaper::timebased::{
    any_time_is_nan, order_time_slices, plan_time_based_wallpaper, start_time_at, time_key, SliceStep, TimeSlice,
};

fn slices(times: &[f32]) -> Vec<TimeSlice> {
    times.iter().enumerate().map(|(i, t)| TimeSlice { time_bits: t.to_bits(), idx: i }).collect()
}

#[test]
fn orders_slices_by_time_stably() {
    assert_eq!(order_time_slices(&slices(&[0.5, 0.25, 0.75, 0.25])), vec![1, 3, 0, 2]);
}

#[test]
fn orders_negative_times_first() {
    assert_eq!(order_time_slices(&slices(&[-1.0, 0.5, -2.0])), vec![2, 0, 1]);
}

#[test]
fn signed_zeros_are_equal_times() {
    assert_eq!(order_time_slices(&slices(&[-0.0, 0.0])), vec![0, 1]);
    assert_eq!(order_time_slices(&slices(&[0.0, -0.0])), vec![0, 1]);
    assert_eq!(time_key((-0.0f32).to_bits()), time_key(0.0f32.to_bits()));
}

#[test]
fn sorted_slices_keep_their_order() {
    assert_eq!(order_time_slices(&slices(&[0.0, 0.1, 0.1, 0.9])), vec![0, 1, 2, 3]);
    assert_eq!(order_time_slices(&slices(&[])), Vec::<usize>::new());
}

#[test]
fn time_key_follows_numeric_order() {
    let values = [f32::NEG_INFINITY, -3.5, -1.0, -0.0, 1e-30, 0.25, 1.0, f32::INFINITY];
    for w in values.windows(2) {
        assert!(time_key(w[0].to_bits()) <= time_key(w[1].to_bits()));
    }
    assert!(time_key((-1.0f32).to_bits()) < time_key(0.25f32.to_bits()));
}

#[test]
fn detects_nan_times() {
    assert!(any_time_is_nan(&slices(&[0.5, f32::NAN])));
    assert!(!any_time_is_nan(&slices(&[0.5, f32::INFINITY, -0.0])));
}

#[test]
fn plans_steps_in_time_order() {
    let input = vec![
        TimeSlice { time_bits: 0.5f32.to_bits(), idx: 2 },
        TimeSlice { time_bits: 0.25f32.to_bits(), idx: 0 },
        TimeSlice { time_bits: 0.75f32.to_bits(), idx: 5 },
    ];
    let steps = plan_time_based_wallpaper(&input, &vec![10, 20, 30]);
    assert_eq!(
        steps,
        vec![
            SliceStep { index: 0, slice: 1, next_slice: Some(0), img_id: Some(10) },
            SliceStep { index: 1, slice: 0, next_slice: Some(2), img_id: Some(30) },
            SliceStep { index: 2, slice: 2, next_slice: None, img_id: None },
        ]
    );
}

#[test]
fn start_time_is_first_of_october_2011() {
    let st = start_time_at(3725);
    assert_eq!((st.year, st.month, st.day, st.hour, st.minute, st.second), (2011, 10, 1, 1, 2, 5));
}

use heic_to_dynamic_gnome_wallpaper::util::{to_rem_hours, to_rem_min, to_rem_sec};

#[test]
fn splits_seconds_into_clock_parts() {
    assert_eq!(to_rem_hours(3725), 1);
    assert_eq!(to_rem_min(3725), 2);
    assert_eq!(to_rem_sec(3725), 5);
}

#[test]
fn zero_seconds_is_midnight() {
    assert_eq!(to_rem_hours(0), 0);
    assert_eq!(to_rem_min(0), 0);
    assert_eq!(to_rem_sec(0), 0);
}

#[test]
fn largest_u16_second_count() {
    assert_eq!(to_rem_hours(65535), 18);
    assert_eq!(to_rem_min(65535), 12);
    assert_eq!(to_rem_sec(65535), 15);
}

#[test]
fn clock_parts_recompose_the_seconds() {
    for secs in [0u16, 59, 60, 3599, 3600, 43200, 20863, 65535] {
        let total = to_rem_hours(secs) as u32 * 3600 + to_rem_min(secs) as u32 * 60 + to_rem_sec(secs) as u32;
        assert_eq!(total, secs as u32);
        assert!(to_rem_min(secs) < 60 && to_rem_sec(secs) < 60 && to_rem_hours(secs) <= 18);
    }
}

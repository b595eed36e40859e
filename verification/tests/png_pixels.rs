use heic_to_dynamic_gnome_wallpaper::util::png::{plane_geometry_holds, visible_rgb_bytes, PlaneError};

#[test]
fn drops_row_padding() {
    let red = [1u8, 2, 3, 4, 5, 6];
    let green = [11u8, 12, 13, 14, 15, 16];
    let blue = [21u8, 22, 23, 24, 25, 26];
    assert_eq!(
        visible_rgb_bytes(&red, &green, &blue, 2, 2),
        Ok(vec![1, 11, 21, 2, 12, 22, 4, 14, 24, 5, 15, 25])
    );
}

#[test]
fn unpadded_planes_are_interleaved_whole() {
    let out = visible_rgb_bytes(&[1, 2], &[3, 4], &[5, 6], 2, 1).unwrap();
    assert_eq!(out, vec![1, 3, 5, 2, 4, 6]);
    assert_eq!(out.len(), 3 * 2);
}

#[test]
fn unequal_planes_are_refused() {
    assert_eq!(visible_rgb_bytes(&[1, 2], &[3], &[5, 6], 1, 1), Err(PlaneError::UnequalPlanes));
}

#[test]
fn plane_geometry_checks() {
    assert!(plane_geometry_holds(6, 2, 2));
    assert!(plane_geometry_holds(2, 2, 1));
    assert!(!plane_geometry_holds(2, 2, 0));
    assert!(!plane_geometry_holds(1, 2, 1));
    assert!(!plane_geometry_holds(100, 100000, 100000));
    assert!(plane_geometry_holds(0, 0, 1));
    assert!(!plane_geometry_holds(1, 0, 2));
}

#[test]
fn zero_width_empty_planes_give_no_bytes() {
    assert_eq!(visible_rgb_bytes(&[], &[], &[], 0, 3), Ok(Vec::new()));
}

use ascii_sweep::image::Image;
use ascii_sweep::sweep::{centre_offset, frame_count, sweep_times, STEP};

#[test]
fn pass_for_height_five() {
    let frames = frame_count(5, STEP);
    assert_eq!(frames, 15);
    let t = sweep_times(frames, STEP);
    assert_eq!(t, vec![-15, -12, -9, -6, -3, 0, 3, 6, 9, 12, 15]);
    assert_eq!(t.len(), 11);
}

#[test]
fn pass_for_empty_image() {
    assert_eq!(sweep_times(0, 3), vec![0]);
}

#[test]
fn pass_that_does_not_land_on_frames() {
    assert_eq!(sweep_times(7, 3), vec![-7, -4, -1, 2, 5]);
    assert_eq!(sweep_times(2, 1), vec![-2, -1, 0, 1, 2]);
}

#[test]
fn centring() {
    assert_eq!(centre_offset(80, 20), 30);
    assert_eq!(centre_offset(81, 20), 30);
    assert_eq!(centre_offset(20, 20), 0);
    assert_eq!(centre_offset(10, 20), 0);
}

#[test]
fn image_dimensions() {
    let img = Image::new(vec![
        "AB".chars().collect(),
        "CDE".chars().collect(),
        Vec::new(),
    ]);
    assert_eq!(img.height(), 3);
    assert_eq!(img.width(), 3);
    let empty = Image::new(Vec::new());
    assert_eq!(empty.height(), 0);
    assert_eq!(empty.width(), 0);
}

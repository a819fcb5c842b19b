use ascii_sweep::animation::Animation;
use ascii_sweep::image::Image;
use ascii_sweep::palette::Palettes;

fn two_by_two() -> Image {
    Image::new(vec!["AB".chars().collect(), "CD".chars().collect()])
}

#[test]
fn single_pass_scenario() {
    let img = two_by_two();
    let mut anim = Animation::new(img.height(), false);
    let mut visited: Vec<i32> = Vec::new();
    let mut cells = 0usize;
    let mut rotations = 0usize;
    while let Some(t) = anim.next_frame(false) {
        visited.push(t);
        let frame = img.paint_frame(t, &anim.palettes);
        cells += frame.iter().map(|row| row.len()).sum::<usize>();
        let before = anim.palettes.incoming.clone();
        anim.finish_frame(false);
        if anim.palettes.incoming != before {
            rotations += 1;
        }
        assert!(visited.len() <= 5);
    }
    assert_eq!(visited, vec![-6, -3, 0, 3, 6]);
    assert_eq!(cells, 20);
    assert_eq!(rotations, 1);
    assert!(anim.stopped);
}

#[test]
fn single_pass_rotates_at_zero() {
    let mut anim = Animation::new(2, false);
    let mut expected = Palettes::new();
    expected.rotate(3);
    while let Some(t) = anim.next_frame(false) {
        anim.finish_frame_with(false, 3);
        if t < 0 {
            assert_eq!(anim.palettes.incoming, Palettes::new().incoming);
        } else {
            assert_eq!(anim.palettes.incoming, expected.incoming);
        }
    }
    assert_eq!(anim.palettes.outgoing, Palettes::new().outgoing);
}

#[test]
fn forever_restarts_from_the_start() {
    let mut anim = Animation::new(2, true);
    let mut visited: Vec<i32> = Vec::new();
    for _ in 0..12 {
        let t = anim.next_frame(false).unwrap();
        visited.push(t);
        anim.finish_frame_with(false, 1);
    }
    assert_eq!(visited, vec![-6, -3, 0, 3, 6, -6, -3, 0, 3, 6, -6, -3]);
    let mut twice = Palettes::new();
    twice.rotate(1);
    twice.rotate(1);
    assert_eq!(anim.palettes.incoming, twice.incoming);
    assert!(!anim.stopped);
}

#[test]
fn quit_key_stops_for_good() {
    let mut anim = Animation::new(2, true);
    assert_eq!(anim.next_frame(false), Some(-6));
    anim.finish_frame(true);
    assert!(anim.stopped);
    assert_eq!(anim.next_frame(false), None);
    anim.finish_frame(false);
    assert_eq!(anim.next_frame(false), None);
    assert_eq!(anim.pos, 0);
}

#[test]
fn stop_request_draws_no_frame() {
    let mut anim = Animation::new(3, false);
    assert_eq!(anim.next_frame(true), None);
    assert!(anim.stopped);
    assert_eq!(anim.next_frame(false), None);
}

#[test]
fn quit_during_single_pass_stops_early() {
    let mut anim = Animation::new(2, false);
    let mut visited: Vec<i32> = Vec::new();
    while let Some(t) = anim.next_frame(false) {
        visited.push(t);
        anim.finish_frame_with(t == -3, 1);
    }
    assert_eq!(visited, vec![-6, -3]);
    assert_eq!(anim.palettes.incoming, Palettes::new().incoming);
}

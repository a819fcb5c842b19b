use ascii_sweep::cell::{color_with_jitter, get_color};
use ascii_sweep::palette::{Color, Palettes};

fn chars(s: &str) -> Vec<char> {
    s.chars().collect()
}

#[test]
fn band_from_incoming_before_zero() {
    let p = Palettes::new();
    // front = 4 - 5 + 15 = 14, distance 14 - 0 - 1 = 13: band 4
    assert_eq!(color_with_jitter(4, 0, -15, &p, 5, 5, 1), Color::Magenta);
}

#[test]
fn band_from_outgoing_after_zero() {
    let p = Palettes::new();
    assert_eq!(color_with_jitter(4, 0, 15, &p, 5, 5, 1), Color::Cyan);
}

#[test]
fn unlit_cell_is_background_up_to_zero() {
    let p = Palettes::new();
    assert_eq!(color_with_jitter(0, 0, 0, &p, 5, 5, 1), Color::Black);
    assert_eq!(color_with_jitter(0, 0, -3, &p, 5, 5, 1), Color::Black);
}

#[test]
fn unlit_cell_takes_last_incoming_after_zero() {
    let p = Palettes::new();
    assert_eq!(color_with_jitter(0, 0, 3, &p, 5, 5, 1), Color::Green);
}

#[test]
fn farthest_band_wins() {
    let p = Palettes::new();
    // distance 28 passes every threshold: band 6
    assert_eq!(color_with_jitter(4, 0, -30, &p, 5, 5, 1), Color::Green);
    assert_eq!(color_with_jitter(4, 0, 30, &p, 5, 5, 1), Color::Black);
}

#[test]
fn band_edges() {
    let p = Palettes::new();
    // distance 3 lights band 0 only, distance 4 lights band 1
    assert_eq!(color_with_jitter(4, 0, -5, &p, 5, 5, 1), Color::Grey);
    assert_eq!(color_with_jitter(4, 0, -6, &p, 5, 5, 1), Color::Red);
    // distance 0 lights nothing
    assert_eq!(color_with_jitter(4, 0, -2, &p, 5, 5, 1), Color::Black);
}

#[test]
fn row_and_jitter_push_the_bands_back() {
    let p = Palettes::new();
    // distance 13 - 3 - 14 = -4 with row 3 and jitter 15
    assert_eq!(color_with_jitter(4, 3, -15, &p, 5, 5, 15), Color::Black);
    // the wider side sets the front: width 9, front 4 - 9 + 15 = 10, distance 9: band 2
    assert_eq!(color_with_jitter(4, 0, -15, &p, 5, 9, 1), Color::Yellow);
}

#[test]
fn random_color_stays_in_palettes() {
    let p = Palettes::new();
    let mut allowed: Vec<Color> = p.incoming.clone();
    allowed.extend(p.outgoing.iter().copied());
    allowed.push(Color::Black);
    for t in [-15i32, -12, -9, -6, -3, 0, 3, 6, 9, 12, 15] {
        for y in 0..5usize {
            for x in 0..5usize {
                let c = get_color(x, y, t, &p, 5, 5);
                assert!(allowed.contains(&c));
            }
        }
    }
}

#[test]
fn random_jitter_matches_some_fixed_jitter() {
    let p = Palettes::new();
    for _ in 0..50 {
        let c = get_color(4, 0, -15, &p, 5, 5);
        assert!((1..=15u32).any(|off| color_with_jitter(4, 0, -15, &p, 5, 5, off) == c));
    }
}

#[test]
fn random_jitter_varies() {
    let p = Palettes::new();
    // jitter 1 gives band 4 here, jitter 15 no band at all
    let mut seen: Vec<Color> = Vec::new();
    for _ in 0..300 {
        let c = get_color(4, 0, -15, &p, 5, 5);
        if !seen.contains(&c) {
            seen.push(c);
        }
    }
    assert!(seen.len() > 1);
}

#[test]
fn rotate_moves_one_entry_to_the_end() {
    let mut p = Palettes::new();
    p.rotate(2);
    assert_eq!(
        p.incoming,
        vec![
            Color::Grey,
            Color::Red,
            Color::Blue,
            Color::Magenta,
            Color::Cyan,
            Color::Green,
            Color::Yellow
        ]
    );
    assert_eq!(p.outgoing, Palettes::new().outgoing);
}

#[test]
fn random_rotation_is_one_of_three() {
    let start = Palettes::new();
    let mut options: Vec<Vec<Color>> = Vec::new();
    for idx in 1..=3usize {
        let mut q = Palettes::new();
        q.rotate(idx);
        options.push(q.incoming);
    }
    let mut seen: Vec<Vec<Color>> = Vec::new();
    for _ in 0..200 {
        let mut p = Palettes::new();
        p.rotate_random();
        assert!(options.contains(&p.incoming));
        assert_eq!(p.incoming[0], start.incoming[0]);
        assert_eq!(p.incoming.len(), 7);
        let mut a = p.incoming.clone();
        let mut b = start.incoming.clone();
        a.sort_by_key(|c| format!("{:?}", c));
        b.sort_by_key(|c| format!("{:?}", c));
        assert_eq!(a, b);
        if !seen.contains(&p.incoming) {
            seen.push(p.incoming);
        }
    }
    assert!(seen.len() > 1);
}

#[test]
fn paint_frame_covers_each_character() {
    let img = ascii_sweep::image::Image::new(vec![chars("AB"), chars("CDE"), chars("")]);
    let p = Palettes::new();
    let frame = img.paint_frame(-9, &p);
    assert_eq!(frame.len(), 3);
    assert_eq!(frame[0].len(), 2);
    assert_eq!(frame[1].len(), 3);
    assert_eq!(frame[2].len(), 0);
}

use piet::Hue::{Blue, Cyan, Green, Magenta, Red, Yellow};
use piet::Lightness::{Dark, Light, Normal};
use piet::{Color, Hue, Lightness};

#[test]
fn test_hue_shift() {
    assert_eq!(Hue::shift(Red, Red), 0);
    assert_eq!(Hue::shift(Red, Yellow), 1);
    assert_eq!(Hue::shift(Red, Magenta), 5);
    assert_eq!(Hue::shift(Magenta, Red), 1);
    assert_eq!(Hue::shift(Magenta, Blue), 5);
}

#[test]
fn test_lightness_shift() {
    assert_eq!(Lightness::shift(Light, Light), 0);
    assert_eq!(Lightness::shift(Light, Normal), 1);
    assert_eq!(Lightness::shift(Normal, Dark), 1);
    assert_eq!(Lightness::shift(Light, Dark), 2);
    assert_eq!(Lightness::shift(Dark, Light), 1);
    assert_eq!(Lightness::shift(Dark, Normal), 2);
}

#[test]
fn test_color_from_rgb() {
    let color = Color::from_rgb(0x00, 0x00, 0x00);
    assert_eq!(color, Color::Black);

    let color = Color::from_rgb(0xff, 0xff, 0xff);
    assert_eq!(color, Color::White);

    let color = Color::from_rgb(0x12, 0x34, 0x56);
    assert_eq!(color, Color::White);

    let color = Color::from_rgb(0x00, 0xff, 0x00);
    assert_eq!(color, Color::Composite(Green, Normal));
}

#[test]
fn test_color_transition() {
    let a = Color::Composite(Red, Normal);
    let b = Color::Composite(Red, Normal);
    assert_eq!(Color::transition(a, b), Some((0, 0)));

    let a = Color::Composite(Red, Dark);
    let b = Color::Composite(Yellow, Normal);
    assert_eq!(Color::transition(a, b), Some((1, 2)));

    let a = Color::Black;
    let b = Color::Composite(Red, Normal);
    assert_eq!(Color::transition(a, b), None);

    let a = Color::Composite(Red, Normal);
    let b = Color::Black;
    assert_eq!(Color::transition(a, b), None);
}

const HUES: [Hue; 6] = [
    Hue::Red,
    Hue::Yellow,
    Hue::Green,
    Hue::Cyan,
    Hue::Blue,
    Hue::Magenta,
];

const LEVELS: [Lightness; 3] = [Lightness::Light, Lightness::Normal, Lightness::Dark];

#[test]
fn hue_shifts_there_and_back_make_whole_turns() {
    for (i, a) in HUES.iter().enumerate() {
        for (j, b) in HUES.iter().enumerate() {
            let there = Hue::shift(*a, *b);
            let back = Hue::shift(*b, *a);
            assert!(there < 6);
            assert_eq!((there + back) % 6, 0);
            assert_eq!(there as usize, (j + 6 - i) % 6);
        }
    }
}

#[test]
fn lightness_shifts_there_and_back_make_whole_turns() {
    for (i, a) in LEVELS.iter().enumerate() {
        for (j, b) in LEVELS.iter().enumerate() {
            let there = Lightness::shift(*a, *b);
            let back = Lightness::shift(*b, *a);
            assert!(there < 3);
            assert_eq!((there + back) % 3, 0);
            assert_eq!(there as usize, (j + 3 - i) % 3);
        }
    }
}

#[test]
fn black_and_white_have_no_transition() {
    let mut colors = vec![Color::Black, Color::White];
    for h in HUES.iter() {
        for l in LEVELS.iter() {
            colors.push(Color::Composite(*h, *l));
        }
    }
    assert_eq!(colors.len(), 20);
    for c in colors.iter() {
        assert_eq!(Color::transition(Color::Black, *c), None);
        assert_eq!(Color::transition(*c, Color::Black), None);
        assert_eq!(Color::transition(Color::White, *c), None);
        assert_eq!(Color::transition(*c, Color::White), None);
    }
}

#[test]
fn transition_pairs_hue_and_lightness_shift() {
    let a = Color::Composite(Hue::Blue, Lightness::Light);
    let b = Color::Composite(Hue::Green, Lightness::Dark);
    assert_eq!(Color::transition(a, b), Some((4, 2)));
}

#[test]
fn palette_holds_eighteen_composite_colors() {
    let palette = [
        ((0xff, 0xc0, 0xc0), Red, Light),
        ((0xff, 0xff, 0xc0), Yellow, Light),
        ((0xc0, 0xff, 0xc0), Green, Light),
        ((0xc0, 0xff, 0xff), Cyan, Light),
        ((0xc0, 0xc0, 0xff), Blue, Light),
        ((0xff, 0xc0, 0xff), Magenta, Light),
        ((0xff, 0x00, 0x00), Red, Normal),
        ((0xff, 0xff, 0x00), Yellow, Normal),
        ((0x00, 0xff, 0x00), Green, Normal),
        ((0x00, 0xff, 0xff), Cyan, Normal),
        ((0x00, 0x00, 0xff), Blue, Normal),
        ((0xff, 0x00, 0xff), Magenta, Normal),
        ((0xc0, 0x00, 0x00), Red, Dark),
        ((0xc0, 0xc0, 0x00), Yellow, Dark),
        ((0x00, 0xc0, 0x00), Green, Dark),
        ((0x00, 0xc0, 0xc0), Cyan, Dark),
        ((0x00, 0x00, 0xc0), Blue, Dark),
        ((0xc0, 0x00, 0xc0), Magenta, Dark),
    ];
    for ((r, g, b), hue, lightness) in palette.iter() {
        assert_eq!(Color::from_rgb(*r, *g, *b), Color::Composite(*hue, *lightness));
    }
    assert_eq!(Color::from_rgb(0xc0, 0xc0, 0xc0), Color::White);
    assert_eq!(Color::from_rgb(0x00, 0x00, 0x01), Color::White);
}

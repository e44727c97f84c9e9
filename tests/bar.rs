use cmdstat::{bar_width, get_bar};

#[test]
fn empty_bar_is_one_narrow_glyph() {
    assert_eq!(get_bar(0, 50), "▏");
}

#[test]
fn full_bar_has_width_plus_one_glyphs() {
    let bar = get_bar(100, 50);
    assert_eq!(bar.chars().count(), 51);
    assert_eq!(bar, format!("{}▏", "█".repeat(50)));
}

#[test]
fn half_cell_rounds_to_four_eighths() {
    assert_eq!(get_bar(1, 50), "▌");
}

#[test]
fn remainder_rounding_to_a_whole_cell_becomes_a_full_block() {
    // 97% of 2 cells is 1.94 cells: 0.94 rounds to 8/8.
    assert_eq!(get_bar(97, 2), "██");
    assert_eq!(get_bar(97, 2).chars().count(), 2);
}

#[test]
fn bar_length_never_shrinks() {
    let mut last = 0;
    for p in 0..=100 {
        let n = get_bar(p, 50).chars().count();
        assert!(n >= last);
        last = n;
    }
}

#[test]
fn bar_width_is_seventy_percent() {
    assert_eq!(bar_width(100), 70);
    assert_eq!(bar_width(80), 56);
    assert_eq!(bar_width(9), 6);
    assert_eq!(bar_width(0), 0);
}

#[test]
fn quarter_cell_is_two_eighths() {
    assert_eq!(get_bar(25, 1), "▎");
    assert_eq!(get_bar(50, 3), "█▌");
}

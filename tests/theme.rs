use timetable::theme::{load_theme, Theme};

const FALLBACK: [&str; 15] = [
    "#9ccfd8", "#c4a7e7", "#ebbcba", "#f6c177", "#ea9d34", "#d7827e", "#907aa9", "#b4637a",
    "#88a096", "#9bb1d6", "#c2d1b2", "#e8d1c5", "#d4b5d8", "#adcbe3", "#e1e1e1",
];

fn palette_of(t: &Theme) -> Vec<&str> {
    t.palette.iter().map(|s| s.as_str()).collect()
}

#[test]
fn one_colour_keeps_fallback_palette() {
    let t = load_theme("background #000000\nfont_size 16\ncolor0 #ff0000\n");
    assert_eq!(t.background, "#000000");
    assert_eq!(t.font_size.as_deref(), Some("16"));
    let size: f32 = t.font_size.as_deref().unwrap().parse().unwrap();
    assert_eq!(size, 16.0);
    assert_eq!(palette_of(&t), FALLBACK.to_vec());
    assert_eq!(t.foreground, "#e0def4");
    assert_eq!(t.font_family, "Monospace");
    assert_eq!(t.selection_background, "#403d52");
}

#[test]
fn empty_content_gives_defaults() {
    let t = load_theme("");
    assert_eq!(t.background, "#191724");
    assert_eq!(t.foreground, "#e0def4");
    assert_eq!(t.font_family, "Monospace");
    assert_eq!(t.font_size, None);
    assert_eq!(t.selection_background, "#403d52");
    assert_eq!(palette_of(&t), FALLBACK.to_vec());
    assert_eq!(t.palette.len(), 15);
}

#[test]
fn ten_colours_in_number_order_with_gaps_skipped() {
    let mut text = String::new();
    for i in [11, 0, 1, 2, 4, 5, 6, 7, 8, 9, 10] {
        text.push_str(&format!("color{} #c{:02}\n", i, i));
    }
    let t = load_theme(&text);
    let expected: Vec<String> =
        [0, 1, 2, 4, 5, 6, 7, 8, 9, 10, 11].iter().map(|i| format!("#c{:02}", i)).collect();
    assert_eq!(t.palette, expected);
}

#[test]
fn nine_colours_fall_back() {
    let mut text = String::new();
    for i in 0..9 {
        text.push_str(&format!("color{} #{}\n", i, i));
    }
    let t = load_theme(&text);
    assert_eq!(palette_of(&t), FALLBACK.to_vec());
}

#[test]
fn sixteen_colours_and_odd_keys() {
    let mut text = String::from("color16 #bad\ncolor05 #bad\ncolorx #bad\n");
    for i in 0..16 {
        text.push_str(&format!("color{} #{:x}\n", i, i));
    }
    let t = load_theme(&text);
    let expected: Vec<String> = (0..16).map(|i| format!("#{:x}", i)).collect();
    assert_eq!(t.palette, expected);
}

#[test]
fn last_setting_wins() {
    let t = load_theme("background #111111\nforeground #222222\nbackground #333333\n");
    assert_eq!(t.background, "#333333");
    assert_eq!(t.foreground, "#222222");
}

#[test]
fn font_family_joins_remaining_words() {
    let t = load_theme("font_family   Fira\tCode   Mono  \n");
    assert_eq!(t.font_family, "Fira Code Mono");
}

#[test]
fn only_second_word_taken_for_plain_keys() {
    let t = load_theme("selection_background #abcdef extra words");
    assert_eq!(t.selection_background, "#abcdef");
}

#[test]
fn short_and_unknown_lines_ignored() {
    let t = load_theme("background\nunknown #123456\n\n   \nforeground #fedcba");
    assert_eq!(t.background, "#191724");
    assert_eq!(t.foreground, "#fedcba");
}

#[test]
fn carriage_returns_and_unicode_spaces_separate_words() {
    let t = load_theme("background #010101\r\nforeground\u{3000}#020202\u{a0}x\r\n");
    assert_eq!(t.background, "#010101");
    assert_eq!(t.foreground, "#020202");
}

#[test]
fn font_size_text_kept_even_when_not_a_number() {
    let t = load_theme("font_size 12.5\nfont_size big\n");
    assert_eq!(t.font_size.as_deref(), Some("big"));
    assert!(t.font_size.as_deref().unwrap().parse::<f32>().is_err());
}

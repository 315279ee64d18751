use qdither::color::Color;
use qdither::palette::find_nearest_color;
use qdither::palette::find_nearest_index;
use qdither::palette::parse_colors;
use qdither::palette::parse_palette;

fn bw() -> Vec<Color> {
    vec![Color { r: 0, g: 0, b: 0 }, Color { r: 255, g: 255, b: 255 }]
}

#[test]
fn nearest_returns_palette_member() {
    let pal = bw();
    let out = find_nearest_color(Color { r: 10, g: 10, b: 10 }, &pal);
    assert!(pal.contains(&out));
    assert_eq!(out, Color { r: 0, g: 0, b: 0 });
}

#[test]
fn nearest_of_palette_member_is_itself() {
    let pal = vec![
        Color { r: 3, g: 3, b: 3 },
        Color { r: 90, g: 14, b: 200 },
        Color { r: 255, g: 255, b: 255 },
    ];
    for &c in &pal {
        assert_eq!(find_nearest_color(c, &pal), c);
    }
}

#[test]
fn nearest_tie_keeps_first_index() {
    // both entries are 10 red units away from the probe
    let pal = vec![Color { r: 90, g: 0, b: 0 }, Color { r: 110, g: 0, b: 0 }];
    assert_eq!(find_nearest_index(Color { r: 100, g: 0, b: 0 }, &pal), 0);
    assert_eq!(find_nearest_color(Color { r: 100, g: 0, b: 0 }, &pal), pal[0]);
}

#[test]
fn parse_two_valid_lines() {
    let text: Vec<u8> = b"FF00AA\n00FF00\n".to_vec();
    let pal = parse_palette(&text);
    assert_eq!(pal, vec![Color { r: 255, g: 0, b: 170 }, Color { r: 0, g: 255, b: 0 }]);
}

#[test]
fn parse_all_invalid_falls_back_to_default() {
    let text: Vec<u8> = b"zz\nFF00A\n".to_vec();
    let pal = parse_palette(&text);
    assert_eq!(pal, vec![Color { r: 3, g: 3, b: 3 }, Color { r: 255, g: 255, b: 255 }]);
}

#[test]
fn parse_empty_text_falls_back_to_default() {
    let text: Vec<u8> = Vec::new();
    let pal = parse_palette(&text);
    assert_eq!(pal, vec![Color { r: 3, g: 3, b: 3 }, Color { r: 255, g: 255, b: 255 }]);
}

#[test]
fn parse_tolerates_crlf_line_endings() {
    let text: Vec<u8> = b"FF00AA\r\n00FF00\r\n".to_vec();
    let pal = parse_palette(&text);
    assert_eq!(pal, vec![Color { r: 255, g: 0, b: 170 }, Color { r: 0, g: 255, b: 0 }]);
}

#[test]
fn parse_lowercase_hex_and_final_line_without_newline() {
    let text: Vec<u8> = b"ff00aa\n00ff00".to_vec();
    let pal = parse_palette(&text);
    assert_eq!(pal, vec![Color { r: 255, g: 0, b: 170 }, Color { r: 0, g: 255, b: 0 }]);
}

#[test]
fn parse_colors_reports_raw_parse_without_fallback() {
    let invalid: Vec<u8> = b"zz\n".to_vec();
    assert!(parse_colors(&invalid).is_empty());
    let valid: Vec<u8> = b"010203\n".to_vec();
    assert_eq!(parse_colors(&valid), vec![Color { r: 1, g: 2, b: 3 }]);
}

#[test]
fn parse_skips_six_char_line_with_non_hex() {
    let text: Vec<u8> = b"FF00ZZ\n010203\n".to_vec();
    let pal = parse_palette(&text);
    assert_eq!(pal, vec![Color { r: 1, g: 2, b: 3 }]);
}

use qdither::color::Color;
use qdither::color::color_distance_sq;

#[test]
fn saturating_add_clamps_high() {
    let a = Color { r: 200, g: 10, b: 255 };
    let b = Color { r: 100, g: 0, b: 1 };
    let out = a.saturating_add(b);
    assert_eq!(out, Color { r: 255, g: 10, b: 255 });
}

#[test]
fn saturating_sub_clamps_low() {
    let a = Color { r: 10, g: 5, b: 0 };
    let b = Color { r: 20, g: 5, b: 3 };
    let out = a.saturating_sub(b);
    assert_eq!(out, Color { r: 0, g: 0, b: 0 });
}

#[test]
fn saturating_ops_stay_in_byte_range() {
    let samples: Vec<u8> = vec![0, 1, 3, 127, 128, 254, 255];
    for &x in &samples {
        for &y in &samples {
            let a = Color { r: x, g: x, b: x };
            let b = Color { r: y, g: y, b: y };
            let s = a.saturating_add(b);
            let d = a.saturating_sub(b);
            // u8 already bounds the channels; check the clamp values are right
            assert_eq!(s.r as u16, (x as u16 + y as u16).min(255));
            assert_eq!(d.r as i16, (x as i16 - y as i16).max(0));
        }
    }
}

#[test]
fn distance_to_self_is_zero() {
    let a = Color { r: 17, g: 230, b: 99 };
    assert_eq!(color_distance_sq(a, a), 0);
}

#[test]
fn distance_is_symmetric() {
    let a = Color { r: 1, g: 2, b: 3 };
    let b = Color { r: 200, g: 100, b: 50 };
    assert_eq!(color_distance_sq(a, b), color_distance_sq(b, a));
}

#[test]
fn distance_weights_channels() {
    let black = Color { r: 0, g: 0, b: 0 };
    // 900 * 255^2, 3481 * 255^2 and 121 * 255^2 for the pure channels
    assert_eq!(color_distance_sq(Color { r: 255, g: 0, b: 0 }, black), 58_522_500);
    assert_eq!(color_distance_sq(Color { r: 0, g: 255, b: 0 }, black), 226_352_025);
    assert_eq!(color_distance_sq(Color { r: 0, g: 0, b: 255 }, black), 7_868_025);
}

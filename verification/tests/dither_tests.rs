use qdither::color::Color;
use qdither::dither::dither_image;
use qdither::dither::dither_step_at;

fn bw() -> Vec<Color> {
    vec![Color { r: 0, g: 0, b: 0 }, Color { r: 255, g: 255, b: 255 }]
}

#[test]
fn single_pixel_snaps_with_no_diffusion() {
    let mut buf = vec![Color { r: 10, g: 10, b: 10 }];
    dither_image(&mut buf, 1, 1, &bw());
    assert_eq!(buf, vec![Color { r: 0, g: 0, b: 0 }]);
}

#[test]
fn two_by_one_keeps_error_inside_the_row() {
    // pixel 0 snaps to black with error 10 per channel; only the right
    // neighbor receives error, round(10 * 7/16) = 4, saturating at 255
    let mut buf = vec![Color { r: 10, g: 10, b: 10 }, Color { r: 252, g: 252, b: 252 }];
    dither_image(&mut buf, 2, 1, &bw());
    assert_eq!(buf, vec![Color { r: 0, g: 0, b: 0 }, Color { r: 255, g: 255, b: 255 }]);
}

#[test]
fn one_step_diffuses_right_only_on_a_single_row() {
    let pal = bw();
    let mut buf = vec![Color { r: 10, g: 10, b: 10 }, Color { r: 100, g: 100, b: 100 }];
    dither_step_at(&mut buf, 2, 1, &pal, 0);
    assert_eq!(buf[0], Color { r: 0, g: 0, b: 0 });
    // round(10 * 7/16) = 4 added to the right neighbor; nothing else moves
    assert_eq!(buf[1], Color { r: 104, g: 104, b: 104 });
}

#[test]
fn quantized_image_is_reproduced_unchanged() {
    let pal = bw();
    let orig = vec![
        Color { r: 0, g: 0, b: 0 },
        Color { r: 255, g: 255, b: 255 },
        Color { r: 255, g: 255, b: 255 },
        Color { r: 0, g: 0, b: 0 },
    ];
    let mut buf = orig.clone();
    dither_image(&mut buf, 2, 2, &pal);
    assert_eq!(buf, orig);
}

#[test]
fn output_has_same_length_and_only_palette_members() {
    let pal = vec![
        Color { r: 0, g: 0, b: 0 },
        Color { r: 128, g: 128, b: 128 },
        Color { r: 255, g: 255, b: 255 },
    ];
    let mut buf = vec![
        Color { r: 13, g: 37, b: 200 },
        Color { r: 240, g: 3, b: 77 },
        Color { r: 90, g: 90, b: 90 },
        Color { r: 200, g: 200, b: 200 },
        Color { r: 61, g: 170, b: 14 },
        Color { r: 7, g: 7, b: 7 },
    ];
    dither_image(&mut buf, 3, 2, &pal);
    assert_eq!(buf.len(), 6);
    for p in &buf {
        assert!(pal.contains(p));
    }
}

#[test]
fn single_column_diffuses_only_downward() {
    let pal = bw();
    let mut buf = vec![
        Color { r: 10, g: 10, b: 10 },
        Color { r: 10, g: 10, b: 10 },
        Color { r: 200, g: 200, b: 200 },
    ];
    // width 1: every pixel is both left and right edge, so only the
    // below weight 5/16 ever fires; round(10*5/16) = 3, round(13*5/16) = 4
    dither_image(&mut buf, 1, 3, &pal);
    assert_eq!(
        buf,
        vec![
            Color { r: 0, g: 0, b: 0 },
            Color { r: 0, g: 0, b: 0 },
            Color { r: 255, g: 255, b: 255 },
        ]
    );
}

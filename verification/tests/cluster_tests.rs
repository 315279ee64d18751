use qdither::cluster::derive_palette;
use qdither::color::Color;

#[test]
fn single_cluster_converges_to_ceiling_mean() {
    let pixels = vec![Color { r: 0, g: 0, b: 0 }, Color { r: 10, g: 20, b: 30 }];
    let pal = derive_palette(&pixels, 1);
    // channel-wise ceiling mean: ceil(10/2), ceil(20/2), ceil(30/2)
    assert_eq!(pal, vec![Color { r: 5, g: 10, b: 15 }]);
}

#[test]
fn single_cluster_mean_rounds_up() {
    let pixels = vec![Color { r: 1, g: 1, b: 1 }, Color { r: 2, g: 2, b: 2 }];
    let pal = derive_palette(&pixels, 1);
    assert_eq!(pal, vec![Color { r: 2, g: 2, b: 2 }]);
}

#[test]
fn palette_has_requested_color_count() {
    let pixels = vec![
        Color { r: 0, g: 0, b: 0 },
        Color { r: 50, g: 60, b: 70 },
        Color { r: 200, g: 210, b: 220 },
    ];
    let pal = derive_palette(&pixels, 5);
    assert_eq!(pal.len(), 5);
}

#[test]
fn empty_cluster_is_seeded_white() {
    // a uniform image assigns every pixel to the first cluster (earliest
    // index wins ties), so the second cluster stays empty and becomes white
    let pixels = vec![Color { r: 7, g: 7, b: 7 }; 4];
    let pal = derive_palette(&pixels, 2);
    assert_eq!(pal, vec![Color { r: 7, g: 7, b: 7 }, Color { r: 255, g: 255, b: 255 }]);
}

#[test]
fn single_pixel_image_single_cluster() {
    let pixels = vec![Color { r: 123, g: 45, b: 67 }];
    let pal = derive_palette(&pixels, 1);
    assert_eq!(pal, vec![Color { r: 123, g: 45, b: 67 }]);
}

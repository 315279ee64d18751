use qdither::color::Color;
use qdither::pipeline::colors_from_raw;
use qdither::pipeline::raw_from_colors;
use qdither::pipeline::raw_rgba_from_colors;
use qdither::pipeline::run_pipeline;
use qdither::pipeline::select_palette;
use qdither::pipeline::Snapshot;
use qdither::pipeline::Status;

#[test]
fn select_palette_prefers_palette_text() {
    let pixels = vec![Color { r: 40, g: 40, b: 40 }];
    let text: Vec<u8> = b"FF00AA\n".to_vec();
    let pal = select_palette(Some(&text), &pixels, 8);
    assert_eq!(pal, vec![Color { r: 255, g: 0, b: 170 }]);
}

#[test]
fn select_palette_clusters_without_text() {
    let pixels = vec![Color { r: 10, g: 10, b: 10 }, Color { r: 20, g: 20, b: 20 }];
    let pal = select_palette(None, &pixels, 1);
    assert_eq!(pal, vec![Color { r: 15, g: 15, b: 15 }]);
}

#[test]
fn pipeline_dithers_against_supplied_palette() {
    let text: Vec<u8> = b"000000\nFFFFFF\n".to_vec();
    let mut buf = vec![
        Color { r: 10, g: 10, b: 10 },
        Color { r: 250, g: 250, b: 250 },
        Color { r: 100, g: 100, b: 100 },
        Color { r: 180, g: 180, b: 180 },
    ];
    let pal = run_pipeline(&mut buf, 2, 2, Some(&text), 4);
    assert_eq!(pal, vec![Color { r: 0, g: 0, b: 0 }, Color { r: 255, g: 255, b: 255 }]);
    assert_eq!(buf.len(), 4);
    for p in &buf {
        assert!(pal.contains(p));
    }
}

#[test]
fn pipeline_falls_back_to_default_on_invalid_text() {
    let text: Vec<u8> = b"nonsense\n".to_vec();
    let mut buf = vec![Color { r: 0, g: 0, b: 0 }];
    let pal = run_pipeline(&mut buf, 1, 1, Some(&text), 4);
    assert_eq!(pal, vec![Color { r: 3, g: 3, b: 3 }, Color { r: 255, g: 255, b: 255 }]);
    assert_eq!(buf, vec![Color { r: 3, g: 3, b: 3 }]);
}

#[test]
fn raw_round_trip() {
    let raw: Vec<u8> = vec![1, 2, 3, 4, 5, 6];
    let pixels = colors_from_raw(&raw);
    assert_eq!(pixels, vec![Color { r: 1, g: 2, b: 3 }, Color { r: 4, g: 5, b: 6 }]);
    assert_eq!(raw_from_colors(&pixels), raw);
}

#[test]
fn rgba_adds_opaque_alpha() {
    let pixels = vec![Color { r: 9, g: 8, b: 7 }];
    assert_eq!(raw_rgba_from_colors(&pixels), vec![9, 8, 7, 255]);
}

#[test]
fn waiting_snapshot_starts_the_state_machine() {
    let snap = Snapshot::waiting();
    assert_eq!(snap.status, Status::Waiting);
    assert_eq!(snap.width, 1);
    assert_eq!(snap.height, 1);
    assert_eq!(snap.pixels.len(), 1);
}

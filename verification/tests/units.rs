use bintje::{
    cpu_rasterize, mul_alpha, over, push_row_tiles, sort_tiles, Command, PremulRgba8, Sample,
    Scene, SparseFill, Tile, WideTile,
};

/// Exact integer channel scaling: `(c * alpha) / 255` per channel.
#[test]
fn mul_alpha_exact() {
    let c = PremulRgba8 { r: 200, g: 100, b: 50, a: 200 };
    let m = mul_alpha(c, 128);
    assert_eq!((m.r, m.g, m.b, m.a), (100, 50, 25, 100));
    let full = mul_alpha(c, 255);
    assert_eq!((full.r, full.g, full.b, full.a), (200, 100, 50, 200));
    let zero = mul_alpha(c, 0);
    assert_eq!((zero.r, zero.g, zero.b, zero.a), (0, 0, 0, 0));
}

/// Exact integer source-over compositing:
/// `(above * 255 + under * (255 - above.a)) / 255` per channel.
#[test]
fn over_exact() {
    let under = PremulRgba8 { r: 0, g: 0, b: 255, a: 255 };
    let above = PremulRgba8 { r: 128, g: 0, b: 0, a: 128 };
    let blended = over(under, above);
    assert_eq!((blended.r, blended.g, blended.b, blended.a), (128, 0, 127, 255));

    // Opaque above replaces under entirely.
    let opaque = PremulRgba8 { r: 1, g: 2, b: 3, a: 255 };
    let replaced = over(under, opaque);
    assert_eq!((replaced.r, replaced.g, replaced.b, replaced.a), (1, 2, 3, 255));

    // Transparent above leaves under unchanged.
    let transparent = PremulRgba8 { r: 0, g: 0, b: 0, a: 0 };
    let kept = over(under, transparent);
    assert_eq!((kept.r, kept.g, kept.b, kept.a), (0, 0, 255, 255));
}

/// Sorting a tile row orders it by column and keeps every tile.
#[test]
fn sort_tiles_orders_by_column() {
    let mut tiles = vec![
        Tile { x: 9, line_idx: 0 },
        Tile { x: 2, line_idx: 1 },
        Tile { x: 9, line_idx: 2 },
        Tile { x: 0, line_idx: 3 },
        Tile { x: 5, line_idx: 4 },
    ];
    sort_tiles(&mut tiles);
    assert_eq!(tiles.len(), 5);
    for w in tiles.windows(2) {
        assert!(w[0].x <= w[1].x);
    }
    let mut line_indices: Vec<u32> = tiles.iter().map(|t| t.line_idx).collect();
    line_indices.sort_unstable();
    assert_eq!(line_indices, vec![0, 1, 2, 3, 4]);
    assert_eq!(tiles[0].x, 0);
    assert_eq!(tiles[4].x, 9);
}

/// Tile comparison looks at the column alone.
#[test]
fn tile_compares_by_column() {
    let a = Tile { x: 3, line_idx: 0 };
    let b = Tile { x: 3, line_idx: 7 };
    let c = Tile { x: 4, line_idx: 0 };
    assert!(a == b);
    assert!(a < c);
    assert!(c > b);
}

/// The tiler's emission helper appends one tile per column of the range.
#[test]
fn push_row_tiles_appends_range() {
    let mut tiles = vec![Tile { x: 7, line_idx: 9 }];
    push_row_tiles(&mut tiles, 3, 6, 42);
    assert_eq!(tiles.len(), 4);
    assert_eq!((tiles[1].x, tiles[1].line_idx), (3, 42));
    assert_eq!((tiles[2].x, tiles[2].line_idx), (4, 42));
    assert_eq!((tiles[3].x, tiles[3].line_idx), (5, 42));
    // An empty range appends nothing.
    push_row_tiles(&mut tiles, 6, 6, 1);
    assert_eq!(tiles.len(), 4);
}

/// The strip builder produces strips in non-decreasing `(y, x)` order with
/// disjoint intervals, and successive `alpha_idx` differ by exactly the
/// predecessor's `width * 16`.
#[test]
fn strip_ordering_and_alpha_contiguity() {
    let mut scene = Scene::new(256, 16);
    scene.begin_path();
    // Row 0: strips at tiles [1, 3) and [7, 8).
    scene.begin_row(0, 1, [0; 4]);
    scene.push_column(&[10u8; 16]);
    scene.push_column(&[20u8; 16]);
    scene.break_strip(7, [30; 4]);
    scene.push_column(&[40u8; 16]);
    scene.end_row();
    // Row 2: one strip at tiles [0, 2).
    scene.begin_row(2, 0, [0; 4]);
    scene.push_column(&[50u8; 16]);
    scene.push_column(&[60u8; 16]);
    scene.end_row();

    let strips = &scene.strips;
    assert_eq!(strips.len(), 3);
    assert_eq!((strips[0].x, strips[0].y, strips[0].width), (1, 0, 2));
    assert_eq!((strips[1].x, strips[1].y, strips[1].width), (7, 0, 1));
    assert_eq!((strips[2].x, strips[2].y, strips[2].width), (0, 2, 2));
    // Ordering: non-decreasing (y, x), same-row intervals disjoint with a gap.
    for w in strips.windows(2) {
        assert!(w[0].y < w[1].y || (w[0].y == w[1].y && w[0].x + w[0].width < w[1].x));
    }
    // Alpha contiguity.
    for w in strips.windows(2) {
        assert_eq!(w[1].alpha_idx, w[0].alpha_idx + w[0].width as u32 * 16);
    }
    // The pool holds exactly the pushed bytes, strip by strip.
    assert_eq!(scene.alpha_masks.len(), 5 * 16);
    assert!(scene.alpha_masks[0..16].iter().all(|&b| b == 10));
    assert!(scene.alpha_masks[16..32].iter().all(|&b| b == 20));
    assert!(scene.alpha_masks[32..48].iter().all(|&b| b == 40));
    assert!(scene.alpha_masks[48..64].iter().all(|&b| b == 50));
    // Every byte is a u8, hence within [0, 255].
    assert!(scene.alpha_masks.iter().all(|&b| b <= 255));
}

/// A strip whose mask window is entirely zero emits no command; a gap with
/// zero pre-strip coverage emits no sparse fill.
#[test]
fn zero_windows_emit_nothing() {
    let mut scene = Scene::new(64, 8);
    scene.begin_path();
    scene.begin_row(0, 3, [0; 4]);
    scene.push_column(&[0u8; 16]);
    scene.end_row();
    scene.widen(PremulRgba8 { r: 255, g: 0, b: 0, a: 255 });
    assert!(scene.wide_tiles.iter().all(|wt| wt.commands.is_empty()));
}

/// The widener splits a strip crossing a wide tile boundary and advances
/// the sample's alpha index by 16 bytes per tile of the first span.
#[test]
fn widen_splits_across_wide_tiles() {
    let mut scene = Scene::new(256, 4);
    scene.begin_path();
    // A strip of tiles [30, 34): two tiles in wide tile 0, two in wide tile 1.
    scene.begin_row(0, 30, [0; 4]);
    scene.push_column(&[1u8; 16]);
    scene.push_column(&[2u8; 16]);
    scene.push_column(&[3u8; 16]);
    scene.push_column(&[4u8; 16]);
    scene.end_row();
    let color = PremulRgba8 { r: 0, g: 0, b: 0, a: 255 };
    scene.widen(color);

    assert_eq!(scene.wide_tiles.len(), 2);
    assert_eq!(scene.wide_tiles[0].commands.len(), 1);
    assert_eq!(scene.wide_tiles[1].commands.len(), 1);
    match &scene.wide_tiles[0].commands[0] {
        Command::Sample(s) => {
            assert_eq!((s.x, s.width, s.alpha_idx), (30, 2, 0));
        },
        other => panic!("expected a sample command, got {other:?}"),
    }
    match &scene.wide_tiles[1].commands[0] {
        Command::Sample(s) => {
            assert_eq!((s.x, s.width, s.alpha_idx), (0, 2, 32));
        },
        other => panic!("expected a sample command, got {other:?}"),
    }
}

/// The rasterizer executes a raw command list: an opaque sparse fill paints
/// exactly its tile span of the wide tile it sits in.
#[test]
fn rasterize_sparse_fill_span() {
    let color = PremulRgba8 { r: 10, g: 20, b: 30, a: 255 };
    // A 130x8 canvas has a 2x2 wide tile grid; the fill sits in the
    // top-left wide tile.
    let wide_tiles = vec![
        WideTile {
            commands: vec![Command::SparseFill(SparseFill { x: 2, width: 3, color })],
        },
        WideTile { commands: vec![] },
        WideTile { commands: vec![] },
        WideTile { commands: vec![] },
    ];
    let alphas: Vec<u8> = Vec::new();
    let mut img = vec![PremulRgba8 { r: 0, g: 0, b: 0, a: 0 }; 130 * 8];
    cpu_rasterize(130, 8, &mut img, &alphas, &wide_tiles);
    for y in 0..8usize {
        for x in 0..130usize {
            let p = img[y * 130 + x];
            if y < 4 && (8..20).contains(&x) {
                assert_eq!((p.r, p.g, p.b, p.a), (10, 20, 30, 255), "at {x},{y}");
            } else {
                assert_eq!((p.r, p.g, p.b, p.a), (0, 0, 0, 0), "at {x},{y}");
            }
        }
    }
}

/// A `Sample` command reads its mask column-major: byte `c * 4 + y` is
/// pixel column `c`, row `y` of the span.
#[test]
fn rasterize_sample_layout() {
    let color = PremulRgba8 { r: 255, g: 255, b: 255, a: 255 };
    let mut alphas = vec![0u8; 16];
    // Light up pixel column 1, row 2 of the single-tile span.
    alphas[1 * 4 + 2] = 255;
    let wide_tiles = vec![
        WideTile {
            commands: vec![
                Command::Sample(Sample { x: 0, width: 1, color, alpha_idx: 0 }),
            ],
        },
    ];
    let mut img = vec![PremulRgba8 { r: 0, g: 0, b: 0, a: 0 }; 8 * 4];
    cpu_rasterize(8, 4, &mut img, &alphas, &wide_tiles);
    for y in 0..4usize {
        for x in 0..8usize {
            let p = img[y * 8 + x];
            if x == 1 && y == 2 {
                assert_eq!(p.a, 255, "at {x},{y}");
            } else {
                assert_eq!(p.a, 0, "at {x},{y}");
            }
        }
    }
}

/// A path with no strips emits no commands, and sorting an empty tile row
/// is a no-op.
#[test]
fn empty_path_and_empty_row() {
    let mut scene = Scene::new(32, 8);
    scene.begin_path();
    scene.widen(PremulRgba8 { r: 255, g: 255, b: 255, a: 255 });
    assert!(scene.wide_tiles.iter().all(|wt| wt.commands.is_empty()));
    assert!(scene.strips.is_empty());
    assert!(scene.alpha_masks.is_empty());

    let mut tiles: Vec<Tile> = Vec::new();
    sort_tiles(&mut tiles);
    assert!(tiles.is_empty());
}

/// `size` reports the canvas dimensions the scene was created with.
#[test]
fn scene_size() {
    let scene = Scene::new(640, 480);
    assert_eq!(scene.size(), (640, 480));
    // ceil(640 / 128) * ceil(480 / 4) wide tiles.
    assert_eq!(scene.wide_tiles.len(), 5 * 120);

    // The widest possible canvas still gets a full grid.
    let widest = Scene::new(65535, 4);
    assert_eq!(widest.wide_tiles.len(), 512);
}

use bintje::{cpu_rasterize, PremulRgba8, Scene};

fn transparent() -> PremulRgba8 {
    PremulRgba8 { r: 0, g: 0, b: 0, a: 0 }
}

fn rasterize(scene: &Scene) -> Vec<PremulRgba8> {
    let (width, height) = scene.size();
    let mut img = vec![transparent(); width as usize * height as usize];
    let commands = scene.commands();
    cpu_rasterize(width, height, &mut img, commands.alpha_masks, commands.wide_tiles);
    img
}

/// An 8x8 canvas filled with an opaque red rectangle covering pixels
/// `x in [2, 6), y in [2, 6)`: exactly those 16 pixels are solid red, all
/// others stay transparent, with no fractional coverage anywhere.
#[test]
fn unit_square_opaque_red() {
    let red = PremulRgba8 { r: 255, g: 0, b: 0, a: 255 };
    let mut scene = Scene::new(8, 8);
    scene.begin_path();

    // Tile row 0 holds pixel rows 0..4; the rectangle covers rows 2 and 3.
    // Mask bytes are column-major: byte px * 4 + py within each tile column.
    let mut top = [0u8; 16];
    let mut bottom = [0u8; 16];
    for px in 0..4 {
        for py in 0..4 {
            if py >= 2 {
                top[px * 4 + py] = 255;
            }
            if py < 2 {
                bottom[px * 4 + py] = 255;
            }
        }
    }
    // Only pixel columns 2..6 are covered: tile column 0 covers canvas
    // columns 0..4 (mask columns 2 and 3), tile column 1 covers 4..8 (mask
    // columns 0 and 1).
    let mask = |full: &[u8; 16], lo: usize, hi: usize| {
        let mut m = [0u8; 16];
        for px in lo..hi {
            for py in 0..4 {
                m[px * 4 + py] = full[px * 4 + py];
            }
        }
        m
    };

    scene.begin_row(0, 0, [0; 4]);
    scene.push_column(&mask(&top, 2, 4));
    scene.push_column(&mask(&top, 0, 2));
    scene.end_row();
    scene.begin_row(1, 0, [0; 4]);
    scene.push_column(&mask(&bottom, 2, 4));
    scene.push_column(&mask(&bottom, 0, 2));
    scene.end_row();
    scene.widen(red);

    let img = rasterize(&scene);
    for y in 0..8usize {
        for x in 0..8usize {
            let p = img[y * 8 + x];
            if (2..6).contains(&x) && (2..6).contains(&y) {
                assert_eq!((p.r, p.g, p.b, p.a), (255, 0, 0, 255), "at {x},{y}");
            } else {
                assert_eq!((p.r, p.g, p.b, p.a), (0, 0, 0, 0), "at {x},{y}");
            }
        }
    }
}

/// A 4x4 canvas filled with an opaque white rectangle shifted half a pixel:
/// border pixels carry coverage 128, corners 64, the interior 255.
#[test]
fn half_pixel_shift() {
    let white = PremulRgba8 { r: 255, g: 255, b: 255, a: 255 };
    let mut scene = Scene::new(4, 4);
    scene.begin_path();

    // Coverage of pixel (px, py) for the rectangle (0.5, 0.5)-(3.5, 3.5):
    // a half in the border rows and columns, a quarter in the corners.
    let frac = |i: usize| if i == 0 || i == 3 { 128u32 } else { 255u32 };
    let mut column = [0u8; 16];
    for px in 0..4 {
        for py in 0..4 {
            // round(cov_x * cov_y * 255) with cov in units of 1/255.
            let v = (frac(px) * frac(py) + 127) / 255;
            column[px * 4 + py] = v as u8;
        }
    }
    assert_eq!(column[0], 64);

    scene.begin_row(0, 0, [0; 4]);
    scene.push_column(&column);
    scene.end_row();
    scene.widen(white);

    let img = rasterize(&scene);
    for y in 0..4usize {
        for x in 0..4usize {
            let p = img[y * 4 + x];
            let expect = ((frac(x) * frac(y) + 127) / 255) as u8;
            assert_eq!(p.a, expect, "at {x},{y}");
            assert_eq!(p.r, expect, "at {x},{y}");
        }
    }
}

/// A fill reaching the canvas from the left: the covered columns get their
/// color purely from the pre-strip coverage (sparse fills), the strip's own
/// masks being all zero, and nothing leaks right of the fill's edge.
#[test]
fn fill_from_left_edge() {
    let green = PremulRgba8 { r: 0, g: 255, b: 0, a: 255 };
    let mut scene = Scene::new(64, 64);
    scene.begin_path();

    // The rectangle covers pixels x in [0, 20), y in [10, 40). Its interior
    // reaches each tile row as carried-in coverage at the right-edge strip
    // (tile column 5); the strip's own mask is all zero.
    for ty in 2..10u16 {
        let row_top = ty as i32 * 4;
        let mut coverage = [0u8; 4];
        for py in 0..4 {
            let y = row_top + py as i32;
            if (10..40).contains(&y) {
                coverage[py] = 255;
            }
        }
        scene.begin_row(ty, 5, coverage);
        scene.push_column(&[0u8; 16]);
        scene.end_row();
    }
    scene.widen(green);

    let img = rasterize(&scene);
    for y in 0..64usize {
        for x in 0..64usize {
            let p = img[y * 64 + x];
            if x < 20 && (10..40).contains(&y) {
                assert_eq!((p.r, p.g, p.b, p.a), (0, 255, 0, 255), "at {x},{y}");
            } else {
                assert_eq!((p.r, p.g, p.b, p.a), (0, 0, 0, 0), "at {x},{y}");
            }
        }
    }
}

/// Two overlapping fills: an opaque blue base and a half-transparent red on
/// top. The red premultiplies over the base and the alpha channel never
/// exceeds 255.
#[test]
fn overlap_composite() {
    let blue = PremulRgba8 { r: 0, g: 0, b: 255, a: 255 };
    // Half-transparent red, premultiplied: (128, 0, 0, 128).
    let half_red = PremulRgba8 { r: 128, g: 0, b: 0, a: 128 };
    let mut scene = Scene::new(16, 4);
    scene.begin_path();
    scene.begin_row(0, 3, [255; 4]);
    scene.push_column(&[0u8; 16]);
    scene.end_row();
    scene.widen(blue);
    scene.begin_path();
    scene.begin_row(0, 2, [255; 4]);
    scene.push_column(&[0u8; 16]);
    scene.end_row();
    scene.widen(half_red);

    let img = rasterize(&scene);
    // Pixels 0..8 hold both fills: half red over blue.
    let p = img[5];
    assert_eq!((p.r, p.g, p.b, p.a), (128, 0, 127, 255));
    // Pixels 8..12 hold only the blue fill.
    let p = img[9];
    assert_eq!((p.r, p.g, p.b, p.a), (0, 0, 255, 255));
    assert!(img.iter().all(|p| p.a <= 255));
}

/// Clearing the scene empties every wide tile's command list, the alpha
/// mask pool, and the strips (keeping the allocated capacity); clearing
/// twice changes nothing more.
#[test]
fn clear_idempotent() {
    let red = PremulRgba8 { r: 255, g: 0, b: 0, a: 255 };
    let mut scene = Scene::new(8, 8);
    scene.begin_path();
    scene.begin_row(0, 0, [0; 4]);
    scene.push_column(&[255u8; 16]);
    scene.end_row();
    scene.widen(red);
    assert!(scene.wide_tiles.iter().any(|wt| !wt.commands.is_empty()));
    assert!(!scene.alpha_masks.is_empty());

    scene.clear();
    let capacity_after_one = scene.alpha_masks.capacity();
    assert!(scene.wide_tiles.iter().all(|wt| wt.commands.is_empty()));
    assert!(scene.alpha_masks.is_empty());
    assert!(scene.strips.is_empty());
    assert!(capacity_after_one >= 16);

    scene.clear();
    assert!(scene.wide_tiles.iter().all(|wt| wt.commands.is_empty()));
    assert!(scene.alpha_masks.is_empty());
    assert!(scene.strips.is_empty());
    assert_eq!(scene.alpha_masks.capacity(), capacity_after_one);
    assert_eq!(scene.size(), (8, 8));
}

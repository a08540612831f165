//! Core of a sparse, tile-based, analytic-coverage 2D rasterizer.
//!
//! Paths are flattened to line segments, segments are binned into 4x4-pixel
//! tiles, tiles are coalesced into row-local strips carrying per-pixel
//! coverage masks, and strips are compiled into per-wide-tile command lists
//! that a CPU fine rasterizer consumes.
//!
//! This crate holds the integer pipeline stages: tile sorting, strip and
//! alpha-mask bookkeeping, wide-tile command generation, and the reference
//! CPU rasterizer with integer source-over compositing. The floating-point
//! geometry front end (curve flattening, tile binning, analytic area
//! integration) lives with the embedding application, which drives these
//! stages with plain integer values.

mod color;
mod scene;
mod strip;
mod tile;
mod wide_tile;
mod widen;

pub use scene::cleared;
pub use scene::lemma_alpha_bytes_bounded;
pub use scene::lemma_clear_idempotent;
pub use scene::Commands;
pub use scene::Scene;
pub use scene::SceneView;
pub use strip::lemma_alpha_contiguity;
pub use strip::lemma_strip_ordering;
pub use strip::strips_wf;
pub use strip::Strip;
pub use tile::push_row_tiles;
pub use tile::TILE_HEIGHT;
pub use tile::TILE_WIDTH;
pub use tile::sort_tiles;
pub use tile::Tile;
pub use widen::generate_wide_tile_commands;

pub use color::lemma_mul_alpha_full;
pub use color::lemma_mul_alpha_zero;
pub use color::lemma_over_opaque;
pub use color::lemma_over_transparent;
pub use color::mul_alpha;
pub use color::over;
pub use color::PremulRgba8;
pub use wide_tile::cpu_rasterize;
pub use wide_tile::lemma_empty_tile_transparent;
pub use wide_tile::lemma_opaque_fill_exact;
pub use wide_tile::WIDE_TILE_PX;
pub use wide_tile::WIDE_TILE_WIDTH_PX;
pub use wide_tile::WIDE_TILE_WIDTH_TILES;
pub use wide_tile::Command;
pub use wide_tile::Sample;
pub use wide_tile::SparseFill;
pub use wide_tile::SparseSample;
pub use wide_tile::WideTile;

//! The coordinate mapper: takes a layer-relative linear cell index to a
//! world-space position and a scaled footprint.
//!
//! World-space coordinates are fixed-point pico-units: the exact product of
//! two micro-unit quantities (a document length times a scale factor), so
//! one world unit is `10^12` pico-units. The y axis is inverted relative to
//! the document's row-major downward convention: increasing rows map to
//! decreasing (negative) world y. That inversion is a deliberate design
//! choice of the mapping and is preserved here.
use vstd::arithmetic::div_mod::lemma_div_is_ordered;
use vstd::arithmetic::div_mod::lemma_fundamental_div_mod;
use vstd::arithmetic::mul::lemma_mul_inequality;
use vstd::prelude::*;

use crate::model::NUMBER_LIMIT_MICRO;
use crate::model::PlacedObject;
use crate::model::MapView;
use crate::model::TiledMap;

verus! {

/// Largest magnitude allowed for a configured scale factor, in micro-units
/// (a factor of up to one million).
pub const SCALE_LIMIT_MICRO: i64 = 1_000_000_000_000;

/// Largest magnitude allowed for the configured world origin offset, in
/// pico-units.
pub const ORIGIN_LIMIT_PICO: i128 = 1_000_000_000_000_000_000_000_000_000_000;

/// Largest magnitude a tile step (tile size times scale) can take under
/// the document and configuration limits, in pico-units.
pub const STEP_LIMIT_PICO: i128 = 1_000_000_000_000_000_000_000_000_000;

/// Construction-time configuration of the world build: a uniform tile
/// scale, a world origin offset, and the per-axis conversion factors
/// applied to free-form object positions (treated as a configurable pair,
/// not a single scale).
#[derive(Clone, Copy, Debug, PartialEq, Eq, Structural)]
pub struct MapConfig {
    /// Uniform tile scale in micro-units; `1_000_000` is a scale of one.
    pub scale_micro: i64,
    /// World origin offset, subtracted from every tile cell position.
    pub origin_x_pico: i128,
    pub origin_y_pico: i128,
    /// Conversion factor from an object's document x to world x.
    pub object_scale_x_micro: i64,
    /// Conversion factor from an object's document y to world y (applied
    /// before the y inversion).
    pub object_scale_y_micro: i64,
}

impl MapConfig {
    /// A valid configuration: a positive scale, and every field within the
    /// machine limits that keep world coordinates inside `i128`.
    pub open spec fn wf(self) -> bool {
        &&& 0 < self.scale_micro <= SCALE_LIMIT_MICRO
        &&& -ORIGIN_LIMIT_PICO <= self.origin_x_pico <= ORIGIN_LIMIT_PICO
        &&& -ORIGIN_LIMIT_PICO <= self.origin_y_pico <= ORIGIN_LIMIT_PICO
        &&& -SCALE_LIMIT_MICRO <= self.object_scale_x_micro <= SCALE_LIMIT_MICRO
        &&& -SCALE_LIMIT_MICRO <= self.object_scale_y_micro <= SCALE_LIMIT_MICRO
    }

    /// Builds a configuration, rejecting one outside the limits above.
    pub fn new(
        scale_micro: i64,
        origin_x_pico: i128,
        origin_y_pico: i128,
        object_scale_x_micro: i64,
        object_scale_y_micro: i64,
    ) -> (r: Option<MapConfig>)
        ensures
            ({
                let c = MapConfig {
                    scale_micro,
                    origin_x_pico,
                    origin_y_pico,
                    object_scale_x_micro,
                    object_scale_y_micro,
                };
                r == if c.wf() {
                    Some(c)
                } else {
                    None::<MapConfig>
                }
            }),
    {
        let c = MapConfig {
            scale_micro,
            origin_x_pico,
            origin_y_pico,
            object_scale_x_micro,
            object_scale_y_micro,
        };
        if 0 < scale_micro && scale_micro <= SCALE_LIMIT_MICRO && -ORIGIN_LIMIT_PICO
            <= origin_x_pico && origin_x_pico <= ORIGIN_LIMIT_PICO && -ORIGIN_LIMIT_PICO
            <= origin_y_pico && origin_y_pico <= ORIGIN_LIMIT_PICO && -SCALE_LIMIT_MICRO
            <= object_scale_x_micro && object_scale_x_micro <= SCALE_LIMIT_MICRO
            && -SCALE_LIMIT_MICRO <= object_scale_y_micro && object_scale_y_micro
            <= SCALE_LIMIT_MICRO {
            Some(c)
        } else {
            None
        }
    }
}

impl Default for MapConfig {
    /// The default configuration: scale one, zero origin, and the
    /// empirically chosen per-axis object conversion factors.
    fn default() -> (c: MapConfig)
        ensures
            c == (MapConfig {
                scale_micro: 1_000_000,
                origin_x_pico: 0,
                origin_y_pico: 0,
                object_scale_x_micro: 1_913_100,
                object_scale_y_micro: 1_874_900,
            }),
            c.wf(),
    {
        MapConfig {
            scale_micro: 1_000_000,
            origin_x_pico: 0,
            origin_y_pico: 0,
            object_scale_x_micro: 1_913_100,
            object_scale_y_micro: 1_874_900,
        }
    }
}

/// The horizontal step between adjacent cells: tile width times scale.
pub open spec fn spec_step_x(map: MapView, cfg: MapConfig) -> int {
    map.tilewidth_micro * cfg.scale_micro
}

/// The vertical step between adjacent rows: tile height times scale.
pub open spec fn spec_step_y(map: MapView, cfg: MapConfig) -> int {
    map.tileheight_micro * cfg.scale_micro
}

/// The column of a linear cell index in a row-major grid of the given width.
pub open spec fn spec_cell_col(index: int, width: int) -> int {
    index % width
}

/// The row of a linear cell index in a row-major grid of the given width.
pub open spec fn spec_cell_row(index: int, width: int) -> int {
    index / width
}

/// World x of a grid cell: column times step, shifted by the origin.
pub open spec fn spec_cell_x(map: MapView, cfg: MapConfig, index: int) -> int {
    spec_cell_col(index, map.width as int) * spec_step_x(map, cfg) - cfg.origin_x_pico
}

/// World y of a grid cell: row times step, negated (rows grow downward in
/// the document, y grows upward in world space), shifted by the origin.
pub open spec fn spec_cell_y(map: MapView, cfg: MapConfig, index: int) -> int {
    -(spec_cell_row(index, map.width as int) * spec_step_y(map, cfg)) - cfg.origin_y_pico
}

/// World x of a placed object: its own document x times the configured
/// x conversion factor; no grid-index computation and no origin shift.
pub open spec fn spec_object_x(cfg: MapConfig, o: PlacedObject) -> int {
    o.x_micro * cfg.object_scale_x_micro
}

/// World y of a placed object: its document y times the configured factor,
/// negated for the upward world y axis.
pub open spec fn spec_object_y(cfg: MapConfig, o: PlacedObject) -> int {
    -(o.y_micro * cfg.object_scale_y_micro)
}

/// Maps linear cell indices of one map to world positions: the grid width
/// and height, the scaled steps, and the origin offset, resolved once.
pub struct CoordinateMapper {
    pub width: u32,
    pub height: u32,
    pub step_x_pico: i128,
    pub step_y_pico: i128,
    pub origin_x_pico: i128,
    pub origin_y_pico: i128,
}

impl CoordinateMapper {
    pub open spec fn wf(self) -> bool {
        &&& 1 <= self.width
        &&& 1 <= self.height
        &&& 0 < self.step_x_pico <= STEP_LIMIT_PICO
        &&& 0 < self.step_y_pico <= STEP_LIMIT_PICO
        &&& -ORIGIN_LIMIT_PICO <= self.origin_x_pico <= ORIGIN_LIMIT_PICO
        &&& -ORIGIN_LIMIT_PICO <= self.origin_y_pico <= ORIGIN_LIMIT_PICO
    }

    /// The mapper a map and a configuration determine.
    pub open spec fn spec_new(map: MapView, cfg: MapConfig) -> CoordinateMapper {
        CoordinateMapper {
            width: map.width,
            height: map.height,
            step_x_pico: spec_step_x(map, cfg) as i128,
            step_y_pico: spec_step_y(map, cfg) as i128,
            origin_x_pico: cfg.origin_x_pico,
            origin_y_pico: cfg.origin_y_pico,
        }
    }

    pub fn new(map: &TiledMap, cfg: &MapConfig) -> (m: CoordinateMapper)
        requires
            map@.bounded(),
            cfg.wf(),
            1 <= map.width,
            1 <= map.height,
            0 < map.tilewidth_micro,
            0 < map.tileheight_micro,
        ensures
            m == Self::spec_new(map@, *cfg),
            m.wf(),
            m.step_x_pico == spec_step_x(map@, *cfg),
            m.step_y_pico == spec_step_y(map@, *cfg),
    {
        proof {
            assert(0 < map.tilewidth_micro * cfg.scale_micro <= NUMBER_LIMIT_MICRO
                * SCALE_LIMIT_MICRO) by (nonlinear_arith)
                requires
                    0 < map.tilewidth_micro <= NUMBER_LIMIT_MICRO,
                    0 < cfg.scale_micro <= SCALE_LIMIT_MICRO,
            ;
            assert(0 < map.tileheight_micro * cfg.scale_micro <= NUMBER_LIMIT_MICRO
                * SCALE_LIMIT_MICRO) by (nonlinear_arith)
                requires
                    0 < map.tileheight_micro <= NUMBER_LIMIT_MICRO,
                    0 < cfg.scale_micro <= SCALE_LIMIT_MICRO,
            ;
        }
        CoordinateMapper {
            width: map.width,
            height: map.height,
            step_x_pico: (map.tilewidth_micro as i128) * (cfg.scale_micro as i128),
            step_y_pico: (map.tileheight_micro as i128) * (cfg.scale_micro as i128),
            origin_x_pico: cfg.origin_x_pico,
            origin_y_pico: cfg.origin_y_pico,
        }
    }

    /// World position of the cell at a linear row-major index:
    /// `x = (index mod width) * step_x - origin_x` and
    /// `y = -((index div width) * step_y) - origin_y`.
    pub fn position(&self, index: u64) -> (p: (i128, i128))
        requires
            self.wf(),
            index < self.width as int * self.height as int,
        ensures
            p.0 == spec_cell_col(index as int, self.width as int) * self.step_x_pico
                - self.origin_x_pico,
            p.1 == -(spec_cell_row(index as int, self.width as int) * self.step_y_pico)
                - self.origin_y_pico,
    {
        let w = self.width as u64;
        let col = index % w;
        let row = index / w;
        proof {
            lemma_fundamental_div_mod(index as int, w as int);
            assert(col < w);
            assert((row as int) < self.height as int) by (nonlinear_arith)
                requires
                    index as int == w as int * (row as int) + (col as int),
                    0 <= (col as int) < (w as int),
                    index < self.width as int * self.height as int,
                    w as int == self.width as int,
                    1 <= w as int,
            ;
            assert(0 <= (col as int) * self.step_x_pico <= 4294967295 * STEP_LIMIT_PICO)
                by (nonlinear_arith)
                requires
                    0 <= col as int <= 4294967295,
                    0 < self.step_x_pico <= STEP_LIMIT_PICO,
            ;
            assert(0 <= (row as int) * self.step_y_pico <= 4294967295 * STEP_LIMIT_PICO)
                by (nonlinear_arith)
                requires
                    0 <= row as int <= 4294967295,
                    0 < self.step_y_pico <= STEP_LIMIT_PICO,
            ;
        }
        let x = (col as i128) * self.step_x_pico - self.origin_x_pico;
        let y = -((row as i128) * self.step_y_pico) - self.origin_y_pico;
        (x, y)
    }
}

/// As the row of a cell index grows, its world y never grows: the mapping
/// is monotonically downward into negative y.
pub proof fn lemma_world_y_monotone(map: MapView, cfg: MapConfig, i1: int, i2: int)
    requires
        1 <= map.width,
        0 < map.tileheight_micro,
        0 < cfg.scale_micro,
        0 <= i1 <= i2,
    ensures
        spec_cell_row(i1, map.width as int) <= spec_cell_row(i2, map.width as int),
        spec_cell_y(map, cfg, i2) <= spec_cell_y(map, cfg, i1),
{
    let w = map.width as int;
    let step = spec_step_y(map, cfg);
    lemma_div_is_ordered(i1, i2, w);
    assert(0 < step) by (nonlinear_arith)
        requires
            0 < map.tileheight_micro,
            0 < cfg.scale_micro,
            step == map.tileheight_micro * cfg.scale_micro,
    ;
    lemma_mul_inequality(i1 / w, i2 / w, step);
}

} // verus!

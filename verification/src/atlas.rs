//! The atlas indexer: derives the atlas grid layout (columns, rows, cell
//! pixel size) from a tileset and maps a zero-based tile index to an atlas
//! cell as `(col, row) = (index mod columns, index div columns)`.
//!
//! A tile count that the column count does not divide would silently drop
//! the remainder row; such a tileset is rejected outright rather than
//! truncated.
use vstd::arithmetic::div_mod::lemma_fundamental_div_mod;
use vstd::arithmetic::div_mod::lemma_mod_bound;
use vstd::prelude::*;

use crate::model::DocField;
use crate::model::LoadError;
use crate::model::TileSet;

verus! {

/// The derived atlas grid: column and row counts, the total tile count,
/// and the pixel size of one cell.
#[derive(Clone, Copy, Debug, PartialEq, Eq, Structural)]
pub struct AtlasLayout {
    pub columns: u32,
    pub rows: u32,
    pub tilecount: u32,
    pub tilewidth: u32,
    pub tileheight: u32,
}

impl AtlasLayout {
    /// A coherent layout: a positive grid whose rows and columns account
    /// for every declared tile.
    pub open spec fn wf(self) -> bool {
        &&& 0 < self.columns
        &&& 0 < self.tilecount
        &&& self.tilecount as int == self.rows as int * self.columns as int
    }

    /// The layout a tileset determines: rejected when a grid dimension is
    /// not positive or when the column count does not divide the tile
    /// count evenly.
    pub open spec fn spec_from_tileset(ts: TileSet) -> Result<AtlasLayout, LoadError> {
        if ts.columns == 0 {
            Err(LoadError::InvariantViolation(DocField::Columns))
        } else if ts.tilecount == 0 || ts.tilecount as int % ts.columns as int != 0 {
            Err(LoadError::InvariantViolation(DocField::TileCount))
        } else {
            Ok(
                AtlasLayout {
                    columns: ts.columns,
                    rows: (ts.tilecount as int / ts.columns as int) as u32,
                    tilecount: ts.tilecount,
                    tilewidth: ts.tilewidth,
                    tileheight: ts.tileheight,
                },
            )
        }
    }

    /// Derives the atlas grid of a tileset.
    pub fn from_tileset(ts: &TileSet) -> (r: Result<AtlasLayout, LoadError>)
        ensures
            r == Self::spec_from_tileset(*ts),
            r matches Ok(layout) ==> layout.wf(),
    {
        if ts.columns == 0 {
            return Err(LoadError::InvariantViolation(DocField::Columns));
        }
        if ts.tilecount == 0 || ts.tilecount % ts.columns != 0 {
            return Err(LoadError::InvariantViolation(DocField::TileCount));
        }
        let rows = ts.tilecount / ts.columns;
        proof {
            lemma_fundamental_div_mod(ts.tilecount as int, ts.columns as int);
            lemma_mod_bound(ts.tilecount as int, ts.columns as int);
            let c = ts.columns as int;
            let q = ts.tilecount as int / c;
            assert(0 <= q <= ts.tilecount as int) by (nonlinear_arith)
                requires
                    ts.tilecount as int == c * q + ts.tilecount as int % c,
                    0 <= ts.tilecount as int % c < c,
                    0 < c,
                    0 < ts.tilecount,
            ;
            assert(ts.tilecount as int == q * c) by (nonlinear_arith)
                requires
                    ts.tilecount as int == c * q + ts.tilecount as int % c,
                    ts.tilecount as int % c == 0,
            ;
        }
        Ok(
            AtlasLayout {
                columns: ts.columns,
                rows,
                tilecount: ts.tilecount,
                tilewidth: ts.tilewidth,
                tileheight: ts.tileheight,
            },
        )
    }

    /// The atlas column of a tile index.
    pub open spec fn spec_cell_col(self, tile_index: int) -> int {
        tile_index % self.columns as int
    }

    /// The atlas row of a tile index.
    pub open spec fn spec_cell_row(self, tile_index: int) -> int {
        tile_index / self.columns as int
    }

    /// Atlas cell of a zero-based tile index: `(index mod columns,
    /// index div columns)`. An index at or beyond the declared tile count
    /// is an error, never an out-of-grid cell.
    pub fn cell_of(&self, tile_index: u32) -> (r: Result<(u32, u32), LoadError>)
        requires
            self.wf(),
        ensures
            tile_index < self.tilecount ==> r == Ok::<(u32, u32), LoadError>(
                ((self.spec_cell_col(tile_index as int) as u32), (self.spec_cell_row(
                    tile_index as int,
                ) as u32)),
            ),
            tile_index >= self.tilecount ==> r == Err::<(u32, u32), LoadError>(
                LoadError::OutOfRangeTileIndex(tile_index as i64),
            ),
    {
        if tile_index >= self.tilecount {
            return Err(LoadError::OutOfRangeTileIndex(tile_index as i64));
        }
        let col = tile_index % self.columns;
        let row = tile_index / self.columns;
        Ok((col, row))
    }

    /// Round trip of the atlas cell computation: for an index within the
    /// declared tile count, the cell lies inside the grid and reconstructs
    /// the index as `row * columns + col`.
    pub proof fn lemma_cell_round_trip(self, tile_index: int)
        requires
            self.wf(),
            0 <= tile_index < self.tilecount,
        ensures
            0 <= self.spec_cell_col(tile_index) < self.columns,
            0 <= self.spec_cell_row(tile_index) < self.rows,
            self.spec_cell_row(tile_index) * self.columns as int + self.spec_cell_col(tile_index)
                == tile_index,
    {
        let c = self.columns as int;
        lemma_fundamental_div_mod(tile_index, c);
        lemma_mod_bound(tile_index, c);
        assert(tile_index / c < self.rows as int) by (nonlinear_arith)
            requires
                tile_index == c * (tile_index / c) + tile_index % c,
                0 <= tile_index % c < c,
                tile_index < self.tilecount,
                self.tilecount as int == self.rows as int * c,
                0 < c,
        ;
        assert(0 <= tile_index / c) by (nonlinear_arith)
            requires
                tile_index == c * (tile_index / c) + tile_index % c,
                0 <= tile_index % c < c,
                0 <= tile_index,
                0 < c,
        ;
    }
}

} // verus!

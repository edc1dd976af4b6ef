//! Typed models of the two source documents: the map (grid dimensions,
//! tile size, ordered layers) and the tileset (atlas geometry).
//!
//! Real-valued quantities from the documents are held as exact fixed-point
//! integers: a value of one source unit is stored as `MICRO_PER_UNIT`
//! micro-units. Parsing rejects magnitudes above `NUMBER_LIMIT_MICRO`, so
//! every model number fits comfortably below `2^50` and products computed
//! downstream stay inside `i128`.
use vstd::prelude::*;

verus! {

/// Micro-units per source unit: the fixed-point resolution of all
/// real-valued document numbers.
pub const MICRO_PER_UNIT: i64 = 1_000_000;

/// Largest magnitude, in micro-units, that a document number may take
/// (just under 10^9 source units). Keeps all downstream products in range.
pub const NUMBER_LIMIT_MICRO: i64 = 999_999_999_999_999;

/// The field of a source document that a load diagnostic points at.
#[derive(Clone, Copy, Debug, PartialEq, Eq, Structural)]
pub enum DocField {
    /// The document text as a whole (not valid JSON, or not an object).
    Document,
    TileWidth,
    TileHeight,
    MapWidth,
    MapHeight,
    Layers,
    LayerName,
    /// A layer carries both cell data and an object list.
    LayerShape,
    CellData,
    Objects,
    ObjectId,
    ObjectX,
    ObjectY,
    Columns,
    TileCount,
    TileSets,
    FirstGid,
    Source,
}

/// A terminal load failure; any of these aborts the one-shot startup build.
#[derive(Clone, Copy, Debug, PartialEq, Eq, Structural)]
pub enum LoadError {
    /// The document path did not resolve to a readable file. Produced by
    /// the host shell around the library, which performs the actual read.
    DocumentNotFound,
    /// A structural or type mismatch while deserializing the named field.
    MalformedDocument(DocField),
    /// An atlas lookup at or beyond the declared tile count; carries the
    /// offending zero-based tile index.
    OutOfRangeTileIndex(i64),
    /// A semantic invariant of the model does not hold for the named field.
    InvariantViolation(DocField),
}

/// One placed object of an object layer: an identifier opaque to the
/// loader and a position in source-document coordinates (top-left origin,
/// y increasing downward), in micro-units.
#[derive(Clone, Debug, PartialEq, Eq, Structural)]
pub struct PlacedObject {
    pub id: u32,
    pub x_micro: i64,
    pub y_micro: i64,
}

impl PlacedObject {
    /// The position magnitudes stay within the documented parse limit.
    pub open spec fn bounded(self) -> bool {
        &&& -NUMBER_LIMIT_MICRO <= self.x_micro <= NUMBER_LIMIT_MICRO
        &&& -NUMBER_LIMIT_MICRO <= self.y_micro <= NUMBER_LIMIT_MICRO
    }
}

/// One layer of the map: its name drives dispatch (the reserved names are
/// `"collision"` and `"objects"`; anything else is a visual tile layer),
/// and it carries at most one of a cell array or an object list.
#[derive(Clone, Debug, PartialEq)]
pub struct Layer {
    pub name: String,
    /// Row-major cell values, one per grid cell; 0 is the empty sentinel,
    /// a value `v > 0` refers to atlas tile index `v - 1`.
    pub data: Option<Vec<i64>>,
    pub objects: Option<Vec<PlacedObject>>,
}

/// The mathematical content of a layer: its name and contents as plain
/// sequences.
pub struct LayerView {
    pub name: Seq<char>,
    pub data: Option<Seq<i64>>,
    pub objects: Option<Seq<PlacedObject>>,
}

impl LayerView {
    pub open spec fn bounded(self) -> bool {
        &&& self.data matches Some(cells) ==> forall|i: int|
            0 <= i < cells.len() ==> -NUMBER_LIMIT_MICRO <= #[trigger] cells[i]
                <= NUMBER_LIMIT_MICRO
        &&& self.objects matches Some(objs) ==> forall|i: int|
            0 <= i < objs.len() ==> (#[trigger] objs[i]).bounded()
    }
}

impl View for Layer {
    type V = LayerView;

    open spec fn view(&self) -> LayerView {
        LayerView {
            name: self.name@,
            data: match self.data {
                Some(cells) => Some(cells@),
                None => None,
            },
            objects: match self.objects {
                Some(objs) => Some(objs@),
                None => None,
            },
        }
    }
}

/// One tileset reference inside a map document: the first global tile id
/// it contributes and the path of the tileset document.
#[derive(Clone, Debug, PartialEq)]
pub struct TiledMapSet {
    pub firstgid: u32,
    pub source: String,
}

/// The typed map document: tile dimensions in micro-units, grid cell
/// counts, and the layers in declaration order (which is also the spawn
/// and therefore draw order).
#[derive(Clone, Debug, PartialEq)]
pub struct TiledMap {
    pub tilewidth_micro: i64,
    pub tileheight_micro: i64,
    pub width: u32,
    pub height: u32,
    pub layers: Vec<Layer>,
    pub tilesets: Vec<TiledMapSet>,
}

/// The mathematical content of a map document.
pub struct MapView {
    pub tilewidth_micro: i64,
    pub tileheight_micro: i64,
    pub width: u32,
    pub height: u32,
    pub layers: Seq<LayerView>,
    pub tilesets: Seq<TiledMapSet>,
}

impl MapView {
    /// Every number taken from the document respects the parse limit;
    /// structural parsing guarantees this for every model it returns.
    pub open spec fn bounded(self) -> bool {
        &&& -NUMBER_LIMIT_MICRO <= self.tilewidth_micro <= NUMBER_LIMIT_MICRO
        &&& -NUMBER_LIMIT_MICRO <= self.tileheight_micro <= NUMBER_LIMIT_MICRO
        &&& forall|i: int| 0 <= i < self.layers.len() ==> (#[trigger] self.layers[i]).bounded()
    }
}

impl View for TiledMap {
    type V = MapView;

    open spec fn view(&self) -> MapView {
        MapView {
            tilewidth_micro: self.tilewidth_micro,
            tileheight_micro: self.tileheight_micro,
            width: self.width,
            height: self.height,
            layers: self.layers@.map_values(|l: Layer| l@),
            tilesets: self.tilesets@,
        }
    }
}

/// The typed tileset document: atlas column count, total tile count, and
/// the pixel size of one atlas cell. The backing image path is supplied by
/// the host beside the model and is not part of it.
#[derive(Clone, Debug, PartialEq, Eq, Structural)]
pub struct TileSet {
    pub columns: u32,
    pub tilecount: u32,
    pub tilewidth: u32,
    pub tileheight: u32,
}

/// Whether a string equals a literal, as character sequences. Layer
/// dispatch goes by exact name match.
pub fn name_eq(a: &String, b: &str) -> (r: bool)
    ensures
        r == (a@ == b@),
{
    let owned: String = b.to_owned();
    *a == owned
}

} // verus!

//! Structural deserialization of the two documents: walks a parsed JSON
//! tree and extracts the typed models, failing on any missing required
//! field, type mismatch, or malformed shape — nothing is silently
//! defaulted. No semantic validation happens here; the world builder
//! checks the model invariants.
use vstd::prelude::*;

use crate::json::JsonValue;
use crate::json::lookup;
use crate::json::parse_document;
use crate::json::parsed_doc;
use crate::json::spec_lookup;
use crate::model::DocField;
use crate::model::Layer;
use crate::model::LayerView;
use crate::model::LoadError;
use crate::model::MapView;
use crate::model::NUMBER_LIMIT_MICRO;
use crate::model::PlacedObject;
use crate::model::TileSet;
use crate::model::TiledMap;
use crate::model::TiledMapSet;
use crate::numbers::parse_cell;
use crate::numbers::parse_micro;
use crate::numbers::parse_u32;
use crate::numbers::spec_parse_cell;
use crate::numbers::spec_parse_micro;
use crate::numbers::spec_parse_u32;

verus! {

/// A real-valued field: present, a number, and a plain decimal token.
pub open spec fn spec_micro_field(fields: Seq<(String, JsonValue)>, key: Seq<char>) -> Option<
    i64,
> {
    match spec_lookup(fields, key) {
        Some(jv) => match jv {
            JsonValue::Num(tok) => spec_parse_micro(tok@),
            _ => None,
        },
        None => None,
    }
}

/// An unsigned integer field: present, a number, and an integer token in
/// `u32` range.
pub open spec fn spec_u32_field(fields: Seq<(String, JsonValue)>, key: Seq<char>) -> Option<u32> {
    match spec_lookup(fields, key) {
        Some(jv) => match jv {
            JsonValue::Num(tok) => spec_parse_u32(tok@),
            _ => None,
        },
        None => None,
    }
}

/// The cell values of a tile-data array: every element an integer token.
pub open spec fn spec_cells_from_json(items: Seq<JsonValue>) -> Option<Seq<i64>>
    decreases items.len(),
{
    if items.len() == 0 {
        Some(Seq::empty())
    } else {
        match spec_cells_from_json(items.drop_last()) {
            Some(pre) => match items.last() {
                JsonValue::Num(tok) => match spec_parse_cell(tok@) {
                    Some(v) => Some(pre.push(v)),
                    None => None,
                },
                _ => None,
            },
            None => None,
        }
    }
}

/// One placed object: an object with an unsigned `id` and numeric `x`, `y`.
pub open spec fn spec_object_from_json(v: JsonValue) -> Result<PlacedObject, LoadError> {
    match v {
        JsonValue::Obj(fields) => if spec_u32_field(fields@, "id"@) is None {
            Err(LoadError::MalformedDocument(DocField::ObjectId))
        } else if spec_micro_field(fields@, "x"@) is None {
            Err(LoadError::MalformedDocument(DocField::ObjectX))
        } else if spec_micro_field(fields@, "y"@) is None {
            Err(LoadError::MalformedDocument(DocField::ObjectY))
        } else {
            Ok(
                PlacedObject {
                    id: spec_u32_field(fields@, "id"@)->Some_0,
                    x_micro: spec_micro_field(fields@, "x"@)->Some_0,
                    y_micro: spec_micro_field(fields@, "y"@)->Some_0,
                },
            )
        },
        _ => Err(LoadError::MalformedDocument(DocField::Objects)),
    }
}

/// The objects of an object array, in declaration order; the first
/// malformed entry fails the load.
pub open spec fn spec_objects_from_json(items: Seq<JsonValue>) -> Result<
    Seq<PlacedObject>,
    LoadError,
>
    decreases items.len(),
{
    if items.len() == 0 {
        Ok(Seq::empty())
    } else {
        match spec_objects_from_json(items.drop_last()) {
            Ok(pre) => match spec_object_from_json(items.last()) {
                Ok(o) => Ok(pre.push(o)),
                Err(e) => Err(e),
            },
            Err(e) => Err(e),
        }
    }
}

/// A layer's optional `data` field: absent, or an array of integer tokens.
pub open spec fn spec_layer_data(fields: Seq<(String, JsonValue)>) -> Result<
    Option<Seq<i64>>,
    LoadError,
> {
    match spec_lookup(fields, "data"@) {
        None => Ok(None),
        Some(jv) => match jv {
            JsonValue::Arr(items) => match spec_cells_from_json(items@) {
                Some(cells) => Ok(Some(cells)),
                None => Err(LoadError::MalformedDocument(DocField::CellData)),
            },
            _ => Err(LoadError::MalformedDocument(DocField::CellData)),
        },
    }
}

/// A layer's optional `objects` field: absent, or an array of objects.
pub open spec fn spec_layer_objects(fields: Seq<(String, JsonValue)>) -> Result<
    Option<Seq<PlacedObject>>,
    LoadError,
> {
    match spec_lookup(fields, "objects"@) {
        None => Ok(None),
        Some(jv) => match jv {
            JsonValue::Arr(items) => match spec_objects_from_json(items@) {
                Ok(objs) => Ok(Some(objs)),
                Err(e) => Err(e),
            },
            _ => Err(LoadError::MalformedDocument(DocField::Objects)),
        },
    }
}

/// One layer: an object with a string `name` and the optional contents.
pub open spec fn spec_layer_from_json(v: JsonValue) -> Result<LayerView, LoadError> {
    match v {
        JsonValue::Obj(fields) => match spec_lookup(fields@, "name"@) {
            Some(jv) => match jv {
                JsonValue::Str(name) => match spec_layer_data(fields@) {
                    Ok(data) => match spec_layer_objects(fields@) {
                        Ok(objects) => Ok(LayerView { name: name@, data, objects }),
                        Err(e) => Err(e),
                    },
                    Err(e) => Err(e),
                },
                _ => Err(LoadError::MalformedDocument(DocField::LayerName)),
            },
            None => Err(LoadError::MalformedDocument(DocField::LayerName)),
        },
        _ => Err(LoadError::MalformedDocument(DocField::Layers)),
    }
}

/// The layers of the `layers` array, in declaration order.
pub open spec fn spec_layers_from_json(items: Seq<JsonValue>) -> Result<Seq<LayerView>, LoadError>
    decreases items.len(),
{
    if items.len() == 0 {
        Ok(Seq::empty())
    } else {
        match spec_layers_from_json(items.drop_last()) {
            Ok(pre) => match spec_layer_from_json(items.last()) {
                Ok(l) => Ok(pre.push(l)),
                Err(e) => Err(e),
            },
            Err(e) => Err(e),
        }
    }
}

/// One tileset reference: an object with an unsigned `firstgid` and a
/// string `source`.
pub open spec fn spec_tileset_entry_from_json(v: JsonValue) -> Result<TiledMapSet, LoadError> {
    match v {
        JsonValue::Obj(fields) => if spec_u32_field(fields@, "firstgid"@) is None {
            Err(LoadError::MalformedDocument(DocField::FirstGid))
        } else {
            match spec_lookup(fields@, "source"@) {
                Some(jv) => match jv {
                    JsonValue::Str(source) => Ok(
                        TiledMapSet { firstgid: spec_u32_field(fields@, "firstgid"@)->Some_0, source },
                    ),
                    _ => Err(LoadError::MalformedDocument(DocField::Source)),
                },
                None => Err(LoadError::MalformedDocument(DocField::Source)),
            }
        },
        _ => Err(LoadError::MalformedDocument(DocField::TileSets)),
    }
}

/// The entries of the optional `tilesets` array.
pub open spec fn spec_tilesets_entries(items: Seq<JsonValue>) -> Result<Seq<TiledMapSet>, LoadError>
    decreases items.len(),
{
    if items.len() == 0 {
        Ok(Seq::empty())
    } else {
        match spec_tilesets_entries(items.drop_last()) {
            Ok(pre) => match spec_tileset_entry_from_json(items.last()) {
                Ok(t) => Ok(pre.push(t)),
                Err(e) => Err(e),
            },
            Err(e) => Err(e),
        }
    }
}

/// The map's optional `tilesets` field: absent (no references), or an
/// array of tileset references.
pub open spec fn spec_map_tilesets(fields: Seq<(String, JsonValue)>) -> Result<
    Seq<TiledMapSet>,
    LoadError,
> {
    match spec_lookup(fields, "tilesets"@) {
        None => Ok(Seq::empty()),
        Some(jv) => match jv {
            JsonValue::Arr(items) => spec_tilesets_entries(items@),
            _ => Err(LoadError::MalformedDocument(DocField::TileSets)),
        },
    }
}

/// The typed map a parsed document tree describes, or the first field at
/// which deserialization fails. Required fields: `tilewidth`, `tileheight`
/// (numbers), `width`, `height` (unsigned integers), `layers` (array);
/// `tilesets` is optional.
pub open spec fn spec_map_from_json(v: JsonValue) -> Result<MapView, LoadError> {
    match v {
        JsonValue::Obj(fields) => if spec_micro_field(fields@, "tilewidth"@) is None {
            Err(LoadError::MalformedDocument(DocField::TileWidth))
        } else if spec_micro_field(fields@, "tileheight"@) is None {
            Err(LoadError::MalformedDocument(DocField::TileHeight))
        } else if spec_u32_field(fields@, "width"@) is None {
            Err(LoadError::MalformedDocument(DocField::MapWidth))
        } else if spec_u32_field(fields@, "height"@) is None {
            Err(LoadError::MalformedDocument(DocField::MapHeight))
        } else {
            match spec_lookup(fields@, "layers"@) {
                Some(jv) => match jv {
                    JsonValue::Arr(items) => match spec_layers_from_json(items@) {
                        Ok(layers) => match spec_map_tilesets(fields@) {
                            Ok(tilesets) => Ok(
                                MapView {
                                    tilewidth_micro: spec_micro_field(
                                        fields@,
                                        "tilewidth"@,
                                    )->Some_0,
                                    tileheight_micro: spec_micro_field(
                                        fields@,
                                        "tileheight"@,
                                    )->Some_0,
                                    width: spec_u32_field(fields@, "width"@)->Some_0,
                                    height: spec_u32_field(fields@, "height"@)->Some_0,
                                    layers,
                                    tilesets,
                                },
                            ),
                            Err(e) => Err(e),
                        },
                        Err(e) => Err(e),
                    },
                    _ => Err(LoadError::MalformedDocument(DocField::Layers)),
                },
                None => Err(LoadError::MalformedDocument(DocField::Layers)),
            }
        },
        _ => Err(LoadError::MalformedDocument(DocField::Document)),
    }
}

/// The typed tileset a parsed document tree describes. Required fields:
/// `columns`, `tilecount`, `tilewidth`, `tileheight` (unsigned integers);
/// the document's `image` field is ignored in favor of a host-supplied
/// path.
pub open spec fn spec_tileset_from_json(v: JsonValue) -> Result<TileSet, LoadError> {
    match v {
        JsonValue::Obj(fields) => if spec_u32_field(fields@, "columns"@) is None {
            Err(LoadError::MalformedDocument(DocField::Columns))
        } else if spec_u32_field(fields@, "tilecount"@) is None {
            Err(LoadError::MalformedDocument(DocField::TileCount))
        } else if spec_u32_field(fields@, "tilewidth"@) is None {
            Err(LoadError::MalformedDocument(DocField::TileWidth))
        } else if spec_u32_field(fields@, "tileheight"@) is None {
            Err(LoadError::MalformedDocument(DocField::TileHeight))
        } else {
            Ok(
                TileSet {
                    columns: spec_u32_field(fields@, "columns"@)->Some_0,
                    tilecount: spec_u32_field(fields@, "tilecount"@)->Some_0,
                    tilewidth: spec_u32_field(fields@, "tilewidth"@)->Some_0,
                    tileheight: spec_u32_field(fields@, "tileheight"@)->Some_0,
                },
            )
        },
        _ => Err(LoadError::MalformedDocument(DocField::Document)),
    }
}

/// What loading a map document text yields: a parse failure, or the typed
/// extraction of the parsed tree.
pub open spec fn spec_load_map(text: Seq<char>) -> Result<MapView, LoadError> {
    match parsed_doc(text) {
        None => Err(LoadError::MalformedDocument(DocField::Document)),
        Some(v) => spec_map_from_json(v),
    }
}

/// What loading a tileset document text yields.
pub open spec fn spec_load_tileset(text: Seq<char>) -> Result<TileSet, LoadError> {
    match parsed_doc(text) {
        None => Err(LoadError::MalformedDocument(DocField::Document)),
        Some(v) => spec_tileset_from_json(v),
    }
}

/// Extracts a real-valued field in micro-units.
fn micro_field(fields: &Vec<(String, JsonValue)>, key: &str) -> (r: Option<i64>)
    ensures
        r == spec_micro_field(fields@, key@),
        r matches Some(v) ==> -NUMBER_LIMIT_MICRO <= v <= NUMBER_LIMIT_MICRO,
{
    match lookup(fields, key) {
        Some(JsonValue::Num(tok)) => parse_micro(tok.as_str()),
        _ => None,
    }
}

/// Extracts an unsigned integer field.
fn u32_field(fields: &Vec<(String, JsonValue)>, key: &str) -> (r: Option<u32>)
    ensures
        r == spec_u32_field(fields@, key@),
{
    match lookup(fields, key) {
        Some(JsonValue::Num(tok)) => parse_u32(tok.as_str()),
        _ => None,
    }
}

/// If a prefix of a cell array is malformed, so is the whole array.
proof fn lemma_cells_none_persists(items: Seq<JsonValue>, j: int)
    requires
        0 <= j <= items.len(),
        spec_cells_from_json(items.take(j)) is None,
    ensures
        spec_cells_from_json(items) is None,
    decreases items.len() - j,
{
    if j < items.len() {
        assert(items.take(j + 1).drop_last() =~= items.take(j));
        lemma_cells_none_persists(items, j + 1);
    } else {
        assert(items.take(j) =~= items);
    }
}

/// If a prefix of an object array fails, the whole array fails the same way.
proof fn lemma_objects_err_persists(items: Seq<JsonValue>, j: int)
    requires
        0 <= j <= items.len(),
        spec_objects_from_json(items.take(j)) is Err,
    ensures
        spec_objects_from_json(items) == spec_objects_from_json(items.take(j)),
    decreases items.len() - j,
{
    if j < items.len() {
        assert(items.take(j + 1).drop_last() =~= items.take(j));
        lemma_objects_err_persists(items, j + 1);
    } else {
        assert(items.take(j) =~= items);
    }
}

/// If a prefix of a layer array fails, the whole array fails the same way.
proof fn lemma_layers_parse_err_persists(items: Seq<JsonValue>, j: int)
    requires
        0 <= j <= items.len(),
        spec_layers_from_json(items.take(j)) is Err,
    ensures
        spec_layers_from_json(items) == spec_layers_from_json(items.take(j)),
    decreases items.len() - j,
{
    if j < items.len() {
        assert(items.take(j + 1).drop_last() =~= items.take(j));
        lemma_layers_parse_err_persists(items, j + 1);
    } else {
        assert(items.take(j) =~= items);
    }
}

/// If a prefix of the tileset array fails, the whole array fails the same
/// way.
proof fn lemma_tilesets_err_persists(items: Seq<JsonValue>, j: int)
    requires
        0 <= j <= items.len(),
        spec_tilesets_entries(items.take(j)) is Err,
    ensures
        spec_tilesets_entries(items) == spec_tilesets_entries(items.take(j)),
    decreases items.len() - j,
{
    if j < items.len() {
        assert(items.take(j + 1).drop_last() =~= items.take(j));
        lemma_tilesets_err_persists(items, j + 1);
    } else {
        assert(items.take(j) =~= items);
    }
}

/// Extracts the cell values of a tile-data array.
fn cells_from_json(items: &Vec<JsonValue>) -> (r: Option<Vec<i64>>)
    ensures
        match r {
            Some(cells) => spec_cells_from_json(items@) == Some(cells@) && forall|i: int|
                0 <= i < cells@.len() ==> -NUMBER_LIMIT_MICRO <= #[trigger] cells@[i]
                    <= NUMBER_LIMIT_MICRO,
            None => spec_cells_from_json(items@) is None,
        },
{
    let mut out: Vec<i64> = Vec::new();
    let n = items.len();
    let mut i: usize = 0;
    proof {
        assert(items@.take(0) =~= Seq::<JsonValue>::empty());
    }
    while i < n
        invariant
            n == items@.len(),
            i <= n,
            spec_cells_from_json(items@.take(i as int)) == Some(out@),
            forall|k: int|
                0 <= k < out@.len() ==> -NUMBER_LIMIT_MICRO <= #[trigger] out@[k]
                    <= NUMBER_LIMIT_MICRO,
        decreases n - i,
    {
        proof {
            assert(items@.take(i as int + 1).drop_last() =~= items@.take(i as int));
            assert(items@.take(i as int + 1).last() == items@[i as int]);
        }
        let v = match &items[i] {
            JsonValue::Num(tok) => match parse_cell(tok.as_str()) {
                Some(v) => v,
                None => {
                    proof {
                        lemma_cells_none_persists(items@, i as int + 1);
                    }
                    return None;
                },
            },
            _ => {
                proof {
                    lemma_cells_none_persists(items@, i as int + 1);
                }
                return None;
            },
        };
        out.push(v);
        i += 1;
    }
    proof {
        assert(items@.take(n as int) =~= items@);
    }
    Some(out)
}

/// Extracts one placed object.
fn object_from_json(v: &JsonValue) -> (r: Result<PlacedObject, LoadError>)
    ensures
        r == spec_object_from_json(*v),
        r matches Ok(o) ==> o.bounded(),
{
    match v {
        JsonValue::Obj(fields) => {
            let id = match u32_field(fields, "id") {
                Some(id) => id,
                None => {
                    return Err(LoadError::MalformedDocument(DocField::ObjectId));
                },
            };
            let x_micro = match micro_field(fields, "x") {
                Some(x) => x,
                None => {
                    return Err(LoadError::MalformedDocument(DocField::ObjectX));
                },
            };
            let y_micro = match micro_field(fields, "y") {
                Some(y) => y,
                None => {
                    return Err(LoadError::MalformedDocument(DocField::ObjectY));
                },
            };
            Ok(PlacedObject { id, x_micro, y_micro })
        },
        _ => Err(LoadError::MalformedDocument(DocField::Objects)),
    }
}

/// Extracts the objects of an object array.
fn objects_from_json(items: &Vec<JsonValue>) -> (r: Result<Vec<PlacedObject>, LoadError>)
    ensures
        r matches Ok(objs) ==> spec_objects_from_json(items@) == Ok::<
            Seq<PlacedObject>,
            LoadError,
        >(objs@) && forall|i: int| 0 <= i < objs@.len() ==> (#[trigger] objs@[i]).bounded(),
        r matches Err(e) ==> spec_objects_from_json(items@) == Err::<Seq<PlacedObject>, LoadError>(
            e,
        ),
{
    let mut out: Vec<PlacedObject> = Vec::new();
    let n = items.len();
    let mut i: usize = 0;
    proof {
        assert(items@.take(0) =~= Seq::<JsonValue>::empty());
    }
    while i < n
        invariant
            n == items@.len(),
            i <= n,
            spec_objects_from_json(items@.take(i as int)) == Ok::<Seq<PlacedObject>, LoadError>(
                out@,
            ),
            forall|k: int| 0 <= k < out@.len() ==> (#[trigger] out@[k]).bounded(),
        decreases n - i,
    {
        proof {
            assert(items@.take(i as int + 1).drop_last() =~= items@.take(i as int));
            assert(items@.take(i as int + 1).last() == items@[i as int]);
        }
        match object_from_json(&items[i]) {
            Ok(o) => {
                out.push(o);
            },
            Err(e) => {
                proof {
                    lemma_objects_err_persists(items@, i as int + 1);
                }
                return Err(e);
            },
        }
        i += 1;
    }
    proof {
        assert(items@.take(n as int) =~= items@);
    }
    Ok(out)
}

/// Extracts one layer.
fn layer_from_json(v: &JsonValue) -> (r: Result<Layer, LoadError>)
    ensures
        r matches Ok(l) ==> spec_layer_from_json(*v) == Ok::<LayerView, LoadError>(l@)
            && l@.bounded(),
        r matches Err(e) ==> spec_layer_from_json(*v) == Err::<LayerView, LoadError>(e),
{
    match v {
        JsonValue::Obj(fields) => {
            let name: String = match lookup(fields, "name") {
                Some(JsonValue::Str(name)) => name.clone(),
                _ => {
                    return Err(LoadError::MalformedDocument(DocField::LayerName));
                },
            };
            let data: Option<Vec<i64>> = match lookup(fields, "data") {
                None => None,
                Some(JsonValue::Arr(items)) => match cells_from_json(items) {
                    Some(cells) => Some(cells),
                    None => {
                        return Err(LoadError::MalformedDocument(DocField::CellData));
                    },
                },
                Some(_) => {
                    return Err(LoadError::MalformedDocument(DocField::CellData));
                },
            };
            let objects: Option<Vec<PlacedObject>> = match lookup(fields, "objects") {
                None => None,
                Some(JsonValue::Arr(items)) => match objects_from_json(items) {
                    Ok(objs) => Some(objs),
                    Err(e) => {
                        return Err(e);
                    },
                },
                Some(_) => {
                    return Err(LoadError::MalformedDocument(DocField::Objects));
                },
            };
            Ok(Layer { name, data, objects })
        },
        _ => Err(LoadError::MalformedDocument(DocField::Layers)),
    }
}

/// Extracts the layers of the `layers` array.
fn layers_from_json(items: &Vec<JsonValue>) -> (r: Result<Vec<Layer>, LoadError>)
    ensures
        r matches Ok(layers) ==> spec_layers_from_json(items@) == Ok::<Seq<LayerView>, LoadError>(
            layers@.map_values(|l: Layer| l@),
        ) && forall|i: int| 0 <= i < layers@.len() ==> (#[trigger] layers@[i])@.bounded(),
        r matches Err(e) ==> spec_layers_from_json(items@) == Err::<Seq<LayerView>, LoadError>(e),
{
    let mut out: Vec<Layer> = Vec::new();
    let n = items.len();
    let mut i: usize = 0;
    proof {
        assert(items@.take(0) =~= Seq::<JsonValue>::empty());
        assert(out@.map_values(|l: Layer| l@) =~= Seq::<LayerView>::empty());
    }
    while i < n
        invariant
            n == items@.len(),
            i <= n,
            spec_layers_from_json(items@.take(i as int)) == Ok::<Seq<LayerView>, LoadError>(
                out@.map_values(|l: Layer| l@),
            ),
            forall|k: int| 0 <= k < out@.len() ==> (#[trigger] out@[k])@.bounded(),
        decreases n - i,
    {
        proof {
            assert(items@.take(i as int + 1).drop_last() =~= items@.take(i as int));
            assert(items@.take(i as int + 1).last() == items@[i as int]);
        }
        let ghost prev = out@;
        match layer_from_json(&items[i]) {
            Ok(l) => {
                out.push(l);
                proof {
                    assert(out@.map_values(|l: Layer| l@) =~= prev.map_values(
                        |l: Layer| l@,
                    ).push(out@[out@.len() - 1]@));
                }
            },
            Err(e) => {
                proof {
                    lemma_layers_parse_err_persists(items@, i as int + 1);
                }
                return Err(e);
            },
        }
        i += 1;
    }
    proof {
        assert(items@.take(n as int) =~= items@);
    }
    Ok(out)
}

/// Extracts one tileset reference.
fn tileset_entry_from_json(v: &JsonValue) -> (r: Result<TiledMapSet, LoadError>)
    ensures
        r == spec_tileset_entry_from_json(*v),
{
    match v {
        JsonValue::Obj(fields) => {
            let firstgid = match u32_field(fields, "firstgid") {
                Some(g) => g,
                None => {
                    return Err(LoadError::MalformedDocument(DocField::FirstGid));
                },
            };
            match lookup(fields, "source") {
                Some(JsonValue::Str(source)) => Ok(
                    TiledMapSet { firstgid, source: source.clone() },
                ),
                _ => Err(LoadError::MalformedDocument(DocField::Source)),
            }
        },
        _ => Err(LoadError::MalformedDocument(DocField::TileSets)),
    }
}

/// Extracts the optional `tilesets` array of a map document.
fn map_tilesets(fields: &Vec<(String, JsonValue)>) -> (r: Result<Vec<TiledMapSet>, LoadError>)
    ensures
        r matches Ok(ts) ==> spec_map_tilesets(fields@) == Ok::<Seq<TiledMapSet>, LoadError>(ts@),
        r matches Err(e) ==> spec_map_tilesets(fields@) == Err::<Seq<TiledMapSet>, LoadError>(e),
{
    let items = match lookup(fields, "tilesets") {
        None => {
            return Ok(Vec::new());
        },
        Some(JsonValue::Arr(items)) => items,
        Some(_) => {
            return Err(LoadError::MalformedDocument(DocField::TileSets));
        },
    };
    let mut out: Vec<TiledMapSet> = Vec::new();
    let n = items.len();
    let mut i: usize = 0;
    proof {
        assert(items@.take(0) =~= Seq::<JsonValue>::empty());
    }
    while i < n
        invariant
            n == items@.len(),
            i <= n,
            spec_map_tilesets(fields@) == spec_tilesets_entries(items@),
            spec_tilesets_entries(items@.take(i as int)) == Ok::<Seq<TiledMapSet>, LoadError>(
                out@,
            ),
        decreases n - i,
    {
        proof {
            assert(items@.take(i as int + 1).drop_last() =~= items@.take(i as int));
            assert(items@.take(i as int + 1).last() == items@[i as int]);
        }
        match tileset_entry_from_json(&items[i]) {
            Ok(t) => {
                out.push(t);
            },
            Err(e) => {
                proof {
                    lemma_tilesets_err_persists(items@, i as int + 1);
                }
                return Err(e);
            },
        }
        i += 1;
    }
    proof {
        assert(items@.take(n as int) =~= items@);
    }
    Ok(out)
}

/// Extracts the typed map from a parsed document tree.
pub fn map_from_json(v: &JsonValue) -> (r: Result<TiledMap, LoadError>)
    ensures
        r matches Ok(m) ==> spec_map_from_json(*v) == Ok::<MapView, LoadError>(m@)
            && m@.bounded(),
        r matches Err(e) ==> spec_map_from_json(*v) == Err::<MapView, LoadError>(e),
{
    match v {
        JsonValue::Obj(fields) => {
            let tilewidth_micro = match micro_field(fields, "tilewidth") {
                Some(w) => w,
                None => {
                    return Err(LoadError::MalformedDocument(DocField::TileWidth));
                },
            };
            let tileheight_micro = match micro_field(fields, "tileheight") {
                Some(h) => h,
                None => {
                    return Err(LoadError::MalformedDocument(DocField::TileHeight));
                },
            };
            let width = match u32_field(fields, "width") {
                Some(w) => w,
                None => {
                    return Err(LoadError::MalformedDocument(DocField::MapWidth));
                },
            };
            let height = match u32_field(fields, "height") {
                Some(h) => h,
                None => {
                    return Err(LoadError::MalformedDocument(DocField::MapHeight));
                },
            };
            let layers = match lookup(fields, "layers") {
                Some(JsonValue::Arr(items)) => match layers_from_json(items) {
                    Ok(layers) => layers,
                    Err(e) => {
                        return Err(e);
                    },
                },
                _ => {
                    return Err(LoadError::MalformedDocument(DocField::Layers));
                },
            };
            let tilesets = match map_tilesets(fields) {
                Ok(ts) => ts,
                Err(e) => {
                    return Err(e);
                },
            };
            let m = TiledMap { tilewidth_micro, tileheight_micro, width, height, layers, tilesets };
            proof {
                assert(m@.layers =~= m.layers@.map_values(|l: Layer| l@));
            }
            Ok(m)
        },
        _ => Err(LoadError::MalformedDocument(DocField::Document)),
    }
}

/// Extracts the typed tileset from a parsed document tree.
pub fn tileset_from_json(v: &JsonValue) -> (r: Result<TileSet, LoadError>)
    ensures
        r == spec_tileset_from_json(*v),
{
    match v {
        JsonValue::Obj(fields) => {
            let columns = match u32_field(fields, "columns") {
                Some(c) => c,
                None => {
                    return Err(LoadError::MalformedDocument(DocField::Columns));
                },
            };
            let tilecount = match u32_field(fields, "tilecount") {
                Some(c) => c,
                None => {
                    return Err(LoadError::MalformedDocument(DocField::TileCount));
                },
            };
            let tilewidth = match u32_field(fields, "tilewidth") {
                Some(w) => w,
                None => {
                    return Err(LoadError::MalformedDocument(DocField::TileWidth));
                },
            };
            let tileheight = match u32_field(fields, "tileheight") {
                Some(h) => h,
                None => {
                    return Err(LoadError::MalformedDocument(DocField::TileHeight));
                },
            };
            Ok(TileSet { columns, tilecount, tilewidth, tileheight })
        },
        _ => Err(LoadError::MalformedDocument(DocField::Document)),
    }
}

impl TiledMap {
    /// Loads a map from its document text: reads the full JSON text and
    /// deserializes it into the typed model; a structural failure names
    /// the field at fault, and nothing is silently defaulted.
    pub fn from_json(text: &str) -> (r: Result<TiledMap, LoadError>)
        ensures
            r matches Ok(m) ==> spec_load_map(text@) == Ok::<MapView, LoadError>(m@)
                && m@.bounded(),
            r matches Err(e) ==> spec_load_map(text@) == Err::<MapView, LoadError>(e),
    {
        match parse_document(text) {
            None => Err(LoadError::MalformedDocument(DocField::Document)),
            Some(tree) => map_from_json(&tree),
        }
    }
}

impl TileSet {
    /// Loads a tileset from its document text. The document's `image`
    /// field is ignored: the backing image path is supplied by the host.
    pub fn from_json(text: &str) -> (r: Result<TileSet, LoadError>)
        ensures
            r == spec_load_tileset(text@),
    {
        match parse_document(text) {
            None => Err(LoadError::MalformedDocument(DocField::Document)),
            Some(tree) => tileset_from_json(&tree),
        }
    }
}

} // verus!

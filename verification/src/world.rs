//! The layer dispatcher and world builder: walks the layers of a map in
//! declaration order and materializes one entity-creation request per
//! non-empty cell or placed object.
//!
//! Dispatch goes by exact layer name: `"collision"` emits collision
//! volumes, `"objects"` emits free-form object spawns (each of which owes
//! one extension-hook invocation to the host), and any other name emits
//! visual tiles. A layer's position in the declaration sequence becomes
//! the depth of every request it emits, so later layers draw on top.
use vstd::prelude::*;

use crate::atlas::AtlasLayout;
use crate::coords::CoordinateMapper;
use crate::coords::MapConfig;
use crate::coords::SCALE_LIMIT_MICRO;
use crate::coords::STEP_LIMIT_PICO;
use crate::coords::spec_cell_x;
use crate::coords::spec_cell_y;
use crate::coords::spec_object_x;
use crate::coords::spec_object_y;
use crate::coords::spec_step_x;
use crate::coords::spec_step_y;
use crate::model::DocField;
use crate::model::Layer;
use crate::model::LayerView;
use crate::model::MapView;
use crate::model::LoadError;
use crate::model::NUMBER_LIMIT_MICRO;
use crate::model::PlacedObject;
use crate::model::TiledMap;
use crate::model::name_eq;

verus! {

/// One entity-creation request, in the order the sink must receive them.
/// Positions and footprints are world-space pico-units; `depth` is the
/// index of the originating layer in the declaration sequence.
#[derive(Clone, Copy, Debug, PartialEq, Eq, Structural)]
pub enum SpawnRequest {
    /// A visual tile: position, scaled footprint, and the atlas cell
    /// (index plus the derived column and row) to draw.
    VisualTile {
        x_pico: i128,
        y_pico: i128,
        w_pico: i128,
        h_pico: i128,
        atlas_index: u32,
        atlas_col: u32,
        atlas_row: u32,
        depth: usize,
    },
    /// A collision volume: position and scaled footprint, no visual
    /// payload.
    Collision { x_pico: i128, y_pico: i128, w_pico: i128, h_pico: i128, depth: usize },
    /// A free-form placed object at its own (converted) position; after
    /// creating its entity the host must invoke the extension hook once
    /// with this id.
    Object { id: u32, x_pico: i128, y_pico: i128, depth: usize },
}

/// The layer index a request was emitted from.
pub open spec fn spec_depth(r: SpawnRequest) -> int {
    match r {
        SpawnRequest::VisualTile { depth, .. } => depth as int,
        SpawnRequest::Collision { depth, .. } => depth as int,
        SpawnRequest::Object { depth, .. } => depth as int,
    }
}

/// The visual-tile request of grid cell `index` showing atlas tile `tile`.
pub open spec fn spec_visual_request(
    map: MapView,
    layout: AtlasLayout,
    cfg: MapConfig,
    depth: int,
    index: int,
    tile: int,
) -> SpawnRequest {
    SpawnRequest::VisualTile {
        x_pico: spec_cell_x(map, cfg, index) as i128,
        y_pico: spec_cell_y(map, cfg, index) as i128,
        w_pico: spec_step_x(map, cfg) as i128,
        h_pico: spec_step_y(map, cfg) as i128,
        atlas_index: tile as u32,
        atlas_col: layout.spec_cell_col(tile) as u32,
        atlas_row: layout.spec_cell_row(tile) as u32,
        depth: depth as usize,
    }
}

/// The collision request of grid cell `index`.
pub open spec fn spec_collision_request(
    map: MapView,
    cfg: MapConfig,
    depth: int,
    index: int,
) -> SpawnRequest {
    SpawnRequest::Collision {
        x_pico: spec_cell_x(map, cfg, index) as i128,
        y_pico: spec_cell_y(map, cfg, index) as i128,
        w_pico: spec_step_x(map, cfg) as i128,
        h_pico: spec_step_y(map, cfg) as i128,
        depth: depth as usize,
    }
}

/// The request of one placed object, at its own converted position.
pub open spec fn spec_object_request(cfg: MapConfig, depth: int, o: PlacedObject) -> SpawnRequest {
    SpawnRequest::Object {
        id: o.id,
        x_pico: spec_object_x(cfg, o) as i128,
        y_pico: spec_object_y(cfg, o) as i128,
        depth: depth as usize,
    }
}

/// Requests of a visual tile layer from cell `start` on: value 0 is the
/// empty sentinel and emits nothing; a value `v > 0` emits one request for
/// atlas tile `v - 1`; any other value is an out-of-range tile index.
pub open spec fn spec_tile_cells(
    map: MapView,
    layout: AtlasLayout,
    cfg: MapConfig,
    depth: int,
    cells: Seq<i64>,
    start: int,
) -> Result<Seq<SpawnRequest>, LoadError>
    decreases cells.len() - start,
{
    if start < 0 || start >= cells.len() {
        Ok(Seq::empty())
    } else {
        let v = cells[start];
        if v == 0 {
            spec_tile_cells(map, layout, cfg, depth, cells, start + 1)
        } else if v < 1 || v - 1 >= layout.tilecount as i64 {
            Err(LoadError::OutOfRangeTileIndex((v - 1) as i64))
        } else {
            match spec_tile_cells(map, layout, cfg, depth, cells, start + 1) {
                Ok(rest) => Ok(
                    seq![spec_visual_request(map, layout, cfg, depth, start, v - 1)] + rest,
                ),
                Err(e) => Err(e),
            }
        }
    }
}

/// Requests of a collision layer from cell `start` on: every non-empty
/// cell emits one collision volume; no atlas lookup and no range check.
pub open spec fn spec_collision_cells(
    map: MapView,
    cfg: MapConfig,
    depth: int,
    cells: Seq<i64>,
    start: int,
) -> Seq<SpawnRequest>
    decreases cells.len() - start,
{
    if start < 0 || start >= cells.len() {
        Seq::empty()
    } else if cells[start] == 0 {
        spec_collision_cells(map, cfg, depth, cells, start + 1)
    } else {
        seq![spec_collision_request(map, cfg, depth, start)] + spec_collision_cells(
            map,
            cfg,
            depth,
            cells,
            start + 1,
        )
    }
}

/// Requests of an object layer: one per object, in declaration order.
pub open spec fn spec_objects(cfg: MapConfig, depth: int, objs: Seq<PlacedObject>) -> Seq<
    SpawnRequest,
> {
    objs.map_values(|o: PlacedObject| spec_object_request(cfg, depth, o))
}

/// Requests of one layer at declaration index `depth`. A layer carrying
/// both cell data and objects violates the model invariant; a layer whose
/// expected field is absent contributes nothing; a tile or collision layer
/// whose cell count differs from `width * height` violates the invariant.
pub open spec fn spec_layer_requests(
    map: MapView,
    layout: AtlasLayout,
    cfg: MapConfig,
    depth: int,
    layer: LayerView,
) -> Result<Seq<SpawnRequest>, LoadError> {
    if layer.data is Some && layer.objects is Some {
        Err(LoadError::InvariantViolation(DocField::LayerShape))
    } else if layer.name == "collision"@ {
        match layer.data {
            Some(cells) => if cells.len() != map.width as int * map.height as int {
                Err(LoadError::InvariantViolation(DocField::CellData))
            } else {
                Ok(spec_collision_cells(map, cfg, depth, cells, 0))
            },
            None => Ok(Seq::empty()),
        }
    } else if layer.name == "objects"@ {
        match layer.objects {
            Some(objs) => Ok(spec_objects(cfg, depth, objs)),
            None => Ok(Seq::empty()),
        }
    } else {
        match layer.data {
            Some(cells) => if cells.len() != map.width as int * map.height as int {
                Err(LoadError::InvariantViolation(DocField::CellData))
            } else {
                spec_tile_cells(map, layout, cfg, depth, cells, 0)
            },
            None => Ok(Seq::empty()),
        }
    }
}

/// Requests of the first `n` layers, concatenated in declaration order;
/// the first failing layer aborts the build.
pub open spec fn spec_layers(map: MapView, layout: AtlasLayout, cfg: MapConfig, n: int) -> Result<
    Seq<SpawnRequest>,
    LoadError,
>
    decreases n,
{
    if n <= 0 {
        Ok(Seq::empty())
    } else {
        match spec_layers(map, layout, cfg, n - 1) {
            Err(e) => Err(e),
            Ok(s) => match spec_layer_requests(map, layout, cfg, n - 1, map.layers[n - 1]) {
                Err(e) => Err(e),
                Ok(t) => Ok(s + t),
            },
        }
    }
}

/// The one-time world build: every request the map emits, in order, or the
/// first failure. Grid dimensions and tile dimensions must be positive.
pub open spec fn spec_spawn_world(map: MapView, layout: AtlasLayout, cfg: MapConfig) -> Result<
    Seq<SpawnRequest>,
    LoadError,
> {
    if map.width == 0 {
        Err(LoadError::InvariantViolation(DocField::MapWidth))
    } else if map.height == 0 {
        Err(LoadError::InvariantViolation(DocField::MapHeight))
    } else if map.tilewidth_micro <= 0 {
        Err(LoadError::InvariantViolation(DocField::TileWidth))
    } else if map.tileheight_micro <= 0 {
        Err(LoadError::InvariantViolation(DocField::TileHeight))
    } else {
        spec_layers(map, layout, cfg, map.layers.len() as int)
    }
}

/// The tile steps a bounded map and a valid configuration produce stay in
/// range of the mapper's field type.
proof fn lemma_steps_in_range(map: MapView, cfg: MapConfig)
    requires
        map.bounded(),
        cfg.wf(),
        0 < map.tilewidth_micro,
        0 < map.tileheight_micro,
    ensures
        0 < spec_step_x(map, cfg) <= STEP_LIMIT_PICO,
        0 < spec_step_y(map, cfg) <= STEP_LIMIT_PICO,
{
    assert(0 < map.tilewidth_micro * cfg.scale_micro <= NUMBER_LIMIT_MICRO * SCALE_LIMIT_MICRO)
        by (nonlinear_arith)
        requires
            0 < map.tilewidth_micro <= NUMBER_LIMIT_MICRO,
            0 < cfg.scale_micro <= SCALE_LIMIT_MICRO,
    ;
    assert(0 < map.tileheight_micro * cfg.scale_micro <= NUMBER_LIMIT_MICRO * SCALE_LIMIT_MICRO)
        by (nonlinear_arith)
        requires
            0 < map.tileheight_micro <= NUMBER_LIMIT_MICRO,
            0 < cfg.scale_micro <= SCALE_LIMIT_MICRO,
    ;
}

/// Emits the visual-tile requests of one tile layer.
fn spawn_tile_cells(
    map: &TiledMap,
    layout: &AtlasLayout,
    cfg: &MapConfig,
    mapper: &CoordinateMapper,
    cells: &Vec<i64>,
    depth: usize,
) -> (r: Result<Vec<SpawnRequest>, LoadError>)
    requires
        map@.bounded(),
        cfg.wf(),
        layout.wf(),
        1 <= map.width,
        1 <= map.height,
        0 < map.tilewidth_micro,
        0 < map.tileheight_micro,
        *mapper == CoordinateMapper::spec_new(map@, *cfg),
        cells@.len() == map.width as int * map.height as int,
        forall|j: int|
            0 <= j < cells@.len() ==> -NUMBER_LIMIT_MICRO <= #[trigger] cells@[j]
                <= NUMBER_LIMIT_MICRO,
    ensures
        r matches Ok(v) ==> spec_tile_cells(map@, *layout, *cfg, depth as int, cells@, 0) == Ok::<
            Seq<SpawnRequest>,
            LoadError,
        >(v@),
        r matches Err(e) ==> spec_tile_cells(map@, *layout, *cfg, depth as int, cells@, 0)
            == Err::<Seq<SpawnRequest>, LoadError>(e),
{
    proof {
        lemma_steps_in_range(map@, *cfg);
    }
    let ghost d = depth as int;
    let mut out: Vec<SpawnRequest> = Vec::new();
    let n = cells.len();
    let mut i: usize = 0;
    while i < n
        invariant
            map@.bounded(),
            cfg.wf(),
            layout.wf(),
            1 <= map.width,
            1 <= map.height,
            0 < map.tilewidth_micro,
            0 < map.tileheight_micro,
            *mapper == CoordinateMapper::spec_new(map@, *cfg),
            mapper.wf(),
            cells@.len() == map.width as int * map.height as int,
            forall|j: int|
                0 <= j < cells@.len() ==> -NUMBER_LIMIT_MICRO <= #[trigger] cells@[j]
                    <= NUMBER_LIMIT_MICRO,
            n == cells@.len(),
            i <= n,
            d == depth as int,
            spec_tile_cells(map@, *layout, *cfg, d, cells@, 0) == (match spec_tile_cells(
                map@,
                *layout,
                *cfg,
                d,
                cells@,
                i as int,
            ) {
                Ok(t) => Ok::<Seq<SpawnRequest>, LoadError>(out@ + t),
                Err(e) => Err::<Seq<SpawnRequest>, LoadError>(e),
            }),
        decreases n - i,
    {
        let v = cells[i];
        if v == 0 {
            proof {
                assert(spec_tile_cells(map@, *layout, *cfg, d, cells@, i as int)
                    == spec_tile_cells(map@, *layout, *cfg, d, cells@, i as int + 1));
            }
        } else if v < 1 || v - 1 >= layout.tilecount as i64 {
            proof {
                assert(spec_tile_cells(map@, *layout, *cfg, d, cells@, i as int) == Err::<
                    Seq<SpawnRequest>,
                    LoadError,
                >(LoadError::OutOfRangeTileIndex((v - 1) as i64)));
            }
            return Err(LoadError::OutOfRangeTileIndex(v - 1));
        } else {
            let tile = (v - 1) as u32;
            let (acol, arow) = match layout.cell_of(tile) {
                Ok(cell) => cell,
                Err(e) => {
                    proof {
                        assert(false);
                    }
                    return Err(e);
                },
            };
            let pos = mapper.position(i as u64);
            let ghost prev = out@;
            let ghost req = spec_visual_request(map@, *layout, *cfg, d, i as int, v - 1);
            proof {
                lemma_steps_in_range(map@, *cfg);
                assert(mapper.step_x_pico as int == spec_step_x(map@, *cfg));
                assert(mapper.step_y_pico as int == spec_step_y(map@, *cfg));
                assert(pos.0 == spec_cell_x(map@, *cfg, i as int) as i128);
                assert(pos.1 == spec_cell_y(map@, *cfg, i as int) as i128);
                assert(tile as int == v - 1);
            }
            out.push(
                SpawnRequest::VisualTile {
                    x_pico: pos.0,
                    y_pico: pos.1,
                    w_pico: mapper.step_x_pico,
                    h_pico: mapper.step_y_pico,
                    atlas_index: tile,
                    atlas_col: acol,
                    atlas_row: arow,
                    depth,
                },
            );
            proof {
                assert(out@ == prev.push(req));
                let rest_r = spec_tile_cells(map@, *layout, *cfg, d, cells@, i as int + 1);
                assert(spec_tile_cells(map@, *layout, *cfg, d, cells@, i as int) == (match rest_r {
                    Ok(rest) => Ok::<Seq<SpawnRequest>, LoadError>(seq![req] + rest),
                    Err(e) => Err::<Seq<SpawnRequest>, LoadError>(e),
                }));
                if rest_r is Ok {
                    let rest = rest_r->Ok_0;
                    assert(prev + (seq![req] + rest) =~= prev.push(req) + rest);
                }
            }
        }
        i += 1;
    }
    proof {
        assert(spec_tile_cells(map@, *layout, *cfg, d, cells@, n as int) == Ok::<
            Seq<SpawnRequest>,
            LoadError,
        >(Seq::empty()));
        assert(out@ + Seq::<SpawnRequest>::empty() =~= out@);
    }
    Ok(out)
}

/// Emits the collision requests of one collision layer.
fn spawn_collision_cells(
    map: &TiledMap,
    cfg: &MapConfig,
    mapper: &CoordinateMapper,
    cells: &Vec<i64>,
    depth: usize,
) -> (r: Vec<SpawnRequest>)
    requires
        map@.bounded(),
        cfg.wf(),
        1 <= map.width,
        1 <= map.height,
        0 < map.tilewidth_micro,
        0 < map.tileheight_micro,
        *mapper == CoordinateMapper::spec_new(map@, *cfg),
        cells@.len() == map.width as int * map.height as int,
    ensures
        r@ == spec_collision_cells(map@, *cfg, depth as int, cells@, 0),
{
    proof {
        lemma_steps_in_range(map@, *cfg);
    }
    let ghost d = depth as int;
    let mut out: Vec<SpawnRequest> = Vec::new();
    let n = cells.len();
    let mut i: usize = 0;
    proof {
        assert(out@ + spec_collision_cells(map@, *cfg, d, cells@, 0) =~= spec_collision_cells(
            map@,
            *cfg,
            d,
            cells@,
            0,
        ));
    }
    while i < n
        invariant
            map@.bounded(),
            cfg.wf(),
            1 <= map.width,
            1 <= map.height,
            0 < map.tilewidth_micro,
            0 < map.tileheight_micro,
            *mapper == CoordinateMapper::spec_new(map@, *cfg),
            mapper.wf(),
            cells@.len() == map.width as int * map.height as int,
            n == cells@.len(),
            i <= n,
            d == depth as int,
            spec_collision_cells(map@, *cfg, d, cells@, 0) == out@ + spec_collision_cells(
                map@,
                *cfg,
                d,
                cells@,
                i as int,
            ),
        decreases n - i,
    {
        let v = cells[i];
        if v != 0 {
            let pos = mapper.position(i as u64);
            let ghost prev = out@;
            let ghost req = spec_collision_request(map@, *cfg, d, i as int);
            proof {
                lemma_steps_in_range(map@, *cfg);
                assert(mapper.step_x_pico as int == spec_step_x(map@, *cfg));
                assert(mapper.step_y_pico as int == spec_step_y(map@, *cfg));
                assert(pos.0 == spec_cell_x(map@, *cfg, i as int) as i128);
                assert(pos.1 == spec_cell_y(map@, *cfg, i as int) as i128);
            }
            out.push(
                SpawnRequest::Collision {
                    x_pico: pos.0,
                    y_pico: pos.1,
                    w_pico: mapper.step_x_pico,
                    h_pico: mapper.step_y_pico,
                    depth,
                },
            );
            proof {
                assert(spec_collision_cells(map@, *cfg, d, cells@, i as int) == seq![req]
                    + spec_collision_cells(map@, *cfg, d, cells@, i as int + 1));
                assert(prev + (seq![req] + spec_collision_cells(map@, *cfg, d, cells@, i as int + 1))
                    =~= out@ + spec_collision_cells(map@, *cfg, d, cells@, i as int + 1));
            }
        } else {
            proof {
                assert(spec_collision_cells(map@, *cfg, d, cells@, i as int)
                    == spec_collision_cells(map@, *cfg, d, cells@, i as int + 1));
            }
        }
        i += 1;
    }
    proof {
        assert(spec_collision_cells(map@, *cfg, d, cells@, n as int) =~= Seq::<
            SpawnRequest,
        >::empty());
        assert(out@ + Seq::<SpawnRequest>::empty() =~= out@);
    }
    out
}

/// Emits the object requests of one object layer, in declaration order.
fn spawn_objects(cfg: &MapConfig, objs: &Vec<PlacedObject>, depth: usize) -> (r: Vec<SpawnRequest>)
    requires
        cfg.wf(),
        forall|j: int| 0 <= j < objs@.len() ==> (#[trigger] objs@[j]).bounded(),
    ensures
        r@ == spec_objects(*cfg, depth as int, objs@),
{
    let ghost d = depth as int;
    let ghost f = |o: PlacedObject| spec_object_request(*cfg, d, o);
    let mut out: Vec<SpawnRequest> = Vec::new();
    let n = objs.len();
    let mut i: usize = 0;
    proof {
        assert(out@ =~= spec_objects(*cfg, d, objs@.take(0)));
    }
    while i < n
        invariant
            cfg.wf(),
            forall|j: int| 0 <= j < objs@.len() ==> (#[trigger] objs@[j]).bounded(),
            n == objs@.len(),
            i <= n,
            d == depth as int,
            f == (|o: PlacedObject| spec_object_request(*cfg, d, o)),
            out@ == objs@.take(i as int).map_values(f),
        decreases n - i,
    {
        let o = &objs[i];
        proof {
            assert(objs@[i as int].bounded());
            assert((-(NUMBER_LIMIT_MICRO * SCALE_LIMIT_MICRO) <= (o.x_micro as int) * (
            cfg.object_scale_x_micro as int)) && ((o.x_micro as int) * (
            cfg.object_scale_x_micro as int) <= NUMBER_LIMIT_MICRO * SCALE_LIMIT_MICRO))
                by (nonlinear_arith)
                requires
                    -NUMBER_LIMIT_MICRO <= o.x_micro <= NUMBER_LIMIT_MICRO,
                    -SCALE_LIMIT_MICRO <= cfg.object_scale_x_micro <= SCALE_LIMIT_MICRO,
            ;
            assert((-(NUMBER_LIMIT_MICRO * SCALE_LIMIT_MICRO) <= (o.y_micro as int) * (
            cfg.object_scale_y_micro as int)) && ((o.y_micro as int) * (
            cfg.object_scale_y_micro as int) <= NUMBER_LIMIT_MICRO * SCALE_LIMIT_MICRO))
                by (nonlinear_arith)
                requires
                    -NUMBER_LIMIT_MICRO <= o.y_micro <= NUMBER_LIMIT_MICRO,
                    -SCALE_LIMIT_MICRO <= cfg.object_scale_y_micro <= SCALE_LIMIT_MICRO,
            ;
        }
        let x = (o.x_micro as i128) * (cfg.object_scale_x_micro as i128);
        let y = -((o.y_micro as i128) * (cfg.object_scale_y_micro as i128));
        out.push(SpawnRequest::Object { id: o.id, x_pico: x, y_pico: y, depth });
        proof {
            assert(objs@.take(i as int + 1).map_values(f) =~= objs@.take(i as int).map_values(
                f,
            ).push(f(objs@[i as int])));
        }
        i += 1;
    }
    proof {
        assert(objs@.take(n as int) =~= objs@);
    }
    out
}

/// Emits the requests of one layer: dispatches on the layer's name and on
/// which of its fields is populated.
fn spawn_layer(
    map: &TiledMap,
    layout: &AtlasLayout,
    cfg: &MapConfig,
    mapper: &CoordinateMapper,
    layer: &Layer,
    depth: usize,
) -> (r: Result<Vec<SpawnRequest>, LoadError>)
    requires
        map@.bounded(),
        cfg.wf(),
        layout.wf(),
        1 <= map.width,
        1 <= map.height,
        0 < map.tilewidth_micro,
        0 < map.tileheight_micro,
        *mapper == CoordinateMapper::spec_new(map@, *cfg),
        layer@.bounded(),
    ensures
        r matches Ok(v) ==> spec_layer_requests(map@, *layout, *cfg, depth as int, layer@)
            == Ok::<Seq<SpawnRequest>, LoadError>(v@),
        r matches Err(e) ==> spec_layer_requests(map@, *layout, *cfg, depth as int, layer@)
            == Err::<Seq<SpawnRequest>, LoadError>(e),
{
    if layer.data.is_some() && layer.objects.is_some() {
        return Err(LoadError::InvariantViolation(DocField::LayerShape));
    }
    proof {
        assert(map.width as int * map.height as int <= 4294967295 * 4294967295)
            by (nonlinear_arith)
            requires
                0 <= map.width as int <= 4294967295,
                0 <= map.height as int <= 4294967295,
        ;
    }
    let wh = (map.width as u64) * (map.height as u64);
    if name_eq(&layer.name, "collision") {
        match &layer.data {
            Some(cells) => {
                if cells.len() as u64 != wh {
                    Err(LoadError::InvariantViolation(DocField::CellData))
                } else {
                    Ok(spawn_collision_cells(map, cfg, mapper, cells, depth))
                }
            },
            None => Ok(Vec::new()),
        }
    } else if name_eq(&layer.name, "objects") {
        match &layer.objects {
            Some(objs) => Ok(spawn_objects(cfg, objs, depth)),
            None => Ok(Vec::new()),
        }
    } else {
        match &layer.data {
            Some(cells) => {
                if cells.len() as u64 != wh {
                    Err(LoadError::InvariantViolation(DocField::CellData))
                } else {
                    spawn_tile_cells(map, layout, cfg, mapper, cells, depth)
                }
            },
            None => Ok(Vec::new()),
        }
    }
}

/// An error among the first `k` layers persists through every longer
/// prefix: the build fails fast on the first failing layer.
proof fn lemma_layers_err_persists(
    map: MapView,
    layout: AtlasLayout,
    cfg: MapConfig,
    k: int,
    n: int,
)
    requires
        0 <= k <= n,
        spec_layers(map, layout, cfg, k) is Err,
    ensures
        spec_layers(map, layout, cfg, n) == spec_layers(map, layout, cfg, k),
    decreases n - k,
{
    if n > k {
        lemma_layers_err_persists(map, layout, cfg, k, n - 1);
    }
}

/// Walks all layers of the map in declaration order and materializes every
/// entity-creation request, or reports the first failure.
pub fn spawn_world(map: &TiledMap, layout: &AtlasLayout, cfg: &MapConfig) -> (r: Result<
    Vec<SpawnRequest>,
    LoadError,
>)
    requires
        map@.bounded(),
        layout.wf(),
        cfg.wf(),
    ensures
        r matches Ok(v) ==> spec_spawn_world(map@, *layout, *cfg) == Ok::<
            Seq<SpawnRequest>,
            LoadError,
        >(v@),
        r matches Err(e) ==> spec_spawn_world(map@, *layout, *cfg) == Err::<
            Seq<SpawnRequest>,
            LoadError,
        >(e),
{
    if map.width == 0 {
        return Err(LoadError::InvariantViolation(DocField::MapWidth));
    }
    if map.height == 0 {
        return Err(LoadError::InvariantViolation(DocField::MapHeight));
    }
    if map.tilewidth_micro <= 0 {
        return Err(LoadError::InvariantViolation(DocField::TileWidth));
    }
    if map.tileheight_micro <= 0 {
        return Err(LoadError::InvariantViolation(DocField::TileHeight));
    }
    let mapper = CoordinateMapper::new(map, cfg);
    let mut out: Vec<SpawnRequest> = Vec::new();
    let n = map.layers.len();
    let mut li: usize = 0;
    while li < n
        invariant
            map@.bounded(),
            cfg.wf(),
            layout.wf(),
            1 <= map.width,
            1 <= map.height,
            0 < map.tilewidth_micro,
            0 < map.tileheight_micro,
            mapper == CoordinateMapper::spec_new(map@, *cfg),
            n == map@.layers.len(),
            li <= n,
            spec_layers(map@, *layout, *cfg, li as int) == Ok::<Seq<SpawnRequest>, LoadError>(
                out@,
            ),
        decreases n - li,
    {
        let layer = &map.layers[li];
        proof {
            assert(map@.layers[li as int] == map.layers@[li as int]@);
            assert(map@.layers[li as int].bounded());
        }
        let mut reqs = match spawn_layer(map, layout, cfg, &mapper, layer, li) {
            Ok(v) => v,
            Err(e) => {
                proof {
                    assert(spec_layers(map@, *layout, *cfg, li as int + 1) == Err::<
                        Seq<SpawnRequest>,
                        LoadError,
                    >(e));
                    lemma_layers_err_persists(map@, *layout, *cfg, li as int + 1, n as int);
                }
                return Err(e);
            },
        };
        let ghost prev = out@;
        out.append(&mut reqs);
        proof {
            assert(spec_layers(map@, *layout, *cfg, li as int + 1) == Ok::<
                Seq<SpawnRequest>,
                LoadError,
            >(out@));
        }
        li += 1;
    }
    Ok(out)
}

/// Number of non-empty cells from `start` on.
pub open spec fn count_nonzero_from(cells: Seq<i64>, start: int) -> int
    decreases cells.len() - start,
{
    if start < 0 || start >= cells.len() {
        0
    } else {
        (if cells[start] != 0 {
            1int
        } else {
            0int
        }) + count_nonzero_from(cells, start + 1)
    }
}

/// An empty cell (raw value 0) emits nothing: the requests from cell `i`
/// on are exactly the requests from cell `i + 1` on, for visual and for
/// collision layers alike.
pub proof fn lemma_empty_cell_skip(
    map: MapView,
    layout: AtlasLayout,
    cfg: MapConfig,
    depth: int,
    cells: Seq<i64>,
    i: int,
)
    requires
        0 <= i < cells.len(),
        cells[i] == 0,
    ensures
        spec_tile_cells(map, layout, cfg, depth, cells, i) == spec_tile_cells(
            map,
            layout,
            cfg,
            depth,
            cells,
            i + 1,
        ),
        spec_collision_cells(map, cfg, depth, cells, i) == spec_collision_cells(
            map,
            cfg,
            depth,
            cells,
            i + 1,
        ),
{
}

/// A non-empty cell with raw value `v > 0` within the atlas range emits
/// exactly one request, a visual tile for atlas index `v - 1`, ahead of
/// whatever the following cells emit.
pub proof fn lemma_nonzero_cell_spawns(
    map: MapView,
    layout: AtlasLayout,
    cfg: MapConfig,
    depth: int,
    cells: Seq<i64>,
    i: int,
)
    requires
        0 <= i < cells.len(),
        1 <= cells[i],
        cells[i] - 1 < layout.tilecount as int,
    ensures
        spec_tile_cells(map, layout, cfg, depth, cells, i + 1) matches Ok(rest)
            ==> spec_tile_cells(map, layout, cfg, depth, cells, i) == Ok::<
            Seq<SpawnRequest>,
            LoadError,
        >(seq![spec_visual_request(map, layout, cfg, depth, i, cells[i] - 1)] + rest),
{
}

/// A visual tile layer that builds emits exactly one request per non-empty
/// cell.
pub proof fn lemma_tile_cells_count(
    map: MapView,
    layout: AtlasLayout,
    cfg: MapConfig,
    depth: int,
    cells: Seq<i64>,
    start: int,
)
    ensures
        spec_tile_cells(map, layout, cfg, depth, cells, start) matches Ok(s) ==> s.len()
            == count_nonzero_from(cells, start),
    decreases cells.len() - start,
{
    if 0 <= start < cells.len() {
        lemma_tile_cells_count(map, layout, cfg, depth, cells, start + 1);
    }
}

/// A collision layer emits exactly one request per non-empty cell.
pub proof fn lemma_collision_cells_count(
    map: MapView,
    cfg: MapConfig,
    depth: int,
    cells: Seq<i64>,
    start: int,
)
    ensures
        spec_collision_cells(map, cfg, depth, cells, start).len() == count_nonzero_from(
            cells,
            start,
        ),
    decreases cells.len() - start,
{
    if 0 <= start < cells.len() {
        lemma_collision_cells_count(map, cfg, depth, cells, start + 1);
    }
}

/// Every request a layer emits carries the layer's own declaration index
/// as its depth.
pub proof fn lemma_layer_depth(
    map: MapView,
    layout: AtlasLayout,
    cfg: MapConfig,
    depth: int,
    layer: LayerView,
)
    requires
        0 <= depth <= usize::MAX as int,
    ensures
        spec_layer_requests(map, layout, cfg, depth, layer) matches Ok(t) ==> forall|k: int|
            0 <= k < t.len() ==> spec_depth(#[trigger] t[k]) == depth,
{
    if layer.data is Some && layer.objects is Some {
    } else if layer.name == "collision"@ {
        if layer.data is Some {
            let cells = layer.data->Some_0;
            if cells.len() == map.width as int * map.height as int {
                lemma_collision_cells_depth(map, cfg, depth, cells, 0);
            }
        }
    } else if layer.name == "objects"@ {
        if layer.objects is Some {
            let objs = layer.objects->Some_0;
            let t = spec_objects(cfg, depth, objs);
            assert forall|k: int| 0 <= k < t.len() implies spec_depth(#[trigger] t[k])
                == depth by {
                assert(t[k] == spec_object_request(cfg, depth, objs[k]));
            }
        }
    } else {
        if layer.data is Some {
            let cells = layer.data->Some_0;
            if cells.len() == map.width as int * map.height as int {
                lemma_tile_cells_depth(map, layout, cfg, depth, cells, 0);
            }
        }
    }
}

proof fn lemma_tile_cells_depth(
    map: MapView,
    layout: AtlasLayout,
    cfg: MapConfig,
    depth: int,
    cells: Seq<i64>,
    start: int,
)
    requires
        0 <= depth <= usize::MAX as int,
    ensures
        spec_tile_cells(map, layout, cfg, depth, cells, start) matches Ok(s) ==> forall|k: int|
            0 <= k < s.len() ==> spec_depth(#[trigger] s[k]) == depth,
    decreases cells.len() - start,
{
    if 0 <= start < cells.len() {
        lemma_tile_cells_depth(map, layout, cfg, depth, cells, start + 1);
        let r = spec_tile_cells(map, layout, cfg, depth, cells, start);
        let v = cells[start];
        if v != 0 && 1 <= v && v - 1 < layout.tilecount as int {
            let rest_r = spec_tile_cells(map, layout, cfg, depth, cells, start + 1);
            if rest_r is Ok {
                let rest = rest_r->Ok_0;
                let s = r->Ok_0;
                assert forall|k: int| 0 <= k < s.len() implies spec_depth(#[trigger] s[k])
                    == depth by {
                    if k == 0 {
                        assert(s[0] == spec_visual_request(map, layout, cfg, depth, start, v - 1));
                    } else {
                        assert(s[k] == rest[k - 1]);
                    }
                }
            }
        }
    }
}

proof fn lemma_collision_cells_depth(
    map: MapView,
    cfg: MapConfig,
    depth: int,
    cells: Seq<i64>,
    start: int,
)
    requires
        0 <= depth <= usize::MAX as int,
    ensures
        forall|k: int|
            0 <= k < spec_collision_cells(map, cfg, depth, cells, start).len() ==> spec_depth(
                #[trigger] spec_collision_cells(map, cfg, depth, cells, start)[k],
            ) == depth,
    decreases cells.len() - start,
{
    if 0 <= start < cells.len() {
        lemma_collision_cells_depth(map, cfg, depth, cells, start + 1);
        let s = spec_collision_cells(map, cfg, depth, cells, start);
        let rest = spec_collision_cells(map, cfg, depth, cells, start + 1);
        if cells[start] != 0 {
            assert forall|k: int| 0 <= k < s.len() implies spec_depth(#[trigger] s[k])
                == depth by {
                if k == 0 {
                    assert(s[0] == spec_collision_request(map, cfg, depth, start));
                } else {
                    assert(s[k] == rest[k - 1]);
                }
            }
        }
    }
}

proof fn lemma_layers_depth_ordered(map: MapView, layout: AtlasLayout, cfg: MapConfig, n: int)
    requires
        n <= usize::MAX as int,
    ensures
        spec_layers(map, layout, cfg, n) matches Ok(s) ==> (forall|k: int|
            0 <= k < s.len() ==> 0 <= spec_depth(#[trigger] s[k]) < n) && (forall|a: int, b: int|
            0 <= a <= b < s.len() ==> spec_depth(s[a]) <= spec_depth(s[b])),
    decreases n,
{
    if n > 0 {
        lemma_layers_depth_ordered(map, layout, cfg, n - 1);
        let r = spec_layers(map, layout, cfg, n);
        if r is Ok {
            let prev = spec_layers(map, layout, cfg, n - 1)->Ok_0;
            let t = spec_layer_requests(map, layout, cfg, n - 1, map.layers[n - 1])->Ok_0;
            let s = r->Ok_0;
            lemma_layer_depth(map, layout, cfg, n - 1, map.layers[n - 1]);
            assert(s == prev + t);
            assert forall|k: int| 0 <= k < s.len() implies 0 <= spec_depth(#[trigger] s[k])
                < n by {
                if k < prev.len() {
                    assert(s[k] == prev[k]);
                } else {
                    assert(s[k] == t[k - prev.len()]);
                }
            }
            assert forall|a: int, b: int| 0 <= a <= b < s.len() implies spec_depth(s[a])
                <= spec_depth(s[b]) by {
                if a < prev.len() {
                    assert(s[a] == prev[a]);
                } else {
                    assert(s[a] == t[a - prev.len()]);
                }
                if b < prev.len() {
                    assert(s[b] == prev[b]);
                } else {
                    assert(s[b] == t[b - prev.len()]);
                }
            }
        }
    }
}

/// Layer depth ordering: in a successful build, requests appear with
/// non-decreasing depth, every depth is the index of an existing layer,
/// and later-declared layers never draw under earlier ones.
pub proof fn lemma_layer_depth_ordering(map: MapView, layout: AtlasLayout, cfg: MapConfig)
    requires
        map.layers.len() <= usize::MAX as int,
    ensures
        spec_spawn_world(map, layout, cfg) matches Ok(s) ==> (forall|k: int|
            0 <= k < s.len() ==> 0 <= spec_depth(#[trigger] s[k]) < map.layers.len()) && (forall|
            a: int,
            b: int,
        |
            0 <= a <= b < s.len() ==> spec_depth(s[a]) <= spec_depth(s[b])),
{
    lemma_layers_depth_ordered(map, layout, cfg, map.layers.len() as int);
}

/// The extension-hook schedule a request list owes the host: the ids of
/// its object requests, in order. The host must invoke its hook exactly
/// once per entry, immediately after creating that object's entity.
pub open spec fn spec_hook_schedule(rs: Seq<SpawnRequest>) -> Seq<u32>
    decreases rs.len(),
{
    if rs.len() == 0 {
        Seq::empty()
    } else {
        spec_hook_schedule(rs.drop_last()) + (match rs.last() {
            SpawnRequest::Object { id, .. } => seq![id],
            _ => Seq::empty(),
        })
    }
}

/// Collects the extension-hook schedule of a request list.
pub fn hook_schedule(rs: &Vec<SpawnRequest>) -> (ids: Vec<u32>)
    ensures
        ids@ == spec_hook_schedule(rs@),
{
    let mut ids: Vec<u32> = Vec::new();
    let n = rs.len();
    let mut i: usize = 0;
    proof {
        assert(rs@.take(0) =~= Seq::<SpawnRequest>::empty());
    }
    while i < n
        invariant
            n == rs@.len(),
            i <= n,
            ids@ == spec_hook_schedule(rs@.take(i as int)),
        decreases n - i,
    {
        let ghost prev = ids@;
        match &rs[i] {
            SpawnRequest::Object { id, .. } => {
                ids.push(*id);
            },
            _ => {},
        }
        proof {
            let t = rs@.take(i as int + 1);
            assert(t.drop_last() =~= rs@.take(i as int));
            assert(t.last() == rs@[i as int]);
            match rs@[i as int] {
                SpawnRequest::Object { id, .. } => {
                    assert(ids@ =~= prev + seq![id]);
                },
                _ => {
                    assert(ids@ =~= prev + Seq::<u32>::empty());
                },
            }
        }
        i += 1;
    }
    proof {
        assert(rs@.take(n as int) =~= rs@);
    }
    ids
}

/// An object layer owes the host exactly one hook invocation per placed
/// object, in declaration order: the schedule of its requests is the
/// sequence of its objects' ids.
pub proof fn lemma_hook_order(cfg: MapConfig, depth: int, objs: Seq<PlacedObject>)
    ensures
        spec_hook_schedule(spec_objects(cfg, depth, objs)) == objs.map_values(
            |o: PlacedObject| o.id,
        ),
    decreases objs.len(),
{
    let ids = objs.map_values(|o: PlacedObject| o.id);
    let rs = spec_objects(cfg, depth, objs);
    if objs.len() == 0 {
        assert(rs.len() == 0);
        assert(spec_hook_schedule(rs) =~= ids);
    } else {
        lemma_hook_order(cfg, depth, objs.drop_last());
        assert(rs.drop_last() =~= spec_objects(cfg, depth, objs.drop_last()));
        assert(rs.last() == spec_object_request(cfg, depth, objs.last()));
        assert(spec_hook_schedule(rs) == spec_hook_schedule(rs.drop_last()) + seq![
            objs.last().id,
        ]);
        assert(objs.drop_last().map_values(|o: PlacedObject| o.id).push(objs.last().id) =~= ids);
        assert(spec_hook_schedule(rs) =~= ids);
    }
}

} // verus!

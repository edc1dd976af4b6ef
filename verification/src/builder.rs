//! The one-shot build pipeline: both documents are parsed once at startup,
//! the atlas layout is derived (atlas resolution strictly precedes world
//! building), and the world is materialized as an ordered request list.
//! Any failure along the way is terminal: the first error aborts the
//! launch.
use vstd::prelude::*;

use crate::atlas::AtlasLayout;
use crate::coords::MapConfig;
use crate::model::LoadError;
use crate::model::TileSet;
use crate::model::TiledMap;
use crate::parse::spec_load_map;
use crate::parse::spec_load_tileset;
use crate::world::SpawnRequest;
use crate::world::spawn_world;
use crate::world::spec_spawn_world;

verus! {

/// Everything the build emits for a pair of document texts and a
/// configuration: a function of those three values alone.
pub open spec fn spec_load_world(
    map_text: Seq<char>,
    tileset_text: Seq<char>,
    cfg: MapConfig,
) -> Result<Seq<SpawnRequest>, LoadError> {
    match spec_load_map(map_text) {
        Err(e) => Err(e),
        Ok(map) => match spec_load_tileset(tileset_text) {
            Err(e) => Err(e),
            Ok(ts) => match AtlasLayout::spec_from_tileset(ts) {
                Err(e) => Err(e),
                Ok(layout) => spec_spawn_world(map, layout, cfg),
            },
        },
    }
}

/// Parses the map and tileset document texts, derives the atlas layout,
/// and materializes every entity-creation request in order.
pub fn load_world(map_text: &str, tileset_text: &str, cfg: &MapConfig) -> (r: Result<
    Vec<SpawnRequest>,
    LoadError,
>)
    requires
        cfg.wf(),
    ensures
        r matches Ok(v) ==> spec_load_world(map_text@, tileset_text@, *cfg) == Ok::<
            Seq<SpawnRequest>,
            LoadError,
        >(v@),
        r matches Err(e) ==> spec_load_world(map_text@, tileset_text@, *cfg) == Err::<
            Seq<SpawnRequest>,
            LoadError,
        >(e),
{
    let map = match TiledMap::from_json(map_text) {
        Ok(m) => m,
        Err(e) => {
            return Err(e);
        },
    };
    let tileset = match TileSet::from_json(tileset_text) {
        Ok(t) => t,
        Err(e) => {
            return Err(e);
        },
    };
    let layout = match AtlasLayout::from_tileset(&tileset) {
        Ok(l) => l,
        Err(e) => {
            return Err(e);
        },
    };
    spawn_world(&map, &layout, cfg)
}

/// Determinism of the build: reloading the same document texts with the
/// same configuration yields the same requests — the same positions,
/// footprints, atlas cells, and depths, in the same order. The emitted set
/// is a function of the texts and the configuration alone.
pub proof fn lemma_reload_identical(
    map_text_a: Seq<char>,
    tileset_text_a: Seq<char>,
    cfg_a: MapConfig,
    map_text_b: Seq<char>,
    tileset_text_b: Seq<char>,
    cfg_b: MapConfig,
)
    requires
        map_text_a == map_text_b,
        tileset_text_a == tileset_text_b,
        cfg_a == cfg_b,
    ensures
        spec_load_world(map_text_a, tileset_text_a, cfg_a) == spec_load_world(
            map_text_b,
            tileset_text_b,
            cfg_b,
        ),
{
}

} // verus!

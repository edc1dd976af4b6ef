use tiled_loader::AtlasLayout;
use tiled_loader::CoordinateMapper;
use tiled_loader::DocField;
use tiled_loader::LoadError;
use tiled_loader::MapConfig;
use tiled_loader::SpawnRequest;
use tiled_loader::TileSet;
use tiled_loader::TiledMap;
use tiled_loader::hook_schedule;
use tiled_loader::load_world;
use tiled_loader::spawn_world;

const PICO: i128 = 1_000_000_000_000;

fn default_config() -> MapConfig {
    MapConfig::default()
}

fn tileset_16(columns: u32, tilecount: u32) -> String {
    format!(
        "{{\"columns\": {}, \"tilecount\": {}, \"tilewidth\": 16, \"tileheight\": 16, \"image\": \"ignored.png\"}}",
        columns, tilecount
    )
}

#[test]
fn ground_layer_spawns_one_tile_at_origin() {
    // a 2x1 map, 16x16 tiles, scale 1, one "ground" layer with data [1, 0]
    let map_text = "{\"tilewidth\": 16, \"tileheight\": 16, \"width\": 2, \"height\": 1, \
         \"layers\": [{\"name\": \"ground\", \"type\": \"tilelayer\", \"data\": [1, 0]}]}";
    let requests = load_world(map_text, &tileset_16(1, 1), &default_config()).unwrap();
    assert_eq!(requests.len(), 1);
    match requests[0] {
        SpawnRequest::VisualTile {
            x_pico,
            y_pico,
            w_pico,
            h_pico,
            atlas_index,
            atlas_col,
            atlas_row,
            depth,
        } => {
            assert_eq!(x_pico, 0);
            assert_eq!(y_pico, 0);
            assert_eq!(w_pico, 16 * PICO);
            assert_eq!(h_pico, 16 * PICO);
            assert_eq!(atlas_index, 0);
            assert_eq!(atlas_col, 0);
            assert_eq!(atlas_row, 0);
            assert_eq!(depth, 0);
        }
        _ => panic!("expected a visual tile"),
    }
}

#[test]
fn collision_layer_spawns_volume_without_atlas_payload() {
    // a "collision" layer with data [2] on a 1x1 map
    let map_text = "{\"tilewidth\": 16, \"tileheight\": 16, \"width\": 1, \"height\": 1, \
         \"layers\": [{\"name\": \"collision\", \"type\": \"tilelayer\", \"data\": [2]}]}";
    let requests = load_world(map_text, &tileset_16(1, 1), &default_config()).unwrap();
    assert_eq!(requests.len(), 1);
    match requests[0] {
        SpawnRequest::Collision { x_pico, y_pico, w_pico, h_pico, depth } => {
            assert_eq!(x_pico, 0);
            assert_eq!(y_pico, 0);
            assert_eq!(w_pico, 16 * PICO);
            assert_eq!(h_pico, 16 * PICO);
            assert_eq!(depth, 0);
        }
        _ => panic!("expected a collision volume"),
    }
}

#[test]
fn object_layer_spawns_object_and_owes_one_hook_invocation() {
    // one object {id: 16, x: 10, y: 20}: spawned at the scaled position,
    // then exactly one extension-hook invocation with id 16
    let map_text = "{\"tilewidth\": 16, \"tileheight\": 16, \"width\": 1, \"height\": 1, \
         \"layers\": [{\"name\": \"objects\", \"type\": \"objectgroup\", \
         \"objects\": [{\"id\": 16, \"x\": 10, \"y\": 20}]}]}";
    let requests = load_world(map_text, &tileset_16(1, 1), &default_config()).unwrap();
    assert_eq!(requests.len(), 1);
    match requests[0] {
        SpawnRequest::Object { id, x_pico, y_pico, depth } => {
            assert_eq!(id, 16);
            // x * 1.9131 and -y * 1.8749, exactly in fixed point
            assert_eq!(x_pico, 10_000_000 * 1_913_100);
            assert_eq!(y_pico, -(20_000_000 * 1_874_900));
            assert_eq!(depth, 0);
        }
        _ => panic!("expected an object request"),
    }
    assert_eq!(hook_schedule(&requests), vec![16]);
}

#[test]
fn empty_cells_spawn_nothing_and_values_use_index_minus_one() {
    let map_text = "{\"tilewidth\": 8, \"tileheight\": 8, \"width\": 2, \"height\": 2, \
         \"layers\": [{\"name\": \"ground\", \"type\": \"tilelayer\", \"data\": [0, 5, 0, 3]}]}";
    let requests = load_world(map_text, &tileset_16(4, 8), &default_config()).unwrap();
    assert_eq!(requests.len(), 2);
    match (&requests[0], &requests[1]) {
        (
            SpawnRequest::VisualTile { atlas_index: a0, .. },
            SpawnRequest::VisualTile { atlas_index: a1, .. },
        ) => {
            assert_eq!(*a0, 4);
            assert_eq!(*a1, 2);
        }
        _ => panic!("expected two visual tiles"),
    }
}

#[test]
fn layer_order_becomes_non_decreasing_depth() {
    let map_text = "{\"tilewidth\": 16, \"tileheight\": 16, \"width\": 1, \"height\": 1, \
         \"layers\": [\
           {\"name\": \"a\", \"type\": \"tilelayer\", \"data\": [1]}, \
           {\"name\": \"collision\", \"type\": \"tilelayer\", \"data\": [1]}, \
           {\"name\": \"objects\", \"type\": \"objectgroup\", \"objects\": [{\"id\": 1, \"x\": 0, \"y\": 0}]}]}";
    let requests = load_world(map_text, &tileset_16(1, 1), &default_config()).unwrap();
    assert_eq!(requests.len(), 3);
    let depth_of = |r: &SpawnRequest| match *r {
        SpawnRequest::VisualTile { depth, .. } => depth,
        SpawnRequest::Collision { depth, .. } => depth,
        SpawnRequest::Object { depth, .. } => depth,
    };
    let depths: Vec<usize> = requests.iter().map(depth_of).collect();
    assert_eq!(depths, vec![0, 1, 2]);
    for pair in depths.windows(2) {
        assert!(pair[0] <= pair[1]);
    }
}

#[test]
fn reloading_the_same_documents_yields_identical_requests() {
    let map_text = "{\"tilewidth\": 16, \"tileheight\": 16, \"width\": 2, \"height\": 2, \
         \"layers\": [{\"name\": \"ground\", \"type\": \"tilelayer\", \"data\": [1, 0, 2, 1]}, \
         {\"name\": \"objects\", \"type\": \"objectgroup\", \"objects\": [{\"id\": 7, \"x\": 1.5, \"y\": 2.25}]}]}";
    let ts_text = tileset_16(2, 4);
    let cfg = default_config();
    let first = load_world(map_text, &ts_text, &cfg).unwrap();
    let second = load_world(map_text, &ts_text, &cfg).unwrap();
    assert_eq!(first, second);
}

#[test]
fn grid_positions_follow_column_and_row_with_inverted_y() {
    // 2x2 map, 16x16 tiles, scale 2: step is 32 world units
    let cfg = MapConfig::new(2_000_000, 0, 0, 1_913_100, 1_874_900).unwrap();
    let map_text = "{\"tilewidth\": 16, \"tileheight\": 16, \"width\": 2, \"height\": 2, \
         \"layers\": [{\"name\": \"ground\", \"type\": \"tilelayer\", \"data\": [1, 1, 1, 1]}]}";
    let requests = load_world(map_text, &tileset_16(1, 1), &cfg).unwrap();
    let pos = |r: &SpawnRequest| match *r {
        SpawnRequest::VisualTile { x_pico, y_pico, .. } => (x_pico, y_pico),
        _ => panic!("expected a visual tile"),
    };
    let step = 32 * PICO;
    assert_eq!(pos(&requests[0]), (0, 0));
    assert_eq!(pos(&requests[1]), (step, 0));
    assert_eq!(pos(&requests[2]), (0, -step));
    assert_eq!(pos(&requests[3]), (step, -step));
    // world y never grows as the row grows
    assert!(pos(&requests[2]).1 <= pos(&requests[0]).1);
}

#[test]
fn origin_offset_shifts_tile_positions() {
    let cfg = MapConfig::new(1_000_000, 5 * PICO, 3 * PICO, 1_913_100, 1_874_900).unwrap();
    let map_text = "{\"tilewidth\": 16, \"tileheight\": 16, \"width\": 1, \"height\": 1, \
         \"layers\": [{\"name\": \"ground\", \"type\": \"tilelayer\", \"data\": [1]}]}";
    let requests = load_world(map_text, &tileset_16(1, 1), &cfg).unwrap();
    match requests[0] {
        SpawnRequest::VisualTile { x_pico, y_pico, .. } => {
            assert_eq!(x_pico, -5 * PICO);
            assert_eq!(y_pico, -3 * PICO);
        }
        _ => panic!("expected a visual tile"),
    }
}

#[test]
fn atlas_cell_round_trip() {
    let ts = TileSet { columns: 4, tilecount: 8, tilewidth: 16, tileheight: 16 };
    let layout = AtlasLayout::from_tileset(&ts).unwrap();
    assert_eq!(layout.rows, 2);
    for i in 0..8u32 {
        let (col, row) = layout.cell_of(i).unwrap();
        assert_eq!(col, i % 4);
        assert_eq!(row, i / 4);
        assert_eq!(row * 4 + col, i);
    }
    assert_eq!(
        layout.cell_of(8),
        Err(LoadError::OutOfRangeTileIndex(8))
    );
}

#[test]
fn uneven_tileset_is_rejected_not_truncated() {
    let ts = TileSet { columns: 4, tilecount: 7, tilewidth: 16, tileheight: 16 };
    assert_eq!(
        AtlasLayout::from_tileset(&ts),
        Err(LoadError::InvariantViolation(DocField::TileCount))
    );
    let ts0 = TileSet { columns: 0, tilecount: 8, tilewidth: 16, tileheight: 16 };
    assert_eq!(
        AtlasLayout::from_tileset(&ts0),
        Err(LoadError::InvariantViolation(DocField::Columns))
    );
}

#[test]
fn out_of_range_tile_value_fails_the_build() {
    let map_text = "{\"tilewidth\": 16, \"tileheight\": 16, \"width\": 1, \"height\": 1, \
         \"layers\": [{\"name\": \"ground\", \"type\": \"tilelayer\", \"data\": [99]}]}";
    assert_eq!(
        load_world(map_text, &tileset_16(1, 1), &default_config()),
        Err(LoadError::OutOfRangeTileIndex(98))
    );
    // negative values are out of range too
    let map_text2 = "{\"tilewidth\": 16, \"tileheight\": 16, \"width\": 1, \"height\": 1, \
         \"layers\": [{\"name\": \"ground\", \"type\": \"tilelayer\", \"data\": [-3]}]}";
    assert_eq!(
        load_world(map_text2, &tileset_16(1, 1), &default_config()),
        Err(LoadError::OutOfRangeTileIndex(-4))
    );
}

#[test]
fn collision_layer_accepts_any_nonzero_value() {
    // no atlas range check on collision cells: value 99 still spawns
    let map_text = "{\"tilewidth\": 16, \"tileheight\": 16, \"width\": 1, \"height\": 1, \
         \"layers\": [{\"name\": \"collision\", \"type\": \"tilelayer\", \"data\": [99]}]}";
    let requests = load_world(map_text, &tileset_16(1, 1), &default_config()).unwrap();
    assert_eq!(requests.len(), 1);
    assert!(matches!(requests[0], SpawnRequest::Collision { .. }));
}

#[test]
fn wrong_cell_count_is_an_invariant_violation() {
    let map_text = "{\"tilewidth\": 16, \"tileheight\": 16, \"width\": 2, \"height\": 2, \
         \"layers\": [{\"name\": \"ground\", \"type\": \"tilelayer\", \"data\": [1, 1]}]}";
    assert_eq!(
        load_world(map_text, &tileset_16(1, 1), &default_config()),
        Err(LoadError::InvariantViolation(DocField::CellData))
    );
}

#[test]
fn layer_with_both_contents_is_an_invariant_violation() {
    let map_text = "{\"tilewidth\": 16, \"tileheight\": 16, \"width\": 1, \"height\": 1, \
         \"layers\": [{\"name\": \"ground\", \"type\": \"tilelayer\", \"data\": [1], \
         \"objects\": [{\"id\": 1, \"x\": 0, \"y\": 0}]}]}";
    assert_eq!(
        load_world(map_text, &tileset_16(1, 1), &default_config()),
        Err(LoadError::InvariantViolation(DocField::LayerShape))
    );
}

#[test]
fn layer_without_expected_contents_is_skipped_silently() {
    let map_text = "{\"tilewidth\": 16, \"tileheight\": 16, \"width\": 1, \"height\": 1, \
         \"layers\": [{\"name\": \"ground\", \"type\": \"tilelayer\"}, \
         {\"name\": \"objects\", \"type\": \"objectgroup\"}, \
         {\"name\": \"collision\", \"type\": \"tilelayer\"}]}";
    let requests = load_world(map_text, &tileset_16(1, 1), &default_config()).unwrap();
    assert_eq!(requests.len(), 0);
}

#[test]
fn non_positive_dimensions_are_invariant_violations() {
    let zero_width = "{\"tilewidth\": 16, \"tileheight\": 16, \"width\": 0, \"height\": 1, \
         \"layers\": []}";
    assert_eq!(
        load_world(zero_width, &tileset_16(1, 1), &default_config()),
        Err(LoadError::InvariantViolation(DocField::MapWidth))
    );
    let negative_tile = "{\"tilewidth\": -16, \"tileheight\": 16, \"width\": 1, \"height\": 1, \
         \"layers\": []}";
    assert_eq!(
        load_world(negative_tile, &tileset_16(1, 1), &default_config()),
        Err(LoadError::InvariantViolation(DocField::TileWidth))
    );
}

#[test]
fn missing_or_mistyped_fields_name_the_field() {
    let cfg = default_config();
    let ts = tileset_16(1, 1);
    let no_tilewidth =
        "{\"tileheight\": 16, \"width\": 1, \"height\": 1, \"layers\": []}";
    assert_eq!(
        load_world(no_tilewidth, &ts, &cfg),
        Err(LoadError::MalformedDocument(DocField::TileWidth))
    );
    let string_width = "{\"tilewidth\": 16, \"tileheight\": 16, \"width\": \"two\", \
         \"height\": 1, \"layers\": []}";
    assert_eq!(
        load_world(string_width, &ts, &cfg),
        Err(LoadError::MalformedDocument(DocField::MapWidth))
    );
    let no_layers = "{\"tilewidth\": 16, \"tileheight\": 16, \"width\": 1, \"height\": 1}";
    assert_eq!(
        load_world(no_layers, &ts, &cfg),
        Err(LoadError::MalformedDocument(DocField::Layers))
    );
    let nameless_layer = "{\"tilewidth\": 16, \"tileheight\": 16, \"width\": 1, \"height\": 1, \
         \"layers\": [{\"type\": \"tilelayer\", \"data\": [1]}]}";
    assert_eq!(
        load_world(nameless_layer, &ts, &cfg),
        Err(LoadError::MalformedDocument(DocField::LayerName))
    );
    let bad_cell = "{\"tilewidth\": 16, \"tileheight\": 16, \"width\": 1, \"height\": 1, \
         \"layers\": [{\"name\": \"g\", \"data\": [true]}]}";
    assert_eq!(
        load_world(bad_cell, &ts, &cfg),
        Err(LoadError::MalformedDocument(DocField::CellData))
    );
    let objectless_id = "{\"tilewidth\": 16, \"tileheight\": 16, \"width\": 1, \"height\": 1, \
         \"layers\": [{\"name\": \"objects\", \"objects\": [{\"x\": 1, \"y\": 2}]}]}";
    assert_eq!(
        load_world(objectless_id, &ts, &cfg),
        Err(LoadError::MalformedDocument(DocField::ObjectId))
    );
    let negative_id = "{\"tilewidth\": 16, \"tileheight\": 16, \"width\": 1, \"height\": 1, \
         \"layers\": [{\"name\": \"objects\", \"objects\": [{\"id\": -1, \"x\": 1, \"y\": 2}]}]}";
    assert_eq!(
        load_world(negative_id, &ts, &cfg),
        Err(LoadError::MalformedDocument(DocField::ObjectId))
    );
}

#[test]
fn invalid_json_is_a_malformed_document() {
    assert_eq!(
        load_world("{not json", &tileset_16(1, 1), &default_config()),
        Err(LoadError::MalformedDocument(DocField::Document))
    );
    assert_eq!(
        TileSet::from_json("[1, 2, 3]"),
        Err(LoadError::MalformedDocument(DocField::Document))
    );
}

#[test]
fn tileset_parsing_reads_geometry_and_ignores_image() {
    let ts = TileSet::from_json(&tileset_16(4, 8)).unwrap();
    assert_eq!(ts, TileSet { columns: 4, tilecount: 8, tilewidth: 16, tileheight: 16 });
    let missing_columns =
        "{\"tilecount\": 8, \"tilewidth\": 16, \"tileheight\": 16}";
    assert_eq!(
        TileSet::from_json(missing_columns),
        Err(LoadError::MalformedDocument(DocField::Columns))
    );
}

#[test]
fn map_parsing_reads_tileset_references() {
    let map_text = "{\"tilewidth\": 16, \"tileheight\": 16, \"width\": 1, \"height\": 1, \
         \"layers\": [], \"tilesets\": [{\"firstgid\": 1, \"source\": \"tiles.json\"}]}";
    let map = TiledMap::from_json(map_text).unwrap();
    assert_eq!(map.tilesets.len(), 1);
    assert_eq!(map.tilesets[0].firstgid, 1);
    assert_eq!(map.tilesets[0].source, "tiles.json");
    assert_eq!(map.width, 1);
    assert_eq!(map.tilewidth_micro, 16_000_000);
}

#[test]
fn fractional_tile_sizes_and_object_positions_are_exact() {
    let map_text = "{\"tilewidth\": 16.5, \"tileheight\": 16, \"width\": 1, \"height\": 1, \
         \"layers\": [{\"name\": \"objects\", \"objects\": [{\"id\": 2, \"x\": 1.5, \"y\": 0.25}]}]}";
    let map = TiledMap::from_json(map_text).unwrap();
    assert_eq!(map.tilewidth_micro, 16_500_000);
    let requests = spawn_world(
        &map,
        &AtlasLayout::from_tileset(&TileSet {
            columns: 1,
            tilecount: 1,
            tilewidth: 16,
            tileheight: 16,
        })
        .unwrap(),
        &default_config(),
    )
    .unwrap();
    match requests[0] {
        SpawnRequest::Object { x_pico, y_pico, .. } => {
            assert_eq!(x_pico, 1_500_000 * 1_913_100);
            assert_eq!(y_pico, -(250_000 * 1_874_900));
        }
        _ => panic!("expected an object request"),
    }
}

#[test]
fn visual_requests_carry_the_atlas_cell_of_their_index() {
    // tile value 6 refers to atlas index 5; with 4 columns that is cell (1, 1)
    let map_text = "{\"tilewidth\": 16, \"tileheight\": 16, \"width\": 1, \"height\": 1, \
         \"layers\": [{\"name\": \"ground\", \"type\": \"tilelayer\", \"data\": [6]}]}";
    let requests = load_world(map_text, &tileset_16(4, 8), &default_config()).unwrap();
    match requests[0] {
        SpawnRequest::VisualTile { atlas_index, atlas_col, atlas_row, .. } => {
            assert_eq!(atlas_index, 5);
            assert_eq!(atlas_col, 1);
            assert_eq!(atlas_row, 1);
        }
        _ => panic!("expected a visual tile"),
    }
}

#[test]
fn the_first_failing_layer_reports_its_error() {
    // layer 0 has a bad cell count, layer 1 a bad tile value: the build
    // fails fast on layer 0
    let map_text = "{\"tilewidth\": 16, \"tileheight\": 16, \"width\": 2, \"height\": 1, \
         \"layers\": [\
           {\"name\": \"a\", \"type\": \"tilelayer\", \"data\": [1]}, \
           {\"name\": \"b\", \"type\": \"tilelayer\", \"data\": [99, 99]}]}";
    assert_eq!(
        load_world(map_text, &tileset_16(1, 1), &default_config()),
        Err(LoadError::InvariantViolation(DocField::CellData))
    );
}

#[test]
fn collision_footprint_is_tile_size_times_scale() {
    let cfg = MapConfig::new(2_000_000, 0, 0, 1_913_100, 1_874_900).unwrap();
    let map_text = "{\"tilewidth\": 16, \"tileheight\": 8, \"width\": 1, \"height\": 1, \
         \"layers\": [{\"name\": \"collision\", \"type\": \"tilelayer\", \"data\": [1]}]}";
    let requests = load_world(map_text, &tileset_16(1, 1), &cfg).unwrap();
    match requests[0] {
        SpawnRequest::Collision { w_pico, h_pico, .. } => {
            assert_eq!(w_pico, 32 * PICO);
            assert_eq!(h_pico, 16 * PICO);
        }
        _ => panic!("expected a collision volume"),
    }
}

#[test]
fn coordinate_mapper_places_cells_by_column_and_row() {
    let map = TiledMap {
        tilewidth_micro: 16_000_000,
        tileheight_micro: 16_000_000,
        width: 3,
        height: 2,
        layers: Vec::new(),
        tilesets: Vec::new(),
    };
    let mapper = CoordinateMapper::new(&map, &MapConfig::default());
    assert_eq!(mapper.position(0), (0, 0));
    assert_eq!(mapper.position(1), (16 * PICO, 0));
    assert_eq!(mapper.position(2), (32 * PICO, 0));
    // the second row maps one step down into negative y
    assert_eq!(mapper.position(3), (0, -16 * PICO));
    assert_eq!(mapper.position(5), (32 * PICO, -16 * PICO));
}

#[test]
fn default_config_matches_the_documented_constants() {
    let cfg = MapConfig::default();
    assert_eq!(cfg.scale_micro, 1_000_000);
    assert_eq!(cfg.origin_x_pico, 0);
    assert_eq!(cfg.origin_y_pico, 0);
    assert_eq!(cfg.object_scale_x_micro, 1_913_100);
    assert_eq!(cfg.object_scale_y_micro, 1_874_900);
    assert!(MapConfig::new(0, 0, 0, 1, 1).is_none());
    assert!(MapConfig::new(-5, 0, 0, 1, 1).is_none());
    assert!(MapConfig::new(1_000_000, 0, 0, 1, 1).is_some());
}

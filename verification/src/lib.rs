//! Loader for tile-map documents: parses a map document and a tileset
//! document into typed models, derives atlas-cell geometry, maps grid
//! indices to world-space transforms, and materializes an ordered list of
//! entity-creation requests for a host scene graph to perform.
pub mod atlas;
pub mod builder;
pub mod coords;
pub mod json;
pub mod model;
pub mod numbers;
pub mod parse;
pub mod world;

pub use atlas::AtlasLayout;
pub use builder::load_world;
pub use coords::CoordinateMapper;
pub use coords::MapConfig;
pub use json::JsonValue;
pub use model::DocField;
pub use model::Layer;
pub use model::LoadError;
pub use model::PlacedObject;
pub use model::TileSet;
pub use model::TiledMap;
pub use model::TiledMapSet;
pub use world::SpawnRequest;
pub use world::hook_schedule;
pub use world::spawn_world;

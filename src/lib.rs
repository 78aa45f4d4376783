//! A slippy-map tile engine: tile addressing on the Web-Mercator pyramid, a
//! tile cache driven by messages through fetch and renderer allocation, the
//! search for the tiles that cover a viewport, and the choice of stand-in
//! tiles while the exact ones are still missing.

pub mod action;
pub mod draw_cache;
pub mod flood;
pub mod imagery;
pub mod sources;
pub mod tile;
pub mod tile_cache;
pub mod zoom;

pub use action::Action;
pub use draw_cache::DrawCache;
pub use flood::{flood_tiles, tile_under, PixelRect};
pub use sources::{
    ArcGisWorldMap, Attribution, CartoDark, CartoLight, CartoVoyager, OpenStreetMap, OpenTopo,
    Scale, Source,
};
pub use tile::{total_tiles, TileId};
pub use tile_cache::{CacheEntry, CacheMessage, Command, DrawPlan, TileCache, TileEntry};
pub use zoom::InvalidZoom;

//! A texture atlas that packs images into one fixed-size surface, a sprite
//! batcher that turns draw requests into atlas-mapped quad vertices, and the
//! event-queue types that a platform layer feeds.
pub mod atlas;
pub mod input;
pub mod renderer;
pub mod websocket;

pub use atlas::{AtlasError, Region, TextureAtlas, TextureImage};
pub use input::InputEvent;
pub use renderer::{Corner, Frame, GameRenderer, SpriteVertex, TextureUpload};
pub use websocket::WebSocket;

//! Small values the renderer passes around: the window's size, the textures Minecraft names, the
//! size of an entity texture and a section's two light layers.

use vstd::prelude::*;

verus! {

/// The size of the window being rendered to, in pixels.
#[derive(Clone, Copy, Debug, PartialEq, Eq, Structural)]
pub struct WindowSize {
    pub width: u32,
    pub height: u32,
}

/// Something that knows the size of the window it renders to.
pub trait HasWindowSize {
    fn get_window_size(&self) -> WindowSize;
}

/// The textures Minecraft hands the renderer by name rather than by handle.
#[derive(Clone, Copy, Debug, PartialEq, Eq, Structural, Hash)]
pub enum MCTextureId {
    BlockAtlas,
    Lightmap,
}

/// The size of an entity model's texture.
#[derive(Clone, Copy, Debug, PartialEq, Eq, Structural)]
pub struct TextureDimensions {
    pub width: i32,
    pub height: i32,
}

/// A decoded pair of Minecraft light layers, one nibble per block.
pub struct DeserializedLightData {
    pub sky_light: Box<[u8; 2048]>,
    pub block_light: Box<[u8; 2048]>,
}

} // verus!

//! The renderer core of wgpu-mc: the section feed the JVM writes, the binding plans that tie a
//! pipeline's layouts, shaders and bind groups together, the shader cache keys and the settings the
//! options screen edits - the parts of the renderer that decide things, as verified functions.

pub mod adapter;
pub mod bake;
pub mod bind_groups;
pub mod blaze;
pub mod blockstate;
pub mod copies;
pub mod debug;
pub mod entity;
pub mod device;
pub mod lookup;
pub mod pix;
pub mod preprocessing;
pub mod quarantine;
pub mod renderer;
pub mod section;
pub mod settings;
pub mod shader_cache;
pub mod shaderpack;
pub mod text;
pub mod timing;
pub mod vertex;

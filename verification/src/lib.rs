use vstd::prelude::*;

pub mod atlas;
pub mod cli;
pub mod audio;
pub mod csv;
pub mod entity;
pub mod events;
pub mod font;
pub mod gamepad;
pub mod glyph_cache;
pub mod image;
pub mod image_shader;
pub mod input;
pub mod keycode;
pub mod launch;
pub mod packer;
pub mod platform;
pub mod profile;
pub mod pt;
pub mod registry;
pub mod shader_hooks;
pub mod surface;
pub mod targets;
pub mod text;
pub mod texture;

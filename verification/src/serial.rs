use vstd::prelude::*;

verus! {

/// The atlas description handed to the serialization collaborators: one
/// entry per output texture.
#[derive(Debug)]
pub struct Atlas {
    pub textures: Vec<Texture>,
}

/// One packed bin and the images it holds.
#[derive(Debug)]
pub struct Texture {
    pub name: String,
    pub images: Vec<Image>,
}

/// One image's placement inside a texture, with the frame it was trimmed
/// from.
#[derive(Debug)]
pub struct Image {
    pub name: String,
    pub x: i32,
    pub y: i32,
    pub width: i32,
    pub height: i32,
    pub frame_x: i32,
    pub frame_y: i32,
    pub frame_width: i32,
    pub frame_height: i32,
    pub rotated: bool,
}

} // verus!

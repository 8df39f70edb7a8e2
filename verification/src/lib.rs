pub mod area;
pub mod bin_packs;
pub mod image_wrapper;
pub mod packer;
pub mod rect;
pub mod serial;

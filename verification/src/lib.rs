pub mod camera;
pub mod color;
pub mod hittable_list;
pub mod parallel;
pub mod path;
pub mod raster;
pub mod render;

//! A software rasterizer for sector-based ("2.5D") maps.
//!
//! A map is a list of sectors: wall outlines on the floor plane, extruded
//! between a floor and a roof height. Each frame the sectors are ordered back
//! to front by their distance from the camera and painted in that order into a
//! pixel buffer, walls first, floors and ceilings by a second pass that fills
//! up to the horizon recorded by the first.
//!
//! All arithmetic is on integers: world and camera coordinates are whole
//! units, the camera's yaw is given as a fixed-point cosine and sine, and its
//! pitch in whole degrees.

pub mod arith;
pub mod camera;
pub mod frame;
pub mod geometry;
pub mod raster;
pub mod render;
pub mod sector;
pub mod texture;

pub use arith::{clamp, floor_div, isqrt};
pub use camera::{
    clip_behind, project, to_view, Camera, FOV_SCALE, PITCH_LIMIT, PITCH_SHEAR, POS_LIMIT, POS_ONE,
    TRIG_ONE, VIEW_LIMIT, WORLD_LIMIT,
};
pub use frame::PixelBuffer;
pub use geometry::{PixColor, Point2, Point3, ScreenPoint, Surface, Wall};
pub use raster::{draw_wall, WallPaint};
pub use render::{render, render_sector, render_sectors};
pub use sector::{bubble_sort, reverse_sectors, sort_back_to_front, Level, Sector};
pub use texture::Texture;

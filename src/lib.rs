pub mod canvas;
pub mod color;
pub mod fill;
pub mod geometry;
pub mod gl;
pub mod network;
pub mod objects;
pub mod osm;
pub mod polygon;

//! Decisions and data structures of a mesh sculpting program.
pub mod arithmetic;
pub mod batch;
pub mod bounds;
pub mod box_laws;
pub mod brush;
pub mod brush_laws;
pub mod bvh;
pub mod camera;
pub mod camera_laws;
pub mod candidate;
pub mod collections;
pub mod control_laws;
pub mod controls;
pub mod course;
pub mod dab_laws;
pub mod deform;
pub mod edit;
pub mod editing;
pub mod enclosure;
pub mod flight_laws;
pub mod frame;
pub mod geometry;
pub mod grab;
pub mod grab_laws;
pub mod grid_laws;
pub mod history;
pub mod hit_laws;
pub mod input;
pub mod masking;
pub mod meaning;
pub mod mesh;
pub mod optics;
pub mod orientation;
pub mod painting;
pub mod parity_laws;
pub mod pass;
pub mod prompts;
pub mod proposal;
pub mod query;
pub mod reach_laws;
pub mod recording;
pub mod refit;
pub mod region;
pub mod rounding;
pub mod scalar;
pub mod sculpt;
pub mod search;
pub mod session;
pub mod shape_laws;
pub mod shapes;
pub mod smooth;
pub mod smooth_laws;
pub mod soup;
pub mod space;
pub mod stl;
pub mod stroke;
pub mod table;
pub mod tasks;
pub mod text;
pub mod tool_laws;
pub mod topology;
pub mod upload;
pub mod view_laws;
pub mod viewport;
pub mod voxel_remesh;
pub mod walk;
pub mod wide;
pub mod wide_meaning;
pub mod winding;

pub mod animation;
pub mod bind_group_manager;
pub mod common;
pub mod mesh_nodes;
pub mod model;
pub mod objects;
pub mod utils;

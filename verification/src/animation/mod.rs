pub mod animation;
pub mod keyframes;
pub mod node;
pub mod propagation;
pub mod skin;
pub mod traversal;

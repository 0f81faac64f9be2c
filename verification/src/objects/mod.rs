pub mod animated_object;

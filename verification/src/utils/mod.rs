pub mod json;
pub mod unique_id;

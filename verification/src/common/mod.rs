pub mod create_info;
pub mod enums;
pub mod errors;

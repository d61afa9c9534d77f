pub mod bvh;
pub mod ppm;
pub mod text;
pub mod parsing_error;
pub mod descriptor;
pub mod obj;
pub mod progress;

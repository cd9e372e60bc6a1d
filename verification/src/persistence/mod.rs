//! What is kept on disk: where each file lives, and what is made of what it
//! holds.

pub mod control_settings;
pub mod device_tokens;
pub mod json;
pub mod paths;
pub mod place_laws;
pub mod project_laws;
pub mod projects;
pub mod window_geometry;

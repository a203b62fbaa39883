pub mod events;
pub mod json;
pub mod lists;
pub mod overlay;
pub mod planner;
pub mod rack;
pub mod request_laws;
pub mod requests;
pub mod restore;
pub mod round_advance;
pub mod session;
pub mod text;
pub mod tiles;
pub mod vision;
pub mod window;

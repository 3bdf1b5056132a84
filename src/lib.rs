pub mod geometry;
pub mod layout;
pub mod state;

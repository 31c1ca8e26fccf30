pub mod base65536;
pub mod bfloat;
pub mod drone;
pub mod game;
pub mod laws;
pub mod race;
pub mod palette;

pub mod config;
pub mod game_object;
pub mod highscore;
pub mod laws;
pub mod sound;
pub mod spawn;
pub mod world;

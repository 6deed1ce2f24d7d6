pub mod engine;
pub mod game;
pub mod input;
pub mod log;
pub mod studio;
pub mod text;
pub mod ui;
pub mod updater;

pub mod bleed;
pub mod color_adjust;
pub mod deck;
pub mod decklist;
pub mod google_drive;
pub mod image_file;
pub mod layout;
pub mod marvelcdb;
pub mod project;
pub mod raster;
pub mod text;
pub mod thumbnail_manager;
pub mod types;
pub mod ui;

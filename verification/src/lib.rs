//! Siren: a media player core.

pub mod cli;
pub mod commands;
pub mod config;
pub mod dlna;
pub mod download;
pub mod heos;
pub mod json;
pub mod library;
pub mod meta;
pub mod nums;
pub mod order;
pub mod output;
pub mod paths;
pub mod places;
pub mod player;
pub mod playlist;
pub mod queue;
pub mod radio;
pub mod screen;
pub mod spectrum;
pub mod text;
pub mod trove;
pub mod tui;
pub mod urls;

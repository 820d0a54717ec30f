use vstd::prelude::*;

pub mod backdrop_source;
pub mod character_art;
pub mod cli;
pub mod command;
pub mod confirm;
pub mod component_source;
pub mod error;
pub mod ids;
pub mod level_source;
pub mod markers;
pub mod progression;
pub mod repository;
pub mod scene;
pub mod seed;
pub mod silhouette;
pub mod text;
pub mod tiled;
pub mod tiles;
pub mod uuid;
pub mod validate;

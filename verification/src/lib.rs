use vstd::prelude::*;

pub mod text;
pub mod order;
pub mod config;
pub mod install_dir;
pub mod library;
pub mod download;
pub mod backend;
pub mod cache;
pub mod scene;
pub mod input;
pub mod widget;
pub mod menu;
pub mod browser;
pub mod mygames;
pub mod loading;
pub mod flow;

verus! {
} // verus!

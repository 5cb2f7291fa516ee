//! Configuration and process-matching logic for the lsfg-vk frame generation GUI.
pub mod text;
pub mod paths;
pub mod config;
pub mod process;
pub mod helpers;
pub mod catalog;
pub mod entries;
pub mod editor;
pub mod layer;
pub mod display;
pub mod steam;
pub mod sort;
pub mod scan;
pub mod setup;

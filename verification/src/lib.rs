//! The decision logic of a terminal reader and manager for research papers.

pub mod action;
pub mod actions;
pub mod arxiv;
pub mod balance;
pub mod chars;
pub mod citation;
pub mod config_editor;
pub mod dashboard;
pub mod discovery;
pub mod downloads;
pub mod edit;
pub mod effect;
pub mod editor;
pub mod enrichment;
pub mod field;
pub mod input;
pub mod keys;
pub mod kitty;
pub mod modals;
pub mod model;
pub mod navigation;
pub mod organization;
pub mod paths;
pub mod pdf_cache;
pub mod pdf_viewer;
pub mod project_editor;
pub mod projects;
pub mod raster;
pub mod rows;
pub mod runtime;
pub mod settings_modal;
pub mod strings;
pub mod terminal;
pub mod terminal_input;
pub mod text;
pub mod theme;
pub mod viewer;
pub mod workbench;
pub mod workspaces;

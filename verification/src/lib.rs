//! Facial: the rules of a media workbench, verified.

pub mod api;
pub mod cancel;
pub mod cli;
pub mod cli_laws;
pub mod cli_needs_laws;
pub mod cli_options_laws;
pub mod color_labels;
pub mod color_labels_laws;
pub mod config;
pub mod config_laws;
pub mod debug;
pub mod debug_laws;
pub mod dispatch;
pub mod dispatch_laws;
pub mod folder_picker;
pub mod folder_picker_laws;
pub mod gamepad;
pub mod gamepad_laws;
pub mod guard;
pub mod identity;
pub mod identity_laws;
pub mod intents;
pub mod landmarks;
pub mod lanes;
pub mod lanes_laws;
pub mod media_clip;
pub mod media_clip_laws;
pub mod media_commands;
pub mod media_commands_laws;
pub mod media_db;
pub mod media_db_laws;
pub mod media_explorer;
pub mod media_explorer_laws;
pub mod media_fs;
pub mod media_fs_laws;
pub mod media_input;
pub mod media_input_laws;
pub mod media_inventory;
pub mod media_inventory_laws;
pub mod media_io;
pub mod media_io_laws;
pub mod media_io_runs;
pub mod media_keys;
pub mod media_keys_laws;
pub mod number;
pub mod order;
pub mod outside;
pub mod paths;
pub mod paths_laws;
pub mod queue;
pub mod receipts_laws;
pub mod replacing;
pub mod replacing_laws;
pub mod table;
pub mod text;
pub mod text_laws;

//! Verified core of the SnapPaste clipboard history tool: text
//! classification, URL checks, the history store with its duplicate,
//! retention and ordering rules, favourite import and export, settings
//! validation, image normalisation and the window/monitor state machines.

pub mod ai;
pub mod autostart;
pub mod clock;
pub mod hotkeys;
pub mod image;
pub mod models;
pub mod monitor;
pub mod processor;
pub mod properties;
pub mod queries;
pub mod rows;
pub mod services;
pub mod settings;
pub mod shortcut;
pub mod shell;
pub mod store;
pub mod text;
pub mod transfer;
pub mod ui;
pub mod url;
pub mod window;

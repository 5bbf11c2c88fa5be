//! The decisions of a Linux desktop tweaker, each with a verified contract:
//! the commands every tweak runs, the hosts-file blocking, the parsers of the
//! command outputs it reads, the process list and the tweak search.
pub mod text;
pub mod command;
pub mod advanced;
pub mod app_blocker;
pub mod confirmation_dialog;
pub mod mainwindow;
pub mod package_manager;
pub mod performance;
pub mod personalization;
pub mod process_manager;
pub mod quick_settings;
pub mod sat_handler;
pub mod settings_about;
pub mod settings_info;
pub mod system_info;
pub mod system_tweaks;
pub mod windows_components;
pub mod windows_update;

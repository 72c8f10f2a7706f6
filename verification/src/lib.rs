//! Wallpaper setter logic for the bread desktop: the path model, the saved
//! per-output wallpapers, the configuration of the library directories, the
//! library scan, the parsing of `awww query`, and the command flows that drive
//! the outside tools one step at a time.

mod text;
mod sort;
mod awww;
mod path;
mod current;
mod config;
mod error;
mod flow;
pub mod setting;
mod restore;
mod saved;
mod command;
mod image;
mod library;
mod picker;

pub use awww::{parse_awww_query, parse_awww_query_line};
pub use command::{handle_command, CommandRun, SetCommand};
pub use config::{
    default_library_dirs, env_library_dirs, expand_tilde, library, Config, DEFAULT_SYSTEM_LIBRARY,
    DEFAULT_USER_LIBRARY, LIBRARY_DIRS_ENV,
};
pub use current::Current;
pub use error::PaperError;
pub use flow::{Event, Reply, Request};
pub use image::{check_image_type, is_wallpaper_file, validate_canonical};
pub use picker::{dirs_summary, empty_message};
pub use library::{scan, sort_by_keys, DirEntry, ScanRun, ScanStep, Wallpaper, MAX_LIBRARY_ITEMS, MAX_SCAN_DEPTH};
pub use restore::{apply_saved, RestoreRun};
pub use saved::{cached_wallpaper, file_in, get_on};
pub use setting::{set_on, SetRun};

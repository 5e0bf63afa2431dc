//! Watcher configuration and its defaults.

use vstd::prelude::*;

verus! {

/// Configuration consumed by the engine; persisted by the surrounding
/// application as it sees fit.
pub struct AppConfig {
    pub watch_folder: String,
    pub file_types: Vec<String>,
    pub watch_subdirs: bool,
    pub sound_enabled: bool,
    pub ignore_folders: Vec<String>,
    pub save_history: bool,
}

/// Mathematical image of an `AppConfig`.
pub struct ConfigView {
    pub watch_folder: Seq<char>,
    pub file_types: Seq<Seq<char>>,
    pub watch_subdirs: bool,
    pub sound_enabled: bool,
    pub ignore_folders: Seq<Seq<char>>,
    pub save_history: bool,
}

impl View for AppConfig {
    type V = ConfigView;

    open spec fn view(&self) -> ConfigView {
        ConfigView {
            watch_folder: self.watch_folder@,
            file_types: self.file_types.deep_view(),
            watch_subdirs: self.watch_subdirs,
            sound_enabled: self.sound_enabled,
            ignore_folders: self.ignore_folders.deep_view(),
            save_history: self.save_history,
        }
    }
}

/// The stock configuration: no watch folder yet, the common video
/// extensions allowed, the usual build and tool directories ignored,
/// recursion and history saving on.
pub open spec fn is_stock_config(c: ConfigView) -> bool {
    &&& c.watch_folder.len() == 0
    &&& c.file_types.len() == 12
    &&& c.file_types[0] == ".mp4"@
    &&& c.file_types[1] == ".avi"@
    &&& c.file_types[2] == ".mkv"@
    &&& c.file_types[3] == ".mov"@
    &&& c.file_types[4] == ".wmv"@
    &&& c.file_types[5] == ".flv"@
    &&& c.file_types[6] == ".webm"@
    &&& c.file_types[7] == ".m4v"@
    &&& c.file_types[8] == ".mpeg"@
    &&& c.file_types[9] == ".mpg"@
    &&& c.file_types[10] == ".3gp"@
    &&& c.file_types[11] == ".ts"@
    &&& c.watch_subdirs
    &&& c.sound_enabled
    &&& c.ignore_folders.len() == 6
    &&& c.ignore_folders[0] == "node_modules"@
    &&& c.ignore_folders[1] == ".git"@
    &&& c.ignore_folders[2] == "__pycache__"@
    &&& c.ignore_folders[3] == ".idea"@
    &&& c.ignore_folders[4] == "vendor"@
    &&& c.ignore_folders[5] == "target"@
    &&& c.save_history
}

impl Default for AppConfig {
    /// The stock configuration, exactly as [`is_stock_config`] describes it.
    fn default() -> (c: Self)
        ensures
            is_stock_config(c@),
    {
        let file_types: Vec<String> = vec![
            String::from_str(".mp4"),
            String::from_str(".avi"),
            String::from_str(".mkv"),
            String::from_str(".mov"),
            String::from_str(".wmv"),
            String::from_str(".flv"),
            String::from_str(".webm"),
            String::from_str(".m4v"),
            String::from_str(".mpeg"),
            String::from_str(".mpg"),
            String::from_str(".3gp"),
            String::from_str(".ts"),
        ];
        let ignore_folders: Vec<String> = vec![
            String::from_str("node_modules"),
            String::from_str(".git"),
            String::from_str("__pycache__"),
            String::from_str(".idea"),
            String::from_str("vendor"),
            String::from_str("target"),
        ];
        AppConfig {
            watch_folder: String::new(),
            file_types,
            watch_subdirs: true,
            sound_enabled: true,
            ignore_folders,
            save_history: true,
        }
    }
}

} // verus!

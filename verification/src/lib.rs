//! Playback library: playlists, history, bookmarks and the decisions of the player.
pub mod text;
pub mod paths;
pub mod playlist;
pub mod num;
pub mod i18n;
pub mod config;
pub mod donation;
pub mod components;
pub mod player;
pub mod color;
pub mod navigation;
pub mod remote;
pub mod karaoke;
pub mod bug_report;
pub mod opensubtitles;
pub mod equalizer;
pub mod keyed;
pub mod history;
pub mod bookmarks;
pub mod ab_repeat;
pub mod image_controls;
pub mod chapters;
pub mod cover;
pub mod clock;

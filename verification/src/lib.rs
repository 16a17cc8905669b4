//! Installing packages from the Arch User Repository: what is fetched, reviewed, built,
//! installed and told, decided step by step.
//!
//! Nothing here touches the disk, the network or the terminal. What has to be done comes
//! out as plain values; what came of it goes back in.
pub mod actions;
pub mod args;
pub mod bases;
pub mod building;
pub mod config;
pub mod download;
pub mod error;
pub mod install;
pub mod package;
pub mod package_list;
pub mod pacman;
pub mod prompt;
pub mod review;
pub mod srcinfo;
pub mod style;
pub mod table;
pub mod text;
pub mod warnings;

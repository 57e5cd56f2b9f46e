//! Verified core of otter, a terminal front end for FFmpeg transcodes.
pub mod text;
pub mod paths;
pub mod domain;
pub mod media;
pub mod transcode;
pub mod toolchain;
pub mod dialog;
pub mod input;
pub mod display;
pub mod picker;
pub mod app;
pub mod screen;
pub mod view;
pub mod pointer;
pub mod worker;

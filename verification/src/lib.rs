//! Verified core of a minimal Chromium DevTools Protocol client and its CLI.
pub mod text;
pub mod process;
pub mod cli;
pub mod args;
pub mod commands;
pub mod session;
pub mod reap;
pub mod report;
pub mod js;
pub mod selector;
pub mod adb;
pub mod browser;
pub mod cdp;

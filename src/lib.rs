//! A personal time tracker: an informal command language, the rules that
//! turn a day's start/stop events into tasks, and the text it prints.

pub mod text;
pub mod time;
pub mod grammar;
pub mod db;
pub mod cli;
pub mod action;
pub mod models;

//! What the parts of the messenger keep to, stated of their results for every input.
pub mod autoiface;
pub mod browser;
pub mod bzip2;
pub mod commands;
pub mod connection;
pub mod dialogue;
pub mod document;
pub mod float;
pub mod frames;
pub mod inbox;
pub mod message;
pub mod micron;
pub mod models;
pub mod msgpack;
pub mod outbox;
pub mod picker;
pub mod storage;
pub mod sync;
pub mod text;
pub mod words;

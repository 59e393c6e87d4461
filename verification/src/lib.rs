//! The verified core of an LXMF messenger and NomadNet page reader: wire
//! codecs, stamps, page markup, conversation storage, and the decisions that
//! the messenger takes between one piece of I/O and the next.
pub mod address;
pub mod announce;
pub mod autoiface;
pub mod book;
pub mod browser;
pub mod bytes;
pub mod bzip2;
pub mod chat_api;
pub mod commands;
pub mod connection;
pub mod dialogue;
pub mod document;
pub mod float;
pub mod frames;
pub mod hex;
pub mod inbox;
pub mod laws;
pub mod layout;
pub mod message;
pub mod micron;
pub mod msgpack;
pub mod outbox;
pub mod picker;
pub mod request;
pub mod sha256;
pub mod stamp;
pub mod storage;
pub mod sync;
pub mod text;
pub mod threads;
pub mod transfer;
pub mod ui;

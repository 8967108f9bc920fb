//! A chat-style translator, without its screen and without its network.
//!
//! The user writes a text and picks a language pair; a remote endpoint
//! answers with the translation. The exchanges pile up in a transcript that
//! can be scrolled, and a click on a translation copies it. This library
//! holds the rules of that application and proves them with Verus:
//!
//! - [`model`]: the language pairs and the session, with its transcript;
//! - [`transcript`]: how a transcript is laid out in lines, and which
//!   translation a screen row shows;
//! - [`prompts`]: the registry of language pairs, read from prompt files;
//! - [`translator`]: the request for a translation and the reading of the
//!   answer;
//! - [`commands`]: the commands of a front end, and the stored credential;
//! - [`ui`]: what a frame shows, as plain values;
//! - [`text`]: the text primitives under all of them.
//!
//! Reading files, sending requests and painting are left to the caller.

pub mod commands;
pub mod model;
pub mod prompts;
pub mod text;
pub mod transcript;
pub mod translator;
pub mod ui;

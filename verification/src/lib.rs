//! Dictated notes: the rules that turn recognised speech into text that is appended to a file.
//!
//! - [`args`]: the command line.
//! - [`session`]: the course of the program, from the hotkey to the file.
//! - [`utterance`]: what is appended for one utterance.
//! - [`commands`]: noise and voice commands; [`spoken`] holds the laws about them, and [`normal`]
//!   those about the form in which utterances are compared.
//! - [`pattern`]: the search patterns behind the commands.
//! - [`ipc`] and [`exchange`]: the messages to and from the recognition server.
//! - [`hotkey`]: the global hotkey.
//! - [`timestamp`], [`decimal`], [`letters`] and [`text`]: what the others are built from.
//! - [`answers`]: what the functions of the others give back, in one place.

pub mod answers;
pub mod args;
pub mod commands;
pub mod decimal;
pub mod exchange;
pub mod hotkey;
pub mod ipc;
pub mod letters;
pub mod normal;
pub mod pattern;
pub mod session;
pub mod spoken;
pub mod text;
pub mod timestamp;
pub mod utterance;

//! Command parsing, fuzzy matching and the pending-action confirmation
//! workflow of an SMS contact and group assistant.
//!
//! The handlers decide; they do not touch the store. Each takes the rows it
//! needs as plain values and returns the reply together with a plan of
//! writes (`records::Write`) that the caller carries out in one
//! transaction. `records::apply` gives those writes their meaning on a model
//! of a submitter's pending-action rows, and `laws` proves what holds across
//! handlers and turns.
use vstd::prelude::*;

pub mod command;
pub mod command_word;
pub mod confirm;
pub mod dispatch;
pub mod import;
pub mod laws;
pub mod matcher;
pub mod models;
pub mod number;
pub mod order;
pub mod records;
pub mod reply;
pub mod requests;
pub mod text;
pub mod vcard;

//! Session logging and personal-record engine of a strength-training tracker.
//!
//! The library keeps the whole state of the tracker in a [`models::Store`]
//! value: the exercise catalog, the training programs, the training sessions
//! with their logged sets, and the log of personal records. Every command is
//! a function from a store and the command's arguments to the next store and
//! an outcome record, and its contract is stated over the store's
//! mathematical view.
//!
//! - [`models`] holds the records and their views, [`error`] the errors.
//! - [`transitions`] defines the session state machine on views, [`session`]
//!   and [`report`] hold the commands that compute it, [`commands`] runs a
//!   parsed command, and [`laws`] proves what holds of the machine as a whole.
//! - [`store_laws`] proves what the commands keep true of the catalog and of
//!   the programs.
//! - [`pr`] is the personal-record engine and [`history`] the query for what
//!   was lifted the last time.
//! - [`exercise`] and [`program`] are the catalog and the program store,
//!   [`catalog`] and [`lookup`] the lookups by index, name and identifier.
//! - [`types`], [`args`] and [`cli`] hold the configuration, the aliases of
//!   the command line and the commands as plain values.
//! - [`refs`], [`text`], [`utils`], [`dates`] and [`calendar`] read and write
//!   references, weights, texts, numbers, durations and days.

pub mod args;
pub mod calendar;
pub mod catalog;
pub mod cli;
pub mod commands;
pub mod dates;
pub mod error;
pub mod exercise;
pub mod history;
pub mod ids;
pub mod laws;
pub mod lookup;
pub mod models;
pub mod pr;
pub mod program;
pub mod refs;
pub mod report;
pub mod session;
pub mod store_laws;
pub mod text;
pub mod transitions;
pub mod types;
pub mod utils;

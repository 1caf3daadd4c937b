//! Native backend library for a desktop terminal-and-streaming application.
//!
//! Two subsystems make up the crate: a PTY session registry that multiplexes
//! interactive shell sessions, and a local screen-capture streaming pipeline
//! that validates parameters, encodes frames, and guards a single active
//! stream. A small log-parsing module serves the log viewer.

use vstd::prelude::*;

pub mod logs;
pub mod pty;
pub mod streaming;
pub mod text;

verus! {

/// Application-level errors surfaced to the front end.
#[derive(Debug)]
pub enum AppError {
    Validation(String),
    Internal(String),
}

impl AppError {
    /// The single-line message shown to the front end for this error.
    pub fn message(&self) -> (r: String)
        ensures
            match self {
                AppError::Validation(m) => r@ == "Validation error: "@ + m@,
                AppError::Internal(m) => r@ == "Internal error: "@ + m@,
            },
    {
        match self {
            AppError::Validation(m) => {
                let mut s = "Validation error: ".to_owned();
                s.append(m.as_str());
                s
            },
            AppError::Internal(m) => {
                let mut s = "Internal error: ".to_owned();
                s.append(m.as_str());
                s
            },
        }
    }
}

} // verus!

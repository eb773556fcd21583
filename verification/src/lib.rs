//! Core of a terminal mail client, verified with Verus: conversation
//! threading over loosely structured header metadata, MIME body and snippet
//! extraction, and the interactive session state machine with its compose
//! wizard. Network transports, configuration loading and terminal drawing
//! live outside this crate and reach it only through plain values and the
//! collaborator traits in `email`.
#![verifier::loop_isolation(false)]

pub mod app;
pub mod config;
pub mod email;
pub mod mime;
pub mod text;
pub mod thread;

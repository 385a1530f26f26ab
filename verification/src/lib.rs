//! Decoding of the newline-delimited JSON streams of a local Ollama server.
//!
//! Bytes arrive in chunks cut anywhere. The [`reassembler`] puts them back
//! into text records, the [`decoder`] reads each record as the events it
//! stands for, and a [`session`] takes what the transport delivers and says
//! which events go out, ending every stream with exactly one terminal event.
//! What holds of every run is proved in [`laws`].

pub mod api;
pub mod decoder;
pub mod event;
pub mod json;
pub mod laws;
pub mod reassembler;
pub mod session;
pub mod store;
pub mod system;
pub mod text;

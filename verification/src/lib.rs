//! Re-indents HTML markup and wraps long attribute lists.
//!
//! Text flows through four stages: a position-tracking cursor
//! ([`input_stream`]), a tokenizer ([`lexer`]) whose behaviour is the state
//! machine of [`machine`], the token model ([`models`]) and a layout engine
//! ([`formatter`]) whose output is described by [`layout`]. What holds of
//! them whatever the input is stated and proved in [`laws`],
//! [`round_trip`] and [`fixed_point`].
pub mod utils;
pub mod models;
pub mod input_stream;
pub mod machine;
pub mod lexer;
pub mod layout;
pub mod config;
pub mod formatter;
pub mod args;
pub mod walker;
pub mod laws;
pub mod round_trip;
pub mod fixed_point;

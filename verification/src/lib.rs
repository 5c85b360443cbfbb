//! Text in the style of a user, from a Markov chain of what the user wrote.
//!
//! Each user has a chain of a fixed order: a table that counts, for every
//! window of that many tokens, which token came next and how often. A chain
//! learns from token sequences and never forgets; new text is a walk over
//! the table that draws each step from a source of variates and stops at a
//! bound that is given with the request.
//!
//! - [`token`]: splitting text into tokens and joining tokens into text.
//! - [`table`]: the mathematical model of a chain, and what training does
//!   to it.
//! - [`window`]: the window of symbols that moves over a sequence.
//! - [`model`]: the chain itself, and training.
//! - [`sample`]: generation, and the sources of variates.
//! - [`store`]: the chains of all users.
//! - [`filter`]: which messages a chain learns from.
//! - [`request`]: answering a request for text.
//! - [`record`], [`persist`], [`numeral`]: writing a store down and reading
//!   it back.
//! - [`laws`]: what holds of all of this, whatever the inputs.
//! - [`stream`], [`dj`]: a byte stream for sound that is held in memory,
//!   and the decisions of the music module.

pub mod dj;
pub mod filter;
pub mod laws;
pub mod model;
pub mod numeral;
pub mod persist;
pub mod record;
pub mod request;
pub mod sample;
pub mod store;
pub mod stream;
pub mod table;
pub mod token;
pub mod window;

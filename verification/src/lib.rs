//! The decoding core of a task assistant that talks to a locally hosted
//! language model: it reassembles the lines of a streamed response from
//! chunks cut anywhere, decodes each line into a response record, gathers
//! the records of one turn into the reply, keeps the conversation history,
//! and decides, as a state machine, what the interaction loop does next.
//!
//! The library computes and decides; reading files, the terminal and the
//! network is left to its caller.

pub mod history;
pub mod json;
pub mod lines;
pub mod record;
pub mod request;
pub mod seqs;
pub mod session;
pub mod stream;
pub mod tasks;
pub mod text;
pub mod turn;
pub mod utf8;

//! Streaming ledger-snapshot account extraction: tar framing, account record
//! parsing, filtering and decoding of token-program records into row batches.

pub mod bytes;
pub mod cli;
pub mod decoders;
pub mod filters;
pub mod parser;
pub mod pubkey;

pub use cli::CliArgs;
pub use pubkey::Pubkey;


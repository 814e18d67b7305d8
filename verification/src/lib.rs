//! A streaming search for integer triples (x, y, z) where x is a perfect
//! square and the eight signed pairwise combinations of the triple are all
//! candidates for being perfect squares themselves.
//!
//! The crate provides a candidate filter applying the mod-24 necessary
//! conditions ([`filter`]), a square oracle ([`oracle`]), a resumable
//! enumerator of the candidate space ([`cursor`]), a batch fetcher over that
//! enumeration ([`fetcher`]), a bounded-buffer producer state machine with
//! pause/resume and backpressure ([`producer`]) with its consumer-facing
//! session facade ([`session`]), and a primality heuristic ([`aks`]).

pub mod filter;
pub mod oracle;
pub mod cursor;
pub mod fetcher;
pub mod producer;
pub mod session;
pub mod aks;

pub use fetcher::{TripFetcher, TFError, mt_get_trips};
pub use oracle::{is_valid_square, test_squares};
pub use producer::{TGError, TGInst, TGTReturn, TripGenThread, RecvMode};
pub use session::TripGenMain;
pub use aks::aks;

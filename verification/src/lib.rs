//! Peer-wire metadata exchange: obtaining or serving a torrent's info
//! dictionary directly between two peers, piece by piece, over an
//! extension-message transport.
//!
//! The engine is symmetric: a fetcher drives a sequential request loop
//! against a remote peer until the full dictionary is retrieved and
//! verified against its content hash; a seeder answers piece requests from
//! a locally held dictionary. Both roles share one dispatch algorithm.

pub mod bencode;
pub mod conn;
pub mod digest;
pub mod errors;
pub mod fetcher;
pub mod loopback;
pub mod message;
pub mod pieces;
pub mod seeder;
pub mod strategy;

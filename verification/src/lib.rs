//! Transit for Magic Wormhole: two sides that share a key find a way to connect to each
//! other, recognise each other by a handshake, and exchange sealed records.
//!
//! The library holds what is decided and computed on the way, with its contracts. It does not
//! touch the network. Where something has to be sent or read in between, a function says what
//! comes next, and is called again with the outcome:
//!
//! - [`hints`], [`priority`] and [`message`]: where a side can be reached, and how it tells the
//!   other;
//! - [`relay_url`]: the URL of a relay;
//! - [`connect`]: what is tried to reach the peer, and which attempt is used;
//! - [`keys`] and [`handshake`]: the derived keys, and how the sides recognise each other;
//! - [`record`] and [`secretbox`]: records, on the stream and sealed;
//! - [`text`]: how bytes, numbers and strings are written;
//! - [`error`]: what can go wrong.
//!
//! What holds across several functions is stated by proof functions whose names begin with
//! `law_`, beside the functions themselves and in modules of their own:
//!
//! - [`hint_laws`]: which hosts a side tells of, and which its peer tries;
//! - [`line_laws`] and [`handshake_laws`]: what is said in a handshake, and when it completes;
//! - [`record_laws`]: what a record is on the stream, and sealed;
//! - [`json_laws`] and [`message_laws`]: what is read from messages, by the reader that
//!   [`json_reader`] describes, and that nothing is lost in them;
//! - [`relay_url_laws`], [`priority_laws`] and [`text_laws`]: what is read and written as text;
//! - [`view_laws`]: that contracts speak of what the values hold.
pub mod connect;
pub mod error;
pub mod handshake;
pub mod handshake_laws;
pub mod hint_laws;
pub mod hints;
pub mod json_laws;
pub mod json_reader;
pub mod keys;
pub mod line_laws;
pub mod message;
pub mod message_laws;
pub mod priority;
pub mod priority_laws;
pub mod record;
pub mod record_laws;
pub mod relay_url;
pub mod relay_url_laws;
pub mod secretbox;
pub mod text;
pub mod text_laws;
pub mod view_laws;

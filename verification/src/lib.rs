//! Backend logic of a desktop analysis front end, proved against its
//! contracts with Verus.
//!
//! Two pieces live here:
//!
//! * the request/response exchange with the analysis server, framed by a
//!   textual end-of-message marker ([`framing`], [`exchange`]), and the text
//!   that the user interface is shown of a response ([`text`]);
//! * the layout of a saved project on disk, including the decoding of the
//!   images that arrive as base64 data URLs ([`base64`], [`data_url`],
//!   [`store`]).
//!
//! Nothing in this crate touches a socket or a file. The exchange is a state
//! machine that is told what the transport did and answers with what to do
//! next; saving a project yields the list of directories and files to write.
//!
//! One function is taken on trust rather than proved: the lossy UTF-8
//! decoding of the standard library, behind [`text::response_text`].

pub mod base64;
pub mod data_url;
pub mod exchange;
pub mod framing;
pub mod store;
pub mod text;

//! A verified core for a JMComic / 18comic manga downloader: target parsing,
//! response decryption, image descrambling and download planning.
use vstd::prelude::*;

pub mod api;
pub mod comic;
pub mod crypto;
pub mod fetch;
pub mod image;
pub mod naming;
pub mod plan;
pub mod target;
pub mod text;

verus! {

} // verus!

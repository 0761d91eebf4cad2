//! Decoding layer for the bundle2 binary container protocol: an outer
//! stream decoder that peels off a stream header, negotiates payload
//! compression and yields a sequence of typed parts, together with the
//! wirepack tree-manifest assembly pipeline that turns structural tokens
//! into completed tree-manifest entries.
//!
//! The outer container lives in [`bundle2`] with its codecs in [`codec`];
//! the tree-manifest sub-protocol lives in [`wirepack`], built on the
//! leaf components [`hash`], [`path`], [`delta`] and [`manifest`].

pub mod bundle2;
pub mod bytes_util;
pub mod codec;
pub mod delta;
pub mod errors;
pub mod hash;
pub mod manifest;
pub mod path;
pub mod wirepack;

//! Decoder and encoder for the storyboard scripting sub-format of
//! osu!-style beatmap text files.
//!
//! The storyboard model is a tree: a [`Storyboard`] owns named, depth-ordered
//! layers, layers own elements (sprites, animations, videos, samples), and
//! drawable elements own timelines of animation commands, possibly nested in
//! loops and triggers.
//!
//! All numeric fields of the model are exact fixed-point decimals ([`num::Num`]),
//! so that decoding and encoding are exact inverses of one another.
//!
//! [`Storyboard`]: crate::storyboard::Storyboard

pub mod command_loop;
pub mod command_trigger;
pub mod decode;
pub mod element;
pub mod encode;
pub mod layer;
pub mod num;
pub mod storyboard;
pub mod text;
pub mod timeline;
pub mod timeline_group;
pub mod visual;

pub use num::Num;

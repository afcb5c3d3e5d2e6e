//! Playback-control core of a local-library music player: catalog
//! building and ordering, lyric parsing, play history and the command
//! processor that drives one audio sink.
use vstd::prelude::*;

pub mod catalog;
pub mod cover;
pub mod history;
pub mod lyrics;
pub mod player;
pub mod text;

verus! {

} // verus!

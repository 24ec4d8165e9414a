//! An in-memory, time-indexed store for musical events organized into tracks
//! within a song timeline, measured in integer ticks.
//!
//! A [`song::Song`] owns an ordered sequence of [`track::Track`]s; each track
//! owns the [`event::Event`]s whose `track_id` names it, held in
//! non-decreasing start-tick order. Queries return time-ordered slices, either
//! for the whole song or for a chosen subset of tracks, combined by a k-way
//! merge; range queries can also recover events that started earlier but are
//! still sounding when the window opens.

pub mod error;
pub mod event;
pub mod id;
pub mod laws;
pub mod merge;
pub mod note;
pub mod order;
pub mod song;
pub mod store;
pub mod ticks;
pub mod track;

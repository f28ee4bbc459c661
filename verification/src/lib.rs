//! Verified core of the Neuramancy knowledge space: graph builders for the
//! snippet, note and knot tiers, the optimistic note and knot stores, the
//! knot editor form, record id bookkeeping and the integer side of glyphs.

pub mod decimal;
pub mod graph;
pub mod schema;
pub mod cache;
pub mod text;
pub mod notes_store;
pub mod knot_store;
pub mod inflight;
pub mod knot_form;
pub mod glyph;
pub mod backend;
pub mod space;
pub mod layout;

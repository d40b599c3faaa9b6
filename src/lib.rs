//! A streaming decoder for captured USB traffic. Packets are taken in one
//! at a time and grouped into transactions, transactions into transfers per
//! endpoint, and the result is indexed so that any level of the hierarchy
//! can be counted, walked, summarised and drawn.
//!
//! - `pid`, `fields`, `request`: packet identifiers and the packed fields of
//!   packets, setup stages and transfer-index entries.
//! - `fsm`: the transaction and transfer status rules.
//! - `index`: append-only offset tables.
//! - `capture`: the decoder state, ingest and the hierarchical queries.
//! - `summary`, `connectors`, `text`, `report`: the text that the queries
//!   and the storage report produce.

use vstd::prelude::*;

pub mod pid;
pub mod text;
pub mod fields;
pub mod request;
pub mod index;
pub mod fsm;
pub mod summary;
pub mod connectors;
pub mod capture;
pub mod report;

verus! {

} // verus!

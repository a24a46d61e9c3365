//! # The curator
//!
//! Reviews what happened and writes what is worth remembering into the memory vault: it asks a
//! model what it makes of the recent events, reads its reply, and decides what becomes of each
//! memory that the model proposes.
pub mod conflict;
pub mod conflict_laws;
pub mod conflict_pass;
pub mod curation_laws;
pub mod extract;
pub mod model;
pub mod pass;
pub mod procedure_laws;
pub mod reading_laws;
pub mod run;
pub mod scan;
pub mod schedule;
pub mod session;
pub mod status;
pub mod summary;
pub mod wipe;

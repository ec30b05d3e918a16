//! A ranked list whose entries occupy the dense positions `1..=N`, with the
//! shift operations that keep it dense, the validation rules for new entries,
//! the tier classification of positions and the coordinator that creates an
//! entry as one all-or-nothing step.
pub mod error;
pub mod ledger;
pub mod names;
pub mod post;
pub mod tier;
pub mod video;

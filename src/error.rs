use vstd::prelude::*;

verus! {

/// Why creating or moving an entry failed. Nothing is changed in any case.
#[derive(Debug)]
pub enum DemonError {
    /// The caller may not change the list.
    Unauthorized,
    /// The requirement lies outside `0..=100`.
    RequirementOutOfBounds,
    /// The video reference is not a well-formed URL.
    MalformedVideo,
    /// An entry with the same name, ignoring case, already exists.
    NameTaken,
    /// The position lies outside `1..=maximal`.
    PositionOutOfBounds { maximal: i32 },
    /// The list is full: no position is left for another entry.
    ListFull,
    /// No player is known under the given name.
    PlayerNotFound { name: String },
}

} // verus!

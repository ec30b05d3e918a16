use vstd::prelude::*;

verus! {

/// The last position of the main list.
pub const LIST_SIZE: i16 = 75;

/// The last position of the extended list.
pub const EXTENDED_LIST_SIZE: i16 = 150;

/// The segment of the list that a position falls into.
#[derive(Debug, Clone, Copy, PartialEq, Eq, Structural)]
pub enum ListState {
    Main,
    Extended,
    Legacy,
}

/// The tier of `position` for the thresholds `main_limit < extended_limit`.
pub open spec fn tier_of_limits(position: int, main_limit: int, extended_limit: int) -> ListState {
    if position <= main_limit {
        ListState::Main
    } else if position <= extended_limit {
        ListState::Extended
    } else {
        ListState::Legacy
    }
}

/// The tier of `position` for the list's own thresholds.
pub open spec fn tier_of(position: int) -> ListState {
    tier_of_limits(position, LIST_SIZE as int, EXTENDED_LIST_SIZE as int)
}

/// The label under which a tier is shown.
pub open spec fn state_label(s: ListState) -> Seq<char> {
    match s {
        ListState::Main => "MAIN"@,
        ListState::Extended => "EXTENDED"@,
        ListState::Legacy => "LEGACY"@,
    }
}

/// Classifies a position into its tier.
pub fn list_state(position: i16) -> (r: ListState)
    ensures
        r == tier_of(position as int),
{
    if position <= LIST_SIZE {
        ListState::Main
    } else if position <= EXTENDED_LIST_SIZE {
        ListState::Extended
    } else {
        ListState::Legacy
    }
}

impl ListState {
    /// The label of this tier: `MAIN`, `EXTENDED` or `LEGACY`.
    pub fn to_string(&self) -> (r: String)
        ensures
            r@ == state_label(*self),
    {
        match self {
            ListState::Main => {
                proof { reveal_strlit("MAIN"); }
                "MAIN".to_owned()
            },
            ListState::Extended => {
                proof { reveal_strlit("EXTENDED"); }
                "EXTENDED".to_owned()
            },
            ListState::Legacy => {
                proof { reveal_strlit("LEGACY"); }
                "LEGACY".to_owned()
            },
        }
    }
}

/// The three tiers split the positive positions into three contiguous ranges,
/// `1..=main_limit`, `main_limit+1..=extended_limit` and everything above,
/// which together cover every positive position; in particular 75 is main,
/// 76 and 150 are extended and 151 is legacy under the list's thresholds.
pub proof fn lemma_tier_partition(position: int, main_limit: int, extended_limit: int)
    requires
        1 <= position,
        1 <= main_limit < extended_limit,
    ensures
        (tier_of_limits(position, main_limit, extended_limit) == ListState::Main) <==> (1
            <= position <= main_limit),
        (tier_of_limits(position, main_limit, extended_limit) == ListState::Extended) <==> (
        main_limit < position <= extended_limit),
        (tier_of_limits(position, main_limit, extended_limit) == ListState::Legacy) <==> (
        extended_limit < position),
        tier_of(75) == ListState::Main,
        tier_of(76) == ListState::Extended,
        tier_of(150) == ListState::Extended,
        tier_of(151) == ListState::Legacy,
{
}

} // verus!

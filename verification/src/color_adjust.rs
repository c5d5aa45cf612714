use vstd::prelude::*;

verus! {

broadcast use vstd::string::group_string_axioms;

/// Which card images an adjustment applies to. Backs are the images used
/// on duplex back pages (per-card backs and the default back).
#[derive(Debug, Clone, Copy, PartialEq, Eq, Default)]
pub enum AdjustmentScope {
    #[default]
    All,
    FrontsOnly,
    BacksOnly,
}

impl AdjustmentScope {
    /// Whether the scope takes in a back image (`is_back`) or a front one.
    pub open spec fn covers(self, is_back: bool) -> bool {
        match self {
            AdjustmentScope::All => true,
            AdjustmentScope::FrontsOnly => !is_back,
            AdjustmentScope::BacksOnly => is_back,
        }
    }

    /// Whether an adjustment with this scope applies to a back image
    /// (`is_back`) or a front image (`!is_back`).
    pub fn applies_to(self, is_back: bool) -> (b: bool)
        ensures
            b == self.covers(is_back),
    {
        match self {
            AdjustmentScope::All => true,
            AdjustmentScope::FrontsOnly => !is_back,
            AdjustmentScope::BacksOnly => is_back,
        }
    }

    /// The scope's label in the user interface.
    pub fn display_name(self) -> (s: &'static str)
        ensures
            s@ == match self {
                AdjustmentScope::All => "All cards"@,
                AdjustmentScope::FrontsOnly => "Fronts only"@,
                AdjustmentScope::BacksOnly => "Backs only"@,
            },
    {
        match self {
            AdjustmentScope::All => "All cards",
            AdjustmentScope::FrontsOnly => "Fronts only",
            AdjustmentScope::BacksOnly => "Backs only",
        }
    }
}

/// An adjustment for all cards reaches every image; of the two one-sided
/// scopes, exactly one reaches any given image, so fronts and backs can be
/// tuned apart without touching each other.
pub proof fn lemma_scopes_split_sides(is_back: bool)
    ensures
        AdjustmentScope::All.covers(is_back),
        AdjustmentScope::FrontsOnly.covers(is_back) != AdjustmentScope::BacksOnly.covers(is_back),
        AdjustmentScope::FrontsOnly.covers(is_back) <==> !is_back,
{
}

/// Whether an adjustment read from settings that do not say is enabled:
/// it is.
pub fn default_enabled() -> (b: bool)
    ensures
        b,
{
    true
}

} // verus!

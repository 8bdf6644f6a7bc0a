//! How much of the history is shown, and where.

use vstd::prelude::*;

verus! {

/// A block of the history and a line in it. It keeps the view in place while blocks fold.
#[derive(Debug, Clone, Copy, PartialEq, Eq, Structural)]
pub struct ChatAnchor {
    pub block: usize,
    pub offset: usize,
}

impl Default for ChatAnchor {
    fn default() -> (r: Self)
        ensures
            r == (ChatAnchor { block: 0, offset: 0 }),
    {
        ChatAnchor { block: 0, offset: 0 }
    }
}

/// How much of the history is shown.
#[derive(Debug, Clone, Copy, PartialEq, Eq, Structural)]
pub enum ViewLevel {
    /// Thoughts, consoles and changes in full.
    Detailed,
    /// Thoughts folded.
    Dialog,
    /// No thoughts, consoles and changes in short.
    Compact,
    /// Only what was said.
    Overview,
}

impl Default for ViewLevel {
    fn default() -> (r: Self)
        ensures
            r == ViewLevel::Compact,
    {
        ViewLevel::Compact
    }
}

/// The rank of a level, from all to little.
pub open spec fn rank(v: ViewLevel) -> int {
    match v {
        ViewLevel::Detailed => 0,
        ViewLevel::Dialog => 1,
        ViewLevel::Compact => 2,
        ViewLevel::Overview => 3,
    }
}

/// One level further out.
pub open spec fn further_out(v: ViewLevel) -> ViewLevel {
    match v {
        ViewLevel::Detailed => ViewLevel::Dialog,
        ViewLevel::Dialog => ViewLevel::Compact,
        ViewLevel::Compact => ViewLevel::Overview,
        ViewLevel::Overview => ViewLevel::Overview,
    }
}

/// One level further in.
pub open spec fn further_in(v: ViewLevel) -> ViewLevel {
    match v {
        ViewLevel::Overview => ViewLevel::Compact,
        ViewLevel::Compact => ViewLevel::Dialog,
        ViewLevel::Dialog => ViewLevel::Detailed,
        ViewLevel::Detailed => ViewLevel::Detailed,
    }
}

impl ViewLevel {
    /// Whether thoughts are unfolded.
    pub fn thoughts_open(self) -> (r: bool)
        ensures
            r == (rank(self) == 0),
    {
        matches!(self, ViewLevel::Detailed)
    }

    /// Whether consoles and changes are unfolded.
    pub fn boxes_open(self) -> (r: bool)
        ensures
            r == (rank(self) <= 1),
    {
        matches!(self, ViewLevel::Detailed | ViewLevel::Dialog)
    }

    /// Whether only an overview is shown.
    pub fn is_overview(self) -> (r: bool)
        ensures
            r == (rank(self) == 3),
    {
        matches!(self, ViewLevel::Overview)
    }

    /// One level further out; the overview stays.
    pub fn zoom_out(self) -> (r: ViewLevel)
        ensures
            r == further_out(self),
    {
        match self {
            ViewLevel::Detailed => ViewLevel::Dialog,
            ViewLevel::Dialog => ViewLevel::Compact,
            ViewLevel::Compact => ViewLevel::Overview,
            ViewLevel::Overview => ViewLevel::Overview,
        }
    }

    /// One level further in; the detailed view stays.
    pub fn zoom_in(self) -> (r: ViewLevel)
        ensures
            r == further_in(self),
    {
        match self {
            ViewLevel::Overview => ViewLevel::Compact,
            ViewLevel::Compact => ViewLevel::Dialog,
            ViewLevel::Dialog => ViewLevel::Detailed,
            ViewLevel::Detailed => ViewLevel::Detailed,
        }
    }
}

/// Zooming moves by one level and stops at the ends; away from them, zooming out and in again
/// changes nothing.
pub proof fn law_zooming_undoes_itself(v: ViewLevel)
    ensures
        rank(further_out(v)) == (if rank(v) == 3 { 3int } else { rank(v) + 1 }),
        rank(further_in(v)) == (if rank(v) == 0 { 0int } else { rank(v) - 1 }),
        v != ViewLevel::Overview ==> further_in(further_out(v)) == v,
        v != ViewLevel::Detailed ==> further_out(further_in(v)) == v,
{
}

/// From the details one goes out to the dialog, to the short form and to the overview, and in the
/// other direction back; at the ends one stays.
pub proof fn law_the_levels_stand_in_order()
    ensures
        further_out(ViewLevel::Detailed) == ViewLevel::Dialog,
        further_out(ViewLevel::Dialog) == ViewLevel::Compact,
        further_out(ViewLevel::Compact) == ViewLevel::Overview,
        further_out(ViewLevel::Overview) == ViewLevel::Overview,
        further_in(ViewLevel::Overview) == ViewLevel::Compact,
        further_in(ViewLevel::Compact) == ViewLevel::Dialog,
        further_in(ViewLevel::Dialog) == ViewLevel::Detailed,
        further_in(ViewLevel::Detailed) == ViewLevel::Detailed,
{
}

/// Thoughts are unfolded with the details only, boxes in the dialog too; nothing but the outermost
/// level is the overview.
pub proof fn law_what_each_level_unfolds()
    ensures
        rank(ViewLevel::Detailed) == 0,
        rank(ViewLevel::Dialog) == 1,
        rank(ViewLevel::Compact) == 2,
        rank(ViewLevel::Overview) == 3,
{
}

} // verus!

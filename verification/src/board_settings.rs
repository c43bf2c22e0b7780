//! Settings of a new game that the player clicks through: each setting
//! names, for every one of its values, the value before it and the value
//! after it.
use vstd::prelude::*;

verus! {

/// A setting whose values the player steps through, forwards and
/// backwards.
pub trait ClickThroughSelector: Sized {
    /// The value after this one.
    spec fn following(&self) -> Self;

    /// The value before this one.
    spec fn preceding(&self) -> Self;

    /// The text shown for this value.
    spec fn label(&self) -> Seq<char>;

    fn next_option(&mut self)
        ensures
            *final(self) == old(self).following(),
    ;

    fn previous_option(&mut self)
        ensures
            *final(self) == old(self).preceding(),
    ;

    fn display_text(&self) -> (r: String)
        ensures
            r@ == self.label(),
    ;
}

/// The sizes of board offered for a new game.
#[derive(Debug, Clone, Copy, PartialEq, Eq, Structural)]
pub enum PresetBoardSizes {
    Small,
    Regular,
    Large,
}

impl Default for PresetBoardSizes {
    fn default() -> (r: Self)
        ensures
            r == PresetBoardSizes::Regular,
    {
        PresetBoardSizes::Regular
    }
}

impl ClickThroughSelector for PresetBoardSizes {
    open spec fn following(&self) -> Self {
        match self {
            PresetBoardSizes::Small => PresetBoardSizes::Regular,
            PresetBoardSizes::Regular => PresetBoardSizes::Large,
            PresetBoardSizes::Large => PresetBoardSizes::Small,
        }
    }

    open spec fn preceding(&self) -> Self {
        match self {
            PresetBoardSizes::Small => PresetBoardSizes::Large,
            PresetBoardSizes::Regular => PresetBoardSizes::Small,
            PresetBoardSizes::Large => PresetBoardSizes::Regular,
        }
    }

    open spec fn label(&self) -> Seq<char> {
        match self {
            PresetBoardSizes::Small => "Small (2p)"@,
            PresetBoardSizes::Regular => "Regular (3-4p)"@,
            PresetBoardSizes::Large => "Large (5+ p)"@,
        }
    }

    fn next_option(&mut self) {
        *self = match self {
            PresetBoardSizes::Small => PresetBoardSizes::Regular,
            PresetBoardSizes::Regular => PresetBoardSizes::Large,
            PresetBoardSizes::Large => PresetBoardSizes::Small,
        };
    }

    fn previous_option(&mut self) {
        *self = match self {
            PresetBoardSizes::Small => PresetBoardSizes::Large,
            PresetBoardSizes::Regular => PresetBoardSizes::Small,
            PresetBoardSizes::Large => PresetBoardSizes::Regular,
        };
    }

    fn display_text(&self) -> (r: String) {
        String::from_str(
            match self {
                PresetBoardSizes::Small => "Small (2p)",
                PresetBoardSizes::Regular => "Regular (3-4p)",
                PresetBoardSizes::Large => "Large (5+ p)",
            },
        )
    }
}

/// Stepping forwards and then backwards through the board sizes, or
/// backwards and then forwards, comes back to where it started; three
/// steps in one direction go all the way round.
pub proof fn lemma_board_sizes_cycle(size: PresetBoardSizes)
    ensures
        size.following().preceding() == size,
        size.preceding().following() == size,
        size.following().following().following() == size,
{
}

/// The sizes of board the tiles of a game can be laid out in.
#[derive(Debug, Clone, Copy, PartialEq, Eq, Structural)]
pub enum BoardSize {
    Small,
    Standard,
    Large,
    ExtraLarge,
}

impl BoardSize {
    /// The number of rings of tiles around tile zero.
    pub fn ring_count(&self) -> (r: u32)
        ensures
            r == match self {
                BoardSize::Small => 3u32,
                BoardSize::Standard => 4u32,
                BoardSize::Large => 6u32,
                BoardSize::ExtraLarge => 8u32,
            },
    {
        match self {
            BoardSize::Small => 3,
            BoardSize::Standard => 4,
            BoardSize::Large => 6,
            BoardSize::ExtraLarge => 8,
        }
    }
}

} // verus!

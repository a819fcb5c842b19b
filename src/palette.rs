use vstd::prelude::*;

use crate::random::draw_in_range;

verus! {

/// The colours a cell can be painted in.
#[derive(Clone, Copy, Debug, PartialEq, Eq, Structural)]
pub enum Color {
    Black,
    Grey,
    Red,
    Yellow,
    Blue,
    Magenta,
    Cyan,
    Green,
}

/// Number of entries in each palette.
pub const PALETTE_LEN: usize = 7;

/// The colour of a cell that no band reaches before the sweep is done.
pub const BACKGROUND: Color = Color::Black;

/// The palette pair that the sweep paints with.
///
/// `incoming` colours the bands while the sweep time is negative and is the
/// one that rotates; `outgoing` colours them while it is zero or positive.
pub struct Palettes {
    pub incoming: Vec<Color>,
    pub outgoing: Vec<Color>,
}

/// `s` with the entry at `idx` taken out and put at the end.
pub open spec fn rotated(s: Seq<Color>, idx: int) -> Seq<Color> {
    s.remove(idx).push(s[idx])
}

impl Palettes {
    pub open spec fn wf(&self) -> bool {
        &&& self.incoming@.len() == PALETTE_LEN
        &&& self.outgoing@.len() == PALETTE_LEN
    }

    pub open spec fn initial_incoming() -> Seq<Color> {
        seq![
            Color::Grey,
            Color::Red,
            Color::Yellow,
            Color::Blue,
            Color::Magenta,
            Color::Cyan,
            Color::Green,
        ]
    }

    pub open spec fn initial_outgoing() -> Seq<Color> {
        seq![
            Color::Red,
            Color::Yellow,
            Color::Blue,
            Color::Magenta,
            Color::Cyan,
            Color::Grey,
            Color::Black,
        ]
    }

    /// The palettes an animation starts with.
    pub fn new() -> (r: Palettes)
        ensures
            r.wf(),
            r.incoming@ == Self::initial_incoming(),
            r.outgoing@ == Self::initial_outgoing(),
    {
        let incoming = vec![
            Color::Grey,
            Color::Red,
            Color::Yellow,
            Color::Blue,
            Color::Magenta,
            Color::Cyan,
            Color::Green,
        ];
        let outgoing = vec![
            Color::Red,
            Color::Yellow,
            Color::Blue,
            Color::Magenta,
            Color::Cyan,
            Color::Grey,
            Color::Black,
        ];
        let r = Palettes { incoming, outgoing };
        assert(r.incoming@ =~= Self::initial_incoming());
        assert(r.outgoing@ =~= Self::initial_outgoing());
        r
    }

    /// Moves the incoming entry at `idx` to the end; entry 0 never moves.
    pub fn rotate(&mut self, idx: usize)
        requires
            old(self).wf(),
            1 <= idx <= 3,
        ensures
            final(self).wf(),
            final(self).incoming@ == rotated(old(self).incoming@, idx as int),
            final(self).outgoing@ == old(self).outgoing@,
    {
        let moved = self.incoming.remove(idx);
        self.incoming.push(moved);
    }

    /// Rotates at an index drawn at random from 1 to 3.
    pub fn rotate_random(&mut self)
        requires
            old(self).wf(),
        ensures
            final(self).wf(),
            exists|idx: int|
                1 <= idx <= 3 && final(self).incoming@ == #[trigger] rotated(
                    old(self).incoming@,
                    idx,
                ),
            final(self).outgoing@ == old(self).outgoing@,
    {
        let idx = draw_in_range(1, 3);
        self.rotate(idx as usize);
    }
}

/// A rotation is a permutation: the moved entry ends up last, the other six
/// keep their relative order, the first entry stays where it was, and the
/// multiset of colours is unchanged.
pub proof fn lemma_rotation_is_permutation(s: Seq<Color>, idx: int)
    requires
        s.len() == PALETTE_LEN,
        1 <= idx <= 3,
    ensures
        rotated(s, idx).len() == PALETTE_LEN,
        rotated(s, idx).last() == s[idx],
        rotated(s, idx).drop_last() == s.remove(idx),
        rotated(s, idx)[0] == s[0],
        rotated(s, idx).to_multiset() == s.to_multiset(),
{
    broadcast use vstd::seq_lib::to_multiset_build, vstd::seq_lib::to_multiset_remove;
    broadcast use vstd::multiset::group_multiset_axioms;

    let r = rotated(s, idx);
    assert(r.drop_last() =~= s.remove(idx));
    s.to_multiset_ensures();
    assert(s.to_multiset().count(s[idx]) > 0);
    assert(r.to_multiset() == s.to_multiset().remove(s[idx]).insert(s[idx]));
    assert(r.to_multiset() =~= s.to_multiset());
}

} // verus!

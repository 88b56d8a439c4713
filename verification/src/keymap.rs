//! The keymap: an immutable table from source keycode to destination keycode,
//! built once at startup. Keys not present pass through unchanged.

use vstd::prelude::*;

verus! {

/// The mathematical meaning of a list of keycode pairs: the map obtained by
/// inserting the pairs in order, so a later pair for the same source key wins.
pub open spec fn pairs_to_map(pairs: Seq<(u16, u16)>) -> Map<u16, u16>
    decreases pairs.len(),
{
    if pairs.len() == 0 {
        Map::empty()
    } else {
        pairs_to_map(pairs.drop_last()).insert(pairs.last().0, pairs.last().1)
    }
}

/// Remapping a keycode through a table: the mapped code if the table has the
/// key, else the code itself, unchanged.
pub open spec fn lookup_spec(m: Map<u16, u16>, code: u16) -> u16 {
    if m.dom().contains(code) {
        m[code]
    } else {
        code
    }
}

/// An immutable mapping from input keycode to output keycode. Abstractly it
/// is the `Map<u16, u16>` given by its view.
pub struct Keymap {
    pairs: Vec<(u16, u16)>,
}

impl View for Keymap {
    type V = Map<u16, u16>;

    closed spec fn view(&self) -> Map<u16, u16> {
        pairs_to_map(self.pairs@)
    }
}

impl Keymap {
    /// Builds the keymap holding exactly the given pairs; a later pair for
    /// the same source key overrides an earlier one.
    pub fn from_pairs(pairs: Vec<(u16, u16)>) -> (r: Keymap)
        ensures
            r@ == pairs_to_map(pairs@),
    {
        Keymap { pairs }
    }

    /// The destination keycode for `code`, or `None` if `code` has no entry.
    pub fn get(&self, code: u16) -> (r: Option<u16>)
        ensures
            r == (if self@.dom().contains(code) {
                Some(self@[code])
            } else {
                None::<u16>
            }),
    {
        let mut r: Option<u16> = None;
        let mut i: usize = 0;
        proof {
            assert(self.pairs@.take(0) =~= Seq::<(u16, u16)>::empty());
        }
        while i < self.pairs.len()
            invariant
                i <= self.pairs.len(),
                r == (if pairs_to_map(self.pairs@.take(i as int)).dom().contains(code) {
                    Some(pairs_to_map(self.pairs@.take(i as int))[code])
                } else {
                    None::<u16>
                }),
            decreases self.pairs.len() - i,
        {
            let (k, v) = self.pairs[i];
            if k == code {
                r = Some(v);
            }
            proof {
                assert(self.pairs@.take(i + 1).drop_last() =~= self.pairs@.take(i as int));
                assert(self.pairs@.take(i + 1).last() == (k, v));
            }
            i = i + 1;
        }
        proof {
            assert(self.pairs@.take(self.pairs@.len() as int) =~= self.pairs@);
        }
        r
    }

    /// Remaps `code` through the table: the mapped code if present, else
    /// `code` unchanged.
    pub fn lookup(&self, code: u16) -> (r: u16)
        ensures
            r == lookup_spec(self@, code),
    {
        match self.get(code) {
            Some(mapped) => mapped,
            None => code,
        }
    }
}

} // verus!

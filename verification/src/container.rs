use vstd::prelude::*;
use crate::pos::{HexPos, group_pos};

verus! {

broadcast use group_pos;

/// A trait for containers that can hold HexPos values.
pub trait HexPosContainer {
    /// The positions in the container, in the order in which `iter_hexes`
    /// returns them.
    spec fn hex_views(&self) -> Seq<(int, int)>;

    /// Checks if the container contains the given HexPos.
    fn contains_hex(&self, pos: HexPos) -> (r: bool)
        ensures
            r == self.hex_views().contains(pos@),
    ;

    /// Returns the HexPos values in the container.
    fn iter_hexes(&self) -> (r: Vec<HexPos>)
        requires
            self.hex_views().len() <= usize::MAX,
        ensures
            r@.map_values(|p: HexPos| p@) == self.hex_views(),
    ;

    /// Returns the number of HexPos values in the container.
    fn len(&self) -> (r: usize)
        requires
            self.hex_views().len() <= usize::MAX,
        ensures
            r == self.hex_views().len(),
    ;

    /// Checks if the container is empty.
    fn is_empty(&self) -> (r: bool)
        requires
            self.hex_views().len() <= usize::MAX,
        ensures
            r == (self.hex_views().len() == 0),
    {
        self.len() == 0
    }
}

impl HexPosContainer for Vec<HexPos> {
    open spec fn hex_views(&self) -> Seq<(int, int)> {
        self@.map_values(|p: HexPos| p@)
    }

    fn contains_hex(&self, pos: HexPos) -> (r: bool) {
        let mut i: usize = 0;
        while i < self.len()
            invariant
                0 <= i <= self.len(),
                forall|j: int| 0 <= j < i ==> self@[j]@ != pos@,
            decreases self.len() - i,
        {
            if self[i] == pos {
                assert(self.hex_views()[i as int] == pos@);
                return true;
            }
            i += 1;
        }
        proof {
            if self.hex_views().contains(pos@) {
                let j = choose|j: int| 0 <= j < self.hex_views().len() && self.hex_views()[j] == pos@;
                assert(self@[j]@ == pos@);
            }
        }
        false
    }

    fn iter_hexes(&self) -> (r: Vec<HexPos>) {
        self.clone()
    }

    fn len(&self) -> (r: usize) {
        self.len()
    }
}

impl HexPosContainer for [HexPos] {
    open spec fn hex_views(&self) -> Seq<(int, int)> {
        self@.map_values(|p: HexPos| p@)
    }

    fn contains_hex(&self, pos: HexPos) -> (r: bool) {
        let mut i: usize = 0;
        while i < self.len()
            invariant
                0 <= i <= self@.len(),
                forall|j: int| 0 <= j < i ==> self@[j]@ != pos@,
            decreases self@.len() - i,
        {
            if self[i] == pos {
                assert(self.hex_views()[i as int] == pos@);
                return true;
            }
            i += 1;
        }
        proof {
            if self.hex_views().contains(pos@) {
                let j = choose|j: int| 0 <= j < self.hex_views().len() && self.hex_views()[j] == pos@;
                assert(self@[j]@ == pos@);
            }
        }
        false
    }

    fn iter_hexes(&self) -> (r: Vec<HexPos>) {
        let mut out: Vec<HexPos> = Vec::with_capacity(self.len());
        let mut i: usize = 0;
        while i < self.len()
            invariant
                0 <= i <= self@.len(),
                out@ == self@.subrange(0, i as int),
            decreases self@.len() - i,
        {
            out.push(self[i]);
            i += 1;
        }
        assert(out@ == self@);
        out
    }

    fn len(&self) -> (r: usize) {
        self.len()
    }
}

} // verus!

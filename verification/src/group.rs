use vstd::prelude::*;
use vstd::std_specs::cmp::PartialEqSpecImpl;
use crate::{HexCoord, Sixths};
use crate::container::HexPosContainer;
use crate::delta::{HexDelta, delta_of, fits_coord, is_even_pair, pair_neg, group_delta};
use crate::id::{HexId, lemma_rotate_around_inverse};
use crate::pos::HexPos;

verus! {

broadcast use {vstd::seq_lib::group_seq_properties, crate::pos::group_pos, group_delta};

/// A collection of hexagons, edges, or corners that can be manipulated as a
/// group.  Each item is held once.
#[derive(Debug)]
pub struct HexGroup<H: HexId = HexPos>(Vec<H>);

impl<H: HexId> View for HexGroup<H> {
    type V = Set<H>;

    closed spec fn view(&self) -> Set<H> {
        self.0@.to_set()
    }
}

/// Removing the item at index `i` from a sequence without duplicates, by
/// moving the last item into its place, removes that item from the set.
proof fn lemma_swap_remove_set<H>(s: Seq<H>, i: int)
    requires
        s.no_duplicates(),
        0 <= i < s.len(),
    ensures
        s.update(i, s.last()).drop_last().no_duplicates(),
        s.update(i, s.last()).drop_last().to_set() == s.to_set().remove(s[i]),
{
    let t = s.update(i, s.last()).drop_last();
    assert forall|a: int, b: int| 0 <= a < t.len() && 0 <= b < t.len() && a != b implies t[a]
        != t[b] by {
        let ia = if a == i {
            s.len() - 1
        } else {
            a
        };
        let ib = if b == i {
            s.len() - 1
        } else {
            b
        };
        assert(t[a] == s[ia]);
        assert(t[b] == s[ib]);
    }
    assert forall|x: H| t.to_set().contains(x) <==> s.to_set().remove(s[i]).contains(x) by {
        if t.to_set().contains(x) {
            let a = choose|a: int| 0 <= a < t.len() && t[a] == x;
            let ia = if a == i {
                s.len() - 1
            } else {
                a
            };
            assert(s[ia] == x);
        }
        if s.to_set().remove(s[i]).contains(x) {
            let a = choose|a: int| 0 <= a < s.len() && s[a] == x;
            if a == s.len() - 1 {
                assert(t[i] == x);
            } else {
                assert(t[a] == x);
            }
        }
    }
    assert(t.to_set() =~= s.to_set().remove(s[i]));
}

/// Appending an item that a sequence without duplicates lacks keeps it
/// without duplicates, and adds the item to its set.
proof fn lemma_push_set<H>(s: Seq<H>, x: H)
    requires
        s.no_duplicates(),
        !s.contains(x),
    ensures
        s.push(x).no_duplicates(),
        s.push(x).to_set() == s.to_set().insert(x),
{
    let t = s.push(x);
    assert forall|a: int, b: int| 0 <= a < t.len() && 0 <= b < t.len() && a != b implies t[a]
        != t[b] by {
        if a == s.len() {
            assert(t[b] == s[b]);
        } else if b == s.len() {
            assert(t[a] == s[a]);
        } else {
            assert(t[a] == s[a]);
            assert(t[b] == s[b]);
        }
    }
    assert forall|y: H| t.to_set().contains(y) <==> s.to_set().insert(x).contains(y) by {
        if t.to_set().contains(y) {
            let a = choose|a: int| 0 <= a < t.len() && t[a] == y;
            if a < s.len() {
                assert(s[a] == y);
            }
        }
        if s.to_set().insert(x).contains(y) {
            if y == x {
                assert(t[s.len() as int] == y);
            } else {
                let a = choose|a: int| 0 <= a < s.len() && s[a] == y;
                assert(t[a] == y);
            }
        }
    }
    assert(t.to_set() =~= s.to_set().insert(x));
}

/// The items of `g` rotated around `center` by `steps` sixths of a turn.
spec fn rotated_items<H: HexId>(g: Set<H>, center: HexPos, steps: int) -> Set<H> {
    g.map(|h: H| h.rotated_id(center, steps))
}

/// The items of `g` shifted by `delta`.
spec fn shifted_items<H: HexId>(g: Set<H>, delta: HexDelta) -> Set<H> {
    g.map(|h: H| h.shifted_id(delta))
}

/// Rotating a finite set of items keeps its size, and rotating the result back
/// gives the set back.
proof fn lemma_rotated_set<H: HexId>(g: Set<H>, center: HexPos, steps: int)
    requires
        g.finite(),
        is_even_pair(center@),
        forall|h: H| #[trigger] g.contains(h) ==> is_even_pair(h.id_pos()@) && h.rotate_fits(center, steps),
    ensures
        rotated_items(g, center, steps).finite(),
        rotated_items(g, center, steps).len() == g.len(),
        forall|h: H| #[trigger] rotated_items(g, center, steps).contains(h) ==> h.rotate_fits(center, -steps),
        rotated_items(g, center, steps).map(|h: H| h.rotated_id(center, -steps)) == g,
        steps % 6 == 0 ==> rotated_items(g, center, steps) == g,
{
    let f = |h: H| h.rotated_id(center, steps);
    assert(rotated_items(g, center, steps) == g.map(f));
    let b = |h: H| h.rotated_id(center, -steps);
    assert forall|h: H| #[trigger] g.contains(h) implies b(f(h)) == h && f(h).rotate_fits(center, -steps)
        && (steps % 6 == 0 ==> f(h) == h) by {
        h.lemma_rotate_back(center, steps);
    }
    assert(vstd::relations::injective_on(f, g)) by {
        assert forall|x: H, y: H| g.contains(x) && g.contains(y) && #[trigger] f(x) == #[trigger] f(y) implies x == y by {
            assert(b(f(x)) == x);
            assert(b(f(y)) == y);
        }
    }
    vstd::set_lib::lemma_map_size(g, g.map(f), f);
    assert forall|q: H| #[trigger] g.map(f).contains(q) implies q.rotate_fits(center, -steps) by {
        let x = choose|x: H| g.contains(x) && f(x) == q;
    }
    assert forall|q: H| g.map(f).map(b).contains(q) <==> g.contains(q) by {
        if g.map(f).map(b).contains(q) {
            let y = choose|y: H| g.map(f).contains(y) && b(y) == q;
            let x = choose|x: H| g.contains(x) && f(x) == y;
            assert(b(f(x)) == x);
        }
        if g.contains(q) {
            assert(g.map(f).contains(f(q)));
            assert(b(f(q)) == q);
        }
    }
    assert(g.map(f).map(b) =~= g);
    if steps % 6 == 0 {
        assert forall|q: H| g.map(f).contains(q) <==> g.contains(q) by {
            if g.map(f).contains(q) {
                let x = choose|x: H| g.contains(x) && f(x) == q;
            }
            if g.contains(q) {
                assert(f(q) == q);
                assert(g.map(f).contains(f(q)));
            }
        }
        assert(g.map(f) =~= g);
    }
}

/// Shifting a finite set of items keeps its size, and shifting the result by
/// the opposite delta gives the set back.
proof fn lemma_shifted_set<H: HexId>(g: Set<H>, delta: HexDelta)
    requires
        g.finite(),
        is_even_pair(delta@),
        forall|h: H| #[trigger] g.contains(h) ==> is_even_pair(h.id_pos()@) && h.shift_fits(delta),
    ensures
        shifted_items(g, delta).finite(),
        shifted_items(g, delta).len() == g.len(),
        forall|back: HexDelta| #![trigger back@] back@ == pair_neg(delta@) ==> (forall|h: H|
            #[trigger] shifted_items(g, delta).contains(h) ==> h.shift_fits(back)),
        forall|back: HexDelta| #![trigger back@] back@ == pair_neg(delta@) ==> shifted_items(g, delta).map(|h: H| h.shifted_id(back)) == g,
        delta@ == (0int, 0int) ==> shifted_items(g, delta) == g,
{
    let f = |h: H| h.shifted_id(delta);
    assert(shifted_items(g, delta) == g.map(f));
    assert(vstd::relations::injective_on(f, g)) by {
        assert forall|x: H, y: H| g.contains(x) && g.contains(y) && #[trigger] f(x) == #[trigger] f(y) implies x == y by {
            x.lemma_shift_injective(&y, delta);
        }
    }
    vstd::set_lib::lemma_map_size(g, g.map(f), f);
    assert forall|bk: HexDelta| #![trigger bk@] bk@ == pair_neg(delta@) implies (forall|h: H|
        #[trigger] g.map(f).contains(h) ==> h.shift_fits(bk)) && g.map(f).map(|h: H| h.shifted_id(bk)) == g by {
        let bf = |h: H| h.shifted_id(bk);
        assert forall|h: H| #[trigger] g.contains(h) implies bf(f(h)) == h && f(h).shift_fits(bk) by {
            h.lemma_shift_back(delta, bk);
        }
        assert forall|q: H| #[trigger] g.map(f).contains(q) implies q.shift_fits(bk) by {
            let x = choose|x: H| g.contains(x) && f(x) == q;
        }
        assert forall|q: H| g.map(f).map(bf).contains(q) <==> g.contains(q) by {
            if g.map(f).map(bf).contains(q) {
                let y = choose|y: H| g.map(f).contains(y) && bf(y) == q;
                let x = choose|x: H| g.contains(x) && f(x) == y;
                assert(bf(f(x)) == x);
            }
            if g.contains(q) {
                assert(g.map(f).contains(f(q)));
                assert(bf(f(q)) == q);
            }
        }
        assert(g.map(f).map(bf) =~= g);
    }
    if delta@ == (0int, 0int) {
        let back = delta_of(pair_neg(delta@));
        assert forall|h: H| #[trigger] g.contains(h) implies f(h) == h by {
            h.lemma_shift_back(delta, back);
        }
        assert forall|q: H| g.map(f).contains(q) <==> g.contains(q) by {
            if g.map(f).contains(q) {
                let x = choose|x: H| g.contains(x) && f(x) == q;
            }
            if g.contains(q) {
                assert(f(q) == q);
                assert(g.map(f).contains(f(q)));
            }
        }
        assert(g.map(f) =~= g);
    }
}

impl<H: HexId> HexGroup<H> {
    #[verifier::type_invariant]
    spec fn inv(self) -> bool {
        &&& self.0@.no_duplicates()
        &&& forall|i: int| 0 <= i < self.0@.len() ==> is_even_pair(#[trigger] self.0@[i].id_pos()@)
    }

    /// The items of a group form a finite set.
    pub proof fn lemma_finite(&self)
        ensures
            self@.finite(),
    {
    }

    /// Creates a new empty `HexGroup`.
    pub fn new() -> (r: HexGroup<H>)
        ensures
            r@ == Set::<H>::empty(),
            r@.finite(),
    {
        let r = HexGroup(Vec::new());
        assert(r@ =~= Set::<H>::empty());
        r
    }

    /// Creates a new `HexGroup` with the given capacity.
    pub fn with_capacity(capacity: usize) -> (r: HexGroup<H>)
        ensures
            r@ == Set::<H>::empty(),
            r@.finite(),
    {
        let r = HexGroup(Vec::with_capacity(capacity));
        assert(r@ =~= Set::<H>::empty());
        r
    }

    /// Every item of the group lies on a position with an even coordinate sum.
    proof fn lemma_items_even(&self)
        requires
            self.inv(),
        ensures
            forall|h: H| #[trigger] self@.contains(h) ==> is_even_pair(h.id_pos()@),
    {
        assert forall|h: H| #[trigger] self@.contains(h) implies is_even_pair(h.id_pos()@) by {
            let i = choose|i: int| 0 <= i < self.0@.len() && self.0@[i] == h;
            assert(is_even_pair(self.0@[i].id_pos()@));
        }
    }

    /// The index at which `pos` is held, if it is.
    fn index_of(&self, pos: &H) -> (r: Option<usize>)
        ensures
            match r {
                Some(i) => i < self.0@.len() && self.0@[i as int] == *pos,
                None => !self.0@.contains(*pos),
            },
    {
        let mut i: usize = 0;
        while i < self.0.len()
            invariant
                0 <= i <= self.0@.len(),
                forall|j: int| 0 <= j < i ==> self.0@[j] != *pos,
            decreases self.0@.len() - i,
        {
            if self.0[i].is_same(pos) {
                return Some(i);
            }
            i += 1;
        }
        None
    }

    /// Returns true if the group contains the given hexagon, edge, or corner.
    pub fn contains(&self, pos: H) -> (r: bool)
        ensures
            r == self@.contains(pos),
    {
        self.index_of(&pos).is_some()
    }

    /// Returns the number of elements in the group.
    pub fn len(&self) -> (r: usize)
        ensures
            r == self@.len(),
    {
        proof {
            use_type_invariant(self);
            self.0@.unique_seq_to_set();
        }
        self.0.len()
    }

    /// Returns true if the group contains no elements.
    pub fn is_empty(&self) -> (r: bool)
        ensures
            r == (self@ == Set::<H>::empty()),
    {
        proof {
            use_type_invariant(self);
            self.0@.unique_seq_to_set();
            if self.0@.len() > 0 {
                assert(self@.contains(self.0@[0]));
            } else {
                assert(self@ =~= Set::<H>::empty());
            }
        }
        self.0.len() == 0
    }

    /// Inserts the given hexagon, edge, or corner into the group.  Returns true
    /// if the element was not already present in the group, and false if it
    /// was already present.
    pub fn insert(&mut self, pos: H) -> (r: bool)
        ensures
            final(self)@ == old(self)@.insert(pos),
            r == !old(self)@.contains(pos),
            final(self)@.finite(),
            final(self)@.len() == old(self)@.len() + if r { 1int } else { 0int },
    {
        proof {
            use_type_invariant(&*self);
        }
        let at = pos.pos();
        proof {
            use_type_invariant(&at);
        }
        match self.index_of(&pos) {
            Some(_) => {
                assert(old(self)@.insert(pos) =~= old(self)@);
                false
            },
            None => {
                let mut items: Vec<H> = Vec::new();
                std::mem::swap(&mut items, &mut self.0);
                proof {
                    lemma_push_set(items@, pos);
                }
                items.push(pos);
                assert(forall|i: int| 0 <= i < items@.len() ==> is_even_pair(#[trigger] items@[i].id_pos()@));
                self.0 = items;
                true
            },
        }
    }

    /// Removes an item from the group.  Returns true if the item was present in
    /// the group, and false if it was not.
    pub fn remove(&mut self, pos: &H) -> (r: bool)
        ensures
            final(self)@ == old(self)@.remove(*pos),
            r == old(self)@.contains(*pos),
            final(self)@.finite(),
            final(self)@.len() == old(self)@.len() - if r { 1int } else { 0int },
    {
        proof {
            use_type_invariant(&*self);
        }
        match self.index_of(pos) {
            Some(i) => {
                let mut items: Vec<H> = Vec::new();
                std::mem::swap(&mut items, &mut self.0);
                proof {
                    lemma_swap_remove_set(items@, i as int);
                }
                let ghost before = items@;
                items.swap_remove(i);
                assert forall|j: int| 0 <= j < items@.len() implies is_even_pair(#[trigger] items@[j].id_pos()@) by {
                    if j == i {
                        assert(items@[j] == before[before.len() - 1]);
                    } else {
                        assert(items@[j] == before[j]);
                    }
                }
                self.0 = items;
                true
            },
            None => {
                assert(old(self)@.remove(*pos) =~= old(self)@);
                false
            },
        }
    }
    /// Returns a new group with all items rotated around the given center by
    /// the given number of 60 degree steps.
    pub fn rotate_around(self, center: HexPos, steps: Sixths) -> (r: HexGroup<H>)
        requires
            forall|h: H| #[trigger] self@.contains(h) ==> h.rotate_fits(center, steps as int),
        ensures
            r@ == self@.map(|h: H| h.rotated_id(center, steps as int)),
            r@.finite(),
            r@.len() == self@.len(),
            forall|h: H| #[trigger] r@.contains(h) ==> h.rotate_fits(center, -(steps as int)),
            r@.map(|h: H| h.rotated_id(center, -(steps as int))) == self@,
            steps % 6 == 0 ==> r@ == self@,
    {
        proof {
            use_type_invariant(&self);
            use_type_invariant(&center);
            self.lemma_items_even();
            lemma_rotated_set(self@, center, steps as int);
        }
        let ghost whole = self@;
        let HexGroup(mut items) = self;
        let ghost orig = items@;
        let mut out: HexGroup<H> = HexGroup::new();
        while items.len() > 0
            invariant
                items@ == orig.subrange(0, items@.len() as int),
                items@.len() <= orig.len(),
                whole == orig.to_set(),
                forall|h: H| #[trigger] whole.contains(h) ==> h.rotate_fits(center, steps as int),
                forall|y: H|
                    #[trigger] out@.contains(y) <==> exists|i: int|
                        items@.len() <= i < orig.len() && #[trigger] orig[i].rotated_id(
                            center,
                            steps as int,
                        ) == y,
            decreases items@.len(),
        {
            let ghost n = items@.len() - 1;
            let h = items.pop().unwrap();
            assert(orig[n] == h);
            assert(whole.contains(h));
            let moved = h.rotate_around(center, steps);
            let ghost before = out@;
            out.insert(moved);
            assert forall|y: H| #[trigger] out@.contains(y) <==> exists|i: int|
                items@.len() <= i < orig.len() && #[trigger] orig[i].rotated_id(center, steps as int)
                    == y by {
                if y == moved {
                    assert(orig[n].rotated_id(center, steps as int) == y);
                } else if before.contains(y) {
                    let i = choose|i: int|
                        n + 1 <= i < orig.len() && #[trigger] orig[i].rotated_id(
                            center,
                            steps as int,
                        ) == y;
                    assert(orig[i].rotated_id(center, steps as int) == y);
                }
            }
        }
        assert forall|y: H| out@.contains(y) <==> whole.map(
            |h: H| h.rotated_id(center, steps as int),
        ).contains(y) by {
            if out@.contains(y) {
                let i = choose|i: int|
                    0 <= i < orig.len() && #[trigger] orig[i].rotated_id(center, steps as int) == y;
                assert(whole.contains(orig[i]));
            }
            if whole.map(|h: H| h.rotated_id(center, steps as int)).contains(y) {
                let h = choose|h: H| whole.contains(h) && h.rotated_id(center, steps as int) == y;
                let i = choose|i: int| 0 <= i < orig.len() && orig[i] == h;
                assert(orig[i].rotated_id(center, steps as int) == y);
            }
        }
        assert(out@ =~= whole.map(|h: H| h.rotated_id(center, steps as int)));
        out
    }

    /// Returns a new group with all items shifted by the given delta.
    pub fn shift(self, delta: HexDelta) -> (r: HexGroup<H>)
        requires
            forall|h: H| #[trigger] self@.contains(h) ==> h.shift_fits(delta),
        ensures
            r@ == self@.map(|h: H| h.shifted_id(delta)),
            r@.finite(),
            r@.len() == self@.len(),
            forall|back: HexDelta| #![trigger back@] back@ == pair_neg(delta@) ==> (forall|h: H|
                #[trigger] r@.contains(h) ==> h.shift_fits(back)),
            forall|back: HexDelta| #![trigger back@] back@ == pair_neg(delta@) ==> r@.map(
                |h: H| h.shifted_id(back),
            ) == self@,
            delta@ == (0int, 0int) ==> r@ == self@,
    {
        proof {
            use_type_invariant(&self);
            use_type_invariant(&delta);
            self.lemma_items_even();
            lemma_shifted_set(self@, delta);
        }
        let ghost whole = self@;
        let HexGroup(mut items) = self;
        let ghost orig = items@;
        let mut out: HexGroup<H> = HexGroup::new();
        while items.len() > 0
            invariant
                items@ == orig.subrange(0, items@.len() as int),
                items@.len() <= orig.len(),
                whole == orig.to_set(),
                forall|h: H| #[trigger] whole.contains(h) ==> h.shift_fits(delta),
                forall|y: H|
                    #[trigger] out@.contains(y) <==> exists|i: int|
                        items@.len() <= i < orig.len() && #[trigger] orig[i].shifted_id(delta) == y,
            decreases items@.len(),
        {
            let ghost n = items@.len() - 1;
            let h = items.pop().unwrap();
            assert(orig[n] == h);
            assert(whole.contains(h));
            let moved = h.shift(delta);
            let ghost before = out@;
            out.insert(moved);
            assert forall|y: H| #[trigger] out@.contains(y) <==> exists|i: int|
                items@.len() <= i < orig.len() && #[trigger] orig[i].shifted_id(delta) == y by {
                if y == moved {
                    assert(orig[n].shifted_id(delta) == y);
                } else if before.contains(y) {
                    let i = choose|i: int|
                        n + 1 <= i < orig.len() && #[trigger] orig[i].shifted_id(delta) == y;
                    assert(orig[i].shifted_id(delta) == y);
                }
            }
        }
        assert forall|y: H| out@.contains(y) <==> whole.map(|h: H| h.shifted_id(delta)).contains(
            y,
        ) by {
            if out@.contains(y) {
                let i = choose|i: int| 0 <= i < orig.len() && #[trigger] orig[i].shifted_id(delta) == y;
                assert(whole.contains(orig[i]));
            }
            if whole.map(|h: H| h.shifted_id(delta)).contains(y) {
                let h = choose|h: H| whole.contains(h) && h.shifted_id(delta) == y;
                let i = choose|i: int| 0 <= i < orig.len() && orig[i] == h;
                assert(orig[i].shifted_id(delta) == y);
            }
        }
        assert(out@ =~= whole.map(|h: H| h.shifted_id(delta)));
        out
    }

    /// Adds every item of `items` to the group.
    pub fn extend(&mut self, items: Vec<H>)
        ensures
            final(self)@ == old(self)@.union(items@.to_set()),
            final(self)@.finite(),
    {
        let ghost orig = items@;
        let mut items = items;
        while items.len() > 0
            invariant
                items@ == orig.subrange(0, items@.len() as int),
                items@.len() <= orig.len(),
                self@ == old(self)@.union(orig.subrange(items@.len() as int, orig.len() as int).to_set()),
            decreases items@.len(),
        {
            let ghost n = items@.len() - 1;
            let ghost before = self@;
            let h = items.pop().unwrap();
            assert(orig[n] == h);
            self.insert(h);
            assert(orig.subrange(n, orig.len() as int).to_set() =~= orig.subrange(
                n + 1,
                orig.len() as int,
            ).to_set().insert(h)) by {
                assert forall|y: H| orig.subrange(n, orig.len() as int).to_set().contains(y)
                    <==> orig.subrange(n + 1, orig.len() as int).to_set().insert(h).contains(y) by {
                    let a = orig.subrange(n, orig.len() as int);
                    let b = orig.subrange(n + 1, orig.len() as int);
                    if a.to_set().contains(y) && y != h {
                        let i = choose|i: int| 0 <= i < a.len() && a[i] == y;
                        assert(b[i - 1] == y);
                    }
                    if b.to_set().contains(y) {
                        let i = choose|i: int| 0 <= i < b.len() && b[i] == y;
                        assert(a[i + 1] == y);
                    }
                    if y == h {
                        assert(a[0] == y);
                    }
                }
            }
            assert(self@ =~= old(self)@.union(orig.subrange(n, orig.len() as int).to_set()));
        }
        assert(orig.subrange(0, orig.len() as int) == orig);
    }

    /// The items of the group, each once, in no particular order.
    pub fn as_slice(&self) -> (r: &[H])
        ensures
            r@.to_set() == self@,
            r@.no_duplicates(),
    {
        proof {
            use_type_invariant(self);
        }
        self.0.as_slice()
    }

    /// Takes the items of the group, each once, in no particular order.
    pub fn into_vec(self) -> (r: Vec<H>)
        ensures
            r@.to_set() == self@,
            r@.no_duplicates(),
    {
        proof {
            use_type_invariant(&self);
        }
        let HexGroup(items) = self;
        items
    }
}

/// True when `a` comes before `b` with the u coordinate compared first.
spec fn column_before(a: (int, int), b: (int, int)) -> bool {
    a.0 < b.0 || (a.0 == b.0 && a.1 < b.1)
}

impl HexGroup<HexPos> {
    /// Creates a group holding every hexagon whose position lies between the
    /// given minimum and maximum u and v coordinates, inclusive.
    pub fn region(u_min: HexCoord, v_min: HexCoord, u_max: HexCoord, v_max: HexCoord) -> (r:
        HexGroup<HexPos>)
        requires
            fits_coord(u_max - u_min),
            fits_coord(v_max - v_min),
            fits_coord(u_max - u_min + 1),
            fits_coord(v_max - v_min + 1),
            fits_coord((u_max - u_min + 1) * (v_max - v_min + 1)),
            (u_max - u_min + 1) * (v_max - v_min + 1) >= 0,
        ensures
            forall|p: HexPos| #[trigger]
                r@.contains(p) <==> is_even_pair(p@) && u_min <= p@.0 <= u_max && v_min <= p@.1 <= v_max,
            r@.finite(),
    {
        let width = u_max - u_min + 1;
        let height = v_max - v_min + 1;
        let mut items: Vec<HexPos> = Vec::with_capacity((width * height) as usize);
        let mut u: i64 = u_min as i64;
        while u <= u_max as i64
            invariant
                u_min <= u <= u_max + 1 || (u == u_min && u_min > u_max),
                items@.no_duplicates(),
                forall|i: int| 0 <= i < items@.len() ==> column_before(#[trigger] items@[i]@, (u as int, v_min as int)),
                forall|p: HexPos| #[trigger] items@.contains(p) <==> is_even_pair(p@) && u_min <= p@.0 < u && v_min <= p@.1 <= v_max,
            decreases u_max + 1 - u,
        {
            let mut v: i64 = v_min as i64;
            while v <= v_max as i64
                invariant
                    u_min <= u <= u_max,
                    v_min <= v <= v_max + 1 || (v == v_min && v_min > v_max),
                    items@.no_duplicates(),
                    forall|i: int| 0 <= i < items@.len() ==> column_before(#[trigger] items@[i]@, (u as int, v as int)),
                    forall|p: HexPos| #[trigger] items@.contains(p) <==> is_even_pair(p@) && ((u_min <= p@.0 < u && v_min <= p@.1
                        <= v_max) || (p@.0 == u && v_min <= p@.1 < v)),
                decreases v_max + 1 - v,
            {
                if (u + v) % 2 == 0 {
                    let p = HexPos::new(u as HexCoord, v as HexCoord);
                    let ghost before = items@;
                    proof {
                        use_type_invariant(&p);
                        assert(!before.contains(p)) by {
                            if before.contains(p) {
                                let i = choose|i: int| 0 <= i < before.len() && before[i] == p;
                                assert(column_before(before[i]@, (u as int, v as int)));
                            }
                        }
                        lemma_push_set(before, p);
                    }
                    items.push(p);
                    assert forall|q: HexPos| #[trigger] items@.contains(q) <==> is_even_pair(q@) && ((u_min <= q@.0 < u && v_min <= q@.1
                        <= v_max) || (q@.0 == u && v_min <= q@.1 < v + 1)) by {
                        if items@.contains(q) && q != p {
                            let i = choose|i: int| 0 <= i < items@.len() && items@[i] == q;
                            assert(before[i] == q);
                        }
                        if q == p {
                            assert(items@[before.len() as int] == q);
                        } else if is_even_pair(q@) && ((u_min <= q@.0 < u && v_min <= q@.1 <= v_max) || (q@.0 == u
                            && v_min <= q@.1 < v)) {
                            assert(before.contains(q));
                            let i = choose|i: int| 0 <= i < before.len() && before[i] == q;
                            assert(items@[i] == q);
                        }
                    }
                } else {
                    assert(!is_even_pair((u as int, v as int)));
                    assert forall|q: HexPos| #[trigger] items@.contains(q) <==> is_even_pair(q@) && ((u_min <= q@.0 < u && v_min <= q@.1
                        <= v_max) || (q@.0 == u && v_min <= q@.1 < v + 1)) by {
                    }
                }
                v += 1;
            }
            u += 1;
        }
        assert forall|i: int| 0 <= i < items@.len() implies is_even_pair(#[trigger] items@[i].id_pos()@) by {
            assert(items@.contains(items@[i]));
        }
        let r = HexGroup(items);
        assert forall|p: HexPos| #[trigger] r@.contains(p) <==> is_even_pair(p@) && u_min <= p@.0 <= u_max && v_min <= p@.1 <= v_max by {
            assert(r@.contains(p) == items@.contains(p));
        }
        r
    }
}

impl HexGroup<HexPos> {
    /// The positions that a group of hexagons lists as a container are those
    /// of its hexagons.
    pub proof fn lemma_hex_views(self)
        ensures
            self.hex_views().to_set() == self@.map(|p: HexPos| p@),
    {
        let vs = self.hex_views();
        assert forall|q: (int, int)| vs.to_set().contains(q) <==> self@.map(|p: HexPos| p@).contains(q) by {
            if vs.to_set().contains(q) {
                let i = choose|i: int| 0 <= i < vs.len() && vs[i] == q;
                assert(self@.contains(self.0@[i]));
            }
            if self@.map(|p: HexPos| p@).contains(q) {
                let p = choose|p: HexPos| self@.contains(p) && p@ == q;
                let i = choose|i: int| 0 <= i < self.0@.len() && self.0@[i] == p;
                assert(vs[i] == q);
            }
        }
        assert(vs.to_set() =~= self@.map(|p: HexPos| p@));
    }
}

impl HexPosContainer for HexGroup<HexPos> {
    closed spec fn hex_views(&self) -> Seq<(int, int)> {
        self.0@.map_values(|p: HexPos| p@)
    }

    fn contains_hex(&self, pos: HexPos) -> (r: bool) {
        proof {
            if self.hex_views().contains(pos@) {
                let i = choose|i: int| 0 <= i < self.hex_views().len() && self.hex_views()[i] == pos@;
                assert(self.0@[i] == pos);
            }
        }
        let r = self.contains(pos);
        proof {
            if r {
                let i = choose|i: int| 0 <= i < self.0@.len() && self.0@[i] == pos;
                assert(self.hex_views()[i] == pos@);
            }
        }
        r
    }

    fn iter_hexes(&self) -> (r: Vec<HexPos>) {
        let r = self.0.clone();
        assert(r@.map_values(|p: HexPos| p@) =~= self.hex_views());
        r
    }

    fn len(&self) -> (r: usize) {
        self.0.len()
    }
}

/// Rotating a group of hexagons around a center and then back by the same
/// number of steps gives the group back.
pub proof fn lemma_group_rotate_inverse(g: Set<HexPos>, center: HexPos, steps: int)
    requires
        is_even_pair(center@),
        forall|p: HexPos| #[trigger] g.contains(p) ==> is_even_pair(p@) && p.rotate_fits(center, steps),
    ensures
        g.map(|h: HexPos| h.rotated_id(center, steps)).map(|h: HexPos| h.rotated_id(center, -steps))
            == g,
{
    let f = |h: HexPos| h.rotated_id(center, steps);
    let b = |h: HexPos| h.rotated_id(center, -steps);
    assert forall|p: HexPos| g.contains(p) implies #[trigger] b(f(p)) == p by {
        lemma_rotate_around_inverse(p@, center@, steps);
    }
    assert forall|q: HexPos| g.map(f).map(b).contains(q) <==> g.contains(q) by {
        if g.map(f).map(b).contains(q) {
            let y = choose|y: HexPos| g.map(f).contains(y) && b(y) == q;
            let x = choose|x: HexPos| g.contains(x) && f(x) == y;
            assert(b(f(x)) == x);
        }
        if g.contains(q) {
            assert(g.map(f).contains(f(q)));
            assert(b(f(q)) == q);
        }
    }
    assert(g.map(f).map(b) =~= g);
}

impl<H: HexId> PartialEq for HexGroup<H> {
    /// Two groups are equal when they hold the same items.
    fn eq(&self, other: &HexGroup<H>) -> (r: bool) {
        proof {
            use_type_invariant(self);
            use_type_invariant(other);
            self.0@.unique_seq_to_set();
            other.0@.unique_seq_to_set();
        }
        if self.0.len() != other.0.len() {
            return false;
        }
        let mut i: usize = 0;
        while i < self.0.len()
            invariant
                0 <= i <= self.0@.len(),
                forall|j: int| 0 <= j < i ==> other@.contains(#[trigger] self.0@[j]),
            decreases self.0@.len() - i,
        {
            if other.index_of(&self.0[i]).is_none() {
                assert(self@.contains(self.0@[i as int]));
                return false;
            }
            i += 1;
        }
        proof {
            assert forall|x: H| self@.contains(x) implies other@.contains(x) by {
                let j = choose|j: int| 0 <= j < self.0@.len() && self.0@[j] == x;
                assert(other@.contains(self.0@[j]));
            }
            vstd::set_lib::lemma_subset_equality(self@, other@);
        }
        true
    }
}

impl<H: HexId> PartialEqSpecImpl for HexGroup<H> {
    open spec fn obeys_eq_spec() -> bool {
        true
    }

    open spec fn eq_spec(&self, other: &HexGroup<H>) -> bool {
        self@ == other@
    }
}

impl<H: HexId> Eq for HexGroup<H> {
}

impl<H: HexId + Copy> Clone for HexGroup<H> {
    fn clone(&self) -> (r: HexGroup<H>)
        ensures
            r@ == self@,
            r@.finite(),
    {
        proof {
            use_type_invariant(self);
        }
        let mut items: Vec<H> = Vec::with_capacity(self.0.len());
        let mut i: usize = 0;
        while i < self.0.len()
            invariant
                0 <= i <= self.0@.len(),
                items@ == self.0@.subrange(0, i as int),
            decreases self.0@.len() - i,
        {
            let h: H = self.0[i];
            items.push(h);
            i += 1;
        }
        assert(items@ == self.0@);
        HexGroup(items)
    }
}

impl<H: HexId> Default for HexGroup<H> {
    fn default() -> (r: HexGroup<H>)
        ensures
            r@ == Set::<H>::empty(),
            r@.finite(),
    {
        HexGroup::new()
    }
}

} // verus!

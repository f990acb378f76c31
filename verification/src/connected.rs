use vstd::prelude::*;
use crate::container::HexPosContainer;
use crate::delta::group_delta;
use crate::edge::{HexEdge, edge_at, edge_ord};
use crate::pos::{HexPos, neighbor_of, group_pos};

verus! {

broadcast use {
    group_delta,
    group_pos,
    vstd::seq_lib::group_seq_properties,
    vstd::set::group_set_axioms,
};

/// True when all six neighbors of `p` have representable coordinates.
pub open spec fn neighbors_fit(p: (int, int)) -> bool {
    &&& i32::MIN + 1 <= p.0 <= i32::MAX - 1
    &&& i32::MIN + 2 <= p.1 <= i32::MAX - 2
}

/// True when `q` is one of the six neighbors of `p`.
pub open spec fn adjacent(p: (int, int), q: (int, int)) -> bool {
    exists|e: HexEdge| q == #[trigger] neighbor_of(p, e)
}

/// True when `path` starts at `from` and each later position on it is one of
/// `hexes` next to the position before it.
pub open spec fn linked_path(hexes: Seq<(int, int)>, from: (int, int), path: Seq<(int, int)>) -> bool {
    &&& path.len() > 0
    &&& path[0] == from
    &&& forall|i: int|
        1 <= i < path.len() ==> hexes.contains(#[trigger] path[i]) && adjacent(path[i - 1], path[i])
}

/// The contiguous group of `hexes` that holds `start`: the positions reached
/// from `start` by stepping from hexagon to neighboring hexagon of `hexes`.
pub open spec fn connected_group(hexes: Seq<(int, int)>, start: (int, int)) -> Set<(int, int)> {
    Set::new(|q: (int, int)| exists|path: Seq<(int, int)>| #[trigger] linked_path(hexes, start, path) && path.last() == q)
}

/// True when `path` leads from `q`, through positions outside `group` each
/// next to the one before, to a position above every position of `group`.
pub open spec fn open_path(group: Set<(int, int)>, q: (int, int), path: Seq<(int, int)>) -> bool {
    &&& path.len() > 0
    &&& path[0] == q
    &&& forall|i: int| 0 <= i < path.len() ==> !group.contains(#[trigger] path[i])
    &&& forall|i: int| 1 <= i < path.len() ==> adjacent(path[i - 1], #[trigger] path[i])
    &&& forall|g: (int, int)| #[trigger] group.contains(g) ==> g.1 < path.last().1
}

/// True when `q` lies outside `group` and is not enclosed by it: a way leads
/// from `q`, outside `group`, beyond it.
pub open spec fn escapes(group: Set<(int, int)>, q: (int, int)) -> bool {
    exists|path: Seq<(int, int)>| #[trigger] open_path(group, q, path)
}

/// True when `t` is the topmost position of `group`, the rightmost among
/// the topmost ones.
pub open spec fn is_top(group: Set<(int, int)>, t: (int, int)) -> bool {
    &&& group.contains(t)
    &&& forall|g: (int, int)| #[trigger] group.contains(g) ==> g.1 < t.1 || (g.1 == t.1 && g.0 <= t.0)
}

/// The topmost position of `group`, the rightmost among the topmost ones.
pub open spec fn top_of(group: Set<(int, int)>) -> (int, int) {
    choose|t: (int, int)| is_top(group, t)
}

/// A group has one topmost position.
pub proof fn lemma_top_unique(group: Set<(int, int)>, t: (int, int))
    requires
        is_top(group, t),
    ensures
        top_of(group) == t,
{
    let s = top_of(group);
    assert(is_top(group, s));
    assert(group.contains(s) && group.contains(t));
}

/// A position of `group` is joined to `q` when a neighbor of it is.
pub proof fn lemma_escapes_step(group: Set<(int, int)>, p: (int, int), q: (int, int), e: HexEdge)
    requires
        escapes(group, q),
        !group.contains(p),
        q == neighbor_of(p, e),
    ensures
        escapes(group, p),
{
    let path = choose|path: Seq<(int, int)>| #[trigger] open_path(group, q, path);
    let longer = seq![p].add(path);
    assert(longer[1] == q);
    assert forall|i: int| 1 <= i < longer.len() implies adjacent(longer[i - 1], #[trigger] longer[i]) by {
        if i == 1 {
            assert(q == neighbor_of(p, e));
        } else {
            assert(longer[i] == path[i - 1]);
            assert(longer[i - 1] == path[i - 2]);
        }
    }
    assert forall|i: int| 0 <= i < longer.len() implies !group.contains(#[trigger] longer[i]) by {
        if i > 0 {
            assert(longer[i] == path[i - 1]);
        }
    }
    assert(longer.last() == path.last());
    assert(open_path(group, p, longer));
}

/// The topmost position of a group's edge across its top edge lies outside
/// the group and beyond it.
pub proof fn lemma_above_top_escapes(group: Set<(int, int)>, t: (int, int))
    requires
        is_top(group, t),
    ensures
        escapes(group, neighbor_of(t, HexEdge::Top)),
{
    let q = neighbor_of(t, HexEdge::Top);
    let path = seq![q];
    assert(!group.contains(q));
    assert(open_path(group, q, path));
}

/// A position next to the contiguous group of `start` that is one of `hexes`
/// belongs to the group.
pub proof fn lemma_group_grows(hexes: Seq<(int, int)>, start: (int, int), p: (int, int), e: HexEdge)
    requires
        connected_group(hexes, start).contains(p),
        hexes.contains(neighbor_of(p, e)),
    ensures
        connected_group(hexes, start).contains(neighbor_of(p, e)),
{
    let path = choose|path: Seq<(int, int)>| #[trigger] linked_path(hexes, start, path) && path.last() == p;
    let q = neighbor_of(p, e);
    let longer = path.push(q);
    assert forall|i: int| 1 <= i < longer.len() implies hexes.contains(#[trigger] longer[i]) && adjacent(longer[i - 1], longer[i]) by {
        if i == longer.len() - 1 {
            assert(longer[i - 1] == p);
            assert(q == neighbor_of(p, e));
        } else {
            assert(longer[i] == path[i]);
            assert(longer[i - 1] == path[i - 1]);
        }
    }
    assert(linked_path(hexes, start, longer));
    assert(longer.last() == q);
}

/// Every position of the contiguous group of `start`, other than `start`, is
/// one of `hexes`.
pub proof fn lemma_group_in_hexes(hexes: Seq<(int, int)>, start: (int, int), q: (int, int))
    requires
        connected_group(hexes, start).contains(q),
        q != start,
    ensures
        hexes.contains(q),
{
    let path = choose|path: Seq<(int, int)>| #[trigger] linked_path(hexes, start, path) && path.last() == q;
    assert(path.len() > 1);
    assert(hexes.contains(path[path.len() - 1]));
}

/// A set of positions that holds `start` and each neighbor among `hexes` of
/// each of its positions holds the whole group of `start`.
proof fn lemma_group_within(
    hexes: Seq<(int, int)>,
    start: (int, int),
    found: Seq<(int, int)>,
    path: Seq<(int, int)>,
)
    requires
        found.contains(start),
        forall|k: int, e: HexEdge|
            0 <= k < found.len() && hexes.contains(#[trigger] neighbor_of(found[k], e))
                ==> found.contains(neighbor_of(found[k], e)),
        linked_path(hexes, start, path),
    ensures
        found.contains(path.last()),
    decreases path.len(),
{
    if path.len() > 1 {
        let shorter = path.drop_last();
        assert forall|i: int| 1 <= i < shorter.len() implies hexes.contains(#[trigger] shorter[i]) && adjacent(shorter[i - 1], shorter[i]) by {
            assert(shorter[i] == path[i]);
            assert(shorter[i - 1] == path[i - 1]);
        }
        lemma_group_within(hexes, start, found, shorter);
        let p = shorter.last();
        let n = path.len() - 1;
        assert(hexes.contains(path[n]) && adjacent(path[n - 1], path[n]));
        let e = choose|e: HexEdge| path[n] == #[trigger] neighbor_of(path[n - 1], e);
        let k = choose|k: int| 0 <= k < found.len() && found[k] == p;
        assert(hexes.contains(neighbor_of(found[k], e)));
    }
}

/// A sequence without duplicates whose positions are among `hexes` or equal
/// to `extra` is at most one longer than `hexes`.
proof fn lemma_found_bound(found: Seq<(int, int)>, hexes: Seq<(int, int)>, extra: (int, int))
    requires
        found.no_duplicates(),
        forall|i: int| 0 <= i < found.len() ==> #[trigger] found[i] == extra || hexes.contains(found[i]),
    ensures
        found.len() <= hexes.len() + 1,
{
    let all = hexes.to_set().insert(extra);
    assert(found.to_set().subset_of(all)) by {
        assert forall|q: (int, int)| found.to_set().contains(q) implies all.contains(q) by {
            let i = choose|i: int| 0 <= i < found.len() && found[i] == q;
            assert(found[i] == extra || hexes.contains(found[i]));
        }
    }
    found.unique_seq_to_set();
    hexes.lemma_cardinality_of_set();
    vstd::set_lib::lemma_len_subset(found.to_set(), all);
}

/// True when the positions of `v` include `p`.
fn holds_pos(v: &Vec<HexPos>, p: HexPos) -> (r: bool)
    ensures
        r == v@.map_values(|h: HexPos| h@).contains(p@),
{
    let mut i: usize = 0;
    while i < v.len()
        invariant
            0 <= i <= v@.len(),
            forall|j: int| 0 <= j < i ==> v@[j]@ != p@,
        decreases v@.len() - i,
    {
        if v[i] == p {
            assert(v@.map_values(|h: HexPos| h@)[i as int] == p@);
            return true;
        }
        i += 1;
    }
    proof {
        let vs = v@.map_values(|h: HexPos| h@);
        if vs.contains(p@) {
            let j = choose|j: int| 0 <= j < vs.len() && vs[j] == p@;
            assert(v@[j]@ == p@);
        }
    }
    false
}

/// The positions of the contiguous group of the container's hexagons that
/// holds `start`, `start` first and each once.
pub fn connected_hexes<C: HexPosContainer>(container: &C, start: HexPos) -> (r: Vec<HexPos>)
    requires
        neighbors_fit(start@),
        forall|i: int|
            0 <= i < container.hex_views().len() ==> neighbors_fit(#[trigger] container.hex_views()[i]),
    ensures
        r@.len() > 0,
        r@[0] == start,
        forall|q: (int, int)|
            r@.map_values(|h: HexPos| h@).contains(q) <==> connected_group(container.hex_views(), start@).contains(q),
{
    let ghost hexes = container.hex_views();
    let mut found: Vec<HexPos> = Vec::new();
    found.push(start);
    proof {
        let path = seq![start@];
        assert(linked_path(hexes, start@, path));
        assert(connected_group(hexes, start@).contains(start@));
    }
    let mut k: usize = 0;
    while k < found.len()
        invariant
            hexes == container.hex_views(),
            neighbors_fit(start@),
            forall|i: int| 0 <= i < hexes.len() ==> neighbors_fit(#[trigger] hexes[i]),
            found@.len() > 0,
            found@[0] == start,
            k <= found@.len(),
            found@.map_values(|h: HexPos| h@).no_duplicates(),
            forall|i: int|
                0 <= i < found@.len() ==> #[trigger] found@[i]@ == start@ || hexes.contains(found@[i]@),
            forall|i: int|
                0 <= i < found@.len() ==> connected_group(hexes, start@).contains(#[trigger] found@[i]@),
            forall|i: int, e: HexEdge|
                0 <= i < k && hexes.contains(#[trigger] neighbor_of(found@[i]@, e))
                    ==> found@.map_values(|h: HexPos| h@).contains(neighbor_of(found@[i]@, e)),
        decreases hexes.len() + 1 - k,
    {
        proof {
            lemma_found_bound(found@.map_values(|h: HexPos| h@), hexes, start@);
        }
        let cur = found[k];
        proof {
            if cur@ != start@ {
                let j = choose|j: int| 0 <= j < hexes.len() && hexes[j] == cur@;
            }
        }
        let ghost before_k = found@;
        let mut j: i64 = 0;
        while j < 6
            invariant
                hexes == container.hex_views(),
                0 <= j <= 6,
                k < found@.len(),
                found@[k as int] == cur,
                neighbors_fit(cur@),
                found@.len() > 0,
                found@[0] == start,
                found@.len() >= before_k.len(),
                forall|i: int| 0 <= i < before_k.len() ==> found@[i] == before_k[i],
                found@.map_values(|h: HexPos| h@).no_duplicates(),
                forall|i: int|
                    0 <= i < found@.len() ==> #[trigger] found@[i]@ == start@ || hexes.contains(found@[i]@),
                forall|i: int|
                    0 <= i < found@.len() ==> connected_group(hexes, start@).contains(#[trigger] found@[i]@),
                forall|i: int, e: HexEdge|
                    0 <= i < k && hexes.contains(#[trigger] neighbor_of(found@[i]@, e))
                        ==> found@.map_values(|h: HexPos| h@).contains(neighbor_of(found@[i]@, e)),
                forall|e: HexEdge|
                    0 <= edge_ord(e) < j && hexes.contains(#[trigger] neighbor_of(cur@, e))
                        ==> found@.map_values(|h: HexPos| h@).contains(neighbor_of(cur@, e)),
            decreases 6 - j,
        {
            let edge = HexEdge::from_ordinal(j);
            let nb = cur.neighbor(edge);
            if container.contains_hex(nb) && !holds_pos(&found, nb) {
                let ghost old_found = found@;
                proof {
                    lemma_group_grows(hexes, start@, cur@, edge);
                }
                found.push(nb);
                proof {
                    let ov = old_found.map_values(|h: HexPos| h@);
                    let nv = found@.map_values(|h: HexPos| h@);
                    assert(nv == ov.push(nb@));
                    assert forall|a: int, b: int| 0 <= a < nv.len() && 0 <= b < nv.len() && a != b implies nv[a] != nv[b] by {
                        if a < ov.len() && b < ov.len() {
                            assert(nv[a] == ov[a] && nv[b] == ov[b]);
                        } else if a < ov.len() {
                            assert(ov.contains(nv[a]));
                        } else {
                            assert(ov.contains(nv[b]));
                        }
                    }
                    assert forall|i: int| 0 <= i < found@.len() implies #[trigger] found@[i]@ == start@ || hexes.contains(found@[i]@) by {
                        if i < old_found.len() {
                            assert(found@[i] == old_found[i]);
                        }
                    }
                    assert forall|i: int| 0 <= i < found@.len() implies connected_group(hexes, start@).contains(#[trigger] found@[i]@) by {
                        if i < old_found.len() {
                            assert(found@[i] == old_found[i]);
                        }
                    }
                    assert forall|q: (int, int)| ov.contains(q) implies nv.contains(q) by {
                        let a = choose|a: int| 0 <= a < ov.len() && ov[a] == q;
                        assert(nv[a] == q);
                    }
                    assert(nv[ov.len() as int] == nb@);
                }
            }
            proof {
                assert forall|e: HexEdge|
                    0 <= edge_ord(e) < j + 1 && hexes.contains(#[trigger] neighbor_of(cur@, e))
                        implies found@.map_values(|h: HexPos| h@).contains(neighbor_of(cur@, e)) by {
                    if edge_ord(e) == j {
                        assert(e == edge);
                    }
                }
            }
            j += 1;
        }
        proof {
            assert forall|i: int, e: HexEdge|
                0 <= i < k + 1 && hexes.contains(#[trigger] neighbor_of(found@[i]@, e))
                    implies found@.map_values(|h: HexPos| h@).contains(neighbor_of(found@[i]@, e)) by {
                if i == k {
                    assert(0 <= edge_ord(e) < 6);
                } else {
                    assert(found@[i] == before_k[i]);
                }
            }
        }
        k += 1;
    }
    proof {
        let fv = found@.map_values(|h: HexPos| h@);
        assert(fv[0] == start@);
        assert forall|q: (int, int)| fv.contains(q) <==> connected_group(hexes, start@).contains(q) by {
            if fv.contains(q) {
                let i = choose|i: int| 0 <= i < fv.len() && fv[i] == q;
                assert(found@[i]@ == q);
            }
            if connected_group(hexes, start@).contains(q) {
                let path = choose|path: Seq<(int, int)>| #[trigger] linked_path(hexes, start@, path) && path.last() == q;
                assert forall|i: int, e: HexEdge|
                    0 <= i < fv.len() && hexes.contains(#[trigger] neighbor_of(fv[i], e))
                        implies fv.contains(neighbor_of(fv[i], e)) by {
                    assert(fv[i] == found@[i]@);
                }
                lemma_group_within(hexes, start@, fv, path);
            }
        }
    }
    found
}

/// The topmost of the positions of `v`, the rightmost among the topmost ones.
pub fn topmost(v: &Vec<HexPos>) -> (r: HexPos)
    requires
        v@.len() > 0,
    ensures
        v@.map_values(|h: HexPos| h@).contains(r@),
        forall|i: int|
            0 <= i < v@.len() ==> (#[trigger] v@[i])@.1 < r@.1 || (v@[i]@.1 == r@.1 && v@[i]@.0 <= r@.0),
{
    let mut best = v[0];
    let mut bi: usize = 0;
    let mut i: usize = 1;
    while i < v.len()
        invariant
            1 <= i <= v@.len(),
            bi < v@.len(),
            v@[bi as int] == best,
            forall|j: int|
                0 <= j < i ==> (#[trigger] v@[j])@.1 < best@.1 || (v@[j]@.1 == best@.1 && v@[j]@.0 <= best@.0),
        decreases v@.len() - i,
    {
        let h = v[i];
        if h.v() > best.v() || (h.v() == best.v() && h.u() > best.u()) {
            best = h;
            bi = i;
        }
        i += 1;
    }
    assert(v@.map_values(|h: HexPos| h@)[bi as int] == best@);
    best
}

} // verus!

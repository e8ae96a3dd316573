use crate::geometry::{PixColor, Point2, Surface, Wall};
use vstd::prelude::*;

verus! {

broadcast use {vstd::seq_lib::group_to_multiset_ensures, vstd::multiset::group_multiset_axioms};

/// Length of the horizon buffer a new sector starts with.
pub const INITIAL_HORIZON_LEN: usize = 86400;

/// A floor outline extruded between `floor` and `roof`.
///
/// `depth`, `surface` and `x_points` are per-frame state written by the
/// renderer: the average distance of the walls from the camera, where the
/// camera stands relative to the sector, and the horizon row recorded for
/// each screen column by the first pass.
pub struct Sector {
    pub walls: Vec<Wall>,
    pub center: Point2,
    pub depth: u64,
    pub roof: i64,
    pub floor: i64,
    pub roof_col: PixColor,
    pub floor_col: PixColor,
    pub surface: Surface,
    pub x_points: Vec<u32>,
}

/// The map: sectors in drawing order.
pub struct Level {
    pub sectors: Vec<Sector>,
}

impl Level {
    /// A map without sectors.
    pub fn new() -> (r: Level)
        ensures
            r.sectors@.len() == 0,
    {
        Level { sectors: Vec::new() }
    }
}

/// The wall `add_wall` appends.
pub open spec fn new_wall(bottom_one: Point2, bottom_two: Point2, color: PixColor) -> Wall {
    Wall { points: [bottom_one, bottom_two], color, uv: [5, 1] }
}

impl Sector {
    /// An empty sector between `floor` and `roof`, blue roof, green floor.
    pub fn new(floor: i64, roof: i64) -> (r: Sector)
        ensures
            r.floor == floor,
            r.roof == roof,
            r.depth == 0,
            r.center == (Point2 { x: 0, y: 0 }),
            r.walls@.len() == 0,
            r.roof_col == PixColor(0, 0, 255, 255),
            r.floor_col == PixColor(0, 255, 0, 255),
            r.surface == Surface::Normal,
            r.x_points@.len() == INITIAL_HORIZON_LEN,
            forall|i: int| 0 <= i < r.x_points@.len() ==> r.x_points@[i] == 0,
    {
        let mut x_points: Vec<u32> = Vec::with_capacity(INITIAL_HORIZON_LEN);
        let mut i: usize = 0;
        while i < INITIAL_HORIZON_LEN
            invariant
                i <= INITIAL_HORIZON_LEN,
                x_points@.len() == i,
                forall|k: int| 0 <= k < i ==> x_points@[k] == 0,
            decreases INITIAL_HORIZON_LEN - i,
        {
            x_points.push(0);
            i += 1;
        }
        Sector {
            walls: Vec::new(),
            center: Point2 { x: 0, y: 0 },
            depth: 0,
            roof,
            floor,
            roof_col: PixColor(0, 0, 255, 255),
            floor_col: PixColor(0, 255, 0, 255),
            surface: Surface::Normal,
            x_points,
        }
    }

    /// Appends the wall from `bottom_one` to `bottom_two`; its texture
    /// repeats five times across and once up.
    pub fn add_wall(&mut self, bottom_one: Point2, bottom_two: Point2, color: PixColor)
        ensures
            final(self).walls@ == old(self).walls@.push(new_wall(bottom_one, bottom_two, color)),
            final(self).center == old(self).center,
            final(self).depth == old(self).depth,
            final(self).roof == old(self).roof,
            final(self).floor == old(self).floor,
            final(self).roof_col == old(self).roof_col,
            final(self).floor_col == old(self).floor_col,
            final(self).surface == old(self).surface,
            final(self).x_points@ == old(self).x_points@,
    {
        self.walls.push(Wall { points: [bottom_one, bottom_two], color, uv: [5, 1] });
    }
}

/// Sectors compare by depth alone.
impl PartialEq for Sector {
    fn eq(&self, other: &Sector) -> (r: bool) {
        self.depth == other.depth
    }
}

impl vstd::std_specs::cmp::PartialEqSpecImpl for Sector {
    open spec fn obeys_eq_spec() -> bool {
        true
    }

    open spec fn eq_spec(&self, other: &Sector) -> bool {
        self.depth == other.depth
    }
}

/// Depths never decrease along `s`.
pub open spec fn depths_ascending(s: Seq<Sector>) -> bool {
    forall|i: int, j: int| 0 <= i < j < s.len() ==> #[trigger] s[i].depth <= #[trigger] s[j].depth
}

/// Depths never increase along `s`: back to front.
pub open spec fn depths_descending(s: Seq<Sector>) -> bool {
    forall|i: int, j: int| 0 <= i < j < s.len() ==> #[trigger] s[i].depth >= #[trigger] s[j].depth
}

/// `perm` lists each position of a sequence of length `n` exactly once.
pub open spec fn is_permutation(perm: Seq<int>, n: int) -> bool {
    &&& perm.len() == n
    &&& forall|i: int| 0 <= i < n ==> 0 <= #[trigger] perm[i] < n
    &&& forall|i: int, j: int| 0 <= i < j < n ==> #[trigger] perm[i] != #[trigger] perm[j]
}

/// `after` holds the sectors of `before` rearranged by `perm` (position `i`
/// of `after` came from position `perm[i]` of `before`), and sectors of
/// equal depth kept their relative order.
pub open spec fn stable_rearrangement(before: Seq<Sector>, after: Seq<Sector>, perm: Seq<int>) -> bool {
    &&& after.len() == before.len()
    &&& is_permutation(perm, before.len() as int)
    &&& forall|i: int| 0 <= i < after.len() ==> #[trigger] after[i] == before[perm[i]]
    &&& forall|i: int, j: int|
        0 <= i < j < after.len() && #[trigger] after[i].depth == #[trigger] after[j].depth
            ==> perm[i] < perm[j]
}

/// Sorts `arr` by ascending depth, exchanging neighbours whose depths are
/// out of order; sectors of equal depth keep their order.
pub fn bubble_sort(arr: &mut Vec<Sector>)
    ensures
        depths_ascending(final(arr)@),
        final(arr)@.to_multiset() == old(arr)@.to_multiset(),
        exists|perm: Seq<int>| stable_rearrangement(old(arr)@, final(arr)@, perm),
        depths_ascending(old(arr)@) ==> final(arr)@ == old(arr)@,
{
    let ghost s0 = arr@;
    let n = arr.len();
    let ghost mut perm: Seq<int> = Seq::new(n as nat, |k: int| k);
    let mut i: usize = 0;
    while i < n
        invariant
            i <= n,
            n == s0.len(),
            arr@.len() == n,
            arr@.to_multiset() == s0.to_multiset(),
            stable_rearrangement(s0, arr@, perm),
            depths_ascending(s0) ==> arr@ == s0,
            forall|a: int, b: int|
                n - i <= a < b < n ==> #[trigger] arr@[a].depth <= #[trigger] arr@[b].depth,
            forall|a: int, b: int|
                0 <= a < n - i <= b < n ==> #[trigger] arr@[a].depth <= #[trigger] arr@[b].depth,
        decreases n - i,
    {
        let mut j: usize = 0;
        while j < n - 1 - i
            invariant
                i < n,
                j <= n - 1 - i,
                n == s0.len(),
                arr@.len() == n,
                arr@.to_multiset() == s0.to_multiset(),
                stable_rearrangement(s0, arr@, perm),
                depths_ascending(s0) ==> arr@ == s0,
                forall|a: int, b: int|
                    n - i <= a < b < n ==> #[trigger] arr@[a].depth <= #[trigger] arr@[b].depth,
                forall|a: int, b: int|
                    0 <= a < n - i <= b < n ==> #[trigger] arr@[a].depth <= #[trigger] arr@[b].depth,
                forall|a: int| 0 <= a <= j ==> #[trigger] arr@[a].depth <= arr@[j as int].depth,
            decreases n - 1 - i - j,
        {
            if arr[j].depth > arr[j + 1].depth {
                let ghost s = arr@;
                let ghost p = perm;
                let moved = arr.remove(j);
                arr.insert(j + 1, moved);
                assert(arr@ =~= s.update(j as int, s[j + 1]).update(j + 1, s[j as int]));
                assert(arr@.to_multiset() =~= s.to_multiset());
                proof {
                    perm = p.update(j as int, p[j + 1]).update(j + 1, p[j as int]);
                    let t = arr@;
                    assert forall|a: int, b: int|
                        0 <= a < b < t.len() && #[trigger] t[a].depth == #[trigger] t[b].depth
                        implies perm[a] < perm[b] by {
                        let oa = if a == j {
                            j + 1
                        } else if a == j + 1 {
                            j as int
                        } else {
                            a
                        };
                        let ob = if b == j {
                            j + 1
                        } else if b == j + 1 {
                            j as int
                        } else {
                            b
                        };
                        assert(t[a] == s[oa] && t[b] == s[ob]);
                        assert(perm[a] == p[oa] && perm[b] == p[ob]);
                        if oa < ob {
                            assert(s[oa].depth == s[ob].depth);
                        } else {
                            assert(a == j && b == j + 1);
                        }
                    }
                    assert forall|a: int, b: int| 0 <= a < b < n implies #[trigger] perm[a]
                        != #[trigger] perm[b] by {
                        let oa = if a == j {
                            j + 1
                        } else if a == j + 1 {
                            j as int
                        } else {
                            a
                        };
                        let ob = if b == j {
                            j + 1
                        } else if b == j + 1 {
                            j as int
                        } else {
                            b
                        };
                        assert(perm[a] == p[oa] && perm[b] == p[ob]);
                        assert(oa != ob);
                        if oa < ob {
                            assert(p[oa] != p[ob]);
                        } else {
                            assert(p[ob] != p[oa]);
                        }
                    }
                    assert forall|a: int| 0 <= a < n implies 0 <= #[trigger] perm[a] < n by {
                        if a == j {
                            assert(perm[a] == p[j + 1]);
                        } else if a == j + 1 {
                            assert(perm[a] == p[j as int]);
                        } else {
                            assert(perm[a] == p[a]);
                        }
                    }
                    assert forall|a: int| 0 <= a < t.len() implies #[trigger] t[a] == s0[perm[a]] by {
                        if a == j {
                            assert(t[a] == s[j + 1]);
                        } else if a == j + 1 {
                            assert(t[a] == s[j as int]);
                        } else {
                            assert(t[a] == s[a]);
                        }
                    }
                    if depths_ascending(s0) {
                        assert(s[j as int].depth <= s[j + 1].depth);
                    }
                }
            }
            j += 1;
        }
        i += 1;
    }
}

/// Reverses the order of `arr`.
pub fn reverse_sectors(arr: &mut Vec<Sector>)
    ensures
        final(arr)@ == old(arr)@.reverse(),
{
    let ghost s = arr@;
    let n = arr.len();
    let mut out: Vec<Sector> = Vec::new();
    while arr.len() > 0
        invariant
            arr@.len() + out@.len() == n,
            n == s.len(),
            arr@ == s.subrange(0, arr@.len() as int),
            forall|k: int| 0 <= k < out@.len() ==> #[trigger] out@[k] == s[n - 1 - k],
        decreases arr@.len(),
    {
        let last = arr.pop().unwrap();
        out.push(last);
    }
    assert(out@ =~= s.reverse());
    *arr = out;
}

/// Orders `arr` back to front: sorted by depth, then reversed.
pub fn sort_back_to_front(arr: &mut Vec<Sector>)
    ensures
        depths_descending(final(arr)@),
        final(arr)@.to_multiset() == old(arr)@.to_multiset(),
{
    bubble_sort(arr);
    let ghost sorted = arr@;
    reverse_sectors(arr);
    proof {
        lemma_reversed_order(sorted);
        sorted.lemma_reverse_to_multiset();
    }
}

/// Reversing a sequence sorted by ascending depth orders it back to front.
pub proof fn lemma_reversed_order(s: Seq<Sector>)
    requires
        depths_ascending(s),
    ensures
        depths_descending(s.reverse()),
{
    assert forall|i: int, j: int| 0 <= i < j < s.reverse().len() implies #[trigger] s.reverse()[i].depth
        >= #[trigger] s.reverse()[j].depth by {
        assert(s.reverse()[i] == s[s.len() - 1 - i]);
        assert(s.reverse()[j] == s[s.len() - 1 - j]);
    }
}

} // verus!

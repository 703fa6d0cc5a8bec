use std::collections::HashMap;
use std::collections::HashSet;
use vstd::prelude::*;
use vstd::std_specs::iter::IteratorSpec;
use crate::grid::{grid_code, code_x, code_y, encode_coords, lemma_code_roundtrip, lemma_code_onto};

verus! {

broadcast use vstd::std_specs::hash::group_hash_axioms, vstd::seq_lib::group_seq_properties;

/// Spatial hash grid over integer cells: each cell holds the ids of the
/// players standing in it. Broadcasting only to the cells around a position
/// keeps updates at O(N * nearby entities) instead of O(N^2).
pub struct SpatialGrid {
    /// Non-empty cells, filed under `grid_code` of the cell.
    cells: HashMap<u64, HashSet<u64>>,
}

/// Whether some cell of the rectangle `[x0, x1) x [y0, y1)` holds `id`.
pub open spec fn rect_holds(
    occupancy: spec_fn((i32, i32)) -> Set<u64>,
    id: u64,
    x0: int,
    x1: int,
    y0: int,
    y1: int,
) -> bool {
    exists|c: (i32, i32)| x0 <= c.0 < x1 && y0 <= c.1 < y1 && #[trigger] occupancy(c).contains(id)
}

/// Whether some cell within `radius` cells of `center` (a square of side
/// `2 * radius + 1`) holds `id`.
pub open spec fn near(
    occupancy: spec_fn((i32, i32)) -> Set<u64>,
    id: u64,
    center: (i32, i32),
    radius: i32,
) -> bool {
    rect_holds(
        occupancy,
        id,
        center.0 - radius,
        center.0 + radius + 1,
        center.1 - radius,
        center.1 + radius + 1,
    )
}

/// The ids of the column `x`, rows `[y0, y1)`, row by row, each cell's ids
/// in the order `ordering` gives them.
pub open spec fn col_gather(ordering: spec_fn((i32, i32)) -> Seq<u64>, x: int, y0: int, y1: int) -> Seq<u64>
    decreases y1 - y0,
{
    if y1 <= y0 {
        Seq::empty()
    } else {
        col_gather(ordering, x, y0, y1 - 1) + ordering((x as i32, (y1 - 1) as i32))
    }
}

/// The ids of the rectangle `[x0, x1) x [y0, y1)`, column by column.
pub open spec fn rect_gather(
    ordering: spec_fn((i32, i32)) -> Seq<u64>,
    x0: int,
    x1: int,
    y0: int,
    y1: int,
) -> Seq<u64>
    decreases x1 - x0,
{
    if x1 <= x0 {
        Seq::empty()
    } else {
        rect_gather(ordering, x0, x1 - 1, y0, y1) + col_gather(ordering, x1 - 1, y0, y1)
    }
}

/// The ids of the square of `radius` cells around `center` in scan order:
/// offsets in `x` outer, offsets in `y` inner, from `-radius` to `radius`.
pub open spec fn scan_order(
    ordering: spec_fn((i32, i32)) -> Seq<u64>,
    center: (i32, i32),
    radius: i32,
) -> Seq<u64> {
    rect_gather(
        ordering,
        center.0 - radius,
        center.0 + radius + 1,
        center.1 - radius,
        center.1 + radius + 1,
    )
}

/// How many cells of the column `x`, rows `[y0, y1)`, hold `id`.
pub open spec fn col_count(occupancy: spec_fn((i32, i32)) -> Set<u64>, id: u64, x: int, y0: int, y1: int) -> nat
    decreases y1 - y0,
{
    if y1 <= y0 {
        0
    } else {
        col_count(occupancy, id, x, y0, y1 - 1) + if occupancy((x as i32, (y1 - 1) as i32)).contains(id) {
            1nat
        } else {
            0nat
        }
    }
}

/// How many cells of the rectangle `[x0, x1) x [y0, y1)` hold `id`.
pub open spec fn rect_count(
    occupancy: spec_fn((i32, i32)) -> Set<u64>,
    id: u64,
    x0: int,
    x1: int,
    y0: int,
    y1: int,
) -> nat
    decreases x1 - x0,
{
    if x1 <= x0 {
        0
    } else {
        rect_count(occupancy, id, x0, x1 - 1, y0, y1) + col_count(occupancy, id, x1 - 1, y0, y1)
    }
}

/// How many cells within `radius` cells of `center` hold `id`.
pub open spec fn near_count(
    occupancy: spec_fn((i32, i32)) -> Set<u64>,
    id: u64,
    center: (i32, i32),
    radius: i32,
) -> nat {
    rect_count(
        occupancy,
        id,
        center.0 - radius,
        center.0 + radius + 1,
        center.1 - radius,
        center.1 + radius + 1,
    )
}

/// Whether no id stands in two different cells within `radius` cells of
/// `center`.
pub open spec fn square_disjoint(
    occupancy: spec_fn((i32, i32)) -> Set<u64>,
    center: (i32, i32),
    radius: i32,
) -> bool {
    forall|c1: (i32, i32), c2: (i32, i32), id: u64|
        #![trigger occupancy(c1).contains(id), occupancy(c2).contains(id)]
        c1 != c2 && center.0 - radius <= c1.0 <= center.0 + radius && center.1 - radius <= c1.1
            <= center.1 + radius && center.0 - radius <= c2.0 <= center.0 + radius && center.1
            - radius <= c2.1 <= center.1 + radius ==> !(occupancy(c1).contains(id) && occupancy(
            c2,
        ).contains(id))
}

/// Whether every cell of a square of `radius` cells around `center` has
/// coordinates that fit in `i32`.
pub open spec fn square_fits(center: (i32, i32), radius: i32) -> bool {
    &&& radius > i32::MIN
    &&& radius >= 0 ==> {
        &&& i32::MIN <= center.0 - radius
        &&& center.0 + radius <= i32::MAX
        &&& i32::MIN <= center.1 - radius
        &&& center.1 + radius <= i32::MAX
    }
}

/// A player put into a cell is found by every query whose square covers that
/// cell.
pub proof fn lemma_inserted_is_near(
    before: SpatialGrid,
    after: SpatialGrid,
    id: u64,
    cell: (i32, i32),
    center: (i32, i32),
    radius: i32,
)
    requires
        after.cells() == before.cells().insert(cell, before.members(cell).insert(id)),
        center.0 - radius <= cell.0 <= center.0 + radius,
        center.1 - radius <= cell.1 <= center.1 + radius,
    ensures
        near(after.occupancy(), id, center, radius),
{
    assert(after.occupancy()(cell).contains(id));
}

/// A player taken out of the only cell that held it is found by no query.
pub proof fn lemma_removed_is_gone(
    before: SpatialGrid,
    after: SpatialGrid,
    id: u64,
    cell: (i32, i32),
    center: (i32, i32),
    radius: i32,
)
    requires
        forall|c: (i32, i32)| c != cell ==> !before.members(c).contains(id),
        if before.members(cell).remove(id).is_empty() {
            after.cells() == before.cells().remove(cell)
        } else {
            after.cells() == before.cells().insert(cell, before.members(cell).remove(id))
        },
    ensures
        !near(after.occupancy(), id, center, radius),
{
    if near(after.occupancy(), id, center, radius) {
        let w = choose|w: (i32, i32)|
            center.0 - radius <= w.0 < center.0 + radius + 1 && center.1 - radius <= w.1 < center.1
                + radius + 1 && #[trigger] after.occupancy()(w).contains(id);
        if w == cell {
            assert(!before.members(cell).remove(id).contains(id));
        } else {
            assert(after.members(w) == before.members(w));
        }
    }
}

/// Putting a player into a cell and taking it out again leaves a
/// well-formed grid exactly as it was, provided the player stood in no cell
/// before: no emptied cell is left behind, and no query finds the player.
pub proof fn lemma_insert_then_remove_restores(
    before: SpatialGrid,
    inserted: SpatialGrid,
    removed: SpatialGrid,
    id: u64,
    cell: (i32, i32),
)
    requires
        before.wf(),
        forall|c: (i32, i32)| !before.members(c).contains(id),
        inserted.cells() == before.cells().insert(cell, before.members(cell).insert(id)),
        if inserted.members(cell).remove(id).is_empty() {
            removed.cells() == inserted.cells().remove(cell)
        } else {
            removed.cells() == inserted.cells().insert(cell, inserted.members(cell).remove(id))
        },
    ensures
        removed.cells() == before.cells(),
        forall|center: (i32, i32), radius: i32| !near(removed.occupancy(), id, center, radius),
{
    before.lemma_stored_cells_nonempty();
    assert(inserted.members(cell) == before.members(cell).insert(id));
    assert(inserted.members(cell).remove(id) =~= before.members(cell));
    if before.members(cell).is_empty() {
        assert(!before.cells().contains_key(cell));
        assert(removed.cells() =~= before.cells());
    } else {
        assert(removed.cells() =~= before.cells());
    }
    assert forall|center: (i32, i32), radius: i32| !near(removed.occupancy(), id, center, radius) by {
        if near(removed.occupancy(), id, center, radius) {
            let w = choose|w: (i32, i32)|
                center.0 - radius <= w.0 < center.0 + radius + 1 && center.1 - radius <= w.1 < center.1
                    + radius + 1 && #[trigger] removed.occupancy()(w).contains(id);
            assert(removed.members(w) == before.members(w));
        }
    }
}

proof fn lemma_col_count_empty(occupancy: spec_fn((i32, i32)) -> Set<u64>, id: u64, x: int, y0: int, y1: int)
    requires
        forall|c: (i32, i32)| !#[trigger] occupancy(c).contains(id),
    ensures
        col_count(occupancy, id, x, y0, y1) == 0,
    decreases y1 - y0,
{
    if y1 > y0 {
        lemma_col_count_empty(occupancy, id, x, y0, y1 - 1);
        assert(!occupancy((x as i32, (y1 - 1) as i32)).contains(id));
    }
}

proof fn lemma_rect_count_empty(
    occupancy: spec_fn((i32, i32)) -> Set<u64>,
    id: u64,
    x0: int,
    x1: int,
    y0: int,
    y1: int,
)
    requires
        forall|c: (i32, i32)| !#[trigger] occupancy(c).contains(id),
    ensures
        rect_count(occupancy, id, x0, x1, y0, y1) == 0,
    decreases x1 - x0,
{
    if x1 > x0 {
        lemma_rect_count_empty(occupancy, id, x0, x1 - 1, y0, y1);
        lemma_col_count_empty(occupancy, id, x1 - 1, y0, y1);
    }
}

/// After `clear` no query finds anyone; a player inserted next is, at radius
/// zero around its own cell, found exactly once, and nobody else is.
pub proof fn lemma_cleared_grid(
    cleared: SpatialGrid,
    inserted: SpatialGrid,
    id: u64,
    cell: (i32, i32),
    other: u64,
    center: (i32, i32),
    radius: i32,
)
    requires
        cleared.cells() == Map::<(i32, i32), Set<u64>>::empty(),
        inserted.cells() == cleared.cells().insert(cell, cleared.members(cell).insert(id)),
    ensures
        !near(cleared.occupancy(), other, center, radius),
        near_count(cleared.occupancy(), other, center, radius) == 0,
        near_count(inserted.occupancy(), other, cell, 0) == if other == id {
            1nat
        } else {
            0nat
        },
{
    assert forall|c: (i32, i32)| !#[trigger] cleared.occupancy()(c).contains(other) by {}
    lemma_rect_count_empty(
        cleared.occupancy(),
        other,
        center.0 - radius,
        center.0 + radius + 1,
        center.1 - radius,
        center.1 + radius + 1,
    );
    let occ = inserted.occupancy();
    assert(occ(cell) == Set::<u64>::empty().insert(id));
    assert(rect_count(occ, other, cell.0 as int, cell.0 as int, cell.1 as int, cell.1 + 1) == 0);
    assert(col_count(occ, other, cell.0 as int, cell.1 as int, cell.1 as int) == 0);
    assert((cell.0 as int) as i32 == cell.0 && (cell.1 as int) as i32 == cell.1);
}

impl SpatialGrid {
    /// The occupied cells and the ids in each.
    pub closed spec fn cells(&self) -> Map<(i32, i32), Set<u64>> {
        Map::new(
            |c: (i32, i32)| self.cells@.contains_key(grid_code(c.0, c.1)),
            |c: (i32, i32)| self.cells@[grid_code(c.0, c.1)]@,
        )
    }

    /// The ids standing in cell `c` (empty for an unoccupied cell).
    pub open spec fn members(&self, c: (i32, i32)) -> Set<u64> {
        if self.cells().contains_key(c) {
            self.cells()[c]
        } else {
            Set::empty()
        }
    }

    /// `members` as a function.
    pub open spec fn occupancy(&self) -> spec_fn((i32, i32)) -> Set<u64> {
        |c: (i32, i32)| self.members(c)
    }

    /// No empty cell is kept.
    pub closed spec fn wf(&self) -> bool {
        forall|k: u64| #[trigger] self.cells@.contains_key(k) ==> !self.cells@[k]@.is_empty()
    }

    /// The ids of cell `c` in the order in which the cell's set hands them
    /// out (empty for an unoccupied cell).
    pub closed spec fn cell_order(&self, c: (i32, i32)) -> Seq<u64> {
        if self.cells@.contains_key(grid_code(c.0, c.1)) {
            vstd::std_specs::hash::into_iter_hash_keys(
                vstd::std_specs::hash::spec_hash_keys_iter(&self.cells@[grid_code(c.0, c.1)]),
            )
        } else {
            Seq::empty()
        }
    }

    /// `cell_order` as a function.
    pub open spec fn ordering(&self) -> spec_fn((i32, i32)) -> Seq<u64> {
        |c: (i32, i32)| self.cell_order(c)
    }

    /// A well-formed grid keeps no empty cell.
    pub proof fn lemma_stored_cells_nonempty(&self)
        requires
            self.wf(),
        ensures
            forall|c: (i32, i32)| #[trigger] self.cells().contains_key(c) ==> !self.cells()[c].is_empty(),
            forall|c: (i32, i32)| #[trigger] self.cells().contains_key(c) <==> !self.members(c).is_empty(),
    {
    }

    proof fn lemma_codes()
        ensures
            forall|c: (i32, i32), d: (i32, i32)|
                #[trigger] grid_code(c.0, c.1) == #[trigger] grid_code(d.0, d.1) ==> c == d,
            forall|k: u64| #[trigger] grid_code(code_x(k), code_y(k)) == k,
    {
        assert forall|c: (i32, i32), d: (i32, i32)|
            #[trigger] grid_code(c.0, c.1) == #[trigger] grid_code(d.0, d.1) implies c == d by {
            lemma_code_roundtrip(c.0, c.1);
            lemma_code_roundtrip(d.0, d.1);
        }
        assert forall|k: u64| #[trigger] grid_code(code_x(k), code_y(k)) == k by {
            lemma_code_onto(k);
        }
    }

    pub fn new() -> (grid: Self)
        ensures
            grid.wf(),
            grid.cells() == Map::<(i32, i32), Set<u64>>::empty(),
    {
        let grid = SpatialGrid { cells: HashMap::new() };
        assert(grid.cells() =~= Map::<(i32, i32), Set<u64>>::empty());
        grid
    }

    /// Insert a player into a cell.
    pub fn insert(&mut self, id: u64, cell: (i32, i32))
        requires
            old(self).wf(),
        ensures
            final(self).wf(),
            final(self).cells() == old(self).cells().insert(cell, old(self).members(cell).insert(id)),
    {
        proof {
            Self::lemma_codes();
        }
        let key = encode_coords(cell.0, cell.1);
        let mut set = match self.cells.remove(&key) {
            Some(s) => s,
            None => HashSet::new(),
        };
        set.insert(id);
        self.cells.insert(key, set);
        assert(self.cells() =~= old(self).cells().insert(cell, old(self).members(cell).insert(id)));
    }

    /// Remove a player from a cell; a cell left empty is dropped.
    pub fn remove(&mut self, id: u64, cell: (i32, i32))
        requires
            old(self).wf(),
        ensures
            final(self).wf(),
            if old(self).members(cell).remove(id).is_empty() {
                final(self).cells() == old(self).cells().remove(cell)
            } else {
                final(self).cells() == old(self).cells().insert(cell, old(self).members(cell).remove(id))
            },
    {
        proof {
            Self::lemma_codes();
        }
        let key = encode_coords(cell.0, cell.1);
        match self.cells.remove(&key) {
            Some(mut set) => {
                set.remove(&id);
                if !set.is_empty() {
                    self.cells.insert(key, set);
                    assert(self.cells() =~= old(self).cells().insert(
                        cell,
                        old(self).members(cell).remove(id),
                    ));
                } else {
                    assert(self.cells() =~= old(self).cells().remove(cell));
                }
            },
            None => {
                assert(old(self).members(cell).remove(id) =~= Set::empty());
                assert(self.cells() =~= old(self).cells().remove(cell));
            },
        }
    }

    /// Move a player from one cell to another.
    pub fn update(&mut self, id: u64, old_cell: (i32, i32), new_cell: (i32, i32))
        requires
            old(self).wf(),
        ensures
            final(self).wf(),
            old_cell == new_cell ==> final(self).cells() == old(self).cells(),
            old_cell != new_cell ==> forall|c: (i32, i32)|
                #[trigger] final(self).members(c) == if c == new_cell {
                    old(self).members(c).insert(id)
                } else if c == old_cell {
                    old(self).members(c).remove(id)
                } else {
                    old(self).members(c)
                },
    {
        if old_cell.0 != new_cell.0 || old_cell.1 != new_cell.1 {
            self.remove(id, old_cell);
            self.insert(id, new_cell);
        }
    }

    /// Get all player ids in the cells within `cell_radius` cells of
    /// `center`.
    pub fn query_nearby(&self, center: (i32, i32), cell_radius: i32) -> (ids: Vec<u64>)
        requires
            square_fits(center, cell_radius),
        ensures
            forall|id: u64| ids@.contains(id) <==> near(self.occupancy(), id, center, cell_radius),
            square_disjoint(self.occupancy(), center, cell_radius) ==> ids@.no_duplicates(),
            forall|id: u64|
                #[trigger] ids@.to_multiset().count(id) == near_count(self.occupancy(), id, center, cell_radius),
            ids@ == scan_order(self.ordering(), center, cell_radius),
    {
        broadcast use vstd::seq_lib::group_to_multiset_ensures;
        proof {
            Self::lemma_codes();
        }
        let ghost occ = self.occupancy();
        let ghost ord = self.ordering();
        let ghost disjoint = square_disjoint(occ, center, cell_radius);
        let mut result: Vec<u64> = Vec::new();
        let r: i64 = cell_radius as i64;
        let cx: i64 = center.0 as i64;
        let cy: i64 = center.1 as i64;
        let mut dx: i64 = -r;
        while dx <= r
            invariant
                occ == self.occupancy(),
                square_fits(center, cell_radius),
                r == cell_radius,
                cx == center.0,
                cy == center.1,
                -r <= dx,
                dx <= r + 1 || r < 0,
                r < 0 ==> dx == -r,
                ord == self.ordering(),
                result@ == rect_gather(ord, cx - r, cx + dx, cy - r, cy + r + 1),
                disjoint == square_disjoint(occ, center, cell_radius),
                disjoint ==> result@.no_duplicates(),
                forall|id: u64|
                    result@.contains(id) <==> rect_holds(occ, id, cx - r, cx + dx, cy - r, cy + r + 1),
                forall|id: u64|
                    #[trigger] result@.to_multiset().count(id) == rect_count(occ, id, cx - r, cx + dx, cy - r, cy + r + 1),
            decreases r + 1 - dx,
        {
            let mut dy: i64 = -r;
            while dy <= r
                invariant
                    occ == self.occupancy(),
                    square_fits(center, cell_radius),
                    r == cell_radius,
                    cx == center.0,
                    cy == center.1,
                    -r <= dx <= r,
                    -r <= dy <= r + 1,
                    ord == self.ordering(),
                    result@ == rect_gather(ord, cx - r, cx + dx, cy - r, cy + r + 1) + col_gather(
                        ord,
                        cx + dx,
                        cy - r,
                        cy + dy,
                    ),
                    disjoint == square_disjoint(occ, center, cell_radius),
                    disjoint ==> result@.no_duplicates(),
                    forall|id: u64|
                        #[trigger] result@.to_multiset().count(id) == rect_count(occ, id, cx - r, cx + dx, cy - r, cy + r + 1)
                            + col_count(occ, id, cx + dx, cy - r, cy + dy),
                    forall|id: u64|
                        result@.contains(id) <==> (rect_holds(occ, id, cx - r, cx + dx, cy - r, cy + r + 1)
                            || rect_holds(occ, id, cx + dx, cx + dx + 1, cy - r, cy + dy)),
                decreases r + 1 - dy,
            {
                let c: (i32, i32) = ((cx + dx) as i32, (cy + dy) as i32);
                let key = encode_coords(c.0, c.1);
                let ghost before = result@;
                match self.cells.get(&key) {
                    Some(cell) => {
                        let ghost members = cell@;
                        assert(members == occ(c));
                        // The set's iterator starts with the cell's order.
                        let _start = cell.iter();
                        let ghost all: Seq<u64> = IteratorSpec::remaining(&cell.iter()).unref();
                        assert(all == ord(c));
                        assert(all.to_set() == members);
                        let ghost start = result@;
                        assert(all.no_duplicates());
                        for id in it: cell.iter()
                            invariant
                                it.seq().unref() == all,
                                all.no_duplicates(),
                                result@ == start + all.take(it.index()),
                                forall|v: u64|
                                    #[trigger] result@.to_multiset().count(v) == start.to_multiset().count(v) + if all.take(
                                        it.index(),
                                    ).contains(v) {
                                        1int
                                    } else {
                                        0int
                                    },
                        {
                            let ghost k = it.index();
                            assert(all[k] == *id);
                            assert(!all.take(k).contains(*id)) by {
                                if all.take(k).contains(*id) {
                                    let j = choose|j: int| 0 <= j < k && all.take(k)[j] == *id;
                                    assert(all[j] == all[k]);
                                }
                            }
                            let ghost prev = result@;
                            result.push(*id);
                            assert(all.take(it.index() + 1) == all.take(it.index()).push(*id));
                            assert(result@ == prev.push(*id));
                        }
                        assert(all.take(all.len() as int) == all);
                        assert forall|v: u64|
                            #[trigger] result@.to_multiset().count(v) == before.to_multiset().count(v) + if occ(
                                c,
                            ).contains(v) {
                                1int
                            } else {
                                0int
                            } by {
                            assert(all.contains(v) == all.to_set().contains(v));
                        }
                        assert(result@ =~= before + all);
                        proof {
                            if disjoint {
                                assert forall|v: u64| all.contains(v) implies !before.contains(v) by {
                                    if before.contains(v) {
                                        assert(rect_holds(occ, v, cx - r, cx + dx, cy - r, cy + r + 1)
                                            || rect_holds(occ, v, cx + dx, cx + dx + 1, cy - r, cy + dy));
                                        let w = choose|w: (i32, i32)|
                                            ((cx - r <= w.0 < cx + dx && cy - r <= w.1 < cy + r + 1) || (cx
                                                + dx <= w.0 < cx + dx + 1 && cy - r <= w.1 < cy + dy))
                                                && #[trigger] occ(w).contains(v);
                                        assert(occ(c).contains(v));
                                        assert(w != c);
                                    }
                                }
                                assert forall|a: int, b: int|
                                    0 <= a < b < result@.len() implies result@[a] != result@[b] by {
                                    if b >= before.len() && a < before.len() {
                                        assert(all.contains(result@[b]));
                                    }
                                }
                            }
                        }
                        assert forall|v: u64| result@.contains(v) <==> (before.contains(v) || all.contains(v)) by {
                            if result@.contains(v) && !before.contains(v) {
                                let j = choose|j: int| 0 <= j < result@.len() && result@[j] == v;
                                assert(all[j - before.len()] == v);
                            }
                            if all.contains(v) {
                                let j = choose|j: int| 0 <= j < all.len() && all[j] == v;
                                assert(result@[before.len() + j] == v);
                            }
                        }
                    },
                    None => {
                        assert(occ(c) == Set::<u64>::empty());
                        assert(ord(c) == Seq::<u64>::empty());
                        assert(result@ =~= before + ord(c));
                    },
                }
                assert(result@ == rect_gather(ord, cx - r, cx + dx, cy - r, cy + r + 1) + col_gather(
                    ord,
                    cx + dx,
                    cy - r,
                    cy + dy + 1,
                )) by {
                    assert(col_gather(ord, cx + dx, cy - r, cy + dy + 1) == col_gather(ord, cx + dx, cy - r, cy + dy)
                        + ord(c));
                    assert(result@ =~= before + ord(c));
                }
                assert forall|v: u64|
                    #[trigger] result@.to_multiset().count(v) == rect_count(occ, v, cx - r, cx + dx, cy - r, cy + r + 1)
                        + col_count(occ, v, cx + dx, cy - r, cy + dy + 1) by {
                    assert(result@.to_multiset().count(v) == before.to_multiset().count(v) + if occ(c).contains(v) {
                        1int
                    } else {
                        0int
                    });
                }
                assert forall|id: u64|
                    result@.contains(id) <==> (rect_holds(occ, id, cx - r, cx + dx, cy - r, cy + r + 1)
                        || rect_holds(occ, id, cx + dx, cx + dx + 1, cy - r, cy + dy + 1)) by {
                    if result@.contains(id) && !before.contains(id) {
                        assert(occ(c).contains(id));
                    }
                    if rect_holds(occ, id, cx + dx, cx + dx + 1, cy - r, cy + dy + 1) {
                        let w = choose|w: (i32, i32)|
                            cx + dx <= w.0 < cx + dx + 1 && cy - r <= w.1 < cy + dy + 1
                                && #[trigger] occ(w).contains(id);
                        if w.1 == cy + dy {
                            assert(w == c);
                        }
                    }
                }
                dy = dy + 1;
            }
            assert forall|id: u64|
                result@.contains(id) <==> rect_holds(occ, id, cx - r, cx + dx + 1, cy - r, cy + r + 1) by {
                if rect_holds(occ, id, cx - r, cx + dx + 1, cy - r, cy + r + 1) {
                    let w = choose|w: (i32, i32)|
                        cx - r <= w.0 < cx + dx + 1 && cy - r <= w.1 < cy + r + 1
                            && #[trigger] occ(w).contains(id);
                    if w.0 == cx + dx {
                        assert(rect_holds(occ, id, cx + dx, cx + dx + 1, cy - r, cy + r + 1));
                    } else {
                        assert(rect_holds(occ, id, cx - r, cx + dx, cy - r, cy + r + 1));
                    }
                }
            }
            assert forall|v: u64|
                #[trigger] result@.to_multiset().count(v) == rect_count(occ, v, cx - r, cx + dx + 1, cy - r, cy + r + 1) by {
                assert(result@.to_multiset().count(v) == rect_count(occ, v, cx - r, cx + dx, cy - r, cy + r + 1)
                    + col_count(occ, v, cx + dx, cy - r, cy + r + 1));
            }
            assert(result@ == rect_gather(ord, cx - r, cx + dx + 1, cy - r, cy + r + 1)) by {
                assert(rect_gather(ord, cx - r, cx + dx + 1, cy - r, cy + r + 1) == rect_gather(
                    ord,
                    cx - r,
                    cx + dx,
                    cy - r,
                    cy + r + 1,
                ) + col_gather(ord, cx + dx, cy - r, cy + r + 1));
            }
            dx = dx + 1;
        }
        assert forall|id: u64| result@.contains(id) <==> near(self.occupancy(), id, center, cell_radius) by {
            if r < 0 {
                if near(occ, id, center, cell_radius) {
                    let w = choose|w: (i32, i32)|
                        cx - r <= w.0 < cx + r + 1 && cy - r <= w.1 < cy + r + 1
                            && #[trigger] occ(w).contains(id);
                }
            }
        }
        assert(result@ == scan_order(ord, center, cell_radius)) by {
            if r < 0 {
                assert(rect_gather(ord, cx - r, cx + dx, cy - r, cy + r + 1) =~= Seq::<u64>::empty());
                assert(rect_gather(ord, cx - r, cx + r + 1, cy - r, cy + r + 1) =~= Seq::<u64>::empty());
            }
        }
        result
    }

    /// Clear all entries.
    pub fn clear(&mut self)
        ensures
            final(self).wf(),
            final(self).cells() == Map::<(i32, i32), Set<u64>>::empty(),
    {
        self.cells.clear();
        assert(self.cells() =~= Map::<(i32, i32), Set<u64>>::empty());
    }
}

} // verus!

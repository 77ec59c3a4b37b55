//! The object store: owns the live set of scene objects, applies batched
//! update messages to them, keeps a round-robin scheduling queue, and
//! maintains a uniform grid spatial index keyed by object position.
//!
//! Objects are held in an arena and addressed by their id string; callers
//! read through lookups and mutate through the store, never through aliased
//! handles. The grid invariant — every object is recorded in exactly the
//! cell `floor(position / cell_size)` of its current position — is part of
//! [`ObjectManager::wf`] and is preserved by every operation; see
//! [`lemma_grid_consistent`].

use vstd::arithmetic::div_mod::{
    lemma_div_is_ordered, lemma_fundamental_div_mod, lemma_fundamental_div_mod_converse,
    lemma_mod_bound,
};
use vstd::prelude::*;

use crate::object::{apply_entries, ObjView, PropEntry, PropPatch, SceneObject, PROP_X, PROP_Y};
use crate::render_control::{UpdateMessage, UpdateType};

verus! {

/// The default edge length of one grid cell.
pub const DEFAULT_CELL_SIZE: i64 = 100;

/// Floor of `a / b` for a positive divisor; `int` division rounds the same
/// way, so the contract is stated with it.
pub fn floor_div(a: i64, b: i64) -> (r: i64)
    requires
        b > 0,
    ensures
        r as int == a as int / b as int,
{
    if a >= 0 {
        let q = (a as u64) / (b as u64);
        proof {
            lemma_fundamental_div_mod(a as int, b as int);
        }
        q as i64
    } else {
        let n = -(a + 1);
        let m = (n as u64) / (b as u64);
        proof {
            let ni = n as int;
            let bi = b as int;
            let mi = ni / bi;
            lemma_fundamental_div_mod(ni, bi);
            let ri = ni % bi;
            assert(0 <= ri < bi);
            assert(a as int == (-mi - 1) * bi + (bi - 1 - ri)) by (nonlinear_arith)
                requires
                    ni == bi * mi + ri,
                    a as int == -ni - 1,
            ;
            lemma_fundamental_div_mod_converse(a as int, bi, -mi - 1, bi - 1 - ri);
        }
        -(m as i64) - 1
    }
}

/// Ceiling of `a / b` for non-negative `a` and positive `b`, as the usual
/// `(a + b - 1) / b`.
pub fn ceil_div(a: i64, b: i64) -> (r: i64)
    requires
        0 <= a,
        b > 0,
        a + b - 1 <= i64::MAX,
    ensures
        r as int == (a + b - 1) as int / b as int,
{
    let q = ((a as u64) + (b as u64) - 1) / (b as u64);
    proof {
        lemma_fundamental_div_mod((a + b - 1) as int, b as int);
    }
    q as i64
}

/// The grid cell that holds position `pos` for the given cell size.
pub open spec fn cell_of(pos: (i64, i64), cell_size: i64) -> (int, int) {
    (pos.0 as int / cell_size as int, pos.1 as int / cell_size as int)
}

/// An object's position: its x and y properties.
pub open spec fn obj_pos(v: ObjView) -> (i64, i64) {
    (v.props[PROP_X as int], v.props[PROP_Y as int])
}

/// Chebyshev (ring) distance between two cells is at most `r`.
pub open spec fn chebyshev_le(a: (int, int), b: (int, int), r: int) -> bool {
    &&& (if a.0 >= b.0 {
        a.0 - b.0
    } else {
        b.0 - a.0
    }) <= r
    &&& (if a.1 >= b.1 {
        a.1 - b.1
    } else {
        b.1 - a.1
    }) <= r
}

/// How many rings of cells a search radius spans.
pub open spec fn ring_count(radius: i64, cell_size: i64) -> int {
    (radius + cell_size - 1) as int / cell_size as int
}

/// Squared Euclidean distance between two positions.
pub open spec fn dist_sq(a: (i64, i64), b: (i64, i64)) -> int {
    (a.0 - b.0) * (a.0 - b.0) + (a.1 - b.1) * (a.1 - b.1)
}

/// Whether position `a` lies within `radius` of position `b`.
pub open spec fn within_radius(a: (i64, i64), b: (i64, i64), radius: i64) -> bool {
    dist_sq(a, b) <= radius * radius
}

/// Whether the stored object `id` lies within `radius` of `pos`.
pub open spec fn nearby(
    m: Map<Seq<char>, ObjView>,
    pos: (i64, i64),
    radius: i64,
    id: Seq<char>,
) -> bool {
    m.contains_key(id) && within_radius(obj_pos(m[id]), pos, radius)
}

/// Whether a list of id strings holds `id`.
pub open spec fn seq_has_id(s: Seq<String>, id: Seq<char>) -> bool {
    exists|i: int| 0 <= i < s.len() && s[i]@ == id
}

/// The id strings in `s` are pairwise distinct.
pub open spec fn seq_ids_nodup(s: Seq<String>) -> bool {
    forall|i: int, j: int| 0 <= i < j < s.len() ==> s[i]@ != s[j]@
}

/// One stored object and its scheduling stamp.
#[derive(Debug)]
struct ObjectRecord {
    object: SceneObject,
    last_update: u64,
}

/// One grid bucket: a cell coordinate and the ids of the objects in it.
#[derive(Debug)]
struct GridCell {
    cx: i64,
    cy: i64,
    ids: Vec<String>,
}

spec fn rec_id(r: ObjectRecord) -> Seq<char> {
    r.object.id_seq()
}

spec fn recs_contains(s: Seq<ObjectRecord>, id: Seq<char>) -> bool {
    exists|i: int| 0 <= i < s.len() && rec_id(#[trigger] s[i]) == id
}

spec fn recs_index(s: Seq<ObjectRecord>, id: Seq<char>) -> int {
    choose|i: int| 0 <= i < s.len() && rec_id(#[trigger] s[i]) == id
}

spec fn recs_unique(s: Seq<ObjectRecord>) -> bool {
    forall|i: int, j: int| 0 <= i < j < s.len() ==> rec_id(s[i]) != rec_id(s[j])
}

spec fn recs_wf(s: Seq<ObjectRecord>) -> bool {
    forall|i: int| 0 <= i < s.len() ==> (#[trigger] s[i]).object.wf()
}

/// The views of a list of id strings.
spec fn id_views(q: Seq<String>) -> Seq<Seq<char>> {
    q.map_values(|s: String| s@)
}

/// The id-to-view map that a record list denotes.
spec fn recs_map(s: Seq<ObjectRecord>) -> Map<Seq<char>, ObjView> {
    Map::new(|id: Seq<char>| recs_contains(s, id), |id: Seq<char>| s[recs_index(s, id)].object.obs())
}

spec fn cell_coords(c: GridCell) -> (int, int) {
    (c.cx as int, c.cy as int)
}

spec fn cell_has(c: GridCell, id: Seq<char>) -> bool {
    exists|k: int| 0 <= k < c.ids@.len() && (#[trigger] c.ids@[k])@ == id
}

/// The grid records `id` under cell coordinate `cc`.
spec fn in_cell(cells: Seq<GridCell>, id: Seq<char>, cc: (int, int)) -> bool {
    exists|ci: int|
        0 <= ci < cells.len() && cell_coords(#[trigger] cells[ci]) == cc && cell_has(cells[ci], id)
}

spec fn cells_coords_unique(cells: Seq<GridCell>) -> bool {
    forall|a: int, b: int|
        0 <= a < b < cells.len() ==> cell_coords(cells[a]) != cell_coords(cells[b])
}

spec fn cells_nodup(cells: Seq<GridCell>) -> bool {
    forall|ci: int| 0 <= ci < cells.len() ==> seq_ids_nodup((#[trigger] cells[ci]).ids@)
}

/// The grid is exactly the index of the live contents: everything it
/// records is a live object in the cell of its current position, and every
/// live object is recorded.
spec fn grid_matches(cells: Seq<GridCell>, m: Map<Seq<char>, ObjView>, cell_size: i64) -> bool {
    &&& cells_coords_unique(cells)
    &&& cells_nodup(cells)
    &&& forall|id: Seq<char>, cc: (int, int)|
        #[trigger] in_cell(cells, id, cc) ==> m.contains_key(id) && cell_of(
            obj_pos(m[id]),
            cell_size,
        ) == cc
    &&& forall|id: Seq<char>|
        #[trigger] m.contains_key(id) ==> in_cell(cells, id, cell_of(obj_pos(m[id]), cell_size))
}

/// The scheduling queue covers the live ids exactly once each.
spec fn queue_matches(q: Seq<String>, m: Map<Seq<char>, ObjView>) -> bool {
    &&& seq_ids_nodup(q)
    &&& forall|i: int| 0 <= i < q.len() ==> m.contains_key((#[trigger] q[i])@)
    &&& forall|id: Seq<char>| #[trigger] m.contains_key(id) ==> seq_has_id(q, id)
}

/// The scheduling stamp of the record that owns `id`.
spec fn rec_stamp(s: Seq<ObjectRecord>, id: Seq<char>) -> u64 {
    s[recs_index(s, id)].last_update
}

/// No record is stamped past the scheduling clock.
spec fn stamps_bounded(s: Seq<ObjectRecord>, clock: u64) -> bool {
    forall|i: int| 0 <= i < s.len() ==> (#[trigger] s[i]).last_update <= clock
}

/// The queue runs from long-neglected objects to freshly stamped ones:
/// ascending by last-update stamp. Rotation with a monotone stamp keeps
/// this ordering, which is the reorder-by-age step of the scheduling pass.
spec fn queue_stamps_sorted(q: Seq<String>, s: Seq<ObjectRecord>) -> bool {
    forall|i: int, j: int|
        0 <= i < j < q.len() ==> rec_stamp(s, (#[trigger] q[i])@) <= rec_stamp(
            s,
            (#[trigger] q[j])@,
        )
}

/// The store.
#[derive(Debug)]
pub struct ObjectManager {
    objects: Vec<ObjectRecord>,
    update_queue: Vec<String>,
    cells: Vec<GridCell>,
    cell_size: i64,
    total_time: u64,
}

impl ObjectManager {
    /// The observable contents: each live id mapped to what is stored under
    /// it.
    pub closed spec fn obs(&self) -> Map<Seq<char>, ObjView> {
        recs_map(self.objects@)
    }

    /// The round-robin scheduling queue, front first.
    pub closed spec fn queue(&self) -> Seq<Seq<char>> {
        id_views(self.update_queue@)
    }

    /// The configured grid cell size.
    pub closed spec fn spec_cell_size(&self) -> i64 {
        self.cell_size
    }

    /// The latest scheduling clock the store has seen.
    pub closed spec fn spec_total_time(&self) -> u64 {
        self.total_time
    }

    /// The cell the grid currently records for `id`, if any.
    pub closed spec fn grid_cell(&self, id: Seq<char>) -> Option<(int, int)> {
        if exists|cc: (int, int)| in_cell(self.cells@, id, cc) {
            Some(choose|cc: (int, int)| in_cell(self.cells@, id, cc))
        } else {
            None
        }
    }

    /// Well-formed: ids unique, every object has a position, the grid
    /// matches the records, and the queue is a duplicate-free cover of the
    /// live ids.
    pub closed spec fn wf(&self) -> bool {
        &&& recs_unique(self.objects@)
        &&& recs_wf(self.objects@)
        &&& self.cell_size >= 1
        &&& grid_matches(self.cells@, recs_map(self.objects@), self.cell_size)
        &&& queue_matches(self.update_queue@, recs_map(self.objects@))
        &&& stamps_bounded(self.objects@, self.total_time)
        &&& queue_stamps_sorted(self.update_queue@, self.objects@)
    }

    /// The scheduling stamp of the stored object `id`: when it was last
    /// taken for incremental work (its add time before that).
    pub closed spec fn stamp(&self, id: Seq<char>) -> u64 {
        rec_stamp(self.objects@, id)
    }

    /// An empty store with the default cell size.
    pub fn new() -> (r: ObjectManager)
        ensures
            r.wf(),
            r.obs() == Map::<Seq<char>, ObjView>::empty(),
            r.queue() == Seq::<Seq<char>>::empty(),
            r.spec_cell_size() == DEFAULT_CELL_SIZE,
    {
        Self::with_cell_size(DEFAULT_CELL_SIZE)
    }

    /// An empty store with the given cell size.
    pub fn with_cell_size(cell_size: i64) -> (r: ObjectManager)
        requires
            cell_size >= 1,
        ensures
            r.wf(),
            r.obs() == Map::<Seq<char>, ObjView>::empty(),
            r.queue() == Seq::<Seq<char>>::empty(),
            r.spec_cell_size() == cell_size,
    {
        let r = ObjectManager {
            objects: Vec::new(),
            update_queue: Vec::new(),
            cells: Vec::new(),
            cell_size,
            total_time: 0,
        };
        proof {
            assert(r.obs() =~= Map::<Seq<char>, ObjView>::empty());
            assert(r.queue() =~= Seq::<Seq<char>>::empty());
        }
        r
    }

    /// The index of the record that owns `id`.
    fn find_record(&self, id: &str) -> (r: Option<usize>)
        ensures
            r matches Some(i) ==> i < self.objects@.len() && rec_id(self.objects@[i as int]) == id@,
            r is None ==> !recs_contains(self.objects@, id@),
    {
        let key = String::from_str(id);
        let mut i: usize = 0;
        while i < self.objects.len()
            invariant
                0 <= i <= self.objects@.len(),
                key@ == id@,
                forall|j: int| 0 <= j < i ==> rec_id(#[trigger] self.objects@[j]) != id@,
            decreases self.objects@.len() - i,
        {
            let candidate = String::from_str(self.objects[i].object.id().value());
            if candidate == key {
                return Some(i);
            }
            i += 1;
        }
        None
    }

    /// The index of the grid cell at the given coordinates.
    fn find_cell(&self, cx: i64, cy: i64) -> (r: Option<usize>)
        ensures
            r matches Some(ci) ==> ci < self.cells@.len() && cell_coords(self.cells@[ci as int])
                == (cx as int, cy as int),
            r is None ==> forall|ci: int|
                0 <= ci < self.cells@.len() ==> cell_coords(#[trigger] self.cells@[ci]) != (
                cx as int,
                cy as int,
            ),
    {
        let mut ci: usize = 0;
        while ci < self.cells.len()
            invariant
                0 <= ci <= self.cells@.len(),
                forall|j: int|
                    0 <= j < ci ==> cell_coords(#[trigger] self.cells@[j]) != (
                    cx as int,
                    cy as int,
                ),
            decreases self.cells@.len() - ci,
        {
            if self.cells[ci].cx == cx && self.cells[ci].cy == cy {
                return Some(ci);
            }
            ci += 1;
        }
        None
    }

    /// How many objects are stored.
    pub fn len(&self) -> (r: usize)
        requires
            self.wf(),
        ensures
            r == self.obs().dom().len(),
    {
        proof {
            lemma_recs_map_len(self.objects@);
        }
        self.objects.len()
    }

    /// Whether the store is empty.
    pub fn is_empty(&self) -> (r: bool)
        requires
            self.wf(),
        ensures
            r == (self.obs().dom().len() == 0),
    {
        proof {
            lemma_recs_map_len(self.objects@);
        }
        self.objects.len() == 0
    }

    /// Whether an object with this id is stored.
    pub fn contains(&self, id: &str) -> (r: bool)
        ensures
            r == self.obs().contains_key(id@),
    {
        match self.find_record(id) {
            Some(i) => {
                proof {
                    assert(recs_contains(self.objects@, id@));
                }
                true
            },
            None => false,
        }
    }

    /// A read-only view of the object with this id.
    pub fn get(&self, id: &str) -> (r: Option<&SceneObject>)
        requires
            self.wf(),
        ensures
            r is Some <==> self.obs().contains_key(id@),
            r matches Some(o) ==> o.obs() == self.obs()[id@] && o.wf() && o.id_seq() == id@,
    {
        match self.find_record(id) {
            Some(i) => {
                proof {
                    assert(recs_contains(self.objects@, id@));
                    lemma_recs_index_of(self.objects@, id@, i as int);
                }
                Some(&self.objects[i].object)
            },
            None => None,
        }
    }

    /// Read-only snapshots of all stored objects, in arena order.
    pub fn get_objects(&self) -> (r: Vec<SceneObject>)
        requires
            self.wf(),
        ensures
            r@.len() == self.obs().dom().len(),
            forall|i: int|
                0 <= i < r@.len() ==> self.obs().contains_key((#[trigger] r@[i]).id_seq())
                    && self.obs()[r@[i].id_seq()] == r@[i].obs(),
            forall|i: int, j: int|
                0 <= i < j < r@.len() ==> (#[trigger] r@[i]).id_seq() != (#[trigger] r@[j]).id_seq(),
    {
        proof {
            lemma_recs_map_len(self.objects@);
        }
        let mut r: Vec<SceneObject> = Vec::new();
        let mut i: usize = 0;
        while i < self.objects.len()
            invariant
                0 <= i <= self.objects@.len(),
                self.wf(),
                r@.len() == i,
                forall|j: int| 0 <= j < i ==> (#[trigger] r@[j]).obs() == self.objects@[j].object.obs(),
            decreases self.objects@.len() - i,
        {
            r.push(self.objects[i].object.clone_object());
            i += 1;
        }
        proof {
            assert forall|j: int| 0 <= j < r@.len() implies self.obs().contains_key(
                (#[trigger] r@[j]).id_seq(),
            ) && self.obs()[r@[j].id_seq()] == r@[j].obs() by {
                assert(rec_id(self.objects@[j]) == r@[j].id_seq());
                assert(recs_contains(self.objects@, r@[j].id_seq()));
                lemma_recs_index_of(self.objects@, r@[j].id_seq(), j);
            }
        }
        r
    }
}

/// Whether two strings differ in content.
fn string_differs(a: &String, b: &String) -> (r: bool)
    ensures
        r == (a@ != b@),
{
    let same = *a == *b;
    !same
}

impl ObjectManager {
    /// Records `id` in the cell at `(cx, cy)`, creating the cell if need
    /// be. The id must not be recorded anywhere yet.
    fn grid_insert(&mut self, id: String, cx: i64, cy: i64)
        requires
            cells_coords_unique(old(self).cells@),
            cells_nodup(old(self).cells@),
            forall|cc: (int, int)| !in_cell(old(self).cells@, id@, cc),
        ensures
            final(self).objects@ == old(self).objects@,
            final(self).update_queue@ == old(self).update_queue@,
            final(self).cell_size == old(self).cell_size,
            final(self).total_time == old(self).total_time,
            cells_coords_unique(final(self).cells@),
            cells_nodup(final(self).cells@),
            forall|id2: Seq<char>, cc: (int, int)|
                #[trigger] in_cell(final(self).cells@, id2, cc) <==> (in_cell(
                    old(self).cells@,
                    id2,
                    cc,
                ) || (id2 == id@ && cc == (cx as int, cy as int))),
    {
        let ghost pre = self.cells@;
        let ghost idv = id@;
        match self.find_cell(cx, cy) {
            Some(ci) => {
                let mut cell = self.cells.remove(ci);
                let ghost precell = cell;
                assert(!cell_has(cell, idv)) by {
                    if cell_has(cell, idv) {
                        assert(in_cell(pre, idv, (cx as int, cy as int)));
                    }
                }
                cell.ids.push(id);
                self.cells.insert(ci, cell);
                proof {
                    let post = self.cells@;
                    assert(post =~= pre.update(ci as int, post[ci as int]));
                    assert forall|a: int, b: int| 0 <= a < b < post.len() implies cell_coords(
                        post[a],
                    ) != cell_coords(post[b]) by {
                        assert(cell_coords(post[a]) == cell_coords(pre[a]));
                        assert(cell_coords(post[b]) == cell_coords(pre[b]));
                    }
                    assert forall|cj: int| 0 <= cj < post.len() implies seq_ids_nodup(
                        (#[trigger] post[cj]).ids@,
                    ) by {
                        if cj != ci {
                            assert(post[cj] == pre[cj]);
                        } else {
                            let newids = post[ci as int].ids@;
                            assert forall|k: int, l: int|
                                0 <= k < l < newids.len() implies newids[k]@ != newids[l]@ by {
                                assert(seq_ids_nodup(precell.ids@));
                                if l < newids.len() - 1 {
                                    assert(precell.ids@[k] == newids[k]);
                                    assert(precell.ids@[l] == newids[l]);
                                } else {
                                    assert(newids[l]@ == idv);
                                    assert(precell.ids@[k] == newids[k]);
                                    if newids[k]@ == idv {
                                        assert(cell_has(precell, idv));
                                    }
                                }
                            }
                        }
                    }
                    assert forall|id2: Seq<char>, cc: (int, int)| #[trigger] in_cell(
                        post,
                        id2,
                        cc,
                    ) implies (in_cell(pre, id2, cc) || (id2 == idv && cc == (
                        cx as int,
                        cy as int,
                    ))) by {
                        let cj = choose|cj: int|
                            0 <= cj < post.len() && cell_coords(#[trigger] post[cj]) == cc
                                && cell_has(post[cj], id2);
                        if cj != ci {
                            assert(post[cj] == pre[cj]);
                            assert(in_cell(pre, id2, cc));
                        } else {
                            let k = choose|k: int|
                                0 <= k < post[cj].ids@.len() && (#[trigger] post[cj].ids@[k])@
                                    == id2;
                            if k < post[cj].ids@.len() - 1 {
                                assert(pre[ci as int].ids@[k] == post[cj].ids@[k]);
                                assert(cell_has(pre[ci as int], id2));
                                assert(in_cell(pre, id2, cc));
                            } else {
                                assert(id2 == idv);
                                assert(cell_coords(pre[ci as int]) == (cx as int, cy as int));
                            }
                        }
                    }
                    assert forall|id2: Seq<char>, cc: (int, int)|
                        (in_cell(pre, id2, cc) || (id2 == idv && cc == (
                            cx as int,
                            cy as int,
                        ))) implies #[trigger] in_cell(post, id2, cc) by {
                        if in_cell(pre, id2, cc) {
                            let cj = choose|cj: int|
                                0 <= cj < pre.len() && cell_coords(#[trigger] pre[cj]) == cc
                                    && cell_has(pre[cj], id2);
                            if cj != ci {
                                assert(post[cj] == pre[cj]);
                            } else {
                                let k = choose|k: int|
                                    0 <= k < pre[cj].ids@.len() && (#[trigger] pre[cj].ids@[k])@
                                        == id2;
                                assert(post[ci as int].ids@[k] == pre[cj].ids@[k]);
                                assert(cell_has(post[ci as int], id2));
                            }
                        } else {
                            assert(post[ci as int].ids@.last()@ == idv);
                            assert(cell_has(post[ci as int], idv));
                            assert(cell_coords(post[ci as int]) == (cx as int, cy as int));
                        }
                    }
                }
            },
            None => {
                let mut ids: Vec<String> = Vec::new();
                ids.push(id);
                self.cells.push(GridCell { cx, cy, ids });
                proof {
                    let post = self.cells@;
                    assert(post == pre.push(post.last()));
                    assert(post.last().ids@.len() == 1 && post.last().ids@[0]@ == idv);
                    assert(cell_has(post.last(), idv));
                    assert forall|id2: Seq<char>, cc: (int, int)| #[trigger] in_cell(
                        post,
                        id2,
                        cc,
                    ) implies (in_cell(pre, id2, cc) || (id2 == idv && cc == (
                        cx as int,
                        cy as int,
                    ))) by {
                        let cj = choose|cj: int|
                            0 <= cj < post.len() && cell_coords(#[trigger] post[cj]) == cc
                                && cell_has(post[cj], id2);
                        if cj < post.len() - 1 {
                            assert(post[cj] == pre[cj]);
                            assert(in_cell(pre, id2, cc));
                        } else {
                            assert(post[cj].ids@.len() == 1);
                            assert(id2 == idv);
                        }
                    }
                    assert forall|id2: Seq<char>, cc: (int, int)|
                        (in_cell(pre, id2, cc) || (id2 == idv && cc == (
                            cx as int,
                            cy as int,
                        ))) implies #[trigger] in_cell(post, id2, cc) by {
                        if in_cell(pre, id2, cc) {
                            let cj = choose|cj: int|
                                0 <= cj < pre.len() && cell_coords(#[trigger] pre[cj]) == cc
                                    && cell_has(pre[cj], id2);
                            assert(post[cj] == pre[cj]);
                        } else {
                            assert(cell_has(post[post.len() - 1], idv));
                        }
                    }
                }
            },
        }
    }

    /// Strikes `id` from the cell at `(cx, cy)`, if it is recorded there.
    fn grid_remove(&mut self, id: &str, cx: i64, cy: i64)
        requires
            cells_coords_unique(old(self).cells@),
            cells_nodup(old(self).cells@),
        ensures
            final(self).objects@ == old(self).objects@,
            final(self).update_queue@ == old(self).update_queue@,
            final(self).cell_size == old(self).cell_size,
            final(self).total_time == old(self).total_time,
            cells_coords_unique(final(self).cells@),
            cells_nodup(final(self).cells@),
            forall|id2: Seq<char>, cc: (int, int)|
                #[trigger] in_cell(final(self).cells@, id2, cc) <==> (in_cell(
                    old(self).cells@,
                    id2,
                    cc,
                ) && !(id2 == id@ && cc == (cx as int, cy as int))),
    {
        let ghost pre = self.cells@;
        let ghost idv = id@;
        let found = self.find_cell(cx, cy);
        match found {
            Some(ci) => {
                let mut cell = self.cells.remove(ci);
                let key = String::from_str(id);
                let mut k: usize = 0;
                let ghost precell = cell;
                while k < cell.ids.len() && string_differs(&cell.ids[k], &key)
                    invariant
                        0 <= k <= cell.ids@.len(),
                        cell == precell,
                        key@ == idv,
                        forall|l: int| 0 <= l < k ==> (#[trigger] cell.ids@[l])@ != idv,
                    decreases cell.ids@.len() - k,
                {
                    k += 1;
                }
                if k < cell.ids.len() {
                    assert(cell.ids@[k as int]@ == idv);
                    cell.ids.remove(k);
                }
                let ghost haskey = k < precell.ids@.len();
                self.cells.insert(ci, cell);
                proof {
                    let post = self.cells@;
                    assert(post =~= pre.update(ci as int, post[ci as int]));
                    let newcell = post[ci as int];
                    assert forall|a: int, b: int| 0 <= a < b < post.len() implies cell_coords(
                        post[a],
                    ) != cell_coords(post[b]) by {
                        assert(cell_coords(post[a]) == cell_coords(pre[a]));
                        assert(cell_coords(post[b]) == cell_coords(pre[b]));
                    }
                    if haskey {
                        assert(newcell.ids@ == precell.ids@.remove(k as int));
                        assert(precell.ids@[k as int]@ == idv);
                    } else {
                        assert(newcell == precell);
                        assert(!cell_has(precell, idv));
                    }
                    assert(seq_ids_nodup(precell.ids@));
                    assert forall|cj: int| 0 <= cj < post.len() implies seq_ids_nodup(
                        (#[trigger] post[cj]).ids@,
                    ) by {
                        if cj != ci {
                            assert(post[cj] == pre[cj]);
                        } else {
                            if haskey {
                                assert forall|a: int, b: int|
                                    0 <= a < b < newcell.ids@.len() implies newcell.ids@[a]@
                                    != newcell.ids@[b]@ by {
                                    let pa = if a < k { a } else { a + 1 };
                                    let pb = if b < k { b } else { b + 1 };
                                    assert(newcell.ids@[a] == precell.ids@[pa]);
                                    assert(newcell.ids@[b] == precell.ids@[pb]);
                                }
                            }
                        }
                    }
                    assert(!cell_has(newcell, idv)) by {
                        if cell_has(newcell, idv) {
                            let l = choose|l: int|
                                0 <= l < newcell.ids@.len() && (#[trigger] newcell.ids@[l])@
                                    == idv;
                            if haskey {
                                let pl = if l < k { l } else { l + 1 };
                                assert(precell.ids@[pl]@ == idv);
                                assert(precell.ids@[k as int]@ == idv);
                                if pl < k {
                                    assert(precell.ids@[pl]@ != precell.ids@[k as int]@);
                                } else {
                                    assert(precell.ids@[k as int]@ != precell.ids@[pl]@);
                                }
                            }
                        }
                    }
                    assert forall|id2: Seq<char>, cc: (int, int)| #[trigger] in_cell(
                        post,
                        id2,
                        cc,
                    ) implies (in_cell(pre, id2, cc) && !(id2 == idv && cc == (
                        cx as int,
                        cy as int,
                    ))) by {
                        let cj = choose|cj: int|
                            0 <= cj < post.len() && cell_coords(#[trigger] post[cj]) == cc
                                && cell_has(post[cj], id2);
                        if cj != ci {
                            assert(post[cj] == pre[cj]);
                            assert(in_cell(pre, id2, cc));
                            if id2 == idv && cc == (cx as int, cy as int) {
                                assert(cell_coords(pre[cj]) == cell_coords(pre[ci as int]));
                            }
                        } else {
                            assert(id2 != idv);
                            if haskey {
                                let l = choose|l: int|
                                    0 <= l < newcell.ids@.len() && (#[trigger] newcell.ids@[l])@
                                        == id2;
                                let pl = if l < k { l } else { l + 1 };
                                assert(precell.ids@[pl]@ == id2);
                                assert(cell_has(precell, id2));
                            }
                            assert(in_cell(pre, id2, cc));
                        }
                    }
                    assert forall|id2: Seq<char>, cc: (int, int)|
                        (in_cell(pre, id2, cc) && !(id2 == idv && cc == (
                            cx as int,
                            cy as int,
                        ))) implies #[trigger] in_cell(post, id2, cc) by {
                        let cj = choose|cj: int|
                            0 <= cj < pre.len() && cell_coords(#[trigger] pre[cj]) == cc
                                && cell_has(pre[cj], id2);
                        if cj != ci {
                            assert(post[cj] == pre[cj]);
                        } else {
                            assert(id2 != idv);
                            let l = choose|l: int|
                                0 <= l < precell.ids@.len() && (#[trigger] precell.ids@[l])@
                                    == id2;
                            if haskey {
                                let nl = if l < k {
                                    l
                                } else {
                                    l - 1
                                };
                                assert(l != k);
                                assert(newcell.ids@[nl] == precell.ids@[l]);
                                assert(cell_has(newcell, id2));
                            } else {
                                assert(cell_has(newcell, id2));
                            }
                        }
                    }
                }
            },
            None => {
                proof {
                    assert forall|id2: Seq<char>, cc: (int, int)| #[trigger] in_cell(
                        self.cells@,
                        id2,
                        cc,
                    ) implies (in_cell(pre, id2, cc) && !(id2 == idv && cc == (
                        cx as int,
                        cy as int,
                    ))) by {
                        if id2 == idv && cc == (cx as int, cy as int) {
                            let cj = choose|cj: int|
                                0 <= cj < pre.len() && cell_coords(#[trigger] pre[cj]) == cc
                                    && cell_has(pre[cj], id2);
                            assert(cell_coords(pre[cj]) == (cx as int, cy as int));
                        }
                    }
                }
            },
        }
    }
}

impl ObjectManager {
    /// Stores `object`, stamps it, enqueues it for scheduling and records it
    /// in the grid. An object already stored under the same id is replaced.
    pub fn add(&mut self, object: SceneObject)
        requires
            old(self).wf(),
            object.wf(),
        ensures
            final(self).wf(),
            final(self).spec_cell_size() == old(self).spec_cell_size(),
            final(self).obs() == old(self).obs().insert(object.id_seq(), object.obs()),
            !old(self).obs().contains_key(object.id_seq()) ==> final(self).queue() == old(self).queue().push(object.id_seq()),
            old(self).obs().contains_key(object.id_seq()) ==> final(self).queue() == old(self).queue().remove(queue_index_of(old(self).queue(), object.id_seq())).push(
                object.id_seq(),
            ),
    {
        let ghost m0 = self.obs();
        let ghost idv = object.id_seq();
        let idstr = String::from_str(object.id().value());
        if self.contains(idstr.as_str()) {
            let _ = self.remove(idstr.as_str());
            proof {
                assert(self.obs() == m0.remove(idv));
            }
        }
        let ghost m1 = self.obs();
        let ghost q1 = self.queue();
        proof {
            assert(!m1.contains_key(idv));
        }
        let (x, y) = object.position();
        let cx = floor_div(x, self.cell_size);
        let cy = floor_div(y, self.cell_size);
        let grid_id = String::from_str(idstr.as_str());
        let ghost pre = *self;
        let stamp = self.total_time;
        self.objects.push(ObjectRecord { object, last_update: stamp });
        self.update_queue.push(idstr);
        proof {
            lemma_obs_push(pre.objects@, self.objects@.last());
            assert(self.obs() == m1.insert(idv, self.objects@.last().object.obs()));
            assert(forall|cc: (int, int)| !in_cell(self.cells@, idv, cc)) by {
                assert forall|cc: (int, int)| in_cell(self.cells@, idv, cc) implies false by {
                    assert(m1.contains_key(idv));
                }
            }
        }
        self.grid_insert(grid_id, cx, cy);
        proof {
            let m2 = self.obs();
            let obj = self.objects@.last().object;
            assert(m2 == m1.insert(idv, obj.obs()));
            assert(cell_of(obj_pos(obj.obs()), self.cell_size) == (cx as int, cy as int));
            assert forall|id2: Seq<char>, cc: (int, int)| #[trigger] in_cell(
                self.cells@,
                id2,
                cc,
            ) implies m2.contains_key(id2) && cell_of(obj_pos(m2[id2]), self.cell_size) == cc by {
                if id2 == idv {
                    assert(cc == (cx as int, cy as int));
                } else {
                    assert(in_cell(pre.cells@, id2, cc));
                }
            }
            assert forall|id2: Seq<char>| #[trigger] m2.contains_key(id2) implies in_cell(
                self.cells@,
                id2,
                cell_of(obj_pos(m2[id2]), self.cell_size),
            ) by {
                if id2 != idv {
                    assert(m1.contains_key(id2));
                    assert(in_cell(pre.cells@, id2, cell_of(obj_pos(m1[id2]), self.cell_size)));
                }
            }
            assert(seq_ids_nodup(self.update_queue@)) by {
                let q = self.update_queue@;
                assert forall|i: int, j: int| 0 <= i < j < q.len() implies q[i]@ != q[j]@ by {
                    if j < q.len() - 1 {
                        assert(pre.update_queue@[i] == q[i] && pre.update_queue@[j] == q[j]);
                    } else {
                        assert(q[j]@ == idv);
                        assert(pre.update_queue@[i] == q[i]);
                        if q[i]@ == idv {
                            assert(m1.contains_key(idv));
                        }
                    }
                }
            }
            assert forall|i: int| 0 <= i < self.update_queue@.len() implies self.obs().contains_key(
                (#[trigger] self.update_queue@[i])@,
            ) by {
                if i < self.update_queue@.len() - 1 {
                    assert(self.update_queue@[i] == pre.update_queue@[i]);
                    assert(m1.contains_key(pre.update_queue@[i]@));
                }
            }
            assert forall|id2: Seq<char>| #[trigger] self.obs().contains_key(id2) implies seq_has_id(
                self.update_queue@,
                id2,
            ) by {
                if id2 == idv {
                    assert(self.update_queue@.last()@ == idv);
                } else {
                    assert(m1.contains_key(id2));
                    let w = choose|w: int|
                        0 <= w < pre.update_queue@.len() && (#[trigger] pre.update_queue@[w])@
                            == id2;
                    assert(self.update_queue@[w]@ == id2);
                }
            }
            assert(self.queue() =~= q1.push(idv));
            if m0.contains_key(idv) {
                assert(m1 == m0.remove(idv));
                assert(self.obs() =~= m0.insert(idv, self.objects@.last().object.obs()));
            }
        }
    }

    /// Detaches and returns the object stored under `id`: it leaves the
    /// arena, the scheduling queue and the grid. Nothing happens for an
    /// unknown id.
    pub fn remove(&mut self, id: &str) -> (r: Option<SceneObject>)
        requires
            old(self).wf(),
        ensures
            final(self).wf(),
            final(self).spec_cell_size() == old(self).spec_cell_size(),
            final(self).obs() == old(self).obs().remove(id@),
            r is Some <==> old(self).obs().contains_key(id@),
            r matches Some(o) ==> o.obs() == old(self).obs()[id@] && o.wf() && o.id_seq() == id@,
            old(self).obs().contains_key(id@) ==> final(self).queue() == old(self).queue().remove(
                queue_index_of(old(self).queue(), id@),
            ),
            !old(self).obs().contains_key(id@) ==> *final(self) == *old(self),
    {
        let found = self.find_record(id);
        match found {
            None => {
                proof {
                    assert(self.obs() =~= self.obs().remove(id@));
                }
                None
            },
            Some(idx) => {
                let ghost pre = *self;
                let ghost m0 = self.obs();
                let ghost idv = id@;
                proof {
                    lemma_recs_index_of(pre.objects@, idv, idx as int);
                    assert(m0.contains_key(idv));
                    assert(m0[idv] == pre.objects@[idx as int].object.obs());
                }
                let rec = self.objects.remove(idx);
                proof {
                    lemma_obs_remove(pre.objects@, idx as int);
                    assert(self.obs() == m0.remove(idv));
                    assert(rec.object.wf());
                }
                let key = String::from_str(id);
                let mut qi: usize = 0;
                while qi < self.update_queue.len() && string_differs(&self.update_queue[qi], &key)
                    invariant
                        0 <= qi <= self.update_queue@.len(),
                        self.update_queue@ == pre.update_queue@,
                        key@ == idv,
                        forall|l: int| 0 <= l < qi ==> (#[trigger] self.update_queue@[l])@ != idv,
                    decreases self.update_queue@.len() - qi,
                {
                    qi += 1;
                }
                proof {
                    assert(seq_has_id(pre.update_queue@, idv));
                    if qi == pre.update_queue@.len() {
                        let w = choose|w: int|
                            0 <= w < pre.update_queue@.len() && (#[trigger] pre.update_queue@[w])@
                                == idv;
                        assert(false);
                    }
                    assert(pre.update_queue@[qi as int]@ == idv);
                    lemma_queue_index_of(pre.update_queue@, idv, qi as int);
                }
                self.update_queue.remove(qi);
                let (x, y) = rec.object.position();
                let cs = self.cell_size;
                let cx = floor_div(x, cs);
                let cy = floor_div(y, cs);
                proof {
                    assert(cell_of(obj_pos(m0[idv]), cs) == (cx as int, cy as int));
                }
                self.grid_remove(id, cx, cy);
                proof {
                    let m1 = self.obs();
                    assert(m1 == m0.remove(idv));
                    assert forall|id2: Seq<char>, cc: (int, int)| #[trigger] in_cell(
                        self.cells@,
                        id2,
                        cc,
                    ) implies m1.contains_key(id2) && cell_of(obj_pos(m1[id2]), cs) == cc by {
                        assert(in_cell(pre.cells@, id2, cc));
                        assert(m0.contains_key(id2) && cell_of(obj_pos(m0[id2]), cs) == cc);
                        if id2 == idv {
                            assert(cc == (cx as int, cy as int));
                        }
                    }
                    assert forall|id2: Seq<char>| #[trigger] m1.contains_key(id2) implies in_cell(
                        self.cells@,
                        id2,
                        cell_of(obj_pos(m1[id2]), cs),
                    ) by {
                        assert(m0.contains_key(id2) && id2 != idv);
                        assert(in_cell(pre.cells@, id2, cell_of(obj_pos(m0[id2]), cs)));
                    }
                    let q0 = pre.update_queue@;
                    let q1 = self.update_queue@;
                    assert(q1 == q0.remove(qi as int));
                    assert forall|i: int, j: int| 0 <= i < j < q1.len() implies q1[i]@ != q1[j]@ by {
                        let pi = if i < qi {
                            i
                        } else {
                            i + 1
                        };
                        let pj = if j < qi {
                            j
                        } else {
                            j + 1
                        };
                        assert(q1[i] == q0[pi] && q1[j] == q0[pj]);
                    }
                    assert forall|i: int| 0 <= i < q1.len() implies m1.contains_key(
                        (#[trigger] q1[i])@,
                    ) by {
                        let pi = if i < qi {
                            i
                        } else {
                            i + 1
                        };
                        assert(q1[i] == q0[pi]);
                        assert(m0.contains_key(q0[pi]@));
                        if q0[pi]@ == idv {
                            if pi < qi {
                                assert(q0[pi]@ != q0[qi as int]@);
                            } else {
                                assert(q0[qi as int]@ != q0[pi]@);
                            }
                        }
                    }
                    assert forall|id2: Seq<char>| #[trigger] m1.contains_key(id2) implies seq_has_id(
                        q1,
                        id2,
                    ) by {
                        assert(m0.contains_key(id2));
                        let w = choose|w: int|
                            0 <= w < q0.len() && (#[trigger] q0[w])@ == id2;
                        assert(w != qi);
                        let nw = if w < qi {
                            w
                        } else {
                            w - 1
                        };
                        assert(q1[nw] == q0[w]);
                    }
                    assert(self.queue() =~= pre.queue().remove(queue_index_of(pre.queue(), idv)));
                }
                Some(rec.object)
            },
        }
    }

    /// Applies one patch to the object stored under `id`, relocating its
    /// grid membership when its cell changed; an unknown id is a no-op.
    pub fn update_object(&mut self, id: &str, data: &PropPatch)
        requires
            old(self).wf(),
        ensures
            final(self).wf(),
            final(self).spec_cell_size() == old(self).spec_cell_size(),
            final(self).obs() == spec_update_object(old(self).obs(), id@, data.entries@),
            final(self).queue() == old(self).queue(),
    {
        let found = self.find_record(id);
        match found {
            None => {},
            Some(idx) => {
                let ghost pre = *self;
                let ghost m0 = self.obs();
                let ghost idv = id@;
                let cs = self.cell_size;
                proof {
                    lemma_recs_index_of(pre.objects@, idv, idx as int);
                    assert(m0.contains_key(idv));
                    assert(m0[idv] == pre.objects@[idx as int].object.obs());
                }
                let mut rec = self.objects.remove(idx);
                let (ox, oy) = rec.object.position();
                let ocx = floor_div(ox, cs);
                let ocy = floor_div(oy, cs);
                rec.object.update(data);
                let (nx, ny) = rec.object.position();
                let ncx = floor_div(nx, cs);
                let ncy = floor_div(ny, cs);
                let ghost newobs = rec.object.obs();
                self.objects.insert(idx, rec);
                proof {
                    assert(self.objects@ =~= pre.objects@.update(idx as int, self.objects@[idx as int]));
                    lemma_obs_update(pre.objects@, idx as int, self.objects@[idx as int]);
                    assert(self.obs() == m0.insert(idv, newobs));
                    assert(newobs == updated_view(m0[idv], data.entries@));
                    assert(self.obs() == spec_update_object(m0, idv, data.entries@));
                    assert(cell_of(obj_pos(m0[idv]), cs) == (ocx as int, ocy as int));
                    assert(cell_of(obj_pos(newobs), cs) == (ncx as int, ncy as int));
                }
                let ghost m1 = self.obs();
                if ocx != ncx || ocy != ncy {
                    let ghost cells0 = self.cells@;
                    self.grid_remove(id, ocx, ocy);
                    proof {
                        assert forall|cc: (int, int)| !in_cell(self.cells@, idv, cc) by {
                            if in_cell(self.cells@, idv, cc) {
                                assert(in_cell(cells0, idv, cc));
                                assert(cell_of(obj_pos(m0[idv]), cs) == cc);
                                assert(cc != (ocx as int, ocy as int));
                            }
                        }
                    }
                    let grid_id = String::from_str(id);
                    self.grid_insert(grid_id, ncx, ncy);
                    proof {
                        assert forall|id2: Seq<char>, cc: (int, int)| #[trigger] in_cell(
                            self.cells@,
                            id2,
                            cc,
                        ) implies m1.contains_key(id2) && cell_of(obj_pos(m1[id2]), cs) == cc by {
                            if id2 == idv && cc == (ncx as int, ncy as int) {
                            } else {
                                assert(in_cell(cells0, id2, cc) && !(id2 == idv && cc == (
                                    ocx as int,
                                    ocy as int,
                                )));
                                assert(m0.contains_key(id2) && cell_of(obj_pos(m0[id2]), cs) == cc);
                                assert(id2 != idv);
                            }
                        }
                        assert forall|id2: Seq<char>| #[trigger] m1.contains_key(
                            id2,
                        ) implies in_cell(self.cells@, id2, cell_of(obj_pos(m1[id2]), cs)) by {
                            if id2 == idv {
                            } else {
                                assert(m0.contains_key(id2));
                                assert(in_cell(cells0, id2, cell_of(obj_pos(m0[id2]), cs)));
                            }
                        }
                    }
                } else {
                    proof {
                        assert forall|id2: Seq<char>, cc: (int, int)| #[trigger] in_cell(
                            self.cells@,
                            id2,
                            cc,
                        ) implies m1.contains_key(id2) && cell_of(obj_pos(m1[id2]), cs) == cc by {
                            assert(m0.contains_key(id2) && cell_of(obj_pos(m0[id2]), cs) == cc);
                            if id2 == idv {
                                assert(cell_of(obj_pos(m1[idv]), cs) == (ncx as int, ncy as int));
                            }
                        }
                        assert forall|id2: Seq<char>| #[trigger] m1.contains_key(
                            id2,
                        ) implies in_cell(self.cells@, id2, cell_of(obj_pos(m1[id2]), cs)) by {
                            assert(m0.contains_key(id2));
                            assert(in_cell(self.cells@, id2, cell_of(obj_pos(m0[id2]), cs)));
                            if id2 == idv {
                                assert(cell_of(obj_pos(m1[idv]), cs) == cell_of(
                                    obj_pos(m0[idv]),
                                    cs,
                                ));
                            }
                        }
                    }
                }
                proof {
                    assert forall|i: int| 0 <= i < self.update_queue@.len() implies self.obs()
                        .contains_key((#[trigger] self.update_queue@[i])@) by {
                        assert(m0.contains_key(self.update_queue@[i]@));
                    }
                    assert forall|id2: Seq<char>| #[trigger] self.obs().contains_key(
                        id2,
                    ) implies seq_has_id(self.update_queue@, id2) by {
                        assert(m0.contains_key(id2));
                    }
                }
            },
        }
    }

    /// Applies a whole batch: each object-targeted update in arrival order;
    /// force signals, scene updates and updates for unknown ids are no-ops
    /// here.
    pub fn update_object_from_message(&mut self, messages: &Vec<UpdateMessage>)
        requires
            old(self).wf(),
        ensures
            final(self).wf(),
            final(self).spec_cell_size() == old(self).spec_cell_size(),
            final(self).obs() == apply_messages_map(old(self).obs(), messages@),
            final(self).queue() == old(self).queue(),
    {
        let ghost m0 = self.obs();
        let mut i: usize = 0;
        while i < messages.len()
            invariant
                0 <= i <= messages@.len(),
                self.wf(),
                self.spec_cell_size() == old(self).spec_cell_size(),
                self.queue() == old(self).queue(),
                m0 == old(self).obs(),
                self.obs() == apply_messages_map(m0, messages@.take(i as int)),
            decreases messages@.len() - i,
        {
            let ghost mcur = self.obs();
            match &messages[i] {
                UpdateMessage::Update(body) => {
                    match &body.update_type {
                        UpdateType::ObjectUpdate(oid) => {
                            self.update_object(oid.as_str(), &body.data);
                        },
                        UpdateType::SceneUpdate => {},
                    }
                },
                UpdateMessage::ForceUpdate => {},
            }
            proof {
                assert(self.obs() == apply_message_map(mcur, messages@[i as int]));
                lemma_apply_messages_snoc(m0, messages@.take(i as int), messages@[i as int]);
                assert(messages@.take(i as int) + seq![messages@[i as int]] =~= messages@.take(
                    i + 1,
                ));
            }
            i += 1;
        }
        proof {
            assert(messages@.take(messages@.len() as int) =~= messages@);
        }
    }

    /// Takes up to `max_updates` object ids from the front of the
    /// round-robin queue for incremental work, advances the scheduling
    /// clock, stamps the taken objects with it, and re-enqueues them at the
    /// back. This bounds per-pass work independently of the scene size, and
    /// every object is visited within a bounded number of passes.
    #[verifier::rlimit(60)]
    pub fn take_update_batch(&mut self, max_updates: usize, now_ms: u64) -> (r: Vec<String>)
        requires
            old(self).wf(),
        ensures
            final(self).wf(),
            final(self).obs() == old(self).obs(),
            final(self).spec_cell_size() == old(self).spec_cell_size(),
            ({
                let k = if max_updates < old(self).queue().len() {
                    max_updates as int
                } else {
                    old(self).queue().len() as int
                };
                &&& r@.map_values(|s: String| s@) == old(self).queue().take(k)
                &&& final(self).queue() == old(self).queue().skip(k) + old(self).queue().take(k)
                &&& forall|x: int|
                    0 <= x < k ==> final(self).stamp(#[trigger] old(self).queue()[x]) == final(self).spec_total_time()
                &&& forall|x: int|
                    k <= x < old(self).queue().len() ==> final(self).stamp(
                        #[trigger] old(self).queue()[x],
                    ) == old(self).stamp(old(self).queue()[x])
            }),
            final(self).spec_total_time() == (if now_ms >= old(self).spec_total_time() {
                now_ms
            } else {
                old(self).spec_total_time()
            }),
    {
        let ghost m0 = self.obs();
        let ghost q0 = self.update_queue@;
        if now_ms >= self.total_time {
            self.total_time = now_ms;
        }
        let k = if max_updates < self.update_queue.len() {
            max_updates
        } else {
            self.update_queue.len()
        };
        let mut taken = self.update_queue.split_off(k);
        core::mem::swap(&mut self.update_queue, &mut taken);
        proof {
            assert(taken@ == q0.take(k as int));
            assert(self.update_queue@ == q0.skip(k as int));
            assert(self.update_queue@ =~= q0.skip(k as int) + q0.take(k as int).take(0));
        }
        let stamp = self.total_time;
        let mut i: usize = 0;
        while i < taken.len()
            invariant
                0 <= i <= taken@.len(),
                taken@ == q0.take(k as int),
                k <= q0.len(),
                recs_unique(self.objects@),
                recs_wf(self.objects@),
                recs_map(self.objects@) == m0,
                self.cells@ == old(self).cells@,
                self.cell_size == old(self).cell_size,
                self.total_time == (if now_ms >= old(self).spec_total_time() {
                    now_ms
                } else {
                    old(self).spec_total_time()
                }),
                grid_matches(self.cells@, m0, self.cell_size),
                self.update_queue@ =~= q0.skip(k as int) + q0.take(k as int).take(i as int),
                stamp == self.total_time,
                queue_matches(q0, m0),
                self.objects@.len() == old(self).objects@.len(),
                forall|a: int|
                    0 <= a < self.objects@.len() ==> (#[trigger] self.objects@[a]).object == old(self).objects@[a].object,
                forall|a: int|
                    0 <= a < self.objects@.len() && !seq_has_id(
                        q0.take(k as int).take(i as int),
                        rec_id(#[trigger] self.objects@[a]),
                    ) ==> self.objects@[a].last_update == old(self).objects@[a].last_update,
                forall|a: int|
                    0 <= a < self.objects@.len() && seq_has_id(
                        q0.take(k as int).take(i as int),
                        rec_id(#[trigger] self.objects@[a]),
                    ) ==> self.objects@[a].last_update == stamp,
            decreases taken@.len() - i,
        {
            let id = taken[i].clone();
            proof {
                assert(id == q0[i as int]);
            }
            let found = self.find_record(id.as_str());
            match found {
                Some(idx) => {
                    proof {
                        lemma_recs_index_of(self.objects@, id@, idx as int);
                    }
                    let ghost pre_recs = self.objects@;
                    let mut rec = self.objects.remove(idx);
                    rec.last_update = stamp;
                    self.objects.insert(idx, rec);
                    proof {
                        assert(self.objects@ =~= pre_recs.update(
                            idx as int,
                            self.objects@[idx as int],
                        ));
                        lemma_obs_update(pre_recs, idx as int, self.objects@[idx as int]);
                        assert(self.objects@[idx as int].object == pre_recs[idx as int].object);
                        assert(recs_map(self.objects@) =~= m0);
                        assert forall|a: int|
                            0 <= a < self.objects@.len() implies (
                        #[trigger] self.objects@[a]).object.wf() by {
                            assert(self.objects@[a].object == pre_recs[a].object);
                        }
                        let prefix1 = q0.take(k as int).take(i + 1);
                        assert(q0.take(k as int).take(i as int).push(q0[i as int]) =~= prefix1);
                        assert(seq_has_id(prefix1, id@)) by {
                            assert(prefix1[i as int]@ == id@);
                        }
                        assert forall|a: int|
                            0 <= a < self.objects@.len() && seq_has_id(
                                prefix1,
                                rec_id(#[trigger] self.objects@[a]),
                            ) implies self.objects@[a].last_update == stamp by {
                            if a != idx {
                                assert(self.objects@[a] == pre_recs[a]);
                                if rec_id(pre_recs[a]) == id@ {
                                    if a < idx {
                                        assert(rec_id(pre_recs[a]) != rec_id(pre_recs[idx as int]));
                                    } else {
                                        assert(rec_id(pre_recs[idx as int]) != rec_id(pre_recs[a]));
                                    }
                                }
                                let w = choose|w: int|
                                    0 <= w < prefix1.len() && (#[trigger] prefix1[w])@ == rec_id(
                                        pre_recs[a],
                                    );
                                if w < i {
                                    assert(seq_has_id(
                                        q0.take(k as int).take(i as int),
                                        rec_id(pre_recs[a]),
                                    )) by {
                                        assert(q0.take(k as int).take(i as int)[w]@ == rec_id(
                                            pre_recs[a],
                                        ));
                                    }
                                }
                            }
                        }
                        assert forall|a: int|
                            0 <= a < self.objects@.len() && !seq_has_id(
                                prefix1,
                                rec_id(#[trigger] self.objects@[a]),
                            ) implies self.objects@[a].last_update == old(self).objects@[a].last_update by {
                            assert(a != idx);
                            assert(self.objects@[a] == pre_recs[a]);
                            if seq_has_id(q0.take(k as int).take(i as int), rec_id(pre_recs[a])) {
                                let w = choose|w: int|
                                    0 <= w < q0.take(k as int).take(i as int).len() && (
                                    #[trigger] q0.take(k as int).take(i as int)[w])@ == rec_id(
                                        pre_recs[a],
                                    );
                                assert(prefix1[w]@ == rec_id(pre_recs[a]));
                            }
                        }
                    }
                },
                None => {
                    proof {
                        assert(m0.contains_key(id@)) by {
                            assert(q0[i as int]@ == id@);
                        }
                        assert(false);
                    }
                },
            }
            self.update_queue.push(id);
            proof {
                assert(self.update_queue@ =~= q0.skip(k as int) + q0.take(k as int).take(i + 1));
            }
            i += 1;
        }
        proof {
            assert(q0.take(k as int).take(k as int) =~= q0.take(k as int));
            let q1 = self.update_queue@;
            assert(q1 =~= q0.skip(k as int) + q0.take(k as int));
            let n = q0.len() as int;
            assert forall|a: int| 0 <= a < q1.len() implies #[trigger] id_views(q1)[a]
                == (old(self).queue().skip(k as int) + old(self).queue().take(k as int))[a] by {
                let pa = if a < n - k {
                    a + k
                } else {
                    a - (n - k)
                };
                assert(q1[a] == q0[pa]);
                assert(id_views(q1)[a] == q1[a]@);
                assert(id_views(q0)[pa] == q0[pa]@);
            }
            assert(self.queue() =~= old(self).queue().skip(k as int) + old(self).queue().take(
                k as int,
            ));
            assert forall|a: int| 0 <= a < taken@.len() implies #[trigger] id_views(taken@)[a]
                == old(self).queue().take(k as int)[a] by {
                assert(taken@[a] == q0[a]);
                assert(id_views(taken@)[a] == taken@[a]@);
                assert(id_views(q0)[a] == q0[a]@);
            }
            assert(id_views(taken@) =~= old(self).queue().take(k as int));
            assert forall|a: int| 0 <= a < taken@.len() implies id_views(taken@)[a]
                == #[trigger] taken@[a]@ by {}
            assert(taken@.map_values(|s: String| s@) =~= old(self).queue().take(k as int));
            assert forall|a: int, b: int| 0 <= a < b < q1.len() implies q1[a]@ != q1[b]@ by {
                let pa = if a < n - k {
                    a + k
                } else {
                    a - (n - k)
                };
                let pb = if b < n - k {
                    b + k
                } else {
                    b - (n - k)
                };
                assert(q1[a] == q0[pa]);
                assert(q1[b] == q0[pb]);
                if pa < pb {
                    assert(q0[pa]@ != q0[pb]@);
                } else {
                    assert(q0[pb]@ != q0[pa]@);
                }
            }
            assert forall|j: int| 0 <= j < q1.len() implies recs_map(self.objects@).contains_key(
                (#[trigger] q1[j])@,
            ) by {
                let pj = if j < n - k {
                    j + k
                } else {
                    j - (n - k)
                };
                assert(q1[j] == q0[pj]);
                assert(m0.contains_key(q0[pj]@));
            }
            assert forall|id2: Seq<char>| #[trigger]
                recs_map(self.objects@).contains_key(id2) implies seq_has_id(q1, id2) by {
                assert(m0.contains_key(id2));
                let w = choose|w: int| 0 <= w < q0.len() && (#[trigger] q0[w])@ == id2;
                let nw = if w < k {
                    w + (n - k)
                } else {
                    w - k
                };
                assert(q1[nw] == q0[w]);
            }
            let s0 = old(self).objects@;
            let s1 = self.objects@;
            let clock = self.total_time;
            assert forall|a: int, b: int| 0 <= a < b < s1.len() implies rec_id(s1[a]) != rec_id(
                s1[b],
            ) by {
                assert(rec_id(s1[a]) == rec_id(s0[a]) && rec_id(s1[b]) == rec_id(s0[b]));
            }
            assert forall|x: int| 0 <= x < k implies rec_stamp(s1, (#[trigger] q0[x])@)
                == clock by {
                let id2 = q0[x]@;
                assert(m0.contains_key(id2));
                let a = recs_index(s0, id2);
                assert(0 <= a < s0.len() && rec_id(s0[a]) == id2);
                assert(rec_id(s1[a]) == id2);
                lemma_recs_index_of(s1, id2, a);
                assert(seq_has_id(q0.take(k as int), id2)) by {
                    assert(q0.take(k as int)[x]@ == id2);
                }
                assert(s1[a].last_update == stamp);
            }
            assert forall|x: int| k <= x < q0.len() implies rec_stamp(s1, (#[trigger] q0[x])@)
                == rec_stamp(s0, (q0[x])@) by {
                let id2 = q0[x]@;
                assert(m0.contains_key(id2));
                let a = recs_index(s0, id2);
                assert(0 <= a < s0.len() && rec_id(s0[a]) == id2);
                assert(rec_id(s1[a]) == id2);
                lemma_recs_index_of(s1, id2, a);
                assert(!seq_has_id(q0.take(k as int), id2)) by {
                    if seq_has_id(q0.take(k as int), id2) {
                        let w = choose|w: int|
                            0 <= w < q0.take(k as int).len() && (#[trigger] q0.take(k as int)[w])@
                                == id2;
                        assert(q0[w]@ != q0[x]@);
                    }
                }
                assert(s1[a].last_update == s0[a].last_update);
            }
            assert forall|x: int| 0 <= x < q0.len() implies #[trigger] old(self).queue()[x] == q0[
                x]@ by {
                assert(id_views(q0)[x] == q0[x]@);
            }
            assert forall|a: int| 0 <= a < s1.len() implies (#[trigger] s1[a]).last_update
                <= clock by {
                if seq_has_id(q0.take(k as int), rec_id(s1[a])) {
                } else {
                    assert(s1[a].last_update == s0[a].last_update);
                    assert(s0[a].last_update <= old(self).spec_total_time());
                }
            }
            assert forall|x: int, y: int| 0 <= x < y < q1.len() implies rec_stamp(
                s1,
                (#[trigger] q1[x])@,
            ) <= rec_stamp(s1, (#[trigger] q1[y])@) by {
                let px = if x < n - k {
                    x + k
                } else {
                    x - (n - k)
                };
                let py = if y < n - k {
                    y + k
                } else {
                    y - (n - k)
                };
                assert(q1[x] == q0[px]);
                assert(q1[y] == q0[py]);
                let idx2 = q0[px]@;
                let idy2 = q0[py]@;
                assert(m0.contains_key(idx2)) by {
                    assert(old(self).update_queue@[px]@ == idx2);
                }
                assert(m0.contains_key(idy2)) by {
                    assert(old(self).update_queue@[py]@ == idy2);
                }
                let ax = recs_index(s0, idx2);
                let ay = recs_index(s0, idy2);
                assert(0 <= ax < s0.len() && rec_id(s0[ax]) == idx2);
                assert(0 <= ay < s0.len() && rec_id(s0[ay]) == idy2);
                assert(rec_id(s1[ax]) == idx2);
                assert(rec_id(s1[ay]) == idy2);
                lemma_recs_index_of(s1, idx2, ax);
                lemma_recs_index_of(s1, idy2, ay);
                assert(rec_stamp(s1, idx2) == s1[ax].last_update);
                assert(rec_stamp(s1, idy2) == s1[ay].last_update);
                if y < n - k {
                    // Both untaken: their stamps are unchanged and the old
                    // queue was ascending.
                    assert(!seq_has_id(q0.take(k as int), idx2)) by {
                        if seq_has_id(q0.take(k as int), idx2) {
                            let w = choose|w: int|
                                0 <= w < q0.take(k as int).len() && (#[trigger] q0.take(
                                    k as int,
                                )[w])@ == idx2;
                            assert(q0[w]@ != q0[px]@);
                        }
                    }
                    assert(!seq_has_id(q0.take(k as int), idy2)) by {
                        if seq_has_id(q0.take(k as int), idy2) {
                            let w = choose|w: int|
                                0 <= w < q0.take(k as int).len() && (#[trigger] q0.take(
                                    k as int,
                                )[w])@ == idy2;
                            assert(q0[w]@ != q0[py]@);
                        }
                    }
                    assert(s1[ax].last_update == s0[ax].last_update);
                    assert(s1[ay].last_update == s0[ay].last_update);
                    assert(rec_stamp(s0, (old(self).update_queue@[px])@) <= rec_stamp(
                        s0,
                        (old(self).update_queue@[py])@,
                    ));
                } else if x < n - k {
                    // Untaken before taken: an unchanged stamp is at most
                    // the old clock, a fresh stamp is the new clock.
                    assert(!seq_has_id(q0.take(k as int), idx2)) by {
                        if seq_has_id(q0.take(k as int), idx2) {
                            let w = choose|w: int|
                                0 <= w < q0.take(k as int).len() && (#[trigger] q0.take(
                                    k as int,
                                )[w])@ == idx2;
                            assert(q0[w]@ != q0[px]@);
                        }
                    }
                    assert(s1[ax].last_update == s0[ax].last_update);
                    assert(s0[ax].last_update <= old(self).spec_total_time());
                    assert(seq_has_id(q0.take(k as int), idy2)) by {
                        assert(q0.take(k as int)[py]@ == idy2);
                    }
                    assert(s1[ay].last_update == stamp);
                } else {
                    // Both taken: both carry the fresh stamp.
                    assert(seq_has_id(q0.take(k as int), idx2)) by {
                        assert(q0.take(k as int)[px]@ == idx2);
                    }
                    assert(seq_has_id(q0.take(k as int), idy2)) by {
                        assert(q0.take(k as int)[py]@ == idy2);
                    }
                    assert(s1[ax].last_update == stamp);
                    assert(s1[ay].last_update == stamp);
                }
            }
        }
        taken
    }

    /// Empties the store: objects, queue and grid.
    pub fn clear(&mut self)
        ensures
            old(self).wf() ==> final(self).wf(),
            final(self).obs() == Map::<Seq<char>, ObjView>::empty(),
            final(self).queue() == Seq::<Seq<char>>::empty(),
            final(self).spec_cell_size() == old(self).spec_cell_size(),
    {
        self.objects.clear();
        self.update_queue.clear();
        self.cells.clear();
        proof {
            assert(self.obs() =~= Map::<Seq<char>, ObjView>::empty());
            assert(self.queue() =~= Seq::<Seq<char>>::empty());
        }
    }
}

/// Whether the cell `(cx, cy)` lies within `rings` rings of `(c0x, c0y)`.
fn cell_within(cx: i64, cy: i64, c0x: i64, c0y: i64, rings: i64) -> (r: bool)
    ensures
        r == chebyshev_le((cx as int, cy as int), (c0x as int, c0y as int), rings as int),
{
    let dx = if cx >= c0x {
        (cx as i128) - (c0x as i128)
    } else {
        (c0x as i128) - (cx as i128)
    };
    let dy = if cy >= c0y {
        (cy as i128) - (c0y as i128)
    } else {
        (c0y as i128) - (cy as i128)
    };
    dx <= rings as i128 && dy <= rings as i128
}

/// Whether the position `(px, py)` lies within `radius` of `(qx, qy)`,
/// by squared distance in wide arithmetic.
fn position_within_radius(px: i64, py: i64, qx: i64, qy: i64, radius: i64) -> (r: bool)
    requires
        0 <= radius,
    ensures
        r == within_radius((px, py), (qx, qy), radius),
{
    let dx = (px as i128) - (qx as i128);
    let dy = (py as i128) - (qy as i128);
    let dxa: u128 = if dx < 0 {
        (-dx) as u128
    } else {
        dx as u128
    };
    let dya: u128 = if dy < 0 {
        (-dy) as u128
    } else {
        dy as u128
    };
    let rad = radius as u128;
    proof {
        assert(dxa as int == (if px >= qx {
            px - qx
        } else {
            qx - px
        }));
        assert(dya as int == (if py >= qy {
            py - qy
        } else {
            qy - py
        }));
    }
    if dxa > rad || dya > rad {
        proof {
            let a = dxa as int;
            let b = dya as int;
            let dxi = px as int - qx as int;
            let dyi = py as int - qy as int;
            assert(dxi * dxi + dyi * dyi > radius * radius) by (nonlinear_arith)
                requires
                    a == dxi || a == -dxi,
                    b == dyi || b == -dyi,
                    a >= 0,
                    b >= 0,
                    radius >= 0,
                    a > radius || b > radius,
            ;
        }
        false
    } else {
        proof {
            let a = dxa as int;
            let b = dya as int;
            assert(a * a + b * b < 0x8000_0000_0000_0000_0000_0000_0000_0000) by (nonlinear_arith)
                requires
                    0 <= a <= rad as int,
                    0 <= b <= rad as int,
                    (rad as int) < 0x8000_0000_0000_0000,
            ;
            assert((rad as int) * (rad as int) < 0x8000_0000_0000_0000_0000_0000_0000_0000)
                by (nonlinear_arith)
                requires
                    0 <= (rad as int) < 0x8000_0000_0000_0000,
            ;
        }
        let sum = dxa * dxa + dya * dya;
        let r = sum <= rad * rad;
        proof {
            let a = dxa as int;
            let b = dya as int;
            let dxi = px as int - qx as int;
            let dyi = py as int - qy as int;
            assert(a * a + b * b == dxi * dxi + dyi * dyi) by (nonlinear_arith)
                requires
                    a == dxi || a == -dxi,
                    b == dyi || b == -dyi,
            ;
        }
        r
    }
}

/// A squared distance within the radius bounds each axis by the radius.
proof fn lemma_axis_bound(dx: int, dy: int, radius: int)
    requires
        radius >= 0,
        dx * dx + dy * dy <= radius * radius,
    ensures
        -radius <= dx <= radius,
        -radius <= dy <= radius,
{
    assert(-radius <= dx <= radius && -radius <= dy <= radius) by (nonlinear_arith)
        requires
            radius >= 0,
            dx * dx + dy * dy <= radius * radius,
    ;
}

/// Stepping a dividend up by at most `t` moves its floor quotient up by at
/// most `ceil(t / c)`.
proof fn lemma_floor_div_shift(x: int, t: int, c: int)
    requires
        c >= 1,
        0 <= t,
    ensures
        (x + t) / c <= x / c + (t + c - 1) / c,
{
    let k = x / c;
    let s = x % c;
    lemma_fundamental_div_mod(x, c);
    lemma_mod_bound(x, c);
    let q2 = (s + t) / c;
    let r2 = (s + t) % c;
    lemma_fundamental_div_mod(s + t, c);
    lemma_mod_bound(s + t, c);
    assert(x + t == (k + q2) * c + r2) by (nonlinear_arith)
        requires
            x == c * k + s,
            s + t == c * q2 + r2,
    ;
    lemma_fundamental_div_mod_converse(x + t, c, k + q2, r2);
    lemma_div_is_ordered(s + t, t + c - 1, c);
}

/// Positions at most `radius` apart lie at most `ceil(radius / cell_size)`
/// cells apart: the ring candidate search covers every position within the
/// radius.
proof fn lemma_cell_gap_bounded(p: i64, q: i64, cell_size: i64, radius: i64)
    requires
        cell_size >= 1,
        radius >= 0,
        -(radius as int) <= p - q <= radius as int,
    ensures
        (q as int) / (cell_size as int) - ring_count(radius, cell_size) <= (p as int) / (
        cell_size as int) <= (q as int) / (cell_size as int) + ring_count(radius, cell_size),
{
    let c = cell_size as int;
    lemma_div_is_ordered(p as int, q as int + radius, c);
    lemma_floor_div_shift(q as int, radius as int, c);
    lemma_div_is_ordered(q as int, p as int + radius, c);
    lemma_floor_div_shift(p as int, radius as int, c);
}

impl ObjectManager {
    /// The configured cell size.
    pub fn cell_size(&self) -> (r: i64)
        ensures
            r == self.spec_cell_size(),
    {
        self.cell_size
    }

    /// The ids of all objects whose position lies within `radius` of
    /// `pos` (set semantics: no duplicates, order carries no meaning). The
    /// grid narrows the search to `ceil(radius / cell_size)` rings of cells
    /// around the query cell; candidates are then kept only when their
    /// actual position is within the radius.
    pub fn get_nearby(&self, pos: (i64, i64), radius: i64) -> (r: Vec<String>)
        requires
            self.wf(),
            0 <= radius,
            radius + self.spec_cell_size() - 1 <= i64::MAX,
        ensures
            forall|id: Seq<char>| #[trigger]
                seq_has_id(r@, id) <==> nearby(self.obs(), pos, radius, id),
            seq_ids_nodup(r@),
    {
        let cs = self.cell_size;
        let c0x = floor_div(pos.0, cs);
        let c0y = floor_div(pos.1, cs);
        let rings = ceil_div(radius, cs);
        let ghost target = cell_of(pos, cs);
        let ghost rr = ring_count(radius, cs);
        let ghost m = self.obs();
        let mut out: Vec<String> = Vec::new();
        let mut ci: usize = 0;
        while ci < self.cells.len()
            invariant
                0 <= ci <= self.cells@.len(),
                self.wf(),
                cs == self.spec_cell_size(),
                m == self.obs(),
                0 <= radius,
                target == cell_of(pos, cs),
                rr == ring_count(radius, cs),
                c0x as int == target.0,
                c0y as int == target.1,
                rings as int == rr,
                seq_ids_nodup(out@),
                forall|id: Seq<char>| #[trigger]
                    seq_has_id(out@, id) <==> (exists|cj: int|
                        0 <= cj < ci && chebyshev_le(
                            cell_coords(#[trigger] self.cells@[cj]),
                            target,
                            rr,
                        ) && cell_has(self.cells@[cj], id)) && m.contains_key(id) && within_radius(
                        obj_pos(m[id]),
                        pos,
                        radius,
                    ),
            decreases self.cells@.len() - ci,
        {
            let within_rings = cell_within(self.cells[ci].cx, self.cells[ci].cy, c0x, c0y, rings);
            let ghost pre_out = out@;
            if within_rings {
                let mut k: usize = 0;
                while k < self.cells[ci].ids.len()
                    invariant
                        0 <= k <= self.cells@[ci as int].ids@.len(),
                        ci < self.cells@.len(),
                        self.wf(),
                        m == self.obs(),
                        cs == self.spec_cell_size(),
                        0 <= radius,
                        target == cell_of(pos, cs),
                        rr == ring_count(radius, cs),
                        chebyshev_le(cell_coords(self.cells@[ci as int]), target, rr),
                        seq_ids_nodup(out@),
                        seq_ids_nodup(pre_out),
                        pre_out.len() <= out@.len(),
                        forall|w: int| 0 <= w < pre_out.len() ==> out@[w] == pre_out[w],
                        forall|id: Seq<char>| #[trigger]
                            seq_has_id(pre_out, id) <==> (exists|cj: int|
                                0 <= cj < ci && chebyshev_le(
                                    cell_coords(#[trigger] self.cells@[cj]),
                                    target,
                                    rr,
                                ) && cell_has(self.cells@[cj], id)) && m.contains_key(id)
                                && within_radius(obj_pos(m[id]), pos, radius),
                        forall|id: Seq<char>| #[trigger]
                            seq_has_id(out@, id) <==> seq_has_id(pre_out, id) || (exists|kk: int|
                                0 <= kk < k && (#[trigger] self.cells@[ci as int].ids@[kk])@ == id
                                    && m.contains_key(id) && within_radius(
                                    obj_pos(m[id]),
                                    pos,
                                    radius,
                                )),
                    decreases self.cells@[ci as int].ids@.len() - k,
                {
                    let ghost cells = self.cells@;
                    let ghost cell = cells[ci as int];
                    let candidate = &self.cells[ci].ids[k];
                    let ghost idv = candidate@;
                    proof {
                        assert(cell_has(cell, idv)) by {
                            assert(cell.ids@[k as int]@ == idv);
                        }
                        assert(in_cell(cells, idv, cell_coords(cell)));
                        assert(m.contains_key(idv));
                    }
                    let found = self.find_record(candidate.as_str());
                    match found {
                        Some(idx) => {
                            proof {
                                lemma_recs_index_of(self.objects@, idv, idx as int);
                            }
                            let (ox, oy) = self.objects[idx].object.position();
                            proof {
                                assert((ox, oy) == obj_pos(m[idv]));
                            }
                            let keep = position_within_radius(ox, oy, pos.0, pos.1, radius);
                            if keep {
                                proof {
                                    assert(!seq_has_id(out@, idv)) by {
                                        if seq_has_id(pre_out, idv) {
                                            let cj = choose|cj: int|
                                                0 <= cj < ci && chebyshev_le(
                                                    cell_coords(#[trigger] cells[cj]),
                                                    target,
                                                    rr,
                                                ) && cell_has(cells[cj], idv);
                                            assert(in_cell(cells, idv, cell_coords(cells[cj])));
                                            assert(cell_of(obj_pos(m[idv]), cs) == cell_coords(
                                                cells[cj],
                                            ));
                                            assert(cell_of(obj_pos(m[idv]), cs) == cell_coords(
                                                cell,
                                            ));
                                            assert(cell_coords(cells[cj]) == cell_coords(
                                                cells[ci as int],
                                            ));
                                            assert(cj != ci);
                                        }
                                        if exists|kk: int|
                                            0 <= kk < k && (#[trigger] cell.ids@[kk])@ == idv
                                                && m.contains_key(idv) && within_radius(
                                                obj_pos(m[idv]),
                                                pos,
                                                radius,
                                            ) {
                                            let kk = choose|kk: int|
                                                0 <= kk < k && (#[trigger] cell.ids@[kk])@ == idv
                                                    && m.contains_key(idv) && within_radius(
                                                    obj_pos(m[idv]),
                                                    pos,
                                                    radius,
                                                );
                                            assert(cell.ids@[kk]@ != cell.ids@[k as int]@);
                                        }
                                    }
                                }
                                let owned = String::from_str(candidate.as_str());
                                let ghost out_pre = out@;
                                out.push(owned);
                                proof {
                                    assert(out@ == out_pre.push(out@.last()));
                                    assert(out@.last()@ == idv);
                                    assert forall|id: Seq<char>| #[trigger]
                                        seq_has_id(out@, id) implies seq_has_id(pre_out, id) || (
                                    exists|kk: int|
                                        0 <= kk < k + 1 && (#[trigger] cell.ids@[kk])@ == id
                                            && m.contains_key(id) && within_radius(
                                            obj_pos(m[id]),
                                            pos,
                                            radius,
                                        )) by {
                                        let w = choose|w: int|
                                            0 <= w < out@.len() && (#[trigger] out@[w])@ == id;
                                        if w < out@.len() - 1 {
                                            assert(seq_has_id(out_pre, id)) by {
                                                assert(out_pre[w]@ == id);
                                            }
                                        } else {
                                            assert(id == idv);
                                            assert(cell.ids@[k as int]@ == id);
                                        }
                                    }
                                    assert forall|id: Seq<char>|
                                        seq_has_id(pre_out, id) || (exists|kk: int|
                                            0 <= kk < k + 1 && (#[trigger] cell.ids@[kk])@ == id
                                                && m.contains_key(id) && within_radius(
                                                obj_pos(m[id]),
                                                pos,
                                                radius,
                                            )) implies #[trigger] seq_has_id(out@, id) by {
                                        if seq_has_id(pre_out, id) {
                                            let w = choose|w: int|
                                                0 <= w < pre_out.len() && (#[trigger] pre_out[w])@
                                                    == id;
                                            assert(out_pre[w]@ == id);
                                            assert(out@[w]@ == id);
                                        } else if id == idv {
                                            assert(out@.last()@ == id);
                                        } else {
                                            let kk = choose|kk: int|
                                                0 <= kk < k + 1 && (#[trigger] cell.ids@[kk])@
                                                    == id && m.contains_key(id) && within_radius(
                                                    obj_pos(m[id]),
                                                    pos,
                                                    radius,
                                                );
                                            assert(kk < k);
                                            assert(seq_has_id(out_pre, id));
                                            let w = choose|w: int|
                                                0 <= w < out_pre.len() && (#[trigger] out_pre[w])@
                                                    == id;
                                            assert(out@[w]@ == id);
                                        }
                                    }
                                }
                            } else {
                                proof {
                                    assert(!within_radius(obj_pos(m[idv]), pos, radius));
                                }
                            }
                        },
                        None => {
                            proof {
                                assert(recs_contains(self.objects@, idv));
                                assert(false);
                            }
                        },
                    }
                    k += 1;
                }
                proof {
                    let cells = self.cells@;
                    let cell = cells[ci as int];
                    assert forall|id: Seq<char>| #[trigger] seq_has_id(out@, id) implies (exists|
                        cj: int,
                    |
                        0 <= cj < ci + 1 && chebyshev_le(
                            cell_coords(#[trigger] cells[cj]),
                            target,
                            rr,
                        ) && cell_has(cells[cj], id)) && m.contains_key(id) && within_radius(
                        obj_pos(m[id]),
                        pos,
                        radius,
                    ) by {
                        if seq_has_id(pre_out, id) {
                            let cj = choose|cj: int|
                                0 <= cj < ci && chebyshev_le(
                                    cell_coords(#[trigger] cells[cj]),
                                    target,
                                    rr,
                                ) && cell_has(cells[cj], id);
                            assert(0 <= cj < ci + 1 && chebyshev_le(
                                cell_coords(cells[cj]),
                                target,
                                rr,
                            ) && cell_has(cells[cj], id));
                        } else {
                            assert(cell_has(cells[ci as int], id));
                        }
                    }
                    assert forall|id: Seq<char>|
                        (exists|cj: int|
                            0 <= cj < ci + 1 && chebyshev_le(
                                cell_coords(#[trigger] cells[cj]),
                                target,
                                rr,
                            ) && cell_has(cells[cj], id)) && m.contains_key(id) && within_radius(
                            obj_pos(m[id]),
                            pos,
                            radius,
                        ) implies #[trigger] seq_has_id(out@, id) by {
                        let cj = choose|cj: int|
                            0 <= cj < ci + 1 && chebyshev_le(
                                cell_coords(#[trigger] cells[cj]),
                                target,
                                rr,
                            ) && cell_has(cells[cj], id);
                        if cj < ci {
                            assert(seq_has_id(pre_out, id));
                        } else {
                            let kk = choose|kk: int|
                                0 <= kk < cell.ids@.len() && (#[trigger] cell.ids@[kk])@ == id;
                            assert(0 <= kk < cell.ids@.len() && cell.ids@[kk]@ == id
                                && m.contains_key(id) && within_radius(obj_pos(m[id]), pos, radius));
                        }
                    }
                }
            } else {
                proof {
                    let cells = self.cells@;
                    assert forall|id: Seq<char>| #[trigger] seq_has_id(out@, id) implies (exists|
                        cj: int,
                    |
                        0 <= cj < ci + 1 && chebyshev_le(
                            cell_coords(#[trigger] cells[cj]),
                            target,
                            rr,
                        ) && cell_has(cells[cj], id)) && m.contains_key(id) && within_radius(
                        obj_pos(m[id]),
                        pos,
                        radius,
                    ) by {
                        let cj = choose|cj: int|
                            0 <= cj < ci && chebyshev_le(
                                cell_coords(#[trigger] cells[cj]),
                                target,
                                rr,
                            ) && cell_has(cells[cj], id);
                        assert(0 <= cj < ci + 1 && chebyshev_le(cell_coords(cells[cj]), target, rr)
                            && cell_has(cells[cj], id));
                    }
                    assert forall|id: Seq<char>|
                        (exists|cj: int|
                            0 <= cj < ci + 1 && chebyshev_le(
                                cell_coords(#[trigger] cells[cj]),
                                target,
                                rr,
                            ) && cell_has(cells[cj], id)) && m.contains_key(id) && within_radius(
                            obj_pos(m[id]),
                            pos,
                            radius,
                        ) implies #[trigger] seq_has_id(out@, id) by {
                        let cj = choose|cj: int|
                            0 <= cj < ci + 1 && chebyshev_le(
                                cell_coords(#[trigger] cells[cj]),
                                target,
                                rr,
                            ) && cell_has(cells[cj], id);
                        assert(cj != ci);
                    }
                }
            }
            ci += 1;
        }
        proof {
            let cells = self.cells@;
            assert forall|id: Seq<char>| #[trigger] seq_has_id(out@, id) implies nearby(
                m,
                pos,
                radius,
                id,
            ) by {}
            assert forall|id: Seq<char>| nearby(m, pos, radius, id) implies #[trigger] seq_has_id(
                out@,
                id,
            ) by {
                let opos = obj_pos(m[id]);
                assert(in_cell(cells, id, cell_of(opos, cs)));
                let cj = choose|cj: int|
                    0 <= cj < cells.len() && cell_coords(#[trigger] cells[cj]) == cell_of(
                        opos,
                        cs,
                    ) && cell_has(cells[cj], id);
                lemma_axis_bound(
                    opos.0 as int - pos.0 as int,
                    opos.1 as int - pos.1 as int,
                    radius as int,
                );
                lemma_cell_gap_bounded(opos.0, pos.0, cs, radius);
                lemma_cell_gap_bounded(opos.1, pos.1, cs, radius);
                assert(chebyshev_le(cell_coords(cells[cj]), target, rr));
            }
        }
        out
    }
}

/// Scheduling fairness: in a well-formed store the round-robin queue runs
/// from long-neglected objects to freshly stamped ones — ascending by
/// last-update stamp — so a pass always takes the least recently processed
/// objects first. [`ObjectManager::take_update_batch`] re-enqueues what it
/// took with a fresh maximal stamp, which keeps this order.
pub proof fn lemma_queue_ordered_by_stamp(om: &ObjectManager, i: int, j: int)
    requires
        om.wf(),
        0 <= i < j < om.queue().len(),
    ensures
        om.stamp(om.queue()[i]) <= om.stamp(om.queue()[j]),
{
    assert(om.queue()[i] == om.update_queue@[i]@) by {
        assert(id_views(om.update_queue@)[i] == om.update_queue@[i]@);
    }
    assert(om.queue()[j] == om.update_queue@[j]@) by {
        assert(id_views(om.update_queue@)[j] == om.update_queue@[j]@);
    }
}

/// A well-formed store holds finitely many objects: its contents map has
/// exactly one key per stored record, so additions and removals move
/// [`ObjectManager::len`] by one.
pub proof fn lemma_obs_finite(om: &ObjectManager)
    requires
        om.wf(),
    ensures
        om.obs().dom().finite(),
{
    lemma_recs_map_len(om.objects@);
}

/// Spatial index consistency: in a well-formed store the grid records every
/// live object exactly in the cell of its current position, and nothing
/// else.
pub proof fn lemma_grid_consistent(om: &ObjectManager, id: Seq<char>)
    requires
        om.wf(),
    ensures
        om.obs().contains_key(id) ==> om.grid_cell(id) == Some(
            cell_of(obj_pos(om.obs()[id]), om.spec_cell_size()),
        ),
        !om.obs().contains_key(id) ==> om.grid_cell(id) is None,
{
    if om.obs().contains_key(id) {
        let target = cell_of(obj_pos(om.obs()[id]), om.spec_cell_size());
        assert(in_cell(om.cells@, id, target));
        let cc = choose|cc: (int, int)| in_cell(om.cells@, id, cc);
        assert(cell_of(obj_pos(om.obs()[id]), om.spec_cell_size()) == cc);
    } else {
        if om.grid_cell(id) is Some {
            let cc = choose|cc: (int, int)| in_cell(om.cells@, id, cc);
            assert(om.obs().contains_key(id));
        }
    }
}

/// The index of `id` in a duplicate-free queue.
pub open spec fn queue_index_of(q: Seq<Seq<char>>, id: Seq<char>) -> int {
    choose|i: int| 0 <= i < q.len() && q[i] == id
}

/// An object view after applying a patch to its properties.
pub open spec fn updated_view(v: ObjView, entries: Seq<PropEntry>) -> ObjView {
    ObjView { props: apply_entries(v.props, entries), ..v }
}

/// What applying one targeted update does to the store contents: an unknown
/// target is a no-op.
pub open spec fn spec_update_object(
    m: Map<Seq<char>, ObjView>,
    id: Seq<char>,
    entries: Seq<PropEntry>,
) -> Map<Seq<char>, ObjView> {
    if m.contains_key(id) {
        m.insert(id, updated_view(m[id], entries))
    } else {
        m
    }
}

/// What one bus message does to the store contents: only object-targeted
/// updates act; the force signal and scene updates leave the objects alone.
pub open spec fn apply_message_map(
    m: Map<Seq<char>, ObjView>,
    msg: UpdateMessage,
) -> Map<Seq<char>, ObjView> {
    match msg {
        UpdateMessage::Update(body) => match body.update_type {
            UpdateType::ObjectUpdate(oid) => spec_update_object(m, oid@, body.data.entries@),
            UpdateType::SceneUpdate => m,
        },
        UpdateMessage::ForceUpdate => m,
    }
}

/// A whole batch applied in arrival order.
pub open spec fn apply_messages_map(
    m: Map<Seq<char>, ObjView>,
    msgs: Seq<UpdateMessage>,
) -> Map<Seq<char>, ObjView>
    decreases msgs.len(),
{
    if msgs.len() == 0 {
        m
    } else {
        apply_messages_map(apply_message_map(m, msgs[0]), msgs.skip(1))
    }
}

/// Extending a batch at the end applies the new message last.
pub proof fn lemma_apply_messages_snoc(
    m: Map<Seq<char>, ObjView>,
    a: Seq<UpdateMessage>,
    e: UpdateMessage,
)
    ensures
        apply_messages_map(m, a + seq![e]) == apply_message_map(apply_messages_map(m, a), e),
    decreases a.len(),
{
    if a.len() == 0 {
        assert(a + seq![e] =~= seq![e]);
        assert((seq![e]).skip(1) =~= Seq::<UpdateMessage>::empty());
        assert(apply_messages_map(m, seq![e]) == apply_messages_map(
            apply_message_map(m, e),
            (seq![e]).skip(1),
        ));
    } else {
        assert((a + seq![e])[0] == a[0]);
        assert((a + seq![e]).skip(1) =~= a.skip(1) + seq![e]);
        lemma_apply_messages_snoc(apply_message_map(m, a[0]), a.skip(1), e);
    }
}

/// The chosen queue index of a contained id is the one index that holds it.
proof fn lemma_queue_index_of(q: Seq<String>, id: Seq<char>, i: int)
    requires
        seq_ids_nodup(q),
        0 <= i < q.len(),
        q[i]@ == id,
    ensures
        queue_index_of(q.map_values(|s: String| s@), id) == i,
{
    let qv = q.map_values(|s: String| s@);
    assert(qv[i] == id);
    let j = queue_index_of(qv, id);
    assert(0 <= j < qv.len() && qv[j] == id);
    if i < j {
        assert(q[i]@ != q[j]@);
    } else if j < i {
        assert(q[j]@ != q[i]@);
    }
}

/// Pushing a record with a fresh id inserts one entry into the denoted map.
proof fn lemma_obs_push(s: Seq<ObjectRecord>, rec: ObjectRecord)
    requires
        recs_unique(s),
        !recs_contains(s, rec_id(rec)),
    ensures
        recs_unique(s.push(rec)),
        recs_map(s.push(rec)) == recs_map(s).insert(rec_id(rec), rec.object.obs()),
{
    let t = s.push(rec);
    let id = rec_id(rec);
    assert forall|i: int, j: int| 0 <= i < j < t.len() implies rec_id(t[i]) != rec_id(t[j]) by {
        if j < s.len() {
            assert(t[i] == s[i] && t[j] == s[j]);
        } else {
            assert(t[i] == s[i] && t[j] == rec);
            if rec_id(s[i]) == id {
                assert(recs_contains(s, id));
            }
        }
    }
    assert forall|k: Seq<char>| #[trigger] recs_contains(t, k) implies recs_contains(s, k) || k
        == id by {
        let i = choose|i: int| 0 <= i < t.len() && rec_id(#[trigger] t[i]) == k;
        if i < s.len() {
            assert(rec_id(s[i]) == k);
        }
    }
    assert forall|k: Seq<char>| #[trigger] recs_contains(s, k) implies recs_contains(t, k) by {
        let i = choose|i: int| 0 <= i < s.len() && rec_id(#[trigger] s[i]) == k;
        assert(rec_id(t[i]) == k);
    }
    assert(recs_contains(t, id)) by {
        assert(rec_id(t[s.len() as int]) == id);
    }
    assert forall|k: Seq<char>| #[trigger] recs_contains(t, k) implies recs_map(t)[k] == recs_map(
        s,
    ).insert(id, rec.object.obs())[k] by {
        if k == id {
            lemma_recs_index_of(t, id, s.len() as int);
        } else {
            let i = choose|i: int| 0 <= i < s.len() && rec_id(#[trigger] s[i]) == k;
            lemma_recs_index_of(s, k, i);
            lemma_recs_index_of(t, k, i);
            assert(t[i] == s[i]);
        }
    }
    assert(recs_map(t) =~= recs_map(s).insert(id, rec.object.obs()));
}

/// Removing a record deletes exactly its id from the denoted map.
proof fn lemma_obs_remove(s: Seq<ObjectRecord>, idx: int)
    requires
        recs_unique(s),
        0 <= idx < s.len(),
    ensures
        recs_unique(s.remove(idx)),
        !recs_contains(s.remove(idx), rec_id(s[idx])),
        recs_map(s.remove(idx)) == recs_map(s).remove(rec_id(s[idx])),
{
    let t = s.remove(idx);
    let id = rec_id(s[idx]);
    assert forall|i: int, j: int| 0 <= i < j < t.len() implies rec_id(t[i]) != rec_id(t[j]) by {
        let pi = if i < idx {
            i
        } else {
            i + 1
        };
        let pj = if j < idx {
            j
        } else {
            j + 1
        };
        assert(t[i] == s[pi] && t[j] == s[pj]);
    }
    assert forall|k: int| 0 <= k < t.len() implies rec_id(#[trigger] t[k]) != id by {
        let pk = if k < idx {
            k
        } else {
            k + 1
        };
        assert(t[k] == s[pk]);
        if pk < idx {
            assert(rec_id(s[pk]) != rec_id(s[idx]));
        } else {
            assert(rec_id(s[idx]) != rec_id(s[pk]));
        }
    }
    assert forall|k: Seq<char>| #[trigger] recs_contains(t, k) implies recs_contains(s, k) && k
        != id by {
        let i = choose|i: int| 0 <= i < t.len() && rec_id(#[trigger] t[i]) == k;
        let pi = if i < idx {
            i
        } else {
            i + 1
        };
        assert(rec_id(s[pi]) == k);
    }
    assert forall|k: Seq<char>| recs_contains(s, k) && k != id implies #[trigger] recs_contains(
        t,
        k,
    ) by {
        let i = choose|i: int| 0 <= i < s.len() && rec_id(#[trigger] s[i]) == k;
        assert(i != idx);
        let ti = if i < idx {
            i
        } else {
            i - 1
        };
        assert(t[ti] == s[i]);
        assert(rec_id(t[ti]) == k);
    }
    assert forall|k: Seq<char>| #[trigger] recs_contains(t, k) implies recs_map(t)[k] == recs_map(
        s,
    ).remove(id)[k] by {
        let i = choose|i: int| 0 <= i < t.len() && rec_id(#[trigger] t[i]) == k;
        let pi = if i < idx {
            i
        } else {
            i + 1
        };
        assert(t[i] == s[pi]);
        lemma_recs_index_of(t, k, i);
        lemma_recs_index_of(s, k, pi);
    }
    assert(recs_map(t) =~= recs_map(s).remove(id));
}

/// Replacing a record in place, id kept, re-points its map entry.
proof fn lemma_obs_update(s: Seq<ObjectRecord>, idx: int, rec: ObjectRecord)
    requires
        recs_unique(s),
        0 <= idx < s.len(),
        rec_id(rec) == rec_id(s[idx]),
    ensures
        recs_unique(s.update(idx, rec)),
        recs_map(s.update(idx, rec)) == recs_map(s).insert(rec_id(rec), rec.object.obs()),
{
    let t = s.update(idx, rec);
    let id = rec_id(rec);
    assert forall|i: int, j: int| 0 <= i < j < t.len() implies rec_id(t[i]) != rec_id(t[j]) by {
        assert(rec_id(t[i]) == rec_id(s[i]) && rec_id(t[j]) == rec_id(s[j]));
    }
    assert forall|k: Seq<char>| #[trigger] recs_contains(t, k) implies recs_contains(s, k) by {
        let i = choose|i: int| 0 <= i < t.len() && rec_id(#[trigger] t[i]) == k;
        assert(rec_id(s[i]) == k);
    }
    assert forall|k: Seq<char>| #[trigger] recs_contains(s, k) implies recs_contains(t, k) by {
        let i = choose|i: int| 0 <= i < s.len() && rec_id(#[trigger] s[i]) == k;
        assert(rec_id(t[i]) == k);
    }
    assert(recs_contains(t, id)) by {
        assert(rec_id(t[idx]) == id);
    }
    assert forall|k: Seq<char>| #[trigger] recs_contains(t, k) implies recs_map(t)[k] == recs_map(
        s,
    ).insert(id, rec.object.obs())[k] by {
        let i = choose|i: int| 0 <= i < t.len() && rec_id(#[trigger] t[i]) == k;
        lemma_recs_index_of(t, k, i);
        if k == id {
            lemma_recs_index_of(t, id, idx);
        } else {
            assert(i != idx);
            assert(t[i] == s[i]);
            lemma_recs_index_of(s, k, i);
        }
    }
    assert(recs_map(t) =~= recs_map(s).insert(id, rec.object.obs()));
}

/// The chosen index of a contained id is the one index that holds it.
proof fn lemma_recs_index_of(s: Seq<ObjectRecord>, id: Seq<char>, i: int)
    requires
        recs_unique(s),
        0 <= i < s.len(),
        rec_id(s[i]) == id,
    ensures
        recs_contains(s, id),
        recs_index(s, id) == i,
{
    assert(recs_contains(s, id));
    let j = recs_index(s, id);
    assert(0 <= j < s.len() && rec_id(s[j]) == id);
    if i < j {
        assert(rec_id(s[i]) != rec_id(s[j]));
    } else if j < i {
        assert(rec_id(s[j]) != rec_id(s[i]));
    }
}

/// A unique record list denotes a map with one key per record.
proof fn lemma_recs_map_len(s: Seq<ObjectRecord>)
    requires
        recs_unique(s),
    ensures
        recs_map(s).dom().len() == s.len(),
        recs_map(s).dom().finite(),
    decreases s.len(),
{
    if s.len() == 0 {
        assert(recs_map(s).dom() =~= Set::<Seq<char>>::empty());
    } else {
        let head = s.drop_last();
        lemma_recs_map_len(head);
        let last_id = rec_id(s.last());
        assert forall|id: Seq<char>| recs_contains(head, id) implies recs_contains(s, id) by {
            let i = choose|i: int| 0 <= i < head.len() && rec_id(#[trigger] head[i]) == id;
            assert(rec_id(s[i]) == id);
        }
        assert forall|id: Seq<char>|
            recs_contains(s, id) && id != last_id implies recs_contains(head, id) by {
            let i = choose|i: int| 0 <= i < s.len() && rec_id(#[trigger] s[i]) == id;
            assert(i < s.len() - 1 || rec_id(s[s.len() - 1]) == id);
            if i < s.len() - 1 {
                assert(rec_id(head[i]) == id);
            }
        }
        assert(!recs_contains(head, last_id)) by {
            if recs_contains(head, last_id) {
                let i = choose|i: int|
                    0 <= i < head.len() && rec_id(#[trigger] head[i]) == last_id;
                assert(rec_id(s[i]) == rec_id(s[s.len() - 1]));
            }
        }
        assert(recs_map(s).dom() =~= recs_map(head).dom().insert(last_id));
        vstd::set::axiom_set_insert_len(recs_map(head).dom(), last_id);
    }
}

} // verus!

//! The transactional history log: reversible mutation items grouped into
//! time-windowed undo units, with linear undo/redo and jump-to-timestamp.
//!
//! Each item carries both payloads of a mutation: what to apply to go
//! forward (redo) and what to apply to go back (undo). A unit's items are
//! replayed in order for redo and in reverse order for undo. Pushes within
//! [`HISTORY_WINDOW_MS`] of each other merge into the open unit; a later
//! push finalizes it onto the undo stack and opens a new one. Every
//! recording push clears the redo stack; pushes made while a replay is
//! running are suppressed by the undoing/redoing guard flags.
//!
//! The undo/redo round-trip law is [`lemma_history_round_trip`]: for any
//! sequence of coherent units, undoing them all and redoing them all
//! returns the live state to where it was.

use vstd::prelude::*;

use crate::object::{ObjView, PropPatch, SceneObject};
use crate::text::dec_rep;
use crate::object_manager::{spec_update_object, ObjectManager};
use crate::scene::{scene_after, SceneDirtyData, SceneManager, SCENE_UNIT};

verus! {

/// Two pushes within this many milliseconds merge into one undo unit.
pub const HISTORY_WINDOW_MS: u64 = 500;

/// A reversible property change of one object.
#[derive(Clone, Debug)]
pub struct ObjectHistoryItem {
    pub object_id: String,
    pub undo_data: PropPatch,
    pub redo_data: PropPatch,
    pub timestamp: u64,
}

impl ObjectHistoryItem {
    /// An object-update item stamped with the caller's clock.
    pub fn new(object_id: String, undo_data: PropPatch, redo_data: PropPatch, now_ms: u64) -> (r:
        ObjectHistoryItem)
        ensures
            r.object_id@ == object_id@,
            r.undo_data.entries@ == undo_data.entries@,
            r.redo_data.entries@ == redo_data.entries@,
            r.timestamp == now_ms,
    {
        ObjectHistoryItem { object_id, undo_data, redo_data, timestamp: now_ms }
    }
}

/// A reversible change of the scene transform.
#[derive(Clone, Copy, Debug)]
pub struct SceneHistoryItem {
    pub undo_data: SceneDirtyData,
    pub redo_data: SceneDirtyData,
    pub timestamp: u64,
}

impl SceneHistoryItem {
    /// A scene-update item stamped with the caller's clock.
    pub fn new(undo_data: SceneDirtyData, redo_data: SceneDirtyData, now_ms: u64) -> (r:
        SceneHistoryItem)
        ensures
            r == (SceneHistoryItem { undo_data, redo_data, timestamp: now_ms }),
    {
        SceneHistoryItem { undo_data, redo_data, timestamp: now_ms }
    }
}

/// The addition or removal of one object, with a full snapshot so that
/// either direction can be replayed.
#[derive(Clone, Debug)]
pub struct ElementHistoryItem {
    pub element_id: String,
    pub element_type: String,
    pub element_data: SceneObject,
    pub timestamp: u64,
}

impl ElementHistoryItem {
    /// An element item stamped with the caller's clock.
    pub fn new(element_id: String, element_type: String, element_data: SceneObject, now_ms: u64) -> (r:
        ElementHistoryItem)
        ensures
            r.element_id@ == element_id@,
            r.element_type@ == element_type@,
            r.element_data == element_data,
            r.timestamp == now_ms,
    {
        ElementHistoryItem { element_id, element_type, element_data, timestamp: now_ms }
    }
}

/// One reversible mutation.
#[derive(Clone, Debug)]
pub enum HistoryItem {
    ObjectUpdate(ObjectHistoryItem),
    SceneUpdate(SceneHistoryItem),
    AddElement(ElementHistoryItem),
    RemoveElement(ElementHistoryItem),
}

/// A group of mutations treated as one atomic undo/redo step.
#[derive(Clone, Debug)]
pub struct HistoryUnit {
    pub items: Vec<HistoryItem>,
    pub timestamp: u64,
}

/// The live state that history replay acts on: the store contents and the
/// scene snapshot.
pub ghost struct SceneModel {
    pub objects: Map<Seq<char>, ObjView>,
    pub scene: SceneDirtyData,
}

/// The model of a store/scene pair.
pub open spec fn store_model(om: ObjectManager, sc: SceneManager) -> SceneModel {
    SceneModel { objects: om.obs(), scene: sc.state() }
}

/// An element item is valid when its id names its snapshot and the snapshot
/// has a position.
pub open spec fn item_wf(item: HistoryItem) -> bool {
    match item {
        HistoryItem::AddElement(it) => it.element_id@ == it.element_data.id_seq()
            && it.element_data.wf(),
        HistoryItem::RemoveElement(it) => it.element_id@ == it.element_data.id_seq()
            && it.element_data.wf(),
        HistoryItem::ObjectUpdate(_) => true,
        HistoryItem::SceneUpdate(_) => true,
    }
}

/// The state after replaying one item forward, with its redo payload.
pub open spec fn item_redo(m: SceneModel, item: HistoryItem) -> SceneModel {
    match item {
        HistoryItem::ObjectUpdate(it) => SceneModel {
            objects: spec_update_object(m.objects, it.object_id@, it.redo_data.entries@),
            ..m
        },
        HistoryItem::SceneUpdate(it) => SceneModel { scene: scene_after(it.redo_data), ..m },
        HistoryItem::AddElement(it) => SceneModel {
            objects: m.objects.insert(it.element_data.id_seq(), it.element_data.obs()),
            ..m
        },
        HistoryItem::RemoveElement(it) => SceneModel {
            objects: m.objects.remove(it.element_id@),
            ..m
        },
    }
}

/// The state after replaying one item backward, with its undo payload.
pub open spec fn item_undo(m: SceneModel, item: HistoryItem) -> SceneModel {
    match item {
        HistoryItem::ObjectUpdate(it) => SceneModel {
            objects: spec_update_object(m.objects, it.object_id@, it.undo_data.entries@),
            ..m
        },
        HistoryItem::SceneUpdate(it) => SceneModel { scene: scene_after(it.undo_data), ..m },
        HistoryItem::AddElement(it) => SceneModel {
            objects: m.objects.remove(it.element_id@),
            ..m
        },
        HistoryItem::RemoveElement(it) => SceneModel {
            objects: m.objects.insert(it.element_data.id_seq(), it.element_data.obs()),
            ..m
        },
    }
}

/// A unit replayed forward: items first to last, redo payloads.
pub open spec fn unit_redo(m: SceneModel, items: Seq<HistoryItem>) -> SceneModel
    decreases items.len(),
{
    if items.len() == 0 {
        m
    } else {
        unit_redo(item_redo(m, items[0]), items.skip(1))
    }
}

/// A unit replayed backward: items last to first, undo payloads.
pub open spec fn unit_undo(m: SceneModel, items: Seq<HistoryItem>) -> SceneModel
    decreases items.len(),
{
    if items.len() == 0 {
        m
    } else {
        unit_undo(item_undo(m, items.last()), items.drop_last())
    }
}

/// Replaying a concatenation forward is replaying one part after the other.
pub proof fn lemma_unit_redo_concat(m: SceneModel, a: Seq<HistoryItem>, b: Seq<HistoryItem>)
    ensures
        unit_redo(m, a + b) == unit_redo(unit_redo(m, a), b),
    decreases a.len(),
{
    if a.len() == 0 {
        assert(a + b =~= b);
    } else {
        assert((a + b)[0] == a[0]);
        assert((a + b).skip(1) =~= a.skip(1) + b);
        lemma_unit_redo_concat(item_redo(m, a[0]), a.skip(1), b);
    }
}

/// Undoing a concatenation undoes the tail part first.
pub proof fn lemma_unit_undo_concat(m: SceneModel, a: Seq<HistoryItem>, b: Seq<HistoryItem>)
    ensures
        unit_undo(m, a + b) == unit_undo(unit_undo(m, b), a),
    decreases b.len(),
{
    if b.len() == 0 {
        assert(a + b =~= a);
    } else {
        assert((a + b).last() == b.last());
        assert((a + b).drop_last() =~= a + b.drop_last());
        lemma_unit_undo_concat(item_undo(m, b.last()), a, b.drop_last());
    }
}

/// An item is coherent with a state when its undo payload exactly reverts
/// its redo payload from there.
pub open spec fn item_coherent(m: SceneModel, item: HistoryItem) -> bool {
    item_wf(item) && item_undo(item_redo(m, item), item) == m
}

/// A unit is coherent with a state when each item is coherent with the
/// state left by the items before it.
pub open spec fn unit_coherent(m: SceneModel, items: Seq<HistoryItem>) -> bool
    decreases items.len(),
{
    items.len() == 0 || (item_coherent(m, items[0]) && unit_coherent(
        item_redo(m, items[0]),
        items.skip(1),
    ))
}

/// Undoing a coherent unit reverts it exactly.
pub proof fn lemma_unit_round_trip(m: SceneModel, items: Seq<HistoryItem>)
    requires
        unit_coherent(m, items),
    ensures
        unit_undo(unit_redo(m, items), items) == m,
    decreases items.len(),
{
    if items.len() > 0 {
        let e = items[0];
        let m1 = item_redo(m, e);
        lemma_unit_round_trip(m1, items.skip(1));
        let s = unit_redo(m1, items.skip(1));
        assert(unit_redo(m, items) == s);
        assert(items =~= seq![e] + items.skip(1));
        lemma_unit_undo_concat(s, seq![e], items.skip(1));
        assert(unit_undo(s, items.skip(1)) == m1);
        assert((seq![e]).drop_last() =~= Seq::<HistoryItem>::empty());
        assert(unit_undo(m1, seq![e]) == unit_undo(item_undo(m1, e), (seq![e]).drop_last()));
        assert(item_undo(m1, e) == m);
    }
}

/// An object-update item whose undo payload was captured against the
/// object's current properties is coherent: its undo exactly reverts its
/// redo.
pub proof fn lemma_object_update_item_coherent(m: SceneModel, it: ObjectHistoryItem)
    requires
        m.objects.contains_key(it.object_id@),
        it.undo_data.entries@ == crate::object::undo_entries(
            m.objects[it.object_id@].props,
            it.redo_data.entries@,
        ),
    ensures
        item_coherent(m, HistoryItem::ObjectUpdate(it)),
{
    let id = it.object_id@;
    let v = m.objects[id];
    let v1 = crate::object_manager::updated_view(v, it.redo_data.entries@);
    crate::object::lemma_patch_round_trip(v.props, it.redo_data.entries@);
    let m1 = item_redo(m, HistoryItem::ObjectUpdate(it));
    assert(m1.objects == m.objects.insert(id, v1));
    let v2 = crate::object_manager::updated_view(v1, it.undo_data.entries@);
    assert(v2 == v);
    let m2 = item_undo(m1, HistoryItem::ObjectUpdate(it));
    assert(m2.objects == m1.objects.insert(id, v2));
    assert(m2.objects =~= m.objects);
}

/// A scene-update item whose undo payload is the (already clamped) state
/// before the change is coherent.
pub proof fn lemma_scene_update_item_coherent(m: SceneModel, it: SceneHistoryItem)
    requires
        scene_after(it.undo_data) == m.scene,
    ensures
        item_coherent(m, HistoryItem::SceneUpdate(it)),
{
}

/// An add-element item for an id not yet stored is coherent: removing the
/// added object restores the contents.
pub proof fn lemma_add_element_item_coherent(m: SceneModel, it: ElementHistoryItem)
    requires
        item_wf(HistoryItem::AddElement(it)),
        !m.objects.contains_key(it.element_data.id_seq()),
    ensures
        item_coherent(m, HistoryItem::AddElement(it)),
{
    let id = it.element_data.id_seq();
    let m1 = item_redo(m, HistoryItem::AddElement(it));
    let m2 = item_undo(m1, HistoryItem::AddElement(it));
    assert(m2.objects =~= m.objects);
}

/// A remove-element item whose snapshot matches the stored object is
/// coherent: re-adding the snapshot restores the contents.
pub proof fn lemma_remove_element_item_coherent(m: SceneModel, it: ElementHistoryItem)
    requires
        item_wf(HistoryItem::RemoveElement(it)),
        m.objects.contains_key(it.element_data.id_seq()),
        m.objects[it.element_data.id_seq()] == it.element_data.obs(),
    ensures
        item_coherent(m, HistoryItem::RemoveElement(it)),
{
    let id = it.element_data.id_seq();
    let m1 = item_redo(m, HistoryItem::RemoveElement(it));
    let m2 = item_undo(m1, HistoryItem::RemoveElement(it));
    assert(m2.objects =~= m.objects);
}

/// A whole undo stack replayed forward, oldest unit first.
pub open spec fn units_redo(m: SceneModel, units: Seq<HistoryUnit>) -> SceneModel
    decreases units.len(),
{
    if units.len() == 0 {
        m
    } else {
        units_redo(unit_redo(m, units[0].items@), units.skip(1))
    }
}

/// A whole undo stack undone, newest unit first.
pub open spec fn units_undo(m: SceneModel, units: Seq<HistoryUnit>) -> SceneModel
    decreases units.len(),
{
    if units.len() == 0 {
        m
    } else {
        units_undo(unit_undo(m, units.last().items@), units.drop_last())
    }
}

/// Each unit is coherent with the state left by the units before it.
pub open spec fn units_coherent(m: SceneModel, units: Seq<HistoryUnit>) -> bool
    decreases units.len(),
{
    units.len() == 0 || (unit_coherent(m, units[0].items@) && units_coherent(
        unit_redo(m, units[0].items@),
        units.skip(1),
    ))
}

/// Replaying a concatenation of stacks forward, one after the other.
pub proof fn lemma_units_redo_concat(m: SceneModel, a: Seq<HistoryUnit>, b: Seq<HistoryUnit>)
    ensures
        units_redo(m, a + b) == units_redo(units_redo(m, a), b),
    decreases a.len(),
{
    if a.len() == 0 {
        assert(a + b =~= b);
    } else {
        assert((a + b)[0] == a[0]);
        assert((a + b).skip(1) =~= a.skip(1) + b);
        lemma_units_redo_concat(unit_redo(m, a[0].items@), a.skip(1), b);
    }
}

/// Undoing a concatenation of stacks undoes the tail part first.
pub proof fn lemma_units_undo_concat(m: SceneModel, a: Seq<HistoryUnit>, b: Seq<HistoryUnit>)
    ensures
        units_undo(m, a + b) == units_undo(units_undo(m, b), a),
    decreases b.len(),
{
    if b.len() == 0 {
        assert(a + b =~= a);
    } else {
        assert((a + b).last() == b.last());
        assert((a + b).drop_last() =~= a + b.drop_last());
        lemma_units_undo_concat(unit_undo(m, b.last().items@), a, b.drop_last());
    }
}

/// A unit of one coherent item is coherent.
pub proof fn lemma_unit_coherent_singleton(m: SceneModel, item: HistoryItem)
    requires
        item_coherent(m, item),
    ensures
        unit_coherent(m, seq![item]),
{
    assert((seq![item]).skip(1) =~= Seq::<HistoryItem>::empty());
    assert((seq![item])[0] == item);
    assert(unit_coherent(item_redo(m, item), (seq![item]).skip(1)));
}

/// A unit stays coherent when an item coherent with its end state is
/// appended; this is how merging pushes grow the open unit.
pub proof fn lemma_unit_coherent_snoc(m: SceneModel, items: Seq<HistoryItem>, e: HistoryItem)
    requires
        unit_coherent(m, items),
        item_coherent(unit_redo(m, items), e),
    ensures
        unit_coherent(m, items + seq![e]),
    decreases items.len(),
{
    if items.len() == 0 {
        assert(items + seq![e] =~= seq![e]);
        lemma_unit_coherent_singleton(m, e);
    } else {
        let t = items + seq![e];
        assert(t[0] == items[0]);
        assert(t.skip(1) =~= items.skip(1) + seq![e]);
        lemma_unit_coherent_snoc(item_redo(m, items[0]), items.skip(1), e);
    }
}

/// A stack stays coherent when a unit coherent with its end state is
/// finalized onto it.
pub proof fn lemma_units_coherent_snoc(m: SceneModel, units: Seq<HistoryUnit>, u: HistoryUnit)
    requires
        units_coherent(m, units),
        unit_coherent(units_redo(m, units), u.items@),
    ensures
        units_coherent(m, units + seq![u]),
    decreases units.len(),
{
    if units.len() == 0 {
        assert(units + seq![u] =~= seq![u]);
        assert((seq![u]).skip(1) =~= Seq::<HistoryUnit>::empty());
        assert((seq![u])[0] == u);
        assert(units_redo(m, units) == m);
        assert(units_coherent(unit_redo(m, u.items@), (seq![u]).skip(1)));
    } else {
        let t = units + seq![u];
        assert(t[0] == units[0]);
        assert(t.skip(1) =~= units.skip(1) + seq![u]);
        lemma_units_coherent_snoc(unit_redo(m, units[0].items@), units.skip(1), u);
    }
}

/// Undo/redo round trip: for any sequence of mutations grouped into
/// coherent units, undoing every unit returns the state to where it
/// started, and redoing every unit from there reaches the same state as the
/// original replay.
pub proof fn lemma_history_round_trip(m: SceneModel, units: Seq<HistoryUnit>)
    requires
        units_coherent(m, units),
    ensures
        units_undo(units_redo(m, units), units) == m,
        units_redo(units_undo(units_redo(m, units), units), units) == units_redo(m, units),
    decreases units.len(),
{
    if units.len() > 0 {
        let u = units[0];
        let m1 = unit_redo(m, u.items@);
        lemma_history_round_trip(m1, units.skip(1));
        let s = units_redo(m1, units.skip(1));
        assert(units_redo(m, units) == s);
        assert(units =~= seq![u] + units.skip(1));
        lemma_units_undo_concat(s, seq![u], units.skip(1));
        assert(units_undo(s, units.skip(1)) == m1);
        assert((seq![u]).drop_last() =~= Seq::<HistoryUnit>::empty());
        assert(units_undo(m1, seq![u]) == units_undo(unit_undo(m1, u.items@), (
        seq![u]).drop_last()));
        lemma_unit_round_trip(m, u.items@);
    }
}

/// How many undo units a jump to `t` keeps: units are dropped from the
/// newest end while their timestamp is past `t`.
pub open spec fn undo_keep_count(units: Seq<HistoryUnit>, t: u64) -> int
    decreases units.len(),
{
    if units.len() == 0 || units.last().timestamp <= t {
        units.len() as int
    } else {
        undo_keep_count(units.drop_last(), t)
    }
}

/// How many redo units a jump to `t` leaves pending: units are taken from
/// the oldest end (the top of the redo stack) while their timestamp is at
/// or before `t`.
pub open spec fn redo_keep_count(units: Seq<HistoryUnit>, t: u64) -> int
    decreases units.len(),
{
    if units.len() == 0 || units.last().timestamp > t {
        units.len() as int
    } else {
        redo_keep_count(units.drop_last(), t)
    }
}

/// The initial condition that a full replay starts from: no objects and an
/// identity transform over the current viewport.
pub open spec fn initial_model(scene: SceneDirtyData) -> SceneModel {
    SceneModel {
        objects: Map::<Seq<char>, ObjView>::empty(),
        scene: SceneDirtyData {
            zoom: SCENE_UNIT,
            offset_x: 0i64,
            offset_y: 0i64,
            rotation: 0i64,
            ..scene
        },
    }
}

/// Unfolding one step of a forward stack replay at index `i`.
proof fn lemma_units_redo_step(m: SceneModel, units: Seq<HistoryUnit>, i: int)
    requires
        0 <= i < units.len(),
    ensures
        units_redo(m, units.take(i + 1)) == unit_redo(units_redo(m, units.take(i)), units[i].items@),
    decreases i,
{
    assert(units.take(i + 1) =~= units.take(i) + seq![units[i]]);
    lemma_units_redo_concat(m, units.take(i), seq![units[i]]);
    let m1 = units_redo(m, units.take(i));
    assert((seq![units[i]]).skip(1) =~= Seq::<HistoryUnit>::empty());
    assert(units_redo(m1, seq![units[i]]) == units_redo(unit_redo(m1, units[i].items@), (
    seq![units[i]]).skip(1)));
}

/// All items of a unit are valid.
pub open spec fn unit_wf(u: HistoryUnit) -> bool {
    forall|i: int| 0 <= i < u.items@.len() ==> item_wf(#[trigger] u.items@[i])
}

/// All units of a stack are valid.
pub open spec fn units_wf(units: Seq<HistoryUnit>) -> bool {
    forall|i: int| 0 <= i < units.len() ==> unit_wf(#[trigger] units[i])
}

/// The undo stack after moving the open unit onto it: an empty or missing
/// open unit is discarded.
pub open spec fn finalized_stack(undo: Seq<HistoryUnit>, cur: Option<HistoryUnit>) -> Seq<
    HistoryUnit,
> {
    match cur {
        Option::None => undo,
        Option::Some(u) => if u.items@.len() > 0 {
            undo.push(u)
        } else {
            undo
        },
    }
}

/// Whether a push at `now` lands in the open unit's merge window.
pub open spec fn window_merges(cur: Option<HistoryUnit>, last_push: u64, now: u64) -> bool {
    cur is Some && (if now >= last_push {
        now - last_push
    } else {
        0
    }) <= HISTORY_WINDOW_MS
}

/// What one recording push guarantees: the redo stack is cleared, and the
/// item either merges into the open unit (within the window) or starts a
/// fresh unit after the open one is finalized.
pub open spec fn pushed_post(h0: History, h1: History, item: HistoryItem, now_ms: u64) -> bool {
    &&& h1.redo_units() == Seq::<HistoryUnit>::empty()
    &&& h1.spec_last_push() == now_ms
    &&& h1.undoing() == h0.undoing()
    &&& h1.redoing() == h0.redoing()
    &&& if window_merges(h0.current(), h0.spec_last_push(), now_ms) {
        &&& h1.undo_units() == h0.undo_units()
        &&& h1.current() matches Some(u) && u.items@ == h0.current()->Some_0.items@.push(item)
            && u.timestamp == h0.current()->Some_0.timestamp
    } else {
        &&& h1.undo_units() == finalized_stack(h0.undo_units(), h0.current())
        &&& h1.current() matches Some(u) && u.items@ == seq![item] && u.timestamp == now_ms
    }
}

/// Applies one item to the live state, in the given direction.
fn apply_item(
    item: &HistoryItem,
    is_undo: bool,
    objects: &mut ObjectManager,
    scene: &mut SceneManager,
)
    requires
        old(objects).wf(),
        item_wf(*item),
    ensures
        final(objects).wf(),
        final(objects).spec_cell_size() == old(objects).spec_cell_size(),
        is_undo ==> store_model(*final(objects), *final(scene)) == item_undo(
            store_model(*old(objects), *old(scene)),
            *item,
        ),
        !is_undo ==> store_model(*final(objects), *final(scene)) == item_redo(
            store_model(*old(objects), *old(scene)),
            *item,
        ),
{
    match item {
        HistoryItem::ObjectUpdate(it) => {
            let data = if is_undo {
                &it.undo_data
            } else {
                &it.redo_data
            };
            objects.update_object(it.object_id.as_str(), data);
        },
        HistoryItem::SceneUpdate(it) => {
            let data = if is_undo {
                it.undo_data
            } else {
                it.redo_data
            };
            scene.update_scene(data);
        },
        HistoryItem::AddElement(it) => {
            if is_undo {
                let _ = objects.remove(it.element_id.as_str());
            } else {
                objects.add(it.element_data.clone_object());
            }
        },
        HistoryItem::RemoveElement(it) => {
            if is_undo {
                objects.add(it.element_data.clone_object());
            } else {
                let _ = objects.remove(it.element_id.as_str());
            }
        },
    }
}

/// Unfolding one step of a backward replay at index `i`.
proof fn lemma_unit_undo_step(m: SceneModel, items: Seq<HistoryItem>, i: int)
    requires
        0 <= i < items.len(),
    ensures
        unit_undo(m, items.skip(i)) == item_undo(unit_undo(m, items.skip(i + 1)), items[i]),
{
    assert(items.skip(i) =~= seq![items[i]] + items.skip(i + 1));
    lemma_unit_undo_concat(m, seq![items[i]], items.skip(i + 1));
    let m1 = unit_undo(m, items.skip(i + 1));
    assert((seq![items[i]]).drop_last() =~= Seq::<HistoryItem>::empty());
    assert(unit_undo(m1, seq![items[i]]) == unit_undo(item_undo(m1, items[i]), (
    seq![items[i]]).drop_last()));
}

/// Unfolding one step of a forward replay at index `i`.
proof fn lemma_unit_redo_step(m: SceneModel, items: Seq<HistoryItem>, i: int)
    requires
        0 <= i < items.len(),
    ensures
        unit_redo(m, items.take(i + 1)) == item_redo(unit_redo(m, items.take(i)), items[i]),
{
    assert(items.take(i + 1) =~= items.take(i) + seq![items[i]]);
    lemma_unit_redo_concat(m, items.take(i), seq![items[i]]);
    let m1 = unit_redo(m, items.take(i));
    assert((seq![items[i]]).skip(1) =~= Seq::<HistoryItem>::empty());
    assert(unit_redo(m1, seq![items[i]]) == unit_redo(item_redo(m1, items[i]), (
    seq![items[i]]).skip(1)));
}

/// Replays one unit against the live state: items in reverse order with
/// undo payloads, or in order with redo payloads.
fn apply_history_unit(
    unit: &HistoryUnit,
    is_undo: bool,
    objects: &mut ObjectManager,
    scene: &mut SceneManager,
)
    requires
        old(objects).wf(),
        unit_wf(*unit),
    ensures
        final(objects).wf(),
        final(objects).spec_cell_size() == old(objects).spec_cell_size(),
        is_undo ==> store_model(*final(objects), *final(scene)) == unit_undo(
            store_model(*old(objects), *old(scene)),
            unit.items@,
        ),
        !is_undo ==> store_model(*final(objects), *final(scene)) == unit_redo(
            store_model(*old(objects), *old(scene)),
            unit.items@,
        ),
{
    let ghost m0 = store_model(*objects, *scene);
    if is_undo {
        let mut i: usize = unit.items.len();
        proof {
            assert(unit.items@.skip(i as int) =~= Seq::<HistoryItem>::empty());
        }
        while i > 0
            invariant
                0 <= i <= unit.items@.len(),
                objects.wf(),
                objects.spec_cell_size() == old(objects).spec_cell_size(),
                unit_wf(*unit),
                store_model(*objects, *scene) == unit_undo(m0, unit.items@.skip(i as int)),
                m0 == store_model(*old(objects), *old(scene)),
            decreases i,
        {
            i -= 1;
            apply_item(&unit.items[i], true, objects, scene);
            proof {
                lemma_unit_undo_step(m0, unit.items@, i as int);
            }
        }
        proof {
            assert(unit.items@.skip(0) =~= unit.items@);
        }
    } else {
        let mut i: usize = 0;
        proof {
            assert(unit.items@.take(0) =~= Seq::<HistoryItem>::empty());
        }
        while i < unit.items.len()
            invariant
                0 <= i <= unit.items@.len(),
                objects.wf(),
                objects.spec_cell_size() == old(objects).spec_cell_size(),
                unit_wf(*unit),
                store_model(*objects, *scene) == unit_redo(m0, unit.items@.take(i as int)),
                m0 == store_model(*old(objects), *old(scene)),
            decreases unit.items@.len() - i,
        {
            apply_item(&unit.items[i], false, objects, scene);
            proof {
                lemma_unit_redo_step(m0, unit.items@, i as int);
            }
            i += 1;
        }
        proof {
            assert(unit.items@.take(unit.items@.len() as int) =~= unit.items@);
        }
    }
}

/// One line of the history summary.
#[derive(Clone, Debug)]
pub struct HistorySummaryItem {
    pub timestamp: u64,
    pub description: String,
    pub item_count: usize,
}

/// How many items of each kind a unit holds: object updates, scene
/// updates, added elements, removed elements.
pub open spec fn item_kind_counts(items: Seq<HistoryItem>) -> (nat, nat, nat, nat)
    decreases items.len(),
{
    if items.len() == 0 {
        (0nat, 0nat, 0nat, 0nat)
    } else {
        let rest = item_kind_counts(items.skip(1));
        match items[0] {
            HistoryItem::ObjectUpdate(_) => ((rest.0 + 1) as nat, rest.1, rest.2, rest.3),
            HistoryItem::SceneUpdate(_) => (rest.0, (rest.1 + 1) as nat, rest.2, rest.3),
            HistoryItem::AddElement(_) => (rest.0, rest.1, (rest.2 + 1) as nat, rest.3),
            HistoryItem::RemoveElement(_) => (rest.0, rest.1, rest.2, (rest.3 + 1) as nat),
        }
    }
}

/// The counts of a kind added by one more item.
pub open spec fn bump_counts(c: (nat, nat, nat, nat), item: HistoryItem) -> (nat, nat, nat, nat) {
    match item {
        HistoryItem::ObjectUpdate(_) => ((c.0 + 1) as nat, c.1, c.2, c.3),
        HistoryItem::SceneUpdate(_) => (c.0, (c.1 + 1) as nat, c.2, c.3),
        HistoryItem::AddElement(_) => (c.0, c.1, (c.2 + 1) as nat, c.3),
        HistoryItem::RemoveElement(_) => (c.0, c.1, c.2, (c.3 + 1) as nat),
    }
}

/// Counting a list extended at the end bumps the counts once.
pub proof fn lemma_kind_counts_snoc(items: Seq<HistoryItem>, e: HistoryItem)
    ensures
        item_kind_counts(items + seq![e]) == bump_counts(item_kind_counts(items), e),
    decreases items.len(),
{
    if items.len() == 0 {
        assert(items + seq![e] =~= seq![e]);
        assert((seq![e])[0] == e);
        assert((seq![e]).skip(1) =~= Seq::<HistoryItem>::empty());
        assert(item_kind_counts((seq![e]).skip(1)) == (0nat, 0nat, 0nat, 0nat));
        assert(item_kind_counts(seq![e]) == bump_counts((0nat, 0nat, 0nat, 0nat), e));
        assert(item_kind_counts(items) == (0nat, 0nat, 0nat, 0nat));
    } else {
        let t = items + seq![e];
        assert(t[0] == items[0]);
        assert(t.skip(1) =~= items.skip(1) + seq![e]);
        lemma_kind_counts_snoc(items.skip(1), e);
        assert(item_kind_counts(t) == bump_counts(item_kind_counts(t.skip(1)), items[0]));
        assert(item_kind_counts(items) == bump_counts(
            item_kind_counts(items.skip(1)),
            items[0],
        ));
    }
}

/// One summary segment: nothing for a zero count, else the label and the
/// count.
pub open spec fn summary_segment(label: Seq<char>, n: nat) -> Seq<Seq<char>> {
    if n == 0 {
        Seq::<Seq<char>>::empty()
    } else {
        seq![label + dec_rep(n)]
    }
}

/// The non-empty category segments of a unit, in a fixed order.
pub open spec fn count_segments(items: Seq<HistoryItem>) -> Seq<Seq<char>> {
    let c = item_kind_counts(items);
    summary_segment("Object updates: "@, c.0) + summary_segment("Scene updates: "@, c.1)
        + summary_segment("Added elements: "@, c.2) + summary_segment("Removed elements: "@, c.3)
}

/// Parts joined with a separator.
pub open spec fn join_parts(parts: Seq<Seq<char>>, sep: Seq<char>) -> Seq<char>
    decreases parts.len(),
{
    if parts.len() == 0 {
        Seq::<char>::empty()
    } else if parts.len() == 1 {
        parts[0]
    } else {
        parts[0] + sep + join_parts(parts.skip(1), sep)
    }
}

/// Joining with one more part at the end appends a separator and the part.
pub proof fn lemma_join_parts_snoc(parts: Seq<Seq<char>>, sep: Seq<char>, x: Seq<char>)
    ensures
        parts.len() == 0 ==> join_parts(parts + seq![x], sep) == x,
        parts.len() > 0 ==> join_parts(parts + seq![x], sep) == join_parts(parts, sep) + sep + x,
    decreases parts.len(),
{
    if parts.len() == 0 {
        assert(parts + seq![x] =~= seq![x]);
    } else {
        let t = parts + seq![x];
        assert(t[0] == parts[0]);
        assert(t.skip(1) =~= parts.skip(1) + seq![x]);
        lemma_join_parts_snoc(parts.skip(1), sep, x);
        if parts.len() == 1 {
            assert(join_parts(t, sep) == t[0] + sep + join_parts(t.skip(1), sep));
            assert(join_parts(parts.skip(1) + seq![x], sep) == x);
        } else {
            assert(join_parts(t, sep) == t[0] + sep + join_parts(t.skip(1), sep));
            assert(join_parts(t.skip(1), sep) == join_parts(parts.skip(1), sep) + sep + x);
            assert(t[0] + sep + (join_parts(parts.skip(1), sep) + sep + x) =~= (parts[0] + sep
                + join_parts(parts.skip(1), sep)) + sep + x);
        }
    }
}

/// The human description of one unit: the single item's kind and target,
/// or the per-kind counts.
pub open spec fn unit_description(items: Seq<HistoryItem>) -> Seq<char> {
    if items.len() == 1 {
        match items[0] {
            HistoryItem::ObjectUpdate(it) => "Object update: "@ + it.object_id@,
            HistoryItem::SceneUpdate(_) => "Scene update"@,
            HistoryItem::AddElement(it) => "Add element: "@ + it.element_id@,
            HistoryItem::RemoveElement(it) => "Remove element: "@ + it.element_id@,
        }
    } else {
        "Multiple updates: "@ + join_parts(count_segments(items), ", "@)
    }
}

/// Joins parts with a separator.
fn join_with(parts: &Vec<String>, sep: &str) -> (r: String)
    ensures
        r@ == join_parts(parts@.map_values(|s: String| s@), sep@),
{
    let ghost pv = parts@.map_values(|s: String| s@);
    if parts.len() == 0 {
        let r = String::new();
        proof {
            assert(r@ =~= join_parts(pv, sep@));
        }
        r
    } else {
        let mut acc = parts[0].clone();
        let mut i: usize = 1;
        proof {
            assert(pv.take(1) =~= seq![pv[0]]);
            assert(join_parts(pv.take(1), sep@) == pv[0]);
        }
        while i < parts.len()
            invariant
                1 <= i <= parts@.len(),
                pv == parts@.map_values(|s: String| s@),
                sep@ == sep@,
                acc@ == join_parts(pv.take(i as int), sep@),
            decreases parts@.len() - i,
        {
            acc.append(sep);
            acc.append(parts[i].as_str());
            proof {
                lemma_join_parts_snoc(pv.take(i as int), sep@, pv[i as int]);
                assert(pv.take(i as int) + seq![pv[i as int]] =~= pv.take(i + 1));
            }
            i += 1;
        }
        proof {
            assert(pv.take(pv.len() as int) =~= pv);
        }
        acc
    }
}

/// Builds the label-and-count description of a multi-item unit.
fn describe_counts(items: &Vec<HistoryItem>) -> (r: String)
    ensures
        r@ == "Multiple updates: "@ + join_parts(count_segments(items@), ", "@),
{
    let mut c_obj: usize = 0;
    let mut c_scene: usize = 0;
    let mut c_add: usize = 0;
    let mut c_rem: usize = 0;
    let mut i: usize = 0;
    proof {
        assert(items@.take(0) =~= Seq::<HistoryItem>::empty());
    }
    while i < items.len()
        invariant
            0 <= i <= items@.len(),
            c_obj + c_scene + c_add + c_rem == i,
            item_kind_counts(items@.take(i as int)) == (
                c_obj as nat,
                c_scene as nat,
                c_add as nat,
                c_rem as nat,
            ),
        decreases items@.len() - i,
    {
        match &items[i] {
            HistoryItem::ObjectUpdate(_) => {
                c_obj += 1;
            },
            HistoryItem::SceneUpdate(_) => {
                c_scene += 1;
            },
            HistoryItem::AddElement(_) => {
                c_add += 1;
            },
            HistoryItem::RemoveElement(_) => {
                c_rem += 1;
            },
        }
        proof {
            lemma_kind_counts_snoc(items@.take(i as int), items@[i as int]);
            assert(items@.take(i as int) + seq![items@[i as int]] =~= items@.take(i + 1));
        }
        i += 1;
    }
    proof {
        assert(items@.take(items@.len() as int) =~= items@);
    }
    let ghost c = item_kind_counts(items@);
    let mut parts: Vec<String> = Vec::new();
    if c_obj > 0 {
        let mut s = String::from_str("Object updates: ");
        let d = crate::text::dec_string(c_obj as u64);
        s.append(d.as_str());
        parts.push(s);
    }
    if c_scene > 0 {
        let mut s = String::from_str("Scene updates: ");
        let d = crate::text::dec_string(c_scene as u64);
        s.append(d.as_str());
        parts.push(s);
    }
    if c_add > 0 {
        let mut s = String::from_str("Added elements: ");
        let d = crate::text::dec_string(c_add as u64);
        s.append(d.as_str());
        parts.push(s);
    }
    if c_rem > 0 {
        let mut s = String::from_str("Removed elements: ");
        let d = crate::text::dec_string(c_rem as u64);
        s.append(d.as_str());
        parts.push(s);
    }
    proof {
        assert(parts@.map_values(|s: String| s@) =~= count_segments(items@));
    }
    let joined = join_with(&parts, ", ");
    let mut r = String::from_str("Multiple updates: ");
    r.append(joined.as_str());
    r
}

/// The history log: an undo stack, a redo stack, the open unit being
/// accumulated, and the replay guard flags.
#[derive(Debug)]
pub struct History {
    undo_stack: Vec<HistoryUnit>,
    redo_stack: Vec<HistoryUnit>,
    current_unit: Option<HistoryUnit>,
    last_push_time: u64,
    is_undoing: bool,
    is_redoing: bool,
}

impl History {
    /// The finalized undo units, oldest first.
    pub closed spec fn undo_units(&self) -> Seq<HistoryUnit> {
        self.undo_stack@
    }

    /// The redo units; the last is the next to redo.
    pub closed spec fn redo_units(&self) -> Seq<HistoryUnit> {
        self.redo_stack@
    }

    /// The open unit, if one is accumulating.
    pub closed spec fn current(&self) -> Option<HistoryUnit> {
        self.current_unit
    }

    /// When the last recording push happened.
    pub closed spec fn spec_last_push(&self) -> u64 {
        self.last_push_time
    }

    /// Whether an undo replay is running.
    pub closed spec fn undoing(&self) -> bool {
        self.is_undoing
    }

    /// Whether a redo replay is running.
    pub closed spec fn redoing(&self) -> bool {
        self.is_redoing
    }

    /// Every stored unit is valid, and the open unit, when present, is
    /// never empty — so an available undo step and [`History::can_undo`]
    /// coincide.
    pub closed spec fn wf(&self) -> bool {
        &&& units_wf(self.undo_stack@)
        &&& units_wf(self.redo_stack@)
        &&& (self.current_unit matches Some(u) ==> unit_wf(u) && u.items@.len() > 0)
    }

    /// An empty log.
    pub fn new() -> (r: History)
        ensures
            r.wf(),
            r.undo_units() == Seq::<HistoryUnit>::empty(),
            r.redo_units() == Seq::<HistoryUnit>::empty(),
            r.current() is None,
            r.spec_last_push() == 0,
            !r.undoing(),
            !r.redoing(),
    {
        History {
            undo_stack: Vec::new(),
            redo_stack: Vec::new(),
            current_unit: None,
            last_push_time: 0,
            is_undoing: false,
            is_redoing: false,
        }
    }

    /// Moves the open unit onto the undo stack; an empty one is discarded.
    pub fn finalize_current_unit(&mut self)
        requires
            old(self).wf(),
        ensures
            final(self).wf(),
            final(self).undo_units() == finalized_stack(
                old(self).undo_units(),
                old(self).current(),
            ),
            final(self).current() is None,
            final(self).redo_units() == old(self).redo_units(),
            final(self).spec_last_push() == old(self).spec_last_push(),
            final(self).undoing() == old(self).undoing(),
            final(self).redoing() == old(self).redoing(),
    {
        let mut taken: Option<HistoryUnit> = None;
        core::mem::swap(&mut self.current_unit, &mut taken);
        match taken {
            Some(unit) => {
                if unit.items.len() > 0 {
                    self.undo_stack.push(unit);
                }
            },
            None => {},
        }
    }

    /// An alias of [`History::finalize_current_unit`], for call sites that
    /// close the open unit before reading the stacks.
    pub fn ensure_current_unit_finalized(&mut self)
        requires
            old(self).wf(),
        ensures
            final(self).wf(),
            final(self).undo_units() == finalized_stack(
                old(self).undo_units(),
                old(self).current(),
            ),
            final(self).current() is None,
            final(self).redo_units() == old(self).redo_units(),
            final(self).spec_last_push() == old(self).spec_last_push(),
            final(self).undoing() == old(self).undoing(),
            final(self).redoing() == old(self).redoing(),
    {
        self.finalize_current_unit();
    }

    /// Records one mutation. A push during a replay changes nothing. A
    /// recording push clears the redo stack, and either merges into the
    /// open unit (within the window) or finalizes it and opens a new unit
    /// holding just this item.
    pub fn push(&mut self, item: HistoryItem, now_ms: u64)
        requires
            old(self).wf(),
            item_wf(item),
        ensures
            final(self).wf(),
            (old(self).undoing() || old(self).redoing()) ==> *final(self) == *old(self),
            !(old(self).undoing() || old(self).redoing()) ==> pushed_post(
                *old(self),
                *final(self),
                item,
                now_ms,
            ),
    {
        if self.is_undoing || self.is_redoing {
            return ;
        }
        let merge = match &self.current_unit {
            None => false,
            Some(_) => {
                let elapsed = if now_ms >= self.last_push_time {
                    now_ms - self.last_push_time
                } else {
                    0
                };
                elapsed <= HISTORY_WINDOW_MS
            },
        };
        if merge {
            match &mut self.current_unit {
                Some(unit) => {
                    unit.items.push(item);
                },
                None => {},
            }
        } else {
            self.finalize_current_unit();
            let mut items: Vec<HistoryItem> = Vec::new();
            items.push(item);
            self.current_unit = Some(HistoryUnit { items, timestamp: now_ms });
        }
        self.redo_stack.clear();
        self.last_push_time = now_ms;
    }

    /// Whether an undo step is available: a finalized or open unit exists.
    pub fn can_undo(&self) -> (r: bool)
        ensures
            r == (self.undo_units().len() > 0 || self.current() is Some),
    {
        self.undo_stack.len() > 0 || self.current_unit.is_some()
    }

    /// Whether a redo step is available.
    pub fn can_redo(&self) -> (r: bool)
        ensures
            r == (self.redo_units().len() > 0),
    {
        self.redo_stack.len() > 0
    }

    /// Drops all history and the open unit.
    pub fn clear(&mut self)
        ensures
            final(self).wf(),
            final(self).undo_units() == Seq::<HistoryUnit>::empty(),
            final(self).redo_units() == Seq::<HistoryUnit>::empty(),
            final(self).current() is None,
            final(self).spec_last_push() == 0,
            final(self).undoing() == old(self).undoing(),
            final(self).redoing() == old(self).redoing(),
    {
        self.undo_stack.clear();
        self.redo_stack.clear();
        self.current_unit = None;
        self.last_push_time = 0;
    }

    /// Undoes the most recent unit: the open unit is finalized first, the
    /// popped unit's items are applied in reverse with their undo payloads,
    /// and the unit moves to the redo stack. Returns whether a unit was
    /// undone, which is exactly what [`History::can_undo`] reported at
    /// entry.
    pub fn undo(&mut self, objects: &mut ObjectManager, scene: &mut SceneManager) -> (r: bool)
        requires
            old(self).wf(),
            old(objects).wf(),
        ensures
            final(self).wf(),
            r == (old(self).undo_units().len() > 0 || old(self).current() is Some),
            final(objects).wf(),
            final(objects).spec_cell_size() == old(objects).spec_cell_size(),
            !final(self).undoing(),
            final(self).redoing() == old(self).redoing(),
            final(self).current() is None,
            final(self).spec_last_push() == old(self).spec_last_push(),
            ({
                let stacked = finalized_stack(old(self).undo_units(), old(self).current());
                if stacked.len() == 0 {
                    &&& r == false
                    &&& final(self).undo_units() == stacked
                    &&& final(self).redo_units() == old(self).redo_units()
                    &&& final(objects).obs() == old(objects).obs()
                    &&& final(scene).state() == old(scene).state()
                } else {
                    &&& r == true
                    &&& final(self).undo_units() == stacked.drop_last()
                    &&& final(self).redo_units() == old(self).redo_units().push(stacked.last())
                    &&& store_model(*final(objects), *final(scene)) == unit_undo(
                        store_model(*old(objects), *old(scene)),
                        stacked.last().items@,
                    )
                }
            }),
    {
        self.is_undoing = true;
        self.finalize_current_unit();
        let popped = self.undo_stack.pop();
        let r = match popped {
            Some(unit) => {
                apply_history_unit(&unit, true, objects, scene);
                self.redo_stack.push(unit);
                true
            },
            None => false,
        };
        self.is_undoing = false;
        r
    }

    /// Redoes the most recently undone unit: its items are applied in order
    /// with their redo payloads and the unit moves back to the undo stack.
    /// An empty redo stack makes the call a no-op that reports failure:
    /// nothing is finalized or moved. Returns whether a unit was redone.
    pub fn redo(&mut self, objects: &mut ObjectManager, scene: &mut SceneManager) -> (r: bool)
        requires
            old(self).wf(),
            old(objects).wf(),
        ensures
            final(self).wf(),
            final(objects).wf(),
            final(objects).spec_cell_size() == old(objects).spec_cell_size(),
            !final(self).redoing(),
            final(self).undoing() == old(self).undoing(),
            final(self).current() == old(self).current(),
            final(self).spec_last_push() == old(self).spec_last_push(),
            ({
                if old(self).redo_units().len() == 0 {
                    &&& r == false
                    &&& final(self).undo_units() == old(self).undo_units()
                    &&& final(self).redo_units() == old(self).redo_units()
                    &&& *final(objects) == *old(objects)
                    &&& *final(scene) == *old(scene)
                } else {
                    &&& r == true
                    &&& final(self).undo_units() == old(self).undo_units().push(
                        old(self).redo_units().last(),
                    )
                    &&& final(self).redo_units() == old(self).redo_units().drop_last()
                    &&& store_model(*final(objects), *final(scene)) == unit_redo(
                        store_model(*old(objects), *old(scene)),
                        old(self).redo_units().last().items@,
                    )
                }
            }),
    {
        self.is_redoing = true;
        let popped = self.redo_stack.pop();
        let r = match popped {
            Some(unit) => {
                apply_history_unit(&unit, false, objects, scene);
                self.undo_stack.push(unit);
                true
            },
            None => false,
        };
        self.is_redoing = false;
        r
    }

    /// One summary line per finalized undo unit, oldest first: its
    /// timestamp, a human description of its items and its item count.
    pub fn get_history_summary(&self) -> (r: Vec<HistorySummaryItem>)
        ensures
            r@.len() == self.undo_units().len(),
            forall|i: int|
                0 <= i < r@.len() ==> {
                    &&& (#[trigger] r@[i]).timestamp == self.undo_units()[i].timestamp
                    &&& r@[i].item_count == self.undo_units()[i].items@.len()
                    &&& r@[i].description@ == unit_description(self.undo_units()[i].items@)
                },
    {
        let mut r: Vec<HistorySummaryItem> = Vec::new();
        let mut i: usize = 0;
        while i < self.undo_stack.len()
            invariant
                0 <= i <= self.undo_stack@.len(),
                r@.len() == i,
                forall|j: int|
                    0 <= j < i ==> {
                        &&& (#[trigger] r@[j]).timestamp == self.undo_stack@[j].timestamp
                        &&& r@[j].item_count == self.undo_stack@[j].items@.len()
                        &&& r@[j].description@ == unit_description(self.undo_stack@[j].items@)
                    },
            decreases self.undo_stack@.len() - i,
        {
            let unit = &self.undo_stack[i];
            let description: String = if unit.items.len() == 1 {
                match &unit.items[0] {
                    HistoryItem::ObjectUpdate(it) => {
                        let mut s = String::from_str("Object update: ");
                        s.append(it.object_id.as_str());
                        s
                    },
                    HistoryItem::SceneUpdate(_) => String::from_str("Scene update"),
                    HistoryItem::AddElement(it) => {
                        let mut s = String::from_str("Add element: ");
                        s.append(it.element_id.as_str());
                        s
                    },
                    HistoryItem::RemoveElement(it) => {
                        let mut s = String::from_str("Remove element: ");
                        s.append(it.element_id.as_str());
                        s
                    },
                }
            } else {
                describe_counts(&unit.items)
            };
            let entry = HistorySummaryItem {
                timestamp: unit.timestamp,
                description,
                item_count: unit.items.len(),
            };
            r.push(entry);
            i += 1;
        }
        r
    }

    /// Whether the newest undo unit lies past `t`.
    fn undo_top_after(&self, t: u64) -> (r: bool)
        ensures
            r == (self.undo_units().len() > 0 && self.undo_units().last().timestamp > t),
    {
        let n = self.undo_stack.len();
        n > 0 && self.undo_stack[n - 1].timestamp > t
    }

    /// Whether the pending redo unit (top of the redo stack) is at or
    /// before `t`.
    fn redo_top_at_or_before(&self, t: u64) -> (r: bool)
        ensures
            r == (self.redo_units().len() > 0 && self.redo_units().last().timestamp <= t),
    {
        let n = self.redo_stack.len();
        n > 0 && self.redo_stack[n - 1].timestamp <= t
    }

    /// Jumps back to `target_time`: finalizes the open unit, moves every
    /// unit stamped after the target onto the redo stack, then resets the
    /// live state to its initial condition and replays the remaining undo
    /// stack from scratch in forward order.
    pub fn undo_to_time(
        &mut self,
        target_time: u64,
        objects: &mut ObjectManager,
        scene: &mut SceneManager,
    ) -> (r: bool)
        requires
            old(self).wf(),
            old(objects).wf(),
        ensures
            final(self).wf(),
            final(objects).wf(),
            final(objects).spec_cell_size() == old(objects).spec_cell_size(),
            !final(self).undoing(),
            final(self).redoing() == old(self).redoing(),
            final(self).current() is None,
            final(self).spec_last_push() == old(self).spec_last_push(),
            r == true,
            ({
                let stacked = finalized_stack(old(self).undo_units(), old(self).current());
                let k = undo_keep_count(stacked, target_time);
                &&& final(self).undo_units() == stacked.take(k)
                &&& final(self).redo_units() == old(self).redo_units() + stacked.skip(k).reverse()
                &&& store_model(*final(objects), *final(scene)) == units_redo(
                    initial_model(old(scene).state()),
                    stacked.take(k),
                )
            }),
    {
        self.is_undoing = true;
        self.finalize_current_unit();
        let ghost stacked = self.undo_stack@;
        let ghost redo0 = self.redo_stack@;
        proof {
            assert(stacked.take(stacked.len() as int) =~= stacked);
            assert(redo0 + stacked.skip(stacked.len() as int).reverse() =~= redo0);
        }
        while self.undo_top_after(target_time)
            invariant
                self.wf(),
                self.undo_stack@.len() <= stacked.len(),
                self.undo_stack@ == stacked.take(self.undo_stack@.len() as int),
                undo_keep_count(stacked, target_time) == undo_keep_count(
                    self.undo_stack@,
                    target_time,
                ),
                self.redo_stack@ =~= redo0 + stacked.skip(self.undo_stack@.len() as int).reverse(),
                self.current_unit is None,
                self.last_push_time == old(self).spec_last_push(),
                self.is_undoing,
                self.is_redoing == old(self).redoing(),
            decreases self.undo_stack@.len(),
        {
            let ghost pre = self.undo_stack@;
            let ghost oldredo = self.redo_stack@;
            let popped = self.undo_stack.pop();
            match popped {
                Some(unit) => {
                    self.redo_stack.push(unit);
                },
                None => {},
            }
            proof {
                let n = self.undo_stack@.len() as int;
                assert(n == pre.len() - 1);
                assert(pre == stacked.take(pre.len() as int));
                assert(self.undo_stack@ == pre.drop_last());
                assert(self.undo_stack@ =~= stacked.take(n));
                assert(undo_keep_count(pre, target_time) == undo_keep_count(
                    pre.drop_last(),
                    target_time,
                ));
                let moved = pre.last();
                assert(moved == stacked[n]);
                assert(oldredo == redo0 + stacked.skip(n + 1).reverse());
                assert(self.redo_stack@ == oldredo.push(moved));
                let goal = redo0 + stacked.skip(n).reverse();
                assert(goal.len() == self.redo_stack@.len());
                assert forall|j: int| 0 <= j < goal.len() implies goal[j]
                    == self.redo_stack@[j] by {
                    if j < redo0.len() {
                        assert(self.redo_stack@[j] == oldredo[j]);
                    } else if j < goal.len() - 1 {
                        assert(self.redo_stack@[j] == oldredo[j]);
                        assert(oldredo[j] == stacked.skip(n + 1).reverse()[j - redo0.len()]);
                        assert(stacked.skip(n + 1).reverse()[j - redo0.len()] == stacked.skip(
                            n + 1,
                        )[stacked.skip(n + 1).len() - 1 - (j - redo0.len())]);
                        assert(goal[j] == stacked.skip(n).reverse()[j - redo0.len()]);
                        assert(stacked.skip(n).reverse()[j - redo0.len()] == stacked.skip(n)[
                        stacked.skip(n).len() - 1 - (j - redo0.len())]);
                    } else {
                        assert(self.redo_stack@[j] == moved);
                        assert(goal[j] == stacked.skip(n).reverse()[j - redo0.len()]);
                        assert(stacked.skip(n).reverse()[j - redo0.len()] == stacked.skip(n)[
                        stacked.skip(n).len() - 1 - (j - redo0.len())]);
                        assert(stacked.skip(n)[0] == stacked[n]);
                    }
                }
                assert(self.redo_stack@ =~= goal);
            }
        }
        proof {
            assert(undo_keep_count(self.undo_stack@, target_time) == self.undo_stack@.len());
        }
        objects.clear();
        scene.reset_to_initial_state();
        let ghost init = store_model(*objects, *scene);
        proof {
            assert(init == initial_model(old(scene).state()));
            assert(self.undo_stack@.take(0) =~= Seq::<HistoryUnit>::empty());
        }
        let mut idx: usize = 0;
        while idx < self.undo_stack.len()
            invariant
                0 <= idx <= self.undo_stack@.len(),
                self.wf(),
                objects.wf(),
                objects.spec_cell_size() == old(objects).spec_cell_size(),
                store_model(*objects, *scene) == units_redo(init, self.undo_stack@.take(idx as int)),
                self.undo_stack@ == stacked.take(undo_keep_count(stacked, target_time)),
                self.redo_stack@ =~= redo0 + stacked.skip(
                    undo_keep_count(stacked, target_time),
                ).reverse(),
                self.current_unit is None,
                self.last_push_time == old(self).spec_last_push(),
                self.is_undoing,
                self.is_redoing == old(self).redoing(),
                init == initial_model(old(scene).state()),
            decreases self.undo_stack@.len() - idx,
        {
            apply_history_unit(&self.undo_stack[idx], false, objects, scene);
            proof {
                lemma_units_redo_step(init, self.undo_stack@, idx as int);
            }
            idx += 1;
        }
        proof {
            assert(self.undo_stack@.take(self.undo_stack@.len() as int) =~= self.undo_stack@);
        }
        self.is_undoing = false;
        true
    }

    /// Jumps forward to `target_time`: moves every pending redo unit
    /// stamped at or before the target back onto the undo stack, then
    /// resets the live state and replays the whole undo stack from scratch
    /// in forward order.
    pub fn redo_to_time(
        &mut self,
        target_time: u64,
        objects: &mut ObjectManager,
        scene: &mut SceneManager,
    ) -> (r: bool)
        requires
            old(self).wf(),
            old(objects).wf(),
        ensures
            final(self).wf(),
            final(objects).wf(),
            final(objects).spec_cell_size() == old(objects).spec_cell_size(),
            !final(self).redoing(),
            final(self).undoing() == old(self).undoing(),
            final(self).current() == old(self).current(),
            final(self).spec_last_push() == old(self).spec_last_push(),
            r == true,
            ({
                let k = redo_keep_count(old(self).redo_units(), target_time);
                &&& final(self).redo_units() == old(self).redo_units().take(k)
                &&& final(self).undo_units() == old(self).undo_units() + old(
                    self,
                ).redo_units().skip(k).reverse()
                &&& store_model(*final(objects), *final(scene)) == units_redo(
                    initial_model(old(scene).state()),
                    final(self).undo_units(),
                )
            }),
    {
        self.is_redoing = true;
        let ghost redo0 = self.redo_stack@;
        let ghost undo0 = self.undo_stack@;
        proof {
            assert(redo0.take(redo0.len() as int) =~= redo0);
            assert(undo0 + redo0.skip(redo0.len() as int).reverse() =~= undo0);
        }
        while self.redo_top_at_or_before(target_time)
            invariant
                self.wf(),
                self.redo_stack@.len() <= redo0.len(),
                self.redo_stack@ == redo0.take(self.redo_stack@.len() as int),
                redo_keep_count(redo0, target_time) == redo_keep_count(
                    self.redo_stack@,
                    target_time,
                ),
                self.undo_stack@ =~= undo0 + redo0.skip(self.redo_stack@.len() as int).reverse(),
                self.current_unit == old(self).current(),
                self.last_push_time == old(self).spec_last_push(),
                self.is_redoing,
                self.is_undoing == old(self).undoing(),
            decreases self.redo_stack@.len(),
        {
            let ghost pre = self.redo_stack@;
            let ghost oldundo = self.undo_stack@;
            let popped = self.redo_stack.pop();
            match popped {
                Some(unit) => {
                    self.undo_stack.push(unit);
                },
                None => {},
            }
            proof {
                let n = self.redo_stack@.len() as int;
                assert(n == pre.len() - 1);
                assert(pre == redo0.take(pre.len() as int));
                assert(self.redo_stack@ == pre.drop_last());
                assert(self.redo_stack@ =~= redo0.take(n));
                assert(redo_keep_count(pre, target_time) == redo_keep_count(
                    pre.drop_last(),
                    target_time,
                ));
                let moved = pre.last();
                assert(moved == redo0[n]);
                assert(oldundo == undo0 + redo0.skip(n + 1).reverse());
                assert(self.undo_stack@ == oldundo.push(moved));
                let goal = undo0 + redo0.skip(n).reverse();
                assert(goal.len() == self.undo_stack@.len());
                assert forall|j: int| 0 <= j < goal.len() implies goal[j]
                    == self.undo_stack@[j] by {
                    if j < undo0.len() {
                        assert(self.undo_stack@[j] == oldundo[j]);
                    } else if j < goal.len() - 1 {
                        assert(self.undo_stack@[j] == oldundo[j]);
                        assert(oldundo[j] == redo0.skip(n + 1).reverse()[j - undo0.len()]);
                        assert(redo0.skip(n + 1).reverse()[j - undo0.len()] == redo0.skip(n + 1)[
                        redo0.skip(n + 1).len() - 1 - (j - undo0.len())]);
                        assert(goal[j] == redo0.skip(n).reverse()[j - undo0.len()]);
                        assert(redo0.skip(n).reverse()[j - undo0.len()] == redo0.skip(n)[
                        redo0.skip(n).len() - 1 - (j - undo0.len())]);
                    } else {
                        assert(self.undo_stack@[j] == moved);
                        assert(goal[j] == redo0.skip(n).reverse()[j - undo0.len()]);
                        assert(redo0.skip(n).reverse()[j - undo0.len()] == redo0.skip(n)[
                        redo0.skip(n).len() - 1 - (j - undo0.len())]);
                        assert(redo0.skip(n)[0] == redo0[n]);
                    }
                }
                assert(self.undo_stack@ =~= goal);
            }
        }
        proof {
            assert(redo_keep_count(self.redo_stack@, target_time) == self.redo_stack@.len());
        }
        objects.clear();
        scene.reset_to_initial_state();
        let ghost init = store_model(*objects, *scene);
        proof {
            assert(init == initial_model(old(scene).state()));
            assert(self.undo_stack@.take(0) =~= Seq::<HistoryUnit>::empty());
        }
        let ghost undo_now = self.undo_stack@;
        let mut idx: usize = 0;
        while idx < self.undo_stack.len()
            invariant
                0 <= idx <= self.undo_stack@.len(),
                self.wf(),
                objects.wf(),
                objects.spec_cell_size() == old(objects).spec_cell_size(),
                store_model(*objects, *scene) == units_redo(init, self.undo_stack@.take(idx as int)),
                self.undo_stack@ == undo_now,
                undo_now =~= undo0 + redo0.skip(redo_keep_count(redo0, target_time)).reverse(),
                self.redo_stack@ == redo0.take(redo_keep_count(redo0, target_time)),
                self.current_unit == old(self).current(),
                self.last_push_time == old(self).spec_last_push(),
                self.is_redoing,
                self.is_undoing == old(self).undoing(),
                init == initial_model(old(scene).state()),
            decreases self.undo_stack@.len() - idx,
        {
            apply_history_unit(&self.undo_stack[idx], false, objects, scene);
            proof {
                lemma_units_redo_step(init, self.undo_stack@, idx as int);
            }
            idx += 1;
        }
        proof {
            assert(self.undo_stack@.take(self.undo_stack@.len() as int) =~= self.undo_stack@);
        }
        self.is_redoing = false;
        true
    }
}

} // verus!

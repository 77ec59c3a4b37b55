//! The composition root: one explicitly-constructed context holding the
//! object store, the scene state, the history log, the control bus and the
//! color allocator, passed by reference wherever the original design used
//! process-wide singletons.
//!
//! The mutating methods here are the recording path: each one applies the
//! change to the live state and pushes the matching reversible item into
//! the history log. Replay (undo/redo) goes through the history log, which
//! applies items to the same stores directly without recording.

use vstd::prelude::*;

use crate::history::{
    finalized_stack, initial_model, pushed_post, store_model, undo_keep_count, unit_redo,
    unit_undo, ElementHistoryItem, History, HistoryItem, ObjectHistoryItem, SceneHistoryItem,
};
use crate::ids::{ColorAllocator, ColorKey};
use crate::object::{undo_entries, PropPatch, SceneObject};
use crate::object_manager::{spec_update_object, ObjectManager};
use crate::render_control::RenderControl;
use crate::scene::{clamp_zoom, SceneDirtyData, SceneManager};

verus! {

/// The engine context.
#[derive(Debug)]
pub struct App {
    pub object_manager: ObjectManager,
    pub scene_manager: SceneManager,
    pub history: History,
    pub render_control: RenderControl,
    pub allocator: ColorAllocator,
    pub render_requested: bool,
}

impl App {
    /// Whether a render pass has been requested and not yet taken.
    pub open spec fn render_pending(&self) -> bool {
        self.render_requested
    }

    /// Every component is well-formed.
    pub open spec fn wf(&self) -> bool {
        &&& self.object_manager.wf()
        &&& self.history.wf()
        &&& !self.history.undoing()
        &&& !self.history.redoing()
        &&& self.render_control.wf()
        &&& self.allocator.wf()
    }

    /// A fresh engine over the given viewport.
    pub fn new(width: u32, height: u32, dpr: i64) -> (r: App)
        ensures
            r.wf(),
            r.object_manager.obs() == Map::<Seq<char>, crate::object::ObjView>::empty(),
            r.scene_manager.state() == (SceneDirtyData {
                zoom: crate::scene::SCENE_UNIT,
                offset_x: 0i64,
                offset_y: 0i64,
                rotation: 0i64,
                height,
                width,
                dpr,
            }),
            r.history.undo_units() == Seq::<crate::history::HistoryUnit>::empty(),
            r.history.redo_units() == Seq::<crate::history::HistoryUnit>::empty(),
            r.history.current() is None,
            !r.history.undoing(),
            !r.history.redoing(),
            r.allocator.entries() == Seq::<(Seq<char>, ColorKey)>::empty(),
            !r.render_pending(),
    {
        App {
            object_manager: ObjectManager::new(),
            scene_manager: SceneManager::new(width, height, dpr),
            history: History::new(),
            render_control: RenderControl::new(),
            allocator: ColorAllocator::new(),
            render_requested: false,
        }
    }

    /// Flags that a render pass is wanted; repeated requests coalesce.
    pub fn request_render(&mut self)
        ensures
            *final(self) == (App { render_requested: true, ..*old(self) }),
    {
        self.render_requested = true;
    }

    /// Takes the pending render request, if any: returns whether a render
    /// pass is due and clears the flag.
    pub fn take_render_request(&mut self) -> (r: bool)
        ensures
            r == old(self).render_pending(),
            *final(self) == (App { render_requested: false, ..*old(self) }),
    {
        let r = self.render_requested;
        self.render_requested = false;
        r
    }

    /// Adds an object to the store and records an `AddElement` unit item.
    pub fn add(&mut self, object: SceneObject, now_ms: u64)
        requires
            old(self).wf(),
            object.wf(),
        ensures
            final(self).wf(),
            final(self).object_manager.obs() == old(self).object_manager.obs().insert(
                object.id_seq(),
                object.obs(),
            ),
            final(self).scene_manager == old(self).scene_manager,
            final(self).render_pending(),
            exists|item: HistoryItem|
                {
                    &&& #[trigger] pushed_post(old(self).history, final(self).history, item, now_ms)
                    &&& item matches HistoryItem::AddElement(it) && it.element_id@
                        == object.id_seq() && it.element_data.obs() == object.obs()
                        && it.element_type@ == object.type_seq() && it.timestamp == now_ms
                },
    {
        let element_id = String::from_str(object.id().value());
        let element_type = String::from_str(object.element_type());
        let snapshot = object.clone_object();
        self.object_manager.add(object);
        let item = HistoryItem::AddElement(
            ElementHistoryItem::new(element_id, element_type, snapshot, now_ms),
        );
        let ghost gitem = item;
        self.history.push(item, now_ms);
        self.render_requested = true;
        proof {
            assert(pushed_post(old(self).history, self.history, gitem, now_ms));
        }
    }

    /// Removes an object, records a `RemoveElement` item carrying its full
    /// snapshot, and hands the object to the caller.
    pub fn remove(&mut self, id: &str, now_ms: u64) -> (r: Option<SceneObject>)
        requires
            old(self).wf(),
        ensures
            final(self).wf(),
            final(self).object_manager.obs() == old(self).object_manager.obs().remove(id@),
            final(self).scene_manager == old(self).scene_manager,
            r is Some <==> old(self).object_manager.obs().contains_key(id@),
            r matches Some(o) ==> o.obs() == old(self).object_manager.obs()[id@],
            old(self).object_manager.obs().contains_key(id@) ==> final(self).render_pending()
                && exists|item: HistoryItem|
                {
                    &&& #[trigger] pushed_post(old(self).history, final(self).history, item, now_ms)
                    &&& item matches HistoryItem::RemoveElement(it) && it.element_id@ == id@
                        && it.element_data.obs() == old(self).object_manager.obs()[id@]
                        && it.timestamp == now_ms
                },
            !old(self).object_manager.obs().contains_key(id@) ==> final(self).history == old(self).history && final(self).render_pending() == old(self).render_pending(),
    {
        let removed = self.object_manager.remove(id);
        match removed {
            Some(object) => {
                let element_id = String::from_str(object.id().value());
                let element_type = String::from_str(object.element_type());
                let snapshot = object.clone_object();
                let item = HistoryItem::RemoveElement(
                    ElementHistoryItem::new(element_id, element_type, snapshot, now_ms),
                );
                let ghost gitem = item;
                self.history.push(item, now_ms);
                self.render_requested = true;
                proof {
                    assert(pushed_post(old(self).history, self.history, gitem, now_ms));
                }
                Some(object)
            },
            None => None,
        }
    }

    /// A read-only view of one object.
    pub fn get(&self, id: &str) -> (r: Option<&SceneObject>)
        requires
            self.wf(),
        ensures
            r is Some <==> self.object_manager.obs().contains_key(id@),
            r matches Some(o) ==> o.obs() == self.object_manager.obs()[id@] && o.wf(),
    {
        self.object_manager.get(id)
    }

    /// Whether an object with this id is stored.
    pub fn contains(&self, id: &str) -> (r: bool)
        ensures
            r == self.object_manager.obs().contains_key(id@),
    {
        self.object_manager.contains(id)
    }

    /// How many objects are stored.
    pub fn len(&self) -> (r: usize)
        requires
            self.wf(),
        ensures
            r == self.object_manager.obs().dom().len(),
    {
        self.object_manager.len()
    }

    /// Whether the store is empty.
    pub fn is_empty(&self) -> (r: bool)
        requires
            self.wf(),
        ensures
            r == (self.object_manager.obs().dom().len() == 0),
    {
        self.object_manager.is_empty()
    }

    /// Empties the object store; history is left alone.
    pub fn clear(&mut self)
        requires
            old(self).wf(),
        ensures
            final(self).wf(),
            final(self).object_manager.obs() == Map::<Seq<char>, crate::object::ObjView>::empty(),
            final(self).history == old(self).history,
            final(self).scene_manager == old(self).scene_manager,
    {
        self.object_manager.clear();
    }

    /// Read-only snapshots of all stored objects.
    pub fn get_objects(&self) -> (r: Vec<SceneObject>)
        requires
            self.wf(),
        ensures
            r@.len() == self.object_manager.obs().dom().len(),
            forall|i: int|
                0 <= i < r@.len() ==> self.object_manager.obs().contains_key(
                    (#[trigger] r@[i]).id_seq(),
                ) && self.object_manager.obs()[r@[i].id_seq()] == r@[i].obs(),
    {
        self.object_manager.get_objects()
    }

    /// Applies a property patch to one object, capturing its inverse
    /// against the current state, and records an `ObjectUpdate` item. An
    /// unknown id changes nothing and is reported with `false`.
    pub fn update_object_props(&mut self, id: &str, patch: &PropPatch, now_ms: u64) -> (r: bool)
        requires
            old(self).wf(),
        ensures
            final(self).wf(),
            r == old(self).object_manager.obs().contains_key(id@),
            final(self).object_manager.obs() == spec_update_object(
                old(self).object_manager.obs(),
                id@,
                patch.entries@,
            ),
            final(self).scene_manager == old(self).scene_manager,
            r ==> final(self).render_pending() && exists|item: HistoryItem|
                {
                    &&& #[trigger] pushed_post(old(self).history, final(self).history, item, now_ms)
                    &&& item matches HistoryItem::ObjectUpdate(it) && it.object_id@ == id@
                        && it.redo_data.entries@ == patch.entries@ && it.undo_data.entries@
                        == undo_entries(old(self).object_manager.obs()[id@].props, patch.entries@)
                        && it.timestamp == now_ms
                },
            !r ==> final(self).history == old(self).history,
    {
        let found = self.object_manager.get(id);
        match found {
            Some(object) => {
                let undo_data = object.capture_undo(patch);
                let redo_data = PropPatch { entries: clone_entries(&patch.entries) };
                let item = HistoryItem::ObjectUpdate(
                    ObjectHistoryItem::new(String::from_str(id), undo_data, redo_data, now_ms),
                );
                let ghost gitem = item;
                self.object_manager.update_object(id, patch);
                self.history.push(item, now_ms);
                self.render_requested = true;
                proof {
                    assert(pushed_post(old(self).history, self.history, gitem, now_ms));
                }
                true
            },
            None => false,
        }
    }

    /// Sets the zoom and records the scene change.
    pub fn set_zoom(&mut self, zoom: i64, now_ms: u64)
        requires
            old(self).wf(),
        ensures
            final(self).wf(),
            final(self).scene_manager.state() == (SceneDirtyData {
                zoom: clamp_zoom(zoom),
                ..old(self).scene_manager.state()
            }),
            final(self).object_manager.obs() == old(self).object_manager.obs(),
            final(self).render_pending(),
            scene_change_recorded(
                old(self).history,
                final(self).history,
                old(self).scene_manager.state(),
                final(self).scene_manager.state(),
                now_ms,
            ),
    {
        let old_data = self.scene_manager.get_dirty_data();
        self.scene_manager.set_zoom(zoom);
        self.record_scene_change(old_data, now_ms);
    }

    /// Sets the offset and records the scene change.
    pub fn set_offset(&mut self, x: i64, y: i64, now_ms: u64)
        requires
            old(self).wf(),
        ensures
            final(self).wf(),
            final(self).scene_manager.state() == (SceneDirtyData {
                offset_x: crate::scene::clamp_coord(x),
                offset_y: crate::scene::clamp_coord(y),
                ..old(self).scene_manager.state()
            }),
            final(self).object_manager.obs() == old(self).object_manager.obs(),
            final(self).render_pending(),
            scene_change_recorded(
                old(self).history,
                final(self).history,
                old(self).scene_manager.state(),
                final(self).scene_manager.state(),
                now_ms,
            ),
    {
        let old_data = self.scene_manager.get_dirty_data();
        self.scene_manager.set_offset(x, y);
        self.record_scene_change(old_data, now_ms);
    }

    /// Sets the rotation (reduced modulo one full turn) and records the
    /// scene change.
    pub fn set_rotation(&mut self, rotation: i64, now_ms: u64)
        requires
            old(self).wf(),
        ensures
            final(self).wf(),
            final(self).scene_manager.state() == (SceneDirtyData {
                rotation: crate::scene::wrap_rotation(rotation),
                ..old(self).scene_manager.state()
            }),
            final(self).object_manager.obs() == old(self).object_manager.obs(),
            final(self).render_pending(),
            scene_change_recorded(
                old(self).history,
                final(self).history,
                old(self).scene_manager.state(),
                final(self).scene_manager.state(),
                now_ms,
            ),
    {
        let old_data = self.scene_manager.get_dirty_data();
        self.scene_manager.set_rotation(rotation);
        self.record_scene_change(old_data, now_ms);
    }

    /// Pans the offset and records the scene change.
    pub fn pan(&mut self, dx: i64, dy: i64, now_ms: u64)
        requires
            old(self).wf(),
        ensures
            final(self).wf(),
            final(self).object_manager.obs() == old(self).object_manager.obs(),
            final(self).render_pending(),
            scene_change_recorded(
                old(self).history,
                final(self).history,
                old(self).scene_manager.state(),
                final(self).scene_manager.state(),
                now_ms,
            ),
    {
        let old_data = self.scene_manager.get_dirty_data();
        self.scene_manager.pan(dx, dy);
        self.record_scene_change(old_data, now_ms);
    }

    /// Records one scene change as a `SceneUpdate` item and requests a
    /// render pass.
    fn record_scene_change(&mut self, old_data: SceneDirtyData, now_ms: u64)
        requires
            old(self).history.wf(),
            !old(self).history.undoing(),
            !old(self).history.redoing(),
        ensures
            final(self).history.wf(),
            *final(self) == (App {
                history: final(self).history,
                render_requested: true,
                ..*old(self)
            }),
            scene_change_recorded(
                old(self).history,
                final(self).history,
                old_data,
                old(self).scene_manager.state(),
                now_ms,
            ),
    {
        let new_data = self.scene_manager.get_dirty_data();
        let item = HistoryItem::SceneUpdate(SceneHistoryItem::new(old_data, new_data, now_ms));
        self.history.push(item, now_ms);
        self.render_requested = true;
    }

    /// Undoes the most recent unit against the live state. Returns whether
    /// a unit was undone, which is exactly what `can_undo` reported at
    /// entry.
    pub fn undo(&mut self) -> (r: bool)
        requires
            old(self).wf(),
        ensures
            final(self).wf(),
            r == (old(self).history.undo_units().len() > 0 || old(self).history.current()
                is Some),
            final(self).history.current() is None,
            ({
                let stacked = finalized_stack(
                    old(self).history.undo_units(),
                    old(self).history.current(),
                );
                if stacked.len() == 0 {
                    r == false && final(self).object_manager.obs() == old(self).object_manager.obs() && final(self).scene_manager.state() == old(self).scene_manager.state() && final(self).history.undo_units() == stacked && final(self).history.redo_units() == old(self).history.redo_units()
                } else {
                    r == true && store_model(final(self).object_manager, final(self).scene_manager)
                        == unit_undo(
                        store_model(old(self).object_manager, old(self).scene_manager),
                        stacked.last().items@,
                    ) && final(self).history.undo_units() == stacked.drop_last() && final(self).history.redo_units() == old(self).history.redo_units().push(stacked.last())
                }
            }),
    {
        let r = self.history.undo(&mut self.object_manager, &mut self.scene_manager);
        if r {
            self.render_requested = true;
        }
        r
    }

    /// Redoes the most recently undone unit against the live state; with
    /// nothing to redo it reports failure and changes nothing.
    pub fn redo(&mut self) -> (r: bool)
        requires
            old(self).wf(),
        ensures
            final(self).wf(),
            final(self).history.current() == old(self).history.current(),
            ({
                if old(self).history.redo_units().len() == 0 {
                    r == false && final(self).object_manager == old(self).object_manager
                        && final(self).scene_manager == old(self).scene_manager && final(self).history.undo_units() == old(self).history.undo_units() && final(self).history.redo_units() == old(self).history.redo_units()
                } else {
                    r == true && store_model(final(self).object_manager, final(self).scene_manager)
                        == unit_redo(
                        store_model(old(self).object_manager, old(self).scene_manager),
                        old(self).history.redo_units().last().items@,
                    ) && final(self).history.undo_units() == old(self).history.undo_units().push(
                        old(self).history.redo_units().last(),
                    ) && final(self).history.redo_units() == old(self).history.redo_units().drop_last()
                }
            }),
    {
        let r = self.history.redo(&mut self.object_manager, &mut self.scene_manager);
        if r {
            self.render_requested = true;
        }
        r
    }

    /// Jumps the live state back to `target_time`; see
    /// [`History::undo_to_time`].
    pub fn undo_to_time(&mut self, target_time: u64) -> (r: bool)
        requires
            old(self).wf(),
        ensures
            final(self).wf(),
            r == true,
            ({
                let stacked = finalized_stack(
                    old(self).history.undo_units(),
                    old(self).history.current(),
                );
                let k = undo_keep_count(stacked, target_time);
                final(self).history.undo_units() == stacked.take(k) && store_model(
                    final(self).object_manager,
                    final(self).scene_manager,
                ) == crate::history::units_redo(
                    initial_model(old(self).scene_manager.state()),
                    stacked.take(k),
                )
            }),
    {
        let r = self.history.undo_to_time(
            target_time,
            &mut self.object_manager,
            &mut self.scene_manager,
        );
        self.render_requested = true;
        r
    }

    /// Jumps the live state forward to `target_time`; see
    /// [`History::redo_to_time`].
    pub fn redo_to_time(&mut self, target_time: u64) -> (r: bool)
        requires
            old(self).wf(),
        ensures
            final(self).wf(),
            r == true,
            store_model(final(self).object_manager, final(self).scene_manager)
                == crate::history::units_redo(
                initial_model(old(self).scene_manager.state()),
                final(self).history.undo_units(),
            ),
    {
        let r = self.history.redo_to_time(
            target_time,
            &mut self.object_manager,
            &mut self.scene_manager,
        );
        self.render_requested = true;
        r
    }

    /// Resolves a color key sampled from the identity buffer back to the
    /// stored object it belongs to.
    pub fn get_trigger_object(&self, color: ColorKey) -> (r: Option<&SceneObject>)
        requires
            self.wf(),
        ensures
            r matches Some(o) ==> {
                &&& self.object_manager.obs().contains_key(o.id_seq())
                &&& o.obs() == self.object_manager.obs()[o.id_seq()]
                &&& exists|i: int|
                    0 <= i < self.allocator.entries().len() && #[trigger] self.allocator.entries()[i]
                        == (o.id_seq(), color)
            },
            r is None ==> !crate::ids::seq_contains_color(self.allocator.entries(), color) || (
            forall|i: int|
                0 <= i < self.allocator.entries().len() ==> ((#[trigger] self.allocator.entries()[i]).1
                    == color ==> !self.object_manager.obs().contains_key(
                    self.allocator.entries()[i].0,
                ))),
    {
        let id = self.allocator.get_id_by_color(color);
        match id {
            Some(id) => {
                let found = self.object_manager.get(id.as_str());
                proof {
                    if found is None {
                        assert forall|i: int|
                            0 <= i < self.allocator.entries().len() && (
                            #[trigger] self.allocator.entries()[i]).1
                                == color implies !self.object_manager.obs().contains_key(
                            self.allocator.entries()[i].0,
                        ) by {
                            let w = choose|w: int|
                                0 <= w < self.allocator.entries().len()
                                    && #[trigger] self.allocator.entries()[w] == (id@, color);
                            crate::ids::lemma_id_color_inverse(&self.allocator, i, w);
                        }
                    }
                }
                found
            },
            None => None,
        }
    }
}

/// A vector of property entries, copied.
fn clone_entries(entries: &Vec<crate::object::PropEntry>) -> (r: Vec<crate::object::PropEntry>)
    ensures
        r@ == entries@,
{
    let mut r: Vec<crate::object::PropEntry> = Vec::new();
    let mut i: usize = 0;
    while i < entries.len()
        invariant
            0 <= i <= entries@.len(),
            r@ == entries@.take(i as int),
        decreases entries@.len() - i,
    {
        r.push(entries[i]);
        proof {
            assert(r@ =~= entries@.take(i + 1));
        }
        i += 1;
    }
    proof {
        assert(entries@.take(entries@.len() as int) =~= entries@);
    }
    r
}

/// What a recorded scene change guarantees of the history log: the pushed
/// item is a `SceneUpdate` holding the snapshots before and after.
pub open spec fn scene_change_recorded(
    h0: History,
    h1: History,
    old_data: SceneDirtyData,
    new_data: SceneDirtyData,
    now_ms: u64,
) -> bool {
    exists|item: HistoryItem|
        {
            &&& #[trigger] pushed_post(h0, h1, item, now_ms)
            &&& item matches HistoryItem::SceneUpdate(it) && it.undo_data == old_data
                && it.redo_data == new_data && it.timestamp == now_ms
        }
}

} // verus!

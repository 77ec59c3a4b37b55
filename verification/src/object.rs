//! The scene-object model: an object is its identity, an element-type tag, a
//! vector of integer-valued properties and a dirty flag.
//!
//! A mutation is a [`PropPatch`]: an ordered list of `(key, value)`
//! assignments over the property vector. Applying a patch overwrites the
//! listed properties; an assignment to an unknown key is ignored. For every
//! patch an inverse patch can be captured from the pre-state
//! ([`SceneObject::capture_undo`]); applying the patch and then its capture
//! restores the property vector exactly ([`lemma_patch_round_trip`]), which
//! is what the history log's undo payloads rely on.

use vstd::prelude::*;

use crate::ids::{ColorKey, ObjectId};
use crate::text::dec_string;

verus! {

/// Index of the x coordinate within an object's property vector.
pub const PROP_X: usize = 0;

/// Index of the y coordinate within an object's property vector.
pub const PROP_Y: usize = 1;

/// One property assignment: set property `key` to `value`.
#[derive(Clone, Copy, Debug, PartialEq, Eq, Structural)]
pub struct PropEntry {
    pub key: usize,
    pub value: i64,
}

/// An ordered list of property assignments, applied first to last.
#[derive(Clone, Debug)]
pub struct PropPatch {
    pub entries: Vec<PropEntry>,
}

/// The property vector after one assignment: an unknown key is ignored.
pub open spec fn apply_entry(props: Seq<i64>, e: PropEntry) -> Seq<i64> {
    if e.key < props.len() {
        props.update(e.key as int, e.value)
    } else {
        props
    }
}

/// The property vector after a list of assignments, applied in order.
pub open spec fn apply_entries(props: Seq<i64>, entries: Seq<PropEntry>) -> Seq<i64>
    decreases entries.len(),
{
    if entries.len() == 0 {
        props
    } else {
        apply_entries(apply_entry(props, entries[0]), entries.skip(1))
    }
}

/// The inverse of one assignment, captured against the state it is about to
/// change: empty if the key is unknown.
pub open spec fn capture_entry(props: Seq<i64>, e: PropEntry) -> Seq<PropEntry> {
    if e.key < props.len() {
        seq![PropEntry { key: e.key, value: props[e.key as int] }]
    } else {
        Seq::<PropEntry>::empty()
    }
}

/// The inverse of a list of assignments. Later assignments are reverted
/// first, so the capture of the head comes last.
pub open spec fn undo_entries(props: Seq<i64>, entries: Seq<PropEntry>) -> Seq<PropEntry>
    decreases entries.len(),
{
    if entries.len() == 0 {
        Seq::<PropEntry>::empty()
    } else {
        undo_entries(apply_entry(props, entries[0]), entries.skip(1)) + capture_entry(
            props,
            entries[0],
        )
    }
}

/// Applying a concatenation of assignment lists is applying one after the
/// other.
pub proof fn lemma_apply_entries_concat(props: Seq<i64>, a: Seq<PropEntry>, b: Seq<PropEntry>)
    ensures
        apply_entries(props, a + b) == apply_entries(apply_entries(props, a), b),
    decreases a.len(),
{
    if a.len() == 0 {
        assert(a + b =~= b);
    } else {
        assert((a + b)[0] == a[0]);
        assert((a + b).skip(1) =~= a.skip(1) + b);
        lemma_apply_entries_concat(apply_entry(props, a[0]), a.skip(1), b);
    }
}

/// Patch round trip: applying a patch and then its captured inverse leaves
/// the property vector as it was.
pub proof fn lemma_patch_round_trip(props: Seq<i64>, entries: Seq<PropEntry>)
    ensures
        apply_entries(apply_entries(props, entries), undo_entries(props, entries)) == props,
    decreases entries.len(),
{
    if entries.len() == 0 {
        assert(undo_entries(props, entries) =~= Seq::<PropEntry>::empty());
    } else {
        let e = entries[0];
        let props1 = apply_entry(props, e);
        let rest = entries.skip(1);
        lemma_patch_round_trip(props1, rest);
        lemma_apply_entries_concat(
            apply_entries(props1, rest),
            undo_entries(props1, rest),
            capture_entry(props, e),
        );
        let cap = capture_entry(props, e);
        if e.key < props.len() {
            assert(cap.skip(1) =~= Seq::<PropEntry>::empty());
            assert(apply_entries(props1, cap) == apply_entries(apply_entry(props1, cap[0]), cap.skip(
                1,
            )));
            assert(apply_entry(props1, cap[0]) =~= props);
        } else {
            assert(apply_entries(props1, cap) == props1);
            assert(props1 == props);
        }
    }
}

/// Capturing over a list extended at the end prepends the capture of the new
/// assignment, taken against the state after the earlier assignments.
pub proof fn lemma_undo_entries_snoc(props: Seq<i64>, a: Seq<PropEntry>, e: PropEntry)
    ensures
        undo_entries(props, a + seq![e]) == capture_entry(apply_entries(props, a), e)
            + undo_entries(props, a),
    decreases a.len(),
{
    if a.len() == 0 {
        assert(a + seq![e] =~= seq![e]);
        assert((seq![e]).skip(1) =~= Seq::<PropEntry>::empty());
        assert(undo_entries(props, seq![e]) == undo_entries(
            apply_entry(props, e),
            Seq::<PropEntry>::empty(),
        ) + capture_entry(props, e));
        assert(undo_entries(apply_entry(props, e), Seq::<PropEntry>::empty())
            == Seq::<PropEntry>::empty());
        assert(Seq::<PropEntry>::empty() + capture_entry(props, e) =~= capture_entry(props, e));
        assert(capture_entry(apply_entries(props, a), e) + undo_entries(props, a) =~= capture_entry(
            props,
            e,
        ));
    } else {
        assert((a + seq![e])[0] == a[0]);
        assert((a + seq![e]).skip(1) =~= a.skip(1) + seq![e]);
        lemma_undo_entries_snoc(apply_entry(props, a[0]), a.skip(1), e);
        assert(undo_entries(props, a + seq![e]) =~= capture_entry(apply_entries(props, a), e)
            + undo_entries(props, a));
    }
}

/// A failure while assigning object properties.
#[derive(Clone, Debug)]
pub enum AnimationError {
    /// The named property does not exist on the object.
    InvalidProperty(String),
    /// The property exists but cannot take the supplied kind of value.
    UnsupportedPropertyType(String),
}

impl AnimationError {
    /// The offending property, as carried by the error.
    pub fn detail(&self) -> (r: &str)
        ensures
            (self matches AnimationError::InvalidProperty(d) ==> r@ == d@),
            (self matches AnimationError::UnsupportedPropertyType(d) ==> r@ == d@),
    {
        match self {
            AnimationError::InvalidProperty(d) => d.as_str(),
            AnimationError::UnsupportedPropertyType(d) => d.as_str(),
        }
    }
}

/// An object with pending changes is dirty: its last render is stale.
pub trait Dirty: Sized {
    /// Whether the object currently has pending changes.
    spec fn dirty_flag(&self) -> bool;

    /// The same object with the flag set to `flag` and nothing else changed.
    spec fn with_dirty(&self, flag: bool) -> Self;

    /// Marks the object dirty.
    fn set_dirty(&mut self)
        ensures
            *final(self) == old(self).with_dirty(true),
    ;

    /// Sets the flag to `is_dirty`.
    fn set_dirty_flag(&mut self, is_dirty: bool)
        ensures
            *final(self) == old(self).with_dirty(is_dirty),
    ;

    /// Reads the flag.
    fn is_dirty(&self) -> (r: bool)
        ensures
            r == self.dirty_flag(),
    ;
}

/// What the rest of the pipeline observes of an object: its identity, its
/// element type and its property vector. The dirty flag is render-pass
/// bookkeeping and deliberately left out.
pub ghost struct ObjView {
    pub id: Seq<char>,
    pub color: ColorKey,
    pub element_type: Seq<char>,
    pub props: Seq<i64>,
}

/// One live scene object.
#[derive(Clone, Debug)]
pub struct SceneObject {
    id: ObjectId,
    element_type: String,
    props: Vec<i64>,
    dirty: bool,
}

impl SceneObject {
    /// The object's identity.
    pub closed spec fn spec_id(&self) -> ObjectId {
        self.id
    }

    /// The object's id string.
    pub open spec fn id_seq(&self) -> Seq<char> {
        self.spec_id().id_seq()
    }

    /// The element-type tag.
    pub closed spec fn type_seq(&self) -> Seq<char> {
        self.element_type@
    }

    /// The property vector.
    pub closed spec fn props_seq(&self) -> Seq<i64> {
        self.props@
    }

    /// Well-formed: the x and y properties exist.
    pub open spec fn wf(&self) -> bool {
        self.props_seq().len() >= 2
    }

    /// The observable part of the object.
    pub open spec fn obs(&self) -> ObjView {
        ObjView {
            id: self.id_seq(),
            color: self.spec_id().color_key(),
            element_type: self.type_seq(),
            props: self.props_seq(),
        }
    }

    /// Builds an object from an identity, a type tag and initial properties;
    /// a new object starts dirty, so that the first render pass picks it up.
    pub fn new(id: ObjectId, element_type: String, props: Vec<i64>) -> (r: SceneObject)
        requires
            props@.len() >= 2,
        ensures
            r.wf(),
            r.spec_id() == id,
            r.type_seq() == element_type@,
            r.props_seq() == props@,
            r.dirty_flag(),
    {
        SceneObject { id, element_type, props, dirty: true }
    }

    /// An owned copy of the object, observably equal and with the same
    /// dirty flag.
    pub fn clone_object(&self) -> (r: SceneObject)
        ensures
            r.obs() == self.obs(),
            r.dirty_flag() == self.dirty_flag(),
    {
        SceneObject {
            id: self.id.duplicate(),
            element_type: self.element_type.clone(),
            props: self.props.clone(),
            dirty: self.dirty,
        }
    }

    /// The object's identity.
    pub fn id(&self) -> (r: &ObjectId)
        ensures
            *r == self.spec_id(),
    {
        &self.id
    }

    /// The element-type tag.
    pub fn element_type(&self) -> (r: &str)
        ensures
            r@ == self.type_seq(),
    {
        self.element_type.as_str()
    }

    /// How many properties the object has.
    pub fn prop_count(&self) -> (r: usize)
        ensures
            r == self.props_seq().len(),
    {
        self.props.len()
    }

    /// Reads one property.
    pub fn get_prop(&self, key: usize) -> (r: Option<i64>)
        ensures
            key < self.props_seq().len() ==> r == Some(self.props_seq()[key as int]),
            key >= self.props_seq().len() ==> r is None,
    {
        if key < self.props.len() {
            Some(self.props[key])
        } else {
            None
        }
    }

    /// The object's position: its x and y properties.
    pub fn position(&self) -> (r: (i64, i64))
        requires
            self.wf(),
        ensures
            r == (self.props_seq()[PROP_X as int], self.props_seq()[PROP_Y as int]),
    {
        (self.props[PROP_X], self.props[PROP_Y])
    }

    /// Assigns one property and marks the object dirty; an unknown key is
    /// rejected and changes nothing.
    pub fn set_prop(&mut self, key: usize, value: i64) -> (r: Result<(), AnimationError>)
        ensures
            r is Ok <==> key < old(self).props_seq().len(),
            r is Ok ==> final(self).props_seq() == old(self).props_seq().update(
                key as int,
                value,
            ) && final(self).dirty_flag(),
            r is Err ==> *final(self) == *old(self),
            final(self).spec_id() == old(self).spec_id(),
            final(self).type_seq() == old(self).type_seq(),
    {
        if key < self.props.len() {
            self.props.set(key, value);
            self.dirty = true;
            Ok(())
        } else {
            Err(AnimationError::InvalidProperty(dec_string(key as u64)))
        }
    }

    /// Applies a patch: every listed assignment in order, unknown keys
    /// ignored. The dirty flag is untouched; batched updates arrive through
    /// the control bus after the owning setter already marked the object.
    pub fn update(&mut self, data: &PropPatch) -> (r: ())
        ensures
            final(self).props_seq() == apply_entries(old(self).props_seq(), data.entries@),
            final(self).spec_id() == old(self).spec_id(),
            final(self).type_seq() == old(self).type_seq(),
            final(self).dirty_flag() == old(self).dirty_flag(),
            final(self).props_seq().len() == old(self).props_seq().len(),
    {
        let ghost orig = self.props@;
        let mut i: usize = 0;
        while i < data.entries.len()
            invariant
                0 <= i <= data.entries@.len(),
                self.props@ == apply_entries(orig, data.entries@.take(i as int)),
                self.spec_id() == old(self).spec_id(),
                self.type_seq() == old(self).type_seq(),
                self.dirty_flag() == old(self).dirty_flag(),
                orig == old(self).props_seq(),
            decreases data.entries@.len() - i,
        {
            let e = data.entries[i];
            if e.key < self.props.len() {
                self.props.set(e.key, e.value);
            }
            proof {
                lemma_apply_entries_snoc(orig, data.entries@.take(i as int), e);
                assert(data.entries@.take(i as int) + seq![e] =~= data.entries@.take(i + 1));
            }
            i += 1;
        }
        proof {
            assert(data.entries@.take(data.entries@.len() as int) =~= data.entries@);
        }
        proof {
            lemma_apply_entries_len(orig, data.entries@);
        }
    }

    /// Captures the inverse of `data` against the object's current state:
    /// applying `data` and then the returned patch restores the properties.
    pub fn capture_undo(&self, data: &PropPatch) -> (u: PropPatch)
        ensures
            u.entries@ == undo_entries(self.props_seq(), data.entries@),
    {
        let ghost orig = self.props@;
        let mut current = self.props.clone();
        let mut captured: Vec<PropEntry> = Vec::new();
        proof {
            assert(current@ == orig);
        }
        let mut i: usize = 0;
        while i < data.entries.len()
            invariant
                0 <= i <= data.entries@.len(),
                current@ == apply_entries(orig, data.entries@.take(i as int)),
                captured@ == undo_entries(orig, data.entries@.take(i as int)),
                orig == self.props_seq(),
            decreases data.entries@.len() - i,
        {
            let e = data.entries[i];
            if e.key < current.len() {
                captured.insert(0, PropEntry { key: e.key, value: current[e.key] });
                current.set(e.key, e.value);
            }
            proof {
                lemma_apply_entries_snoc(orig, data.entries@.take(i as int), e);
                lemma_undo_entries_snoc(orig, data.entries@.take(i as int), e);
                assert(data.entries@.take(i as int) + seq![e] =~= data.entries@.take(i + 1));
                if e.key < apply_entries(orig, data.entries@.take(i as int)).len() {
                    assert(captured@ =~= capture_entry(
                        apply_entries(orig, data.entries@.take(i as int)),
                        e,
                    ) + undo_entries(orig, data.entries@.take(i as int)));
                } else {
                    assert(captured@ =~= capture_entry(
                        apply_entries(orig, data.entries@.take(i as int)),
                        e,
                    ) + undo_entries(orig, data.entries@.take(i as int)));
                }
            }
            i += 1;
        }
        proof {
            assert(data.entries@.take(data.entries@.len() as int) =~= data.entries@);
        }
        PropPatch { entries: captured }
    }
}

/// Applying a list extended at the end is applying the list and then the new
/// assignment.
pub proof fn lemma_apply_entries_snoc(props: Seq<i64>, a: Seq<PropEntry>, e: PropEntry)
    ensures
        apply_entries(props, a + seq![e]) == apply_entry(apply_entries(props, a), e),
    decreases a.len(),
{
    lemma_apply_entries_concat(props, a, seq![e]);
    let q = apply_entries(props, a);
    assert((seq![e]).skip(1) =~= Seq::<PropEntry>::empty());
    assert(apply_entries(q, seq![e]) == apply_entries(apply_entry(q, e), (seq![e]).skip(1)));
    assert(apply_entries(apply_entry(q, e), Seq::<PropEntry>::empty()) == apply_entry(q, e));
}

/// Applying assignments never changes how many properties there are.
pub proof fn lemma_apply_entries_len(props: Seq<i64>, entries: Seq<PropEntry>)
    ensures
        apply_entries(props, entries).len() == props.len(),
    decreases entries.len(),
{
    if entries.len() > 0 {
        lemma_apply_entries_len(apply_entry(props, entries[0]), entries.skip(1));
    }
}

impl Dirty for SceneObject {
    closed spec fn dirty_flag(&self) -> bool {
        self.dirty
    }

    closed spec fn with_dirty(&self, flag: bool) -> SceneObject {
        SceneObject { dirty: flag, ..*self }
    }

    fn set_dirty(&mut self) {
        self.dirty = true;
    }

    fn set_dirty_flag(&mut self, is_dirty: bool) {
        self.dirty = is_dirty;
    }

    fn is_dirty(&self) -> (r: bool) {
        self.dirty
    }
}

/// Setting the dirty flag changes nothing observable.
pub proof fn lemma_with_dirty_obs(o: SceneObject, flag: bool)
    ensures
        o.with_dirty(flag).obs() == o.obs(),
        o.with_dirty(flag).dirty_flag() == flag,
        o.with_dirty(flag).wf() == o.wf(),
{
}

} // verus!

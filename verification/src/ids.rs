//! Object identities for hit-testing: each object carries an opaque string
//! id and a unique 4-byte color key, so that a pixel sampled from the
//! identity buffer can be decoded back to the owning object.
//!
//! The [`ColorAllocator`] keeps the id/color association bidirectional and
//! collision-free: within one allocator, ids are pairwise distinct and color
//! keys are pairwise distinct, so the mapping is a bijection between the ids
//! and the color keys issued so far.

use vstd::prelude::*;

use crate::text::{dec_rep, dec_string, hex_rep, hex_string};

verus! {

/// A 4-byte RGBA color key; the alpha channel of every issued key is 255.
#[derive(Clone, Copy, Debug, PartialEq, Eq, Hash, Structural)]
pub struct ColorKey {
    pub red: u8,
    pub green: u8,
    pub blue: u8,
    pub alpha: u8,
}

/// The CSS color literal a color key paints with: `rgba(r,g,b,a)`.
pub open spec fn rgba_rep(c: ColorKey) -> Seq<char> {
    "rgba("@ + dec_rep(c.red as nat) + ","@ + dec_rep(c.green as nat) + ","@ + dec_rep(
        c.blue as nat,
    ) + ","@ + dec_rep(c.alpha as nat) + ")"@
}

impl ColorKey {
    /// The CSS color literal for the identity-buffer render pass, which
    /// draws each object with its color key as a flat fill.
    pub fn css_string(&self) -> (r: String)
        ensures
            r@ == rgba_rep(*self),
    {
        let mut s = String::from_str("rgba(");
        let red = dec_string(self.red as u64);
        s.append(red.as_str());
        s.append(",");
        let green = dec_string(self.green as u64);
        s.append(green.as_str());
        s.append(",");
        let blue = dec_string(self.blue as u64);
        s.append(blue.as_str());
        s.append(",");
        let alpha = dec_string(self.alpha as u64);
        s.append(alpha.as_str());
        s.append(")");
        s
    }
}

/// Relies on rand::random: draws a value of `T` from the thread-local
/// generator. Nothing is assumed of the drawn value.
pub assume_specification<T>[ rand::random::<T> ]() -> (r: T)
    where rand::distributions::Standard: rand::distributions::Distribution<T>,
;

/// How many fresh random colors [`ColorAllocator::allocate`] tries before it
/// reports the color space as exhausted.
pub const MAX_COLOR_ATTEMPTS: u64 = 64;

/// Why an allocation request produced no identity.
#[derive(Clone, Copy, Debug, PartialEq, Eq, Structural)]
pub enum AllocError {
    /// The id string already has a color key.
    IdTaken,
    /// Every tried random color collided with an issued one.
    ColorSpaceExhausted,
}

/// The identity of one scene object: its string id and its color key.
#[derive(Clone, Debug, PartialEq, Eq, Hash)]
pub struct ObjectId {
    id: String,
    color_id: ColorKey,
}

impl ObjectId {
    /// The id string, as a sequence of characters.
    pub closed spec fn id_seq(&self) -> Seq<char> {
        self.id@
    }

    /// The color key.
    pub closed spec fn color_key(&self) -> ColorKey {
        self.color_id
    }

    /// Allocates a fresh identity: `id` is paired with a new unique color.
    pub fn new(allocator: &mut ColorAllocator, id: String) -> (r: Result<ObjectId, AllocError>)
        requires
            old(allocator).wf(),
        ensures
            final(allocator).wf(),
            allocate_post(old(allocator).entries(), final(allocator).entries(), id@, r),
    {
        allocator.allocate(id)
    }

    /// An owned copy of the identity, preserving the id string and the
    /// color key.
    pub fn duplicate(&self) -> (r: ObjectId)
        ensures
            r.id_seq() == self.id_seq(),
            r.color_key() == self.color_key(),
    {
        ObjectId { id: self.id.clone(), color_id: self.color_id }
    }

    /// The id string.
    pub fn value(&self) -> (r: &str)
        ensures
            r@ == self.id_seq(),
    {
        self.id.as_str()
    }

    /// The color key.
    pub fn color(&self) -> (r: ColorKey)
        ensures
            r == self.color_key(),
    {
        self.color_id
    }
}

/// What [`ColorAllocator::allocate`] promises about the entry list, the
/// requested id and the returned value.
pub open spec fn allocate_post(
    old_entries: Seq<(Seq<char>, ColorKey)>,
    new_entries: Seq<(Seq<char>, ColorKey)>,
    id: Seq<char>,
    r: Result<ObjectId, AllocError>,
) -> bool {
    &&& (r is Err ==> new_entries == old_entries)
    &&& ((r matches Err(AllocError::IdTaken)) <==> seq_contains_id(old_entries, id))
    &&& ((r matches Err(AllocError::ColorSpaceExhausted)) ==> old_entries.len() > 0)
    &&& (old_entries.len() == 0 ==> r is Ok)
    &&& (r matches Ok(oid) ==> {
        &&& oid.id_seq() == id
        &&& oid.color_key().alpha == 255u8
        &&& !seq_contains_color(old_entries, oid.color_key())
        &&& new_entries == old_entries + seq![(id, oid.color_key())]
    })
}

/// Whether some entry carries the id `id`.
pub open spec fn seq_contains_id(entries: Seq<(Seq<char>, ColorKey)>, id: Seq<char>) -> bool {
    exists|i: int| 0 <= i < entries.len() && entries[i].0 == id
}

/// Whether some entry carries the color key `c`.
pub open spec fn seq_contains_color(entries: Seq<(Seq<char>, ColorKey)>, c: ColorKey) -> bool {
    exists|i: int| 0 <= i < entries.len() && entries[i].1 == c
}

/// The bidirectional id/color map, stored as a list of pairs.
#[derive(Debug)]
pub struct ColorAllocator {
    pairs: Vec<(String, ColorKey)>,
}

impl ColorAllocator {
    /// The issued (id, color) pairs, in allocation order.
    pub closed spec fn entries(&self) -> Seq<(Seq<char>, ColorKey)> {
        self.pairs@.map_values(|p: (String, ColorKey)| (p.0@, p.1))
    }

    /// Well-formed: ids are pairwise distinct and colors are pairwise
    /// distinct, so the association is a bijection.
    pub open spec fn wf(&self) -> bool {
        forall|i: int, j: int|
            0 <= i < j < self.entries().len() ==> #[trigger] self.entries()[i].0
                != #[trigger] self.entries()[j].0 && self.entries()[i].1 != self.entries()[j].1
    }

    /// An empty allocator: no identity issued yet.
    pub fn new() -> (r: ColorAllocator)
        ensures
            r.wf(),
            r.entries() == Seq::<(Seq<char>, ColorKey)>::empty(),
    {
        let r = ColorAllocator { pairs: Vec::new() };
        proof {
            assert(r.entries() =~= Seq::<(Seq<char>, ColorKey)>::empty());
        }
        r
    }

    /// How many identities have been issued.
    pub fn len(&self) -> (r: usize)
        ensures
            r == self.entries().len(),
    {
        self.pairs.len()
    }

    /// Records the pair if both the id and the color are still free; returns
    /// whether it did.
    pub fn insert_pair(&mut self, id: String, color: ColorKey) -> (r: bool)
        requires
            old(self).wf(),
        ensures
            final(self).wf(),
            r == (!seq_contains_id(old(self).entries(), id@) && !seq_contains_color(
                old(self).entries(),
                color,
            )),
            r ==> final(self).entries() == old(self).entries() + seq![(id@, color)],
            !r ==> final(self).entries() == old(self).entries(),
    {
        if self.contains_id(id.as_str()) || self.contains_color(color) {
            return false;
        }
        let ghost old_entries = self.entries();
        let ghost idv = id@;
        self.pairs.push((id, color));
        proof {
            assert(self.entries() =~= old_entries + seq![(idv, color)]);
        }
        true
    }

    /// Whether the id already has a color key.
    pub fn contains_id(&self, id: &str) -> (r: bool)
        ensures
            r == seq_contains_id(self.entries(), id@),
    {
        let key = String::from_str(id);
        let mut i: usize = 0;
        while i < self.pairs.len()
            invariant
                0 <= i <= self.pairs@.len(),
                key@ == id@,
                forall|j: int| 0 <= j < i ==> self.entries()[j].0 != id@,
            decreases self.pairs@.len() - i,
        {
            if self.pairs[i].0 == key {
                assert(self.entries()[i as int].0 == id@);
                return true;
            }
            i += 1;
        }
        false
    }

    /// Whether the color key has been issued.
    pub fn contains_color(&self, color: ColorKey) -> (r: bool)
        ensures
            r == seq_contains_color(self.entries(), color),
    {
        let mut i: usize = 0;
        while i < self.pairs.len()
            invariant
                0 <= i <= self.pairs@.len(),
                forall|j: int| 0 <= j < i ==> self.entries()[j].1 != color,
            decreases self.pairs@.len() - i,
        {
            let c = self.pairs[i].1;
            if c.red == color.red && c.green == color.green && c.blue == color.blue && c.alpha
                == color.alpha {
                assert(self.entries()[i as int].1 == color);
                return true;
            }
            i += 1;
        }
        false
    }

    /// The color key issued for `id`, if any.
    pub fn get_color_by_id(&self, id: &str) -> (r: Option<ColorKey>)
        ensures
            r is Some <==> seq_contains_id(self.entries(), id@),
            r matches Some(c) ==> exists|i: int|
                0 <= i < self.entries().len() && self.entries()[i] == (id@, c),
    {
        let key = String::from_str(id);
        let mut i: usize = 0;
        while i < self.pairs.len()
            invariant
                0 <= i <= self.pairs@.len(),
                key@ == id@,
                forall|j: int| 0 <= j < i ==> self.entries()[j].0 != id@,
            decreases self.pairs@.len() - i,
        {
            if self.pairs[i].0 == key {
                assert(self.entries()[i as int] == (id@, self.pairs@[i as int].1));
                return Some(self.pairs[i].1);
            }
            i += 1;
        }
        None
    }

    /// The id that owns the color key `color`, if any.
    pub fn get_id_by_color(&self, color: ColorKey) -> (r: Option<String>)
        ensures
            r is Some <==> seq_contains_color(self.entries(), color),
            r matches Some(id) ==> exists|i: int|
                0 <= i < self.entries().len() && self.entries()[i] == (id@, color),
    {
        let mut i: usize = 0;
        while i < self.pairs.len()
            invariant
                0 <= i <= self.pairs@.len(),
                forall|j: int| 0 <= j < i ==> self.entries()[j].1 != color,
            decreases self.pairs@.len() - i,
        {
            let c = self.pairs[i].1;
            if c.red == color.red && c.green == color.green && c.blue == color.blue && c.alpha
                == color.alpha {
                assert(self.entries()[i as int] == (self.pairs@[i as int].0@, color));
                return Some(self.pairs[i].0.clone());
            }
            i += 1;
        }
        None
    }

    /// Pairs `id` with a fresh random color whose alpha channel is 255,
    /// retrying on collisions; reports exhaustion instead of looping
    /// forever. On an empty allocator no draw can collide, so the first
    /// request always succeeds; exhaustion is only possible once at least
    /// one color has been issued.
    pub fn allocate(&mut self, id: String) -> (r: Result<ObjectId, AllocError>)
        requires
            old(self).wf(),
        ensures
            final(self).wf(),
            allocate_post(old(self).entries(), final(self).entries(), id@, r),
    {
        if self.contains_id(id.as_str()) {
            return Err(AllocError::IdTaken);
        }
        let mut attempts: u64 = 0;
        while attempts < MAX_COLOR_ATTEMPTS
            invariant
                self.wf(),
                self.entries() == old(self).entries(),
                !seq_contains_id(self.entries(), id@),
                attempts > 0 ==> old(self).entries().len() > 0,
            decreases MAX_COLOR_ATTEMPTS - attempts,
        {
            let red: u8 = rand::random();
            let green: u8 = rand::random();
            let blue: u8 = rand::random();
            let color = ColorKey { red, green, blue, alpha: 255 };
            if !self.contains_color(color) {
                let inserted = self.insert_pair(id.clone(), color);
                assert(inserted);
                return Ok(ObjectId { id, color_id: color });
            }
            attempts += 1;
        }
        Err(AllocError::ColorSpaceExhausted)
    }
}

/// Color uniqueness: in a well-formed allocator, distinct entries never share
/// an id or a color key, so the id/color association is bijective.
pub proof fn lemma_color_key_bijective(al: &ColorAllocator, i: int, j: int)
    requires
        al.wf(),
        0 <= i < al.entries().len(),
        0 <= j < al.entries().len(),
        i != j,
    ensures
        al.entries()[i].0 != al.entries()[j].0,
        al.entries()[i].1 != al.entries()[j].1,
{
    if i < j {
        assert(al.entries()[i].0 != al.entries()[j].0);
    } else {
        assert(al.entries()[j].0 != al.entries()[i].0);
    }
}

/// A forward lookup and the reverse lookup agree: if `(id, c)` was issued,
/// then `id` is the only id of `c` and `c` the only color of `id`.
pub proof fn lemma_id_color_inverse(al: &ColorAllocator, i: int, j: int)
    requires
        al.wf(),
        0 <= i < al.entries().len(),
        0 <= j < al.entries().len(),
        al.entries()[i].0 == al.entries()[j].0 || al.entries()[i].1 == al.entries()[j].1,
    ensures
        i == j,
        al.entries()[i] == al.entries()[j],
{
    if i != j {
        lemma_color_key_bijective(al, i, j);
    }
}

/// The shape of a generated object id: decimal timestamp, a hexadecimal
/// random part and a hexadecimal counter, dash-separated.
pub open spec fn id_rep(now_ms: u64, random_part: u32, counter: u64) -> Seq<char> {
    dec_rep(now_ms as nat) + "-"@ + hex_rep(random_part as nat) + "-"@ + hex_rep(counter as nat)
}

/// Builds a fresh object id string from the current time, a random draw and
/// a caller-kept counter.
pub fn generate_id(now_ms: u64, counter: u64) -> (s: String)
    ensures
        exists|random_part: u32| s@ == id_rep(now_ms, random_part, counter),
{
    let random_part: u32 = rand::random();
    let mut s = dec_string(now_ms);
    s.append("-");
    let hex_random = hex_string(random_part as u64);
    s.append(hex_random.as_str());
    s.append("-");
    let hex_counter = hex_string(counter);
    s.append(hex_counter.as_str());
    proof {
        assert(s@ == id_rep(now_ms, random_part, counter));
    }
    s
}

} // verus!

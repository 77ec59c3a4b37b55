//! The scene transform state: zoom, offset, rotation, viewport size and
//! pixel ratio.
//!
//! Quantities that a backend treats as fractional are carried here in
//! milli-units: a zoom of 1000 is identity, a rotation is in
//! milli-radians, a device-pixel ratio of 1000 is 1.0. Every mutation
//! leaves a [`SceneDirtyData`] snapshot pair behind (before and after),
//! which is what the history log stores for scene updates.

use vstd::prelude::*;

use vstd::arithmetic::div_mod::{
    lemma_div_nonincreasing, lemma_div_pos_is_pos, lemma_fundamental_div_mod,
    lemma_fundamental_div_mod_converse, lemma_mod_bound, lemma_small_mod,
};

verus! {

/// One milli-unit scale step: 1000 milli-units are 1.0.
pub const SCENE_UNIT: i64 = 1000;

/// The smallest zoom the scene accepts, in milli-units (0.1x).
pub const MIN_ZOOM: i64 = 100;

/// The largest zoom the scene accepts, in milli-units (10x).
pub const MAX_ZOOM: i64 = 10000;

/// Coordinates and offsets the scene works with stay within this bound, so
/// that zoom arithmetic cannot overflow.
pub const SCENE_COORD_LIMIT: i64 = 0x100_0000_0000;

/// One full turn in milli-radians: 2 pi scaled by [`SCENE_UNIT`] and
/// truncated. Set rotations are reduced modulo this value.
pub const FULL_TURN_MILLI: i64 = 6283;

/// A rotation reduced modulo the full turn, with the remainder keeping the
/// sign of the request — the same reduction the backend's float remainder
/// applies.
pub open spec fn wrap_rotation(rotation: i64) -> i64 {
    if rotation >= 0 {
        ((rotation as int) % (FULL_TURN_MILLI as int)) as i64
    } else {
        (-((-(rotation as int)) % (FULL_TURN_MILLI as int))) as i64
    }
}

/// Reducing a reduced rotation changes nothing.
pub proof fn lemma_wrap_rotation_idempotent(rotation: i64)
    ensures
        wrap_rotation(wrap_rotation(rotation)) == wrap_rotation(rotation),
{
    let ft = FULL_TURN_MILLI as int;
    if rotation >= 0 {
        lemma_mod_bound(rotation as int, ft);
        let w = (rotation as int) % ft;
        lemma_small_mod(w as nat, ft as nat);
    } else {
        lemma_mod_bound(-(rotation as int), ft);
        let w = (-(rotation as int)) % ft;
        lemma_small_mod(w as nat, ft as nat);
        if w == 0 {
            lemma_small_mod(0, ft as nat);
        }
    }
}

/// Reduces a rotation modulo the full turn, keeping the request's sign.
fn wrap_rotation_exec(rotation: i64) -> (r: i64)
    ensures
        r == wrap_rotation(rotation),
{
    if rotation >= 0 {
        let rem = (rotation as u64) % (FULL_TURN_MILLI as u64);
        proof {
            lemma_mod_bound(rotation as int, FULL_TURN_MILLI as int);
        }
        rem as i64
    } else {
        let p = -(rotation + 1);
        let mag = (p as u64) + 1;
        proof {
            assert(mag as int == -(rotation as int));
        }
        let rem = mag % (FULL_TURN_MILLI as u64);
        proof {
            lemma_mod_bound(mag as int, FULL_TURN_MILLI as int);
        }
        -(rem as i64)
    }
}

/// A zoom request clamped into the accepted range.
pub open spec fn clamp_zoom(z: i64) -> i64 {
    if z < MIN_ZOOM {
        MIN_ZOOM
    } else if z > MAX_ZOOM {
        MAX_ZOOM
    } else {
        z
    }
}

/// A full snapshot of the observable scene state; the unit of scene-update
/// history payloads.
#[derive(Clone, Copy, Debug, PartialEq, Eq, Structural)]
pub struct SceneDirtyData {
    pub zoom: i64,
    pub offset_x: i64,
    pub offset_y: i64,
    pub rotation: i64,
    pub height: u32,
    pub width: u32,
    pub dpr: i64,
}

/// The live scene state. The rotation center and the transform-dirty flag
/// are render bookkeeping and not part of the snapshot.
#[derive(Clone, Copy, Debug)]
pub struct SceneManager {
    zoom: i64,
    offset_x: i64,
    offset_y: i64,
    rotation: i64,
    center_x: i64,
    center_y: i64,
    height: u32,
    width: u32,
    dpr: i64,
    transform_dirty: bool,
}

/// Floor of `a / b` on wide integers, positive divisor.
fn floor_div_wide(a: i128, b: i128) -> (r: i128)
    requires
        b > 0,
        a > i128::MIN,
    ensures
        r as int == a as int / b as int,
        0 <= a ==> 0 <= r <= a,
        a < 0 ==> a <= r < 0,
{
    if a >= 0 {
        let q = (a as u128) / (b as u128);
        proof {
            lemma_fundamental_div_mod(a as int, b as int);
            lemma_div_pos_is_pos(a as int, b as int);
            lemma_div_nonincreasing(a as int, b as int);
        }
        q as i128
    } else {
        let n = -(a + 1);
        let m = (n as u128) / (b as u128);
        proof {
            let ni = n as int;
            let bi = b as int;
            let mi = ni / bi;
            lemma_fundamental_div_mod(ni, bi);
            lemma_div_pos_is_pos(ni, bi);
            lemma_div_nonincreasing(ni, bi);
            let ri = ni % bi;
            assert(0 <= ri < bi);
            assert(a as int == (-mi - 1) * bi + (bi - 1 - ri)) by (nonlinear_arith)
                requires
                    ni == bi * mi + ri,
                    a as int == -ni - 1,
            ;
            lemma_fundamental_div_mod_converse(a as int, bi, -mi - 1, bi - 1 - ri);
        }
        -(m as i128) - 1
    }
}

/// Sum of two offsets, saturated to the i64 range.
pub open spec fn sat_add_spec(a: i64, b: i64) -> i64 {
    if a + b > i64::MAX {
        i64::MAX
    } else if a + b < i64::MIN {
        i64::MIN
    } else {
        (a + b) as i64
    }
}

/// Adds two offsets, saturating at the numeric bounds.
pub fn sat_add(a: i64, b: i64) -> (r: i64)
    ensures
        r == sat_add_spec(a, b),
{
    if b >= 0 {
        if a > i64::MAX - b {
            i64::MAX
        } else {
            a + b
        }
    } else {
        if a < i64::MIN - b {
            i64::MIN
        } else {
            a + b
        }
    }
}

/// The offset that keeps the point `x` fixed on screen when the zoom moves
/// from `old_zoom` to `new_zoom`.
pub open spec fn zoom_at_offset(x: i64, offset: i64, new_zoom: i64, old_zoom: i64) -> int {
    x - ((x - offset) * new_zoom) / (old_zoom as int)
}

impl SceneManager {
    /// The observable snapshot.
    pub closed spec fn state(&self) -> SceneDirtyData {
        SceneDirtyData {
            zoom: self.zoom,
            offset_x: self.offset_x,
            offset_y: self.offset_y,
            rotation: self.rotation,
            height: self.height,
            width: self.width,
            dpr: self.dpr,
        }
    }

    /// The rotation center.
    pub closed spec fn center(&self) -> (i64, i64) {
        (self.center_x, self.center_y)
    }

    /// Whether the cached transform is stale.
    pub closed spec fn dirty(&self) -> bool {
        self.transform_dirty
    }

    /// Well-formed: the zoom stays clamped and the offsets within the
    /// working coordinate range.
    pub open spec fn wf(&self) -> bool {
        &&& MIN_ZOOM <= self.state().zoom <= MAX_ZOOM
        &&& -SCENE_COORD_LIMIT <= self.state().offset_x <= SCENE_COORD_LIMIT
        &&& -SCENE_COORD_LIMIT <= self.state().offset_y <= SCENE_COORD_LIMIT
    }

    /// A fresh scene: identity transform, the given viewport and pixel
    /// ratio, and a stale cached transform.
    pub fn new(width: u32, height: u32, dpr: i64) -> (r: SceneManager)
        ensures
            r.wf(),
            r.state() == (SceneDirtyData {
                zoom: SCENE_UNIT,
                offset_x: 0i64,
                offset_y: 0i64,
                rotation: 0i64,
                height,
                width,
                dpr,
            }),
            r.center() == (0i64, 0i64),
            r.dirty(),
    {
        SceneManager {
            zoom: SCENE_UNIT,
            offset_x: 0,
            offset_y: 0,
            rotation: 0,
            center_x: 0,
            center_y: 0,
            height,
            width,
            dpr,
            transform_dirty: true,
        }
    }

    /// The current snapshot; history captures it before and after each
    /// mutation.
    pub fn get_dirty_data(&self) -> (r: SceneDirtyData)
        ensures
            r == self.state(),
    {
        SceneDirtyData {
            zoom: self.zoom,
            offset_x: self.offset_x,
            offset_y: self.offset_y,
            rotation: self.rotation,
            height: self.height,
            width: self.width,
            dpr: self.dpr,
        }
    }

    /// Sets the zoom, clamped into the accepted range.
    pub fn set_zoom(&mut self, zoom: i64)
        ensures
            final(self).state() == (SceneDirtyData { zoom: clamp_zoom(zoom), ..old(self).state() }),
            final(self).center() == old(self).center(),
            final(self).dirty(),
            old(self).wf() ==> final(self).wf(),
    {
        self.zoom = if zoom < MIN_ZOOM {
            MIN_ZOOM
        } else if zoom > MAX_ZOOM {
            MAX_ZOOM
        } else {
            zoom
        };
        self.transform_dirty = true;
    }

    /// Sets the offset, clamped to the working coordinate range.
    pub fn set_offset(&mut self, x: i64, y: i64)
        ensures
            final(self).state() == (SceneDirtyData {
                offset_x: clamp_coord(x),
                offset_y: clamp_coord(y),
                ..old(self).state()
            }),
            final(self).center() == old(self).center(),
            final(self).dirty(),
            old(self).wf() ==> final(self).wf(),
    {
        self.offset_x = clamp_coord_exec(x);
        self.offset_y = clamp_coord_exec(y);
        self.transform_dirty = true;
    }

    /// Sets the rotation, in milli-radians, reduced modulo one full turn.
    pub fn set_rotation(&mut self, rotation: i64)
        ensures
            final(self).state() == (SceneDirtyData {
                rotation: wrap_rotation(rotation),
                ..old(self).state()
            }),
            final(self).center() == old(self).center(),
            final(self).dirty(),
            old(self).wf() ==> final(self).wf(),
    {
        self.rotation = wrap_rotation_exec(rotation);
        self.transform_dirty = true;
    }

    /// Moves the offset by a delta, saturating at the coordinate range.
    pub fn pan(&mut self, dx: i64, dy: i64)
        ensures
            final(self).state() == (SceneDirtyData {
                offset_x: clamp_coord(sat_add_spec(old(self).state().offset_x, dx)),
                offset_y: clamp_coord(sat_add_spec(old(self).state().offset_y, dy)),
                ..old(self).state()
            }),
            final(self).center() == old(self).center(),
            final(self).dirty(),
            old(self).wf() ==> final(self).wf(),
    {
        self.offset_x = clamp_coord_exec(sat_add(self.offset_x, dx));
        self.offset_y = clamp_coord_exec(sat_add(self.offset_y, dy));
        self.transform_dirty = true;
    }

    /// Rescales around the screen point `(x, y)`: the zoom is multiplied by
    /// `factor` milli-units and clamped, and the offset is adjusted so that
    /// the point stays fixed.
    pub fn zoom_at(&mut self, x: i64, y: i64, factor: i64)
        requires
            old(self).wf(),
            -SCENE_COORD_LIMIT <= x <= SCENE_COORD_LIMIT,
            -SCENE_COORD_LIMIT <= y <= SCENE_COORD_LIMIT,
            0 <= factor <= MAX_ZOOM * SCENE_UNIT,
        ensures
            final(self).wf(),
            final(self).state() == (SceneDirtyData {
                zoom: clamp_zoom(
                    ((old(self).state().zoom * factor) / (SCENE_UNIT as int)) as i64,
                ),
                offset_x: clamp_coord(
                    sat_i64(
                        zoom_at_offset(
                            x,
                            old(self).state().offset_x,
                            clamp_zoom(
                                ((old(self).state().zoom * factor) / (SCENE_UNIT as int)) as i64,
                            ),
                            old(self).state().zoom,
                        ),
                    ),
                ),
                offset_y: clamp_coord(
                    sat_i64(
                        zoom_at_offset(
                            y,
                            old(self).state().offset_y,
                            clamp_zoom(
                                ((old(self).state().zoom * factor) / (SCENE_UNIT as int)) as i64,
                            ),
                            old(self).state().zoom,
                        ),
                    ),
                ),
                ..old(self).state()
            }),
            final(self).center() == old(self).center(),
            final(self).dirty(),
    {
        proof {
            assert(0 <= self.zoom as int * factor as int <= 0x10_0000_0000_0000) by (nonlinear_arith)
                requires
                    0 <= self.zoom as int <= 10000,
                    0 <= factor as int <= 10_000_000,
            ;
        }
        let product = (self.zoom as u128) * (factor as u128);
        let raw = product / (SCENE_UNIT as u128);
        proof {
            lemma_div_pos_is_pos(product as int, SCENE_UNIT as int);
            lemma_div_nonincreasing(product as int, SCENE_UNIT as int);
        }
        let new_zoom = if raw < MIN_ZOOM as u128 {
            MIN_ZOOM
        } else if raw > MAX_ZOOM as u128 {
            MAX_ZOOM
        } else {
            raw as i64
        };
        let nx = self.zoom_at_axis(x, self.offset_x, new_zoom);
        let ny = self.zoom_at_axis(y, self.offset_y, new_zoom);
        self.zoom = new_zoom;
        self.offset_x = nx;
        self.offset_y = ny;
        self.transform_dirty = true;
    }

    /// One axis of [`SceneManager::zoom_at`]: the adjusted offset.
    fn zoom_at_axis(&self, x: i64, offset: i64, new_zoom: i64) -> (r: i64)
        requires
            self.wf(),
            -SCENE_COORD_LIMIT <= x <= SCENE_COORD_LIMIT,
            -SCENE_COORD_LIMIT <= offset <= SCENE_COORD_LIMIT,
            MIN_ZOOM <= new_zoom <= MAX_ZOOM,
        ensures
            r == clamp_coord(sat_i64(zoom_at_offset(x, offset, new_zoom, self.state().zoom))),
    {
        proof {
            let diff = x as int - offset as int;
            assert(-0x10_0000_0000_0000_0000 <= diff * (new_zoom as int)
                <= 0x10_0000_0000_0000_0000) by (nonlinear_arith)
                requires
                    -0x200_0000_0000 <= diff <= 0x200_0000_0000,
                    0 <= new_zoom as int <= 10000,
            ;
        }
        let d = floor_div_wide(
            ((x as i128) - (offset as i128)) * (new_zoom as i128),
            self.zoom as i128,
        );
        let shifted = (x as i128) - d;
        proof {
            assert(shifted == zoom_at_offset(x, offset, new_zoom, self.state().zoom));
        }
        let saturated = if shifted > i64::MAX as i128 {
            i64::MAX
        } else if shifted < i64::MIN as i128 {
            i64::MIN
        } else {
            shifted as i64
        };
        clamp_coord_exec(saturated)
    }

    /// Resets zoom, offset and rotation to identity; the viewport and pixel
    /// ratio stay.
    pub fn reset_transform(&mut self)
        ensures
            final(self).state() == (SceneDirtyData {
                zoom: SCENE_UNIT,
                offset_x: 0i64,
                offset_y: 0i64,
                rotation: 0i64,
                ..old(self).state()
            }),
            final(self).center() == old(self).center(),
            final(self).dirty(),
            final(self).wf(),
    {
        self.zoom = SCENE_UNIT;
        self.offset_x = 0;
        self.offset_y = 0;
        self.rotation = 0;
        self.transform_dirty = true;
    }

    /// The initial condition that a history replay starts from: an identity
    /// transform over the current viewport.
    pub fn reset_to_initial_state(&mut self)
        ensures
            final(self).state() == (SceneDirtyData {
                zoom: SCENE_UNIT,
                offset_x: 0i64,
                offset_y: 0i64,
                rotation: 0i64,
                ..old(self).state()
            }),
            final(self).center() == old(self).center(),
            final(self).dirty(),
            final(self).wf(),
    {
        self.reset_transform();
    }

    /// Applies a scene-update payload: the whole snapshot, with the zoom
    /// clamp and offset clamps re-applied.
    pub fn update_scene(&mut self, data: SceneDirtyData)
        ensures
            final(self).state() == scene_after(data),
            final(self).center() == old(self).center(),
            final(self).dirty(),
            final(self).wf(),
    {
        self.set_zoom(data.zoom);
        self.set_offset(data.offset_x, data.offset_y);
        self.set_rotation(data.rotation);
        self.set_height(data.height);
        self.set_width(data.width);
        self.set_dpr(data.dpr);
    }

    /// Sets the viewport height.
    pub fn set_height(&mut self, height: u32)
        ensures
            final(self).state() == (SceneDirtyData { height, ..old(self).state() }),
            final(self).center() == old(self).center(),
            final(self).dirty(),
            old(self).wf() ==> final(self).wf(),
    {
        self.height = height;
        self.transform_dirty = true;
    }

    /// Sets the viewport width.
    pub fn set_width(&mut self, width: u32)
        ensures
            final(self).state() == (SceneDirtyData { width, ..old(self).state() }),
            final(self).center() == old(self).center(),
            final(self).dirty(),
            old(self).wf() ==> final(self).wf(),
    {
        self.width = width;
        self.transform_dirty = true;
    }

    /// Sets the device pixel ratio, in milli-units.
    pub fn set_dpr(&mut self, dpr: i64)
        ensures
            final(self).state() == (SceneDirtyData { dpr, ..old(self).state() }),
            final(self).center() == old(self).center(),
            final(self).dirty(),
            old(self).wf() ==> final(self).wf(),
    {
        self.dpr = dpr;
        self.transform_dirty = true;
    }

    /// Advances the rotation by a speed step, saturating at the numeric
    /// bounds; the incremental spin driver accumulates raw, and only
    /// [`SceneManager::set_rotation`] (and scene-update replay through it)
    /// normalizes.
    pub fn update_rotation(&mut self, rotation_speed: i64)
        ensures
            final(self).state() == (SceneDirtyData {
                rotation: sat_add_spec(old(self).state().rotation, rotation_speed),
                ..old(self).state()
            }),
            final(self).center() == old(self).center(),
            final(self).dirty(),
            old(self).wf() ==> final(self).wf(),
    {
        self.rotation = sat_add(self.rotation, rotation_speed);
        self.transform_dirty = true;
    }

    /// Sets the rotation center.
    pub fn set_center(&mut self, x: i64, y: i64)
        ensures
            final(self).state() == old(self).state(),
            final(self).center() == (x, y),
            final(self).dirty(),
            old(self).wf() ==> final(self).wf(),
    {
        self.center_x = x;
        self.center_y = y;
        self.transform_dirty = true;
    }

    /// Whether the cached transform must be recomputed before the next
    /// render pass.
    pub fn transform_dirty(&self) -> (r: bool)
        ensures
            r == self.dirty(),
    {
        self.transform_dirty
    }

    /// Marks the cached transform as recomputed.
    pub fn mark_transform_cached(&mut self)
        ensures
            final(self).state() == old(self).state(),
            final(self).center() == old(self).center(),
            !final(self).dirty(),
            old(self).wf() ==> final(self).wf(),
    {
        self.transform_dirty = false;
    }
}

/// What a scene-update payload leaves behind: the snapshot with clamps
/// re-applied.
pub open spec fn scene_after(d: SceneDirtyData) -> SceneDirtyData {
    SceneDirtyData {
        zoom: clamp_zoom(d.zoom),
        offset_x: clamp_coord(d.offset_x),
        offset_y: clamp_coord(d.offset_y),
        rotation: wrap_rotation(d.rotation),
        ..d
    }
}

/// A coordinate clamped to the working range.
pub open spec fn clamp_coord(x: i64) -> i64 {
    if x < (-SCENE_COORD_LIMIT) as i64 {
        (-SCENE_COORD_LIMIT) as i64
    } else if x > SCENE_COORD_LIMIT {
        SCENE_COORD_LIMIT
    } else {
        x
    }
}

/// An unbounded value saturated into the i64 range.
pub open spec fn sat_i64(x: int) -> i64 {
    if x > i64::MAX {
        i64::MAX
    } else if x < i64::MIN {
        i64::MIN
    } else {
        x as i64
    }
}

/// Clamps a coordinate to the working range.
fn clamp_coord_exec(x: i64) -> (r: i64)
    ensures
        r == clamp_coord(x),
{
    if x < -SCENE_COORD_LIMIT {
        -SCENE_COORD_LIMIT
    } else if x > SCENE_COORD_LIMIT {
        SCENE_COORD_LIMIT
    } else {
        x
    }
}

/// Applying a scene payload twice in a row is the same as applying it once:
/// the clamps are idempotent.
pub proof fn lemma_scene_after_idempotent(d: SceneDirtyData)
    ensures
        scene_after(scene_after(d)) == scene_after(d),
{
    lemma_wrap_rotation_idempotent(d.rotation);
}

} // verus!

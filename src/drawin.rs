//! Shell-drawn overlay windows (panels, tooltips, menus) and the registry
//! that lets the compositor find the visible ones each frame.
//!
//! Drawins live in slots of an arena. A handle names a slot together with
//! the generation the slot had when the drawin was created, so a handle to
//! a destroyed drawin never resolves again, even after its slot is reused.
//! The registry keeps one weak entry per drawin; entries that no longer
//! resolve are pruned on each scan for visible drawins.

use vstd::prelude::*;
use crate::geometry::{Area, Origin, Size, area_after};

verus! {

/// A handle to a drawin: the slot it lives in and that slot's generation.
#[derive(Clone, Copy, Debug, PartialEq, Eq, Hash, Structural)]
pub struct DrawinState {
    pub index: usize,
    pub generation: u64,
}

/// What the compositor and the scripting layer share of one drawin.
#[derive(Debug)]
pub struct DrawinSharedState {
    pub ontop: bool,
    pub visible: bool,
    pub cursor: String,
    pub geometry: Area,
    /// Set when geometry or visibility changed since the content was last
    /// drawn; cleared when new content is installed.
    pub geometry_dirty: bool,
    /// Token of the pixel surface holding the drawn content, if any.
    pub surface: Option<u64>,
}

/// Failure of an operation through a drawin handle.
#[derive(Clone, Copy, Debug, PartialEq, Eq, Structural)]
pub enum DrawinError {
    /// The drawin behind the handle has been destroyed.
    Destroyed,
}

/// One arena slot: its current generation and the drawin it holds, if any.
#[derive(Debug)]
pub struct DrawinSlot {
    generation: u64,
    state: Option<DrawinSharedState>,
}

/// All drawins, and the weak entries scanned for visible ones.
#[derive(Debug)]
pub struct DrawinRegistry {
    slots: Vec<DrawinSlot>,
    entries: Vec<DrawinState>,
    free: Vec<usize>,
}

/// The state of a newly created drawin: hidden, empty geometry, no content.
pub open spec fn is_fresh(s: DrawinSharedState) -> bool {
    &&& !s.ontop
    &&& !s.visible
    &&& s.cursor@ == Seq::<char>::empty()
    &&& s.geometry == Area { origin: Origin { x: 0, y: 0 }, size: Size { width: 0, height: 0 } }
    &&& !s.geometry_dirty
    &&& s.surface is None
}

/// The state after visibility is set to `val`; a change asks for a redraw.
pub open spec fn with_visible(s: DrawinSharedState, val: bool) -> DrawinSharedState {
    DrawinSharedState { visible: val, geometry_dirty: s.geometry_dirty || s.visible != val, ..s }
}

/// The state after a geometry request; a change asks for a redraw.
pub open spec fn with_geometry(s: DrawinSharedState, requested: Area) -> DrawinSharedState {
    DrawinSharedState {
        geometry: area_after(s.geometry, requested),
        geometry_dirty: s.geometry_dirty || area_after(s.geometry, requested) != s.geometry,
        ..s
    }
}

/// The state after freshly drawn content was installed.
pub open spec fn with_surface(s: DrawinSharedState, surface: Option<u64>) -> DrawinSharedState {
    DrawinSharedState { surface, geometry_dirty: false, ..s }
}

/// The entries of `s` that still resolve, in order.
pub open spec fn pruned(reg: DrawinRegistry, s: Seq<DrawinState>) -> Seq<DrawinState>
    decreases s.len(),
{
    if s.len() == 0 {
        Seq::empty()
    } else {
        let rest = pruned(reg, s.drop_last());
        if reg.live().dom().contains(s.last()) {
            rest.push(s.last())
        } else {
            rest
        }
    }
}

/// The entries of `s` that resolve to a visible drawin, in order.
pub open spec fn visible_of(reg: DrawinRegistry, s: Seq<DrawinState>) -> Seq<DrawinState>
    decreases s.len(),
{
    if s.len() == 0 {
        Seq::empty()
    } else {
        let rest = visible_of(reg, s.drop_last());
        if reg.live().dom().contains(s.last()) && reg.live()[s.last()].visible {
            rest.push(s.last())
        } else {
            rest
        }
    }
}

impl DrawinRegistry {
    /// Whether `h` resolves to a drawin that has not been destroyed.
    pub closed spec fn is_live(self, h: DrawinState) -> bool {
        &&& h.index < self.slots@.len()
        &&& self.slots@[h.index as int].generation == h.generation
        &&& self.slots@[h.index as int].state is Some
    }

    /// Every live drawin, by handle.
    pub closed spec fn live(self) -> Map<DrawinState, DrawinSharedState> {
        Map::new(
            |h: DrawinState| self.is_live(h),
            |h: DrawinState| self.slots@[h.index as int].state->0,
        )
    }

    /// The weak entries, in scan order.
    pub closed spec fn entries(self) -> Seq<DrawinState> {
        self.entries@
    }

    /// Every live drawin has exactly one entry, and no entry names a
    /// generation its slot has not reached yet.
    pub closed spec fn wf(self) -> bool {
        &&& self.entries@.no_duplicates()
        &&& forall|i: int|
            0 <= i < self.entries@.len() ==> {
                let e = #[trigger] self.entries@[i];
                &&& e.index < self.slots@.len()
                &&& e.generation <= self.slots@[e.index as int].generation
            }
        &&& forall|h: DrawinState| #[trigger] self.is_live(h) ==> self.entries@.contains(h)
        &&& forall|i: int|
            0 <= i < self.slots@.len() && (#[trigger] self.slots@[i]).state is Some ==> {
                let g = self.slots@[i].state->0.geometry;
                g.size.width >= 0 && g.size.height >= 0
            }
    }

    pub fn new() -> (r: DrawinRegistry)
        ensures
            r.wf(),
            r.live() == Map::<DrawinState, DrawinSharedState>::empty(),
            r.entries() == Seq::<DrawinState>::empty(),
    {
        let r = DrawinRegistry { slots: Vec::new(), entries: Vec::new(), free: Vec::new() };
        assert(r.live() =~= Map::<DrawinState, DrawinSharedState>::empty());
        r
    }

    /// Creates a hidden drawin with empty geometry and no content, and
    /// enters it into the registry. A slot freed by a destroyed drawin is
    /// reused under a new generation, so old handles to it stay dead.
    pub fn create(&mut self) -> (h: DrawinState)
        requires
            old(self).wf(),
        ensures
            final(self).wf(),
            !old(self).live().dom().contains(h),
            final(self).live() == old(self).live().insert(h, final(self).live()[h]),
            is_fresh(final(self).live()[h]),
            final(self).entries() == old(self).entries().push(h),
    {
        let fresh = DrawinSharedState {
            ontop: false,
            visible: false,
            cursor: String::new(),
            geometry: Area { origin: Origin { x: 0, y: 0 }, size: Size { width: 0, height: 0 } },
            geometry_dirty: false,
            surface: None,
        };
        let mut reuse: Option<(usize, u64)> = None;
        match self.free.pop() {
            Some(i) => {
                if i < self.slots.len() && self.slots[i].state.is_none()
                    && self.slots[i].generation < u64::MAX {
                    reuse = Some((i, self.slots[i].generation + 1));
                }
            },
            None => {},
        }
        let ghost old_slots = self.slots@;
        let h = match reuse {
            Some((i, generation)) => {
                self.slots.set(i, DrawinSlot { generation, state: Some(fresh) });
                DrawinState { index: i, generation }
            },
            None => {
                let i = self.slots.len();
                self.slots.push(DrawinSlot { generation: 0, state: Some(fresh) });
                DrawinState { index: i, generation: 0 }
            },
        };
        assert(!self.entries@.contains(h)) by {
            if self.entries@.contains(h) {
                let k = choose|k: int| 0 <= k < self.entries@.len() && self.entries@[k] == h;
                assert(self.entries@[k].generation <= old_slots[h.index as int].generation);
            }
        }
        let ghost old_entries = self.entries@;
        self.entries.push(h);
        assert forall|g: DrawinState| #[trigger] self.is_live(g) implies self.entries@.contains(g) by {
            if g != h {
                assert(old(self).is_live(g));
                let k = choose|k: int| 0 <= k < old_entries.len() && old_entries[k] == g;
                assert(self.entries@[k] == g);
            } else {
                assert(self.entries@[old_entries.len() as int] == h);
            }
        }
        assert forall|i: int| 0 <= i < self.entries@.len() implies {
            let e = #[trigger] self.entries@[i];
            &&& e.index < self.slots@.len()
            &&& e.generation <= self.slots@[e.index as int].generation
        } by {
            if i < old_entries.len() {
                assert(old_entries[i] == self.entries@[i]);
            }
        }
        assert(self.live() =~= old(self).live().insert(h, self.live()[h]));
        h
    }

    /// Destroys the drawin behind `h`. Its entry stays until the next scan
    /// prunes it.
    pub fn destroy(&mut self, h: DrawinState) -> (r: Result<(), DrawinError>)
        requires
            old(self).wf(),
        ensures
            final(self).wf(),
            r is Ok <==> old(self).live().dom().contains(h),
            final(self).live() == old(self).live().remove(h),
            final(self).entries() == old(self).entries(),
    {
        if h.index < self.slots.len() && self.slots[h.index].generation == h.generation
            && self.slots[h.index].state.is_some() {
            self.slots.set(h.index, DrawinSlot { generation: h.generation, state: None });
            self.free.push(h.index);
            assert forall|g: DrawinState| #[trigger] self.is_live(g) implies self.entries@.contains(
                g,
            ) by {
                assert(old(self).is_live(g));
            }
            assert forall|i: int| 0 <= i < self.entries@.len() implies {
                let e = #[trigger] self.entries@[i];
                &&& e.index < self.slots@.len()
                &&& e.generation <= self.slots@[e.index as int].generation
            } by {
                assert(old(self).entries@[i] == self.entries@[i]);
            }
            assert(self.live() =~= old(self).live().remove(h));
            Ok(())
        } else {
            assert(self.live() =~= old(self).live().remove(h));
            Err(DrawinError::Destroyed)
        }
    }
}

impl DrawinRegistry {
    /// Whether `h` resolves to a live drawin.
    pub fn contains(&self, h: DrawinState) -> (r: bool)
        ensures
            r == self.live().dom().contains(h),
    {
        h.index < self.slots.len() && self.slots[h.index].generation == h.generation
            && self.slots[h.index].state.is_some()
    }

    /// The state of the drawin behind `h`, if it is live.
    pub fn get(&self, h: DrawinState) -> (r: Option<&DrawinSharedState>)
        ensures
            r is Some <==> self.live().dom().contains(h),
            r is Some ==> *r->0 == self.live()[h],
    {
        if h.index < self.slots.len() && self.slots[h.index].generation == h.generation {
            match &self.slots[h.index].state {
                Some(st) => Some(st),
                None => None,
            }
        } else {
            None
        }
    }

    /// Sets the visibility of the live drawin `h`.
    fn set_visible_at(&mut self, h: DrawinState, val: bool)
        requires
            old(self).wf(),
            old(self).live().dom().contains(h),
        ensures
            final(self).wf(),
            final(self).live() == old(self).live().insert(h, with_visible(old(self).live()[h], val)),
            final(self).entries() == old(self).entries(),
    {
        match &mut self.slots[h.index].state {
            Some(st) => {
                st.geometry_dirty = st.geometry_dirty || st.visible != val;
                st.visible = val;
            },
            None => {},
        }
        proof { self.lemma_same_slots_shape(*old(self), h); }
        assert(self.live() =~= old(self).live().insert(h, with_visible(old(self).live()[h], val)));
    }

    /// Applies a geometry request to the live drawin `h`.
    fn set_geometry_at(&mut self, h: DrawinState, requested: Area)
        requires
            old(self).wf(),
            old(self).live().dom().contains(h),
        ensures
            final(self).wf(),
            final(self).live() == old(self).live().insert(
                h,
                with_geometry(old(self).live()[h], requested),
            ),
            final(self).entries() == old(self).entries(),
    {
        match &mut self.slots[h.index].state {
            Some(st) => {
                let geometry = st.geometry.resized(requested);
                st.geometry_dirty = st.geometry_dirty || geometry != st.geometry;
                st.geometry = geometry;
            },
            None => {},
        }
        proof { self.lemma_same_slots_shape(*old(self), h); }
        assert(self.live() =~= old(self).live().insert(
            h,
            with_geometry(old(self).live()[h], requested),
        ));
    }

    /// Installs freshly drawn content in the live drawin `h`.
    fn set_surface_at(&mut self, h: DrawinState, surface: Option<u64>)
        requires
            old(self).wf(),
            old(self).live().dom().contains(h),
        ensures
            final(self).wf(),
            final(self).live() == old(self).live().insert(h, with_surface(old(self).live()[h], surface)),
            final(self).entries() == old(self).entries(),
    {
        match &mut self.slots[h.index].state {
            Some(st) => {
                st.surface = surface;
                st.geometry_dirty = false;
            },
            None => {},
        }
        proof { self.lemma_same_slots_shape(*old(self), h); }
        assert(self.live() =~= old(self).live().insert(h, with_surface(old(self).live()[h], surface)));
    }

    /// A registry that differs from a well-formed one only inside the state
    /// of one live slot is well-formed, with the same live handles.
    proof fn lemma_same_slots_shape(self, before: DrawinRegistry, h: DrawinState)
        requires
            before.wf(),
            before.is_live(h),
            self.entries@ == before.entries@,
            self.slots@.len() == before.slots@.len(),
            self.slots@[h.index as int].generation == h.generation,
            self.slots@[h.index as int].state is Some,
            self.slots@[h.index as int].state->0.geometry.size.width >= 0,
            self.slots@[h.index as int].state->0.geometry.size.height >= 0,
            forall|i: int|
                0 <= i < self.slots@.len() && i != h.index ==> self.slots@[i] == before.slots@[i],
        ensures
            self.wf(),
            forall|g: DrawinState| self.is_live(g) <==> before.is_live(g),
    {
        assert forall|g: DrawinState| self.is_live(g) <==> before.is_live(g) by {
            if g.index == h.index {
            } else if g.index < self.slots@.len() {
                assert(self.slots@[g.index as int] == before.slots@[g.index as int]);
            }
        }
        assert forall|i: int| 0 <= i < self.entries@.len() implies {
            let e = #[trigger] self.entries@[i];
            &&& e.index < self.slots@.len()
            &&& e.generation <= self.slots@[e.index as int].generation
        } by {
            let e = self.entries@[i];
            assert(before.entries@[i] == e);
            if e.index != h.index {
                assert(self.slots@[e.index as int] == before.slots@[e.index as int]);
            }
        }
        assert forall|g: DrawinState| #[trigger] self.is_live(g) implies self.entries@.contains(g) by {
            assert(before.is_live(g));
        }
        assert forall|i: int|
            0 <= i < self.slots@.len() && (#[trigger] self.slots@[i]).state is Some implies {
                let g = self.slots@[i].state->0.geometry;
                g.size.width >= 0 && g.size.height >= 0
            } by {
            if i != h.index {
                assert(self.slots@[i] == before.slots@[i]);
            }
        }
    }
}

/// A drawin as the scripting layer holds it: a handle into the registry.
/// Every operation fails with `DrawinError::Destroyed` once the drawin is
/// gone, and then changes nothing.
#[derive(Clone, Copy, Debug, PartialEq, Eq, Structural)]
pub struct Drawin {
    pub state: DrawinState,
}

/// The registry after an operation on `h` that turns its state into `new`:
/// unchanged when `h` is not live.
pub open spec fn updated(
    before: DrawinRegistry,
    after: DrawinRegistry,
    h: DrawinState,
    new: DrawinSharedState,
    r: Result<(), DrawinError>,
) -> bool {
    &&& after.wf()
    &&& after.entries() == before.entries()
    &&& (r is Ok <==> before.live().dom().contains(h))
    &&& r is Ok ==> after.live() == before.live().insert(h, new)
    &&& r is Err ==> after.live() == before.live()
}

impl Drawin {
    /// Creates a hidden drawin with empty geometry and registers it.
    pub fn new(registry: &mut DrawinRegistry) -> (r: Drawin)
        requires
            old(registry).wf(),
        ensures
            final(registry).wf(),
            !old(registry).live().dom().contains(r.state),
            final(registry).live() == old(registry).live().insert(
                r.state,
                final(registry).live()[r.state],
            ),
            is_fresh(final(registry).live()[r.state]),
            final(registry).entries() == old(registry).entries().push(r.state),
    {
        Drawin { state: registry.create() }
    }

    pub fn get_visible(&self, registry: &DrawinRegistry) -> (r: Result<bool, DrawinError>)
        ensures
            r is Ok <==> registry.live().dom().contains(self.state),
            r is Ok ==> r->Ok_0 == registry.live()[self.state].visible,
    {
        match registry.get(self.state) {
            Some(st) => Ok(st.visible),
            None => Err(DrawinError::Destroyed),
        }
    }

    pub fn get_geometry(&self, registry: &DrawinRegistry) -> (r: Result<Area, DrawinError>)
        ensures
            r is Ok <==> registry.live().dom().contains(self.state),
            r is Ok ==> r->Ok_0 == registry.live()[self.state].geometry,
    {
        match registry.get(self.state) {
            Some(st) => Ok(st.geometry),
            None => Err(DrawinError::Destroyed),
        }
    }

    /// The token of the drawin's current content surface.
    pub fn surface(&self, registry: &DrawinRegistry) -> (r: Result<Option<u64>, DrawinError>)
        ensures
            r is Ok <==> registry.live().dom().contains(self.state),
            r is Ok ==> r->Ok_0 == registry.live()[self.state].surface,
    {
        match registry.get(self.state) {
            Some(st) => Ok(st.surface),
            None => Err(DrawinError::Destroyed),
        }
    }

    /// Shows or hides the drawin. A change of visibility asks for a redraw;
    /// setting the value it already has changes nothing.
    pub fn set_visible(&self, registry: &mut DrawinRegistry, val: bool) -> (r: Result<
        (),
        DrawinError,
    >)
        requires
            old(registry).wf(),
        ensures
            updated(
                *old(registry),
                *final(registry),
                self.state,
                with_visible(old(registry).live()[self.state], val),
                r,
            ),
    {
        if registry.contains(self.state) {
            registry.set_visible_at(self.state, val);
            Ok(())
        } else {
            Err(DrawinError::Destroyed)
        }
    }

    /// Moves and resizes the drawin. A width or height that is not positive
    /// keeps the current one; any change asks for a redraw.
    pub fn resize(&self, registry: &mut DrawinRegistry, geometry: Area) -> (r: Result<
        (),
        DrawinError,
    >)
        requires
            old(registry).wf(),
        ensures
            updated(
                *old(registry),
                *final(registry),
                self.state,
                with_geometry(old(registry).live()[self.state], geometry),
                r,
            ),
    {
        if registry.contains(self.state) {
            registry.set_geometry_at(self.state, geometry);
            Ok(())
        } else {
            Err(DrawinError::Destroyed)
        }
    }

    /// The geometry at which the content has to be drawn again, if a change
    /// of geometry or visibility is not yet reflected in it.
    pub fn redraw_target(&self, registry: &DrawinRegistry) -> (r: Result<
        Option<Area>,
        DrawinError,
    >)
        ensures
            r is Ok <==> registry.live().dom().contains(self.state),
            r is Ok ==> r->Ok_0 == (if registry.live()[self.state].geometry_dirty {
                Some(registry.live()[self.state].geometry)
            } else {
                None
            }),
    {
        match registry.get(self.state) {
            Some(st) => if st.geometry_dirty {
                Ok(Some(st.geometry))
            } else {
                Ok(None)
            },
            None => Err(DrawinError::Destroyed),
        }
    }

    /// Installs content drawn at the current geometry: the surface token
    /// replaces the old one and no redraw is owed any more.
    pub fn update_drawing(&self, registry: &mut DrawinRegistry, surface: Option<u64>) -> (r: Result<
        (),
        DrawinError,
    >)
        requires
            old(registry).wf(),
        ensures
            updated(
                *old(registry),
                *final(registry),
                self.state,
                with_surface(old(registry).live()[self.state], surface),
                r,
            ),
    {
        if registry.contains(self.state) {
            registry.set_surface_at(self.state, surface);
            Ok(())
        } else {
            Err(DrawinError::Destroyed)
        }
    }

    /// Moves the drawin horizontally, keeping the rest of its geometry.
    pub fn set_x(&self, registry: &mut DrawinRegistry, x: i32) -> (r: Result<(), DrawinError>)
        requires
            old(registry).wf(),
        ensures
            updated(
                *old(registry),
                *final(registry),
                self.state,
                with_geometry(
                    old(registry).live()[self.state],
                    Area {
                        origin: Origin { x, ..old(registry).live()[self.state].geometry.origin },
                        ..old(registry).live()[self.state].geometry
                    },
                ),
                r,
            ),
    {
        let mut geo = self.get_geometry(registry)?;
        geo.origin.x = x;
        self.resize(registry, geo)
    }

    /// Moves the drawin vertically, keeping the rest of its geometry.
    pub fn set_y(&self, registry: &mut DrawinRegistry, y: i32) -> (r: Result<(), DrawinError>)
        requires
            old(registry).wf(),
        ensures
            updated(
                *old(registry),
                *final(registry),
                self.state,
                with_geometry(
                    old(registry).live()[self.state],
                    Area {
                        origin: Origin { y, ..old(registry).live()[self.state].geometry.origin },
                        ..old(registry).live()[self.state].geometry
                    },
                ),
                r,
            ),
    {
        let mut geo = self.get_geometry(registry)?;
        geo.origin.y = y;
        self.resize(registry, geo)
    }

    /// Sets the width; a width that is not positive is ignored.
    pub fn set_width(&self, registry: &mut DrawinRegistry, width: i32) -> (r: Result<
        (),
        DrawinError,
    >)
        requires
            old(registry).wf(),
        ensures
            updated(
                *old(registry),
                *final(registry),
                self.state,
                with_geometry(
                    old(registry).live()[self.state],
                    Area {
                        size: Size { width, ..old(registry).live()[self.state].geometry.size },
                        ..old(registry).live()[self.state].geometry
                    },
                ),
                r,
            ),
    {
        let mut geo = self.get_geometry(registry)?;
        if width > 0 {
            geo.size.width = width;
            self.resize(registry, geo)
        } else {
            assert(registry.live() =~= old(registry).live().insert(
                self.state,
                with_geometry(
                    old(registry).live()[self.state],
                    Area { size: Size { width, ..geo.size }, ..geo },
                ),
            ));
            Ok(())
        }
    }

    /// Sets the height; a height that is not positive is ignored.
    pub fn set_height(&self, registry: &mut DrawinRegistry, height: i32) -> (r: Result<
        (),
        DrawinError,
    >)
        requires
            old(registry).wf(),
        ensures
            updated(
                *old(registry),
                *final(registry),
                self.state,
                with_geometry(
                    old(registry).live()[self.state],
                    Area {
                        size: Size { height, ..old(registry).live()[self.state].geometry.size },
                        ..old(registry).live()[self.state].geometry
                    },
                ),
                r,
            ),
    {
        let mut geo = self.get_geometry(registry)?;
        if height > 0 {
            geo.size.height = height;
            self.resize(registry, geo)
        } else {
            assert(registry.live() =~= old(registry).live().insert(
                self.state,
                with_geometry(
                    old(registry).live()[self.state],
                    Area { size: Size { height, ..geo.size }, ..geo },
                ),
            ));
            Ok(())
        }
    }

    /// Reads the geometry, after applying `request` when one is given. A
    /// requested width or height that is not positive keeps the current one;
    /// the origin and the other axis change as requested.
    pub fn geometry(&self, registry: &mut DrawinRegistry, request: Option<Area>) -> (r: Result<
        Area,
        DrawinError,
    >)
        requires
            old(registry).wf(),
        ensures
            final(registry).wf(),
            final(registry).entries() == old(registry).entries(),
            r is Ok <==> old(registry).live().dom().contains(self.state),
            r is Err ==> final(registry).live() == old(registry).live(),
            r is Ok ==> final(registry).live() == old(registry).live().insert(
                self.state,
                match request {
                    Some(g) => with_geometry(old(registry).live()[self.state], g),
                    None => old(registry).live()[self.state],
                },
            ),
            r is Ok ==> r->Ok_0 == final(registry).live()[self.state].geometry,
    {
        if !registry.contains(self.state) {
            return Err(DrawinError::Destroyed);
        }
        match request {
            Some(g) => {
                let _ = self.resize(registry, g);
            },
            None => {
                assert(registry.live() =~= old(registry).live().insert(
                    self.state,
                    old(registry).live()[self.state],
                ));
            },
        }
        self.get_geometry(registry)
    }
}

impl DrawinState {
    /// Scans the registry: prunes every entry whose drawin was destroyed,
    /// and returns the handles of the live, visible drawins in scan order.
    pub fn collect_visible(registry: &mut DrawinRegistry) -> (r: Vec<DrawinState>)
        requires
            old(registry).wf(),
        ensures
            final(registry).wf(),
            final(registry).live() == old(registry).live(),
            final(registry).entries() == pruned(*old(registry), old(registry).entries()),
            r@ == visible_of(*old(registry), old(registry).entries()),
    {
        let mut kept: Vec<DrawinState> = Vec::new();
        let mut result: Vec<DrawinState> = Vec::new();
        let n = registry.entries.len();
        let mut i: usize = 0;
        while i < n
            invariant
                *registry == *old(registry),
                n == registry.entries@.len(),
                i <= n,
                kept@ == pruned(*old(registry), registry.entries@.subrange(0, i as int)),
                result@ == visible_of(*old(registry), registry.entries@.subrange(0, i as int)),
            decreases n - i,
        {
            let e = registry.entries[i];
            if e.index < registry.slots.len() && registry.slots[e.index].generation == e.generation {
                match &registry.slots[e.index].state {
                    Some(st) => {
                        kept.push(e);
                        if st.visible {
                            result.push(e);
                        }
                    },
                    None => {},
                }
            }
            proof {
                assert(registry.entries@.subrange(0, i + 1).drop_last() =~= registry.entries@.subrange(
                    0,
                    i as int,
                ));
            }
            i += 1;
        }
        proof {
            assert(registry.entries@.subrange(0, n as int) =~= registry.entries@);
            lemma_pruned_no_duplicates(*old(registry), old(registry).entries@);
        }
        registry.entries = kept;
        proof {
            let before = *old(registry);
            assert forall|k: int| 0 <= k < registry.entries@.len() implies {
                let e = #[trigger] registry.entries@[k];
                &&& e.index < registry.slots@.len()
                &&& e.generation <= registry.slots@[e.index as int].generation
            } by {
                lemma_pruned_contains(before, before.entries@, registry.entries@[k]);
                assert(registry.entries@.contains(registry.entries@[k]));
                let j = choose|j: int|
                    0 <= j < before.entries@.len() && before.entries@[j] == registry.entries@[k];
                assert(before.entries@[j] == registry.entries@[k]);
            }
            assert forall|g: DrawinState| #[trigger] registry.is_live(g) implies registry.entries@.contains(
                g,
            ) by {
                assert(before.is_live(g));
                lemma_pruned_contains(before, before.entries@, g);
            }
            assert(registry.live() =~= before.live());
        }
        result
    }
}

proof fn lemma_pruned_contains(reg: DrawinRegistry, s: Seq<DrawinState>, x: DrawinState)
    ensures
        pruned(reg, s).contains(x) <==> (s.contains(x) && reg.is_live(x)),
    decreases s.len(),
{
    if s.len() > 0 {
        let t = s.drop_last();
        lemma_pruned_contains(reg, t, x);
        assert(s =~= t.push(s.last()));
        if s.contains(x) && x != s.last() {
            let k = choose|k: int| 0 <= k < s.len() && s[k] == x;
            assert(t[k] == x);
        }
        if t.contains(x) {
            let k = choose|k: int| 0 <= k < t.len() && t[k] == x;
            assert(s[k] == x);
        }
        let p = pruned(reg, t);
        if reg.is_live(s.last()) {
            assert(p.push(s.last())[p.len() as int] == s.last());
            if p.contains(x) {
                let k = choose|k: int| 0 <= k < p.len() && p[k] == x;
                assert(p.push(s.last())[k] == x);
            }
            if p.push(s.last()).contains(x) && x != s.last() {
                let k = choose|k: int| 0 <= k < p.len() + 1 && p.push(s.last())[k] == x;
                assert(p[k] == x);
            }
        }
        assert(s[s.len() - 1] == s.last());
    }
}

proof fn lemma_pruned_no_duplicates(reg: DrawinRegistry, s: Seq<DrawinState>)
    requires
        s.no_duplicates(),
    ensures
        pruned(reg, s).no_duplicates(),
    decreases s.len(),
{
    if s.len() > 0 {
        let t = s.drop_last();
        assert(t.no_duplicates()) by {
            assert forall|a: int, b: int| 0 <= a < t.len() && 0 <= b < t.len() && a != b implies t[a]
                != t[b] by {
                assert(t[a] == s[a] && t[b] == s[b]);
            }
        }
        lemma_pruned_no_duplicates(reg, t);
        lemma_pruned_contains(reg, t, s.last());
        assert(!t.contains(s.last())) by {
            if t.contains(s.last()) {
                let k = choose|k: int| 0 <= k < t.len() && t[k] == s.last();
                assert(s[k] == s[s.len() - 1]);
            }
        }
        let p = pruned(reg, t);
        if reg.is_live(s.last()) {
            let q = p.push(s.last());
            assert forall|a: int, b: int| 0 <= a < q.len() && 0 <= b < q.len() && a != b implies q[a]
                != q[b] by {
                if a == p.len() as int {
                    assert(p[b] == q[b]);
                } else if b == p.len() as int {
                    assert(p[a] == q[a]);
                } else {
                    assert(p[a] == q[a] && p[b] == q[b]);
                }
            }
        }
    }
}

proof fn lemma_visible_of_contains(reg: DrawinRegistry, s: Seq<DrawinState>, x: DrawinState)
    ensures
        visible_of(reg, s).contains(x) <==> (s.contains(x) && reg.is_live(x)
            && reg.live()[x].visible),
    decreases s.len(),
{
    if s.len() > 0 {
        let t = s.drop_last();
        lemma_visible_of_contains(reg, t, x);
        if s.contains(x) && x != s.last() {
            let k = choose|k: int| 0 <= k < s.len() && s[k] == x;
            assert(t[k] == x);
        }
        if t.contains(x) {
            let k = choose|k: int| 0 <= k < t.len() && t[k] == x;
            assert(s[k] == x);
        }
        let p = visible_of(reg, t);
        if reg.is_live(s.last()) && reg.live()[s.last()].visible {
            assert(p.push(s.last())[p.len() as int] == s.last());
            if p.contains(x) {
                let k = choose|k: int| 0 <= k < p.len() && p[k] == x;
                assert(p.push(s.last())[k] == x);
            }
            if p.push(s.last()).contains(x) && x != s.last() {
                let k = choose|k: int| 0 <= k < p.len() + 1 && p.push(s.last())[k] == x;
                assert(p[k] == x);
            }
        }
        assert(s[s.len() - 1] == s.last());
    }
}

/// A scan for visible drawins returns exactly the live drawins that are
/// visible, and leaves behind only entries of live drawins, one per drawin:
/// whatever was created or destroyed since the previous scan, dead entries
/// do not accumulate.
pub proof fn lemma_collect_visible_exact(
    before: DrawinRegistry,
    after: DrawinRegistry,
    r: Seq<DrawinState>,
)
    requires
        before.wf(),
        after.live() == before.live(),
        after.entries() == pruned(before, before.entries()),
        r == visible_of(before, before.entries()),
    ensures
        forall|x: DrawinState|
            r.contains(x) <==> (before.live().dom().contains(x) && before.live()[x].visible),
        forall|x: DrawinState|
            after.entries().contains(x) <==> after.live().dom().contains(x),
        after.entries().no_duplicates(),
{
    assert forall|x: DrawinState|
        r.contains(x) <==> (before.live().dom().contains(x) && before.live()[x].visible) by {
        lemma_visible_of_contains(before, before.entries(), x);
        if before.is_live(x) {
            assert(before.slots@[x.index as int].state is Some);
        }
    }
    assert forall|x: DrawinState|
        after.entries().contains(x) <==> after.live().dom().contains(x) by {
        lemma_pruned_contains(before, before.entries(), x);
        if before.is_live(x) {
            assert(before.slots@[x.index as int].state is Some);
        }
    }
    lemma_pruned_no_duplicates(before, before.entries());
}

/// Showing or hiding a drawin twice in a row leaves it exactly as doing it
/// once does.
pub proof fn lemma_set_visible_idempotent(s: DrawinSharedState, val: bool)
    ensures
        with_visible(with_visible(s, val), val) == with_visible(s, val),
{
}

/// Repeating a geometry request right after itself changes nothing more;
/// and once the content has been redrawn, repeating the request asks for no
/// further redraw.
pub proof fn lemma_resize_idempotent(s: DrawinSharedState, g: Area, surface: Option<u64>)
    ensures
        with_geometry(with_geometry(s, g), g) == with_geometry(s, g),
        !with_geometry(with_surface(with_geometry(s, g), surface), g).geometry_dirty,
{
}

/// No live drawin ever has a negative width or height: a new drawin starts
/// at zero by zero, and a geometry request only ever takes positive values.
pub proof fn lemma_live_sizes_nonnegative(reg: DrawinRegistry, h: DrawinState)
    requires
        reg.wf(),
        reg.live().dom().contains(h),
    ensures
        reg.live()[h].geometry.size.width >= 0,
        reg.live()[h].geometry.size.height >= 0,
{
    assert(reg.slots@[h.index as int].state is Some);
}

} // verus!

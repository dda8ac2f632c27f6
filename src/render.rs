//! The compositing plan for one frame of one output.
//!
//! A frame clears the output once, then blits every visible drawin that has
//! content, then every client window whose box meets the output; each such
//! window is told that its frame is done.

use vstd::prelude::*;
use crate::drawin::{
    DrawinRegistry, DrawinSharedState, DrawinState, lemma_collect_visible_exact, visible_of,
};
use crate::geometry::{Area, Origin, Size};

verus! {

/// One step of a frame.
#[derive(Clone, Copy, Debug, PartialEq, Eq, Structural)]
pub enum RenderStep {
    /// Fill the output with the background colour.
    Clear,
    /// Blit the drawin's content surface (the token given).
    Drawin(DrawinState, u64),
    /// Blit the client window at this position of the window list, and
    /// signal frame completion to its client.
    View(usize),
}

/// The blit steps for drawins `hs`, skipping those without content.
pub open spec fn drawin_steps(
    live: Map<DrawinState, DrawinSharedState>,
    hs: Seq<DrawinState>,
) -> Seq<RenderStep>
    decreases hs.len(),
{
    if hs.len() == 0 {
        Seq::empty()
    } else {
        let rest = drawin_steps(live, hs.drop_last());
        match live[hs.last()].surface {
            Some(t) => rest.push(RenderStep::Drawin(hs.last(), t)),
            None => rest,
        }
    }
}

/// The blit steps for the windows whose box meets the output.
pub open spec fn view_steps(meets: Seq<bool>) -> Seq<RenderStep>
    decreases meets.len(),
{
    if meets.len() == 0 {
        Seq::empty()
    } else {
        let rest = view_steps(meets.drop_last());
        if meets.last() {
            rest.push(RenderStep::View((meets.len() - 1) as usize))
        } else {
            rest
        }
    }
}

/// The box a window covers in output space: its origin, with its surface
/// size scaled by the output's scale factor. `None` when a scaled dimension
/// does not fit an `i32`.
pub fn render_box(origin: Origin, surface_size: Size, scale: i32) -> (r: Option<Area>)
    ensures
        match r {
            Some(b) => {
                &&& b.origin == origin
                &&& b.size.width == surface_size.width * scale
                &&& b.size.height == surface_size.height * scale
            },
            None => !(i32::MIN <= surface_size.width * scale <= i32::MAX && i32::MIN
                <= surface_size.height * scale <= i32::MAX),
        },
{
    let width = surface_size.width.checked_mul(scale);
    let height = surface_size.height.checked_mul(scale);
    match (width, height) {
        (Some(w), Some(h)) => Some(Area { origin, size: Size { width: w, height: h } }),
        _ => None,
    }
}

/// Plans one frame: a single clear, then the visible drawins that have
/// content, in registry scan order, then the windows whose box meets the
/// output (`meets[i]` for the window at position `i`), in window order.
/// Scanning the registry prunes the entries of destroyed drawins.
pub fn plan_frame(registry: &mut DrawinRegistry, meets: &Vec<bool>) -> (r: Vec<RenderStep>)
    requires
        old(registry).wf(),
    ensures
        final(registry).wf(),
        final(registry).live() == old(registry).live(),
        r@ == seq![RenderStep::Clear] + drawin_steps(
            old(registry).live(),
            visible_of(*old(registry), old(registry).entries()),
        ) + view_steps(meets@),
{
    let visible = DrawinState::collect_visible(registry);
    proof {
        lemma_collect_visible_exact(*old(registry), *registry, visible@);
        assert forall|k: int| 0 <= k < visible@.len() implies registry.live().dom().contains(
            #[trigger] visible@[k],
        ) by {
            assert(visible@.contains(visible@[k]));
        }
    }
    let mut steps: Vec<RenderStep> = Vec::new();
    steps.push(RenderStep::Clear);
    let mut i: usize = 0;
    while i < visible.len()
        invariant
            registry.wf(),
            i <= visible@.len(),
            forall|k: int| 0 <= k < visible@.len() ==> registry.live().dom().contains(#[trigger] visible@[k]),
            registry.live() == old(registry).live(),
            steps@ == seq![RenderStep::Clear] + drawin_steps(
                registry.live(),
                visible@.subrange(0, i as int),
            ),
        decreases visible@.len() - i,
    {
        let h = visible[i];
        match registry.get(h) {
            Some(st) => match st.surface {
                Some(t) => steps.push(RenderStep::Drawin(h, t)),
                None => {},
            },
            None => {},
        }
        proof {
            assert(visible@.subrange(0, i + 1).drop_last() =~= visible@.subrange(0, i as int));
        }
        i += 1;
    }
    proof {
        assert(visible@.subrange(0, visible@.len() as int) =~= visible@);
        assert(steps@ =~= seq![RenderStep::Clear] + drawin_steps(registry.live(), visible@)
            + view_steps(meets@.subrange(0, 0)));
    }
    let mut j: usize = 0;
    while j < meets.len()
        invariant
            j <= meets@.len(),
            steps@ == seq![RenderStep::Clear] + drawin_steps(registry.live(), visible@) + view_steps(
                meets@.subrange(0, j as int),
            ),
        decreases meets@.len() - j,
    {
        if meets[j] {
            steps.push(RenderStep::View(j));
        }
        proof {
            assert(meets@.subrange(0, j + 1).drop_last() =~= meets@.subrange(0, j as int));
        }
        j += 1;
    }
    proof {
        assert(meets@.subrange(0, meets@.len() as int) =~= meets@);
    }
    steps
}

} // verus!

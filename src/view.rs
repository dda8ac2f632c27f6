//! A client application window and its geometry negotiation.
//!
//! Moving a window is immediate, but a change of size has to be sent to the
//! client, which answers later with the serial it was given. A move that
//! comes with a resize is therefore held back until the matching answer.

use vstd::prelude::*;
use crate::geometry::{Area, Origin, Size, area_after, size_after};

verus! {

/// The shell protocol through which a client window is managed, with the
/// token by which the protocol layer knows the window's shell surface.
#[derive(Clone, Copy, Debug, PartialEq, Eq, Hash, Structural)]
pub enum Shell {
    XdgV6(u64),
}

/// A resize that was sent to the client and not yet acknowledged.
#[derive(Clone, Copy, Debug, PartialEq, Eq, Structural)]
pub struct PendingMoveResize {
    /// Whether the horizontal position is to change on acknowledgment.
    pub update_x: bool,
    /// Whether the vertical position is to change on acknowledgment.
    pub update_y: bool,
    /// The serial the client was given with the request.
    pub serial: u32,
    /// The rectangle that was asked for.
    pub area: Area,
}

/// A client window: where it stands, and the resize it still owes an answer to.
#[derive(Debug)]
pub struct View {
    pub shell: Shell,
    pub origin: Origin,
    pub pending_move_resize: Option<PendingMoveResize>,
}

/// The view after a resize towards `target` for which the client returned
/// `serial` (zero: no resize was needed).
pub open spec fn after_move_resize(v: View, target: Area, serial: u32) -> View {
    if serial == 0 {
        View { shell: v.shell, origin: target.origin, pending_move_resize: None }
    } else {
        View {
            shell: v.shell,
            origin: v.origin,
            pending_move_resize: Some(
                PendingMoveResize {
                    update_x: target.origin.x != v.origin.x,
                    update_y: target.origin.y != v.origin.y,
                    serial,
                    area: target,
                },
            ),
        }
    }
}

/// Whether an acknowledgment carrying `serial` answers the pending request.
pub open spec fn ack_matches(v: View, serial: u32) -> bool {
    match v.pending_move_resize {
        Some(p) => p.serial == serial,
        None => false,
    }
}

/// The view after the client acknowledged `serial`.
pub open spec fn after_ack(v: View, serial: u32) -> View {
    match v.pending_move_resize {
        Some(p) => if p.serial == serial {
            View {
                shell: v.shell,
                origin: Origin {
                    x: if p.update_x {
                        p.area.origin.x
                    } else {
                        v.origin.x
                    },
                    y: if p.update_y {
                        p.area.origin.y
                    } else {
                        v.origin.y
                    },
                },
                pending_move_resize: None,
            }
        } else {
            v
        },
        None => v,
    }
}

/// The view after a series of resize requests, each with the serial the
/// client returned for it, and no acknowledgment in between.
pub open spec fn after_requests(v: View, reqs: Seq<(Area, u32)>) -> View
    decreases reqs.len(),
{
    if reqs.len() == 0 {
        v
    } else {
        let last = reqs.last();
        after_move_resize(after_requests(v, reqs.drop_last()), last.0, last.1)
    }
}

impl PartialEq for View {
    fn eq(&self, other: &View) -> (r: bool) {
        self.shell == other.shell
    }
}

impl vstd::std_specs::cmp::PartialEqSpecImpl for View {
    open spec fn obeys_eq_spec() -> bool {
        true
    }

    open spec fn eq_spec(&self, other: &View) -> bool {
        self.shell == other.shell
    }
}

impl View {
    /// A newly mapped window at the layout's origin, with nothing pending.
    pub fn new(shell: Shell) -> (r: View)
        ensures
            r.shell == shell,
            r.origin == (Origin { x: 0, y: 0 }),
            r.pending_move_resize is None,
    {
        View { shell, origin: Origin { x: 0, y: 0 }, pending_move_resize: None }
    }

    /// The rectangle to ask the client for when `requested` is wanted and
    /// the client's surface currently has `current_size`: a non-positive
    /// width or height keeps the current one.
    pub fn resize_target(&self, requested: Area, current_size: Size) -> (r: Area)
        ensures
            r == area_after(Area { origin: self.origin, size: current_size }, requested),
    {
        Area { origin: requested.origin, size: current_size.resized(requested.size) }
    }

    /// Records a resize towards `target` for which the client returned
    /// `serial`. Serial zero means the size was already right: the origin is
    /// applied at once and nothing stays pending. Any other serial replaces
    /// whatever was pending; the origin then waits for its acknowledgment.
    pub fn move_resize(&mut self, target: Area, serial: u32)
        ensures
            *final(self) == after_move_resize(*old(self), target, serial),
            serial == 0 ==> final(self).origin == target.origin,
            serial != 0 ==> final(self).origin == old(self).origin,
            ack_matches(*final(self), serial) <==> serial != 0,
    {
        if serial == 0 {
            self.origin = target.origin;
            self.pending_move_resize = None;
        } else {
            let update_x = target.origin.x != self.origin.x;
            let update_y = target.origin.y != self.origin.y;
            self.pending_move_resize = Some(
                PendingMoveResize { update_x, update_y, serial, area: target },
            );
        }
    }

    /// Handles the client's acknowledgment of `serial`. When it answers the
    /// pending request, the held-back position is applied and nothing stays
    /// pending; any other serial is stale and changes nothing. Returns
    /// whether the acknowledgment was applied.
    pub fn acknowledge(&mut self, serial: u32) -> (applied: bool)
        ensures
            applied == ack_matches(*old(self), serial),
            *final(self) == after_ack(*old(self), serial),
            !applied ==> *final(self) == *old(self),
            applied ==> final(self).pending_move_resize is None,
    {
        match self.pending_move_resize {
            Some(p) => {
                if p.serial == serial {
                    if p.update_x {
                        self.origin.x = p.area.origin.x;
                    }
                    if p.update_y {
                        self.origin.y = p.area.origin.y;
                    }
                    self.pending_move_resize = None;
                    true
                } else {
                    false
                }
            },
            None => false,
        }
    }

    /// The window's rectangle: its position, with the size the client last
    /// committed.
    pub fn geometry(&self, committed_size: Size) -> (r: Area)
        ensures
            r.origin == self.origin,
            r.size == committed_size,
    {
        Area { origin: self.origin, size: committed_size }
    }
}

/// After any series of resize requests with no acknowledgment in between,
/// only the serial of the last request can still be acknowledged: an
/// acknowledgment of any other serial changes nothing.
pub proof fn lemma_only_last_serial_matches(v: View, reqs: Seq<(Area, u32)>, serial: u32)
    requires
        reqs.len() > 0,
    ensures
        ack_matches(after_requests(v, reqs), serial) <==> (serial == reqs.last().1 && serial
            != 0),
        serial != reqs.last().1 ==> after_ack(after_requests(v, reqs), serial)
            == after_requests(v, reqs),
{
}

/// A resize towards `requested`, sent as `resize_target` computes it from the
/// client's current size, asks for that size with each non-positive axis
/// replaced by the current one. What the view records matches what was
/// sent: the pending request holds exactly that size and the requested
/// origin, or, with serial zero, the requested origin is applied at once.
pub proof fn lemma_resize_records_fallback_size(
    v: View,
    requested: Area,
    current_size: Size,
    serial: u32,
)
    ensures
        ({
            let target = area_after(Area { origin: v.origin, size: current_size }, requested);
            let after = after_move_resize(v, target, serial);
            &&& target.size == size_after(current_size, requested.size)
            &&& target.origin == requested.origin
            &&& requested.size.width <= 0 ==> target.size.width == current_size.width
            &&& requested.size.height <= 0 ==> target.size.height == current_size.height
            &&& serial != 0 ==> after.pending_move_resize == Some(
                PendingMoveResize {
                    update_x: requested.origin.x != v.origin.x,
                    update_y: requested.origin.y != v.origin.y,
                    serial,
                    area: Area {
                        origin: requested.origin,
                        size: size_after(current_size, requested.size),
                    },
                },
            )
            &&& serial == 0 ==> after.origin == requested.origin
        }),
{
}

} // verus!

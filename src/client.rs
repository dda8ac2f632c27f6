//! The list of client windows that the scripting layer sees.

use vstd::prelude::*;
use crate::view::Shell;

verus! {

/// A client window as the scripting layer knows it: the shell surface of
/// its view.
#[derive(Clone, Copy, Debug, PartialEq, Eq, Structural)]
pub struct Client {
    pub view: Shell,
}

/// Whether some client of `s` belongs to `view`.
pub open spec fn has_view(s: Seq<Client>, view: Shell) -> bool {
    exists|i: int| 0 <= i < s.len() && s[i].view == view
}

/// The position of the first client of `s` that belongs to `view`.
pub open spec fn first_of(s: Seq<Client>, view: Shell) -> int
    decreases s.len(),
{
    if s.len() == 0 {
        0
    } else if s[0].view == view {
        0
    } else {
        1 + first_of(s.subrange(1, s.len() as int), view)
    }
}

impl Client {
    pub fn new(view: Shell) -> (r: Client)
        ensures
            r.view == view,
    {
        Client { view }
    }

    /// Points this client at another view.
    pub fn init_client(&mut self, view: Shell)
        ensures
            final(self).view == view,
    {
        self.view = view;
    }
}

/// A view was mapped: a client for it joins the end of the list.
pub fn notify_client_add(clients: &mut Vec<Client>, view: Shell)
    ensures
        final(clients)@ == old(clients)@.push(Client { view }),
{
    clients.push(Client::new(view));
}

/// A view went away: the first client that belongs to it leaves the list;
/// when none does, the list stays as it is.
pub fn notify_client_remove(clients: &mut Vec<Client>, view: Shell)
    ensures
        has_view(old(clients)@, view) ==> final(clients)@ == old(clients)@.remove(
            first_of(old(clients)@, view),
        ),
        !has_view(old(clients)@, view) ==> final(clients)@ == old(clients)@,
{
    let n = clients.len();
    let mut i: usize = 0;
    while i < n
        invariant
            n == clients@.len(),
            *clients == *old(clients),
            i <= n,
            forall|k: int| 0 <= k < i ==> clients@[k].view != view,
        decreases n - i,
    {
        if clients[i].view == view {
            proof { lemma_first_of(clients@, view, i as int); }
            clients.remove(i);
            return;
        }
        i += 1;
    }
}

proof fn lemma_first_of(s: Seq<Client>, view: Shell, i: int)
    requires
        0 <= i < s.len(),
        s[i].view == view,
        forall|k: int| 0 <= k < i ==> s[k].view != view,
    ensures
        first_of(s, view) == i,
        has_view(s, view),
    decreases i,
{
    if i > 0 {
        let t = s.subrange(1, s.len() as int);
        assert forall|k: int| 0 <= k < i - 1 implies t[k].view != view by {
            assert(t[k] == s[k + 1]);
        }
        lemma_first_of(t, view, i - 1);
    }
}

} // verus!

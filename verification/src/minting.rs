//! Which IDs the two sides of a connection mint.
use vstd::prelude::*;

use crate::mplex::{MultiplexerView, Side};
use crate::session::Act;

verus! {

impl Side {
    /// The ID that a side mints for its `k`-th substream, counted from 0.
    pub open spec fn minted(self, k: nat) -> u32
        decreases k,
    {
        if k == 0 {
            self.first_id()
        } else {
            self.next_id(self.minted((k - 1) as nat))
        }
    }

    /// How many substreams a side can open before an ID comes again.
    pub open spec fn capacity(self) -> nat {
        match self {
            Side::Initiator => 0x8000_0000,
            Side::Responder => 0x7fff_ffff,
        }
    }

    /// Every ID that a side mints is one of its own: odd on the dialing side
    /// and even on the listening side, and never the reserved `0`.
    pub proof fn mints_its_own(self, k: nat)
        ensures
            self.mints(self.minted(k)),
            self.minted(k) != 0,
            self is Initiator ==> self.minted(k) % 2 == 1,
            self is Responder ==> self.minted(k) % 2 == 0,
        decreases k,
    {
        if k > 0 {
            self.mints_its_own((k - 1) as nat);
        }
    }

    /// IDs are minted in steps of two, until there are none left.
    pub proof fn mints_in_steps(self, k: nat)
        requires
            k < self.capacity(),
        ensures
            self.minted(k) == self.first_id() + 2 * k,
        decreases k,
    {
        if k > 0 {
            self.mints_in_steps((k - 1) as nat);
        }
    }

    /// No ID comes twice before a side has run out of them.
    pub proof fn mints_no_id_twice(self, j: nat, k: nat)
        requires
            j < k < self.capacity(),
        ensures
            self.minted(j) != self.minted(k),
    {
        self.mints_in_steps(j);
        self.mints_in_steps(k);
    }

    /// The two sides of a connection never mint the same ID.
    pub proof fn sides_never_collide(self, other: Side, j: nat, k: nat)
        requires
            self != other,
        ensures
            self.minted(j) != other.minted(k),
    {
        self.mints_its_own(j);
        other.mints_its_own(k);
    }
}

/// How many substreams of its own a session opens by acts.
pub open spec fn opens<W>(before: MultiplexerView<W>, acts: Seq<Act<W>>) -> nat
    decreases acts.len(),
{
    if acts.len() == 0 {
        0
    } else {
        (if acts.first() is Open && !before.closed {
            1
        } else {
            0nat
        }) + opens(before.after(acts.first()), acts.drop_first())
    }
}

impl<W> MultiplexerView<W> {
    /// A session mints IDs one after the other, whatever else happens: having
    /// opened `k` substreams of its own, it opens the next one with the `k`-th
    /// ID. An ID is never given back, even where the peer did not hear of the
    /// substream.
    pub proof fn ids_are_minted_in_turn(self, acts: Seq<Act<W>>, k: nat)
        requires
            self.next_id == self.side.minted(k),
        ensures
            self.after_all(acts).side == self.side,
            self.after_all(acts).next_id == self.side.minted(k + opens(self, acts)),
            self.after_all(acts).opening().id.0 == self.side.minted(k + opens(self, acts)),
        decreases acts.len(),
    {
        if acts.len() > 0 {
            let act = acts.first();
            let next = self.after(act);
            if act is Open && !self.closed {
                assert(next.next_id == self.side.minted(k + 1));
                next.ids_are_minted_in_turn(acts.drop_first(), k + 1);
            } else {
                next.ids_are_minted_in_turn(acts.drop_first(), k);
            }
        }
    }
}

} // verus!

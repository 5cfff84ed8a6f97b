//! What holds of the task that drives the transport over a whole run.
use vstd::prelude::*;

use crate::codec::{parse_in_parts, parsed};
use crate::drive::{DriveView, EventView};
use crate::frame::FrameView;
use crate::mplex::MultiplexerView;
use crate::session::{received, received_in_parts, Act};

verus! {

/// One turn of the task: some bytes may arrive, and then it takes a step.
pub struct Turn {
    /// The bytes that arrive.
    pub arrived: Seq<u8>,
    /// What happened.
    pub event: EventView,
}

/// Writing to the transport failed.
pub open spec fn write_failed(event: EventView) -> bool {
    event matches EventView::Written(written) && (written is None || written == Some(0nat))
}

impl DriveView {
    /// A turn can be taken: the task waits for its event, and only a read
    /// makes bytes arrive.
    pub open spec fn can_take(self, turn: Turn) -> bool {
        &&& self.expects(turn.event)
        &&& self.accepts(turn.event)
        &&& turn.arrived.len() == match turn.event {
            EventView::Received(Some(n)) => n,
            _ => 0,
        }
    }

    /// The task, once the bytes of a turn have arrived.
    pub open spec fn fed(self, turn: Turn) -> Self {
        DriveView { input: self.input + turn.arrived, ..self }
    }

    /// What a turn does.
    pub open spec fn take_turn(self, turn: Turn) -> Self {
        self.fed(turn).step(turn.event)
    }

    /// A run can be taken, turn by turn.
    pub open spec fn can_run(self, turns: Seq<Turn>) -> bool
        decreases turns.len(),
    {
        turns.len() > 0 ==> self.can_take(turns.first()) && self.take_turn(turns.first()).can_run(
            turns.drop_first(),
        )
    }

    /// What a run does.
    pub open spec fn run(self, turns: Seq<Turn>) -> Self
        decreases turns.len(),
    {
        if turns.len() == 0 {
            self
        } else {
            self.take_turn(turns.first()).run(turns.drop_first())
        }
    }

    /// The bytes that a run writes to the transport.
    pub open spec fn written(self, turns: Seq<Turn>) -> Seq<u8>
        decreases turns.len(),
    {
        if turns.len() == 0 {
            Seq::empty()
        } else {
            (match turns.first().event {
                EventView::Written(Some(n)) => self.output.take(n as int),
                _ => Seq::empty(),
            }) + self.take_turn(turns.first()).written(turns.drop_first())
        }
    }

    /// The frames that a run brings in.
    pub open spec fn brought(self, turns: Seq<Turn>) -> Seq<FrameView>
        decreases turns.len(),
    {
        if turns.len() == 0 {
            Seq::empty()
        } else {
            self.fed(turns.first()).brings(turns.first().event) + self.take_turn(
                turns.first(),
            ).brought(turns.drop_first())
        }
    }

    /// No whole frame is left in the input, and nothing malformed.
    pub open spec fn settled(self) -> bool {
        &&& parsed(self.input).frames.len() == 0
        &&& parsed(self.input).error is None
        &&& parsed(self.input).rest == self.input
    }
}

/// The encoded frames that a run is given to write.
pub open spec fn given(turns: Seq<Turn>) -> Seq<u8>
    decreases turns.len(),
{
    if turns.len() == 0 {
        Seq::empty()
    } else {
        (match turns.first().event {
            EventView::Outgoing(Some(bytes)) => bytes,
            _ => Seq::empty(),
        }) + given(turns.drop_first())
    }
}

/// The bytes that arrive in a run.
pub open spec fn arrived(turns: Seq<Turn>) -> Seq<u8>
    decreases turns.len(),
{
    if turns.len() == 0 {
        Seq::empty()
    } else {
        turns.first().arrived + arrived(turns.drop_first())
    }
}

/// What is left behind the last whole frame has no whole frame in it.
proof fn rest_is_settled(s: Seq<u8>)
    ensures
        parsed(s).error is None ==> parsed(parsed(s).rest).frames.len() == 0 && parsed(
            parsed(s).rest,
        ).error is None && parsed(parsed(s).rest).rest == parsed(s).rest,
{
    let none = Seq::<u8>::empty();
    parse_in_parts(s, none);
    assert(s + none =~= s);
    assert(parsed(s).rest + none =~= parsed(s).rest);
    if parsed(s).error is None {
        let again = parsed(parsed(s).rest);
        assert((parsed(s).frames + again.frames).len() == parsed(s).frames.len());
    }
}

impl DriveView {
    /// Frames leave in the order in which the task was given them, with
    /// nothing added, dropped or changed: what was written, followed by what
    /// is still to be written, is what was to be written at first, followed by
    /// what the task was given since.
    pub proof fn output_in_order(self, turns: Seq<Turn>)
        requires
            self.can_run(turns),
        ensures
            self.written(turns) + self.run(turns).output == self.output + given(turns),
        decreases turns.len(),
    {
        if turns.len() == 0 {
            assert(Seq::<u8>::empty() + self.output =~= self.output + Seq::<u8>::empty());
        } else {
            let turn = turns.first();
            let rest = turns.drop_first();
            let next = self.take_turn(turn);
            next.output_in_order(rest);
            let last = self.run(turns).output;
            let later = next.written(rest);
            match turn.event {
                EventView::Written(Some(n)) => {
                    let now = self.output.take(n as int);
                    assert((now + later) + last =~= now + (later + last));
                    if n == 0 {
                        assert(now + (self.output + given(rest)) =~= self.output + given(rest));
                    } else {
                        assert(now + (self.output.skip(n as int) + given(rest)) =~= self.output
                            + given(rest));
                    }
                    assert(Seq::<u8>::empty() + given(rest) =~= given(rest));
                },
                EventView::Outgoing(Some(bytes)) => {
                    assert(Seq::<u8>::empty() + later =~= later);
                    assert((self.output + bytes) + given(rest) =~= self.output + (bytes + given(
                        rest,
                    )));
                },
                _ => {
                    assert(Seq::<u8>::empty() + later =~= later);
                    assert(Seq::<u8>::empty() + given(rest) =~= given(rest));
                },
            }
        }
    }

    /// A live task reads whatever arrives, however much it still has to write:
    /// two peers that both write cannot wait for each other.
    pub proof fn reads_while_it_writes(self, received: Option<nat>)
        requires
            self.phase is Running,
        ensures
            self.expects(EventView::Received(received)),
            self.accepts(EventView::Received(received)),
    {
    }

    /// Frames that are collected one after the other go out together: the next
    /// write of a live task is offered all of them, behind what was still to
    /// be written, and nothing was written meanwhile.
    pub proof fn collected_frames_go_out_together(self, turns: Seq<Turn>)
        requires
            self.phase is Running,
            self.can_run(turns),
            forall|i: int|
                0 <= i < turns.len() ==> ((#[trigger] turns[i]).event matches EventView::Outgoing(
                    Some(_),
                )),
        ensures
            self.run(turns).phase is Running,
            self.run(turns).output == self.output + given(turns),
            self.written(turns) == Seq::<u8>::empty(),
        decreases turns.len(),
    {
        if turns.len() == 0 {
            assert(self.output + given(turns) =~= self.output);
        } else {
            let rest = turns.drop_first();
            let next = self.take_turn(turns.first());
            assert(turns.first() == turns[0]);
            assert forall|i: int| 0 <= i < rest.len() implies ((
            #[trigger] rest[i]).event matches EventView::Outgoing(Some(_))) by {
                assert(rest[i] == turns[i + 1]);
            }
            next.collected_frames_go_out_together(rest);
            self.output_in_order(turns);
            assert(self.written(turns) =~= Seq::<u8>::empty());
            assert(self.written(turns) + self.run(turns).output =~= self.run(turns).output);
        }
    }

    /// A task that was told to stop first writes everything that it was given:
    /// once it has stopped, nothing is left, unless writing failed.
    pub proof fn stops_only_when_flushed(self, turns: Seq<Turn>)
        requires
            self.can_run(turns),
            self.phase is Draining || self.phase is Flushing,
            self.run(turns).phase is Stopped,
            forall|i: int| 0 <= i < turns.len() ==> !write_failed((#[trigger] turns[i]).event),
        ensures
            self.run(turns).output == Seq::<u8>::empty(),
            self.written(turns) == self.output + given(turns),
        decreases turns.len(),
    {
        let turn = turns.first();
        let rest = turns.drop_first();
        let next = self.take_turn(turn);
        assert(turn == turns[0]);
        assert forall|i: int| 0 <= i < rest.len() implies !write_failed(
            (#[trigger] rest[i]).event,
        ) by {
            assert(rest[i] == turns[i + 1]);
        }
        if next.phase is Stopped {
            assert(next.can_run(rest));
            assert(rest.len() == 0);
            assert(next.output =~= Seq::<u8>::empty());
            assert(next.run(rest) == next);
        } else {
            next.stops_only_when_flushed(rest);
        }
        self.output_in_order(turns);
        assert(self.written(turns) + Seq::<u8>::empty() =~= self.written(turns));
    }

    /// However the bytes from the transport are cut, the frames that come in
    /// are those that the bytes hold; and bytes that are malformed stop the
    /// task.
    pub proof fn input_in_order(self, turns: Seq<Turn>)
        requires
            self.can_run(turns),
            self.settled(),
        ensures
            self.brought(turns) == parsed(self.input + arrived(turns)).frames,
            self.run(turns).input == parsed(self.input + arrived(turns)).rest,
            parsed(self.input + arrived(turns)).error is Some ==> self.run(turns).phase is Stopped,
        decreases turns.len(),
    {
        let none = Seq::<u8>::empty();
        if turns.len() == 0 {
            assert(self.input + none =~= self.input);
            assert(parsed(self.input).frames =~= Seq::<FrameView>::empty());
        } else {
            let turn = turns.first();
            let rest = turns.drop_first();
            let next = self.take_turn(turn);
            let first = self.input + turn.arrived;
            let second = arrived(rest);
            assert(self.input + arrived(turns) =~= first + second);
            let now = self.fed(turn).brings(turn.event);
            if turn.arrived.len() == 0 {
                assert(first =~= self.input);
                assert(now =~= Seq::<FrameView>::empty());
                assert(now + next.brought(rest) =~= next.brought(rest));
                next.input_in_order(rest);
            } else {
                parse_in_parts(first, second);
                rest_is_settled(first);
                if parsed(first).error is Some {
                    assert(next.can_run(rest));
                    assert(rest.len() == 0);
                    assert(first + second =~= first);
                    assert(now + next.brought(rest) =~= now);
                } else {
                    next.input_in_order(rest);
                }
            }
        }
    }
}

/// Frames from the peer, as acts.
pub open spec fn receipts<W>(frames: Seq<FrameView>) -> Seq<Act<W>> {
    frames.map_values(|frame: FrameView| Act::<W>::Receive(frame))
}

impl<W> MultiplexerView<W> {
    /// Applying frames from the peer is one act after the other.
    pub proof fn delivery_is_acts(self, frames: Seq<FrameView>)
        ensures
            self.allows_all(receipts(frames)),
            self.after_all(receipts(frames)) == self.dispatch_all(frames),
            received(receipts::<W>(frames)) == frames,
        decreases frames.len(),
    {
        if frames.len() > 0 {
            let earlier = frames.drop_last();
            let last = seq![Act::<W>::Receive(frames.last())];
            self.delivery_is_acts(earlier);
            assert(receipts::<W>(frames) =~= receipts::<W>(earlier) + last);
            self.acts_in_parts(receipts(earlier), last);
            received_in_parts(receipts::<W>(earlier), last);
            assert(last.drop_first() =~= Seq::<Act<W>>::empty());
            reveal_with_fuel(received, 2);
            reveal_with_fuel(MultiplexerView::after_all, 2);
            reveal_with_fuel(MultiplexerView::allows_all, 2);
            assert(received(last) =~= seq![frames.last()]);
            assert(earlier + seq![frames.last()] =~= frames);
        } else {
            assert(receipts::<W>(frames) =~= Seq::<Act<W>>::empty());
        }
    }
}

} // verus!

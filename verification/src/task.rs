//! When the task that drives the transport goes on, and when it stops.
use vstd::prelude::*;

use crate::buffer::{buffer_view, bytes_view};
use crate::codec::{decoded, wire_all};
use crate::drive::{Drive, DriveView, Event, EventView};
use crate::format::parsing_is_complete;
use crate::run::{given, write_failed, Turn};

verus! {

/// The models of an event and of the task are what they hold.
pub proof fn events_are_what_they_say(event: Event, drive: Drive)
    ensures
        event is Shutdown <==> event@ is Shutdown,
        event matches Event::Written(Some(n)) ==> event@ == EventView::Written(Some(n as nat)),
        event matches Event::Written(None) ==> event@ == EventView::Written(None),
        event matches Event::Outgoing(Some(bytes)) ==> event@ == EventView::Outgoing(
            Some(bytes_view(bytes)),
        ),
        event matches Event::Outgoing(None) ==> event@ == EventView::Outgoing(None),
        event matches Event::Received(Some(n)) ==> event@ == EventView::Received(Some(n as nat)),
        event matches Event::Received(None) ==> event@ == EventView::Received(None),
        drive@.input == buffer_view(drive.read_buf),
        drive@.output == buffer_view(drive.write_buf),
        drive@.phase == drive.phase,
{
}

impl DriveView {
    /// What the task waits for: while it is alive, anything, but for a write of
    /// nothing; once told to stop, first the frames that are queued and then
    /// that they are written.
    pub proof fn waits_for_these(self, event: EventView)
        ensures
            self.phase is Running ==> (self.expects(event) <==> (event is Written
                ==> self.output.len() > 0)),
            self.phase is Draining ==> (self.expects(event) <==> event is Outgoing),
            self.phase is Flushing ==> (self.expects(event) <==> event is Written),
            self.phase is Stopped ==> !self.expects(event),
            event matches EventView::Written(Some(n)) ==> (self.accepts(event) <==> n
                <= self.output.len()),
            event matches EventView::Outgoing(Some(bytes)) ==> (self.accepts(event)
                <==> self.output.len() + bytes.len() <= isize::MAX),
            event matches EventView::Written(None) ==> self.accepts(event),
            event matches EventView::Outgoing(None) ==> self.accepts(event),
            event is Received || event is Shutdown ==> self.accepts(event),
    {
    }

    /// Why the task stops: the transport failed or ended, the bytes that came
    /// are malformed, no frame can come any more, or it was told to and has
    /// written everything. Not for being told to stop alone, nor for frames,
    /// bytes or writes that are in order.
    pub proof fn stops_for_a_reason(self, event: EventView)
        requires
            self.expects(event),
            self.accepts(event),
        ensures
            self.step(event).phase is Stopped <==> match event {
                EventView::Shutdown => false,
                EventView::Written(None) => true,
                EventView::Written(Some(n)) => n == 0 || self.phase is Flushing && n
                    == self.output.len(),
                EventView::Outgoing(Some(_)) => false,
                EventView::Outgoing(None) => self.phase is Running || self.output.len() == 0,
                EventView::Received(None) => true,
                EventView::Received(Some(n)) => n == 0 || decoded(
                    self.step(event).input,
                ) is Malformed,
            },
            event is Shutdown ==> self.step(event).phase is Draining,
            event == EventView::Outgoing(None) && self.phase is Draining && self.output.len() > 0
                ==> self.step(event).phase is Flushing,
            self.step(event).phase !is Stopped && event !is Shutdown && event
                != EventView::Outgoing(None) ==> self.step(event).phase == self.phase,
    {
        parsing_is_complete(self.input);
    }

    /// Only a write takes bytes off the output, and then as many as were
    /// written, off its front; only a frame to send adds to it, at its end.
    pub proof fn output_is_kept(self, event: EventView)
        requires
            self.expects(event),
            self.accepts(event),
        ensures
            match event {
                EventView::Written(Some(n)) => self.output == self.output.take(n as int)
                    + self.step(event).output && self.step(event).output.len()
                    == self.output.len() - n,
                EventView::Outgoing(Some(bytes)) => self.step(event).output == self.output + bytes,
                _ => self.step(event).output == self.output,
            },
    {
        if let EventView::Written(Some(n)) = event {
            assert(self.output =~= self.output.take(n as int) + self.output.skip(n as int));
            if n == 0 {
                assert(self.output.skip(0) =~= self.output);
            }
        }
    }

    /// What arrives becomes frames, in order and in full, and the bytes behind
    /// the last whole one stay. Nothing else touches the input or brings a
    /// frame.
    pub proof fn input_is_kept(self, event: EventView)
        ensures
            self.input == wire_all(self.brings(event)) + self.step(event).input,
            match event {
                EventView::Received(Some(n)) => n > 0 ==> decoded(
                    self.step(event).input,
                ) !is Complete,
                _ => true,
            },
            (event !is Received || event == EventView::Received(None) || event
                == EventView::Received(Some(0nat))) ==> self.brings(event).len() == 0
                && self.step(event).input == self.input,
    {
        parsing_is_complete(self.input);
        assert(wire_all(Seq::empty()) + self.input =~= self.input);
    }

    /// Being told to stop loses nothing: whatever a live task still has to
    /// write when it is told, and whatever is queued by then, is written before
    /// it stops, unless writing fails. It stops only after it has found that
    /// nothing more is queued.
    ///
    /// The run begins with the event that tells the task to stop.
    pub proof fn shutdown_flushes(self, turns: Seq<Turn>)
        requires
            self.phase is Running,
            self.can_run(turns),
            turns.len() > 0,
            turns[0].event is Shutdown,
            self.run(turns).phase is Stopped,
            forall|i: int| 0 <= i < turns.len() ==> !write_failed((#[trigger] turns[i]).event),
        ensures
            self.run(turns).output == Seq::<u8>::empty(),
            self.written(turns) == self.output + given(turns),
            exists|k: int|
                0 < k < turns.len() && (#[trigger] turns[k]).event == EventView::Outgoing(None),
    {
        let rest = turns.drop_first();
        let told = self.take_turn(turns.first());
        assert(turns.first() == turns[0]);
        assert(told.output == self.output);
        assert(told.phase is Draining);
        assert forall|i: int| 0 <= i < rest.len() implies !write_failed(
            (#[trigger] rest[i]).event,
        ) by {
            assert(rest[i] == turns[i + 1]);
        }
        told.stops_only_when_flushed(rest);
        self.output_in_order(turns);
        assert(self.written(turns) + Seq::<u8>::empty() =~= self.written(turns));
        told.collects_to_the_end(rest);
        let k = choose|k: int|
            0 <= k < rest.len() && (#[trigger] rest[k]).event == EventView::Outgoing(None);
        assert(turns[k + 1] == rest[k]);
    }

    /// A task that collects what is queued leaves off only when there is
    /// nothing more.
    proof fn collects_to_the_end(self, turns: Seq<Turn>)
        requires
            self.phase is Draining,
            self.can_run(turns),
            self.run(turns).phase is Stopped,
        ensures
            exists|k: int|
                0 <= k < turns.len() && (#[trigger] turns[k]).event == EventView::Outgoing(None),
        decreases turns.len(),
    {
        let rest = turns.drop_first();
        let next = self.take_turn(turns.first());
        assert(turns.first() == turns[0]);
        if turns[0].event != EventView::Outgoing(None) {
            assert(next.phase is Draining);
            next.collects_to_the_end(rest);
            let k = choose|k: int|
                0 <= k < rest.len() && (#[trigger] rest[k]).event == EventView::Outgoing(None);
            assert(turns[k + 1] == rest[k]);
        }
    }
}

} // verus!

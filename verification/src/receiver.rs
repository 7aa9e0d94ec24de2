//! The receive loop of the node, one radio event at a time.

use vstd::prelude::*;

use crate::mac::{
    frame_dst_addr, frame_header, frame_src_addr, frame_summary, iphc_header, parse_frame_header,
    FrameHeader,
};
use crate::payload::buffer_bytes;
use crate::receive::{
    outcome_fits, outcome_of, receive_frame, view_ok, FrameError, FrameOutcome, OutcomeModel,
};

verus! {

/// How long the radio listens before it reports that nothing came, in
/// milliseconds.
pub const RX_POLL_MILLIS: u64 = 250;

/// How many receptions there have been. The counts wrap.
#[derive(Clone, Copy, Debug, PartialEq, Eq, Structural)]
pub struct RxCounters {
    /// Receptions that succeeded.
    pub ok: u32,
    /// Receptions that failed.
    pub err: u32,
}

/// What the radio reports.
pub enum RadioEvent<'a> {
    /// These octets were received.
    Received(&'a [u8]),
    /// A reception failed.
    Failed,
    /// Nothing came.
    TimedOut,
}

/// What the node makes of it.
pub enum RxReport {
    /// The reception with this number, the header of the frame if it has a
    /// whole one, and what the frame yields.
    Frame { number: u32, header: Option<FrameHeader>, outcome: Result<FrameOutcome, FrameError> },
    /// The failure with this number.
    Failure { number: u32 },
    /// Nothing.
    Idle,
}

/// A radio event as a value.
pub ghost enum EventModel {
    Received(Seq<u8>),
    Failed,
    TimedOut,
}

impl<'a> View for RadioEvent<'a> {
    type V = EventModel;

    open spec fn view(&self) -> EventModel {
        match *self {
            RadioEvent::Received(frame) => EventModel::Received(frame@),
            RadioEvent::Failed => EventModel::Failed,
            RadioEvent::TimedOut => EventModel::TimedOut,
        }
    }
}

/// A count that wraps, after one more.
pub open spec fn next_count(count: u32) -> u32 {
    if count == u32::MAX {
        0
    } else {
        (count + 1) as u32
    }
}

/// The counters after an event.
pub open spec fn counters_after(counters: RxCounters, event: EventModel) -> RxCounters {
    match event {
        EventModel::Received(_) => RxCounters { ok: next_count(counters.ok), ..counters },
        EventModel::Failed => RxCounters { err: next_count(counters.err), ..counters },
        EventModel::TimedOut => counters,
    }
}

impl RxCounters {
    /// No receptions yet.
    pub fn new() -> (counters: Self)
        ensures
            counters == (RxCounters { ok: 0, err: 0 }),
    {
        RxCounters { ok: 0, err: 0 }
    }

    /// Deals with a radio event under the network key `key`.
    pub fn on_event(&mut self, event: RadioEvent<'_>, key: &[u8; 16]) -> (report: RxReport)
        ensures
            *final(self) == counters_after(*old(self), event@),
            match event@ {
                EventModel::Received(frame) => report matches RxReport::Frame {
                    number,
                    header,
                    outcome,
                } && number == final(self).ok && header == frame_header(frame) && view_ok(outcome)
                    == outcome_of(frame, key@) && outcome_fits(frame, view_ok(outcome)),
                EventModel::Failed => report matches RxReport::Failure { number } && number
                    == final(self).err,
                EventModel::TimedOut => report is Idle,
            },
            match event {
                RadioEvent::Received(frame) => {
                    &&& final(self).ok == (old(self).ok + 1) % 0x1_0000_0000
                    &&& final(self).err == old(self).err
                    &&& report matches RxReport::Frame { number, header, outcome }
                    &&& number == final(self).ok
                    &&& header is Some <==> frame_summary(frame@) is Some
                    &&& header matches Some(h) ==> frame_summary(frame@) == Some(h.summary)
                        && h.src_addr == frame_src_addr(frame@) && h.dst_addr == frame_dst_addr(
                        frame@,
                    )
                    &&& match outcome {
                        Ok(FrameOutcome::Delivered { payload, header: ip }) => outcome_of(
                            frame@,
                            key@,
                        ) == Ok::<_, FrameError>(
                            OutcomeModel::Delivered { payload: buffer_bytes(payload), header: ip },
                        ),
                        Ok(FrameOutcome::Skipped(reason)) => outcome_of(frame@, key@) == Ok::<
                            _,
                            FrameError,
                        >(OutcomeModel::Skipped(reason)),
                        Err(e) => outcome_of(frame@, key@) == Err::<OutcomeModel, _>(e),
                    }
                    &&& outcome matches Ok(FrameOutcome::Delivered { payload, header: ip }) ==> ip
                        == iphc_header(
                        buffer_bytes(payload),
                        frame_src_addr(frame@),
                        frame_dst_addr(frame@),
                    )
                },
                RadioEvent::Failed => {
                    &&& final(self).ok == old(self).ok
                    &&& final(self).err == (old(self).err + 1) % 0x1_0000_0000
                    &&& report matches RxReport::Failure { number }
                    &&& number == final(self).err
                },
                RadioEvent::TimedOut => *final(self) == *old(self) && report is Idle,
            },
    {
        match event {
            RadioEvent::Received(frame) => {
                self.ok = self.ok.wrapping_add(1);
                let header = parse_frame_header(frame);
                let outcome = receive_frame(frame, key);
                RxReport::Frame { number: self.ok, header, outcome }
            },
            RadioEvent::Failed => {
                self.err = self.err.wrapping_add(1);
                RxReport::Failure { number: self.err }
            },
            RadioEvent::TimedOut => RxReport::Idle,
        }
    }
}

/// The counters after a run of events, the first one first.
pub open spec fn counters_after_all(counters: RxCounters, events: Seq<EventModel>) -> RxCounters
    decreases events.len(),
{
    if events.len() == 0 {
        counters
    } else {
        counters_after(counters_after_all(counters, events.drop_last()), events.last())
    }
}

/// How many events of a run are receptions that succeeded.
pub open spec fn count_received(events: Seq<EventModel>) -> nat
    decreases events.len(),
{
    if events.len() == 0 {
        0
    } else {
        count_received(events.drop_last()) + (if events.last() is Received {
            1nat
        } else {
            0nat
        })
    }
}

/// How many events of a run are receptions that failed.
pub open spec fn count_failed(events: Seq<EventModel>) -> nat
    decreases events.len(),
{
    if events.len() == 0 {
        0
    } else {
        count_failed(events.drop_last()) + (if events.last() is Failed {
            1nat
        } else {
            0nat
        })
    }
}

/// A reception adds one to the count of its kind, from the highest count back to
/// zero, and leaves the other one; a pause changes nothing.
pub proof fn law_events_count_once(counters: RxCounters, event: EventModel)
    ensures
        ({
            let after = counters_after(counters, event);
            let (received, failed) = (
                if event is Received { 1int } else { 0 },
                if event is Failed { 1int } else { 0 },
            );
            &&& (after.ok - counters.ok - received) % 0x1_0000_0000 == 0
            &&& (after.err - counters.err - failed) % 0x1_0000_0000 == 0
        }),
{
}

/// Whatever has happened, the counters tell how many receptions there were of
/// either kind, as far as 32 bits can tell it.
pub proof fn law_counters_count(events: Seq<EventModel>)
    ensures
        counters_after_all(RxCounters { ok: 0, err: 0 }, events).ok as nat == count_received(events)
            % 0x1_0000_0000,
        counters_after_all(RxCounters { ok: 0, err: 0 }, events).err as nat == count_failed(events)
            % 0x1_0000_0000,
    decreases events.len(),
{
    if events.len() > 0 {
        law_counters_count(events.drop_last());
    }
}

} // verus!

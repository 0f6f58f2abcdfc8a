//! The decisions of a device's poll loop and of its response reader: which
//! commands to send, when the energy total is due again, what a reply
//! changes, what a cycle commits, and when to stop reading.
use vstd::prelude::*;
use crate::checksum::TERMINATOR;
use crate::clock::{clock_text, date_digits, format_clock, push_date, CalendarDate, ClockTime};
use crate::decode::{decode_energy_total, decode_telemetry, energy_total, find_byte, find_from, telemetry_fields};
use crate::power::field_texts;
use crate::store::DeviceSnapshot;
use crate::text::{ascii_text, decimal_digits, push_decimal};

verus! {

/// Least time between two energy-total queries that succeeded, in
/// milliseconds; a query is due once more than this has passed.
pub const ENERGY_THROTTLE_MS: u64 = 300_000;

/// How long the reader waits for a terminator, in milliseconds.
pub const READ_DEADLINE_MS: u64 = 1500;

/// `QPGS<id>`: the parallel-status query of unit `id`.
pub open spec fn status_command_of(id: u8) -> Seq<u8> {
    seq![0x51u8, 0x50u8, 0x47u8, 0x53u8] + decimal_digits(id as nat)
}

/// `QED<YYYYMMDD>`: the energy-total query of a day.
pub open spec fn energy_command_of(d: CalendarDate) -> Seq<u8> {
    seq![0x51u8, 0x45u8, 0x44u8] + date_digits(d)
}

/// The energy text a device starts with, `0.00`.
pub open spec fn initial_energy() -> Seq<char> {
    seq!['0', '.', '0', '0']
}

/// Whether an energy query is due at `now_ms`, given when the last one
/// succeeded.
pub open spec fn energy_due(last: Option<u64>, now_ms: u64) -> bool {
    match last {
        None => true,
        Some(t) => now_ms > t + ENERGY_THROTTLE_MS,
    }
}

/// The status query of unit `id`.
pub fn status_command(id: u8) -> (r: Vec<u8>)
    ensures
        r@ == status_command_of(id),
{
    let mut out: Vec<u8> = Vec::new();
    out.push(0x51u8);
    out.push(0x50u8);
    out.push(0x47u8);
    out.push(0x53u8);
    push_decimal(&mut out, id as u64);
    assert(out@ =~= status_command_of(id));
    out
}

/// The energy-total query of a day.
pub fn energy_command(date: CalendarDate) -> (r: Vec<u8>)
    ensures
        r@ == energy_command_of(date),
{
    let mut out: Vec<u8> = Vec::new();
    out.push(0x51u8);
    out.push(0x45u8);
    out.push(0x44u8);
    push_date(&mut out, date);
    assert(out@ =~= energy_command_of(date));
    out
}

/// Where a device's loop stands within a cycle.
#[derive(Clone, Debug)]
pub enum PollPhase {
    /// Between cycles.
    Idle,
    /// The device is being opened.
    Opening,
    /// The status query is out.
    AwaitStatus,
    /// The energy query is out; the status reply's fields wait to be
    /// committed.
    AwaitEnergy(Vec<String>),
}

/// What the transport reports to the loop.
pub enum PollEvent {
    /// The pause between cycles is over, or the loop starts.
    Wake,
    /// The device was opened.
    Opened,
    /// The device could not be opened.
    OpenFailed,
    /// What the reader returned for the query that was sent; `None` when
    /// nothing arrived.
    Reply(Option<Vec<u8>>),
}

/// What the loop asks of the transport next.
pub enum PollAction {
    /// Open the device.
    Open,
    /// Frame and send this command, then report its reply.
    Send(Vec<u8>),
    /// Replace this device's record in the store, then pause.
    Commit(DeviceSnapshot),
    /// Pause until the next cycle.
    Sleep,
}

/// The state that one device's loop carries from cycle to cycle.
pub struct DevicePoller {
    id: u8,
    label: String,
    cached_energy: String,
    last_energy_ms: Option<u64>,
    phase: PollPhase,
}

/// `a` commits `fields` under the label and energy total of `p`, stamped
/// with `at`.
pub open spec fn commits(a: PollAction, p: DevicePoller, fields: Seq<Seq<char>>, at: ClockTime) -> bool {
    match a {
        PollAction::Commit(s) => s.label@ == p.spec_label() && field_texts(s.raw_fields@) == fields
            && s.cached_energy@ == p.energy() && s.last_update@ == ascii_text(clock_text(at)),
        _ => false,
    }
}

/// The energy total and throttle are as they were.
pub open spec fn energy_kept(old: DevicePoller, new: DevicePoller) -> bool {
    new.energy() == old.energy() && new.last_energy_at() == old.last_energy_at()
}

/// The energy total and throttle after the reply to an energy query: a reply
/// that decodes replaces the total and restarts the throttle at `now_ms`.
pub open spec fn energy_after_reply(
    old: DevicePoller,
    new: DevicePoller,
    reply: Option<Vec<u8>>,
    now_ms: u64,
) -> bool {
    match reply {
        Some(b) => match energy_total(b@) {
            Some(e) => new.energy() == e && new.last_energy_at() == Some(now_ms),
            None => energy_kept(old, new),
        },
        None => energy_kept(old, new),
    }
}

/// The fields of a status reply, if it decodes.
pub open spec fn status_fields(reply: Option<Vec<u8>>) -> Option<Seq<Seq<char>>> {
    match reply {
        Some(b) => telemetry_fields(b@),
        None => None,
    }
}

impl DevicePoller {
    pub closed spec fn spec_id(&self) -> u8 {
        self.id
    }

    pub closed spec fn spec_label(&self) -> Seq<char> {
        self.label@
    }

    /// The last energy total read, or `0.00` before the first.
    pub closed spec fn energy(&self) -> Seq<char> {
        self.cached_energy@
    }

    /// When the last energy query succeeded.
    pub closed spec fn last_energy_at(&self) -> Option<u64> {
        self.last_energy_ms
    }

    /// Where the loop stands.
    pub closed spec fn phase(&self) -> PollPhase {
        self.phase
    }

    /// A device that has read no energy total yet.
    pub fn new(id: u8, label: String) -> (r: DevicePoller)
        ensures
            r.spec_id() == id,
            r.spec_label() == label@,
            r.energy() == initial_energy(),
            r.last_energy_at() is None,
            r.phase() is Idle,
    {
        proof {
            reveal_strlit("0.00");
        }
        let e: String = "0.00".to_owned();
        assert(e@ =~= initial_energy());
        DevicePoller { id, label, cached_energy: e, last_energy_ms: None, phase: PollPhase::Idle }
    }

    pub fn id(&self) -> (r: u8)
        ensures
            r == self.spec_id(),
    {
        self.id
    }

    pub fn label(&self) -> (r: &String)
        ensures
            r@ == self.spec_label(),
    {
        &self.label
    }

    pub fn cached_energy(&self) -> (r: &String)
        ensures
            r@ == self.energy(),
    {
        &self.cached_energy
    }

    /// This device's status query.
    pub fn status_query(&self) -> (r: Vec<u8>)
        ensures
            r@ == status_command_of(self.spec_id()),
    {
        status_command(self.id)
    }

    /// Whether the energy total should be queried in this cycle.
    pub fn energy_query_due(&self, now_ms: u64) -> (r: bool)
        ensures
            r == energy_due(self.last_energy_at(), now_ms),
    {
        match self.last_energy_ms {
            None => true,
            Some(t) => now_ms > t && now_ms - t > ENERGY_THROTTLE_MS,
        }
    }

    /// Takes the reply to an energy query (`None` when nothing came back).
    /// A reply that decodes replaces the cached total and restarts the
    /// throttle at `now_ms`; anything else leaves the state as it was.
    /// Returns whether the total was replaced.
    pub fn record_energy_reply(&mut self, now_ms: u64, reply: Option<Vec<u8>>) -> (r: bool)
        ensures
            final(self).spec_id() == old(self).spec_id(),
            final(self).spec_label() == old(self).spec_label(),
            final(self).phase() == old(self).phase(),
            energy_after_reply(*old(self), *final(self), reply, now_ms),
            r == (match reply {
                Some(b) => energy_total(b@) is Some,
                None => false,
            }),
    {
        match reply {
            None => false,
            Some(bytes) => match decode_energy_total(bytes.as_slice()) {
                Some(e) => {
                    self.cached_energy = e;
                    self.last_energy_ms = Some(now_ms);
                    true
                },
                None => false,
            },
        }
    }

    /// One transition of the loop. A cycle opens the device, sends the status
    /// query, sends the energy query when it is due, and commits the status
    /// fields with the current energy total; any failure ends the cycle
    /// with a pause and leaves the energy total as it was. `now_ms` is the
    /// time on a monotonic clock, `at` and `date` the wall-clock time and
    /// day.
    pub fn step(&mut self, event: PollEvent, now_ms: u64, at: ClockTime, date: CalendarDate) -> (r:
        PollAction)
        requires
            date.year <= 9999,
        ensures
            final(self).spec_id() == old(self).spec_id(),
            final(self).spec_label() == old(self).spec_label(),
            match (old(self).phase(), event) {
                (PollPhase::Idle, PollEvent::Wake) => r is Open && final(self).phase() is Opening
                    && energy_kept(*old(self), *final(self)),
                (PollPhase::Opening, PollEvent::Opened) => (match r {
                    PollAction::Send(c) => c@ == status_command_of(old(self).spec_id()),
                    _ => false,
                }) && final(self).phase() is AwaitStatus && energy_kept(*old(self), *final(self)),
                (PollPhase::AwaitStatus, PollEvent::Reply(b)) => energy_kept(*old(self), *final(self))
                    && match status_fields(b) {
                    None => r is Sleep && final(self).phase() is Idle,
                    Some(ts) => if energy_due(old(self).last_energy_at(), now_ms) {
                        (match r {
                            PollAction::Send(c) => c@ == energy_command_of(date),
                            _ => false,
                        }) && (match final(self).phase() {
                            PollPhase::AwaitEnergy(f) => field_texts(f@) == ts,
                            _ => false,
                        })
                    } else {
                        commits(r, *final(self), ts, at) && final(self).phase() is Idle
                    },
                },
                (PollPhase::AwaitEnergy(f), PollEvent::Reply(b)) => energy_after_reply(
                    *old(self),
                    *final(self),
                    b,
                    now_ms,
                ) && commits(r, *final(self), field_texts(f@), at) && final(self).phase() is Idle,
                _ => r is Sleep && final(self).phase() is Idle && energy_kept(
                    *old(self),
                    *final(self),
                ),
            },
    {
        let mut phase = PollPhase::Idle;
        std::mem::swap(&mut self.phase, &mut phase);
        match (phase, event) {
            (PollPhase::Idle, PollEvent::Wake) => {
                self.phase = PollPhase::Opening;
                PollAction::Open
            },
            (PollPhase::Opening, PollEvent::Opened) => {
                self.phase = PollPhase::AwaitStatus;
                PollAction::Send(status_command(self.id))
            },
            (PollPhase::AwaitStatus, PollEvent::Reply(b)) => {
                let fields = match b {
                    Some(bytes) => decode_telemetry(bytes.as_slice()),
                    None => None,
                };
                match fields {
                    None => PollAction::Sleep,
                    Some(f) => {
                        if self.energy_query_due(now_ms) {
                            self.phase = PollPhase::AwaitEnergy(f);
                            PollAction::Send(energy_command(date))
                        } else {
                            PollAction::Commit(self.snapshot(f, at))
                        }
                    },
                }
            },
            (PollPhase::AwaitEnergy(f), PollEvent::Reply(b)) => {
                self.record_energy_reply(now_ms, b);
                self.phase = PollPhase::Idle;
                PollAction::Commit(self.snapshot(f, at))
            },
            _ => PollAction::Sleep,
        }
    }

    /// What a cycle whose status query succeeded commits: the label, the
    /// reply's fields, the cached energy total and the time of the reply.
    pub fn snapshot(&self, fields: Vec<String>, at: ClockTime) -> (r: DeviceSnapshot)
        ensures
            r.label@ == self.spec_label(),
            r.raw_fields == fields,
            r.cached_energy@ == self.energy(),
            r.last_update@ == ascii_text(clock_text(at)),
    {
        DeviceSnapshot {
            label: self.label.clone(),
            raw_fields: fields,
            cached_energy: self.cached_energy.clone(),
            last_update: format_clock(at),
        }
    }
}

/// The bytes read so far in reply to one command.
pub struct ResponseCollector {
    buf: Vec<u8>,
}

impl View for ResponseCollector {
    type V = Seq<u8>;

    closed spec fn view(&self) -> Seq<u8> {
        self.buf@
    }
}

/// The bytes hold a terminator.
pub open spec fn has_terminator(s: Seq<u8>) -> bool {
    find_from(s, TERMINATOR, 0) < s.len()
}

impl ResponseCollector {
    /// Nothing read yet.
    pub fn new() -> (r: ResponseCollector)
        ensures
            r@ == Seq::<u8>::empty(),
    {
        ResponseCollector { buf: Vec::new() }
    }

    /// Appends the bytes of one read.
    pub fn accept(&mut self, chunk: &[u8])
        ensures
            final(self)@ == old(self)@ + chunk@,
    {
        let mut i: usize = 0;
        while i < chunk.len()
            invariant
                i <= chunk@.len(),
                self.buf@ == old(self)@ + chunk@.subrange(0, i as int),
            decreases chunk.len() - i,
        {
            self.buf.push(chunk[i]);
            assert(chunk@.subrange(0, i + 1) =~= chunk@.subrange(0, i as int).push(chunk@[i as int]));
            i = i + 1;
        }
        assert(chunk@.subrange(0, i as int) =~= chunk@);
    }

    /// Whether a terminator has arrived.
    pub fn complete(&self) -> (r: bool)
        ensures
            r == has_terminator(self@),
    {
        find_byte(self.buf.as_slice(), TERMINATOR, 0) < self.buf.len()
    }

    /// Whether to read again after `elapsed_ms` since the command was sent:
    /// only while no terminator has come and the deadline has not passed.
    pub fn keep_reading(&self, elapsed_ms: u64) -> (r: bool)
        ensures
            r == (elapsed_ms < READ_DEADLINE_MS && !has_terminator(self@)),
    {
        elapsed_ms < READ_DEADLINE_MS && !self.complete()
    }

    /// The reply: `None` when nothing at all was read, else every byte read,
    /// terminated or not.
    pub fn finish(self) -> (r: Option<Vec<u8>>)
        ensures
            r is None <==> self@.len() == 0,
            r matches Some(v) ==> v@ == self@,
    {
        if self.buf.len() == 0 {
            None
        } else {
            Some(self.buf)
        }
    }
}

} // verus!

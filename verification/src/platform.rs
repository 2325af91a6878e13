//! Platform-specific telemetry: the throttling events a board's firmware
//! reports and the platform record built from them. Watching the firmware
//! file and querying the board are I/O the caller owns; the library decodes
//! the firmware's bit field and keeps the event history.

use vstd::prelude::*;

verus! {

/// One kind of firmware throttling event.
#[derive(Clone, Copy, Debug, PartialEq, Eq, Structural)]
pub enum EventType {
    FrequencyCapping,
    TemperatureLimit,
    Throttling,
    UnderVoltage,
}

/// One observed throttling event.
#[derive(Clone, Copy, Debug, PartialEq, Eq, Structural)]
pub struct Event {
    /// When the event was observed, in milliseconds since the unix epoch.
    pub time: i64,
    /// What the firmware reported.
    pub typ: EventType,
}

/// The events a firmware throttling word denotes, in the order the bits are
/// examined: bit 0 under-voltage, bit 1 frequency capping, bit 2 throttling,
/// bit 3 temperature limit.
pub open spec fn decoded_events(bits: u64, time: i64) -> Seq<Event> {
    (if bits & 0b1 != 0 {
        seq![Event { time, typ: EventType::UnderVoltage }]
    } else {
        Seq::<Event>::empty()
    }) + (if bits & 0b10 != 0 {
        seq![Event { time, typ: EventType::FrequencyCapping }]
    } else {
        Seq::<Event>::empty()
    }) + (if bits & 0b100 != 0 {
        seq![Event { time, typ: EventType::Throttling }]
    } else {
        Seq::<Event>::empty()
    }) + (if bits & 0b1000 != 0 {
        seq![Event { time, typ: EventType::TemperatureLimit }]
    } else {
        Seq::<Event>::empty()
    })
}

/// Decodes a firmware throttling word into the events it reports, observed
/// at the given time.
pub fn decode_throttled_bits(bits: u64, time: i64) -> (r: Vec<Event>)
    ensures
        r@ == decoded_events(bits, time),
{
    let mut out: Vec<Event> = Vec::new();
    if bits & 0b1 != 0 {
        out.push(Event { time, typ: EventType::UnderVoltage });
    }
    if bits & 0b10 != 0 {
        out.push(Event { time, typ: EventType::FrequencyCapping });
    }
    if bits & 0b100 != 0 {
        out.push(Event { time, typ: EventType::Throttling });
    }
    if bits & 0b1000 != 0 {
        out.push(Event { time, typ: EventType::TemperatureLimit });
    }
    proof {
        assert(out@ =~= decoded_events(bits, time));
    }
    out
}

/// The throttling-event history: what the last firmware word reported, and
/// every event ever observed.
pub struct Events {
    /// The events the most recent firmware word reported.
    pub occurring: Vec<Event>,
    /// Every event observed since the process started, in observation order.
    pub list: Vec<Event>,
}

impl Default for Events {
    /// A history with nothing observed yet.
    fn default() -> (r: Events)
        ensures
            r.occurring@ == Seq::<Event>::empty(),
            r.list@ == Seq::<Event>::empty(),
    {
        Events { occurring: Vec::new(), list: Vec::new() }
    }
}

impl Events {
    /// Records one firmware throttling word observed at the given time: what
    /// it reports replaces the currently occurring events and extends the
    /// history.
    pub fn apply_throttled_bits(&mut self, bits: u64, time: i64)
        ensures
            final(self).occurring@ == decoded_events(bits, time),
            final(self).list@ == old(self).list@ + decoded_events(bits, time),
    {
        let decoded = decode_throttled_bits(bits, time);
        let mut extension = decode_throttled_bits(bits, time);
        self.occurring = decoded;
        self.list.append(&mut extension);
    }
}

/// What the board reports itself to be, with its event history.
pub struct Raspberry {
    /// Board model name.
    pub model: String,
    /// System-on-chip name.
    pub soc: String,
    /// The throttling events observed so far.
    pub events: Events,
}

/// Platform-specific information served by the platform endpoint.
pub struct Platform {
    pub raspberry: Raspberry,
}

impl Platform {
    /// Assembles the platform record from the board's reported names and the
    /// event history.
    pub fn new(model: String, soc: String, events: Events) -> (r: Platform)
        ensures
            r.raspberry.model@ == model@,
            r.raspberry.soc@ == soc@,
            r.raspberry.events.occurring@ == events.occurring@,
            r.raspberry.events.list@ == events.list@,
    {
        Platform { raspberry: Raspberry { model, soc, events } }
    }
}

} // verus!

//! The stateful decoder of the scp/qdc module family with 16 or 32 channels.
//!
//! Words are classified by their top two bits: `01` opens an event, `11` closes
//! it, and `00` carries data that is grouped by channel into the open event.
use vstd::prelude::*;

use crate::bitmasks::{
    word_at, words_of, EIGHT_BIT, FIVE_BIT, FOUR_BIT, ONE_BIT, SEVEN_BIT, SIXTEEN_BIT,
    THIRTY_BIT, TWO_BIT,
};
use crate::error::DecodeError;

verus! {

/// One measured quantity of a channel, as carried by a payload word.
#[derive(Clone, Copy, Debug, PartialEq, Eq, Structural)]
pub enum Measurement {
    /// Amplitude and its pile-up flag.
    Adc(u32, bool),
    /// Long integral.
    Long(u32),
    /// Short integral.
    Short(u32),
    /// Time.
    Tdc(u32),
    /// Time relative to the trigger.
    TriggerDt(u32),
}

/// What one channel measured within one event; each value has a flag that
/// tells whether it arrived.
#[derive(Clone, Copy, Debug)]
pub struct MDPPHit {
    pub adc_value: u32,
    pub long_value: u32,
    pub short_value: u32,
    pub tdc_value: u32,
    pub trigger_dt_value: i64,
    pub pile_up: bool,
    pub adc_filled: bool,
    pub long_filled: bool,
    pub short_filled: bool,
    pub tdc_filled: bool,
    pub trigger_dt_filled: bool,
}

/// A hit on which nothing has arrived yet.
pub open spec fn empty_hit() -> MDPPHit {
    MDPPHit {
        adc_value: 0,
        long_value: 0,
        short_value: 0,
        tdc_value: 0,
        trigger_dt_value: 0,
        pile_up: false,
        adc_filled: false,
        long_filled: false,
        short_filled: false,
        tdc_filled: false,
        trigger_dt_filled: false,
    }
}

/// Whether the value that `m` would set is already present in `h`.
pub open spec fn is_filled(h: MDPPHit, m: Measurement) -> bool {
    match m {
        Measurement::Adc(_, _) => h.adc_filled,
        Measurement::Long(_) => h.long_filled,
        Measurement::Short(_) => h.short_filled,
        Measurement::Tdc(_) => h.tdc_filled,
        Measurement::TriggerDt(_) => h.trigger_dt_filled,
    }
}

/// Whether two measurements set the same value of a hit.
pub open spec fn same_field(m1: Measurement, m2: Measurement) -> bool {
    match (m1, m2) {
        (Measurement::Adc(_, _), Measurement::Adc(_, _)) => true,
        (Measurement::Long(_), Measurement::Long(_)) => true,
        (Measurement::Short(_), Measurement::Short(_)) => true,
        (Measurement::Tdc(_), Measurement::Tdc(_)) => true,
        (Measurement::TriggerDt(_), Measurement::TriggerDt(_)) => true,
        _ => false,
    }
}

/// Whether `h` holds the value that `m` carries.
pub open spec fn holds(h: MDPPHit, m: Measurement) -> bool {
    match m {
        Measurement::Adc(v, p) => h.adc_filled && h.adc_value == v && h.pile_up == p,
        Measurement::Long(v) => h.long_filled && h.long_value == v,
        Measurement::Short(v) => h.short_filled && h.short_value == v,
        Measurement::Tdc(v) => h.tdc_filled && h.tdc_value == v,
        Measurement::TriggerDt(v) => h.trigger_dt_filled && h.trigger_dt_value == v as i64,
    }
}

/// `h` after `m` arrived: the first value of each field is kept.
pub open spec fn record(h: MDPPHit, m: Measurement) -> MDPPHit {
    if is_filled(h, m) {
        h
    } else {
        match m {
            Measurement::Adc(v, p) => MDPPHit { adc_value: v, pile_up: p, adc_filled: true, ..h },
            Measurement::Long(v) => MDPPHit { long_value: v, long_filled: true, ..h },
            Measurement::Short(v) => MDPPHit { short_value: v, short_filled: true, ..h },
            Measurement::Tdc(v) => MDPPHit { tdc_value: v, tdc_filled: true, ..h },
            Measurement::TriggerDt(v) => MDPPHit {
                trigger_dt_value: v as i64,
                trigger_dt_filled: true,
                ..h
            },
        }
    }
}

impl MDPPHit {
    pub fn new() -> (r: Self)
        ensures
            r == empty_hit(),
    {
        MDPPHit {
            adc_value: 0,
            long_value: 0,
            short_value: 0,
            tdc_value: 0,
            trigger_dt_value: 0,
            pile_up: false,
            adc_filled: false,
            long_filled: false,
            short_filled: false,
            tdc_filled: false,
            trigger_dt_filled: false,
        }
    }

    /// Stores `m` unless its field is already filled; returns whether it was.
    pub fn set(&mut self, m: Measurement) -> (already_filled: bool)
        ensures
            already_filled == is_filled(*old(self), m),
            *final(self) == record(*old(self), m),
    {
        match m {
            Measurement::Adc(v, p) => self.set_adc(v, p),
            Measurement::Long(v) => self.set_long(v),
            Measurement::Short(v) => self.set_short(v),
            Measurement::Tdc(v) => self.set_tdc(v),
            Measurement::TriggerDt(v) => self.set_trigger_dt(v),
        }
    }

    pub fn set_adc(&mut self, adc_value: u32, pile_up: bool) -> (already_filled: bool)
        ensures
            already_filled == old(self).adc_filled,
            *final(self) == record(*old(self), Measurement::Adc(adc_value, pile_up)),
    {
        let mut already_filled = false;
        if !self.adc_filled {
            self.adc_value = adc_value;
            self.pile_up = pile_up;
            self.adc_filled = true;
        } else {
            already_filled = true;
        }
        already_filled
    }

    pub fn set_tdc(&mut self, tdc_value: u32) -> (already_filled: bool)
        ensures
            already_filled == old(self).tdc_filled,
            *final(self) == record(*old(self), Measurement::Tdc(tdc_value)),
    {
        let mut already_filled = false;
        if !self.tdc_filled {
            self.tdc_value = tdc_value;
            self.tdc_filled = true;
        } else {
            already_filled = true;
        }
        already_filled
    }

    pub fn set_long(&mut self, long_value: u32) -> (already_filled: bool)
        ensures
            already_filled == old(self).long_filled,
            *final(self) == record(*old(self), Measurement::Long(long_value)),
    {
        let mut already_filled = false;
        if !self.long_filled {
            self.long_value = long_value;
            self.long_filled = true;
        } else {
            already_filled = true;
        }
        already_filled
    }

    pub fn set_short(&mut self, short_value: u32) -> (already_filled: bool)
        ensures
            already_filled == old(self).short_filled,
            *final(self) == record(*old(self), Measurement::Short(short_value)),
    {
        let mut already_filled = false;
        if !self.short_filled {
            self.short_value = short_value;
            self.short_filled = true;
        } else {
            already_filled = true;
        }
        already_filled
    }

    pub fn set_trigger_dt(&mut self, trigger_dt: u32) -> (already_filled: bool)
        ensures
            already_filled == old(self).trigger_dt_filled,
            *final(self) == record(*old(self), Measurement::TriggerDt(trigger_dt)),
    {
        let mut already_filled = false;
        if !self.trigger_dt_filled {
            self.trigger_dt_value = trigger_dt as i64;
            self.trigger_dt_filled = true;
        } else {
            already_filled = true;
        }
        already_filled
    }
}


/// The abstract content of an event: channels in order of first arrival,
/// with the hit of each channel at the same position.
pub struct EventView {
    pub module_id: u32,
    pub evt_timestamp: u64,
    pub channels: Seq<u32>,
    pub hits: Seq<MDPPHit>,
    pub extended_ts: u32,
    pub extended_ts_filled: bool,
}

/// An event that was just opened by a header of module `module_id`.
pub open spec fn new_event(module_id: u32) -> EventView {
    EventView {
        module_id,
        evt_timestamp: 0,
        channels: Seq::empty(),
        hits: Seq::empty(),
        extended_ts: 0,
        extended_ts_filled: false,
    }
}

/// The timestamp of an event closed with the low counter `low`: stitched to
/// the extended high word when one arrived.
pub open spec fn stitched_timestamp(extended_ts: u32, extended_ts_filled: bool, low: u32) -> u64 {
    if extended_ts_filled {
        (extended_ts as int * 0x4000_0000 + low as int) as u64
    } else {
        low as u64
    }
}

impl EventView {
    /// One hit per channel, and no channel twice.
    pub open spec fn wf(self) -> bool {
        &&& self.channels.len() == self.hits.len()
        &&& self.channels.no_duplicates()
    }

    /// The hit of `channel`, where the channel has fired.
    pub open spec fn hit_of(self, channel: u32) -> MDPPHit {
        self.hits[self.channels.index_of(channel)]
    }

    /// The event after `m` arrived for `channel`: a channel seen for the first
    /// time gets a new hit at the end.
    pub open spec fn add(self, channel: u32, m: Measurement) -> EventView {
        if self.channels.contains(channel) {
            let i = self.channels.index_of(channel);
            EventView { hits: self.hits.update(i, record(self.hits[i], m)), ..self }
        } else {
            EventView {
                channels: self.channels.push(channel),
                hits: self.hits.push(record(empty_hit(), m)),
                ..self
            }
        }
    }

    /// The event closed with the low counter `low`.
    pub open spec fn finish(self, low: u32) -> EventView {
        EventView {
            evt_timestamp: stitched_timestamp(self.extended_ts, self.extended_ts_filled, low),
            ..self
        }
    }

    /// The event with `ts` cached as its extended high timestamp word.
    pub open spec fn with_extended_ts(self, ts: u32) -> EventView {
        EventView { extended_ts: ts, extended_ts_filled: true, ..self }
    }
}

/// One reconstructed trigger of one module.
pub struct MDPPEvent {
    pub module_id: u32,
    /// The event counter or timestamp, depending on the module's setup.
    pub evt_timestamp: u64,
    pub channels: Vec<u32>,
    pub channel_hits: Vec<MDPPHit>,
    pub extended_ts: u32,
    pub extended_ts_filled: bool,
}

impl View for MDPPEvent {
    type V = EventView;

    open spec fn view(&self) -> EventView {
        EventView {
            module_id: self.module_id,
            evt_timestamp: self.evt_timestamp,
            channels: self.channels@,
            hits: self.channel_hits@,
            extended_ts: self.extended_ts,
            extended_ts_filled: self.extended_ts_filled,
        }
    }
}

impl MDPPEvent {
    pub fn new(module_id: u32) -> (r: Self)
        ensures
            r@ == new_event(module_id),
    {
        MDPPEvent {
            module_id,
            evt_timestamp: 0,
            channels: Vec::with_capacity(32),
            channel_hits: Vec::with_capacity(32),
            extended_ts: 0,
            extended_ts_filled: false,
        }
    }

    /// The position of `channel` among the channels that fired.
    fn find_channel(&self, channel: u32) -> (r: Option<usize>)
        requires
            self@.wf(),
        ensures
            match r {
                Some(i) => self@.channels.contains(channel) && i as int == self@.channels.index_of(
                    channel,
                ),
                None => !self@.channels.contains(channel),
            },
    {
        let mut i: usize = 0;
        while i < self.channels.len()
            invariant
                self@.wf(),
                i <= self.channels@.len(),
                forall|j: int| 0 <= j < i ==> self.channels@[j] != channel,
            decreases self.channels@.len() - i,
        {
            if self.channels[i] == channel {
                assert(self@.channels.contains(channel));
                let ghost k = self@.channels.index_of(channel);
                assert(0 <= k < self.channels@.len() && self.channels@[k] == channel);
                assert(self.channels@[i as int] == channel);
                assert(k == i);
                return Some(i);
            }
            i += 1;
        }
        None
    }

    /// Records `m` for `channel`, grouping it with what the channel already has.
    pub fn add(&mut self, channel: u32, m: Measurement)
        requires
            old(self)@.wf(),
        ensures
            final(self)@ == old(self)@.add(channel, m),
            final(self)@.wf(),
    {
        match self.find_channel(channel) {
            Some(i) => {
                let mut h = self.channel_hits[i];
                let _ = h.set(m);
                self.channel_hits.set(i, h);
            },
            None => {
                self.channels.push(channel);
                let mut h = MDPPHit::new();
                let _ = h.set(m);
                self.channel_hits.push(h);
            },
        }
        assert(final(self)@.channels =~= self@.channels);
    }

    pub fn add_adc(&mut self, channel: u32, adc_value: u32, pile_up: bool)
        requires
            old(self)@.wf(),
        ensures
            final(self)@ == old(self)@.add(channel, Measurement::Adc(adc_value, pile_up)),
            final(self)@.wf(),
    {
        self.add(channel, Measurement::Adc(adc_value, pile_up))
    }

    pub fn add_tdc(&mut self, channel: u32, tdc_value: u32)
        requires
            old(self)@.wf(),
        ensures
            final(self)@ == old(self)@.add(channel, Measurement::Tdc(tdc_value)),
            final(self)@.wf(),
    {
        self.add(channel, Measurement::Tdc(tdc_value))
    }

    pub fn add_long(&mut self, channel: u32, long_value: u32)
        requires
            old(self)@.wf(),
        ensures
            final(self)@ == old(self)@.add(channel, Measurement::Long(long_value)),
            final(self)@.wf(),
    {
        self.add(channel, Measurement::Long(long_value))
    }

    pub fn add_short(&mut self, channel: u32, short_value: u32)
        requires
            old(self)@.wf(),
        ensures
            final(self)@ == old(self)@.add(channel, Measurement::Short(short_value)),
            final(self)@.wf(),
    {
        self.add(channel, Measurement::Short(short_value))
    }

    pub fn add_trigger_dt(&mut self, channel: u32, trigger_dt_value: u32)
        requires
            old(self)@.wf(),
        ensures
            final(self)@ == old(self)@.add(channel, Measurement::TriggerDt(trigger_dt_value)),
            final(self)@.wf(),
    {
        self.add(channel, Measurement::TriggerDt(trigger_dt_value))
    }

    /// Closes the event with the low counter from its end word.
    pub fn end_event(&mut self, evt_timestamp: u32)
        ensures
            final(self)@ == old(self)@.finish(evt_timestamp),
    {
        if self.extended_ts_filled {
            // the extended word holds the bits above the low 30
            self.evt_timestamp = (self.extended_ts as u64) * 0x4000_0000u64 + evt_timestamp as u64;
        } else {
            self.evt_timestamp = evt_timestamp as u64;
        }
    }

    /// Caches the extended high timestamp word.
    pub fn extended_ts(&mut self, timestamp: u32)
        ensures
            final(self)@ == old(self)@.with_extended_ts(timestamp),
    {
        self.extended_ts = timestamp;
        self.extended_ts_filled = true;
    }
}


/// What a module of the stateful family sends in its data words.
#[derive(Clone, Copy, Debug, PartialEq, Eq, Structural)]
pub enum DataKind {
    /// Amplitude, time and trigger-relative time.
    Scp,
    /// Long and short integrals, time and trigger-relative time.
    Qdc,
}

/// What a flush hands out of the decoder.
#[derive(Clone, Copy, Debug, PartialEq, Eq, Structural)]
pub enum FlushPolicy {
    /// Every buffered event, the open one included; data that arrives for the
    /// open event afterwards finds no event to join.
    All,
    /// The closed events only; the open event stays in the decoder.
    ClosedOnly,
}

pub open spec fn valid_channel_count(nchannels: u32) -> bool {
    nchannels == 16 || nchannels == 32
}

/// The mask of the channel field at bit 16 of a payload word.
pub open spec fn channel_mask(nchannels: u32) -> u32 {
    if nchannels == 32 {
        SEVEN_BIT
    } else {
        FIVE_BIT
    }
}

/// The bit of a payload word that flags pile-up.
pub open spec fn pile_up_bit(nchannels: u32) -> u32 {
    if nchannels == 16 {
        23
    } else {
        24
    }
}

/// The top two bits of a word: `1` header, `3` end of event, `0` data.
pub open spec fn signature(w: u32) -> u32 {
    (w >> 30u32) & TWO_BIT
}

/// The subheader of a data word: `0` filler, `1` payload, `2` extended timestamp.
pub open spec fn subheader(w: u32) -> u32 {
    (w >> 28u32) & FOUR_BIT
}

/// The channel field of a payload word: event type times the channel count
/// plus the physical channel.
pub open spec fn channel_field(nchannels: u32, w: u32) -> u32 {
    (w >> 16u32) & channel_mask(nchannels)
}

pub open spec fn event_type(nchannels: u32, w: u32) -> u32 {
    (channel_field(nchannels, w) / nchannels) as u32
}

pub open spec fn physical_channel(nchannels: u32, w: u32) -> u32 {
    (channel_field(nchannels, w) % nchannels) as u32
}

/// The low sixteen bits of a word.
pub open spec fn low_value(w: u32) -> u32 {
    w & SIXTEEN_BIT
}

pub open spec fn pile_up_of(nchannels: u32, w: u32) -> bool {
    (w >> pile_up_bit(nchannels)) & ONE_BIT != 0
}

/// The channel and measurement of a payload word; `None` for an scp event type
/// that carries nothing known, which is ignored.
pub open spec fn payload(kind: DataKind, nchannels: u32, w: u32) -> Result<
    Option<(u32, Measurement)>,
    DecodeError,
> {
    let t = event_type(nchannels, w);
    let ch = physical_channel(nchannels, w);
    let v = low_value(w);
    match kind {
        DataKind::Scp => if t == 0 {
            Ok(Some((ch, Measurement::Adc(v, pile_up_of(nchannels, w)))))
        } else if t == 1 {
            Ok(Some((ch, Measurement::Tdc(v))))
        } else if t == 2 {
            Ok(Some((ch, Measurement::TriggerDt(v))))
        } else {
            Ok(None)
        },
        DataKind::Qdc => if t == 0 {
            Ok(Some((ch, Measurement::Long(v))))
        } else if t == 1 {
            Ok(Some((ch, Measurement::Tdc(v))))
        } else if t == 2 {
            Ok(Some((ch, Measurement::TriggerDt(v))))
        } else if t == 3 {
            Ok(Some((ch, Measurement::Short(v))))
        } else {
            Err(DecodeError::UnknownEventType)
        },
    }
}

/// The abstract state of a decoder.
pub struct BankView {
    pub events: Seq<EventView>,
    pub current_event: int,
    pub start: bool,
    pub stop: bool,
    pub junk_events: i64,
}

/// A decoder that has seen nothing.
pub open spec fn initial_bank() -> BankView {
    BankView { events: Seq::empty(), current_event: 0, start: false, stop: false, junk_events: 0 }
}

impl BankView {
    /// The cursor stands just past the closed events; only an open event may
    /// stand at the cursor, and none stands beyond it.
    pub open spec fn wf(self) -> bool {
        &&& 0 <= self.current_event <= self.events.len() <= self.current_event + 1
        &&& !self.start ==> self.events.len() == self.current_event
        &&& forall|i: int| 0 <= i < self.events.len() ==> (#[trigger] self.events[i]).wf()
    }

    pub open spec fn has_open_event(self) -> bool {
        self.current_event < self.events.len()
    }

    /// After a header of module `module_id`: an open event is discarded as junk,
    /// and a new one is opened.
    pub open spec fn open_event(self, module_id: u32) -> BankView {
        let kept = if self.start && self.has_open_event() {
            self.events.drop_last()
        } else {
            self.events
        };
        BankView {
            events: kept.push(new_event(module_id)),
            start: true,
            junk_events: if self.start {
                saturating_inc(self.junk_events)
            } else {
                self.junk_events
            },
            ..self
        }
    }

    /// After an end word with the low counter `low`; ignored while no event is open.
    pub open spec fn close_event(self, low: u32) -> Result<BankView, DecodeError> {
        if !self.start {
            Ok(self)
        } else if self.has_open_event() {
            Ok(
                BankView {
                    events: self.events.update(
                        self.current_event,
                        self.events[self.current_event].finish(low),
                    ),
                    current_event: self.current_event + 1,
                    start: false,
                    stop: true,
                    ..self
                },
            )
        } else {
            Err(DecodeError::NoOpenEvent)
        }
    }

    /// After `m` arrived for `channel` of the open event.
    pub open spec fn add_to_open(self, channel: u32, m: Measurement) -> Result<
        BankView,
        DecodeError,
    > {
        if self.has_open_event() {
            Ok(
                BankView {
                    events: self.events.update(
                        self.current_event,
                        self.events[self.current_event].add(channel, m),
                    ),
                    ..self
                },
            )
        } else {
            Err(DecodeError::NoOpenEvent)
        }
    }

    /// After an extended timestamp word for the open event.
    pub open spec fn extend_open(self, ts: u32) -> Result<BankView, DecodeError> {
        if self.has_open_event() {
            Ok(
                BankView {
                    events: self.events.update(
                        self.current_event,
                        self.events[self.current_event].with_extended_ts(ts),
                    ),
                    ..self
                },
            )
        } else {
            Err(DecodeError::NoOpenEvent)
        }
    }

    /// After a flush under `policy`.
    pub open spec fn flushed(self, policy: FlushPolicy) -> BankView {
        match policy {
            FlushPolicy::All => BankView { events: Seq::empty(), current_event: 0, ..self },
            FlushPolicy::ClosedOnly => BankView {
                events: self.events.skip(self.current_event),
                current_event: 0,
                ..self
            },
        }
    }

    /// The events that a flush under `policy` hands out.
    pub open spec fn flushed_events(self, policy: FlushPolicy) -> Seq<EventView> {
        match policy {
            FlushPolicy::All => self.events,
            FlushPolicy::ClosedOnly => self.events.take(self.current_event),
        }
    }
}

pub open spec fn saturating_inc(n: i64) -> i64 {
    if n < i64::MAX {
        (n + 1) as i64
    } else {
        n
    }
}

/// The state after a data word.
pub open spec fn data_step(s: BankView, kind: DataKind, nchannels: u32, w: u32) -> Result<
    BankView,
    DecodeError,
> {
    let sub = subheader(w);
    if sub == 0 {
        Ok(s)
    } else if sub == 1 {
        match payload(kind, nchannels, w) {
            Ok(Some((ch, m))) => s.add_to_open(ch, m),
            Ok(None) => Ok(s),
            Err(e) => Err(e),
        }
    } else if sub == 2 {
        s.extend_open(low_value(w))
    } else {
        Err(DecodeError::InvalidSubheader)
    }
}

/// The state after one word.
pub open spec fn step(s: BankView, kind: DataKind, nchannels: u32, w: u32) -> Result<
    BankView,
    DecodeError,
> {
    let sig = signature(w);
    if sig == 0 {
        data_step(s, kind, nchannels, w)
    } else if sig == 1 {
        Ok(s.open_event((w >> 16u32) & EIGHT_BIT))
    } else if sig == 3 {
        s.close_event(w & THIRTY_BIT)
    } else {
        Err(DecodeError::InvalidSignature)
    }
}

/// The state after the words `ws` in order, or the first fault among them.
pub open spec fn run(s: BankView, kind: DataKind, nchannels: u32, ws: Seq<u32>) -> Result<
    BankView,
    DecodeError,
>
    decreases ws.len(),
{
    if ws.len() == 0 {
        Ok(s)
    } else {
        match run(s, kind, nchannels, ws.drop_last()) {
            Ok(t) => step(t, kind, nchannels, ws.last()),
            Err(e) => Err(e),
        }
    }
}

/// The state after decoding a whole sub-bank.
pub open spec fn decode_bank(s: BankView, kind: DataKind, nchannels: u32, bank: Seq<u8>) -> Result<
    BankView,
    DecodeError,
> {
    if !valid_channel_count(nchannels) {
        Err(DecodeError::InvalidChannelCount)
    } else if bank.len() % 4 != 0 {
        Err(DecodeError::PartialWord)
    } else {
        run(s, kind, nchannels, words_of(bank))
    }
}

/// A fault stops the decoding: it stays whatever follows.
proof fn lemma_run_fault_stays(
    s: BankView,
    kind: DataKind,
    nchannels: u32,
    ws: Seq<u32>,
    i: int,
    e: DecodeError,
)
    requires
        0 <= i <= ws.len(),
        run(s, kind, nchannels, ws.take(i)) == Err::<BankView, DecodeError>(e),
    ensures
        run(s, kind, nchannels, ws) == Err::<BankView, DecodeError>(e),
    decreases ws.len() - i,
{
    if i < ws.len() {
        let next = ws.take(i + 1);
        assert(next.drop_last() =~= ws.take(i));
        lemma_run_fault_stays(s, kind, nchannels, ws, i + 1, e);
    } else {
        assert(ws.take(i) =~= ws);
    }
}

/// The decoder of one module of the stateful family.
pub struct MDPPBank {
    pub events: Vec<MDPPEvent>,
    /// The position of the event being filled.
    pub current_event: usize,
    /// A header arrived and its end has not.
    pub start: bool,
    /// At least one event has been closed.
    pub stop: bool,
    /// The number of events discarded for a missing end word.
    pub junk_events: i64,
}

impl View for MDPPBank {
    type V = BankView;

    open spec fn view(&self) -> BankView {
        BankView {
            events: self.events@.map_values(|e: MDPPEvent| e@),
            current_event: self.current_event as int,
            start: self.start,
            stop: self.stop,
            junk_events: self.junk_events,
        }
    }
}

impl MDPPBank {
    pub open spec fn wf(&self) -> bool {
        self@.wf()
    }

    pub fn new() -> (r: Self)
        ensures
            r@ == initial_bank(),
            r.wf(),
    {
        let r = MDPPBank {
            events: Vec::new(),
            current_event: 0,
            start: false,
            stop: false,
            junk_events: 0,
        };
        assert(r@.events =~= Seq::<EventView>::empty());
        r
    }

    /// Opens an event for the module named in a header word; an event that is
    /// still open is discarded and counted as junk.
    fn parse_header(&mut self, header: u32)
        requires
            old(self).wf(),
        ensures
            final(self)@ == old(self)@.open_event((header >> 16u32) & EIGHT_BIT),
            final(self).wf(),
    {
        let module_id: u32 = header >> 16 & EIGHT_BIT;
        if self.start {
            // the open event never got its end word
            if self.current_event < self.events.len() {
                let _ = self.events.pop();
            }
            if self.junk_events < i64::MAX {
                self.junk_events += 1;
            }
        }
        self.start = true;
        self.events.push(MDPPEvent::new(module_id));
        proof {
            let o = old(self)@;
            let kept = if o.start && o.has_open_event() {
                o.events.drop_last()
            } else {
                o.events
            };
            assert(self@.events =~= kept.push(new_event(module_id)));
        }
    }

    /// Closes the open event with the low counter of an end word; an end word
    /// with no event open is noise.
    fn parse_end_event(&mut self, end_event: u32) -> (r: Result<(), DecodeError>)
        requires
            old(self).wf(),
        ensures
            match old(self)@.close_event(end_event & THIRTY_BIT) {
                Ok(t) => r == Ok::<(), DecodeError>(()) && final(self)@ == t,
                Err(e) => r == Err::<(), DecodeError>(e) && final(self)@ == old(self)@,
            },
            final(self).wf(),
    {
        let event_num = end_event & THIRTY_BIT;
        if !self.start {
            return Ok(());
        }
        if self.current_event >= self.events.len() {
            return Err(DecodeError::NoOpenEvent);
        }
        let ghost before = self@;
        let cur = self.current_event;
        self.events[cur].end_event(event_num);
        self.current_event += 1;
        self.stop = true;
        self.start = false;
        assert(self@.events =~= before.events.update(cur as int, before.events[cur as int].finish(event_num)));
        Ok(())
    }

    /// Records `m` for `channel` in the open event.
    fn push(&mut self, channel: u32, m: Measurement) -> (r: Result<(), DecodeError>)
        requires
            old(self).wf(),
        ensures
            match old(self)@.add_to_open(channel, m) {
                Ok(t) => r == Ok::<(), DecodeError>(()) && final(self)@ == t,
                Err(e) => r == Err::<(), DecodeError>(e) && final(self)@ == old(self)@,
            },
            final(self).wf(),
    {
        if self.current_event >= self.events.len() {
            return Err(DecodeError::NoOpenEvent);
        }
        let ghost before = self@;
        let cur = self.current_event;
        assert(before.events[cur as int].wf());
        self.events[cur].add(channel, m);
        assert(self@.events =~= before.events.update(cur as int, before.events[cur as int].add(channel, m)));
        Ok(())
    }

    /// Tells payload words from filler; caches an extended timestamp word in
    /// the open event.
    fn check_subheader(&mut self, data_word: u32) -> (r: Result<bool, DecodeError>)
        requires
            old(self).wf(),
        ensures
            final(self).wf(),
            subheader(data_word) == 0 ==> r == Ok::<bool, DecodeError>(false) && final(self)@ == old(self)@,
            subheader(data_word) == 1 ==> r == Ok::<bool, DecodeError>(true) && final(self)@ == old(self)@,
            subheader(data_word) == 2 ==> match old(self)@.extend_open(low_value(data_word)) {
                Ok(t) => r == Ok::<bool, DecodeError>(false) && final(self)@ == t,
                Err(e) => r == Err::<bool, DecodeError>(e) && final(self)@ == old(self)@,
            },
            subheader(data_word) > 2 ==> r == Err::<bool, DecodeError>(DecodeError::InvalidSubheader),
    {
        let sub = data_word >> 28 & FOUR_BIT;
        if sub == 0 {
            // filler
            Ok(false)
        } else if sub == 1 {
            Ok(true)
        } else if sub == 2 {
            let ts = data_word & SIXTEEN_BIT;
            if self.current_event >= self.events.len() {
                return Err(DecodeError::NoOpenEvent);
            }
            let ghost before = self@;
            let cur = self.current_event;
            self.events[cur].extended_ts(ts);
            assert(self@.events =~= before.events.update(cur as int, before.events[cur as int].with_extended_ts(ts)));
            Ok(false)
        } else {
            Err(DecodeError::InvalidSubheader)
        }
    }

    fn push_adc(&mut self, nchannels: u32, channel: u32, data_word: u32) -> (r: Result<(), DecodeError>)
        requires
            old(self).wf(),
            valid_channel_count(nchannels),
        ensures
            match old(self)@.add_to_open(channel, Measurement::Adc(low_value(data_word), pile_up_of(nchannels, data_word))) {
                Ok(t) => r == Ok::<(), DecodeError>(()) && final(self)@ == t,
                Err(e) => r == Err::<(), DecodeError>(e) && final(self)@ == old(self)@,
            },
            final(self).wf(),
    {
        let adc = data_word & SIXTEEN_BIT;
        let pile_up = if nchannels == 16 {
            (data_word >> 23 & ONE_BIT) != 0
        } else {
            (data_word >> 24 & ONE_BIT) != 0
        };
        self.push(channel, Measurement::Adc(adc, pile_up))
    }

    fn push_tdc(&mut self, channel: u32, data_word: u32) -> (r: Result<(), DecodeError>)
        requires
            old(self).wf(),
        ensures
            match old(self)@.add_to_open(channel, Measurement::Tdc(low_value(data_word))) {
                Ok(t) => r == Ok::<(), DecodeError>(()) && final(self)@ == t,
                Err(e) => r == Err::<(), DecodeError>(e) && final(self)@ == old(self)@,
            },
            final(self).wf(),
    {
        self.push(channel, Measurement::Tdc(data_word & SIXTEEN_BIT))
    }

    fn push_long(&mut self, channel: u32, data_word: u32) -> (r: Result<(), DecodeError>)
        requires
            old(self).wf(),
        ensures
            match old(self)@.add_to_open(channel, Measurement::Long(low_value(data_word))) {
                Ok(t) => r == Ok::<(), DecodeError>(()) && final(self)@ == t,
                Err(e) => r == Err::<(), DecodeError>(e) && final(self)@ == old(self)@,
            },
            final(self).wf(),
    {
        self.push(channel, Measurement::Long(data_word & SIXTEEN_BIT))
    }

    fn push_short(&mut self, channel: u32, data_word: u32) -> (r: Result<(), DecodeError>)
        requires
            old(self).wf(),
        ensures
            match old(self)@.add_to_open(channel, Measurement::Short(low_value(data_word))) {
                Ok(t) => r == Ok::<(), DecodeError>(()) && final(self)@ == t,
                Err(e) => r == Err::<(), DecodeError>(e) && final(self)@ == old(self)@,
            },
            final(self).wf(),
    {
        self.push(channel, Measurement::Short(data_word & SIXTEEN_BIT))
    }

    fn push_trigger_dt(&mut self, channel: u32, data_word: u32) -> (r: Result<(), DecodeError>)
        requires
            old(self).wf(),
        ensures
            match old(self)@.add_to_open(channel, Measurement::TriggerDt(low_value(data_word))) {
                Ok(t) => r == Ok::<(), DecodeError>(()) && final(self)@ == t,
                Err(e) => r == Err::<(), DecodeError>(e) && final(self)@ == old(self)@,
            },
            final(self).wf(),
    {
        self.push(channel, Measurement::TriggerDt(data_word & SIXTEEN_BIT))
    }

    /// Splits the channel field of a payload word into event type and physical channel.
    fn split_channel_field(nchannels: u32, data_word: u32) -> (r: (u32, u32))
        requires
            valid_channel_count(nchannels),
        ensures
            r.0 == event_type(nchannels, data_word),
            r.1 == physical_channel(nchannels, data_word),
    {
        let channel_mask = if nchannels == 32 {
            SEVEN_BIT
        } else {
            FIVE_BIT
        };
        let field = data_word >> 16 & channel_mask;
        let evt_type = field / nchannels;
        let channel = field % nchannels;
        (evt_type, channel)
    }

    /// Decodes a data word of a qdc module.
    fn parse_qdc(&mut self, nchannels: u32, data_word: u32) -> (r: Result<(), DecodeError>)
        requires
            old(self).wf(),
            valid_channel_count(nchannels),
        ensures
            match data_step(old(self)@, DataKind::Qdc, nchannels, data_word) {
                Ok(t) => r == Ok::<(), DecodeError>(()) && final(self)@ == t,
                Err(e) => r == Err::<(), DecodeError>(e),
            },
            final(self).wf(),
    {
        match self.check_subheader(data_word) {
            Err(e) => Err(e),
            Ok(false) => Ok(()),
            Ok(true) => {
                let (evt_type, channel) = Self::split_channel_field(nchannels, data_word);
                if evt_type == 0 {
                    self.push_long(channel, data_word)
                } else if evt_type == 1 {
                    self.push_tdc(channel, data_word)
                } else if evt_type == 2 {
                    self.push_trigger_dt(channel, data_word)
                } else if evt_type == 3 {
                    self.push_short(channel, data_word)
                } else {
                    Err(DecodeError::UnknownEventType)
                }
            },
        }
    }

    /// Decodes a data word of an scp module; an unknown event type is ignored.
    fn parse_scp(&mut self, nchannels: u32, data_word: u32) -> (r: Result<(), DecodeError>)
        requires
            old(self).wf(),
            valid_channel_count(nchannels),
        ensures
            match data_step(old(self)@, DataKind::Scp, nchannels, data_word) {
                Ok(t) => r == Ok::<(), DecodeError>(()) && final(self)@ == t,
                Err(e) => r == Err::<(), DecodeError>(e),
            },
            final(self).wf(),
    {
        match self.check_subheader(data_word) {
            Err(e) => Err(e),
            Ok(false) => Ok(()),
            Ok(true) => {
                let (evt_type, channel) = Self::split_channel_field(nchannels, data_word);
                if evt_type == 0 {
                    self.push_adc(nchannels, channel, data_word)
                } else if evt_type == 1 {
                    self.push_tdc(channel, data_word)
                } else if evt_type == 2 {
                    self.push_trigger_dt(channel, data_word)
                } else {
                    Ok(())
                }
            },
        }
    }

    /// Decodes one word.
    fn parse_word(&mut self, kind: DataKind, nchannels: u32, word: u32) -> (r: Result<(), DecodeError>)
        requires
            old(self).wf(),
            valid_channel_count(nchannels),
        ensures
            match step(old(self)@, kind, nchannels, word) {
                Ok(t) => r == Ok::<(), DecodeError>(()) && final(self)@ == t,
                Err(e) => r == Err::<(), DecodeError>(e),
            },
            final(self).wf(),
    {
        let data_sig = word >> 30 & TWO_BIT;
        if data_sig == 0 {
            match kind {
                DataKind::Qdc => self.parse_qdc(nchannels, word),
                DataKind::Scp => self.parse_scp(nchannels, word),
            }
        } else if data_sig == 1 {
            self.parse_header(word);
            Ok(())
        } else if data_sig == 3 {
            self.parse_end_event(word)
        } else {
            Err(DecodeError::InvalidSignature)
        }
    }

    /// Decodes one sub-bank of a module of data kind `kind` with `nchannels`
    /// channels, word by word, up to the first fault.
    pub fn parse(&mut self, kind: DataKind, nchannels: u32, bank: &[u8]) -> (r: Result<(), DecodeError>)
        requires
            old(self).wf(),
        ensures
            match decode_bank(old(self)@, kind, nchannels, bank@) {
                Ok(t) => r == Ok::<(), DecodeError>(()) && final(self)@ == t,
                Err(e) => r == Err::<(), DecodeError>(e),
            },
            !valid_channel_count(nchannels) || bank@.len() % 4 != 0 ==> final(self)@ == old(self)@,
            final(self).wf(),
    {
        if nchannels != 16 && nchannels != 32 {
            return Err(DecodeError::InvalidChannelCount);
        }
        if bank.len() % 4 != 0 {
            return Err(DecodeError::PartialWord);
        }
        let ghost words = words_of(bank@);
        let n = bank.len() / 4;
        let mut i: usize = 0;
        while i < n
            invariant
                n == words.len(),
                words == words_of(bank@),
                i <= n,
                valid_channel_count(nchannels),
                bank@.len() % 4 == 0,
                self.wf(),
                run(old(self)@, kind, nchannels, words.take(i as int)) == Ok::<BankView, DecodeError>(self@),
            decreases n - i,
        {
            let word = word_at(bank, i);
            assert(words.take(i + 1).drop_last() =~= words.take(i as int));
            assert(words.take(i + 1).last() == word);
            match self.parse_word(kind, nchannels, word) {
                Ok(()) => {},
                Err(e) => {
                    proof {
                        lemma_run_fault_stays(old(self)@, kind, nchannels, words, i + 1, e);
                    }
                    return Err(e);
                },
            }
            i += 1;
        }
        assert(words.take(n as int) =~= words);
        Ok(())
    }

    /// Drops every buffered event, closed or open, and points the cursor at
    /// the start again.
    pub fn clear_data(&mut self)
        ensures
            final(self)@ == old(self)@.flushed(FlushPolicy::All),
            old(self).wf() ==> final(self).wf(),
    {
        self.current_event = 0;
        self.events.clear();
        assert(self@.events =~= Seq::<EventView>::empty());
    }

    /// Hands out the buffered events that `policy` names and keeps the rest.
    pub fn take_events(&mut self, policy: FlushPolicy) -> (r: Vec<MDPPEvent>)
        requires
            old(self).wf(),
        ensures
            r@.map_values(|e: MDPPEvent| e@) == old(self)@.flushed_events(policy),
            final(self)@ == old(self)@.flushed(policy),
            final(self).wf(),
    {
        let ghost before = self@;
        let mut out: Vec<MDPPEvent> = Vec::new();
        match policy {
            FlushPolicy::All => {
                std::mem::swap(&mut out, &mut self.events);
            },
            FlushPolicy::ClosedOnly => {
                let mut open = self.events.split_off(self.current_event);
                std::mem::swap(&mut open, &mut self.events);
                out = open;
            },
        }
        self.current_event = 0;
        assert(out@.map_values(|e: MDPPEvent| e@) =~= before.flushed_events(policy));
        assert(self@.events =~= before.flushed(policy).events);
        out
    }
}

} // verus!

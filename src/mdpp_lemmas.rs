//! Properties of the stateful decoder, stated over its abstract state.
use vstd::prelude::*;

use crate::bitmasks::THIRTY_BIT;
use crate::error::DecodeError;
use crate::mdpp_bank::{
    channel_field, channel_mask, empty_hit, event_type, holds, is_filled, low_value, new_event,
    payload, physical_channel, pile_up_bit, pile_up_of, record, run, same_field, signature, step,
    subheader, valid_channel_count, BankView, DataKind, EventView, FlushPolicy,
    MDPPHit, Measurement,
};

verus! {

/// In a sequence without duplicates, the position of an element is the one
/// where it stands.
pub proof fn lemma_index_of_unique(s: Seq<u32>, x: u32, i: int)
    requires
        s.no_duplicates(),
        0 <= i < s.len(),
        s[i] == x,
    ensures
        s.contains(x),
        s.index_of(x) == i,
{
    assert(s.contains(x));
    let k = s.index_of(x);
    assert(0 <= k < s.len() && s[k] == x);
}

/// Adding a measurement keeps one hit per channel and no channel twice.
pub proof fn lemma_add_keeps_wf(e: EventView, channel: u32, m: Measurement)
    requires
        e.wf(),
    ensures
        e.add(channel, m).wf(),
        e.add(channel, m).channels.contains(channel),
        e.add(channel, m).hit_of(channel) == record(
            if e.channels.contains(channel) {
                e.hit_of(channel)
            } else {
                empty_hit()
            },
            m,
        ),
{
    let e2 = e.add(channel, m);
    if e.channels.contains(channel) {
        let i = e.channels.index_of(channel);
        assert(e2.channels == e.channels);
        lemma_index_of_unique(e2.channels, channel, i);
    } else {
        let n = e.channels.len() as int;
        assert forall|a: int, b: int|
            0 <= a < e2.channels.len() && 0 <= b < e2.channels.len() && a != b implies e2.channels[a]
            != e2.channels[b] by {
            if a == n {
                assert(e.channels[b] != channel);
            } else if b == n {
                assert(e.channels[a] != channel);
            }
        }
        lemma_index_of_unique(e2.channels, channel, n);
    }
}

/// A field of a hit keeps the first value that arrives for it: a second
/// measurement of the same field is reported as already filled and changes
/// nothing, and a field that was empty holds the first value afterwards.
pub proof fn lemma_hit_first_value_wins(h: MDPPHit, m1: Measurement, m2: Measurement)
    requires
        same_field(m1, m2),
    ensures
        is_filled(record(h, m1), m2),
        record(record(h, m1), m2) == record(h, m1),
        !is_filled(h, m1) ==> holds(record(record(h, m1), m2), m1),
{
}

/// Within one event, a channel's field keeps the first value that arrives for
/// it: a second measurement of the same field for the same channel changes
/// nothing, and a field that was empty holds the first value.
pub proof fn lemma_event_first_value_wins(
    e: EventView,
    channel: u32,
    m1: Measurement,
    m2: Measurement,
)
    requires
        e.wf(),
        same_field(m1, m2),
    ensures
        e.add(channel, m1).add(channel, m2) == e.add(channel, m1),
        is_filled(e.add(channel, m1).hit_of(channel), m2),
        !(e.channels.contains(channel) && is_filled(e.hit_of(channel), m1)) ==> holds(
            e.add(channel, m1).add(channel, m2).hit_of(channel),
            m1,
        ),
{
    let e1 = e.add(channel, m1);
    lemma_add_keeps_wf(e, channel, m1);
    lemma_hit_first_value_wins(
        if e.channels.contains(channel) {
            e.hit_of(channel)
        } else {
            empty_hit()
        },
        m1,
        m2,
    );
    let i = e1.channels.index_of(channel);
    assert(e1.hits.update(i, record(e1.hits[i], m2)) =~= e1.hits);
}

/// The distinct elements of `s`, each at the place of its first occurrence.
pub open spec fn first_appearances(s: Seq<u32>) -> Seq<u32>
    decreases s.len(),
{
    if s.len() == 0 {
        Seq::empty()
    } else {
        let p = first_appearances(s.drop_last());
        if p.contains(s.last()) {
            p
        } else {
            p.push(s.last())
        }
    }
}

/// `e` after each `(channel, measurement)` of `arrivals`, in order.
pub open spec fn add_all(e: EventView, arrivals: Seq<(u32, Measurement)>) -> EventView
    decreases arrivals.len(),
{
    if arrivals.len() == 0 {
        e
    } else {
        add_all(e, arrivals.drop_last()).add(arrivals.last().0, arrivals.last().1)
    }
}

pub open spec fn channels_of(arrivals: Seq<(u32, Measurement)>) -> Seq<u32> {
    arrivals.map_values(|a: (u32, Measurement)| a.0)
}

/// The channels of an event stand in the order in which each first fired,
/// whatever field arrived first for it.
pub proof fn lemma_channel_order(module_id: u32, arrivals: Seq<(u32, Measurement)>)
    ensures
        add_all(new_event(module_id), arrivals).channels == first_appearances(
            channels_of(arrivals),
        ),
    decreases arrivals.len(),
{
    if arrivals.len() > 0 {
        lemma_channel_order(module_id, arrivals.drop_last());
        assert(channels_of(arrivals).drop_last() =~= channels_of(arrivals.drop_last()));
    } else {
        assert(channels_of(arrivals) =~= Seq::<u32>::empty());
    }
}

/// A flush of everything empties the buffer; after a flush under either
/// policy, the next header opens its event at position 0.
pub proof fn lemma_flush_restarts(s: BankView, policy: FlushPolicy, module_id: u32)
    requires
        s.wf(),
    ensures
        s.flushed(FlushPolicy::All).events.len() == 0,
        s.flushed(policy).wf(),
        s.flushed(policy).open_event(module_id).current_event == 0,
        s.flushed(policy).open_event(module_id).events =~= seq![new_event(module_id)],
{
    let f = s.flushed(policy);
    assert forall|i: int| 0 <= i < f.events.len() implies (#[trigger] f.events[i]).wf() by {
        if policy == FlushPolicy::ClosedOnly {
            assert(f.events[i] == s.events[i + s.current_event]);
        }
    }
}

/// The event-type code under which a module of data kind `kind` sends `m`.
pub open spec fn type_code(kind: DataKind, m: Measurement) -> Option<u32> {
    match (kind, m) {
        (DataKind::Scp, Measurement::Adc(_, _)) => Some(0),
        (DataKind::Scp, Measurement::Tdc(_)) => Some(1),
        (DataKind::Scp, Measurement::TriggerDt(_)) => Some(2),
        (DataKind::Qdc, Measurement::Long(_)) => Some(0),
        (DataKind::Qdc, Measurement::Tdc(_)) => Some(1),
        (DataKind::Qdc, Measurement::TriggerDt(_)) => Some(2),
        (DataKind::Qdc, Measurement::Short(_)) => Some(3),
        _ => None,
    }
}

/// The value that `m` carries.
pub open spec fn value_of(m: Measurement) -> u32 {
    match m {
        Measurement::Adc(v, _) => v,
        Measurement::Long(v) => v,
        Measurement::Short(v) => v,
        Measurement::Tdc(v) => v,
        Measurement::TriggerDt(v) => v,
    }
}

pub open spec fn pile_up_flag(m: Measurement) -> bool {
    match m {
        Measurement::Adc(_, p) => p,
        _ => false,
    }
}

/// Whether a payload word can carry `m` for `channel`: the value fits in
/// sixteen bits and the channel field can hold the event type and channel.
pub open spec fn encodable(kind: DataKind, nchannels: u32, channel: u32, m: Measurement) -> bool {
    &&& valid_channel_count(nchannels)
    &&& channel < nchannels
    &&& value_of(m) < 0x10000
    &&& type_code(kind, m) is Some
    &&& type_code(kind, m).unwrap() * nchannels + channel <= channel_mask(nchannels)
}

/// The payload word that carries `m` for `channel`.
pub open spec fn data_word(kind: DataKind, nchannels: u32, channel: u32, m: Measurement) -> u32 {
    let f = (type_code(kind, m).unwrap() * nchannels + channel) as u32;
    let p: u32 = if pile_up_flag(m) {
        1
    } else {
        0
    };
    0x1000_0000u32 | (f << 16u32) | (p << pile_up_bit(nchannels)) | value_of(m)
}

/// The header word of module `module_id`.
pub open spec fn header_word(module_id: u32) -> u32 {
    0x4000_0000u32 | (module_id << 16u32)
}

/// The end word with the low counter `low`.
pub open spec fn end_word(low: u32) -> u32 {
    0xC000_0000u32 | low
}

/// The payload words of `arrivals`, in order.
pub open spec fn encode_all(kind: DataKind, nchannels: u32, arrivals: Seq<(u32, Measurement)>) -> Seq<u32> {
    arrivals.map_values(|a: (u32, Measurement)| data_word(kind, nchannels, a.0, a.1))
}

proof fn lemma_payload_bits(f: u32, p: u32, v: u32, nchannels: u32)
    requires
        valid_channel_count(nchannels),
        f <= channel_mask(nchannels),
        p <= 1,
        v < 0x10000,
    ensures
        ({
            let w = 0x1000_0000u32 | (f << 16u32) | (p << pile_up_bit(nchannels)) | v;
            &&& signature(w) == 0
            &&& subheader(w) == 1
            &&& channel_field(nchannels, w) == f
            &&& low_value(w) == v
            &&& ((w >> pile_up_bit(nchannels)) & 1u32) == p
        }),
{
    if nchannels == 16 {
        assert({
            let w = 0x1000_0000u32 | (f << 16u32) | (p << 23u32) | v;
            &&& (w >> 30u32) & 3u32 == 0
            &&& (w >> 28u32) & 15u32 == 1
            &&& (w >> 16u32) & 0x1Fu32 == f
            &&& w & 0xFFFFu32 == v
            &&& (w >> 23u32) & 1u32 == p
        }) by (bit_vector)
            requires
                f <= 0x1F,
                p <= 1,
                v < 0x10000,
        ;
    } else {
        assert({
            let w = 0x1000_0000u32 | (f << 16u32) | (p << 24u32) | v;
            &&& (w >> 30u32) & 3u32 == 0
            &&& (w >> 28u32) & 15u32 == 1
            &&& (w >> 16u32) & 0x7Fu32 == f
            &&& w & 0xFFFFu32 == v
            &&& (w >> 24u32) & 1u32 == p
        }) by (bit_vector)
            requires
                f <= 0x7F,
                p <= 1,
                v < 0x10000,
        ;
    }
}

/// A payload word decodes to the channel and measurement it was made from.
pub proof fn lemma_data_word_decodes(kind: DataKind, nchannels: u32, channel: u32, m: Measurement)
    requires
        encodable(kind, nchannels, channel, m),
    ensures
        signature(data_word(kind, nchannels, channel, m)) == 0,
        subheader(data_word(kind, nchannels, channel, m)) == 1,
        payload(kind, nchannels, data_word(kind, nchannels, channel, m)) == Ok::<
            Option<(u32, Measurement)>,
            DecodeError,
        >(Some((channel, m))),
{
    let code = type_code(kind, m).unwrap();
    let f = (code * nchannels + channel) as u32;
    let p: u32 = if pile_up_flag(m) {
        1
    } else {
        0
    };
    let w = data_word(kind, nchannels, channel, m);
    lemma_payload_bits(f, p, value_of(m), nchannels);
    assert(f / nchannels == code && f % nchannels == channel) by (nonlinear_arith)
        requires
            f == code * nchannels + channel,
            channel < nchannels,
            nchannels > 0,
    ;
    assert(event_type(nchannels, w) == code);
    assert(physical_channel(nchannels, w) == channel);
    assert(pile_up_of(nchannels, w) == pile_up_flag(m));
}

/// A header word names its module.
pub proof fn lemma_header_word(module_id: u32)
    requires
        module_id < 256,
    ensures
        signature(header_word(module_id)) == 1,
        (header_word(module_id) >> 16u32) & 0xFFu32 == module_id,
{
    assert(((0x4000_0000u32 | (module_id << 16u32)) >> 30u32) & 3u32 == 1 && ((0x4000_0000u32 | (
    module_id << 16u32)) >> 16u32) & 0xFFu32 == module_id) by (bit_vector)
        requires
            module_id < 256,
    ;
}

/// An end word carries its low counter.
pub proof fn lemma_end_word(low: u32)
    requires
        low < 0x4000_0000,
    ensures
        signature(end_word(low)) == 3,
        end_word(low) & THIRTY_BIT == low,
{
    assert(((0xC000_0000u32 | low) >> 30u32) & 3u32 == 3 && (0xC000_0000u32 | low) & 0x3FFF_FFFFu32
        == low) by (bit_vector)
        requires
            low < 0x4000_0000,
    ;
}

/// Decoding two word sequences one after the other is decoding their concatenation.
pub proof fn lemma_run_append(s: BankView, kind: DataKind, nchannels: u32, a: Seq<u32>, b: Seq<u32>)
    ensures
        run(s, kind, nchannels, a + b) == match run(s, kind, nchannels, a) {
            Ok(t) => run(t, kind, nchannels, b),
            Err(e) => Err(e),
        },
    decreases b.len(),
{
    if b.len() == 0 {
        assert(a + b =~= a);
    } else {
        assert((a + b).drop_last() =~= a + b.drop_last());
        assert((a + b).last() == b.last());
        lemma_run_append(s, kind, nchannels, a, b.drop_last());
    }
}

/// Payload words for the open event group their measurements into it.
proof fn lemma_run_payload(t: BankView, kind: DataKind, nchannels: u32, arrivals: Seq<(u32, Measurement)>)
    requires
        0 <= t.current_event,
        t.has_open_event(),
        forall|k: int| 0 <= k < arrivals.len() ==> encodable(kind, nchannels, #[trigger] arrivals[k].0, arrivals[k].1),
    ensures
        run(t, kind, nchannels, encode_all(kind, nchannels, arrivals)) == Ok::<BankView, DecodeError>(
            BankView {
                events: t.events.update(
                    t.current_event,
                    add_all(t.events[t.current_event], arrivals),
                ),
                ..t
            },
        ),
    decreases arrivals.len(),
{
    let ws = encode_all(kind, nchannels, arrivals);
    if arrivals.len() == 0 {
        assert(t.events.update(t.current_event, t.events[t.current_event]) =~= t.events);
    } else {
        let prefix = arrivals.drop_last();
        assert(ws.drop_last() =~= encode_all(kind, nchannels, prefix));
        lemma_run_payload(t, kind, nchannels, prefix);
        let (ch, m) = arrivals.last();
        assert(encodable(kind, nchannels, arrivals[arrivals.len() - 1].0, arrivals[arrivals.len() - 1].1));
        lemma_data_word_decodes(kind, nchannels, ch, m);
        let t1 = BankView {
            events: t.events.update(t.current_event, add_all(t.events[t.current_event], prefix)),
            ..t
        };
        assert(step(t1, kind, nchannels, ws.last()) == t1.add_to_open(ch, m));
        assert(t1.events.update(t.current_event, t1.events[t.current_event].add(ch, m)) =~= t.events.update(
            t.current_event,
            add_all(t.events[t.current_event], arrivals),
        ));
    }
}

/// Encoding a header, payload words and an end word, and decoding them from a
/// state with no open event, reproduces every measurement: the decoder holds
/// one more, closed, event of that module and counter, whose channels and
/// hits are what the measurements give in order.
pub proof fn lemma_round_trip(
    s: BankView,
    kind: DataKind,
    nchannels: u32,
    module_id: u32,
    arrivals: Seq<(u32, Measurement)>,
    low: u32,
)
    requires
        s.wf(),
        !s.start,
        module_id < 256,
        low < 0x4000_0000,
        forall|k: int| 0 <= k < arrivals.len() ==> encodable(kind, nchannels, #[trigger] arrivals[k].0, arrivals[k].1),
    ensures
        run(
            s,
            kind,
            nchannels,
            seq![header_word(module_id)] + encode_all(kind, nchannels, arrivals) + seq![end_word(low)],
        ) == Ok::<BankView, DecodeError>(
            BankView {
                events: s.events.push(add_all(new_event(module_id), arrivals).finish(low)),
                current_event: s.current_event + 1,
                start: false,
                stop: true,
                ..s
            },
        ),
{
    let h = seq![header_word(module_id)];
    let d = encode_all(kind, nchannels, arrivals);
    let e = seq![end_word(low)];
    lemma_header_word(module_id);
    lemma_end_word(low);
    assert(h.drop_last() =~= Seq::<u32>::empty());
    assert(run(s, kind, nchannels, h.drop_last()) == Ok::<BankView, DecodeError>(s));
    let s1 = s.open_event(module_id);
    assert(run(s, kind, nchannels, h) == Ok::<BankView, DecodeError>(s1));
    assert(s1.events == s.events.push(new_event(module_id)));
    lemma_run_payload(s1, kind, nchannels, arrivals);
    lemma_run_append(s, kind, nchannels, h, d);
    let s2 = BankView {
        events: s1.events.update(s1.current_event, add_all(s1.events[s1.current_event], arrivals)),
        ..s1
    };
    assert(e.drop_last() =~= Seq::<u32>::empty());
    assert(run(s2, kind, nchannels, e.drop_last()) == Ok::<BankView, DecodeError>(s2));
    assert(run(s2, kind, nchannels, e) == s2.close_event(low));
    lemma_run_append(s, kind, nchannels, h + d, e);
    assert(s2.events.update(s2.current_event, s2.events[s2.current_event].finish(low)) =~= s.events.push(
        add_all(new_event(module_id), arrivals).finish(low),
    ));
}

/// Whether no other arrival sets the same field of the same channel as the `k`-th.
pub open spec fn sole_arrival(arrivals: Seq<(u32, Measurement)>, k: int) -> bool {
    forall|j: int|
        0 <= j < arrivals.len() && j != k ==> !(#[trigger] arrivals[j].0 == arrivals[k].0
            && same_field(arrivals[j].1, arrivals[k].1))
}

/// Adding a measurement for one channel leaves every other channel's hit as it was.
proof fn lemma_add_other_channel(e: EventView, channel: u32, m: Measurement, other: u32)
    requires
        e.wf(),
        other != channel,
        e.channels.contains(other),
    ensures
        e.add(channel, m).channels.contains(other),
        e.add(channel, m).hit_of(other) == e.hit_of(other),
{
    let e2 = e.add(channel, m);
    lemma_add_keeps_wf(e, channel, m);
    let i = e.channels.index_of(other);
    assert(0 <= i < e.channels.len() && e.channels[i] == other);
    assert(e2.channels[i] == other);
    lemma_index_of_unique(e2.channels, other, i);
    if e.channels.contains(channel) {
        let c = e.channels.index_of(channel);
        assert(e.channels[c] == channel);
        assert(c != i);
    }
}

proof fn lemma_record_other_field(h: MDPPHit, m: Measurement, m2: Measurement)
    ensures
        !same_field(m, m2) && holds(h, m2) ==> holds(record(h, m), m2),
        is_filled(record(h, m), m2) ==> same_field(m, m2) || is_filled(h, m2),
        !is_filled(h, m) ==> holds(record(h, m), m),
{
}

/// When each field of each channel arrives once, the event holds every value
/// that arrived, and no field that did not.
pub proof fn lemma_values_reproduced(module_id: u32, arrivals: Seq<(u32, Measurement)>)
    requires
        forall|k: int| 0 <= k < arrivals.len() ==> sole_arrival(arrivals, k),
    ensures
        add_all(new_event(module_id), arrivals).wf(),
        forall|k: int|
            0 <= k < arrivals.len() ==> {
                let e = add_all(new_event(module_id), arrivals);
                &&& e.channels.contains(#[trigger] arrivals[k].0)
                &&& holds(e.hit_of(arrivals[k].0), arrivals[k].1)
            },
        forall|ch: u32, m: Measurement|
            add_all(new_event(module_id), arrivals).channels.contains(ch) && #[trigger] is_filled(
                add_all(new_event(module_id), arrivals).hit_of(ch),
                m,
            ) ==> exists|j: int|
                0 <= j < arrivals.len() && #[trigger] arrivals[j].0 == ch && same_field(
                    arrivals[j].1,
                    m,
                ),
    decreases arrivals.len(),
{
    let e2 = add_all(new_event(module_id), arrivals);
    if arrivals.len() == 0 {
        assert(new_event(module_id).channels.no_duplicates());
    } else {
        let n = arrivals.len() - 1;
        let prefix = arrivals.drop_last();
        assert forall|k: int| 0 <= k < prefix.len() implies sole_arrival(prefix, k) by {
            assert(sole_arrival(arrivals, k));
            assert forall|j: int| 0 <= j < prefix.len() && j != k implies !(#[trigger] prefix[j].0
                == prefix[k].0 && same_field(prefix[j].1, prefix[k].1)) by {
                assert(prefix[j] == arrivals[j]);
            }
        }
        lemma_values_reproduced(module_id, prefix);
        let e = add_all(new_event(module_id), prefix);
        let (ch, m) = arrivals[n];
        assert(e2 == e.add(ch, m));
        lemma_add_keeps_wf(e, ch, m);
        // the last arrival finds its field empty
        assert(!(e.channels.contains(ch) && is_filled(e.hit_of(ch), m))) by {
            if e.channels.contains(ch) && is_filled(e.hit_of(ch), m) {
                let j = choose|j: int|
                    0 <= j < prefix.len() && #[trigger] prefix[j].0 == ch && same_field(prefix[j].1, m);
                assert(prefix[j] == arrivals[j]);
                assert(sole_arrival(arrivals, n));
                assert(!(arrivals[j].0 == arrivals[n].0 && same_field(arrivals[j].1, arrivals[n].1)));
            }
        }
        let h0 = if e.channels.contains(ch) {
            e.hit_of(ch)
        } else {
            empty_hit()
        };
        lemma_record_other_field(h0, m, m);
        assert forall|k: int| 0 <= k < arrivals.len() implies {
            &&& e2.channels.contains(#[trigger] arrivals[k].0)
            &&& holds(e2.hit_of(arrivals[k].0), arrivals[k].1)
        } by {
            if k < n {
                assert(prefix[k] == arrivals[k]);
                let (chk, mk) = arrivals[k];
                assert(e.channels.contains(chk) && holds(e.hit_of(chk), mk));
                if chk != ch {
                    lemma_add_other_channel(e, ch, m, chk);
                } else {
                    assert(sole_arrival(arrivals, k));
                    assert(!(arrivals[n].0 == arrivals[k].0 && same_field(arrivals[n].1, arrivals[k].1)));
                    lemma_record_other_field(h0, m, mk);
                }
            }
        }
        assert forall|c: u32, m2: Measurement|
            e2.channels.contains(c) && #[trigger] is_filled(e2.hit_of(c), m2) implies exists|j: int|
            0 <= j < arrivals.len() && #[trigger] arrivals[j].0 == c && same_field(arrivals[j].1, m2) by {
            if c != ch {
                assert(e.channels.contains(c)) by {
                    let i = e2.channels.index_of(c);
                    assert(0 <= i < e2.channels.len() && e2.channels[i] == c);
                    if i < e.channels.len() {
                        assert(e.channels[i] == c);
                    }
                }
                lemma_add_other_channel(e, ch, m, c);
                let j = choose|j: int|
                    0 <= j < prefix.len() && #[trigger] prefix[j].0 == c && same_field(prefix[j].1, m2);
                assert(prefix[j] == arrivals[j]);
            } else {
                lemma_record_other_field(h0, m, m2);
                if same_field(m, m2) {
                    assert(arrivals[n].0 == c);
                } else {
                    assert(e.channels.contains(c) && is_filled(e.hit_of(c), m2));
                    let j = choose|j: int|
                        0 <= j < prefix.len() && #[trigger] prefix[j].0 == c && same_field(prefix[j].1, m2);
                    assert(prefix[j] == arrivals[j]);
                }
            }
        }
    }
}

/// The channel field is too narrow for an event type above 3, so a qdc
/// payload word never names an unknown one.
pub proof fn lemma_event_type_at_most_three(nchannels: u32, w: u32)
    requires
        valid_channel_count(nchannels),
    ensures
        event_type(nchannels, w) <= 3,
        payload(DataKind::Qdc, nchannels, w) is Ok,
{
    assert((w >> 16u32) & 0x7Fu32 <= 0x7F && (w >> 16u32) & 0x1Fu32 <= 0x1F) by (bit_vector);
}

} // verus!

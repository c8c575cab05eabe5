use midas_sort::bitmasks::{decode_words, to_u32_be, to_u32_le};
use midas_sort::error::DecodeError;
use midas_sort::mdpp_bank::{DataKind, FlushPolicy, MDPPBank, MDPPEvent, MDPPHit, Measurement};

fn bytes(words: &[u32]) -> Vec<u8> {
    let mut out = Vec::new();
    for w in words {
        out.extend_from_slice(&w.to_le_bytes());
    }
    out
}

fn header(module_id: u32) -> u32 {
    0x4000_0000 | (module_id << 16)
}

fn end(low: u32) -> u32 {
    0xC000_0000 | low
}

fn payload(field: u32, value: u32) -> u32 {
    0x1000_0000 | (field << 16) | value
}

fn decode(kind: DataKind, nchannels: u32, words: &[u32]) -> (MDPPBank, Result<(), DecodeError>) {
    let mut bank = MDPPBank::new();
    let r = bank.parse(kind, nchannels, &bytes(words));
    (bank, r)
}

#[test]
fn words_are_little_endian() {
    let b = [0x78u8, 0x56, 0x34, 0x12];
    assert_eq!(to_u32_le(&b), 0x1234_5678);
    assert_eq!(to_u32_be(&b), 0x7856_3412);
    let w = decode_words(&[1, 0, 0, 0, 0, 0, 0, 0x80, 9]);
    assert_eq!(w, vec![1, 0x8000_0000]);
}

#[test]
fn hit_setters_keep_first_value() {
    let mut h = MDPPHit::new();
    assert!(!h.set_adc(5, true));
    assert!(h.set_adc(7, false));
    assert_eq!(h.adc_value, 5);
    assert!(h.pile_up);
    assert!(!h.set_tdc(11));
    assert!(h.set_tdc(12));
    assert_eq!(h.tdc_value, 11);
    assert!(!h.set_long(21));
    assert!(h.set_long(22));
    assert_eq!(h.long_value, 21);
    assert!(!h.set_short(31));
    assert!(h.set_short(32));
    assert_eq!(h.short_value, 31);
    assert!(!h.set_trigger_dt(41));
    assert!(h.set_trigger_dt(42));
    assert_eq!(h.trigger_dt_value, 41);
    assert_eq!(h.short_value, 31);
    assert!(h.set(Measurement::Long(99)));
    assert_eq!(h.long_value, 21);
}

#[test]
fn event_keeps_first_value_per_channel_field() {
    let mut e = MDPPEvent::new(3);
    e.add_adc(2, 100, false);
    e.add_adc(2, 200, true);
    e.add_tdc(2, 7);
    assert_eq!(e.channels, vec![2]);
    assert_eq!(e.channel_hits[0].adc_value, 100);
    assert!(!e.channel_hits[0].pile_up);
    assert_eq!(e.channel_hits[0].tdc_value, 7);
}

#[test]
fn channels_in_order_of_first_arrival() {
    let mut e = MDPPEvent::new(0);
    e.add_tdc(3, 1);
    e.add_adc(1, 2, false);
    e.add_adc(3, 3, false);
    e.add_long(2, 4);
    e.add_short(1, 5);
    e.add_trigger_dt(9, 6);
    assert_eq!(e.channels, vec![3, 1, 2, 9]);
    assert_eq!(e.channel_hits.len(), 4);
    assert_eq!(e.channel_hits[0].tdc_value, 1);
    assert_eq!(e.channel_hits[0].adc_value, 3);
    assert_eq!(e.channel_hits[1].short_value, 5);
    assert_eq!(e.channel_hits[3].trigger_dt_value, 6);
    assert!(e.channel_hits[3].trigger_dt_filled);
    assert!(!e.channel_hits[3].short_filled);
}

#[test]
fn header_while_open_discards_the_open_event() {
    let (bank, r) = decode(
        DataKind::Scp,
        16,
        &[header(1), header(2), payload(0, 55), end(7)],
    );
    assert_eq!(r, Ok(()));
    assert_eq!(bank.events.len(), 1);
    assert_eq!(bank.events[0].module_id, 2);
    assert_eq!(bank.junk_events, 1);
    assert_eq!(bank.events[0].channel_hits[0].adc_value, 55);
    assert_eq!(bank.events[0].evt_timestamp, 7);
}

#[test]
fn end_without_header_is_ignored() {
    let (bank, r) = decode(DataKind::Scp, 16, &[end(5)]);
    assert_eq!(r, Ok(()));
    assert!(!bank.start);
    assert_eq!(bank.events.len(), 0);
    assert_eq!(bank.junk_events, 0);
}

#[test]
fn extended_timestamp_is_stitched() {
    let (bank, r) = decode(DataKind::Qdc, 32, &[header(4), 0x2000_0005, end(100)]);
    assert_eq!(r, Ok(()));
    assert_eq!(bank.events[0].evt_timestamp, 5 * (1u64 << 30) + 100);
    let (plain, _) = decode(DataKind::Qdc, 32, &[header(4), end(100)]);
    assert_eq!(plain.events[0].evt_timestamp, 100);
}

#[test]
fn scp16_field_splits_into_type_and_channel() {
    let (bank, r) = decode(DataKind::Scp, 16, &[header(0), payload(20, 0x1234), end(1)]);
    assert_eq!(r, Ok(()));
    let e = &bank.events[0];
    assert_eq!(e.channels, vec![4]);
    assert!(e.channel_hits[0].tdc_filled);
    assert_eq!(e.channel_hits[0].tdc_value, 0x1234);
    assert!(!e.channel_hits[0].adc_filled);
}

#[test]
fn pile_up_bit_depends_on_channel_count() {
    let (b16, _) = decode(DataKind::Scp, 16, &[header(0), payload(3, 9) | (1 << 23), end(0)]);
    assert!(b16.events[0].channel_hits[0].pile_up);
    let (b32, _) = decode(DataKind::Scp, 32, &[header(0), payload(3, 9) | (1 << 23), end(0)]);
    assert!(!b32.events[0].channel_hits[0].pile_up);
    let (c32, _) = decode(DataKind::Scp, 32, &[header(0), payload(3, 9) | (1 << 24), end(0)]);
    assert!(c32.events[0].channel_hits[0].pile_up);
}

#[test]
fn scp_unknown_event_type_is_ignored() {
    let (bank, r) = decode(DataKind::Scp, 32, &[header(0), payload(3 * 32 + 1, 9), end(0)]);
    assert_eq!(r, Ok(()));
    assert_eq!(bank.events[0].channels.len(), 0);
}

#[test]
fn filler_words_are_ignored() {
    let (bank, r) = decode(DataKind::Qdc, 16, &[header(0), 0x0000_1234, end(0)]);
    assert_eq!(r, Ok(()));
    assert_eq!(bank.events[0].channels.len(), 0);
}

#[test]
fn qdc32_round_trip() {
    let mut words = vec![header(9)];
    for ch in 0..32u32 {
        words.push(payload(ch, 1000 + ch));
        words.push(payload(32 + ch, 2000 + ch));
        words.push(payload(64 + ch, 3000 + ch));
        words.push(payload(96 + ch, 4000 + ch));
    }
    words.push(end(12345));
    let (bank, r) = decode(DataKind::Qdc, 32, &words);
    assert_eq!(r, Ok(()));
    assert_eq!(bank.events.len(), 1);
    let e = &bank.events[0];
    assert_eq!(e.module_id, 9);
    assert_eq!(e.evt_timestamp, 12345);
    assert_eq!(e.channels, (0..32).collect::<Vec<u32>>());
    for ch in 0..32usize {
        let h = &e.channel_hits[ch];
        assert_eq!(h.long_value, 1000 + ch as u32);
        assert_eq!(h.tdc_value, 2000 + ch as u32);
        assert_eq!(h.trigger_dt_value, 3000 + ch as i64);
        assert_eq!(h.short_value, 4000 + ch as u32);
        assert!(h.long_filled && h.tdc_filled && h.trigger_dt_filled && h.short_filled);
        assert!(!h.adc_filled);
    }
}

#[test]
fn scp16_round_trip() {
    let mut words = vec![header(3)];
    for ch in (0..16u32).rev() {
        words.push(payload(16 + ch, 500 + ch));
        words.push(payload(ch, 100 + ch) | ((ch % 2) << 23));
    }
    words.push(end(77));
    let (bank, r) = decode(DataKind::Scp, 16, &words);
    assert_eq!(r, Ok(()));
    let e = &bank.events[0];
    assert_eq!(e.channels, (0..16).rev().collect::<Vec<u32>>());
    for (i, ch) in (0..16u32).rev().enumerate() {
        let h = &e.channel_hits[i];
        assert_eq!(h.adc_value, 100 + ch);
        assert_eq!(h.tdc_value, 500 + ch);
        assert_eq!(h.pile_up, ch % 2 == 1);
    }
}

#[test]
fn flush_then_header_starts_at_index_zero() {
    let (mut bank, _) = decode(DataKind::Scp, 16, &[header(1), payload(0, 1), end(1), header(2), payload(1, 2)]);
    assert_eq!(bank.events.len(), 2);
    bank.clear_data();
    assert_eq!(bank.events.len(), 0);
    assert_eq!(bank.current_event, 0);
    let r = bank.parse(DataKind::Scp, 16, &bytes(&[header(5)]));
    assert_eq!(r, Ok(()));
    assert_eq!(bank.events.len(), 1);
    assert_eq!(bank.current_event, 0);
    assert_eq!(bank.events[0].module_id, 5);
}

#[test]
fn flush_all_leaves_no_event_for_late_data() {
    let (mut bank, _) = decode(DataKind::Scp, 16, &[header(2), payload(1, 2)]);
    let out = bank.take_events(FlushPolicy::All);
    assert_eq!(out.len(), 1);
    let r = bank.parse(DataKind::Scp, 16, &bytes(&[payload(1, 3)]));
    assert_eq!(r, Err(DecodeError::NoOpenEvent));
}

#[test]
fn flush_closed_only_keeps_the_open_event() {
    let (mut bank, _) = decode(
        DataKind::Scp,
        16,
        &[header(1), end(1), header(2), end(2), header(3), payload(1, 2)],
    );
    let out = bank.take_events(FlushPolicy::ClosedOnly);
    assert_eq!(out.len(), 2);
    assert_eq!(out[0].module_id, 1);
    assert_eq!(out[1].module_id, 2);
    assert_eq!(bank.events.len(), 1);
    assert_eq!(bank.current_event, 0);
    let r = bank.parse(DataKind::Scp, 16, &bytes(&[payload(17, 8), end(3)]));
    assert_eq!(r, Ok(()));
    assert_eq!(bank.events[0].module_id, 3);
    assert_eq!(bank.events[0].channel_hits[0].adc_value, 2);
    assert_eq!(bank.events[0].channel_hits[0].tdc_value, 8);
    assert_eq!(bank.current_event, 1);
}

#[test]
fn invalid_signature_is_fatal() {
    let (_, r) = decode(DataKind::Scp, 16, &[0x8000_0000]);
    assert_eq!(r, Err(DecodeError::InvalidSignature));
}

#[test]
fn invalid_subheader_is_fatal() {
    let (_, r) = decode(DataKind::Scp, 16, &[header(0), 0x3000_0000]);
    assert_eq!(r, Err(DecodeError::InvalidSubheader));
}

#[test]
fn invalid_channel_count_is_fatal() {
    let (bank, r) = decode(DataKind::Qdc, 8, &[header(0)]);
    assert_eq!(r, Err(DecodeError::InvalidChannelCount));
    assert_eq!(bank.events.len(), 0);
}

#[test]
fn data_without_event_is_fatal() {
    let (_, r) = decode(DataKind::Qdc, 16, &[payload(1, 1)]);
    assert_eq!(r, Err(DecodeError::NoOpenEvent));
    let (_, r2) = decode(DataKind::Qdc, 16, &[header(0), end(0), 0x2000_0001]);
    assert_eq!(r2, Err(DecodeError::NoOpenEvent));
}

#[test]
fn partial_word_is_fatal() {
    let mut bank = MDPPBank::new();
    let r = bank.parse(DataKind::Scp, 16, &[0, 0, 0, 0x40, 1]);
    assert_eq!(r, Err(DecodeError::PartialWord));
    assert_eq!(bank.events.len(), 0);
}

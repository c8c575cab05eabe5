use midas_sort::diagnostics::tally_signatures;
use midas_sort::error::DecodeError;
use midas_sort::mdpp16_scp;
use midas_sort::sis3820::ScalerBank;
use midas_sort::v1730_bank::{v1730Bank, v1730Hit};
use midas_sort::v785_bank::{v785Bank, v785Hit};

fn bytes(words: &[u32]) -> Vec<u8> {
    let mut out = Vec::new();
    for w in words {
        out.extend_from_slice(&w.to_le_bytes());
    }
    out
}

#[test]
fn triplet_hit_fields_and_time() {
    let h = v1730Hit::new(&[0x0004_0005, 0x0000_0010, 0x0002_0003]);
    assert_eq!(h.channel, 4);
    assert_eq!(h.long, 5);
    assert_eq!(h.coarse_time, (2u64 << 31) + 16);
    assert_eq!(h.fine_time, 3);
    let time = h.coarse_time as f64 + h.fine_time as f64 / 1024.0;
    assert_eq!(time, ((2u64 << 31) + 16) as f64 + 3.0 / 1024.0);
}

#[test]
fn triplet_bank_drops_partial_group() {
    let mut b = v1730Bank::new();
    b.parse(&bytes(&[0x0001_0002, 7, 0x0001_0004, 0x000F_FFFF, 8, 0xFFFF_03FF, 42]));
    assert_eq!(b.hits.len(), 2);
    assert_eq!(b.hits[0].channel, 1);
    assert_eq!(b.hits[0].long, 2);
    assert_eq!(b.hits[0].coarse_time, (1u64 << 31) + 7);
    assert_eq!(b.hits[0].fine_time, 4);
    assert_eq!(b.hits[1].channel, 15);
    assert_eq!(b.hits[1].long, 0xFFFF);
    assert_eq!(b.hits[1].coarse_time, (0xFFFFu64 << 31) + 8);
    assert_eq!(b.hits[1].fine_time, 0x3FF);
    let out = b.take_hits();
    assert_eq!(out.len(), 2);
    assert_eq!(b.hits.len(), 0);
}

#[test]
fn snapshot_takes_first_32_words_and_counts() {
    let words: Vec<u32> = (100..134).collect();
    let mut b = v785Bank::new();
    b.parse(&bytes(&words));
    b.parse(&bytes(&words));
    assert_eq!(b.hits.len(), 2);
    assert_eq!(b.hits[0].evt, 0);
    assert_eq!(b.hits[1].evt, 1);
    assert_eq!(b.hits[0].values[0], 100);
    assert_eq!(b.hits[0].values[31], 131);
    assert_eq!(b.global_evt_num, 2);
    let h = v785Hit::new(9);
    assert_eq!(h.evt, 9);
    assert_eq!(h.values, [0u32; 32]);
}

#[test]
fn scaler_split_keeps_complete_scans() {
    let words: Vec<u32> = (0..70).collect();
    let scans = ScalerBank::split(&bytes(&words));
    assert_eq!(scans.len(), 2);
    assert_eq!(scans[0].data, (0..32).collect::<Vec<u32>>());
    assert_eq!(scans[1].data, (32..64).collect::<Vec<u32>>());
    assert_eq!(ScalerBank::split(&bytes(&[1, 2, 3])).len(), 0);
}

#[test]
fn scaler_parse_fills_first_counters() {
    let mut s = ScalerBank::new();
    assert_eq!(s.data, vec![0u32; 32]);
    s.parse(&bytes(&[5, 6, 7]));
    assert_eq!(&s.data[..4], &[5, 6, 7, 0]);
    assert_eq!(s.data.len(), 32);
}

#[test]
fn tally_counts_headers_and_ends() {
    let b = bytes(&[0x4000_0000, 0x1000_0001, 0xC000_0001, 0x4001_0000, 0]);
    assert_eq!(tally_signatures(&b), Ok((2, 1)));
    let bad = bytes(&[0x4000_0000, 0x8000_0000]);
    assert_eq!(tally_signatures(&bad), Err(DecodeError::InvalidSignature));
}

#[test]
fn scp16_legacy_groups_amplitude_and_time() {
    let mut b = mdpp16_scp::MDPPBank::new(10);
    let words = [
        0x4003_0000,
        0x1002_0010 | (1 << 23),
        0x1012_0020,
        0x1002_0030,
        0xC000_0009,
    ];
    assert_eq!(b.parse(&bytes(&words)), Ok(()));
    assert_eq!(b.events.len(), 1);
    let e = &b.events[0];
    assert_eq!(e.module_id, 3);
    assert_eq!(e.event_num, 9);
    assert_eq!(e.nwords, 0x3FF);
    assert_eq!(e.channels, vec![2]);
    assert_eq!(e.channel_hits[0].adc_value, 0x10);
    assert!(e.channel_hits[0].pile_up);
    assert_eq!(e.channel_hits[0].tdc_value, 0x20);
    assert_eq!(b.current_event, 1);
    b.clear_data();
    assert_eq!(b.events.len(), 0);
    assert_eq!(b.current_event, 0);
}

#[test]
fn scp16_legacy_faults() {
    let mut b = mdpp16_scp::MDPPBank::new(10);
    assert_eq!(b.parse(&bytes(&[0xC000_0001])), Err(DecodeError::NoOpenEvent));
    assert_eq!(b.parse(&bytes(&[0x8000_0000])), Err(DecodeError::InvalidSignature));
    assert_eq!(b.parse(&bytes(&[0x4000_0000, 0x2000_0000])), Err(DecodeError::InvalidSubheader));
    assert_eq!(b.parse(&[1, 2]), Err(DecodeError::PartialWord));
}

#[test]
fn scp16_legacy_hit_keeps_first_values() {
    let mut h = mdpp16_scp::MDPPHit::new();
    assert!(!h.set_adc(1, true, true));
    assert!(h.set_adc(2, false, false));
    assert_eq!(h.adc_value, 1);
    assert!(h.overflow);
    assert!(!h.set_tdc(3));
    assert!(h.set_tdc(4));
    assert_eq!(h.tdc_value, 3);
    let mut e = mdpp16_scp::MDPPEvent::new(1, 2);
    e.add_tdc(5, 1);
    e.add_adc(4, 2, false, false);
    e.add_adc(5, 3, false, true);
    e.end_event(8);
    assert_eq!(e.channels, vec![5, 4]);
    assert_eq!(e.channel_hits[0].adc_value, 3);
    assert_eq!(e.event_num, 8);
}

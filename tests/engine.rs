use midas_sort::error::DecodeError;
use midas_sort::mdpp_bank::{DataKind, FlushPolicy};
use midas_sort::module_config::{Config, Module, ModuleFamily};
use midas_sort::sort::{Flushed, MDPPSort, SortEngine, SortError, v785Sort};

fn bytes(words: &[u32]) -> Vec<u8> {
    let mut out = Vec::new();
    for w in words {
        out.extend_from_slice(&w.to_le_bytes());
    }
    out
}

fn module(name: &str, mod_type: &str, nchannels: u32) -> Module {
    Module {
        name: name.to_string(),
        address: String::new(),
        mod_type: mod_type.to_string(),
        nchannels,
        setup_file: String::new(),
    }
}

fn config() -> Config {
    Config {
        modules: vec![
            module("MDPP", "scp", 16),
            module("MDQC", "qdc", 32),
            module("V17A", "v1730", 16),
            module("V785", "adc", 32),
        ],
    }
}

#[test]
fn module_types_name_families() {
    assert_eq!(module("a", "scp", 16).family(), Some(ModuleFamily::Mdpp(DataKind::Scp)));
    assert_eq!(module("a", "qdc", 16).family(), Some(ModuleFamily::Mdpp(DataKind::Qdc)));
    assert_eq!(module("a", "v1730", 16).family(), Some(ModuleFamily::Triplet));
    assert_eq!(module("a", "adc", 32).family(), Some(ModuleFamily::Snapshot));
    assert_eq!(module("a", "tdc", 32).family(), None);
}

#[test]
fn unknown_module_type_is_reported() {
    let c = Config { modules: vec![module("A", "scp", 16), module("B", "xyz", 16)] };
    assert!(matches!(SortEngine::new(&c, 10, FlushPolicy::All), Err(SortError::UnknownModuleType(1))));
}

#[test]
fn banks_are_routed_by_name() {
    let mut e = SortEngine::new(&config(), 10, FlushPolicy::All).unwrap();
    let mdpp = bytes(&[0x4001_0000, 0x1000_0007, 0xC000_0003]);
    assert_eq!(e.process_bank(&"MDPP".to_string(), &mdpp), Ok(()));
    assert_eq!(e.process_bank(&"XXXX".to_string(), &mdpp), Err(SortError::UnknownBank));
    assert_eq!(e.process_bank(&"XXXX".to_string(), &[0]), Ok(()));
    let words: Vec<u32> = (0..34).collect();
    assert_eq!(e.process_bank(&"V785".to_string(), &bytes(&words)), Ok(()));
    assert_eq!(
        e.process_bank(&"V785".to_string(), &bytes(&words[..10])),
        Err(SortError::Decode(DecodeError::ShortSnapshot))
    );
    assert_eq!(
        e.process_bank(&"V17A".to_string(), &[1, 2, 3, 4, 5]),
        Err(SortError::Decode(DecodeError::PartialWord))
    );
    assert_eq!(
        e.process_bank(&"MDQC".to_string(), &bytes(&[0x8000_0000])),
        Err(SortError::Decode(DecodeError::InvalidSignature))
    );
    match e.take_module_data(0) {
        Flushed::Mdpp(events) => {
            assert_eq!(events.len(), 1);
            assert_eq!(events[0].module_id, 1);
            assert_eq!(events[0].evt_timestamp, 3);
            assert_eq!(events[0].channel_hits[0].adc_value, 7);
        }
        _ => panic!("wrong family"),
    }
    match e.take_module_data(3) {
        Flushed::Snapshot(hits) => {
            assert_eq!(hits.len(), 1);
            assert_eq!(hits[0].values[5], 5);
        }
        _ => panic!("wrong family"),
    }
    match e.take_module_data(0) {
        Flushed::Mdpp(events) => assert_eq!(events.len(), 0),
        _ => panic!("wrong family"),
    }
}

#[test]
fn first_module_of_a_name_gets_the_bank() {
    let c = Config { modules: vec![module("A", "v1730", 16), module("A", "v1730", 16)] };
    let mut e = SortEngine::new(&c, 10, FlushPolicy::All).unwrap();
    assert_eq!(e.process_bank(&"A".to_string(), &bytes(&[1, 2, 3])), Ok(()));
    match e.take_module_data(1) {
        Flushed::Triplet(h) => assert_eq!(h.len(), 0),
        _ => panic!("wrong family"),
    }
    match e.take_module_data(0) {
        Flushed::Triplet(h) => assert_eq!(h.len(), 1),
        _ => panic!("wrong family"),
    }
}

#[test]
fn flush_is_due_after_chunk_size_frames() {
    let mut e = SortEngine::new(&config(), 2, FlushPolicy::All).unwrap();
    assert!(!e.end_frame());
    assert!(!e.end_frame());
    assert!(e.end_frame());
    assert_eq!(e.frames_since_flush, 0);
    assert!(!e.end_frame());
    let mut z = SortEngine::new(&config(), 0, FlushPolicy::All).unwrap();
    assert!(z.end_frame());
    assert!(z.end_frame());
}

#[test]
fn scaler_scans_accumulate() {
    let mut e = SortEngine::new(&config(), 2, FlushPolicy::All).unwrap();
    let words: Vec<u32> = (0..64).collect();
    e.process_scaler_bank(&bytes(&words));
    e.process_scaler_bank(&bytes(&words[..40]));
    let scans = e.take_scalers();
    assert_eq!(scans.len(), 3);
    assert_eq!(scans[1].data[0], 32);
    assert_eq!(scans[2].data[31], 31);
    assert_eq!(e.take_scalers().len(), 0);
}

#[test]
fn keep_open_policy_holds_back_open_event() {
    let c = Config { modules: vec![module("M", "scp", 32)] };
    let mut e = SortEngine::new(&c, 1, FlushPolicy::ClosedOnly).unwrap();
    let part1 = bytes(&[0x4002_0000, 0xC000_0001, 0x4002_0000, 0x1000_0011]);
    assert_eq!(e.process_bank(&"M".to_string(), &part1), Ok(()));
    match e.take_module_data(0) {
        Flushed::Mdpp(events) => assert_eq!(events.len(), 1),
        _ => panic!("wrong family"),
    }
    let part2 = bytes(&[0x1020_0022, 0xC000_0002]);
    assert_eq!(e.process_bank(&"M".to_string(), &part2), Ok(()));
    match e.take_module_data(0) {
        Flushed::Mdpp(events) => {
            assert_eq!(events.len(), 1);
            assert_eq!(events[0].channel_hits[0].adc_value, 0x11);
            assert_eq!(events[0].channel_hits[0].tdc_value, 0x22);
            assert_eq!(events[0].evt_timestamp, 2);
        }
        _ => panic!("wrong family"),
    }
}

#[test]
fn sorters_keep_their_settings() {
    let s = MDPPSort::new("out.csv".to_string(), "out_scaler.csv".to_string(), 5, config());
    assert_eq!(s.chunk_size, 5);
    assert_eq!(s.config.modules.len(), 4);
    assert_eq!(s.filename, "out.csv");
    let v = v785Sort::new("a.csv".to_string(), "b.csv".to_string(), 7, config());
    assert_eq!(v.scaler_filename, "b.csv");
    assert_eq!(v.chunk_size, 7);
}

//! Routing of sub-banks to per-module decoders, scaler collection and the
//! flush policy that bounds memory.
use vstd::prelude::*;

use crate::bitmasks::words_of;
use crate::error::DecodeError;
use crate::mdpp_bank::{decode_bank, BankView, DataKind, FlushPolicy, MDPPBank, MDPPEvent};
use crate::module_config::{family_of, Config, ModuleFamily};
use crate::sis3820::{scaler_groups, ScalerBank};
use crate::v1730_bank::{triplet_hits, v1730Bank, v1730Hit};
use crate::v785_bank::{next_number, v785Bank, v785Hit};

verus! {

/// A condition that stops the routing of one sub-bank.
#[derive(Clone, Copy, Debug, PartialEq, Eq, Structural)]
pub enum SortError {
    /// No configured module has the sub-bank's name; the caller decides
    /// whether to skip it or stop.
    UnknownBank,
    /// The configured module at this position has a type that names no family.
    UnknownModuleType(usize),
    /// The sub-bank does not follow its module's protocol.
    Decode(DecodeError),
}

/// The decoder of one configured module.
pub enum ModuleDecoder {
    Mdpp { kind: DataKind, nchannels: u32, bank: MDPPBank },
    Triplet(v1730Bank),
    Snapshot(v785Bank),
}

/// The abstract state of a module decoder.
pub enum DecoderView {
    Mdpp { kind: DataKind, nchannels: u32, bank: BankView },
    Triplet(Seq<v1730Hit>),
    Snapshot(Seq<(Seq<u32>, u32)>, u32),
}

impl View for ModuleDecoder {
    type V = DecoderView;

    open spec fn view(&self) -> DecoderView {
        match self {
            ModuleDecoder::Mdpp { kind, nchannels, bank } => DecoderView::Mdpp {
                kind: *kind,
                nchannels: *nchannels,
                bank: bank@,
            },
            ModuleDecoder::Triplet(b) => DecoderView::Triplet(b.hits@),
            ModuleDecoder::Snapshot(b) => DecoderView::Snapshot(snapshots(b.hits@), b.global_evt_num),
        }
    }
}

/// The values and event number of each snapshot.
pub open spec fn snapshots(hits: Seq<v785Hit>) -> Seq<(Seq<u32>, u32)> {
    hits.map_values(|h: v785Hit| (h.values@, h.evt))
}

/// A fresh decoder of a module of `family` with `nchannels` channels.
pub open spec fn initial_decoder(family: ModuleFamily, nchannels: u32) -> DecoderView {
    match family {
        ModuleFamily::Mdpp(kind) => DecoderView::Mdpp {
            kind,
            nchannels,
            bank: crate::mdpp_bank::initial_bank(),
        },
        ModuleFamily::Triplet => DecoderView::Triplet(Seq::empty()),
        ModuleFamily::Snapshot => DecoderView::Snapshot(Seq::empty(), 0),
    }
}

/// The decoder after the sub-bank `data`, or the fault it holds.
pub open spec fn decoder_step(d: DecoderView, data: Seq<u8>) -> Result<DecoderView, DecodeError> {
    match d {
        DecoderView::Mdpp { kind, nchannels, bank } => match decode_bank(
            bank,
            kind,
            nchannels,
            data,
        ) {
            Ok(t) => Ok(DecoderView::Mdpp { kind, nchannels, bank: t }),
            Err(e) => Err(e),
        },
        DecoderView::Triplet(hits) => if data.len() % 4 != 0 {
            Err(DecodeError::PartialWord)
        } else {
            Ok(DecoderView::Triplet(hits + triplet_hits(words_of(data))))
        },
        DecoderView::Snapshot(hits, next) => if data.len() % 4 != 0 {
            Err(DecodeError::PartialWord)
        } else if data.len() < 4 * 32 {
            Err(DecodeError::ShortSnapshot)
        } else {
            Ok(
                DecoderView::Snapshot(
                    hits.push((words_of(data).take(32), next)),
                    next_number(next),
                ),
            )
        },
    }
}

/// What a flush hands out of one module decoder.
pub enum Flushed {
    Mdpp(Vec<MDPPEvent>),
    Triplet(Vec<v1730Hit>),
    Snapshot(Vec<v785Hit>),
}

impl ModuleDecoder {
    pub open spec fn wf(&self) -> bool {
        match self {
            ModuleDecoder::Mdpp { bank, .. } => bank.wf(),
            _ => true,
        }
    }

    pub fn new(family: ModuleFamily, nchannels: u32) -> (r: Self)
        ensures
            r@ == initial_decoder(family, nchannels),
            r.wf(),
    {
        match family {
            ModuleFamily::Mdpp(kind) => {
                ModuleDecoder::Mdpp { kind, nchannels, bank: MDPPBank::new() }
            },
            ModuleFamily::Triplet => ModuleDecoder::Triplet(v1730Bank::new()),
            ModuleFamily::Snapshot => {
                let b = v785Bank::new();
                assert(snapshots(b.hits@) =~= Seq::empty());
                ModuleDecoder::Snapshot(b)
            },
        }
    }

    /// Decodes one sub-bank of this module.
    pub fn parse(&mut self, data: &[u8]) -> (r: Result<(), DecodeError>)
        requires
            old(self).wf(),
        ensures
            final(self).wf(),
            match decoder_step(old(self)@, data@) {
                Ok(d) => r == Ok::<(), DecodeError>(()) && final(self)@ == d,
                Err(e) => r == Err::<(), DecodeError>(e),
            },
    {
        match self {
            ModuleDecoder::Mdpp { kind, nchannels, bank } => bank.parse(*kind, *nchannels, data),
            ModuleDecoder::Triplet(b) => {
                if data.len() % 4 != 0 {
                    return Err(DecodeError::PartialWord);
                }
                b.parse(data);
                Ok(())
            },
            ModuleDecoder::Snapshot(b) => {
                if data.len() % 4 != 0 {
                    return Err(DecodeError::PartialWord);
                }
                if data.len() < 4 * 32 {
                    return Err(DecodeError::ShortSnapshot);
                }
                let ghost before = b.hits@;
                b.parse(data);
                proof {
                    assert(b.hits@ =~= before.push(b.hits@.last()));
                    assert(snapshots(b.hits@) =~= snapshots(before).push(
                        (b.hits@.last().values@, b.hits@.last().evt),
                    ));
                }
                Ok(())
            },
        }
    }

    /// Hands out what the decoder has buffered; an event that is still open
    /// stays when `policy` says so.
    pub fn take_data(&mut self, policy: FlushPolicy) -> (r: Flushed)
        requires
            old(self).wf(),
        ensures
            final(self).wf(),
            match (old(self)@, r) {
                (DecoderView::Mdpp { kind, nchannels, bank }, Flushed::Mdpp(events)) => {
                    &&& events@.map_values(|e: MDPPEvent| e@) == bank.flushed_events(policy)
                    &&& final(self)@ == DecoderView::Mdpp { kind, nchannels, bank: bank.flushed(policy) }
                },
                (DecoderView::Triplet(hits), Flushed::Triplet(out)) => {
                    &&& out@ == hits
                    &&& final(self)@ == DecoderView::Triplet(Seq::empty())
                },
                (DecoderView::Snapshot(hits, next), Flushed::Snapshot(out)) => {
                    &&& snapshots(out@) == hits
                    &&& final(self)@ == DecoderView::Snapshot(Seq::empty(), next)
                },
                _ => false,
            },
    {
        match self {
            ModuleDecoder::Mdpp { bank, .. } => Flushed::Mdpp(bank.take_events(policy)),
            ModuleDecoder::Triplet(b) => Flushed::Triplet(b.take_hits()),
            ModuleDecoder::Snapshot(b) => {
                let out = b.take_hits();
                assert(snapshots(b.hits@) =~= Seq::empty());
                Flushed::Snapshot(out)
            },
        }
    }
}

/// Whether `i` is the first position of `name` in `names`.
pub open spec fn is_first_match(names: Seq<Seq<char>>, name: Seq<char>, i: int) -> bool {
    &&& 0 <= i < names.len()
    &&& names[i] == name
    &&& forall|j: int| 0 <= j < i ==> names[j] != name
}

/// The position of the first configured module named `name`.
pub open spec fn find_module(names: Seq<Seq<char>>, name: Seq<char>) -> Option<int> {
    if exists|i: int| is_first_match(names, name, i) {
        Some(choose|i: int| is_first_match(names, name, i))
    } else {
        None
    }
}

/// The abstract state of the sort engine.
pub struct EngineView {
    pub names: Seq<Seq<char>>,
    pub decoders: Seq<DecoderView>,
    pub scalers: Seq<Seq<u32>>,
    pub frames_since_flush: int,
    pub chunk_size: int,
    pub policy: FlushPolicy,
}

/// The engine after the physics sub-bank `data` named `name`: a one-byte
/// padding marker is skipped, and the others go to the first module of that name.
pub open spec fn route(s: EngineView, name: Seq<char>, data: Seq<u8>) -> Result<EngineView, SortError> {
    if data.len() == 1 {
        Ok(s)
    } else {
        match find_module(s.names, name) {
            None => Err(SortError::UnknownBank),
            Some(i) => match decoder_step(s.decoders[i], data) {
                Ok(d) => Ok(EngineView { decoders: s.decoders.update(i, d), ..s }),
                Err(e) => Err(SortError::Decode(e)),
            },
        }
    }
}

/// Owns one decoder per configured module, in configuration order, and the
/// scaler scans seen so far.
pub struct SortEngine {
    pub names: Vec<String>,
    pub decoders: Vec<ModuleDecoder>,
    pub scalers: Vec<ScalerBank>,
    /// Frames since the last flush.
    pub frames_since_flush: usize,
    /// The number of frames after which the decoders are flushed.
    pub chunk_size: usize,
    pub policy: FlushPolicy,
}

impl View for SortEngine {
    type V = EngineView;

    open spec fn view(&self) -> EngineView {
        EngineView {
            names: self.names@.map_values(|n: String| n@),
            decoders: self.decoders@.map_values(|d: ModuleDecoder| d@),
            scalers: self.scalers@.map_values(|b: ScalerBank| b.data@),
            frames_since_flush: self.frames_since_flush as int,
            chunk_size: self.chunk_size as int,
            policy: self.policy,
        }
    }
}

/// Whether the type of every configured module names a family.
pub open spec fn all_known(config: &Config) -> bool {
    forall|i: int| 0 <= i < config.modules@.len() ==> #[trigger] family_of(config.modules@[i].mod_type@) is Some
}

impl SortEngine {
    pub open spec fn wf(&self) -> bool {
        &&& self.names@.len() == self.decoders@.len()
        &&& forall|i: int| 0 <= i < self.decoders@.len() ==> (#[trigger] self.decoders@[i]).wf()
        &&& self.frames_since_flush <= self.chunk_size
    }

    /// An engine with a fresh decoder for each configured module; fails on the
    /// first module whose type names no family.
    pub fn new(config: &Config, chunk_size: usize, policy: FlushPolicy) -> (r: Result<SortEngine, SortError>)
        ensures
            match r {
                Ok(e) => {
                    &&& all_known(config)
                    &&& e.wf()
                    &&& e@.names == config.modules@.map_values(|m: crate::module_config::Module| m.name@)
                    &&& e@.decoders.len() == config.modules@.len()
                    &&& forall|i: int| 0 <= i < config.modules@.len() ==> #[trigger] e@.decoders[i] == initial_decoder(
                        family_of(config.modules@[i].mod_type@).unwrap(),
                        config.modules@[i].nchannels,
                    )
                    &&& e@.scalers.len() == 0
                    &&& e@.frames_since_flush == 0
                    &&& e@.chunk_size == chunk_size
                    &&& e@.policy == policy
                },
                Err(err) => {
                    &&& !all_known(config)
                    &&& err matches SortError::UnknownModuleType(i) && i < config.modules@.len()
                        && family_of(config.modules@[i as int].mod_type@) is None
                        && forall|j: int| 0 <= j < i ==> #[trigger] family_of(config.modules@[j].mod_type@) is Some
                },
            },
    {
        let mut names: Vec<String> = Vec::new();
        let mut decoders: Vec<ModuleDecoder> = Vec::new();
        let mut i: usize = 0;
        while i < config.modules.len()
            invariant
                i <= config.modules@.len(),
                names@.len() == i,
                decoders@.len() == i,
                forall|j: int| 0 <= j < i ==> #[trigger] family_of(config.modules@[j].mod_type@) is Some,
                forall|j: int| 0 <= j < i ==> #[trigger] names@[j]@ == config.modules@[j].name@,
                forall|j: int| 0 <= j < i ==> #[trigger] decoders@[j]@ == initial_decoder(
                    family_of(config.modules@[j].mod_type@).unwrap(),
                    config.modules@[j].nchannels,
                ),
                forall|j: int| 0 <= j < i ==> (#[trigger] decoders@[j]).wf(),
            decreases config.modules@.len() - i,
        {
            let m = &config.modules[i];
            match m.family() {
                None => {
                    return Err(SortError::UnknownModuleType(i));
                },
                Some(f) => {
                    names.push(m.name.clone());
                    decoders.push(ModuleDecoder::new(f, m.nchannels));
                },
            }
            i += 1;
        }
        let e = SortEngine {
            names,
            decoders,
            scalers: Vec::new(),
            frames_since_flush: 0,
            chunk_size,
            policy,
        };
        assert(e@.names =~= config.modules@.map_values(|m: crate::module_config::Module| m.name@));
        Ok(e)
    }

    /// The position of the first module named `name`.
    fn find(&self, name: &String) -> (r: Option<usize>)
        ensures
            match r {
                Some(i) => find_module(self@.names, name@) == Some(i as int),
                None => find_module(self@.names, name@) is None,
            },
    {
        let ghost names = self@.names;
        let mut i: usize = 0;
        while i < self.names.len()
            invariant
                names == self@.names,
                i <= self.names@.len(),
                forall|j: int| 0 <= j < i ==> names[j] != name@,
            decreases self.names@.len() - i,
        {
            if self.names[i] == *name {
                assert(is_first_match(names, name@, i as int));
                let ghost k = choose|k: int| is_first_match(names, name@, k);
                assert(k == i) by {
                    if k < i {
                        assert(names[k] != name@);
                    } else if k > i {
                        assert(names[i as int] != name@);
                    }
                }
                return Some(i);
            }
            i += 1;
        }
        assert forall|k: int| !is_first_match(names, name@, k) by {
            if 0 <= k < names.len() {
                assert(names[k] != name@);
            }
        }
        None
    }

    /// Routes one sub-bank of a physics frame to the decoder of its module.
    pub fn process_bank(&mut self, name: &String, data: &[u8]) -> (r: Result<(), SortError>)
        requires
            old(self).wf(),
        ensures
            final(self).wf(),
            match route(old(self)@, name@, data@) {
                Ok(t) => r == Ok::<(), SortError>(()) && final(self)@ == t,
                Err(e) => r == Err::<(), SortError>(e),
            },
            r == Err::<(), SortError>(SortError::UnknownBank) ==> final(self)@ == old(self)@,
    {
        if data.len() == 1 {
            // a padding marker
            return Ok(());
        }
        match self.find(name) {
            None => Err(SortError::UnknownBank),
            Some(i) => {
                let ghost before = self@;
                assert(self.decoders@[i as int].wf());
                let res = self.decoders[i].parse(data);
                assert(forall|j: int| 0 <= j < self.decoders@.len() && j != i ==> self.decoders@[j] == old(self).decoders@[j]);
                match res {
                    Ok(()) => {
                        assert(self@.decoders =~= before.decoders.update(i as int, self.decoders@[i as int]@));
                        Ok(())
                    },
                    Err(e) => Err(SortError::Decode(e)),
                }
            },
        }
    }

    /// Appends the scans of one sub-bank of a scaler frame.
    pub fn process_scaler_bank(&mut self, data: &[u8])
        requires
            old(self).wf(),
        ensures
            final(self).wf(),
            final(self)@ == (EngineView { scalers: old(self)@.scalers + scaler_groups(words_of(data@)), ..old(self)@ }),
    {
        let mut scans = ScalerBank::split(data);
        self.scalers.append(&mut scans);
        assert(self@.scalers =~= old(self)@.scalers + scaler_groups(words_of(data@)));
    }

    /// Counts the end of a frame; returns whether the frames since the last
    /// flush now exceed the chunk size, in which case the count starts over
    /// and the caller flushes every module.
    pub fn end_frame(&mut self) -> (flush: bool)
        requires
            old(self).wf(),
        ensures
            final(self).wf(),
            flush == (old(self)@.frames_since_flush + 1 > old(self)@.chunk_size),
            final(self)@ == (EngineView {
                frames_since_flush: if flush {
                    0
                } else {
                    old(self)@.frames_since_flush + 1
                },
                ..old(self)@
            }),
    {
        if self.frames_since_flush >= self.chunk_size {
            self.frames_since_flush = 0;
            true
        } else {
            self.frames_since_flush += 1;
            false
        }
    }

    /// Hands out what the decoder of the `i`-th module has buffered, under the
    /// engine's flush policy.
    pub fn take_module_data(&mut self, i: usize) -> (r: Flushed)
        requires
            old(self).wf(),
            i < old(self).decoders@.len(),
        ensures
            final(self).wf(),
            final(self)@.names == old(self)@.names,
            final(self)@.scalers == old(self)@.scalers,
            final(self)@.frames_since_flush == old(self)@.frames_since_flush,
            final(self)@.decoders.len() == old(self)@.decoders.len(),
            forall|j: int| 0 <= j < old(self)@.decoders.len() && j != i ==> final(self)@.decoders[j] == old(self)@.decoders[j],
            match (old(self)@.decoders[i as int], r) {
                (DecoderView::Mdpp { kind, nchannels, bank }, Flushed::Mdpp(events)) => {
                    &&& events@.map_values(|e: MDPPEvent| e@) == bank.flushed_events(old(self).policy)
                    &&& final(self)@.decoders[i as int] == DecoderView::Mdpp { kind, nchannels, bank: bank.flushed(old(self).policy) }
                },
                (DecoderView::Triplet(hits), Flushed::Triplet(out)) => {
                    &&& out@ == hits
                    &&& final(self)@.decoders[i as int] == DecoderView::Triplet(Seq::empty())
                },
                (DecoderView::Snapshot(hits, next), Flushed::Snapshot(out)) => {
                    &&& snapshots(out@) == hits
                    &&& final(self)@.decoders[i as int] == DecoderView::Snapshot(Seq::empty(), next)
                },
                _ => false,
            },
    {
        let policy = self.policy;
        assert(self.decoders@[i as int].wf());
        let r = self.decoders[i].take_data(policy);
        assert(forall|j: int| 0 <= j < self.decoders@.len() && j != i ==> self.decoders@[j] == old(self).decoders@[j]);
        r
    }

    /// Hands out the scaler scans collected so far.
    pub fn take_scalers(&mut self) -> (r: Vec<ScalerBank>)
        ensures
            r@.map_values(|b: ScalerBank| b.data@) == old(self)@.scalers,
            final(self)@ == (EngineView { scalers: Seq::empty(), ..old(self)@ }),
            old(self).wf() ==> final(self).wf(),
    {
        let mut out: Vec<ScalerBank> = Vec::new();
        std::mem::swap(&mut out, &mut self.scalers);
        assert(self@.scalers =~= Seq::<Seq<u32>>::empty());
        out
    }
}

/// The settings of a run over modules of the stateful family.
pub struct MDPPSort {
    pub filename: String,
    pub scaler_filename: String,
    pub chunk_size: usize,
    pub config: Config,
}

impl MDPPSort {
    pub fn new(filename: String, scaler_filename: String, chunk_size: usize, config: Config) -> (r: Self)
        ensures
            r.filename == filename,
            r.scaler_filename == scaler_filename,
            r.chunk_size == chunk_size,
            r.config == config,
    {
        MDPPSort { filename, scaler_filename, chunk_size, config }
    }
}

/// The settings of a run over snapshot modules.
#[allow(non_camel_case_types)]
pub struct v785Sort {
    pub filename: String,
    pub scaler_filename: String,
    pub chunk_size: usize,
    pub config: Config,
}

impl v785Sort {
    pub fn new(filename: String, scaler_filename: String, chunk_size: usize, config: Config) -> (r: v785Sort)
        ensures
            r.filename == filename,
            r.scaler_filename == scaler_filename,
            r.chunk_size == chunk_size,
            r.config == config,
    {
        v785Sort { filename, scaler_filename, chunk_size, config }
    }
}

} // verus!

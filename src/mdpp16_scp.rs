//! The earlier decoder of 16-channel scp modules: amplitude and time only, no
//! extended timestamps, and no recovery from a missing end word.
use vstd::prelude::*;

use crate::bitmasks::{word_at, words_of, EIGHT_BIT, FIVE_BIT, ONE_BIT, SIXTEEN_BIT, TEN_BIT,
    THIRTY_BIT, THREE_BIT, TWO_BIT};
use crate::error::DecodeError;

verus! {

/// The amplitude and time of one channel within one event.
#[derive(Clone, Copy, Debug)]
pub struct MDPPHit {
    pub adc_value: u32,
    pub tdc_value: u32,
    pub pile_up: bool,
    pub overflow: bool,
    pub tdc_filled: bool,
    pub adc_filled: bool,
}

/// `h` after an amplitude arrived; the first one is kept.
pub open spec fn with_adc(h: MDPPHit, adc_value: u32, pile_up: bool, overflow: bool) -> MDPPHit {
    if h.adc_filled {
        h
    } else {
        MDPPHit { adc_value, pile_up, overflow, adc_filled: true, ..h }
    }
}

/// `h` after a time arrived; the first one is kept.
pub open spec fn with_tdc(h: MDPPHit, tdc_value: u32) -> MDPPHit {
    if h.tdc_filled {
        h
    } else {
        MDPPHit { tdc_value, tdc_filled: true, ..h }
    }
}

pub open spec fn blank_hit() -> MDPPHit {
    MDPPHit {
        adc_value: 0,
        tdc_value: 0,
        pile_up: false,
        overflow: false,
        tdc_filled: false,
        adc_filled: false,
    }
}

impl MDPPHit {
    pub fn new() -> (r: Self)
        ensures
            r == blank_hit(),
    {
        MDPPHit {
            adc_value: 0,
            adc_filled: false,
            tdc_value: 0,
            tdc_filled: false,
            pile_up: false,
            overflow: false,
        }
    }

    pub fn set_adc(&mut self, adc_value: u32, pile_up: bool, overflow: bool) -> (already_filled: bool)
        ensures
            already_filled == old(self).adc_filled,
            *final(self) == with_adc(*old(self), adc_value, pile_up, overflow),
    {
        let mut already_filled = false;
        if !self.adc_filled {
            self.adc_value = adc_value;
            self.pile_up = pile_up;
            self.overflow = overflow;
            self.adc_filled = true;
        } else {
            already_filled = true;
        }
        already_filled
    }

    pub fn set_tdc(&mut self, tdc_value: u32) -> (already_filled: bool)
        ensures
            already_filled == old(self).tdc_filled,
            *final(self) == with_tdc(*old(self), tdc_value),
    {
        let mut already_filled = false;
        if !self.tdc_filled {
            self.tdc_value = tdc_value;
            self.tdc_filled = true;
        } else {
            already_filled = true;
        }
        already_filled
    }
}

/// The abstract content of an event.
pub struct EventView {
    pub module_id: u32,
    pub nwords: u32,
    pub event_num: u32,
    pub channels: Seq<u32>,
    pub hits: Seq<MDPPHit>,
}

pub open spec fn opened_event(module_id: u32, nwords: u32) -> EventView {
    EventView { module_id, nwords, event_num: 0, channels: Seq::empty(), hits: Seq::empty() }
}

impl EventView {
    pub open spec fn wf(self) -> bool {
        &&& self.channels.len() == self.hits.len()
        &&& self.channels.no_duplicates()
    }

    /// The event after the hit of `channel` was changed by `f`; a channel seen
    /// for the first time gets a blank hit at the end first.
    pub open spec fn update_hit(self, channel: u32, f: spec_fn(MDPPHit) -> MDPPHit) -> EventView {
        if self.channels.contains(channel) {
            let i = self.channels.index_of(channel);
            EventView { hits: self.hits.update(i, f(self.hits[i])), ..self }
        } else {
            EventView {
                channels: self.channels.push(channel),
                hits: self.hits.push(f(blank_hit())),
                ..self
            }
        }
    }

    pub open spec fn add_adc(self, channel: u32, adc_value: u32, pile_up: bool, overflow: bool) -> EventView {
        self.update_hit(channel, |h: MDPPHit| with_adc(h, adc_value, pile_up, overflow))
    }

    pub open spec fn add_tdc(self, channel: u32, tdc_value: u32) -> EventView {
        self.update_hit(channel, |h: MDPPHit| with_tdc(h, tdc_value))
    }
}

/// One event of a 16-channel scp module.
pub struct MDPPEvent {
    pub module_id: u32,
    pub nwords: u32,
    pub event_num: u32,
    pub channels: Vec<u32>,
    pub channel_hits: Vec<MDPPHit>,
}

impl View for MDPPEvent {
    type V = EventView;

    open spec fn view(&self) -> EventView {
        EventView {
            module_id: self.module_id,
            nwords: self.nwords,
            event_num: self.event_num,
            channels: self.channels@,
            hits: self.channel_hits@,
        }
    }
}

impl MDPPEvent {
    pub fn new(module_id: u32, nwords: u32) -> (r: Self)
        ensures
            r@ == opened_event(module_id, nwords),
    {
        MDPPEvent {
            module_id,
            nwords,
            event_num: 0,
            channels: Vec::with_capacity(16),
            channel_hits: Vec::with_capacity(16),
        }
    }

    fn find_channel(&self, channel: u32) -> (r: Option<usize>)
        requires
            self@.wf(),
        ensures
            match r {
                Some(i) => self@.channels.contains(channel) && i as int == self@.channels.index_of(
                    channel,
                ),
                None => !self@.channels.contains(channel),
            },
    {
        let mut i: usize = 0;
        while i < self.channels.len()
            invariant
                self@.wf(),
                i <= self.channels@.len(),
                forall|j: int| 0 <= j < i ==> self.channels@[j] != channel,
            decreases self.channels@.len() - i,
        {
            if self.channels[i] == channel {
                assert(self@.channels.contains(channel));
                let ghost k = self@.channels.index_of(channel);
                assert(0 <= k < self.channels@.len() && self.channels@[k] == channel);
                assert(self.channels@[i as int] == channel);
                return Some(i);
            }
            i += 1;
        }
        None
    }

    pub fn add_adc(&mut self, channel: u32, adc_value: u32, pile_up: bool, overflow: bool)
        requires
            old(self)@.wf(),
        ensures
            final(self)@ == old(self)@.add_adc(channel, adc_value, pile_up, overflow),
            final(self)@.wf(),
    {
        match self.find_channel(channel) {
            Some(i) => {
                let mut h = self.channel_hits[i];
                let _ = h.set_adc(adc_value, pile_up, overflow);
                self.channel_hits.set(i, h);
            },
            None => {
                self.channels.push(channel);
                let mut h = MDPPHit::new();
                let _ = h.set_adc(adc_value, pile_up, overflow);
                self.channel_hits.push(h);
            },
        }
        assert(final(self)@.channels =~= self@.channels);
    }

    pub fn add_tdc(&mut self, channel: u32, tdc_value: u32)
        requires
            old(self)@.wf(),
        ensures
            final(self)@ == old(self)@.add_tdc(channel, tdc_value),
            final(self)@.wf(),
    {
        match self.find_channel(channel) {
            Some(i) => {
                let mut h = self.channel_hits[i];
                let _ = h.set_tdc(tdc_value);
                self.channel_hits.set(i, h);
            },
            None => {
                self.channels.push(channel);
                let mut h = MDPPHit::new();
                let _ = h.set_tdc(tdc_value);
                self.channel_hits.push(h);
            },
        }
        assert(final(self)@.channels =~= self@.channels);
    }

    pub fn end_event(&mut self, event_num: u32)
        ensures
            final(self)@ == (EventView { event_num, ..old(self)@ }),
    {
        self.event_num = event_num;
    }
}

/// The abstract state of the decoder.
pub struct BankView {
    pub events: Seq<EventView>,
    pub current_event: int,
}

impl BankView {
    pub open spec fn wf(self) -> bool {
        &&& 0 <= self.current_event <= self.events.len()
        &&& forall|i: int| 0 <= i < self.events.len() ==> (#[trigger] self.events[i]).wf()
    }

    /// After `f` changed the event at the cursor.
    pub open spec fn at_cursor(self, f: spec_fn(EventView) -> EventView) -> Result<BankView, DecodeError> {
        if self.current_event < self.events.len() {
            Ok(
                BankView {
                    events: self.events.update(self.current_event, f(self.events[self.current_event])),
                    ..self
                },
            )
        } else {
            Err(DecodeError::NoOpenEvent)
        }
    }
}

/// The state after a payload word: channels 16 to 31 carry times of
/// channels 0 to 15, the others amplitudes with pile-up and overflow flags.
pub open spec fn data_step(s: BankView, w: u32) -> Result<BankView, DecodeError> {
    let channel = (w >> 16u32) & FIVE_BIT;
    let value = w & SIXTEEN_BIT;
    if channel > 15 {
        s.at_cursor(|e: EventView| e.add_tdc((channel - 16) as u32, value))
    } else {
        let pile_up = (w >> 23u32) & ONE_BIT != 0;
        let overflow = (w >> 22u32) & ONE_BIT != 0;
        s.at_cursor(|e: EventView| e.add_adc(channel, value, pile_up, overflow))
    }
}

/// The state after one word.
pub open spec fn step(s: BankView, w: u32) -> Result<BankView, DecodeError> {
    let sig = (w >> 30u32) & TWO_BIT;
    if sig == 0 {
        let sub = (w >> 28u32) & THREE_BIT;
        if sub == 0 {
            Ok(s)
        } else if sub == 1 {
            data_step(s, w)
        } else {
            Err(DecodeError::InvalidSubheader)
        }
    } else if sig == 1 {
        Ok(
            BankView {
                events: s.events.push(opened_event((w >> 16u32) & EIGHT_BIT, TEN_BIT)),
                ..s
            },
        )
    } else if sig == 3 {
        match s.at_cursor(|e: EventView| EventView { event_num: w & THIRTY_BIT, ..e }) {
            Ok(t) => Ok(BankView { current_event: s.current_event + 1, ..t }),
            Err(e) => Err(e),
        }
    } else {
        Err(DecodeError::InvalidSignature)
    }
}

/// The state after the words `ws`, or the first fault among them.
pub open spec fn run(s: BankView, ws: Seq<u32>) -> Result<BankView, DecodeError>
    decreases ws.len(),
{
    if ws.len() == 0 {
        Ok(s)
    } else {
        match run(s, ws.drop_last()) {
            Ok(t) => step(t, ws.last()),
            Err(e) => Err(e),
        }
    }
}

proof fn lemma_run_fault_stays(s: BankView, ws: Seq<u32>, i: int, e: DecodeError)
    requires
        0 <= i <= ws.len(),
        run(s, ws.take(i)) == Err::<BankView, DecodeError>(e),
    ensures
        run(s, ws) == Err::<BankView, DecodeError>(e),
    decreases ws.len() - i,
{
    if i < ws.len() {
        assert(ws.take(i + 1).drop_last() =~= ws.take(i));
        lemma_run_fault_stays(s, ws, i + 1, e);
    } else {
        assert(ws.take(i) =~= ws);
    }
}

/// The decoder of one 16-channel scp module.
pub struct MDPPBank {
    pub events: Vec<MDPPEvent>,
    /// The position of the event being filled.
    pub current_event: usize,
    /// The number of events the buffer is sized for.
    pub chunk_size: usize,
    /// Whether the output of this decoder has been started.
    pub file_created: bool,
}

impl View for MDPPBank {
    type V = BankView;

    open spec fn view(&self) -> BankView {
        BankView {
            events: self.events@.map_values(|e: MDPPEvent| e@),
            current_event: self.current_event as int,
        }
    }
}

impl MDPPBank {
    pub open spec fn wf(&self) -> bool {
        self@.wf()
    }

    pub fn new(chunk_size: usize) -> (r: Self)
        ensures
            r@.events.len() == 0,
            r@.current_event == 0,
            r.chunk_size == chunk_size,
            !r.file_created,
            r.wf(),
    {
        MDPPBank {
            events: Vec::new(),
            current_event: 0,
            chunk_size,
            file_created: false,
        }
    }

    /// Decodes one sub-bank word by word, up to the first fault.
    pub fn parse(&mut self, bank: &[u8]) -> (r: Result<(), DecodeError>)
        requires
            old(self).wf(),
        ensures
            final(self).wf(),
            bank@.len() % 4 != 0 ==> r == Err::<(), DecodeError>(DecodeError::PartialWord)
                && final(self)@ == old(self)@,
            bank@.len() % 4 == 0 ==> match run(old(self)@, words_of(bank@)) {
                Ok(t) => r == Ok::<(), DecodeError>(()) && final(self)@ == t,
                Err(e) => r == Err::<(), DecodeError>(e),
            },
    {
        if bank.len() % 4 != 0 {
            return Err(DecodeError::PartialWord);
        }
        let ghost words = words_of(bank@);
        let n = bank.len() / 4;
        let mut i: usize = 0;
        while i < n
            invariant
                n == words.len(),
                words == words_of(bank@),
                bank@.len() % 4 == 0,
                i <= n,
                self.wf(),
                run(old(self)@, words.take(i as int)) == Ok::<BankView, DecodeError>(self@),
            decreases n - i,
        {
            let word = word_at(bank, i);
            assert(words.take(i + 1).drop_last() =~= words.take(i as int));
            assert(words.take(i + 1).last() == word);
            let data_sig = word >> 30 & TWO_BIT;
            let res = if data_sig == 0 {
                self.parse_data(word)
            } else if data_sig == 1 {
                self.parse_header(word);
                Ok(())
            } else if data_sig == 3 {
                self.parse_end_event(word)
            } else {
                Err(DecodeError::InvalidSignature)
            };
            if let Err(e) = res {
                proof {
                    lemma_run_fault_stays(old(self)@, words, i + 1, e);
                }
                return Err(e);
            }
            i += 1;
        }
        assert(words.take(n as int) =~= words);
        Ok(())
    }

    fn parse_header(&mut self, header: u32)
        requires
            old(self).wf(),
            (header >> 30u32) & TWO_BIT == 1,
        ensures
            final(self).wf(),
            step(old(self)@, header) == Ok::<BankView, DecodeError>(final(self)@),
    {
        let module_id: u32 = header >> 16 & EIGHT_BIT;
        let nwords: u32 = TEN_BIT;
        self.events.push(MDPPEvent::new(module_id, nwords));
        assert(self@.events =~= old(self)@.events.push(opened_event(module_id, nwords)));
    }

    fn parse_end_event(&mut self, end_event: u32) -> (r: Result<(), DecodeError>)
        requires
            old(self).wf(),
            (end_event >> 30u32) & TWO_BIT == 3,
        ensures
            final(self).wf(),
            match step(old(self)@, end_event) {
                Ok(t) => r == Ok::<(), DecodeError>(()) && final(self)@ == t,
                Err(e) => r == Err::<(), DecodeError>(e),
            },
    {
        let event_num = end_event & THIRTY_BIT;
        if self.current_event >= self.events.len() {
            return Err(DecodeError::NoOpenEvent);
        }
        let ghost before = self@;
        let cur = self.current_event;
        self.events[cur].end_event(event_num);
        self.current_event += 1;
        assert(self@.events =~= before.events.update(cur as int, EventView { event_num, ..before.events[cur as int] }));
        Ok(())
    }

    /// Tells payload words from filler.
    fn parse_data(&mut self, data: u32) -> (r: Result<(), DecodeError>)
        requires
            old(self).wf(),
            (data >> 30u32) & TWO_BIT == 0,
        ensures
            final(self).wf(),
            match step(old(self)@, data) {
                Ok(t) => r == Ok::<(), DecodeError>(()) && final(self)@ == t,
                Err(e) => r == Err::<(), DecodeError>(e),
            },
    {
        let subheader = data >> 28 & THREE_BIT;
        if subheader == 0 {
            // filler
            Ok(())
        } else if subheader == 1 {
            self.push_data(data)
        } else {
            Err(DecodeError::InvalidSubheader)
        }
    }

    fn push_data(&mut self, data: u32) -> (r: Result<(), DecodeError>)
        requires
            old(self).wf(),
        ensures
            final(self).wf(),
            match data_step(old(self)@, data) {
                Ok(t) => r == Ok::<(), DecodeError>(()) && final(self)@ == t,
                Err(e) => r == Err::<(), DecodeError>(e),
            },
    {
        if self.current_event >= self.events.len() {
            return Err(DecodeError::NoOpenEvent);
        }
        let ghost before = self@;
        let cur = self.current_event;
        assert(before.events[cur as int].wf());
        let mut channel = data >> 16 & FIVE_BIT;
        let value = data & SIXTEEN_BIT;
        if channel > 15 {
            // a time
            channel -= 16;
            self.events[cur].add_tdc(channel, value);
            assert(self@.events =~= before.events.update(cur as int, before.events[cur as int].add_tdc(channel, value)));
        } else {
            let pile_up = (data >> 23 & ONE_BIT) != 0;
            let overflow = (data >> 22 & ONE_BIT) != 0;
            self.events[cur].add_adc(channel, value, pile_up, overflow);
            assert(self@.events =~= before.events.update(
                cur as int,
                before.events[cur as int].add_adc(channel, value, pile_up, overflow),
            ));
        }
        Ok(())
    }

    /// Drops every buffered event and points the cursor at the start again.
    pub fn clear_data(&mut self)
        ensures
            final(self)@.events.len() == 0,
            final(self)@.current_event == 0,
            final(self).chunk_size == old(self).chunk_size,
            final(self).file_created == old(self).file_created,
            final(self).wf(),
    {
        self.current_event = 0;
        self.events = Vec::with_capacity(self.chunk_size);
    }
}

} // verus!

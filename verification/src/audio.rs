//! Voice bookkeeping of the sound mixer: a fixed set of slots, each
//! playing one buffer of samples from a cursor. Starting a sound reuses a
//! finished slot, or evicts the oldest voice; every output frame takes the
//! next sample of each playing voice. The sample type is left open: the
//! mixer only moves samples, the caller sums them.

use vstd::prelude::*;

verus! {

/// Number of voice slots.
pub const MAX_VOICES: usize = 16;

/// One slot: the buffer it plays, the next sample to play, and the order
/// in which it was started (the lowest is evicted first).
pub struct Voice<T> {
    samples: Vec<T>,
    cursor: usize,
    stamp: u64,
}

/// A voice as `(samples, cursor, stamp)`.
pub type VoiceView<T> = (Seq<T>, int, int);

/// Whether a voice has played its whole buffer.
pub open spec fn voice_done<T>(v: VoiceView<T>) -> bool {
    v.1 >= v.0.len()
}

/// The first finished slot at or after `i`.
pub open spec fn first_done_from<T>(voices: Seq<VoiceView<T>>, i: int) -> Option<int>
    decreases voices.len() - i,
{
    if i < 0 || i >= voices.len() {
        None
    } else if voice_done(voices[i]) {
        Some(i)
    } else {
        first_done_from(voices, i + 1)
    }
}

/// The slot with the lowest stamp among the first `n`, the earliest on ties.
pub open spec fn oldest_of<T>(voices: Seq<VoiceView<T>>, n: int) -> int
    decreases n,
{
    if n <= 1 {
        0
    } else {
        let best = oldest_of(voices, n - 1);
        if voices[n - 1].2 < voices[best].2 {
            n - 1
        } else {
            best
        }
    }
}

/// The slot a new sound takes: the first finished one, else the oldest.
pub open spec fn add_slot<T>(voices: Seq<VoiceView<T>>) -> int {
    match first_done_from(voices, 0) {
        Some(i) => i,
        None => oldest_of(voices, voices.len() as int),
    }
}

/// The samples one output frame takes from the first `n` voices: the next
/// sample of each voice still playing, in slot order.
pub open spec fn frame_samples<T>(voices: Seq<VoiceView<T>>, n: int) -> Seq<T>
    decreases n,
{
    if n <= 0 {
        Seq::empty()
    } else {
        let before = frame_samples(voices, n - 1);
        let v = voices[n - 1];
        if voice_done(v) {
            before
        } else {
            before.push(v.0[v.1])
        }
    }
}

/// A new sound takes a finished slot whenever there is one: the first.
pub proof fn law_add_reuses_a_finished_slot<T>(voices: Seq<VoiceView<T>>, i: int)
    requires
        0 <= i < voices.len(),
        voice_done(voices[i]),
    ensures
        0 <= add_slot(voices) <= i,
        voice_done(voices[add_slot(voices)]),
        forall|j: int| 0 <= j < add_slot(voices) ==> !voice_done(#[trigger] voices[j]),
{
    lemma_first_done_from(voices, 0, i);
}

proof fn lemma_first_done_from<T>(voices: Seq<VoiceView<T>>, k: int, i: int)
    requires
        0 <= k <= i < voices.len(),
        voice_done(voices[i]),
        forall|j: int| 0 <= j < k ==> !voice_done(#[trigger] voices[j]),
    ensures
        first_done_from(voices, k) matches Some(s) && s == add_slot(voices) && 0 <= s <= i
            && voice_done(voices[s]) && forall|j: int| 0 <= j < s ==> !voice_done(#[trigger] voices[j]),
    decreases i - k,
{
    lemma_first_done_none_before(voices, k);
    if !voice_done(voices[k]) {
        lemma_first_done_from(voices, k + 1, i);
    }
}

proof fn lemma_first_done_none_before<T>(voices: Seq<VoiceView<T>>, k: int)
    requires
        0 <= k <= voices.len(),
        forall|j: int| 0 <= j < k ==> !voice_done(#[trigger] voices[j]),
    ensures
        first_done_from(voices, 0) == first_done_from(voices, k),
    decreases k,
{
    if k > 0 {
        lemma_first_done_none_before(voices, k - 1);
    }
}

/// With every slot still playing, a new sound evicts a voice started
/// no later than any other.
pub proof fn law_eviction_takes_the_oldest<T>(voices: Seq<VoiceView<T>>)
    requires
        voices.len() >= 1,
        forall|j: int| 0 <= j < voices.len() ==> !voice_done(#[trigger] voices[j]),
    ensures
        add_slot(voices) == oldest_of(voices, voices.len() as int),
        0 <= add_slot(voices) < voices.len(),
        forall|j: int| 0 <= j < voices.len() ==> voices[add_slot(voices)].2 <= (#[trigger] voices[j]).2,
{
    lemma_no_done(voices, 0);
    lemma_oldest_in_range(voices, voices.len() as int);
    lemma_oldest_is_lowest(voices, voices.len() as int);
}

proof fn lemma_no_done<T>(voices: Seq<VoiceView<T>>, k: int)
    requires
        0 <= k <= voices.len(),
        forall|j: int| 0 <= j < voices.len() ==> !voice_done(#[trigger] voices[j]),
    ensures
        first_done_from(voices, k) is None,
    decreases voices.len() - k,
{
    if k < voices.len() {
        lemma_no_done(voices, k + 1);
    }
}

proof fn lemma_oldest_is_lowest<T>(voices: Seq<VoiceView<T>>, n: int)
    requires
        1 <= n <= voices.len(),
    ensures
        forall|j: int| 0 <= j < n ==> voices[oldest_of(voices, n)].2 <= (#[trigger] voices[j]).2,
    decreases n,
{
    if n > 1 {
        lemma_oldest_is_lowest(voices, n - 1);
        lemma_oldest_in_range(voices, n - 1);
    }
}

/// The oldest of the first `n` slots is one of them.
proof fn lemma_oldest_in_range<T>(voices: Seq<VoiceView<T>>, n: int)
    requires
        n >= 1,
    ensures
        0 <= oldest_of(voices, n) < n,
    decreases n,
{
    if n > 1 {
        lemma_oldest_in_range(voices, n - 1);
    }
}

/// How many of the first `n` voices are still playing.
pub open spec fn live_count<T>(voices: Seq<VoiceView<T>>, n: int) -> int
    decreases n,
{
    if n <= 0 {
        0
    } else {
        live_count(voices, n - 1) + if voice_done(voices[n - 1]) {
            0int
        } else {
            1int
        }
    }
}

/// Voice `v` after one output frame: one sample further, if still playing.
pub open spec fn advanced<T>(v: VoiceView<T>) -> VoiceView<T> {
    if voice_done(v) {
        v
    } else {
        (v.0, v.1 + 1, v.2)
    }
}

/// The fixed set of voices the output callback owns. Buffers are swapped
/// in and out of slots, never allocated or freed here.
pub struct Mixer<T> {
    voices: Vec<Voice<T>>,
    started: u64,
}

impl<T> Mixer<T> {
    /// The voices, slot by slot.
    pub closed spec fn voices(&self) -> Seq<VoiceView<T>> {
        self.voices@.map_values(|v: Voice<T>| (v.samples@, v.cursor as int, v.stamp as int))
    }

    /// How many sounds were started so far.
    pub closed spec fn started(&self) -> int {
        self.started as int
    }

    /// There is one voice per slot and no voice is stamped after the
    /// latest start.
    pub closed spec fn wf(&self) -> bool {
        &&& self.voices@.len() == MAX_VOICES
        &&& forall|i: int| 0 <= i < MAX_VOICES ==> #[trigger] self.voices@[i].stamp <= self.started
    }

    /// A mixer with every slot finished and empty.
    pub fn new() -> (r: Self)
        ensures
            r.wf(),
            r.started() == 0,
            forall|i: int| 0 <= i < MAX_VOICES ==> #[trigger] r.voices()[i] == (Seq::<T>::empty(), 0int, 0int),
    {
        let mut voices: Vec<Voice<T>> = Vec::new();
        let mut i: usize = 0;
        while i < MAX_VOICES
            invariant
                i <= MAX_VOICES,
                voices@.len() == i,
                forall|j: int| 0 <= j < i ==> (#[trigger] voices@[j]).samples@ == Seq::<T>::empty()
                    && voices@[j].cursor == 0 && voices@[j].stamp == 0,
            decreases MAX_VOICES - i,
        {
            voices.push(Voice { samples: Vec::new(), cursor: 0, stamp: 0 });
            i = i + 1;
        }
        Mixer { voices, started: 0 }
    }

    /// Whether slot `i` has played its whole buffer.
    pub fn done(&self, i: usize) -> (r: bool)
        requires
            self.wf(),
            i < MAX_VOICES,
        ensures
            r == voice_done(self.voices()[i as int]),
    {
        self.voices[i].cursor >= self.voices[i].samples.len()
    }

    /// The buffer slot `i` plays.
    pub fn samples(&self, i: usize) -> (r: &[T])
        requires
            self.wf(),
            i < MAX_VOICES,
        ensures
            r@ == self.voices()[i as int].0,
    {
        self.voices[i].samples.as_slice()
    }

    /// The next sample slot `i` plays.
    pub fn cursor(&self, i: usize) -> (r: usize)
        requires
            self.wf(),
            i < MAX_VOICES,
        ensures
            r == self.voices()[i as int].1,
    {
        self.voices[i].cursor
    }

    /// Number of voices still playing.
    pub fn live(&self) -> (r: usize)
        requires
            self.wf(),
        ensures
            r == live_count(self.voices(), MAX_VOICES as int),
    {
        let mut n: usize = 0;
        let mut i: usize = 0;
        while i < MAX_VOICES
            invariant
                self.wf(),
                i <= MAX_VOICES,
                n <= i,
                n == live_count(self.voices(), i as int),
            decreases MAX_VOICES - i,
        {
            if self.voices[i].cursor < self.voices[i].samples.len() {
                n = n + 1;
            }
            i = i + 1;
        }
        n
    }

    /// Starts `samples` in the first finished slot, or the slot holding
    /// the oldest voice, and hands back the buffer it displaced for the
    /// caller to free off the audio thread.
    pub fn add(&mut self, samples: Vec<T>) -> (r: Vec<T>)
        requires
            old(self).wf(),
            old(self).started() < u64::MAX,
        ensures
            final(self).wf(),
            final(self).started() == old(self).started() + 1,
            0 <= add_slot(old(self).voices()) < MAX_VOICES,
            final(self).voices() == old(self).voices().update(
                add_slot(old(self).voices()),
                (samples@, 0int, old(self).started() + 1),
            ),
            r@ == old(self).voices()[add_slot(old(self).voices())].0,
    {
        let mut slot: usize = MAX_VOICES;
        let mut i: usize = 0;
        while i < MAX_VOICES
            invariant_except_break
                slot == MAX_VOICES,
                first_done_from(self.voices(), 0) == first_done_from(self.voices(), i as int),
            invariant
                self.wf(),
                i <= MAX_VOICES,
            ensures
                slot < MAX_VOICES ==> first_done_from(self.voices(), 0) == Some(slot as int),
                slot == MAX_VOICES ==> first_done_from(self.voices(), 0) is None,
                slot <= MAX_VOICES,
            decreases MAX_VOICES - i,
        {
            if self.done(i) {
                slot = i;
                break;
            }
            i = i + 1;
        }
        if slot == MAX_VOICES {
            slot = self.oldest();
            proof {
                lemma_oldest_in_range(self.voices(), MAX_VOICES as int);
            }
        }
        assert(slot == add_slot(self.voices()));
        let stamp = self.started + 1;
        self.started = stamp;
        let mut buf = samples;
        let ghost before = self.voices@;
        let voice = &mut self.voices[slot];
        voice.cursor = 0;
        voice.stamp = stamp;
        std::mem::swap(&mut voice.samples, &mut buf);
        proof {
            assert(self.voices@ == before.update(slot as int, self.voices@[slot as int]));
            assert(self.voices() =~= old(self).voices().update(slot as int, (samples@, 0int, old(self).started() + 1)));
        }
        buf
    }

    /// Takes the next sample of every playing voice, in slot order, into
    /// `out` (cleared first), and moves those voices one sample on.
    pub fn next_frame(&mut self, out: &mut Vec<T>)
        where
            T: Copy,
        requires
            old(self).wf(),
        ensures
            final(self).wf(),
            final(self).started() == old(self).started(),
            final(out)@ == frame_samples(old(self).voices(), MAX_VOICES as int),
            final(self).voices() == old(self).voices().map_values(|v: VoiceView<T>| advanced(v)),
    {
        out.clear();
        let mut i: usize = 0;
        while i < MAX_VOICES
            invariant
                self.wf(),
                self.started() == old(self).started(),
                i <= MAX_VOICES,
                out@ == frame_samples(old(self).voices(), i as int),
                forall|j: int| 0 <= j < i ==> #[trigger] self.voices()[j] == advanced(old(self).voices()[j]),
                forall|j: int| i <= j < MAX_VOICES ==> #[trigger] self.voices()[j] == old(self).voices()[j],
            decreases MAX_VOICES - i,
        {
            let ghost vi = self.voices()[i as int];
            let ghost view_before = self.voices();
            assert(vi == old(self).voices()[i as int]);
            let cursor = self.voices[i].cursor;
            if cursor < self.voices[i].samples.len() {
                let sample = self.voices[i].samples[cursor];
                out.push(sample);
                let ghost before = self.voices@;
                let voice = &mut self.voices[i];
                voice.cursor = cursor + 1;
                proof {
                    assert(self.voices@ == before.update(i as int, self.voices@[i as int]));
                    assert(self.voices()[i as int] == advanced(vi));
                    assert forall|j: int| 0 <= j < MAX_VOICES && j != i implies #[trigger] self.voices()[j] == view_before[j] by {
                        assert(self.voices@[j] == before[j]);
                    }
                }
            }
            assert(out@ =~= frame_samples(old(self).voices(), i as int + 1));
            i = i + 1;
        }
        assert(self.voices() =~= old(self).voices().map_values(|v: VoiceView<T>| advanced(v)));
    }

    /// The slot holding the oldest voice: the lowest stamp, the earliest
    /// slot on ties.
    pub fn oldest(&self) -> (r: usize)
        requires
            self.wf(),
        ensures
            r == oldest_of(self.voices(), MAX_VOICES as int),
            r < MAX_VOICES,
    {
        let mut best: usize = 0;
        let mut i: usize = 0;
        while i < MAX_VOICES
            invariant
                self.wf(),
                i <= MAX_VOICES,
                best < MAX_VOICES,
                best == oldest_of(self.voices(), if i == 0 { 1 } else { i as int }),
            decreases MAX_VOICES - i,
        {
            if self.voices[i].stamp < self.voices[best].stamp {
                best = i;
            }
            i = i + 1;
        }
        best
    }
}

} // verus!

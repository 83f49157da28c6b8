//! Siren, the voice channel: sentences for speech synthesis, the framing of
//! incoming audio, voice activity tracking, and the events sent back.
use vstd::prelude::*;
use crate::scheduler::{ProcessState, PCB};
use crate::server::{hex_digit, refuse, CitadelAuth, RpcCode, RpcStatus};
use crate::text::{
    byte_len, chars_contain, chars_of, concat2, contains, owned, string_from_chars, trim_chars,
    trimmed, is_white_space, lemma_trimmed_shape,
};

verus! {

// ---------------------------------------------------------------------------
// Sentences for speech synthesis
// ---------------------------------------------------------------------------

/// A token that ends a sentence holds `.`, `?`, `!` or a line break.
pub open spec fn ends_sentence(token: Seq<char>) -> bool {
    token.contains('.') || token.contains('?') || token.contains('!') || token.contains('\n')
}

fn has_char(s: &[char], c: char) -> (b: bool)
    ensures
        b == s@.contains(c),
{
    let mut i: usize = 0;
    while i < s.len()
        invariant
            i <= s@.len(),
            forall|j: int| 0 <= j < i ==> s@[j] != c,
        decreases s@.len() - i,
    {
        if s[i] == c {
            assert(s@[i as int] == c);
            return true;
        }
        i = i + 1;
    }
    false
}

/// Gathers generated tokens into whole sentences for the voice.
pub struct SentenceAccumulator {
    buffer: String,
}

impl View for SentenceAccumulator {
    type V = Seq<char>;

    closed spec fn view(&self) -> Seq<char> {
        self.buffer@
    }
}

/// A finished sentence: the trimmed text, when there is any.
pub open spec fn sentence_of(text: Seq<char>) -> Option<Seq<char>> {
    if trimmed(text).len() > 0 {
        Some(trimmed(text))
    } else {
        None
    }
}

impl SentenceAccumulator {
    pub fn new() -> (a: SentenceAccumulator)
        ensures
            a@.len() == 0,
    {
        SentenceAccumulator { buffer: String::new() }
    }

    /// Adds a token. When it ends a sentence, the accumulated text is handed
    /// out, trimmed (unless it is blank), and the accumulator starts afresh.
    pub fn push_token(&mut self, token: &str) -> (r: Option<String>)
        ensures
            ends_sentence(token@) ==> final(self)@.len() == 0 && match sentence_of(old(self)@ + token@) {
                Some(s) => r matches Some(t) && t@ == s,
                None => r is None,
            },
            !ends_sentence(token@) ==> final(self)@ == old(self)@ + token@ && r is None,
            token@.contains('!') || token@.contains('.') || token@.contains('?') || token@.contains('\n')
                ==> final(self)@.len() == 0,
    {
        self.buffer.append(token);
        let t = chars_of(token);
        if has_char(&t, '.') || has_char(&t, '?') || has_char(&t, '!') || has_char(&t, '\n') {
            let r = self.take_sentence();
            r
        } else {
            None
        }
    }

    fn take_sentence(&mut self) -> (r: Option<String>)
        ensures
            final(self)@.len() == 0,
            match sentence_of(old(self)@) {
                Some(s) => r matches Some(t) && t@ == s,
                None => r is None,
            },
    {
        let all = chars_of(self.buffer.as_str());
        let s = trim_chars(&all);
        self.buffer = String::new();
        if s.len() > 0 {
            Some(string_from_chars(&s))
        } else {
            None
        }
    }

    /// Hands out what is left at the end of a stream.
    pub fn flush(&mut self) -> (r: Option<String>)
        ensures
            final(self)@.len() == 0,
            match sentence_of(old(self)@) {
                Some(s) => r matches Some(t) && t@ == s,
                None => r is None,
            },
    {
        self.take_sentence()
    }
}

/// A sentence ends at a token holding a full stop, a question mark, an
/// exclamation mark or a line break, wherever in the token it stands; any
/// other token goes on with the sentence. What is then handed out is the
/// whole text gathered so far with the token, trimmed: it is never blank,
/// begins and ends with a visible character, and is a piece of that text.
pub proof fn law_sentence_ends_at_punctuation(buffer: Seq<char>, token: Seq<char>, i: int)
    requires
        0 <= i < token.len(),
    ensures
        token[i] == '!' ==> ends_sentence(token),
        token[i] == '.' ==> ends_sentence(token),
        token[i] == '?' ==> ends_sentence(token),
        token[i] == '\n' ==> ends_sentence(token),
        (forall|k: int| 0 <= k < token.len() ==> token[k] != '!' && token[k] != '.' && token[k] != '?'
            && token[k] != '\n') ==> !ends_sentence(token),
        sentence_of(buffer + token) matches Some(s) ==> s.len() > 0 && !is_white_space(s[0])
            && !is_white_space(s.last()) && exists|a: int, b: int|
            0 <= a <= b <= (buffer + token).len() && s == (buffer + token).subrange(a, b),
{
    assert(token[i] == token[i]);
    if sentence_of(buffer + token) is Some {
        lemma_trimmed_shape(buffer + token);
    }
}

// ---------------------------------------------------------------------------
// Audio framing
// ---------------------------------------------------------------------------

/// The only audio format the channel takes.
pub open spec fn accepted_format() -> Seq<char> {
    "pcm_16khz_16bit"@
}

pub fn is_accepted_format(format: &str) -> (b: bool)
    ensures
        b == (format@ == accepted_format()),
{
    crate::text::str_eq(format, "pcm_16khz_16bit")
}

/// Bytes in one frame: 20 ms of 16 kHz, 16-bit audio.
pub const FRAME_SIZE_BYTES: usize = 640;

/// A little-endian 16-bit sample.
pub open spec fn le_sample(lo: u8, hi: u8) -> i16 {
    let v = lo as int + 256 * hi as int;
    if v >= 32768 {
        (v - 65536) as i16
    } else {
        v as i16
    }
}

/// The samples of a frame of bytes.
pub open spec fn samples_of(frame: Seq<u8>) -> Seq<i16> {
    Seq::new(frame.len() / 2, |i: int| le_sample(frame[2 * i], frame[2 * i + 1]))
}

fn sample(lo: u8, hi: u8) -> (s: i16)
    ensures
        s == le_sample(lo, hi),
{
    let v: i32 = lo as i32 + 256 * (hi as i32);
    if v >= 32768 {
        (v - 65536) as i16
    } else {
        v as i16
    }
}

/// Cuts incoming audio into whole frames.
pub struct FrameAssembler {
    pending: Vec<u8>,
}

impl View for FrameAssembler {
    type V = Seq<u8>;

    closed spec fn view(&self) -> Seq<u8> {
        self.pending@
    }
}

impl FrameAssembler {
    pub fn new() -> (f: FrameAssembler)
        ensures
            f@.len() == 0,
    {
        FrameAssembler { pending: Vec::new() }
    }

    /// Takes the bytes of a chunk and hands out the complete frames, as
    /// samples, in order; an incomplete frame waits for the next chunk.
    pub fn push(&mut self, data: &[u8]) -> (frames: Vec<Vec<i16>>)
        ensures
            frames@.len() == frames_in(old(self)@ + data@).len(),
            forall|k: int|
                0 <= k < frames@.len() ==> #[trigger] frames@[k]@ == frames_in(old(self)@ + data@)[k],
            final(self)@ == leftover(old(self)@ + data@),
    {
        let ghost all = self.pending@ + data@;
        let mut bytes: Vec<u8> = Vec::new();
        let mut i: usize = 0;
        while i < self.pending.len()
            invariant
                i <= self.pending@.len(),
                bytes@ == self.pending@.subrange(0, i as int),
            decreases self.pending@.len() - i,
        {
            bytes.push(self.pending[i]);
            i = i + 1;
        }
        let mut j: usize = 0;
        while j < data.len()
            invariant
                j <= data@.len(),
                i == self.pending@.len(),
                bytes@ == self.pending@ + data@.subrange(0, j as int),
            decreases data@.len() - j,
        {
            bytes.push(data[j]);
            j = j + 1;
            assert(self.pending@.subrange(0, i as int) =~= self.pending@);
        }
        assert(bytes@ =~= all);
        let blen = bytes.len();
        let n = blen / FRAME_SIZE_BYTES;
        let mut frames: Vec<Vec<i16>> = Vec::new();
        let mut k: usize = 0;
        while k < n
            invariant
                bytes@ == all,
                blen == all.len(),
                n == all.len() / 640,
                k <= n,
                frames@.len() == k,
                forall|m: int| 0 <= m < k ==> #[trigger] frames@[m]@ == samples_of(all.subrange(m * 640, m * 640 + 640)),
            decreases n - k,
        {
            assert(k * 640 + 640 <= blen) by (nonlinear_arith)
                requires
                    k < n,
                    n == blen / 640,
            ;
            let base = k * 640;
            let mut frame: Vec<i16> = Vec::new();
            let mut s: usize = 0;
            let ghost chunk = all.subrange(base as int, base + 640);
            while s < 320
                invariant
                    bytes@ == all,
                    blen == all.len(),
                    base + 640 <= all.len(),
                    base == k * 640,
                    k < n,
                    n == all.len() / 640,
                    chunk == all.subrange(base as int, base + 640),
                    s <= 320,
                    frame@ == samples_of(chunk).subrange(0, s as int),
                decreases 320 - s,
            {
                let v = sample(bytes[base + 2 * s], bytes[base + 2 * s + 1]);
                proof {
                    assert(chunk[2 * s as int] == bytes@[base + 2 * s]);
                    assert(chunk[2 * s + 1] == bytes@[base + 2 * s + 1]);
                }
                frame.push(v);
                s = s + 1;
                proof {
                    assert(frame@ =~= samples_of(chunk).subrange(0, s as int));
                }
            }
            assert(frame@ =~= samples_of(chunk));
            frames.push(frame);
            k = k + 1;
        }
        let mut rest: Vec<u8> = Vec::new();
        let mut m: usize = n * 640;
        while m < bytes.len()
            invariant
                bytes@ == all,
                n * 640 <= m <= all.len(),
                rest@ == all.subrange(n * 640, m as int),
            decreases bytes@.len() - m,
        {
            rest.push(bytes[m]);
            m = m + 1;
        }
        self.pending = rest;
        frames
    }
}

/// The whole frames at the start of a byte stream, as samples.
pub open spec fn frames_in(all: Seq<u8>) -> Seq<Seq<i16>> {
    Seq::new(
        (all.len() / 640) as nat,
        |k: int| samples_of(all.subrange(k * 640, k * 640 + 640)),
    )
}

/// The bytes after the last whole frame of a stream.
pub open spec fn leftover(all: Seq<u8>) -> Seq<u8> {
    all.subrange(((all.len() / 640) * 640) as int, all.len() as int)
}

/// How audio is cut into chunks does not change what comes out: pushing `x`
/// and then `y` gives the frames of `x` followed by those that the leftover
/// of `x` and `y` make, which are the frames of `x + y`, and leaves the same
/// bytes waiting.
pub proof fn law_chunking_does_not_change_frames(x: Seq<u8>, y: Seq<u8>)
    ensures
        frames_in(x) + frames_in(leftover(x) + y) == frames_in(x + y),
        leftover(leftover(x) + y) == leftover(x + y),
{
    let n1 = x.len() / 640;
    let r = leftover(x);
    let ry = r + y;
    let xy = x + y;
    let n2 = ry.len() / 640;
    assert(r.len() == x.len() - n1 * 640);
    assert(xy.len() / 640 == n1 + n2 && n1 * 640 + n2 * 640 == (n1 + n2) * 640) by (nonlinear_arith)
        requires
            n1 == x.len() / 640,
            n2 == ry.len() / 640,
            ry.len() == x.len() - n1 * 640 + y.len(),
            xy.len() == x.len() + y.len(),
    ;
    let lhs = frames_in(x) + frames_in(ry);
    let rhs = frames_in(xy);
    assert(n1 * 640 <= x.len()) by (nonlinear_arith)
        requires
            n1 == x.len() / 640,
    ;
    assert(n2 * 640 <= ry.len()) by (nonlinear_arith)
        requires
            n2 == ry.len() / 640,
    ;
    assert forall|k: int| 0 <= k < rhs.len() implies #[trigger] lhs[k] == rhs[k] by {
        if k < n1 {
            assert(k * 640 + 640 <= n1 * 640) by (nonlinear_arith)
                requires
                    k < n1,
            ;
            assert(xy.subrange(k * 640, k * 640 + 640) =~= x.subrange(k * 640, k * 640 + 640));
        } else {
            let j = k - n1;
            assert(k * 640 == n1 * 640 + j * 640) by (nonlinear_arith)
                requires
                    j == k - n1,
            ;
            assert(j * 640 + 640 <= n2 * 640) by (nonlinear_arith)
                requires
                    j < n2,
            ;
            assert forall|i: int| 0 <= i < 640 implies #[trigger] xy[n1 * 640 + j * 640 + i] == ry[j * 640 + i] by {}
            assert(xy.subrange(k * 640, k * 640 + 640) =~= ry.subrange(j * 640, j * 640 + 640));
        }
    }
    assert(lhs =~= rhs);
    assert(n2 * 640 + n1 * 640 == (n1 + n2) * 640) by (nonlinear_arith);
    assert forall|i: int| 0 <= i < leftover(ry).len() implies leftover(ry)[i] == leftover(xy)[i] by {
        assert(leftover(ry)[i] == ry[n2 * 640 + i]);
        assert(leftover(xy)[i] == xy[(n1 + n2) * 640 + i]);
    }
    assert(leftover(ry) =~= leftover(xy));
}

// ---------------------------------------------------------------------------
// Voice activity
// ---------------------------------------------------------------------------

/// Non-voice frames after which an utterance is over (600 ms).
pub const SILENCE_THRESHOLD_FRAMES: usize = 30;

#[derive(Debug, Clone, Copy, PartialEq, Eq)]
pub enum VadState {
    Silence,
    Speech,
}

/// What a frame did to the utterance being tracked.
pub enum VadEvent {
    /// Nothing to report.
    Quiet,
    /// Voice began with this frame.
    SpeechStarted,
    /// The utterance goes on.
    SpeechContinues,
    /// The utterance ended; these are its samples.
    SpeechEnded(Vec<i16>),
}

/// Follows voice activity frame by frame and collects the samples of each
/// utterance, from its first voiced frame to the silence that ends it.
pub struct VadTracker {
    state: VadState,
    silence_frames: usize,
    speech: Vec<i16>,
}

pub struct VadModel {
    pub state: VadState,
    pub silence_frames: int,
    pub speech: Seq<i16>,
}

impl View for VadTracker {
    type V = VadModel;

    closed spec fn view(&self) -> VadModel {
        VadModel { state: self.state, silence_frames: self.silence_frames as int, speech: self.speech@ }
    }
}

impl VadTracker {
    pub fn new() -> (t: VadTracker)
        ensures
            t@.state == VadState::Silence,
            t@.silence_frames == 0,
            t@.speech.len() == 0,
            t@ == vad_start(),
    {
        VadTracker { state: VadState::Silence, silence_frames: 0, speech: Vec::new() }
    }

    /// Fewer silent frames than end an utterance are ever counted.
    #[verifier::type_invariant]
    spec fn inv(self) -> bool {
        self.silence_frames < SILENCE_THRESHOLD_FRAMES
    }

    /// Takes a frame and whether the detector heard voice in it.
    pub fn on_frame(&mut self, frame: &[i16], is_voice: bool) -> (e: VadEvent)
        ensures
            final(self)@.silence_frames < SILENCE_THRESHOLD_FRAMES,
            old(self)@.state == VadState::Silence && is_voice ==> e is SpeechStarted && final(self)@
                == (VadModel { state: VadState::Speech, silence_frames: 0, speech: frame@ }),
            old(self)@.state == VadState::Silence && !is_voice ==> e is Quiet && final(self)@ == old(self)@,
            old(self)@.state == VadState::Speech && is_voice ==> e is SpeechContinues && final(self)@ == (
            VadModel { state: VadState::Speech, silence_frames: 0, speech: old(self)@.speech + frame@ }),
            old(self)@.state == VadState::Speech && !is_voice && old(self)@.silence_frames + 1
                < SILENCE_THRESHOLD_FRAMES ==> e is SpeechContinues && final(self)@ == (VadModel {
                state: VadState::Speech,
                silence_frames: old(self)@.silence_frames + 1,
                speech: old(self)@.speech + frame@,
            }),
            old(self)@.state == VadState::Speech && !is_voice && old(self)@.silence_frames + 1
                >= SILENCE_THRESHOLD_FRAMES ==> (e matches VadEvent::SpeechEnded(samples) && samples@
                == old(self)@.speech + frame@) && final(self)@ == (VadModel {
                state: VadState::Silence,
                silence_frames: 0,
                speech: Seq::empty(),
            }),
            (final(self)@, e.ended()) == vad_step(old(self)@, frame@, is_voice),
            event_fits(e, old(self)@, frame@, is_voice),
    {
        proof {
            use_type_invariant(&*self);
        }
        match self.state {
            VadState::Silence => {
                if is_voice {
                    self.state = VadState::Speech;
                    self.silence_frames = 0;
                    self.speech = Vec::new();
                    self.append(frame);
                    VadEvent::SpeechStarted
                } else {
                    VadEvent::Quiet
                }
            },
            VadState::Speech => {
                self.append(frame);
                if !is_voice {
                    let silent = self.silence_frames + 1;
                    if silent >= SILENCE_THRESHOLD_FRAMES {
                        self.state = VadState::Silence;
                        self.silence_frames = 0;
                        let mut samples = Vec::new();
                        std::mem::swap(&mut samples, &mut self.speech);
                        VadEvent::SpeechEnded(samples)
                    } else {
                        self.silence_frames = silent;
                        VadEvent::SpeechContinues
                    }
                } else {
                    self.silence_frames = 0;
                    VadEvent::SpeechContinues
                }
            },
        }
    }

    fn append(&mut self, frame: &[i16])
        ensures
            final(self)@ == (VadModel { speech: old(self)@.speech + frame@, ..old(self)@ }),
    {
        proof {
            use_type_invariant(&*self);
        }
        let mut speech: Vec<i16> = Vec::new();
        std::mem::swap(&mut speech, &mut self.speech);
        let ghost start = speech@;
        let mut i: usize = 0;
        while i < frame.len()
            invariant
                i <= frame@.len(),
                start == old(self)@.speech,
                speech@ == start + frame@.subrange(0, i as int),
            decreases frame@.len() - i,
        {
            speech.push(frame[i]);
            i = i + 1;
        }
        assert(frame@.subrange(0, frame@.len() as int) =~= frame@);
        self.speech = speech;
    }
}

impl VadEvent {
    /// The samples of the utterance this event closed, if it closed one.
    pub open spec fn ended(&self) -> Option<Seq<i16>> {
        match self {
            VadEvent::SpeechEnded(samples) => Some(samples@),
            _ => None,
        }
    }
}

/// The tracker before any frame has arrived.
pub open spec fn vad_start() -> VadModel {
    VadModel { state: VadState::Silence, silence_frames: 0, speech: Seq::empty() }
}

/// What one frame does: the next state of the tracker, and the utterance it closed, if any.
pub open spec fn vad_step(m: VadModel, frame: Seq<i16>, voice: bool) -> (VadModel, Option<Seq<i16>>) {
    match m.state {
        VadState::Silence => if voice {
            (VadModel { state: VadState::Speech, silence_frames: 0, speech: frame }, None)
        } else {
            (m, None)
        },
        VadState::Speech => if voice {
            (VadModel { state: VadState::Speech, silence_frames: 0, speech: m.speech + frame }, None)
        } else if m.silence_frames + 1 < SILENCE_THRESHOLD_FRAMES {
            (
                VadModel {
                    state: VadState::Speech,
                    silence_frames: m.silence_frames + 1,
                    speech: m.speech + frame,
                },
                None,
            )
        } else {
            (vad_start(), Some(m.speech + frame))
        },
    }
}

/// Frames paired with whether voice was heard in each.
pub open spec fn judged(frames: Seq<Seq<i16>>, verdicts: Seq<bool>) -> Seq<(Seq<i16>, bool)> {
    Seq::new(frames.len(), |i: int| (frames[i], verdicts[i]))
}

/// The state of a tracker at `m` after the judged frames `fv`, in order.
pub open spec fn vad_after(m: VadModel, fv: Seq<(Seq<i16>, bool)>) -> VadModel
    decreases fv.len(),
{
    if fv.len() == 0 {
        m
    } else {
        vad_step(vad_after(m, fv.drop_last()), fv.last().0, fv.last().1).0
    }
}

/// The utterances that the judged frames `fv` close, in order, starting
/// from a tracker at `m`.
pub open spec fn vad_closed(m: VadModel, fv: Seq<(Seq<i16>, bool)>) -> Seq<Seq<i16>>
    decreases fv.len(),
{
    if fv.len() == 0 {
        Seq::empty()
    } else {
        let before = vad_closed(m, fv.drop_last());
        match vad_step(vad_after(m, fv.drop_last()), fv.last().0, fv.last().1).1 {
            Some(samples) => before.push(samples),
            None => before,
        }
    }
}

/// The event that a frame gives a tracker at `m`.
pub open spec fn event_fits(e: VadEvent, m: VadModel, frame: Seq<i16>, voice: bool) -> bool {
    match vad_step(m, frame, voice).1 {
        Some(samples) => e.ended() == Some(samples),
        None => if m.state == VadState::Silence {
            if voice {
                e is SpeechStarted
            } else {
                e is Quiet
            }
        } else {
            e is SpeechContinues
        },
    }
}

/// The utterances that a run of events hands back, in order.
pub open spec fn closed_by(events: Seq<VadEvent>) -> Seq<Seq<i16>>
    decreases events.len(),
{
    if events.len() == 0 {
        Seq::empty()
    } else {
        match events.last().ended() {
            Some(samples) => closed_by(events.drop_last()).push(samples),
            None => closed_by(events.drop_last()),
        }
    }
}

/// Frames all judged unvoiced.
pub open spec fn unvoiced(frames: Seq<Seq<i16>>) -> Seq<(Seq<i16>, bool)> {
    Seq::new(frames.len(), |i: int| (frames[i], false))
}

/// The frames of an utterance so far: a voiced frame, then unvoiced ones.
pub open spec fn utterance(voiced: Seq<i16>, silent: Seq<Seq<i16>>) -> Seq<(Seq<i16>, bool)> {
    seq![(voiced, true)] + unvoiced(silent)
}

proof fn lemma_utterance_prefix(voiced: Seq<i16>, silent: Seq<Seq<i16>>, n: int)
    requires
        0 <= n <= silent.len(),
        n <= SILENCE_THRESHOLD_FRAMES,
    ensures
        n < SILENCE_THRESHOLD_FRAMES ==> vad_after(vad_start(), utterance(voiced, silent.take(n))) == (
        VadModel {
            state: VadState::Speech,
            silence_frames: n,
            speech: voiced + silent.take(n).flatten_alt(),
        }),
        n < SILENCE_THRESHOLD_FRAMES ==> vad_closed(vad_start(), utterance(voiced, silent.take(n)))
            == Seq::<Seq<i16>>::empty(),
        n == SILENCE_THRESHOLD_FRAMES ==> vad_after(vad_start(), utterance(voiced, silent.take(n)))
            == vad_start(),
        n == SILENCE_THRESHOLD_FRAMES ==> vad_closed(vad_start(), utterance(voiced, silent.take(n)))
            == seq![voiced + silent.take(n).flatten_alt()],
    decreases n,
{
    let fv = utterance(voiced, silent.take(n));
    if n == 0 {
        assert(silent.take(0) =~= Seq::<Seq<i16>>::empty());
        assert(fv.drop_last() =~= Seq::<(Seq<i16>, bool)>::empty());
        assert(fv.last() == (voiced, true));
        assert(vad_closed(vad_start(), fv.drop_last()) == Seq::<Seq<i16>>::empty());
        assert(vad_after(vad_start(), fv.drop_last()) == vad_start());
        assert(voiced + Seq::<Seq<i16>>::empty().flatten_alt() =~= voiced);
    } else {
        lemma_utterance_prefix(voiced, silent, n - 1);
        let prev = silent.take(n - 1);
        assert(fv.drop_last() =~= utterance(voiced, prev));
        assert(fv.last() == (silent[n - 1], false));
        assert(silent.take(n).drop_last() =~= prev);
        assert(silent.take(n).last() == silent[n - 1]);
        assert(silent.take(n).flatten_alt() == prev.flatten_alt() + silent[n - 1]);
        assert(voiced + prev.flatten_alt() + silent[n - 1] =~= voiced + silent.take(n).flatten_alt());
        if n == SILENCE_THRESHOLD_FRAMES {
            assert(Seq::<Seq<i16>>::empty().push(voiced + silent.take(n).flatten_alt())
                =~= seq![voiced + silent.take(n).flatten_alt()]);
        }
    }
}

/// An utterance begins with a voiced frame, goes on through every run of
/// fewer unvoiced frames than the silence threshold without closing, and
/// closes exactly at the threshold's unvoiced frame, handing back every
/// sample from its first frame to its last and leaving the tracker as it
/// was before any frame.
pub proof fn law_utterance_ends_at_silence_threshold(voiced: Seq<i16>, silent: Seq<Seq<i16>>)
    requires
        silent.len() <= SILENCE_THRESHOLD_FRAMES,
    ensures
        silent.len() < SILENCE_THRESHOLD_FRAMES ==> vad_after(vad_start(), utterance(voiced, silent))
            == (VadModel {
            state: VadState::Speech,
            silence_frames: silent.len() as int,
            speech: voiced + silent.flatten(),
        }),
        silent.len() < SILENCE_THRESHOLD_FRAMES ==> vad_closed(vad_start(), utterance(voiced, silent))
            == Seq::<Seq<i16>>::empty(),
        silent.len() == SILENCE_THRESHOLD_FRAMES ==> vad_after(vad_start(), utterance(voiced, silent))
            == vad_start(),
        silent.len() == SILENCE_THRESHOLD_FRAMES ==> vad_closed(vad_start(), utterance(voiced, silent))
            == seq![voiced + silent.flatten()],
{
    lemma_utterance_prefix(voiced, silent, silent.len() as int);
    assert(silent.take(silent.len() as int) =~= silent);
    silent.lemma_flatten_and_flatten_alt_are_equivalent();
}

// ---------------------------------------------------------------------------
// Voice sessions
// ---------------------------------------------------------------------------

#[verifier::external_type_specification]
#[verifier::external_body]
pub struct ExVad(webrtc_vad::Vad);

/// Sample rates that the voice detector takes.
#[derive(Debug, Clone, Copy, PartialEq, Eq)]
pub enum DetectorRate {
    Rate8kHz,
    Rate16kHz,
    Rate32kHz,
    Rate48kHz,
}

/// How readily the voice detector reports voice, from most to least.
#[derive(Debug, Clone, Copy, PartialEq, Eq)]
pub enum DetectorMode {
    Quality,
    LowBitrate,
    Aggressive,
    VeryAggressive,
}

/// A voice detector, with the sample rate and mode it was made with and every
/// frame it has been asked about, in order.
pub struct Detector {
    vad: webrtc_vad::Vad,
    rate: Ghost<DetectorRate>,
    mode: Ghost<DetectorMode>,
    heard: Ghost<Seq<Seq<i16>>>,
}

/// What libfvad, behind `webrtc_vad::Vad::is_voice_segment`, answers for a
/// frame: voice or not, or `Err(())` for a length that the sample rate does
/// not take. The detector keeps no other state than what its sample rate,
/// its mode and the frames it was given before make, so the answer is a
/// function of those and of the frame.
pub uninterp spec fn vad_verdict(
    rate: DetectorRate,
    mode: DetectorMode,
    heard: Seq<Seq<i16>>,
    frame: Seq<i16>,
) -> Result<bool, ()>;

/// `webrtc_vad::Vad::new_with_rate_and_mode`: a voice detector for the given
/// sample rate and mode, which has heard nothing yet. The crate panics only
/// when the allocator fails.
#[verifier::external_body]
fn new_detector(rate: DetectorRate, mode: DetectorMode) -> (d: Detector)
    ensures
        d.rate@ == rate,
        d.mode@ == mode,
        d.heard@ == Seq::<Seq<i16>>::empty(),
{
    let sample_rate = match rate {
        DetectorRate::Rate8kHz => webrtc_vad::SampleRate::Rate8kHz,
        DetectorRate::Rate16kHz => webrtc_vad::SampleRate::Rate16kHz,
        DetectorRate::Rate32kHz => webrtc_vad::SampleRate::Rate32kHz,
        DetectorRate::Rate48kHz => webrtc_vad::SampleRate::Rate48kHz,
    };
    let vad_mode = match mode {
        DetectorMode::Quality => webrtc_vad::VadMode::Quality,
        DetectorMode::LowBitrate => webrtc_vad::VadMode::LowBitrate,
        DetectorMode::Aggressive => webrtc_vad::VadMode::Aggressive,
        DetectorMode::VeryAggressive => webrtc_vad::VadMode::VeryAggressive,
    };
    let vad = webrtc_vad::Vad::new_with_rate_and_mode(sample_rate, vad_mode);
    Detector { vad, rate: Ghost(rate), mode: Ghost(mode), heard: Ghost(Seq::empty()) }
}

/// `webrtc_vad::Vad::is_voice_segment`: the detector's verdict on a frame,
/// given what it has heard before; the frame is then among what it has
/// heard. The crate reads the first sample unchecked, so an empty frame is
/// kept out.
#[verifier::external_body]
fn detector_verdict(d: &mut Detector, frame: &[i16]) -> (r: Result<bool, ()>)
    requires
        frame.len() > 0,
    ensures
        r == vad_verdict(old(d).rate@, old(d).mode@, old(d).heard@, frame@),
        final(d).rate == old(d).rate,
        final(d).mode == old(d).mode,
        final(d).heard@ == old(d).heard@.push(frame@),
{
    d.vad.is_voice_segment(frame)
}

/// A verdict as the session takes it: a frame the detector cannot judge
/// counts as unvoiced.
pub open spec fn voiced(v: Result<bool, ()>) -> bool {
    match v {
        Ok(b) => b,
        Err(_) => false,
    }
}

/// The verdicts of a detector made with `rate` and `mode`, which has heard
/// `heard`, on `frames` asked in order.
pub open spec fn verdicts_on(
    rate: DetectorRate,
    mode: DetectorMode,
    heard: Seq<Seq<i16>>,
    frames: Seq<Seq<i16>>,
) -> Seq<bool> {
    Seq::new(frames.len(), |i: int| voiced(vad_verdict(rate, mode, heard + frames.take(i), frames[i])))
}

/// The detector of a voice session: 16 kHz, and the mode that reports voice
/// least readily.
pub open spec fn session_detector() -> (DetectorRate, DetectorMode) {
    (DetectorRate::Rate16kHz, DetectorMode::VeryAggressive)
}

/// The refusal sent when audio arrives faster than the session takes it.
pub fn audio_buffer_full() -> (s: RpcStatus)
    ensures
        s.code == RpcCode::ResourceExhausted,
        s.message@ == "Audio buffer full"@,
{
    refuse(RpcCode::ResourceExhausted, "Audio buffer full")
}

/// The audio side of a voice session: frames the accepted chunks, asks the
/// detector about each frame and follows the utterance.
pub struct VoiceSession {
    detector: Detector,
    frames: FrameAssembler,
    tracker: VadTracker,
}

pub struct VoiceSessionModel {
    /// Bytes waiting for the rest of their frame.
    pub pending: Seq<u8>,
    pub tracker: VadModel,
    /// The frames the detector has been asked about, in order.
    pub heard: Seq<Seq<i16>>,
}

impl View for VoiceSession {
    type V = VoiceSessionModel;

    closed spec fn view(&self) -> VoiceSessionModel {
        VoiceSessionModel { pending: self.frames@, tracker: self.tracker@, heard: self.detector.heard@ }
    }
}

impl VoiceSession {
    /// What the detector was made with.
    pub closed spec fn settings(&self) -> (DetectorRate, DetectorMode) {
        (self.detector.rate@, self.detector.mode@)
    }

    pub fn new() -> (s: VoiceSession)
        ensures
            s@.pending.len() == 0,
            s@.tracker == vad_start(),
            s@.heard.len() == 0,
            s.settings() == session_detector(),
    {
        let detector = new_detector(DetectorRate::Rate16kHz, DetectorMode::VeryAggressive);
        VoiceSession { detector, frames: FrameAssembler::new(), tracker: VadTracker::new() }
    }

    /// Takes a chunk of audio. A chunk in another format than 16 kHz 16-bit
    /// PCM is passed over. Otherwise each whole frame that the chunk
    /// completes is judged by the detector, after the frames before it (a
    /// frame it cannot judge counts as unvoiced), and gives one event, in
    /// order.
    pub fn on_chunk(&mut self, format: &str, data: &[u8]) -> (events: Vec<VadEvent>)
        ensures
            final(self).settings() == old(self).settings(),
            format@ != accepted_format() ==> events@.len() == 0 && final(self)@ == old(self)@,
            format@ == accepted_format() ==> {
                let frames = frames_in(old(self)@.pending + data@);
                let verdicts = verdicts_on(
                    old(self).settings().0,
                    old(self).settings().1,
                    old(self)@.heard,
                    frames,
                );
                let fv = judged(frames, verdicts);
                &&& final(self)@.pending == leftover(old(self)@.pending + data@)
                &&& final(self)@.heard == old(self)@.heard + frames
                &&& events@.len() == frames.len()
                &&& final(self)@.tracker == vad_after(old(self)@.tracker, fv)
                &&& closed_by(events@) == vad_closed(old(self)@.tracker, fv)
                &&& forall|i: int|
                    0 <= i < frames.len() ==> event_fits(
                        #[trigger] events@[i],
                        vad_after(old(self)@.tracker, fv.take(i)),
                        frames[i],
                        verdicts[i],
                    )
            },
    {
        let mut events: Vec<VadEvent> = Vec::new();
        if !is_accepted_format(format) {
            return events;
        }
        let ghost m0 = self.tracker@;
        let ghost h0 = self.detector.heard@;
        let ghost rate = self.detector.rate@;
        let ghost mode = self.detector.mode@;
        let ghost all = self.frames@ + data@;
        let frames = self.frames.push(data);
        let ghost fs = frames_in(all);
        let ghost vs = verdicts_on(rate, mode, h0, fs);
        let mut k: usize = 0;
        while k < frames.len()
            invariant
                k <= frames@.len(),
                frames@.len() == fs.len(),
                forall|j: int| 0 <= j < frames@.len() ==> #[trigger] frames@[j]@ == fs[j],
                fs == frames_in(all),
                vs == verdicts_on(rate, mode, h0, fs),
                self.detector.rate@ == rate,
                self.detector.mode@ == mode,
                self.detector.heard@ == h0 + fs.take(k as int),
                events@.len() == k,
                self.tracker@ == vad_after(m0, judged(fs.take(k as int), vs.take(k as int))),
                closed_by(events@) == vad_closed(m0, judged(fs.take(k as int), vs.take(k as int))),
                forall|i: int|
                    0 <= i < k ==> event_fits(
                        #[trigger] events@[i],
                        vad_after(m0, judged(fs.take(k as int), vs.take(k as int)).take(i)),
                        fs[i],
                        vs[i],
                    ),
                self.frames@ == leftover(all),
            decreases frames@.len() - k,
        {
            let frame = frames[k].as_slice();
            assert(frame@.len() == 320) by {
                assert(frames@[k as int]@ == fs[k as int]);
            }
            let verdict = detector_verdict(&mut self.detector, frame);
            let is_voice = match verdict {
                Ok(b) => b,
                Err(_) => false,
            };
            assert(is_voice == vs[k as int]);
            let ghost before = judged(fs.take(k as int), vs.take(k as int));
            let e = self.tracker.on_frame(frame, is_voice);
            proof {
                let after = judged(fs.take(k + 1), vs.take(k + 1));
                assert(after.drop_last() =~= before);
                assert(after.last() == (fs[k as int], is_voice));
                assert forall|i: int| 0 <= i < k implies after.take(i) =~= before.take(i) by {}
                assert(after.take(k as int) =~= before);
                assert(h0 + fs.take(k + 1) =~= (h0 + fs.take(k as int)).push(fs[k as int]));
            }
            let ghost ev0 = events@;
            events.push(e);
            proof {
                assert(events@.drop_last() =~= ev0);
            }
            k = k + 1;
        }
        proof {
            assert(fs.take(fs.len() as int) =~= fs);
            assert(vs.take(fs.len() as int) =~= vs);
        }
        events
    }
}

// ---------------------------------------------------------------------------
// Transcripts
// ---------------------------------------------------------------------------

/// The lower-case form of a text (Unicode case mapping).
pub uninterp spec fn lowercase(s: Seq<char>) -> Seq<char>;

/// `str::to_lowercase` of std: the Unicode lower-case mapping, which
/// `lowercase` names.
#[verifier::external_body]
fn to_lowercase(s: &str) -> (r: String)
    ensures
        r@ == lowercase(s@),
{
    s.to_lowercase()
}

/// Whether a transcript is a command: once trimmed, it is not empty, not a
/// common hallucination of the recogniser (`[musica]`, `[silencio]`), and at
/// least two bytes long.
pub open spec fn is_command(t: Seq<char>) -> bool {
    let text = trimmed(t);
    &&& text.len() > 0
    &&& !contains(lowercase(text), "[musica]"@)
    &&& !contains(lowercase(text), "[silencio]"@)
    &&& byte_len(text) >= 2
}

/// The command in a transcript, or `None` for noise.
pub fn transcript_command(raw: &str) -> (r: Option<String>)
    ensures
        is_command(raw@) ==> (r matches Some(t) && t@ == trimmed(raw@)),
        !is_command(raw@) ==> r is None,
{
    let t = trim_chars(&chars_of(raw));
    let text = string_from_chars(&t);
    if t.len() == 0 {
        return None;
    }
    let lower = to_lowercase(text.as_str());
    let lc = chars_of(lower.as_str());
    if chars_contain(&lc, &chars_of("[musica]")) || chars_contain(&lc, &chars_of("[silencio]")) {
        return None;
    }
    if text.as_str().len() < 2 {
        return None;
    }
    Some(text)
}

/// The process a voice command becomes: top priority, bound to the speaker.
pub fn voice_command_task(auth: &CitadelAuth, command: String) -> (p: PCB)
    ensures
        p.process_name@ == "Voice Command"@,
        p.priority == 10,
        p.memory_pointers.l1_instruction == command,
        p.state == ProcessState::New,
        p.tenant_id == Some(auth.tenant_id),
        p.session_key == Some(auth.session_key),
        p.public_id is None,
{
    let mut p = PCB::new(owned("Voice Command"), 10, command);
    p.tenant_id = Some(auth.tenant_id.clone());
    p.session_key = Some(auth.session_key.clone());
    p
}

/// How `serde_json` writes a character inside a string literal: `"` and `\`
/// escaped, `\b \t \n \f \r` for those controls, `\u00XX` (lower-case hex)
/// for the other characters below U+0020, any other character as it is.
pub open spec fn escaped_char(c: char) -> Seq<char> {
    if c == '"' {
        seq!['\\', '"']
    } else if c == '\\' {
        seq!['\\', '\\']
    } else if c == '\u{8}' {
        seq!['\\', 'b']
    } else if c == '\t' {
        seq!['\\', 't']
    } else if c == '\n' {
        seq!['\\', 'n']
    } else if c == '\u{c}' {
        seq!['\\', 'f']
    } else if c == '\r' {
        seq!['\\', 'r']
    } else if (c as u32) < 0x20 {
        seq!['\\', 'u', '0', '0', hex_digit((c as u32) as int / 16), hex_digit((c as u32) as int % 16)]
    } else {
        seq![c]
    }
}

/// The escaped characters of a text, in order.
pub open spec fn escaped_text(s: Seq<char>) -> Seq<char>
    decreases s.len(),
{
    if s.len() == 0 {
        Seq::empty()
    } else {
        escaped_text(s.drop_last()) + escaped_char(s.last())
    }
}

/// A text as a JSON string literal, as `serde_json::to_string` writes it.
pub open spec fn json_quoted(s: Seq<char>) -> Seq<char> {
    seq!['"'] + escaped_text(s) + seq!['"']
}

/// `serde_json::to_string` on a `&str`: the text as a JSON string literal,
/// escaped by serde_json's escape table (`ESCAPE` in `ser.rs`), which is
/// `json_quoted`. Writing a string into serde_json's in-memory buffer does
/// not fail; the error arm, never taken, would give an empty text.
#[verifier::external_body]
fn quote_json(s: &str) -> (r: String)
    ensures
        r@ == json_quoted(s@),
{
    match serde_json::to_string(s) {
        Ok(t) => t,
        Err(_) => String::new(),
    }
}

/// The message of a finished transcription: an object with the pid and the
/// transcript, members in the key order of `serde_json`'s map.
pub open spec fn transcript_message(transcript: Seq<char>, pid: Seq<char>) -> Seq<char> {
    "{\"pid\":"@ + json_quoted(pid) + ",\"transcript\":"@ + json_quoted(transcript) + "}"@
}

pub fn transcript_message_text(transcript: &str, pid: &str) -> (r: String)
    ensures
        r@ == transcript_message(transcript@, pid@),
{
    let mut r = owned("{\"pid\":");
    let q = quote_json(pid);
    r.append(q.as_str());
    r.append(",\"transcript\":");
    let t = quote_json(transcript);
    r.append(t.as_str());
    r.append("}");
    r
}

// ---------------------------------------------------------------------------
// Events
// ---------------------------------------------------------------------------

/// An event on the channel back to the client.
pub struct SirenEvent {
    pub event_type: String,
    pub message: String,
    pub processed_sequence_number: u64,
    pub tts_audio_chunk: Vec<u8>,
    pub sample_rate: u32,
}

fn event(kind: &str, message: String, seq: u64) -> (e: SirenEvent)
    ensures
        e.event_type@ == kind@,
        e.message == message,
        e.processed_sequence_number == seq,
        e.tts_audio_chunk@.len() == 0,
        e.sample_rate == 0,
{
    SirenEvent {
        event_type: owned(kind),
        message,
        processed_sequence_number: seq,
        tts_audio_chunk: Vec::new(),
        sample_rate: 0,
    }
}

pub fn vad_start_event(seq: u64) -> (e: SirenEvent)
    ensures
        e.event_type@ == "VAD_START"@,
        e.message@ == "Speaking..."@,
        e.processed_sequence_number == seq,
{
    event("VAD_START", owned("Speaking..."), seq)
}

pub fn vad_end_event(seq: u64) -> (e: SirenEvent)
    ensures
        e.event_type@ == "VAD_END"@,
        e.message@ == "Processing voice..."@,
        e.processed_sequence_number == seq,
{
    event("VAD_END", owned("Processing voice..."), seq)
}

pub fn stt_start_event(seq: u64) -> (e: SirenEvent)
    ensures
        e.event_type@ == "STT_START"@,
        e.message@ == "Transcribing..."@,
        e.processed_sequence_number == seq,
{
    event("STT_START", owned("Transcribing..."), seq)
}

pub fn stt_error_event(detail: &str, seq: u64) -> (e: SirenEvent)
    ensures
        e.event_type@ == "STT_ERROR"@,
        e.message@ == "STT Error: "@ + detail@,
        e.processed_sequence_number == seq,
{
    event("STT_ERROR", concat2("STT Error: ", detail), seq)
}

pub fn stt_done_event(transcript: &str, pid: &str, seq: u64) -> (e: SirenEvent)
    ensures
        e.event_type@ == "STT_DONE"@,
        e.message@ == transcript_message(transcript@, pid@),
        e.processed_sequence_number == seq,
{
    event("STT_DONE", transcript_message_text(transcript, pid), seq)
}

/// Sample rate of synthesised speech.
pub const TTS_SAMPLE_RATE: u32 = 22050;

/// Bytes of synthesised audio for a sentence: a quarter second of 16-bit audio.
pub const TTS_CHUNK_BYTES: usize = 11025;

/// The placeholder synthesis: a ramp of bytes `i % 256`.
pub fn placeholder_speech() -> (a: Vec<u8>)
    ensures
        a@.len() == TTS_CHUNK_BYTES,
        forall|i: int| 0 <= i < TTS_CHUNK_BYTES ==> #[trigger] a@[i] == (i % 256) as u8,
{
    let mut a: Vec<u8> = Vec::new();
    let mut i: usize = 0;
    while i < TTS_CHUNK_BYTES
        invariant
            i <= TTS_CHUNK_BYTES,
            a@.len() == i,
            forall|k: int| 0 <= k < i ==> #[trigger] a@[k] == (k % 256) as u8,
        decreases TTS_CHUNK_BYTES - i,
    {
        a.push((i % 256) as u8);
        i = i + 1;
    }
    a
}

/// The event that carries a synthesised sentence; it takes the next
/// sequence number.
pub fn speech_event(sentence: String, seq: u64) -> (e: SirenEvent)
    requires
        seq < u64::MAX,
    ensures
        e.event_type@ == "TTS_AUDIO"@,
        e.message == sentence,
        e.processed_sequence_number == seq + 1,
        e.tts_audio_chunk@.len() == TTS_CHUNK_BYTES,
        forall|i: int| 0 <= i < TTS_CHUNK_BYTES ==> #[trigger] e.tts_audio_chunk@[i] == (i % 256) as u8,
        e.sample_rate == TTS_SAMPLE_RATE,
{
    SirenEvent {
        event_type: owned("TTS_AUDIO"),
        message: sentence,
        processed_sequence_number: seq + 1,
        tts_audio_chunk: placeholder_speech(),
        sample_rate: TTS_SAMPLE_RATE,
    }
}

/// Numbers the speech events of a stream: the event of the `k`-th sentence
/// (counting from zero) carries `start + k + 1`.
pub struct SpeechNumbering {
    last: u64,
    start: Ghost<int>,
    taken: Ghost<Seq<Seq<char>>>,
}

impl SpeechNumbering {
    /// The number given before the first event.
    pub closed spec fn start(&self) -> int {
        self.start@
    }

    /// The sentences numbered so far, in order.
    pub closed spec fn taken(&self) -> Seq<Seq<char>> {
        self.taken@
    }

    #[verifier::type_invariant]
    spec fn inv(self) -> bool {
        self.last == self.start@ + self.taken@.len()
    }

    pub fn new(start: u64) -> (n: SpeechNumbering)
        ensures
            n.start() == start,
            n.taken().len() == 0,
    {
        SpeechNumbering { last: start, start: Ghost(start as int), taken: Ghost(Seq::empty()) }
    }

    /// The event of the next sentence, numbered after those before it;
    /// `None`, and nothing taken, once the numbers are used up.
    pub fn next_event(&mut self, sentence: String) -> (e: Option<SirenEvent>)
        ensures
            final(self).start() == old(self).start(),
            old(self).start() + old(self).taken().len() < u64::MAX ==> {
                &&& final(self).taken() == old(self).taken().push(sentence@)
                &&& e matches Some(ev) && ev.processed_sequence_number == old(self).start() + old(
                    self,
                ).taken().len() + 1 && ev.message == sentence && ev.event_type@ == "TTS_AUDIO"@
                    && ev.sample_rate == TTS_SAMPLE_RATE && ev.tts_audio_chunk@.len() == TTS_CHUNK_BYTES
                    && forall|i: int|
                    0 <= i < TTS_CHUNK_BYTES ==> #[trigger] ev.tts_audio_chunk@[i] == (i % 256) as u8
            },
            old(self).start() + old(self).taken().len() >= u64::MAX ==> e is None && final(self).taken()
                == old(self).taken(),
    {
        proof {
            use_type_invariant(&*self);
        }
        if self.last == u64::MAX {
            return None;
        }
        let ghost text = sentence@;
        let ev = speech_event(sentence, self.last);
        let next = ev.processed_sequence_number;
        let ghost taken = self.taken@.push(text);
        let ghost start = self.start@;
        *self = SpeechNumbering { last: next, start: Ghost(start), taken: Ghost(taken) };
        Some(ev)
    }
}

} // verus!

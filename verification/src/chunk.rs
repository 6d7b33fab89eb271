//! Chunk dispatch bookkeeping and transcript reassembly: audio chunks cut
//! by the detector, per-chunk results kept sorted by id, and the
//! overlap-aware concatenation of the ordered transcripts.
use crate::chars::{chars_of, contains_chars, contains_seq, ends_with_chars, ends_with_seq,
    lemma_utf8_len_bounds, prefix_chars, string_from_chars, trim_chars, trim_seq, utf8_len,
    utf8_len_of, utf8_prefix_len};
use crate::params::WhisperOptimizationParams;
use crate::samples::{frame_has_speech, has_speech_frame};
use crate::textproc::{filter_noise_spec, filter_noise_text};
use crate::vad::{SplitDecision, VadStrategy, VoiceActivityDetector};
use vstd::prelude::*;

verus! {

/// One chunk of conditioned audio cut out of the session's timeline.
/// Immutable once created; `start_sample` is counted from session start.
#[derive(Debug)]
pub struct AudioChunk {
    pub id: u64,
    pub samples: Vec<i32>,
    pub start_sample: u64,
}

impl AudioChunk {
    /// The first sample position after this chunk.
    pub open spec fn end_sample(&self) -> int {
        self.start_sample + self.samples@.len()
    }
}

/// The transcript of one successfully decoded, non-empty chunk. Sample
/// positions locate it on the session timeline; `processing_ms` is how
/// long decoding took.
#[derive(Debug, Clone)]
pub struct ChunkResult {
    pub id: u64,
    pub text: String,
    pub start_sample: u64,
    pub end_sample: u64,
    pub processing_ms: u64,
}

/// The results are sorted by ascending chunk id.
pub open spec fn sorted_by_id(rs: Seq<ChunkResult>) -> bool {
    forall|i: int, j: int| 0 <= i < j < rs.len() ==> #[trigger] rs[i].id <= #[trigger] rs[j].id
}

/// Byte budget for the overlap search: at most 64 bytes, and no more than
/// either text holds.
pub open spec fn overlap_budget(acc: Seq<char>, t: Seq<char>) -> int {
    let a = utf8_len(acc);
    let b = utf8_len(t);
    let m = if a < b {
        a
    } else {
        b
    };
    if m < 64 {
        m
    } else {
        64
    }
}

/// A usable cut: `k` characters of `t`'s prefix fit the byte budget and
/// equal a suffix of the accumulator.
pub open spec fn cut_ok(acc: Seq<char>, t: Seq<char>, k: int, maxb: int) -> bool {
    1 <= k <= t.len() && utf8_len(t.take(k)) <= maxb && ends_with_seq(acc, t.take(k))
}

/// The widest usable cut no wider than `k` characters; zero when none.
pub open spec fn best_cut(acc: Seq<char>, t: Seq<char>, k: int, maxb: int) -> int
    decreases k,
{
    if k <= 0 {
        0
    } else if cut_ok(acc, t, k, maxb) {
        k
    } else {
        best_cut(acc, t, k - 1, maxb)
    }
}

/// Overlap-aware concatenation of one more chunk text: the trimmed text is
/// dropped when empty or already contained in the accumulator; otherwise
/// the longest accumulator suffix (up to 64 bytes) that equals a prefix of
/// the text is not repeated.
pub open spec fn merge_overlap(acc: Seq<char>, next: Seq<char>) -> Seq<char> {
    let t = trim_seq(next);
    if t.len() == 0 {
        acc
    } else if contains_seq(acc, t) {
        acc
    } else {
        acc + t.skip(best_cut(acc, t, t.len() as int, overlap_budget(acc, t)))
    }
}

/// The combined transcript of the given texts, merged left to right.
pub open spec fn combine_texts(texts: Seq<Seq<char>>, acc: Seq<char>) -> Seq<char>
    decreases texts.len(),
{
    if texts.len() == 0 {
        acc
    } else {
        combine_texts(texts.skip(1), merge_overlap(acc, texts[0]))
    }
}

/// The texts of a result list, in order.
pub open spec fn texts_of(rs: Seq<ChunkResult>) -> Seq<Seq<char>> {
    rs.map_values(|r: ChunkResult| r.text@)
}

/// What `combine_results` returns for the given results.
pub open spec fn combine_spec(rs: Seq<ChunkResult>) -> Seq<char> {
    combine_texts(texts_of(rs), Seq::empty())
}

/// Merging a single text into an empty accumulator keeps exactly the
/// trimmed text: combining one result yields its own trimmed transcript.
pub proof fn lemma_merge_into_empty(next: Seq<char>)
    ensures
        merge_overlap(Seq::empty(), next) == trim_seq(next),
{
    let t = trim_seq(next);
    if t.len() == 0 {
        assert(merge_overlap(Seq::empty(), next) =~= t);
    } else {
        assert(!contains_seq(Seq::<char>::empty(), t)) by {
            assert forall|i: int| !crate::chars::occurs_at(Seq::<char>::empty(), t, i) by {}
        }
        lemma_utf8_len_bounds(Seq::<char>::empty());
        lemma_utf8_len_bounds(t);
        let maxb = overlap_budget(Seq::empty(), t);
        assert(maxb == 0);
        lemma_best_cut_zero_budget(Seq::empty(), t, t.len() as int);
        assert(t.skip(0) =~= t);
        assert(Seq::<char>::empty() + t =~= t);
    }
}

proof fn lemma_best_cut_zero_budget(acc: Seq<char>, t: Seq<char>, k: int)
    requires
        k <= t.len(),
    ensures
        best_cut(acc, t, k, 0) == 0,
    decreases k,
{
    if k > 0 {
        lemma_utf8_len_bounds(t.take(k));
        lemma_best_cut_zero_budget(acc, t, k - 1);
    }
}

/// A combined transcript of one result is that result's trimmed text.
pub proof fn lemma_combine_single(r: ChunkResult)
    ensures
        combine_spec(seq![r]) == trim_seq(r.text@),
{
    let texts = texts_of(seq![r]);
    assert(texts[0] == r.text@);
    assert(texts.skip(1) =~= Seq::<Seq<char>>::empty());
    lemma_merge_into_empty(r.text@);
    assert(combine_texts(texts, Seq::empty()) == combine_texts(
        texts.skip(1),
        merge_overlap(Seq::empty(), texts[0]),
    ));
    assert(combine_texts(Seq::<Seq<char>>::empty(), merge_overlap(Seq::empty(), r.text@))
        == merge_overlap(Seq::empty(), r.text@));
}

/// A chunk whose trimmed text already occurs in the accumulator
/// contributes nothing to the merge.
pub proof fn lemma_merge_contained(acc: Seq<char>, next: Seq<char>)
    requires
        contains_seq(acc, trim_seq(next)) || trim_seq(next).len() == 0,
    ensures
        merge_overlap(acc, next) == acc,
{
}

/// A fresh vector with the same samples.
fn copy_samples(src: &Vec<i32>) -> (r: Vec<i32>)
    ensures
        r@ == src@,
{
    let mut r: Vec<i32> = Vec::new();
    let mut i: usize = 0;
    while i < src.len()
        invariant
            i <= src@.len(),
            r@ == src@.take(i as int),
        decreases src@.len() - i,
    {
        r.push(src[i]);
        i = i + 1;
        proof {
            assert(r@ =~= src@.take(i as int));
        }
    }
    proof {
        assert(src@.take(src@.len() as int) =~= src@);
    }
    r
}

/// Merge one more text into the accumulated transcript, as
/// `merge_overlap` states.
fn merge_with_overlap(acc: Vec<char>, next: &Vec<char>) -> (r: Vec<char>)
    ensures
        r@ == merge_overlap(acc@, next@),
{
    let t = trim_chars(next);
    if t.len() == 0 {
        return acc;
    }
    if contains_chars(&acc, &t) {
        return acc;
    }
    let ab = utf8_len_of(&acc);
    let tb = utf8_len_of(&t);
    let mut maxb128: u128 = if ab < tb {
        ab
    } else {
        tb
    };
    if maxb128 > 64 {
        maxb128 = 64;
    }
    let maxb: u128 = maxb128;
    proof {
        assert(maxb == overlap_budget(acc@, t@));
    }
    let tn = t.len();
    let mut k: usize = tn;
    let mut found: usize = 0;
    let ghost target = best_cut(acc@, t@, tn as int, maxb as int);
    while k > 0
        invariant
            k <= tn == t@.len(),
            maxb == overlap_budget(acc@, t@),
            target == best_cut(acc@, t@, k as int, maxb as int),
            found == 0,
        decreases k,
    {
        let pl = utf8_prefix_len(&t, k);
        if pl <= maxb {
            let pref = prefix_chars(&t, k);
            if ends_with_chars(&acc, &pref) {
                found = k;
                proof {
                    assert(cut_ok(acc@, t@, k as int, maxb as int));
                    assert(target == k);
                }
                break ;
            }
        }
        proof {
            assert(!cut_ok(acc@, t@, k as int, maxb as int));
        }
        k = k - 1;
    }
    proof {
        assert(found == target);
    }
    let mut r = acc;
    let ghost r0 = r@;
    let mut i: usize = found;
    while i < t.len()
        invariant
            found <= i <= t@.len(),
            r@ == r0 + t@.subrange(found as int, i as int),
        decreases t@.len() - i,
    {
        r.push(t[i]);
        i = i + 1;
        proof {
            assert(r@ =~= r0 + t@.subrange(found as int, i as int));
        }
    }
    proof {
        assert(t@.subrange(found as int, t@.len() as int) =~= t@.skip(found as int));
    }
    r
}

/// Total duration, in samples, of a list of chunks.
pub open spec fn chunks_span(cs: Seq<AudioChunk>) -> int
    decreases cs.len(),
{
    if cs.len() == 0 {
        0
    } else {
        cs[0].samples@.len() + chunks_span(cs.skip(1))
    }
}

proof fn lemma_chunks_span_nonneg(cs: Seq<AudioChunk>)
    ensures
        chunks_span(cs) >= 0,
    decreases cs.len(),
{
    if cs.len() > 0 {
        lemma_chunks_span_nonneg(cs.skip(1));
    }
}

proof fn lemma_chunks_span_push(cs: Seq<AudioChunk>, c: AudioChunk)
    ensures
        chunks_span(cs.push(c)) == chunks_span(cs) + c.samples@.len(),
    decreases cs.len(),
{
    if cs.len() == 0 {
        assert(cs.push(c).skip(1) =~= Seq::<AudioChunk>::empty());
        assert(cs.push(c)[0] == c);
        assert(chunks_span(cs.push(c)) == c.samples@.len() + chunks_span(
            Seq::<AudioChunk>::empty(),
        ));
    } else {
        assert(cs.push(c).skip(1) =~= cs.skip(1).push(c));
        lemma_chunks_span_push(cs.skip(1), c);
        assert(cs.push(c)[0] == cs[0]);
        assert(chunks_span(cs.push(c)) == cs[0].samples@.len() + chunks_span(
            cs.skip(1).push(c),
        ));
    }
}

/// Each chunk ends no later than the next begins; the last ends no later
/// than `bound`.
pub open spec fn chunks_ordered(cs: Seq<AudioChunk>, bound: int) -> bool {
    forall|i: int| 0 <= i < cs.len() ==> (#[trigger] cs[i]).end_sample() <= (
    if i + 1 < cs.len() {
        cs[i + 1].start_sample as int
    } else {
        bound
    })
}

proof fn lemma_span_le(cs: Seq<AudioChunk>, bound: int)
    requires
        chunks_ordered(cs, bound),
        cs.len() > 0,
    ensures
        chunks_span(cs) + cs[0].start_sample <= bound,
    decreases cs.len(),
{
    let rest = cs.skip(1);
    assert(chunks_span(cs) == cs[0].samples@.len() + chunks_span(rest));
    if rest.len() == 0 {
        assert(cs[0].end_sample() <= bound);
        assert(chunks_span(rest) == 0);
    } else {
        assert forall|i: int| 0 <= i < rest.len() implies (#[trigger] rest[i]).end_sample() <= (
        if i + 1 < rest.len() {
            rest[i + 1].start_sample as int
        } else {
            bound
        }) by {
            assert(cs[i + 1].end_sample() <= (if i + 2 < cs.len() {
                cs[i + 2].start_sample as int
            } else {
                bound
            }));
        }
        lemma_span_le(rest, bound);
        assert(cs[0].end_sample() <= rest[0].start_sample);
    }
}

proof fn lemma_tiles_exact(cs: Seq<AudioChunk>, bound: int)
    requires
        chunks_ordered(cs, bound),
        cs.len() > 0,
        chunks_span(cs) + cs[0].start_sample == bound,
    ensures
        forall|i: int| 0 <= i < cs.len() ==> (#[trigger] cs[i]).end_sample() == (
        if i + 1 < cs.len() {
            cs[i + 1].start_sample as int
        } else {
            bound
        }),
    decreases cs.len(),
{
    let rest = cs.skip(1);
    assert(chunks_span(cs) == cs[0].samples@.len() + chunks_span(rest));
    if rest.len() == 0 {
        assert(chunks_span(rest) == 0);
        assert(cs[0].end_sample() <= bound);
        assert(cs[0].end_sample() == bound);
    } else {
        assert forall|i: int| 0 <= i < rest.len() implies (#[trigger] rest[i]).end_sample() <= (
        if i + 1 < rest.len() {
            rest[i + 1].start_sample as int
        } else {
            bound
        }) by {
            assert(cs[i + 1].end_sample() <= (if i + 2 < cs.len() {
                cs[i + 2].start_sample as int
            } else {
                bound
            }));
        }
        lemma_span_le(rest, bound);
        assert(cs[0].end_sample() == rest[0].start_sample);
        lemma_tiles_exact(rest, bound);
        assert forall|i: int| 0 <= i < cs.len() implies (#[trigger] cs[i]).end_sample() == (
        if i + 1 < cs.len() {
            cs[i + 1].start_sample as int
        } else {
            bound
        }) by {
            if i >= 1 {
                assert(rest[i - 1].end_sample() == (if i < rest.len() {
                    rest[i].start_sample as int
                } else {
                    bound
                }));
            }
        }
    }
}

/// Chunk-based dispatch for one recording session: accumulates conditioned
/// audio, cuts it into chunks on the detector's decisions, and keeps the
/// per-chunk transcripts sorted by id. The single background worker that
/// actually decodes lives outside; it takes the chunks this type emits and
/// hands their raw transcripts back to `record_result`.
pub struct ChunkProcessor {
    /// The per-session voice-activity detector.
    pub vad: VoiceActivityDetector,
    /// Every chunk cut so far, in submission (and id) order.
    pub chunks: Vec<AudioChunk>,
    /// Transcripts recorded so far, kept sorted by ascending id.
    pub results: Vec<ChunkResult>,
    /// Id the next chunk will carry.
    pub next_chunk_id: u64,
    /// Audio accumulated since the last chunk boundary.
    pub current_buffer: Vec<i32>,
    /// Where the current buffer starts on the session timeline.
    pub chunk_start_sample: u64,
    /// All samples processed this session.
    pub total_samples_processed: u64,
    /// Samples discarded with silence-only (skipped) chunks.
    pub skipped_samples: u64,
    /// Sample rate of the conditioned stream, Hz.
    pub sample_rate: u32,
    /// Language hint for the decoder, if fixed.
    pub language: Option<String>,
    /// Decoding parameters for the worker.
    pub optimization: Option<WhisperOptimizationParams>,
}

impl ChunkProcessor {
    /// Internal consistency: the detector tracks the same stream, the
    /// buffer continues the timeline seamlessly, emitted chunks tile the
    /// timeline up to the skipped silence, and results stay sorted.
    pub open spec fn wf(&self) -> bool {
        &&& self.vad.wf()
        &&& self.vad.sample_rate == self.sample_rate
        &&& self.sample_rate >= 1
        &&& self.vad.total_samples == self.total_samples_processed
        &&& self.chunk_start_sample + self.current_buffer@.len()
            == self.total_samples_processed
        &&& chunks_span(self.chunks@) + self.skipped_samples == self.chunk_start_sample
        &&& chunks_ordered(self.chunks@, self.chunk_start_sample as int)
        &&& sorted_by_id(self.results@)
    }

    /// A fresh processor for one session.
    pub fn new(
        sample_rate: u32,
        language: Option<String>,
        optimization: Option<WhisperOptimizationParams>,
        vad_strategy: VadStrategy,
    ) -> (r: Self)
        requires
            sample_rate >= 1,
        ensures
            r.wf(),
            r.sample_rate == sample_rate,
            r.vad.strategy == vad_strategy,
            r.language == language,
            r.chunks@.len() == 0,
            r.results@.len() == 0,
            r.next_chunk_id == 0,
            r.current_buffer@.len() == 0,
            r.chunk_start_sample == 0,
            r.total_samples_processed == 0,
            r.skipped_samples == 0,
    {
        ChunkProcessor {
            vad: VoiceActivityDetector::new_with_strategy(sample_rate, vad_strategy),
            chunks: Vec::new(),
            results: Vec::new(),
            next_chunk_id: 0,
            current_buffer: Vec::new(),
            chunk_start_sample: 0,
            total_samples_processed: 0,
            skipped_samples: 0,
            sample_rate,
            language,
            optimization,
        }
    }

    /// Cut the buffered audio into a chunk: record it and hand it to the
    /// caller for dispatch. An empty buffer yields no chunk.
    fn create_chunk(&mut self) -> (r: Option<AudioChunk>)
        requires
            old(self).wf(),
            old(self).next_chunk_id < u64::MAX,
        ensures
            final(self).wf(),
            old(self).current_buffer@.len() == 0 ==> (r is None && *final(self) == *old(self)),
            old(self).current_buffer@.len() > 0 ==> (match r {
                Some(c) => {
                    &&& c.id == old(self).next_chunk_id
                    &&& c.samples@ == old(self).current_buffer@
                    &&& c.start_sample == old(self).chunk_start_sample
                    &&& final(self).chunks@.len() == old(self).chunks@.len() + 1
                    &&& final(self).chunks@.drop_last() =~= old(self).chunks@
                    &&& final(self).chunks@.last().id == c.id
                    &&& final(self).chunks@.last().samples@ == c.samples@
                    &&& final(self).chunks@.last().start_sample == c.start_sample
                    &&& final(self).next_chunk_id == old(self).next_chunk_id + 1
                    &&& final(self).current_buffer@.len() == 0
                    &&& final(self).chunk_start_sample == old(self).total_samples_processed
                },
                None => false,
            }),
            final(self).results@ == old(self).results@,
            final(self).vad == old(self).vad,
            final(self).total_samples_processed == old(self).total_samples_processed,
            final(self).skipped_samples == old(self).skipped_samples,
            final(self).sample_rate == old(self).sample_rate,
    {
        if self.current_buffer.len() == 0 {
            return None;
        }
        let samples_out = copy_samples(&self.current_buffer);
        let samples_kept = copy_samples(&self.current_buffer);
        let chunk = AudioChunk {
            id: self.next_chunk_id,
            samples: samples_out,
            start_sample: self.chunk_start_sample,
        };
        let kept = AudioChunk {
            id: self.next_chunk_id,
            samples: samples_kept,
            start_sample: self.chunk_start_sample,
        };
        let ghost pre = *self;
        self.chunks.push(kept);
        self.next_chunk_id = self.next_chunk_id + 1;
        self.current_buffer.clear();
        self.chunk_start_sample = self.total_samples_processed;
        proof {
            lemma_chunks_span_push(pre.chunks@, self.chunks@.last());
            assert(self.chunks@.drop_last() =~= pre.chunks@);
            assert forall|i: int| 0 <= i < self.chunks@.len() implies (
            #[trigger] self.chunks@[i]).end_sample() <= (if i + 1 < self.chunks@.len() {
                self.chunks@[i + 1].start_sample as int
            } else {
                self.chunk_start_sample as int
            }) by {
                if i < pre.chunks@.len() {
                    assert(pre.chunks@[i].end_sample() <= (if i + 1 < pre.chunks@.len() {
                        pre.chunks@[i + 1].start_sample as int
                    } else {
                        pre.chunk_start_sample as int
                    }));
                }
            }
        }
        Some(chunk)
    }

    /// Feed one conditioned frame (roughly 100 ms of audio): the audio
    /// joins the chunk in progress, the detector classifies the frame, and
    /// on a split the closed chunk comes back for dispatch to the worker.
    /// A skip discards the buffered silence instead. `now_ms` is the
    /// caller's monotonic clock reading.
    pub fn process_audio(&mut self, samples: &Vec<i32>, now_ms: u64) -> (r: Option<AudioChunk>)
        requires
            old(self).wf(),
            old(self).total_samples_processed + samples@.len() <= u64::MAX,
            old(self).vad.chunk_samples + samples@.len() <= u64::MAX,
            old(self).vad.total_frames < u64::MAX,
            old(self).next_chunk_id < u64::MAX,
        ensures
            final(self).wf(),
            final(self).total_samples_processed == old(self).total_samples_processed
                + samples@.len(),
            final(self).sample_rate == old(self).sample_rate,
            final(self).results@ == old(self).results@,
            // a split with audio in hand emits exactly one chunk
            (r is Some) == (old(self).vad.decision_splits(samples@, now_ms) && old(
                self,
            ).current_buffer@.len() + samples@.len() > 0),
            match r {
                Some(c) => {
                    &&& c.id == old(self).next_chunk_id
                    &&& c.samples@ == old(self).current_buffer@ + samples@
                    &&& c.start_sample == old(self).chunk_start_sample
                    &&& final(self).chunks@.len() == old(self).chunks@.len() + 1
                    &&& final(self).next_chunk_id == old(self).next_chunk_id + 1
                    &&& final(self).current_buffer@.len() == 0
                    &&& final(self).skipped_samples == old(self).skipped_samples
                },
                None => final(self).chunks@ == old(self).chunks@ && final(self).next_chunk_id
                    == old(self).next_chunk_id,
            },
            // a skip discards the buffered audio as silence
            old(self).vad.decision_skips(samples@, now_ms) ==> (final(self).current_buffer@.len()
                == 0 && final(self).skipped_samples == old(self).skipped_samples + old(
                self,
            ).current_buffer@.len() + samples@.len()),
            // otherwise the audio stays buffered for the growing chunk
            (!old(self).vad.decision_splits(samples@, now_ms) && !old(self).vad.decision_skips(
                samples@,
                now_ms,
            )) ==> final(self).current_buffer@ == old(self).current_buffer@ + samples@,
    {
        let mut add = copy_samples(samples);
        self.current_buffer.append(&mut add);
        let n: u64 = samples.len() as u64;
        self.total_samples_processed = self.total_samples_processed + n;
        let decision = self.vad.process_audio(samples, now_ms);
        match decision {
            SplitDecision::Split { reason: _ } => self.create_chunk(),
            SplitDecision::Skip => {
                proof {
                    lemma_chunks_span_nonneg(self.chunks@);
                }
                let len: u64 = self.current_buffer.len() as u64;
                self.skipped_samples = self.skipped_samples + len;
                self.current_buffer.clear();
                self.chunk_start_sample = self.total_samples_processed;
                proof {
                    assert(chunks_ordered(self.chunks@, self.chunk_start_sample as int));
                }
                None
            },
            SplitDecision::Continue => None,
        }
    }

    /// Close the session's tail: when the remaining buffered audio rises
    /// above the fixed noise floor (an RMS of 0.005 full scale), it becomes
    /// one final chunk; quieter remains are left unsent.
    pub fn flush(&mut self) -> (r: Option<AudioChunk>)
        requires
            old(self).wf(),
            old(self).next_chunk_id < u64::MAX,
        ensures
            final(self).wf(),
            final(self).results@ == old(self).results@,
            (r is Some) == (old(self).current_buffer@.len() > 0 && frame_has_speech(
                old(self).current_buffer@,
                5000,
            )),
            match r {
                Some(c) => {
                    &&& c.id == old(self).next_chunk_id
                    &&& c.samples@ == old(self).current_buffer@
                    &&& c.start_sample == old(self).chunk_start_sample
                    &&& final(self).current_buffer@.len() == 0
                },
                None => *final(self) == *old(self),
            },
    {
        if self.current_buffer.len() == 0 {
            return None;
        }
        if has_speech_frame(&self.current_buffer, 5000) {
            self.create_chunk()
        } else {
            None
        }
    }

    /// Record the raw transcript of one decoded chunk. The noise filter
    /// runs first; text that it empties yields no result. A kept result is
    /// inserted so the collection stays sorted by id at all times.
    pub fn record_result(
        &mut self,
        id: u64,
        raw_text: &str,
        start_sample: u64,
        end_sample: u64,
        processing_ms: u64,
    ) -> (stored: bool)
        requires
            old(self).wf(),
        ensures
            final(self).wf(),
            stored == (filter_noise_spec(raw_text@).len() > 0),
            !stored ==> *final(self) == *old(self),
            stored ==> exists|p: int|
                0 <= p <= old(self).results@.len()
                    && final(self).results@ =~= old(self).results@.insert(p, final(self).results@[p])
                    && (#[trigger] final(self).results@[p]).id == id
                    && final(self).results@[p].text@ == filter_noise_spec(raw_text@)
                    && final(self).results@[p].start_sample == start_sample
                    && final(self).results@[p].end_sample == end_sample
                    && final(self).results@[p].processing_ms == processing_ms,
            final(self).chunks@ == old(self).chunks@,
            final(self).vad == old(self).vad,
            final(self).current_buffer@ == old(self).current_buffer@,
            final(self).total_samples_processed == old(self).total_samples_processed,
            sorted_by_id(final(self).results@),
    {
        let text = filter_noise_text(raw_text);
        if text.as_str().is_empty() {
            return false;
        }
        let mut p: usize = 0;
        while p < self.results.len() && self.results[p].id <= id
            invariant
                p <= self.results@.len(),
                forall|k: int| 0 <= k < p ==> (#[trigger] self.results@[k]).id <= id,
            decreases self.results@.len() - p,
        {
            p = p + 1;
        }
        proof {
            if p < self.results@.len() {
                assert(self.results@[p as int].id > id);
            }
        }
        let ghost pre = self.results@;
        let ghost pi = p as int;
        self.results.insert(
            p,
            ChunkResult { id, text, start_sample, end_sample, processing_ms },
        );
        proof {
            assert(self.results@[pi].id == id);
            assert(self.results@ =~= pre.insert(pi, self.results@[pi]));
            assert forall|i: int, j: int|
                0 <= i < j < self.results@.len() implies #[trigger] self.results@[i].id
                <= #[trigger] self.results@[j].id by {
                if i < p && j < p {
                    assert(pre[i].id <= pre[j].id);
                } else if i < p && j == p {
                } else if i < p && j > p {
                    assert(pre[i].id <= pre[j - 1].id);
                } else if i == p {
                    if j > p {
                        assert(pre[j - 1].id >= pre[p as int].id);
                    }
                } else {
                    assert(pre[i - 1].id <= pre[j - 1].id);
                }
            }
        }
        true
    }

    /// All accumulated results, ordered by ascending chunk id. The caller
    /// stops and joins the worker before reading, so every recorded chunk
    /// is in.
    pub fn finish(&self) -> (r: Vec<ChunkResult>)
        requires
            self.wf(),
        ensures
            r@ =~= self.results@,
            sorted_by_id(r@),
    {
        let mut r: Vec<ChunkResult> = Vec::new();
        let mut i: usize = 0;
        while i < self.results.len()
            invariant
                i <= self.results@.len(),
                r@ =~= self.results@.take(i as int),
            decreases self.results@.len() - i,
        {
            let src = &self.results[i];
            let cr = ChunkResult {
                id: src.id,
                text: src.text.clone(),
                start_sample: src.start_sample,
                end_sample: src.end_sample,
                processing_ms: src.processing_ms,
            };
            r.push(cr);
            i = i + 1;
            proof {
                assert(r@ =~= self.results@.take(i as int));
            }
        }
        proof {
            assert(self.results@.take(self.results@.len() as int) =~= self.results@);
        }
        r
    }

    /// Chunk tiling: when no silence-only chunk was skipped and the buffer
    /// has been flushed, the emitted chunks cover the session's processed
    /// audio exactly — the first starts at zero, each later chunk starts
    /// where the previous one ended, and their durations sum to the whole
    /// processed duration.
    pub proof fn lemma_chunks_tile(&self)
        requires
            self.wf(),
            self.skipped_samples == 0,
            self.current_buffer@.len() == 0,
        ensures
            chunks_span(self.chunks@) == self.total_samples_processed,
            self.chunks@.len() > 0 ==> self.chunks@[0].start_sample == 0,
            forall|i: int| 0 <= i < self.chunks@.len() ==> (#[trigger] self.chunks@[i]).end_sample()
                == (if i + 1 < self.chunks@.len() {
                    self.chunks@[i + 1].start_sample as int
                } else {
                    self.total_samples_processed as int
                }),
    {
        if self.chunks@.len() > 0 {
            lemma_span_le(self.chunks@, self.chunk_start_sample as int);
            assert(self.chunks@[0].start_sample == 0);
            lemma_tiles_exact(self.chunks@, self.chunk_start_sample as int);
        }
    }
}

/// Concatenate the ordered chunk transcripts into one string, trimming
/// duplicated overlaps at chunk boundaries and skipping chunks whose text
/// is empty or already contained in the accumulated transcript.
pub fn combine_results(results: &Vec<ChunkResult>) -> (r: String)
    ensures
        r@ == combine_spec(results@),
{
    let ghost texts = texts_of(results@);
    let mut acc: Vec<char> = Vec::new();
    let mut i: usize = 0;
    proof {
        assert(texts.skip(0) =~= texts);
    }
    while i < results.len()
        invariant
            i <= results@.len(),
            texts == texts_of(results@),
            combine_texts(texts, Seq::empty()) == combine_texts(texts.skip(i as int), acc@),
        decreases results@.len() - i,
    {
        proof {
            assert(texts.skip(i as int)[0] == texts[i as int]);
            assert(texts[i as int] == results@[i as int].text@);
            assert(texts.skip(i as int).skip(1) =~= texts.skip(i + 1));
        }
        let tv = chars_of(results[i].text.as_str());
        acc = merge_with_overlap(acc, &tv);
        i = i + 1;
    }
    proof {
        assert(texts.skip(results@.len() as int) =~= Seq::<Seq<char>>::empty());
    }
    string_from_chars(&acc)
}

} // verus!

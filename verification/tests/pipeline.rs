use hootvoice::capture::{select_input_device, SessionEpoch};
use hootvoice::chunk::{combine_results, ChunkProcessor, ChunkResult};
use hootvoice::samples::{apply_gain, downmix, is_silent_frame, resample};
use hootvoice::vad::{SplitDecision, VadStrategy, VoiceActivityDetector};
use hootvoice::watchdog::SessionWatchdog;

const RATE: u32 = 16_000;
const FRAME: usize = 1_600; // 100 ms at 16 kHz

fn frame_of(amplitude: i32) -> Vec<i32> {
    vec![amplitude; FRAME]
}

fn result(id: u64, text: &str) -> ChunkResult {
    ChunkResult {
        id,
        text: text.to_string(),
        start_sample: 0,
        end_sample: 0,
        processing_ms: 0,
    }
}

#[test]
fn combine_single_result_is_identity() {
    let rs = vec![result(0, "hello world")];
    assert_eq!(combine_results(&rs), "hello world");
}

#[test]
fn combine_trims_duplicated_overlap() {
    let rs = vec![result(0, "hello wor"), result(1, "world foo")];
    assert_eq!(combine_results(&rs), "hello world foo");
}

#[test]
fn combine_skips_fully_contained_chunk() {
    let rs = vec![result(0, "abc def"), result(1, "def")];
    assert_eq!(combine_results(&rs), "abc def");
}

#[test]
fn combine_skips_blank_chunks() {
    let rs = vec![result(0, "  "), result(1, "say"), result(2, "")];
    assert_eq!(combine_results(&rs), "say");
}

#[test]
fn loud_frame_resets_the_silence_timer() {
    let mut vad = VoiceActivityDetector::new_with_strategy(RATE, VadStrategy::Normal);
    let quiet = frame_of(100); // RMS 0.0001
    let loud = frame_of(50_000); // RMS 0.05
    let mut now: u64 = 0;
    for _ in 0..10 {
        now += 100;
        vad.process_audio(&quiet, now);
    }
    assert!(vad.silence_started.is_some());
    now += 100;
    vad.process_audio(&loud, now);
    assert!(vad.silence_started.is_none());
}

#[test]
fn split_needs_a_continuous_quiet_run() {
    let mut vad = VoiceActivityDetector::new_with_strategy(RATE, VadStrategy::Normal);
    let quiet = frame_of(100);
    let loud = frame_of(50_000);
    let mut now: u64 = 0;
    // 4 seconds of alternating loud/quiet: the timer is reset before the
    // required 2 seconds of silence ever accumulate
    for i in 0..40 {
        now += 100;
        let d = if i % 2 == 0 {
            vad.process_audio(&loud, now)
        } else {
            vad.process_audio(&quiet, now)
        };
        assert!(matches!(d, SplitDecision::Continue));
    }
    // then 2 full seconds of continuous quiet close the chunk
    let mut split_seen = false;
    for _ in 0..21 {
        now += 100;
        match vad.process_audio(&quiet, now) {
            SplitDecision::Split { reason } => {
                assert_eq!(reason, "silence");
                split_seen = true;
            }
            SplitDecision::Skip => panic!("chunk had plenty of speech"),
            SplitDecision::Continue => {}
        }
    }
    assert!(split_seen);
}

#[test]
fn silence_only_chunk_is_skipped() {
    let mut vad = VoiceActivityDetector::new_with_strategy(RATE, VadStrategy::Normal);
    let quiet = frame_of(100);
    let mut now: u64 = 0;
    let mut skipped = false;
    for _ in 0..60 {
        now += 100;
        match vad.process_audio(&quiet, now) {
            SplitDecision::Skip => {
                skipped = true;
                break;
            }
            SplitDecision::Split { .. } => panic!("no speech was fed"),
            SplitDecision::Continue => {}
        }
    }
    assert!(skipped);
}

#[test]
fn max_duration_forces_a_split() {
    let mut vad = VoiceActivityDetector::new_with_strategy(RATE, VadStrategy::Normal);
    let loud = frame_of(50_000);
    let mut now: u64 = 0;
    let mut forced = None;
    for i in 0..300 {
        now += 100;
        if let SplitDecision::Split { reason } = vad.process_audio(&loud, now) {
            forced = Some((i, reason));
            break;
        }
    }
    let (i, reason) = forced.expect("the 30 s bound must force a split");
    assert_eq!(i, 299); // exactly at 30 s of accumulated audio
    assert_eq!(reason, "max duration");
}

#[test]
fn end_to_end_loud_then_silence_yields_one_chunk() {
    let mut proc = ChunkProcessor::new(RATE, None, None, VadStrategy::Normal);
    let loud = frame_of(50_000);
    let quiet = frame_of(100);
    let mut now: u64 = 0;
    let mut emitted = Vec::new();
    for _ in 0..50 {
        now += 100;
        if let Some(c) = proc.process_audio(&loud, now) {
            emitted.push(c);
        }
    }
    for _ in 0..25 {
        now += 100;
        if let Some(c) = proc.process_audio(&quiet, now) {
            emitted.push(c);
        }
    }
    // exactly one split, attributed to the trailing silence
    assert_eq!(emitted.len(), 1);
    let chunk = &emitted[0];
    assert_eq!(chunk.id, 0);
    assert_eq!(chunk.start_sample, 0);
    // the chunk covers the 5 s of speech plus the 2 s of silence that
    // closed it: frames 1..=71, i.e. 7.1 s of audio
    assert_eq!(chunk.samples.len(), 71 * FRAME);
    let stored = proc.record_result(
        chunk.id,
        "hello there",
        chunk.start_sample,
        chunk.start_sample + chunk.samples.len() as u64,
        42,
    );
    assert!(stored);
    let results = proc.finish();
    assert_eq!(results.len(), 1);
    assert_eq!(results[0].text, "hello there");
    assert_eq!(results[0].start_sample, 0);
    assert_eq!(results[0].end_sample, (71 * FRAME) as u64);
}

#[test]
fn chunks_tile_the_processed_timeline() {
    let mut proc = ChunkProcessor::new(RATE, None, None, VadStrategy::Normal);
    let loud = frame_of(50_000);
    let quiet = frame_of(100);
    let mut now: u64 = 0;
    // two spoken stretches, each closed by silence
    for _ in 0..2 {
        for _ in 0..50 {
            now += 100;
            proc.process_audio(&loud, now);
        }
        for _ in 0..25 {
            now += 100;
            proc.process_audio(&quiet, now);
        }
        // speech cancels the silence run before the next stretch
    }
    // flush whatever is left (it contains speech onsets, so it is loud
    // enough only if its RMS clears the floor)
    let _ = proc.flush();
    assert!(proc.chunks.len() >= 2);
    assert_eq!(proc.chunks[0].start_sample, 0);
    for w in proc.chunks.windows(2) {
        assert_eq!(
            w[0].start_sample + w[0].samples.len() as u64,
            w[1].start_sample
        );
    }
}

#[test]
fn results_are_sorted_by_id_regardless_of_insertion_order() {
    let mut proc = ChunkProcessor::new(RATE, None, None, VadStrategy::Normal);
    assert!(proc.record_result(2, "third", 4, 6, 1));
    assert!(proc.record_result(0, "first", 0, 2, 1));
    assert!(proc.record_result(1, "second", 2, 4, 1));
    let rs = proc.finish();
    let ids: Vec<u64> = rs.iter().map(|r| r.id).collect();
    assert_eq!(ids, vec![0, 1, 2]);
    // concatenation is overlap-aware but adds no separator of its own
    assert_eq!(combine_results(&rs), "firstsecondthird");
}

#[test]
fn noise_only_result_is_dropped() {
    let mut proc = ChunkProcessor::new(RATE, None, None, VadStrategy::Normal);
    assert!(!proc.record_result(0, "(music) ", 0, 2, 1));
    assert!(proc.finish().is_empty());
}

#[test]
fn flush_respects_the_noise_floor() {
    let mut quiet_proc = ChunkProcessor::new(RATE, None, None, VadStrategy::Normal);
    let quiet = frame_of(100);
    quiet_proc.process_audio(&quiet, 100);
    assert!(quiet_proc.flush().is_none());

    let mut loud_proc = ChunkProcessor::new(RATE, None, None, VadStrategy::Normal);
    let loud = frame_of(50_000);
    loud_proc.process_audio(&loud, 100);
    let tail = loud_proc.flush().expect("audible tail becomes a final chunk");
    assert_eq!(tail.samples.len(), FRAME);
}

#[test]
fn watchdog_fires_each_trigger_at_most_once() {
    let mut dog = SessionWatchdog::new(VadStrategy::Normal, 1_000, 0);
    let quiet = frame_of(100);
    let loud = frame_of(50_000);
    assert!(!dog.observe_frame(&quiet, 100));
    assert!(!dog.observe_frame(&loud, 200)); // speech clears the run
    assert!(!dog.observe_frame(&quiet, 300));
    assert!(!dog.observe_frame(&quiet, 1_200));
    assert!(dog.observe_frame(&quiet, 1_400)); // 1.1 s of continuous quiet
    assert!(!dog.observe_frame(&quiet, 9_000)); // one-shot

    let mut dog2 = SessionWatchdog::new(VadStrategy::Normal, 0, 600_000);
    assert!(!dog2.check_max_duration(599_999));
    assert!(dog2.check_max_duration(600_000));
    assert!(!dog2.check_max_duration(700_000)); // one-shot
}

#[test]
fn device_selection_order_and_stale_callbacks() {
    let names = vec![
        "Internal Microphone".to_string(),
        "USB Audio".to_string(),
        "USB Audio".to_string(),
    ];
    // explicit index wins
    assert_eq!(select_input_device(&names, Some(1), Some("Internal Microphone")), Some(1));
    // an out-of-range index degrades to the name match, first match wins
    assert_eq!(select_input_device(&names, Some(9), Some("USB Audio")), Some(1));
    assert_eq!(select_input_device(&names, None, Some("USB Audio")), Some(1));
    // nothing matched: the caller falls back to the system default
    assert_eq!(select_input_device(&names, None, Some("Line In")), None);
    assert_eq!(select_input_device(&names, None, None), None);

    let mut epoch = SessionEpoch::new();
    let session = epoch.start_capture();
    assert!(epoch.callback_is_live(session));
    epoch.stop_capture();
    // a callback from the stopped stream is stale and must discard
    assert!(!epoch.callback_is_live(session));
    let session2 = epoch.start_capture();
    assert!(epoch.callback_is_live(session2));
    assert!(!epoch.callback_is_live(session));
}

#[test]
fn conditioner_downmix_resample_gain() {
    // stereo frames averaged to mono
    let stereo = vec![1000, 3000, -1000, -3000, 500, 501];
    assert_eq!(downmix(&stereo, 2), vec![2000, -2000, 500]);
    // same-rate resample is the identity
    let mono = vec![10, 20, 30, 40];
    assert_eq!(resample(&mono, 16_000, 16_000), vec![10, 20, 30, 40]);
    // 2:1 downsample keeps every other sample exactly
    assert_eq!(resample(&mono, 32_000, 16_000), vec![10, 30]);
    // 1:2 upsample interpolates midpoints
    assert_eq!(resample(&vec![0, 100], 8_000, 16_000), vec![0, 50, 100, 100]);
    // gain in thousandths
    assert_eq!(apply_gain(&vec![1000, -1000], 1_500), vec![1500, -1500]);
    assert_eq!(apply_gain(&vec![1000], 0), vec![0]);
    // silence decision is exact
    assert!(is_silent_frame(&frame_of(100), 5_000));
    assert!(!is_silent_frame(&frame_of(50_000), 5_000));
}

use omegawhisper::speech::{
    join_points, keep_recent, long_pauses, pause_cuts, speech_span, splice_ranges, PauseRules,
    FRAME, JOIN_FADE, RECENT_KEEP,
};

// One flag per 30 ms frame: (how many frames, are they loud).
fn flags(spec: &[(usize, bool)]) -> Vec<bool> {
    let mut out = Vec::new();
    for &(count, loud) in spec {
        out.extend(std::iter::repeat(loud).take(count));
    }
    out
}

const LOUD: bool = true;
const QUIET: bool = false;

// 5 s of speech, so the pause that follows is past the protected opening.
const PAST_THE_OPENING: usize = 170;

// What Settings starts out saying: 2.2 s, first 3 s protected.
fn rules() -> PauseRules {
    PauseRules {
        cutoff_ms: 2200,
        protect_opening_ms: Some(3000),
    }
}

#[test]
fn a_long_pause_is_found_between_two_spoken_stretches() {
    let loud = flags(&[(PAST_THE_OPENING, LOUD), (100, QUIET), (20, LOUD)]);
    assert_eq!(long_pauses(&loud, rules()), vec![(170, 270)]);
}

#[test]
fn a_long_pause_is_cut_down_to_about_a_third_of_a_second() {
    let loud = flags(&[(PAST_THE_OPENING, LOUD), (100, QUIET), (20, LOUD)]);
    let samples = loud.len() * FRAME;
    let pauses = long_pauses(&loud, rules());
    let kept = pause_cuts(&pauses, samples);
    assert_eq!(kept, vec![(0, 175 * 480), (265 * 480 + 80, samples)]);
    let kept_samples: usize = kept.iter().map(|(a, b)| b - a).sum();
    // 2.705 s at 16 kHz.
    assert_eq!(samples - kept_samples, 43_280);
    // What is left of the pause: the quiet samples still kept, less the
    // stretch blended across the join.
    let left = (175 - 170) * 480 + (270 * 480 - (265 * 480 + 80));
    assert_eq!(left, 4_720, "0.295 s of the pause survives");
}

#[test]
fn both_of_two_long_pauses_are_shortened() {
    let loud = flags(&[
        (PAST_THE_OPENING, LOUD),
        (100, QUIET),
        (20, LOUD),
        (100, QUIET),
        (20, LOUD),
    ]);
    let samples = loud.len() * FRAME;
    let pauses = long_pauses(&loud, rules());
    assert_eq!(pauses, vec![(170, 270), (290, 390)]);
    let kept = pause_cuts(&pauses, samples);
    let kept_samples: usize = kept.iter().map(|(a, b)| b - a).sum();
    assert_eq!(kept_samples, 110_240);
}

#[test]
fn recordings_without_a_long_pause_have_none() {
    let cases: &[(Vec<bool>, &str)] = &[
        (flags(&[(40, LOUD)]), "speech with no pause in it at all"),
        (
            flags(&[(PAST_THE_OPENING, LOUD), (20, QUIET), (20, LOUD)]),
            "a 0.6 s pause: normal breathing",
        ),
        (
            flags(&[(PAST_THE_OPENING, LOUD), (50, QUIET), (20, LOUD)]),
            "1.5 s: still a breath between sentences",
        ),
        (
            flags(&[(PAST_THE_OPENING, LOUD), (72, QUIET), (20, LOUD)]),
            "2.16 s, one frame under the 2.2 s the settings start at",
        ),
        (
            flags(&[(100, QUIET), (20, LOUD), (100, QUIET)]),
            "a quiet start and end are not pauses",
        ),
        (Vec::new(), "nothing recorded"),
        (flags(&[(50, QUIET)]), "silence"),
    ];
    for (loud, what) in cases {
        assert!(long_pauses(loud, rules()).is_empty(), "{what}");
        let samples = loud.len() * FRAME;
        assert_eq!(pause_cuts(&Vec::new(), samples), vec![(0, samples)], "{what}: untouched");
    }
}

#[test]
fn pauses_in_the_opening_seconds_are_left_alone() {
    let cases: &[(Vec<bool>, &str)] = &[
        (
            flags(&[(20, LOUD), (100, QUIET), (20, LOUD)]),
            "a 3 s pause 0.6 s in",
        ),
        (
            flags(&[(99, LOUD), (100, QUIET), (20, LOUD)]),
            "one frame short of the opening being over",
        ),
        (
            flags(&[(100, QUIET), (20, LOUD), (100, QUIET), (20, LOUD)]),
            "the opening is counted from the first word, not from the file",
        ),
    ];
    for (loud, what) in cases {
        assert!(long_pauses(loud, rules()).is_empty(), "{what}");
    }
    let loud = flags(&[(100, LOUD), (100, QUIET), (20, LOUD)]);
    assert_eq!(long_pauses(&loud, rules()), vec![(100, 200)], "just after the opening");
}

#[test]
fn switching_the_opening_off_allows_an_early_pause() {
    let loud = flags(&[(20, LOUD), (100, QUIET), (20, LOUD)]);
    assert!(long_pauses(&loud, rules()).is_empty());
    let open = PauseRules {
        protect_opening_ms: None,
        ..rules()
    };
    assert_eq!(long_pauses(&loud, open), vec![(20, 120)]);
}

#[test]
fn the_opening_length_decides_what_is_protected() {
    let cases: &[(u32, bool, &str)] = &[
        (5000, false, "a 5 s opening covers a pause 3 s in"),
        (3000, true, "exactly on the line"),
        (1000, true, "a 1 s opening does not reach it"),
        (0, true, "no opening at all"),
    ];
    for &(opening_ms, expected, what) in cases {
        let loud = flags(&[(100, LOUD), (100, QUIET), (20, LOUD)]);
        let found = long_pauses(
            &loud,
            PauseRules {
                protect_opening_ms: Some(opening_ms),
                ..rules()
            },
        );
        assert_eq!(!found.is_empty(), expected, "{what}");
    }
}

#[test]
fn the_cutoff_decides_which_pauses_count() {
    let cases: &[(u32, bool, &str)] = &[
        (2200, false, "the default leaves a 2 s pause alone"),
        (2000, true, "exactly on the cutoff"),
        (1000, true, "a low cutoff reaches it"),
        (30_000, false, "a cutoff longer than any real pause"),
        (0, true, "a nonsense cutoff still keeps the minimum length"),
        (u32::MAX, false, "the largest cutoff there is"),
    ];
    for &(cutoff_ms, expected, what) in cases {
        let loud = flags(&[(PAST_THE_OPENING, LOUD), (67, QUIET), (20, LOUD)]);
        let found = long_pauses(&loud, PauseRules { cutoff_ms, ..rules() });
        assert_eq!(!found.is_empty(), expected, "{what}");
    }
    // Never shorter than what is kept of a pause plus one frame.
    let loud = flags(&[(PAST_THE_OPENING, LOUD), (10, QUIET), (20, LOUD)]);
    assert!(long_pauses(&loud, PauseRules { cutoff_ms: 0, ..rules() }).is_empty());
    let loud = flags(&[(PAST_THE_OPENING, LOUD), (11, QUIET), (20, LOUD)]);
    assert_eq!(long_pauses(&loud, PauseRules { cutoff_ms: 0, ..rules() }), vec![(170, 181)]);
}

#[test]
fn only_the_quiet_start_and_end_are_trimmed() {
    let loud = flags(&[(40, QUIET), (40, LOUD), (40, QUIET)]);
    let samples = loud.len() * FRAME;
    let (start, end) = speech_span(&loud, samples).unwrap();
    assert_eq!(start, 11_520, "0.72 s removed from the front");
    assert_eq!(end - start, 34_560, "length after trimming");
}

#[test]
fn a_pause_in_the_middle_is_never_trimmed() {
    let loud = flags(&[(20, LOUD), (40, QUIET), (20, LOUD)]);
    let samples = loud.len() * FRAME;
    assert_eq!(speech_span(&loud, samples), Some((0, samples)));
}

#[test]
fn a_recording_with_no_speech_is_not_trimmed() {
    let loud = flags(&[(20, QUIET)]);
    assert_eq!(speech_span(&loud, loud.len() * FRAME), None);
    assert_eq!(speech_span(&Vec::new(), 0), None);
}

#[test]
fn a_quiet_tail_is_trimmed_without_touching_the_front() {
    let loud = flags(&[(40, LOUD), (40, QUIET)]);
    let samples = loud.len() * FRAME;
    assert_eq!(speech_span(&loud, samples), Some((0, 26_880)));
}

#[test]
fn a_short_last_frame_counts_towards_the_end() {
    // 2.5 frames of samples: the last frame is half a frame long.
    let samples = 2 * FRAME + 240;
    let loud = vec![false, false, true];
    assert_eq!(speech_span(&loud, samples), Some((0, samples)));
}

#[test]
fn the_recent_sample_store_keeps_the_newest_and_stays_bounded() {
    let mut store: Vec<f32> = Vec::new();

    // Less than the cap: everything is kept.
    keep_recent(&mut store, &[1.0, 2.0, 3.0]);
    assert_eq!(store.len(), 3);

    // Well past the cap, fed in pieces the way the microphone delivers it.
    let total = 6000usize;
    store.clear();
    for start in (0..total).step_by(1000) {
        let chunk: Vec<f32> = (start..start + 1000).map(|i| i as f32).collect();
        keep_recent(&mut store, &chunk);
    }
    assert_eq!(store.len(), 4096, "the store must not grow without limit");
    assert_eq!(RECENT_KEEP, 4096);
    assert_eq!(store[4095], 5999.0, "the newest sample is kept");
    assert_eq!(store[0], (total - 4096) as f32, "the oldest ones are dropped");
}

#[test]
fn splicing_keeps_the_ranges_in_order_and_marks_the_joins() {
    let loud = flags(&[(PAST_THE_OPENING, LOUD), (100, QUIET), (20, LOUD)]);
    let samples: Vec<u32> = (0..(loud.len() * FRAME) as u32).collect();
    let kept = pause_cuts(&long_pauses(&loud, rules()), samples.len());
    let out = splice_ranges(&samples, &kept);
    assert_eq!(out.len(), samples.len() - 43_280);
    assert_eq!(out[..175 * 480], samples[..175 * 480]);
    assert_eq!(out[175 * 480], (265 * 480 + 80) as u32, "the samples after the join");
    assert_eq!(*out.last().unwrap(), *samples.last().unwrap());

    let joins = join_points(&kept, samples.len());
    assert_eq!(joins, vec![(175 * 480, 265 * 480)]);
    assert_eq!(JOIN_FADE, 80);
}

#[test]
fn nothing_to_splice_gives_the_recording_back() {
    let samples: Vec<i16> = vec![1, 2, 3, 4];
    let kept = pause_cuts(&Vec::new(), samples.len());
    assert_eq!(splice_ranges(&samples, &kept), samples);
    assert!(join_points(&vec![(0, 100)], 100).is_empty());
}

use awecut::matching::{
    cut_matches, match_entry, match_loads, sort_by_score, tag_segments, MatchError, Segment,
    SegmentMatch,
};
use awecut::pack::{PackError, PackFile};

fn fingerprint(seed: u32, len: usize) -> Vec<u32> {
    (0..len as u32)
        .map(|i| (i ^ seed).wrapping_mul(0x9E37_79B9).rotate_left(7) ^ seed.wrapping_mul(31))
        .collect()
}

fn pack_of(items: Vec<(&str, Vec<u32>)>) -> PackFile {
    PackFile {
        fingerprint: items
            .into_iter()
            .map(|(name, words)| (name.to_string(), words))
            .collect(),
    }
}

fn a_match(name: &str, score: f64) -> SegmentMatch {
    SegmentMatch {
        source_name: name.to_string(),
        segment: Segment::of(0, 0, 1, score.to_bits()),
    }
}

fn scores_of(matches: &[SegmentMatch]) -> Vec<f64> {
    matches
        .iter()
        .map(|m| f64::from_bits(m.segment.score_bits))
        .collect()
}

fn names_of(matches: &[SegmentMatch]) -> Vec<&str> {
    matches.iter().map(|m| m.source_name.as_str()).collect()
}

#[test]
fn cut_matches_without_packs_finds_nothing() {
    let input = fingerprint(1, 300);
    let (inclusion, exclusion) = cut_matches(&input, &vec![], &vec![]);
    assert_eq!(inclusion, vec![]);
    assert_eq!(exclusion, vec![]);
}

#[test]
fn match_entry_finds_a_fingerprint_in_itself() {
    let input = fingerprint(1, 300);
    let found = match_entry(&input, &("same.mp3".to_string(), input.clone()));
    assert_eq!(found.len(), 1);
    assert_eq!(found[0].source_name, "same.mp3");
    assert_eq!(found[0].segment.offset1, 0);
    assert_eq!(found[0].segment.offset2, 0);
    assert_eq!(found[0].segment.items_count, 300);
    assert_eq!(f64::from_bits(found[0].segment.score_bits), 0.0);
}

#[test]
fn match_entry_finds_a_reference_inside_the_input() {
    let reference = fingerprint(2, 200);
    let mut input = fingerprint(3, 150);
    input.extend_from_slice(&reference);
    input.extend_from_slice(&fingerprint(4, 150));
    let found = match_entry(&input, &("jingle".to_string(), reference));
    assert!(!found.is_empty());
    let best = &found[0];
    assert_eq!(best.source_name, "jingle");
    assert_eq!(best.segment.offset1, 150);
    assert_eq!(best.segment.offset2, 0);
    assert!(f64::from_bits(best.segment.score_bits) < 10.0);
}

#[test]
fn match_entry_finds_nothing_in_what_is_unrelated() {
    let found = match_entry(
        &fingerprint(5, 300),
        &("other".to_string(), fingerprint(0xdead_beef, 300)),
    );
    assert_eq!(found, vec![]);
}

#[test]
fn match_entry_drops_a_fingerprint_that_is_too_long() {
    let input = fingerprint(1, 300);
    let long = vec![7u32; 524_286];
    assert_eq!(match_entry(&input, &("long".to_string(), long.clone())), vec![]);
    assert_eq!(match_entry(&long, &("short".to_string(), input)), vec![]);
}

#[test]
fn a_failed_load_does_not_keep_the_other_packs_from_matching() {
    let input = fingerprint(1, 300);
    let good = pack_of(vec![("a", input.clone()), ("b", fingerprint(9, 100))]);
    let also_good = pack_of(vec![("c", input.clone())]);
    let loads = vec![
        Err(PackError::Io),
        Ok(good.clone()),
        Err(PackError::InvalidLine { index: 3 }),
        Ok(also_good.clone()),
        Err(PackError::InvalidFingerprint {
            source: awecut::pack::CodeError::InvalidPadding,
        }),
    ];
    let only_good = vec![Ok(good), Ok(also_good)];
    let (with_failures, none) = cut_matches(&input, &loads, &vec![Err(PackError::Io)]);
    let (without_failures, _) = cut_matches(&input, &only_good, &vec![]);
    assert_eq!(with_failures, without_failures);
    assert_eq!(none, vec![]);
    let names = names_of(&with_failures);
    assert!(names.contains(&"a"));
    assert!(names.contains(&"c"));
}

#[test]
fn cut_matches_keeps_the_two_lists_apart() {
    let input = fingerprint(1, 300);
    let inclusion = vec![Ok(pack_of(vec![("ad", input.clone())]))];
    let exclusion = vec![Ok(pack_of(vec![("show", input.clone())]))];
    let (first, second) = cut_matches(&input, &inclusion, &exclusion);
    assert_eq!(names_of(&first), vec!["ad"]);
    assert_eq!(names_of(&second), vec!["show"]);
}

#[test]
fn match_loads_goes_through_packs_and_entries_in_order() {
    let input = fingerprint(1, 300);
    let loads = vec![
        Ok(pack_of(vec![("a", input.clone()), ("b", input.clone())])),
        Err(PackError::Unknown),
        Ok(pack_of(vec![("c", input.clone())])),
    ];
    assert_eq!(names_of(&match_loads(&input, &loads)), vec!["a", "b", "c"]);
}

#[test]
fn sort_by_score_puts_the_lowest_score_first() {
    let found = vec![
        a_match("c", 3.5),
        a_match("a", 0.0),
        a_match("d", 9.75),
        a_match("b", 0.25),
        a_match("e", 32.0),
    ];
    let ranking = sort_by_score(found);
    assert_eq!(scores_of(&ranking), vec![0.0, 0.25, 3.5, 9.75, 32.0]);
    assert_eq!(names_of(&ranking), vec!["a", "b", "c", "d", "e"]);
}

#[test]
fn sort_by_score_keeps_every_match() {
    let found = vec![
        a_match("x", 1.0),
        a_match("y", 1.0),
        a_match("x", 1.0),
        a_match("z", 0.5),
    ];
    let ranking = sort_by_score(found);
    assert_eq!(scores_of(&ranking), vec![0.5, 1.0, 1.0, 1.0]);
    let mut names = names_of(&ranking);
    names.sort();
    assert_eq!(names, vec!["x", "x", "y", "z"]);
    assert_eq!(sort_by_score(vec![]), vec![]);
}

#[test]
fn tag_segments_names_every_segment() {
    let segments = vec![Segment::of(1, 2, 3, 4), Segment::of(5, 6, 7, 8)];
    let found = tag_segments(&"ref".to_string(), Ok(segments.clone()));
    assert_eq!(
        found,
        vec![
            SegmentMatch {
                source_name: "ref".to_string(),
                segment: segments[0],
            },
            SegmentMatch {
                source_name: "ref".to_string(),
                segment: segments[1],
            },
        ]
    );
}

#[test]
fn tag_segments_makes_nothing_of_a_failure() {
    let found = tag_segments(
        &"ref".to_string(),
        Err(MatchError::FingerprintTooLong { index: 1 }),
    );
    assert_eq!(found, vec![]);
}

/// Some seconds of sound whose pitch wanders with `seed`.
fn sound(seed: u32, seconds: u32) -> Vec<i16> {
    let rate = 11025u32;
    let mut samples = Vec::new();
    let mut state = seed.wrapping_mul(2_654_435_761).wrapping_add(12345);
    let mut tone = 300.0f64;
    let mut phase = 0.0f64;
    for i in 0..rate * seconds {
        if i % 1500 == 0 {
            state = state.wrapping_mul(1_664_525).wrapping_add(1_013_904_223);
            tone = 200.0 + (state >> 20) as f64;
        }
        phase += tone / rate as f64;
        let value = (phase * std::f64::consts::TAU).sin() * 9000.0
            + (phase * 3.0 * std::f64::consts::TAU).sin() * 2000.0;
        samples.push(value as i16);
    }
    samples
}

fn fingerprint_of(samples: &[i16]) -> Vec<u32> {
    let track = awecut::fingerprint::TrackInfo {
        id: 0,
        has_codec: true,
        sample_rate: Some(11025),
        channels: Some(1),
    };
    let job = awecut::fingerprint::Fingerprinting::start(&track).unwrap();
    let (job, _) = job.take(awecut::fingerprint::Decoded::Samples, samples);
    job.finish()
}

#[test]
fn a_jingle_is_found_in_a_recording_through_a_pack() {
    let jingle = sound(7, 30);
    let mut recording = sound(1, 40);
    recording.extend_from_slice(&jingle);
    recording.extend_from_slice(&sound(2, 40));

    let pack = PackFile {
        fingerprint: vec![
            ("jingle.ogg".to_string(), fingerprint_of(&jingle)),
            ("other.ogg".to_string(), fingerprint_of(&sound(99, 30))),
        ],
    };
    let loaded = PackFile::decode(&pack.encode());
    assert_eq!(loaded, Ok(pack));

    let input = fingerprint_of(&recording);
    let (inclusion, exclusion) = cut_matches(&input, &vec![loaded], &vec![]);
    assert_eq!(exclusion, vec![]);
    let found: Vec<&SegmentMatch> = inclusion
        .iter()
        .filter(|m| m.source_name == "jingle.ogg")
        .collect();
    assert!(!found.is_empty());
    let best = found[0];
    // an item of the fingerprint stands for about an eighth of a second
    let start_seconds = best.segment.offset1 as f64 * 0.1238;
    assert!((start_seconds - 40.0).abs() < 3.0);
    assert!(best.segment.offset2 < 16);
    let scores = scores_of(&inclusion);
    assert!(scores.windows(2).all(|w| w[0] <= w[1]));
}

use awecut::fingerprint::{
    packet_step, select_track, standing_of, starting_pack, stream_format, wants_packet, Decoded,
    FileStep, Fingerprinting, ResetError,
    FingerprintError, PacketStep, Standing, TrackInfo,
};
use awecut::pack::{PackError, PackFile};

fn pack_of(names: &[&str]) -> PackFile {
    PackFile {
        fingerprint: names
            .iter()
            .enumerate()
            .map(|(i, name)| (name.to_string(), vec![i as u32]))
            .collect(),
    }
}

fn names_of(pack: &PackFile) -> Vec<&str> {
    pack.fingerprint.iter().map(|(n, _)| n.as_str()).collect()
}

#[test]
fn standing_of_orders_byte_strings() {
    assert_eq!(standing_of(b"abc", b"abd"), Standing::Before);
    assert_eq!(standing_of(b"abd", b"abc"), Standing::After);
    assert_eq!(standing_of(b"abc", b"abc"), Standing::Same);
    assert_eq!(standing_of(b"ab", b"abc"), Standing::Before);
    assert_eq!(standing_of(b"abc", b"ab"), Standing::After);
    assert_eq!(standing_of(b"", b""), Standing::Same);
    assert_eq!(standing_of(b"", b"a"), Standing::Before);
    assert_eq!(standing_of(b"Z", b"a"), Standing::Before);
}

#[test]
fn standing_of_agrees_with_the_order_of_strings() {
    let names = ["", "a", "ab", "b", "B", "é", "z", "日本", "a b", "a:b", "10", "9"];
    for a in names {
        for b in names {
            let expected = if a < b {
                Standing::Before
            } else if a == b {
                Standing::Same
            } else {
                Standing::After
            };
            assert_eq!(standing_of(a.as_bytes(), b.as_bytes()), expected);
        }
    }
}

#[test]
fn find_name_finds_every_name_of_a_pack() {
    let pack = pack_of(&["a.mp3", "b.mp3", "c.mp3", "d.mp3", "e.mp3"]);
    assert_eq!(pack.find_name("a.mp3"), Ok(0));
    assert_eq!(pack.find_name("c.mp3"), Ok(2));
    assert_eq!(pack.find_name("e.mp3"), Ok(4));
}

#[test]
fn find_name_tells_where_a_missing_name_belongs() {
    let pack = pack_of(&["b", "d", "f"]);
    assert_eq!(pack.find_name("a"), Err(0));
    assert_eq!(pack.find_name("c"), Err(1));
    assert_eq!(pack.find_name("e"), Err(2));
    assert_eq!(pack.find_name("g"), Err(3));
    assert_eq!(PackFile::default().find_name("a"), Err(0));
}

#[test]
fn plan_file_skips_what_the_pack_holds() {
    let pack = pack_of(&["b", "d", "f"]);
    assert_eq!(pack.plan_file("d"), FileStep::Skip);
    assert_eq!(pack.plan_file("e"), FileStep::Fingerprint { index: 2 });
}

#[test]
fn record_file_enters_a_fingerprint_in_order() {
    let mut pack = pack_of(&["b", "d", "f"]);
    for name in ["e", "a", "g", "c"] {
        match pack.plan_file(name) {
            FileStep::Skip => panic!("{} is new", name),
            FileStep::Fingerprint { index } => {
                assert!(pack.record_file(index, name.to_string(), Some(vec![7])));
            }
        }
    }
    assert_eq!(names_of(&pack), vec!["a", "b", "c", "d", "e", "f", "g"]);
    assert_eq!(pack.fingerprint[0].1, vec![7]);
    assert_eq!(pack.fingerprint[1].1, vec![0]);
    assert_eq!(pack.plan_file("e"), FileStep::Skip);
}

#[test]
fn record_file_leaves_the_pack_alone_without_a_fingerprint() {
    let mut pack = pack_of(&["b", "d", "f"]);
    let before = pack.clone();
    assert!(!pack.record_file(1, "c".to_string(), None));
    assert_eq!(pack, before);
}

#[test]
fn insert_entry_moves_nothing_else() {
    let mut pack = pack_of(&["b", "d"]);
    pack.insert_entry(2, "z".to_string(), vec![9, 9]);
    pack.insert_entry(0, "a".to_string(), vec![]);
    assert_eq!(
        pack.fingerprint,
        vec![
            ("a".to_string(), vec![]),
            ("b".to_string(), vec![0]),
            ("d".to_string(), vec![1]),
            ("z".to_string(), vec![9, 9]),
        ]
    );
}

fn track(id: u32, has_codec: bool, sample_rate: Option<u32>, channels: Option<u32>) -> TrackInfo {
    TrackInfo {
        id,
        has_codec,
        sample_rate,
        channels,
    }
}

#[test]
fn select_track_takes_the_first_track_with_a_codec() {
    let tracks = vec![
        track(7, false, None, None),
        track(8, true, Some(44100), Some(2)),
        track(9, true, Some(48000), Some(6)),
    ];
    assert_eq!(select_track(&tracks), Ok(1));
}

#[test]
fn select_track_fails_without_a_track_that_can_be_decoded() {
    assert_eq!(
        select_track(&vec![]),
        Err(FingerprintError::MissingAudioTrack)
    );
    assert_eq!(
        select_track(&vec![track(1, false, Some(44100), Some(2))]),
        Err(FingerprintError::MissingAudioTrack)
    );
}

#[test]
fn stream_format_needs_a_sample_rate() {
    assert_eq!(
        stream_format(&track(1, true, None, Some(2))),
        Err(FingerprintError::MissingSampleRate)
    );
    assert_eq!(
        stream_format(&track(1, true, Some(22050), Some(1))),
        Ok((22050, 1))
    );
}

#[test]
fn stream_format_takes_a_silent_track_for_stereo() {
    assert_eq!(
        stream_format(&track(1, true, Some(44100), None)),
        Ok((44100, 2))
    );
}

#[test]
fn packets_of_other_tracks_are_not_decoded() {
    assert!(wants_packet(3, 3));
    assert!(!wants_packet(3, 4));
}

#[test]
fn packet_step_goes_by_what_the_decoder_made() {
    assert_eq!(packet_step(Decoded::Samples), PacketStep::Consume);
    assert_eq!(packet_step(Decoded::Damaged), PacketStep::Pass);
    assert_eq!(packet_step(Decoded::Failed), PacketStep::Stop);
}

#[test]
fn an_update_starts_from_the_pack_that_was_loaded() {
    let pack = pack_of(&["a", "b"]);
    assert_eq!(starting_pack(Some(Ok(pack.clone()))), pack);
}

#[test]
fn an_update_starts_from_an_empty_pack_otherwise() {
    assert_eq!(starting_pack(None), PackFile::default());
    assert_eq!(
        starting_pack(Some(Err(PackError::InvalidLine { index: 0 }))),
        PackFile::default()
    );
    assert_eq!(starting_pack(Some(Err(PackError::Io))), PackFile::default());
}

#[test]
fn an_update_runs_over_the_files_of_a_directory() {
    let mut pack = starting_pack(None);
    for name in ["b.mp3", "a.mp3", "c.mp3", "a.mp3", "broken.mp3"] {
        if let FileStep::Fingerprint { index } = pack.plan_file(name) {
            let outcome = if name == "broken.mp3" {
                None
            } else {
                Some(vec![name.len() as u32])
            };
            pack.record_file(index, name.to_string(), outcome);
        }
    }
    assert_eq!(names_of(&pack), vec!["a.mp3", "b.mp3", "c.mp3"]);
}

/// Some seconds of sound: a few tones that come and go.
fn sound(rate: u32, channels: u32, seconds: u32) -> Vec<i16> {
    let frames = rate * seconds;
    let mut samples = Vec::new();
    for i in 0..frames {
        let t = i as f64 / rate as f64;
        let tone = 440.0 * (1.0 + (t / 3.0).floor());
        let value = (t * tone * std::f64::consts::TAU).sin() * 8000.0
            + (t * 1234.5 * std::f64::consts::TAU).sin() * 3000.0 * (t * 0.7).cos();
        for _ in 0..channels {
            samples.push(value as i16);
        }
    }
    samples
}

fn start_error(sample_rate: Option<u32>, channels: Option<u32>) -> FingerprintError {
    match Fingerprinting::start(&track(1, true, sample_rate, channels)) {
        Ok(_) => panic!("the fingerprinting started"),
        Err(e) => e,
    }
}

#[test]
fn fingerprinting_needs_a_sample_rate() {
    assert_eq!(start_error(None, Some(2)), FingerprintError::MissingSampleRate);
    assert_eq!(start_error(None, None), FingerprintError::MissingSampleRate);
}

#[test]
fn fingerprinting_needs_channels() {
    assert_eq!(
        start_error(Some(44100), Some(0)),
        FingerprintError::PrinterReset {
            source: ResetError::NoChannels
        }
    );
    assert_eq!(
        start_error(Some(10), Some(0)),
        FingerprintError::PrinterReset {
            source: ResetError::NoChannels
        }
    );
}

#[test]
fn fingerprinting_needs_a_sample_rate_above_a_thousand() {
    assert_eq!(
        start_error(Some(1000), Some(2)),
        FingerprintError::PrinterReset {
            source: ResetError::SampleRateTooLow
        }
    );
    assert_eq!(
        start_error(Some(0), None),
        FingerprintError::PrinterReset {
            source: ResetError::SampleRateTooLow
        }
    );
}

#[test]
fn fingerprinting_takes_the_packets_of_its_track() {
    let job = Fingerprinting::start(&track(5, true, Some(44100), None)).unwrap();
    assert!(job.wants_packet(5));
    assert!(!job.wants_packet(6));
    assert_eq!(job.channels(), 2);
}

#[test]
fn fingerprinting_gives_a_fingerprint_of_what_it_heard() {
    let samples = sound(11025, 1, 20);
    let mut job = Fingerprinting::start(&track(1, true, Some(11025), Some(1))).unwrap();
    for chunk in samples.chunks(4096) {
        let (next, step) = job.take(Decoded::Samples, chunk);
        assert_eq!(step, PacketStep::Consume);
        job = next;
    }
    let fingerprint = job.finish();
    assert!(fingerprint.len() > 50);

    let again = Fingerprinting::start(&track(1, true, Some(11025), Some(1))).unwrap();
    let (again, _) = again.take(Decoded::Samples, &samples);
    assert_eq!(again.finish(), fingerprint);
}

#[test]
fn fingerprinting_passes_over_damaged_packets() {
    let samples = sound(44100, 2, 10);
    let mut job = Fingerprinting::start(&track(1, true, Some(44100), Some(2))).unwrap();
    let mut plain = Fingerprinting::start(&track(1, true, Some(44100), Some(2))).unwrap();
    for chunk in samples.chunks(2 * 1152) {
        let (next, step) = job.take(Decoded::Samples, chunk);
        assert_eq!(step, PacketStep::Consume);
        let (next, step) = next.take(Decoded::Damaged, &[7, 7, 7]);
        assert_eq!(step, PacketStep::Pass);
        job = next;
        plain = plain.take(Decoded::Samples, chunk).0;
    }
    let (job, step) = job.take(Decoded::Failed, &[7]);
    assert_eq!(step, PacketStep::Stop);
    let fingerprint = job.finish();
    assert!(!fingerprint.is_empty());
    assert_eq!(fingerprint, plain.finish());
}

#[test]
fn fingerprinting_of_nothing_gives_an_empty_fingerprint() {
    let job = Fingerprinting::start(&track(1, true, Some(44100), Some(2))).unwrap();
    assert_eq!(job.finish(), Vec::<u32>::new());
}

#[test]
fn fingerprinting_starts_on_any_track_with_channels_and_a_rate_above_a_thousand() {
    for rate in [1001, 8000, 11025, 22050, 44100, 48000, 192000, u32::MAX] {
        for channels in [Some(1), Some(2), Some(6), Some(32), None] {
            let job = Fingerprinting::start(&track(9, true, Some(rate), channels)).unwrap();
            assert!(job.wants_packet(9));
            assert_eq!(job.channels(), channels.unwrap_or(2));
        }
    }
}

#[test]
fn fingerprinting_takes_an_empty_chunk_and_frames_of_many_channels() {
    let job = Fingerprinting::start(&track(1, true, Some(44100), Some(6))).unwrap();
    let (job, step) = job.take(Decoded::Samples, &[]);
    assert_eq!(step, PacketStep::Consume);
    let (job, step) = job.take(Decoded::Samples, &[1, 2, 3, 4, 5, 6, -1, -2, -3, -4, -5, -6]);
    assert_eq!(step, PacketStep::Consume);
    assert_eq!(job.channels(), 6);
    assert_eq!(job.finish(), Vec::<u32>::new());
}

#[test]
fn fingerprinting_takes_samples_at_the_lowest_and_the_highest_rate() {
    for rate in [1001, 1500, 11025, 11026, 96000, 4_000_000_000, u32::MAX] {
        let samples = sound(11025, 1, 8);
        let mut job = Fingerprinting::start(&track(1, true, Some(rate), Some(1))).unwrap();
        for chunk in samples.chunks(30_000) {
            job = job.take(Decoded::Samples, chunk).0;
        }
        let fingerprint = job.finish();
        assert!(fingerprint.len() < samples.len());
    }
}

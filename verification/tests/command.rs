use awecut::command::{
    check_exit, ffmpeg_extract_frames_args, parse_duration, parse_keyframes, CommandError,
    StreamRange,
};

#[test]
fn keyframes_betweens_skips_all_but_keyframes() {
    let range = StreamRange::keyframes_betweens(Some(1), Some(2));
    assert_eq!(
        range,
        StreamRange {
            pts_start: Some(1),
            pts_end: Some(2),
            skip_frames: Some("nokey"),
            frame_interval: None,
        }
    );
}

#[test]
fn frames_betweens_skips_nothing() {
    let range = StreamRange::frames_betweens(None, Some(2));
    assert_eq!(
        range,
        StreamRange {
            pts_start: None,
            pts_end: Some(2),
            skip_frames: Some("none"),
            frame_interval: None,
        }
    );
}

#[test]
fn nsecs_betweens_sets_the_interval() {
    let range = StreamRange::nsecs_betweens(Some(1), None, 60_000_000);
    assert_eq!(
        range,
        StreamRange {
            pts_start: Some(1),
            pts_end: None,
            skip_frames: Some("none"),
            frame_interval: Some(60_000_000),
        }
    );
}

#[test]
fn parse_duration_reads_seconds() {
    assert_eq!(parse_duration("3723.500000\n"), Ok(3_723_500_000));
    assert_eq!(parse_duration("  12 "), Ok(12_000_000));
    assert_eq!(parse_duration("0.040000"), Ok(40_000));
}

#[test]
fn parse_duration_rejects_anything_else() {
    assert!(matches!(
        parse_duration(""),
        Err(CommandError::ParsingError { .. })
    ));
    assert!(matches!(
        parse_duration("N/A\n"),
        Err(CommandError::ParsingError { .. })
    ));
    assert!(matches!(
        parse_duration("1:00"),
        Err(CommandError::ParsingError { .. })
    ));
    assert!(matches!(
        parse_duration("1.0\n2.0\n"),
        Err(CommandError::ParsingError { .. })
    ));
    assert!(matches!(
        parse_duration("99999999999999999999"),
        Err(CommandError::ParsingError { .. })
    ));
}

#[test]
fn parse_keyframes_reads_one_time_per_line() {
    assert_eq!(
        parse_keyframes("0.000000\n2.502500\n5.005000\n"),
        Ok(vec![0, 2_502_500, 5_005_000])
    );
    assert_eq!(parse_keyframes("-0.023220\r\n1.5"), Ok(vec![-23_220, 1_500_000]));
    assert_eq!(parse_keyframes(""), Ok(vec![]));
}

#[test]
fn parse_keyframes_fails_on_one_bad_line() {
    assert!(matches!(
        parse_keyframes("0.000000\n\n5.005000\n"),
        Err(CommandError::ParsingError { .. })
    ));
    assert!(matches!(
        parse_keyframes("0.000000\nN/A\n"),
        Err(CommandError::ParsingError { .. })
    ));
}

#[test]
fn extract_frames_args_for_an_interval() {
    let range = StreamRange::nsecs_betweens(Some(2_400_000_000), Some(4_800_500_000), 60_000_000);
    assert_eq!(
        ffmpeg_extract_frames_args("in put.mkv", "/tmp/frames", &range),
        vec![
            "-ss",
            "2400.000000",
            "-to",
            "4800.500000",
            "-skip_frame",
            "none",
            "-hide_banner",
            "-loglevel",
            "error",
            "-copyts",
            "-i",
            "in put.mkv",
            "-vf",
            "fps=1000000/60000000",
            "-enc_time_base",
            "1/1000",
            "-vsync",
            "0",
            "-f",
            "image2",
            "-frame_pts",
            "1",
            "/tmp/frames/%09d.jpg",
        ]
    );
}

#[test]
fn extract_frames_args_for_keyframes() {
    let range = StreamRange::keyframes_betweens(Some(80_000_000), Some(120_000_000));
    let args = ffmpeg_extract_frames_args("a.mp4", "out", &range);
    assert_eq!(
        args[..6],
        ["-ss", "80.000000", "-to", "120.000000", "-skip_frame", "nokey"]
    );
    assert!(!args.contains(&"-vf".to_string()));
    assert_eq!(args.len(), 21);
}

#[test]
fn extract_frames_args_leave_out_what_is_not_set() {
    let range = StreamRange {
        pts_start: None,
        pts_end: None,
        skip_frames: None,
        frame_interval: None,
    };
    assert_eq!(
        ffmpeg_extract_frames_args("a.mp4", "out", &range),
        vec![
            "-hide_banner",
            "-loglevel",
            "error",
            "-copyts",
            "-i",
            "a.mp4",
            "-enc_time_base",
            "1/1000",
            "-vsync",
            "0",
            "-f",
            "image2",
            "-frame_pts",
            "1",
            "out/%09d.jpg",
        ]
    );
}

#[test]
fn extract_frames_args_write_times_to_the_microsecond() {
    let range = StreamRange {
        pts_start: Some(1),
        pts_end: Some(-1_500_000),
        skip_frames: None,
        frame_interval: Some(-7),
    };
    let args = ffmpeg_extract_frames_args("a", "b", &range);
    assert_eq!(args[..4], ["-ss", "0.000001", "-to", "-1.500000"]);
    assert!(args.contains(&"fps=1000000/-7".to_string()));
    let range = StreamRange::frames_betweens(Some(i64::MAX), Some(i64::MIN));
    let args = ffmpeg_extract_frames_args("a", "b", &range);
    assert_eq!(
        args[..4],
        [
            "-ss",
            "9223372036854.775807",
            "-to",
            "-9223372036854.775808"
        ]
    );
}

#[test]
fn check_exit_takes_the_code_zero_for_success() {
    assert_eq!(check_exit(Some(0)), Ok(()));
}

#[test]
fn check_exit_reports_any_other_end() {
    assert_eq!(
        check_exit(Some(1)),
        Err(CommandError::ProcessFailed {
            context: "ffmpeg_extract_frames - status code is 1".to_string()
        })
    );
    assert_eq!(
        check_exit(Some(-11)),
        Err(CommandError::ProcessFailed {
            context: "ffmpeg_extract_frames - status code is -11".to_string()
        })
    );
    assert_eq!(
        check_exit(Some(i32::MIN)),
        Err(CommandError::ProcessFailed {
            context: "ffmpeg_extract_frames - status code is -2147483648".to_string()
        })
    );
    assert_eq!(
        check_exit(None),
        Err(CommandError::ProcessFailed {
            context: "ffmpeg_extract_frames - status code is none".to_string()
        })
    );
}

#[test]
fn parse_errors_say_what_was_read() {
    assert_eq!(
        parse_duration("N/A"),
        Err(CommandError::ParsingError {
            context: "duration: not a number of seconds".to_string()
        })
    );
    assert_eq!(
        parse_keyframes("N/A"),
        Err(CommandError::ParsingError {
            context: "keyframes: not a number of seconds".to_string()
        })
    );
}

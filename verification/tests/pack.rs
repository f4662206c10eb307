use awecut::pack::{
    pack_words, push_line, split_line, unpack_words, words_of_code, CodeError, PackError, PackFile,
};

fn pack_of(items: &[(&str, &[u32])]) -> PackFile {
    PackFile {
        fingerprint: items
            .iter()
            .map(|(name, words)| (name.to_string(), words.to_vec()))
            .collect(),
    }
}

/// Whether encoding can be asked of the pack: the length that the base64
/// form of every fingerprint has must fit.
fn is_writable(pack: &PackFile) -> bool {
    pack.fingerprint
        .iter()
        .all(|(_, words)| words.len() <= usize::MAX / 32)
}

#[test]
fn encode_writes_one_line_per_entry() {
    let pack = pack_of(&[("first.mp3", &[1]), ("second.mp3", &[0x01020304, 0xA0B0C0D0])]);
    assert!(is_writable(&pack));
    assert_eq!(
        pack.encode(),
        "first.mp3:AAAAAQ==\nsecond.mp3:AQIDBKCwwNA=\n"
    );
}

#[test]
fn encode_of_an_empty_pack_is_empty() {
    assert_eq!(PackFile::default().encode(), "");
}

#[test]
fn encode_packs_words_most_significant_byte_first() {
    let pack = pack_of(&[("a", &[0xffffffff, 0, 7])]);
    assert_eq!(pack.encode(), "a://///wAAAAAAAAAH\n");
}

#[test]
fn decode_reads_what_encode_wrote() {
    let pack = pack_of(&[
        ("jingle one.ogg", &[0xdeadbeef, 0, 1, 2, 3]),
        ("", &[]),
        ("ünïcödé.flac", &[u32::MAX]),
        ("trailing space ", &[42, 43]),
    ]);
    let text = pack.encode();
    assert_eq!(PackFile::decode(&text), Ok(pack));
}

#[test]
fn decode_of_a_large_pack_reads_what_encode_wrote() {
    let mut items: Vec<(String, Vec<u32>)> = Vec::new();
    for i in 0..200u32 {
        let words: Vec<u32> = (0..i).map(|k| k.wrapping_mul(0x9E3779B9) ^ i).collect();
        items.push((format!("file-{:03}.mp3", i), words));
    }
    let pack = PackFile { fingerprint: items };
    assert_eq!(PackFile::decode(&pack.encode()), Ok(pack));
}

#[test]
fn decode_of_an_empty_text_is_an_empty_pack() {
    assert_eq!(PackFile::decode(""), Ok(PackFile::default()));
}

#[test]
fn decode_reads_words_most_significant_byte_first() {
    let pack = PackFile::decode("a:AQIDBKCwwNA=\n").unwrap();
    assert_eq!(pack, pack_of(&[("a", &[0x01020304, 0xA0B0C0D0])]));
}

#[test]
fn decode_needs_no_final_line_feed() {
    let pack = PackFile::decode("a:AAAAAQ==\nb:AAAAAQ==").unwrap();
    assert_eq!(pack, pack_of(&[("a", &[1]), ("b", &[1])]));
}

#[test]
fn decode_ignores_white_space_around_a_line() {
    let pack = PackFile::decode("  a:AAAAAQ== \r\n\tb:AAAAAQ==\r\n").unwrap();
    assert_eq!(pack, pack_of(&[("a", &[1]), ("b", &[1])]));
}

#[test]
fn decode_reports_the_index_of_a_line_without_colon() {
    assert_eq!(
        PackFile::decode("a:AAAAAQ==\nb:AAAAAQ==\nno colon here\nc:AAAAAQ==\n"),
        Err(PackError::InvalidLine { index: 2 })
    );
    assert_eq!(
        PackFile::decode("nothing"),
        Err(PackError::InvalidLine { index: 0 })
    );
}

#[test]
fn decode_reports_the_index_of_a_line_with_two_colons() {
    assert_eq!(
        PackFile::decode("a:AAAAAQ==\nb:AAAA:AQ==\n"),
        Err(PackError::InvalidLine { index: 1 })
    );
}

#[test]
fn decode_reports_a_blank_line() {
    assert_eq!(
        PackFile::decode("a:AAAAAQ==\n\nb:AAAAAQ==\n"),
        Err(PackError::InvalidLine { index: 1 })
    );
}

#[test]
fn decode_rejects_what_is_not_base64() {
    assert_eq!(
        PackFile::decode("a:not base64!\n"),
        Err(PackError::InvalidFingerprint {
            source: CodeError::InvalidByte(3, b' ')
        })
    );
    assert_eq!(
        PackFile::decode("a:AAAAAQ\n"),
        Err(PackError::InvalidFingerprint {
            source: CodeError::InvalidPadding
        })
    );
    assert_eq!(
        PackFile::decode("a:AAAAAR==\n"),
        Err(PackError::InvalidFingerprint {
            source: CodeError::InvalidLastSymbol(5, b'R')
        })
    );
    assert_eq!(
        PackFile::decode("a:AAAAA\n"),
        Err(PackError::InvalidFingerprint {
            source: CodeError::InvalidLength(5)
        })
    );
}

#[test]
fn decode_rejects_bytes_that_are_no_whole_words() {
    assert_eq!(PackFile::decode("a:AQID\n"), Err(PackError::InvalidU32));
    assert_eq!(PackFile::decode("a:AQIDBAU=\n"), Err(PackError::InvalidU32));
}

#[test]
fn decode_reports_the_first_bad_line() {
    assert_eq!(
        PackFile::decode("a:AQID\nno colon\n"),
        Err(PackError::InvalidU32)
    );
    assert_eq!(
        PackFile::decode("no colon\na:AQID\n"),
        Err(PackError::InvalidLine { index: 0 })
    );
}

#[test]
fn a_name_with_a_colon_does_not_come_back() {
    let pack = pack_of(&[("a:b", &[1])]);
    assert_eq!(
        PackFile::decode(&pack.encode()),
        Err(PackError::InvalidLine { index: 0 })
    );
}

#[test]
fn a_name_that_begins_with_white_space_comes_back_trimmed() {
    let pack = pack_of(&[(" a", &[1])]);
    assert_eq!(
        PackFile::decode(&pack.encode()),
        Ok(pack_of(&[("a", &[1])]))
    );
}

#[test]
fn pack_words_and_unpack_words_are_inverse() {
    let words = vec![0x01020304, 0xA0B0C0D0, 0, u32::MAX];
    let bytes = pack_words(&words);
    assert_eq!(
        bytes,
        vec![1, 2, 3, 4, 0xA0, 0xB0, 0xC0, 0xD0, 0, 0, 0, 0, 255, 255, 255, 255]
    );
    assert_eq!(unpack_words(&bytes), words);
}

#[test]
fn can_encode_holds_of_packs_that_fit_in_memory() {
    assert!(PackFile::default().can_encode());
    assert!(pack_of(&[("a", &[1, 2, 3]), ("b", &[])]).can_encode());
}

#[test]
fn split_line_cuts_a_line_at_its_colon() {
    assert_eq!(
        split_line("name.mp3:AAAAAQ==\n", 0),
        Ok(("name.mp3".to_string(), "AAAAAQ==".to_string()))
    );
    assert_eq!(
        split_line("  a b : c d \r\n", 0),
        Ok(("a b ".to_string(), " c d".to_string()))
    );
    assert_eq!(split_line(":", 0), Ok((String::new(), String::new())));
}

#[test]
fn split_line_refuses_a_line_without_exactly_one_colon() {
    assert_eq!(split_line("", 4), Err(PackError::InvalidLine { index: 4 }));
    assert_eq!(
        split_line("no colon\n", 5),
        Err(PackError::InvalidLine { index: 5 })
    );
    assert_eq!(
        split_line("a:b:c\n", 6),
        Err(PackError::InvalidLine { index: 6 })
    );
    assert_eq!(split_line("::", 7), Err(PackError::InvalidLine { index: 7 }));
}

#[test]
fn words_of_code_takes_whole_words() {
    assert_eq!(
        words_of_code(Ok(vec![0, 0, 0, 1, 0xA0, 0xB0, 0xC0, 0xD0])),
        Ok(vec![1, 0xA0B0C0D0])
    );
    assert_eq!(words_of_code(Ok(vec![])), Ok(vec![]));
}

#[test]
fn words_of_code_refuses_what_is_left_over() {
    assert_eq!(words_of_code(Ok(vec![0])), Err(PackError::InvalidU32));
    assert_eq!(
        words_of_code(Ok(vec![0, 0, 0, 1, 2])),
        Err(PackError::InvalidU32)
    );
    assert_eq!(
        words_of_code(Ok(vec![0, 0, 0, 1, 2, 3, 4])),
        Err(PackError::InvalidU32)
    );
}

#[test]
fn words_of_code_refuses_what_the_decoder_rejected() {
    assert_eq!(
        words_of_code(Err(CodeError::InvalidPadding)),
        Err(PackError::InvalidFingerprint {
            source: CodeError::InvalidPadding
        })
    );
    assert_eq!(
        words_of_code(Err(CodeError::InvalidByte(3, b'!'))),
        Err(PackError::InvalidFingerprint {
            source: CodeError::InvalidByte(3, b'!')
        })
    );
}

#[test]
fn push_line_ends_the_line_with_a_line_feed() {
    let mut text = "before\n".to_string();
    push_line(&mut text, "name", "code");
    push_line(&mut text, "", "");
    assert_eq!(text, "before\nname:code\n:\n");
}

#[test]
fn decode_errors_are_those_of_the_base64_decoder() {
    for code in ["not base64!", "AAAAAQ", "AAAAAR==", "AAAAA", "=", "AA=A"] {
        let expected = match base64::Engine::decode(&base64::engine::general_purpose::STANDARD, code) {
            Ok(_) => panic!("{} is base64", code),
            Err(base64::DecodeError::InvalidByte(at, byte)) => CodeError::InvalidByte(at, byte),
            Err(base64::DecodeError::InvalidLength(len)) => CodeError::InvalidLength(len),
            Err(base64::DecodeError::InvalidLastSymbol(at, byte)) => {
                CodeError::InvalidLastSymbol(at, byte)
            }
            Err(base64::DecodeError::InvalidPadding) => CodeError::InvalidPadding,
        };
        assert_eq!(
            PackFile::decode(&format!("name:{}\n", code)),
            Err(PackError::InvalidFingerprint { source: expected })
        );
    }
}

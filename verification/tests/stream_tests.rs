use taskchat::record::Mode;
use taskchat::stream::StreamDecoder;

fn run(mode: Mode, chunks: &[&[u8]]) -> (Vec<String>, String, bool) {
    let mut decoder = StreamDecoder::new(mode);
    let mut shown = Vec::new();
    for chunk in chunks {
        shown.extend(decoder.feed(chunk));
    }
    (shown, decoder.text().to_string(), decoder.is_done())
}

#[test]
fn new_decoder_is_empty_and_open() {
    let decoder = StreamDecoder::new(Mode::Chat);
    assert_eq!(decoder.mode(), Mode::Chat);
    assert_eq!(decoder.text(), "");
    assert!(!decoder.is_done());
}

#[test]
fn hello_arrives_in_three_chunks() {
    let mut decoder = StreamDecoder::new(Mode::Chat);
    let first = decoder.feed(br#"{"message":{"content":"Hel"},"do"#);
    assert_eq!(first, Vec::<String>::new());
    assert!(!decoder.is_done());
    let second = decoder.feed(
        b"ne\":false}\n{\"message\":{\"content\":\"lo\"},\"done\":false}\n",
    );
    assert_eq!(second, vec!["Hel".to_string(), "lo".to_string()]);
    assert!(!decoder.is_done());
    let third = decoder.feed(b"{\"message\":{\"content\":\"\"},\"done\":true}\n");
    assert_eq!(third, vec!["".to_string()]);
    assert!(decoder.is_done());
    assert_eq!(decoder.text(), "Hello");
    let printed: String = [first, second, third].concat().concat();
    assert_eq!(printed, "Hello");
}

#[test]
fn one_shot_stream_is_decoded() {
    let (shown, text, done) = run(
        Mode::OneShot,
        &[
            b"{\"response\":\"The \",\"done\":false}\n{\"response\":\"answer\",",
            b"\"done\":false}\n{\"response\":\".\",\"done\":true}\n",
        ],
    );
    assert_eq!(shown, vec!["The ".to_string(), "answer".to_string(), ".".to_string()]);
    assert_eq!(text, "The answer.");
    assert!(done);
}

#[test]
fn malformed_line_between_two_good_ones_is_skipped() {
    let (shown, text, done) = run(
        Mode::OneShot,
        &[b"{\"response\":\"a\",\"done\":false}\n{oops\n{\"response\":\"b\",\"done\":false}\n"],
    );
    assert_eq!(shown, vec!["a".to_string(), "b".to_string()]);
    assert_eq!(text, "ab");
    assert!(!done);
}

#[test]
fn blank_lines_are_skipped() {
    let (shown, text, _) = run(
        Mode::OneShot,
        &[b"\n  \n{\"response\":\"a\",\"done\":false}\n\r\n{\"response\":\"b\",\"done\":false}\n"],
    );
    assert_eq!(shown, vec!["a".to_string(), "b".to_string()]);
    assert_eq!(text, "ab");
}

#[test]
fn nothing_after_the_final_record_is_processed() {
    let (shown, text, done) = run(
        Mode::OneShot,
        &[
            b"{\"response\":\"a\",\"done\":false}\n{\"response\":\"b\",\"done\":true}\n{\"response\":\"c\",\"done\":false}\n",
            b"{\"response\":\"d\",\"done\":false}\n",
        ],
    );
    assert_eq!(shown, vec!["a".to_string(), "b".to_string()]);
    assert_eq!(text, "ab");
    assert!(done);
}

#[test]
fn unterminated_tail_is_never_a_record() {
    let (shown, text, done) = run(
        Mode::OneShot,
        &[b"{\"response\":\"a\",\"done\":false}\n{\"response\":\"b\",\"done\":true}"],
    );
    assert_eq!(shown, vec!["a".to_string()]);
    assert_eq!(text, "a");
    assert!(!done);
}

#[test]
fn empty_chunks_change_nothing() {
    let (shown, text, done) = run(
        Mode::OneShot,
        &[b"", b"{\"response\":\"a\",", b"", b"\"done\":true}\n", b""],
    );
    assert_eq!(shown, vec!["a".to_string()]);
    assert_eq!(text, "a");
    assert!(done);
}

#[test]
fn every_split_at_a_character_boundary_gives_the_same_result() {
    let stream = "{\"message\":{\"role\":\"assistant\",\"content\":\"caf\u{e9} \"},\"done\":false}\n\nbroken\n{\"message\":{\"content\":\"\u{1F496}\"},\"done\":false}\n{\"message\":{\"content\":\"!\"},\"done\":true}\n";
    let bytes = stream.as_bytes();
    let expected = run(Mode::Chat, &[bytes]);
    assert_eq!(
        expected,
        (
            vec!["caf\u{e9} ".to_string(), "\u{1F496}".to_string(), "!".to_string()],
            "caf\u{e9} \u{1F496}!".to_string(),
            true
        )
    );
    for cut in 0..=bytes.len() {
        if !stream.is_char_boundary(cut) {
            continue;
        }
        assert_eq!(run(Mode::Chat, &[&bytes[..cut], &bytes[cut..]]), expected, "cut {}", cut);
        for cut2 in cut..=bytes.len() {
            if !stream.is_char_boundary(cut2) {
                continue;
            }
            assert_eq!(
                run(Mode::Chat, &[&bytes[..cut], &bytes[cut..cut2], &bytes[cut2..]]),
                expected,
                "cuts {} {}",
                cut,
                cut2
            );
        }
    }
}

#[test]
fn byte_by_byte_delivery_of_ascii_gives_the_same_result() {
    let stream = b"{\"response\":\"Hel\",\"done\":false}\n{\"response\":\"lo\",\"done\":true}\n";
    let expected = run(Mode::OneShot, &[stream]);
    let pieces: Vec<&[u8]> = stream.chunks(1).collect();
    assert_eq!(run(Mode::OneShot, &pieces), expected);
    assert_eq!(expected.1, "Hello");
}

#[test]
fn character_cut_by_a_chunk_boundary_is_replaced() {
    let stream = "{\"response\":\"caf\u{e9}\",\"done\":true}\n";
    let bytes = stream.as_bytes();
    let cut = stream.find('\u{e9}').unwrap() + 1;
    let (shown, text, done) = run(Mode::OneShot, &[&bytes[..cut], &bytes[cut..]]);
    assert_eq!(shown, vec!["caf\u{FFFD}\u{FFFD}".to_string()]);
    assert_eq!(text, "caf\u{FFFD}\u{FFFD}");
    assert!(done);
}

#[test]
fn invalid_bytes_become_replacement_characters() {
    let (shown, _, _) = run(Mode::OneShot, &[b"{\"response\":\"a\xFFb\",\"done\":false}\n"]);
    assert_eq!(shown, vec!["a\u{FFFD}b".to_string()]);
}

#[test]
fn two_runs_over_the_same_stream_agree() {
    let chunks: [&[u8]; 3] = [
        b"{\"message\":{\"content\":\"x\"},\"done\":false}\n{\"mess",
        b"age\":{\"content\":\"y\"},\"done\":false}\nnoise\n",
        b"{\"message\":{\"content\":\"z\"},\"done\":true}\n",
    ];
    let first = run(Mode::Chat, &chunks);
    let second = run(Mode::Chat, &chunks);
    assert_eq!(first, second);
    assert_eq!(first.1, "xyz");
}

#[test]
fn feed_text_takes_decoded_text() {
    let mut decoder = StreamDecoder::new(Mode::OneShot);
    assert_eq!(decoder.feed_text("{\"response\":\"a\","), Vec::<String>::new());
    assert_eq!(decoder.feed_text("\"done\":true}\n"), vec!["a".to_string()]);
    assert!(decoder.is_done());
    assert_eq!(decoder.feed_text("{\"response\":\"b\",\"done\":true}\n"), Vec::<String>::new());
    assert_eq!(decoder.text(), "a");
}

use taskchat::lines::LineReassembler;

#[test]
fn complete_line_is_returned_without_its_newline() {
    let mut r = LineReassembler::new();
    assert_eq!(r.push_text("abc\n"), vec!["abc".to_string()]);
    assert_eq!(r.push_text(""), Vec::<String>::new());
}

#[test]
fn partial_line_waits_for_its_newline() {
    let mut r = LineReassembler::new();
    assert_eq!(r.push_text("ab"), Vec::<String>::new());
    assert_eq!(r.push_text("c"), Vec::<String>::new());
    assert_eq!(r.push_text("d\ne"), vec!["abcd".to_string()]);
    assert_eq!(r.push_text("\n"), vec!["e".to_string()]);
}

#[test]
fn several_lines_in_one_piece_come_out_in_order() {
    let mut r = LineReassembler::new();
    let lines = r.push_text("one\ntwo\n\nthree\nrest");
    assert_eq!(
        lines,
        vec!["one".to_string(), "two".to_string(), "".to_string(), "three".to_string()]
    );
    assert_eq!(r.push_text("!\n"), vec!["rest!".to_string()]);
}

#[test]
fn empty_and_blank_lines_are_not_filtered_here() {
    let mut r = LineReassembler::new();
    assert_eq!(r.push_text("\n \n"), vec!["".to_string(), " ".to_string()]);
}

#[test]
fn clear_drops_the_partial_line() {
    let mut r = LineReassembler::new();
    assert_eq!(r.push_text("dropped"), Vec::<String>::new());
    r.clear();
    assert_eq!(r.push_text("kept\n"), vec!["kept".to_string()]);
}

#[test]
fn every_split_of_a_text_gives_the_same_lines() {
    let text = "alpha\nbeta\n\ngamma\ntail";
    let mut whole = LineReassembler::new();
    let expected = whole.push_text(text);
    assert_eq!(expected.len(), 4);
    for cut in 0..=text.len() {
        for cut2 in cut..=text.len() {
            let mut r = LineReassembler::new();
            let mut lines = r.push_text(&text[..cut]);
            lines.extend(r.push_text(&text[cut..cut2]));
            lines.extend(r.push_text(&text[cut2..]));
            assert_eq!(lines, expected, "cuts {} {}", cut, cut2);
            assert_eq!(r.push_text("\n"), vec!["tail".to_string()]);
        }
    }
}

#[test]
fn feed_decodes_bytes_lossily() {
    let mut r = LineReassembler::new();
    assert_eq!(r.feed(b"caf\xC3\xA9\n"), vec!["café".to_string()]);
    assert_eq!(r.feed(b"a\xFFb\n"), vec!["a\u{FFFD}b".to_string()]);
}

#[test]
fn feed_replaces_a_character_cut_by_the_chunk_boundary() {
    let mut r = LineReassembler::new();
    assert_eq!(r.feed(b"caf\xC3"), Vec::<String>::new());
    assert_eq!(r.feed(b"\xA9\n"), vec!["caf\u{FFFD}\u{FFFD}".to_string()]);
}

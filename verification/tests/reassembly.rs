use ollama_stream::reassembler::LineReassembler;

fn feed(chunks: &[&[u8]]) -> (Vec<String>, String) {
    let mut lines = LineReassembler::new();
    let mut out = Vec::new();
    for chunk in chunks {
        out.extend(lines.push(chunk));
    }
    (out, lines.pending())
}

#[test]
fn a_fresh_reassembler_holds_nothing() {
    let lines = LineReassembler::new();
    assert_eq!(lines.pending(), "");
}

#[test]
fn a_line_split_over_two_chunks_comes_out_whole() {
    let mut lines = LineReassembler::new();
    assert!(lines.push(b"  hel").is_empty());
    assert_eq!(lines.pending(), "  hel");
    assert_eq!(lines.push(b"lo \nrest"), vec!["hello".to_string()]);
    assert_eq!(lines.pending(), "rest");
}

#[test]
fn several_lines_in_one_chunk_come_out_in_order() {
    let mut lines = LineReassembler::new();
    let out = lines.push(b"one\ntwo\nthree\nfo");
    assert_eq!(out, vec!["one".to_string(), "two".to_string(), "three".to_string()]);
    assert_eq!(lines.pending(), "fo");
    assert_eq!(lines.push(b"ur\n"), vec!["four".to_string()]);
    assert_eq!(lines.pending(), "");
}

#[test]
fn blank_lines_come_out_as_empty_records() {
    let mut lines = LineReassembler::new();
    let out = lines.push(b"\n  \t \nx\n\n");
    assert_eq!(out, vec![String::new(), String::new(), "x".to_string(), String::new()]);
    assert_eq!(lines.pending(), "");
}

#[test]
fn records_are_trimmed_of_white_space_on_both_sides() {
    let mut lines = LineReassembler::new();
    let out = lines.push("\u{a0}\t a b \u{3000}\r\n".as_bytes());
    assert_eq!(out, vec!["a b".to_string()]);
}

#[test]
fn white_space_inside_a_record_stays() {
    let mut lines = LineReassembler::new();
    let out = lines.push(b"{\"a\": \t 1}\n");
    assert_eq!(out, vec!["{\"a\": \t 1}".to_string()]);
}

#[test]
fn the_tail_is_held_back_untrimmed() {
    let mut lines = LineReassembler::new();
    assert!(lines.push(b"  tail  ").is_empty());
    assert_eq!(lines.pending(), "  tail  ");
    assert_eq!(lines.push(b"\n"), vec!["tail".to_string()]);
}

#[test]
fn an_empty_chunk_changes_nothing() {
    let mut lines = LineReassembler::new();
    assert!(lines.push(b"ab").is_empty());
    assert!(lines.push(b"").is_empty());
    assert_eq!(lines.pending(), "ab");
}

#[test]
fn push_text_takes_text_as_push_takes_bytes() {
    let mut by_text = LineReassembler::new();
    let mut by_bytes = LineReassembler::new();
    let text = "alpha\n beta \ngam";
    assert_eq!(by_text.push_text(text), by_bytes.push(text.as_bytes()));
    assert_eq!(by_text.pending(), by_bytes.pending());
    assert_eq!(by_text.pending(), "gam");
}

#[test]
fn chunking_is_transparent_to_the_output() {
    let whole: &[u8] = b"{\"a\":1}\n  {\"b\":2} \n\n{\"c\":3}\ntail";
    let expected = feed(&[whole]);
    assert_eq!(
        expected.0,
        vec![
            "{\"a\":1}".to_string(),
            "{\"b\":2}".to_string(),
            String::new(),
            "{\"c\":3}".to_string()
        ]
    );
    assert_eq!(expected.1, "tail");
    for cut in 0..=whole.len() {
        assert_eq!(feed(&[&whole[..cut], &whole[cut..]]), expected);
    }
    for first in 0..=whole.len() {
        for second in first..=whole.len() {
            let got = feed(&[&whole[..first], &whole[first..second], &whole[second..]]);
            assert_eq!(got, expected);
        }
    }
    let bytes: Vec<&[u8]> = whole.chunks(1).collect();
    assert_eq!(feed(&bytes), expected);
}

#[test]
fn records_match_a_single_split_of_the_whole_text() {
    let whole = "first\n second\t\n\nthird \nrest";
    let mut expected: Vec<String> = whole.split('\n').map(|line| line.trim().to_string()).collect();
    let tail = expected.pop().unwrap();
    let (records, pending) = feed(&[&whole.as_bytes()[..9], &whole.as_bytes()[9..]]);
    assert_eq!(records, expected);
    assert_eq!(pending, tail);
}

#[test]
fn malformed_bytes_are_replaced_and_never_fatal() {
    let mut lines = LineReassembler::new();
    let out = lines.push(&[b'a', 0xff, b'b', b'\n']);
    assert_eq!(out, vec!["a\u{fffd}b".to_string()]);
}

#[test]
fn a_character_cut_in_two_is_decoded_on_each_side() {
    let whole = "é\n".as_bytes();
    let (together, _) = feed(&[whole]);
    assert_eq!(together, vec!["é".to_string()]);
    let (apart, _) = feed(&[&whole[..1], &whole[1..]]);
    assert_eq!(apart, vec!["\u{fffd}\u{fffd}".to_string()]);
}

#[test]
fn a_character_kept_whole_survives_any_chunking() {
    let whole = "héllo wörld\n".as_bytes();
    let (records, pending) = feed(&[&whole[..3], &whole[3..8], &whole[8..]]);
    assert_eq!(records, vec!["héllo wörld".to_string()]);
    assert_eq!(pending, "");
}

#[test]
fn no_record_holds_a_newline() {
    let (records, pending) = feed(&[b"a\nb\n\nc", b"\nd\n", b"e"]);
    assert_eq!(records.len(), 5);
    for record in &records {
        assert!(!record.contains('\n'));
    }
    assert!(!pending.contains('\n'));
    assert_eq!(pending, "e");
}

use hidden_text_tool::codec::DecodeError;
use hidden_text_tool::codec::HiddenTextTool;
use hidden_text_tool::codec::strip_quotes;

const START: char = '\u{E0001}';
const FULL_STOP: char = '\u{E002E}';
const CANCEL: char = '\u{E007F}';

fn round_trip(text: &str) {
    let tool = HiddenTextTool::new();
    let encoded = tool.encode_text(text);
    let decoded = tool.decode_text(&encoded).expect("round trip must decode");
    assert_eq!(decoded, text);
}

#[test]
fn round_trip_hello_world() {
    round_trip("Hello World!");
}

#[test]
fn round_trip_secret_message() {
    round_trip("This is a secret message");
}

#[test]
fn round_trip_special_chars() {
    round_trip("Special chars: !@#$%^&*()");
}

#[test]
fn round_trip_numbers() {
    round_trip("Numbers: 0123456789");
}

#[test]
fn round_trip_empty() {
    round_trip("");
}

#[test]
fn encode_exact_envelope() {
    let tool = HiddenTextTool::new();
    let encoded = tool.encode_text("A");
    let chars: Vec<char> = encoded.chars().collect();
    assert_eq!(chars, vec![START, '\u{E0041}', FULL_STOP, CANCEL]);
}

#[test]
fn encode_length_is_input_plus_three() {
    let tool = HiddenTextTool::new();
    for text in ["", "x", "Hello World!", "\u{30000}", "a b c"] {
        let encoded = tool.encode_text(text);
        assert_eq!(encoded.chars().count(), text.chars().count() + 3);
    }
}

#[test]
fn decode_empty_input_fails() {
    let tool = HiddenTextTool::new();
    assert_eq!(tool.decode_text(""), Err(DecodeError::EmptyInput));
}

#[test]
fn decode_without_start_tag_fails() {
    let tool = HiddenTextTool::new();
    assert_eq!(tool.decode_text("abc"), Err(DecodeError::MissingStartTag));
}

#[test]
fn decode_truncated_envelope_fails() {
    let tool = HiddenTextTool::new();
    let encoded = tool.encode_text("Hello");
    let total = encoded.chars().count();
    let truncated: String = encoded.chars().take(total - 2).collect();
    assert_eq!(
        tool.decode_text(&truncated),
        Err(DecodeError::MissingEndMarkers)
    );
}

#[test]
fn decode_bare_start_tag_fails() {
    let tool = HiddenTextTool::new();
    let mut input = String::new();
    input.push(START);
    assert_eq!(tool.decode_text(&input), Err(DecodeError::MissingEndMarkers));
}

#[test]
fn decode_uses_rightmost_end_pair() {
    // A FULL_STOP/CANCEL pair sits inside the payload; the true terminator
    // at the end must win, so nothing before it is truncated away.
    let tool = HiddenTextTool::new();
    let mut input = String::new();
    input.push(START);
    input.push(FULL_STOP);
    input.push(CANCEL);
    input.push('\u{E006F}'); // hidden 'o'
    input.push('\u{E006B}'); // hidden 'k'
    input.push(FULL_STOP);
    input.push(CANCEL);
    assert_eq!(tool.decode_text(&input), Ok(".\u{7F}ok".to_string()));
}

#[test]
fn round_trip_payload_hiding_an_end_pair() {
    // '.' followed by the delete control character encodes to a hidden
    // FULL_STOP/CANCEL adjacency inside the payload; the rightmost-pair rule
    // keeps the round trip exact anyway.
    round_trip(".\u{7F}ab");
}

#[test]
fn encode_out_of_range_uses_fallback() {
    // 0x30000 + 0xE0000 exceeds the largest code point, so the hidden
    // question mark is substituted.
    let tool = HiddenTextTool::new();
    let encoded = tool.encode_text("\u{30000}");
    let chars: Vec<char> = encoded.chars().collect();
    assert_eq!(chars, vec![START, '\u{E003F}', FULL_STOP, CANCEL]);
    assert_eq!(tool.decode_text(&encoded), Ok("?".to_string()));
}

#[test]
fn decode_rejects_character_below_tag_base() {
    let tool = HiddenTextTool::new();
    let mut input = String::new();
    input.push(START);
    input.push('x');
    input.push(FULL_STOP);
    input.push(CANCEL);
    assert_eq!(
        tool.decode_text(&input),
        Err(DecodeError::InvalidHiddenCharacter('x'))
    );
}

#[test]
fn decode_reports_leftmost_invalid_character() {
    let tool = HiddenTextTool::new();
    let mut input = String::new();
    input.push(START);
    input.push('a');
    input.push('b');
    input.push(FULL_STOP);
    input.push(CANCEL);
    assert_eq!(
        tool.decode_text(&input),
        Err(DecodeError::InvalidHiddenCharacter('a'))
    );
}

#[test]
fn strip_quotes_removes_matching_double_quotes() {
    assert_eq!(strip_quotes("\"abc\""), "abc");
}

#[test]
fn strip_quotes_removes_matching_single_quotes() {
    assert_eq!(strip_quotes("'abc'"), "abc");
}

#[test]
fn strip_quotes_keeps_unquoted_text() {
    assert_eq!(strip_quotes("abc"), "abc");
}

#[test]
fn strip_quotes_keeps_mismatched_quotes() {
    assert_eq!(strip_quotes("\"abc'"), "\"abc'");
    assert_eq!(strip_quotes("'abc\""), "'abc\"");
}

#[test]
fn strip_quotes_keeps_a_lone_quote() {
    assert_eq!(strip_quotes("\""), "\"");
    assert_eq!(strip_quotes("'"), "'");
}

#[test]
fn strip_quotes_removes_only_one_layer() {
    assert_eq!(strip_quotes("\"\"abc\"\""), "\"abc\"");
}

#[test]
fn quoted_envelope_decodes_after_stripping() {
    // The command-line surface hands out the envelope wrapped in quotes;
    // stripping one layer and decoding must give the original text back.
    let tool = HiddenTextTool::new();
    let text = "a secret";
    let quoted = format!("\"{}\"", tool.encode_text(text));
    let decoded = tool
        .decode_text(strip_quotes(&quoted))
        .expect("stripped envelope must decode");
    assert_eq!(decoded, text);

    let single_quoted = format!("'{}'", tool.encode_text(text));
    let decoded = tool
        .decode_text(strip_quotes(&single_quoted))
        .expect("stripped envelope must decode");
    assert_eq!(decoded, text);
}

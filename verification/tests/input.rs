use patchbay::input::{parse_request, InputError, Request};

fn new(frequency: &str, id: &str) -> Result<Option<Request>, InputError> {
    Ok(Some(Request::New { frequency: frequency.to_string(), id: id.to_string() }))
}

fn delete(id: &str) -> Result<Option<Request>, InputError> {
    Ok(Some(Request::Delete { id: id.to_string() }))
}

fn bind(source: &str, sink: &str) -> Result<Option<Request>, InputError> {
    Ok(Some(Request::Bind { source: source.to_string(), sink: sink.to_string() }))
}

#[test]
fn parses_the_three_requests() {
    assert_eq!(parse_request("new 440 a"), new("440", "a"));
    assert_eq!(parse_request("del a"), delete("a"));
    assert_eq!(parse_request("bind a out"), bind("a", "out"));
}

#[test]
fn keeps_the_frequency_as_written() {
    assert_eq!(parse_request("new 261.63 c4"), new("261.63", "c4"));
    assert_eq!(parse_request("new 1e3 k"), new("1e3", "k"));
    assert_eq!(parse_request("new loud a"), new("loud", "a"));
}

#[test]
fn drops_whitespace_at_the_end_of_the_line() {
    assert_eq!(parse_request("new 440 a\n"), new("440", "a"));
    assert_eq!(parse_request("del a\r\n"), delete("a"));
    assert_eq!(parse_request("bind a b \t \n"), bind("a", "b"));
    assert_eq!(parse_request("del a\u{3000}\u{a0}"), delete("a"));
}

#[test]
fn line_without_a_known_verb_asks_for_nothing() {
    assert_eq!(parse_request(""), Ok(None));
    assert_eq!(parse_request("\n"), Ok(None));
    assert_eq!(parse_request("   \n"), Ok(None));
    assert_eq!(parse_request("help"), Ok(None));
    assert_eq!(parse_request("play a b c"), Ok(None));
    assert_eq!(parse_request("New 440 a"), Ok(None));
    assert_eq!(parse_request("news 440 a"), Ok(None));
    assert_eq!(parse_request("ne 440 a"), Ok(None));
    assert_eq!(parse_request("delete a"), Ok(None));
    assert_eq!(parse_request("bin a b"), Ok(None));
    assert_eq!(parse_request("binder a b"), Ok(None));
}

#[test]
fn verb_must_start_the_line() {
    assert_eq!(parse_request(" new 440 a"), Ok(None));
    assert_eq!(parse_request("\tdel a"), Ok(None));
}

#[test]
fn missing_arguments_are_reported() {
    assert_eq!(parse_request("new"), Err(InputError::MissingArgument));
    assert_eq!(parse_request("new 440"), Err(InputError::MissingArgument));
    assert_eq!(parse_request("new 440 \n"), Err(InputError::MissingArgument));
    assert_eq!(parse_request("del"), Err(InputError::MissingArgument));
    assert_eq!(parse_request("del \n"), Err(InputError::MissingArgument));
    assert_eq!(parse_request("bind"), Err(InputError::MissingArgument));
    assert_eq!(parse_request("bind a"), Err(InputError::MissingArgument));
}

#[test]
fn further_fields_are_ignored() {
    assert_eq!(parse_request("new 440 a b c"), new("440", "a"));
    assert_eq!(parse_request("del a b"), delete("a"));
    assert_eq!(parse_request("bind a b c d"), bind("a", "b"));
}

#[test]
fn two_spaces_enclose_an_empty_field() {
    assert_eq!(parse_request("new  440 a"), new("", "440"));
    assert_eq!(parse_request("del  a"), delete(""));
    assert_eq!(parse_request("bind a  b"), bind("a", ""));
    assert_eq!(parse_request("bind  "), Err(InputError::MissingArgument));
    assert_eq!(parse_request("bind   x"), bind("", ""));
}

#[test]
fn only_the_space_separates_fields() {
    assert_eq!(parse_request("del\ta"), Ok(None));
    assert_eq!(parse_request("del a\tb"), delete("a\tb"));
    assert_eq!(parse_request("bind a\u{a0}b c"), bind("a\u{a0}b", "c"));
}

#[test]
fn identifiers_may_be_any_text() {
    assert_eq!(parse_request("del b\u{e4}ss"), delete("b\u{e4}ss"));
    assert_eq!(parse_request("bind \u{266b} \u{1f3b9}\n"), bind("\u{266b}", "\u{1f3b9}"));
    assert_eq!(parse_request("new 440 \u{4e2d}\u{6587}"), new("440", "\u{4e2d}\u{6587}"));
}

#[test]
fn splits_like_trim_end_and_split_on_space() {
    let lines = [
        "new 440 a\n",
        "bind a  b \n",
        "del x\u{2003}\u{2028}",
        "bind \u{e9} \u{fc}\u{1680}",
        "new 1 2 3 4 ",
        "del   ",
    ];
    for line in lines {
        let parts: Vec<&str> = line.trim_end().split(" ").collect();
        let expected = match parts[0] {
            "new" if parts.len() >= 3 => new(parts[1], parts[2]),
            "del" if parts.len() >= 2 => delete(parts[1]),
            "bind" if parts.len() >= 3 => bind(parts[1], parts[2]),
            "new" | "del" | "bind" => Err(InputError::MissingArgument),
            _ => Ok(None),
        };
        assert_eq!(parse_request(line), expected);
    }
}

#[test]
fn trailing_whitespace_is_what_the_standard_library_calls_whitespace() {
    let plane_zero = 0..=0xFFFF_u32;
    let beyond = (0x1_0000..=0x10_FFFF_u32).step_by(0x101);
    for code in plane_zero.chain(beyond) {
        if let Some(c) = char::from_u32(code) {
            let line = format!("del x{}", c);
            let expected = if c.is_whitespace() {
                delete("x")
            } else {
                delete(&format!("x{}", c))
            };
            assert_eq!(parse_request(&line), expected);
        }
    }
}

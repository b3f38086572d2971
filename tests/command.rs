use stimer::command::{
    parse, parse_command, request_of, same_text, Parsed, BAD_DURATION_MESSAGE,
    COMMAND_NOT_FOUND_MESSAGE, DEFAULT_MESSAGE, MANY_LINKS_MESSAGE, NO_DURATION_MESSAGE,
    NO_LINK_MESSAGE,
};
use stimer::duration::{duration_from_parts, parse_duration, read_number, DurationError};

fn add_of(r: Result<Parsed, Option<String>>) -> (String, u64) {
    match r {
        Ok(Parsed::Add(m, t)) => (m, t),
        other => panic!("expected an add request, got {:?}", other),
    }
}

fn error_of(r: Result<Parsed, Option<String>>) -> Option<String> {
    match r {
        Err(e) => e,
        Ok(p) => panic!("expected an error, got {:?}", p),
    }
}

#[test]
fn add_with_text() {
    assert_eq!(
        add_of(parse("timer add 10s hello world", false, 1000)),
        ("hello world".to_string(), 1010)
    );
    assert_eq!(
        add_of(parse("  timer s 1m2s  go  ", false, 0)),
        ("go".to_string(), 62)
    );
}

#[test]
fn add_without_text_uses_default() {
    assert_eq!(
        add_of(parse("timer + 1h", false, 5)),
        (DEFAULT_MESSAGE.to_string(), 3605)
    );
}

#[test]
fn add_replaces_embedded_mentions() {
    let text = r#"timer add 5m hi !{"type":"user","raw":"@alice","id":"x"}"#;
    assert_eq!(add_of(parse(text, false, 0)), ("hi @alice".to_string(), 300));
}

#[test]
fn add_without_duration() {
    assert_eq!(
        error_of(parse("timer add", false, 0)),
        Some(NO_DURATION_MESSAGE.to_string())
    );
}

#[test]
fn add_with_repeated_unit() {
    assert_eq!(
        error_of(parse("timer a 1h1h x", false, 0)),
        Some("時間は1つだけ指定してください".to_string())
    );
    assert_eq!(
        error_of(parse("timer a 1w2w", false, 0)),
        Some("週は1つだけ指定してください".to_string())
    );
}

#[test]
fn add_past_the_end_of_time() {
    assert_eq!(
        error_of(parse("timer add 1s", false, u64::MAX)),
        Some(BAD_DURATION_MESSAGE.to_string())
    );
    assert_eq!(add_of(parse("timer add 0s", false, u64::MAX)).1, u64::MAX);
}

#[test]
fn remove_with_one_link() {
    let r = parse(
        "timer remove https://q.trap.jp/messages/6bb86c45-65d5-458f-83c0-57116d81eca1",
        false,
        0,
    );
    match r {
        Ok(Parsed::Remove(id)) => assert_eq!(id, "6bb86c45-65d5-458f-83c0-57116d81eca1"),
        other => panic!("expected a remove request, got {:?}", other),
    }
}

#[test]
fn remove_link_errors() {
    assert_eq!(error_of(parse("timer r", false, 0)), Some(NO_LINK_MESSAGE.to_string()));
    assert_eq!(error_of(parse("timer r foo", false, 0)), Some(NO_LINK_MESSAGE.to_string()));
    assert_eq!(
        error_of(parse(
            "timer d //q.trap.jp/messages/ab //q.trap.jp/messages/cd",
            false,
            0
        )),
        Some(MANY_LINKS_MESSAGE.to_string())
    );
}

#[test]
fn list_scopes() {
    assert!(matches!(parse("timer ls -a", false, 0), Ok(Parsed::List(true))));
    assert!(matches!(parse("list", true, 0), Ok(Parsed::List(false))));
    assert!(matches!(parse("timer l", false, 0), Ok(Parsed::List(false))));
}

#[test]
fn join_and_leave_need_a_mention() {
    assert!(matches!(parse("join", true, 0), Ok(Parsed::Join)));
    assert!(matches!(parse("leave", true, 0), Ok(Parsed::Leave)));
    assert_eq!(error_of(parse("join", false, 0)), None);
}

#[test]
fn unaddressed_and_unknown() {
    assert_eq!(error_of(parse("hello timer", false, 0)), None);
    assert_eq!(error_of(parse("", false, 0)), None);
    assert_eq!(
        error_of(parse("timer foo", false, 0)),
        Some(COMMAND_NOT_FOUND_MESSAGE.to_string())
    );
    assert_eq!(
        error_of(parse("timer", false, 0)),
        Some(COMMAND_NOT_FOUND_MESSAGE.to_string())
    );
    assert_eq!(
        error_of(parse("", true, 0)),
        Some(COMMAND_NOT_FOUND_MESSAGE.to_string())
    );
}

#[test]
fn mention_is_taken_out() {
    let text = r#"!{"type":"user","raw":"@BOT_STimer","id":"d352688f-a656-4444-8c5f-caa517e9ea1b"} add 1s yo"#;
    assert_eq!(add_of(request_of(text, true, 7)), ("yo".to_string(), 8));
    assert_eq!(error_of(request_of("add 1s yo", false, 7)), None);
}

#[test]
fn command_words_given_directly() {
    let args = vec!["add".to_string(), "2m".to_string()];
    assert_eq!(
        add_of(parse_command("add 2m tea", &args, 100)),
        ("tea".to_string(), 220)
    );
    assert!(same_text("abc", "abc"));
    assert!(!same_text("abc", "abd"));
}

#[test]
fn duration_all_units() {
    assert_eq!(parse_duration("1w2d3h4m5s"), Ok(788645));
    assert_eq!(parse_duration("90m"), Ok(5400));
    assert_eq!(parse_duration(""), Ok(0));
    assert_eq!(parse_duration("soon"), Ok(0));
}

#[test]
fn duration_errors() {
    assert_eq!(parse_duration("1h2h"), Err(DurationError::Repeated('h')));
    assert_eq!(parse_duration("99999999999999999999s"), Err(DurationError::InvalidNumber));
    assert_eq!(parse_duration("40000000000000w"), Err(DurationError::TooLong));
    assert_eq!(parse_duration("\u{0663}s"), Err(DurationError::InvalidNumber));
    assert_eq!(
        duration_from_parts(&vec![("1".to_string(), "x".to_string())]),
        Err(DurationError::UnknownUnit)
    );
    assert_eq!(
        duration_from_parts(&vec![("".to_string(), "s".to_string())]),
        Err(DurationError::InvalidNumber)
    );
    assert_eq!(
        duration_from_parts(&vec![
            ("2".to_string(), "d".to_string()),
            ("3".to_string(), "s".to_string())
        ]),
        Ok(172803)
    );
}

#[test]
fn numbers() {
    assert_eq!(read_number(&"007".to_string()), Some(7));
    assert_eq!(read_number(&"18446744073709551615".to_string()), Some(u64::MAX));
    assert_eq!(read_number(&"18446744073709551616".to_string()), None);
    assert_eq!(read_number(&"1a".to_string()), None);
    assert_eq!(read_number(&"".to_string()), None);
}

#[test]
fn repeated_unit_is_reported_before_overflow() {
    assert_eq!(parse_duration("30500568904944w1w"), Err(DurationError::Repeated('w')));
    assert_eq!(parse_duration("1w30500568904944w"), Err(DurationError::Repeated('w')));
    assert_eq!(parse_duration("30500568904944w1d"), Err(DurationError::TooLong));
    assert_eq!(parse_duration("1d30500568904944w"), Err(DurationError::TooLong));
    assert_eq!(parse_duration("40000000000000w\u{0663}s"), Err(DurationError::InvalidNumber));
    assert_eq!(
        error_of(parse("timer add 30500568904944w1w", false, 0)),
        Some("週は1つだけ指定してください".to_string())
    );
}

#[test]
fn group_order_does_not_matter() {
    assert_eq!(parse_duration("2h5m"), parse_duration("5m2h"));
    assert_eq!(parse_duration("2h5m"), Ok(7500));
}

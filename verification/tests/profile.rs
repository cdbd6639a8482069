use kirblasnoop::dns::Answer;
use kirblasnoop::profile::compile::{compile_respond, file_name, not_found};
use kirblasnoop::profile::{
    aligned_hex, load, parse_hex, resolve, unescape, Action, Compiled, Contents, EscapeFault,
    HexError, Match, Place, Profile, Respond, RespondError, Rule,
};

#[test]
fn hex_parsing_tolerates_separators() {
    assert_eq!(parse_hex("de ad:be-ef").unwrap(), vec![0xde, 0xad, 0xbe, 0xef]);
    assert_eq!(parse_hex("0x0001").unwrap(), vec![0, 1]);
    assert!(parse_hex("abc").is_err());
}

#[test]
fn escapes_round_trip() {
    assert_eq!(unescape("a\\r\\nb").unwrap(), b"a\r\nb");
    assert_eq!(unescape("\\x00\\xff").unwrap(), vec![0x00, 0xff]);
    assert!(unescape("\\q").is_err());
}

#[test]
fn empty_matcher_matches_anything() {
    assert!(Match::default().matches(b"whatever", false));
    assert!(Match::default().matches(&[], true));
}

#[test]
fn conditions_are_anded() {
    let m = Match {
        starts_with: Some("GET".into()),
        min_len: Some(10),
        ..Default::default()
    };
    assert!(!m.matches(b"GET /", false));
    assert!(m.matches(b"GET /index.html", false));
}

#[test]
fn ignore_case_folds_both_sides() {
    let m = Match {
        contains: Some("EhLo".into()),
        ignore_case: true,
        ..Default::default()
    };
    assert!(m.matches(b"ehlo mail.example.com", false));
}

#[test]
fn first_only_gates_on_first_message() {
    let m = Match {
        first_only: Some(true),
        ..Default::default()
    };
    assert!(m.matches(b"x", true));
    assert!(!m.matches(b"x", false));
}

#[test]
fn any_false_matches_nothing_rather_than_everything() {
    let m = Match {
        any: Some(false),
        ..Default::default()
    };
    assert!(!m.matches(b"anything at all", true));
    // and the documented catch-all still works
    let yes = Match {
        any: Some(true),
        ..Default::default()
    };
    assert!(yes.matches(b"anything at all", false));
}

#[test]
fn binary_prefix_matching() {
    let m = Match {
        prefix_hex: Some("cafe".into()),
        ..Default::default()
    };
    assert!(m.matches(&[0xca, 0xfe, 0x01], false));
    assert!(!m.matches(&[0xca, 0xff], false));
}

#[test]
fn every_kind_of_condition_is_held_to() {
    let ends = Match { ends_with: Some("\r\n".into()), ..Default::default() };
    assert!(ends.matches(b"QUIT\r\n", false));
    assert!(!ends.matches(b"\n", false));
    let inside = Match { contains_hex: Some("be ef".into()), ..Default::default() };
    assert!(inside.matches(&[1, 0xbe, 0xef, 2], false));
    assert!(!inside.matches(&[0xef, 0xbe], false));
    let exact = Match { len: Some(3), ..Default::default() };
    assert!(exact.matches(b"abc", false));
    assert!(!exact.matches(b"ab", false));
    let short = Match { max_len: Some(2), ..Default::default() };
    assert!(short.matches(b"ab", false));
    assert!(!short.matches(b"abc", false));
    let nothing = Match { contains: Some(String::new()), ..Default::default() };
    assert!(!nothing.matches(b"abc", false));
    let broken = Match { prefix_hex: Some("zz".into()), ..Default::default() };
    assert!(!broken.matches(b"zz", false));
    let case = Match { starts_with: Some("get".into()), ..Default::default() };
    assert!(!case.matches(b"GET", false));
}

#[test]
fn bad_hex_says_which_byte() {
    let odd = parse_hex("abc").unwrap_err();
    assert!(matches!(odd, HexError::Odd));
    assert_eq!(
        odd.message("abc"),
        "hex string has an odd number of digits: \"abc\""
    );
    let bad = parse_hex("12 g4").unwrap_err();
    assert_eq!(bad.message("12 g4"), "bad hex byte \"g4\" in \"12 g4\"");
    let wide = parse_hex("\u{e9}").unwrap_err();
    assert_eq!(wide.message("\u{e9}"), "bad hex byte \"\u{e9}\" in \"\u{e9}\"");
    assert_eq!(parse_hex("+f").unwrap(), vec![15]);
    assert!(aligned_hex("\u{e9}"));
    assert!(!aligned_hex("1\u{e9}1"));
    assert!(!aligned_hex("\u{20ac}1"));
}

#[test]
fn any_bytes_can_be_written_in_hex_or_escaped() {
    let bytes: Vec<u8> = (0..=255u8).collect();
    let hex: String = bytes.iter().map(|b| format!("{b:02x}")).collect();
    assert_eq!(parse_hex(&hex).unwrap(), bytes);
    let spaced: String = bytes.iter().map(|b| format!("{b:02x}, ")).collect();
    assert_eq!(parse_hex(&spaced).unwrap(), bytes);
    let escaped: String = bytes.iter().map(|b| format!("\\x{b:02x}")).collect();
    assert_eq!(unescape(&escaped).unwrap(), bytes);
    assert_eq!(unescape("gr\u{fc}n\u{1f600}").unwrap(), "gr\u{fc}n\u{1f600}".as_bytes());
    assert_eq!(unescape("\\t\\0\\\\\\\"").unwrap(), vec![9, 0, 0x5c, 0x22]);
}

#[test]
fn bad_escapes_say_what_is_wrong() {
    assert_eq!(unescape("\\q").unwrap_err().message(), "unknown escape: \\q");
    assert_eq!(unescape("a\\").unwrap_err().message(), "trailing backslash");
    assert_eq!(unescape("\\x1").unwrap_err().message(), "truncated \\x escape");
    assert_eq!(unescape("\\xg1").unwrap_err().message(), "bad \\x escape: \\xg1");
    assert!(matches!(unescape("\\xg1").unwrap_err(), EscapeFault::BadHex('g', '1')));
}

fn none() -> Contents {
    Contents { on_connect: None, rules: Vec::new() }
}

#[test]
fn a_response_is_text_then_hex_then_file() {
    let r = Respond {
        text: Some("a\\n".into()),
        hex: Some("ff".into()),
        file: Some("x".into()),
        repeat: Some(2),
        delay_ms: 7,
        close: true,
        ..Default::default()
    };
    let file = Some(b"f".to_vec());
    assert!(r.is_sound(&file));
    let a = compile_respond(&r, &file).unwrap();
    assert_eq!(a.payload, b"a\n\xfffa\n\xfff".to_vec());
    assert_eq!(a.delay_ms, 7);
    assert!(a.close && !a.echo && !a.is_silent());
    assert!(matches!(compile_respond(&r, &None), Err(RespondError::File)));
    let none = Respond { repeat: Some(0), text: Some("x".into()), ..Default::default() };
    assert!(compile_respond(&none, &None).unwrap().is_silent());
}

#[test]
fn nothing_is_repeated_at_once() {
    let r = Respond { text: Some("".into()), repeat: Some(usize::MAX), ..Default::default() };
    assert!(r.is_sound(&None));
    let a = compile_respond(&r, &None).unwrap();
    assert!(a.payload.is_empty() && a.is_silent());
}

#[test]
fn a_payload_that_fits_no_vector_is_unsound() {
    let r = Respond { text: Some("ab".into()), repeat: Some(usize::MAX), ..Default::default() };
    assert!(!r.is_sound(&None));
    let cut = Respond { hex: Some("1\u{e9}1".into()), ..Default::default() };
    assert!(!cut.is_sound(&None));
    let unread = Respond { text: Some("\\q".into()), hex: Some("1\u{e9}1".into()), ..Default::default() };
    assert!(unread.is_sound(&None));
    assert!(matches!(compile_respond(&unread, &None), Err(RespondError::Text(_))));
}

fn smtp() -> Compiled {
    let p = Profile {
        name: "smtp".into(),
        description: "mail".into(),
        on_connect: Some(Respond { text: Some("220 hi\\r\\n".into()), ..Default::default() }),
        rules: vec![
            Rule {
                name: Some("ehlo".into()),
                matcher: Match {
                    starts_with: Some("EHLO".into()),
                    ignore_case: true,
                    ..Default::default()
                },
                respond: Some(Respond { text: Some("250 ok\\r\\n".into()), ..Default::default() }),
            },
            Rule {
                name: None,
                matcher: Match { starts_with: Some("Q".into()), ..Default::default() },
                respond: None,
            },
            Rule {
                name: Some("late".into()),
                matcher: Match { starts_with: Some("ehlo".into()), ..Default::default() },
                respond: Some(Respond { hex: Some("00".into()), ..Default::default() }),
            },
        ],
    };
    assert!(p.is_sound(&none()));
    load(p, &none()).unwrap()
}

#[test]
fn the_first_rule_that_matches_answers() {
    let c = smtp();
    assert!(c.is_ready(b"ehlo there", false));
    assert_eq!(c.name, "smtp");
    assert_eq!(c.description, "mail");
    let (rule, action) = c.eval(b"ehlo there", false).unwrap();
    assert_eq!(rule, "ehlo");
    assert_eq!(action.payload, b"250 ok\r\n".to_vec());
    let (rule, action) = c.eval(b"QUIT", false).unwrap();
    assert_eq!(rule, "rule[1]");
    assert!(action.is_silent());
    assert!(c.eval(b"NOOP", false).is_none());
    assert!(c.responds());
    assert_eq!(c.max_response_bytes(), Some(16));
}

#[test]
fn replies_that_mirror_have_no_maximum() {
    let mut c = smtp();
    c.rules[2].action.echo = true;
    assert_eq!(c.max_response_bytes(), None);
    let mut c = smtp();
    c.rules[1].action.dns = Some(Answer { a: None, aaaa: None, ttl: 1 });
    assert_eq!(c.max_response_bytes(), None);
    assert!(!c.rules[1].action.is_silent());
    let quiet = Compiled {
        name: "silent".into(),
        description: String::new(),
        on_connect: None,
        rules: Vec::new(),
    };
    assert!(!quiet.responds());
    assert_eq!(quiet.max_response_bytes(), Some(0));
    let a = c.rules[0].action.clone();
    assert_eq!(a.payload, b"250 ok\r\n".to_vec());
    assert!(Action::default().is_silent());
}

fn failing(on_connect: Option<Respond>, rules: Vec<Option<Respond>>) -> (Option<usize>, RespondError) {
    let p = Profile {
        name: "x".into(),
        description: String::new(),
        on_connect,
        rules: rules
            .into_iter()
            .map(|respond| Rule { name: None, matcher: Match::default(), respond })
            .collect(),
    };
    let e = load(p, &none()).unwrap_err();
    (e.rule, e.fault)
}

#[test]
fn the_first_response_at_fault_is_reported() {
    let text = |t: &str| Respond { text: Some(t.into()), ..Default::default() };
    let hex = |t: &str| Respond { hex: Some(t.into()), ..Default::default() };
    let file = Respond { file: Some("x".into()), ..Default::default() };
    let (rule, fault) = failing(Some(text("\\")), vec![Some(hex("1"))]);
    assert_eq!(rule, None);
    assert!(matches!(fault, RespondError::Text(EscapeFault::Trailing)));
    let (rule, fault) = failing(None, vec![None, Some(hex("1")), Some(text("\\"))]);
    assert_eq!(rule, Some(1));
    assert!(matches!(fault, RespondError::Hex(HexError::Odd)));
    let (rule, fault) = failing(None, vec![Some(file)]);
    assert_eq!(rule, Some(0));
    assert!(matches!(fault, RespondError::File));
}

#[test]
fn files_go_to_the_responses_that_name_them() {
    let file = || Respond { file: Some("x".into()), ..Default::default() };
    let p = Profile {
        name: "x".into(),
        description: String::new(),
        on_connect: Some(file()),
        rules: vec![Rule { name: None, matcher: Match::default(), respond: Some(file()) }],
    };
    let files = Contents {
        on_connect: Some(b"one".to_vec()),
        rules: vec![Some(b"two".to_vec())],
    };
    let c = load(p, &files).unwrap();
    assert_eq!(c.on_connect.unwrap().payload, b"one".to_vec());
    assert_eq!(c.rules[0].action.payload, b"two".to_vec());
}

#[test]
fn a_profile_is_a_path_before_it_is_a_name() {
    assert_eq!(resolve(true, true), Some(Place::Direct));
    assert_eq!(resolve(false, true), Some(Place::Named));
    assert_eq!(resolve(false, false), None);
    assert_eq!(file_name("http"), "http.toml");
    assert_eq!(
        not_found("ht\"tp", "a", "b/c"),
        "profile \"ht\\\"tp\" not found (looked at a and b/c)"
    );
}

#[test]
fn hex_that_cuts_a_character_matters_only_where_it_is_reached() {
    let m = Match {
        starts_with: Some("a".into()),
        prefix_hex: Some("61".into()),
        contains_hex: Some("1\u{e9}1".into()),
        ..Default::default()
    };
    assert!(!m.is_ready(b"a", false));
    assert!(m.is_ready(b"b", false));
    assert!(!m.matches(b"b", false));
    let mut c = smtp();
    c.rules[2].matcher = m;
    assert!(c.is_ready(b"ehlo", false));
    assert!(!c.is_ready(b"a", false));
    assert_eq!(c.eval(b"ehlo", false).unwrap().0, "ehlo");
}

#[test]
fn needles_match_in_any_case_when_they_should() {
    for needle in ["QUIT", "quit", "qUiT"] {
        let m = Match {
            starts_with: Some(needle.into()),
            ends_with: Some(needle.into()),
            ignore_case: true,
            ..Default::default()
        };
        assert!(m.matches(b"Quit", false));
        assert!(!m.matches(b"Quiz", false));
    }
}

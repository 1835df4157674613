use wawa::commands::{
    body_after_first_whitespace, default_prefixes, parse_command, strip_triple_ticks,
    strip_wawa_prefix, Command,
};

#[test]
fn every_format_alias_reaches_the_same_handler() {
    for alias in ["f", "fmt", "format"] {
        let p = parse_command(&format!("{alias} Below+ 1 2"));
        assert_eq!(p.command, Command::Fmt);
        assert_eq!(p.body, "Below+ 1 2");
    }
}

#[test]
fn token_is_case_insensitive_body_is_not() {
    for token in ["RUN", "Run", "rUn"] {
        let p = parse_command(&format!("{token} MixedCase Body"));
        assert_eq!(p.command, Command::Run);
        assert_eq!(p.body, "MixedCase Body");
    }
}

#[test]
fn all_command_aliases() {
    let cases: &[(&str, Command)] = &[
        ("ping", Command::Ping),
        ("v", Command::Version),
        ("ver", Command::Version),
        ("version", Command::Version),
        ("h", Command::Help),
        ("help", Command::Help),
        ("", Command::Help),
        ("p", Command::Pad),
        ("pad", Command::Pad),
        ("d", Command::Docs),
        ("doc", Command::Docs),
        ("docs", Command::Docs),
        ("what", Command::Docs),
        ("e", Command::Emojify),
        ("emojify", Command::Emojify),
        ("r", Command::Run),
        ("run", Command::Run),
        ("s", Command::Show),
        ("show", Command::Show),
        ("shutdown", Command::Shutdown),
        ("frobnicate", Command::Unrecognized),
    ];
    for (token, expected) in cases {
        let p = parse_command(token);
        assert_eq!(p.command, *expected, "token {token:?}");
    }
}

#[test]
fn unrecognized_token_is_echoed_lowercased() {
    let p = parse_command("BLORP arg");
    assert_eq!(p.command, Command::Unrecognized);
    assert_eq!(p.token, "blorp");
    assert_eq!(p.body, "arg");
}

#[test]
fn strips_code_fences() {
    assert_eq!(strip_triple_ticks("```\ncode\n```"), "code\n");
    assert_eq!(strip_triple_ticks("```uiua\ncode\n```"), "\ncode\n");
    assert_eq!(strip_triple_ticks("  plain  "), "plain");
    assert_eq!(strip_triple_ticks("```code```"), "code");
}

#[test]
fn prefix_detection_skips_leading_lines() {
    let prefixes = default_prefixes("wawa#0280", 1295816766446108795);
    let got = strip_wawa_prefix("quoted reply\nw! run 1 2 3", &prefixes);
    assert_eq!(got, Some(" run 1 2 3".to_string()));
}

#[test]
fn prefix_variants() {
    let prefixes = default_prefixes("wawa#0280", 42);
    assert_eq!(strip_wawa_prefix("w!ping", &prefixes), Some("ping".to_string()));
    assert_eq!(strip_wawa_prefix("W! ping", &prefixes), Some(" ping".to_string()));
    assert_eq!(
        strip_wawa_prefix("<@42> help", &prefixes),
        Some(" help".to_string())
    );
    assert_eq!(
        strip_wawa_prefix("<@&42>fmt 1", &prefixes),
        Some("fmt 1".to_string())
    );
    assert_eq!(strip_wawa_prefix("no prefix here", &prefixes), None);
}

#[test]
fn body_recovered_from_stored_invocation() {
    assert_eq!(
        body_after_first_whitespace("run + 1 2"),
        Some("+ 1 2".to_string())
    );
    assert_eq!(body_after_first_whitespace("run"), None);
}

use wawa::emojify::{emojificate, find_emoji, EmojiEntry};
use wawa::highlight::{AnsiColor, AnsiState, highlight_code};

fn entry(name: &str, markup: &str) -> EmojiEntry {
    EmojiEntry {
        name: name.to_string(),
        markup: markup.to_string(),
    }
}

#[test]
fn styling_wraps_text_in_escape_codes() {
    let bold_red = AnsiState::from_color(AnsiColor::Red).bold();
    assert_eq!(bold_red.style("42"), "\u{1B}[31;1m42\u{1B}[0m");
    let plain_green = AnsiState::from_color(AnsiColor::Green);
    assert_eq!(plain_green.style("abs"), "\u{1B}[32mabs");
}

#[test]
fn color_codes_match_the_terminal_table() {
    assert_eq!(AnsiColor::Gray.code(), 30);
    assert_eq!(AnsiColor::White.code(), 37);
    assert_eq!(AnsiColor::DefaultColor.code(), 39);
    assert_eq!(AnsiColor::Reset.code(), 0);
}

#[test]
fn highlighting_formats_the_source_first() {
    // The formatter must turn the spelled-out primitive into its glyph; the
    // highlighted reply carries the glyph, inside an ansi code fence.
    let out = highlight_code("sqrt 4");
    assert!(out.starts_with("```ansi\n"), "got: {out}");
    assert!(out.contains('\u{221A}'), "got: {out}");
    assert!(out.contains('\u{1B}'), "got: {out}");
}

#[test]
fn empty_source_highlights_to_a_marker() {
    assert_eq!(highlight_code(""), "<Empty code>");
}

#[test]
fn emoji_lookup_ignores_tilde_suffix_and_spaces() {
    let emojis = vec![entry("do~1twice", "<:dotwice:9>"), entry("couple", "<:couple:7>")];
    assert_eq!(find_emoji(&emojis, "do twice"), Some("<:dotwice:9>".to_string()));
    assert_eq!(find_emoji(&emojis, "absent"), None);
}

#[test]
fn emojification_transliterates_digits() {
    // "1" lexes to a number span; with no server emoji the digit table still
    // yields the word emoji.
    let out = emojificate("1", &Vec::new());
    assert!(out.contains(":one:"), "got: {out}");
}

#[test]
fn emojification_uses_server_emoji_for_primitives() {
    let emojis = vec![entry("sqrt", "<:sqrt:5>")];
    let out = emojificate("sqrt 9", &emojis);
    assert!(out.contains("<:sqrt:5>"), "got: {out}");
    assert!(out.contains(":nine:"), "got: {out}");
}

#[test]
fn emojification_of_nothing_is_a_marker() {
    assert_eq!(emojificate("", &Vec::new()), "`<Empty code>`");
}

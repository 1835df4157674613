use wawa::render::{
    clamp_reply, compose_run_message, compose_show_message, contains_triple_ticks,
    prepare_result, ComposedReply, MAX_MSG_LEN,
};

const TOO_LONG: &str = "Attempted to send a message that is way too long";
const REFUSAL: &str = "Output contained triple backticks, which I disallow";

#[test]
fn run_reply_full_when_it_fits() {
    let r = compose_run_message("```ansi\nsource\n```", "```\n42\n```");
    match r {
        ComposedReply::Full(t) => assert_eq!(t, "```ansi\nsource\n```\n```\n42\n```"),
        _ => panic!("expected the full variant"),
    }
}

#[test]
fn run_reply_shortened_when_source_is_too_big() {
    let source = "s".repeat(MAX_MSG_LEN);
    let r = compose_run_message(&source, "result");
    match r {
        ComposedReply::Shortened(t) => assert_eq!(
            t,
            "<Resulting message is too large, skipping the source>\nReturns:\nresult"
        ),
        _ => panic!("expected the shortened variant"),
    }
}

#[test]
fn run_reply_notice_when_even_the_result_is_too_big() {
    let source = "s".repeat(MAX_MSG_LEN);
    let result = "r".repeat(MAX_MSG_LEN + 1);
    let r = compose_run_message(&source, &result);
    match r {
        ComposedReply::TooLong(t) => assert_eq!(t, TOO_LONG),
        _ => panic!("expected the too-long notice"),
    }
}

#[test]
fn run_reply_full_at_exact_budget() {
    // A full reply of exactly the budget length still fits: the shortened
    // variant is tried only when the full one exceeds the budget.
    let source = "s".repeat(MAX_MSG_LEN - 1);
    let r = compose_run_message(&source, "");
    match r {
        ComposedReply::Full(t) => assert_eq!(t.len(), MAX_MSG_LEN),
        _ => panic!("expected the full variant at the boundary"),
    }
}

#[test]
fn show_reply_has_no_shortened_variant() {
    let result = "r".repeat(MAX_MSG_LEN + 1);
    match compose_show_message(&result) {
        ComposedReply::TooLong(t) => assert_eq!(t, TOO_LONG),
        _ => panic!("expected the too-long notice"),
    }
    match compose_show_message("ok") {
        ComposedReply::Full(t) => assert_eq!(t, "ok"),
        _ => panic!("expected the full variant"),
    }
}

#[test]
fn budget_measures_bytes_not_characters() {
    // 700 three-byte characters exceed the budget even though the character
    // count stays far under it.
    let result: String = "\u{2714}".repeat(700);
    match compose_show_message(&result) {
        ComposedReply::TooLong(_) => {}
        _ => panic!("expected the too-long notice for a multi-byte result"),
    }
}

#[test]
fn backticks_in_output_are_refused() {
    let r = prepare_result("before ``` after", false, "<Empty stack>");
    assert_eq!(r, REFUSAL);
    let r = prepare_result("```", true, "<Empty result>");
    assert_eq!(r, REFUSAL);
    let r = prepare_result("x``y`z", false, "<Empty stack>");
    assert_eq!(r, "```\nx``y`z\n```");
}

#[test]
fn empty_output_markers() {
    assert_eq!(prepare_result("", false, "<Empty stack>"), "<Empty stack>");
    assert_eq!(prepare_result("", true, "<Empty stack>"), "");
    assert_eq!(prepare_result("42", false, "<Empty stack>"), "```\n42\n```");
}

#[test]
fn detects_triple_ticks() {
    assert!(contains_triple_ticks("a```b"));
    assert!(!contains_triple_ticks("a``b`c"));
}

#[test]
fn outgoing_reply_is_clamped_never_truncated() {
    let long = "x".repeat(MAX_MSG_LEN + 1);
    assert_eq!(clamp_reply(&long), TOO_LONG);
    assert_eq!(clamp_reply("short"), "short");
}

use wawa::output::{
    append_stdout, cap_stack, render_output, update_stdout_output, Attachment, OutputItem,
};
use wawa::text::u64_to_string;

fn text_items(items: &[OutputItem]) -> Vec<String> {
    items
        .iter()
        .map(|it| match it {
            OutputItem::Text(s) => s.clone(),
            _ => panic!("expected a text item"),
        })
        .collect()
}

#[test]
fn decimal_rendering_is_exact() {
    assert_eq!(u64_to_string(0), "0");
    assert_eq!(u64_to_string(7), "7");
    assert_eq!(u64_to_string(10), "10");
    assert_eq!(u64_to_string(1850), "1850");
    assert_eq!(u64_to_string(u64::MAX), "18446744073709551615");
}

#[test]
fn attachment_note_and_name() {
    let (out, atts) = update_stdout_output(
        String::from("so far\n"),
        Vec::new(),
        &[1, 2, 3],
        Some("label".to_string()),
        "image",
        "png",
        true,
    );
    assert_eq!(out, "so far\n<attachment #1: image 'label'>\n");
    assert_eq!(atts.len(), 1);
    assert_eq!(atts[0].name, "image_1.png");
    assert_eq!(atts[0].data, vec![1, 2, 3]);

    let (out, atts) = update_stdout_output(out, atts, &[4], None, "gif", "gif", false);
    assert_eq!(out, "so far\n<attachment #1: image 'label'>\n");
    assert_eq!(atts[1].name, "gif_2.gif");
}

#[test]
fn error_outcome_is_the_reply() {
    let (out, atts) = render_output(Err("Error while running: boom ".to_string()), false);
    assert_eq!(out, "Error while running: boom ");
    assert!(atts.is_empty());
}

#[test]
fn run_variant_shows_stdout_then_stack() {
    let outcome = Ok((
        vec![OutputItem::Text("printed".to_string())],
        vec![OutputItem::Text("stacked".to_string())],
    ));
    let (out, atts) = render_output(outcome, false);
    assert_eq!(out, "printed\nstacked\n");
    assert!(atts.is_empty());
}

#[test]
fn show_variant_prefers_stdout_over_stack() {
    let outcome = Ok((
        vec![OutputItem::Text("printed".to_string())],
        vec![OutputItem::Text("stacked".to_string())],
    ));
    let (out, atts) = render_output(outcome, true);
    assert_eq!(out, "printed\n");
    assert!(atts.is_empty());
}

#[test]
fn stack_rendered_when_stdout_is_empty() {
    let outcome = Ok((
        Vec::new(),
        vec![
            OutputItem::Text("3".to_string()),
            OutputItem::Continuation(2),
        ],
    ));
    let (out, atts) = render_output(outcome, true);
    assert_eq!(out, "3\n<2 more items>\n");
    assert!(atts.is_empty());
}

#[test]
fn continuation_marker_is_singular_for_one() {
    let outcome = Ok((Vec::new(), vec![OutputItem::Continuation(1)]));
    let (out, _) = render_output(outcome, false);
    assert_eq!(out, "<1 more item>\n");
}

#[test]
fn lone_media_item_gets_no_placeholder() {
    let outcome = Ok((vec![OutputItem::Image(vec![9], None)], Vec::new()));
    let (out, atts) = render_output(outcome, false);
    assert_eq!(out, "");
    assert_eq!(atts.len(), 1);
    assert_eq!(atts[0].name, "image_1.png");
}

#[test]
fn media_beside_text_gets_a_placeholder() {
    let outcome = Ok((
        vec![
            OutputItem::Text("hello".to_string()),
            OutputItem::Image(vec![9], None),
        ],
        Vec::new(),
    ));
    let (out, atts) = render_output(outcome, false);
    assert_eq!(out, "hello\n<attachment #1: image>\n");
    assert_eq!(atts.len(), 1);
}

#[test]
fn media_in_stdout_beside_stack_value() {
    // For the full variant the stack follows, so the media item is not
    // alone and gets its placeholder; the stdout-only variant leaves the
    // stack out and suppresses it.
    let outcome = || {
        Ok((
            vec![OutputItem::Image(vec![9], None)],
            vec![OutputItem::Text("1".to_string())],
        ))
    };
    let (out, atts) = render_output(outcome(), false);
    assert_eq!(out, "<attachment #1: image>\n1\n");
    assert_eq!(atts.len(), 1);
    let (out, atts) = render_output(outcome(), true);
    assert_eq!(out, "");
    assert_eq!(atts.len(), 1);
}

#[test]
fn unsupported_items_render_as_placeholders() {
    let outcome = Ok((
        Vec::new(),
        vec![
            OutputItem::Separator,
            OutputItem::Report("oops".to_string()),
        ],
    ));
    let (out, _) = render_output(outcome, false);
    assert_eq!(out, "<Unimplemented type>\n<Unimplemented type>\n");
}

#[test]
fn svg_text_becomes_attachment_bytes() {
    let outcome = Ok((
        Vec::new(),
        vec![
            OutputItem::Svg("<svg/>".to_string()),
            OutputItem::Text("done".to_string()),
        ],
    ));
    let (out, atts) = render_output(outcome, false);
    assert_eq!(out, "<attachment #1: svg>\ndone\n");
    assert_eq!(atts[0].name, "svg_1.svg");
    assert_eq!(atts[0].data, b"<svg/>".to_vec());
}

#[test]
fn stack_capped_with_continuation() {
    let items: Vec<OutputItem> = (0..12)
        .map(|k| OutputItem::Text(format!("{k}")))
        .collect();
    let capped = cap_stack(items, 10);
    assert_eq!(capped.len(), 11);
    match &capped[10] {
        OutputItem::Continuation(n) => assert_eq!(*n, 2),
        _ => panic!("expected a continuation marker"),
    }
    let small: Vec<OutputItem> = vec![OutputItem::Text("x".to_string())];
    assert_eq!(cap_stack(small, 10).len(), 1);
}

#[test]
fn is_report_distinguishes() {
    assert!(OutputItem::Report("r".to_string()).is_report());
    assert!(!OutputItem::Text("r".to_string()).is_report());
}

#[test]
fn stdout_appends_join_lines() {
    let items = append_stdout(Vec::new(), "par");
    let items = append_stdout(items, "tial\nnext");
    assert_eq!(text_items(&items), vec!["partial", "next"]);
    let items = append_stdout(items, " line\n");
    assert_eq!(text_items(&items), vec!["partial", "next line", ""]);
    let items = append_stdout(items, "");
    assert_eq!(text_items(&items), vec!["partial", "next line", ""]);
}

#[test]
fn attachment_views_are_name_and_bytes() {
    let a = Attachment {
        name: "audio_1.ogg".to_string(),
        data: vec![1],
    };
    assert_eq!(a.name, "audio_1.ogg");
    assert_eq!(a.data, vec![1]);
}

use wawa::docs::{
    compose_docs_message, docs_not_found, docs_query_too_long, docs_too_long_message,
    heading_line, join_fragments, render_doc_fragment, render_primitive_ref, DocFragment,
    example_block,
};
use wawa::pad::{compose_pad_link_message, format_and_get_pad_link};
use wawa::render::MAX_MSG_LEN;
use wawa::run::{
    attachment_file_name, compose_program, validate_attachment_dims, validate_audio_shape,
    validate_code, image_dims_ok, gif_dims_ok, audio_sample_count_ok, image_rank_ok,
};

#[test]
fn pad_link_carries_the_encoded_source() {
    // URL-safe base-64 of "abc" is "YWJj": the encoder must transform, not
    // echo, its input.
    let reply = format_and_get_pad_link("abc");
    assert!(reply.contains("https://www.uiua.org/pad?src="));
    assert!(reply.contains("__YWJj"));
    assert!(!reply.contains("__abc"));
}

#[test]
fn pad_reply_drops_source_over_budget() {
    let huge = "h".repeat(MAX_MSG_LEN);
    let r = compose_pad_link_message("0.19.1", "QUJD", &huge);
    assert_eq!(r, "[pad](https://www.uiua.org/pad?src=0.19.1__QUJD)");
    let r = compose_pad_link_message("0.19.1", "QUJD", "small");
    assert_eq!(
        r,
        "[pad](https://www.uiua.org/pad?src=0.19.1__QUJD) for: small"
    );
}

#[test]
fn doc_fragments_render_as_markdown() {
    assert_eq!(
        render_doc_fragment(&DocFragment::Text("plain".to_string())),
        "plain"
    );
    assert_eq!(
        render_doc_fragment(&DocFragment::Code("couple".to_string())),
        "`couple`"
    );
    assert_eq!(
        render_doc_fragment(&DocFragment::Emphasis("soft".to_string())),
        "_soft_"
    );
    assert_eq!(
        render_doc_fragment(&DocFragment::Strong("loud".to_string())),
        "**loud**"
    );
    assert_eq!(
        render_doc_fragment(&DocFragment::Link("t".to_string(), "u".to_string())),
        "[t](u)"
    );
}

#[test]
fn primitive_refs_prefer_emoji_then_name() {
    assert_eq!(
        render_primitive_ref(false, Some('\u{221A}'), "sqrt", Some("123")),
        "<:sqrt:123>"
    );
    assert_eq!(render_primitive_ref(false, None, "do twice", None), "dotwice");
    assert_eq!(
        render_primitive_ref(true, Some('\u{221A}'), "sqrt", Some("123")),
        "\u{221A}"
    );
    assert_eq!(render_primitive_ref(true, None, "voxels", Some("123")), "voxels");
}

#[test]
fn docs_reply_layout() {
    assert_eq!(join_fragments(&vec!["a".to_string(), "b".to_string()]), "a b");
    assert_eq!(heading_line("short"), "## short");
    assert_eq!(
        compose_docs_message("S", "L", "couple"),
        "\nS\n\n\nL\n\n([More information](https://uiua.org/docs/couple))"
    );
    assert_eq!(
        docs_not_found("nope"),
        "No docs found for 'nope', did you spell it right? (For full docs, see [full docs](https://www.uiua.org/docs))"
    );
    assert!(docs_query_too_long("a very long query indeed", 10));
    assert!(!docs_query_too_long("tup", 10));
    assert_eq!(
        docs_too_long_message(9),
        "There's no function with more than 9 chars, silly"
    );
}

#[test]
fn example_blocks_comment_each_output_line() {
    assert_eq!(example_block("+ 1 2", "3"), "+ 1 2\n# 3\n");
    assert_eq!(example_block("range 3", "0;1;2"), "range 3\n# 0;1;2\n");
    assert_eq!(example_block("x", "a\nb"), "x\n# a\n# b\n");
}

#[test]
fn empty_code_is_rejected() {
    assert_eq!(validate_code(""), Err("Cannot run empty code".to_string()));
    assert!(validate_code("+ 1 2").is_ok());
}

#[test]
fn attachment_validation_messages() {
    assert!(validate_attachment_dims(0, Some(2048), Some(2048)).is_ok());
    assert_eq!(
        validate_attachment_dims(1, Some(4096), Some(4096)),
        Err("Attachment 1 has (width, height) := (4096, 4096), which is too many pixels (maximum is 4194304)".to_string())
    );
    assert_eq!(
        validate_attachment_dims(2, None, Some(5)),
        Err("Attachment 2 did not come with a width or height, and I've only implemented images for now".to_string())
    );
}

#[test]
fn program_composition_binds_attachments_in_reverse() {
    assert_eq!(compose_program("+ 1 2", 0), "+ 1 2\n");
    assert_eq!(
        compose_program("couple", 2),
        "popunimg&frab\"img1\"\npopunimg&frab\"img0\"\ncouple\n"
    );
    assert_eq!(attachment_file_name(3), "img3");
}

#[test]
fn media_thresholds() {
    assert!(image_dims_ok(30, 30));
    assert!(!image_dims_ok(29, 30));
    assert!(gif_dims_ok(5, 30, 30));
    assert!(!gif_dims_ok(4, 30, 30));
    assert!(audio_sample_count_ok(11025));
    assert!(!audio_sample_count_ok(11024));
    assert!(image_rank_ok(2) && image_rank_ok(3) && !image_rank_ok(4));
}

#[test]
fn audio_shape_validation() {
    assert_eq!(
        validate_audio_shape(3, Some(20000)),
        Err("Audio must be a rank 1 or 2 numeric array, but it is rank 3".to_string())
    );
    assert_eq!(
        validate_audio_shape(1, Some(100)),
        Err("Audio too short or too long".to_string())
    );
    assert!(validate_audio_shape(2, Some(44100)).is_ok());
}

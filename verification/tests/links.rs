use wawa::link_scan;
use wawa::links::{extract_raw_pad_link, has_raw_pad_link, strip_markdown_links};

const RAW_PAD_LINK: &str = "https://www.uiua.org/pad?src=0_13_0-rc_4__4o2c4oqaCg==";
const MD_PAD_LINK: &str = "[uiua](https://www.uiua.org/pad?src=0_13_0-rc_4__4o2c4oqaCg==)";
const MD_LINK: &str = "[google](https://google.com)";

const HTTP_WWW_RAW_PAD_LINK: &str = "http://www.uiua.org/pad?src=0_13_0-rc_4__4o2c4oqaCg==";
const HTTPS_WWW_RAW_PAD_LINK: &str = "https://www.uiua.org/pad?src=0_13_0-rc_4__4o2c4oqaCg==";
const HTTP_RAW_PAD_LINK: &str = "http://uiua.org/pad?src=0_13_0-rc_4__4o2c4oqaCg==";
const HTTPS_RAW_PAD_LINK: &str = "https://uiua.org/pad?src=0_13_0-rc_4__4o2c4oqaCg==";

#[test]
fn check_raw_pad_links_base_link_allowed() {
    assert!(!link_scan::has_raw_pad_link("http://www.uiua.org/pad"));
    assert!(!link_scan::has_raw_pad_link("https://www.uiua.org/pad"));
}

#[test]
fn check_raw_pad_links_raw_link_disallowed() {
    assert!(link_scan::has_raw_pad_link(RAW_PAD_LINK));
    assert!(link_scan::has_raw_pad_link(
        "http://www.uiua.org/pad?src=0_13_0-rc_4__4o2c4oqaCg=="
    ));
    assert!(link_scan::has_raw_pad_link("http://www.uiua.org/pad?src"));
    assert!(link_scan::has_raw_pad_link("https://www.uiua.org/pad?src"));
}

#[test]
fn check_raw_pad_links_markdown_link_allowed() {
    assert!(!link_scan::has_raw_pad_link(MD_PAD_LINK));
}

#[test]
fn check_raw_pad_links_strips_markdown_link() {
    assert_eq!(strip_markdown_links(MD_PAD_LINK), "");
}

#[test]
fn check_raw_pad_links_multiple_markdown_links() {
    assert!(!link_scan::has_raw_pad_link(
        format!("{MD_PAD_LINK} and some stuff [google](https://google.com)").as_str()
    ));
}

#[test]
fn check_raw_pad_links_strips_markdown_links() {
    assert_eq!(
        strip_markdown_links(
            format!("{MD_PAD_LINK} and some stuff [google](https://google.com)").as_str()
        ),
        " and some stuff "
    );
}

#[test]
fn check_raw_pad_links_both() {
    assert!(link_scan::has_raw_pad_link(
        format!("{RAW_PAD_LINK} and some stuff {MD_PAD_LINK}").as_str()
    ));
    assert!(link_scan::has_raw_pad_link(
        format!("{RAW_PAD_LINK} and some stuff {MD_PAD_LINK} {RAW_PAD_LINK} and some stuff {MD_PAD_LINK}").as_str()
    ));
}

#[test]
fn check_raw_pad_links_strips_with_both() {
    assert_eq!(
        strip_markdown_links(format!("{RAW_PAD_LINK} and some stuff {MD_PAD_LINK}",).as_str(),),
        format!("{RAW_PAD_LINK} and some stuff ")
    );
    assert_eq!(strip_markdown_links(
            format!("{RAW_PAD_LINK} and some stuff {MD_PAD_LINK} {RAW_PAD_LINK} and some stuff {MD_PAD_LINK}").as_str(),
        ),
        format!("{RAW_PAD_LINK} and some stuff  {RAW_PAD_LINK} and some stuff "),
    );
}

#[test]
fn handle_raw_pad_links_base_link_allowed() {
    assert!(extract_raw_pad_link("http://www.uiua.org/pad").is_empty());
    assert!(extract_raw_pad_link("https://www.uiua.org/pad").is_empty());
    assert!(extract_raw_pad_link("http://uiua.org/pad").is_empty());
    assert!(extract_raw_pad_link("https://uiua.org/pad").is_empty());
}

#[test]
fn handle_raw_pad_links_raw_link_disallowed() {
    assert_eq!(
        extract_raw_pad_link(HTTP_WWW_RAW_PAD_LINK),
        vec![HTTP_WWW_RAW_PAD_LINK],
    );
    assert_eq!(
        extract_raw_pad_link(HTTPS_WWW_RAW_PAD_LINK),
        vec![HTTPS_WWW_RAW_PAD_LINK],
    );
    assert_eq!(
        extract_raw_pad_link(HTTP_RAW_PAD_LINK),
        vec![HTTP_RAW_PAD_LINK],
    );
    assert_eq!(
        extract_raw_pad_link(HTTPS_RAW_PAD_LINK),
        vec![HTTPS_RAW_PAD_LINK],
    );
    assert_eq!(
        extract_raw_pad_link(format!("{HTTP_WWW_RAW_PAD_LINK} {HTTPS_WWW_RAW_PAD_LINK} {HTTP_RAW_PAD_LINK} {HTTPS_RAW_PAD_LINK}").as_str()),
        vec![HTTP_WWW_RAW_PAD_LINK, HTTPS_WWW_RAW_PAD_LINK, HTTP_RAW_PAD_LINK, HTTPS_RAW_PAD_LINK],
    );
}

#[test]
fn handle_raw_pad_links_markdown_link_allowed() {
    assert_eq!(extract_raw_pad_link(MD_PAD_LINK).len(), 0);
}

#[test]
fn handle_raw_pad_links_strips_markdown_link() {
    assert_eq!(strip_markdown_links(MD_PAD_LINK), "");
}

#[test]
fn handle_raw_pad_links_multiple_markdown_links() {
    assert_eq!(
        extract_raw_pad_link(format!("{MD_PAD_LINK} and some stuff {MD_LINK}").as_str()).len(),
        0,
    );
}

#[test]
fn handle_raw_pad_links_strips_markdown_links() {
    assert_eq!(
        strip_markdown_links(format!("{MD_PAD_LINK} and some stuff {MD_LINK}").as_str()),
        " and some stuff ",
    );
}

#[test]
fn handle_raw_pad_links_both() {
    assert_eq!(
        extract_raw_pad_link(
            format!("{HTTPS_WWW_RAW_PAD_LINK} and some stuff {MD_PAD_LINK}").as_str()
        ),
        vec![HTTPS_WWW_RAW_PAD_LINK],
    );
    assert_eq!(
        extract_raw_pad_link(
            format!("{HTTPS_WWW_RAW_PAD_LINK} and some stuff {MD_PAD_LINK} {HTTPS_WWW_RAW_PAD_LINK} and some more stuff {MD_PAD_LINK}")
                .as_str()
        ),
        vec![HTTPS_WWW_RAW_PAD_LINK, HTTPS_WWW_RAW_PAD_LINK]
    );
}

#[test]
fn handle_raw_pad_links_strips_with_both() {
    assert_eq!(
        strip_markdown_links(
            format!("{HTTPS_WWW_RAW_PAD_LINK} and some stuff {MD_PAD_LINK}").as_str()
        ),
        format!("{HTTPS_WWW_RAW_PAD_LINK} and some stuff "),
    );
    assert_eq!(strip_markdown_links(
            format!("{HTTPS_WWW_RAW_PAD_LINK} and some stuff {MD_PAD_LINK} {HTTPS_WWW_RAW_PAD_LINK} and some more stuff {MD_PAD_LINK}")
                .as_str()
        ),
        format!("{HTTPS_WWW_RAW_PAD_LINK} and some stuff  {HTTPS_WWW_RAW_PAD_LINK} and some more stuff ")
    );
    assert_eq!(
        extract_raw_pad_link("https://uiua.org/pad?src=0_13_0-rc_4__4o2c4oqaCg=="),
        vec!["https://uiua.org/pad?src=0_13_0-rc_4__4o2c4oqaCg=="]
    );
}

#[test]
fn raw_links_mixed_order_preserved() {
    let msg = format!("{MD_PAD_LINK} then {HTTP_RAW_PAD_LINK} then {MD_LINK} then {HTTPS_WWW_RAW_PAD_LINK}");
    assert_eq!(
        extract_raw_pad_link(msg.as_str()),
        vec![HTTP_RAW_PAD_LINK, HTTPS_WWW_RAW_PAD_LINK],
    );
}

#[test]
fn strip_leaves_plain_text_alone() {
    assert_eq!(strip_markdown_links("no links here [only half"), "no links here [only half");
    assert_eq!(strip_markdown_links(""), "");
}

#[test]
fn scan_variant_sees_through_whitespace() {
    // The coarse detector removes whitespace first, so a link broken across
    // spaces is still caught; the extraction-based detector does not.
    let broken = "https://www.uiua .org/pad?src=abc==";
    assert!(link_scan::has_raw_pad_link(broken));
    assert!(!has_raw_pad_link(broken));
}

#[test]
fn has_raw_pad_link_agrees_with_extract() {
    assert!(has_raw_pad_link(RAW_PAD_LINK));
    assert!(!has_raw_pad_link(MD_PAD_LINK));
    assert!(!has_raw_pad_link("plain message"));
}

//! Detection and extraction of "raw" pad links.
//!
//! A pad link is a URL that encodes a program for the language's web
//! playground.  Users are asked to wrap such links in markdown (`[text](url)`)
//! so that chat clients do not expand them; a link that appears bare in a
//! message is "raw".  This module strips markdown link spans from a message
//! and extracts the remaining bare pad links, scanning left to right.
//!
//! A markdown link span is `[...](...)`, where the bracketed and the
//! parenthesised part are as short as possible and neither may contain a line
//! break.  A pad link is `http://` or `https://`, an optional `www.`, then
//! `uiua.org/pad?src=` and one or more characters drawn from letters, digits,
//! `_`, `-` and `=`, extending as far as possible.

use vstd::prelude::*;

use crate::text::{chars_of, string_of};

verus! {

// ---------------------------------------------------------------------------
// Markdown link spans
// ---------------------------------------------------------------------------

/// The position of the `]` that closes the bracketed part opened before
/// position `i`, provided it is directly followed by `(` and no line break
/// intervenes: the first such position at or after `i`.
pub open spec fn md_close(s: Seq<char>, i: int) -> Option<int>
    decreases s.len() - i,
{
    if i < 0 || i >= s.len() {
        None
    } else if s[i] == '\n' {
        None
    } else if s[i] == ']' && i + 1 < s.len() && s[i + 1] == '(' {
        Some(i)
    } else {
        md_close(s, i + 1)
    }
}

/// The position of the first `)` at or after position `i`, with no line break
/// before it.
pub open spec fn paren_close(s: Seq<char>, i: int) -> Option<int>
    decreases s.len() - i,
{
    if i < 0 || i >= s.len() {
        None
    } else if s[i] == '\n' {
        None
    } else if s[i] == ')' {
        Some(i)
    } else {
        paren_close(s, i + 1)
    }
}

/// The end position (exclusive) of the markdown link span starting at `i`,
/// if one starts there.
pub open spec fn md_span_end(s: Seq<char>, i: int) -> Option<int> {
    if 0 <= i < s.len() && s[i] == '[' {
        match md_close(s, i + 1) {
            Some(j) => match paren_close(s, j + 2) {
                Some(k) => Some(k + 1),
                None => None,
            },
            None => None,
        }
    } else {
        None
    }
}




/// The message with every markdown link span removed, scanning once from
/// position `i`.
pub open spec fn strip_md_from(s: Seq<char>, i: int) -> Seq<char>
    decreases s.len() - i,
{
    if i < 0 || i >= s.len() {
        Seq::empty()
    } else {
        match md_span_end(s, i) {
            Some(e) => if i < e <= s.len() {
                strip_md_from(s, e)
            } else {
                Seq::empty()
            },
            None => seq![s[i]] + strip_md_from(s, i + 1),
        }
    }
}

/// The message with every markdown link span removed.
pub open spec fn strip_md(s: Seq<char>) -> Seq<char> {
    strip_md_from(s, 0)
}

// ---------------------------------------------------------------------------
// Pad links
// ---------------------------------------------------------------------------

/// The characters allowed in the encoded-source part of a pad link.
pub open spec fn is_link_char(c: char) -> bool {
    ('0' as u32 <= c as u32 && c as u32 <= '9' as u32) || ('a' as u32 <= c as u32 && c as u32
        <= 'z' as u32) || ('A' as u32 <= c as u32 && c as u32 <= 'Z' as u32) || c == '_' || c == '-'
        || c == '='
}

pub open spec fn lit_http() -> Seq<char> {
    seq!['h', 't', 't', 'p']
}

pub open spec fn lit_scheme_sep() -> Seq<char> {
    seq![':', '/', '/']
}

pub open spec fn lit_www() -> Seq<char> {
    seq!['w', 'w', 'w', '.']
}

pub open spec fn lit_pad_path() -> Seq<char> {
    seq!['u', 'i', 'u', 'a', '.', 'o', 'r', 'g', '/', 'p', 'a', 'd', '?', 's', 'r', 'c', '=']
}

/// Whether the literal `lit` occurs in `s` at position `i`.
pub open spec fn lit_at(s: Seq<char>, i: int, lit: Seq<char>) -> bool {
    0 <= i && i + lit.len() <= s.len() && (forall|k: int| 0 <= k < lit.len() ==> s[i + k] == lit[k])
}

/// The position right after the fixed part of a pad link starting at `i`
/// (scheme, optional `www.`, host and path), if it is present.
pub open spec fn pad_body_start(s: Seq<char>, i: int) -> Option<int> {
    if !lit_at(s, i, lit_http()) {
        None
    } else {
        let a = if i + 4 < s.len() && s[i + 4] == 's' {
            i + 5
        } else {
            i + 4
        };
        if !lit_at(s, a, lit_scheme_sep()) {
            None
        } else {
            let b = a + 3;
            let c = if lit_at(s, b, lit_www()) {
                b + 4
            } else {
                b
            };
            if lit_at(s, c, lit_pad_path()) {
                Some(c + lit_pad_path().len() as int)
            } else {
                None
            }
        }
    }
}

/// The end of the run of link characters starting at position `i`.
pub open spec fn run_end(s: Seq<char>, i: int) -> int
    decreases s.len() - i,
{
    if 0 <= i < s.len() && is_link_char(s[i]) {
        run_end(s, i + 1)
    } else {
        i
    }
}

/// The end position (exclusive) of the pad link starting at `i`, if one
/// starts there: the fixed part followed by at least one link character,
/// extending as far as the link characters go.
pub open spec fn link_end(s: Seq<char>, i: int) -> Option<int> {
    match pad_body_start(s, i) {
        Some(p) => if p < s.len() && is_link_char(s[p]) {
            Some(run_end(s, p))
        } else {
            None
        },
        None => None,
    }
}

pub proof fn lemma_run_end_bounds(s: Seq<char>, i: int)
    requires
        0 <= i <= s.len(),
    ensures
        i <= run_end(s, i) <= s.len(),
        forall|k: int| i <= k < run_end(s, i) ==> is_link_char(s[k]),
    decreases s.len() - i,
{
    if 0 <= i < s.len() && is_link_char(s[i]) {
        lemma_run_end_bounds(s, i + 1);
    }
}

pub proof fn lemma_link_end_bounds(s: Seq<char>, i: int)
    requires
        0 <= i <= s.len(),
    ensures
        match link_end(s, i) {
            Some(e) => i < e <= s.len(),
            None => true,
        },
{
    if let Some(p) = pad_body_start(s, i) {
        assert(i <= p) by {
            assert(lit_at(s, i, lit_http()));
        }
        if p < s.len() && is_link_char(s[p]) {
            lemma_run_end_bounds(s, p);
            assert(run_end(s, p) == run_end(s, p + 1));
        }
    }
}

/// The bare pad links found in `s`, scanning left to right, each as long as
/// the link characters allow, resuming after each find.
pub open spec fn links_from(s: Seq<char>, i: int) -> Seq<Seq<char>>
    decreases s.len() - i,
{
    if i < 0 || i >= s.len() {
        seq![]
    } else {
        match link_end(s, i) {
            Some(e) => if i < e <= s.len() {
                seq![s.subrange(i, e)] + links_from(s, e)
            } else {
                seq![]
            },
            None => links_from(s, i + 1),
        }
    }
}

/// The bare pad links of `s`, in order of appearance.
pub open spec fn extracted_links(s: Seq<char>) -> Seq<Seq<char>> {
    links_from(s, 0)
}

// ---------------------------------------------------------------------------
// Laws
// ---------------------------------------------------------------------------

/// Whether some markdown link span starts anywhere in `s`.
pub open spec fn has_md_span(s: Seq<char>) -> bool {
    exists|i: int| md_span_end(s, i) is Some
}

/// A sequence of characters that is, in its entirety, one pad link.
pub open spec fn is_raw_pad_link(u: Seq<char>) -> bool {
    link_end(u, 0) == Some(u.len() as int)
}

proof fn lemma_strip_from_no_links(s: Seq<char>, i: int)
    requires
        0 <= i <= s.len(),
        forall|j: int| md_span_end(s, j) is None,
    ensures
        strip_md_from(s, i) == s.subrange(i, s.len() as int),
    decreases s.len() - i,
{
    if i >= s.len() {
        assert(s.subrange(i, s.len() as int) =~= Seq::empty());
    } else {
        assert(md_span_end(s, i) is None);
        lemma_strip_from_no_links(s, i + 1);
        assert(seq![s[i]] + s.subrange(i + 1, s.len() as int) =~= s.subrange(i, s.len() as int));
    }
}

/// Removing markdown link spans removes nothing else: a message without any
/// markdown link span is returned unchanged.
pub proof fn lemma_strip_identity_without_md_spans(s: Seq<char>)
    requires
        !has_md_span(s),
    ensures
        strip_md(s) == s,
{
    assert forall|j: int| md_span_end(s, j) is None by {
        assert(!(md_span_end(s, j) is Some));
    }
    lemma_strip_from_no_links(s, 0);
    assert(s.subrange(0, s.len() as int) =~= s);
}

proof fn lemma_run_end_to_end(s: Seq<char>, i: int)
    requires
        0 <= i <= s.len(),
        forall|k: int| i <= k < s.len() ==> is_link_char(s[k]),
    ensures
        run_end(s, i) == s.len(),
    decreases s.len() - i,
{
    if i < s.len() {
        lemma_run_end_to_end(s, i + 1);
    }
}

pub proof fn lemma_lit_at_sub(s: Seq<char>, i: int, e: int, d: int, lit: Seq<char>)
    requires
        0 <= i <= e <= s.len(),
        0 <= d,
        i + d + lit.len() <= e,
    ensures
        lit_at(s.subrange(i, e), d, lit) == lit_at(s, i + d, lit),
{
    let sub = s.subrange(i, e);
    if lit_at(s, i + d, lit) {
        assert forall|k: int| 0 <= k < lit.len() implies sub[d + k] == lit[k] by {
            assert(s[i + d + k] == lit[k]);
        }
    }
    if lit_at(sub, d, lit) {
        assert forall|k: int| 0 <= k < lit.len() implies s[i + d + k] == lit[k] by {
            assert(sub[d + k] == lit[k]);
        }
    }
}

/// Within the range of an extracted link, the fixed-prefix matcher agrees
/// between the whole message and the extracted piece.
proof fn lemma_pad_body_start_sub(s: Seq<char>, i: int, e: int, p: int)
    requires
        0 <= i <= s.len(),
        pad_body_start(s, i) == Some(p),
        p < e <= s.len(),
    ensures
        pad_body_start(s.subrange(i, e), 0) == Some(p - i),
{
    let sub = s.subrange(i, e);
    assert(lit_at(s, i, lit_http()));
    assert(i + 24 <= p) by {
        if i + 4 < s.len() && s[i + 4] == 's' {
            assert(lit_at(s, i + 5, lit_scheme_sep()));
        } else {
            assert(lit_at(s, i + 4, lit_scheme_sep()));
        }
    }
    lemma_lit_at_sub(s, i, e, 0, lit_http());
    let a = if i + 4 < s.len() && s[i + 4] == 's' {
        i + 5
    } else {
        i + 4
    };
    assert(a + 3 <= p);
    let sa: int = if 4 < sub.len() && sub[4] == 's' {
        5
    } else {
        4
    };
    assert(4 < sub.len());
    assert(sub[4] == s[i + 4]);
    assert(i + sa == a);
    lemma_lit_at_sub(s, i, e, a - i, lit_scheme_sep());
    let b = a + 3;
    let c = if lit_at(s, b, lit_www()) {
        b + 4
    } else {
        b
    };
    assert(c + 17 == p) by {
        assert(lit_at(s, c, lit_pad_path()));
    }
    let sc = if lit_at(sub, b - i, lit_www()) {
        b - i + 4
    } else {
        b - i
    };
    if lit_at(s, b, lit_www()) {
        assert(b + 4 <= c);
        lemma_lit_at_sub(s, i, e, b - i, lit_www());
        assert(sc == c - i);
    } else {
        if lit_at(sub, b - i, lit_www()) {
            lemma_lit_at_sub(s, i, e, b - i, lit_www());
            assert(false);
        }
        assert(sc == c - i);
    }
    lemma_lit_at_sub(s, i, e, c - i, lit_pad_path());
    assert(lit_at(sub, c - i, lit_pad_path()));
    assert(pad_body_start(sub, 0) == Some(c - i + lit_pad_path().len() as int));
}

/// An extracted piece is, in its entirety, one pad link.
proof fn lemma_extracted_piece_is_link(s: Seq<char>, i: int, e: int)
    requires
        0 <= i <= s.len(),
        link_end(s, i) == Some(e),
    ensures
        is_raw_pad_link(s.subrange(i, e)),
{
    lemma_link_end_bounds(s, i);
    let sub = s.subrange(i, e);
    let p = pad_body_start(s, i)->Some_0;
    assert(p < s.len() && is_link_char(s[p]));
    assert(run_end(s, p) == e);
    lemma_run_end_bounds(s, p);
    assert(p < e) by {
        assert(run_end(s, p) == run_end(s, p + 1));
        lemma_run_end_bounds(s, p + 1);
    }
    lemma_pad_body_start_sub(s, i, e, p);
    assert forall|k: int| p - i <= k < sub.len() implies is_link_char(sub[k]) by {
        assert(sub[k] == s[i + k]);
    }
    lemma_run_end_to_end(sub, p - i);
    assert(is_link_char(sub[p - i]));
}

proof fn lemma_links_from_are_links(s: Seq<char>, i: int)
    requires
        0 <= i <= s.len(),
    ensures
        forall|k: int|
            0 <= k < links_from(s, i).len() ==> is_raw_pad_link(#[trigger] links_from(s, i)[k]),
    decreases s.len() - i,
{
    if i >= s.len() {
    } else {
        match link_end(s, i) {
            Some(e) => {
                lemma_link_end_bounds(s, i);
                lemma_extracted_piece_is_link(s, i, e);
                lemma_links_from_are_links(s, e);
                assert forall|k: int| 0 <= k < links_from(s, i).len() implies is_raw_pad_link(
                    #[trigger] links_from(s, i)[k]) by {
                    if k == 0 {
                        assert(links_from(s, i)[0] == s.subrange(i, e));
                    } else {
                        assert(links_from(s, i)[k] == links_from(s, e)[k - 1]);
                    }
                }
            },
            None => {
                lemma_links_from_are_links(s, i + 1);
                assert(links_from(s, i) == links_from(s, i + 1));
                assert forall|k: int| 0 <= k < links_from(s, i).len() implies is_raw_pad_link(
                    #[trigger] links_from(s, i)[k]) by {
                    assert(links_from(s, i)[k] == links_from(s, i + 1)[k]);
                }
            },
        }
    }
}

/// Every extracted link is a whole pad link: extraction returns the bare
/// links themselves, never a fragment or an extension of one.
pub proof fn lemma_extracted_are_pad_links(s: Seq<char>)
    ensures
        forall|k: int|
            0 <= k < extracted_links(s).len() ==> is_raw_pad_link(
                #[trigger] extracted_links(s)[k]),
{
    lemma_links_from_are_links(s, 0);
}

/// The characters a pad link can be made of; none of them opens a markdown
/// span, closes one, or breaks a line.
proof fn lemma_pad_link_chars(u: Seq<char>)
    requires
        is_raw_pad_link(u),
    ensures
        forall|m: int| 0 <= m < u.len() ==> u[m] != '[' && u[m] != ')' && u[m] != '\n',
{
    let p = pad_body_start(u, 0)->Some_0;
    assert(p < u.len() && is_link_char(u[p]));
    assert(run_end(u, p) == u.len());
    lemma_run_end_bounds(u, p);
    assert(lit_at(u, 0, lit_http()));
    let a = if 4 < u.len() && u[4] == 's' {
        5
    } else {
        4
    };
    assert(lit_at(u, a, lit_scheme_sep()));
    let b = a + 3;
    let c = if lit_at(u, b, lit_www()) {
        b + 4
    } else {
        b
    };
    assert(lit_at(u, c, lit_pad_path()));
    assert(p == c + 17);
    assert forall|m: int| 0 <= m < u.len() implies u[m] != '[' && u[m] != ')' && u[m] != '\n' by {
        if m < 4 {
            assert(u[m] == lit_http()[m]);
        } else if m == 4 && a == 5 {
            assert(u[4] == 's');
        } else if a <= m < b {
            assert(u[m] == lit_scheme_sep()[m - a]);
        } else if b <= m < c {
            assert(u[m] == lit_www()[m - b]);
        } else if c <= m < p {
            assert(u[m] == lit_pad_path()[m - c]);
        } else {
            assert(is_link_char(u[m]));
        }
    }
}

/// A message that consists of one bare pad link and nothing else yields
/// exactly that link.
pub proof fn lemma_bare_link_extracted(u: Seq<char>)
    requires
        is_raw_pad_link(u),
    ensures
        extracted_links(strip_md(u)) == seq![u],
{
    lemma_pad_link_chars(u);
    assert forall|i: int| md_span_end(u, i) is None by {
        if 0 <= i < u.len() {
            assert(u[i] != '[');
        }
    }
    assert(!has_md_span(u));
    lemma_strip_identity_without_md_spans(u);
    assert(u.len() > 0) by {
        assert(lit_at(u, 0, lit_http()));
    }
    assert(links_from(u, 0) =~= seq![u.subrange(0, u.len() as int)] + links_from(
        u,
        u.len() as int,
    ));
    assert(u.subrange(0, u.len() as int) =~= u);
    assert(extracted_links(strip_md(u)) =~= seq![u]);
}

proof fn lemma_md_close_finds(s: Seq<char>, a: int, b: int)
    requires
        0 <= a <= b,
        b + 1 < s.len(),
        forall|m: int| a <= m < b ==> s[m] != '\n' && s[m] != ']',
        s[b] == ']',
        s[b + 1] == '(',
    ensures
        md_close(s, a) == Some(b),
    decreases b - a,
{
    if a < b {
        lemma_md_close_finds(s, a + 1, b);
    }
}

proof fn lemma_paren_close_finds(s: Seq<char>, a: int, b: int)
    requires
        0 <= a <= b,
        b < s.len(),
        forall|m: int| a <= m < b ==> s[m] != '\n' && s[m] != ')',
        s[b] == ')',
    ensures
        paren_close(s, a) == Some(b),
    decreases b - a,
{
    if a < b {
        lemma_paren_close_finds(s, a + 1, b);
    }
}

/// A pad link wrapped in a markdown link span is not extracted: stripping
/// removes the whole `[text](link)` form, provided the text contains no `]`
/// and no line break.
pub proof fn lemma_wrapped_link_ignored(t: Seq<char>, u: Seq<char>)
    requires
        forall|m: int| 0 <= m < t.len() ==> t[m] != ']' && t[m] != '\n',
        is_raw_pad_link(u),
    ensures
        strip_md(seq!['['] + t + seq![']', '('] + u + seq![')']) == Seq::<char>::empty(),
        extracted_links(strip_md(seq!['['] + t + seq![']', '('] + u + seq![')'])).len() == 0,
{
    lemma_pad_link_chars(u);
    let w = seq!['['] + t + seq![']', '('] + u + seq![')'];
    let tl = t.len() as int;
    let ul = u.len() as int;
    assert(w.len() == tl + ul + 4);
    assert(w[0] == '[');
    assert forall|m: int| 1 <= m < 1 + tl implies w[m] != '\n' && w[m] != ']' by {
        assert(w[m] == t[m - 1]);
    }
    assert(w[1 + tl] == ']');
    assert(w[2 + tl] == '(');
    lemma_md_close_finds(w, 1, 1 + tl);
    assert forall|m: int| 3 + tl <= m < 3 + tl + ul implies w[m] != '\n' && w[m] != ')' by {
        assert(w[m] == u[m - 3 - tl]);
    }
    assert(w[3 + tl + ul] == ')');
    lemma_paren_close_finds(w, 3 + tl, 3 + tl + ul);
    assert(md_span_end(w, 0) == Some(w.len() as int));
    assert(strip_md_from(w, 0) == strip_md_from(w, w.len() as int));
    assert(strip_md(w) =~= Seq::<char>::empty());
}

// ---------------------------------------------------------------------------
// Executable scanning
// ---------------------------------------------------------------------------

fn find_md_close(v: &Vec<char>, start: usize) -> (r: Option<usize>)
    ensures
        match r {
            Some(j) => md_close(v@, start as int) == Some(j as int) && start <= j && j + 1
                < v@.len(),
            None => md_close(v@, start as int) is None,
        },
{
    let mut j: usize = start;
    while j < v.len()
        invariant
            start <= j,
            md_close(v@, start as int) == md_close(v@, j as int),
        decreases v@.len() - j,
    {
        let c = v[j];
        if c == '\n' {
            return None;
        }
        if c == ']' && j + 1 < v.len() && v[j + 1] == '(' {
            return Some(j);
        }
        assert(md_close(v@, j as int) == md_close(v@, j + 1));
        j = j + 1;
    }
    None
}

fn find_paren_close(v: &Vec<char>, start: usize) -> (r: Option<usize>)
    ensures
        match r {
            Some(k) => paren_close(v@, start as int) == Some(k as int) && start <= k && k
                < v@.len(),
            None => paren_close(v@, start as int) is None,
        },
{
    let mut j: usize = start;
    while j < v.len()
        invariant
            start <= j,
            paren_close(v@, start as int) == paren_close(v@, j as int),
        decreases v@.len() - j,
    {
        let c = v[j];
        if c == '\n' {
            return None;
        }
        if c == ')' {
            return Some(j);
        }
        assert(paren_close(v@, j as int) == paren_close(v@, j + 1));
        j = j + 1;
    }
    None
}

fn md_end_at(v: &Vec<char>, i: usize) -> (r: Option<usize>)
    requires
        i < v@.len(),
    ensures
        match r {
            Some(e) => md_span_end(v@, i as int) == Some(e as int) && i < e && e <= v@.len(),
            None => md_span_end(v@, i as int) is None,
        },
{
    let n = v.len();
    if v[i] != '[' {
        return None;
    }
    match find_md_close(v, i + 1) {
        Some(j) => match find_paren_close(v, j + 2) {
            Some(k) => Some(k + 1),
            None => None,
        },
        None => None,
    }
}

/// Remove every markdown link span from a vector of characters.
pub(crate) fn strip_md_chars(v: &Vec<char>) -> (out: Vec<char>)
    ensures
        out@ == strip_md(v@),
{
    let mut out: Vec<char> = Vec::new();
    let mut i: usize = 0;
    assert(strip_md(v@) =~= out@ + strip_md_from(v@, 0));
    while i < v.len()
        invariant
            i <= v@.len(),
            strip_md(v@) == out@ + strip_md_from(v@, i as int),
        decreases v@.len() - i,
    {
        match md_end_at(v, i) {
            Some(e) => {
                i = e;
            },
            None => {
                let ghost pre = out@;
                out.push(v[i]);
                proof {
                    assert(pre + (seq![v@[i as int]] + strip_md_from(v@, i + 1)) =~= out@
                        + strip_md_from(v@, i + 1));
                }
                i = i + 1;
            },
        }
    }
    proof {
        assert(strip_md(v@) =~= out@);
    }
    out
}

/// Remove every markdown link span (`[...](...)`) from a message.
pub fn strip_markdown_links(message: &str) -> (r: String)
    ensures
        r@ == strip_md(message@),
{
    let v = chars_of(message);
    let out = strip_md_chars(&v);
    string_of(&out)
}

fn is_link_char_exec(c: char) -> (r: bool)
    ensures
        r == is_link_char(c),
{
    (c >= '0' && c <= '9') || (c >= 'a' && c <= 'z') || (c >= 'A' && c <= 'Z') || c == '_' || c
        == '-' || c == '='
}

/// Whether the characters of `lit` occur in `v` at position `i`.
pub(crate) fn match_chars(v: &Vec<char>, i: usize, lit: &Vec<char>) -> (r: bool)
    ensures
        r == lit_at(v@, i as int, lit@),
{
    let n = v.len();
    if i > n || lit.len() > n - i {
        assert(!lit_at(v@, i as int, lit@));
        return false;
    }
    let mut k: usize = 0;
    while k < lit.len()
        invariant
            n == v@.len(),
            i + lit@.len() <= v@.len(),
            k <= lit@.len(),
            forall|m: int| 0 <= m < k ==> v@[i + m] == lit@[m],
        decreases lit@.len() - k,
    {
        if v[i + k] != lit[k] {
            assert(!lit_at(v@, i as int, lit@));
            return false;
        }
        k = k + 1;
    }
    true
}

fn http_chars() -> (v: Vec<char>)
    ensures
        v@ == lit_http(),
{
    let v = vec!['h', 't', 't', 'p'];
    proof {
        assert(v@ =~= lit_http());
    }
    v
}

fn scheme_sep_chars() -> (v: Vec<char>)
    ensures
        v@ == lit_scheme_sep(),
{
    let v = vec![':', '/', '/'];
    proof {
        assert(v@ =~= lit_scheme_sep());
    }
    v
}

fn www_chars() -> (v: Vec<char>)
    ensures
        v@ == lit_www(),
{
    let v = vec!['w', 'w', 'w', '.'];
    proof {
        assert(v@ =~= lit_www());
    }
    v
}

fn pad_path_chars() -> (v: Vec<char>)
    ensures
        v@ == lit_pad_path(),
{
    let v = vec!['u', 'i', 'u', 'a', '.', 'o', 'r', 'g', '/', 'p', 'a', 'd', '?', 's', 'r', 'c',
            '='];
    proof {
        assert(v@ =~= lit_pad_path());
    }
    v
}

fn pad_body_start_at(v: &Vec<char>, i: usize) -> (r: Option<usize>)
    requires
        i < v@.len(),
    ensures
        match r {
            Some(p) => pad_body_start(v@, i as int) == Some(p as int) && i < p && p <= v@.len(),
            None => pad_body_start(v@, i as int) is None,
        },
{
    let n = v.len();
    let http = http_chars();
    if !match_chars(v, i, &http) {
        return None;
    }
    let a: usize = if i + 4 < v.len() && v[i + 4] == 's' {
        i + 5
    } else {
        i + 4
    };
    let sep = scheme_sep_chars();
    if !match_chars(v, a, &sep) {
        return None;
    }
    let b: usize = a + 3;
    let www = www_chars();
    let c: usize = if match_chars(v, b, &www) {
        b + 4
    } else {
        b
    };
    let path = pad_path_chars();
    if match_chars(v, c, &path) {
        Some(c + 17)
    } else {
        None
    }
}

fn link_end_at(v: &Vec<char>, i: usize) -> (r: Option<usize>)
    requires
        i < v@.len(),
    ensures
        match r {
            Some(e) => link_end(v@, i as int) == Some(e as int) && i < e && e <= v@.len(),
            None => link_end(v@, i as int) is None,
        },
{
    match pad_body_start_at(v, i) {
        Some(p) => {
            if p < v.len() && is_link_char_exec(v[p]) {
                let mut k: usize = p;
                while k < v.len() && is_link_char_exec(v[k])
                    invariant
                        p <= k <= v@.len(),
                        run_end(v@, p as int) == run_end(v@, k as int),
                    decreases v@.len() - k,
                {
                    assert(run_end(v@, k as int) == run_end(v@, k + 1));
                    k = k + 1;
                }
                Some(k)
            } else {
                None
            }
        },
        None => None,
    }
}

pub(crate) fn sub_chars(v: &Vec<char>, a: usize, b: usize) -> (r: Vec<char>)
    requires
        a <= b <= v@.len(),
    ensures
        r@ == v@.subrange(a as int, b as int),
{
    let mut r: Vec<char> = Vec::new();
    let mut k: usize = a;
    while k < b
        invariant
            a <= k <= b <= v@.len(),
            r@ == v@.subrange(a as int, k as int),
        decreases b - k,
    {
        let ghost pre = r@;
        r.push(v[k]);
        k = k + 1;
        assert(r@ =~= v@.subrange(a as int, k as int));
    }
    r
}

/// Every bare pad link in the message, in order of appearance, after
/// markdown link spans have been removed.
pub fn extract_raw_pad_link(message: &str) -> (r: Vec<String>)
    ensures
        r.deep_view() == extracted_links(strip_md(message@)),
{
    let v = chars_of(message);
    let s = strip_md_chars(&v);
    let mut r: Vec<String> = Vec::new();
    let mut i: usize = 0;
    assert(extracted_links(s@) =~= r.deep_view() + links_from(s@, 0));
    while i < s.len()
        invariant
            i <= s@.len(),
            extracted_links(s@) == r.deep_view() + links_from(s@, i as int),
        decreases s@.len() - i,
    {
        match link_end_at(&s, i) {
            Some(e) => {
                let piece = sub_chars(&s, i, e);
                let ghost pre = r.deep_view();
                r.push(string_of(&piece));
                proof {
                    assert(r.deep_view() =~= pre + seq![s@.subrange(i as int, e as int)]);
                    assert(pre + (seq![s@.subrange(i as int, e as int)] + links_from(s@, e as int))
                        =~= r.deep_view() + links_from(s@, e as int));
                }
                i = e;
            },
            None => {
                i = i + 1;
            },
        }
    }
    proof {
        assert(extracted_links(s@) =~= r.deep_view());
    }
    r
}

/// The courtesy notice sent back for a message that carries a bare pad
/// link, pointing at the link it quotes.
pub open spec fn raw_link_notice_text(link: Seq<char>) -> Seq<char> {
    "You've sent a raw pad link! Please use markdown links next time (like `[this](<link>)`). For now, here is [the link you sent]("@
        + link + ")"@
}

/// Compose the courtesy notice for a bare pad link.
pub fn raw_pad_link_notice(link: &str) -> (r: String)
    ensures
        r@ == raw_link_notice_text(link@),
{
    let mut t = <String as vstd::string::StringExecFns>::from_str(
        "You've sent a raw pad link! Please use markdown links next time (like `[this](<link>)`). For now, here is [the link you sent](",
    );
    <String as vstd::string::StringExecFns>::append(&mut t, link);
    <String as vstd::string::StringExecFns>::append(&mut t, ")");
    t
}

/// Whether the message contains any bare pad link.
pub fn has_raw_pad_link(message: &str) -> (r: bool)
    ensures
        r == (extracted_links(strip_md(message@)).len() != 0),
{
    let links = extract_raw_pad_link(message);
    let empty = links.is_empty();
    proof {
        assert(links.deep_view().len() == links@.len());
    }
    !empty
}

} // verus!

//! Rendering primitive documentation into chat messages.
//!
//! The runtime's documentation database yields a short description and a
//! list of lines, each a mix of text fragments, references to other
//! primitives and runnable examples.  The composition of those parts into a
//! reply is verified here; fetching them, and resolving a primitive
//! reference to a server emoji, is the caller's side.

use vstd::prelude::*;
use vstd::string::{StrSliceExecFns, StringExecFns};

use crate::emojify::{remove_all, remove_all_chars};
use crate::highlight::{highlight_code, highlight_text};
use crate::text::{byte_len, chars_of, dec_str, lines_of, string_of, u64_to_string, utf8_len};

verus! {

/// One fragment of a documentation line, on plain values.  A primitive
/// reference carries its already-resolved rendering.
pub enum DocFragment {
    Text(String),
    Code(String),
    Emphasis(String),
    Strong(String),
    Primitive(String),
    Link(String, String),
}

/// The text a fragment renders to.
pub open spec fn doc_fragment_text(f: &DocFragment) -> Seq<char> {
    match f {
        DocFragment::Text(t) => t@,
        DocFragment::Code(t) => seq!['`'] + t@ + seq!['`'],
        DocFragment::Emphasis(t) => seq!['_'] + t@ + seq!['_'],
        DocFragment::Strong(t) => "**"@ + t@ + "**"@,
        DocFragment::Primitive(t) => t@,
        DocFragment::Link(t, url) => seq!['['] + t@ + seq![']', '('] + url@ + seq![')'],
    }
}

/// Render one documentation fragment.
pub fn render_doc_fragment(f: &DocFragment) -> (r: String)
    ensures
        r@ == doc_fragment_text(f),
{
    match f {
        DocFragment::Text(t) => t.clone(),
        DocFragment::Code(t) => {
            let mut s = String::from_str("`");
            s.append(t.as_str());
            s.append("`");
            proof {
                reveal_strlit("`");
                assert(s@ =~= seq!['`'] + t@ + seq!['`']);
            }
            s
        },
        DocFragment::Emphasis(t) => {
            let mut s = String::from_str("_");
            s.append(t.as_str());
            s.append("_");
            proof {
                reveal_strlit("_");
                assert(s@ =~= seq!['_'] + t@ + seq!['_']);
            }
            s
        },
        DocFragment::Strong(t) => {
            let mut s = String::from_str("**");
            s.append(t.as_str());
            s.append("**");
            s
        },
        DocFragment::Primitive(t) => t.clone(),
        DocFragment::Link(t, url) => {
            let mut s = String::from_str("[");
            s.append(t.as_str());
            s.append("](");
            s.append(url.as_str());
            s.append(")");
            proof {
                reveal_strlit("[");
                reveal_strlit("](");
                reveal_strlit(")");
                assert(s@ =~= seq!['['] + t@ + seq![']', '('] + url@ + seq![')']);
            }
            s
        },
    }
}

/// How a primitive reference is rendered: an experimental primitive shows
/// its glyph, or its name when it has none; any other shows the server
/// emoji of its name (spaces removed) when one was resolved, else that name.
pub open spec fn primitive_ref_text(
    experimental: bool,
    glyph: Option<char>,
    name: Seq<char>,
    emoji_id: Option<Seq<char>>,
) -> Seq<char> {
    if experimental {
        match glyph {
            Some(g) => seq![g],
            None => name,
        }
    } else {
        let compact = remove_all(name, seq![' ']);
        match emoji_id {
            Some(id) => "<:"@ + compact + ":"@ + id + ">"@,
            None => compact,
        }
    }
}

/// Render a primitive reference from its metadata and the emoji the caller
/// resolved for it.
pub fn render_primitive_ref(
    experimental: bool,
    glyph: Option<char>,
    name: &str,
    emoji_id: Option<&str>,
) -> (r: String)
    ensures
        r@ == primitive_ref_text(
            experimental,
            glyph,
            name@,
            match emoji_id {
                Some(id) => Some(id@),
                None => None,
            },
        ),
{
    if experimental {
        match glyph {
            Some(g) => {
                let mut s = String::new();
                crate::text::push_char(&mut s, g);
                proof {
                    assert(s@ =~= seq![g]);
                }
                s
            },
            None => String::from_str(name),
        }
    } else {
        let space = vec![' '];
        proof {
            assert(space@ =~= seq![' ']);
        }
        let compact_chars = remove_all_chars(&chars_of(name), &space);
        let compact = string_of(&compact_chars);
        match emoji_id {
            Some(id) => {
                let mut s = String::from_str("<:");
                s.append(compact.as_str());
                s.append(":");
                s.append(id);
                s.append(">");
                s
            },
            None => compact,
        }
    }
}

/// A documentation line's fragments joined with spaces.
pub open spec fn joined_with_spaces(parts: Seq<Seq<char>>) -> Seq<char>
    decreases parts.len(),
{
    if parts.len() == 0 {
        Seq::empty()
    } else if parts.len() == 1 {
        parts[0]
    } else {
        parts[0] + seq![' '] + joined_with_spaces(parts.drop_first())
    }
}

/// The views of a list of rendered parts.
pub open spec fn part_views(parts: Seq<String>) -> Seq<Seq<char>> {
    parts.map(|_k: int, p: String| p@)
}

/// Join rendered fragments with spaces.
pub fn join_fragments(parts: &Vec<String>) -> (r: String)
    ensures
        r@ == joined_with_spaces(part_views(parts@)),
{
    let ghost pv = part_views(parts@);
    let mut out = String::new();
    let n = parts.len();
    let mut i: usize = 0;
    proof {
        assert(pv.subrange(0, n as int) =~= pv);
        assert(joined_with_spaces(pv) =~= out@ + joined_with_spaces(pv.subrange(0, n as int)));
    }
    while i < n
        invariant
            n == parts@.len(),
            pv == part_views(parts@),
            i <= n,
            joined_with_spaces(pv) == out@ + joined_with_spaces(pv.subrange(i as int, n as int)),
        decreases n - i,
    {
        let ghost pre = out@;
        let ghost rest = pv.subrange(i as int, n as int);
        proof {
            assert(rest[0] == pv[i as int]);
            assert(rest.drop_first() =~= pv.subrange(i + 1, n as int));
        }
        out.append(parts[i].as_str());
        if i + 1 < n {
            out.append(" ");
            proof {
                reveal_strlit(" ");
                assert(" "@ =~= seq![' ']);
                assert(rest.len() > 1);
                assert(joined_with_spaces(rest) == rest[0] + seq![' '] + joined_with_spaces(
                    rest.drop_first(),
                ));
                assert(pre + (rest[0] + seq![' '] + joined_with_spaces(rest.drop_first())) =~= out@
                    + joined_with_spaces(rest.drop_first()));
            }
        } else {
            proof {
                assert(rest.len() == 1);
                assert(joined_with_spaces(rest) == rest[0]);
                assert(pre + rest[0] =~= out@);
                assert(pv.subrange(i + 1, n as int) =~= Seq::<Seq<char>>::empty());
                assert(out@ + joined_with_spaces(pv.subrange(i + 1, n as int)) =~= out@);
            }
        }
        i = i + 1;
    }
    proof {
        if n == 0 {
            assert(joined_with_spaces(pv) =~= out@);
        }
        assert(pv.subrange(n as int, n as int) =~= Seq::<Seq<char>>::empty());
        assert(out@ + joined_with_spaces(pv.subrange(n as int, n as int)) =~= out@);
    }
    out
}

/// An example's source with its output lines echoed as comments.
pub open spec fn commented_lines(ls: Seq<Seq<char>>) -> Seq<char>
    decreases ls.len(),
{
    if ls.len() == 0 {
        Seq::empty()
    } else {
        "# "@ + ls[0] + seq!['\n'] + commented_lines(ls.drop_first())
    }
}

/// The block a runnable example is highlighted from: its input, then each
/// output line behind a comment marker.
pub open spec fn example_block_text(input: Seq<char>, output: Seq<char>) -> Seq<char> {
    input + seq!['\n'] + commented_lines(lines_of(output))
}

/// Build the text block of a runnable example.
pub fn example_block(input: &str, output: &str) -> (r: String)
    ensures
        r@ == example_block_text(input@, output@),
{
    let mut out = String::from_str(input);
    out.append("\n");
    proof {
        reveal_strlit("\n");
        assert(out@ =~= input@ + seq!['\n']);
    }
    let ov = chars_of(output);
    let ls = crate::text::lines_chars(&ov);
    let ghost lv = crate::text::views_of(ls@);
    let n = ls.len();
    let mut i: usize = 0;
    proof {
        assert(lv.subrange(0, n as int) =~= lv);
        assert(out@ + commented_lines(lv.subrange(0, n as int)) =~= (input@ + seq!['\n'])
            + commented_lines(lv));
    }
    while i < n
        invariant
            n == ls@.len(),
            lv == crate::text::views_of(ls@),
            i <= n,
            (input@ + seq!['\n']) + commented_lines(lv) == out@ + commented_lines(
                lv.subrange(i as int, n as int),
            ),
        decreases n - i,
    {
        let ghost pre = out@;
        let ghost rest = lv.subrange(i as int, n as int);
        proof {
            assert(rest[0] == lv[i as int]);
            assert(rest.drop_first() =~= lv.subrange(i + 1, n as int));
        }
        out.append("# ");
        out.append(string_of(&ls[i]).as_str());
        out.append("\n");
        proof {
            reveal_strlit("\n");
            assert(pre + ("# "@ + rest[0] + seq!['\n'] + commented_lines(rest.drop_first()))
                =~= out@ + commented_lines(rest.drop_first()));
        }
        i = i + 1;
    }
    proof {
        assert(lv.subrange(n as int, n as int) =~= Seq::<Seq<char>>::empty());
        assert(out@ + commented_lines(lv.subrange(n as int, n as int)) =~= out@);
        assert(example_block_text(input@, output@) =~= out@);
    }
    out
}

/// Render a runnable example: its block, highlighted.
pub fn render_doc_example(input: &str, output: &str) -> (r: String)
    ensures
        !crate::uiua_api::formatter_evaluates(example_block_text(input@, output@)) ==> r@
            == highlight_text(example_block_text(input@, output@)),
{
    let block = example_block(input, output);
    highlight_code(block.as_str())
}

/// A short-description line under its heading marker.
pub fn heading_line(s: &str) -> (r: String)
    ensures
        r@ == "## "@ + s@,
{
    let mut t = String::from_str("## ");
    t.append(s);
    t
}

/// The documentation reply: the short description, the first documentation
/// lines, and a link to the full documentation of the primitive.
pub open spec fn docs_message_text(short: Seq<char>, long: Seq<char>, name: Seq<char>) -> Seq<
    char,
> {
    "\n"@ + short + "\n\n\n"@ + long + "\n\n([More information](https://uiua.org/docs/"@ + name
        + "))"@
}

/// Compose the documentation reply out of its rendered parts.
pub fn compose_docs_message(short: &str, long: &str, name: &str) -> (r: String)
    ensures
        r@ == docs_message_text(short@, long@, name@),
{
    let mut t = String::from_str("\n");
    t.append(short);
    t.append("\n\n\n");
    t.append(long);
    t.append("\n\n([More information](https://uiua.org/docs/");
    t.append(name);
    t.append("))");
    t
}

/// The reply for a lookup that matched nothing.
pub open spec fn docs_not_found_text(f: Seq<char>) -> Seq<char> {
    "No docs found for '"@ + f
        + "', did you spell it right? (For full docs, see [full docs](https://www.uiua.org/docs))"@
}

/// Compose the reply for a lookup that matched nothing.
pub fn docs_not_found(f: &str) -> (r: String)
    ensures
        r@ == docs_not_found_text(f@),
{
    let mut t = String::from_str("No docs found for '");
    t.append(f);
    t.append(
        "', did you spell it right? (For full docs, see [full docs](https://www.uiua.org/docs))",
    );
    t
}

/// Whether a lookup key is longer, in bytes, than any primitive name.
pub fn docs_query_too_long(query: &str, max_len: usize) -> (r: bool)
    ensures
        r == (byte_len(query@) > max_len),
{
    utf8_len(query) > max_len as u128
}

/// The reply for a lookup key longer than any primitive name.
pub open spec fn docs_too_long_text(max_len: int) -> Seq<char> {
    "There's no function with more than "@ + dec_str(max_len) + " chars, silly"@
}

/// Compose the reply for a lookup key longer than any primitive name.
pub fn docs_too_long_message(max_len: u64) -> (r: String)
    ensures
        r@ == docs_too_long_text(max_len as int),
{
    let mut t = String::from_str("There's no function with more than ");
    t.append(u64_to_string(max_len).as_str());
    t.append(" chars, silly");
    t
}

} // verus!

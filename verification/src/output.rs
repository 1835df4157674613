//! Units of interpreter output and their rendering into reply text plus
//! binary attachments.
//!
//! The execution adapter produces a sequence of output items: text lines and
//! media of several kinds.  The renderer turns such a sequence into one block
//! of reply text and a list of named attachments; media items get sequential
//! file names and, unless a single item is the whole output, an inline
//! placeholder line.

use vstd::prelude::*;
use vstd::string::StrSliceExecFns;
use vstd::string::StringExecFns;

use crate::text::{dec_str, lines_of, string_of, u64_to_string};

verus! {

/// One unit of interpreter output.
#[derive(Debug, Clone)]
pub enum OutputItem {
    /// A line of plain text.
    Text(String),
    /// A vector image, as its markup text.
    Svg(String),
    /// A raster image, encoded, with an optional label.
    Image(Vec<u8>, Option<String>),
    /// An animated image, encoded, with an optional label.
    Gif(Vec<u8>, Option<String>),
    /// An audio clip, encoded, with an optional label.
    Audio(Vec<u8>, Option<String>),
    /// A diagnostic report, already rendered to text.
    Report(String),
    /// A muted line of text.
    Faint(String),
    /// A line of text with a named style class.
    Classed(String, String),
    /// A visual separator.
    Separator,
    /// A marker that this many further values were not shown.
    Continuation(u32),
}

/// The mathematical value of an output item.
pub enum OutputItemV {
    Text(Seq<char>),
    Svg(Seq<char>),
    Image(Seq<u8>, Option<Seq<char>>),
    Gif(Seq<u8>, Option<Seq<char>>),
    Audio(Seq<u8>, Option<Seq<char>>),
    Report(Seq<char>),
    Faint(Seq<char>),
    Classed(Seq<char>, Seq<char>),
    Separator,
    Continuation(u32),
}

pub open spec fn label_view(l: Option<String>) -> Option<Seq<char>> {
    match l {
        Some(t) => Some(t@),
        None => None,
    }
}

impl View for OutputItem {
    type V = OutputItemV;

    open spec fn view(&self) -> OutputItemV {
        match self {
            OutputItem::Text(s) => OutputItemV::Text(s@),
            OutputItem::Svg(s) => OutputItemV::Svg(s@),
            OutputItem::Image(b, l) => OutputItemV::Image(b@, label_view(*l)),
            OutputItem::Gif(b, l) => OutputItemV::Gif(b@, label_view(*l)),
            OutputItem::Audio(b, l) => OutputItemV::Audio(b@, label_view(*l)),
            OutputItem::Report(s) => OutputItemV::Report(s@),
            OutputItem::Faint(s) => OutputItemV::Faint(s@),
            OutputItem::Classed(c, s) => OutputItemV::Classed(c@, s@),
            OutputItem::Separator => OutputItemV::Separator,
            OutputItem::Continuation(n) => OutputItemV::Continuation(*n),
        }
    }
}

/// The views of a sequence of output items.
pub open spec fn item_views(s: Seq<OutputItem>) -> Seq<OutputItemV> {
    s.map(|_k: int, it: OutputItem| it@)
}

impl OutputItem {
    /// Whether this item is a diagnostic report.
    pub fn is_report(&self) -> (r: bool)
        ensures
            r == (self@ is Report),
    {
        match self {
            OutputItem::Report(_) => true,
            _ => false,
        }
    }
}

/// A named binary attachment of a reply.
pub struct Attachment {
    pub name: String,
    pub data: Vec<u8>,
}

impl View for Attachment {
    type V = (Seq<char>, Seq<u8>);

    open spec fn view(&self) -> (Seq<char>, Seq<u8>) {
        (self.name@, self.data@)
    }
}

/// The views of a sequence of attachments.
pub open spec fn attachment_views(s: Seq<Attachment>) -> Seq<(Seq<char>, Seq<u8>)> {
    s.map(|_k: int, a: Attachment| a@)
}

// ---------------------------------------------------------------------------
// Placeholder lines and file names
// ---------------------------------------------------------------------------

/// The placeholder line for attachment number `n` of the given kind, with
/// its label when it has one.
pub open spec fn attachment_note(n: int, kind: Seq<char>, label: Option<Seq<char>>) -> Seq<char> {
    match label {
        Some(l) => "<attachment #"@ + dec_str(n) + ": "@ + kind + " '"@ + l + "'>\n"@,
        None => "<attachment #"@ + dec_str(n) + ": "@ + kind + ">\n"@,
    }
}

/// The file name of attachment number `n`: its kind, its number and its
/// extension.
pub open spec fn attachment_filename(kind: Seq<char>, n: int, ext: Seq<char>) -> Seq<char> {
    kind + "_"@ + dec_str(n) + "."@ + ext
}

fn build_note(n: u64, kind: &str, label: &Option<String>) -> (r: String)
    ensures
        r@ == attachment_note(n as int, kind@, label_view(*label)),
{
    let num = u64_to_string(n);
    let mut t = String::from_str("<attachment #");
    t.append(num.as_str());
    t.append(": ");
    t.append(kind);
    match label {
        Some(l) => {
            t.append(" '");
            t.append(l.as_str());
            t.append("'>\n");
        },
        None => {
            t.append(">\n");
        },
    }
    t
}

fn build_filename(kind: &str, n: u64, ext: &str) -> (r: String)
    ensures
        r@ == attachment_filename(kind@, n as int, ext@),
{
    let num = u64_to_string(n);
    let mut t = String::from_str(kind);
    t.append("_");
    t.append(num.as_str());
    t.append(".");
    t.append(ext);
    t
}

/// Append one media attachment to a reply being built: an inline placeholder
/// line when asked for, and the bytes under a sequential file name.
pub fn update_stdout_output(
    output: String,
    attachments: Vec<Attachment>,
    bytes: &[u8],
    label: Option<String>,
    name: &str,
    ext: &str,
    should_add_attachment_text: bool,
) -> (r: (String, Vec<Attachment>))
    requires
        attachments@.len() < 0xffff_ffff,
    ensures
        r.0@ == output@ + if should_add_attachment_text {
            attachment_note(attachments@.len() as int + 1, name@, label_view(label))
        } else {
            Seq::<char>::empty()
        },
        attachment_views(r.1@) == attachment_views(attachments@).push(
            (attachment_filename(name@, attachments@.len() as int + 1, ext@), bytes@),
        ),
{
    let mut output = output;
    let mut attachments = attachments;
    let n = (attachments.len() as u64) + 1;
    if should_add_attachment_text {
        let note = build_note(n, name, &label);
        output.append(note.as_str());
    } else {
        proof {
            assert(output@ + Seq::<char>::empty() =~= output@);
        }
    }
    let filename = build_filename(name, n, ext);
    let ghost pre = attachment_views(attachments@);
    let data = vstd::slice::slice_to_vec(bytes);
    attachments.push(Attachment { name: filename, data });
    proof {
        assert(attachment_views(attachments@) =~= pre.push(
            (attachment_filename(name@, pre.len() as int + 1, ext@), bytes@),
        ));
    }
    (output, attachments)
}

// ---------------------------------------------------------------------------
// Rendering a sequence of items
// ---------------------------------------------------------------------------

/// The reply text and attachments contributed by one output item, with `n`
/// attachments already made.  Media items become attachments; a plain text
/// line, a continuation marker and the items this renderer does not carry
/// become lines of text.
pub open spec fn render_step(item: OutputItemV, n: int, add_note: bool) -> (
    Seq<char>,
    Seq<(Seq<char>, Seq<u8>)>,
) {
    match item {
        OutputItemV::Text(s) => (s + "\n"@, seq![]),
        OutputItemV::Svg(s) => (
            if add_note {
                attachment_note(n + 1, "svg"@, None)
            } else {
                Seq::empty()
            },
            seq![(attachment_filename("svg"@, n + 1, "svg"@), vstd::utf8::encode_utf8(s))],
        ),
        OutputItemV::Image(b, l) => (
            if add_note {
                attachment_note(n + 1, "image"@, l)
            } else {
                Seq::empty()
            },
            seq![(attachment_filename("image"@, n + 1, "png"@), b)],
        ),
        OutputItemV::Gif(b, l) => (
            if add_note {
                attachment_note(n + 1, "gif"@, l)
            } else {
                Seq::empty()
            },
            seq![(attachment_filename("gif"@, n + 1, "gif"@), b)],
        ),
        OutputItemV::Audio(b, l) => (
            if add_note {
                attachment_note(n + 1, "audio"@, l)
            } else {
                Seq::empty()
            },
            seq![(attachment_filename("audio"@, n + 1, "ogg"@), b)],
        ),
        OutputItemV::Continuation(k) => (
            "<"@ + dec_str(k as int) + " more item"@ + (if k == 1 {
                Seq::<char>::empty()
            } else {
                "s"@
            }) + ">\n"@,
            seq![],
        ),
        _ => ("<Unimplemented type>\n"@, seq![]),
    }
}

/// The reply text and attachments of a sequence of output items, rendered in
/// order, numbering attachments from `n + 1` on.
pub open spec fn render_items_spec(items: Seq<OutputItemV>, n: int, add_note: bool) -> (
    Seq<char>,
    Seq<(Seq<char>, Seq<u8>)>,
)
    decreases items.len(),
{
    if items.len() == 0 {
        (Seq::empty(), seq![])
    } else {
        let (t0, a0) = render_step(items[0], n, add_note);
        let (t1, a1) = render_items_spec(items.drop_first(), n + a0.len(), add_note);
        (t0 + t1, a0 + a1)
    }
}

/// Render a sequence of output items into reply text and attachments.
pub fn render_items(items: &Vec<OutputItem>, add_note: bool) -> (r: (String, Vec<Attachment>))
    requires
        items@.len() < 0xffff_ffff,
    ensures
        (r.0@, attachment_views(r.1@)) == render_items_spec(item_views(items@), 0, add_note),
{
    let mut output = String::new();
    let mut attachments: Vec<Attachment> = Vec::new();
    let mut i: usize = 0;
    let n_items = items.len();
    proof {
        assert(item_views(items@).subrange(0, n_items as int) =~= item_views(items@));
        assert(render_items_spec(item_views(items@), 0, add_note).0 =~= output@
            + render_items_spec(item_views(items@), 0, add_note).0);
        assert(render_items_spec(item_views(items@), 0, add_note).1 =~= attachment_views(
            attachments@,
        ) + render_items_spec(item_views(items@), 0, add_note).1);
    }
    while i < n_items
        invariant
            n_items == items@.len() < 0xffff_ffff,
            i <= n_items,
            attachments@.len() <= i,
            render_items_spec(item_views(items@), 0, add_note).0 == output@ + render_items_spec(
                item_views(items@).subrange(i as int, n_items as int),
                attachments@.len() as int,
                add_note,
            ).0,
            render_items_spec(item_views(items@), 0, add_note).1 == attachment_views(attachments@)
                + render_items_spec(
                item_views(items@).subrange(i as int, n_items as int),
                attachments@.len() as int,
                add_note,
            ).1,
        decreases n_items - i,
    {
        let ghost rest = item_views(items@).subrange(i as int, n_items as int);
        let ghost k = attachments@.len() as int;
        proof {
            assert(rest[0] == item_views(items@)[i as int]);
            assert(rest.drop_first() =~= item_views(items@).subrange(i + 1, n_items as int));
        }
        let ghost pre_out = output@;
        let ghost pre_atts = attachment_views(attachments@);
        let item = &items[i];
        match item {
            OutputItem::Text(s) => {
                output.append(s.as_str());
                output.append("\n");
                proof {
                    assert(pre_out + (s@ + "\n"@) =~= output@);
                }
            },
            OutputItem::Svg(s) => {
                let bytes = s.as_str().as_bytes_vec();
                let res = update_stdout_output(
                    output,
                    attachments,
                    bytes.as_slice(),
                    None,
                    "svg",
                    "svg",
                    add_note,
                );
                output = res.0;
                attachments = res.1;
            },
            OutputItem::Image(b, l) => {
                let res = update_stdout_output(
                    output,
                    attachments,
                    b.as_slice(),
                    clone_label(l),
                    "image",
                    "png",
                    add_note,
                );
                output = res.0;
                attachments = res.1;
            },
            OutputItem::Gif(b, l) => {
                let res = update_stdout_output(
                    output,
                    attachments,
                    b.as_slice(),
                    clone_label(l),
                    "gif",
                    "gif",
                    add_note,
                );
                output = res.0;
                attachments = res.1;
            },
            OutputItem::Audio(b, l) => {
                let res = update_stdout_output(
                    output,
                    attachments,
                    b.as_slice(),
                    clone_label(l),
                    "audio",
                    "ogg",
                    add_note,
                );
                output = res.0;
                attachments = res.1;
            },
            OutputItem::Continuation(c) => {
                let num = u64_to_string(*c as u64);
                output.append("<");
                output.append(num.as_str());
                output.append(" more item");
                if *c != 1 {
                    output.append("s");
                }
                output.append(">\n");
                proof {
                    if *c == 1 {
                        assert(pre_out + ("<"@ + dec_str(*c as int) + " more item"@
                            + Seq::<char>::empty() + ">\n"@) =~= output@);
                    } else {
                        assert(pre_out + ("<"@ + dec_str(*c as int) + " more item"@ + "s"@
                            + ">\n"@) =~= output@);
                    }
                }
            },
            _ => {
                output.append("<Unimplemented type>\n");
                proof {
                    assert(pre_out + "<Unimplemented type>\n"@ =~= output@);
                }
            },
        }
        proof {
            let (t0, a0) = render_step(rest[0], k, add_note);
            assert(output@ == pre_out + t0);
            assert(attachment_views(attachments@) =~= pre_atts + a0);
            let (t1, a1) = render_items_spec(rest.drop_first(), k + a0.len(), add_note);
            assert(pre_out + (t0 + t1) =~= (pre_out + t0) + t1);
            assert(pre_atts + (a0 + a1) =~= (pre_atts + a0) + a1);
        }
        i = i + 1;
    }
    proof {
        assert(item_views(items@).subrange(n_items as int, n_items as int)
            =~= Seq::<OutputItemV>::empty());
        assert(output@ + Seq::<char>::empty() =~= output@);
        assert(attachment_views(attachments@) + Seq::<(Seq<char>, Seq<u8>)>::empty()
            =~= attachment_views(attachments@));
    }
    (output, attachments)
}

fn clone_label(l: &Option<String>) -> (r: Option<String>)
    ensures
        label_view(r) == label_view(match l {
            Some(t) => Some(*t),
            None => None,
        }),
{
    match l {
        Some(t) => Some(t.clone()),
        None => None,
    }
}

// ---------------------------------------------------------------------------
// The whole outcome of an execution
// ---------------------------------------------------------------------------

/// The items a reply renders: for the full variant, the captured standard
/// output followed by the final stack values; for the stdout-only variant,
/// the captured standard output alone when there is any, else the stack.
pub open spec fn reply_items(
    stdout: Seq<OutputItemV>,
    stack: Seq<OutputItemV>,
    stdout_only: bool,
) -> Seq<OutputItemV> {
    if stdout_only {
        if stdout.len() > 0 {
            stdout
        } else {
            stack
        }
    } else {
        stdout + stack
    }
}

/// Render an execution outcome: an error becomes the reply text itself; a
/// success renders the captured standard output followed by the final stack
/// values, or — for the stdout-only variant — the standard output alone
/// when there is any.  The inline placeholder line is left out exactly when
/// one item is the whole reply.
pub fn render_output(
    outcome: Result<(Vec<OutputItem>, Vec<OutputItem>), String>,
    stdout_only: bool,
) -> (r: (String, Vec<Attachment>))
    requires
        match outcome {
            Ok((stdout, stack)) => stdout@.len() + stack@.len() < 0xffff_ffff,
            Err(_) => true,
        },
    ensures
        match outcome {
            Err(e) => r.0@ == e@ && r.1@.len() == 0,
            Ok((stdout, stack)) => {
                let items = reply_items(item_views(stdout@), item_views(stack@), stdout_only);
                (r.0@, attachment_views(r.1@)) == render_items_spec(
                    items,
                    0,
                    !(items.len() == 1),
                )
            },
        },
{
    match outcome {
        Err(e) => {
            let empty: Vec<Attachment> = Vec::new();
            (e, empty)
        },
        Ok((mut stdout, mut stack)) => {
            let ghost sv = item_views(stdout@);
            let ghost kv = item_views(stack@);
            if stdout_only {
                let chosen = if stdout.len() > 0 {
                    stdout
                } else {
                    stack
                };
                let alone = chosen.len() == 1;
                render_items(&chosen, !alone)
            } else {
                stdout.append(&mut stack);
                proof {
                    assert(item_views(stdout@) =~= sv + kv);
                }
                let alone = stdout.len() == 1;
                render_items(&stdout, !alone)
            }
        },
    }
}

// ---------------------------------------------------------------------------
// Capping the displayed stack
// ---------------------------------------------------------------------------

/// How many cut-off values the continuation marker records: the count,
/// topped at what the marker can carry.
pub open spec fn continuation_count(extra: int) -> u32 {
    if extra > 0xffff_ffff {
        0xffff_ffffu32
    } else {
        extra as u32
    }
}

/// Keep at most `cap` stack items; when values are cut off, a continuation
/// marker recording how many takes their place.
pub fn cap_stack(items: Vec<OutputItem>, cap: usize) -> (r: Vec<OutputItem>)
    ensures
        items@.len() <= cap ==> r@ == items@,
        items@.len() > cap ==> r@ == items@.subrange(0, cap as int).push(
            OutputItem::Continuation(continuation_count(items@.len() - cap)),
        ),
{
    let mut items = items;
    let n = items.len();
    if n <= cap {
        return items;
    }
    let extra_count = n - cap;
    let extra: u32 = if extra_count > 0xffff_ffff {
        0xffff_ffffu32
    } else {
        extra_count as u32
    };
    items.truncate(cap);
    items.push(OutputItem::Continuation(extra));
    items
}

// ---------------------------------------------------------------------------
// Accumulating captured standard output
// ---------------------------------------------------------------------------

/// What a write to the captured standard output turns into: its first line
/// joins the unfinished text item at the end of the buffer if there is one,
/// every further line becomes an item of its own, and a trailing line break
/// opens a new, empty item.
pub open spec fn append_stdout_spec(items: Seq<OutputItemV>, s: Seq<char>) -> Seq<OutputItemV> {
    let ls = lines_of(s);
    if ls.len() == 0 {
        items
    } else {
        let merged = if items.len() > 0 && items.last() matches OutputItemV::Text(prev) {
            items.update(items.len() - 1, OutputItemV::Text(items.last()->Text_0 + ls[0]))
        } else {
            items.push(OutputItemV::Text(ls[0]))
        };
        let with_rest = merged + ls.subrange(1, ls.len() as int).map(
            |_k: int, l: Seq<char>| OutputItemV::Text(l),
        );
        if s.len() > 0 && s.last() == '\n' {
            with_rest.push(OutputItemV::Text(Seq::empty()))
        } else {
            with_rest
        }
    }
}

/// Append a write to the captured standard output.
pub fn append_stdout(stdout: Vec<OutputItem>, s: &str) -> (r: Vec<OutputItem>)
    ensures
        item_views(r@) == append_stdout_spec(item_views(stdout@), s@),
{
    let mut stdout = stdout;
    let v = crate::text::chars_of(s);
    let n = v.len();
    let ls = crate::text::lines_chars(&v);
    let ghost items0 = item_views(stdout@);
    if ls.len() == 0 {
        return stdout;
    }
    let first = string_of(&ls[0]);
    let popped = stdout.pop();
    match popped {
        Some(OutputItem::Text(prev)) => {
            let mut merged = prev;
            merged.append(first.as_str());
            stdout.push(OutputItem::Text(merged));
            proof {
                let m = if items0.len() > 0 && items0.last() matches OutputItemV::Text(p) {
                    items0.update(items0.len() - 1, OutputItemV::Text(items0.last()->Text_0
                        + lines_of(s@)[0]))
                } else {
                    items0.push(OutputItemV::Text(lines_of(s@)[0]))
                };
                assert(item_views(stdout@) =~= m);
            }
        },
        Some(other) => {
            stdout.push(other);
            stdout.push(OutputItem::Text(first));
            proof {
                assert(item_views(stdout@) =~= items0.push(OutputItemV::Text(lines_of(s@)[0])));
            }
        },
        None => {
            stdout.push(OutputItem::Text(first));
            proof {
                assert(item_views(stdout@) =~= items0.push(OutputItemV::Text(lines_of(s@)[0])));
            }
        },
    }
    let ghost merged_v = item_views(stdout@);
    let mut k: usize = 1;
    while k < ls.len()
        invariant
            1 <= k <= ls@.len(),
            crate::text::views_of(ls@) == lines_of(s@),
            item_views(stdout@) == merged_v + crate::text::views_of(ls@).subrange(1, k as int).map(
                |_j: int, l: Seq<char>| OutputItemV::Text(l),
            ),
        decreases ls@.len() - k,
    {
        let line = string_of(&ls[k]);
        let ghost pre = item_views(stdout@);
        stdout.push(OutputItem::Text(line));
        proof {
            let lv = crate::text::views_of(ls@);
            assert(lv.subrange(1, k + 1) =~= lv.subrange(1, k as int).push(lv[k as int]));
            assert(lv.subrange(1, k + 1).map(|_j: int, l: Seq<char>| OutputItemV::Text(l))
                =~= lv.subrange(1, k as int).map(|_j: int, l: Seq<char>| OutputItemV::Text(l)).push(
                OutputItemV::Text(lv[k as int]),
            ));
            assert(item_views(stdout@) =~= pre.push(OutputItemV::Text(lv[k as int])));
        }
        k = k + 1;
    }
    proof {
        let lv = crate::text::views_of(ls@);
        assert(lv.subrange(1, lv.len() as int) =~= lines_of(s@).subrange(
            1,
            lines_of(s@).len() as int,
        ));
    }
    if n > 0 && v[n - 1] == '\n' {
        let ghost pre = item_views(stdout@);
        stdout.push(OutputItem::Text(String::new()));
        proof {
            assert(item_views(stdout@) =~= pre.push(OutputItemV::Text(Seq::empty())));
        }
    }
    stdout
}

} // verus!

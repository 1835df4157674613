//! Trusted access to the embedded language runtime.
//!
//! The runtime supplies the canonical formatter and the lexer that turns a
//! program into classified spans.  The lexer's read-out — byte ranges and
//! the plain facts the styling rules consume — is derived from the text
//! alone and is named here.  The formatter is a function of the source only
//! as long as the program holds no output or signature comment; such
//! comments make it execute the program, so nothing is claimed of them.

use vstd::prelude::*;

verus! {

#[verifier::external_type_specification]
#[verifier::external_body]
pub struct ExSpanKind(uiua::SpanKind);

// ---------------------------------------------------------------------------
// The formatter
// ---------------------------------------------------------------------------

/// Whether the formatter may run or compile the program to fill comments in:
/// a number sign followed by another number sign opens an output comment,
/// and one followed by a question mark opens a signature comment.  This test
/// errs toward more — it sees such pairs even inside string literals — so a
/// text it clears is certainly evaluation-free.
pub open spec fn formatter_evaluates(s: Seq<char>) -> bool {
    exists|i: int|
        0 <= i && i + 1 < s.len() && #[trigger] s[i] == '#' && (s[i + 1] == '#' || s[i + 1]
            == '?')
}

/// What the canonical formatter makes of an evaluation-free program: its
/// formatted form, or the text of the error it raises.  For such programs it
/// is a function of the source alone.
pub uninterp spec fn uiua_format(src: Seq<char>) -> Result<Seq<char>, Seq<char>>;

/// Relies on uiua::format::format_str with the default configuration.  On a
/// program without output or signature comments, formatting is a pure
/// rewrite of the source, so its result is named; a program with such
/// comments is executed under a wall-clock limit to fill them in — random
/// numbers, the clock and machine load can then change the output, so
/// nothing is claimed of it.
#[verifier::external_body]
pub(crate) fn format_src(code: &str) -> (r: Result<String, String>)
    ensures
        match r {
            Ok(t) => formatter_evaluates(code@) || uiua_format(code@) == Ok::<
                Seq<char>,
                Seq<char>,
            >(t@),
            Err(e) => formatter_evaluates(code@) || uiua_format(code@) == Err::<
                Seq<char>,
                Seq<char>,
            >(e@),
        },
{
    match uiua::format::format_str(code, &uiua::format::FormatConfig::default()) {
        Ok(o) => Ok(o.output),
        Err(e) => Err(e.to_string()),
    }
}

// ---------------------------------------------------------------------------
// Reading a span's classification
// ---------------------------------------------------------------------------

/// The style inputs of a primitive: plain facts the styling rules read.
#[derive(Clone, Copy, PartialEq, Eq, Structural)]
pub struct PrimStyleInputs {
    /// How many functions the primitive takes, when it is a modifier.
    pub modifier_args: Option<usize>,
    /// Whether it belongs to the argument-handling or debugging class.
    pub stackish: bool,
    /// Whether it is the identity function.
    pub identity: bool,
    /// The arguments of its signature, when that is well-defined.
    pub sig_args: Option<usize>,
    /// The arguments of its signature under the span's subscript.
    pub sub_sig_args: Option<usize>,
}

/// Relies on SpanKind::Primitive and, for the fields, on
/// Primitive::{modifier_args, class, sig, subscript_sig}, Signature::args
/// and the equality of primitives.
#[verifier::external_body]
fn span_prim_inputs(k: &uiua::SpanKind) -> (r: Option<PrimStyleInputs>) {
    match k {
        uiua::SpanKind::Primitive(p, sub) => Some(PrimStyleInputs {
            modifier_args: p.modifier_args(),
            stackish: matches!(p.class(), uiua::PrimClass::Arguments | uiua::PrimClass::Debug),
            identity: *p == uiua::Primitive::Identity,
            sig_args: p.sig().map(|s| s.args()),
            sub_sig_args: p.subscript_sig(sub.as_ref()).map(|s| s.args()),
        }),
        _ => None,
    }
}

/// Relies on SpanKind::Subscript, reading the subscripted primitive as
/// span_prim_inputs does.  The outer option is the subscripted case itself;
/// the inner one is the primitive, which a subscript may lack.
#[verifier::external_body]
fn span_subscript_inputs(k: &uiua::SpanKind) -> (r: Option<Option<PrimStyleInputs>>) {
    match k {
        uiua::SpanKind::Subscript(Some(p), Some(sub)) => Some(Some(PrimStyleInputs {
            modifier_args: p.modifier_args(),
            stackish: matches!(p.class(), uiua::PrimClass::Arguments | uiua::PrimClass::Debug),
            identity: *p == uiua::Primitive::Identity,
            sig_args: p.sig().map(|s| s.args()),
            sub_sig_args: p.subscript_sig(Some(sub)).map(|s| s.args()),
        })),
        uiua::SpanKind::Subscript(None, Some(_)) => Some(None),
        _ => None,
    }
}

/// The payload-free classification of a span.
#[derive(Clone, Copy, PartialEq, Eq, Structural)]
pub enum SimpleSpanKind {
    Str,
    Number,
    Comment,
    OutputComment,
    Strand,
    Label,
    Obverse,
    Delimiter,
    Whitespace,
    Ident,
    Other,
}

/// Relies on the variants of SpanKind, telling them apart and nothing more.
#[verifier::external_body]
fn span_kind_simple(k: &uiua::SpanKind) -> (r: SimpleSpanKind) {
    match k {
        uiua::SpanKind::String => SimpleSpanKind::Str,
        uiua::SpanKind::Number => SimpleSpanKind::Number,
        uiua::SpanKind::Comment => SimpleSpanKind::Comment,
        uiua::SpanKind::OutputComment => SimpleSpanKind::OutputComment,
        uiua::SpanKind::Strand => SimpleSpanKind::Strand,
        uiua::SpanKind::Label => SimpleSpanKind::Label,
        uiua::SpanKind::Obverse(_) => SimpleSpanKind::Obverse,
        uiua::SpanKind::Delimiter => SimpleSpanKind::Delimiter,
        uiua::SpanKind::Whitespace => SimpleSpanKind::Whitespace,
        uiua::SpanKind::Ident { .. } => SimpleSpanKind::Ident,
        _ => SimpleSpanKind::Other,
    }
}

/// What kind of binding an identifier names.
#[derive(Clone, Copy, PartialEq, Eq, Structural)]
pub enum BindingKindInfo {
    Constant,
    Function(usize),
    Modifier(usize),
    Module,
    Error,
}

/// Relies on SpanKind::Ident and BindingDocsKind, telling the binding kinds
/// apart; for a function, Signature::args gives its argument count.  The
/// outer option is the identifier case; the inner one its documentation.
#[verifier::external_body]
fn span_ident_binding(k: &uiua::SpanKind) -> (r: Option<Option<BindingKindInfo>>) {
    match k {
        uiua::SpanKind::Ident { docs: Some(d), .. } => Some(Some(match &d.kind {
            uiua::lsp::BindingDocsKind::Constant(_) => BindingKindInfo::Constant,
            uiua::lsp::BindingDocsKind::Function { sig, .. } => BindingKindInfo::Function(sig.args()),
            uiua::lsp::BindingDocsKind::Modifier(n) => BindingKindInfo::Modifier(*n),
            uiua::lsp::BindingDocsKind::Module { .. } => BindingKindInfo::Module,
            uiua::lsp::BindingDocsKind::Error => BindingKindInfo::Error,
        })),
        uiua::SpanKind::Ident { docs: None, .. } => Some(None),
        _ => None,
    }
}

/// Relies on SpanKind::Primitive and Primitive::name: the formatting name of
/// the span's primitive.
#[verifier::external_body]
fn span_prim_name(k: &uiua::SpanKind) -> (r: Option<String>) {
    match k {
        uiua::SpanKind::Primitive(p, _) => Some(p.name().to_string()),
        _ => None,
    }
}

/// Everything the library reads out of one span's classification.
pub struct SpanReading {
    /// The style inputs of a primitive span.
    pub prim: Option<PrimStyleInputs>,
    /// The style inputs behind a numeric subscript span.
    pub subscript: Option<Option<PrimStyleInputs>>,
    /// The payload-free classification.
    pub simple: SimpleSpanKind,
    /// The binding kind of an identifier span.
    pub binding: Option<Option<BindingKindInfo>>,
    /// The formatting name of a primitive span.
    pub prim_name: Option<String>,
}

/// The value of a span reading.
pub struct SpanReadingV {
    pub prim: Option<PrimStyleInputs>,
    pub subscript: Option<Option<PrimStyleInputs>>,
    pub simple: SimpleSpanKind,
    pub binding: Option<Option<BindingKindInfo>>,
    pub prim_name: Option<Seq<char>>,
}

impl View for SpanReading {
    type V = SpanReadingV;

    open spec fn view(&self) -> SpanReadingV {
        SpanReadingV {
            prim: self.prim,
            subscript: self.subscript,
            simple: self.simple,
            binding: self.binding,
            prim_name: match self.prim_name {
                Some(n) => Some(n@),
                None => None,
            },
        }
    }
}

/// Collect everything the library reads out of one span's classification.
fn read_span_kind(k: &uiua::SpanKind) -> SpanReading {
    SpanReading {
        prim: span_prim_inputs(k),
        subscript: span_subscript_inputs(k),
        simple: span_kind_simple(k),
        binding: span_ident_binding(k),
        prim_name: span_prim_name(k),
    }
}

// ---------------------------------------------------------------------------
// The lexer
// ---------------------------------------------------------------------------

/// One lexical span of a program: its byte range in the text and what the
/// library reads out of its classification.
pub struct LexSpan {
    pub start: usize,
    pub end: usize,
    pub read: SpanReading,
}

impl View for LexSpan {
    type V = (int, int, SpanReadingV);

    open spec fn view(&self) -> (int, int, SpanReadingV) {
        (self.start as int, self.end as int, self.read@)
    }
}

/// The values of a span list.
pub open spec fn lex_views(s: Seq<LexSpan>) -> Seq<(int, int, SpanReadingV)> {
    s.map(|_k: int, sp: LexSpan| sp@)
}

/// The lexer's read-out of a program: each span's byte range and the plain
/// classification facts the library reads, in span order.  Ranges and
/// classifications are derived from the text alone, so this is a function
/// of it.
pub uninterp spec fn lex_readout(src: Seq<char>) -> Seq<(int, int, SpanReadingV)>;

/// Relies on uiua::lsp::Spans::from_input: the lexical spans of a program,
/// each with its byte range and classification; the classifications are read
/// into plain values by the verified collector above.
#[verifier::external_body]
pub(crate) fn lex_spans(code: &str) -> (r: Vec<LexSpan>)
    ensures
        lex_views(r@) == lex_readout(code@),
{
    let spans = uiua::lsp::Spans::from_input(code).spans;
    spans.into_iter().map(|s| LexSpan {
        start: s.span.start.byte_pos as usize,
        end: s.span.end.byte_pos as usize,
        read: read_span_kind(&s.value),
    }).collect()
}

// ---------------------------------------------------------------------------
// The runtime's version
// ---------------------------------------------------------------------------

/// Relies on uiua::VERSION: the version of the embedded runtime.
#[verifier::external_body]
pub(crate) fn uiua_version() -> (r: String) {
    uiua::VERSION.to_string()
}

} // verus!

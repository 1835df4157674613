//! Faked syntax highlighting through terminal color codes.
//!
//! A program is first put through the runtime's canonical formatter, then
//! split into lexical spans; each span's classification picks a color and
//! weight, the span text is wrapped in the corresponding terminal escape
//! codes, and the whitespace between spans is restored so that nothing of
//! the layout is lost.

use vstd::prelude::*;
use vstd::string::StringExecFns;

use crate::render::fenced;
use crate::text::{chars_of, char_width, dec_str, is_ws_char, is_ws_char_exec, string_of,
    trim_end_spec, u64_to_string};
use crate::uiua_api::{
    format_src,
    formatter_evaluates,
    lex_readout,
    lex_spans,
    lex_views,
    uiua_format,
    BindingKindInfo,
    PrimStyleInputs,
    SimpleSpanKind,
    SpanReading,
    SpanReadingV,
};

verus! {

// ---------------------------------------------------------------------------
// Styles
// ---------------------------------------------------------------------------

/// The visual role of a lexical span.
#[derive(Debug, Clone, Copy, PartialEq, Eq, Structural)]
pub enum SpanStyle {
    Comment,
    StringLit,
    Number,
    Label,
    Strand,
    Module,
    Constant,
    NoadicFun,
    StackFun,
    MonadicFun,
    DyadicFun,
    MonadicMod,
    DyadicMod,
    Plain,
}

/// The style of a primitive, decided by its metadata: modifiers by how many
/// functions they take, argument-handling primitives as stack functions, and
/// the rest by argument count, a subscripted signature taking precedence.
pub open spec fn prim_style(i: PrimStyleInputs) -> SpanStyle {
    match i.modifier_args {
        Some(n) => if n == 1 {
            SpanStyle::MonadicMod
        } else {
            SpanStyle::DyadicMod
        },
        None => if i.stackish || i.identity {
            SpanStyle::StackFun
        } else {
            match (if i.sub_sig_args is Some {
                i.sub_sig_args
            } else {
                i.sig_args
            }) {
                Some(0) => SpanStyle::NoadicFun,
                Some(1) => SpanStyle::MonadicFun,
                Some(2) => SpanStyle::DyadicFun,
                Some(_) => SpanStyle::Plain,
                None => SpanStyle::Plain,
            }
        },
    }
}

fn prim_style_exec(i: &PrimStyleInputs) -> (r: SpanStyle)
    ensures
        r == prim_style(*i),
{
    match i.modifier_args {
        Some(n) => if n == 1 {
            SpanStyle::MonadicMod
        } else {
            SpanStyle::DyadicMod
        },
        None => {
            if i.stackish || i.identity {
                SpanStyle::StackFun
            } else {
                let args = if i.sub_sig_args.is_some() {
                    i.sub_sig_args
                } else {
                    i.sig_args
                };
                match args {
                    Some(0) => SpanStyle::NoadicFun,
                    Some(1) => SpanStyle::MonadicFun,
                    Some(2) => SpanStyle::DyadicFun,
                    Some(_) => SpanStyle::Plain,
                    None => SpanStyle::Plain,
                }
            }
        },
    }
}

/// The style of an identifier, decided by what its binding is.
pub open spec fn binding_style(b: Option<BindingKindInfo>) -> SpanStyle {
    match b {
        Some(BindingKindInfo::Constant) => SpanStyle::Constant,
        Some(BindingKindInfo::Function(a)) => if a == 0 {
            SpanStyle::NoadicFun
        } else if a == 1 {
            SpanStyle::MonadicFun
        } else if a == 2 {
            SpanStyle::DyadicFun
        } else {
            SpanStyle::Plain
        },
        Some(BindingKindInfo::Modifier(a)) => if a == 1 {
            SpanStyle::MonadicMod
        } else if a == 2 {
            SpanStyle::DyadicMod
        } else {
            SpanStyle::Plain
        },
        Some(BindingKindInfo::Module) => SpanStyle::Module,
        Some(BindingKindInfo::Error) => SpanStyle::Plain,
        None => SpanStyle::Plain,
    }
}

fn binding_style_exec(b: &Option<BindingKindInfo>) -> (r: SpanStyle)
    ensures
        r == binding_style(*b),
{
    match b {
        Some(BindingKindInfo::Constant) => SpanStyle::Constant,
        Some(BindingKindInfo::Function(a)) => match *a {
            0 => SpanStyle::NoadicFun,
            1 => SpanStyle::MonadicFun,
            2 => SpanStyle::DyadicFun,
            _ => SpanStyle::Plain,
        },
        Some(BindingKindInfo::Modifier(a)) => match *a {
            1 => SpanStyle::MonadicMod,
            2 => SpanStyle::DyadicMod,
            _ => SpanStyle::Plain,
        },
        Some(BindingKindInfo::Module) => SpanStyle::Module,
        Some(BindingKindInfo::Error) => SpanStyle::Plain,
        None => SpanStyle::Plain,
    }
}

/// The style of a span, decided by what was read out of its
/// classification: a primitive by its metadata, a subscript by the
/// primitive behind it, an identifier by its binding, the rest by kind.
pub open spec fn style_of_reading(rv: SpanReadingV) -> SpanStyle {
    match rv.prim {
        Some(i) => prim_style(i),
        None => match rv.subscript {
            Some(Some(i)) => prim_style(i),
            Some(None) => SpanStyle::Plain,
            None => match rv.simple {
                SimpleSpanKind::Str => SpanStyle::StringLit,
                SimpleSpanKind::Number => SpanStyle::Number,
                SimpleSpanKind::Comment => SpanStyle::Comment,
                SimpleSpanKind::OutputComment => SpanStyle::Comment,
                SimpleSpanKind::Strand => SpanStyle::Strand,
                SimpleSpanKind::Label => SpanStyle::Label,
                SimpleSpanKind::Obverse => SpanStyle::MonadicMod,
                SimpleSpanKind::Ident => match rv.binding {
                    Some(b) => binding_style(b),
                    None => SpanStyle::Plain,
                },
                _ => SpanStyle::Plain,
            },
        },
    }
}

/// The style of a span.
pub fn span_style(r: &SpanReading) -> (s: SpanStyle)
    ensures
        s == style_of_reading(r@),
{
    if let Some(i) = r.prim {
        prim_style_exec(&i)
    } else if let Some(sub) = r.subscript {
        match sub {
            Some(i) => prim_style_exec(&i),
            None => SpanStyle::Plain,
        }
    } else {
        match r.simple {
            SimpleSpanKind::Str => SpanStyle::StringLit,
            SimpleSpanKind::Number => SpanStyle::Number,
            SimpleSpanKind::Comment => SpanStyle::Comment,
            SimpleSpanKind::OutputComment => SpanStyle::Comment,
            SimpleSpanKind::Strand => SpanStyle::Strand,
            SimpleSpanKind::Label => SpanStyle::Label,
            SimpleSpanKind::Obverse => SpanStyle::MonadicMod,
            SimpleSpanKind::Ident => {
                match &r.binding {
                    Some(b) => binding_style_exec(b),
                    None => SpanStyle::Plain,
                }
            },
            _ => SpanStyle::Plain,
        }
    }
}

// ---------------------------------------------------------------------------
// Terminal colors
// ---------------------------------------------------------------------------

/// A terminal foreground color.
#[derive(Debug, Clone, Copy, PartialEq, Eq, Structural)]
pub enum AnsiColor {
    Gray,
    Red,
    Green,
    Yellow,
    Blue,
    Magenta,
    Cyan,
    White,
    DefaultColor,
    Reset,
}

/// The numeric code of a color in a terminal escape sequence.
pub open spec fn color_code(c: AnsiColor) -> u8 {
    match c {
        AnsiColor::Gray => 30,
        AnsiColor::Red => 31,
        AnsiColor::Green => 32,
        AnsiColor::Yellow => 33,
        AnsiColor::Blue => 34,
        AnsiColor::Magenta => 35,
        AnsiColor::Cyan => 36,
        AnsiColor::White => 37,
        AnsiColor::DefaultColor => 39,
        AnsiColor::Reset => 0,
    }
}

impl AnsiColor {
    /// The numeric code of this color in a terminal escape sequence.
    pub fn code(self) -> (r: u8)
        ensures
            r == color_code(self),
    {
        match self {
            AnsiColor::Gray => 30,
            AnsiColor::Red => 31,
            AnsiColor::Green => 32,
            AnsiColor::Yellow => 33,
            AnsiColor::Blue => 34,
            AnsiColor::Magenta => 35,
            AnsiColor::Cyan => 36,
            AnsiColor::White => 37,
            AnsiColor::DefaultColor => 39,
            AnsiColor::Reset => 0,
        }
    }
}

/// A color plus a weight.
#[derive(Debug, Clone, Copy, PartialEq, Eq, Structural)]
pub struct AnsiState {
    pub color: AnsiColor,
    pub bold: bool,
}

/// A text wrapped in the escape codes for the given color and weight; bold
/// text is followed by a reset, plain colored text is not.
pub open spec fn styled_text(st: AnsiState, text: Seq<char>) -> Seq<char> {
    if st.bold {
        seq!['\u{1B}', '['] + dec_str(color_code(st.color) as int) + seq![';', '1', 'm'] + text
            + seq!['\u{1B}', '[', '0', 'm']
    } else {
        seq!['\u{1B}', '['] + dec_str(color_code(st.color) as int) + seq!['m'] + text
    }
}

impl Default for AnsiState {
    /// White, not bold.
    fn default() -> (r: Self)
        ensures
            r.color == AnsiColor::White,
            !r.bold,
    {
        AnsiState { color: AnsiColor::White, bold: false }
    }
}

impl AnsiState {
    /// A state of the given color, not bold.
    pub fn from_color(color: AnsiColor) -> (r: Self)
        ensures
            r.color == color,
            !r.bold,
    {
        AnsiState { color, bold: false }
    }

    /// Wrap a text in this state's escape codes.
    pub fn style(&self, text: &str) -> (r: String)
        ensures
            r@ == styled_text(*self, text@),
    {
        let code = u64_to_string(self.color.code() as u64);
        let mut t = String::from_str("\u{1B}[");
        t.append(code.as_str());
        if self.bold {
            t.append(";1m");
            t.append(text);
            t.append("\u{1B}[0m");
        } else {
            t.append("m");
            t.append(text);
        }
        proof {
            reveal_strlit("\u{1B}[");
            reveal_strlit(";1m");
            reveal_strlit("m");
            reveal_strlit("\u{1B}[0m");
            assert(t@ =~= styled_text(*self, text@));
        }
        t
    }

    /// The same state, bold.
    pub fn bold(self) -> (r: Self)
        ensures
            r.color == self.color,
            r.bold,
    {
        let mut new = self;
        new.bold = true;
        new
    }
}

/// The color table: which state each span style is drawn in.
pub open spec fn style_state(s: SpanStyle) -> AnsiState {
    match s {
        SpanStyle::Comment => AnsiState { color: AnsiColor::Gray, bold: false },
        SpanStyle::StringLit => AnsiState { color: AnsiColor::Cyan, bold: false },
        SpanStyle::Number => AnsiState { color: AnsiColor::Red, bold: true },
        SpanStyle::Label => AnsiState { color: AnsiColor::White, bold: true },
        SpanStyle::Strand => AnsiState { color: AnsiColor::Gray, bold: false },
        SpanStyle::Module => AnsiState { color: AnsiColor::White, bold: true },
        SpanStyle::Constant => AnsiState { color: AnsiColor::White, bold: false },
        SpanStyle::NoadicFun => AnsiState { color: AnsiColor::Red, bold: false },
        SpanStyle::StackFun => AnsiState { color: AnsiColor::White, bold: false },
        SpanStyle::MonadicFun => AnsiState { color: AnsiColor::Green, bold: false },
        SpanStyle::DyadicFun => AnsiState { color: AnsiColor::Blue, bold: false },
        SpanStyle::MonadicMod => AnsiState { color: AnsiColor::Yellow, bold: false },
        SpanStyle::DyadicMod => AnsiState { color: AnsiColor::Magenta, bold: false },
        SpanStyle::Plain => AnsiState { color: AnsiColor::White, bold: false },
    }
}

/// The color table as an executable function.
pub fn style_state_exec(s: SpanStyle) -> (r: AnsiState)
    ensures
        r == style_state(s),
{
    match s {
        SpanStyle::Comment => AnsiState::from_color(AnsiColor::Gray),
        SpanStyle::StringLit => AnsiState::from_color(AnsiColor::Cyan),
        SpanStyle::Number => AnsiState::from_color(AnsiColor::Red).bold(),
        SpanStyle::Label => AnsiState::from_color(AnsiColor::White).bold(),
        SpanStyle::Strand => AnsiState::from_color(AnsiColor::Gray),
        SpanStyle::Module => AnsiState::from_color(AnsiColor::White).bold(),
        SpanStyle::Constant => AnsiState::from_color(AnsiColor::White),
        SpanStyle::NoadicFun => AnsiState::from_color(AnsiColor::Red),
        SpanStyle::StackFun => AnsiState::from_color(AnsiColor::White),
        SpanStyle::MonadicFun => AnsiState::from_color(AnsiColor::Green),
        SpanStyle::DyadicFun => AnsiState::from_color(AnsiColor::Blue),
        SpanStyle::MonadicMod => AnsiState::from_color(AnsiColor::Yellow),
        SpanStyle::DyadicMod => AnsiState::from_color(AnsiColor::Magenta),
        SpanStyle::Plain => AnsiState::from_color(AnsiColor::White),
    }
}

// ---------------------------------------------------------------------------
// Assembly
// ---------------------------------------------------------------------------

/// The start of the run of whitespace that ends right before position `i`.
pub open spec fn ws_run_start(s: Seq<char>, i: int) -> int
    decreases i,
{
    if 0 < i <= s.len() && is_ws_char(s[i - 1]) {
        ws_run_start(s, i - 1)
    } else {
        i
    }
}

/// What one span contributes to the highlighted text: nothing when its text
/// trims away, else the whitespace run before it and its trimmed text in its
/// style's escape codes.
pub open spec fn piece_text(code: Seq<char>, start: int, end: int, st: AnsiState) -> Seq<char> {
    let text = trim_end_spec(code.subrange(start, end));
    if text.len() == 0 {
        Seq::empty()
    } else {
        code.subrange(ws_run_start(code, start), start) + styled_text(st, text)
    }
}

/// The highlighted text of a sequence of spans, in order.
pub open spec fn assembled(code: Seq<char>, pieces: Seq<(int, int, AnsiState)>) -> Seq<char>
    decreases pieces.len(),
{
    if pieces.len() == 0 {
        Seq::empty()
    } else {
        piece_text(code, pieces[0].0, pieces[0].1, pieces[0].2) + assembled(
            code,
            pieces.drop_first(),
        )
    }
}

/// The views of a piece list.
pub open spec fn piece_views(ps: Seq<(usize, usize, AnsiState)>) -> Seq<(int, int, AnsiState)> {
    ps.map(|_k: int, p: (usize, usize, AnsiState)| (p.0 as int, p.1 as int, p.2))
}

fn ws_run_start_exec(v: &Vec<char>, i: usize) -> (r: usize)
    requires
        i <= v@.len(),
    ensures
        r <= i,
        r == ws_run_start(v@, i as int),
{
    let mut a = i;
    while a > 0 && is_ws_char_exec(v[a - 1])
        invariant
            a <= i <= v@.len(),
            ws_run_start(v@, i as int) == ws_run_start(v@, a as int),
        decreases a,
    {
        assert(ws_run_start(v@, a as int) == ws_run_start(v@, a - 1));
        a = a - 1;
    }
    a
}

fn trim_end_idx(v: &Vec<char>, start: usize, end: usize) -> (r: usize)
    requires
        start <= end <= v@.len(),
    ensures
        start <= r <= end,
        trim_end_spec(v@.subrange(start as int, end as int)) == v@.subrange(
            start as int,
            r as int,
        ),
{
    let ghost w = v@.subrange(start as int, end as int);
    let mut b = end;
    while b > start && is_ws_char_exec(v[b - 1])
        invariant
            start <= b <= end <= v@.len(),
            w == v@.subrange(start as int, end as int),
            forall|k: int| b <= k < end ==> is_ws_char(v@[k]),
        decreases b,
    {
        b = b - 1;
    }
    proof {
        assert forall|k: int| b - start <= k < w.len() implies is_ws_char(w[k]) by {
            assert(w[k] == v@[start + k]);
        }
        if b > start {
            assert(w[b - start - 1] == v@[b - 1]);
        }
        crate::text::lemma_trim_end_range(w, b - start);
        assert(w.subrange(0, b - start) =~= v@.subrange(start as int, b as int));
    }
    b
}

/// Assemble the highlighted text out of the formatted program and its
/// styled spans.
pub fn assemble_highlight(code: &Vec<char>, pieces: &Vec<(usize, usize, AnsiState)>) -> (r: String)
    requires
        forall|k: int|
            0 <= k < pieces@.len() ==> (#[trigger] pieces@[k]).0 <= pieces@[k].1 <= code@.len(),
    ensures
        r@ == assembled(code@, piece_views(pieces@)),
{
    let mut out = String::new();
    let mut i: usize = 0;
    let n = pieces.len();
    proof {
        assert(piece_views(pieces@).subrange(0, n as int) =~= piece_views(pieces@));
        assert(assembled(code@, piece_views(pieces@)) =~= out@ + assembled(
            code@,
            piece_views(pieces@).subrange(0, n as int),
        ));
    }
    while i < n
        invariant
            n == pieces@.len(),
            i <= n,
            forall|k: int|
                0 <= k < pieces@.len() ==> (#[trigger] pieces@[k]).0 <= pieces@[k].1
                    <= code@.len(),
            assembled(code@, piece_views(pieces@)) == out@ + assembled(
                code@,
                piece_views(pieces@).subrange(i as int, n as int),
            ),
        decreases n - i,
    {
        let ghost rest = piece_views(pieces@).subrange(i as int, n as int);
        proof {
            assert(rest[0] == piece_views(pieces@)[i as int]);
            assert(rest.drop_first() =~= piece_views(pieces@).subrange(i + 1, n as int));
        }
        let (start, end, st) = pieces[i];
        let ghost pre = out@;
        let b = trim_end_idx(code, start, end);
        if b > start {
            let ws_start = ws_run_start_exec(code, start);
            let ws = crate::links::sub_chars(code, ws_start, start);
            let text_chars = crate::links::sub_chars(code, start, b);
            let text = string_of(&text_chars);
            let styled = st.style(text.as_str());
            out.append(string_of(&ws).as_str());
            out.append(styled.as_str());
            proof {
                let t = trim_end_spec(code@.subrange(start as int, end as int));
                assert(t.len() > 0);
                assert(pre + (code@.subrange(ws_run_start(code@, start as int), start as int)
                    + styled_text(st, t)) =~= out@);
            }
        } else {
            proof {
                let t = trim_end_spec(code@.subrange(start as int, end as int));
                assert(t.len() == 0);
                assert(pre + piece_text(code@, start as int, end as int, st) =~= out@);
            }
        }
        proof {
            let (t0, rest1) = (piece_text(code@, rest[0].0, rest[0].1, rest[0].2), rest
                .drop_first());
            assert(pre + (t0 + assembled(code@, rest1)) =~= (pre + t0) + assembled(code@, rest1));
        }
        i = i + 1;
    }
    proof {
        assert(piece_views(pieces@).subrange(n as int, n as int) =~= Seq::<(
            int,
            int,
            AnsiState,
        )>::empty());
        assert(out@ + Seq::<char>::empty() =~= out@);
    }
    out
}

// ---------------------------------------------------------------------------
// The whole pipeline
// ---------------------------------------------------------------------------

/// The cumulative byte offsets of a text's characters: entry `k` is the
/// UTF-8 length of the first `k` characters.
pub(crate) fn byte_offsets(v: &Vec<char>) -> (offs: Vec<u128>)
    ensures
        offs@.len() == v@.len() + 1,
        forall|k: int|
            0 <= k <= v@.len() ==> offs@[k] == crate::text::byte_len(v@.subrange(0, k)),
{
    let n = v.len();
    let mut offs: Vec<u128> = Vec::new();
    let mut acc: u128 = 0;
    offs.push(0);
    proof {
        assert(v@.subrange(0, 0) =~= Seq::<char>::empty());
    }
    let mut i: usize = 0;
    while i < n
        invariant
            n == v@.len(),
            i <= n,
            offs@.len() == i + 1,
            acc == crate::text::byte_len(v@.subrange(0, i as int)),
            acc <= 4 * i,
            forall|k: int|
                0 <= k <= i ==> offs@[k] == crate::text::byte_len(v@.subrange(0, k)),
        decreases n - i,
    {
        let w: u8 = if (v[i] as u32) < 0x80 {
            1
        } else if (v[i] as u32) < 0x800 {
            2
        } else if (v[i] as u32) < 0x10000 {
            3
        } else {
            4
        };
        proof {
            let pre = v@.subrange(0, i as int);
            let post = v@.subrange(0, i + 1);
            assert(post =~= pre + seq![v@[i as int]]);
            crate::text::lemma_byte_len_append(pre, seq![v@[i as int]]);
            assert(crate::text::byte_len(seq![v@[i as int]]) == char_width(v@[i as int])) by {
                assert(seq![v@[i as int]].drop_first() =~= Seq::<char>::empty());
                assert(crate::text::byte_len(Seq::<char>::empty()) == 0);
            }
        }
        acc = acc + (w as u128);
        offs.push(acc);
        i = i + 1;
    }
    offs
}

pub proof fn lemma_byte_len_lower(s: Seq<char>)
    ensures
        crate::text::byte_len(s) >= s.len(),
    decreases s.len(),
{
    if s.len() > 0 {
        lemma_byte_len_lower(s.drop_first());
    }
}

/// Byte offsets grow strictly with the character count: no two characters
/// share a boundary.
pub proof fn lemma_byte_len_strict_mono(code: Seq<char>, a: int, b: int)
    requires
        0 <= a < b <= code.len(),
    ensures
        crate::text::byte_len(code.subrange(0, a)) < crate::text::byte_len(code.subrange(0, b)),
{
    assert(code.subrange(0, b) =~= code.subrange(0, a) + code.subrange(a, b));
    crate::text::lemma_byte_len_append(code.subrange(0, a), code.subrange(a, b));
    lemma_byte_len_lower(code.subrange(a, b));
}

/// The character index whose byte offset is `pos`: the unique prefix of the
/// text whose UTF-8 length is `pos`, when one exists.
pub open spec fn char_idx(code: Seq<char>, pos: int) -> Option<int> {
    if exists|k: int| 0 <= k <= code.len() && crate::text::byte_len(code.subrange(0, k)) == pos {
        Some(choose|k: int|
            0 <= k <= code.len() && crate::text::byte_len(code.subrange(0, k)) == pos)
    } else {
        None
    }
}

/// Find the character index whose byte offset is `pos`, if `pos` falls on a
/// character boundary.
pub(crate) fn char_index_of(Ghost(code): Ghost<Seq<char>>, offs: &Vec<u128>, pos: u128) -> (r:
    Option<usize>)
    requires
        offs@.len() == code.len() + 1,
        forall|k: int| 0 <= k <= code.len() ==> offs@[k] == crate::text::byte_len(
            code.subrange(0, k),
        ),
    ensures
        match r {
            Some(k) => char_idx(code, pos as int) == Some(k as int) && k <= code.len(),
            None => char_idx(code, pos as int) is None,
        },
{
    let n = offs.len();
    let mut k: usize = 0;
    while k < n
        invariant
            n == offs@.len() == code.len() + 1,
            k <= n,
            forall|j: int| 0 <= j <= code.len() ==> offs@[j] == crate::text::byte_len(
                code.subrange(0, j),
            ),
            forall|j: int| 0 <= j < k ==> offs@[j] != pos,
        decreases n - k,
    {
        if offs[k] == pos {
            proof {
                assert(crate::text::byte_len(code.subrange(0, k as int)) == pos);
                let w = choose|j: int|
                    0 <= j <= code.len() && crate::text::byte_len(code.subrange(0, j))
                        == pos as int;
                if w < k {
                    lemma_byte_len_strict_mono(code, w, k as int);
                }
                if w > k {
                    lemma_byte_len_strict_mono(code, k as int, w);
                }
            }
            return Some(k);
        }
        k = k + 1;
    }
    proof {
        if char_idx(code, pos as int) is Some {
            let w = choose|j: int|
                0 <= j <= code.len() && crate::text::byte_len(code.subrange(0, j)) == pos as int;
            assert(offs@[w] != pos);
        }
    }
    None
}

// ---------------------------------------------------------------------------
// The highlighted reply as a function of the lexer read-out
// ---------------------------------------------------------------------------

/// The styled piece one span yields: its character range and the state of
/// its style, when both byte positions fall on character boundaries in
/// order; nothing otherwise.
pub open spec fn piece_of(code: Seq<char>, entry: (int, int, SpanReadingV)) -> Option<
    (int, int, AnsiState),
> {
    match (char_idx(code, entry.0), char_idx(code, entry.1)) {
        (Some(a), Some(b)) => if a <= b && b <= code.len() {
            Some((a, b, style_state(style_of_reading(entry.2))))
        } else {
            None
        },
        _ => None,
    }
}

/// The styled pieces of a span list, in order, spans without a piece left
/// out.
pub open spec fn pieces_of(code: Seq<char>, spans: Seq<(int, int, SpanReadingV)>) -> Seq<
    (int, int, AnsiState),
>
    decreases spans.len(),
{
    if spans.len() == 0 {
        seq![]
    } else {
        (match piece_of(code, spans[0]) {
            Some(p) => seq![p],
            None => seq![],
        }) + pieces_of(code, spans.drop_first())
    }
}

/// The highlighted body of a formatted program: its spans styled and
/// assembled.
pub open spec fn ansi_body(f: Seq<char>) -> Seq<char> {
    assembled(f, pieces_of(f, lex_readout(f)))
}

/// The whole highlight reply: the error in a plain fence when formatting
/// fails, else a fixed marker when no span text survives, else the styled
/// body in an ansi fence.
pub open spec fn highlight_text(src: Seq<char>) -> Seq<char> {
    match uiua_format(src) {
        Err(e) => fenced(e),
        Ok(f) => if ansi_body(f).len() == 0 {
            "<Empty code>"@
        } else {
            "```ansi\n"@ + ansi_body(f) + "\n```"@
        },
    }
}

/// Highlight a program: format it, split it into spans, and wrap each span
/// in the escape codes of its classification, restoring the whitespace in
/// between.  A program the formatter rejects yields the error text in a
/// plain code fence; a program without visible spans yields a fixed marker.
/// For a program the formatter does not evaluate, the reply is pinned as a
/// function of the source; any reply is one of the three shapes.
pub fn highlight_code(code: &str) -> (r: String)
    ensures
        !formatter_evaluates(code@) ==> r@ == highlight_text(code@),
        r@ == "<Empty code>"@ || crate::links::lit_at(r@, 0, "```ansi\n"@) || crate::links::lit_at(
            r@,
            0,
            "```\n"@,
        ),
{
    match format_src(code) {
        Err(e) => {
            let mut t = String::from_str("```\n");
            t.append(e.as_str());
            t.append("\n```");
            proof {
                reveal_strlit("```\n");
                assert forall|k: int| 0 <= k < "```\n"@.len() implies t@[k] == "```\n"@[k] by {}
                assert(crate::links::lit_at(t@, 0, "```\n"@));
            }
            t
        },
        Ok(formatted) => {
            let spans = lex_spans(formatted.as_str());
            let chars = chars_of(formatted.as_str());
            let offs = byte_offsets(&chars);
            let n_spans = spans.len();
            let mut pieces: Vec<(usize, usize, AnsiState)> = Vec::new();
            let mut si: usize = 0;
            proof {
                assert(lex_views(spans@).subrange(0, 0) =~= Seq::<(int, int, SpanReadingV)>::empty());
            }
            while si < n_spans
                invariant
                    n_spans == spans@.len(),
                    offs@.len() == chars@.len() + 1,
                    forall|k: int| 0 <= k <= chars@.len() ==> offs@[k] == crate::text::byte_len(
                        chars@.subrange(0, k),
                    ),
                    forall|k: int|
                        0 <= k < pieces@.len() ==> (#[trigger] pieces@[k]).0 <= pieces@[k].1
                            <= chars@.len(),
                    si <= n_spans,
                    piece_views(pieces@) == pieces_of(
                        chars@,
                        lex_views(spans@).subrange(0, si as int),
                    ),
                decreases n_spans - si,
            {
                let ghost done = lex_views(spans@).subrange(0, si as int);
                let ghost pre = piece_views(pieces@);
                let sp = &spans[si];
                proof {
                    assert(lex_views(spans@)[si as int] == spans@[si as int]@);
                }
                let style = span_style(&sp.read);
                let st = style_state_exec(style);
                let cs = char_index_of(Ghost(chars@), &offs, sp.start as u128);
                let ce = char_index_of(Ghost(chars@), &offs, sp.end as u128);
                match (cs, ce) {
                    (Some(a), Some(b)) => {
                        if a <= b && b < offs.len() {
                            pieces.push((a, b, st));
                            proof {
                                assert(piece_views(pieces@) =~= pre + seq![
                                    (a as int, b as int, st),
                                ]);
                            }
                        }
                    },
                    _ => {},
                }
                proof {
                    let entry = spans@[si as int]@;
                    lemma_pieces_of_snoc(chars@, lex_views(spans@), si as int);
                    assert(lex_views(spans@).subrange(0, si + 1) =~= done.push(entry));
                    match piece_of(chars@, entry) {
                        Some(p) => {
                            assert(piece_views(pieces@) =~= pre + seq![p]);
                        },
                        None => {
                            assert(piece_views(pieces@) =~= pre);
                        },
                    }
                }
                si = si + 1;
            }
            proof {
                assert(lex_views(spans@).subrange(0, n_spans as int) =~= lex_views(spans@));
            }
            let out = assemble_highlight(&chars, &pieces);
            if out.as_str().is_empty() {
                String::from_str("<Empty code>")
            } else {
                let mut t = String::from_str("```ansi\n");
                t.append(out.as_str());
                t.append("\n```");
                proof {
                    reveal_strlit("```ansi\n");
                    assert forall|k: int| 0 <= k < "```ansi\n"@.len() implies t@[k]
                        == "```ansi\n"@[k] by {}
                    assert(crate::links::lit_at(t@, 0, "```ansi\n"@));
                }
                t
            }
        },
    }
}

/// Extending the span list by one span appends that span's piece, if it has
/// one.
proof fn lemma_pieces_of_snoc(code: Seq<char>, spans: Seq<(int, int, SpanReadingV)>, i: int)
    requires
        0 <= i < spans.len(),
    ensures
        pieces_of(code, spans.subrange(0, i + 1)) == pieces_of(code, spans.subrange(0, i))
            + (match piece_of(code, spans[i]) {
            Some(p) => seq![p],
            None => Seq::<(int, int, AnsiState)>::empty(),
        }),
    decreases i,
{
    let a = spans.subrange(0, i + 1);
    let b = spans.subrange(0, i);
    if i == 0 {
        assert(a.len() == 1);
        assert(a[0] == spans[0]);
        assert(a.drop_first() =~= Seq::<(int, int, SpanReadingV)>::empty());
        assert(b =~= Seq::<(int, int, SpanReadingV)>::empty());
        assert(pieces_of(code, a.drop_first()) =~= Seq::<(int, int, AnsiState)>::empty());
        assert(pieces_of(code, b) + (match piece_of(code, spans[0]) {
            Some(p) => seq![p],
            None => Seq::<(int, int, AnsiState)>::empty(),
        }) =~= pieces_of(code, a));
    } else {
        lemma_pieces_of_snoc(code, spans.drop_first(), i - 1);
        assert(a[0] == spans[0]);
        assert(b[0] == spans[0]);
        assert(a.drop_first() =~= spans.drop_first().subrange(0, i));
        assert(b.drop_first() =~= spans.drop_first().subrange(0, i - 1));
        assert(spans.drop_first()[i - 1] == spans[i]);
        let head = match piece_of(code, spans[0]) {
            Some(p) => seq![p],
            None => Seq::<(int, int, AnsiState)>::empty(),
        };
        let tailpiece = match piece_of(code, spans[i]) {
            Some(p) => seq![p],
            None => Seq::<(int, int, AnsiState)>::empty(),
        };
        assert(pieces_of(code, a) == head + pieces_of(code, a.drop_first()));
        assert(pieces_of(code, b) == head + pieces_of(code, b.drop_first()));
        assert(pieces_of(code, a.drop_first()) == pieces_of(code, b.drop_first()) + tailpiece);
        assert(head + (pieces_of(code, b.drop_first()) + tailpiece) =~= (head + pieces_of(
            code,
            b.drop_first(),
        )) + tailpiece);
    }
}

} // verus!

//! Best-effort transliteration of a program into chat emoji.
//!
//! The program is formatted and split into spans.  A primitive becomes the
//! custom emoji of its name when the chat server has one; numbers, subscripts
//! and identifiers are transliterated character by character; whitespace is
//! kept; anything else is echoed back in backticks.  Identifiers are
//! lowercased ASCII-only before matching: an identifier whose lower-case
//! form arises only through non-ASCII case mapping matches no emoji name.

use vstd::prelude::*;
use vstd::string::{StrSliceExecFns, StringExecFns};

use crate::commands::{lower_chars, lower_seq};
use crate::links::{lit_at, match_chars, sub_chars};
use crate::render::fenced;
use crate::text::{chars_of, string_of, trim_bounds, trim_spec};
use crate::highlight::{byte_offsets, char_idx, char_index_of};
use crate::uiua_api::{format_src, formatter_evaluates, lex_readout, lex_spans, lex_views,
    uiua_format, SimpleSpanKind, SpanReading, SpanReadingV};

verus! {

/// A custom emoji the chat server offers: its name and the markup that
/// renders it.
pub struct EmojiEntry {
    pub name: String,
    pub markup: String,
}

impl View for EmojiEntry {
    type V = (Seq<char>, Seq<char>);

    open spec fn view(&self) -> (Seq<char>, Seq<char>) {
        (self.name@, self.markup@)
    }
}

/// The views of an emoji list.
pub open spec fn emoji_views(s: Seq<EmojiEntry>) -> Seq<(Seq<char>, Seq<char>)> {
    s.map(|_k: int, e: EmojiEntry| e@)
}

// ---------------------------------------------------------------------------
// Removing and replacing little patterns
// ---------------------------------------------------------------------------

/// `s` with every occurrence of `pat` removed, scanning once from `i`.
pub open spec fn remove_all_from(s: Seq<char>, pat: Seq<char>, i: int) -> Seq<char>
    decreases s.len() - i,
{
    if i < 0 || i >= s.len() {
        Seq::empty()
    } else if pat.len() > 0 && lit_at(s, i, pat) {
        remove_all_from(s, pat, i + pat.len() as int)
    } else {
        seq![s[i]] + remove_all_from(s, pat, i + 1)
    }
}

/// `s` with every occurrence of `pat` removed.
pub open spec fn remove_all(s: Seq<char>, pat: Seq<char>) -> Seq<char> {
    remove_all_from(s, pat, 0)
}

pub(crate) fn remove_all_chars(v: &Vec<char>, pat: &Vec<char>) -> (out: Vec<char>)
    requires
        pat@.len() > 0,
    ensures
        out@ == remove_all(v@, pat@),
{
    let mut out: Vec<char> = Vec::new();
    let mut i: usize = 0;
    let n = v.len();
    assert(remove_all(v@, pat@) =~= out@ + remove_all_from(v@, pat@, 0));
    while i < n
        invariant
            n == v@.len(),
            pat@.len() > 0,
            i <= n,
            remove_all(v@, pat@) == out@ + remove_all_from(v@, pat@, i as int),
        decreases n - i,
    {
        if match_chars(v, i, pat) {
            i = i + pat.len();
        } else {
            let ghost pre = out@;
            out.push(v[i]);
            proof {
                assert(pre + (seq![v@[i as int]] + remove_all_from(v@, pat@, i + 1)) =~= out@
                    + remove_all_from(v@, pat@, i + 1));
            }
            i = i + 1;
        }
    }
    proof {
        assert(remove_all(v@, pat@) =~= out@);
    }
    out
}

/// A double backtick broken apart so that echoed pieces cannot merge into a
/// code fence: every `` `` `` becomes `` ` ` ``.
pub open spec fn split_ticks_from(s: Seq<char>, i: int) -> Seq<char>
    decreases s.len() - i,
{
    if i < 0 || i >= s.len() {
        Seq::empty()
    } else if lit_at(s, i, seq!['`', '`']) {
        seq!['`', ' ', '`'] + split_ticks_from(s, i + 2)
    } else {
        seq![s[i]] + split_ticks_from(s, i + 1)
    }
}

pub open spec fn split_ticks(s: Seq<char>) -> Seq<char> {
    split_ticks_from(s, 0)
}

fn split_ticks_chars(v: &Vec<char>) -> (out: Vec<char>)
    ensures
        out@ == split_ticks(v@),
{
    let pat = vec!['`', '`'];
    proof {
        assert(pat@ =~= seq!['`', '`']);
    }
    let mut out: Vec<char> = Vec::new();
    let mut i: usize = 0;
    let n = v.len();
    assert(split_ticks(v@) =~= out@ + split_ticks_from(v@, 0));
    while i < n
        invariant
            n == v@.len(),
            pat@ == seq!['`', '`'],
            i <= n,
            split_ticks(v@) == out@ + split_ticks_from(v@, i as int),
        decreases n - i,
    {
        let ghost pre = out@;
        if match_chars(v, i, &pat) {
            out.push('`');
            out.push(' ');
            out.push('`');
            proof {
                assert(pre + (seq!['`', ' ', '`'] + split_ticks_from(v@, i + 2)) =~= out@
                    + split_ticks_from(v@, i + 2));
            }
            i = i + 2;
        } else {
            out.push(v[i]);
            proof {
                assert(pre + (seq![v@[i as int]] + split_ticks_from(v@, i + 1)) =~= out@
                    + split_ticks_from(v@, i + 1));
            }
            i = i + 1;
        }
    }
    proof {
        assert(split_ticks(v@) =~= out@);
    }
    out
}

// ---------------------------------------------------------------------------
// Looking an emoji up
// ---------------------------------------------------------------------------

/// The markup of the first emoji whose name matches the wanted one, where a
/// `~1` in the server name and spaces in the wanted name are ignored.
pub open spec fn find_emoji_spec(entries: Seq<(Seq<char>, Seq<char>)>, name: Seq<char>) -> Option<
    Seq<char>,
>
    decreases entries.len(),
{
    if entries.len() == 0 {
        None
    } else if remove_all(entries[0].0, seq!['~', '1']) == remove_all(name, seq![' ']) {
        Some(entries[0].1)
    } else {
        find_emoji_spec(entries.drop_first(), name)
    }
}

/// Find the markup of the emoji with the given name.
pub fn find_emoji(emojis: &Vec<EmojiEntry>, name: &str) -> (r: Option<String>)
    ensures
        match r {
            Some(t) => find_emoji_spec(emoji_views(emojis@), name@) == Some(t@),
            None => find_emoji_spec(emoji_views(emojis@), name@) is None,
        },
{
    let chars = chars_of(name);
    find_emoji_chars(emojis, &chars)
}

/// Find the markup of the emoji with the given name.
fn find_emoji_chars(emojis: &Vec<EmojiEntry>, name: &Vec<char>) -> (r: Option<String>)
    ensures
        match r {
            Some(t) => find_emoji_spec(emoji_views(emojis@), name@) == Some(t@),
            None => find_emoji_spec(emoji_views(emojis@), name@) is None,
        },
{
    let tilde = vec!['~', '1'];
    let space = vec![' '];
    proof {
        assert(tilde@ =~= seq!['~', '1']);
        assert(space@ =~= seq![' ']);
    }
    let wanted = remove_all_chars(name, &space);
    let n = emojis.len();
    let mut k: usize = 0;
    proof {
        assert(emoji_views(emojis@).subrange(0, n as int) =~= emoji_views(emojis@));
    }
    while k < n
        invariant
            n == emojis@.len(),
            k <= n,
            tilde@ == seq!['~', '1'],
            wanted@ == remove_all(name@, seq![' ']),
            find_emoji_spec(emoji_views(emojis@), name@) == find_emoji_spec(
                emoji_views(emojis@).subrange(k as int, n as int),
                name@,
            ),
        decreases n - k,
    {
        let ghost rest = emoji_views(emojis@).subrange(k as int, n as int);
        proof {
            assert(rest[0] == emoji_views(emojis@)[k as int]);
            assert(rest.drop_first() =~= emoji_views(emojis@).subrange(k + 1, n as int));
        }
        let entry_name = chars_of(emojis[k].name.as_str());
        let cleaned = remove_all_chars(&entry_name, &tilde);
        if crate::commands::eq_chars(&cleaned, &wanted) {
            return Some(emojis[k].markup.clone());
        }
        k = k + 1;
    }
    proof {
        assert(emoji_views(emojis@).subrange(n as int, n as int) =~= Seq::<(
            Seq<char>,
            Seq<char>,
        )>::empty());
    }
    None
}

// ---------------------------------------------------------------------------
// Character tables
// ---------------------------------------------------------------------------

/// Which transliteration table a span's characters go through.
#[derive(Clone, Copy, PartialEq, Eq, Structural)]
pub enum CharTable {
    SubscriptChars,
    NumberChars,
    IdentChars,
}

/// The name `sub{d}` of a subscript-digit emoji.
pub open spec fn sub_digit_name(d: int) -> Seq<char> {
    "sub"@ + seq![crate::text::digit_char(d)]
}

/// The word emoji of a decimal digit.
pub open spec fn digit_word(c: char) -> Seq<char> {
    if c == '0' {
        ":zero:"@
    } else if c == '1' {
        ":one:"@
    } else if c == '2' {
        ":two:"@
    } else if c == '3' {
        ":three:"@
    } else if c == '4' {
        ":four:"@
    } else if c == '5' {
        ":five:"@
    } else if c == '6' {
        ":six:"@
    } else if c == '7' {
        ":seven:"@
    } else if c == '8' {
        ":eight:"@
    } else {
        ":nine:"@
    }
}

/// Whether `c` is a subscript digit, and its value.
pub open spec fn subscript_digit(c: char) -> Option<int> {
    if 0x2080 <= c as u32 && c as u32 <= 0x2089 {
        Some(c as u32 - 0x2080)
    } else {
        None
    }
}

/// What one character becomes under the given table.
pub open spec fn char_emoji(
    table: CharTable,
    c: char,
    em: Seq<(Seq<char>, Seq<char>)>,
) -> Option<Seq<char>> {
    match table {
        CharTable::SubscriptChars => {
            match subscript_digit(c) {
                Some(d) => find_emoji_spec(em, sub_digit_name(d)),
                None => if c == '\u{208B}' {
                    find_emoji_spec(em, "subneg"@)
                } else if c == '\u{231E}' {
                    find_emoji_spec(em, "subleft"@)
                } else if c == '\u{231F}' {
                    find_emoji_spec(em, "subright"@)
                } else {
                    None
                },
            }
        },
        CharTable::NumberChars => {
            if c == '\u{00AF}' {
                find_emoji_spec(em, "negate"@)
            } else if '0' <= c && c <= '9' {
                Some(digit_word(c))
            } else if c == '\u{03B7}' {
                find_emoji_spec(em, "eta"@)
            } else if c == '\u{03C0}' {
                find_emoji_spec(em, "pi"@)
            } else if c == '\u{03C4}' {
                find_emoji_spec(em, "tau"@)
            } else if c == '\u{221E}' {
                find_emoji_spec(em, "infinity"@)
            } else if c == '.' {
                find_emoji_spec(em, "duplicate"@)
            } else if c == '/' {
                find_emoji_spec(em, "reduce"@)
            } else {
                None
            }
        },
        CharTable::IdentChars => {
            if ('a' <= c && c <= 'z') || ('A' <= c && c <= 'Z') {
                Some(":regional_indicator_"@ + seq![c] + ":"@)
            } else if c == '!' {
                Some(":exclamation:"@)
            } else if c == '\u{203C}' {
                Some(":exclamation::exclamation:"@)
            } else {
                match subscript_digit(c) {
                    Some(d) => find_emoji_spec(em, sub_digit_name(d)),
                    None => None,
                }
            }
        },
    }
}

/// A whole span transliterated character by character: nothing unless every
/// character has a transliteration.
pub open spec fn collect_emoji(
    table: CharTable,
    s: Seq<char>,
    em: Seq<(Seq<char>, Seq<char>)>,
    i: int,
) -> Option<Seq<char>>
    decreases s.len() - i,
{
    if i < 0 || i >= s.len() {
        Some(Seq::empty())
    } else {
        match char_emoji(table, s[i], em) {
            Some(t) => match collect_emoji(table, s, em, i + 1) {
                Some(rest) => Some(t + rest),
                None => None,
            },
            None => None,
        }
    }
}

fn sub_digit_chars(d: u32) -> (r: Vec<char>)
    requires
        d < 10,
    ensures
        r@ == sub_digit_name(d as int),
{
    let v = vec!['s', 'u', 'b', crate::text::digit_char_of(d as u64)];
    proof {
        reveal_strlit("sub");
        assert(v@ =~= sub_digit_name(d as int));
    }
    v
}

fn char_emoji_exec(table: CharTable, c: char, emojis: &Vec<EmojiEntry>) -> (r: Option<String>)
    ensures
        match r {
            Some(t) => char_emoji(table, c, emoji_views(emojis@)) == Some(t@),
            None => char_emoji(table, c, emoji_views(emojis@)) is None,
        },
{
    let u = c as u32;
    match table {
        CharTable::SubscriptChars => {
            if u == 0x208B {
                find_emoji_chars(emojis, &chars_of("subneg"))
            } else if 0x2080 <= u && u <= 0x2089 {
                find_emoji_chars(emojis, &sub_digit_chars(u - 0x2080))
            } else if u == 0x231E {
                find_emoji_chars(emojis, &chars_of("subleft"))
            } else if u == 0x231F {
                find_emoji_chars(emojis, &chars_of("subright"))
            } else {
                None
            }
        },
        CharTable::NumberChars => {
            if u == 0xAF {
                find_emoji_chars(emojis, &chars_of("negate"))
            } else if c >= '0' && c <= '9' {
                let w: &str = match c {
                    '0' => ":zero:",
                    '1' => ":one:",
                    '2' => ":two:",
                    '3' => ":three:",
                    '4' => ":four:",
                    '5' => ":five:",
                    '6' => ":six:",
                    '7' => ":seven:",
                    '8' => ":eight:",
                    _ => ":nine:",
                };
                Some(String::from_str(w))
            } else if u == 0x3B7 {
                find_emoji_chars(emojis, &chars_of("eta"))
            } else if u == 0x3C0 {
                find_emoji_chars(emojis, &chars_of("pi"))
            } else if u == 0x3C4 {
                find_emoji_chars(emojis, &chars_of("tau"))
            } else if u == 0x221E {
                find_emoji_chars(emojis, &chars_of("infinity"))
            } else if c == '.' {
                find_emoji_chars(emojis, &chars_of("duplicate"))
            } else if c == '/' {
                find_emoji_chars(emojis, &chars_of("reduce"))
            } else {
                None
            }
        },
        CharTable::IdentChars => {
            if (c >= 'a' && c <= 'z') || (c >= 'A' && c <= 'Z') {
                let mut t = String::from_str(":regional_indicator_");
                crate::text::push_char(&mut t, c);
                t.append(":");
                proof {
                    assert(t@ =~= ":regional_indicator_"@ + seq![c] + ":"@);
                }
                Some(t)
            } else if c == '!' {
                Some(String::from_str(":exclamation:"))
            } else if u == 0x203C {
                Some(String::from_str(":exclamation::exclamation:"))
            } else if 0x2080 <= u && u <= 0x2089 {
                find_emoji_chars(emojis, &sub_digit_chars(u - 0x2080))
            } else {
                None
            }
        },
    }
}

fn collect_emoji_exec(table: CharTable, text: &Vec<char>, emojis: &Vec<EmojiEntry>) -> (r: Option<
    String,
>)
    ensures
        match r {
            Some(t) => collect_emoji(table, text@, emoji_views(emojis@), 0) == Some(t@),
            None => collect_emoji(table, text@, emoji_views(emojis@), 0) is None,
        },
{
    let ghost em = emoji_views(emojis@);
    let mut acc = String::new();
    let n = text.len();
    let mut i: usize = 0;
    while i < n
        invariant
            n == text@.len(),
            em == emoji_views(emojis@),
            i <= n,
            collect_emoji(table, text@, em, 0) == match collect_emoji(table, text@, em, i as int) {
                Some(rest) => Some(acc@ + rest),
                None => None::<Seq<char>>,
            },
        decreases n - i,
    {
        match char_emoji_exec(table, text[i], emojis) {
            Some(t) => {
                let ghost pre = acc@;
                acc.append(t.as_str());
                proof {
                    match collect_emoji(table, text@, em, i + 1) {
                        Some(rest) => {
                            assert(pre + (t@ + rest) =~= acc@ + rest);
                        },
                        None => {},
                    }
                }
            },
            None => {
                return None;
            },
        }
        i = i + 1;
    }
    proof {
        assert(acc@ + Seq::<char>::empty() =~= acc@);
    }
    Some(acc)
}

// ---------------------------------------------------------------------------
// Transliterating one span
// ---------------------------------------------------------------------------

/// The transliteration-relevant classification of a span.
pub enum EmojiCase {
    /// A primitive, with its formatting name.
    Primitive(String),
    /// The obverse modifier.
    Obverse,
    /// A subscript that carries a numeric part.
    SubscriptNum,
    /// A number literal.
    Number,
    /// An identifier.
    Ident,
    /// A binding delimiter.
    Delimiter,
    /// Whitespace between tokens.
    Whitespace,
    /// Anything else.
    Other,
}

/// The value of a span's transliteration case.
pub enum EmojiCaseV {
    Primitive(Seq<char>),
    Obverse,
    SubscriptNum,
    Number,
    Ident,
    Delimiter,
    Whitespace,
    Other,
}

impl View for EmojiCase {
    type V = EmojiCaseV;

    open spec fn view(&self) -> EmojiCaseV {
        match self {
            EmojiCase::Primitive(n) => EmojiCaseV::Primitive(n@),
            EmojiCase::Obverse => EmojiCaseV::Obverse,
            EmojiCase::SubscriptNum => EmojiCaseV::SubscriptNum,
            EmojiCase::Number => EmojiCaseV::Number,
            EmojiCase::Ident => EmojiCaseV::Ident,
            EmojiCase::Delimiter => EmojiCaseV::Delimiter,
            EmojiCase::Whitespace => EmojiCaseV::Whitespace,
            EmojiCase::Other => EmojiCaseV::Other,
        }
    }
}

/// What an identifier becomes: a same-named emoji, one of the special
/// names, or its characters one by one.
pub open spec fn ident_emoji(lower: Seq<char>, em: Seq<(Seq<char>, Seq<char>)>) -> Option<
    Seq<char>,
> {
    if find_emoji_spec(em, lower) is Some {
        find_emoji_spec(em, lower)
    } else if lower == "gay"@ || lower == "pride"@ || lower == "ally"@ || lower == "rainbow"@ {
        Some(":rainbow_flag:"@)
    } else if lower.len() > 1 && lit_at("transgender"@, 0, lower) {
        Some(":transgender_flag:"@)
    } else if lower == "logo"@ {
        find_emoji_spec(em, "uiua"@)
    } else if lower == "cats"@ {
        match (find_emoji_spec(em, "murphy"@), find_emoji_spec(em, "louie"@)) {
            (Some(m), Some(l)) => Some(m + l),
            _ => None,
        }
    } else {
        collect_emoji(CharTable::IdentChars, lower, em, 0)
    }
}

/// What one span contributes before the fallback: the table entry of its
/// classification, or nothing when no transliteration exists.
pub open spec fn span_emoji(
    case: EmojiCaseV,
    text: Seq<char>,
    em: Seq<(Seq<char>, Seq<char>)>,
) -> Option<Seq<char>> {
    match case {
        EmojiCaseV::Primitive(n) => find_emoji_spec(em, n),
        EmojiCaseV::Obverse => find_emoji_spec(em, "obverse"@),
        EmojiCaseV::SubscriptNum => collect_emoji(CharTable::SubscriptChars, text, em, 0),
        EmojiCaseV::Number => collect_emoji(CharTable::NumberChars, text, em, 0),
        EmojiCaseV::Ident => ident_emoji(lower_seq(text), em),
        EmojiCaseV::Delimiter => find_emoji_spec(em, "binding"@),
        EmojiCaseV::Whitespace => Some(text),
        EmojiCaseV::Other => None,
    }
}

/// What one span contributes: its transliteration, or its trimmed text in
/// backticks.
pub open spec fn span_emoji_text(
    case: EmojiCaseV,
    text: Seq<char>,
    em: Seq<(Seq<char>, Seq<char>)>,
) -> Seq<char> {
    match span_emoji(case, text, em) {
        Some(t) => t,
        None => seq!['`'] + trim_spec(text) + seq!['`'],
    }
}

fn str_eq_lit(v: &Vec<char>, lit: &str) -> (r: bool)
    ensures
        r == (v@ == lit@),
{
    let l = chars_of(lit);
    crate::commands::eq_chars(v, &l)
}

fn ident_emoji_exec(lower: &Vec<char>, emojis: &Vec<EmojiEntry>) -> (r: Option<String>)
    ensures
        match r {
            Some(t) => ident_emoji(lower@, emoji_views(emojis@)) == Some(t@),
            None => ident_emoji(lower@, emoji_views(emojis@)) is None,
        },
{
    let direct = find_emoji_chars(emojis, lower);
    if direct.is_some() {
        return direct;
    }
    if str_eq_lit(lower, "gay") || str_eq_lit(lower, "pride") || str_eq_lit(lower, "ally")
        || str_eq_lit(lower, "rainbow") {
        return Some(String::from_str(":rainbow_flag:"));
    }
    let trans = chars_of("transgender");
    if lower.len() > 1 && match_chars(&trans, 0, lower) {
        return Some(String::from_str(":transgender_flag:"));
    }
    proof {
        if lower@.len() > 1 && lit_at("transgender"@, 0, lower@) {
            assert(trans@ == "transgender"@);
        }
    }
    if str_eq_lit(lower, "logo") {
        return find_emoji_chars(emojis, &chars_of("uiua"));
    }
    if str_eq_lit(lower, "cats") {
        let murphy = find_emoji_chars(emojis, &chars_of("murphy"));
        let louie = find_emoji_chars(emojis, &chars_of("louie"));
        match (murphy, louie) {
            (Some(m), Some(l)) => {
                let mut t = m;
                t.append(l.as_str());
                return Some(t);
            },
            _ => {
                return None;
            },
        }
    }
    collect_emoji_exec(CharTable::IdentChars, lower, emojis)
}

/// Transliterate one span.
pub fn span_emoji_piece(case: &EmojiCase, text: &Vec<char>, emojis: &Vec<EmojiEntry>) -> (r:
    String)
    ensures
        r@ == span_emoji_text(case@, text@, emoji_views(emojis@)),
{
    let found: Option<String> = match case {
        EmojiCase::Primitive(n) => find_emoji_chars(emojis, &chars_of(n.as_str())),
        EmojiCase::Obverse => find_emoji_chars(emojis, &chars_of("obverse")),
        EmojiCase::SubscriptNum => collect_emoji_exec(CharTable::SubscriptChars, text, emojis),
        EmojiCase::Number => collect_emoji_exec(CharTable::NumberChars, text, emojis),
        EmojiCase::Ident => {
            let lower = lower_chars(text);
            ident_emoji_exec(&lower, emojis)
        },
        EmojiCase::Delimiter => find_emoji_chars(emojis, &chars_of("binding")),
        EmojiCase::Whitespace => Some(string_of(text)),
        EmojiCase::Other => None,
    };
    match found {
        Some(t) => t,
        None => {
            let (a, b) = trim_bounds(text);
            let trimmed = sub_chars(text, a, b);
            let mut t = String::from_str("`");
            t.append(string_of(&trimmed).as_str());
            t.append("`");
            proof {
                reveal_strlit("`");
                assert(t@ =~= seq!['`'] + trim_spec(text@) + seq!['`']);
            }
            t
        },
    }
}

// ---------------------------------------------------------------------------
// The whole pipeline
// ---------------------------------------------------------------------------

/// The transliteration case of a span, decided by what was read out of its
/// classification.
pub open spec fn case_of_reading(rv: SpanReadingV) -> EmojiCaseV {
    match rv.prim_name {
        Some(n) => EmojiCaseV::Primitive(n),
        None => if rv.subscript is Some {
            EmojiCaseV::SubscriptNum
        } else {
            match rv.simple {
                SimpleSpanKind::Obverse => EmojiCaseV::Obverse,
                SimpleSpanKind::Number => EmojiCaseV::Number,
                SimpleSpanKind::Ident => EmojiCaseV::Ident,
                SimpleSpanKind::Delimiter => EmojiCaseV::Delimiter,
                SimpleSpanKind::Whitespace => EmojiCaseV::Whitespace,
                _ => EmojiCaseV::Other,
            }
        },
    }
}

fn emoji_case_of(r: &SpanReading) -> (c: EmojiCase)
    ensures
        c@ == case_of_reading(r@),
{
    if let Some(name) = &r.prim_name {
        EmojiCase::Primitive(name.clone())
    } else if r.subscript.is_some() {
        EmojiCase::SubscriptNum
    } else {
        match r.simple {
            SimpleSpanKind::Obverse => EmojiCase::Obverse,
            SimpleSpanKind::Number => EmojiCase::Number,
            SimpleSpanKind::Ident => EmojiCase::Ident,
            SimpleSpanKind::Delimiter => EmojiCase::Delimiter,
            SimpleSpanKind::Whitespace => EmojiCase::Whitespace,
            _ => EmojiCase::Other,
        }
    }
}

/// What one span contributes to the transliteration: a line break when the
/// span begins a new source line, then its transliterated text; nothing
/// when its byte range falls on no character boundaries in order.
pub open spec fn emoji_piece_text(
    code: Seq<char>,
    entry: (int, int, SpanReadingV),
    em: Seq<(Seq<char>, Seq<char>)>,
) -> Seq<char> {
    match (char_idx(code, entry.0), char_idx(code, entry.1)) {
        (Some(a), Some(b)) => if a <= b && b <= code.len() {
            (if a > 0 && code[a - 1] == '\n' {
                seq!['\n']
            } else {
                Seq::<char>::empty()
            }) + span_emoji_text(case_of_reading(entry.2), code.subrange(a, b), em)
        } else {
            Seq::empty()
        },
        _ => Seq::empty(),
    }
}

/// The transliterations of a span list, concatenated in order.
pub open spec fn emoji_body(
    code: Seq<char>,
    spans: Seq<(int, int, SpanReadingV)>,
    em: Seq<(Seq<char>, Seq<char>)>,
) -> Seq<char>
    decreases spans.len(),
{
    if spans.len() == 0 {
        Seq::empty()
    } else {
        emoji_piece_text(code, spans[0], em) + emoji_body(code, spans.drop_first(), em)
    }
}

/// The whole transliteration reply: the error in a code fence when
/// formatting fails, else the concatenated span transliterations with
/// double backticks broken apart, or a fixed marker when nothing is left.
pub open spec fn emojify_text(src: Seq<char>, em: Seq<(Seq<char>, Seq<char>)>) -> Seq<char> {
    match uiua_format(src) {
        Err(e) => fenced(e),
        Ok(f) => {
            let body = split_ticks(emoji_body(f, lex_readout(f), em));
            if body.len() == 0 {
                "`<Empty code>`"@
            } else {
                body
            }
        },
    }
}

/// Extending the span list by one span appends that span's transliteration.
proof fn lemma_emoji_body_snoc(
    code: Seq<char>,
    spans: Seq<(int, int, SpanReadingV)>,
    em: Seq<(Seq<char>, Seq<char>)>,
    i: int,
)
    requires
        0 <= i < spans.len(),
    ensures
        emoji_body(code, spans.subrange(0, i + 1), em) == emoji_body(code, spans.subrange(0, i), em)
            + emoji_piece_text(code, spans[i], em),
    decreases i,
{
    let a = spans.subrange(0, i + 1);
    let b = spans.subrange(0, i);
    if i == 0 {
        assert(a[0] == spans[0]);
        assert(a.drop_first() =~= Seq::<(int, int, SpanReadingV)>::empty());
        assert(b =~= Seq::<(int, int, SpanReadingV)>::empty());
        assert(emoji_body(code, b, em) + emoji_piece_text(code, spans[0], em) =~= emoji_body(
            code,
            a,
            em,
        ));
    } else {
        lemma_emoji_body_snoc(code, spans.drop_first(), em, i - 1);
        assert(a[0] == spans[0]);
        assert(b[0] == spans[0]);
        assert(a.drop_first() =~= spans.drop_first().subrange(0, i));
        assert(b.drop_first() =~= spans.drop_first().subrange(0, i - 1));
        assert(spans.drop_first()[i - 1] == spans[i]);
        let head = emoji_piece_text(code, spans[0], em);
        assert(head + (emoji_body(code, b.drop_first(), em) + emoji_piece_text(
            code,
            spans[i],
            em,
        )) =~= (head + emoji_body(code, b.drop_first(), em)) + emoji_piece_text(
            code,
            spans[i],
            em,
        ));
    }
}

/// Transliterate a program into emoji, as far as the server's emoji and the
/// fixed tables reach.  A program the formatter rejects yields the error
/// text in a code fence; one without visible spans yields a fixed marker.
/// For a program the formatter does not evaluate, the reply is pinned as a
/// function of the source and the emoji list; no reply is empty.
pub fn emojificate(code: &str, emojis: &Vec<EmojiEntry>) -> (r: String)
    ensures
        !formatter_evaluates(code@) ==> r@ == emojify_text(code@, emoji_views(emojis@)),
        r@.len() != 0,
{
    let ghost em = emoji_views(emojis@);
    match format_src(code) {
        Err(e) => {
            let mut t = String::from_str("```\n");
            t.append(e.as_str());
            t.append("\n```");
            proof {
                reveal_strlit("```\n");
            }
            t
        },
        Ok(formatted) => {
            let spans = lex_spans(formatted.as_str());
            let chars = chars_of(formatted.as_str());
            let offs = byte_offsets(&chars);
            let n_spans = spans.len();
            let mut out: Vec<char> = Vec::new();
            let mut si: usize = 0;
            proof {
                assert(lex_views(spans@).subrange(0, 0) =~= Seq::<(
                    int,
                    int,
                    SpanReadingV,
                )>::empty());
            }
            while si < n_spans
                invariant
                    n_spans == spans@.len(),
                    em == emoji_views(emojis@),
                    offs@.len() == chars@.len() + 1,
                    forall|k: int| 0 <= k <= chars@.len() ==> offs@[k] == crate::text::byte_len(
                        chars@.subrange(0, k),
                    ),
                    si <= n_spans,
                    out@ == emoji_body(chars@, lex_views(spans@).subrange(0, si as int), em),
                decreases n_spans - si,
            {
                let ghost pre = out@;
                let sp = &spans[si];
                proof {
                    assert(lex_views(spans@)[si as int] == spans@[si as int]@);
                }
                let case = emoji_case_of(&sp.read);
                let cs = char_index_of(Ghost(chars@), &offs, sp.start as u128);
                let ce = char_index_of(Ghost(chars@), &offs, sp.end as u128);
                if let (Some(a), Some(b)) = (cs, ce) {
                    if a <= b && b < offs.len() {
                        let text = sub_chars(&chars, a, b);
                        let piece = span_emoji_piece(&case, &text, emojis);
                        let ghost nl_prefix = if a > 0 && chars@[a - 1] == '\n' {
                            seq!['\n']
                        } else {
                            Seq::<char>::empty()
                        };
                        if a > 0 && chars[a - 1] == '\n' {
                            out.push('\n');
                        }
                        proof {
                            assert(out@ =~= pre + nl_prefix);
                        }
                        let piece_chars = chars_of(piece.as_str());
                        let np = piece_chars.len();
                        let mut pi: usize = 0;
                        while pi < np
                            invariant
                                np == piece_chars@.len(),
                                pi <= np,
                                out@ == pre + nl_prefix + piece_chars@.subrange(0, pi as int),
                            decreases np - pi,
                        {
                            out.push(piece_chars[pi]);
                            pi = pi + 1;
                            assert(out@ =~= pre + nl_prefix + piece_chars@.subrange(0, pi as int));
                        }
                        proof {
                            assert(piece_chars@.subrange(0, np as int) =~= piece@);
                            assert(pre + nl_prefix + piece@ =~= pre + (nl_prefix + piece@));
                        }
                    }
                }
                proof {
                    let entry = spans@[si as int]@;
                    lemma_emoji_body_snoc(chars@, lex_views(spans@), em, si as int);
                    assert(lex_views(spans@).subrange(0, si + 1) =~= lex_views(spans@).subrange(
                        0,
                        si as int,
                    ).push(entry));
                    assert(out@ == pre + emoji_piece_text(chars@, entry, em));
                }
                si = si + 1;
            }
            proof {
                assert(lex_views(spans@).subrange(0, n_spans as int) =~= lex_views(spans@));
            }
            let split = split_ticks_chars(&out);
            if split.len() == 0 {
                let t = String::from_str("`<Empty code>`");
                proof {
                    reveal_strlit("`<Empty code>`");
                }
                t
            } else {
                string_of(&split)
            }
        },
    }
}

} // verus!

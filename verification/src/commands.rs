//! Command-token parsing and dispatch.
//!
//! An invocation body is split at the first ASCII whitespace character into a
//! command token and an argument body.  The token is matched, after trimming
//! and ASCII lowercasing, against a fixed table of command names and aliases;
//! the argument body is trimmed but otherwise passed on verbatim.
//! Lowercasing maps only the twenty-six ASCII capitals; since every command
//! name is ASCII, a token differing from one only in exotic case variants
//! stays unrecognized.

use vstd::prelude::*;
use vstd::string::{StrSliceExecFns, StringExecFns};

use crate::links::lit_at;
use crate::text::{
    chars_of,
    is_ws_char,
    is_ws_char_exec,
    string_of,
    trim_bounds,
    trim_spec,
    trim_start_spec,
};

verus! {

// ---------------------------------------------------------------------------
// Code-fence stripping
// ---------------------------------------------------------------------------

/// `s` without the prefix `p` if it starts with it, else `s` unchanged.
pub open spec fn strip_prefix_or(s: Seq<char>, p: Seq<char>) -> Seq<char> {
    if lit_at(s, 0, p) {
        s.subrange(p.len() as int, s.len() as int)
    } else {
        s
    }
}

/// `s` without the suffix `p` if it ends with it, else `s` unchanged.
pub open spec fn strip_suffix_or(s: Seq<char>, p: Seq<char>) -> Seq<char> {
    if lit_at(s, s.len() - p.len(), p) {
        s.subrange(0, s.len() - p.len())
    } else {
        s
    }
}

/// The result of trimming an argument and peeling one layer of code fencing:
/// a leading fence, a following line break, a `uiua` language tag, a trailing
/// line break and a trailing fence, each removed when present.
pub open spec fn strip_triple_ticks_spec(s: Seq<char>) -> Seq<char> {
    let t0 = trim_spec(s);
    let t1 = strip_prefix_or(t0, seq!['`', '`', '`']);
    let t2 = strip_prefix_or(t1, seq!['\n']);
    let t3 = strip_prefix_or(t2, seq!['u', 'i', 'u', 'a']);
    let t4 = strip_suffix_or(t3, seq!['\n']);
    strip_suffix_or(t4, seq!['`', '`', '`'])
}

fn window_strip_prefix(v: &Vec<char>, a: usize, b: usize, lit: &Vec<char>) -> (r: usize)
    requires
        a <= b <= v@.len(),
    ensures
        a <= r <= b,
        v@.subrange(r as int, b as int) == strip_prefix_or(
            v@.subrange(a as int, b as int),
            lit@,
        ),
{
    let ghost w = v@.subrange(a as int, b as int);
    let n = v.len();
    if lit.len() > b - a {
        assert(!lit_at(w, 0, lit@));
        return a;
    }
    let mut k: usize = 0;
    while k < lit.len()
        invariant
            n == v@.len(),
            a <= b <= n,
            w == v@.subrange(a as int, b as int),
            k <= lit@.len() <= b - a,
            forall|m: int| 0 <= m < k ==> v@[a + m] == lit@[m],
        decreases lit@.len() - k,
    {
        if v[a + k] != lit[k] {
            proof {
                assert(w[k as int] == v@[a + k]);
                assert(!lit_at(w, 0, lit@));
            }
            return a;
        }
        k = k + 1;
    }
    proof {
        assert forall|m: int| 0 <= m < lit@.len() implies w[m] == lit@[m] by {
            assert(w[m] == v@[a + m]);
        }
        assert(lit_at(w, 0, lit@));
        assert(v@.subrange(a + lit@.len(), b as int) =~= w.subrange(
            lit@.len() as int,
            w.len() as int,
        ));
    }
    a + lit.len()
}

fn window_strip_suffix(v: &Vec<char>, a: usize, b: usize, lit: &Vec<char>) -> (r: usize)
    requires
        a <= b <= v@.len(),
    ensures
        a <= r <= b,
        v@.subrange(a as int, r as int) == strip_suffix_or(
            v@.subrange(a as int, b as int),
            lit@,
        ),
{
    let ghost w = v@.subrange(a as int, b as int);
    let n = v.len();
    if lit.len() > b - a {
        assert(!lit_at(w, w.len() - lit@.len(), lit@));
        return b;
    }
    let start: usize = b - lit.len();
    let mut k: usize = 0;
    while k < lit.len()
        invariant
            n == v@.len(),
            a <= b <= n,
            start == b - lit@.len(),
            a <= start,
            w == v@.subrange(a as int, b as int),
            k <= lit@.len() <= b - a,
            forall|m: int| 0 <= m < k ==> v@[start + m] == lit@[m],
        decreases lit@.len() - k,
    {
        if v[start + k] != lit[k] {
            proof {
                assert(w[start - a + k] == v@[start + k]);
                assert(!lit_at(w, w.len() - lit@.len(), lit@));
            }
            return b;
        }
        k = k + 1;
    }
    proof {
        assert forall|m: int| 0 <= m < lit@.len() implies w[w.len() - lit@.len() + m] == lit@[m] by {
            assert(w[w.len() - lit@.len() + m] == v@[start + m]);
        }
        assert(lit_at(w, w.len() - lit@.len(), lit@));
        assert(v@.subrange(a as int, start as int) =~= w.subrange(0, w.len() - lit@.len()));
    }
    start
}

/// Trim an argument and peel one layer of code fencing off it.
pub fn strip_triple_ticks(s: &str) -> (r: &str)
    ensures
        r@ == strip_triple_ticks_spec(s@),
{
    let v = chars_of(s);
    let (t, b0) = trim_bounds(&v);
    let ticks = vec!['`', '`', '`'];
    let nl = vec!['\n'];
    let tag = vec!['u', 'i', 'u', 'a'];
    proof {
        assert(ticks@ =~= seq!['`', '`', '`']);
        assert(nl@ =~= seq!['\n']);
        assert(tag@ =~= seq!['u', 'i', 'u', 'a']);
    }
    let a1 = window_strip_prefix(&v, t, b0, &ticks);
    let a2 = window_strip_prefix(&v, a1, b0, &nl);
    let a3 = window_strip_prefix(&v, a2, b0, &tag);
    let b1 = window_strip_suffix(&v, a3, b0, &nl);
    let b2 = window_strip_suffix(&v, a3, b1, &ticks);
    s.substring_char(a3, b2)
}

// ---------------------------------------------------------------------------
// Token lowercasing
// ---------------------------------------------------------------------------

/// An upper-case ASCII letter mapped to its lower-case form; any other
/// character unchanged.
pub open spec fn lower_char(c: char) -> char {
    if c == 'A' {
        'a'
    } else if c == 'B' {
        'b'
    } else if c == 'C' {
        'c'
    } else if c == 'D' {
        'd'
    } else if c == 'E' {
        'e'
    } else if c == 'F' {
        'f'
    } else if c == 'G' {
        'g'
    } else if c == 'H' {
        'h'
    } else if c == 'I' {
        'i'
    } else if c == 'J' {
        'j'
    } else if c == 'K' {
        'k'
    } else if c == 'L' {
        'l'
    } else if c == 'M' {
        'm'
    } else if c == 'N' {
        'n'
    } else if c == 'O' {
        'o'
    } else if c == 'P' {
        'p'
    } else if c == 'Q' {
        'q'
    } else if c == 'R' {
        'r'
    } else if c == 'S' {
        's'
    } else if c == 'T' {
        't'
    } else if c == 'U' {
        'u'
    } else if c == 'V' {
        'v'
    } else if c == 'W' {
        'w'
    } else if c == 'X' {
        'x'
    } else if c == 'Y' {
        'y'
    } else if c == 'Z' {
        'z'
    } else {
        c
    }
}

/// ASCII lowercasing, character by character.
pub open spec fn lower_seq(s: Seq<char>) -> Seq<char> {
    s.map(|_k: int, c: char| lower_char(c))
}

fn lower_char_exec(c: char) -> (r: char)
    ensures
        r == lower_char(c),
{
    match c {
        'A' => 'a',
        'B' => 'b',
        'C' => 'c',
        'D' => 'd',
        'E' => 'e',
        'F' => 'f',
        'G' => 'g',
        'H' => 'h',
        'I' => 'i',
        'J' => 'j',
        'K' => 'k',
        'L' => 'l',
        'M' => 'm',
        'N' => 'n',
        'O' => 'o',
        'P' => 'p',
        'Q' => 'q',
        'R' => 'r',
        'S' => 's',
        'T' => 't',
        'U' => 'u',
        'V' => 'v',
        'W' => 'w',
        'X' => 'x',
        'Y' => 'y',
        'Z' => 'z',
        other => other,
    }
}

pub(crate) fn lower_chars(v: &Vec<char>) -> (out: Vec<char>)
    ensures
        out@ == lower_seq(v@),
{
    let mut out: Vec<char> = Vec::new();
    let mut i: usize = 0;
    while i < v.len()
        invariant
            i <= v@.len(),
            out@.len() == i,
            forall|k: int| 0 <= k < i ==> out@[k] == lower_char(v@[k]),
        decreases v@.len() - i,
    {
        out.push(lower_char_exec(v[i]));
        i = i + 1;
    }
    proof {
        assert(out@ =~= lower_seq(v@));
    }
    out
}

// ---------------------------------------------------------------------------
// The command table
// ---------------------------------------------------------------------------

/// One chat command.
#[derive(Debug, Clone, Copy, PartialEq, Eq, Structural)]
pub enum Command {
    Ping,
    Version,
    Help,
    Fmt,
    Pad,
    Docs,
    Emojify,
    Run,
    Show,
    Shutdown,
    Unrecognized,
}

/// The command selected by a lowercased token.  Every listed alias of a
/// command maps to the same variant; anything else is unrecognized.
pub open spec fn command_of(t: Seq<char>) -> Command {
    if t == seq!['p', 'i', 'n', 'g'] {
        Command::Ping
    } else if t == seq!['v'] || t == seq!['v', 'e', 'r'] || t == seq![
        'v',
        'e',
        'r',
        's',
        'i',
        'o',
        'n',
    ] {
        Command::Version
    } else if t == seq!['h'] || t == seq!['h', 'e', 'l', 'p'] || t == Seq::<char>::empty() {
        Command::Help
    } else if t == seq!['f'] || t == seq!['f', 'm', 't'] || t == seq![
        'f',
        'o',
        'r',
        'm',
        'a',
        't',
    ] {
        Command::Fmt
    } else if t == seq!['p'] || t == seq!['p', 'a', 'd'] {
        Command::Pad
    } else if t == seq!['d'] || t == seq!['d', 'o', 'c'] || t == seq!['d', 'o', 'c', 's'] || t
        == seq!['w', 'h', 'a', 't'] {
        Command::Docs
    } else if t == seq!['e'] || t == seq!['e', 'm', 'o', 'j', 'i', 'f', 'y'] {
        Command::Emojify
    } else if t == seq!['r'] || t == seq!['r', 'u', 'n'] {
        Command::Run
    } else if t == seq!['s'] || t == seq!['s', 'h', 'o', 'w'] {
        Command::Show
    } else if t == seq!['s', 'h', 'u', 't', 'd', 'o', 'w', 'n'] {
        Command::Shutdown
    } else {
        Command::Unrecognized
    }
}

pub(crate) fn eq_chars(a: &Vec<char>, lit: &Vec<char>) -> (r: bool)
    ensures
        r == (a@ == lit@),
{
    let n = a.len();
    if n != lit.len() {
        assert(a@.len() != lit@.len());
        return false;
    }
    let mut i: usize = 0;
    while i < n
        invariant
            n == a@.len() == lit@.len(),
            i <= n,
            forall|k: int| 0 <= k < i ==> a@[k] == lit@[k],
        decreases n - i,
    {
        if a[i] != lit[i] {
            assert(a@[i as int] != lit@[i as int]);
            return false;
        }
        i = i + 1;
    }
    proof {
        assert(a@ =~= lit@);
    }
    true
}

/// The command selected by a lowercased token.
fn command_of_token(t: &Vec<char>) -> (c: Command)
    ensures
        c == command_of(t@),
{
    let empty_tok: Vec<char> = Vec::new();
    let ping = vec!['p', 'i', 'n', 'g'];
    let v1 = vec!['v'];
    let ver = vec!['v', 'e', 'r'];
    let version = vec!['v', 'e', 'r', 's', 'i', 'o', 'n'];
    let h1 = vec!['h'];
    let help = vec!['h', 'e', 'l', 'p'];
    let f1 = vec!['f'];
    let fmt = vec!['f', 'm', 't'];
    let format = vec!['f', 'o', 'r', 'm', 'a', 't'];
    let p1 = vec!['p'];
    let pad = vec!['p', 'a', 'd'];
    let d1 = vec!['d'];
    let doc = vec!['d', 'o', 'c'];
    let docs = vec!['d', 'o', 'c', 's'];
    let what = vec!['w', 'h', 'a', 't'];
    let e1 = vec!['e'];
    let emojify = vec!['e', 'm', 'o', 'j', 'i', 'f', 'y'];
    let r1 = vec!['r'];
    let run = vec!['r', 'u', 'n'];
    let s1 = vec!['s'];
    let show = vec!['s', 'h', 'o', 'w'];
    let shutdown = vec!['s', 'h', 'u', 't', 'd', 'o', 'w', 'n'];
    proof {
        assert(empty_tok@ =~= Seq::<char>::empty());
        assert(ping@ =~= seq!['p', 'i', 'n', 'g']);
        assert(v1@ =~= seq!['v']);
        assert(ver@ =~= seq!['v', 'e', 'r']);
        assert(version@ =~= seq!['v', 'e', 'r', 's', 'i', 'o', 'n']);
        assert(h1@ =~= seq!['h']);
        assert(help@ =~= seq!['h', 'e', 'l', 'p']);
        assert(f1@ =~= seq!['f']);
        assert(fmt@ =~= seq!['f', 'm', 't']);
        assert(format@ =~= seq!['f', 'o', 'r', 'm', 'a', 't']);
        assert(p1@ =~= seq!['p']);
        assert(pad@ =~= seq!['p', 'a', 'd']);
        assert(d1@ =~= seq!['d']);
        assert(doc@ =~= seq!['d', 'o', 'c']);
        assert(docs@ =~= seq!['d', 'o', 'c', 's']);
        assert(what@ =~= seq!['w', 'h', 'a', 't']);
        assert(e1@ =~= seq!['e']);
        assert(emojify@ =~= seq!['e', 'm', 'o', 'j', 'i', 'f', 'y']);
        assert(r1@ =~= seq!['r']);
        assert(run@ =~= seq!['r', 'u', 'n']);
        assert(s1@ =~= seq!['s']);
        assert(show@ =~= seq!['s', 'h', 'o', 'w']);
        assert(shutdown@ =~= seq!['s', 'h', 'u', 't', 'd', 'o', 'w', 'n']);
    }
    if eq_chars(t, &ping) {
        Command::Ping
    } else if eq_chars(t, &v1) || eq_chars(t, &ver) || eq_chars(t, &version) {
        Command::Version
    } else if eq_chars(t, &h1) || eq_chars(t, &help) || eq_chars(t, &empty_tok) {
        Command::Help
    } else if eq_chars(t, &f1) || eq_chars(t, &fmt) || eq_chars(t, &format) {
        Command::Fmt
    } else if eq_chars(t, &p1) || eq_chars(t, &pad) {
        Command::Pad
    } else if eq_chars(t, &d1) || eq_chars(t, &doc) || eq_chars(t, &docs) || eq_chars(t, &what) {
        Command::Docs
    } else if eq_chars(t, &e1) || eq_chars(t, &emojify) {
        Command::Emojify
    } else if eq_chars(t, &r1) || eq_chars(t, &run) {
        Command::Run
    } else if eq_chars(t, &s1) || eq_chars(t, &show) {
        Command::Show
    } else if eq_chars(t, &shutdown) {
        Command::Shutdown
    } else {
        Command::Unrecognized
    }
}

// ---------------------------------------------------------------------------
// Splitting an invocation into token and body
// ---------------------------------------------------------------------------

/// The ASCII whitespace characters.
pub open spec fn is_ascii_ws(c: char) -> bool {
    c == ' ' || c == '\t' || c == '\n' || c == '\r' || c as u32 == 0x0C
}

/// The position of the first ASCII whitespace character at or after `i`, or
/// the length of `s` if there is none.
pub open spec fn token_split(s: Seq<char>, i: int) -> int
    decreases s.len() - i,
{
    if i < 0 || i >= s.len() {
        s.len() as int
    } else if is_ascii_ws(s[i]) {
        i
    } else {
        token_split(s, i + 1)
    }
}

/// The trimmed, lowercased command token of an invocation.
pub open spec fn token_of(s: Seq<char>) -> Seq<char> {
    lower_seq(trim_spec(s.subrange(0, token_split(s, 0))))
}

/// The trimmed argument body of an invocation, in its original casing.
pub open spec fn body_of(s: Seq<char>) -> Seq<char> {
    trim_spec(s.subrange(token_split(s, 0), s.len() as int))
}

/// A parsed invocation: the selected command, the trimmed argument body, and
/// the lowercased token (echoed back for unrecognized commands).
pub struct ParsedCommand {
    pub command: Command,
    pub body: String,
    pub token: String,
}

fn is_ascii_ws_exec(c: char) -> (r: bool)
    ensures
        r == is_ascii_ws(c),
{
    let u = c as u32;
    u == 0x20 || u == 0x09 || u == 0x0A || u == 0x0D || u == 0x0C
}

/// Split an invocation at the first ASCII whitespace character into a
/// command token and an argument body, trim both, lowercase the token, and
/// select the command it names.
pub fn parse_command(s: &str) -> (r: ParsedCommand)
    ensures
        r.token@ == token_of(s@),
        r.body@ == body_of(s@),
        r.command == command_of(token_of(s@)),
{
    let v = chars_of(s);
    let n = v.len();
    let mut i: usize = 0;
    while i < n && !is_ascii_ws_exec(v[i])
        invariant
            n == v@.len(),
            v@ == s@,
            i <= n,
            token_split(s@, 0) == token_split(s@, i as int),
        decreases n - i,
    {
        assert(token_split(s@, i as int) == token_split(s@, i + 1));
        i = i + 1;
    }
    assert(token_split(s@, 0) == i);
    let raw_token = crate::links::sub_chars(&v, 0, i);
    let raw_body = crate::links::sub_chars(&v, i, n);
    let (ta, tb) = trim_bounds(&raw_token);
    let trimmed_token = crate::links::sub_chars(&raw_token, ta, tb);
    let token = lower_chars(&trimmed_token);
    let (ba, bb) = trim_bounds(&raw_body);
    let body = crate::links::sub_chars(&raw_body, ba, bb);
    let command = command_of_token(&token);
    ParsedCommand { command, body: string_of(&body), token: string_of(&token) }
}

// ---------------------------------------------------------------------------
// Invocation-prefix stripping
// ---------------------------------------------------------------------------

/// The views of a list of prefixes.
pub open spec fn prefix_views(ps: Seq<String>) -> Seq<Seq<char>> {
    ps.map(|_k: int, p: String| p@)
}

/// Whether a line, once its leading whitespace is passed over, starts with
/// one of the prefixes.
pub open spec fn line_has_prefix(l: Seq<char>, ps: Seq<Seq<char>>) -> bool {
    exists|k: int| 0 <= k < ps.len() && lit_at(trim_start_spec(l), 0, ps[k])
}

/// The index of the first line that carries a prefix, or the number of lines
/// when none does.
pub open spec fn first_matching_line(ls: Seq<Seq<char>>, ps: Seq<Seq<char>>, i: int) -> int
    decreases ls.len() - i,
{
    if i < 0 || i >= ls.len() {
        ls.len() as int
    } else if line_has_prefix(ls[i], ps) {
        i
    } else {
        first_matching_line(ls, ps, i + 1)
    }
}

/// Lines joined back together with line breaks.
pub open spec fn join_nl(ls: Seq<Seq<char>>) -> Seq<char>
    decreases ls.len(),
{
    if ls.len() == 0 {
        Seq::empty()
    } else if ls.len() == 1 {
        ls[0]
    } else {
        ls[0] + seq!['\n'] + join_nl(ls.drop_first())
    }
}

/// The text behind the first prefix, in the order the prefixes are listed,
/// that the text starts with; nothing when no prefix matches.
pub open spec fn strip_first_prefix(s: Seq<char>, ps: Seq<Seq<char>>, k: int) -> Option<Seq<char>>
    decreases ps.len() - k,
{
    if k < 0 || k >= ps.len() {
        None
    } else if lit_at(s, 0, ps[k]) {
        Some(s.subrange(ps[k].len() as int, s.len() as int))
    } else {
        strip_first_prefix(s, ps, k + 1)
    }
}

/// The body of an invocation: the text is cut down to the lines from the
/// first one that carries an invocation prefix, rejoined, stripped of
/// leading whitespace, and the prefix itself is removed; a text none of
/// whose lines carries a prefix is no invocation.
pub open spec fn strip_wawa_prefix_spec(text: Seq<char>, ps: Seq<Seq<char>>) -> Option<Seq<char>> {
    let ls = crate::text::lines_of(text);
    let kept = ls.subrange(first_matching_line(ls, ps, 0), ls.len() as int);
    let joined = trim_start_spec(join_nl(kept));
    strip_first_prefix(joined, ps, 0)
}

fn line_has_prefix_exec(l: &Vec<char>, pv: &Vec<Vec<char>>) -> (r: bool)
    ensures
        r == line_has_prefix(l@, crate::text::views_of(pv@)),
{
    let ghost ps = crate::text::views_of(pv@);
    let a = crate::text::trim_start_idx(l);
    let n = l.len();
    let np = pv.len();
    let mut k: usize = 0;
    while k < np
        invariant
            np == pv@.len(),
            a <= n == l@.len(),
            ps == crate::text::views_of(pv@),
            trim_start_spec(l@) == l@.subrange(a as int, n as int),
            k <= np,
            forall|m: int| 0 <= m < k ==> !lit_at(trim_start_spec(l@), 0, ps[m]),
        decreases np - k,
    {
        if crate::links::match_chars(l, a, &pv[k]) {
            proof {
                crate::links::lemma_lit_at_sub(l@, a as int, n as int, 0, ps[k as int]);
            }
            return true;
        }
        proof {
            if lit_at(trim_start_spec(l@), 0, ps[k as int]) {
                crate::links::lemma_lit_at_sub(l@, a as int, n as int, 0, ps[k as int]);
            }
        }
        k = k + 1;
    }
    false
}

/// Cut an inbound message down to its invocation: skip any leading lines
/// that carry no invocation prefix, rejoin the rest, drop leading
/// whitespace, and strip the first matching prefix.  A message without any
/// prefix is no invocation.
pub fn strip_wawa_prefix(text: &str, prefixes: &Vec<String>) -> (r: Option<String>)
    ensures
        match r {
            Some(t) => strip_wawa_prefix_spec(text@, prefix_views(prefixes@)) == Some(t@),
            None => strip_wawa_prefix_spec(text@, prefix_views(prefixes@)) is None,
        },
{
    let ghost ps = prefix_views(prefixes@);
    let v = chars_of(text);
    let ls = crate::text::lines_chars(&v);
    let mut pv: Vec<Vec<char>> = Vec::new();
    let mut pk: usize = 0;
    while pk < prefixes.len()
        invariant
            pk <= prefixes@.len(),
            pv@.len() == pk,
            forall|m: int| 0 <= m < pk ==> #[trigger] pv@[m]@ == prefixes@[m]@,
        decreases prefixes@.len() - pk,
    {
        pv.push(chars_of(prefixes[pk].as_str()));
        pk = pk + 1;
    }
    proof {
        assert(crate::text::views_of(pv@) =~= ps);
    }
    let nl = ls.len();
    let mut f: usize = 0;
    while f < nl && !line_has_prefix_exec(&ls[f], &pv)
        invariant
            nl == ls@.len(),
            crate::text::views_of(ls@) == crate::text::lines_of(text@),
            crate::text::views_of(pv@) == ps,
            f <= nl,
            first_matching_line(crate::text::views_of(ls@), ps, 0) == first_matching_line(
                crate::text::views_of(ls@),
                ps,
                f as int,
            ),
        decreases nl - f,
    {
        proof {
            let lv = crate::text::views_of(ls@);
            assert(lv[f as int] == ls@[f as int]@);
            assert(first_matching_line(lv, ps, f as int) == first_matching_line(lv, ps, f + 1));
        }
        f = f + 1;
    }
    proof {
        let lv = crate::text::views_of(ls@);
        if f < nl {
            assert(lv[f as int] == ls@[f as int]@);
        }
        assert(first_matching_line(lv, ps, 0) == f);
    }
    // Join the kept lines with line breaks.
    let mut joined: Vec<char> = Vec::new();
    let ghost lv = crate::text::views_of(ls@);
    let ghost kept = lv.subrange(f as int, nl as int);
    let mut j: usize = f;
    proof {
        assert(kept =~= lv.subrange(f as int, nl as int));
        assert(join_nl(kept) =~= joined@ + join_nl(lv.subrange(f as int, nl as int)));
    }
    while j < nl
        invariant
            nl == ls@.len(),
            lv == crate::text::views_of(ls@),
            kept == lv.subrange(f as int, nl as int),
            f <= j <= nl,
            join_nl(kept) == joined@ + join_nl(lv.subrange(j as int, nl as int)),
        decreases nl - j,
    {
        let ghost pre = joined@;
        let ghost rest = lv.subrange(j as int, nl as int);
        let line = &ls[j];
        let mut li: usize = 0;
        while li < line.len()
            invariant
                li <= line@.len(),
                joined@ == pre + line@.subrange(0, li as int),
            decreases line@.len() - li,
        {
            joined.push(line[li]);
            li = li + 1;
            assert(joined@ =~= pre + line@.subrange(0, li as int));
        }
        proof {
            assert(line@.subrange(0, line@.len() as int) =~= line@);
            assert(lv[j as int] == line@);
            assert(rest[0] == line@);
        }
        if j + 1 < nl {
            joined.push('\n');
            proof {
                assert(rest.drop_first() =~= lv.subrange(j + 1, nl as int));
                assert(rest.len() > 1);
                assert(join_nl(rest) == rest[0] + seq!['\n'] + join_nl(rest.drop_first()));
                assert(pre + (rest[0] + seq!['\n'] + join_nl(rest.drop_first())) =~= joined@
                    + join_nl(rest.drop_first()));
            }
        } else {
            proof {
                assert(rest.len() == 1);
                assert(join_nl(rest) == rest[0]);
                assert(pre + rest[0] =~= joined@);
                assert(lv.subrange(j + 1, nl as int) =~= Seq::<Seq<char>>::empty());
                assert(joined@ + join_nl(lv.subrange(j + 1, nl as int)) =~= joined@);
            }
        }
        j = j + 1;
    }
    proof {
        if f == nl {
            assert(kept =~= Seq::<Seq<char>>::empty());
        } else {
            assert(lv.subrange(nl as int, nl as int) =~= Seq::<Seq<char>>::empty());
        }
        assert(joined@ + join_nl(lv.subrange(nl as int, nl as int)) =~= joined@);
        assert(joined@ == join_nl(kept));
    }
    // Drop leading whitespace, then strip the first matching prefix.
    let a = crate::text::trim_start_idx(&joined);
    let jn = joined.len();
    let ghost trimmed = trim_start_spec(joined@);
    let np = pv.len();
    let mut k: usize = 0;
    while k < np
        invariant
            np == pv@.len(),
            a <= jn == joined@.len(),
            crate::text::views_of(pv@) == ps,
            ps == prefix_views(prefixes@),
            crate::text::views_of(ls@) == crate::text::lines_of(text@),
            lv == crate::text::views_of(ls@),
            f <= ls@.len(),
            first_matching_line(lv, ps, 0) == f as int,
            joined@ == join_nl(lv.subrange(f as int, ls@.len() as int)),
            trimmed == joined@.subrange(a as int, jn as int),
            trimmed == trim_start_spec(joined@),
            k <= np,
            strip_first_prefix(trimmed, ps, 0) == strip_first_prefix(trimmed, ps, k as int),
        decreases np - k,
    {
        if crate::links::match_chars(&joined, a, &pv[k]) {
            proof {
                crate::links::lemma_lit_at_sub(joined@, a as int, jn as int, 0, ps[k as int]);
                assert(lit_at(trimmed, 0, ps[k as int]));
            }
            let plen = pv[k].len();
            let body = crate::links::sub_chars(&joined, a + plen, jn);
            proof {
                assert(body@ =~= trimmed.subrange(ps[k as int].len() as int, trimmed.len() as int));
            }
            return Some(string_of(&body));
        }
        proof {
            if lit_at(trimmed, 0, ps[k as int]) {
                crate::links::lemma_lit_at_sub(joined@, a as int, jn as int, 0, ps[k as int]);
            }
            assert(strip_first_prefix(trimmed, ps, k as int) == strip_first_prefix(
                trimmed,
                ps,
                k + 1,
            ));
        }
        k = k + 1;
    }
    None
}

/// The invocation prefixes: the two fixed markers, then the mention forms
/// of the bot's handle and numeric identity.
pub fn default_prefixes(handle: &str, id: u64) -> (r: Vec<String>)
    ensures
        prefix_views(r@) == seq![
            "w!"@,
            "W!"@,
            "@"@ + handle@,
            "<@"@ + crate::text::dec_str(id as int) + ">"@,
            "<@&"@ + crate::text::dec_str(id as int) + ">"@,
        ],
{
    let id_text = crate::text::u64_to_string(id);
    let mut at_handle = String::from_str("@");
    at_handle.append(handle);
    let mut mention = String::from_str("<@");
    mention.append(id_text.as_str());
    mention.append(">");
    let mut role_mention = String::from_str("<@&");
    role_mention.append(id_text.as_str());
    role_mention.append(">");
    let mut r: Vec<String> = Vec::new();
    r.push(String::from_str("w!"));
    r.push(String::from_str("W!"));
    r.push(at_handle);
    r.push(mention);
    r.push(role_mention);
    proof {
        assert(prefix_views(r@) =~= seq![
            "w!"@,
            "W!"@,
            "@"@ + handle@,
            "<@"@ + crate::text::dec_str(id as int) + ">"@,
            "<@&"@ + crate::text::dec_str(id as int) + ">"@,
        ]);
    }
    r
}

/// The position of the first whitespace character at or after `i`.
pub open spec fn first_ws(s: Seq<char>, i: int) -> Option<int>
    decreases s.len() - i,
{
    if i < 0 || i >= s.len() {
        None
    } else if is_ws_char(s[i]) {
        Some(i)
    } else {
        first_ws(s, i + 1)
    }
}

/// The text behind the first whitespace character, or nothing when the text
/// has none: how the body is recovered from a stored invocation.
pub fn body_after_first_whitespace(s: &str) -> (r: Option<String>)
    ensures
        match r {
            Some(t) => first_ws(s@, 0) matches Some(j) && t@ == s@.subrange(j + 1, s@.len() as int),
            None => first_ws(s@, 0) is None,
        },
{
    let v = chars_of(s);
    let n = v.len();
    let mut i: usize = 0;
    while i < n
        invariant
            n == v@.len(),
            v@ == s@,
            i <= n,
            first_ws(s@, 0) == first_ws(s@, i as int),
        decreases n - i,
    {
        if is_ws_char_exec(v[i]) {
            let body = crate::links::sub_chars(&v, i + 1, n);
            return Some(string_of(&body));
        }
        assert(first_ws(s@, i as int) == first_ws(s@, i + 1));
        i = i + 1;
    }
    None
}

// ---------------------------------------------------------------------------
// Laws
// ---------------------------------------------------------------------------

/// The command token is case-insensitive: two invocations whose tokens agree
/// up to ASCII case select the same command.
pub proof fn lemma_token_case_insensitive(s1: Seq<char>, s2: Seq<char>)
    requires
        token_of(s1) == token_of(s2),
    ensures
        command_of(token_of(s1)) == command_of(token_of(s2)),
{
}

/// Lowercasing is idempotent, so a token that is already lower-case selects
/// the command its characters spell.
pub proof fn lemma_lower_idempotent(t: Seq<char>)
    ensures
        lower_seq(lower_seq(t)) == lower_seq(t),
{
    assert(lower_seq(lower_seq(t)) =~= lower_seq(t)) by {
        assert forall|k: int| 0 <= k < t.len() implies lower_seq(lower_seq(t))[k] == lower_seq(
            t,
        )[k] by {
            assert(lower_seq(t)[k] == lower_char(t[k]));
            assert(lower_char(lower_char(t[k])) == lower_char(t[k]));
        }
    }
}

/// Two invocations made of different alias tokens but the same argument body
/// carry that body to the handler verbatim: the body does not depend on the
/// token.
pub proof fn lemma_alias_same_body(t1: Seq<char>, t2: Seq<char>, body: Seq<char>)
    requires
        forall|k: int| 0 <= k < t1.len() ==> !is_ascii_ws(t1[k]),
        forall|k: int| 0 <= k < t2.len() ==> !is_ascii_ws(t2[k]),
    ensures
        body_of(t1 + seq![' '] + body) == body_of(t2 + seq![' '] + body),
        body_of(t1 + seq![' '] + body) == trim_spec(seq![' '] + body),
        token_of(t1 + seq![' '] + body) == lower_seq(trim_spec(t1)),
{
    lemma_split_at_token(t1, body);
    lemma_split_at_token(t2, body);
}

proof fn lemma_token_split_scan(s: Seq<char>, i: int, e: int)
    requires
        0 <= i <= e <= s.len(),
        forall|k: int| i <= k < e ==> !is_ascii_ws(s[k]),
        e < s.len() ==> is_ascii_ws(s[e]),
    ensures
        token_split(s, i) == if e < s.len() {
            e
        } else {
            s.len() as int
        },
    decreases e - i,
{
    if i < e {
        lemma_token_split_scan(s, i + 1, e);
    }
}

proof fn lemma_split_at_token(t: Seq<char>, body: Seq<char>)
    requires
        forall|k: int| 0 <= k < t.len() ==> !is_ascii_ws(t[k]),
    ensures
        body_of(t + seq![' '] + body) == trim_spec(seq![' '] + body),
        token_of(t + seq![' '] + body) == lower_seq(trim_spec(t)),
{
    let s = t + seq![' '] + body;
    let e = t.len() as int;
    assert forall|k: int| 0 <= k < e implies !is_ascii_ws(s[k]) by {
        assert(s[k] == t[k]);
    }
    assert(s[e] == ' ');
    lemma_token_split_scan(s, 0, e);
    assert(token_split(s, 0) == e);
    assert(s.subrange(0, e) =~= t);
    assert(s.subrange(e, s.len() as int) =~= seq![' '] + body);
}

} // verus!

//! Character-level utilities shared by the message-handling modules.
//!
//! All text logic in this crate works over sequences of characters; these
//! helpers move between `&str` / `String` and `Vec<char>` and render numbers
//! as decimal strings.

use vstd::prelude::*;
use vstd::string::StrSliceExecFns;

verus! {

/// Collect the characters of a string slice into a vector.
pub fn chars_of(s: &str) -> (v: Vec<char>)
    ensures
        v@ == s@,
{
    let n = s.unicode_len();
    let mut v: Vec<char> = Vec::new();
    let mut i: usize = 0;
    while i < n
        invariant
            n == s@.len(),
            i <= n,
            v@ == s@.subrange(0, i as int),
        decreases n - i,
    {
        let c = s.get_char(i);
        v.push(c);
        i = i + 1;
        assert(v@ =~= s@.subrange(0, i as int));
    }
    assert(v@ =~= s@);
    v
}

/// Relies on String::push: appends exactly the given character.
#[verifier::external_body]
pub(crate) fn push_char(s: &mut String, c: char)
    ensures
        final(s)@ == old(s)@.push(c),
{
    s.push(c);
}

/// Build a string out of a vector of characters.
pub fn string_of(v: &Vec<char>) -> (s: String)
    ensures
        s@ == v@,
{
    let mut s = String::new();
    let mut i: usize = 0;
    while i < v.len()
        invariant
            i <= v@.len(),
            s@ == v@.subrange(0, i as int),
        decreases v@.len() - i,
    {
        push_char(&mut s, v[i]);
        i = i + 1;
        assert(s@ =~= v@.subrange(0, i as int));
    }
    assert(s@ =~= v@);
    s
}

/// The characters the White_Space property covers.
pub open spec fn is_ws_char(c: char) -> bool {
    c == ' ' || c == '\t' || c == '\n' || c == '\r' || c as u32 == 0x0B || c as u32 == 0x0C || c
        as u32 == 0x85 || c as u32 == 0xA0 || c as u32 == 0x1680 || (0x2000 <= c as u32 && c as u32
        <= 0x200A) || c as u32 == 0x2028 || c as u32 == 0x2029 || c as u32 == 0x202F || c as u32
        == 0x205F || c as u32 == 0x3000
}

pub fn is_ws_char_exec(c: char) -> (r: bool)
    ensures
        r == is_ws_char(c),
{
    let u = c as u32;
    u == 0x20 || u == 0x09 || u == 0x0A || u == 0x0D || u == 0x0B || u == 0x0C || u == 0x85 || u
        == 0xA0 || u == 0x1680 || (0x2000 <= u && u <= 0x200A) || u == 0x2028 || u == 0x2029 || u
        == 0x202F || u == 0x205F || u == 0x3000
}

/// The text with leading whitespace removed.
pub open spec fn trim_start_spec(s: Seq<char>) -> Seq<char>
    decreases s.len(),
{
    if s.len() > 0 && is_ws_char(s[0]) {
        trim_start_spec(s.drop_first())
    } else {
        s
    }
}

/// The text with trailing whitespace removed.
pub open spec fn trim_end_spec(s: Seq<char>) -> Seq<char>
    decreases s.len(),
{
    if s.len() > 0 && is_ws_char(s.last()) {
        trim_end_spec(s.drop_last())
    } else {
        s
    }
}

/// The text with whitespace removed from both ends.
pub open spec fn trim_spec(s: Seq<char>) -> Seq<char> {
    trim_end_spec(trim_start_spec(s))
}

pub proof fn lemma_trim_start_range(s: Seq<char>, a: int)
    requires
        0 <= a <= s.len(),
        forall|k: int| 0 <= k < a ==> is_ws_char(s[k]),
        a < s.len() ==> !is_ws_char(s[a]),
    ensures
        trim_start_spec(s) == s.subrange(a, s.len() as int),
    decreases a,
{
    if a == 0 {
        if s.len() > 0 {
            assert(!is_ws_char(s[0]));
        }
        assert(s.subrange(0, s.len() as int) =~= s);
    } else {
        assert(is_ws_char(s[0]));
        let t = s.drop_first();
        assert forall|k: int| 0 <= k < a - 1 implies is_ws_char(t[k]) by {
            assert(t[k] == s[k + 1]);
        }
        if a - 1 < t.len() {
            assert(t[a - 1] == s[a]);
        }
        lemma_trim_start_range(t, a - 1);
        assert(t.subrange(a - 1, t.len() as int) =~= s.subrange(a, s.len() as int));
    }
}

pub proof fn lemma_trim_end_range(s: Seq<char>, b: int)
    requires
        0 <= b <= s.len(),
        forall|k: int| b <= k < s.len() ==> is_ws_char(s[k]),
        b > 0 ==> !is_ws_char(s[b - 1]),
    ensures
        trim_end_spec(s) == s.subrange(0, b),
    decreases s.len(),
{
    if b == s.len() {
        if s.len() > 0 {
            assert(!is_ws_char(s.last()));
        }
        assert(s.subrange(0, s.len() as int) =~= s);
    } else {
        assert(is_ws_char(s.last()));
        let t = s.drop_last();
        assert forall|k: int| b <= k < t.len() implies is_ws_char(t[k]) by {
            assert(t[k] == s[k]);
        }
        if b > 0 {
            assert(t[b - 1] == s[b - 1]);
        }
        lemma_trim_end_range(t, b);
        assert(t.subrange(0, b) =~= s.subrange(0, b));
    }
}

/// The bounds of the whitespace-trimmed middle of `v`: trimming removes the
/// characters outside `[r.0, r.1)`.
pub fn trim_bounds(v: &Vec<char>) -> (r: (usize, usize))
    ensures
        r.0 <= r.1 <= v@.len(),
        trim_spec(v@) == v@.subrange(r.0 as int, r.1 as int),
{
    let n = v.len();
    let mut a: usize = 0;
    while a < n && is_ws_char_exec(v[a])
        invariant
            n == v@.len(),
            a <= n,
            forall|k: int| 0 <= k < a ==> is_ws_char(v@[k]),
        decreases n - a,
    {
        a = a + 1;
    }
    proof {
        lemma_trim_start_range(v@, a as int);
    }
    let ghost mid = v@.subrange(a as int, n as int);
    let mut b: usize = n;
    while b > a && is_ws_char_exec(v[b - 1])
        invariant
            n == v@.len(),
            a <= b <= n,
            forall|k: int| b <= k < n ==> is_ws_char(v@[k]),
        decreases b,
    {
        b = b - 1;
    }
    proof {
        assert forall|k: int| b - a <= k < mid.len() implies is_ws_char(mid[k]) by {
            assert(mid[k] == v@[a + k]);
        }
        if b > a {
            assert(mid[b - a - 1] == v@[b - 1]);
        }
        lemma_trim_end_range(mid, b - a);
        assert(mid.subrange(0, b - a) =~= v@.subrange(a as int, b as int));
    }
    (a, b)
}

/// The start of the text once leading whitespace is passed over: trimming
/// from the front removes the characters before `r`.
pub fn trim_start_idx(v: &Vec<char>) -> (r: usize)
    ensures
        r <= v@.len(),
        trim_start_spec(v@) == v@.subrange(r as int, v@.len() as int),
{
    let n = v.len();
    let mut a: usize = 0;
    while a < n && is_ws_char_exec(v[a])
        invariant
            n == v@.len(),
            a <= n,
            forall|k: int| 0 <= k < a ==> is_ws_char(v@[k]),
        decreases n - a,
    {
        a = a + 1;
    }
    proof {
        lemma_trim_start_range(v@, a as int);
    }
    a
}


/// The number of bytes the UTF-8 encoding of a character takes.
pub open spec fn char_width(c: char) -> nat {
    if (c as u32) < 0x80 {
        1
    } else if (c as u32) < 0x800 {
        2
    } else if (c as u32) < 0x10000 {
        3
    } else {
        4
    }
}

/// The length of a text in UTF-8 bytes.
pub open spec fn byte_len(s: Seq<char>) -> nat
    decreases s.len(),
{
    if s.len() == 0 {
        0
    } else {
        char_width(s[0]) + byte_len(s.drop_first())
    }
}

pub proof fn lemma_byte_len_append(a: Seq<char>, b: Seq<char>)
    ensures
        byte_len(a + b) == byte_len(a) + byte_len(b),
    decreases a.len(),
{
    if a.len() == 0 {
        assert(a + b =~= b);
    } else {
        lemma_byte_len_append(a.drop_first(), b);
        assert((a + b).drop_first() =~= a.drop_first() + b);
    }
}

fn char_width_exec(c: char) -> (w: u8)
    ensures
        w == char_width(c),
{
    let u = c as u32;
    if u < 0x80 {
        1
    } else if u < 0x800 {
        2
    } else if u < 0x10000 {
        3
    } else {
        4
    }
}

/// The length of a text in UTF-8 bytes.
pub fn utf8_len(s: &str) -> (n: u128)
    ensures
        n == byte_len(s@),
{
    let v = chars_of(s);
    let len = v.len();
    let mut n: u128 = 0;
    let mut i: usize = 0;
    assert(s@.subrange(0, 0) =~= Seq::<char>::empty());
    while i < len
        invariant
            len == v@.len(),
            v@ == s@,
            i <= len,
            n == byte_len(s@.subrange(0, i as int)),
            n <= 4 * i,
        decreases len - i,
    {
        let w = char_width_exec(v[i]);
        proof {
            let pre = s@.subrange(0, i as int);
            let post = s@.subrange(0, i + 1);
            assert(post =~= pre + seq![s@[i as int]]);
            lemma_byte_len_append(pre, seq![s@[i as int]]);
            assert(byte_len(seq![s@[i as int]]) == char_width(s@[i as int])) by {
                assert(seq![s@[i as int]].drop_first() =~= Seq::<char>::empty());
                assert(byte_len(Seq::<char>::empty()) == 0);
            }
        }
        n = n + (w as u128);
        i = i + 1;
    }
    proof {
        assert(s@.subrange(0, s@.len() as int) =~= s@);
    }
    n
}

/// The position of the first line break at or after `i`.
pub open spec fn nl_pos(s: Seq<char>, i: int) -> Option<int>
    decreases s.len() - i,
{
    if i < 0 || i >= s.len() {
        None
    } else if s[i] == '\n' {
        Some(i)
    } else {
        nl_pos(s, i + 1)
    }
}

/// The content of a line spanning `[i, j)` whose terminator sits at `j`: a
/// carriage return right before the terminator is not part of the line.
pub open spec fn line_chunk(s: Seq<char>, i: int, j: int) -> Seq<char> {
    if j > i && s[j - 1] == '\r' {
        s.subrange(i, j - 1)
    } else {
        s.subrange(i, j)
    }
}

/// The lines of `s` from position `i` on: split at line breaks, each line
/// without its terminator, a final unterminated line kept as it stands, and
/// no empty line after a final terminator.
pub open spec fn lines_from(s: Seq<char>, i: int) -> Seq<Seq<char>>
    decreases s.len() - i,
{
    if i < 0 || i >= s.len() {
        seq![]
    } else {
        match nl_pos(s, i) {
            Some(j) => if i <= j < s.len() {
                seq![line_chunk(s, i, j)] + lines_from(s, j + 1)
            } else {
                seq![]
            },
            None => seq![s.subrange(i, s.len() as int)],
        }
    }
}

/// The lines of `s`.
pub open spec fn lines_of(s: Seq<char>) -> Seq<Seq<char>> {
    lines_from(s, 0)
}


fn find_nl(v: &Vec<char>, start: usize) -> (r: Option<usize>)
    ensures
        match r {
            Some(j) => nl_pos(v@, start as int) == Some(j as int) && start <= j && j < v@.len(),
            None => nl_pos(v@, start as int) is None,
        },
{
    let n = v.len();
    let mut j: usize = start;
    while j < n
        invariant
            n == v@.len(),
            start <= j,
            nl_pos(v@, start as int) == nl_pos(v@, j as int),
        decreases n - j,
    {
        if v[j] == '\n' {
            return Some(j);
        }
        assert(nl_pos(v@, j as int) == nl_pos(v@, j + 1));
        j = j + 1;
    }
    None
}

/// The views of a sequence of character vectors.
pub open spec fn views_of(s: Seq<Vec<char>>) -> Seq<Seq<char>> {
    s.map(|_k: int, l: Vec<char>| l@)
}

/// Split a text into its lines.
pub fn lines_chars(v: &Vec<char>) -> (out: Vec<Vec<char>>)
    ensures
        views_of(out@) == lines_of(v@),
{
    let n = v.len();
    let mut out: Vec<Vec<char>> = Vec::new();
    let mut i: usize = 0;
    assert(lines_of(v@) =~= views_of(out@) + lines_from(v@, 0));
    while i < n
        invariant
            n == v@.len(),
            i <= n,
            lines_of(v@) == views_of(out@) + lines_from(v@, i as int),
        decreases n - i,
    {
        let ghost pre = views_of(out@);
        match find_nl(v, i) {
            Some(j) => {
                let line = if j > i && v[j - 1] == '\r' {
                    crate::links::sub_chars(v, i, j - 1)
                } else {
                    crate::links::sub_chars(v, i, j)
                };
                out.push(line);
                proof {
                    assert(views_of(out@) =~= pre + seq![line_chunk(v@, i as int, j as int)]);
                    assert(pre + (seq![line_chunk(v@, i as int, j as int)] + lines_from(
                        v@,
                        j + 1,
                    )) =~= views_of(out@) + lines_from(v@, j + 1));
                }
                i = j + 1;
            },
            None => {
                let line = crate::links::sub_chars(v, i, n);
                out.push(line);
                proof {
                    assert(views_of(out@) =~= pre + seq![v@.subrange(i as int, n as int)]);
                    assert(lines_from(v@, n as int) =~= Seq::<Seq<char>>::empty());
                    assert(pre + (seq![v@.subrange(i as int, n as int)] + lines_from(v@, n as int))
                        =~= views_of(out@) + lines_from(v@, n as int));
                }
                i = n;
            },
        }
    }
    proof {
        assert(lines_of(v@) =~= views_of(out@));
    }
    out
}

/// The decimal digit characters, in order.
pub open spec fn digit_char(d: int) -> char {
    seq!['0', '1', '2', '3', '4', '5', '6', '7', '8', '9'][d]
}

/// The decimal rendering of a non-negative integer, most significant digit
/// first, with no leading zeros (a lone zero for 0).
pub open spec fn dec_str(n: int) -> Seq<char>
    decreases n,
{
    if n < 0 {
        seq![]
    } else if n < 10 {
        seq![digit_char(n)]
    } else {
        dec_str(n / 10).push(digit_char(n % 10))
    }
}

pub(crate) fn digit_char_of(d: u64) -> (c: char)
    requires
        d < 10,
    ensures
        c == digit_char(d as int),
{
    match d {
        0 => '0',
        1 => '1',
        2 => '2',
        3 => '3',
        4 => '4',
        5 => '5',
        6 => '6',
        7 => '7',
        8 => '8',
        _ => '9',
    }
}

/// Render an integer in decimal.
pub fn u64_to_string(n: u64) -> (s: String)
    ensures
        s@ == dec_str(n as int),
{
    let mut m: u64 = n;
    let mut digits: Vec<char> = Vec::new();
    assert(dec_str(n as int) =~= dec_str(n as int) + digits@);
    while m >= 10
        invariant
            dec_str(n as int) == dec_str(m as int) + digits@,
        decreases m,
    {
        let d = digit_char_of(m % 10);
        let ghost pre = digits@;
        digits.insert(0, d);
        proof {
            assert(digits@ =~= seq![d] + pre);
            assert(dec_str(m as int) == dec_str(m as int / 10).push(digit_char(m as int % 10)));
            assert(dec_str(m as int / 10).push(d) + pre =~= dec_str(m as int / 10) + (seq![d]
                + pre));
        }
        m = m / 10;
    }
    let d = digit_char_of(m);
    let ghost pre = digits@;
    digits.insert(0, d);
    proof {
        assert(seq![d] =~= dec_str(m as int));
        assert(digits@ =~= dec_str(m as int) + pre);
    }
    string_of(&digits)
}

} // verus!

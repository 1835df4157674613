//! A coarser raw-pad-link detector.
//!
//! This variant first removes every whitespace character from the message,
//! then strips markdown link spans, and finally looks for the fixed pad-link
//! prefix (with the `www.` host form) anywhere in what remains.  Because the
//! whitespace removal runs first, a link broken across spaces or lines is
//! still found; because the stripping runs second, a markdown-wrapped link is
//! not.

use vstd::prelude::*;

use crate::links::{lit_at, strip_md};
use crate::text::{chars_of, is_ws_char, is_ws_char_exec};

verus! {

/// The message with every whitespace character removed.
pub open spec fn remove_ws(s: Seq<char>) -> Seq<char>
    decreases s.len(),
{
    if s.len() == 0 {
        Seq::empty()
    } else if is_ws_char(s[0]) {
        remove_ws(s.drop_first())
    } else {
        seq![s[0]] + remove_ws(s.drop_first())
    }
}

/// Whether the literal occurs somewhere in `s`.
pub open spec fn contains_lit(s: Seq<char>, lit: Seq<char>) -> bool {
    exists|i: int| lit_at(s, i, lit)
}

/// `http://www.uiua.org/pad?src`.
pub open spec fn http_pad_prefix() -> Seq<char> {
    seq!['h', 't', 't', 'p', ':', '/', '/', 'w', 'w', 'w', '.', 'u', 'i', 'u', 'a', '.', 'o', 'r',
        'g', '/', 'p', 'a', 'd', '?', 's', 'r', 'c']
}

/// `https://www.uiua.org/pad?src`.
pub open spec fn https_pad_prefix() -> Seq<char> {
    seq!['h', 't', 't', 'p', 's', ':', '/', '/', 'w', 'w', 'w', '.', 'u', 'i', 'u', 'a', '.', 'o',
        'r', 'g', '/', 'p', 'a', 'd', '?', 's', 'r', 'c']
}

fn remove_ws_chars(v: &Vec<char>) -> (out: Vec<char>)
    ensures
        out@ == remove_ws(v@),
{
    let mut out: Vec<char> = Vec::new();
    let mut i: usize = 0;
    assert(v@.subrange(0, v@.len() as int) =~= v@);
    while i < v.len()
        invariant
            i <= v@.len(),
            remove_ws(v@) == out@ + remove_ws(v@.subrange(i as int, v@.len() as int)),
        decreases v@.len() - i,
    {
        let ghost rest = v@.subrange(i as int, v@.len() as int);
        proof {
            assert(rest.len() > 0);
            assert(rest[0] == v@[i as int]);
            assert(rest.drop_first() =~= v@.subrange(i + 1, v@.len() as int));
        }
        let c = v[i];
        if !is_ws_char_exec(c) {
            let ghost pre = out@;
            out.push(c);
            proof {
                assert(remove_ws(rest) == seq![v@[i as int]] + remove_ws(rest.drop_first()));
                assert(pre + (seq![v@[i as int]] + remove_ws(rest.drop_first())) =~= out@
                    + remove_ws(rest.drop_first()));
            }
        } else {
            proof {
                assert(remove_ws(rest) == remove_ws(rest.drop_first()));
            }
        }
        i = i + 1;
    }
    proof {
        assert(v@.subrange(v@.len() as int, v@.len() as int) =~= Seq::<char>::empty());
        assert(remove_ws(v@) =~= out@);
    }
    out
}

fn contains_chars(v: &Vec<char>, lit: &Vec<char>) -> (r: bool)
    requires
        lit@.len() > 0,
    ensures
        r == contains_lit(v@, lit@),
{
    let n = v.len();
    let mut i: usize = 0;
    while i < n
        invariant
            n == v@.len(),
            i <= n,
            forall|j: int| 0 <= j < i ==> !lit_at(v@, j, lit@),
        decreases n - i,
    {
        if crate::links::match_chars(v, i, lit) {
            return true;
        }
        i = i + 1;
    }
    proof {
        if contains_lit(v@, lit@) {
            let j = choose|j: int| lit_at(v@, j, lit@);
            assert(0 <= j && j + lit@.len() <= v@.len());
            assert(j < n);
            assert(!lit_at(v@, j, lit@));
        }
    }
    false
}

fn http_pad_prefix_chars() -> (v: Vec<char>)
    ensures
        v@ == http_pad_prefix(),
{
    let v = vec!['h', 't', 't', 'p', ':', '/', '/', 'w', 'w', 'w', '.', 'u', 'i', 'u', 'a', '.',
            'o', 'r', 'g', '/', 'p', 'a', 'd', '?', 's', 'r', 'c'];
    proof {
        assert(v@ =~= http_pad_prefix());
    }
    v
}

fn https_pad_prefix_chars() -> (v: Vec<char>)
    ensures
        v@ == https_pad_prefix(),
{
    let v = vec!['h', 't', 't', 'p', 's', ':', '/', '/', 'w', 'w', 'w', '.', 'u', 'i', 'u', 'a',
            '.', 'o', 'r', 'g', '/', 'p', 'a', 'd', '?', 's', 'r', 'c'];
    proof {
        assert(v@ =~= https_pad_prefix());
    }
    v
}

/// Whether the message, with whitespace removed and markdown link spans
/// stripped, still holds the pad-link prefix in either scheme.
pub fn has_raw_pad_link(message: &str) -> (r: bool)
    ensures
        r == (contains_lit(strip_md(remove_ws(message@)), http_pad_prefix()) || contains_lit(
            strip_md(remove_ws(message@)),
            https_pad_prefix(),
        )),
{
    let v = chars_of(message);
    let no_ws = remove_ws_chars(&v);
    let cleaned = crate::links::strip_md_chars(&no_ws);
    let http = http_pad_prefix_chars();
    let https = https_pad_prefix_chars();
    contains_chars(&cleaned, &http) || contains_chars(&cleaned, &https)
}

} // verus!

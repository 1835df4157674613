//! Composition of reply text under the transport's length budget.
//!
//! Replies are measured in UTF-8 bytes against a hard budget.  A run reply
//! carries the highlighted source followed by the result; when that exceeds
//! the budget a shortened variant without the source is tried; when even that
//! is too long, a fixed notice is sent instead.  Program output is wrapped in
//! a code fence, and output that itself contains a code fence is replaced
//! wholesale by a fixed refusal, so no program output can break out of the
//! fence.

use vstd::prelude::*;
use vstd::string::StringExecFns;

use crate::links::lit_at;
use crate::text::{byte_len, utf8_len};

verus! {

/// The largest reply, in UTF-8 bytes, that is sent as-is.
pub const MAX_MSG_LEN: usize = 1850;

/// A sequence of three backticks, the code-fence delimiter.
pub open spec fn triple_ticks() -> Seq<char> {
    seq!['`', '`', '`']
}

/// Whether the text holds a code-fence delimiter anywhere.
pub open spec fn has_triple_ticks(s: Seq<char>) -> bool {
    exists|i: int| lit_at(s, i, triple_ticks())
}

fn triple_ticks_chars() -> (v: Vec<char>)
    ensures
        v@ == triple_ticks(),
{
    let v = vec!['`', '`', '`'];
    proof {
        assert(v@ =~= triple_ticks());
    }
    v
}

/// Whether the text holds a code-fence delimiter anywhere.
pub fn contains_triple_ticks(s: &str) -> (r: bool)
    ensures
        r == has_triple_ticks(s@),
{
    let v = crate::text::chars_of(s);
    let ticks = triple_ticks_chars();
    let n = v.len();
    let mut i: usize = 0;
    while i < n
        invariant
            n == v@.len(),
            v@ == s@,
            ticks@ == triple_ticks(),
            i <= n,
            forall|j: int| 0 <= j < i ==> !lit_at(v@, j, ticks@),
        decreases n - i,
    {
        if crate::links::match_chars(&v, i, &ticks) {
            assert(lit_at(s@, i as int, triple_ticks()));
            return true;
        }
        i = i + 1;
    }
    proof {
        if has_triple_ticks(s@) {
            let j = choose|j: int| lit_at(v@, j, ticks@);
            assert(!lit_at(v@, j, ticks@));
        }
    }
    false
}

/// The refusal that replaces output holding a code-fence delimiter.
pub open spec fn tick_refusal() -> Seq<char> {
    "Output contained triple backticks, which I disallow"@
}

/// Program output wrapped in a code fence.
pub open spec fn fenced(out: Seq<char>) -> Seq<char> {
    "```\n"@ + out + "\n```"@
}

/// Prepare the body of a reply from rendered program output.
///
/// Output holding a code-fence delimiter is replaced by a fixed refusal,
/// whatever surrounds the delimiter.  Otherwise empty output becomes the
/// given marker when there are no attachments either, stays empty when
/// attachments will speak for it, and anything else is wrapped in a code
/// fence.
pub fn prepare_result(output: &str, has_attachments: bool, empty_marker: &str) -> (r: String)
    ensures
        has_triple_ticks(output@) ==> r@ == tick_refusal(),
        !has_triple_ticks(output@) && output@.len() == 0 && !has_attachments ==> r@
            == empty_marker@,
        !has_triple_ticks(output@) && output@.len() == 0 && has_attachments ==> r@
            == Seq::<char>::empty(),
        !has_triple_ticks(output@) && output@.len() != 0 ==> r@ == fenced(output@),
{
    if contains_triple_ticks(output) {
        String::from_str("Output contained triple backticks, which I disallow")
    } else if output.is_empty() && !has_attachments {
        String::from_str(empty_marker)
    } else if output.is_empty() {
        String::new()
    } else {
        let mut t = String::from_str("```\n");
        t.append(output);
        t.append("\n```");
        t
    }
}

/// The notice sent when both reply variants exceed the budget.
pub open spec fn too_long_notice() -> Seq<char> {
    "Attempted to send a message that is way too long"@
}

/// The header of the shortened reply variant.
pub open spec fn shortened_header() -> Seq<char> {
    "<Resulting message is too large, skipping the source>\nReturns:\n"@
}

/// A full run reply: the echoed source, a line break, then the result.
pub open spec fn full_reply(source: Seq<char>, result: Seq<char>) -> Seq<char> {
    source + "\n"@ + result
}

/// A shortened run reply: a note in place of the source, then the result.
pub open spec fn shortened_reply(result: Seq<char>) -> Seq<char> {
    shortened_header() + result
}

/// Whether the full variant is sent: it does not exceed the budget.
pub open spec fn sends_full(source: Seq<char>, result: Seq<char>) -> bool {
    byte_len(full_reply(source, result)) <= MAX_MSG_LEN
}

/// Whether the shortened variant is sent: the full one exceeds the budget
/// and the shortened one does not.
pub open spec fn sends_shortened(source: Seq<char>, result: Seq<char>) -> bool {
    byte_len(full_reply(source, result)) > MAX_MSG_LEN && byte_len(shortened_reply(result))
        <= MAX_MSG_LEN
}

/// Whether only the too-long notice is sent.
pub open spec fn sends_too_long(source: Seq<char>, result: Seq<char>) -> bool {
    !sends_full(source, result) && !sends_shortened(source, result)
}

/// One composed reply: the full text, the shortened text, or the fixed
/// too-long notice.
pub enum ComposedReply {
    Full(String),
    Shortened(String),
    TooLong(String),
}

/// Compose a run reply under the length budget.
///
/// The full variant is sent unless it exceeds the budget; otherwise the
/// shortened variant unless that exceeds it too; otherwise the fixed
/// notice.  No truncated text is ever produced.
pub fn compose_run_message(source: &str, result: &str) -> (r: ComposedReply)
    ensures
        match r {
            ComposedReply::Full(t) => t@ == full_reply(source@, result@) && sends_full(
                source@,
                result@,
            ),
            ComposedReply::Shortened(t) => t@ == shortened_reply(result@) && sends_shortened(
                source@,
                result@,
            ),
            ComposedReply::TooLong(t) => t@ == too_long_notice() && sends_too_long(
                source@,
                result@,
            ),
        },
{
    let mut full = String::from_str(source);
    full.append("\n");
    full.append(result);
    let mut short = String::from_str(
        "<Resulting message is too large, skipping the source>\nReturns:\n",
    );
    short.append(result);
    let f = utf8_len(full.as_str());
    let s = utf8_len(short.as_str());
    let max = MAX_MSG_LEN as u128;
    if f <= max {
        ComposedReply::Full(full)
    } else if s <= max {
        ComposedReply::Shortened(short)
    } else {
        ComposedReply::TooLong(
            String::from_str("Attempted to send a message that is way too long"),
        )
    }
}

/// Exactly one of the three outcomes holds for any source and result: the
/// fallback is total, and never sends more than one variant.
pub proof fn lemma_reply_choice_total(source: Seq<char>, result: Seq<char>)
    ensures
        sends_full(source, result) || sends_shortened(source, result) || sends_too_long(
            source,
            result,
        ),
        !(sends_full(source, result) && sends_shortened(source, result)),
        !(sends_full(source, result) && sends_too_long(source, result)),
        !(sends_shortened(source, result) && sends_too_long(source, result)),
{
}

/// Compose a show reply: the result alone when it fits the budget, else the
/// fixed notice.  The shortened variant does not exist here.
pub fn compose_show_message(result: &str) -> (r: ComposedReply)
    ensures
        match r {
            ComposedReply::Full(t) => t@ == result@ && byte_len(result@) <= MAX_MSG_LEN,
            ComposedReply::Shortened(t) => false,
            ComposedReply::TooLong(t) => t@ == too_long_notice() && byte_len(result@)
                > MAX_MSG_LEN,
        },
{
    if utf8_len(result) > MAX_MSG_LEN as u128 {
        ComposedReply::TooLong(
            String::from_str("Attempted to send a message that is way too long"),
        )
    } else {
        ComposedReply::Full(String::from_str(result))
    }
}

/// Clamp an outgoing reply at the delivery layer: text over the budget is
/// replaced by the fixed notice, never truncated.
pub fn clamp_reply(text: &str) -> (r: String)
    ensures
        byte_len(text@) <= MAX_MSG_LEN ==> r@ == text@,
        byte_len(text@) > MAX_MSG_LEN ==> r@ == too_long_notice(),
{
    if utf8_len(text) > MAX_MSG_LEN as u128 {
        String::from_str("Attempted to send a message that is way too long")
    } else {
        String::from_str(text)
    }
}

} // verus!

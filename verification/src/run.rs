//! Preparing a program for execution.
//!
//! Before a program runs, its input is validated: empty input is rejected,
//! and image attachments above a fixed pixel ceiling, or without known
//! dimensions, are rejected with a message naming the attachment.  Accepted
//! attachments are handed to the program through bindings, one line of
//! preamble each, newest first.

use vstd::prelude::*;
use vstd::string::{StrSliceExecFns, StringExecFns};

use crate::text::{dec_str, u64_to_string};

verus! {

/// The largest pixel count an image attachment may have.
pub const MAX_ATTACHMENT_IMAGE_PIXEL_COUNT: u64 = 4194304;

/// How many final stack values a reply shows at most.
pub const MAX_STACK_VALS_DISPLAYED: usize = 10;

/// The smallest width and height at which an array is shown as an image.
pub const MIN_AUTO_IMAGE_DIM: usize = 30;

/// Whether an array of these dimensions is shown as an image.
pub fn image_dims_ok(width: u64, height: u64) -> (r: bool)
    ensures
        r == (width >= MIN_AUTO_IMAGE_DIM && height >= MIN_AUTO_IMAGE_DIM),
{
    width >= MIN_AUTO_IMAGE_DIM as u64 && height >= MIN_AUTO_IMAGE_DIM as u64
}

/// Whether an array of these dimensions is shown as an animated image: big
/// enough frames, and at least five of them.
pub fn gif_dims_ok(frames: u64, height: u64, width: u64) -> (r: bool)
    ensures
        r == (height >= MIN_AUTO_IMAGE_DIM && width >= MIN_AUTO_IMAGE_DIM && frames >= 5),
{
    height >= MIN_AUTO_IMAGE_DIM as u64 && width >= MIN_AUTO_IMAGE_DIM as u64 && frames >= 5
}

/// Whether a numeric array is long enough along its last axis to be taken
/// for audio: at least a quarter second of samples.
pub fn audio_sample_count_ok(last_dim: u64) -> (r: bool)
    ensures
        r == (last_dim >= 11025),
{
    last_dim >= 11025
}

/// The error for audio of the wrong rank.
pub open spec fn audio_rank_error_text(rank: int) -> Seq<char> {
    "Audio must be a rank 1 or 2 numeric array, but it is rank "@ + dec_str(rank)
}

/// Validate the shape of an array offered as audio: rank one or two, and
/// between a quarter second and a minute of samples along the last axis.
pub fn validate_audio_shape(rank: u64, last_dim: Option<u64>) -> (r: Result<(), String>)
    ensures
        rank > 2 ==> (r matches Err(e) && e@ == audio_rank_error_text(rank as int)),
        rank <= 2 ==> match last_dim {
            Some(n) => if 11025 <= n < 2646000 {
                r is Ok
            } else {
                r matches Err(e) && e@ == "Audio too short or too long"@
            },
            None => (r matches Err(e) && e@ == "Audio too short or too long"@),
        },
{
    if rank > 2 {
        let mut t = String::from_str("Audio must be a rank 1 or 2 numeric array, but it is rank ");
        t.append(u64_to_string(rank).as_str());
        Err(t)
    } else {
        match last_dim {
            Some(n) => if 11025 <= n && n < 2646000 {
                Ok(())
            } else {
                Err(String::from_str("Audio too short or too long"))
            },
            None => Err(String::from_str("Audio too short or too long")),
        }
    }
}

/// Whether an array's rank lets it be read as an image.
pub fn image_rank_ok(rank: u64) -> (r: bool)
    ensures
        r == (rank == 2 || rank == 3),
{
    rank == 2 || rank == 3
}

/// Reject empty program text.
pub fn validate_code(code: &str) -> (r: Result<(), String>)
    ensures
        code@.len() == 0 <==> r is Err,
        r matches Err(e) ==> e@ == "Cannot run empty code"@,
{
    if code.is_empty() {
        Err(String::from_str("Cannot run empty code"))
    } else {
        Ok(())
    }
}

/// The error for an attachment whose pixel count is over the ceiling.
pub open spec fn oversized_attachment_text(i: int, w: int, h: int) -> Seq<char> {
    "Attachment "@ + dec_str(i) + " has (width, height) := ("@ + dec_str(w) + ", "@ + dec_str(h)
        + "), which is too many pixels (maximum is "@ + dec_str(
        MAX_ATTACHMENT_IMAGE_PIXEL_COUNT as int,
    ) + ")"@
}

/// The error for an attachment without known dimensions.
pub open spec fn sizeless_attachment_text(i: int) -> Seq<char> {
    "Attachment "@ + dec_str(i)
        + " did not come with a width or height, and I've only implemented images for now"@
}

/// Validate one image attachment before execution: both dimensions must be
/// known and their product must stay at or under the pixel ceiling.
pub fn validate_attachment_dims(i: u64, w: Option<u32>, h: Option<u32>) -> (r: Result<
    (),
    String,
>)
    ensures
        match (w, h) {
            (Some(wv), Some(hv)) => {
                if wv as int * hv as int > MAX_ATTACHMENT_IMAGE_PIXEL_COUNT as int {
                    r matches Err(e) && e@ == oversized_attachment_text(
                        i as int,
                        wv as int,
                        hv as int,
                    )
                } else {
                    r is Ok
                }
            },
            _ => r matches Err(e) && e@ == sizeless_attachment_text(i as int),
        },
{
    match (w, h) {
        (Some(wv), Some(hv)) => {
            proof {
                assert((wv as u64) * (hv as u64) <= 0xffff_ffffu64 * 0xffff_ffffu64)
                    by (nonlinear_arith)
                    requires
                        wv as u64 <= 0xffff_ffffu64,
                        hv as u64 <= 0xffff_ffffu64,
                {}
            }
            if (wv as u64) * (hv as u64) > MAX_ATTACHMENT_IMAGE_PIXEL_COUNT {
                let mut t = String::from_str("Attachment ");
                t.append(u64_to_string(i).as_str());
                t.append(" has (width, height) := (");
                t.append(u64_to_string(wv as u64).as_str());
                t.append(", ");
                t.append(u64_to_string(hv as u64).as_str());
                t.append("), which is too many pixels (maximum is ");
                t.append(u64_to_string(MAX_ATTACHMENT_IMAGE_PIXEL_COUNT).as_str());
                t.append(")");
                Err(t)
            } else {
                Ok(())
            }
        },
        _ => {
            let mut t = String::from_str("Attachment ");
            t.append(u64_to_string(i).as_str());
            t.append(
                " did not come with a width or height, and I've only implemented images for now",
            );
            Err(t)
        },
    }
}

/// The file name an attachment is stored under.
pub fn attachment_file_name(i: u64) -> (r: String)
    ensures
        r@ == "img"@ + dec_str(i as int),
{
    let mut t = String::from_str("img");
    t.append(u64_to_string(i).as_str());
    t
}

/// The preamble line binding attachment `i`.
pub open spec fn binding_line(i: int) -> Seq<char> {
    "popunimg&frab\"img"@ + dec_str(i) + "\"\n"@
}

/// The preamble for `n` attachments: one binding line each, last attachment
/// first.
pub open spec fn preamble(n: int) -> Seq<char>
    decreases n,
{
    if n <= 0 {
        Seq::empty()
    } else {
        binding_line(n - 1) + preamble(n - 1)
    }
}

/// The full program handed to the interpreter: the attachment preamble,
/// then the code, then a final line break.
pub fn compose_program(code: &str, attachments: u64) -> (r: String)
    ensures
        r@ == preamble(attachments as int) + code@ + "\n"@,
{
    let mut out = String::new();
    let mut k: u64 = attachments;
    proof {
        assert(preamble(attachments as int) =~= out@ + preamble(attachments as int));
    }
    while k > 0
        invariant
            k <= attachments,
            preamble(attachments as int) == out@ + preamble(k as int),
        decreases k,
    {
        let ghost pre = out@;
        out.append("popunimg&frab\"img");
        out.append(u64_to_string(k - 1).as_str());
        out.append("\"\n");
        proof {
            assert(preamble(k as int) == binding_line(k as int - 1) + preamble(k as int - 1));
            assert(pre + (binding_line(k as int - 1) + preamble(k as int - 1)) =~= out@ + preamble(
                k as int - 1,
            ));
        }
        k = k - 1;
    }
    proof {
        assert(preamble(0) =~= Seq::<char>::empty());
        assert(out@ + preamble(0) =~= out@);
    }
    out.append(code);
    out.append("\n");
    out
}

} // verus!

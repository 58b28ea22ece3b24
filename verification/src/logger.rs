//! The layout of a log line.

use vstd::prelude::*;
use vstd::utf8::{decode_utf8, encode_utf8, encode_utf8_decode_utf8, is_char_boundary};

verus! {

/// `n` blanks.
pub open spec fn blanks(n: nat) -> Seq<char> {
    Seq::new(n, |i: int| ' ')
}

/// The target of a log line laid out in a column `ind` bytes wide. Widths are
/// counted in bytes of UTF-8. A target that fits is followed by blanks up to
/// the width; a longer one is cut after `ind - 3` bytes and ends in `...`.
pub open spec fn target_column(target: Seq<char>, ind: int) -> Seq<char> {
    let bytes = encode_utf8(target);
    if bytes.len() > ind {
        decode_utf8(bytes.subrange(0, ind - 3)) + seq!['.', '.', '.']
    } else {
        target + blanks((ind - bytes.len()) as nat)
    }
}

/// Whether `target` can be laid out in a column `ind` bytes wide: it fits, or
/// the column has room for the three dots and the cut falls where a character
/// ends.
pub open spec fn can_lay_out(target: Seq<char>, ind: int) -> bool {
    let bytes = encode_utf8(target);
    bytes.len() <= ind || (ind >= 3 && is_char_boundary(bytes, ind - 3))
}

/// Lays the target of a log line out in a column `ind` bytes wide.
///
/// A target longer than the column can only be cut where a character ends, and
/// the column must have room for the three dots.
pub fn format_target(target: &str, ind: usize) -> (formatted: String)
    requires
        can_lay_out(target@, ind as int),
    ensures
        formatted@ == target_column(target@, ind as int),
{
    let len = target.as_bytes().len();
    if len > ind {
        let (head, _) = target.split_at(ind - 3);
        let mut formatted = String::from_str(head);
        formatted.append("...");
        proof {
            reveal_strlit("...");
            encode_utf8_decode_utf8(head@);
            assert(formatted@ =~= target_column(target@, ind as int));
        }
        formatted
    } else {
        let mut formatted = String::from_str(target);
        let width = ind - len;
        let mut padded: usize = 0;
        while padded < width
            invariant
                padded <= width,
                formatted@ == target@ + blanks(padded as nat),
            decreases width - padded,
        {
            formatted.append(" ");
            padded += 1;
            proof {
                reveal_strlit(" ");
                assert(formatted@ =~= target@ + blanks(padded as nat));
            }
        }
        formatted
    }
}

/// Lays the target of a log line out in a column `ind` bytes wide where that
/// can be done, and gives `None` where it cannot.
pub fn try_format_target(target: &str, ind: usize) -> (formatted: Option<String>)
    ensures
        match formatted {
            Some(text) => can_lay_out(target@, ind as int) && text@ == target_column(
                target@,
                ind as int,
            ),
            None => !can_lay_out(target@, ind as int),
        },
{
    if target.as_bytes().len() <= ind || (ind >= 3 && target.is_char_boundary(ind - 3)) {
        Some(format_target(target, ind))
    } else {
        None
    }
}

} // verus!

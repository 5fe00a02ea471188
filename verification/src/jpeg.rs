//! The dimensions that a JPEG file declares.
use vstd::prelude::*;

verus! {

/// The first index from `i` on at which a byte is not a fill byte.
pub open spec fn past_fill(bytes: Seq<u8>, i: int) -> int
    decreases bytes.len() - i,
{
    if 0 <= i < bytes.len() && bytes[i] == 0xff {
        past_fill(bytes, i + 1)
    } else {
        i
    }
}

/// Two bytes as a number, the high one first.
pub open spec fn two_bytes(bytes: Seq<u8>, i: int) -> nat {
    (bytes[i] * 256 + bytes[i + 1]) as nat
}

/// A marker without a length behind it: a restart or a temporary one.
pub open spec fn is_bare(marker: u8) -> bool {
    marker == 0x01 || 0xd0 <= marker <= 0xd7
}

/// A marker that starts a frame.
pub open spec fn is_frame(marker: u8) -> bool {
    0xc0 <= marker <= 0xcf && marker != 0xc4 && marker != 0xc8 && marker != 0xcc
}

/// The width and the height of the first frame from index `from` on, in a file
/// whose segments up to it are whole.
pub open spec fn frame_from(bytes: Seq<u8>, from: int) -> Option<(nat, nat)>
    decreases bytes.len() - from,
    via frame_from_decreases
{
    let at = past_fill(bytes, from);
    let marker = bytes[at];
    if from < 0 || at >= bytes.len() {
        None
    } else if marker == 0xd9 || marker == 0xda {
        None
    } else if is_bare(marker) {
        frame_from(bytes, at + 1)
    } else if at + 2 >= bytes.len() || two_bytes(bytes, at + 1) < 2 || at + 1 + two_bytes(
        bytes,
        at + 1,
    ) > bytes.len() {
        None
    } else if is_frame(marker) {
        let height = two_bytes(bytes, at + 4);
        let width = two_bytes(bytes, at + 6);
        if two_bytes(bytes, at + 1) >= 7 && width > 0 && height > 0 {
            Some((width, height))
        } else {
            None
        }
    } else {
        frame_from(bytes, at + 1 + two_bytes(bytes, at + 1))
    }
}

#[via_fn]
proof fn frame_from_decreases(bytes: Seq<u8>, from: int) {
    if 0 <= from {
        lemma_past_fill(bytes, from);
    }
}

proof fn lemma_past_fill(bytes: Seq<u8>, i: int)
    requires
        0 <= i,
    ensures
        i <= past_fill(bytes, i),
        i <= bytes.len() ==> past_fill(bytes, i) <= bytes.len(),
    decreases bytes.len() - i,
{
    if i < bytes.len() && bytes[i] == 0xff {
        lemma_past_fill(bytes, i + 1);
    }
}

/// A file between the markers that start and end an image.
pub open spec fn is_whole(bytes: Seq<u8>) -> bool {
    let n = bytes.len() as int;
    n >= 2 && bytes[0] == 0xff && bytes[1] == 0xd8 && bytes[n - 2] == 0xff && bytes[n - 1] == 0xd9
}

/// The width and the height that a JPEG file declares.
pub open spec fn dimensions(bytes: Seq<u8>) -> Option<(nat, nat)> {
    if is_whole(bytes) {
        frame_from(bytes, 2)
    } else {
        None
    }
}

fn number_at(bytes: &[u8], i: usize) -> (n: u32)
    requires
        i + 1 < bytes.len(),
    ensures
        n == two_bytes(bytes@, i as int),
{
    bytes[i] as u32 * 256 + bytes[i + 1] as u32
}

/// The width and the height that a JPEG file declares.
pub fn jpeg_dimensions(bytes: &[u8]) -> (result: Option<(u32, u32)>)
    ensures
        match result {
            Some((width, height)) => dimensions(bytes@) == Some((width as nat, height as nat)),
            None => dimensions(bytes@) is None,
        },
{
    let len: usize = bytes.len();
    if len < 2 || bytes[0] != 0xff || bytes[1] != 0xd8 || bytes[len - 2] != 0xff || bytes[len - 1]
        != 0xd9 {
        return None;
    }
    let mut offset: usize = 2;
    loop
        invariant
            2 <= offset <= len,
            len == bytes.len(),
            is_whole(bytes@),
            frame_from(bytes@, 2) == frame_from(bytes@, offset as int),
        decreases len - offset,
    {
        let ghost from = offset as int;
        let mut at: usize = offset;
        while at < len && bytes[at] == 0xff
            invariant
                offset <= at <= len,
                len == bytes.len(),
                past_fill(bytes@, offset as int) == past_fill(bytes@, at as int),
            decreases len - at,
        {
            at += 1;
        }
        if at >= len {
            return None;
        }
        let marker: u8 = bytes[at];
        if marker == 0xd9 || marker == 0xda {
            return None;
        }
        if marker == 0x01 || (0xd0 <= marker && marker <= 0xd7) {
            offset = at + 1;
            continue;
        }
        if len - at <= 2 {
            return None;
        }
        let length: usize = number_at(bytes, at + 1) as usize;
        if length < 2 || length > len - at - 1 {
            return None;
        }
        if 0xc0 <= marker && marker <= 0xcf && marker != 0xc4 && marker != 0xc8 && marker != 0xcc {
            if length < 7 {
                return None;
            }
            let height: u32 = number_at(bytes, at + 4);
            let width: u32 = number_at(bytes, at + 6);
            return if width > 0 && height > 0 {
                Some((width, height))
            } else {
                None
            };
        }
        offset = at + 1 + length;
    }
}

proof fn lemma_frame_positive(bytes: Seq<u8>, from: int)
    ensures
        frame_from(bytes, from) matches Some((width, height)) ==> 0 < width <= 0xffff && 0 < height
            <= 0xffff,
    decreases bytes.len() - from,
{
    if 0 <= from {
        lemma_past_fill(bytes, from);
        let at = past_fill(bytes, from);
        if at < bytes.len() {
            lemma_frame_positive(bytes, at + 1);
            if at + 2 < bytes.len() && 2 <= two_bytes(bytes, at + 1) <= bytes.len() - at - 1 {
                lemma_frame_positive(bytes, at + 1 + two_bytes(bytes, at + 1));
            }
        }
    }
}

/// Declared dimensions are positive and fit in sixteen bits.
pub proof fn law_dimensions_are_positive(bytes: Seq<u8>)
    ensures
        dimensions(bytes) matches Some((width, height)) ==> 0 < width <= 0xffff && 0 < height
            <= 0xffff,
{
    lemma_frame_positive(bytes, 2);
}

} // verus!

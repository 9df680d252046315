//! The frames of an animated WebP file, as far as their sizes go.
//!
//! Such a file is a row of chunks: a mark of four bytes, the length of the
//! data in four bytes, and the data, padded to an even length. A frame is a
//! chunk of its own that holds other chunks. Where its pixels are not opaque
//! but stored with loss, their opacity comes first and the colours follow,
//! with a size of their own: it has to be that of the frame.

use vstd::prelude::*;

verus! {

/// The number in the two bytes at `p`, the low one first.
pub open spec fn le16(b: Seq<u8>, p: int) -> int {
    b[p] + 0x100 * b[p + 1]
}

/// The number in the three bytes at `p`, the lowest first.
pub open spec fn le24(b: Seq<u8>, p: int) -> int {
    le16(b, p) + 0x1_0000 * b[p + 2]
}

/// The number in the four bytes at `p`, the lowest first.
pub open spec fn le32(b: Seq<u8>, p: int) -> int {
    le24(b, p) + 0x100_0000 * b[p + 3]
}

/// Whether the mark of a frame stands at `p`: `ANMF`.
pub open spec fn frame_mark(b: Seq<u8>, p: int) -> bool {
    b[p] == 0x41 && b[p + 1] == 0x4e && b[p + 2] == 0x4d && b[p + 3] == 0x46
}

/// Whether the mark of opacity stands at `p`: `ALPH`.
pub open spec fn opacity_mark(b: Seq<u8>, p: int) -> bool {
    b[p] == 0x41 && b[p + 1] == 0x4c && b[p + 2] == 0x50 && b[p + 3] == 0x48
}

/// Length of data with its padding; the greatest length has none.
pub open spec fn padded(n: int) -> int {
    if n % 2 == 1 && n < u32::MAX {
        n + 1
    } else {
        n
    }
}

/// Where the first frame is, at `p` or behind.
pub open spec fn frame_from(b: Seq<u8>, p: int) -> Option<int>
    decreases
            if p < b.len() {
                b.len() - p
            } else {
                0
            },
{
    if p < 0 || p + 8 > b.len() {
        None
    } else if frame_mark(b, p) {
        Some(p)
    } else {
        frame_from(b, p + 8 + padded(le32(b, p + 4)))
    }
}

/// Where the first frame is: behind the first chunk, which starts after twelve
/// bytes.
pub open spec fn first_frame(b: Seq<u8>) -> Option<int> {
    if b.len() < 20 {
        None
    } else {
        frame_from(b, 20 + padded(le32(b, 16)))
    }
}

/// Where the colours of a frame are that starts with its opacity.
pub open spec fn colours_at(b: Seq<u8>, p: int) -> int {
    p + 40 + padded(le32(b, p + 28))
}

/// Whether the frame at `p` has the size of its colours, if it starts with its
/// opacity and has any colours.
pub open spec fn frame_agrees(b: Seq<u8>, p: int) -> bool {
    let c = colours_at(b, p);
    p + 32 <= b.len() && opacity_mark(b, p + 24) && c + 10 <= b.len() ==> {
        &&& le16(b, c + 6) % 0x4000 == le24(b, p + 14) + 1
        &&& le16(b, c + 8) % 0x4000 == le24(b, p + 17) + 1
    }
}

/// Whether the frame at `p` and those right behind it have the sizes of their
/// colours. A frame is followed without padding, and none is shorter than 32
/// bytes.
pub open spec fn frames_agree(b: Seq<u8>, p: int) -> bool
    decreases
            if p < b.len() {
                b.len() - p
            } else {
                0
            },
{
    0 <= p && p + 8 <= b.len() && frame_mark(b, p) && le32(b, p + 4) >= 32 ==> frame_agrees(b, p)
        && frames_agree(b, p + 8 + le32(b, p + 4))
}

/// Whether all frames have the sizes of their colours.
pub open spec fn alpha_sizes_agree(b: Seq<u8>) -> bool {
    first_frame(b) matches Some(p) ==> frames_agree(b, p)
}

/// Whether the first frame has the size of its colours.
pub open spec fn first_alpha_size_agrees(b: Seq<u8>) -> bool {
    first_frame(b) matches Some(p) ==> frame_agrees(b, p)
}

fn read_le16(b: &[u8], p: usize) -> (n: u32)
    requires
        p + 2 <= b.len(),
    ensures
        n == le16(b@, p as int),
        n <= 0xffff,
{
    b[p] as u32 + 0x100 * b[p + 1] as u32
}

fn read_le24(b: &[u8], p: usize) -> (n: u32)
    requires
        p + 3 <= b.len(),
    ensures
        n == le24(b@, p as int),
        n <= 0xff_ffff,
{
    read_le16(b, p) + 0x1_0000 * b[p + 2] as u32
}

fn read_le32(b: &[u8], p: usize) -> (n: u64)
    requires
        p + 4 <= b.len(),
    ensures
        n == le32(b@, p as int),
        n <= u32::MAX,
{
    read_le24(b, p) as u64 + 0x100_0000 * b[p + 3] as u64
}

fn has_frame_mark(b: &[u8], p: usize) -> (r: bool)
    requires
        p + 4 <= b.len(),
    ensures
        r == frame_mark(b@, p as int),
{
    b[p] == 0x41 && b[p + 1] == 0x4e && b[p + 2] == 0x4d && b[p + 3] == 0x46
}

fn has_opacity_mark(b: &[u8], p: usize) -> (r: bool)
    requires
        p + 4 <= b.len(),
    ensures
        r == opacity_mark(b@, p as int),
{
    b[p] == 0x41 && b[p + 1] == 0x4c && b[p + 2] == 0x50 && b[p + 3] == 0x48
}

fn with_padding(n: u64) -> (r: u64)
    requires
        n <= u32::MAX,
    ensures
        r == padded(n as int),
        r <= u32::MAX,
{
    if n % 2 == 1 && n < 0xffff_ffff {
        n + 1
    } else {
        n
    }
}

/// Whether `n` more bytes, and `more` behind them, can be had behind `p`.
fn room_for(b: &[u8], p: usize, n: u64, more: u64) -> (r: bool)
    requires
        p <= b.len(),
        n <= 0x1_0000_0000,
        more <= 64,
    ensures
        r == (p + n + more <= b.len()),
{
    n + more <= (b.len() - p) as u64
}

/// Where the first frame is, if there is one.
fn find_first_frame(b: &[u8]) -> (r: Option<usize>)
    ensures
        match r {
            Some(p) => first_frame(b@) == Some(p as int) && p + 8 <= b.len(),
            None => first_frame(b@) is None,
        },
{
    if b.len() < 20 {
        return None;
    }
    let mut step: u64 = with_padding(read_le32(b, 16));
    let mut from: usize = 20;
    loop
        invariant
            from <= b.len(),
            step <= u32::MAX,
            first_frame(b@) == frame_from(b@, from + step),
        decreases b.len() - from,
    {
        if !room_for(b, from, step, 8) {
            return None;
        }
        let p: usize = from + step as usize;
        if has_frame_mark(b, p) {
            return Some(p);
        }
        step = with_padding(read_le32(b, p + 4));
        from = p + 8;
    }
}

/// Whether the frame at `p` has the size of its colours, if it starts with its
/// opacity and has any colours.
fn check_frame(b: &[u8], p: usize) -> (r: bool)
    requires
        p + 8 <= b.len(),
    ensures
        r == frame_agrees(b@, p as int),
{
    if !room_for(b, p, 0, 32) || !has_opacity_mark(b, p + 24) {
        return true;
    }
    let step: u64 = with_padding(read_le32(b, p + 28));
    if !room_for(b, p, step, 50) {
        return true;
    }
    let c: usize = p + 40 + step as usize;
    read_le16(b, c + 6) % 0x4000 == read_le24(b, p + 14) + 1 && read_le16(b, c + 8) % 0x4000
        == read_le24(b, p + 17) + 1
}

/// Whether the first frame of an animated file has the size of its colours.
pub fn first_alpha_frame_agrees(b: &[u8]) -> (r: bool)
    ensures
        r == first_alpha_size_agrees(b@),
{
    match find_first_frame(b) {
        Some(p) => check_frame(b, p),
        None => true,
    }
}

/// Whether all frames of an animated file have the sizes of their colours.
pub fn alpha_frames_agree(b: &[u8]) -> (r: bool)
    ensures
        r == alpha_sizes_agree(b@),
{
    let mut p: usize = match find_first_frame(b) {
        Some(p) => p,
        None => {
            return true;
        },
    };
    loop
        invariant
            p <= b.len(),
            alpha_sizes_agree(b@) == frames_agree(b@, p as int),
        decreases b.len() - p,
    {
        if !room_for(b, p, 0, 8) || !has_frame_mark(b, p) {
            return true;
        }
        let length = read_le32(b, p + 4);
        if length < 32 {
            return true;
        }
        if !check_frame(b, p) {
            return false;
        }
        if !room_for(b, p, length, 8) {
            proof {
                assert(frames_agree(b@, p + 8 + length));
            }
            return true;
        }
        p = p + 8 + length as usize;
    }
}

/// Where chunk `k` behind the header of a WebP file starts: each has a mark and
/// a length of four bytes each, and its content is padded to an even length.
pub open spec fn chunk_at(b: Seq<u8>, k: nat) -> int
    decreases k,
{
    let (from, size) = if k == 0 {
        (20int, 16int)
    } else {
        (chunk_at(b, (k - 1) as nat) + 8, chunk_at(b, (k - 1) as nat) + 4)
    };
    let n = b[size] + 0x100 * b[size + 1] + 0x1_0000 * b[size + 2] + 0x100_0000 * b[size + 3];
    from + n + (if n % 2 == 1 && n < 0xffff_ffff {
        1int
    } else {
        0
    })
}

/// Whether a chunk that starts at `p` is a frame of an animation: its mark is
/// `ANMF`.
pub open spec fn is_frame(b: Seq<u8>, p: int) -> bool {
    b[p] == 65 && b[p + 1] == 78 && b[p + 2] == 77 && b[p + 3] == 70
}

proof fn lemma_frame_from(b: Seq<u8>, k: nat, j: nat)
    requires
        b.len() >= 20,
        j <= k,
        forall|i: nat| j <= i < k ==> chunk_at(b, i) + 8 <= b.len() && !is_frame(b, #[trigger] chunk_at(b, i)),
        chunk_at(b, j) >= 0,
    ensures
        frame_from(b, chunk_at(b, j)) == frame_from(b, chunk_at(b, k)),
        chunk_at(b, k) >= 0,
    decreases k - j,
{
    if j < k {
        let p = chunk_at(b, j);
        assert(p + 8 <= b.len() && !is_frame(b, p));
        assert(chunk_at(b, j + 1) == p + 8 + padded(le32(b, p + 4)));
        lemma_frame_from(b, k, j + 1);
    }
}

/// The first frame of an animation is the first chunk behind the header that is
/// marked as one; a file that ends before there is one has none.
pub proof fn law_the_first_frame_is_found(b: Seq<u8>, k: nat)
    requires
        b.len() >= 20,
        forall|i: nat| i < k ==> chunk_at(b, i) + 8 <= b.len() && !is_frame(b, #[trigger] chunk_at(b, i)),
    ensures
        chunk_at(b, k) + 8 <= b.len() && is_frame(b, chunk_at(b, k)) ==> first_frame(b) == Some(
            chunk_at(b, k),
        ),
        chunk_at(b, k) + 8 > b.len() ==> first_frame(b) is None,
{
    assert(chunk_at(b, 0) == 20 + padded(le32(b, 16)));
    lemma_frame_from(b, k, 0);
}

/// Where the colours of a translucent lossy frame start that stands at `p`:
/// behind its opacities.
pub open spec fn behind_opacities(b: Seq<u8>, p: int) -> int {
    let n = b[p + 28] + 0x100 * b[p + 29] + 0x1_0000 * b[p + 30] + 0x100_0000 * b[p + 31];
    p + 40 + n + (if n % 2 == 1 && n < 0xffff_ffff {
        1int
    } else {
        0
    })
}

/// A frame agrees with its colours unless it holds opacities, marked `ALPH`, and
/// colours of another width or height than it says itself.
pub proof fn law_frames_agree_with_their_colours(b: Seq<u8>, p: int)
    requires
        0 <= p,
    ensures
        ({
            let c = behind_opacities(b, p);
            let holds = p + 32 <= b.len() && b[p + 24] == 65 && b[p + 25] == 76 && b[p + 26] == 80
                && b[p + 27] == 72 && c + 10 <= b.len();
            let width = b[p + 14] + 0x100 * b[p + 15] + 0x1_0000 * b[p + 16] + 1;
            let height = b[p + 17] + 0x100 * b[p + 18] + 0x1_0000 * b[p + 19] + 1;
            frame_agrees(b, p) <==> (holds ==> (b[c + 6] + 0x100 * b[c + 7]) % 0x4000 == width && (
            b[c + 8] + 0x100 * b[c + 9]) % 0x4000 == height)
        }),
{
}

/// The frames of a file agree where each does that stands behind the last one,
/// up to one that is too short to hold anything.
pub proof fn law_all_frames_have_to_agree(b: Seq<u8>, p: int)
    requires
        0 <= p,
        p + 8 <= b.len(),
    ensures
        ({
            let n = b[p + 4] + 0x100 * b[p + 5] + 0x1_0000 * b[p + 6] + 0x100_0000 * b[p + 7];
            &&& is_frame(b, p) && n >= 32 ==> (frames_agree(b, p) <==> frame_agrees(b, p)
                && frames_agree(b, p + 8 + n))
            &&& !is_frame(b, p) || n < 32 ==> frames_agree(b, p)
        }),
        first_frame(b) is None ==> alpha_sizes_agree(b) && first_alpha_size_agrees(b),
        first_frame(b) == Some(p) ==> (alpha_sizes_agree(b) <==> frames_agree(b, p)) && (
        first_alpha_size_agrees(b) <==> frame_agrees(b, p)),
{
}

} // verus!

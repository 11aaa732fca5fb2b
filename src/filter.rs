use vstd::prelude::*;
use crate::error::DistilError;

verus! {

/// Whether the pixel is not fully opaque.
pub fn has_transparency(px: [u8; 4]) -> (r: bool)
    ensures
        r == (px@[3] != 255),
{
    px[3] != 255
}

/// Whether all three colour channels are below `min_black`.
pub fn is_black(px: [u8; 4], min_black: u8) -> (r: bool)
    ensures
        r == (px@[0] < min_black && px@[1] < min_black && px@[2] < min_black),
{
    px[0] < min_black && px[1] < min_black && px[2] < min_black
}

/// Whether all three colour channels are above `max_white`.
pub fn is_white(px: [u8; 4], max_white: u8) -> (r: bool)
    ensures
        r == (px@[0] > max_white && px@[1] > max_white && px@[2] > max_white),
{
    px[0] > max_white && px[1] > max_white && px[2] > max_white
}

/// The `k`-th RGBA pixel of a flat channel buffer.
pub open spec fn pixel_at(data: Seq<u8>, k: int) -> Seq<u8> {
    data.subrange(4 * k, 4 * k + 4)
}

/// An opaque pixel that is neither near black nor near white.
pub open spec fn is_interesting(px: Seq<u8>, min_black: u8, max_white: u8) -> bool {
    &&& px[3] == 255
    &&& !(px[0] < min_black && px[1] < min_black && px[2] < min_black)
    &&& !(px[0] > max_white && px[1] > max_white && px[2] > max_white)
}

/// The channels of the interesting pixels among the first `n`, in scan order.
pub open spec fn interesting_channels(data: Seq<u8>, n: int, min_black: u8, max_white: u8) -> Seq<u8>
    decreases n,
{
    if n <= 0 {
        Seq::empty()
    } else {
        let before = interesting_channels(data, n - 1, min_black, max_white);
        if is_interesting(pixel_at(data, n - 1), min_black, max_white) {
            before + pixel_at(data, n - 1)
        } else {
            before
        }
    }
}

/// A grid none of whose pixels is interesting (all of them translucent,
/// near black or near white) leaves no channel to quantize.
pub proof fn lemma_nothing_interesting(data: Seq<u8>, n: int, min_black: u8, max_white: u8)
    requires
        forall|k: int| 0 <= k < n ==> !is_interesting(#[trigger] pixel_at(data, k), min_black, max_white),
    ensures
        interesting_channels(data, n, min_black, max_white).len() == 0,
    decreases n,
{
    if n > 0 {
        lemma_nothing_interesting(data, n - 1, min_black, max_white);
    }
}

/// Keeps the channels (RGBA) of every interesting pixel of a flat RGBA
/// buffer, in scan order. Fails with `Uninteresting` exactly when no pixel is
/// interesting.
pub fn get_pixels(data: &Vec<u8>, min_black: u8, max_white: u8) -> (r: Result<Vec<u8>, DistilError>)
    requires
        data.len() % 4 == 0,
    ensures
        r is Err <==> forall|k: int|
            0 <= k < data.len() / 4 ==> !is_interesting(#[trigger] pixel_at(data@, k), min_black, max_white),
        r is Err <==> interesting_channels(data@, (data.len() / 4) as int, min_black, max_white).len() == 0,
        r is Err ==> r == Err::<Vec<u8>, DistilError>(DistilError::Uninteresting),
        r is Ok ==> r->Ok_0@ == interesting_channels(data@, (data.len() / 4) as int, min_black, max_white),
{
    let n = data.len() / 4;
    let mut out: Vec<u8> = Vec::new();
    let mut k: usize = 0;
    while k < n
        invariant
            n == data.len() / 4,
            k <= n,
            out@ == interesting_channels(data@, k as int, min_black, max_white),
            out.len() == 0 <==> forall|j: int|
                0 <= j < k ==> !is_interesting(#[trigger] pixel_at(data@, j), min_black, max_white),
        decreases n - k,
    {
        let px: [u8; 4] = [data[4 * k], data[4 * k + 1], data[4 * k + 2], data[4 * k + 3]];
        assert(px@ =~= pixel_at(data@, k as int));
        if !(has_transparency(px) || is_black(px, min_black) || is_white(px, max_white)) {
            out.push(px[0]);
            out.push(px[1]);
            out.push(px[2]);
            out.push(px[3]);
            assert(out@ =~= interesting_channels(data@, k as int, min_black, max_white) + px@);
        }
        k = k + 1;
    }
    if out.len() == 0 {
        return Err(DistilError::Uninteresting);
    }
    Ok(out)
}

} // verus!

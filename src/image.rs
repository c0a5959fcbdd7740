use vstd::prelude::*;

verus! {

/// An RGBA8 image: four bytes per pixel, rows top to bottom.
pub struct ImageData {
    pub data_rgba: Vec<u8>,
    pub width: u32,
    pub height: u32,
}

impl ImageData {
    pub fn new(data_rgba: Vec<u8>, width: u32, height: u32) -> (r: ImageData)
        ensures
            r.data_rgba@ == data_rgba@,
            r.width == width,
            r.height == height,
    {
        ImageData { data_rgba, width, height }
    }
}

/// The RGBA8 form of RGB8 pixels: each complete three-byte pixel followed
/// by an opaque alpha byte; trailing bytes that make no complete pixel are dropped.
pub fn rgb_to_rgba(rgb: &Vec<u8>) -> (r: Vec<u8>)
    requires
        rgb@.len() / 3 * 4 <= usize::MAX,
    ensures
        r@.len() == rgb@.len() / 3 * 4,
        forall|i: int|
            0 <= i < r@.len() ==> #[trigger] r@[i] == if i % 4 == 3 {
                255u8
            } else {
                rgb@[i / 4 * 3 + i % 4]
            },
{
    let pixels = rgb.len() / 3;
    let mut out: Vec<u8> = Vec::new();
    let mut p: usize = 0;
    while p < pixels
        invariant
            pixels == rgb@.len() / 3,
            pixels * 4 <= usize::MAX,
            p <= pixels,
            out@.len() == p * 4,
            forall|i: int|
                0 <= i < out@.len() ==> #[trigger] out@[i] == if i % 4 == 3 {
                    255u8
                } else {
                    rgb@[i / 4 * 3 + i % 4]
                },
        decreases pixels - p,
    {
        assert(p * 3 + 2 < rgb@.len()) by (nonlinear_arith)
            requires
                p < pixels,
                pixels == rgb@.len() / 3,
        ;
        let ghost before = out@;
        out.push(rgb[p * 3]);
        out.push(rgb[p * 3 + 1]);
        out.push(rgb[p * 3 + 2]);
        out.push(255);
        proof {
            assert forall|i: int| 0 <= i < out@.len() implies #[trigger] out@[i] == if i % 4 == 3 {
                255u8
            } else {
                rgb@[i / 4 * 3 + i % 4]
            } by {
                if i >= p * 4 {
                    let j = i - p * 4;
                    assert(i / 4 == p && i % 4 == j) by (nonlinear_arith)
                        requires
                            i == p * 4 + j,
                            0 <= j < 4,
                    ;
                } else {
                    assert(out@[i] == before[i]);
                }
            }
        }
        p += 1;
    }
    out
}

impl Default for ImageData {
    fn default() -> (r: ImageData)
        ensures
            r.data_rgba@.len() == 0,
            r.width == 0,
            r.height == 0,
    {
        ImageData { data_rgba: Vec::new(), width: 0, height: 0 }
    }
}

} // verus!

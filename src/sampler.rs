use vstd::prelude::*;

verus! {

/// A grid of RGBA pixels stored row by row, four bytes per pixel.
pub struct PixelGrid {
    pub width: u32,
    pub height: u32,
    pub data: Vec<u8>,
}

impl PixelGrid {
    /// The buffer holds exactly one RGBA quadruple per pixel.
    pub open spec fn wf(&self) -> bool {
        self.data.len() == 4 * (self.width as int) * (self.height as int)
    }

    /// A grid over `data`, or `None` when its length is not four bytes per
    /// pixel.
    pub fn new(width: u32, height: u32, data: Vec<u8>) -> (r: Option<PixelGrid>)
        ensures
            r is Some <==> data.len() == 4 * (width as int) * (height as int),
            r is Some ==> r->Some_0.wf() && r->Some_0.width == width && r->Some_0.height == height
                && r->Some_0.data@ == data@,
    {
        let w: u128 = width as u128;
        let h: u128 = height as u128;
        assert(4 * w * h <= 4 * 0xffff_ffff * 0xffff_ffff) by (nonlinear_arith)
            requires
                w <= 0xffff_ffff,
                h <= 0xffff_ffff,
        ;
        let expected: u128 = 4 * w * h;
        if data.len() as u128 == expected {
            Some(PixelGrid { width, height, data })
        } else {
            None
        }
    }
}

/// `s` is the whole square root of `w * max / h`: the widest width whose
/// square, scaled by the aspect ratio, stays within the budget.
pub open spec fn is_width_root(s: int, w: int, h: int, max: int) -> bool {
    &&& s >= 0
    &&& s * s * h <= w * max
    &&& w * max < (s + 1) * (s + 1) * h
}

pub open spec fn clamp(v: int, lo: int, hi: int) -> int {
    if v > hi {
        hi
    } else if v < lo {
        lo
    } else {
        v
    }
}

/// The dimensions an image is downscaled to: unchanged when within the
/// budget, else the width from the whole square root of `w * max / h` and
/// the height that keeps the aspect ratio, both at least one and at most
/// `max`.
pub open spec fn scaled_dims(w: u32, h: u32, max: u32) -> (u32, u32) {
    if (w as int) * (h as int) <= max {
        (w, h)
    } else {
        let s = choose|s: int| is_width_root(s, w as int, h as int, max as int);
        let sw = clamp(s, 1, max as int);
        let sh = clamp((h as int) * sw / (w as int), 1, max as int);
        (sw as u32, sh as u32)
    }
}

proof fn lemma_width_root_unique(s: int, t: int, w: int, h: int, max: int)
    requires
        is_width_root(s, w, h, max),
        is_width_root(t, w, h, max),
        h >= 1,
    ensures
        s == t,
{
    if s < t {
        assert((s + 1) * (s + 1) * h <= t * t * h) by (nonlinear_arith)
            requires
                0 <= s + 1 <= t,
                h >= 1,
        ;
    } else if t < s {
        assert((t + 1) * (t + 1) * h <= s * s * h) by (nonlinear_arith)
            requires
                0 <= t + 1 <= s,
                h >= 1,
        ;
    }
}

/// Target dimensions for sampling a `width` x `height` image with a budget
/// of `max` pixels.
pub fn scaled_dimensions(width: u32, height: u32, max: u32) -> (r: (u32, u32))
    ensures
        r == scaled_dims(width, height, max),
        (width as int) * (height as int) > max && max >= 1 ==> 1 <= r.0 <= width && 1 <= r.1 <= height
            && (r.0 as int) * (r.1 as int) <= max,
{
    let w: u128 = width as u128;
    let h: u128 = height as u128;
    let m: u128 = max as u128;
    assert(w * h <= 0xffff_ffff_ffff_ffff) by (nonlinear_arith)
        requires
            w <= 0xffff_ffff,
            h <= 0xffff_ffff,
    ;
    if w * h <= m {
        return (width, height);
    }
    assert(w * m <= 0xffff_ffff_ffff_ffff) by (nonlinear_arith)
        requires
            w <= 0xffff_ffff,
            m <= 0xffff_ffff,
    ;
    let target: u128 = w * m;
    let mut s: u128 = 0;
    assert(h >= 1 && w >= 1) by (nonlinear_arith)
        requires
            w * h > m,
            m >= 0,
    ;
    assert(s * s * h == 0) by (nonlinear_arith)
        requires
            s == 0,
    ;
    loop
        invariant
            s * s * h <= target,
            s < w,
            w * h > m,
            h >= 1,
            target == w * m,
            w <= 0xffff_ffff,
            h <= 0xffff_ffff,
        ensures
            s * s * h <= target,
            target < (s + 1) * (s + 1) * h,
            s < w,
        decreases w - s,
    {
        assert((s + 1) * (s + 1) <= 0x1_0000_0000 * 0x1_0000_0000) by (nonlinear_arith)
            requires
                s + 1 <= 0x1_0000_0000,
        ;
        assert((s + 1) * (s + 1) * h <= 0x1_0000_0000 * 0x1_0000_0000 * 0xffff_ffff) by (nonlinear_arith)
            requires
                s + 1 <= 0x1_0000_0000,
                h <= 0xffff_ffff,
        ;
        let next: u128 = (s + 1) * (s + 1) * h;
        if next > target {
            break;
        }
        assert(s + 1 < w) by (nonlinear_arith)
            requires
                (s + 1) * (s + 1) * h <= w * m,
                w * h > m,
                h >= 1,
                s >= 0,
        ;
        s = s + 1;
    }
    assert(is_width_root(s as int, w as int, h as int, m as int));
    let sw: u128 = if s > m {
        m
    } else if s < 1 {
        1
    } else {
        s
    };
    assert(h * sw <= 0xffff_ffff * 0xffff_ffff) by (nonlinear_arith)
        requires
            h <= 0xffff_ffff,
            sw <= 0xffff_ffff,
    ;
    let q: u128 = h * sw / w;
    let sh: u128 = if q > m {
        m
    } else if q < 1 {
        1
    } else {
        q
    };
    proof {
        let c = choose|c: int| is_width_root(c, w as int, h as int, m as int);
        lemma_width_root_unique(s as int, c, w as int, h as int, m as int);
        assert(sh <= h || m == 0) by (nonlinear_arith)
            requires
                sw <= w,
                q as int == (h as int) * (sw as int) / (w as int),
                sh == if q > m { m } else if q < 1 { 1 } else { q },
                h >= 1,
                w >= 1,
        ;
        assert(clamp(s as int, 1, m as int) == sw);
        assert(clamp(q as int, 1, m as int) == sh);
        if m >= 1 {
            assert(sw * sh <= m) by (nonlinear_arith)
                requires
                    sw >= 1,
                    sw <= m,
                    m >= 1,
                    s >= 1 ==> sw <= s,
                    s == 0 ==> sw == 1,
                    s * s * h <= w * m,
                    q as int == (h as int) * (sw as int) / (w as int),
                    sh == if q > m { m } else if q < 1 { 1 } else { q },
                    h >= 1,
                    w >= 1,
            ;
        }
    }
    (sw as u32, sh as u32)
}

/// The pixels of an RGBA grid resampled to new dimensions with a Gaussian
/// filter.
pub uninterp spec fn gaussian_resized(data: Seq<u8>, w: u32, h: u32, nw: u32, nh: u32) -> Seq<u8>;

/// Relies on `image::imageops::resize` with `FilterType::Gaussian`: it
/// returns an image of exactly the requested dimensions, whose pixels depend
/// on the source pixels and the dimensions alone. `RgbaImage::from_raw`
/// succeeds because the buffer holds four bytes per pixel.
#[verifier::external_body]
fn resize_gaussian(data: &Vec<u8>, w: u32, h: u32, nw: u32, nh: u32) -> (r: Vec<u8>)
    requires
        data.len() == 4 * (w as int) * (h as int),
        w >= 1,
        h >= 1,
        nw >= 1,
        nh >= 1,
        4 * (nw as int) * (nh as int) <= usize::MAX,
    ensures
        r.len() == 4 * (nw as int) * (nh as int),
        r@ == gaussian_resized(data@, w, h, nw, nh),
{
    let img = image::RgbaImage::from_raw(w, h, data.clone()).unwrap();
    image::imageops::resize(&img, nw, nh, image::imageops::FilterType::Gaussian).into_raw()
}

/// The grid that sampling with a budget of `max` pixels produces.
pub open spec fn sampled(data: Seq<u8>, w: u32, h: u32, max: u32) -> Seq<u8> {
    let (nw, nh) = scaled_dims(w, h, max);
    if (w as int) * (h as int) <= max {
        data
    } else {
        gaussian_resized(data, w, h, nw, nh)
    }
}

impl PixelGrid {
    /// Downscales the grid, keeping its aspect ratio, so that it holds at
    /// most `max` pixels; a grid already within the budget is kept as is.
    pub fn sample(self, max: u32) -> (r: PixelGrid)
        requires
            self.wf(),
            max >= 1,
        ensures
            r.wf(),
            (r.width, r.height) == scaled_dims(self.width, self.height, max),
            r.data@ == sampled(self.data@, self.width, self.height, max),
            (r.width as int) * (r.height as int) <= max || (self.width as int) * (self.height as int)
                <= max,
    {
        let (nw, nh) = scaled_dimensions(self.width, self.height, max);
        assert((self.width as int) * (self.height as int) <= 0xffff_ffff * 0xffff_ffff) by (nonlinear_arith)
            requires
                self.width <= 0xffff_ffff,
                self.height <= 0xffff_ffff,
        ;
        if (self.width as u128) * (self.height as u128) <= max as u128 {
            return self;
        }
        assert(4 * (nw as int) * (nh as int) <= self.data.len()) by (nonlinear_arith)
            requires
                (nw as int) * (nh as int) <= max,
                (self.width as int) * (self.height as int) > max,
                self.data.len() == 4 * (self.width as int) * (self.height as int),
        ;
        let data = resize_gaussian(&self.data, self.width, self.height, nw, nh);
        PixelGrid { width: nw, height: nh, data }
    }
}

} // verus!

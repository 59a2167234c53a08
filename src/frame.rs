use vstd::prelude::*;

verus! {

/// A raw RGBA image: four interleaved bytes per pixel, rows packed with no padding.
#[derive(Clone)]
pub struct VideoFrame {
    pub width: u32,
    pub height: u32,
    pub data: Vec<u8>,
    pub pts_ms: u64,
}

impl VideoFrame {
    /// Bytes per row of this frame.
    pub open spec fn spec_stride(&self) -> int {
        self.width as int * 4
    }

    /// The buffer holds exactly `stride * height` bytes, and a row's length fits in `usize`.
    pub open spec fn wf(&self) -> bool {
        &&& self.spec_stride() <= usize::MAX
        &&& self.data@.len() == self.spec_stride() * self.height as int
    }

    /// A black, fully transparent frame with timestamp zero.
    pub fn new(width: u32, height: u32) -> (r: Self)
        requires
            width as int * height as int * 4 <= usize::MAX,
            width as int * 4 <= usize::MAX,
        ensures
            r.wf(),
            r.width == width,
            r.height == height,
            r.pts_ms == 0,
            forall|i: int| 0 <= i < r.data@.len() ==> r.data@[i] == 0u8,
    {
        let size: usize = (width as usize) * (height as usize) * 4;
        proof {
            assert(size as int == width as int * 4 * height as int) by (nonlinear_arith)
                requires
                    size as int == width as int * height as int * 4,
            ;
        }
        let data: Vec<u8> = vec![0u8; size];
        VideoFrame { width, height, data, pts_ms: 0 }
    }

    /// Bytes per row: four per pixel.
    pub fn stride(&self) -> (r: usize)
        requires
            self.wf(),
        ensures
            r as int == self.spec_stride(),
    {
        self.width as usize * 4
    }
}


/// A container duration in microseconds as whole milliseconds; 0 when unknown
/// (zero or negative).
pub fn duration_to_ms(duration_us: i64) -> (r: u64)
    ensures
        r == (if duration_us > 0 {
            (duration_us / 1000) as u64
        } else {
            0
        }),
{
    if duration_us > 0 {
        (duration_us / 1000) as u64
    } else {
        0
    }
}

/// What a search for the frame shown at a given time does with the next decoded frame.
#[derive(Clone, Copy, Debug, PartialEq, Eq, Structural)]
pub struct FramePick {
    /// Keep this frame as the best so far.
    pub take: bool,
    /// The frame kept reaches the target time: stop decoding.
    pub done: bool,
}

/// The first frame is always kept, later ones while they do not pass the target; the
/// search ends once the kept frame's timestamp reaches the target.
pub open spec fn frame_pick(kept_pts: Option<u64>, pts_ms: u64, time_ms: u64) -> FramePick {
    let take = kept_pts is None || pts_ms <= time_ms;
    let now_kept = if take { pts_ms } else { kept_pts->0 };
    FramePick { take, done: now_kept >= time_ms }
}

/// Decides, for a search for the frame at `time_ms`, whether the decoded frame at
/// `pts_ms` replaces the one kept so far (at `kept_pts`, if any) and whether to stop.
pub fn pick_frame(kept_pts: Option<u64>, pts_ms: u64, time_ms: u64) -> (r: FramePick)
    ensures
        r == frame_pick(kept_pts, pts_ms, time_ms),
{
    let take = match kept_pts {
        None => true,
        Some(_) => pts_ms <= time_ms,
    };
    let now_kept = match kept_pts {
        Some(k) if !take => k,
        _ => pts_ms,
    };
    FramePick { take, done: now_kept >= time_ms }
}

/// Rows of `copy` bytes, `stride` apart, `rows` of them, fit in `len` bytes.
pub open spec fn rows_fit(len: int, stride: int, copy: int, rows: int) -> bool {
    rows == 0 || (rows - 1) * stride + copy <= len
}

/// Byte `i` of a plane with rows `stride` apart lies in the first `copy` bytes of one
/// of its first `rows` rows.
pub open spec fn plane_copied(i: int, stride: int, copy: int, rows: int) -> bool {
    stride > 0 && i / stride < rows && i % stride < copy
}

pub open spec fn min(a: int, b: int) -> int {
    if a <= b {
        a
    } else {
        b
    }
}

proof fn lemma_row_bounds(y: int, x: int, stride: int, copy: int, rows: int, len: int)
    requires
        0 <= y < rows,
        0 <= x < copy,
        0 <= stride,
        rows_fit(len, stride, copy, rows),
    ensures
        0 <= y * stride + x < len,
        y * stride <= (rows - 1) * stride,
{
    assert(y * stride <= (rows - 1) * stride) by (nonlinear_arith)
        requires
            0 <= y < rows,
            0 <= stride,
    ;
    assert(0 <= y * stride) by (nonlinear_arith)
        requires
            0 <= y,
            0 <= stride,
    ;
}

proof fn lemma_row_start(y: int, stride: int, copy: int, rows: int, len: int)
    requires
        0 <= y < rows,
        0 <= stride,
        0 <= copy,
        rows_fit(len, stride, copy, rows),
    ensures
        0 <= y * stride,
        y * stride + copy <= len,
{
    assert(0 <= y * stride <= (rows - 1) * stride) by (nonlinear_arith)
        requires
            0 <= y < rows,
            0 <= stride,
    ;
}

proof fn lemma_full_rows(stride: int, rows: int)
    requires
        0 <= stride,
        0 <= rows,
    ensures
        rows_fit(stride * rows, stride, stride, rows),
{
    assert(rows == 0 || (rows - 1) * stride + stride == stride * rows) by (nonlinear_arith);
}

/// Milliseconds of a timestamp counted in units of `num / den` seconds, truncated;
/// negative times give 0 and times past the `u64` range give its maximum.
pub open spec fn pts_ms_value(pts: i64, num: i32, den: i32) -> u64 {
    let v = pts * num * 1000;
    if den == 0 {
        if v > 0 { u64::MAX } else { 0 }
    } else if v == 0 || (v > 0) != (den > 0) {
        0
    } else {
        let q = (if v > 0 { v } else { -v }) / (if den > 0 { den as int } else { -den });
        if q > u64::MAX { u64::MAX } else { q as u64 }
    }
}

/// Converts a stream timestamp to milliseconds through the stream's time base `num / den`.
pub fn pts_to_ms(pts: i64, num: i32, den: i32) -> (r: u64)
    ensures
        r == pts_ms_value(pts, num, den),
{
    assert(pts as int * num as int * 1000 <= 0x8000_0000_0000_0000_0000_0000_0000 && pts as int
        * num as int * 1000 >= -0x8000_0000_0000_0000_0000_0000_0000) by (nonlinear_arith)
        requires
            -0x8000_0000_0000_0000 <= pts <= 0x7fff_ffff_ffff_ffff,
            -0x8000_0000 <= num <= 0x7fff_ffff,
    ;
    let v: i128 = pts as i128 * num as i128 * 1000;
    if den == 0 {
        if v > 0 { u64::MAX } else { 0 }
    } else if v == 0 || (v > 0) != (den > 0) {
        0
    } else {
        let a: u128 = if v > 0 { v as u128 } else { (-v) as u128 };
        let d: u128 = if den > 0 { den as u128 } else { (-(den as i64)) as u128 };
        let q = a / d;
        if q > u64::MAX as u128 { u64::MAX } else { q as u64 }
    }
}

impl VideoFrame {
    /// A frame of `width` by `height` built from decoded RGBA rows that lie `src_stride`
    /// bytes apart. Each row copies as many bytes as both row lengths allow; bytes past
    /// that stay zero.
    pub fn from_rgba_plane(width: u32, height: u32, pts_ms: u64, src: &[u8], src_stride: usize) -> (r: Self)
        requires
            width as int * height as int * 4 <= usize::MAX,
            width as int * 4 <= usize::MAX,
            rows_fit(src@.len() as int, src_stride as int, min(width * 4, src_stride as int), height as int),
        ensures
            r.wf(),
            r.width == width,
            r.height == height,
            r.pts_ms == pts_ms,
            forall|y: int, x: int| 0 <= y < height && 0 <= x < width * 4 ==>
                #[trigger] r.data@[y * (width * 4) + x] == if x < src_stride {
                    src@[y * src_stride + x]
                } else {
                    0u8
                },
    {
        let mut f = VideoFrame::new(width, height);
        f.pts_ms = pts_ms;
        let ds = f.stride();
        let copy = if ds < src_stride { ds } else { src_stride };
        let h = height as usize;
        let dlen = f.data.len();
        let slen = src.len();
        let mut y: usize = 0;
        proof {
            lemma_full_rows(ds as int, h as int);
            assert forall|yy: int, x: int| 0 <= yy < height && 0 <= x < width * 4 implies
                #[trigger] f.data@[yy * (width * 4) + x] == 0u8 by {
                lemma_row_bounds(yy, x, ds as int, ds as int, h as int, f.data@.len() as int);
            }
        }
        while y < h
            invariant
                f.wf(),
                f.width == width,
                f.height == height,
                f.pts_ms == pts_ms,
                h == height,
                ds == width * 4,
                copy == min(ds as int, src_stride as int),
                rows_fit(src@.len() as int, src_stride as int, copy as int, height as int),
                dlen == f.data@.len(),
                slen == src@.len(),
                y <= h,
                forall|yy: int, x: int| 0 <= yy < height && 0 <= x < width * 4 ==>
                    #[trigger] f.data@[yy * (width * 4) + x] == if yy < y && x < src_stride {
                        src@[yy * src_stride + x]
                    } else {
                        0u8
                    },
            decreases h - y,
        {
            proof {
                lemma_full_rows(ds as int, h as int);
                lemma_row_start(y as int, ds as int, ds as int, h as int, f.data@.len() as int);
                lemma_row_start(y as int, src_stride as int, copy as int, h as int, src@.len() as int);
            }
            let ds_start = y * ds;
            let ss_start = y * src_stride;
            let mut x: usize = 0;
            while x < copy
                invariant
                    f.wf(),
                    f.width == width,
                    f.height == height,
                    f.pts_ms == pts_ms,
                    h == height,
                    ds == width * 4,
                    copy == min(ds as int, src_stride as int),
                    rows_fit(src@.len() as int, src_stride as int, copy as int, height as int),
                    dlen == f.data@.len(),
                    slen == src@.len(),
                    y < h,
                    ds_start == y * ds,
                    ss_start == y * src_stride,
                    x <= copy,
                    forall|yy: int, xx: int| 0 <= yy < height && 0 <= xx < width * 4 ==>
                        #[trigger] f.data@[yy * (width * 4) + xx] == if (yy < y && xx < src_stride)
                            || (yy == y && xx < x) {
                            src@[yy * src_stride + xx]
                        } else {
                            0u8
                        },
                decreases copy - x,
            {
                proof {
                    lemma_full_rows(ds as int, h as int);
                    lemma_row_bounds(y as int, x as int, src_stride as int, copy as int, height as int, src@.len() as int);
                    lemma_row_bounds(y as int, x as int, ds as int, ds as int, height as int, f.data@.len() as int);
                }
                let b = src[ss_start + x];
                let ghost before = f.data@;
                f.data.set(ds_start + x, b);
                proof {
                    assert forall|yy: int, xx: int| 0 <= yy < height && 0 <= xx < width * 4 implies
                        #[trigger] f.data@[yy * (width * 4) + xx] == if (yy < y && xx < src_stride)
                            || (yy == y && xx < x + 1) {
                            src@[yy * src_stride + xx]
                        } else {
                            0u8
                        } by {
                        lemma_row_bounds(yy, xx, ds as int, ds as int, h as int, f.data@.len() as int);
                        if yy * (width * 4) + xx != y * ds + x {
                            assert(f.data@[yy * (width * 4) + xx] == before[yy * (width * 4) + xx]);
                            if yy == y && xx == x {
                                assert(false);
                            }
                        }
                        if yy * (width * 4) + xx == y * ds + x {
                            assert(yy == y && xx == x) by (nonlinear_arith)
                                requires
                                    yy * (width * 4) + xx == y * (width * 4) + x,
                                    0 <= xx < width * 4,
                                    0 <= x < width * 4,
                                    0 <= yy,
                                    0 <= y,
                            ;
                        }
                    }
                }
                x = x + 1;
            }
            y = y + 1;
        }
        f
    }

    /// Writes the rows of this frame into a plane whose rows lie `dst_stride` bytes
    /// apart, each row as many bytes as both row lengths allow; other bytes are kept.
    pub fn copy_into_plane(&self, dst: &mut [u8], dst_stride: usize)
        requires
            self.wf(),
            rows_fit(old(dst)@.len() as int, dst_stride as int, min(self.spec_stride(), dst_stride as int), self.height as int),
        ensures
            final(dst)@.len() == old(dst)@.len(),
            forall|i: int| 0 <= i < final(dst)@.len() ==> #[trigger] final(dst)@[i] == if plane_copied(
                i,
                dst_stride as int,
                min(self.spec_stride(), dst_stride as int),
                self.height as int,
            ) {
                self.data@[(i / dst_stride as int) * self.spec_stride() + i % (dst_stride as int)]
            } else {
                old(dst)@[i]
            },
    {
        let ss = self.stride();
        let copy = if ss < dst_stride { ss } else { dst_stride };
        let h = self.height as usize;
        let ghost d0 = dst@;
        let ghost ds = dst_stride as int;
        let dlen = dst.len();
        let slen = self.data.len();
        let mut y: usize = 0;
        while y < h
            invariant
                self.wf(),
                ss == self.spec_stride(),
                h == self.height,
                copy == min(ss as int, dst_stride as int),
                dst@.len() == d0.len(),
                dlen == d0.len(),
                slen == self.data@.len(),
                ds == dst_stride,
                rows_fit(d0.len() as int, dst_stride as int, copy as int, h as int),
                y <= h,
                forall|i: int| 0 <= i < dst@.len() ==> #[trigger] dst@[i] == if plane_copied(i, ds, copy as int, y as int) {
                    self.data@[(i / ds) * ss + i % ds]
                } else {
                    d0[i]
                },
            decreases h - y,
        {
            proof {
                lemma_full_rows(ss as int, h as int);
                lemma_row_start(y as int, ss as int, ss as int, h as int, self.data@.len() as int);
                lemma_row_start(y as int, dst_stride as int, copy as int, h as int, d0.len() as int);
            }
            let ds_start = y * dst_stride;
            let ss_start = y * ss;
            let mut x: usize = 0;
            while x < copy
                invariant
                    self.wf(),
                    ss == self.spec_stride(),
                    h == self.height,
                    copy == min(ss as int, dst_stride as int),
                    dst@.len() == d0.len(),
                    dlen == d0.len(),
                    slen == self.data@.len(),
                    ds == dst_stride,
                    rows_fit(d0.len() as int, dst_stride as int, copy as int, h as int),
                    y < h,
                    x <= copy,
                    ds_start == y * dst_stride,
                    ss_start == y * ss,
                    forall|i: int| 0 <= i < dst@.len() ==> #[trigger] dst@[i] == if plane_copied(i, ds, copy as int, y as int)
                        || (ds > 0 && i / ds == y && i % ds < x) {
                        self.data@[(i / ds) * ss + i % ds]
                    } else {
                        d0[i]
                    },
                decreases copy - x,
            {
                proof {
                    lemma_full_rows(ss as int, h as int);
                    lemma_row_bounds(y as int, x as int, dst_stride as int, copy as int, h as int, d0.len() as int);
                    lemma_row_bounds(y as int, x as int, ss as int, ss as int, h as int, self.data@.len() as int);
                    vstd::arithmetic::div_mod::lemma_fundamental_div_mod_converse(
                        (y * dst_stride + x) as int, ds, y as int, x as int);
                }
                let b = self.data[ss_start + x];
                let ghost before = dst@;
                dst[ds_start + x] = b;
                proof {
                    assert forall|i: int| 0 <= i < dst@.len() implies #[trigger] dst@[i] == if plane_copied(i, ds, copy as int, y as int)
                        || (ds > 0 && i / ds == y && i % ds < x + 1) {
                        self.data@[(i / ds) * ss + i % ds]
                    } else {
                        d0[i]
                    } by {
                        if i != ds_start + x {
                            assert(dst@[i] == before[i]);
                            if ds > 0 && i / ds == y && i % ds == x {
                                vstd::arithmetic::div_mod::lemma_fundamental_div_mod(i, ds);
                                assert(i == ds * y + x);
                                assert(false) by (nonlinear_arith)
                                    requires i == ds * y + x, i != y * ds + x;
                            }
                        }
                    }
                }
                x = x + 1;
            }
            proof {
                assert forall|i: int| 0 <= i < dst@.len() implies #[trigger] dst@[i] == if plane_copied(i, ds, copy as int, y + 1) {
                    self.data@[(i / ds) * ss + i % ds]
                } else {
                    d0[i]
                } by {
                    assert(plane_copied(i, ds, copy as int, y + 1) == (plane_copied(i, ds, copy as int, y as int)
                        || (ds > 0 && i / ds == y && i % ds < copy)));
                }
            }
            y = y + 1;
        }
    }
}

} // verus!

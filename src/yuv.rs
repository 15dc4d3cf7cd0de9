use vstd::prelude::*;

verus! {

/// A value clamped into the range of a byte.
pub open spec fn clamp_byte(v: int) -> u8 {
    if v < 0 {
        0
    } else if v > 255 {
        255
    } else {
        v as u8
    }
}

/// Luma of a pixel; the division rounds down, as an arithmetic shift does.
pub open spec fn luma(r: int, g: int, b: int) -> u8 {
    clamp_byte((77 * r + 150 * g + 29 * b + 128) / 256)
}

/// Blue-difference chroma of a pixel.
pub open spec fn chroma_u(r: int, g: int, b: int) -> u8 {
    clamp_byte((-43 * r - 84 * g + 127 * b + 128) / 256 + 128)
}

/// Red-difference chroma of a pixel.
pub open spec fn chroma_v(r: int, g: int, b: int) -> u8 {
    clamp_byte((127 * r - 106 * g - 21 * b + 128) / 256 + 128)
}

/// Index of the first byte of pixel `(px, py)` in a BGRA image `total_width` wide.
pub open spec fn bgra_index(total_width: int, px: int, py: int) -> int {
    (py * total_width + px) * 4
}

/// Index of pixel `(w, h)` in a plane `width` wide.
pub open spec fn plane_index(width: int, w: int, h: int) -> int {
    h * width + w
}

pub open spec fn blue_at(data: Seq<u8>, total_width: int, px: int, py: int) -> int {
    data[bgra_index(total_width, px, py)] as int
}

pub open spec fn green_at(data: Seq<u8>, total_width: int, px: int, py: int) -> int {
    data[bgra_index(total_width, px, py) + 1] as int
}

pub open spec fn red_at(data: Seq<u8>, total_width: int, px: int, py: int) -> int {
    data[bgra_index(total_width, px, py) + 2] as int
}

pub open spec fn luma_at(data: Seq<u8>, total_width: int, px: int, py: int) -> u8 {
    luma(
        red_at(data, total_width, px, py),
        green_at(data, total_width, px, py),
        blue_at(data, total_width, px, py),
    )
}

pub open spec fn chroma_u_at(data: Seq<u8>, total_width: int, px: int, py: int) -> u8 {
    chroma_u(
        red_at(data, total_width, px, py),
        green_at(data, total_width, px, py),
        blue_at(data, total_width, px, py),
    )
}

pub open spec fn chroma_v_at(data: Seq<u8>, total_width: int, px: int, py: int) -> u8 {
    chroma_v(
        red_at(data, total_width, px, py),
        green_at(data, total_width, px, py),
        blue_at(data, total_width, px, py),
    )
}

/// `yuv` is the I420 frame of the region `(x, y, width, height)` of the BGRA
/// image `data`, which is `total_width` pixels wide.
pub open spec fn is_i420_of(
    yuv: Seq<u8>,
    data: Seq<u8>,
    total_width: int,
    x: int,
    y: int,
    width: int,
    height: int,
) -> bool {
    &&& forall|w: int, h: int|
        0 <= w < width && 0 <= h < height ==> yuv[#[trigger] plane_index(width, w, h)]
            == luma_at(data, total_width, x + w, y + h)
    &&& forall|w: int, h: int|
        0 <= w < width / 2 && 0 <= h < height / 2 ==> yuv[width * height
            + #[trigger] plane_index(width / 2, w, h)] == chroma_u_at(
            data,
            total_width,
            x + 2 * w,
            y + 2 * h,
        )
    &&& forall|w: int, h: int|
        0 <= w < width / 2 && 0 <= h < height / 2 ==> yuv[width * height + width * height / 4
            + #[trigger] plane_index(width / 2, w, h)] == chroma_v_at(
            data,
            total_width,
            x + 2 * w,
            y + 2 * h,
        )
}

proof fn lemma_row_before(width: int, w: int, hh: int, h: int)
    requires
        0 <= w < width,
        0 <= hh < h,
    ensures
        0 <= plane_index(width, w, hh) < h * width,
{
    assert(hh * width + w < h * width) by (nonlinear_arith)
        requires
            0 <= w < width,
            0 <= hh < h,
    ;
    assert(0 <= hh * width) by (nonlinear_arith)
        requires
            0 <= hh,
            0 <= width,
    ;
}

/// Converts one row of the region: its luma bytes, and on even rows the
/// chroma bytes of its even pixels.
fn convert_row(
    data: &[u8],
    total_width: u32,
    x: u32,
    y: u32,
    width: u32,
    h: u32,
    pixel_start: usize,
    row_start: usize,
    u_start: usize,
    v_start: usize,
    yuv: &mut [u8],
)
    requires
        width % 2 == 0,
        x + width <= total_width,
        pixel_start == bgra_index(total_width as int, x as int, (y + h) as int),
        pixel_start + width * 4 <= data@.len(),
        row_start + width <= old(yuv)@.len(),
        h % 2 == 0 ==> u_start + width / 2 <= old(yuv)@.len(),
        h % 2 == 0 ==> v_start + width / 2 <= old(yuv)@.len(),
        h % 2 == 0 ==> row_start + width <= u_start,
        h % 2 == 0 ==> u_start + width / 2 <= v_start,
    ensures
        final(yuv)@.len() == old(yuv)@.len(),
        forall|w: int|
            0 <= w < width ==> final(yuv)@[row_start + w] == #[trigger] luma_at(
                data@,
                total_width as int,
                x + w,
                y + h,
            ),
        h % 2 == 0 ==> forall|w: int|
            0 <= w < width / 2 ==> final(yuv)@[u_start + w] == #[trigger] chroma_u_at(
                data@,
                total_width as int,
                x + 2 * w,
                y + h,
            ),
        h % 2 == 0 ==> forall|w: int|
            0 <= w < width / 2 ==> final(yuv)@[v_start + w] == #[trigger] chroma_v_at(
                data@,
                total_width as int,
                x + 2 * w,
                y + h,
            ),
        forall|j: int|
            0 <= j < old(yuv)@.len() && !(row_start <= j < row_start + width) && !(h % 2 == 0
                && u_start <= j < u_start + width / 2) && !(h % 2 == 0 && v_start <= j < v_start
                + width / 2) ==> #[trigger] final(yuv)@[j] == old(yuv)@[j],
{
    let data_len = data.len();
    let yuv_len = yuv.len();
    let mut w: u32 = 0;
    while w < width
        invariant
            0 <= w <= width,
            data_len == data@.len(),
            yuv_len == yuv@.len(),
            x + width <= total_width,
            pixel_start == bgra_index(total_width as int, x as int, (y + h) as int),
            pixel_start + width * 4 <= data@.len(),
            row_start + width <= old(yuv)@.len(),
            yuv@.len() == old(yuv)@.len(),
            forall|ww: int|
                0 <= ww < w ==> yuv@[row_start + ww] == #[trigger] luma_at(
                    data@,
                    total_width as int,
                    x + ww,
                    y + h,
                ),
            forall|j: int|
                0 <= j < old(yuv)@.len() && !(row_start <= j < row_start + w) ==> #[trigger] yuv@[j]
                    == old(yuv)@[j],
        decreases width - w,
    {
        let di: usize = pixel_start + w as usize * 4;
        proof {
            lemma_pixel_offset(total_width as int, x as int, (y + h) as int, w as int);
        }
        let (l, _, _) = pixel_to_yuv(data, di);
        let ghost start = yuv@;
        yuv[row_start + w as usize] = l;
        proof {
            let wi = w as int;
            assert(yuv@ == start.update(row_start + wi, l));
            assert forall|ww: int| 0 <= ww < wi + 1 implies yuv@[row_start + ww] == #[trigger] luma_at(
                data@,
                total_width as int,
                x + ww,
                y + h,
            ) by {
                if ww < wi {
                    assert(yuv@[row_start + ww] == start[row_start + ww]);
                }
            }
        }
        w += 1;
    }
    if h % 2 == 0 {
        let ghost after_luma = yuv@;
        let half: usize = width as usize / 2;
        let mut c: usize = 0;
        while c < half
            invariant
                0 <= c <= half,
                half == width / 2,
                h % 2 == 0,
                data_len == data@.len(),
                yuv_len == yuv@.len(),
                x + width <= total_width,
                pixel_start == bgra_index(total_width as int, x as int, (y + h) as int),
                pixel_start + width * 4 <= data@.len(),
                u_start + half <= old(yuv)@.len(),
                v_start + half <= old(yuv)@.len(),
                row_start + width <= u_start,
                u_start + half <= v_start,
                yuv@.len() == old(yuv)@.len(),
                forall|cw: int|
                    0 <= cw < c ==> yuv@[u_start + cw] == #[trigger] chroma_u_at(
                        data@,
                        total_width as int,
                        x + 2 * cw,
                        y + h,
                    ),
                forall|cw: int|
                    0 <= cw < c ==> yuv@[v_start + cw] == #[trigger] chroma_v_at(
                        data@,
                        total_width as int,
                        x + 2 * cw,
                        y + h,
                    ),
                forall|j: int|
                    0 <= j < old(yuv)@.len() && !(u_start <= j < u_start + c) && !(v_start <= j
                        < v_start + c) ==> #[trigger] yuv@[j] == after_luma[j],
            decreases half - c,
        {
            let di: usize = pixel_start + c * 8;
            proof {
                lemma_pixel_offset(total_width as int, x as int, (y + h) as int, 2 * c as int);
            }
            let (_, u, v) = pixel_to_yuv(data, di);
            let ghost start = yuv@;
            yuv[u_start + c] = u;
            yuv[v_start + c] = v;
            proof {
                let ci = c as int;
                assert(yuv@ == start.update(u_start + ci, u).update(v_start + ci, v));
                assert forall|cw: int| 0 <= cw < ci + 1 implies yuv@[u_start + cw]
                    == #[trigger] chroma_u_at(data@, total_width as int, x + 2 * cw, y + h) by {
                    if cw < ci {
                        assert(yuv@[u_start + cw] == start[u_start + cw]);
                    }
                }
                assert forall|cw: int| 0 <= cw < ci + 1 implies yuv@[v_start + cw]
                    == #[trigger] chroma_v_at(data@, total_width as int, x + 2 * cw, y + h) by {
                    if cw < ci {
                        assert(yuv@[v_start + cw] == start[v_start + cw]);
                    }
                }
            }
            c += 1;
        }
    }
}

/// Converts the region `(x, y, width, height)` of a BGRA image into an I420
/// frame: a full-size luma plane, then quarter-size blue- and red-difference
/// planes sampled at the even pixels.
pub fn bgra_to_yuv420(
    data: &[u8],
    total_width: u32,
    total_height: u32,
    x: u32,
    y: u32,
    width: u32,
    height: u32,
    yuv: &mut [u8],
)
    requires
        data@.len() == total_width * total_height * 4,
        x + width <= total_width,
        y + height <= total_height,
        width % 2 == 0,
        height % 2 == 0,
        old(yuv)@.len() == width * height * 3 / 2,
    ensures
        final(yuv)@.len() == old(yuv)@.len(),
        is_i420_of(
            final(yuv)@,
            data@,
            total_width as int,
            x as int,
            y as int,
            width as int,
            height as int,
        ),
{
    let data_len = data.len();
    let yuv_len = yuv.len();
    let ghost wi = width as int;
    let ghost hi = height as int;
    proof {
        assert(wi * hi == (wi / 2) * (hi / 2) * 4) by (nonlinear_arith)
            requires
                wi % 2 == 0,
                hi % 2 == 0,
        ;
        assert(wi * hi <= total_width * total_height) by (nonlinear_arith)
            requires
                0 <= wi <= total_width,
                0 <= hi <= total_height,
        ;
    }
    let frame_size: usize = width as usize * height as usize;
    let chroma_size: usize = frame_size / 4;
    let u_offset: usize = frame_size;
    let v_offset: usize = frame_size + chroma_size;
    let half_width: usize = width as usize / 2;

    let mut row_start: usize = 0;
    let mut uv_start: usize = 0;
    assert(((0int + 1) / 2) * half_width == 0);
    let mut h: u32 = 0;
    while h < height
        invariant
            0 <= h <= height,
            data@.len() == total_width * total_height * 4,
            data_len == data@.len(),
            yuv_len == yuv@.len(),
            x + width <= total_width,
            y + height <= total_height,
            width % 2 == 0,
            height % 2 == 0,
            yuv@.len() == width * height * 3 / 2,
            frame_size == width * height,
            frame_size == (width / 2) * (height / 2) * 4,
            chroma_size == frame_size / 4,
            u_offset == frame_size,
            v_offset == frame_size + chroma_size,
            half_width == width / 2,
            row_start == h * width,
            uv_start == ((h + 1) / 2) * half_width,
            forall|w: int, hh: int|
                0 <= w < width && 0 <= hh < h ==> yuv@[#[trigger] plane_index(
                    width as int,
                    w,
                    hh,
                )] == luma_at(data@, total_width as int, x + w, y + hh),
            forall|w: int, hh: int|
                0 <= w < half_width && 0 <= hh < (h + 1) / 2 ==> yuv@[u_offset
                    + #[trigger] plane_index(half_width as int, w, hh)] == chroma_u_at(
                    data@,
                    total_width as int,
                    x + 2 * w,
                    y + 2 * hh,
                ),
            forall|w: int, hh: int|
                0 <= w < half_width && 0 <= hh < (h + 1) / 2 ==> yuv@[v_offset
                    + #[trigger] plane_index(half_width as int, w, hh)] == chroma_v_at(
                    data@,
                    total_width as int,
                    x + 2 * w,
                    y + 2 * hh,
                ),
        decreases height - h,
    {
        let ghost before = yuv@;
        proof {
            assert((h + 1) * width <= height * width) by (nonlinear_arith)
                requires
                    h < height,
                    0 <= width,
            ;
            assert(h * width + width == (h + 1) * width) by (nonlinear_arith);
            assert(((y + h) * total_width + x) * 4 + width * 4 <= total_width * total_height * 4)
                by (nonlinear_arith)
                requires
                    y + h < total_height,
                    x + width <= total_width,
            ;
            if h % 2 == 0 {
                assert(((h + 1) / 2) * half_width + half_width <= (height / 2) * half_width)
                    by (nonlinear_arith)
                    requires
                        h % 2 == 0,
                        h < height,
                        height % 2 == 0,
                        0 <= half_width,
                ;
            }
            assert(((h + 1) / 2) * half_width <= (height / 2) * half_width) by (nonlinear_arith)
                requires
                    h < height,
                    height % 2 == 0,
                    0 <= half_width,
            ;
            assert((height / 2) * half_width == chroma_size) by (nonlinear_arith)
                requires
                    frame_size == (half_width) * (height / 2) * 4,
                    chroma_size == frame_size / 4,
            ;
        }
        let pixel_start: usize = ((y as usize + h as usize) * total_width as usize
            + x as usize) * 4;
        convert_row(
            data,
            total_width,
            x,
            y,
            width,
            h,
            pixel_start,
            row_start,
            u_offset + uv_start,
            v_offset + uv_start,
            yuv,
        );
        proof {
            assert forall|w: int, hh: int|
                0 <= w < width && 0 <= hh <= h implies yuv@[#[trigger] plane_index(
                width as int,
                w,
                hh,
            )] == luma_at(data@, total_width as int, x + w, y + hh) by {
                if hh < h {
                    lemma_row_before(width as int, w, hh, h as int);
                    assert(yuv@[plane_index(width as int, w, hh)] == before[plane_index(
                        width as int,
                        w,
                        hh,
                    )]);
                } else {
                    assert(plane_index(width as int, w, hh) == row_start + w);
                }
            }
            assert forall|w: int, hh: int|
                0 <= w < half_width && 0 <= hh < (h + 2) / 2 implies yuv@[u_offset
                + #[trigger] plane_index(half_width as int, w, hh)] == chroma_u_at(
                data@,
                total_width as int,
                x + 2 * w,
                y + 2 * hh,
            ) && yuv@[v_offset + plane_index(half_width as int, w, hh)] == chroma_v_at(
                data@,
                total_width as int,
                x + 2 * w,
                y + 2 * hh,
            ) by {
                if hh < (h + 1) / 2 {
                    lemma_row_before(half_width as int, w, hh, (h as int + 1) / 2);
                    lemma_plane_index_nonneg(half_width as int, w, hh);
                    assert(yuv@[u_offset + plane_index(half_width as int, w, hh)] == before[u_offset
                        + plane_index(half_width as int, w, hh)]);
                    assert(yuv@[v_offset + plane_index(half_width as int, w, hh)] == before[v_offset
                        + plane_index(half_width as int, w, hh)]);
                } else {
                    assert(h % 2 == 0 && hh == h / 2);
                    assert(plane_index(half_width as int, w, hh) == uv_start + w);
                    assert(2 * hh == h);
                }
            }
        }
        row_start = row_start + width as usize;
        if h % 2 == 0 {
            uv_start = uv_start + half_width;
        }
        h += 1;
        proof {
            assert(row_start == h * width) by (nonlinear_arith)
                requires
                    row_start == (h - 1) * width + width,
            ;
            assert(uv_start == ((h + 1) / 2) * half_width) by (nonlinear_arith)
                requires
                    (h - 1) % 2 == 0 ==> uv_start == (h / 2) * half_width + half_width,
                    (h - 1) % 2 != 0 ==> uv_start == (h / 2) * half_width,
                    h >= 1,
            ;
        }
    }
}

proof fn lemma_plane_index_nonneg(width: int, w: int, h: int)
    requires
        0 <= w,
        0 <= h,
        0 <= width,
    ensures
        0 <= plane_index(width, w, h),
{
    assert(0 <= h * width) by (nonlinear_arith)
        requires
            0 <= h,
            0 <= width,
    ;
}

/// The luma and chroma bytes of the BGRA pixel at `di`.
fn pixel_to_yuv(data: &[u8], di: usize) -> (r: (u8, u8, u8))
    requires
        di + 3 <= data@.len(),
    ensures
        r.0 == luma(data@[di + 2] as int, data@[di + 1] as int, data@[di as int] as int),
        r.1 == chroma_u(data@[di + 2] as int, data@[di + 1] as int, data@[di as int] as int),
        r.2 == chroma_v(data@[di + 2] as int, data@[di + 1] as int, data@[di as int] as int),
{
    let b = data[di] as i32;
    let g = data[di + 1] as i32;
    let r = data[di + 2] as i32;
    let luma_value: i32 = (77 * r + 150 * g + 29 * b + 128) / 256;
    // shifting the chroma sums up by 128 * 256 keeps them non-negative, so the
    // division rounds down and the offset of 128 is already in
    let u: i32 = (-43 * r - 84 * g + 127 * b + 128 + 32768) / 256;
    let v: i32 = (127 * r - 106 * g - 21 * b + 128 + 32768) / 256;
    assert(u == (-43 * r - 84 * g + 127 * b + 128) / 256 + 128);
    assert(v == (127 * r - 106 * g - 21 * b + 128) / 256 + 128);
    (clamp_to_byte(luma_value), clamp_to_byte(u), clamp_to_byte(v))
}

proof fn lemma_pixel_offset(total_width: int, x: int, row: int, w: int)
    ensures
        bgra_index(total_width, x, row) + w * 4 == bgra_index(total_width, x + w, row),
{
    assert((row * total_width + x) * 4 + w * 4 == (row * total_width + (x + w)) * 4)
        by (nonlinear_arith);
}

fn clamp_to_byte(v: i32) -> (r: u8)
    ensures
        r == clamp_byte(v as int),
{
    if v < 0 {
        0
    } else if v > 255 {
        255
    } else {
        v as u8
    }
}

} // verus!

use vstd::prelude::*;

use crate::display::{
    CANVAS_HEIGHT, CANVAS_WIDTH, Display, DisplayKind, Displays, kind_of_tag, kind_tag,
};
use crate::frames::DisplayFrames;
use crate::yuv::{bgra_to_yuv420, is_i420_of};

verus! {

/// Why a capture-link connection is dropped.
#[derive(Debug, Clone, Copy, PartialEq, Eq, Structural)]
pub enum LinkError {
    /// A frame named a kind tag that no display has.
    UnknownKind(u8),
    /// A frame's length is not the size of an I420 frame of its display.
    FrameSize { kind: DisplayKind, len: u32 },
}

/// What to do with the bytes of a frame once they are read.
#[derive(Debug, Clone, Copy, PartialEq, Eq, Structural)]
pub enum FrameDisposition {
    /// Store them in the registry.
    Store,
    /// The layout has no such display: read and drop them.
    Discard,
}

/// The big-endian `u32` of four bytes.
pub open spec fn be_u32(b0: u8, b1: u8, b2: u8, b3: u8) -> u32 {
    ((b0 as u32) << 24u32) | ((b1 as u32) << 16u32) | ((b2 as u32) << 8u32) | (b3 as u32)
}

/// The four big-endian bytes of a `u32`.
pub open spec fn be_bytes(n: u32) -> Seq<u8> {
    seq![(n >> 24u32) as u8, (n >> 16u32) as u8, (n >> 8u32) as u8, n as u8]
}

/// Reads a big-endian `u32` from the first four bytes.
pub fn read_u32_be(bytes: &[u8]) -> (r: u32)
    requires
        bytes@.len() >= 4,
    ensures
        r == be_u32(bytes@[0], bytes@[1], bytes@[2], bytes@[3]),
{
    ((bytes[0] as u32) << 24u32) | ((bytes[1] as u32) << 16u32) | ((bytes[2] as u32) << 8u32)
        | (bytes[3] as u32)
}

/// Appends the four big-endian bytes of a `u32`.
pub fn write_u32_be(out: &mut Vec<u8>, n: u32)
    ensures
        final(out)@ == old(out)@ + be_bytes(n),
{
    out.push((n >> 24u32) as u8);
    out.push((n >> 16u32) as u8);
    out.push((n >> 8u32) as u8);
    out.push(n as u8);
    assert(final(out)@ =~= old(out)@ + be_bytes(n));
}

/// Writing a `u32` and reading it back gives the same number.
pub proof fn lemma_u32_be_round_trip(n: u32)
    ensures
        be_u32(be_bytes(n)[0], be_bytes(n)[1], be_bytes(n)[2], be_bytes(n)[3]) == n,
{
    let b = be_bytes(n);
    assert(b[0] == (n >> 24u32) as u8);
    assert(b[1] == (n >> 16u32) as u8);
    assert(b[2] == (n >> 8u32) as u8);
    assert(b[3] == n as u8);
    assert((((((n >> 24u32) as u8) as u32) << 24u32) | ((((n >> 16u32) as u8) as u32) << 16u32) | (
    (((n >> 8u32) as u8) as u32) << 8u32) | ((n as u8) as u32)) == n) by (bit_vector);
}

/// The downlink announcement of a layout: the length of its JSON text as a
/// big-endian `u32`, then the text.
pub fn encode_layout_announcement(json: &[u8]) -> (r: Vec<u8>)
    requires
        json@.len() <= u32::MAX,
    ensures
        r@ == be_bytes(json@.len() as u32) + json@,
{
    let mut out: Vec<u8> = Vec::new();
    write_u32_be(&mut out, json.len() as u32);
    let mut i: usize = 0;
    while i < json.len()
        invariant
            0 <= i <= json@.len(),
            out@ == be_bytes(json@.len() as u32) + json@.take(i as int),
        decreases json@.len() - i,
    {
        out.push(json[i]);
        assert(json@.take(i + 1) == json@.take(i as int).push(json@[i as int]));
        i += 1;
    }
    assert(json@.take(json@.len() as int) == json@);
    out
}

/// The header of one frame of an uplink batch: the kind tag, then the length
/// as a big-endian `u32`. A tag that is no kind's ends the connection.
pub fn parse_frame_header(header: &[u8]) -> (r: Result<(DisplayKind, u32), LinkError>)
    requires
        header@.len() == 5,
    ensures
        kind_of_tag(header@[0]) is None <==> r is Err,
        r is Err ==> r == Err::<(DisplayKind, u32), LinkError>(
            LinkError::UnknownKind(header@[0]),
        ),
        r is Ok ==> r == Ok::<(DisplayKind, u32), LinkError>(
            (kind_of_tag(header@[0]).unwrap(), be_u32(header@[1], header@[2], header@[3], header@[4])),
        ),
{
    match DisplayKind::from_u8(header[0]) {
        Some(kind) => {
            let len = read_u32_be(&header[1..5]);
            Ok((kind, len))
        },
        None => Err(LinkError::UnknownKind(header[0])),
    }
}

/// A frame header reads back as the kind and length it was written from.
pub proof fn lemma_frame_header_round_trip(kind: DisplayKind, len: u32)
    ensures
        ({
            let h = seq![kind_tag(kind)] + be_bytes(len);
            &&& h.len() == 5
            &&& kind_of_tag(h[0]) == Some(kind)
            &&& be_u32(h[1], h[2], h[3], h[4]) == len
        }),
{
    let h = seq![kind_tag(kind)] + be_bytes(len);
    let b = be_bytes(len);
    assert(h[1] == b[0] && h[2] == b[1] && h[3] == b[2] && h[4] == b[3]);
    lemma_u32_be_round_trip(len);
    crate::display::lemma_kind_tag_round_trip(kind, 0);
}

/// The header of one frame of an uplink batch.
pub fn encode_frame_header(kind: DisplayKind, len: u32) -> (r: Vec<u8>)
    ensures
        r@ == seq![kind_tag(kind)] + be_bytes(len),
{
    let mut out: Vec<u8> = Vec::new();
    out.push(kind.as_u8());
    write_u32_be(&mut out, len);
    assert(out@ =~= seq![kind_tag(kind)] + be_bytes(len));
    out
}

/// Decides on a frame of the uplink: a kind the registry has must come with
/// exactly the bytes of one I420 frame of its display, and is stored; any
/// other length ends the connection. A kind the layout does not have is
/// dropped. The registry is not changed.
pub fn frame_disposition<F>(frames: &DisplayFrames<F>, kind: DisplayKind, len: u32) -> (r: Result<
    FrameDisposition,
    LinkError,
>)
    requires
        frames.wf(),
    ensures
        frames.slot(kind) is None ==> r == Ok::<FrameDisposition, LinkError>(
            FrameDisposition::Discard,
        ),
        frames.slot(kind) is Some ==> {
            let d = frames.slot(kind).unwrap().display;
            &&& (len == d.spec_yuv_len() ==> r == Ok::<FrameDisposition, LinkError>(
                FrameDisposition::Store,
            ))
            &&& (len != d.spec_yuv_len() ==> r == Err::<FrameDisposition, LinkError>(
                LinkError::FrameSize { kind, len },
            ))
        },
{
    match frames.receiver(&kind) {
        Some(receiver) => {
            let d: &Display = receiver.display();
            let w = d.width as u128;
            let h = d.height as u128;
            assert(w * h * 3 <= 0xffff_ffff * 0xffff_ffff * 3) by (nonlinear_arith)
                requires
                    w <= 0xffff_ffff,
                    h <= 0xffff_ffff,
            ;
            if len as u128 == w * h * 3 / 2 {
                Ok(FrameDisposition::Store)
            } else {
                Err(LinkError::FrameSize { kind, len })
            }
        },
        None => Ok(FrameDisposition::Discard),
    }
}

/// Number of bytes of a BGRA image of the whole canvas.
pub const CANVAS_BYTES: usize = 1920 * 1080 * 4;

/// One frame of an uplink batch: its header, then the I420 frame of its
/// display cut from the canvas image `data`.
pub open spec fn frame_part(part: Seq<u8>, data: Seq<u8>, kind: DisplayKind, d: Display) -> bool {
    &&& part.len() == 5 + d.spec_yuv_len()
    &&& part.take(5) == seq![kind_tag(kind)] + be_bytes(d.spec_yuv_len() as u32)
    &&& is_i420_of(
        part.skip(5),
        data,
        CANVAS_WIDTH as int,
        d.x as int,
        d.y as int,
        d.width as int,
        d.height as int,
    )
}

/// The uplink batch for a canvas image: the number of displays, then for
/// each display of the layout its frame header and its I420 frame.
pub fn encode_frame_batch(data: &[u8], layout: &Displays) -> (r: Vec<u8>)
    requires
        data@.len() == CANVAS_BYTES,
        layout.is_valid(),
    ensures
        exists|kinds: Seq<DisplayKind>, parts: Seq<Seq<u8>>|
            {
                &&& kinds.to_set() == layout.view().dom()
                &&& kinds.no_duplicates()
                &&& parts.len() == kinds.len()
                &&& r@ == seq![kinds.len() as u8] + parts.flatten()
                &&& forall|i: int|
                    0 <= i < kinds.len() ==> frame_part(
                        #[trigger] parts[i],
                        data@,
                        kinds[i],
                        layout.view()[kinds[i]],
                    )
            },
{
    let kinds = layout.keys();
    assert(kinds@.len() <= 3) by {
        kinds@.unique_seq_to_set();
        assert(layout.view().dom().subset_of(set![DisplayKind::LeftMfcd, DisplayKind::RightMfcd, DisplayKind::CenterMfd]));
        vstd::set_lib::lemma_len_subset(layout.view().dom(), set![DisplayKind::LeftMfcd, DisplayKind::RightMfcd, DisplayKind::CenterMfd]);
    }
    let mut out: Vec<u8> = Vec::new();
    out.push(kinds.len() as u8);
    let ghost mut parts: Seq<Seq<u8>> = Seq::empty();
    let mut i: usize = 0;
    while i < kinds.len()
        invariant
            0 <= i <= kinds@.len(),
            kinds@.len() <= 3,
            kinds@.to_set() == layout.view().dom(),
            data@.len() == CANVAS_BYTES,
            layout.is_valid(),
            parts.len() == i,
            out@ == seq![kinds@.len() as u8] + parts.flatten(),
            forall|j: int|
                0 <= j < i ==> frame_part(
                    #[trigger] parts[j],
                    data@,
                    kinds@[j],
                    layout.view()[kinds@[j]],
                ),
        decreases kinds@.len() - i,
    {
        let kind = kinds[i];
        assert(kinds@.to_set().contains(kind));
        let d = layout.get(kind).unwrap();
        assert(d == layout.view()[kind]);
        assert(d.is_valid());
        let len = d.yuv_len();
        assert(len <= 1920 * 1080 * 3 / 2) by (nonlinear_arith)
            requires
                len == d.width * d.height * 3 / 2,
                d.width <= 1920,
                d.height <= 1080,
        ;
        let mut part = encode_frame_header(kind, len as u32);
        let mut yuv: Vec<u8> = vec![0u8; len as usize];
        bgra_to_yuv420(
            data,
            CANVAS_WIDTH,
            CANVAS_HEIGHT,
            d.x,
            d.y,
            d.width,
            d.height,
            yuv.as_mut_slice(),
        );
        let ghost frame = yuv@;
        part.append(&mut yuv);
        proof {
            assert(part@.take(5) =~= seq![kind_tag(kind)] + be_bytes(len as u32));
            assert(part@.skip(5) =~= frame);
            parts.lemma_flatten_push(part@);
            parts = parts.push(part@);
        }
        out.append(&mut part);
        i += 1;
    }
    out
}

} // verus!

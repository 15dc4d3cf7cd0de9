use tcd_server::capture::{
    encode_frame_batch, CANVAS_BYTES, encode_frame_header, encode_layout_announcement, frame_disposition, parse_frame_header,
    read_u32_be, FrameDisposition, LinkError,
};
use tcd_server::display::{Display, DisplayKind, Displays};
use tcd_server::frames::{DisplayFrames, FramePoll};
use tcd_server::latest::{Latest, LatestReader};
use tcd_server::yuv::bgra_to_yuv420;

fn two_mfcds() -> Displays {
    Displays::default()
}

#[test]
fn kind_tags_round_trip() {
    for kind in [DisplayKind::LeftMfcd, DisplayKind::RightMfcd, DisplayKind::CenterMfd] {
        assert_eq!(DisplayKind::from_u8(kind.as_u8()), Some(kind));
    }
    assert_eq!(DisplayKind::LeftMfcd.as_u8(), 5);
    assert_eq!(DisplayKind::RightMfcd.as_u8(), 10);
    assert_eq!(DisplayKind::CenterMfd.as_u8(), 15);
    for other in [0u8, 1, 4, 6, 9, 11, 14, 16, 255] {
        assert_eq!(DisplayKind::from_u8(other), None);
    }
}

#[test]
fn default_layout_has_two_mfcds() {
    let d = Displays::default();
    assert_eq!(d.get(DisplayKind::LeftMfcd), Some(Display { x: 0, y: 0, width: 640, height: 640 }));
    assert_eq!(d.get(DisplayKind::RightMfcd), Some(Display { x: 640, y: 0, width: 640, height: 640 }));
    assert_eq!(d.get(DisplayKind::CenterMfd), None);
    assert_eq!(d.keys(), vec![DisplayKind::LeftMfcd, DisplayKind::RightMfcd]);
    assert_eq!(Display { x: 0, y: 0, width: 640, height: 640 }.yuv_len(), 614_400);
}

#[test]
fn geometry_validity() {
    assert!(Display { x: 0, y: 0, width: 640, height: 640 }.is_valid_geometry());
    assert!(Display { x: 1280, y: 440, width: 640, height: 640 }.is_valid_geometry());
    assert!(!Display { x: 1281, y: 0, width: 640, height: 640 }.is_valid_geometry());
    assert!(!Display { x: 0, y: 0, width: 641, height: 640 }.is_valid_geometry());
    assert!(!Display { x: 0, y: 0, width: 0, height: 640 }.is_valid_geometry());
    assert!(!Display { x: 0, y: 441, width: 640, height: 640 }.is_valid_geometry());
}

#[test]
fn latest_reader_sees_only_newer_values() {
    let mut slot = Latest::new(0u32);
    let mut reader = LatestReader::new();
    assert_eq!(slot.latest(&mut reader), None);
    assert_eq!(slot.update(1), 0);
    assert_eq!(slot.update(2), 1);
    assert_eq!(slot.latest(&mut reader), Some(2));
    assert_eq!(slot.latest(&mut reader), None);
    assert_eq!(slot.update(3), 2);
    let mut second = LatestReader::new();
    assert_eq!(slot.latest(&mut reader), Some(3));
    assert_eq!(slot.latest(&mut second), Some(3));
    assert_eq!(slot.latest(&mut reader), None);
}

#[test]
fn layout_push_then_first_frame() {
    let mut frames: DisplayFrames<Vec<u8>> = DisplayFrames::new();
    assert!(frames.has_room_for_slots());
    frames.update_from_displays(&two_mfcds());
    assert_eq!(frames.keys(), vec![DisplayKind::LeftMfcd, DisplayKind::RightMfcd]);

    let mut rx = frames.receiver(&DisplayKind::LeftMfcd).unwrap();
    assert_eq!(*rx.display(), Display { x: 0, y: 0, width: 640, height: 640 });
    assert!(matches!(rx.latest(&frames), FramePoll::Pending));

    let len: u32 = 640 * 640 * 3 / 2;
    assert_eq!(len, 614_400);
    assert_eq!(
        frame_disposition(&frames, DisplayKind::LeftMfcd, len),
        Ok(FrameDisposition::Store)
    );
    frames.send_buffer(&DisplayKind::LeftMfcd, vec![7u8; len as usize]);
    match rx.latest(&frames) {
        FramePoll::Frame(f) => assert_eq!(f.len(), 614_400),
        other => panic!("expected a frame, got {:?}", other),
    }
    assert!(matches!(rx.latest(&frames), FramePoll::Pending));
}

#[test]
fn layout_resize_closes_old_receivers() {
    let mut frames: DisplayFrames<u32> = DisplayFrames::new();
    frames.update_from_displays(&two_mfcds());
    let mut left = frames.receiver(&DisplayKind::LeftMfcd).unwrap();
    let mut right = frames.receiver(&DisplayKind::RightMfcd).unwrap();
    frames.send_buffer(&DisplayKind::LeftMfcd, 1);

    let mut smaller = Displays::new();
    smaller.insert(DisplayKind::LeftMfcd, Display { x: 0, y: 0, width: 320, height: 320 });
    frames.update_from_displays(&smaller);

    assert_eq!(frames.keys(), vec![DisplayKind::LeftMfcd]);
    assert!(matches!(left.latest(&frames), FramePoll::Closed));
    assert!(matches!(right.latest(&frames), FramePoll::Closed));

    let mut fresh = frames.receiver(&DisplayKind::LeftMfcd).unwrap();
    assert_eq!(fresh.display().width, 320);
    assert_eq!(fresh.display().height, 320);
    assert!(matches!(fresh.latest(&frames), FramePoll::Pending));
    assert!(frames.receiver(&DisplayKind::RightMfcd).is_none());
}

#[test]
fn moving_a_display_keeps_its_slot() {
    let mut frames: DisplayFrames<u32> = DisplayFrames::new();
    frames.update_from_displays(&two_mfcds());
    let mut left = frames.receiver(&DisplayKind::LeftMfcd).unwrap();
    let mut moved = two_mfcds();
    moved.insert(DisplayKind::LeftMfcd, Display { x: 100, y: 50, width: 640, height: 640 });
    frames.update_from_displays(&moved);
    frames.send_buffer(&DisplayKind::LeftMfcd, 9);
    assert!(matches!(left.latest(&frames), FramePoll::Frame(9)));
}

#[test]
fn frame_for_absent_kind_is_dropped() {
    let mut frames: DisplayFrames<u32> = DisplayFrames::new();
    frames.update_from_displays(&two_mfcds());
    assert_eq!(
        frame_disposition(&frames, DisplayKind::CenterMfd, 10),
        Ok(FrameDisposition::Discard)
    );
    frames.send_buffer(&DisplayKind::CenterMfd, 3);
    assert!(frames.receiver(&DisplayKind::CenterMfd).is_none());
    assert_eq!(frames.keys(), vec![DisplayKind::LeftMfcd, DisplayKind::RightMfcd]);
}

#[test]
fn frame_length_must_match_exactly() {
    let mut frames: DisplayFrames<u32> = DisplayFrames::new();
    frames.update_from_displays(&two_mfcds());
    assert_eq!(
        frame_disposition(&frames, DisplayKind::RightMfcd, 614_401),
        Err(LinkError::FrameSize { kind: DisplayKind::RightMfcd, len: 614_401 })
    );
    assert_eq!(
        frame_disposition(&frames, DisplayKind::RightMfcd, 614_399),
        Err(LinkError::FrameSize { kind: DisplayKind::RightMfcd, len: 614_399 })
    );
    assert_eq!(
        frame_disposition(&frames, DisplayKind::RightMfcd, 614_400),
        Ok(FrameDisposition::Store)
    );
}

#[test]
fn unknown_kind_tag_ends_connection() {
    assert_eq!(parse_frame_header(&[7, 0, 0, 0, 1]), Err(LinkError::UnknownKind(7)));
    assert_eq!(
        parse_frame_header(&[5, 0x00, 0x09, 0x60, 0x00]),
        Ok((DisplayKind::LeftMfcd, 614_400))
    );
    assert_eq!(parse_frame_header(&[15, 0, 0, 1, 2]), Ok((DisplayKind::CenterMfd, 258)));
}

#[test]
fn frame_header_round_trips() {
    let header = encode_frame_header(DisplayKind::RightMfcd, 0x0102_0304);
    assert_eq!(header, vec![10, 1, 2, 3, 4]);
    assert_eq!(parse_frame_header(&header), Ok((DisplayKind::RightMfcd, 0x0102_0304)));
    assert_eq!(read_u32_be(&[0xde, 0xad, 0xbe, 0xef]), 0xdead_beef);
}

#[test]
fn layout_announcement_is_length_prefixed() {
    let json = b"null";
    assert_eq!(encode_layout_announcement(json), vec![0, 0, 0, 4, b'n', b'u', b'l', b'l']);
    assert_eq!(encode_layout_announcement(b""), vec![0, 0, 0, 0]);
}

#[test]
fn bgra_to_yuv420_two_by_two() {
    // red, green / blue, white, as b, g, r, a
    let data = vec![
        0, 0, 255, 255, 0, 255, 0, 255, //
        255, 0, 0, 255, 255, 255, 255, 255,
    ];
    let mut yuv = vec![0u8; 6];
    bgra_to_yuv420(&data, 2, 2, 0, 0, 2, 2, &mut yuv);
    assert_eq!(yuv, vec![77, 149, 29, 255, 85, 255]);
}

#[test]
fn bgra_to_yuv420_region() {
    // a 4 x 2 canvas; the region is its right half
    let mut data = vec![0u8; 4 * 2 * 4];
    let px = |x: usize, y: usize| (y * 4 + x) * 4;
    data[px(2, 0)] = 255; // blue
    for c in 0..3 {
        data[px(3, 1) + c] = 255; // white
    }
    let mut yuv = vec![0u8; 6];
    bgra_to_yuv420(&data, 4, 2, 2, 0, 2, 2, &mut yuv);
    assert_eq!(yuv, vec![29, 0, 0, 255, 255, 107]);
}

#[test]
fn frame_batch_for_the_layout() {
    let mut canvas = vec![0u8; CANVAS_BYTES];
    // the pixel at (2, 1) is white
    let at = (1920 + 2) * 4;
    canvas[at..at + 3].copy_from_slice(&[255, 255, 255]);
    let mut layout = Displays::new();
    assert_eq!(encode_frame_batch(&canvas, &layout), vec![0]);
    layout.insert(DisplayKind::CenterMfd, Display { x: 2, y: 0, width: 2, height: 2 });
    assert_eq!(
        encode_frame_batch(&canvas, &layout),
        vec![1, 15, 0, 0, 0, 6, 0, 0, 255, 0, 128, 128]
    );
}

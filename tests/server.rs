use tcd_server::api_error::{mfd_receiver, Error};
use tcd_server::buffers::BufferPool;
use tcd_server::display::{DisplayKind, Displays};
use tcd_server::frames::DisplayFrames;
use tcd_server::webrtc::{
    stats_countdown, starts_sampling, state_signal, PeerConnectionState, State, YuvData,
    GATHER_STATS_EVERY,
};

#[test]
fn unknown_display_is_not_found() {
    let mut frames: DisplayFrames<u8> = DisplayFrames::new();
    frames.update_from_displays(&Displays::default());
    let err = mfd_receiver(&frames, DisplayKind::CenterMfd).unwrap_err();
    assert_eq!(err, Error::DisplayNotFound);
    assert_eq!(err.status_code(), 404);
    let rx = mfd_receiver(&frames, DisplayKind::LeftMfcd).unwrap();
    assert_eq!(rx.display().width, 640);
    assert_eq!(Error::Internal(String::from("x")).status_code(), 500);
    assert_eq!(Error::Request(String::from("x")).status_code(), 400);
}

#[test]
fn returned_buffers_are_kept_up_to_the_cap() {
    let mut pool = BufferPool::new(2);
    assert!(pool.return_buffer(vec![1, 2, 3]));
    assert_eq!(pool.free_len(), 1);
    assert!(pool.return_buffer(vec![4]));
    assert_eq!(pool.free_len(), 2);
    assert!(!pool.return_buffer(vec![5]));
    assert_eq!(pool.free_len(), 2);
    assert!(!pool.return_buffer(Vec::new()));
    assert_eq!(pool.free_len(), 2);

    let raw = pool.take_raw(10);
    assert_eq!(raw, vec![4]);
    assert!(raw.capacity() >= 11);
    let empty = pool.take(8);
    assert!(empty.is_empty());
    assert!(empty.capacity() >= 8);
    assert_eq!(pool.free_len(), 0);
    let fresh = pool.take(16);
    assert!(fresh.is_empty());
    assert!(fresh.capacity() >= 16);
}

#[test]
fn peer_states_drive_the_frame_task() {
    assert_eq!(state_signal(PeerConnectionState::Connected), Some(State::Connected));
    assert_eq!(state_signal(PeerConnectionState::Disconnected), Some(State::Disconnected));
    assert_eq!(state_signal(PeerConnectionState::Failed), Some(State::Disconnected));
    assert_eq!(state_signal(PeerConnectionState::Closed), Some(State::Disconnected));
    assert_eq!(state_signal(PeerConnectionState::Connecting), None);
    assert_eq!(state_signal(PeerConnectionState::New), None);
    assert!(starts_sampling(Some(State::Connected)));
    assert!(!starts_sampling(Some(State::Disconnected)));
    assert!(!starts_sampling(None));
    assert_eq!(stats_countdown(0), (true, GATHER_STATS_EVERY));
    assert_eq!(stats_countdown(3), (false, 2));
}

#[test]
fn yuv_planes() {
    let data: Vec<u8> = (0..24).collect();
    let yuv = YuvData::new(&data, 4, 4);
    assert_eq!(yuv.frame_size(), 16);
    assert_eq!(yuv.y(), &data[..16]);
    assert_eq!(yuv.u(), &data[16..20]);
    assert_eq!(yuv.v(), &data[20..24]);
    assert_eq!((yuv.y_stride(), yuv.u_stride(), yuv.v_stride()), (4, 2, 2));
}

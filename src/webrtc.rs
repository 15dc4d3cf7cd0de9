use vstd::prelude::*;

verus! {

/// The states of a peer connection, as the WebRTC stack reports them.
#[derive(Debug, Clone, Copy, PartialEq, Eq, Structural)]
pub enum PeerConnectionState {
    Unspecified,
    New,
    Connecting,
    Connected,
    Disconnected,
    Failed,
    Closed,
}

/// What the frame task of a session is told.
#[derive(Debug, Clone, Copy, PartialEq, Eq, Structural)]
pub enum State {
    /// Start sampling frames.
    Connected,
    /// Stop and let the session go.
    Disconnected,
}

/// The signal for the frame task that a peer-connection state gives, if any.
pub open spec fn signal_of(s: PeerConnectionState) -> Option<State> {
    match s {
        PeerConnectionState::Connected => Some(State::Connected),
        PeerConnectionState::Disconnected => Some(State::Disconnected),
        PeerConnectionState::Failed => Some(State::Disconnected),
        PeerConnectionState::Closed => Some(State::Disconnected),
        _ => None,
    }
}

pub fn state_signal(s: PeerConnectionState) -> (r: Option<State>)
    ensures
        r == signal_of(s),
{
    match s {
        PeerConnectionState::Connected => Some(State::Connected),
        PeerConnectionState::Disconnected | PeerConnectionState::Failed
        | PeerConnectionState::Closed => Some(State::Disconnected),
        _ => None,
    }
}

/// The frame task starts sampling only when the first signal is `Connected`;
/// a disconnect, or a closed channel, ends it at once.
pub fn starts_sampling(first: Option<State>) -> (r: bool)
    ensures
        r == (first == Some(State::Connected)),
{
    match first {
        Some(State::Connected) => true,
        _ => false,
    }
}

/// Number of frames between two polls of the connection statistics.
pub const GATHER_STATS_EVERY: usize = 15;

/// The countdown to the next statistics poll: a poll happens when it is zero,
/// and it then starts over.
pub fn stats_countdown(gather_stats_in: usize) -> (r: (bool, usize))
    requires
        gather_stats_in <= GATHER_STATS_EVERY,
    ensures
        gather_stats_in == 0 ==> r == (true, GATHER_STATS_EVERY),
        gather_stats_in > 0 ==> r == (false, (gather_stats_in - 1) as usize),
{
    if gather_stats_in == 0 {
        (true, GATHER_STATS_EVERY)
    } else {
        (false, gather_stats_in - 1)
    }
}

/// An I420 frame of known size, split into its three planes.
pub struct YuvData<'a> {
    inner: &'a [u8],
    width: u32,
    height: u32,
}

impl<'a> YuvData<'a> {
    pub closed spec fn bytes(&self) -> Seq<u8> {
        self.inner@
    }

    pub closed spec fn spec_width(&self) -> nat {
        self.width as nat
    }

    pub closed spec fn spec_height(&self) -> nat {
        self.height as nat
    }

    pub open spec fn wf(&self) -> bool {
        &&& self.bytes().len() == self.spec_width() * self.spec_height() * 3 / 2
        &&& self.spec_width() % 2 == 0
        &&& self.spec_height() % 2 == 0
    }

    pub fn new(inner: &'a [u8], width: u32, height: u32) -> (r: YuvData<'a>)
        requires
            inner@.len() == width * height * 3 / 2,
            width % 2 == 0,
            height % 2 == 0,
        ensures
            r.wf(),
            r.bytes() == inner@,
            r.spec_width() == width,
            r.spec_height() == height,
    {
        YuvData { inner, width, height }
    }

    /// Number of luma bytes.
    pub fn frame_size(&self) -> (r: usize)
        requires
            self.wf(),
        ensures
            r == self.spec_width() * self.spec_height(),
    {
        proof {
            let w = self.spec_width() as int;
            let h = self.spec_height() as int;
            assert(w * h <= w * h * 3 / 2) by (nonlinear_arith)
                requires
                    w >= 0,
                    h >= 0,
            ;
        }
        let n = self.inner.len();
        assert(self.spec_width() * self.spec_height() <= n);
        self.width as usize * self.height as usize
    }

    pub fn width(&self) -> (r: u32)
        ensures
            r == self.spec_width(),
    {
        self.width
    }

    pub fn height(&self) -> (r: u32)
        ensures
            r == self.spec_height(),
    {
        self.height
    }

    /// The luma plane.
    pub fn y(&self) -> (r: &[u8])
        requires
            self.wf(),
        ensures
            r@ == self.bytes().subrange(0, (self.spec_width() * self.spec_height()) as int),
    {
        let fs = self.frame_size();
        &self.inner[0..fs]
    }

    /// The blue-difference plane.
    pub fn u(&self) -> (r: &[u8])
        requires
            self.wf(),
        ensures
            ({
                let fs = (self.spec_width() * self.spec_height()) as int;
                r@ == self.bytes().subrange(fs, fs + fs / 4)
            }),
    {
        let fs = self.frame_size();
        let n = self.inner.len();
        proof {
            let w = self.spec_width() as int;
            let h = self.spec_height() as int;
            assert(w * h + w * h / 4 <= w * h * 3 / 2) by (nonlinear_arith)
                requires
                    w >= 0,
                    h >= 0,
            ;
        }
        &self.inner[fs..fs + fs / 4]
    }

    /// The red-difference plane.
    pub fn v(&self) -> (r: &[u8])
        requires
            self.wf(),
        ensures
            ({
                let fs = (self.spec_width() * self.spec_height()) as int;
                r@ == self.bytes().subrange(fs + fs / 4, self.bytes().len() as int)
            }),
    {
        let fs = self.frame_size();
        let n = self.inner.len();
        proof {
            let w = self.spec_width() as int;
            let h = self.spec_height() as int;
            assert(w * h + w * h / 4 <= w * h * 3 / 2) by (nonlinear_arith)
                requires
                    w >= 0,
                    h >= 0,
            ;
        }
        &self.inner[fs + fs / 4..self.inner.len()]
    }

    pub fn y_stride(&self) -> (r: u32)
        ensures
            r == self.spec_width(),
    {
        self.width
    }

    pub fn u_stride(&self) -> (r: u32)
        ensures
            r == self.spec_width() / 2,
    {
        self.width / 2
    }

    pub fn v_stride(&self) -> (r: u32)
        ensures
            r == self.spec_width() / 2,
    {
        self.width / 2
    }
}

} // verus!

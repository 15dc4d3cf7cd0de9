use vstd::prelude::*;

verus! {

/// Width of the source canvas that display regions are cut from.
pub const CANVAS_WIDTH: u32 = 1920;

/// Height of the source canvas that display regions are cut from.
pub const CANVAS_HEIGHT: u32 = 1080;

/// A fixed cockpit panel whose pixels are streamed.
#[derive(Debug, Clone, Copy, PartialEq, Eq, Hash, Structural)]
pub enum DisplayKind {
    LeftMfcd,
    RightMfcd,
    CenterMfd,
}

/// The byte that stands for a kind on the capture link.
pub open spec fn kind_tag(kind: DisplayKind) -> u8 {
    match kind {
        DisplayKind::LeftMfcd => 5,
        DisplayKind::RightMfcd => 10,
        DisplayKind::CenterMfd => 15,
    }
}

/// The kind that a capture-link byte names, if any.
pub open spec fn kind_of_tag(tag: u8) -> Option<DisplayKind> {
    if tag == 5 {
        Some(DisplayKind::LeftMfcd)
    } else if tag == 10 {
        Some(DisplayKind::RightMfcd)
    } else if tag == 15 {
        Some(DisplayKind::CenterMfd)
    } else {
        None
    }
}

impl DisplayKind {
    pub fn as_u8(&self) -> (r: u8)
        ensures
            r == kind_tag(*self),
    {
        match self {
            DisplayKind::LeftMfcd => 5,
            DisplayKind::RightMfcd => 10,
            DisplayKind::CenterMfd => 15,
        }
    }

    pub fn from_u8(num: u8) -> (r: Option<DisplayKind>)
        ensures
            r == kind_of_tag(num),
    {
        match num {
            5 => Some(DisplayKind::LeftMfcd),
            10 => Some(DisplayKind::RightMfcd),
            15 => Some(DisplayKind::CenterMfd),
            _ => None,
        }
    }
}

/// Decoding the tag of a kind gives the kind back, and a byte that is no
/// kind's tag decodes to nothing.
pub proof fn lemma_kind_tag_round_trip(kind: DisplayKind, other: u8)
    ensures
        kind_of_tag(kind_tag(kind)) == Some(kind),
        (forall|k: DisplayKind| kind_tag(k) != other) ==> kind_of_tag(other).is_none(),
        kind_of_tag(other) is Some ==> kind_tag(kind_of_tag(other).unwrap()) == other,
{
    if kind_of_tag(other) is None {
    } else {
        let k = kind_of_tag(other).unwrap();
        assert(kind_tag(k) == other);
    }
    if forall|k: DisplayKind| kind_tag(k) != other {
        assert(kind_tag(DisplayKind::LeftMfcd) != other);
        assert(kind_tag(DisplayKind::RightMfcd) != other);
        assert(kind_tag(DisplayKind::CenterMfd) != other);
    }
}

/// A rectangle of the source canvas, in pixels.
#[derive(Debug, Clone, Copy, PartialEq, Eq, Structural)]
pub struct Display {
    pub x: u32,
    pub y: u32,
    pub width: u32,
    pub height: u32,
}

impl Display {
    /// The rectangle lies inside the canvas and has even, non-zero sides,
    /// as 4:2:0 chroma sub-sampling needs.
    pub open spec fn is_valid(&self) -> bool {
        &&& self.x + self.width <= CANVAS_WIDTH
        &&& self.y + self.height <= CANVAS_HEIGHT
        &&& self.width > 0
        &&& self.height > 0
        &&& self.width % 2 == 0
        &&& self.height % 2 == 0
    }

    /// Number of bytes of one I420 frame of this size.
    pub open spec fn spec_yuv_len(&self) -> int {
        self.width * self.height * 3 / 2
    }

    pub fn is_valid_geometry(&self) -> (r: bool)
        ensures
            r == self.is_valid(),
    {
        self.width <= CANVAS_WIDTH && self.x <= CANVAS_WIDTH - self.width
            && self.height <= CANVAS_HEIGHT && self.y <= CANVAS_HEIGHT - self.height
            && self.width > 0 && self.height > 0 && self.width % 2 == 0 && self.height % 2 == 0
    }

    /// Number of bytes of one I420 frame of this size.
    pub fn yuv_len(&self) -> (r: u64)
        requires
            self.width <= CANVAS_WIDTH,
            self.height <= CANVAS_HEIGHT,
        ensures
            r == self.spec_yuv_len(),
    {
        let w = self.width as u64;
        let h = self.height as u64;
        assert(w * h * 3 <= 1920 * 1080 * 3) by (nonlinear_arith)
            requires
                w <= 1920,
                h <= 1080,
        ;
        w * h * 3 / 2
    }
}

/// The layout: which displays are streamed, and where each one lies.
///
/// Each kind has at most one entry.
#[derive(Debug, Clone, Copy, PartialEq, Eq, Structural)]
pub struct Displays {
    left_mfcd: Option<Display>,
    right_mfcd: Option<Display>,
    center_mfd: Option<Display>,
}

/// Every kind, in the order in which layouts list them.
pub open spec fn all_kinds() -> Seq<DisplayKind> {
    seq![DisplayKind::LeftMfcd, DisplayKind::RightMfcd, DisplayKind::CenterMfd]
}

impl Displays {
    /// The entry of one kind.
    pub closed spec fn entry(&self, kind: DisplayKind) -> Option<Display> {
        match kind {
            DisplayKind::LeftMfcd => self.left_mfcd,
            DisplayKind::RightMfcd => self.right_mfcd,
            DisplayKind::CenterMfd => self.center_mfd,
        }
    }

    /// The layout as a map from kind to geometry.
    pub open spec fn view(&self) -> Map<DisplayKind, Display> {
        Map::new(|k: DisplayKind| self.entry(k) is Some, |k: DisplayKind| self.entry(k).unwrap())
    }

    /// Every geometry of the layout is valid.
    pub open spec fn is_valid(&self) -> bool {
        forall|k: DisplayKind| #[trigger] self.entry(k) is Some ==> self.entry(k).unwrap().is_valid()
    }

    /// A layout without displays.
    pub fn new() -> (r: Displays)
        ensures
            forall|k: DisplayKind| r.entry(k).is_none(),
            r.view() == Map::<DisplayKind, Display>::empty(),
    {
        let r = Displays { left_mfcd: None, right_mfcd: None, center_mfd: None };
        assert(r.view() =~= Map::<DisplayKind, Display>::empty());
        r
    }

    /// The two multi-function colour displays side by side, 640 pixels square.
    pub fn default() -> (r: Displays)
        ensures
            r.entry(DisplayKind::LeftMfcd) == Some(Display { x: 0, y: 0, width: 640, height: 640 }),
            r.entry(DisplayKind::RightMfcd) == Some(
                Display { x: 640, y: 0, width: 640, height: 640 },
            ),
            r.entry(DisplayKind::CenterMfd).is_none(),
            r.is_valid(),
    {
        Displays {
            left_mfcd: Some(Display { x: 0, y: 0, width: 640, height: 640 }),
            right_mfcd: Some(Display { x: 640, y: 0, width: 640, height: 640 }),
            center_mfd: None,
        }
    }

    pub fn get(&self, kind: DisplayKind) -> (r: Option<Display>)
        ensures
            r == self.entry(kind),
    {
        match kind {
            DisplayKind::LeftMfcd => self.left_mfcd,
            DisplayKind::RightMfcd => self.right_mfcd,
            DisplayKind::CenterMfd => self.center_mfd,
        }
    }

    /// Sets the geometry of a kind, replacing any earlier one.
    pub fn insert(&mut self, kind: DisplayKind, display: Display)
        ensures
            final(self).entry(kind) == Some(display),
            forall|k: DisplayKind| k != kind ==> final(self).entry(k) == old(self).entry(k),
            final(self).view() == old(self).view().insert(kind, display),
    {
        self.set_entry(kind, Some(display));
        assert(final(self).view() =~= old(self).view().insert(kind, display));
    }

    /// Takes a kind out of the layout.
    pub fn remove(&mut self, kind: DisplayKind)
        ensures
            final(self).entry(kind).is_none(),
            forall|k: DisplayKind| k != kind ==> final(self).entry(k) == old(self).entry(k),
            final(self).view() == old(self).view().remove(kind),
    {
        self.set_entry(kind, None);
        assert(final(self).view() =~= old(self).view().remove(kind));
    }

    fn set_entry(&mut self, kind: DisplayKind, entry: Option<Display>)
        ensures
            final(self).entry(kind) == entry,
            forall|k: DisplayKind| k != kind ==> final(self).entry(k) == old(self).entry(k),
    {
        match kind {
            DisplayKind::LeftMfcd => self.left_mfcd = entry,
            DisplayKind::RightMfcd => self.right_mfcd = entry,
            DisplayKind::CenterMfd => self.center_mfd = entry,
        }
    }

    /// The kinds of the layout, in the order of `all_kinds`.
    pub fn keys(&self) -> (r: Vec<DisplayKind>)
        ensures
            r@.to_set() == self.view().dom(),
            r@.no_duplicates(),
    {
        let mut r: Vec<DisplayKind> = Vec::new();
        if self.left_mfcd.is_some() {
            proof {
                r@.lemma_push_to_set_commute(DisplayKind::LeftMfcd);
            }
            r.push(DisplayKind::LeftMfcd);
        }
        assert(r@.to_set() =~= Set::new(|k: DisplayKind| k == DisplayKind::LeftMfcd && self.entry(k) is Some));
        assert(r@.no_duplicates());
        let ghost before = r@;
        if self.right_mfcd.is_some() {
            proof {
                r@.lemma_push_to_set_commute(DisplayKind::RightMfcd);
            }
            r.push(DisplayKind::RightMfcd);
            assert(!before.contains(DisplayKind::RightMfcd)) by {
                assert(!before.to_set().contains(DisplayKind::RightMfcd));
            }
        }
        assert(r@.to_set() =~= Set::new(|k: DisplayKind| k != DisplayKind::CenterMfd && self.entry(k) is Some));
        assert(r@.no_duplicates()) by {
            assert forall|i: int, j: int| 0 <= i < j < r@.len() implies r@[i] != r@[j] by {
                if j == r@.len() - 1 && self.right_mfcd.is_some() {
                    assert(before.contains(r@[i]));
                }
            }
        }
        let ghost before = r@;
        if self.center_mfd.is_some() {
            proof {
                r@.lemma_push_to_set_commute(DisplayKind::CenterMfd);
            }
            r.push(DisplayKind::CenterMfd);
            assert(!before.contains(DisplayKind::CenterMfd)) by {
                assert(!before.to_set().contains(DisplayKind::CenterMfd));
            }
        }
        assert(r@.no_duplicates()) by {
            assert forall|i: int, j: int| 0 <= i < j < r@.len() implies r@[i] != r@[j] by {
                if j == r@.len() - 1 && self.center_mfd.is_some() {
                    assert(before.contains(r@[i]));
                }
            }
        }
        assert(r@.to_set() =~= self.view().dom());
        r
    }
}

} // verus!

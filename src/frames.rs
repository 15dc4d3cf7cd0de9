use vstd::prelude::*;

use crate::display::{Display, DisplayKind, Displays};
use crate::latest::{Latest, LatestReader, cursor_after_poll, observed_version};

verus! {

/// The stream of frames of one display of the layout.
#[derive(Debug)]
pub struct FrameSlot<F> {
    /// Geometry of the display when the slot was made.
    pub display: Display,
    /// Number that tells this slot apart from every other slot of the registry.
    pub id: u64,
    /// The newest frame; `None` until one arrives.
    pub latest: Latest<Option<F>>,
}

impl<F> FrameSlot<F> {
    pub open spec fn wf(&self) -> bool {
        self.latest.version() > 0 ==> self.latest.value() is Some
    }
}

/// The frame fan-out registry: for each display of the current layout, its
/// geometry and a slot with its newest frame.
#[derive(Debug)]
pub struct DisplayFrames<F> {
    left_mfcd: Option<FrameSlot<F>>,
    right_mfcd: Option<FrameSlot<F>>,
    center_mfd: Option<FrameSlot<F>>,
    next_id: u64,
}

/// What a subscriber holds: the display it subscribed to, the geometry at that
/// time, the slot it reads, and how far it has read.
#[derive(Debug, Clone, Copy, PartialEq, Eq, Structural)]
pub struct FrameReceiver {
    kind: DisplayKind,
    display: Display,
    slot_id: u64,
    reader: LatestReader,
}

/// The result of polling a receiver.
#[derive(Debug)]
pub enum FramePoll<F> {
    /// A frame newer than the last one this receiver got.
    Frame(F),
    /// Nothing new since the last poll.
    Pending,
    /// The slot was replaced or removed: no frame will come any more.
    Closed,
}

impl FrameReceiver {
    pub closed spec fn kind(&self) -> DisplayKind {
        self.kind
    }

    pub closed spec fn spec_display(&self) -> Display {
        self.display
    }

    pub closed spec fn slot_id(&self) -> nat {
        self.slot_id as nat
    }

    pub closed spec fn cursor(&self) -> nat {
        self.reader.cursor()
    }

    /// The geometry of the display when this receiver subscribed.
    pub fn display(&self) -> (r: &Display)
        ensures
            *r == self.spec_display(),
    {
        &self.display
    }

    /// The kind of display this receiver subscribed to.
    pub fn display_kind(&self) -> (r: DisplayKind)
        ensures
            r == self.kind(),
    {
        self.kind
    }

    /// Returns the newest frame if there is one this receiver has not had yet,
    /// or `Closed` if its slot is gone from `frames`.
    pub fn latest<F: Clone>(&mut self, frames: &DisplayFrames<F>) -> (r: FramePoll<F>)
        requires
            frames.wf(),
        ensures
            !frames.is_live(*old(self)) <==> r is Closed,
            !frames.is_live(*old(self)) ==> *final(self) == *old(self),
            frames.is_live(*old(self)) ==> {
                let slot = frames.slot(old(self).kind()).unwrap();
                &&& (r is Frame <==> observed_version(slot.latest.version(), old(self).cursor())
                    is Some)
                &&& (r is Frame ==> cloned(slot.latest.value().unwrap(), r->Frame_0))
                &&& final(self).cursor() == cursor_after_poll(
                    slot.latest.version(),
                    old(self).cursor(),
                )
                &&& final(self).kind() == old(self).kind()
                &&& final(self).slot_id() == old(self).slot_id()
                &&& final(self).spec_display() == old(self).spec_display()
            },
    {
        match frames.get_slot(self.kind) {
            Some(slot) => {
                if slot.id != self.slot_id {
                    return FramePoll::Closed;
                }
                match slot.latest.latest(&mut self.reader) {
                    Some(Some(frame)) => FramePoll::Frame(frame),
                    Some(None) => {
                        // a slot that was written holds a frame
                        assert(false);
                        FramePoll::Pending
                    },
                    None => FramePoll::Pending,
                }
            },
            None => FramePoll::Closed,
        }
    }
}

/// The registry `after` is what reconciling `before` with `layout` gives: the
/// kinds of the layout and no others; a kind whose size is unchanged keeps its
/// slot; every other kind of the layout gets a fresh, empty slot.
pub open spec fn reconciled<F>(
    before: DisplayFrames<F>,
    layout: Displays,
    after: DisplayFrames<F>,
) -> bool {
    &&& after.next_slot_id() >= before.next_slot_id()
    &&& forall|k: DisplayKind|
        {
            let old_slot = #[trigger] before.slot(k);
            let new_slot = after.slot(k);
            match layout.entry(k) {
                None => new_slot is None,
                Some(d) => if old_slot is Some && same_size(old_slot.unwrap().display, d) {
                    new_slot == old_slot
                } else {
                    &&& new_slot is Some
                    &&& new_slot.unwrap().display == d
                    &&& new_slot.unwrap().id >= before.next_slot_id()
                    &&& new_slot.unwrap().latest.version() == 0
                },
            }
        }
}

/// An empty slot, or one that is well formed and whose id is below `next_id`.
pub open spec fn slot_ok<F>(slot: Option<FrameSlot<F>>, next_id: nat) -> bool {
    slot is Some ==> slot.unwrap().wf() && slot.unwrap().id < next_id
}

/// Two geometries of equal width and height.
pub open spec fn same_size(a: Display, b: Display) -> bool {
    a.width == b.width && a.height == b.height
}

impl<F> DisplayFrames<F> {
    /// The slot of one kind.
    pub closed spec fn slot(&self, kind: DisplayKind) -> Option<FrameSlot<F>> {
        match kind {
            DisplayKind::LeftMfcd => self.left_mfcd,
            DisplayKind::RightMfcd => self.right_mfcd,
            DisplayKind::CenterMfd => self.center_mfd,
        }
    }

    /// The id the next new slot gets.
    pub closed spec fn next_slot_id(&self) -> nat {
        self.next_id as nat
    }

    /// The kinds the registry has slots for.
    pub open spec fn kinds(&self) -> Set<DisplayKind> {
        Set::new(|k: DisplayKind| self.slot(k) is Some)
    }

    /// Every slot holds a frame once it has been written, and has an id below
    /// the next one; slots of different kinds have different ids.
    pub open spec fn wf(&self) -> bool {
        forall|k: DisplayKind| slot_ok(#[trigger] self.slot(k), self.next_slot_id())
    }

    /// The receiver still reads the slot that its kind has now.
    pub open spec fn is_live(&self, r: FrameReceiver) -> bool {
        &&& self.slot(r.kind()) is Some
        &&& self.slot(r.kind()).unwrap().id == r.slot_id()
    }

    /// The receiver came from this registry, now or earlier.
    pub open spec fn has_issued(&self, r: FrameReceiver) -> bool {
        r.slot_id() < self.next_slot_id()
    }

    /// Whether the layout can be applied: slot ids must not run out.
    pub open spec fn can_reconcile(&self) -> bool {
        self.next_slot_id() + 3 <= u64::MAX
    }

    /// An empty registry.
    pub fn new() -> (r: DisplayFrames<F>)
        ensures
            r.wf(),
            r.kinds() == Set::<DisplayKind>::empty(),
            r.next_slot_id() == 0,
    {
        let r = DisplayFrames { left_mfcd: None, right_mfcd: None, center_mfd: None, next_id: 0 };
        assert(r.kinds() =~= Set::<DisplayKind>::empty());
        r
    }

    /// Whether the layout can be applied: slot ids must not run out.
    pub fn has_room_for_slots(&self) -> (r: bool)
        ensures
            r == self.can_reconcile(),
    {
        self.next_id <= u64::MAX - 3
    }

    fn get_slot(&self, kind: DisplayKind) -> (r: &Option<FrameSlot<F>>)
        ensures
            *r == self.slot(kind),
    {
        match kind {
            DisplayKind::LeftMfcd => &self.left_mfcd,
            DisplayKind::RightMfcd => &self.right_mfcd,
            DisplayKind::CenterMfd => &self.center_mfd,
        }
    }

    fn take_slot(&mut self, kind: DisplayKind) -> (r: Option<FrameSlot<F>>)
        ensures
            r == old(self).slot(kind),
            final(self).slot(kind) is None,
            forall|k: DisplayKind| k != kind ==> final(self).slot(k) == old(self).slot(k),
            final(self).next_slot_id() == old(self).next_slot_id(),
    {
        match kind {
            DisplayKind::LeftMfcd => self.left_mfcd.take(),
            DisplayKind::RightMfcd => self.right_mfcd.take(),
            DisplayKind::CenterMfd => self.center_mfd.take(),
        }
    }

    fn put_slot(&mut self, kind: DisplayKind, slot: Option<FrameSlot<F>>)
        ensures
            final(self).slot(kind) == slot,
            forall|k: DisplayKind| k != kind ==> final(self).slot(k) == old(self).slot(k),
            final(self).next_slot_id() == old(self).next_slot_id(),
    {
        match kind {
            DisplayKind::LeftMfcd => self.left_mfcd = slot,
            DisplayKind::RightMfcd => self.right_mfcd = slot,
            DisplayKind::CenterMfd => self.center_mfd = slot,
        }
    }

    /// Reconciles one kind with its entry of the new layout.
    fn reconcile_kind(&mut self, kind: DisplayKind, entry: Option<Display>)
        requires
            old(self).wf(),
            old(self).next_slot_id() < u64::MAX,
        ensures
            final(self).wf(),
            final(self).next_slot_id() <= old(self).next_slot_id() + 1,
            final(self).next_slot_id() >= old(self).next_slot_id(),
            forall|k: DisplayKind| k != kind ==> final(self).slot(k) == old(self).slot(k),
            match entry {
                None => final(self).slot(kind) is None,
                Some(d) => if old(self).slot(kind) is Some && same_size(
                    old(self).slot(kind).unwrap().display,
                    d,
                ) {
                    final(self).slot(kind) == old(self).slot(kind)
                } else {
                    &&& final(self).slot(kind) is Some
                    &&& final(self).slot(kind).unwrap().display == d
                    &&& final(self).slot(kind).unwrap().id >= old(self).next_slot_id()
                    &&& final(self).slot(kind).unwrap().latest.version() == 0
                },
            },
    {
        match entry {
            None => {
                self.put_slot(kind, None);
            },
            Some(d) => {
                let keep = match self.get_slot(kind) {
                    Some(slot) => slot.display.width == d.width && slot.display.height == d.height,
                    None => false,
                };
                if !keep {
                    let id = self.next_id;
                    self.next_id = self.next_id + 1;
                    let slot = FrameSlot { display: d, id, latest: Latest::new(None) };
                    self.put_slot(kind, Some(slot));
                }
            },
        }
        assert forall|k: DisplayKind| slot_ok(#[trigger] self.slot(k), self.next_slot_id()) by {
            if k != kind {
                assert(slot_ok(old(self).slot(k), old(self).next_slot_id()));
            }
        }
    }

    /// Brings the registry in line with a new layout: slots for kinds that are
    /// new or changed size are made afresh (their old receivers are closed),
    /// slots of kinds that left the layout are dropped, and the rest stay.
    pub fn update_from_displays(&mut self, displays: &Displays)
        requires
            old(self).wf(),
            old(self).can_reconcile(),
        ensures
            final(self).wf(),
            reconciled(*old(self), *displays, *final(self)),
            final(self).kinds() == displays.view().dom(),
    {
        self.reconcile_kind(DisplayKind::LeftMfcd, displays.get(DisplayKind::LeftMfcd));
        self.reconcile_kind(DisplayKind::RightMfcd, displays.get(DisplayKind::RightMfcd));
        self.reconcile_kind(DisplayKind::CenterMfd, displays.get(DisplayKind::CenterMfd));
        assert(final(self).kinds() =~= displays.view().dom());
    }

    /// Stores a frame for a kind; a kind that has no slot drops it, and so does
    /// a slot whose version counter is exhausted.
    pub fn send_buffer(&mut self, kind: &DisplayKind, frame: F)
        requires
            old(self).wf(),
        ensures
            final(self).wf(),
            final(self).next_slot_id() == old(self).next_slot_id(),
            forall|k: DisplayKind| k != *kind ==> final(self).slot(k) == old(self).slot(k),
            old(self).slot(*kind) is None ==> final(self).slot(*kind) is None,
            old(self).slot(*kind) is Some ==> {
                let before = old(self).slot(*kind).unwrap();
                let after = final(self).slot(*kind);
                &&& after is Some
                &&& after.unwrap().id == before.id
                &&& after.unwrap().display == before.display
                &&& (before.latest.version() < u64::MAX ==> {
                    &&& after.unwrap().latest.version() == before.latest.version() + 1
                    &&& after.unwrap().latest.value() == Some(frame)
                })
                &&& (before.latest.version() == u64::MAX ==> after == old(self).slot(*kind))
            },
    {
        let current = self.take_slot(*kind);
        match current {
            Some(mut slot) => {
                if slot.latest.can_update() {
                    let _ = slot.latest.update(Some(frame));
                }
                self.put_slot(*kind, Some(slot));
            },
            None => {},
        }
    }

    /// A receiver for a kind, which starts with the newest frame stored, if
    /// the kind has a slot.
    pub fn receiver(&self, kind: &DisplayKind) -> (r: Option<FrameReceiver>)
        requires
            self.wf(),
        ensures
            r is Some <==> self.slot(*kind) is Some,
            r is Some ==> {
                let rec = r.unwrap();
                &&& rec.kind() == *kind
                &&& rec.spec_display() == self.slot(*kind).unwrap().display
                &&& rec.cursor() == 0
                &&& self.is_live(rec)
                &&& self.has_issued(rec)
            },
    {
        match self.get_slot(*kind) {
            Some(slot) => Some(
                FrameReceiver {
                    kind: *kind,
                    display: slot.display,
                    slot_id: slot.id,
                    reader: LatestReader::new(),
                },
            ),
            None => None,
        }
    }

    /// The kinds that have a slot, in layout order.
    pub fn keys(&self) -> (r: Vec<DisplayKind>)
        ensures
            r@.to_set() == self.kinds(),
            r@.no_duplicates(),
    {
        let mut layout = Displays::new();
        if self.left_mfcd.is_some() {
            layout.insert(DisplayKind::LeftMfcd, self.left_mfcd.as_ref().unwrap().display);
        }
        if self.right_mfcd.is_some() {
            layout.insert(DisplayKind::RightMfcd, self.right_mfcd.as_ref().unwrap().display);
        }
        if self.center_mfd.is_some() {
            layout.insert(DisplayKind::CenterMfd, self.center_mfd.as_ref().unwrap().display);
        }
        let r = layout.keys();
        assert(r@.to_set() =~= self.kinds());
        r
    }
}

/// After reconciling with a layout, the registry has exactly the layout's
/// kinds, and every receiver it had handed out for a kind that changed size
/// or left the layout is closed on its next poll.
pub proof fn lemma_reconcile_closes_resized<F>(
    before: DisplayFrames<F>,
    layout: Displays,
    after: DisplayFrames<F>,
    r: FrameReceiver,
)
    requires
        before.wf(),
        reconciled(before, layout, after),
        before.has_issued(r),
        match layout.entry(r.kind()) {
            None => true,
            Some(d) => !(before.slot(r.kind()) is Some && same_size(
                before.slot(r.kind()).unwrap().display,
                d,
            )),
        },
    ensures
        !after.is_live(r),
        after.kinds() == layout.view().dom(),
{
    let k = r.kind();
    let _ = before.slot(k);
    assert(after.kinds() =~= layout.view().dom()) by {
        assert forall|kk: DisplayKind| after.kinds().contains(kk) <==> layout.view().dom().contains(
            kk,
        ) by {
            let _ = before.slot(kk);
        }
    }
}

} // verus!

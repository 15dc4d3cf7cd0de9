use vstd::prelude::*;

verus! {

/// A versioned single cell: the writer replaces its value, and each reader
/// sees a value only when it is newer than the last one that reader saw.
#[derive(Debug)]
pub struct Latest<T> {
    version: u64,
    value: T,
}

/// What one reader remembers: the version of the last value it saw.
#[derive(Debug, Clone, Copy, PartialEq, Eq, Structural)]
pub struct LatestReader {
    current: u64,
}

/// What a poll by a reader whose cursor is `cursor` returns, given the cell's
/// version: the version it observes, if any.
pub open spec fn observed_version(version: nat, cursor: nat) -> Option<nat> {
    if version > cursor {
        Some(version)
    } else {
        None
    }
}

/// The cursor after such a poll.
pub open spec fn cursor_after_poll(version: nat, cursor: nat) -> nat {
    if version > cursor {
        version
    } else {
        cursor
    }
}

impl<T> Latest<T> {
    pub closed spec fn version(&self) -> nat {
        self.version as nat
    }

    pub closed spec fn value(&self) -> T {
        self.value
    }
}

impl LatestReader {
    pub closed spec fn cursor(&self) -> nat {
        self.current as nat
    }

    /// A reader that has seen nothing yet.
    pub fn new() -> (r: LatestReader)
        ensures
            r.cursor() == 0,
    {
        LatestReader { current: 0 }
    }
}

impl<T> Latest<T> {
    /// A cell at version 0 that holds `val`.
    pub fn new(val: T) -> (r: Latest<T>)
        ensures
            r.version() == 0,
            r.value() == val,
    {
        Latest { version: 0, value: val }
    }

    /// Whether one more update can be counted.
    pub fn can_update(&self) -> (r: bool)
        ensures
            r == (self.version() < u64::MAX),
    {
        self.version < u64::MAX
    }

    /// Replaces the value, returns the one before, and counts one version up.
    pub fn update(&mut self, val: T) -> (prev: T)
        requires
            old(self).version() < u64::MAX,
        ensures
            prev == old(self).value(),
            final(self).value() == val,
            final(self).version() == old(self).version() + 1,
    {
        let mut prev = val;
        core::mem::swap(&mut self.value, &mut prev);
        self.version = self.version + 1;
        prev
    }

}

impl<T: Clone> Latest<T> {
    /// Returns the value if it is newer than what `reader` saw last, and
    /// moves the reader up to it.
    pub fn latest(&self, reader: &mut LatestReader) -> (r: Option<T>)
        ensures
            r is Some <==> observed_version(self.version(), old(reader).cursor()) is Some,
            r is Some ==> cloned(self.value(), r.unwrap()),
            final(reader).cursor() == cursor_after_poll(self.version(), old(reader).cursor()),
    {
        if self.version > reader.current {
            reader.current = self.version;
            Some(self.value.clone())
        } else {
            None
        }
    }
}

/// One step of a run of a cell and one of its readers.
pub enum LatestEvent {
    /// The writer stores a new value.
    Update,
    /// The reader polls.
    Poll,
}

/// The versions that a reader starting at `cursor` observes while `events`
/// run against a cell at `version`.
pub open spec fn observed_run(version: nat, cursor: nat, events: Seq<LatestEvent>) -> Seq<nat>
    decreases events.len(),
{
    if events.len() == 0 {
        Seq::empty()
    } else {
        let rest = events.drop_first();
        match events[0] {
            LatestEvent::Update => observed_run(version + 1, cursor, rest),
            LatestEvent::Poll => match observed_version(version, cursor) {
                Some(v) => seq![v].add(observed_run(version, cursor_after_poll(version, cursor), rest)),
                None => observed_run(version, cursor, rest),
            },
        }
    }
}

/// The number of updates among `events`: the version the cell reaches.
pub open spec fn updates_in(events: Seq<LatestEvent>) -> nat
    decreases events.len(),
{
    if events.len() == 0 {
        0
    } else {
        (if events[0] is Update { 1nat } else { 0nat }) + updates_in(events.drop_first())
    }
}

/// Each element is smaller than every later one.
pub open spec fn strictly_increasing(s: Seq<nat>) -> bool {
    forall|i: int, j: int| 0 <= i < j < s.len() ==> #[trigger] s[i] < #[trigger] s[j]
}

/// Each element is above `low` and at most `high`.
pub open spec fn all_within(s: Seq<nat>, low: nat, high: nat) -> bool {
    forall|i: int| 0 <= i < s.len() ==> low < #[trigger] s[i] <= high
}

/// Whatever the order of updates and polls, one reader observes versions in
/// strictly increasing order, each newer than its starting cursor and none
/// past the last update: a subsequence of the written values, none seen twice.
pub proof fn lemma_reader_sees_increasing_versions(
    version: nat,
    cursor: nat,
    events: Seq<LatestEvent>,
)
    requires
        cursor <= version,
    ensures
        strictly_increasing(observed_run(version, cursor, events)),
        all_within(observed_run(version, cursor, events), cursor, version + updates_in(events)),
    decreases events.len(),
{
    if events.len() > 0 {
        let rest = events.drop_first();
        match events[0] {
            LatestEvent::Update => {
                lemma_reader_sees_increasing_versions(version + 1, cursor, rest);
            },
            LatestEvent::Poll => {
                let next = cursor_after_poll(version, cursor);
                lemma_reader_sees_increasing_versions(version, next, rest);
                let tail = observed_run(version, next, rest);
                if version > cursor {
                    let s = seq![version].add(tail);
                    assert(observed_run(version, cursor, events) == s);
                    assert forall|i: int, j: int| 0 <= i < j < s.len() implies #[trigger] s[i] < #[trigger] s[j] by {
                        if i > 0 {
                            assert(s[i] == tail[i - 1]);
                        }
                        assert(s[j] == tail[j - 1]);
                    }
                    assert forall|i: int| 0 <= i < s.len() implies cursor < #[trigger] s[i] <= version
                        + updates_in(events) by {
                        if i > 0 {
                            assert(s[i] == tail[i - 1]);
                        }
                    }
                }
            },
        }
    }
}

} // verus!

use vstd::prelude::*;

use crate::controls::{ControlOutputs, Input, Outputs};
use crate::names::NameMap;

verus! {

/// A message from a controls-stream client.
#[derive(Debug)]
pub enum Request {
    Subscribe(String),
    Unsubscribe(String),
    Input(Input),
    Acknowledge,
}

/// Sent first in a batch: how many responses follow.
#[derive(Debug, Clone, Copy, PartialEq, Eq, Structural)]
pub struct Announce {
    pub len: u32,
}

/// The outputs of one subscribed control.
#[derive(Debug)]
pub struct Response {
    pub name: String,
    pub outputs: Outputs,
}

/// One batch of the controls stream: the announcement, then its responses.
#[derive(Debug)]
pub struct Batch {
    pub announce: Announce,
    pub responses: Vec<Response>,
}

/// What a controls-stream connection remembers: the names it subscribed to
/// and whether the client acknowledged the last batch.
#[derive(Debug)]
pub struct Session {
    subscribed: NameMap<()>,
    was_acknowledged: bool,
}

/// The state of a connection as a value.
pub struct SessionModel {
    pub subscribed: Set<Seq<char>>,
    pub acknowledged: bool,
}

/// What happens to a connection.
pub enum SessionEvent {
    /// A new snapshot was published.
    Snapshot,
    Subscribe(Seq<char>),
    Unsubscribe(Seq<char>),
    /// A command to pass on to the simulator.
    Input,
    Acknowledge,
}

/// A batch goes out when a snapshot comes, if something is subscribed and
/// the last batch was acknowledged.
pub open spec fn sends_batch(m: SessionModel) -> bool {
    !m.subscribed.is_empty() && m.acknowledged
}

/// The state after an event.
pub open spec fn session_step(m: SessionModel, e: SessionEvent) -> SessionModel {
    match e {
        SessionEvent::Snapshot => if sends_batch(m) {
            SessionModel { subscribed: m.subscribed, acknowledged: false }
        } else {
            m
        },
        SessionEvent::Subscribe(n) => SessionModel {
            subscribed: m.subscribed.insert(n),
            acknowledged: m.acknowledged,
        },
        SessionEvent::Unsubscribe(n) => SessionModel {
            subscribed: m.subscribed.remove(n),
            acknowledged: m.acknowledged,
        },
        SessionEvent::Input => m,
        SessionEvent::Acknowledge => SessionModel { subscribed: m.subscribed, acknowledged: true },
    }
}

/// The number of announcements sent while `events` happen, from state `m`.
pub open spec fn announcements(m: SessionModel, events: Seq<SessionEvent>) -> nat
    decreases events.len(),
{
    if events.len() == 0 {
        0
    } else {
        (if events[0] is Snapshot && sends_batch(m) {
            1nat
        } else {
            0nat
        }) + announcements(session_step(m, events[0]), events.drop_first())
    }
}

/// The event that a request is.
pub open spec fn request_event(r: Request) -> SessionEvent {
    match r {
        Request::Subscribe(n) => SessionEvent::Subscribe(n@),
        Request::Unsubscribe(n) => SessionEvent::Unsubscribe(n@),
        Request::Input(_) => SessionEvent::Input,
        Request::Acknowledge => SessionEvent::Acknowledge,
    }
}

impl Session {
    pub closed spec fn model(&self) -> SessionModel {
        SessionModel { subscribed: self.subscribed@.dom(), acknowledged: self.was_acknowledged }
    }

    pub closed spec fn wf(&self) -> bool {
        self.subscribed.wf()
    }

    /// A connection with no subscriptions, ready to send.
    pub fn new() -> (r: Session)
        ensures
            r.wf(),
            r.model().subscribed == Set::<Seq<char>>::empty(),
            r.model().acknowledged,
    {
        let r = Session { subscribed: NameMap::new(), was_acknowledged: true };
        assert(r.subscribed@.dom() =~= Set::<Seq<char>>::empty());
        r
    }

    /// Whether a new snapshot would be sent now.
    pub fn wants_snapshot(&self) -> (r: bool)
        requires
            self.wf(),
        ensures
            r == sends_batch(self.model()),
    {
        proof {
            self.subscribed.lemma_len();
        }
        self.subscribed.len() > 0 && self.was_acknowledged
    }

    /// Applies a client message; a command is handed back to be passed on.
    pub fn on_request(&mut self, req: Request) -> (r: Option<Input>)
        requires
            old(self).wf(),
        ensures
            final(self).wf(),
            final(self).model() == session_step(old(self).model(), request_event(req)),
            r is Some <==> req is Input,
            r is Some ==> req == Request::Input(r.unwrap()),
    {
        match req {
            Request::Subscribe(name) => {
                self.subscribed.insert(name, ());
                None
            },
            Request::Unsubscribe(name) => {
                self.subscribed.remove(name.as_str());
                None
            },
            Request::Input(input) => Some(input),
            Request::Acknowledge => {
                self.was_acknowledged = true;
                None
            },
        }
    }

    /// Reacts to a new snapshot: when a batch is due, builds it from the
    /// subscribed names that the snapshot has and waits for the client's
    /// acknowledgement before the next one.
    pub fn on_snapshot(&mut self, outputs: &ControlOutputs) -> (r: Option<Batch>)
        requires
            old(self).wf(),
            outputs.wf(),
        ensures
            final(self).wf(),
            final(self).model() == session_step(old(self).model(), SessionEvent::Snapshot),
            r is Some <==> sends_batch(old(self).model()),
            r is Some ==> {
                let b = r.unwrap();
                &&& b.announce.len == b.responses@.len() as u32
                &&& forall|i: int, j: int|
                    0 <= i < j < b.responses@.len() ==> b.responses@[i].name@
                        != b.responses@[j].name@
                &&& forall|i: int|
                    0 <= i < b.responses@.len() ==> outputs@.contains_key(
                        #[trigger] b.responses@[i].name@,
                    ) && b.responses@[i].outputs@ == outputs@[b.responses@[i].name@]@
                &&& forall|k: Seq<char>|
                    old(self).model().subscribed.contains(k) && #[trigger] outputs@.contains_key(k)
                        ==> exists|i: int| 0 <= i < b.responses@.len() && b.responses@[i].name@ == k
                &&& forall|i: int|
                    0 <= i < b.responses@.len() ==> old(self).model().subscribed.contains(
                        #[trigger] b.responses@[i].name@,
                    )
            },
    {
        if !self.wants_snapshot() {
            return None;
        }
        let n = self.subscribed.len();
        let ghost entries = self.subscribed.entries();
        let mut responses: Vec<Response> = Vec::new();
        let ghost mut src: Seq<int> = Seq::empty();
        let mut i: usize = 0;
        while i < n
            invariant
                self.wf(),
                outputs.wf(),
                entries == self.subscribed.entries(),
                crate::names::unique_keys(entries),
                n == entries.len(),
                0 <= i <= n,
                src.len() == responses@.len(),
                forall|a: int, b: int| 0 <= a < b < src.len() ==> src[a] < src[b],
                forall|a: int|
                    0 <= a < src.len() ==> 0 <= #[trigger] src[a] < i && crate::names::key_at(
                        entries,
                        src[a],
                    ) == responses@[a].name@,
                forall|a: int|
                    0 <= a < responses@.len() ==> outputs@.contains_key(
                        #[trigger] responses@[a].name@,
                    ) && responses@[a].outputs@ == outputs@[responses@[a].name@]@,
                forall|j: int|
                    0 <= j < i && outputs@.contains_key(
                        #[trigger] crate::names::key_at(entries, j),
                    ) ==> exists|a: int| 0 <= a < src.len() && src[a] == j,
            decreases n - i,
        {
            let (name, _) = self.subscribed.entry_at(i);
            match outputs.get(name.as_str()) {
                Some(found) => {
                    responses.push(Response { name: name.clone(), outputs: found.copied() });
                    proof {
                        let old_src = src;
                        src = src.push(i as int);
                        assert forall|j: int|
                            0 <= j < i + 1 && outputs@.contains_key(
                                #[trigger] crate::names::key_at(entries, j),
                            ) implies exists|a: int| 0 <= a < src.len() && src[a] == j by {
                            if j < i {
                                let a = choose|a: int| 0 <= a < old_src.len() && old_src[a] == j;
                                assert(src[a] == j);
                            } else {
                                assert(src[old_src.len() as int] == j);
                            }
                        }
                    }
                },
                None => {},
            }
            i += 1;
        }
        proof {
            self.subscribed.lemma_len();
            assert forall|a: int, b: int|
                0 <= a < b < responses@.len() implies responses@[a].name@ != responses@[b].name@ by {
                assert(src[a] < src[b]);
                assert(src[a] != src[b]);
            }
            assert forall|k: Seq<char>|
                self.model().subscribed.contains(k) && #[trigger] outputs@.contains_key(
                    k,
                ) implies exists|a: int|
                0 <= a < responses@.len() && responses@[a].name@ == k by {
                let j = choose|j: int|
                    0 <= j < entries.len() && crate::names::key_at(entries, j) == k;
                assert(outputs@.contains_key(crate::names::key_at(entries, j)));
                let a = choose|a: int| 0 <= a < src.len() && src[a] == j;
                assert(responses@[a].name@ == k);
            }
            assert forall|a: int| 0 <= a < responses@.len() implies self.model().subscribed.contains(
                #[trigger] responses@[a].name@,
            ) by {
                assert(0 <= src[a] < n);
                self.subscribed.lemma_value_at(src[a]);
            }
        }
        self.was_acknowledged = false;
        let len = #[verifier::truncate] (responses.len() as u32);
        Some(Batch { announce: Announce { len }, responses })
    }
}

/// While no acknowledgement comes, a connection announces at most one batch,
/// and none at all if it is already waiting for one.
pub proof fn lemma_one_announce_per_acknowledge(m: SessionModel, events: Seq<SessionEvent>)
    requires
        forall|i: int| 0 <= i < events.len() ==> !(#[trigger] events[i] is Acknowledge),
    ensures
        announcements(m, events) <= 1,
        !m.acknowledged ==> announcements(m, events) == 0,
    decreases events.len(),
{
    if events.len() > 0 {
        let next = session_step(m, events[0]);
        let rest = events.drop_first();
        assert forall|i: int| 0 <= i < rest.len() implies !(#[trigger] rest[i] is Acknowledge) by {
            assert(rest[i] == events[i + 1]);
        }
        lemma_one_announce_per_acknowledge(next, rest);
        if events[0] is Snapshot && sends_batch(m) {
            assert(!next.acknowledged);
        } else {
            assert(next.acknowledged == m.acknowledged);
        }
    }
}

/// Subscribing twice to a name is the same as subscribing once, and
/// unsubscribing a name that is not subscribed changes nothing.
pub proof fn lemma_subscriptions_idempotent(m: SessionModel, name: Seq<char>)
    ensures
        session_step(session_step(m, SessionEvent::Subscribe(name)), SessionEvent::Subscribe(name))
            == session_step(m, SessionEvent::Subscribe(name)),
        session_step(
            session_step(m, SessionEvent::Unsubscribe(name)),
            SessionEvent::Unsubscribe(name),
        ) == session_step(m, SessionEvent::Unsubscribe(name)),
        !m.subscribed.contains(name) ==> session_step(m, SessionEvent::Unsubscribe(name)) == m,
{
    assert(m.subscribed.insert(name).insert(name) =~= m.subscribed.insert(name));
    assert(m.subscribed.remove(name).remove(name) =~= m.subscribed.remove(name));
    if !m.subscribed.contains(name) {
        assert(m.subscribed.remove(name) =~= m.subscribed);
    }
}

} // verus!

//! The joiner sessions of a commissioner, and what they ask the session driver
//! for.

use vstd::prelude::*;

use crate::bytes::views;
use crate::commissioner::driver::parts::{RelayOutput, RelayOutputView};
use crate::commissioner::error::{Error, ErrorView};
use crate::commissioner::exchange::{
    lemma_absent, lemma_no_position, lemma_position, lemma_position_bounds, position,
};
use crate::commissioner::joiner::{
    no_joiner_keys, JoinerEventView, JoinerSession, JoinerSessionEvent, JoinerView, MAX_INSTANT,
};
use crate::commissioner::joiner_handler::{joiner_id_from_iid, restored_id};
use crate::commissioner::messages::{post, relay_tx_payload, relay_tx_request, URI_RELAY_TX};
use crate::commissioner::tlv::oversized_tlv;
use crate::commissioner::types::{CommissionerEvent, EventView};

verus! {

/// The joiner sessions in progress.
pub struct JoinerSessions {
    sessions: Vec<JoinerSession>,
}

impl View for JoinerSessions {
    type V = Seq<JoinerView>;

    closed spec fn view(&self) -> Seq<JoinerView> {
        views(self.sessions@)
    }
}

/// The sessions that have not expired at `now`.
pub open spec fn unexpired_sessions(sessions: Seq<JoinerView>, now: u128) -> Seq<JoinerView>
    decreases sessions.len(),
{
    if sessions.len() == 0 {
        Seq::empty()
    } else {
        let rest = unexpired_sessions(sessions.drop_last(), now);
        if now >= sessions.last().expires_at {
            rest
        } else {
            rest.push(sessions.last())
        }
    }
}

/// Where the session of the joiner stands.
pub open spec fn session_position(sessions: Seq<JoinerView>, joiner_iid: Seq<u8>) -> Option<int> {
    position(sessions, |session: JoinerView| session.joiner_iid == joiner_iid)
}

/// Whether no joiner has two sessions: what every operation keeps.
pub open spec fn one_each(sessions: Seq<JoinerView>) -> bool {
    forall|i: int, j: int|
        0 <= i < j < sessions.len() ==> (#[trigger] sessions[i]).joiner_iid != (
        #[trigger] sessions[j]).joiner_iid
}

/// The sessions with one more, which takes the place of the joiner's last.
pub open spec fn with_session(sessions: Seq<JoinerView>, session: JoinerView) -> Seq<JoinerView> {
    match session_position(sessions, session.joiner_iid) {
        Some(i) => sessions.remove(i).push(session),
        None => sessions.push(session),
    }
}

/// What becomes of a relayed payload.
pub enum Admission {
    /// Nothing: no handler decides on joiners.
    Ignore,
    /// The joiner's session takes it.
    Serve(JoinerSession),
    /// The joiner has no session: whether it gets one depends on whether the
    /// handler knows its PSKd. See [`begin`].
    AskForPskd { joiner_id: [u8; 8] },
}

/// The session that a joiner without one gets: a new one where the handler
/// knows the joiner, and none where it does not.
pub fn begin(
    known: bool,
    joiner_iid: [u8; 8],
    joiner_udp_port: u16,
    joiner_router_locator: u16,
    now: u128,
) -> (session: Option<JoinerSession>)
    requires
        now <= MAX_INSTANT,
    ensures
        match session {
            Some(session) => known && session@ == JoinerView::fresh(
                joiner_iid@,
                joiner_udp_port,
                joiner_router_locator,
                now,
            ),
            None => !known,
        },
{
    if known {
        Some(JoinerSession::new(joiner_iid, joiner_udp_port, joiner_router_locator, now))
    } else {
        None
    }
}

impl JoinerSessions {
    /// No sessions.
    pub fn new() -> (sessions: Self)
        ensures
            sessions@ == Seq::<JoinerView>::empty(),
            one_each(sessions@),
    {
        let sessions = JoinerSessions { sessions: Vec::new() };
        assert(sessions@ =~= Seq::<JoinerView>::empty());
        sessions
    }

    /// How many sessions there are.
    pub fn len(&self) -> (len: usize)
        ensures
            len == self@.len(),
    {
        self.sessions.len()
    }

    /// Whether the joiner has a session.
    pub fn contains(&self, joiner_iid: &[u8; 8]) -> (found: bool)
        ensures
            found == session_position(self@, joiner_iid@) is Some,
    {
        let ghost matching = |session: JoinerView| session.joiner_iid == joiner_iid@;
        let mut i: usize = 0;
        while i < self.sessions.len()
            invariant
                i <= self.sessions@.len(),
                matching == (|session: JoinerView| session.joiner_iid == joiner_iid@),
                forall|j: int| 0 <= j < i ==> !matching(#[trigger] self@[j]),
            decreases self.sessions@.len() - i,
        {
            assert(self@[i as int] == self.sessions@[i as int]@);
            let iid: [u8; 8] = self.sessions[i].joiner_iid();
            if crate::bytes::same_bytes(iid.as_slice(), joiner_iid.as_slice()) {
                proof {
                    lemma_position(self@, matching, i as int);
                }
                return true;
            }
            i = i + 1;
        }
        proof {
            lemma_no_position(self@, matching);
        }
        false
    }

    /// Drops every session.
    pub fn clear(&mut self)
        ensures
            final(self)@ == Seq::<JoinerView>::empty(),
            one_each(final(self)@),
    {
        self.sessions = Vec::new();
        assert(self@ =~= Seq::<JoinerView>::empty());
    }

    /// Drops the sessions that are past their deadline.
    pub fn sweep(&mut self, now: u128)
        ensures
            final(self)@ == unexpired_sessions(old(self)@, now),
            one_each(old(self)@) ==> one_each(final(self)@),
    {
        proof {
            if one_each(self@) {
                lemma_sweep_keeps_one_each(self@, now);
            }
        }
        let ghost all = self@;
        let mut kept: Vec<JoinerSession> = Vec::new();
        let ghost mut taken: int = 0;
        assert(all.skip(0) =~= all);
        assert(views(kept@) =~= unexpired_sessions(all.take(0), now));
        while self.sessions.len() > 0
            invariant
                0 <= taken <= all.len(),
                self@ == all.skip(taken),
                views(kept@) == unexpired_sessions(all.take(taken), now),
            decreases self.sessions@.len(),
        {
            let ghost queue = self@;
            let ghost before = kept@;
            assert(queue.len() == self.sessions@.len());
            let session = self.sessions.remove(0);
            proof {
                assert(queue[0] == session@);
                assert(self@ =~= queue.drop_first());
                assert(queue.drop_first() =~= all.skip(taken + 1));
                assert(all.take(taken + 1).drop_last() =~= all.take(taken));
                assert(all.take(taken + 1).last() == all[taken]);
                assert(all[taken] == queue[0]);
                assert(views(before.push(session)) =~= views(before).push(session@));
            }
            if !session.expired(now) {
                kept.push(session);
            }
            proof {
                taken = taken + 1;
            }
        }
        assert(all.take(taken) =~= all) by {
            assert(all.skip(taken).len() == self.sessions@.len());
        }
        self.sessions = kept;
    }

    /// Takes the session of the joiner out, where there is one.
    pub fn take(&mut self, joiner_iid: &[u8; 8]) -> (session: Option<JoinerSession>)
        ensures
            match (session, session_position(old(self)@, joiner_iid@)) {
                (Some(session), Some(i)) => 0 <= i < old(self)@.len() && session@ == old(self)@[i]
                    && final(self)@ == old(self)@.remove(i),
                (None, None) => final(self)@ == old(self)@,
                _ => false,
            },
            one_each(old(self)@) ==> one_each(final(self)@),
    {
        let ghost matching = |session: JoinerView| session.joiner_iid == joiner_iid@;
        let mut i: usize = 0;
        while i < self.sessions.len()
            invariant
                i <= self.sessions@.len(),
                self@ == old(self)@,
                matching == (|session: JoinerView| session.joiner_iid == joiner_iid@),
                forall|j: int| 0 <= j < i ==> !matching(#[trigger] self@[j]),
            decreases self.sessions@.len() - i,
        {
            assert(self@[i as int] == self.sessions@[i as int]@);
            let iid: [u8; 8] = self.sessions[i].joiner_iid();
            if crate::bytes::same_bytes(iid.as_slice(), joiner_iid.as_slice()) {
                proof {
                    lemma_position(self@, matching, i as int);
                }
                let session = self.sessions.remove(i);
                proof {
                    assert(self@ =~= old(self)@.remove(i as int));
                    if one_each(old(self)@) {
                        lemma_removal_keeps_one_each(old(self)@, i as int);
                    }
                }
                return Some(session);
            }
            i = i + 1;
        }
        proof {
            lemma_no_position(self@, matching);
        }
        None
    }

    /// Decides what becomes of a payload relayed for the joiner at `now`, once
    /// the sessions past their deadline are dropped: without a handler
    /// nothing, with a session that it takes the payload, and otherwise the
    /// handler has to be asked.
    pub fn assign(&mut self, joiner_iid: &[u8; 8], handled: bool, now: u128) -> (admission:
        Admission)
        ensures
            ({
                let live = unexpired_sessions(old(self)@, now);
                match (admission, session_position(live, joiner_iid@)) {
                    (Admission::Ignore, _) => !handled && final(self)@ == live,
                    (Admission::Serve(session), Some(i)) => handled && 0 <= i < live.len()
                        && session@ == live[i] && final(self)@ == live.remove(i),
                    (Admission::AskForPskd { joiner_id }, None) => handled && joiner_id@
                        == restored_id(joiner_iid@) && final(self)@ == live,
                    _ => false,
                }
            }),
            one_each(old(self)@) ==> one_each(final(self)@),
    {
        self.sweep(now);
        if !handled {
            return Admission::Ignore;
        }
        match self.take(joiner_iid) {
            Some(session) => Admission::Serve(session),
            None => Admission::AskForPskd { joiner_id: joiner_id_from_iid(joiner_iid) },
        }
    }

    /// Puts a session back after it took a payload; one that failed is
    /// dropped.
    pub fn settle(&mut self, session: JoinerSession, failed: bool)
        ensures
            final(self)@ == if failed {
                old(self)@
            } else {
                with_session(old(self)@, session@)
            },
            one_each(old(self)@) ==> one_each(final(self)@),
    {
        if !failed {
            self.keep(session);
        }
    }

    /// Keeps a session, in place of another one of the same joiner.
    pub fn keep(&mut self, session: JoinerSession)
        ensures
            final(self)@ == with_session(old(self)@, session@),
            one_each(old(self)@) ==> one_each(final(self)@),
    {
        let iid: [u8; 8] = session.joiner_iid();
        let _ = self.take(&iid);
        proof {
            if one_each(old(self)@) {
                lemma_replacing_keeps_one_each(old(self)@, session@);
            }
            assert(views(self.sessions@.push(session)) =~= views(self.sessions@).push(session@));
        }
        self.sessions.push(session);
    }
}

proof fn lemma_removal_keeps_one_each(sessions: Seq<JoinerView>, at: int)
    requires
        one_each(sessions),
        0 <= at < sessions.len(),
    ensures
        one_each(sessions.remove(at)),
{
    let left = sessions.remove(at);
    assert(forall|i: int|
        0 <= i < left.len() ==> #[trigger] left[i] == if i < at {
            sessions[i]
        } else {
            sessions[i + 1]
        });
}

proof fn lemma_replacing_keeps_one_each(sessions: Seq<JoinerView>, session: JoinerView)
    requires
        one_each(sessions),
    ensures
        one_each(with_session(sessions, session)),
{
    let matching = |other: JoinerView| other.joiner_iid == session.joiner_iid;
    match session_position(sessions, session.joiner_iid) {
        Some(at) => {
            lemma_position_bounds(sessions, matching);
            lemma_removal_keeps_one_each(sessions, at);
            let left = sessions.remove(at);
            assert forall|i: int| 0 <= i < left.len() implies (#[trigger] left[i]).joiner_iid
                != session.joiner_iid by {
                assert(matching(sessions[at]));
                if i < at {
                    assert(left[i] == sessions[i]);
                } else {
                    assert(left[i] == sessions[i + 1]);
                }
            }
        },
        None => {
            lemma_absent(sessions, matching);
            assert forall|i: int| 0 <= i < sessions.len() implies (
            #[trigger] sessions[i]).joiner_iid != session.joiner_iid by {
                assert(!matching(sessions[i]));
            }
        },
    }
}

proof fn lemma_sweep_keeps_one_each(sessions: Seq<JoinerView>, now: u128)
    requires
        one_each(sessions),
    ensures
        one_each(unexpired_sessions(sessions, now)),
        forall|i: int|
            0 <= i < unexpired_sessions(sessions, now).len() ==> sessions.contains(
                #[trigger] unexpired_sessions(sessions, now)[i],
            ),
    decreases sessions.len(),
{
    if sessions.len() > 0 {
        let shorter = sessions.drop_last();
        let rest = unexpired_sessions(shorter, now);
        let kept = unexpired_sessions(sessions, now);
        lemma_sweep_keeps_one_each(shorter, now);
        assert(sessions[sessions.len() - 1] == sessions.last());
        assert forall|i: int| 0 <= i < kept.len() implies sessions.contains(
            #[trigger] kept[i],
        ) by {
            if i < rest.len() {
                assert(kept[i] == rest[i]);
                let j = choose|j: int| 0 <= j < shorter.len() && shorter[j] == rest[i];
                assert(sessions[j] == kept[i]);
            }
        }
        assert forall|i: int, j: int| 0 <= i < j < kept.len() implies (
        #[trigger] kept[i]).joiner_iid != (#[trigger] kept[j]).joiner_iid by {
            assert(kept[i] == rest[i]);
            if j < rest.len() {
                assert(kept[j] == rest[j]);
            } else {
                let k = choose|k: int| 0 <= k < shorter.len() && shorter[k] == rest[i];
                assert(sessions[k].joiner_iid != sessions[sessions.len() - 1].joiner_iid);
            }
        }
    }
}

/// A session survives the sweep until its deadline, and no longer.
pub proof fn law_sessions_live_until_their_deadline(
    sessions: Seq<JoinerView>,
    now: u128,
    session: JoinerView,
)
    ensures
        unexpired_sessions(sessions, now).contains(session) <==> sessions.contains(session) && now
            < session.expires_at,
    decreases sessions.len(),
{
    let kept = unexpired_sessions(sessions, now);
    if sessions.len() > 0 {
        let shorter = sessions.drop_last();
        let rest = unexpired_sessions(shorter, now);
        law_sessions_live_until_their_deadline(shorter, now, session);
        if sessions.contains(session) {
            let i = choose|i: int| 0 <= i < sessions.len() && sessions[i] == session;
            if i < shorter.len() {
                assert(shorter[i] == session);
                assert(shorter.contains(session));
            }
        }
        if shorter.contains(session) {
            let i = choose|i: int| 0 <= i < shorter.len() && shorter[i] == session;
            assert(sessions[i] == session);
        }
        assert(sessions[sessions.len() - 1] == sessions.last());
        if now < sessions.last().expires_at {
            assert(kept == rest.push(sessions.last()));
            assert(kept[rest.len() as int] == sessions.last());
            if rest.contains(session) {
                let i = choose|i: int| 0 <= i < rest.len() && rest[i] == session;
                assert(kept[i] == session);
            }
            if kept.contains(session) && session != sessions.last() {
                let i = choose|i: int| 0 <= i < kept.len() && kept[i] == session;
                assert(rest[i] == session);
            }
        }
    }
}

/// What a session's results ask the driver for.
pub open spec fn output_of(
    session: JoinerView,
    event: JoinerEventView,
    kek: Option<Seq<u8>>,
) -> Result<RelayOutputView, ErrorView> {
    match event {
        JoinerEventView::Transmit { datagram, include_kek } => if include_kek && kek is None {
            Err(no_joiner_keys())
        } else if datagram.len() > 0xffff {
            Err(oversized_tlv())
        } else {
            Ok(
                RelayOutputView::Send(
                    post(
                        crate::commissioner::coap::CoapType::NonConfirmable,
                        0,
                        Seq::empty(),
                        URI_RELAY_TX@,
                        relay_tx_payload(
                            session.joiner_iid,
                            session.joiner_udp_port,
                            session.joiner_router_locator,
                            datagram,
                            if include_kek {
                                kek
                            } else {
                                None
                            },
                        ),
                    ),
                ),
            )
        },
        JoinerEventView::Connected => Ok(
            RelayOutputView::Publish(
                EventView::JoinerConnected { joiner_id: session.joiner_id },
            ),
        ),
        JoinerEventView::Finalized { accepted, info } => Ok(
            RelayOutputView::Publish(
                EventView::JoinerFinalized { joiner_id: session.joiner_id, accepted, info },
            ),
        ),
    }
}

/// What a session's results ask the driver for, in order; the first that
/// cannot be asked for fails.
pub open spec fn outputs_of(
    session: JoinerView,
    events: Seq<JoinerEventView>,
    kek: Option<Seq<u8>>,
) -> Result<Seq<RelayOutputView>, ErrorView>
    decreases events.len(),
{
    if events.len() == 0 {
        Ok(Seq::empty())
    } else {
        match outputs_of(session, events.drop_last(), kek) {
            Err(error) => Err(error),
            Ok(outputs) => match output_of(session, events.last(), kek) {
                Err(error) => Err(error),
                Ok(output) => Ok(outputs.push(output)),
            },
        }
    }
}

/// An optional KEK over views.
pub open spec fn kek_view(kek: Option<[u8; 16]>) -> Option<Seq<u8>> {
    match kek {
        Some(kek) => Some(kek@),
        None => None,
    }
}

fn relay_output(session: &JoinerSession, event: JoinerSessionEvent, kek: &Option<[u8; 16]>)
    -> (result: Result<RelayOutput, Error>)
    ensures
        match (result, output_of(session@, event@, kek_view(*kek))) {
            (Ok(output), Ok(expected)) => output@ == expected,
            (Err(error), Err(expected)) => error@ == expected,
            _ => false,
        },
{
    match event {
        JoinerSessionEvent::Transmit { datagram, include_kek } => {
            let iid: [u8; 8] = session.joiner_iid();
            let port: u16 = session.joiner_udp_port();
            let locator: u16 = session.joiner_router_locator();
            let message = if include_kek {
                match kek {
                    None => {
                        return Err(Error::InvalidState("joiner key material is not derived"));
                    },
                    Some(kek) => relay_tx_request(
                        iid.as_slice(),
                        port,
                        locator,
                        datagram.as_slice(),
                        Some(kek.as_slice()),
                    ),
                }
            } else {
                relay_tx_request(iid.as_slice(), port, locator, datagram.as_slice(), None)
            };
            match message {
                Err(error) => Err(error),
                Ok(message) => Ok(RelayOutput::Send(message)),
            }
        },
        JoinerSessionEvent::Connected => Ok(
            RelayOutput::Publish(
                CommissionerEvent::JoinerConnected { joiner_id: session.joiner_id() },
            ),
        ),
        JoinerSessionEvent::Finalized { accepted, info } => Ok(
            RelayOutput::Publish(
                CommissionerEvent::JoinerFinalized {
                    joiner_id: session.joiner_id(),
                    accepted,
                    info,
                },
            ),
        ),
    }
}

proof fn lemma_failed_output(
    session: JoinerView,
    events: Seq<JoinerEventView>,
    kek: Option<Seq<u8>>,
    i: int,
)
    requires
        0 <= i <= events.len(),
        outputs_of(session, events.take(i), kek) is Err,
    ensures
        outputs_of(session, events, kek) == outputs_of(session, events.take(i), kek),
    decreases events.len() - i,
{
    if i < events.len() {
        assert(events.take(i + 1).drop_last() =~= events.take(i));
        lemma_failed_output(session, events, kek, i + 1);
    } else {
        assert(events.take(i) =~= events);
    }
}

/// What a session's results ask the driver for: datagrams go out in RLY_TX,
/// with the KEK where the joiner router is to entrust the joiner, and the rest
/// is published.
pub fn relay_outputs(
    session: &JoinerSession,
    events: Vec<JoinerSessionEvent>,
    kek: Option<[u8; 16]>,
) -> (result: Result<Vec<RelayOutput>, Error>)
    ensures
        match (result, outputs_of(session@, views(events@), kek_view(kek))) {
            (Ok(outputs), Ok(expected)) => views(outputs@) == expected,
            (Err(error), Err(expected)) => error@ == expected,
            _ => false,
        },
{
    let ghost all = views(events@);
    let ghost mut taken: int = 0;
    let mut queue = events;
    let mut outputs: Vec<RelayOutput> = Vec::new();
    proof {
        assert(all.skip(0) =~= all);
        assert(all.take(0) =~= Seq::<JoinerEventView>::empty());
        assert(views(outputs@) =~= Seq::<RelayOutputView>::empty());
    }
    while queue.len() > 0
        invariant
            0 <= taken <= all.len(),
            all == views(events@),
            views(queue@) == all.skip(taken),
            outputs_of(session@, all.take(taken), kek_view(kek)) == Ok::<
                Seq<RelayOutputView>,
                ErrorView,
            >(views(outputs@)),
        decreases queue@.len(),
    {
        let ghost rest = views(queue@);
        let ghost before = outputs@;
        assert(rest.len() == queue@.len());
        let event = queue.remove(0);
        proof {
            assert(rest[0] == event@);
            assert(views(queue@) =~= rest.drop_first());
            assert(rest.drop_first() =~= all.skip(taken + 1));
            assert(all.take(taken + 1).drop_last() =~= all.take(taken));
            assert(all.take(taken + 1).last() == all[taken]);
            assert(all[taken] == rest[0]);
        }
        match relay_output(session, event, &kek) {
            Err(error) => {
                proof {
                    lemma_failed_output(session@, all, kek_view(kek), taken + 1);
                }
                return Err(error);
            },
            Ok(output) => {
                proof {
                    assert(views(before.push(output)) =~= views(before).push(output@));
                }
                outputs.push(output);
            },
        }
        proof {
            taken = taken + 1;
        }
    }
    assert(all.take(taken) =~= all) by {
        assert(all.skip(taken).len() == queue@.len());
    }
    Ok(outputs)
}

/// A session that is kept is found under its joiner, in place of any other of
/// that joiner; every other joiner has the session that it had.
pub proof fn law_a_kept_session_is_found(
    sessions: Seq<JoinerView>,
    session: JoinerView,
    other: JoinerView,
)
    requires
        one_each(sessions),
        other.joiner_iid != session.joiner_iid,
    ensures
        ({
            let kept = with_session(sessions, session);
            &&& session_position(kept, session.joiner_iid) matches Some(i) && 0 <= i < kept.len()
                && kept[i] == session
            &&& kept.contains(other) <==> sessions.contains(other)
        }),
{
    let kept = with_session(sessions, session);
    let matching = |one: JoinerView| one.joiner_iid == session.joiner_iid;
    lemma_replacing_keeps_one_each(sessions, session);
    let last = kept.len() - 1;
    assert(kept[last] == session);
    assert forall|j: int| 0 <= j < last implies !matching(#[trigger] kept[j]) by {
        assert(kept[j].joiner_iid != kept[last].joiner_iid);
    }
    lemma_position(kept, matching, last);
    lemma_position_bounds(sessions, matching);
    if sessions.contains(other) {
        let i = choose|i: int| 0 <= i < sessions.len() && sessions[i] == other;
        match session_position(sessions, session.joiner_iid) {
            Some(at) => {
                assert(matching(sessions[at]));
                if i < at {
                    assert(kept[i] == other);
                } else {
                    assert(kept[i - 1] == other);
                }
            },
            None => {
                assert(kept[i] == other);
            },
        }
    }
    if kept.contains(other) {
        let i = choose|i: int| 0 <= i < kept.len() && kept[i] == other;
        match session_position(sessions, session.joiner_iid) {
            Some(at) => {
                if i < at {
                    assert(sessions[i] == other);
                } else {
                    assert(sessions[i + 1] == other);
                }
            },
            None => {
                assert(sessions[i] == other);
            },
        }
    }
}

} // verus!

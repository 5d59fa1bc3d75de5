//! Confirmable messages the driver has already answered, so a retransmission
//! gets the same reply again instead of being handled twice (RFC 7252, section
//! 4.5).
//!
//! A sender retransmits a confirmable message until it sees an
//! acknowledgement. When the driver's acknowledgement is lost, the copy that
//! follows must be acknowledged again, but must not complete a second
//! exchange or publish a second event.

use vstd::prelude::*;

use crate::bytes::views;
use crate::commissioner::coap::{CoapMessage, CoapView};
use crate::commissioner::exchange::{lemma_absent, lemma_no_position, lemma_position, position};
use crate::commissioner::types::{Destination, DestinationView};

verus! {

/// How long a sender may keep retransmitting a confirmable message, in
/// nanoseconds: RFC 7252's EXCHANGE_LIFETIME with the default transmission
/// parameters.
pub const EXCHANGE_LIFETIME: u128 = 247_000_000_000;

/// The most answered messages remembered at once. Devices on the mesh choose
/// how many confirmable messages they send, so the record is bounded; the
/// oldest entry is forgotten first.
pub const MAX_REMEMBERED: usize = 64;

/// A message that was answered.
#[derive(Debug)]
struct Answered {
    origin: Destination,
    message_id: u16,
    reply: CoapMessage,
    at: u128,
}

/// A message that was answered, over views.
#[verifier::ext_equal]
pub struct AnsweredView {
    pub origin: DestinationView,
    pub message_id: u16,
    pub reply: CoapView,
    pub at: u128,
}

impl View for Answered {
    type V = AnsweredView;

    closed spec fn view(&self) -> AnsweredView {
        AnsweredView {
            origin: self.origin@,
            message_id: self.message_id,
            reply: self.reply@,
            at: self.at,
        }
    }
}

/// Recently answered confirmable messages, oldest first.
#[derive(Debug)]
pub struct AnsweredMessages {
    entries: Vec<Answered>,
}

impl View for AnsweredMessages {
    type V = Seq<AnsweredView>;

    closed spec fn view(&self) -> Seq<AnsweredView> {
        views(self.entries@)
    }
}

/// The entries at `now`, those at the front gone that have outlived the
/// exchange lifetime.
pub open spec fn unexpired(entries: Seq<AnsweredView>, now: u128) -> Seq<AnsweredView>
    decreases entries.len(),
{
    if entries.len() > 0 && entries[0].at + EXCHANGE_LIFETIME <= now {
        unexpired(entries.drop_first(), now)
    } else {
        entries
    }
}

/// The reply that was already sent to a message at `now`, if it was answered
/// within the exchange lifetime.
pub open spec fn reply_in(
    entries: Seq<AnsweredView>,
    origin: DestinationView,
    message_id: u16,
    now: u128,
) -> Option<CoapView> {
    let recent = unexpired(entries, now);
    match position(
        recent,
        |entry: AnsweredView| entry.origin == origin && entry.message_id == message_id,
    ) {
        Some(i) => Some(recent[i].reply),
        None => None,
    }
}

/// The entries after one more message was answered.
pub open spec fn remembered(entries: Seq<AnsweredView>, answered: AnsweredView) -> Seq<
    AnsweredView,
> {
    let recent = unexpired(entries, answered.at);
    let kept = if recent.len() == MAX_REMEMBERED {
        recent.drop_first()
    } else {
        recent
    };
    kept.push(answered)
}

/// The entries that came from devices on the mesh.
pub open spec fn from_the_mesh(entries: Seq<AnsweredView>) -> Seq<AnsweredView>
    decreases entries.len(),
{
    if entries.len() == 0 {
        Seq::empty()
    } else {
        let rest = from_the_mesh(entries.drop_last());
        if entries.last().origin is Mesh {
            rest.push(entries.last())
        } else {
            rest
        }
    }
}

impl AnsweredMessages {
    /// No messages.
    pub fn new() -> (answered: Self)
        ensures
            answered@ == Seq::<AnsweredView>::empty(),
    {
        let answered = AnsweredMessages { entries: Vec::new() };
        assert(answered@ =~= Seq::<AnsweredView>::empty());
        answered
    }

    /// Returns the reply already sent to the message `message_id` from
    /// `origin`, if it was answered within the exchange lifetime.
    pub fn reply_to(&mut self, origin: Destination, message_id: u16, now: u128) -> (reply: Option<
        CoapMessage,
    >)
        ensures
            final(self)@ == unexpired(old(self)@, now),
            match (reply, reply_in(old(self)@, origin@, message_id, now)) {
                (Some(reply), Some(expected)) => reply@ == expected,
                (None, None) => true,
                _ => false,
            },
    {
        self.forget_expired(now);
        let ghost matching = |entry: AnsweredView|
            entry.origin == origin@ && entry.message_id == message_id;
        let mut i: usize = 0;
        while i < self.entries.len()
            invariant
                i <= self.entries@.len(),
                self@ == unexpired(old(self)@, now),
                matching == (|entry: AnsweredView|
                    entry.origin == origin@ && entry.message_id == message_id),
                forall|j: int| 0 <= j < i ==> !matching(#[trigger] self@[j]),
            decreases self.entries@.len() - i,
        {
            assert(self@[i as int] == self.entries@[i as int]@);
            if self.entries[i].message_id == message_id && self.entries[i].origin.same(&origin) {
                proof {
                    lemma_position(self@, matching, i as int);
                }
                return Some(self.entries[i].reply.clone());
            }
            i = i + 1;
        }
        proof {
            lemma_no_position(self@, matching);
        }
        None
    }

    /// Records that the message `message_id` from `origin` was answered with
    /// `reply` at `now`.
    pub fn remember(&mut self, origin: Destination, message_id: u16, reply: CoapMessage, now: u128)
        ensures
            final(self)@ == remembered(
                old(self)@,
                (AnsweredView { origin: origin@, message_id, reply: reply@, at: now }),
            ),
            old(self)@.len() <= MAX_REMEMBERED ==> final(self)@.len() <= MAX_REMEMBERED,
    {
        proof {
            lemma_unexpired_len(old(self)@, now);
        }
        self.forget_expired(now);
        if self.entries.len() == MAX_REMEMBERED {
            self.entries.remove(0);
            assert(self@ =~= unexpired(old(self)@, now).drop_first());
        }
        let ghost kept = self@;
        self.entries.push(Answered { origin, message_id, reply, at: now });
        assert(self@ =~= kept.push(
            AnsweredView { origin: origin@, message_id, reply: reply@, at: now },
        ));
    }

    /// Forgets the border agent's messages. A reopened DTLS session is a new
    /// association, in which the border agent may reuse the last one's
    /// message IDs.
    pub fn forget_border_agent(&mut self)
        ensures
            final(self)@ == from_the_mesh(old(self)@),
    {
        let ghost all = self@;
        let mut kept: Vec<Answered> = Vec::new();
        let ghost mut taken: int = 0;
        assert(all.skip(0) =~= all);
        assert(views(kept@) =~= from_the_mesh(all.take(0)));
        while self.entries.len() > 0
            invariant
                0 <= taken <= all.len(),
                self@ == all.skip(taken),
                views(kept@) == from_the_mesh(all.take(taken)),
            decreases self.entries@.len(),
        {
            let ghost queue = self@;
            let ghost before = kept@;
            assert(queue.len() == self.entries@.len());
            let entry = self.entries.remove(0);
            proof {
                assert(queue[0] == entry@);
                assert(self@ =~= queue.drop_first());
                assert(queue.drop_first() =~= all.skip(taken + 1));
                assert(all.take(taken + 1).drop_last() =~= all.take(taken));
                assert(all.take(taken + 1).last() == all[taken]);
                assert(all[taken] == queue[0]);
                assert(views(before.push(entry)) =~= views(before).push(entry@));
            }
            if entry.origin.is_mesh() {
                kept.push(entry);
            }
            proof {
                taken = taken + 1;
            }
        }
        assert(all.take(taken) =~= all) by {
            assert(all.skip(taken).len() == self.entries@.len());
        }
        self.entries = kept;
    }

    fn forget_expired(&mut self, now: u128)
        ensures
            final(self)@ == unexpired(old(self)@, now),
    {
        while self.entries.len() > 0 && now >= EXCHANGE_LIFETIME && self.entries[0].at <= now
            - EXCHANGE_LIFETIME
            invariant
                unexpired(self@, now) == unexpired(old(self)@, now),
            decreases self.entries@.len(),
        {
            let ghost before = self@;
            assert(before[0] == self.entries@[0]@);
            self.entries.remove(0);
            assert(self@ =~= before.drop_first());
        }
        proof {
            if self.entries@.len() > 0 {
                assert(self@[0] == self.entries@[0]@);
            }
            assert(self@.len() == self.entries@.len());
        }
    }
}

proof fn lemma_unexpired_len(entries: Seq<AnsweredView>, now: u128)
    ensures
        unexpired(entries, now).len() <= entries.len(),
    decreases entries.len(),
{
    if entries.len() > 0 && entries[0].at + EXCHANGE_LIFETIME <= now {
        lemma_unexpired_len(entries.drop_first(), now);
    }
}

/// At most 64 messages are remembered, whatever is answered.
pub proof fn law_memory_is_bounded(entries: Seq<AnsweredView>, answered: AnsweredView)
    requires
        entries.len() <= MAX_REMEMBERED,
    ensures
        remembered(entries, answered).len() <= MAX_REMEMBERED,
        remembered(entries, answered).last() == answered,
{
    lemma_unexpired_len(entries, answered.at);
}

/// A message that was just answered gets the same reply again, unless an
/// older entry for the same message is still remembered, which then gives its
/// own.
pub proof fn law_an_answer_is_repeated(entries: Seq<AnsweredView>, answered: AnsweredView)
    requires
        reply_in(entries, answered.origin, answered.message_id, answered.at) is None,
    ensures
        forall|now: u128|
            answered.at <= now < answered.at + EXCHANGE_LIFETIME ==> #[trigger] reply_in(
                remembered(entries, answered),
                answered.origin,
                answered.message_id,
                now,
            ) == Some(answered.reply),
{
    assert forall|now: u128|
        answered.at <= now < answered.at + EXCHANGE_LIFETIME implies #[trigger] reply_in(
        remembered(entries, answered),
        answered.origin,
        answered.message_id,
        now,
    ) == Some(answered.reply) by {
        let matching = |entry: AnsweredView|
            entry.origin == answered.origin && entry.message_id == answered.message_id;
        let recent = unexpired(entries, answered.at);
        lemma_absent(recent, matching);
        let kept = if recent.len() == MAX_REMEMBERED {
            recent.drop_first()
        } else {
            recent
        };
        assert forall|j: int| 0 <= j < kept.len() implies !matching(#[trigger] kept[j]) by {
            if recent.len() == MAX_REMEMBERED {
                assert(kept[j] == recent[j + 1]);
            } else {
                assert(kept[j] == recent[j]);
            }
        }
        lemma_newest_stays(kept, answered, now);
        let left = unexpired(kept.push(answered), now);
        lemma_unexpired_is_suffix(kept.push(answered), now);
        assert forall|j: int| 0 <= j < left.len() - 1 implies !matching(#[trigger] left[j]) by {
            let cut = kept.len() + 1 - left.len();
            assert(left[j] == kept.push(answered)[cut + j]);
            assert(left[j] == kept[cut + j]);
        }
        lemma_position(left, matching, left.len() - 1);
    }
}

proof fn lemma_unexpired_is_suffix(entries: Seq<AnsweredView>, now: u128)
    ensures
        unexpired(entries, now).len() <= entries.len(),
        unexpired(entries, now) == entries.skip(entries.len() - unexpired(entries, now).len()),
    decreases entries.len(),
{
    if entries.len() > 0 && entries[0].at + EXCHANGE_LIFETIME <= now {
        lemma_unexpired_is_suffix(entries.drop_first(), now);
        let rest = unexpired(entries, now);
        assert(rest =~= entries.skip(entries.len() - rest.len()));
    } else {
        assert(entries.skip(0) =~= entries);
    }
}

proof fn lemma_newest_stays(kept: Seq<AnsweredView>, answered: AnsweredView, now: u128)
    requires
        now < answered.at + EXCHANGE_LIFETIME,
    ensures
        unexpired(kept.push(answered), now).len() > 0,
        unexpired(kept.push(answered), now).last() == answered,
    decreases kept.len(),
{
    let all = kept.push(answered);
    if all[0].at + EXCHANGE_LIFETIME <= now {
        assert(kept.len() > 0);
        assert(all.drop_first() =~= kept.drop_first().push(answered));
        lemma_newest_stays(kept.drop_first(), answered, now);
    }
}

/// What can happen to the record of answered messages: a message is answered,
/// it is asked for a reply at some time, or the border agent's messages are
/// forgotten.
pub enum MemoryEvent {
    Answer(AnsweredView),
    Ask(u128),
    ForgetBorderAgent,
}

impl MemoryEvent {
    /// The entries after the event.
    pub open spec fn apply(self, entries: Seq<AnsweredView>) -> Seq<AnsweredView> {
        match self {
            MemoryEvent::Answer(answered) => remembered(entries, answered),
            MemoryEvent::Ask(now) => unexpired(entries, now),
            MemoryEvent::ForgetBorderAgent => from_the_mesh(entries),
        }
    }

    /// Whether the event does not lie before `now`.
    pub open spec fn not_before(self, now: u128) -> bool {
        match self {
            MemoryEvent::Answer(answered) => now <= answered.at,
            MemoryEvent::Ask(at) => now <= at,
            MemoryEvent::ForgetBorderAgent => true,
        }
    }

    /// The time after the event, where it was `now` before.
    pub open spec fn time(self, now: u128) -> u128 {
        match self {
            MemoryEvent::Answer(answered) => answered.at,
            MemoryEvent::Ask(at) => at,
            MemoryEvent::ForgetBorderAgent => now,
        }
    }

    /// Whether the event answers the message.
    pub open spec fn answers(self, origin: DestinationView, message_id: u16) -> bool {
        self matches MemoryEvent::Answer(answered) && answered.origin == origin
            && answered.message_id == message_id
    }
}

/// The entries after events, the first of them first.
pub open spec fn entries_after(entries: Seq<AnsweredView>, events: Seq<MemoryEvent>) -> Seq<
    AnsweredView,
>
    decreases events.len(),
{
    if events.len() == 0 {
        entries
    } else {
        events.last().apply(entries_after(entries, events.drop_last()))
    }
}

/// The time after events, where it was `now` before them.
pub open spec fn time_after(now: u128, events: Seq<MemoryEvent>) -> u128
    decreases events.len(),
{
    if events.len() == 0 {
        now
    } else {
        events.last().time(time_after(now, events.drop_last()))
    }
}

/// Whether no event lies before `now` or before the one in front of it.
pub open spec fn in_time_order(now: u128, events: Seq<MemoryEvent>) -> bool
    decreases events.len(),
{
    events.len() > 0 ==> {
        &&& in_time_order(now, events.drop_last())
        &&& events.last().not_before(time_after(now, events.drop_last()))
    }
}

/// How many messages events answer.
pub open spec fn answers_in(events: Seq<MemoryEvent>) -> nat
    decreases events.len(),
{
    if events.len() == 0 {
        0
    } else {
        answers_in(events.drop_last()) + if events.last() is Answer {
            1nat
        } else {
            0
        }
    }
}

/// Whether no event answers the message.
pub open spec fn never_answered(
    events: Seq<MemoryEvent>,
    origin: DestinationView,
    message_id: u16,
) -> bool {
    forall|i: int| 0 <= i < events.len() ==> !(#[trigger] events[i]).answers(origin, message_id)
}

/// Whether the entries are what answering in time order up to `now` leaves:
/// at most 64, the oldest first.
pub open spec fn orderly(entries: Seq<AnsweredView>, now: u128) -> bool {
    &&& entries.len() <= MAX_REMEMBERED
    &&& forall|i: int, j: int|
        0 <= i <= j < entries.len() ==> (#[trigger] entries[i]).at <= (#[trigger] entries[j]).at
    &&& forall|i: int| 0 <= i < entries.len() ==> (#[trigger] entries[i]).at <= now
}

/// Whether no entry is one of the message.
pub open spec fn unknown(
    entries: Seq<AnsweredView>,
    origin: DestinationView,
    message_id: u16,
) -> bool {
    forall|i: int|
        0 <= i < entries.len() ==> !((#[trigger] entries[i]).origin == origin
            && entries[i].message_id == message_id)
}

pub(crate) proof fn lemma_unexpired_is_orderly(entries: Seq<AnsweredView>, now: u128)
    requires
        orderly(entries, now),
    ensures
        orderly(unexpired(entries, now), now),
{
    lemma_unexpired_is_suffix(entries, now);
    let left = unexpired(entries, now);
    let cut = entries.len() - left.len();
    assert(forall|i: int| 0 <= i < left.len() ==> #[trigger] left[i] == entries[cut + i]);
}

pub(crate) proof fn lemma_remembered_is_orderly(entries: Seq<AnsweredView>, answered: AnsweredView)
    requires
        orderly(entries, answered.at),
    ensures
        orderly(remembered(entries, answered), answered.at),
{
    lemma_unexpired_is_orderly(entries, answered.at);
    lemma_unexpired_len(entries, answered.at);
    let recent = unexpired(entries, answered.at);
    if recent.len() == MAX_REMEMBERED {
        let kept = recent.drop_first();
        assert(forall|i: int| 0 <= i < kept.len() ==> #[trigger] kept[i] == recent[i + 1]);
    }
}

pub(crate) proof fn lemma_mesh_is_orderly(entries: Seq<AnsweredView>, now: u128)
    requires
        orderly(entries, now),
    ensures
        orderly(from_the_mesh(entries), now),
    decreases entries.len(),
{
    if entries.len() > 0 {
        let shorter = entries.drop_last();
        let rest = from_the_mesh(shorter);
        let mesh = from_the_mesh(entries);
        lemma_mesh_is_orderly(shorter, now);
        lemma_mesh_is_part(shorter);
        lemma_mesh_len(entries);
        assert(entries[entries.len() - 1] == entries.last());
        assert forall|i: int, j: int| 0 <= i <= j < mesh.len() implies (#[trigger] mesh[i]).at <= (
        #[trigger] mesh[j]).at by {
            if j == rest.len() && i < rest.len() {
                assert(shorter.contains(rest[i]));
                let k = choose|k: int| 0 <= k < shorter.len() && shorter[k] == rest[i];
                assert(entries[k].at <= entries[entries.len() - 1].at);
            }
        }
    }
}

proof fn lemma_mesh_len(entries: Seq<AnsweredView>)
    ensures
        from_the_mesh(entries).len() <= entries.len(),
    decreases entries.len(),
{
    if entries.len() > 0 {
        lemma_mesh_len(entries.drop_last());
    }
}

/// What events in time order leave is orderly.
pub proof fn law_memory_stays_orderly(
    entries: Seq<AnsweredView>,
    now: u128,
    events: Seq<MemoryEvent>,
)
    requires
        orderly(entries, now),
        in_time_order(now, events),
    ensures
        orderly(entries_after(entries, events), time_after(now, events)),
        now <= time_after(now, events),
    decreases events.len(),
{
    if events.len() > 0 {
        law_memory_stays_orderly(entries, now, events.drop_last());
        let before = entries_after(entries, events.drop_last());
        match events.last() {
            MemoryEvent::Answer(answered) => {
                lemma_remembered_is_orderly(before, answered);
            },
            MemoryEvent::Ask(at) => {
                lemma_unexpired_is_orderly(before, at);
            },
            MemoryEvent::ForgetBorderAgent => {
                lemma_mesh_is_orderly(before, time_after(now, events.drop_last()));
            },
        }
    }
}

/// Whether the entry is remembered with `behind` answered after it, and is
/// the only one of its message.
pub open spec fn remembered_before(
    entries: Seq<AnsweredView>,
    answered: AnsweredView,
    behind: nat,
) -> bool {
    &&& behind < entries.len()
    &&& entries[entries.len() - 1 - behind] == answered
    &&& forall|i: int|
        0 <= i < entries.len() && i != entries.len() - 1 - behind ==> !((
        #[trigger] entries[i]).origin == answered.origin && entries[i].message_id
            == answered.message_id)
}

/// Letting entries expire drops the entry once its lifetime has passed, and
/// leaves it and all behind it until then.
proof fn lemma_expiry(
    entries: Seq<AnsweredView>,
    answered: AnsweredView,
    behind: nat,
    now: u128,
)
    requires
        orderly(entries, now),
        remembered_before(entries, answered, behind),
    ensures
        now < answered.at + EXCHANGE_LIFETIME ==> remembered_before(
            unexpired(entries, now),
            answered,
            behind,
        ),
        now >= answered.at + EXCHANGE_LIFETIME ==> unknown(
            unexpired(entries, now),
            answered.origin,
            answered.message_id,
        ),
    decreases entries.len(),
{
    let place = entries.len() - 1 - behind;
    assert(entries[0].at <= entries[place].at);
    if entries[0].at + EXCHANGE_LIFETIME <= now {
        let rest = entries.drop_first();
        assert(forall|i: int| 0 <= i < rest.len() ==> #[trigger] rest[i] == entries[i + 1]);
        if place == 0 {
            lemma_unexpired_is_suffix(rest, now);
            let left = unexpired(rest, now);
            let cut = rest.len() - left.len();
            assert(forall|i: int| 0 <= i < left.len() ==> #[trigger] left[i] == rest[cut + i]);
        } else {
            lemma_expiry(rest, answered, behind, now);
        }
    }
}

proof fn lemma_unknown_stays(
    entries: Seq<AnsweredView>,
    origin: DestinationView,
    message_id: u16,
    event: MemoryEvent,
)
    requires
        unknown(entries, origin, message_id),
        !event.answers(origin, message_id),
    ensures
        unknown(event.apply(entries), origin, message_id),
{
    match event {
        MemoryEvent::Answer(answered) => {
            lemma_unexpired_is_suffix(entries, answered.at);
            let recent = unexpired(entries, answered.at);
            let cut = entries.len() - recent.len();
            assert(forall|i: int| 0 <= i < recent.len() ==> #[trigger] recent[i] == entries[cut + i]);
            if recent.len() == MAX_REMEMBERED {
                let kept = recent.drop_first();
                assert(forall|i: int| 0 <= i < kept.len() ==> #[trigger] kept[i] == recent[i + 1]);
            }
        },
        MemoryEvent::Ask(now) => {
            lemma_unexpired_is_suffix(entries, now);
            let left = unexpired(entries, now);
            let cut = entries.len() - left.len();
            assert(forall|i: int| 0 <= i < left.len() ==> #[trigger] left[i] == entries[cut + i]);
        },
        MemoryEvent::ForgetBorderAgent => {
            lemma_mesh_is_part(entries);
            let mesh = from_the_mesh(entries);
            assert forall|i: int| 0 <= i < mesh.len() implies !((#[trigger] mesh[i]).origin
                == origin && mesh[i].message_id == message_id) by {
                let j = choose|j: int| 0 <= j < entries.len() && entries[j] == mesh[i];
                assert(entries[j] == mesh[i]);
            }
        },
    }
}

proof fn lemma_mesh_is_part(entries: Seq<AnsweredView>)
    ensures
        forall|i: int|
            0 <= i < from_the_mesh(entries).len() ==> entries.contains(
                #[trigger] from_the_mesh(entries)[i],
            ),
    decreases entries.len(),
{
    if entries.len() > 0 {
        let shorter = entries.drop_last();
        let rest = from_the_mesh(shorter);
        let mesh = from_the_mesh(entries);
        lemma_mesh_is_part(shorter);
        assert(entries[entries.len() - 1] == entries.last());
        assert forall|i: int| 0 <= i < mesh.len() implies entries.contains(#[trigger] mesh[i]) by {
            if i < rest.len() {
                assert(mesh[i] == rest[i]);
                let j = choose|j: int| 0 <= j < shorter.len() && shorter[j] == rest[i];
                assert(entries[j] == mesh[i]);
            }
        }
    }
}

/// Within its lifetime an entry outlasts the expiry of others, and gives the
/// reply to its message.
pub(crate) proof fn lemma_entry_outlasts_expiry(
    entries: Seq<AnsweredView>,
    answered: AnsweredView,
    behind: nat,
    now: u128,
)
    requires
        orderly(entries, now),
        remembered_before(entries, answered, behind),
        now < answered.at + EXCHANGE_LIFETIME,
    ensures
        orderly(unexpired(entries, now), now),
        remembered_before(unexpired(entries, now), answered, behind),
        reply_in(entries, answered.origin, answered.message_id, now) == Some(answered.reply),
{
    lemma_expiry(entries, answered, behind, now);
    lemma_unexpired_is_orderly(entries, now);
    let fresh = unexpired(entries, now);
    let matching = |entry: AnsweredView|
        entry.origin == answered.origin && entry.message_id == answered.message_id;
    lemma_position(fresh, matching, fresh.len() - 1 - behind);
}

/// Within its lifetime an entry with fewer than 63 behind it outlasts the
/// answer to another message.
pub(crate) proof fn lemma_entry_outlasts_an_answer(
    entries: Seq<AnsweredView>,
    answered: AnsweredView,
    behind: nat,
    other: AnsweredView,
)
    requires
        orderly(entries, other.at),
        remembered_before(entries, answered, behind),
        behind < 63,
        other.at < answered.at + EXCHANGE_LIFETIME,
        other.origin != answered.origin || other.message_id != answered.message_id,
    ensures
        orderly(remembered(entries, other), other.at),
        remembered_before(remembered(entries, other), answered, behind + 1),
{
    lemma_remembered_is_orderly(entries, other);
    lemma_expiry(entries, answered, behind, other.at);
    let recent = unexpired(entries, other.at);
    let after = remembered(entries, other);
    if recent.len() == MAX_REMEMBERED {
        let kept = recent.drop_first();
        assert(forall|i: int| 0 <= i < kept.len() ==> #[trigger] kept[i] == recent[i + 1]);
        assert(forall|i: int| 0 <= i < kept.len() ==> #[trigger] after[i] == kept[i]);
    } else {
        assert(forall|i: int| 0 <= i < recent.len() ==> #[trigger] after[i] == recent[i]);
    }
}

/// A message that has no reply is remembered last, and once, when it is
/// answered.
pub(crate) proof fn lemma_first_answer(entries: Seq<AnsweredView>, answered: AnsweredView)
    requires
        orderly(entries, answered.at),
        reply_in(entries, answered.origin, answered.message_id, answered.at) is None,
    ensures
        orderly(remembered(entries, answered), answered.at),
        remembered_before(remembered(entries, answered), answered, 0),
        unexpired(unexpired(entries, answered.at), answered.at) == unexpired(
            entries,
            answered.at,
        ),
{
    let matching = |entry: AnsweredView|
        entry.origin == answered.origin && entry.message_id == answered.message_id;
    let recent = unexpired(entries, answered.at);
    let start = remembered(entries, answered);
    lemma_absent(recent, matching);
    assert(forall|i: int| 0 <= i < recent.len() ==> !matching(#[trigger] recent[i]));
    lemma_remembered_is_orderly(entries, answered);
    lemma_refreshed_twice(entries, answered.at);
    if recent.len() == MAX_REMEMBERED {
        let kept = recent.drop_first();
        assert(forall|i: int| 0 <= i < kept.len() ==> #[trigger] kept[i] == recent[i + 1]);
        assert(forall|i: int| 0 <= i < kept.len() ==> #[trigger] start[i] == kept[i]);
    } else {
        assert(forall|i: int| 0 <= i < recent.len() ==> #[trigger] start[i] == recent[i]);
    }
}

proof fn lemma_refreshed_twice(entries: Seq<AnsweredView>, now: u128)
    ensures
        unexpired(unexpired(entries, now), now) == unexpired(entries, now),
    decreases entries.len(),
{
    if entries.len() > 0 && entries[0].at + EXCHANGE_LIFETIME <= now {
        lemma_refreshed_twice(entries.drop_first(), now);
    }
}

/// After events that answer others only, an entry is where it was with those
/// behind it, or gone.
proof fn lemma_where_it_stands(
    start: Seq<AnsweredView>,
    answered: AnsweredView,
    events: Seq<MemoryEvent>,
)
    requires
        orderly(start, answered.at),
        remembered_before(start, answered, 0),
        in_time_order(answered.at, events),
        never_answered(events, answered.origin, answered.message_id),
        forall|i: int| 0 <= i < events.len() ==> !(#[trigger] events[i] is ForgetBorderAgent),
    ensures
        ({
            let entries = entries_after(start, events);
            if answers_in(events) < MAX_REMEMBERED && time_after(answered.at, events) < answered.at
                + EXCHANGE_LIFETIME {
                remembered_before(entries, answered, answers_in(events))
            } else {
                unknown(entries, answered.origin, answered.message_id)
            }
        }),
    decreases events.len(),
{
    if events.len() > 0 {
        let earlier = events.drop_last();
        let event = events.last();
        assert(events[events.len() - 1] == event);
        assert(forall|i: int| 0 <= i < earlier.len() ==> #[trigger] earlier[i] == events[i]);
        lemma_where_it_stands(start, answered, earlier);
        law_memory_stays_orderly(start, answered.at, earlier);
        let entries = entries_after(start, earlier);
        let behind = answers_in(earlier);
        let now = event.time(time_after(answered.at, earlier));
        if remembered_before(entries, answered, behind) && behind < MAX_REMEMBERED && time_after(
            answered.at,
            earlier,
        ) < answered.at + EXCHANGE_LIFETIME {
            lemma_expiry(entries, answered, behind, now);
            lemma_unexpired_is_orderly(entries, now);
            if let MemoryEvent::Answer(other) = event {
                let recent = unexpired(entries, now);
                let after = remembered(entries, other);
                if recent.len() == MAX_REMEMBERED {
                    let kept = recent.drop_first();
                    assert(forall|i: int|
                        0 <= i < kept.len() ==> #[trigger] kept[i] == recent[i + 1]);
                    assert(forall|i: int| 0 <= i < kept.len() ==> #[trigger] after[i] == kept[i]);
                } else {
                    assert(forall|i: int|
                        0 <= i < recent.len() ==> #[trigger] after[i] == recent[i]);
                }
            }
        } else {
            lemma_unknown_stays(entries, answered.origin, answered.message_id, event);
        }
    }
}

proof fn lemma_reply_of_unknown(
    entries: Seq<AnsweredView>,
    origin: DestinationView,
    message_id: u16,
    now: u128,
)
    requires
        unknown(unexpired(entries, now), origin, message_id),
    ensures
        reply_in(entries, origin, message_id, now) is None,
{
    let left = unexpired(entries, now);
    let matching = |entry: AnsweredView| entry.origin == origin && entry.message_id == message_id;
    assert(forall|j: int| 0 <= j < left.len() ==> !matching(#[trigger] left[j]));
    lemma_no_position(left, matching);
}

/// A message that was answered once gets that reply again as long as the
/// exchange lifetime has not passed and at most 63 other messages were
/// answered since, whatever was asked for in between; then it is new again.
pub proof fn law_an_answer_is_remembered_for_a_while(
    entries: Seq<AnsweredView>,
    answered: AnsweredView,
    events: Seq<MemoryEvent>,
    now: u128,
)
    requires
        orderly(entries, answered.at),
        unknown(entries, answered.origin, answered.message_id),
        in_time_order(answered.at, events),
        time_after(answered.at, events) <= now,
        never_answered(events, answered.origin, answered.message_id),
        forall|i: int| 0 <= i < events.len() ==> !(#[trigger] events[i] is ForgetBorderAgent),
    ensures
        reply_in(
            entries_after(remembered(entries, answered), events),
            answered.origin,
            answered.message_id,
            now,
        ) == if now - answered.at < EXCHANGE_LIFETIME && answers_in(events) <= 63 {
            Some(answered.reply)
        } else {
            None
        },
{
    let start = remembered(entries, answered);
    lemma_remembered_is_orderly(entries, answered);
    let recent = unexpired(entries, answered.at);
    lemma_unexpired_is_suffix(entries, answered.at);
    let cut = entries.len() - recent.len();
    assert(forall|i: int| 0 <= i < recent.len() ==> #[trigger] recent[i] == entries[cut + i]);
    if recent.len() == MAX_REMEMBERED {
        let kept = recent.drop_first();
        assert(forall|i: int| 0 <= i < kept.len() ==> #[trigger] kept[i] == recent[i + 1]);
        assert(forall|i: int| 0 <= i < kept.len() ==> #[trigger] start[i] == kept[i]);
    } else {
        assert(forall|i: int| 0 <= i < recent.len() ==> #[trigger] start[i] == recent[i]);
    }
    assert(remembered_before(start, answered, 0));
    lemma_where_it_stands(start, answered, events);
    law_memory_stays_orderly(start, answered.at, events);
    let left = entries_after(start, events);
    let behind = answers_in(events);
    if behind <= 63 && time_after(answered.at, events) < answered.at + EXCHANGE_LIFETIME {
        assert(orderly(left, now));
        lemma_expiry(left, answered, behind, now);
        if now < answered.at + EXCHANGE_LIFETIME {
            let fresh = unexpired(left, now);
            let matching = |entry: AnsweredView|
                entry.origin == answered.origin && entry.message_id == answered.message_id;
            lemma_position(fresh, matching, fresh.len() - 1 - behind);
        } else {
            lemma_reply_of_unknown(left, answered.origin, answered.message_id, now);
        }
    } else {
        lemma_unknown_stays(
            left,
            answered.origin,
            answered.message_id,
            MemoryEvent::Ask(now),
        );
        lemma_reply_of_unknown(left, answered.origin, answered.message_id, now);
    }
}

/// A message that was never answered has no reply, whatever else was: the
/// same message ID from another origin is another message.
pub proof fn law_a_message_that_was_never_answered_is_new(
    events: Seq<MemoryEvent>,
    origin: DestinationView,
    message_id: u16,
    now: u128,
)
    requires
        never_answered(events, origin, message_id),
    ensures
        unknown(entries_after(Seq::empty(), events), origin, message_id),
        reply_in(entries_after(Seq::empty(), events), origin, message_id, now) is None,
    decreases events.len(),
{
    let left = entries_after(Seq::empty(), events);
    if events.len() > 0 {
        let earlier = events.drop_last();
        assert(forall|i: int| 0 <= i < earlier.len() ==> #[trigger] earlier[i] == events[i]);
        assert(events[events.len() - 1] == events.last());
        law_a_message_that_was_never_answered_is_new(earlier, origin, message_id, now);
        lemma_unknown_stays(
            entries_after(Seq::empty(), earlier),
            origin,
            message_id,
            events.last(),
        );
    }
    lemma_unknown_stays(left, origin, message_id, MemoryEvent::Ask(now));
    lemma_reply_of_unknown(left, origin, message_id, now);
}

/// A message is new again once the exchange lifetime has passed since
/// everything remembered was answered.
pub proof fn law_a_message_id_is_new_again_after_the_lifetime(
    entries: Seq<AnsweredView>,
    origin: DestinationView,
    message_id: u16,
    now: u128,
)
    requires
        forall|i: int|
            0 <= i < entries.len() ==> (#[trigger] entries[i]).at + EXCHANGE_LIFETIME <= now,
    ensures
        reply_in(entries, origin, message_id, now) is None,
    decreases entries.len(),
{
    if entries.len() > 0 {
        assert(entries[0].at + EXCHANGE_LIFETIME <= now);
        let rest = entries.drop_first();
        assert forall|i: int| 0 <= i < rest.len() implies (#[trigger] rest[i]).at
            + EXCHANGE_LIFETIME <= now by {
            assert(rest[i] == entries[i + 1]);
        }
        law_a_message_id_is_new_again_after_the_lifetime(rest, origin, message_id, now);
    }
}

/// Forgetting the border agent's messages keeps those of the mesh devices and
/// no others.
pub proof fn law_only_mesh_messages_outlive_a_reopening(
    entries: Seq<AnsweredView>,
    message_id: u16,
    now: u128,
)
    ensures
        reply_in(from_the_mesh(entries), DestinationView::BorderAgent, message_id, now) is None,
{
    lemma_all_from_the_mesh(entries);
    let mesh = from_the_mesh(entries);
    let left = unexpired(mesh, now);
    lemma_unexpired_is_suffix(mesh, now);
    let matching = |entry: AnsweredView|
        entry.origin == DestinationView::BorderAgent && entry.message_id == message_id;
    assert forall|j: int| 0 <= j < left.len() implies !matching(#[trigger] left[j]) by {
        assert(left[j] == mesh[mesh.len() - left.len() + j]);
    }
    lemma_no_position(left, matching);
}

proof fn lemma_all_from_the_mesh(entries: Seq<AnsweredView>)
    ensures
        forall|i: int|
            0 <= i < from_the_mesh(entries).len() ==> (#[trigger] from_the_mesh(
                entries,
            )[i]).origin is Mesh,
    decreases entries.len(),
{
    if entries.len() > 0 {
        lemma_all_from_the_mesh(entries.drop_last());
    }
}

/// An answer is repeated for 247 seconds, to the same sender and message ID
/// alone, and at most 64 answers are kept: the oldest goes first.
pub proof fn law_an_answer_is_kept_for_247_seconds(
    entries: Seq<AnsweredView>,
    entry: AnsweredView,
    origin: DestinationView,
    message_id: u16,
    now: u128,
)
    ensures
        ({
            let reply = reply_in(seq![entry], origin, message_id, now);
            &&& reply is Some <==> entry.origin == origin && entry.message_id == message_id && now
                < entry.at + 247_000_000_000
            &&& reply is Some ==> reply == Some(entry.reply)
        }),
        ({
            let after = remembered(entries, entry);
            &&& after.last() == entry
            &&& entries.len() <= 64 ==> after.len() <= 64
            &&& entries.len() < 64 && (forall|i: int|
                0 <= i < entries.len() ==> entry.at < (#[trigger] entries[i]).at
                    + 247_000_000_000) ==> after == entries.push(entry)
        }),
{
    let one = seq![entry];
    let matching = |other: AnsweredView|
        other.origin == origin && other.message_id == message_id;
    reveal_with_fuel(unexpired, 2);
    assert(one.drop_first() =~= Seq::empty());
    assert(one[0] == entry);
    if now < entry.at + 247_000_000_000 {
        assert(unexpired(one, now) == one);
        if matching(entry) {
            lemma_position(one, matching, 0);
        } else {
            lemma_no_position(one, matching);
        }
    } else {
        assert(unexpired(one, now) =~= Seq::empty());
        lemma_no_position(unexpired(one, now), matching);
    }
    lemma_unexpired_is_shorter(entries, entry.at);
}

proof fn lemma_unexpired_is_shorter(entries: Seq<AnsweredView>, now: u128)
    ensures
        unexpired(entries, now).len() <= entries.len(),
    decreases entries.len(),
{
    if entries.len() > 0 {
        lemma_unexpired_is_shorter(entries.drop_first(), now);
    }
}

} // verus!

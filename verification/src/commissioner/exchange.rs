//! Outstanding CoAP exchanges: RFC 7252 retransmission, the in-flight limit,
//! and exchange deadlines.

use rand_core::RngCore;
use vstd::prelude::*;

use crate::bytes::{same_bytes, views};
use crate::commissioner::coap::{CoapMessage, CoapType, CoapView};
use crate::commissioner::config::COAP_EXCHANGE_TIMEOUT;
use crate::commissioner::types::{Destination, DestinationView};
use crate::dtls::retransmit::MAX_DURATION;

verus! {

/// The shortest wait for an acknowledgement, in nanoseconds.
pub const COAP_ACK_TIMEOUT: u128 = 2_000_000_000;

/// The widest random addition to that wait, in milliseconds.
pub const COAP_ACK_RANDOM_WINDOW_MILLIS: u32 = 1_000;

/// Retransmissions of one request. Two always fit the 12-second MeshCoP
/// operation deadline with the RFC 7252 randomized 2-3 second initial timeout
/// and its doubled successor.
pub const COAP_MAX_RETRANSMIT: u8 = 2;

/// Application exchanges outstanding with the border agent at once, following
/// the RFC 7252 NSTART default. Session-control exchanges (petition,
/// keep-alive, resign) are not counted, so a slow request never delays a
/// keep-alive.
pub const MAX_APPLICATION_IN_FLIGHT: usize = 1;

/// Length of the random token that correlates a response with its request.
pub const TOKEN_LENGTH: usize = 4;

/// The instant that lies `wait` behind `now`, or the last one there is.
pub open spec fn later(now: u128, wait: u128) -> u128 {
    if now + wait <= u128::MAX {
        (now + wait) as u128
    } else {
        u128::MAX
    }
}

/// The instant that lies `wait` behind `now`, or the last one there is.
pub fn after(now: u128, wait: u128) -> (instant: u128)
    ensures
        instant == later(now, wait),
{
    if wait <= u128::MAX - now {
        now + wait
    } else {
        u128::MAX
    }
}

/// `rand_core::RngCore::try_fill_bytes` of `rand_core::OsRng`, on four bytes.
///
/// Nothing is claimed of the bytes: they come from the operating system. There
/// are none where it has none to give.
#[verifier::external_body]
fn random_bytes() -> (bytes: Option<[u8; 4]>) {
    let mut bytes = [0u8; 4];
    match rand_core::OsRng.try_fill_bytes(&mut bytes) {
        Ok(()) => Some(bytes),
        Err(_) => None,
    }
}

/// Draws a random token from the operating system. Nothing is promised of its
/// bytes.
pub(crate) fn random_token() -> (token: Option<[u8; 4]>)
    ensures
        token matches Some(bytes) ==> bytes@.len() == TOKEN_LENGTH,
{
    random_bytes()
}

/// The number that four bytes stand for, the lowest byte first.
pub fn number_of(bytes: [u8; 4]) -> (number: u32)
    ensures
        number == bytes[0] + 0x100 * bytes[1] + 0x1_0000 * bytes[2] + 0x100_0000 * bytes[3],
{
    bytes[0] as u32 + 0x100 * (bytes[1] as u32) + 0x1_0000 * (bytes[2] as u32) + 0x100_0000 * (
    bytes[3] as u32)
}

/// Draws a random number from the operating system. Nothing is promised of
/// its value: every number is what [`number_of`] makes of some four bytes.
pub(crate) fn random_number() -> (number: Option<u32>) {
    match random_bytes() {
        None => None,
        Some(bytes) => Some(number_of(bytes)),
    }
}

/// When a request is sent again.
#[derive(Debug, Clone, Copy, PartialEq, Eq, Structural)]
pub struct CoapRetransmitSchedule {
    /// The wait before the next retransmission, in nanoseconds.
    pub timeout: u128,
    /// Retransmissions so far.
    pub retransmissions: u8,
}

impl CoapRetransmitSchedule {
    /// The schedule that starts with a wait of 2 to 3 seconds, `random`
    /// deciding.
    pub open spec fn spec_randomized(random: u32) -> CoapRetransmitSchedule {
        CoapRetransmitSchedule {
            timeout: (COAP_ACK_TIMEOUT + 1_000_000 * (random as int % (
            COAP_ACK_RANDOM_WINDOW_MILLIS + 1))) as u128,
            retransmissions: 0,
        }
    }

    /// The wait before the next retransmission, if there is one.
    pub open spec fn spec_timeout(self) -> Option<u128> {
        if self.retransmissions < COAP_MAX_RETRANSMIT {
            Some(self.timeout)
        } else {
            None
        }
    }

    /// The schedule after one more retransmission: twice the wait, at most
    /// the longest duration there is.
    pub open spec fn recorded(self) -> CoapRetransmitSchedule {
        CoapRetransmitSchedule {
            timeout: if 2 * self.timeout <= MAX_DURATION {
                (2 * self.timeout) as u128
            } else {
                MAX_DURATION
            },
            retransmissions: if self.retransmissions < u8::MAX {
                (self.retransmissions + 1) as u8
            } else {
                u8::MAX
            },
        }
    }

    /// The schedule that starts with a wait of 2 to 3 seconds, `random`
    /// deciding.
    pub fn randomized(random: u32) -> (schedule: Self)
        ensures
            schedule == CoapRetransmitSchedule::spec_randomized(random),
            COAP_ACK_TIMEOUT <= schedule.timeout <= COAP_ACK_TIMEOUT + 1_000_000_000,
    {
        let jitter: u32 = random % (COAP_ACK_RANDOM_WINDOW_MILLIS + 1);
        CoapRetransmitSchedule::new(COAP_ACK_TIMEOUT + 1_000_000 * (jitter as u128))
    }

    /// The schedule that starts with a wait of `timeout`.
    pub fn new(timeout: u128) -> (schedule: Self)
        ensures
            schedule == (CoapRetransmitSchedule { timeout, retransmissions: 0 }),
    {
        CoapRetransmitSchedule { timeout, retransmissions: 0 }
    }

    /// The wait before the next retransmission, if there is one.
    pub fn timeout(self) -> (timeout: Option<u128>)
        ensures
            timeout == self.spec_timeout(),
    {
        if self.retransmissions < COAP_MAX_RETRANSMIT {
            Some(self.timeout)
        } else {
            None
        }
    }

    /// Counts a retransmission and doubles the wait.
    pub fn record_retransmission(&mut self)
        ensures
            *final(self) == old(self).recorded(),
    {
        if self.retransmissions < u8::MAX {
            self.retransmissions = self.retransmissions + 1;
        }
        self.timeout = if self.timeout <= MAX_DURATION / 2 {
            2 * self.timeout
        } else {
            MAX_DURATION
        };
    }
}

/// Both retransmissions of a request fall before its exchange deadline, and
/// there is no third.
pub proof fn law_retransmissions_fit_the_deadline(random: u32)
    ensures
        ({
            let first = CoapRetransmitSchedule::spec_randomized(random);
            let second = first.recorded();
            &&& first.spec_timeout() == Some(first.timeout)
            &&& second.spec_timeout() == Some(second.timeout)
            &&& first.timeout + second.timeout < COAP_EXCHANGE_TIMEOUT
            &&& second.recorded().spec_timeout() is None
        }),
{
}

/// A request waiting to be sent.
#[derive(Debug)]
pub struct Outbound {
    /// The request; its message ID and token are assigned when it is sent.
    pub message: CoapMessage,
    /// Where it goes.
    pub destination: Destination,
    /// Whether to wait for a response. Without one the exchange completes as
    /// soon as the request is sent.
    pub expect_response: bool,
}

/// [`Outbound`] over views.
#[verifier::ext_equal]
pub struct OutboundView {
    pub message: CoapView,
    pub destination: DestinationView,
    pub expect_response: bool,
}

impl View for Outbound {
    type V = OutboundView;

    open spec fn view(&self) -> OutboundView {
        OutboundView {
            message: self.message@,
            destination: self.destination@,
            expect_response: self.expect_response,
        }
    }
}

/// Who is waiting for an exchange, and what its outcome means.
#[derive(Debug, Clone, Copy, PartialEq, Eq, Structural)]
pub enum Completion {
    /// A handle request, identified so its caller can withdraw it.
    Caller {
        /// The request.
        id: u64,
    },
    /// A petition.
    Petition {
        /// The request.
        id: u64,
    },
    /// A keep-alive.
    KeepAlive {
        /// The request; `None` when the driver scheduled it.
        asked: Option<u64>,
    },
    /// A resignation.
    Resign {
        /// The request; `None` when every handle was dropped.
        asked: Option<u64>,
    },
}

impl Completion {
    /// Whether this exchange counts against the application in-flight limit.
    pub fn is_application(&self) -> (application: bool)
        ensures
            application == self is Caller,
    {
        match self {
            Completion::Caller { .. } => true,
            _ => false,
        }
    }

    /// Whether this is the handle request `id`.
    pub fn is_caller(&self, id: u64) -> (caller: bool)
        ensures
            caller == (*self == Completion::Caller { id }),
    {
        match self {
            Completion::Caller { id: caller } => *caller == id,
            _ => false,
        }
    }
}

/// A sent request waiting for its response.
#[derive(Debug)]
pub struct Pending {
    /// The logical request with its assigned identity; for a proxied request,
    /// the encapsulated inner request.
    pub request: CoapMessage,
    /// Where it was sent.
    pub destination: Destination,
    /// When it is sent again; only a confirmable request is.
    pub retransmit: Option<CoapRetransmitSchedule>,
    /// The instant of the next retransmission.
    pub retry_at: Option<u128>,
    /// The instant at which the exchange fails.
    pub deadline: u128,
    /// Who is waiting for it.
    pub completion: Completion,
}

/// [`Pending`] over views.
#[verifier::ext_equal]
pub struct PendingView {
    pub request: CoapView,
    pub destination: DestinationView,
    pub retransmit: Option<CoapRetransmitSchedule>,
    pub retry_at: Option<u128>,
    pub deadline: u128,
    pub completion: Completion,
}

impl View for Pending {
    type V = PendingView;

    open spec fn view(&self) -> PendingView {
        PendingView {
            request: self.request@,
            destination: self.destination@,
            retransmit: self.retransmit,
            retry_at: self.retry_at,
            deadline: self.deadline,
            completion: self.completion,
        }
    }
}

impl PendingView {
    /// The exchange of a request that was sent at `now`; `random` decides on
    /// the wait before its first retransmission.
    pub open spec fn sent(
        request: OutboundView,
        completion: Completion,
        now: u128,
        random: u32,
    ) -> PendingView {
        let retransmit = if request.message.ty == CoapType::Confirmable {
            Some(CoapRetransmitSchedule::spec_randomized(random))
        } else {
            None
        };
        PendingView {
            request: request.message,
            destination: request.destination,
            retransmit,
            retry_at: match retransmit {
                Some(schedule) => Some(later(now, schedule.timeout)),
                None => None,
            },
            deadline: later(now, COAP_EXCHANGE_TIMEOUT),
            completion,
        }
    }

    /// The exchange after its request was sent again at `now`.
    pub open spec fn retransmitted(self, now: u128) -> PendingView {
        match self.retransmit {
            None => self,
            Some(schedule) => PendingView {
                retransmit: Some(schedule.recorded()),
                retry_at: match schedule.recorded().spec_timeout() {
                    Some(timeout) => Some(later(now, timeout)),
                    None => None,
                },
                ..self
            },
        }
    }

    /// Whether a retransmission is due.
    pub open spec fn retry_due(self, now: u128) -> bool {
        self.retry_at is Some && self.retry_at->0 <= now
    }

    /// Whether an empty ACK on the route acknowledges this exchange.
    pub open spec fn acknowledged_by(self, ack: CoapView, proxied: bool) -> bool {
        &&& (self.destination is Mesh) == proxied
        &&& ack.is_empty_ack_for(self.request.message_id)
    }

    /// Whether a message on the route answers this exchange: a Reset of its
    /// message ID, or a response carrying its token.
    pub open spec fn answered_by(self, response: CoapView, proxied: bool) -> bool {
        &&& (self.destination is Mesh) == proxied
        &&& response.is_reset_for(self.request.message_id) || (response.is_response()
            && response.token == self.request.token)
    }
}

impl Pending {
    /// The exchange of a request that was sent at `now`; `random` decides on
    /// the wait before its first retransmission.
    pub fn sent(request: Outbound, completion: Completion, now: u128, random: u32) -> (pending:
        Self)
        ensures
            pending@ == PendingView::sent(request@, completion, now, random),
    {
        let mut retransmit: Option<CoapRetransmitSchedule> = None;
        let mut retry_at: Option<u128> = None;
        if request.message.ty == CoapType::Confirmable {
            let schedule = CoapRetransmitSchedule::randomized(random);
            retransmit = Some(schedule);
            retry_at = Some(after(now, schedule.timeout));
        }
        Pending {
            request: request.message,
            destination: request.destination,
            retransmit,
            retry_at,
            deadline: after(now, COAP_EXCHANGE_TIMEOUT),
            completion,
        }
    }

    /// Counts a retransmission at `now`.
    pub fn record_retransmission(&mut self, now: u128)
        ensures
            final(self)@ == old(self)@.retransmitted(now),
    {
        if let Some(schedule) = self.retransmit {
            let mut next = schedule;
            next.record_retransmission();
            self.retransmit = Some(next);
            self.retry_at = match next.timeout() {
                Some(timeout) => Some(after(now, timeout)),
                None => None,
            };
        }
    }

    /// Whether a retransmission is due.
    pub fn retry_due(&self, now: u128) -> (due: bool)
        ensures
            due == self@.retry_due(now),
    {
        match self.retry_at {
            Some(retry_at) => retry_at <= now,
            None => false,
        }
    }

    fn acknowledged_by(&self, ack: &CoapMessage, proxied: bool) -> (acknowledged: bool)
        ensures
            acknowledged == self@.acknowledged_by(ack@, proxied),
    {
        self.destination.is_mesh() == proxied && ack.is_empty_ack_for(self.request.message_id)
    }

    fn answered_by(&self, response: &CoapMessage, proxied: bool) -> (answered: bool)
        ensures
            answered == self@.answered_by(response@, proxied),
    {
        self.destination.is_mesh() == proxied && (response.is_reset_for(self.request.message_id)
            || (response.is_response() && response.same_token(&self.request)))
    }
}

/// The first position at which `matches` holds.
pub open spec fn position<T>(s: Seq<T>, matches: spec_fn(T) -> bool) -> Option<int>
    decreases s.len(),
{
    if s.len() == 0 {
        None
    } else if matches(s[0]) {
        Some(0)
    } else {
        match position(s.drop_first(), matches) {
            Some(i) => Some(i + 1),
            None => None,
        }
    }
}

/// Where a match stands with none before it, it is the first position.
pub proof fn lemma_position<T>(s: Seq<T>, matches: spec_fn(T) -> bool, i: int)
    requires
        0 <= i < s.len(),
        matches(s[i]),
        forall|j: int| 0 <= j < i ==> !matches(#[trigger] s[j]),
    ensures
        position(s, matches) == Some(i),
    decreases s.len(),
{
    if i > 0 {
        assert(!matches(s[0]));
        let rest = s.drop_first();
        assert(rest[i - 1] == s[i]);
        assert forall|j: int| 0 <= j < i - 1 implies !matches(#[trigger] rest[j]) by {
            assert(rest[j] == s[j + 1]);
        }
        lemma_position(rest, matches, i - 1);
    }
}

/// Without a match there is no first position.
pub proof fn lemma_no_position<T>(s: Seq<T>, matches: spec_fn(T) -> bool)
    requires
        forall|j: int| 0 <= j < s.len() ==> !matches(#[trigger] s[j]),
    ensures
        position(s, matches) is None,
    decreases s.len(),
{
    if s.len() > 0 {
        assert(!matches(s[0]));
        let rest = s.drop_first();
        assert forall|j: int| 0 <= j < rest.len() implies !matches(#[trigger] rest[j]) by {
            assert(rest[j] == s[j + 1]);
        }
        lemma_no_position(rest, matches);
    }
}

/// The first position is inside the sequence and matches.
pub proof fn lemma_position_bounds<T>(s: Seq<T>, matches: spec_fn(T) -> bool)
    ensures
        position(s, matches) matches Some(i) ==> 0 <= i < s.len() && matches(s[i]),
    decreases s.len(),
{
    if s.len() > 0 && !matches(s[0]) {
        lemma_position_bounds(s.drop_first(), matches);
    }
}

/// Nothing before the first position matches.
pub proof fn lemma_position_is_first<T>(s: Seq<T>, matches: spec_fn(T) -> bool)
    ensures
        position(s, matches) matches Some(i) ==> forall|j: int|
            0 <= j < i ==> !matches(#[trigger] s[j]),
    decreases s.len(),
{
    if s.len() > 0 && !matches(s[0]) {
        lemma_position_is_first(s.drop_first(), matches);
        lemma_position_bounds(s, matches);
        if let Some(i) = position(s, matches) {
            assert forall|j: int| 0 <= j < i implies !matches(#[trigger] s[j]) by {
                if j > 0 {
                    assert(s.drop_first()[j - 1] == s[j]);
                }
            }
        }
    }
}

/// Exchanges in flight and application requests waiting for a slot.
#[derive(Debug)]
pub struct Exchanges {
    in_flight: Vec<Pending>,
    queued: Vec<(Outbound, Completion)>,
}

/// [`Exchanges`] over views.
#[verifier::ext_equal]
pub struct ExchangesView {
    pub in_flight: Seq<PendingView>,
    pub queued: Seq<(OutboundView, Completion)>,
}

/// Requests waiting for a slot over views.
pub open spec fn queue_view(queued: Seq<(Outbound, Completion)>) -> Seq<
    (OutboundView, Completion),
> {
    queued.map_values(|q: (Outbound, Completion)| (q.0@, q.1))
}

impl View for Exchanges {
    type V = ExchangesView;

    closed spec fn view(&self) -> ExchangesView {
        ExchangesView { in_flight: views(self.in_flight@), queued: queue_view(self.queued@) }
    }
}

/// How many of the exchanges count against the application in-flight limit.
pub open spec fn application_count(in_flight: Seq<PendingView>) -> nat
    decreases in_flight.len(),
{
    if in_flight.len() == 0 {
        0
    } else {
        application_count(in_flight.drop_last()) + if in_flight.last().completion is Caller {
            1nat
        } else {
            0nat
        }
    }
}

/// The earlier of two instants.
pub open spec fn earlier(a: Option<u128>, b: Option<u128>) -> Option<u128> {
    match (a, b) {
        (Some(x), Some(y)) => Some(
            if x <= y {
                x
            } else {
                y
            },
        ),
        (Some(x), None) => Some(x),
        (None, y) => y,
    }
}

/// The earlier of two instants.
pub fn earlier_of(a: Option<u128>, b: Option<u128>) -> (earliest: Option<u128>)
    ensures
        earliest == earlier(a, b),
{
    match (a, b) {
        (Some(x), Some(y)) => Some(
            if x <= y {
                x
            } else {
                y
            },
        ),
        (Some(x), None) => Some(x),
        (None, y) => y,
    }
}

/// The earliest retransmission or deadline among the exchanges.
pub open spec fn earliest_timer(in_flight: Seq<PendingView>) -> Option<u128>
    decreases in_flight.len(),
{
    if in_flight.len() == 0 {
        None
    } else {
        let last = in_flight.last();
        earlier(
            earliest_timer(in_flight.drop_last()),
            earlier(last.retry_at, Some(last.deadline)),
        )
    }
}

/// Who is waiting for the exchanges, in order.
pub open spec fn waiting_for(in_flight: Seq<PendingView>) -> Seq<Completion> {
    in_flight.map_values(|p: PendingView| p.completion)
}

/// Who is waiting for the queued requests, in order.
pub open spec fn waiting_in(queued: Seq<(OutboundView, Completion)>) -> Seq<Completion> {
    queued.map_values(|q: (OutboundView, Completion)| q.1)
}

impl ExchangesView {
    /// Whether a resignation is outstanding.
    pub open spec fn resigning(self) -> bool {
        exists|i: int|
            0 <= i < self.in_flight.len() && #[trigger] self.in_flight[i].completion is Resign
    }

    /// Whether a keep-alive is outstanding.
    pub open spec fn keep_alive_outstanding(self) -> bool {
        exists|i: int|
            0 <= i < self.in_flight.len() && #[trigger] self.in_flight[i].completion is KeepAlive
    }

    /// Whether an exchange in flight uses the token.
    pub open spec fn uses_token(self, token: Seq<u8>) -> bool {
        exists|i: int|
            0 <= i < self.in_flight.len() && #[trigger] self.in_flight[i].request.token == token
    }

    /// Where the handle request `id` is queued.
    pub open spec fn queue_position(self, id: u64) -> Option<int> {
        position(
            self.queued,
            |q: (OutboundView, Completion)| q.1 == Completion::Caller { id },
        )
    }

    /// Where the handle request `id` is in flight.
    pub open spec fn flight_position(self, id: u64) -> Option<int> {
        position(self.in_flight, |p: PendingView| p.completion == Completion::Caller { id })
    }

    /// The exchanges without the handle request `id`; `None` where there is no
    /// such request.
    pub open spec fn without(self, id: u64) -> Option<ExchangesView> {
        match self.queue_position(id) {
            Some(i) => Some(ExchangesView { queued: self.queued.remove(i), ..self }),
            None => match self.flight_position(id) {
                Some(i) => Some(ExchangesView { in_flight: self.in_flight.remove(i), ..self }),
                None => None,
            },
        }
    }

    /// The first exchange that an empty ACK on the route acknowledges.
    pub open spec fn acknowledged_by(self, ack: CoapView, proxied: bool) -> Option<int> {
        position(self.in_flight, |p: PendingView| p.acknowledged_by(ack, proxied))
    }

    /// The first exchange that a message on the route answers.
    pub open spec fn answered_by(self, response: CoapView, proxied: bool) -> Option<int> {
        position(self.in_flight, |p: PendingView| p.answered_by(response, proxied))
    }

    /// The exchanges with retransmission of one stopped.
    pub open spec fn silenced(self, i: int) -> ExchangesView {
        ExchangesView {
            in_flight: self.in_flight.update(
                i,
                PendingView { retry_at: None, ..self.in_flight[i] },
            ),
            ..self
        }
    }

    /// The exchanges with one request sent again at `now`.
    pub open spec fn retransmitted(self, i: int, now: u128) -> ExchangesView {
        if 0 <= i < self.in_flight.len() {
            ExchangesView {
                in_flight: self.in_flight.update(i, self.in_flight[i].retransmitted(now)),
                ..self
            }
        } else {
            self
        }
    }

    /// Everyone who is waiting, those in flight first.
    pub open spec fn everyone(self) -> Seq<Completion> {
        waiting_for(self.in_flight) + waiting_in(self.queued)
    }
}

impl Exchanges {
    /// No exchanges.
    pub fn new() -> (exchanges: Self)
        ensures
            exchanges@.in_flight == Seq::<PendingView>::empty(),
            exchanges@.queued == Seq::<(OutboundView, Completion)>::empty(),
    {
        let exchanges = Exchanges { in_flight: Vec::new(), queued: Vec::new() };
        proof {
            assert(exchanges@.in_flight =~= Seq::<PendingView>::empty());
            assert(exchanges@.queued =~= Seq::<(OutboundView, Completion)>::empty());
        }
        exchanges
    }

    /// How many exchanges are in flight.
    pub fn len(&self) -> (len: usize)
        ensures
            len == self@.in_flight.len(),
    {
        self.in_flight.len()
    }

    /// An exchange in flight.
    pub fn pending(&self, i: usize) -> (pending: &Pending)
        requires
            i < self@.in_flight.len(),
        ensures
            pending@ == self@.in_flight[i as int],
    {
        &self.in_flight[i]
    }

    /// How many of the exchanges count against the application in-flight
    /// limit.
    pub fn application_in_flight(&self) -> (count: usize)
        ensures
            count == application_count(self@.in_flight),
    {
        let mut count: usize = 0;
        let mut i: usize = 0;
        while i < self.in_flight.len()
            invariant
                i <= self.in_flight@.len(),
                count <= i,
                count == application_count(self@.in_flight.take(i as int)),
            decreases self.in_flight@.len() - i,
        {
            proof {
                assert(self@.in_flight.take(i + 1).drop_last() =~= self@.in_flight.take(i as int));
                assert(self@.in_flight.take(i + 1).last() == self.in_flight@[i as int]@);
            }
            if self.in_flight[i].completion.is_application() {
                count = count + 1;
            }
            i = i + 1;
        }
        assert(self@.in_flight.take(i as int) =~= self@.in_flight);
        count
    }

    /// Whether a resignation is outstanding.
    pub fn resigning(&self) -> (resigning: bool)
        ensures
            resigning == self@.resigning(),
    {
        let mut i: usize = 0;
        while i < self.in_flight.len()
            invariant
                i <= self.in_flight@.len(),
                forall|j: int| 0 <= j < i ==> !(#[trigger] self@.in_flight[j].completion is Resign),
            decreases self.in_flight@.len() - i,
        {
            assert(self@.in_flight[i as int] == self.in_flight@[i as int]@);
            if let Completion::Resign { .. } = self.in_flight[i].completion {
                return true;
            }
            i = i + 1;
        }
        false
    }

    /// Whether a keep-alive is outstanding.
    pub fn keep_alive_outstanding(&self) -> (outstanding: bool)
        ensures
            outstanding == self@.keep_alive_outstanding(),
    {
        let mut i: usize = 0;
        while i < self.in_flight.len()
            invariant
                i <= self.in_flight@.len(),
                forall|j: int|
                    0 <= j < i ==> !(#[trigger] self@.in_flight[j].completion is KeepAlive),
            decreases self.in_flight@.len() - i,
        {
            assert(self@.in_flight[i as int] == self.in_flight@[i as int]@);
            if let Completion::KeepAlive { .. } = self.in_flight[i].completion {
                return true;
            }
            i = i + 1;
        }
        false
    }

    /// Whether an exchange in flight uses the token.
    pub fn uses_token(&self, token: &[u8]) -> (used: bool)
        ensures
            used == self@.uses_token(token@),
    {
        let mut i: usize = 0;
        while i < self.in_flight.len()
            invariant
                i <= self.in_flight@.len(),
                forall|j: int|
                    0 <= j < i ==> #[trigger] self@.in_flight[j].request.token != token@,
            decreases self.in_flight@.len() - i,
        {
            assert(self@.in_flight[i as int] == self.in_flight@[i as int]@);
            if same_bytes(self.in_flight[i].request.token.as_slice(), token) {
                assert(self@.in_flight[i as int].request.token == token@);
                return true;
            }
            i = i + 1;
        }
        false
    }

    /// Queues an application request behind the others.
    pub fn queue(&mut self, request: Outbound, completion: Completion)
        ensures
            final(self)@ == (ExchangesView {
                queued: old(self)@.queued.push((request@, completion)),
                ..old(self)@
            }),
    {
        proof {
            assert(queue_view(self.queued@.push((request, completion))) =~= queue_view(
                self.queued@,
            ).push((request@, completion)));
        }
        self.queued.push((request, completion));
    }

    /// Takes the request that has waited longest.
    pub fn take_queued(&mut self) -> (first: Option<(Outbound, Completion)>)
        ensures
            match first {
                None => old(self)@.queued.len() == 0 && final(self)@ == old(self)@,
                Some((request, completion)) => old(self)@.queued.len() > 0 && (request@, completion)
                    == old(self)@.queued[0] && final(self)@ == (ExchangesView {
                    queued: old(self)@.queued.drop_first(),
                    ..old(self)@
                }),
            },
    {
        if self.queued.len() == 0 {
            return None;
        }
        let first = self.queued.remove(0);
        assert(self@.queued =~= old(self)@.queued.drop_first());
        Some(first)
    }

    /// Tracks a sent request.
    pub fn track(&mut self, pending: Pending)
        ensures
            final(self)@ == (ExchangesView {
                in_flight: old(self)@.in_flight.push(pending@),
                ..old(self)@
            }),
    {
        proof {
            assert(views(self.in_flight@.push(pending)) =~= views(self.in_flight@).push(pending@));
        }
        self.in_flight.push(pending);
    }

    /// Stops tracking an exchange.
    pub fn remove(&mut self, i: usize) -> (pending: Pending)
        requires
            i < old(self)@.in_flight.len(),
        ensures
            pending@ == old(self)@.in_flight[i as int],
            final(self)@ == (ExchangesView {
                in_flight: old(self)@.in_flight.remove(i as int),
                ..old(self)@
            }),
    {
        let pending = self.in_flight.remove(i);
        assert(self@.in_flight =~= old(self)@.in_flight.remove(i as int));
        pending
    }

    /// Counts a retransmission of one request at `now`.
    pub fn record_retransmission(&mut self, i: usize, now: u128)
        ensures
            final(self)@ == old(self)@.retransmitted(i as int, now),
    {
        if i < self.in_flight.len() {
            let mut pending = self.in_flight.remove(i);
            pending.record_retransmission(now);
            self.in_flight.insert(i, pending);
        }
        assert(self@.in_flight =~= old(self)@.retransmitted(i as int, now).in_flight);
    }

    /// Removes the handle request `id`, queued or in flight, and reports
    /// whether it was found.
    pub fn withdraw(&mut self, id: u64) -> (found: bool)
        ensures
            match old(self)@.without(id) {
                Some(rest) => found && final(self)@ == rest,
                None => !found && final(self)@ == old(self)@,
            },
    {
        let ghost queued_match = |q: (OutboundView, Completion)| q.1 == Completion::Caller { id };
        let ghost flight_match = |p: PendingView| p.completion == Completion::Caller { id };
        let mut i: usize = 0;
        while i < self.queued.len()
            invariant
                i <= self.queued@.len(),
                self@ == old(self)@,
                queued_match == (|q: (OutboundView, Completion)|
                    q.1 == Completion::Caller { id }),
                forall|j: int| 0 <= j < i ==> !queued_match(#[trigger] self@.queued[j]),
            decreases self.queued@.len() - i,
        {
            assert(self@.queued[i as int].1 == self.queued@[i as int].1);
            if self.queued[i].1.is_caller(id) {
                proof {
                    lemma_position(self@.queued, queued_match, i as int);
                }
                self.queued.remove(i);
                assert(self@.queued =~= old(self)@.queued.remove(i as int));
                return true;
            }
            i = i + 1;
        }
        proof {
            lemma_no_position(self@.queued, queued_match);
        }
        let mut k: usize = 0;
        while k < self.in_flight.len()
            invariant
                k <= self.in_flight@.len(),
                self@ == old(self)@,
                flight_match == (|p: PendingView| p.completion == Completion::Caller { id }),
                old(self)@.queue_position(id) is None,
                forall|j: int| 0 <= j < k ==> !flight_match(#[trigger] self@.in_flight[j]),
            decreases self.in_flight@.len() - k,
        {
            assert(self@.in_flight[k as int].completion == self.in_flight@[k as int].completion);
            if self.in_flight[k].completion.is_caller(id) {
                proof {
                    lemma_position(self@.in_flight, flight_match, k as int);
                }
                self.in_flight.remove(k);
                assert(self@.in_flight =~= old(self)@.in_flight.remove(k as int));
                return true;
            }
            k = k + 1;
        }
        proof {
            lemma_no_position(self@.in_flight, flight_match);
        }
        false
    }

    /// Returns the earliest retransmission or deadline among in-flight
    /// exchanges.
    pub fn next_deadline(&self) -> (deadline: Option<u128>)
        ensures
            deadline == earliest_timer(self@.in_flight),
    {
        let mut earliest: Option<u128> = None;
        let mut i: usize = 0;
        while i < self.in_flight.len()
            invariant
                i <= self.in_flight@.len(),
                earliest == earliest_timer(self@.in_flight.take(i as int)),
            decreases self.in_flight@.len() - i,
        {
            proof {
                assert(self@.in_flight.take(i + 1).drop_last() =~= self@.in_flight.take(i as int));
                assert(self@.in_flight.take(i + 1).last() == self.in_flight@[i as int]@);
            }
            let pending = &self.in_flight[i];
            earliest = earlier_of(
                earliest,
                earlier_of(pending.retry_at, Some(pending.deadline)),
            );
            i = i + 1;
        }
        assert(self@.in_flight.take(i as int) =~= self@.in_flight);
        earliest
    }

    /// Removes every in-flight and queued exchange, and says who was waiting.
    pub fn drain(&mut self) -> (completions: Vec<Completion>)
        ensures
            completions@ == old(self)@.everyone(),
            final(self)@.in_flight == Seq::<PendingView>::empty(),
            final(self)@.queued == Seq::<(OutboundView, Completion)>::empty(),
    {
        let mut completions: Vec<Completion> = Vec::new();
        let mut i: usize = 0;
        while i < self.in_flight.len()
            invariant
                i <= self.in_flight@.len(),
                completions@ == waiting_for(self@.in_flight.take(i as int)),
            decreases self.in_flight@.len() - i,
        {
            completions.push(self.in_flight[i].completion);
            proof {
                assert(self@.in_flight.take(i + 1) =~= self@.in_flight.take(i as int).push(
                    self.in_flight@[i as int]@,
                ));
                assert(completions@ =~= waiting_for(self@.in_flight.take(i + 1)));
            }
            i = i + 1;
        }
        let mut k: usize = 0;
        assert(self@.in_flight.take(i as int) =~= self@.in_flight);
        assert(completions@ =~= waiting_for(self@.in_flight) + waiting_in(
            self@.queued.take(k as int),
        ));
        while k < self.queued.len()
            invariant
                k <= self.queued@.len(),
                completions@ == waiting_for(self@.in_flight) + waiting_in(
                    self@.queued.take(k as int),
                ),
            decreases self.queued@.len() - k,
        {
            completions.push(self.queued[k].1);
            proof {
                assert(self@.queued.take(k + 1) =~= self@.queued.take(k as int).push(
                    self@.queued[k as int],
                ));
                assert(completions@ =~= waiting_for(self@.in_flight) + waiting_in(
                    self@.queued.take(k + 1),
                ));
            }
            k = k + 1;
        }
        assert(self@.queued.take(k as int) =~= self@.queued);
        self.in_flight = Vec::new();
        self.queued = Vec::new();
        proof {
            assert(self@.in_flight =~= Seq::<PendingView>::empty());
            assert(self@.queued =~= Seq::<(OutboundView, Completion)>::empty());
        }
        completions
    }

    /// Stops retransmitting the exchange that `ack` acknowledges, if it is an
    /// empty ACK that arrived by the exchange's route (`proxied` or direct);
    /// the separate response is still awaited.
    pub fn acknowledge(&mut self, ack: &CoapMessage, proxied: bool) -> (acknowledged: bool)
        ensures
            match old(self)@.acknowledged_by(ack@, proxied) {
                Some(i) => acknowledged && final(self)@ == old(self)@.silenced(i),
                None => !acknowledged && final(self)@ == old(self)@,
            },
    {
        let ghost matching = |p: PendingView| p.acknowledged_by(ack@, proxied);
        let mut i: usize = 0;
        while i < self.in_flight.len()
            invariant
                i <= self.in_flight@.len(),
                self@ == old(self)@,
                matching == (|p: PendingView| p.acknowledged_by(ack@, proxied)),
                forall|j: int| 0 <= j < i ==> !matching(#[trigger] self@.in_flight[j]),
            decreases self.in_flight@.len() - i,
        {
            assert(self@.in_flight[i as int] == self.in_flight@[i as int]@);
            if self.in_flight[i].acknowledged_by(ack, proxied) {
                proof {
                    lemma_position(self@.in_flight, matching, i as int);
                }
                let mut pending = self.in_flight.remove(i);
                pending.retry_at = None;
                self.in_flight.insert(i, pending);
                assert(self@.in_flight =~= old(self)@.silenced(i as int).in_flight);
                return true;
            }
            i = i + 1;
        }
        proof {
            lemma_no_position(self@.in_flight, matching);
        }
        false
    }

    /// Removes and returns the exchange answered by `response`: a Reset of
    /// its message ID, or a response carrying its token. Only exchanges on
    /// the route `response` arrived by (`proxied` or direct) can match, so a
    /// mesh device answering through the proxy cannot complete an exchange
    /// with the border agent itself.
    pub fn take_answered(&mut self, response: &CoapMessage, proxied: bool) -> (answered: Option<
        Pending,
    >)
        ensures
            match (answered, old(self)@.answered_by(response@, proxied)) {
                (Some(pending), Some(i)) => 0 <= i < old(self)@.in_flight.len() && pending@
                    == old(self)@.in_flight[i] && final(self)@ == (ExchangesView {
                    in_flight: old(self)@.in_flight.remove(i),
                    ..old(self)@
                }),
                (None, None) => final(self)@ == old(self)@,
                _ => false,
            },
    {
        let ghost matching = |p: PendingView| p.answered_by(response@, proxied);
        let mut i: usize = 0;
        while i < self.in_flight.len()
            invariant
                i <= self.in_flight@.len(),
                self@ == old(self)@,
                matching == (|p: PendingView| p.answered_by(response@, proxied)),
                forall|j: int| 0 <= j < i ==> !matching(#[trigger] self@.in_flight[j]),
            decreases self.in_flight@.len() - i,
        {
            assert(self@.in_flight[i as int] == self.in_flight@[i as int]@);
            if self.in_flight[i].answered_by(response, proxied) {
                proof {
                    lemma_position(self@.in_flight, matching, i as int);
                }
                return Some(self.remove(i));
            }
            i = i + 1;
        }
        proof {
            lemma_no_position(self@.in_flight, matching);
        }
        None
    }
}

/// A message that arrived by one route never answers or acknowledges an
/// exchange on the other.
pub proof fn law_answers_stay_on_their_route(
    exchanges: ExchangesView,
    message: CoapView,
    proxied: bool,
)
    ensures
        exchanges.answered_by(message, proxied) matches Some(i) ==> 0 <= i
            < exchanges.in_flight.len() && (exchanges.in_flight[i].destination is Mesh) == proxied,
        exchanges.acknowledged_by(message, proxied) matches Some(i) ==> 0 <= i
            < exchanges.in_flight.len() && (exchanges.in_flight[i].destination is Mesh) == proxied,
{
    lemma_position_bounds(exchanges.in_flight, |p: PendingView| p.answered_by(message, proxied));
    lemma_position_bounds(
        exchanges.in_flight,
        |p: PendingView| p.acknowledged_by(message, proxied),
    );
}

/// Only a Reset, or a response of the class 2.xx, 4.xx or 5.xx that carries
/// the token, answers an exchange; only a strictly empty ACK stops its
/// retransmission.
pub proof fn law_what_answers_an_exchange(pending: PendingView, message: CoapView, proxied: bool)
    ensures
        pending.answered_by(message, proxied) ==> message.ty == CoapType::Reset || (message.token
            == pending.request.token && (crate::commissioner::coap::class_of(message.code) == 2
            || crate::commissioner::coap::class_of(message.code) == 4
            || crate::commissioner::coap::class_of(message.code) == 5)),
        pending.acknowledged_by(message, proxied) ==> message == CoapView::empty(
            CoapType::Acknowledgement,
            pending.request.message_id,
        ),
{
}

/// A withdrawn request is gone: it is neither queued nor in flight where it
/// was there once, and the other requests keep their order. Where nothing can
/// be withdrawn, the request is neither queued nor in flight.
pub proof fn law_withdrawing_takes_one_request(exchanges: ExchangesView, id: u64)
    ensures
        exchanges.without(id) matches Some(rest) ==> rest.in_flight.len() + rest.queued.len() + 1
            == exchanges.in_flight.len() + exchanges.queued.len() && (exists|i: int|
            0 <= i < exchanges.queued.len() && exchanges.queued[i].1 == (Completion::Caller { id })
                && rest.queued == #[trigger] exchanges.queued.remove(i) && rest.in_flight
                == exchanges.in_flight || 0 <= i < exchanges.in_flight.len()
                && exchanges.in_flight[i].completion == (Completion::Caller { id })
                && rest.in_flight == exchanges.in_flight.remove(i) && rest.queued
                == exchanges.queued),
        exchanges.without(id) is None ==> forall|i: int|
            0 <= i < exchanges.queued.len() ==> #[trigger] exchanges.queued[i].1
                != (Completion::Caller { id }),
        exchanges.without(id) is None ==> forall|i: int|
            0 <= i < exchanges.in_flight.len() ==> #[trigger] exchanges.in_flight[i].completion
                != (Completion::Caller { id }),
{
    let queued_match = |q: (OutboundView, Completion)| q.1 == Completion::Caller { id };
    let flight_match = |p: PendingView| p.completion == Completion::Caller { id };
    lemma_position_bounds(exchanges.queued, queued_match);
    lemma_position_bounds(exchanges.in_flight, flight_match);
    if let Some(i) = exchanges.queue_position(id) {
        assert(exchanges.queued.remove(i).len() == exchanges.queued.len() - 1);
    } else if let Some(i) = exchanges.flight_position(id) {
        assert(exchanges.in_flight.remove(i).len() == exchanges.in_flight.len() - 1);
        assert(exchanges.queued.remove(i) == exchanges.queued.remove(i));
    } else {
        lemma_absent(exchanges.queued, queued_match);
        lemma_absent(exchanges.in_flight, flight_match);
    }
}

/// Without a first position there is no match.
pub proof fn lemma_absent<T>(s: Seq<T>, matches: spec_fn(T) -> bool)
    requires
        position(s, matches) is None,
    ensures
        forall|i: int| 0 <= i < s.len() ==> !matches(#[trigger] s[i]),
    decreases s.len(),
{
    if s.len() > 0 {
        lemma_absent(s.drop_first(), matches);
        assert forall|i: int| 0 <= i < s.len() implies !matches(#[trigger] s[i]) by {
            if i > 0 {
                assert(s.drop_first()[i - 1] == s[i]);
            }
        }
    }
}

/// A confirmable request is sent again 2 to 3 seconds after it was sent, and
/// once more after twice that wait, but never a third time; whatever its type,
/// it is given up 12 seconds after it was sent, however often it was repeated.
pub proof fn law_a_request_is_sent_three_times_at_most(
    request: OutboundView,
    completion: Completion,
    now: u128,
    random: u32,
    again: u128,
    last: u128,
)
    requires
        now <= again <= last,
        last + 20_000_000_000 <= u128::MAX,
    ensures
        ({
            let sent = PendingView::sent(request, completion, now, random);
            let repeated = sent.retransmitted(again);
            let finally = repeated.retransmitted(last);
            &&& sent.request == request.message
            &&& sent.destination == request.destination
            &&& sent.completion == completion
            &&& repeated.request == request.message
            &&& repeated.destination == request.destination
            &&& repeated.completion == completion
            &&& sent.deadline == now + 12_000_000_000
            &&& repeated.deadline == sent.deadline
            &&& finally.deadline == sent.deadline
            &&& finally.retry_at is None
            &&& request.message.ty == CoapType::Confirmable ==> {
                &&& sent.retry_at matches Some(first)
                &&& now + 2_000_000_000 <= first <= now + 3_000_000_000
                &&& repeated.retry_at matches Some(second)
                &&& second - again == 2 * (first - now)
            }
            &&& request.message.ty != CoapType::Confirmable ==> sent.retry_at is None
                && repeated.retry_at is None
        }),
{
}

/// An exchange is answered by a Reset of its message ID and by every response
/// that carries its token, on its own route; an empty acknowledgement of its
/// message ID stops its repetition and changes neither its deadline nor who
/// waits for it.
pub proof fn law_an_exchange_is_answered_by_its_token(
    pending: PendingView,
    message: CoapView,
    exchanges: ExchangesView,
    i: int,
)
    requires
        0 <= i < exchanges.in_flight.len(),
    ensures
        ({
            let mesh = pending.destination is Mesh;
            let class = message.code / 32;
            &&& message.ty == CoapType::Reset && message.message_id == pending.request.message_id
                ==> pending.answered_by(message, mesh)
            &&& (class == 2 || class == 4 || class == 5) && message.token == pending.request.token
                ==> pending.answered_by(message, mesh)
            &&& !pending.answered_by(message, !mesh)
            &&& !pending.acknowledged_by(message, !mesh)
            &&& message.ty == CoapType::Acknowledgement && message.code == 0 && message.message_id
                == pending.request.message_id && message.token.len() == 0 && message.options.len()
                == 0 && message.payload.len() == 0 ==> pending.acknowledged_by(message, mesh)
        }),
        ({
            let silenced = exchanges.silenced(i);
            &&& silenced.in_flight.len() == exchanges.in_flight.len()
            &&& silenced.queued == exchanges.queued
            &&& silenced.in_flight[i].retry_at is None
            &&& silenced.in_flight[i].deadline == exchanges.in_flight[i].deadline
            &&& silenced.in_flight[i].completion == exchanges.in_flight[i].completion
            &&& silenced.in_flight[i].request == exchanges.in_flight[i].request
            &&& forall|j: int|
                0 <= j < exchanges.in_flight.len() && j != i ==> #[trigger] silenced.in_flight[j]
                    == exchanges.in_flight[j]
        }),
{
    let mesh = pending.destination is Mesh;
    if message.ty == CoapType::Acknowledgement && message.code == 0 && message.message_id
        == pending.request.message_id && message.token.len() == 0 && message.options.len() == 0
        && message.payload.len() == 0 {
        assert(message =~= CoapView::empty(
            CoapType::Acknowledgement,
            pending.request.message_id,
        ));
    }
}

} // verus!

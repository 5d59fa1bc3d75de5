//! Protected records of one association, in both directions.

use vstd::prelude::*;

use crate::bytes::views;
use crate::dtls::error::{Error, ErrorView};
use crate::dtls::flight::wrapped;
use crate::dtls::protection::{
    open_aes_128_ccm_8_record, opened, protect_aes_128_ccm_8_record, protectable, protected,
    unauthentic_record, RecordProtectionKey, ThreadDtlsKeyMaterial, Tls12Aes128Ccm8KeyBlock,
};
use crate::dtls::record::{oversized_record, ContentType, DtlsRecord, RecordHeader, RecordView};
use crate::dtls::replay::{too_old_for, ReplayWindow, WINDOW_WIDTH};
use crate::text::{append_decimal, decimal};

verus! {

/// TLS `close_notify` alert description (RFC 5246 section 7.2.1).
pub const ALERT_CLOSE_NOTIFY: u8 = 0;

/// Which end of the association this is.
#[derive(Debug, Clone, Copy, PartialEq, Eq, Structural)]
pub enum SessionRole {
    Client,
    Server,
}

impl SessionRole {
    /// The other end.
    pub open spec fn peer(self) -> SessionRole {
        match self {
            SessionRole::Client => SessionRole::Server,
            SessionRole::Server => SessionRole::Client,
        }
    }
}

/// The key that the end with the given role writes with.
pub open spec fn write_key(keys: Tls12Aes128Ccm8KeyBlock, role: SessionRole) -> Seq<u8> {
    match role {
        SessionRole::Client => keys.client_write_key@,
        SessionRole::Server => keys.server_write_key@,
    }
}

/// The implicit nonce that the end with the given role writes with.
pub open spec fn write_iv(keys: Tls12Aes128Ccm8KeyBlock, role: SessionRole) -> Seq<u8> {
    match role {
        SessionRole::Client => keys.client_write_iv@,
        SessionRole::Server => keys.server_write_iv@,
    }
}

/// The keys and counters of one end of an association.
pub struct SessionState {
    key_material: ThreadDtlsKeyMaterial,
    role: SessionRole,
    next_application_sequence: u64,
    application_replay: ReplayWindow,
    pending: Vec<DtlsRecord>,
}

/// [`SessionState`] with its window as a set and its records as a sequence.
#[verifier::ext_equal]
pub struct SessionView {
    pub key_material: ThreadDtlsKeyMaterial,
    pub role: SessionRole,
    pub next_sequence: u64,
    /// The sequence numbers that count as received.
    pub seen: Set<u64>,
    /// Records that were received and not looked at yet.
    pub pending: Seq<RecordView>,
}

impl View for SessionState {
    type V = SessionView;

    closed spec fn view(&self) -> SessionView {
        SessionView {
            key_material: self.key_material,
            role: self.role,
            next_sequence: self.next_application_sequence,
            seen: self.application_replay@,
            pending: views(self.pending@),
        }
    }
}

impl SessionView {
    /// A fresh association whose next record has the given number.
    pub open spec fn fresh(
        key_material: ThreadDtlsKeyMaterial,
        role: SessionRole,
        next_sequence: u64,
    ) -> SessionView {
        SessionView {
            key_material,
            role,
            next_sequence,
            seen: Set::empty(),
            pending: Seq::empty(),
        }
    }

    /// The record that protects `plaintext` next.
    pub open spec fn next_record(self, content_type: ContentType, plaintext: Seq<u8>) -> RecordView {
        protected(
            content_type,
            1,
            self.next_sequence,
            write_key(self.key_material.key_block, self.role),
            write_iv(self.key_material.key_block, self.role),
            plaintext,
        )
    }

    /// The association after one more record was protected.
    pub open spec fn after_protect(self) -> SessionView {
        SessionView { next_sequence: wrapped(self.next_sequence + 1), ..self }
    }

    /// What the peer's record holds, or `None` where it is not authentic.
    pub open spec fn open(self, record: RecordView) -> Option<Seq<u8>> {
        opened(
            record,
            write_key(self.key_material.key_block, self.role.peer()),
            write_iv(self.key_material.key_block, self.role.peer()),
        )
    }

    /// The association after an authentic record with the given number.
    pub open spec fn after_open(self, sequence_number: u64) -> SessionView {
        SessionView {
            seen: self.seen.insert(sequence_number).union(too_old_for(sequence_number)),
            ..self
        }
    }

    /// Whether the established association has a use for the record: an
    /// authentic application-data or alert record of epoch 1 that was not
    /// received before.
    pub open spec fn usable(self, record: RecordView) -> bool {
        &&& record.header.epoch == 1
        &&& record.header.content_type == ContentType::ApplicationData
            || record.header.content_type == ContentType::Alert
        &&& !self.seen.contains(record.header.sequence_number)
        &&& self.open(record) is Some
    }

    /// What a usable record means to the receiver.
    pub open spec fn meaning(self, record: RecordView) -> Result<Seq<u8>, ErrorView> {
        let plaintext = self.open(record)->0;
        if record.header.content_type == ContentType::Alert {
            Err(authenticated_alert(record.header, plaintext))
        } else {
            Ok(plaintext)
        }
    }

    /// The association with the records of a datagram behind those still
    /// pending.
    pub open spec fn queued(self, records: Seq<RecordView>) -> SessionView {
        SessionView { pending: self.pending + records, ..self }
    }

    /// The association after a record was handed to be opened: only one that
    /// is authentic and was not received before leaves a trace.
    pub open spec fn offered(self, record: RecordView) -> SessionView {
        if !self.seen.contains(record.header.sequence_number) && self.open(record) is Some {
            self.after_open(record.header.sequence_number)
        } else {
            self
        }
    }

    /// What the first usable pending record means, and the association after
    /// it: the records before it are gone, those behind it are kept.
    pub open spec fn receive(self) -> (SessionView, Option<Result<Seq<u8>, ErrorView>>)
        decreases self.pending.len(),
    {
        if self.pending.len() == 0 {
            (self, None)
        } else {
            let record = self.pending[0];
            let rest = SessionView { pending: self.pending.drop_first(), ..self };
            if rest.usable(record) {
                (rest.after_open(record.header.sequence_number), Some(rest.meaning(record)))
            } else {
                rest.receive()
            }
        }
    }
}

/// The error for a received alert.
pub open spec fn alert_error(header: RecordHeader, payload: Seq<u8>) -> ErrorView {
    let place = "DTLS alert epoch="@ + decimal(header.epoch as nat) + " seq="@ + decimal(
        header.sequence_number as nat,
    );
    if payload.len() >= 2 {
        ErrorView::Crypto(
            place + " level="@ + decimal(payload[0] as nat) + " description="@ + decimal(
                payload[1] as nat,
            ),
        )
    } else {
        ErrorView::Crypto(place + " received"@)
    }
}

/// The error for an authenticated alert of an established association: an
/// orderly `close_notify` is the peer's close.
pub open spec fn authenticated_alert(header: RecordHeader, payload: Seq<u8>) -> ErrorView {
    if payload.len() >= 2 && payload[1] == ALERT_CLOSE_NOTIFY {
        ErrorView::PeerClosed
    } else {
        alert_error(header, payload)
    }
}

/// Converts a received alert's header and plaintext into an error.
pub fn decode_alert_error(header: &RecordHeader, payload: &[u8]) -> (error: Error)
    ensures
        error@ == alert_error(*header, payload@),
{
    let mut text = String::from_str("DTLS alert epoch=");
    append_decimal(&mut text, header.epoch as u64);
    text.append(" seq=");
    append_decimal(&mut text, header.sequence_number);
    if payload.len() >= 2 {
        text.append(" level=");
        append_decimal(&mut text, payload[0] as u64);
        text.append(" description=");
        append_decimal(&mut text, payload[1] as u64);
    } else {
        text.append(" received");
    }
    Error::Crypto(text)
}

/// Converts an authenticated alert from an established session into an
/// error, reporting an orderly `close_notify` as [`Error::PeerClosed`].
pub fn decode_authenticated_alert(header: &RecordHeader, payload: &[u8]) -> (error: Error)
    ensures
        error@ == authenticated_alert(*header, payload@),
{
    if payload.len() >= 2 && payload[1] == ALERT_CLOSE_NOTIFY {
        Error::PeerClosed
    } else {
        decode_alert_error(header, payload)
    }
}

impl SessionState {
    /// Builds a session whose own Finished already used epoch-1 sequence 0.
    pub fn new(key_material: ThreadDtlsKeyMaterial, role: SessionRole) -> (state: Self)
        ensures
            state@ == SessionView::fresh(key_material, role, 1),
    {
        SessionState::with_next_application_sequence(key_material, role, 1)
    }

    /// Builds a session that has not protected anything yet.
    pub fn during_handshake(key_material: ThreadDtlsKeyMaterial, role: SessionRole) -> (state: Self)
        ensures
            state@ == SessionView::fresh(key_material, role, 0),
    {
        SessionState::with_next_application_sequence(key_material, role, 0)
    }

    fn with_next_application_sequence(
        key_material: ThreadDtlsKeyMaterial,
        role: SessionRole,
        next_application_sequence: u64,
    ) -> (state: Self)
        ensures
            state@ == SessionView::fresh(key_material, role, next_application_sequence),
    {
        let pending: Vec<DtlsRecord> = Vec::new();
        assert(views(pending@) =~= Seq::<RecordView>::empty());
        SessionState {
            key_material,
            role,
            next_application_sequence,
            application_replay: ReplayWindow::new(),
            pending,
        }
    }

    /// The keys of the association.
    pub fn key_material(&self) -> (keys: &ThreadDtlsKeyMaterial)
        ensures
            *keys == self@.key_material,
    {
        &self.key_material
    }

    /// Protects one piece of application data.
    pub fn protect_application_data(&mut self, plaintext: &[u8]) -> (result: Result<
        DtlsRecord,
        Error,
    >)
        ensures
            match result {
                Ok(record) => protectable(old(self)@.next_sequence, plaintext@.len()) && record@
                    == old(self)@.next_record(ContentType::ApplicationData, plaintext@)
                    && record@.fits() && final(self)@ == old(self)@.after_protect() && opened(
                    record@,
                    write_key(old(self)@.key_material.key_block, old(self)@.role),
                    write_iv(old(self)@.key_material.key_block, old(self)@.role),
                ) == Some(plaintext@),
                Err(error) => !protectable(old(self)@.next_sequence, plaintext@.len()) && error@
                    == oversized_record() && final(self)@ == old(self)@,
            },
    {
        self.protect_record(ContentType::ApplicationData, plaintext)
    }

    /// Protects one record under the next sequence number, which is used up
    /// only where that succeeds. The peer opens it to the same plaintext.
    pub fn protect_record(&mut self, content_type: ContentType, plaintext: &[u8]) -> (result:
        Result<DtlsRecord, Error>)
        ensures
            match result {
                Ok(record) => protectable(old(self)@.next_sequence, plaintext@.len()) && record@
                    == old(self)@.next_record(content_type, plaintext@) && record@.fits()
                    && final(self)@ == old(self)@.after_protect() && opened(
                    record@,
                    write_key(old(self)@.key_material.key_block, old(self)@.role),
                    write_iv(old(self)@.key_material.key_block, old(self)@.role),
                ) == Some(plaintext@),
                Err(error) => !protectable(old(self)@.next_sequence, plaintext@.len()) && error@
                    == oversized_record() && final(self)@ == old(self)@,
            },
    {
        let keys: &Tls12Aes128Ccm8KeyBlock = &self.key_material.key_block;
        let (key, iv) = match self.role {
            SessionRole::Client => (keys.client_write_key, keys.client_write_iv),
            SessionRole::Server => (keys.server_write_key, keys.server_write_iv),
        };
        match protect_aes_128_ccm_8_record(
            content_type,
            1,
            self.next_application_sequence,
            RecordProtectionKey::new(key),
            &iv,
            plaintext,
        ) {
            Err(error) => Err(error),
            Ok(record) => {
                self.next_application_sequence = self.next_application_sequence.wrapping_add(1);
                Ok(record)
            },
        }
    }

    /// Opens one epoch-1 record from the peer.
    ///
    /// Returns `Ok(None)` for a replayed record and an error when the record
    /// fails authentication; only authenticated records advance the window.
    pub fn open_protected_record(&mut self, record: &DtlsRecord) -> (result: Result<
        Option<Vec<u8>>,
        Error,
    >)
        ensures
            ({
                let seen = old(self)@.seen.contains(record@.header.sequence_number);
                match result {
                    Ok(None) => seen && final(self)@ == old(self)@,
                    Ok(Some(plaintext)) => !seen && old(self)@.open(record@) == Some(plaintext@)
                        && final(self)@ == old(self)@.after_open(record@.header.sequence_number),
                    Err(error) => !seen && old(self)@.open(record@) is None && error@
                        == unauthentic_record() && final(self)@ == old(self)@,
                }
            }),
            final(self)@ == old(self)@.offered(record@),
    {
        if self.application_replay.has_seen(record.header.sequence_number) {
            return Ok(None);
        }
        match self.open_unmarked(record) {
            Err(error) => Err(error),
            Ok(plaintext) => {
                self.application_replay.mark_seen(record.header.sequence_number);
                Ok(Some(plaintext))
            },
        }
    }

    /// Opens one record from the peer without regard to the window.
    pub fn open_unmarked(&self, record: &DtlsRecord) -> (result: Result<Vec<u8>, Error>)
        ensures
            match result {
                Ok(plaintext) => self@.open(record@) == Some(plaintext@),
                Err(error) => self@.open(record@) is None && error@ == unauthentic_record(),
            },
    {
        let keys: &Tls12Aes128Ccm8KeyBlock = &self.key_material.key_block;
        let (key, iv) = match self.role {
            SessionRole::Client => (keys.server_write_key, keys.server_write_iv),
            SessionRole::Server => (keys.client_write_key, keys.client_write_iv),
        };
        open_aes_128_ccm_8_record(record, RecordProtectionKey::new(key), &iv)
    }

    /// Takes the pending records up to the first usable one.
    ///
    /// Returns its plaintext, or the error for an authenticated alert.
    /// Unauthenticated, replayed, and other records are discarded, yielding
    /// `None` when nothing pending is usable. Records behind the one that is
    /// returned stay pending.
    pub fn receive_pending(&mut self) -> (received: Option<Result<Vec<u8>, Error>>)
        ensures
            final(self)@ == old(self)@.receive().0,
            match (received, old(self)@.receive().1) {
                (None, None) => true,
                (Some(Ok(plaintext)), Some(Ok(expected))) => plaintext@ == expected,
                (Some(Err(error)), Some(Err(expected))) => error@ == expected,
                _ => false,
            },
    {
        while self.pending.len() > 0
            invariant
                self@.receive() == old(self)@.receive(),
            decreases self.pending@.len(),
        {
            let ghost before = self@;
            let record = self.pending.remove(0);
            proof {
                assert(before.pending[0] == record@);
                assert(self@.pending =~= before.pending.drop_first());
                assert(self@ =~= SessionView { pending: before.pending.drop_first(), ..before });
            }
            if record.header.epoch == 1 && (record.header.content_type
                == ContentType::ApplicationData || record.header.content_type
                == ContentType::Alert) {
                if let Ok(Some(plaintext)) = self.open_protected_record(&record) {
                    if record.header.content_type == ContentType::Alert {
                        return Some(
                            Err(decode_authenticated_alert(&record.header, plaintext.as_slice())),
                        );
                    }
                    return Some(Ok(plaintext));
                }
            }
        }
        assert(self@.pending.len() == 0);
        None
    }

    /// Takes the records of one established-session datagram: they wait behind
    /// those still pending, and the first usable one is returned as
    /// [`Self::receive_pending`] says.
    pub fn open_session_datagram(&mut self, records: &[DtlsRecord]) -> (received: Option<
        Result<Vec<u8>, Error>,
    >)
        ensures
            ({
                let queued = old(self)@.queued(views(records@));
                &&& final(self)@ == queued.receive().0
                &&& match (received, queued.receive().1) {
                    (None, None) => true,
                    (Some(Ok(plaintext)), Some(Ok(expected))) => plaintext@ == expected,
                    (Some(Err(error)), Some(Err(expected))) => error@ == expected,
                    _ => false,
                }
            }),
    {
        let mut more = crate::dtls::record::copy_records(records);
        proof {
            assert(views(self.pending@ + more@) =~= views(self.pending@) + views(more@));
        }
        self.pending.append(&mut more);
        assert(self@ =~= old(self)@.queued(views(records@)));
        self.receive_pending()
    }
}

/// What one end protects, the other end opens to the same plaintext: the keys
/// that an end writes with are those that its peer opens with.
pub proof fn law_peer_opens_with_the_write_keys(
    sender: SessionView,
    receiver: SessionView,
    record: RecordView,
)
    requires
        sender.key_material == receiver.key_material,
        receiver.role == sender.role.peer(),
    ensures
        receiver.open(record) == opened(
            record,
            write_key(sender.key_material.key_block, sender.role),
            write_iv(sender.key_material.key_block, sender.role),
        ),
{
}

/// A record that was opened once is refused from then on, whatever arrives in
/// between.
pub proof fn law_record_is_taken_once(session: SessionView, record: RecordView)
    ensures
        !session.after_open(record.header.sequence_number).usable(record),
{
}

/// Whether the record at a position is the first pending one that the
/// association has a use for.
pub open spec fn is_first_usable(session: SessionView, i: int) -> bool {
    &&& 0 <= i < session.pending.len()
    &&& session.usable(session.pending[i])
    &&& forall|j: int| 0 <= j < i ==> !session.usable(#[trigger] session.pending[j])
}

/// A receive answers for the first usable record, in order, and for nothing
/// exactly where no record is usable. Records behind the one that it returns
/// are kept unopened for the next receive, in order; where nothing was usable,
/// nothing is kept.
pub proof fn law_receive_keeps_the_rest(session: SessionView)
    ensures
        session.receive().1 is None <==> forall|i: int|
            0 <= i < session.pending.len() ==> !session.usable(#[trigger] session.pending[i]),
        session.receive().1 is None ==> session.receive().0 == (SessionView {
            pending: Seq::empty(),
            ..session
        }),
        session.receive().1 is Some ==> exists|i: int|
            #[trigger] is_first_usable(session, i) && session.receive() == (
                SessionView {
                    pending: session.pending.skip(i + 1),
                    ..session.after_open(session.pending[i].header.sequence_number)
                },
                Some(session.meaning(session.pending[i])),
            ),
    decreases session.pending.len(),
{
    if session.pending.len() == 0 {
        assert(session.pending =~= Seq::empty());
    } else {
        let record = session.pending[0];
        let rest = SessionView { pending: session.pending.drop_first(), ..session };
        assert(forall|r: RecordView|
            rest.usable(r) == #[trigger] session.usable(r) && rest.meaning(r) == session.meaning(r));
        assert(forall|i: int|
            0 < i < session.pending.len() ==> #[trigger] session.pending[i]
                == rest.pending[i - 1]);
        if rest.usable(record) {
            assert(session.pending.drop_first() =~= session.pending.skip(1));
            assert(is_first_usable(session, 0));
        } else {
            law_receive_keeps_the_rest(rest);
            if rest.receive().1 is Some {
                let i = choose|i: int|
                    #[trigger] is_first_usable(rest, i) && rest.receive() == (
                        SessionView {
                            pending: rest.pending.skip(i + 1),
                            ..rest.after_open(rest.pending[i].header.sequence_number)
                        },
                        Some(rest.meaning(rest.pending[i])),
                    );
                assert(rest.pending.skip(i + 1) =~= session.pending.skip(i + 2));
                assert(rest.pending[i] == session.pending[i + 1]);
                assert(is_first_usable(session, i + 1));
            } else {
                assert forall|i: int| 0 <= i < session.pending.len() implies !session.usable(
                    #[trigger] session.pending[i],
                ) by {
                    if i > 0 {
                        assert(session.pending[i] == rest.pending[i - 1]);
                    }
                }
            }
        }
    }
}

/// A datagram is answered in order: what was pending comes first, nothing
/// comes back exactly where nothing pending and nothing in the datagram is
/// usable, and pending records without a use make no difference. The records
/// that are kept give the next receive what they would give if they arrived
/// again.
pub proof fn law_a_datagram_is_answered_in_order(session: SessionView, records: Seq<RecordView>)
    ensures
        ({
            let given = session.queued(records).receive();
            let emptied = SessionView { pending: Seq::empty(), ..session };
            let after = SessionView { pending: Seq::empty(), ..given.0 };
            let idle = forall|i: int|
                0 <= i < session.pending.len() ==> !session.usable(#[trigger] session.pending[i]);
            &&& given.1 is None <==> idle && forall|i: int|
                0 <= i < records.len() ==> !session.usable(#[trigger] records[i])
            &&& idle ==> given == emptied.queued(records).receive()
            &&& after.queued(given.0.pending).receive() == given.0.receive()
        }),
    decreases session.pending.len(),
{
    let queued = session.queued(records);
    let emptied = SessionView { pending: Seq::empty(), ..session };
    let given = queued.receive();
    let after = SessionView { pending: Seq::empty(), ..given.0 };
    assert(after.queued(given.0.pending) =~= given.0);
    law_receive_keeps_the_rest(queued);
    assert(forall|r: RecordView| queued.usable(r) == #[trigger] session.usable(r));
    assert forall|i: int| 0 <= i < session.pending.len() implies #[trigger] session.pending[i]
        == queued.pending[i] by {}
    assert forall|i: int| 0 <= i < records.len() implies #[trigger] records[i]
        == queued.pending[session.pending.len() + i] by {}
    assert forall|i: int| 0 <= i < queued.pending.len() implies #[trigger] queued.pending[i] == (if i
        < session.pending.len() {
        session.pending[i]
    } else {
        records[i - session.pending.len()]
    }) by {}
    if session.pending.len() == 0 {
        assert(queued =~= emptied.queued(records));
    } else {
        let rest = SessionView { pending: session.pending.drop_first(), ..session };
        assert(queued.pending.drop_first() =~= rest.pending + records);
        assert(queued.pending[0] == session.pending[0]);
        let next = SessionView { pending: queued.pending.drop_first(), ..queued };
        assert(next =~= rest.queued(records));
        law_a_datagram_is_answered_in_order(rest, records);
        assert(SessionView { pending: Seq::<RecordView>::empty(), ..rest } =~= emptied);
        assert(forall|r: RecordView| rest.usable(r) == #[trigger] session.usable(r));
        if forall|i: int|
            0 <= i < session.pending.len() ==> !session.usable(#[trigger] session.pending[i]) {
            assert forall|i: int| 0 <= i < rest.pending.len() implies !rest.usable(
                #[trigger] rest.pending[i],
            ) by {
                assert(rest.pending[i] == session.pending[i + 1]);
            }
        }
    }
}

/// Two records of one datagram are received one after the other: with nothing
/// pending, application data and a `close_notify` behind it give the data
/// first and the peer's close next, without another datagram. The second
/// record has to be fresh once the first is opened: its number is another one
/// and lies within the window.
pub proof fn law_a_close_behind_data_is_received_next(
    session: SessionView,
    data: RecordView,
    close: RecordView,
)
    requires
        session.pending.len() == 0,
        session.usable(data),
        data.header.content_type == ContentType::ApplicationData,
        session.usable(close),
        close.header.content_type == ContentType::Alert,
        session.open(close)->0.len() >= 2,
        session.open(close)->0[1] == ALERT_CLOSE_NOTIFY,
        close.header.sequence_number != data.header.sequence_number,
        close.header.sequence_number + WINDOW_WIDTH > data.header.sequence_number,
    ensures
        ({
            let first = session.queued(seq![data, close]).receive();
            &&& first.1 == Some(Ok::<Seq<u8>, ErrorView>(session.open(data)->0))
            &&& first.0.receive().1 == Some(Err::<Seq<u8>, ErrorView>(ErrorView::PeerClosed))
            &&& first.0.receive().0.pending.len() == 0
        }),
{
    let given = session.queued(seq![data, close]);
    assert(given.pending =~= seq![data, close]);
    assert(given.pending.drop_first() =~= seq![close]);
    let rest = SessionView { pending: given.pending.drop_first(), ..given };
    let next = rest.after_open(data.header.sequence_number);
    assert(rest.usable(data));
    assert(given.receive().0 == next);
    let last = SessionView { pending: next.pending.drop_first(), ..next };
    assert(next.pending[0] == close);
    assert(last.open(close) == session.open(close));
    assert(last.usable(close));
}

/// What can happen to an association: it protects a record, a record is
/// handed to be opened, or the records of a datagram, of which there may be
/// none, are received.
pub enum SessionEvent {
    Protect,
    Open(RecordView),
    Receive(Seq<RecordView>),
}

impl SessionView {
    /// The association after an event.
    pub open spec fn after_event(self, event: SessionEvent) -> SessionView {
        match event {
            SessionEvent::Protect => self.after_protect(),
            SessionEvent::Open(record) => self.offered(record),
            SessionEvent::Receive(records) => self.queued(records).receive().0,
        }
    }

    /// The association after events, the first of them first.
    pub open spec fn after_events(self, events: Seq<SessionEvent>) -> SessionView
        decreases events.len(),
    {
        if events.len() == 0 {
            self
        } else {
            self.after_events(events.drop_last()).after_event(events.last())
        }
    }

    /// The number of the record that a receive opens, if it opens one.
    pub open spec fn received_number(self) -> Option<u64>
        decreases self.pending.len(),
    {
        if self.pending.len() == 0 {
            None
        } else if self.usable(self.pending[0]) {
            Some(self.pending[0].header.sequence_number)
        } else {
            (SessionView { pending: self.pending.drop_first(), ..self }).received_number()
        }
    }

    /// The number of the record that an event opens, if it opens one.
    pub open spec fn opened_number(self, event: SessionEvent) -> Option<u64> {
        match event {
            SessionEvent::Protect => None,
            SessionEvent::Open(record) => if !self.seen.contains(record.header.sequence_number)
                && self.open(record) is Some {
                Some(record.header.sequence_number)
            } else {
                None
            },
            SessionEvent::Receive(records) => self.queued(records).received_number(),
        }
    }

    /// The numbers of the records that events opened.
    pub open spec fn opened_numbers(self, events: Seq<SessionEvent>) -> Set<u64>
        decreases events.len(),
    {
        if events.len() == 0 {
            Set::empty()
        } else {
            let before = self.opened_numbers(events.drop_last());
            match self.after_events(events.drop_last()).opened_number(events.last()) {
                Some(number) => before.insert(number),
                None => before,
            }
        }
    }
}

/// The numbers that are refused once records with the given numbers were
/// opened: those, and all that lie 64 or more below one of them, which is to
/// say below the newest.
pub open spec fn refused_after(opened: Set<u64>) -> Set<u64> {
    Set::new(
        |n: u64|
            opened.contains(n) || exists|newer: u64| #[trigger]
                opened.contains(newer) && n + WINDOW_WIDTH <= newer,
    )
}

proof fn lemma_refused_grows(opened: Set<u64>, number: u64)
    ensures
        refused_after(opened).insert(number).union(too_old_for(number)) == refused_after(
            opened.insert(number),
        ),
{
    let before = refused_after(opened).insert(number).union(too_old_for(number));
    let after = refused_after(opened.insert(number));
    assert forall|n: u64| before.contains(n) == after.contains(n) by {
        if before.contains(n) {
            if n + WINDOW_WIDTH <= number {
                assert(opened.insert(number).contains(number));
            } else if n != number && !opened.contains(n) {
                let newer = choose|newer: u64| #[trigger]
                    opened.contains(newer) && n + WINDOW_WIDTH <= newer;
                assert(opened.insert(number).contains(newer));
            }
        }
        if after.contains(n) && n != number && !opened.contains(n) {
            let newer = choose|newer: u64| #[trigger]
                opened.insert(number).contains(newer) && n + WINDOW_WIDTH <= newer;
            if newer != number {
                assert(opened.contains(newer));
            }
        }
    }
    assert(before =~= after);
}

proof fn lemma_receive_marks(session: SessionView)
    ensures
        session.receive().0.seen == match session.received_number() {
            Some(number) => session.seen.insert(number).union(too_old_for(number)),
            None => session.seen,
        },
    decreases session.pending.len(),
{
    if session.pending.len() > 0 {
        let rest = SessionView { pending: session.pending.drop_first(), ..session };
        assert(rest.usable(session.pending[0]) == session.usable(session.pending[0]));
        lemma_receive_marks(rest);
    }
}

/// Whatever happens to an association, it refuses a number as received
/// exactly where a record with it was opened before, or where it lies 64 or
/// more below the newest number that was opened. Forged records and replays
/// leave no trace, so that they never block an authentic record.
pub proof fn law_only_opened_records_are_refused(
    key_material: ThreadDtlsKeyMaterial,
    role: SessionRole,
    next_sequence: u64,
    events: Seq<SessionEvent>,
)
    ensures
        ({
            let start = SessionView::fresh(key_material, role, next_sequence);
            let session = start.after_events(events);
            &&& session.seen == refused_after(start.opened_numbers(events))
            &&& forall|record: RecordView|
                session.seen.contains(record.header.sequence_number) || session.open(record) is None
                    ==> #[trigger] session.offered(record) == session
        }),
    decreases events.len(),
{
    let start = SessionView::fresh(key_material, role, next_sequence);
    if events.len() == 0 {
        assert(start.seen =~= refused_after(Set::empty()));
    } else {
        let before = start.after_events(events.drop_last());
        law_only_opened_records_are_refused(
            key_material,
            role,
            next_sequence,
            events.drop_last(),
        );
        if let SessionEvent::Receive(records) = events.last() {
            lemma_receive_marks(before.queued(records));
        }
        if let Some(number) = before.opened_number(events.last()) {
            lemma_refused_grows(start.opened_numbers(events.drop_last()), number);
        }
    }
}

/// Application data that one end protected reaches the other end as it was
/// sent: the record, which opens under the sender's keys, is what the receiver
/// returns next where it has not seen its number.
pub proof fn law_what_is_sent_is_received(
    sender: SessionView,
    receiver: SessionView,
    record: RecordView,
    plaintext: Seq<u8>,
)
    requires
        sender.key_material == receiver.key_material,
        receiver.role == sender.role.peer(),
        record.header.epoch == 1,
        record.header.content_type == ContentType::ApplicationData,
        opened(
            record,
            write_key(sender.key_material.key_block, sender.role),
            write_iv(sender.key_material.key_block, sender.role),
        ) == Some(plaintext),
        receiver.pending.len() == 0,
        !receiver.seen.contains(record.header.sequence_number),
    ensures
        (SessionView { pending: seq![record], ..receiver }).receive().1 == Some(
            Ok::<Seq<u8>, ErrorView>(plaintext),
        ),
{
    let given = SessionView { pending: seq![record], ..receiver };
    let rest = SessionView { pending: given.pending.drop_first(), ..given };
    assert(given.pending[0] == record);
    law_peer_opens_with_the_write_keys(sender, rest, record);
}

/// A record that is not authentic, or that was received before, changes
/// nothing: the association goes on as if it had not arrived.
pub proof fn law_unusable_records_are_ignored(session: SessionView, record: RecordView)
    requires
        session.open(record) is None || session.seen.contains(record.header.sequence_number),
    ensures
        (SessionView { pending: seq![record] + session.pending, ..session }).receive()
            == session.receive(),
{
    let given = SessionView { pending: seq![record] + session.pending, ..session };
    assert(given.pending[0] == record);
    assert(given.pending.drop_first() =~= session.pending);
    let rest = SessionView { pending: given.pending.drop_first(), ..given };
    assert(rest == session);
}

} // verus!

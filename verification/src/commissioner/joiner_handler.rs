//! Decisions of the application on joiners.

use sha2::{Digest, Sha256};
use vstd::prelude::*;

use crate::bytes::{be_bytes, put_be, same_bytes};
use crate::commissioner::dataset::array8;
use crate::commissioner::error::optional_text;
use crate::commissioner::types::JoinerFinalizeInfo;
use crate::secret::Secret;
use crate::text::{append_decimal, decimal};

verus! {

/// The universal/local bit of an interface identifier.
pub const LOCAL_EXTERNAL_ADDR_MASK: u8 = 2;

/// The SHA-256 digest of a byte string.
pub uninterp spec fn sha256_digest(data: Seq<u8>) -> Seq<u8>;

/// `sha2::Sha256::digest`.
///
/// Claimed: the result depends on the data alone and has 32 bytes.
#[verifier::external_body]
fn sha256(data: &[u8]) -> (digest: Vec<u8>)
    ensures
        digest@ == sha256_digest(data@),
        digest@.len() == 32,
{
    Sha256::digest(data).to_vec()
}

/// The joiner ID of an EUI-64: the first 8 bytes of its digest, with the
/// universal/local bit set.
pub open spec fn joiner_id_of(eui64: u64) -> Seq<u8> {
    let digest = sha256_digest(be_bytes(eui64 as nat, 8));
    digest.take(8).update(0, digest[0] | LOCAL_EXTERNAL_ADDR_MASK)
}

/// Returns the joiner ID of a factory EUI-64.
pub fn compute_joiner_id(eui64: u64) -> (joiner_id: [u8; 8])
    ensures
        joiner_id@ == joiner_id_of(eui64),
{
    let mut bytes: Vec<u8> = Vec::new();
    put_be(&mut bytes, eui64, 8);
    assert(bytes@ =~= be_bytes(eui64 as nat, 8));
    let digest = sha256(bytes.as_slice());
    let mut joiner_id: [u8; 8] = array8(
        vstd::slice::slice_subrange(digest.as_slice(), 0, 8),
    );
    joiner_id[0] = digest[0] | LOCAL_EXTERNAL_ADDR_MASK;
    assert(joiner_id@ =~= joiner_id_of(eui64));
    joiner_id
}

/// The joiner ID behind a relayed interface identifier: the IID of a joiner is
/// its randomized link-local interface identifier, and the joiner ID restores
/// the universal/local bit.
pub open spec fn restored_id(joiner_iid: Seq<u8>) -> Seq<u8> {
    joiner_iid.update(0, joiner_iid[0] ^ LOCAL_EXTERNAL_ADDR_MASK)
}

/// Returns the joiner ID for a relayed joiner IID.
pub fn joiner_id_from_iid(joiner_iid: &[u8; 8]) -> (joiner_id: [u8; 8])
    ensures
        joiner_id@ == restored_id(joiner_iid@),
{
    let mut joiner_id: [u8; 8] = *joiner_iid;
    joiner_id[0] = joiner_iid[0] ^ LOCAL_EXTERNAL_ADDR_MASK;
    assert(joiner_id@ =~= restored_id(joiner_iid@));
    joiner_id
}

/// The joiner ID of a joiner ID is the interface identifier again.
pub proof fn law_restoring_twice_gives_the_iid(joiner_iid: Seq<u8>)
    requires
        joiner_iid.len() == 8,
    ensures
        restored_id(restored_id(joiner_iid)) == joiner_iid,
{
    let first = joiner_iid[0];
    assert((first ^ 2u8) ^ 2u8 == first) by (bit_vector);
    assert(restored_id(restored_id(joiner_iid)) =~= joiner_iid);
}

/// Application decisions for joiner commissioning.
///
/// Credentials and finalization decisions are synchronous so the relay
/// exchange can be answered inline.
pub trait JoinerHandler: Send {
    /// Returns the PSKd for a joiner, or `None` to ignore it.
    fn joiner_pskd(&mut self, joiner_id: &[u8; 8]) -> Option<String>;

    /// Called when a joiner completes its DTLS handshake.
    fn on_joiner_connected(&mut self, joiner_id: &[u8; 8]) {
    }

    /// Decides whether a joiner's JOIN_FIN.req is accepted.
    fn on_joiner_finalize(&mut self, joiner_id: &[u8; 8], info: &JoinerFinalizeInfo) -> (accepted:
        bool)
        default_ensures
            accepted,
    {
        true
    }
}

/// A joiner ID with its PSKd.
pub struct EnabledJoiner {
    joiner_id: [u8; 8],
    pskd: Secret,
}

/// [`EnabledJoiner`] over sequences.
#[verifier::ext_equal]
pub struct EnabledView {
    pub joiner_id: Seq<u8>,
    pub pskd: Seq<char>,
}

impl View for EnabledJoiner {
    type V = EnabledView;

    closed spec fn view(&self) -> EnabledView {
        EnabledView { joiner_id: self.joiner_id@, pskd: self.pskd@ }
    }
}

/// [`JoinerHandler`] backed by a static table of enabled joiners.
///
/// Joiners can be enabled individually by joiner ID (or EUI-64) or
/// collectively with a wildcard PSKd. Every JOIN_FIN.req from an enabled
/// joiner is accepted. A PSKd that leaves the table, or is dropped with it, is
/// wiped.
pub struct StaticJoinerHandler {
    wildcard_pskd: Option<Secret>,
    by_joiner_id: Vec<EnabledJoiner>,
}

/// [`StaticJoinerHandler`] over sequences.
#[verifier::ext_equal]
pub struct HandlerView {
    pub wildcard: Option<Seq<char>>,
    pub by_joiner_id: Seq<EnabledView>,
}

impl View for StaticJoinerHandler {
    type V = HandlerView;

    closed spec fn view(&self) -> HandlerView {
        HandlerView {
            wildcard: match self.wildcard_pskd {
                Some(pskd) => Some(pskd@),
                None => None,
            },
            by_joiner_id: crate::bytes::views(self.by_joiner_id@),
        }
    }
}

/// The entries of other joiners.
pub open spec fn others(entries: Seq<EnabledView>, joiner_id: Seq<u8>) -> Seq<EnabledView>
    decreases entries.len(),
{
    if entries.len() == 0 {
        Seq::empty()
    } else if entries.last().joiner_id == joiner_id {
        others(entries.drop_last(), joiner_id)
    } else {
        others(entries.drop_last(), joiner_id).push(entries.last())
    }
}

/// The PSKd of the first entry of the joiner.
pub open spec fn first_pskd(entries: Seq<EnabledView>, joiner_id: Seq<u8>) -> Option<Seq<char>>
    decreases entries.len(),
{
    if entries.len() == 0 {
        None
    } else {
        match first_pskd(entries.drop_last(), joiner_id) {
            Some(pskd) => Some(pskd),
            None => if entries.last().joiner_id == joiner_id {
                Some(entries.last().pskd)
            } else {
                None
            },
        }
    }
}

impl HandlerView {
    /// The PSKd of a joiner: its own, or else the wildcard.
    pub open spec fn pskd(self, joiner_id: Seq<u8>) -> Option<Seq<char>> {
        match first_pskd(self.by_joiner_id, joiner_id) {
            Some(pskd) => Some(pskd),
            None => self.wildcard,
        }
    }

    /// The table with the joiner's entry replaced.
    pub open spec fn enabled(self, joiner_id: Seq<u8>, pskd: Seq<char>) -> HandlerView {
        HandlerView {
            by_joiner_id: others(self.by_joiner_id, joiner_id).push(
                EnabledView { joiner_id, pskd },
            ),
            ..self
        }
    }

    /// The table without the joiner's entry.
    pub open spec fn disabled(self, joiner_id: Seq<u8>) -> HandlerView {
        HandlerView { by_joiner_id: others(self.by_joiner_id, joiner_id), ..self }
    }
}

proof fn lemma_others(entries: Seq<EnabledView>, joiner_id: Seq<u8>, other: Seq<u8>)
    ensures
        first_pskd(others(entries, joiner_id), joiner_id) is None,
        other != joiner_id ==> first_pskd(others(entries, joiner_id), other) == first_pskd(
            entries,
            other,
        ),
    decreases entries.len(),
{
    if entries.len() > 0 {
        lemma_others(entries.drop_last(), joiner_id, other);
        if entries.last().joiner_id != joiner_id {
            assert(others(entries, joiner_id).drop_last() =~= others(
                entries.drop_last(),
                joiner_id,
            ));
        }
    }
}

/// Enabling a joiner sets its PSKd and no other joiner's.
pub proof fn law_enabling_sets_one_pskd(
    handler: HandlerView,
    joiner_id: Seq<u8>,
    pskd: Seq<char>,
    other: Seq<u8>,
)
    ensures
        handler.enabled(joiner_id, pskd).pskd(joiner_id) == Some(pskd),
        other != joiner_id ==> handler.enabled(joiner_id, pskd).pskd(other) == handler.pskd(other),
{
    lemma_others(handler.by_joiner_id, joiner_id, other);
    let entries = handler.enabled(joiner_id, pskd).by_joiner_id;
    assert(entries.drop_last() =~= others(handler.by_joiner_id, joiner_id));
}

/// Disabling a joiner leaves it the wildcard and changes no other joiner.
pub proof fn law_disabling_leaves_the_wildcard(
    handler: HandlerView,
    joiner_id: Seq<u8>,
    other: Seq<u8>,
)
    ensures
        handler.disabled(joiner_id).pskd(joiner_id) == handler.wildcard,
        other != joiner_id ==> handler.disabled(joiner_id).pskd(other) == handler.pskd(other),
{
    lemma_others(handler.by_joiner_id, joiner_id, other);
}

impl Default for StaticJoinerHandler {
    fn default() -> (handler: Self)
        ensures
            handler@ == (HandlerView { wildcard: None, by_joiner_id: Seq::empty() }),
    {
        StaticJoinerHandler::new()
    }
}

impl StaticJoinerHandler {
    /// Creates an empty handler that ignores every joiner.
    pub fn new() -> (handler: Self)
        ensures
            handler@ == (HandlerView { wildcard: None, by_joiner_id: Seq::empty() }),
    {
        let by_joiner_id: Vec<EnabledJoiner> = Vec::new();
        assert(crate::bytes::views(by_joiner_id@) =~= Seq::<EnabledView>::empty());
        StaticJoinerHandler { wildcard_pskd: None, by_joiner_id }
    }

    /// A handler with the same joiners.
    pub fn duplicate(&self) -> (handler: Self)
        ensures
            handler@ == self@,
    {
        let wildcard_pskd = match &self.wildcard_pskd {
            Some(pskd) => Some(pskd.clone()),
            None => None,
        };
        let mut by_joiner_id: Vec<EnabledJoiner> = Vec::new();
        let mut i: usize = 0;
        assert(crate::bytes::views(by_joiner_id@) =~= self@.by_joiner_id.take(0));
        while i < self.by_joiner_id.len()
            invariant
                i <= self.by_joiner_id@.len(),
                crate::bytes::views(by_joiner_id@) == self@.by_joiner_id.take(i as int),
            decreases self.by_joiner_id@.len() - i,
        {
            let entry = &self.by_joiner_id[i];
            let copy = EnabledJoiner { joiner_id: entry.joiner_id, pskd: entry.pskd.clone() };
            let ghost before = by_joiner_id@;
            proof {
                assert(copy@ =~= self@.by_joiner_id[i as int]);
                assert(crate::bytes::views(before.push(copy)) =~= crate::bytes::views(before).push(
                    copy@,
                ));
                assert(self@.by_joiner_id.take(i + 1) =~= self@.by_joiner_id.take(i as int).push(
                    copy@,
                ));
            }
            by_joiner_id.push(copy);
            i = i + 1;
        }
        assert(self@.by_joiner_id.take(i as int) =~= self@.by_joiner_id);
        StaticJoinerHandler { wildcard_pskd, by_joiner_id }
    }

    /// Enables every joiner with a shared PSKd.
    pub fn enable_all(&mut self, pskd: &str)
        ensures
            final(self)@ == (HandlerView { wildcard: Some(pskd@), ..old(self)@ }),
    {
        self.wildcard_pskd = Some(Secret::new(pskd));
    }

    /// Enables one joiner by joiner ID.
    pub fn enable_joiner_id(&mut self, joiner_id: [u8; 8], pskd: &str)
        ensures
            final(self)@ == old(self)@.enabled(joiner_id@, pskd@),
    {
        self.disable_joiner_id(&joiner_id);
        let ghost before = self.by_joiner_id@;
        let entry = EnabledJoiner { joiner_id, pskd: Secret::new(pskd) };
        assert(crate::bytes::views(before.push(entry)) =~= crate::bytes::views(before).push(
            entry@,
        ));
        self.by_joiner_id.push(entry);
        assert(self@ =~= old(self)@.enabled(joiner_id@, pskd@));
    }

    /// Enables one joiner by factory EUI-64.
    pub fn enable_eui64(&mut self, eui64: u64, pskd: &str)
        ensures
            final(self)@ == old(self)@.enabled(joiner_id_of(eui64), pskd@),
    {
        self.enable_joiner_id(compute_joiner_id(eui64), pskd);
    }

    /// Disables a previously enabled joiner ID.
    pub fn disable_joiner_id(&mut self, joiner_id: &[u8; 8])
        ensures
            final(self)@ == old(self)@.disabled(joiner_id@),
    {
        let ghost all = crate::bytes::views(self.by_joiner_id@);
        let mut kept: Vec<EnabledJoiner> = Vec::new();
        let ghost mut taken: int = 0;
        assert(crate::bytes::views(kept@) =~= Seq::<EnabledView>::empty());
        assert(all.skip(0) =~= all);
        assert(all.take(0) =~= Seq::<EnabledView>::empty());
        while self.by_joiner_id.len() > 0
            invariant
                0 <= taken <= all.len(),
                self@.wildcard == old(self)@.wildcard,
                all == old(self)@.by_joiner_id,
                crate::bytes::views(self.by_joiner_id@) == all.skip(taken),
                crate::bytes::views(kept@) == others(all.take(taken), joiner_id@),
            decreases self.by_joiner_id@.len(),
        {
            let ghost queue = crate::bytes::views(self.by_joiner_id@);
            assert(queue.len() > 0);
            let entry = self.by_joiner_id.remove(0);
            proof {
                assert(queue[0] == entry@);
                assert(queue.len() == all.len() - taken);
                assert(all[taken] == entry@);
                assert(all.take(taken + 1).drop_last() =~= all.take(taken));
                assert(all.take(taken + 1).last() == entry@);
                assert(crate::bytes::views(self.by_joiner_id@) =~= queue.drop_first());
                assert(queue.drop_first() =~= all.skip(taken + 1));
                taken = taken + 1;
            }
            if !same_bytes(entry.joiner_id.as_slice(), joiner_id.as_slice()) {
                let ghost before = kept@;
                assert(crate::bytes::views(before.push(entry)) =~= crate::bytes::views(
                    before,
                ).push(entry@));
                kept.push(entry);
            }
        }
        proof {
            assert(crate::bytes::views(self.by_joiner_id@).len() == 0);
            assert(all.take(taken) =~= all);
        }
        self.by_joiner_id = kept;
        assert(self@ =~= old(self)@.disabled(joiner_id@));
    }

    /// Disables the wildcard PSKd.
    pub fn disable_all(&mut self)
        ensures
            final(self)@ == (HandlerView { wildcard: None, ..old(self)@ }),
    {
        self.wildcard_pskd = None;
    }

    /// The handler as debugging output shows it, without any PSKd.
    pub fn debug_text(&self) -> (text: String)
        ensures
            text@ == "StaticJoinerHandler { wildcard_pskd: "@ + (if self@.wildcard is Some {
                "Some(\"<redacted>\")"@
            } else {
                "None"@
            }) + ", enabled_joiner_count: "@ + decimal(self@.by_joiner_id.len()) + " }"@,
    {
        let mut text = String::from_str("StaticJoinerHandler { wildcard_pskd: ");
        if self.wildcard_pskd.is_some() {
            text.append("Some(\"<redacted>\")");
        } else {
            text.append("None");
        }
        text.append(", enabled_joiner_count: ");
        append_decimal(&mut text, self.by_joiner_id.len() as u64);
        text.append(" }");
        text
    }

    fn find_pskd(&self, joiner_id: &[u8; 8]) -> (pskd: Option<String>)
        ensures
            optional_text(pskd) == self@.pskd(joiner_id@),
    {
        let ghost all = crate::bytes::views(self.by_joiner_id@);
        let mut i: usize = 0;
        assert(all.take(0) =~= Seq::<EnabledView>::empty());
        while i < self.by_joiner_id.len()
            invariant
                i <= self.by_joiner_id@.len(),
                all == crate::bytes::views(self.by_joiner_id@),
                first_pskd(all.take(i as int), joiner_id@) is None,
            decreases self.by_joiner_id@.len() - i,
        {
            let entry = &self.by_joiner_id[i];
            proof {
                assert(all.take(i + 1).drop_last() =~= all.take(i as int));
                assert(all.take(i + 1).last() == entry@);
            }
            if same_bytes(entry.joiner_id.as_slice(), joiner_id.as_slice()) {
                proof {
                    lemma_first_pskd_stays(all, joiner_id@, i + 1);
                }
                return Some(entry.pskd.expose());
            }
            i = i + 1;
        }
        assert(all.take(i as int) =~= all);
        match &self.wildcard_pskd {
            Some(pskd) => Some(pskd.expose()),
            None => None,
        }
    }
}

proof fn lemma_first_pskd_stays(entries: Seq<EnabledView>, joiner_id: Seq<u8>, i: int)
    requires
        0 <= i <= entries.len(),
        first_pskd(entries.take(i), joiner_id) is Some,
    ensures
        first_pskd(entries, joiner_id) == first_pskd(entries.take(i), joiner_id),
    decreases entries.len() - i,
{
    if i < entries.len() {
        assert(entries.take(i + 1).drop_last() =~= entries.take(i));
        lemma_first_pskd_stays(entries, joiner_id, i + 1);
    } else {
        assert(entries.take(i) =~= entries);
    }
}

impl JoinerHandler for StaticJoinerHandler {
    fn joiner_pskd(&mut self, joiner_id: &[u8; 8]) -> (pskd: Option<String>)
        ensures
            optional_text(pskd) == old(self)@.pskd(joiner_id@),
            final(self)@ == old(self)@,
    {
        self.find_pskd(joiner_id)
    }
}

} // verus!

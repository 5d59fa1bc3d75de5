//! Commissioner configuration.

use vstd::prelude::*;

use crate::commissioner::dataset::{
    no_pskc, pskc_from_active_dataset, Dataset, Pskc, MAX_PSKC_LEN, TLV_PSKC,
};
use crate::commissioner::error::{Error, ErrorView};
use crate::secret::{wipe, zeros};
use crate::commissioner::tlv::last_value_of;
use crate::dtls::retransmit::{MAX_DURATION, SECOND};
use crate::text::{append_decimal, decimal, duration_text, quoted, quoted_text, shown_duration};

verus! {

/// Shortest keep-alive interval: 30 seconds, in nanoseconds.
pub const MIN_KEEPALIVE_INTERVAL: u128 = 30_000_000_000;

/// Longest keep-alive interval: 45 seconds, in nanoseconds.
pub const MAX_KEEPALIVE_INTERVAL: u128 = 45_000_000_000;

/// Keep-alive interval unless another is set: 40 seconds, in nanoseconds.
pub const DEFAULT_KEEPALIVE_INTERVAL: u128 = 40_000_000_000;

/// Events that a subscriber can fall behind by unless another number is set.
pub const DEFAULT_EVENT_CAPACITY: usize = 64;

/// Absolute budget for one CoAP request/response exchange, including its
/// retransmissions: 12 seconds, in nanoseconds.
pub const COAP_EXCHANGE_TIMEOUT: u128 = 12_000_000_000;

/// Slack kept between one CoAP exchange and the end of the minimum keep-alive
/// interval when budgeting a handshake: 3 seconds, in nanoseconds.
pub const SESSION_REPLACEMENT_MARGIN: u128 = 3_000_000_000;

/// Absolute DTLS handshake budget, in nanoseconds.
///
/// A handshake followed by a petition exchange must fit inside the minimum
/// keep-alive interval, so the handshake receives what that interval leaves
/// after one CoAP exchange and a margin.
pub const DTLS_HANDSHAKE_TIMEOUT: u128 = 15_000_000_000;

/// A handshake and a petition fit the minimum keep-alive interval.
pub proof fn law_handshake_and_petition_fit()
    ensures
        DTLS_HANDSHAKE_TIMEOUT == MIN_KEEPALIVE_INTERVAL - COAP_EXCHANGE_TIMEOUT
            - SESSION_REPLACEMENT_MARGIN,
        DTLS_HANDSHAKE_TIMEOUT + COAP_EXCHANGE_TIMEOUT + SESSION_REPLACEMENT_MARGIN
            <= MIN_KEEPALIVE_INTERVAL,
{
}

/// Who sends commissioner keep-alives.
#[derive(Debug, Clone, Copy, PartialEq, Eq, Structural)]
pub enum KeepAlive {
    /// The session sends a keep-alive every
    /// [`CommissionerConfig::keepalive_interval`] while it is active.
    Automatic,
    /// The application sends keep-alives; the session never schedules one.
    Manual,
}

impl Default for KeepAlive {
    fn default() -> (keep_alive: Self)
        ensures
            keep_alive == KeepAlive::Automatic,
    {
        KeepAlive::Automatic
    }
}

impl KeepAlive {
    /// The name of the mode.
    pub open spec fn spec_name(self) -> Seq<char> {
        match self {
            KeepAlive::Automatic => "Automatic"@,
            KeepAlive::Manual => "Manual"@,
        }
    }

    /// The name of the mode.
    pub fn name(self) -> (name: &'static str)
        ensures
            name@ == self.spec_name(),
    {
        match self {
            KeepAlive::Automatic => "Automatic",
            KeepAlive::Manual => "Manual",
        }
    }
}

/// Commissioner configuration. It is wiped when it is dropped.
pub struct CommissionerConfig {
    /// Human-readable commissioner ID.
    pub commissioner_id: String,
    /// PSKc for non-CCM commissioner authentication.
    pub pskc: Pskc,
    /// Interval between commissioner keep-alives, in nanoseconds.
    ///
    /// With [`KeepAlive::Automatic`] the session sends keep-alives at this
    /// interval; with [`KeepAlive::Manual`] it is the cadence the application
    /// should use. Values from 30 through 45 seconds are accepted.
    pub keepalive_interval: u128,
    /// Who sends keep-alives.
    pub keep_alive: KeepAlive,
    /// Events each subscriber can fall behind by before it is told that it
    /// missed some. Must be non-zero.
    pub event_capacity: usize,
    /// Domain name reserved for future CCM flows.
    pub domain_name: String,
    /// CCM enable flag reserved for future token/certificate flows.
    pub enable_ccm: bool,
}

/// [`CommissionerConfig`] over sequences.
#[verifier::ext_equal]
pub struct ConfigView {
    pub commissioner_id: Seq<char>,
    pub pskc: Seq<u8>,
    pub keepalive_interval: u128,
    pub keep_alive: KeepAlive,
    pub event_capacity: usize,
    pub domain_name: Seq<char>,
    pub enable_ccm: bool,
}

impl View for CommissionerConfig {
    type V = ConfigView;

    open spec fn view(&self) -> ConfigView {
        ConfigView {
            commissioner_id: self.commissioner_id@,
            pskc: self.pskc@,
            keepalive_interval: self.keepalive_interval,
            keep_alive: self.keep_alive,
            event_capacity: self.event_capacity,
            domain_name: self.domain_name@,
            enable_ccm: self.enable_ccm,
        }
    }
}

impl ConfigView {
    /// A configuration with the defaults.
    pub open spec fn defaults(commissioner_id: Seq<char>, pskc: Seq<u8>) -> ConfigView {
        ConfigView {
            commissioner_id,
            pskc,
            keepalive_interval: DEFAULT_KEEPALIVE_INTERVAL,
            keep_alive: KeepAlive::Automatic,
            event_capacity: DEFAULT_EVENT_CAPACITY,
            domain_name: "Thread"@,
            enable_ccm: false,
        }
    }

    /// Why the configuration is refused, if it is.
    pub open spec fn refusal(self) -> Option<ErrorView> {
        if self.keepalive_interval < MIN_KEEPALIVE_INTERVAL || self.keepalive_interval
            > MAX_KEEPALIVE_INTERVAL {
            Some(
                ErrorView::Configuration("keepalive interval must be between 30 and 45 seconds"@),
            )
        } else if self.event_capacity == 0 {
            Some(ErrorView::Configuration("event capacity must be non-zero"@))
        } else {
            None
        }
    }

    /// The configuration as debugging output shows it. The PSKc has no part
    /// in it.
    pub open spec fn debug_text(self) -> Seq<char> {
        "CommissionerConfig { commissioner_id: "@ + quoted_text(self.commissioner_id)
            + ", pskc: \"<redacted>\", keepalive_interval: "@ + duration_text(
            (self.keepalive_interval / SECOND) as u64,
            (self.keepalive_interval % SECOND) as u32,
        ) + ", keep_alive: "@ + self.keep_alive.spec_name() + ", event_capacity: "@ + decimal(
            self.event_capacity as nat,
        ) + ", domain_name: "@ + quoted_text(self.domain_name) + ", enable_ccm: "@ + (
        if self.enable_ccm {
            "true"@
        } else {
            "false"@
        }) + " }"@
    }
}

impl CommissionerConfig {
    /// Starts building a commissioner configuration.
    pub fn builder(commissioner_id: &str) -> (builder: CommissionerConfigBuilder)
        ensures
            builder@ == BuilderView::defaults(commissioner_id@),
    {
        CommissionerConfigBuilder::new(commissioner_id)
    }

    /// Creates a PSKc-based commissioner config.
    pub fn pskc(commissioner_id: &str, pskc: Pskc) -> (config: Self)
        ensures
            config@ == ConfigView::defaults(commissioner_id@, pskc@),
    {
        CommissionerConfig {
            commissioner_id: String::from_str(commissioner_id),
            pskc,
            keepalive_interval: DEFAULT_KEEPALIVE_INTERVAL,
            keep_alive: KeepAlive::Automatic,
            event_capacity: DEFAULT_EVENT_CAPACITY,
            domain_name: String::from_str("Thread"),
            enable_ccm: false,
        }
    }

    /// Creates a config by extracting PSKc from a dataset.
    pub fn from_dataset(commissioner_id: &str, dataset: &Dataset) -> (result: Result<Self, Error>)
        ensures
            match result {
                Ok(config) => last_value_of(dataset@, TLV_PSKC) == Some(config@.pskc)
                    && config@.pskc.len() == 16 && config@ == ConfigView::defaults(
                    commissioner_id@,
                    config@.pskc,
                ),
                Err(error) => (last_value_of(dataset@, TLV_PSKC) matches Some(value) ==> value.len()
                    != 16) && error@ == no_pskc(),
            },
    {
        match pskc_from_active_dataset(dataset) {
            Err(error) => Err(error),
            Ok(pskc) => Ok(CommissionerConfig::pskc(commissioner_id, pskc)),
        }
    }

    /// Validates the config's bounded fields: the keep-alive interval must
    /// fall within the 30-45 second range, and the event capacity must be
    /// non-zero.
    pub fn validate(&self) -> (result: Result<(), Error>)
        ensures
            match result {
                Ok(_) => self@.refusal() is None,
                Err(error) => self@.refusal() == Some(error@),
            },
    {
        if self.keepalive_interval < MIN_KEEPALIVE_INTERVAL || self.keepalive_interval
            > MAX_KEEPALIVE_INTERVAL {
            return Err(
                Error::Configuration("keepalive interval must be between 30 and 45 seconds"),
            );
        }
        if self.event_capacity == 0 {
            return Err(Error::Configuration("event capacity must be non-zero"));
        }
        Ok(())
    }

    /// Decides whether a session can be opened with the config: it has to be
    /// valid, and CCM is not supported.
    pub fn check_connectable(&self) -> (result: Result<(), Error>)
        ensures
            match result {
                Ok(_) => self@.refusal() is None && !self@.enable_ccm,
                Err(error) => if self@.refusal() is Some {
                    self@.refusal() == Some(error@)
                } else {
                    self@.enable_ccm && error@ == ErrorView::Unsupported(
                        "CCM is reserved but deferred"@,
                    )
                },
            },
    {
        match self.validate() {
            Err(error) => Err(error),
            Ok(_) => {
                if self.enable_ccm {
                    return Err(Error::Unsupported("CCM is reserved but deferred"));
                }
                Ok(())
            },
        }
    }

    /// The configuration as debugging output shows it, without the PSKc.
    pub fn debug_text(&self) -> (text: String)
        requires
            self@.keepalive_interval <= MAX_DURATION,
        ensures
            text@ == self@.debug_text(),
    {
        let mut text = String::from_str("CommissionerConfig { commissioner_id: ");
        text.append(quoted(self.commissioner_id.as_str()).as_str());
        text.append(", pskc: \"<redacted>\", keepalive_interval: ");
        let seconds: u64 = (self.keepalive_interval / SECOND) as u64;
        let nanoseconds: u32 = (self.keepalive_interval % SECOND) as u32;
        text.append(shown_duration(seconds, nanoseconds).as_str());
        text.append(", keep_alive: ");
        text.append(self.keep_alive.name());
        text.append(", event_capacity: ");
        append_decimal(&mut text, self.event_capacity as u64);
        text.append(", domain_name: ");
        text.append(quoted(self.domain_name.as_str()).as_str());
        text.append(", enable_ccm: ");
        if self.enable_ccm {
            text.append("true");
        } else {
            text.append("false");
        }
        text.append(" }");
        text
    }

    /// Wipes the key and the texts.
    pub fn zeroize(&mut self)
        ensures
            final(self)@ == (ConfigView {
                commissioner_id: Seq::empty(),
                pskc: zeros(MAX_PSKC_LEN as nat),
                domain_name: Seq::empty(),
                ..old(self)@
            }),
        opens_invariants none
        no_unwind
    {
        wipe(&mut self.commissioner_id);
        self.pskc.zeroize();
        wipe(&mut self.domain_name);
    }
}

impl Clone for CommissionerConfig {
    fn clone(&self) -> (config: Self)
        ensures
            config@ == self@,
    {
        CommissionerConfig {
            commissioner_id: self.commissioner_id.clone(),
            pskc: self.pskc.clone(),
            keepalive_interval: self.keepalive_interval,
            keep_alive: self.keep_alive,
            event_capacity: self.event_capacity,
            domain_name: self.domain_name.clone(),
            enable_ccm: self.enable_ccm,
        }
    }
}

impl Drop for CommissionerConfig {
    fn drop(&mut self)
        opens_invariants none
        no_unwind
    {
        self.zeroize();
    }
}

/// Builder for a validated [`CommissionerConfig`].
pub struct CommissionerConfigBuilder {
    commissioner_id: String,
    pskc: Option<Pskc>,
    keepalive_interval: u128,
    keep_alive: KeepAlive,
    event_capacity: usize,
    domain_name: String,
    enable_ccm: bool,
}

/// [`CommissionerConfigBuilder`] over sequences.
#[verifier::ext_equal]
pub struct BuilderView {
    pub commissioner_id: Seq<char>,
    pub pskc: Option<Seq<u8>>,
    pub keepalive_interval: u128,
    pub keep_alive: KeepAlive,
    pub event_capacity: usize,
    pub domain_name: Seq<char>,
    pub enable_ccm: bool,
}

impl View for CommissionerConfigBuilder {
    type V = BuilderView;

    closed spec fn view(&self) -> BuilderView {
        BuilderView {
            commissioner_id: self.commissioner_id@,
            pskc: match self.pskc {
                Some(pskc) => Some(pskc@),
                None => None,
            },
            keepalive_interval: self.keepalive_interval,
            keep_alive: self.keep_alive,
            event_capacity: self.event_capacity,
            domain_name: self.domain_name@,
            enable_ccm: self.enable_ccm,
        }
    }
}

/// A value given to a builder.
pub enum Setting {
    Pskc(Seq<u8>),
    KeepaliveInterval(u128),
    KeepAlive(KeepAlive),
    EventCapacity(usize),
    DomainName(Seq<char>),
    EnableCcm(bool),
}

impl BuilderView {
    /// A builder with the defaults and no PSKc.
    pub open spec fn defaults(commissioner_id: Seq<char>) -> BuilderView {
        BuilderView {
            commissioner_id,
            pskc: None,
            keepalive_interval: DEFAULT_KEEPALIVE_INTERVAL,
            keep_alive: KeepAlive::Automatic,
            event_capacity: DEFAULT_EVENT_CAPACITY,
            domain_name: "Thread"@,
            enable_ccm: false,
        }
    }

    /// The configuration that the builder describes, once it has a PSKc.
    pub open spec fn config(self) -> ConfigView {
        ConfigView {
            commissioner_id: self.commissioner_id,
            pskc: self.pskc->0,
            keepalive_interval: self.keepalive_interval,
            keep_alive: self.keep_alive,
            event_capacity: self.event_capacity,
            domain_name: self.domain_name,
            enable_ccm: self.enable_ccm,
        }
    }

    /// The builder with a value given to it, which takes the place of what the
    /// builder had.
    pub open spec fn with(self, setting: Setting) -> BuilderView {
        match setting {
            Setting::Pskc(pskc) => BuilderView { pskc: Some(pskc), ..self },
            Setting::KeepaliveInterval(keepalive_interval) => BuilderView {
                keepalive_interval,
                ..self
            },
            Setting::KeepAlive(keep_alive) => BuilderView { keep_alive, ..self },
            Setting::EventCapacity(event_capacity) => BuilderView { event_capacity, ..self },
            Setting::DomainName(domain_name) => BuilderView { domain_name, ..self },
            Setting::EnableCcm(enable_ccm) => BuilderView { enable_ccm, ..self },
        }
    }

    /// The builder with values given to it, the first of them first.
    pub open spec fn with_all(self, settings: Seq<Setting>) -> BuilderView
        decreases settings.len(),
    {
        if settings.len() == 0 {
            self
        } else {
            self.with_all(settings.drop_last()).with(settings.last())
        }
    }

    /// The validated configuration, or why there is none. A missing PSKc comes
    /// before everything else.
    pub open spec fn built(self) -> Result<ConfigView, ErrorView> {
        if self.pskc is None {
            Err(ErrorView::Configuration("a PSKc is required"@))
        } else {
            match self.config().refusal() {
                Some(error) => Err(error),
                None => Ok(self.config()),
            }
        }
    }
}

/// The last of the values that `of` finds among settings, or `otherwise`
/// where it finds none.
pub open spec fn last_given<T>(
    settings: Seq<Setting>,
    of: spec_fn(Setting) -> Option<T>,
    otherwise: T,
) -> T
    decreases settings.len(),
{
    if settings.len() == 0 {
        otherwise
    } else {
        match of(settings.last()) {
            Some(value) => value,
            None => last_given(settings.drop_last(), of, otherwise),
        }
    }
}

/// The builder that holds the last value given for each field, and the
/// default where none was given.
pub open spec fn last_of_each(commissioner_id: Seq<char>, settings: Seq<Setting>) -> BuilderView {
    BuilderView {
        commissioner_id,
        pskc: last_given(
            settings,
            |setting: Setting|
                match setting {
                    Setting::Pskc(pskc) => Some(Some(pskc)),
                    _ => None,
                },
            None,
        ),
        keepalive_interval: last_given(
            settings,
            |setting: Setting|
                match setting {
                    Setting::KeepaliveInterval(interval) => Some(interval),
                    _ => None,
                },
            DEFAULT_KEEPALIVE_INTERVAL,
        ),
        keep_alive: last_given(
            settings,
            |setting: Setting|
                match setting {
                    Setting::KeepAlive(keep_alive) => Some(keep_alive),
                    _ => None,
                },
            KeepAlive::Automatic,
        ),
        event_capacity: last_given(
            settings,
            |setting: Setting|
                match setting {
                    Setting::EventCapacity(capacity) => Some(capacity),
                    _ => None,
                },
            DEFAULT_EVENT_CAPACITY,
        ),
        domain_name: last_given(
            settings,
            |setting: Setting|
                match setting {
                    Setting::DomainName(domain_name) => Some(domain_name),
                    _ => None,
                },
            "Thread"@,
        ),
        enable_ccm: last_given(
            settings,
            |setting: Setting|
                match setting {
                    Setting::EnableCcm(enable_ccm) => Some(enable_ccm),
                    _ => None,
                },
            false,
        ),
    }
}

proof fn lemma_last_of_each(commissioner_id: Seq<char>, settings: Seq<Setting>)
    ensures
        BuilderView::defaults(commissioner_id).with_all(settings) == last_of_each(
            commissioner_id,
            settings,
        ),
    decreases settings.len(),
{
    if settings.len() > 0 {
        lemma_last_of_each(commissioner_id, settings.drop_last());
    }
}

proof fn lemma_pskc_given(settings: Seq<Setting>, of: spec_fn(Setting) -> Option<Option<Seq<u8>>>)
    requires
        of == (|setting: Setting|
            match setting {
                Setting::Pskc(pskc) => Some(Some(pskc)),
                _ => None,
            }),
    ensures
        last_given(settings, of, None) is Some <==> exists|i: int|
            0 <= i < settings.len() && #[trigger] settings[i] is Pskc,
    decreases settings.len(),
{
    if settings.len() > 0 {
        let shorter = settings.drop_last();
        lemma_pskc_given(shorter, of);
        assert(settings[settings.len() - 1] == settings.last());
        if exists|i: int| 0 <= i < settings.len() && #[trigger] settings[i] is Pskc {
            let i = choose|i: int| 0 <= i < settings.len() && #[trigger] settings[i] is Pskc;
            if i < shorter.len() {
                assert(shorter[i] == settings[i]);
            }
        }
        if exists|i: int| 0 <= i < shorter.len() && #[trigger] shorter[i] is Pskc {
            let i = choose|i: int| 0 <= i < shorter.len() && #[trigger] shorter[i] is Pskc;
            assert(settings[i] == shorter[i]);
        }
    }
}

/// Whatever a builder is given, it builds exactly where a PSKc was among it,
/// the interval lies within 30 to 45 seconds and the capacity is not 0. The
/// configuration then holds the last value given for each field, or its
/// default, and is valid. Without a PSKc that is the error, even if other
/// values are refused too.
pub proof fn law_a_builder_keeps_the_last_values(
    commissioner_id: Seq<char>,
    settings: Seq<Setting>,
)
    ensures
        ({
            let built = BuilderView::defaults(commissioner_id).with_all(settings).built();
            let last = last_of_each(commissioner_id, settings);
            let has_pskc = exists|i: int|
                0 <= i < settings.len() && #[trigger] settings[i] is Pskc;
            &&& built is Ok <==> has_pskc && MIN_KEEPALIVE_INTERVAL <= last.keepalive_interval
                <= MAX_KEEPALIVE_INTERVAL && last.event_capacity != 0
            &&& built matches Ok(config) ==> config == last.config() && config.refusal() is None
            &&& !has_pskc ==> built == Err::<ConfigView, ErrorView>(
                ErrorView::Configuration("a PSKc is required"@),
            )
        }),
{
    lemma_last_of_each(commissioner_id, settings);
    lemma_pskc_given(
        settings,
        |setting: Setting|
            match setting {
                Setting::Pskc(pskc) => Some(Some(pskc)),
                _ => None,
            },
    );
}

impl CommissionerConfigBuilder {
    fn new(commissioner_id: &str) -> (builder: Self)
        ensures
            builder@ == BuilderView::defaults(commissioner_id@),
    {
        CommissionerConfigBuilder {
            commissioner_id: String::from_str(commissioner_id),
            pskc: None,
            keepalive_interval: DEFAULT_KEEPALIVE_INTERVAL,
            keep_alive: KeepAlive::Automatic,
            event_capacity: DEFAULT_EVENT_CAPACITY,
            domain_name: String::from_str("Thread"),
            enable_ccm: false,
        }
    }

    /// Sets the PSKc used to authenticate the commissioner.
    pub fn pskc(self, pskc: Pskc) -> (builder: Self)
        ensures
            builder@ == self@.with(Setting::Pskc(pskc@)),
    {
        let mut builder = self;
        builder.pskc = Some(pskc);
        builder
    }

    /// Extracts and sets the PSKc from an active operational dataset.
    pub fn from_dataset(self, dataset: &Dataset) -> (result: Result<Self, Error>)
        ensures
            match result {
                Ok(builder) => last_value_of(dataset@, TLV_PSKC) == builder@.pskc
                    && builder@.pskc is Some && builder@.pskc->0.len() == 16 && builder@
                    == self@.with(Setting::Pskc(builder@.pskc->0)),
                Err(error) => (last_value_of(dataset@, TLV_PSKC) matches Some(value) ==> value.len()
                    != 16) && error@ == no_pskc(),
            },
    {
        let mut builder = self;
        match pskc_from_active_dataset(dataset) {
            Err(error) => Err(error),
            Ok(pskc) => {
                builder.pskc = Some(pskc);
                Ok(builder)
            },
        }
    }

    /// Sets the commissioner keep-alive interval, in nanoseconds.
    pub fn keepalive_interval(self, keepalive_interval: u128) -> (builder: Self)
        ensures
            builder@ == self@.with(Setting::KeepaliveInterval(keepalive_interval)),
    {
        let mut builder = self;
        builder.keepalive_interval = keepalive_interval;
        builder
    }

    /// Sets who sends keep-alives.
    pub fn keep_alive(self, keep_alive: KeepAlive) -> (builder: Self)
        ensures
            builder@ == self@.with(Setting::KeepAlive(keep_alive)),
    {
        let mut builder = self;
        builder.keep_alive = keep_alive;
        builder
    }

    /// Sets how many events a subscriber can fall behind by.
    pub fn event_capacity(self, event_capacity: usize) -> (builder: Self)
        ensures
            builder@ == self@.with(Setting::EventCapacity(event_capacity)),
    {
        let mut builder = self;
        builder.event_capacity = event_capacity;
        builder
    }

    /// Sets the Thread domain name.
    pub fn domain_name(self, domain_name: &str) -> (builder: Self)
        ensures
            builder@ == self@.with(Setting::DomainName(domain_name@)),
    {
        let mut builder = self;
        builder.domain_name = String::from_str(domain_name);
        builder
    }

    /// Sets whether CCM authentication is enabled.
    pub fn enable_ccm(self, enable_ccm: bool) -> (builder: Self)
        ensures
            builder@ == self@.with(Setting::EnableCcm(enable_ccm)),
    {
        let mut builder = self;
        builder.enable_ccm = enable_ccm;
        builder
    }

    /// Builds and validates the commissioner configuration.
    pub fn build(self) -> (result: Result<CommissionerConfig, Error>)
        ensures
            match (result, self@.built()) {
                (Ok(config), Ok(expected)) => config@ == expected,
                (Err(error), Err(expected)) => error@ == expected,
                _ => false,
            },
    {
        match self.pskc {
            None => Err(Error::Configuration("a PSKc is required")),
            Some(pskc) => {
                let config = CommissionerConfig {
                    commissioner_id: self.commissioner_id,
                    pskc,
                    keepalive_interval: self.keepalive_interval,
                    keep_alive: self.keep_alive,
                    event_capacity: self.event_capacity,
                    domain_name: self.domain_name,
                    enable_ccm: self.enable_ccm,
                };
                match config.validate() {
                    Err(error) => Err(error),
                    Ok(_) => Ok(config),
                }
            },
        }
    }
}

/// The debugging output tells nothing of the PSKc: it stays the same with any
/// other.
pub proof fn law_debugging_output_hides_the_pskc(config: ConfigView, other: Seq<u8>)
    ensures
        (ConfigView { pskc: other, ..config }).debug_text() == config.debug_text(),
{
}

/// A configuration is refused exactly where its keep-alive interval lies
/// outside 30 to 45 seconds or its event capacity is 0; the interval comes
/// first. The defaults are acceptable: keep-alives every 40 seconds, sent by
/// the session, 64 events, the domain `Thread` and no CCM.
pub proof fn law_what_a_configuration_may_be(config: ConfigView, id: Seq<char>, pskc: Seq<u8>)
    ensures
        config.refusal() is None <==> 30_000_000_000 <= config.keepalive_interval
            <= 45_000_000_000 && config.event_capacity > 0,
        config.keepalive_interval < 30_000_000_000 || config.keepalive_interval > 45_000_000_000
            ==> config.refusal() == Some(
            ErrorView::Configuration("keepalive interval must be between 30 and 45 seconds"@),
        ),
        30_000_000_000 <= config.keepalive_interval <= 45_000_000_000 && config.event_capacity
            == 0 ==> config.refusal() == Some(
            ErrorView::Configuration("event capacity must be non-zero"@),
        ),
        ({
            let defaults = ConfigView::defaults(id, pskc);
            &&& defaults.refusal() is None
            &&& defaults.commissioner_id == id
            &&& defaults.pskc == pskc
            &&& defaults.keepalive_interval == 40_000_000_000
            &&& defaults.keep_alive == KeepAlive::Automatic
            &&& defaults.event_capacity == 64
            &&& defaults.domain_name == "Thread"@
            &&& !defaults.enable_ccm
            &&& BuilderView::defaults(id).with(Setting::Pskc(pskc)).built() == Ok::<
                ConfigView,
                ErrorView,
            >(defaults)
        }),
{
}

/// A value that a builder is given is in the configuration that it builds, and
/// changes nothing else of it.
pub proof fn law_a_builder_changes_one_field(
    builder: BuilderView,
    interval: u128,
    keep_alive: KeepAlive,
    capacity: usize,
    name: Seq<char>,
    ccm: bool,
    pskc: Seq<u8>,
)
    ensures
        builder.with(Setting::Pskc(pskc)).config() == (ConfigView { pskc, ..builder.config() }),
        builder.with(Setting::KeepaliveInterval(interval)).config() == (ConfigView {
            keepalive_interval: interval,
            ..builder.config()
        }),
        builder.with(Setting::KeepAlive(keep_alive)).config() == (ConfigView {
            keep_alive,
            ..builder.config()
        }),
        builder.with(Setting::EventCapacity(capacity)).config() == (ConfigView {
            event_capacity: capacity,
            ..builder.config()
        }),
        builder.with(Setting::DomainName(name)).config() == (ConfigView {
            domain_name: name,
            ..builder.config()
        }),
        builder.with(Setting::EnableCcm(ccm)).config() == (ConfigView {
            enable_ccm: ccm,
            ..builder.config()
        }),
        builder.config().commissioner_id == builder.commissioner_id,
{
}

/// The debugging output shows every other field under its name, in order.
pub proof fn law_debugging_output_shows_the_rest(config: ConfigView)
    ensures
        ({
            let shown = config.debug_text();
            let id = "CommissionerConfig { commissioner_id: "@ + quoted_text(
                config.commissioner_id,
            );
            let interval = ", pskc: \"<redacted>\", keepalive_interval: "@ + duration_text(
                (config.keepalive_interval / 1_000_000_000) as u64,
                (config.keepalive_interval % 1_000_000_000) as u32,
            );
            let keep_alive = ", keep_alive: "@ + if config.keep_alive is Automatic {
                "Automatic"@
            } else {
                "Manual"@
            };
            let capacity = ", event_capacity: "@ + decimal(config.event_capacity as nat);
            let domain = ", domain_name: "@ + quoted_text(config.domain_name);
            let ccm = ", enable_ccm: "@ + if config.enable_ccm {
                "true"@
            } else {
                "false"@
            };
            shown == id + interval + keep_alive + capacity + domain + ccm + " }"@
        }),
{
    let shown = config.debug_text();
    let id = "CommissionerConfig { commissioner_id: "@ + quoted_text(config.commissioner_id);
    let interval = ", pskc: \"<redacted>\", keepalive_interval: "@ + duration_text(
        (config.keepalive_interval / 1_000_000_000) as u64,
        (config.keepalive_interval % 1_000_000_000) as u32,
    );
    let keep_alive = ", keep_alive: "@ + if config.keep_alive is Automatic {
        "Automatic"@
    } else {
        "Manual"@
    };
    let capacity = ", event_capacity: "@ + decimal(config.event_capacity as nat);
    let domain = ", domain_name: "@ + quoted_text(config.domain_name);
    let ccm = ", enable_ccm: "@ + if config.enable_ccm {
        "true"@
    } else {
        "false"@
    };
    assert(shown =~= id + interval + keep_alive + capacity + domain + ccm + " }"@);
}

} // verus!

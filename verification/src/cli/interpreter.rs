//! The command interpreter: what a line asks for, what a session's events
//! leave behind for later commands, and how results read.

use vstd::prelude::*;
use vstd::utf8::encode_utf8;

use crate::bytes::views;
use crate::cli::tokens::{
    has_multi_network_flag, is_multi_network_flag, texts, tokenize, wipe_tokens, words_of,
};
use crate::commissioner::exchange::{lemma_no_position, lemma_position, position};
use crate::commissioner::joiner_handler::{HandlerView, StaticJoinerHandler};
use crate::commissioner::types::{CommissionerEvent, EventView, SessionStatus};
use crate::text::{append_decimal, decimal};

verus! {

/// The result of a command.
#[derive(Debug)]
pub struct CommandValue {
    text: String,
    failed: bool,
}

/// [`CommandValue`] over views.
#[verifier::ext_equal]
pub struct ValueView {
    pub text: Seq<char>,
    pub failed: bool,
}

impl View for CommandValue {
    type V = ValueView;

    closed spec fn view(&self) -> ValueView {
        ValueView { text: self.text@, failed: self.failed }
    }
}

impl ValueView {
    /// What is printed: the text on lines of its own where there is one, then
    /// how the command ended.
    pub open spec fn rendering(self) -> Seq<char> {
        let end = if self.failed {
            "[failed]"@
        } else {
            "[done]"@
        };
        if self.text.len() == 0 {
            end
        } else {
            self.text + "\n"@ + end
        }
    }
}

impl CommandValue {
    /// Success without a text.
    pub fn done() -> (value: Self)
        ensures
            value@ == (ValueView { text: Seq::empty(), failed: false }),
    {
        let value = CommandValue { text: String::new(), failed: false };
        assert(value@.text =~= Seq::<char>::empty());
        value
    }

    /// Success with a text.
    pub fn ok(text: String) -> (value: Self)
        ensures
            value@ == (ValueView { text: text@, failed: false }),
    {
        CommandValue { text, failed: false }
    }

    /// Failure with a text.
    pub fn failed(text: String) -> (value: Self)
        ensures
            value@ == (ValueView { text: text@, failed: true }),
    {
        CommandValue { text, failed: true }
    }

    /// What is printed.
    pub fn rendered(&self) -> (rendered: String)
        ensures
            rendered@ == self@.rendering(),
    {
        let end = if self.failed {
            "[failed]"
        } else {
            "[done]"
        };
        if self.text.as_str().unicode_len() == 0 {
            String::from_str(end)
        } else {
            self.text.clone().concat("\n").concat(end)
        }
    }
}

/// The commands that run against a configuration or a session.
#[derive(Debug, Clone, Copy, PartialEq, Eq, Structural)]
pub enum Routine {
    Help,
    Exit,
    Config,
    State,
    Start,
    Stop,
    Active,
    SessionId,
    BorderAgent,
    Joiner,
    CommDataset,
    OpDataset,
    BbrDataset,
    Reenroll,
    DomainReset,
    Migrate,
    Mlr,
    Announce,
    PanId,
    Energy,
    NetDiag,
}

/// The command with the name.
pub open spec fn routine_named(name: Seq<char>) -> Option<Routine> {
    if name == "help"@ {
        Some(Routine::Help)
    } else if name == "exit"@ || name == "quit"@ {
        Some(Routine::Exit)
    } else if name == "config"@ {
        Some(Routine::Config)
    } else if name == "state"@ {
        Some(Routine::State)
    } else if name == "start"@ {
        Some(Routine::Start)
    } else if name == "stop"@ {
        Some(Routine::Stop)
    } else if name == "active"@ {
        Some(Routine::Active)
    } else if name == "sessionid"@ {
        Some(Routine::SessionId)
    } else if name == "borderagent"@ {
        Some(Routine::BorderAgent)
    } else if name == "joiner"@ {
        Some(Routine::Joiner)
    } else if name == "commdataset"@ {
        Some(Routine::CommDataset)
    } else if name == "opdataset"@ {
        Some(Routine::OpDataset)
    } else if name == "bbrdataset"@ {
        Some(Routine::BbrDataset)
    } else if name == "reenroll"@ {
        Some(Routine::Reenroll)
    } else if name == "domainreset"@ {
        Some(Routine::DomainReset)
    } else if name == "migrate"@ {
        Some(Routine::Migrate)
    } else if name == "mlr"@ {
        Some(Routine::Mlr)
    } else if name == "announce"@ {
        Some(Routine::Announce)
    } else if name == "panid"@ {
        Some(Routine::PanId)
    } else if name == "energy"@ {
        Some(Routine::Energy)
    } else if name == "netdiag"@ {
        Some(Routine::NetDiag)
    } else {
        None
    }
}

/// Why a name is no command that runs.
pub open spec fn refusal_of(name: Seq<char>) -> Seq<char> {
    if name == "token"@ {
        "CCM token support is not implemented in this build"@
    } else if name == "br"@ || name == "domain"@ || name == "network"@ {
        "the persistent network registry is not implemented in this build"@
    } else {
        "'"@ + name + "' is not a valid command, type 'help' to list all commands"@
    }
}

fn routine_of(name: &String) -> (routine: Option<Routine>)
    ensures
        routine == routine_named(name@),
{
    if *name == String::from_str("help") {
        Some(Routine::Help)
    } else if *name == String::from_str("exit") || *name == String::from_str("quit") {
        Some(Routine::Exit)
    } else if *name == String::from_str("config") {
        Some(Routine::Config)
    } else if *name == String::from_str("state") {
        Some(Routine::State)
    } else if *name == String::from_str("start") {
        Some(Routine::Start)
    } else if *name == String::from_str("stop") {
        Some(Routine::Stop)
    } else if *name == String::from_str("active") {
        Some(Routine::Active)
    } else if *name == String::from_str("sessionid") {
        Some(Routine::SessionId)
    } else if *name == String::from_str("borderagent") {
        Some(Routine::BorderAgent)
    } else if *name == String::from_str("joiner") {
        Some(Routine::Joiner)
    } else if *name == String::from_str("commdataset") {
        Some(Routine::CommDataset)
    } else if *name == String::from_str("opdataset") {
        Some(Routine::OpDataset)
    } else if *name == String::from_str("bbrdataset") {
        Some(Routine::BbrDataset)
    } else if *name == String::from_str("reenroll") {
        Some(Routine::Reenroll)
    } else if *name == String::from_str("domainreset") {
        Some(Routine::DomainReset)
    } else if *name == String::from_str("migrate") {
        Some(Routine::Migrate)
    } else if *name == String::from_str("mlr") {
        Some(Routine::Mlr)
    } else if *name == String::from_str("announce") {
        Some(Routine::Announce)
    } else if *name == String::from_str("panid") {
        Some(Routine::PanId)
    } else if *name == String::from_str("energy") {
        Some(Routine::Energy)
    } else if *name == String::from_str("netdiag") {
        Some(Routine::NetDiag)
    } else {
        None
    }
}

/// What a line leads to.
#[derive(Debug)]
pub enum Evaluation {
    /// Nothing was entered.
    Blank,
    /// The result is known.
    Print(CommandValue),
    /// The command has to run.
    Run { routine: Routine, tokens: Vec<String> },
}

/// [`Evaluation`] over views.
pub enum EvaluationView {
    Blank,
    Print(ValueView),
    Run { routine: Routine, tokens: Seq<Seq<char>> },
}

impl View for Evaluation {
    type V = EvaluationView;

    open spec fn view(&self) -> EvaluationView {
        match self {
            Evaluation::Blank => EvaluationView::Blank,
            Evaluation::Print(value) => EvaluationView::Print(value@),
            Evaluation::Run { routine, tokens } => EvaluationView::Run {
                routine: *routine,
                tokens: texts(tokens@),
            },
        }
    }
}

/// A failure.
pub open spec fn failure(text: Seq<char>) -> EvaluationView {
    EvaluationView::Print(ValueView { text, failed: true })
}

/// What the words of a line lead to; there is at least one.
pub open spec fn dispatched(tokens: Seq<Seq<char>>) -> EvaluationView {
    match routine_named(tokens[0]) {
        None => failure(refusal_of(tokens[0])),
        Some(Routine::Exit) => EvaluationView::Print(
            ValueView { text: Seq::empty(), failed: false },
        ),
        Some(routine) => EvaluationView::Run { routine, tokens },
    }
}

/// What a line leads to.
pub open spec fn evaluated(line: Seq<char>) -> EvaluationView {
    match words_of(line) {
        None => failure("unterminated quote"@),
        Some(tokens) => if tokens.len() == 0 {
            EvaluationView::Blank
        } else if exists|i: int|
            0 <= i < tokens.len() && is_multi_network_flag(#[trigger] tokens[i]) {
            failure(
                "multi-network selectors (--nwk/--dom) require the network registry, which is not implemented in this build"@,
            )
        } else {
            dispatched(tokens)
        },
    }
}

/// Whether a line asks to leave the interpreter.
pub open spec fn leaves(line: Seq<char>) -> bool {
    words_of(line) matches Some(tokens) && tokens.len() > 0 && (forall|i: int|
        0 <= i < tokens.len() ==> !is_multi_network_flag(#[trigger] tokens[i])) && routine_named(
        tokens[0],
    ) == Some(Routine::Exit)
}

/// A report of an energy scan.
#[derive(Debug)]
pub struct EnergyReport {
    pub peer_addr: String,
    pub channel_mask: u32,
    pub energy_list: Vec<u8>,
}

/// [`EnergyReport`] over views.
#[verifier::ext_equal]
pub struct EnergyView {
    pub peer_addr: Seq<char>,
    pub channel_mask: u32,
    pub energy_list: Seq<u8>,
}

impl View for EnergyReport {
    type V = EnergyView;

    open spec fn view(&self) -> EnergyView {
        EnergyView {
            peer_addr: self.peer_addr@,
            channel_mask: self.channel_mask,
            energy_list: self.energy_list@,
        }
    }
}

/// A report of a PAN ID conflict.
#[derive(Debug)]
pub struct PanIdConflict {
    pub peer_addr: String,
    pub channel_mask: u32,
    pub pan_id: u16,
}

/// [`PanIdConflict`] over views.
#[verifier::ext_equal]
pub struct ConflictView {
    pub peer_addr: Seq<char>,
    pub channel_mask: u32,
    pub pan_id: u16,
}

impl View for PanIdConflict {
    type V = ConflictView;

    open spec fn view(&self) -> ConflictView {
        ConflictView {
            peer_addr: self.peer_addr@,
            channel_mask: self.channel_mask,
            pan_id: self.pan_id,
        }
    }
}

/// The interpreter's state between lines.
pub struct Interpreter {
    joiners: StaticJoinerHandler,
    energy_reports: Vec<EnergyReport>,
    panid_conflicts: Vec<PanIdConflict>,
    should_exit: bool,
}

/// [`Interpreter`] over views.
#[verifier::ext_equal]
pub struct InterpreterView {
    /// The enabled joiners.
    pub joiners: HandlerView,
    pub energy_reports: Seq<EnergyView>,
    pub panid_conflicts: Seq<ConflictView>,
    pub should_exit: bool,
}

impl View for Interpreter {
    type V = InterpreterView;

    closed spec fn view(&self) -> InterpreterView {
        InterpreterView {
            joiners: self.joiners@,
            energy_reports: views(self.energy_reports@),
            panid_conflicts: views(self.panid_conflicts@),
            should_exit: self.should_exit,
        }
    }
}

/// The warning for lost events.
pub open spec fn lost_events(missed: u64) -> Seq<char> {
    "missed "@ + decimal(missed as nat)
        + " commissioner events; energy and PAN ID reports may be incomplete"@
}

impl InterpreterView {
    /// The state after an event: scan reports are kept.
    pub open spec fn recorded(self, event: EventView) -> InterpreterView {
        match event {
            EventView::EnergyReport { peer_addr, channel_mask, energy_list } => InterpreterView {
                energy_reports: self.energy_reports.push(
                    EnergyView { peer_addr, channel_mask, energy_list },
                ),
                ..self
            },
            EventView::PanIdConflict { peer_addr, channel_mask, pan_id } => InterpreterView {
                panid_conflicts: self.panid_conflicts.push(
                    ConflictView { peer_addr, channel_mask, pan_id },
                ),
                ..self
            },
            _ => self,
        }
    }
}

/// The warning that an event causes.
pub open spec fn warning(event: EventView) -> Option<Seq<char>> {
    match event {
        EventView::Lagged { missed } => Some(lost_events(missed)),
        _ => None,
    }
}

/// The message that an event in the background causes.
pub open spec fn background_message(event: EventView) -> Option<Seq<char>> {
    match event {
        EventView::SessionLost { reason } => Some("commissioner session lost: "@ + reason.text()),
        other => warning(other),
    }
}

/// Whether a session has to be resigned before the program exits: there is
/// one, and it has not ended.
pub fn must_resign(status: Option<&SessionStatus>) -> (resign: bool)
    ensures
        resign == (status matches Some(status) && status@ !is Closed),
{
    match status {
        None => false,
        Some(SessionStatus::Closed { .. }) => false,
        Some(_) => true,
    }
}

impl Interpreter {
    /// An interpreter without joiners or reports.
    pub fn new() -> (interpreter: Self)
        ensures
            interpreter@ == (InterpreterView {
                joiners: HandlerView { wildcard: None, by_joiner_id: Seq::empty() },
                energy_reports: Seq::empty(),
                panid_conflicts: Seq::empty(),
                should_exit: false,
            }),
    {
        let interpreter = Interpreter {
            joiners: StaticJoinerHandler::new(),
            energy_reports: Vec::new(),
            panid_conflicts: Vec::new(),
            should_exit: false,
        };
        proof {
            assert(interpreter@.energy_reports =~= Seq::<EnergyView>::empty());
            assert(interpreter@.panid_conflicts =~= Seq::<ConflictView>::empty());
        }
        interpreter
    }

    /// Whether `exit` or `quit` has been requested.
    pub fn should_exit(&self) -> (exit: bool)
        ensures
            exit == self@.should_exit,
    {
        self.should_exit
    }

    /// The energy reports so far.
    pub fn energy_reports(&self) -> (reports: &Vec<EnergyReport>)
        ensures
            views(reports@) == self@.energy_reports,
    {
        &self.energy_reports
    }

    /// The PAN ID conflicts so far.
    pub fn panid_conflicts(&self) -> (conflicts: &Vec<PanIdConflict>)
        ensures
            views(conflicts@) == self@.panid_conflicts,
    {
        &self.panid_conflicts
    }

    /// Enables a joiner.
    pub fn set_joiner_pskd(&mut self, joiner_id: [u8; 8], pskd: &str)
        ensures
            final(self)@ == (InterpreterView {
                joiners: old(self)@.joiners.enabled(joiner_id@, pskd@),
                ..old(self)@
            }),
    {
        self.joiners.enable_joiner_id(joiner_id, pskd);
    }

    /// Enables every joiner.
    pub fn set_joiner_all_pskd(&mut self, pskd: &str)
        ensures
            final(self)@ == (InterpreterView {
                joiners: HandlerView { wildcard: Some(pskd@), ..old(self)@.joiners },
                ..old(self)@
            }),
    {
        self.joiners.enable_all(pskd);
    }

    /// The handler that a session is given for the enabled joiners.
    pub fn build_joiner_handler(&self) -> (handler: StaticJoinerHandler)
        ensures
            handler@ == self@.joiners,
    {
        self.joiners.duplicate()
    }

    /// What the words of a line lead to. Words that no command takes are
    /// wiped; they may hold secrets.
    pub fn dispatch(&mut self, tokens: Vec<String>) -> (evaluation: Evaluation)
        requires
            tokens@.len() > 0,
        ensures
            evaluation@ == dispatched(texts(tokens@)),
            final(self)@ == (InterpreterView {
                should_exit: old(self)@.should_exit || routine_named(texts(tokens@)[0]) == Some(
                    Routine::Exit,
                ),
                ..old(self)@
            }),
    {
        assert(texts(tokens@)[0] == tokens@[0]@);
        let mut tokens = tokens;
        match routine_of(&tokens[0]) {
            Some(Routine::Exit) => {
                self.should_exit = true;
                wipe_tokens(&mut tokens);
                Evaluation::Print(CommandValue::done())
            },
            Some(routine) => Evaluation::Run { routine, tokens },
            None => {
                let name = &tokens[0];
                let text = if *name == String::from_str("token") {
                    String::from_str("CCM token support is not implemented in this build")
                } else if *name == String::from_str("br") || *name == String::from_str("domain")
                    || *name == String::from_str("network") {
                    String::from_str(
                        "the persistent network registry is not implemented in this build",
                    )
                } else {
                    String::from_str("'").concat(name.as_str()).concat(
                        "' is not a valid command, type 'help' to list all commands",
                    )
                };
                wipe_tokens(&mut tokens);
                Evaluation::Print(CommandValue::failed(text))
            },
        }
    }

    /// What a line leads to.
    pub fn evaluate(&mut self, line: &str) -> (evaluation: Evaluation)
        ensures
            evaluation@ == evaluated(line@),
            final(self)@ == (InterpreterView {
                should_exit: old(self)@.should_exit || leaves(line@),
                ..old(self)@
            }),
    {
        let mut tokens = match tokenize(line) {
            Err(message) => {
                return Evaluation::Print(CommandValue::failed(String::from_str(message)));
            },
            Ok(tokens) => tokens,
        };
        assert(texts(tokens@).len() == tokens@.len());
        if tokens.len() == 0 {
            return Evaluation::Blank;
        }
        if has_multi_network_flag(&tokens) {
            wipe_tokens(&mut tokens);
            return Evaluation::Print(
                CommandValue::failed(
                    String::from_str(
                        "multi-network selectors (--nwk/--dom) require the network registry, which is not implemented in this build",
                    ),
                ),
            );
        }
        self.dispatch(tokens)
    }

    /// Stores scan reports, and returns a warning when events were lost.
    pub fn record_event(&mut self, event: CommissionerEvent) -> (message: Option<String>)
        ensures
            final(self)@ == old(self)@.recorded(event@),
            crate::commissioner::error::optional_text(message) == warning(event@),
    {
        match event {
            CommissionerEvent::EnergyReport { peer_addr, channel_mask, energy_list } => {
                let report = EnergyReport { peer_addr, channel_mask, energy_list };
                proof {
                    assert(views(self.energy_reports@.push(report)) =~= views(
                        self.energy_reports@,
                    ).push(report@));
                }
                self.energy_reports.push(report);
                None
            },
            CommissionerEvent::PanIdConflict { peer_addr, channel_mask, pan_id } => {
                let conflict = PanIdConflict { peer_addr, channel_mask, pan_id };
                proof {
                    assert(views(self.panid_conflicts@.push(conflict)) =~= views(
                        self.panid_conflicts@,
                    ).push(conflict@));
                }
                self.panid_conflicts.push(conflict);
                None
            },
            CommissionerEvent::Lagged { missed } => {
                let mut text = String::from_str("missed ");
                append_decimal(&mut text, missed);
                text.append(" commissioner events; energy and PAN ID reports may be incomplete");
                Some(text)
            },
            _ => None,
        }
    }

    /// Records an event that arrived while the interpreter was waiting for
    /// input, and returns a message to show for a lost session or lost events.
    pub fn handle_background_event(&mut self, event: CommissionerEvent) -> (message: Option<
        String,
    >)
        ensures
            final(self)@ == old(self)@.recorded(event@),
            crate::commissioner::error::optional_text(message) == background_message(event@),
    {
        if let CommissionerEvent::SessionLost { reason } = &event {
            return Some(
                String::from_str("commissioner session lost: ").concat(reason.message().as_str()),
            );
        }
        self.record_event(event)
    }
}

/// Whether one byte string stands before another: by the first byte that
/// differs, the shorter first where none does.
pub open spec fn stands_before(a: Seq<u8>, b: Seq<u8>) -> bool
    decreases a.len(),
{
    if b.len() == 0 {
        false
    } else if a.len() == 0 {
        true
    } else if a[0] != b[0] {
        a[0] < b[0]
    } else {
        stands_before(a.drop_first(), b.drop_first())
    }
}

/// Whether one text stands before another.
pub open spec fn sorts_before(a: Seq<char>, b: Seq<char>) -> bool {
    stands_before(encode_utf8(a), encode_utf8(b))
}

/// Sorted texts with one more, in front of the first that it stands before.
pub open spec fn sorted_with(sorted: Seq<Seq<char>>, text: Seq<char>) -> Seq<Seq<char>> {
    match position(sorted, |other: Seq<char>| sorts_before(text, other)) {
        Some(i) => sorted.insert(i, text),
        None => sorted.push(text),
    }
}

/// Texts in order.
pub open spec fn in_order(unsorted: Seq<Seq<char>>) -> Seq<Seq<char>>
    decreases unsorted.len(),
{
    if unsorted.len() == 0 {
        Seq::empty()
    } else {
        sorted_with(in_order(unsorted.drop_last()), unsorted.last())
    }
}

proof fn lemma_stands_before(a: Seq<u8>, b: Seq<u8>, c: Seq<u8>)
    ensures
        !(stands_before(a, b) && stands_before(b, a)),
        !stands_before(b, a) && !stands_before(c, b) ==> !stands_before(c, a),
    decreases a.len(),
{
    if a.len() > 0 && b.len() > 0 && c.len() > 0 {
        lemma_stands_before(a.drop_first(), b.drop_first(), c.drop_first());
    } else if a.len() > 0 && b.len() > 0 {
        lemma_stands_before(a.drop_first(), b.drop_first(), c);
    }
}

/// Sorting keeps every text and puts no text behind one that it stands
/// before.
pub proof fn law_in_order_sorts(unsorted: Seq<Seq<char>>)
    ensures
        in_order(unsorted).to_multiset() == unsorted.to_multiset(),
        forall|i: int, j: int|
            0 <= i < j < in_order(unsorted).len() ==> !sorts_before(
                #[trigger] in_order(unsorted)[j],
                #[trigger] in_order(unsorted)[i],
            ),
    decreases unsorted.len(),
{
    broadcast use vstd::seq_lib::group_to_multiset_ensures;

    if unsorted.len() == 0 {
        assert(in_order(unsorted) =~= unsorted);
    } else {
        let text = unsorted.last();
        let sorted = in_order(unsorted.drop_last());
        let all = in_order(unsorted);
        let matching = |other: Seq<char>| sorts_before(text, other);
        law_in_order_sorts(unsorted.drop_last());
        assert(unsorted.drop_last().push(text) =~= unsorted);
        crate::commissioner::exchange::lemma_position_bounds(sorted, matching);
        match position(sorted, matching) {
            Some(k) => {
                crate::commissioner::exchange::lemma_position_is_first(sorted, matching);
                assert(all.remove(k) =~= sorted);
                assert(all[k] == text);
                assert(all.contains(text));
                assert(sorted.to_multiset() == all.to_multiset().remove(text));
                assert(all.to_multiset() =~= sorted.to_multiset().insert(text));
                assert forall|i: int, j: int| 0 <= i < j < all.len() implies !sorts_before(
                    #[trigger] all[j],
                    #[trigger] all[i],
                ) by {
                    lemma_inserted_in_order(sorted, text, k, i, j);
                }
            },
            None => {
                crate::commissioner::exchange::lemma_absent(sorted, matching);
                assert forall|i: int, j: int| 0 <= i < j < all.len() implies !sorts_before(
                    #[trigger] all[j],
                    #[trigger] all[i],
                ) by {
                    assert(all[i] == sorted[i]);
                    if j < sorted.len() {
                        assert(all[j] == sorted[j]);
                    } else {
                        assert(!matching(sorted[i]));
                    }
                }
            },
        }
    }
}

proof fn lemma_inserted_in_order(
    sorted: Seq<Seq<char>>,
    text: Seq<char>,
    k: int,
    i: int,
    j: int,
)
    requires
        0 <= k < sorted.len(),
        sorts_before(text, sorted[k]),
        forall|m: int| 0 <= m < k ==> !sorts_before(text, #[trigger] sorted[m]),
        forall|a: int, b: int|
            0 <= a < b < sorted.len() ==> !sorts_before(#[trigger] sorted[b], #[trigger] sorted[a]),
        0 <= i < j < sorted.len() + 1,
    ensures
        !sorts_before(sorted.insert(k, text)[j], sorted.insert(k, text)[i]),
{
    let all = sorted.insert(k, text);
    if j < k {
        assert(all[i] == sorted[i] && all[j] == sorted[j]);
    } else if j == k {
        assert(all[i] == sorted[i]);
    } else if i < k {
        assert(all[i] == sorted[i] && all[j] == sorted[j - 1]);
    } else if i > k {
        assert(all[i] == sorted[i - 1] && all[j] == sorted[j - 1]);
    } else {
        assert(all[j] == sorted[j - 1]);
        let t = encode_utf8(text);
        let at = encode_utf8(sorted[k]);
        let later = encode_utf8(sorted[j - 1]);
        lemma_stands_before(t, at, later);
        if j - 1 > k {
            assert(!sorts_before(sorted[j - 1], sorted[k]));
        }
        lemma_stands_before(at, at, at);
    }
}

fn sorts_before_text(a: &str, b: &str) -> (before: bool)
    ensures
        before == sorts_before(a@, b@),
{
    let left = a.as_bytes();
    let right = b.as_bytes();
    let mut i: usize = 0;
    proof {
        assert(left@.skip(0) =~= left@);
        assert(right@.skip(0) =~= right@);
    }
    while i < left.len() && i < right.len() && left[i] == right[i]
        invariant
            i <= left@.len(),
            i <= right@.len(),
            stands_before(left@, right@) == stands_before(
                left@.skip(i as int),
                right@.skip(i as int),
            ),
        decreases left@.len() - i,
    {
        proof {
            assert(left@.skip(i as int).drop_first() =~= left@.skip(i + 1));
            assert(right@.skip(i as int).drop_first() =~= right@.skip(i + 1));
        }
        i = i + 1;
    }
    if i == right.len() {
        false
    } else if i == left.len() {
        true
    } else {
        left[i] < right[i]
    }
}

/// The name and the usage of a command.
#[derive(Debug)]
pub struct Usage {
    pub name: String,
    pub usage: String,
}

/// [`Usage`] over views.
#[verifier::ext_equal]
pub struct UsageView {
    pub name: Seq<char>,
    pub usage: Seq<char>,
}

impl View for Usage {
    type V = UsageView;

    open spec fn view(&self) -> UsageView {
        UsageView { name: self.name@, usage: self.usage@ }
    }
}

/// The names of commands.
pub open spec fn names_of(commands: Seq<UsageView>) -> Seq<Seq<char>> {
    commands.map_values(|c: UsageView| c.name)
}

/// Texts on lines of their own.
pub open spec fn lines(all: Seq<Seq<char>>) -> Seq<char>
    decreases all.len(),
{
    if all.len() == 0 {
        Seq::empty()
    } else {
        lines(all.drop_last()) + all.last() + "\n"@
    }
}

/// What help a command line gets.
pub open spec fn help(commands: Seq<UsageView>, tokens: Seq<Seq<char>>) -> ValueView {
    if tokens.len() <= 1 {
        ValueView {
            text: lines(in_order(names_of(commands)))
                + "\ntype 'help <command>' for help of specific command."@,
            failed: false,
        }
    } else {
        match position(commands, |c: UsageView| c.name == tokens[1]) {
            Some(i) => ValueView { text: "usage:\n"@ + commands[i].usage, failed: false },
            None => ValueView { text: tokens[1] + " is not a valid command"@, failed: true },
        }
    }
}

fn sorted_names(commands: &Vec<Usage>) -> (sorted: Vec<String>)
    ensures
        texts(sorted@) == in_order(names_of(views(commands@))),
{
    let ghost all = names_of(views(commands@));
    let mut sorted: Vec<String> = Vec::new();
    let mut i: usize = 0;
    proof {
        assert(all.take(0) =~= Seq::<Seq<char>>::empty());
        assert(texts(sorted@) =~= Seq::<Seq<char>>::empty());
    }
    while i < commands.len()
        invariant
            i <= commands@.len(),
            all == names_of(views(commands@)),
            texts(sorted@) == in_order(all.take(i as int)),
        decreases commands@.len() - i,
    {
        let name = commands[i].name.clone();
        let ghost text = name@;
        let ghost before = sorted@;
        let ghost matching = |other: Seq<char>| sorts_before(text, other);
        proof {
            assert(all.take(i + 1).drop_last() =~= all.take(i as int));
            assert(all.take(i + 1).last() == all[i as int]);
            assert(all[i as int] == views(commands@)[i as int].name);
            assert(views(commands@)[i as int] == commands@[i as int]@);
        }
        let mut k: usize = 0;
        while k < sorted.len() && !sorts_before_text(name.as_str(), sorted[k].as_str())
            invariant
                k <= sorted@.len(),
                sorted@ == before,
                name@ == text,
                matching == (|other: Seq<char>| sorts_before(text, other)),
                forall|j: int| 0 <= j < k ==> !matching(#[trigger] texts(sorted@)[j]),
            decreases sorted@.len() - k,
        {
            assert(texts(sorted@)[k as int] == sorted@[k as int]@);
            k = k + 1;
        }
        proof {
            if k < sorted@.len() {
                assert(texts(sorted@)[k as int] == sorted@[k as int]@);
                lemma_position(texts(sorted@), matching, k as int);
            } else {
                lemma_no_position(texts(sorted@), matching);
            }
        }
        sorted.insert(k, name);
        proof {
            assert(texts(sorted@) =~= texts(before).insert(k as int, text));
            if k == before.len() {
                assert(texts(before).insert(k as int, text) =~= texts(before).push(text));
            }
        }
        i = i + 1;
    }
    assert(all.take(i as int) =~= all);
    sorted
}

/// Lists the commands, or gives the usage of one.
pub fn cmd_help(commands: &Vec<Usage>, tokens: &Vec<String>) -> (value: CommandValue)
    ensures
        value@ == help(views(commands@), texts(tokens@)),
{
    assert(texts(tokens@).len() == tokens@.len());
    if tokens.len() <= 1 {
        let sorted = sorted_names(commands);
        let mut data = String::new();
        let mut i: usize = 0;
        assert(texts(sorted@).take(0) =~= Seq::<Seq<char>>::empty());
        assert(data@ =~= Seq::<char>::empty());
        while i < sorted.len()
            invariant
                i <= sorted@.len(),
                data@ == lines(texts(sorted@).take(i as int)),
            decreases sorted@.len() - i,
        {
            proof {
                assert(texts(sorted@).take(i + 1).drop_last() =~= texts(sorted@).take(i as int));
                assert(texts(sorted@).take(i + 1).last() == sorted@[i as int]@);
            }
            data.append(sorted[i].as_str());
            data.append("\n");
            i = i + 1;
        }
        assert(texts(sorted@).take(i as int) =~= texts(sorted@));
        data.append("\ntype 'help <command>' for help of specific command.");
        return CommandValue::ok(data);
    }
    assert(texts(tokens@)[1] == tokens@[1]@);
    let ghost wanted = texts(tokens@)[1];
    let ghost matching = |c: UsageView| c.name == wanted;
    let mut i: usize = 0;
    while i < commands.len()
        invariant
            i <= commands@.len(),
            tokens@.len() > 1,
            wanted == tokens@[1]@,
            matching == (|c: UsageView| c.name == wanted),
            forall|j: int| 0 <= j < i ==> !matching(#[trigger] views(commands@)[j]),
        decreases commands@.len() - i,
    {
        assert(views(commands@)[i as int] == commands@[i as int]@);
        if commands[i].name == tokens[1] {
            proof {
                lemma_position(views(commands@), matching, i as int);
            }
            return CommandValue::ok(
                String::from_str("usage:\n").concat(commands[i].usage.as_str()),
            );
        }
        i = i + 1;
    }
    proof {
        lemma_no_position(views(commands@), matching);
    }
    CommandValue::failed(tokens[1].clone().concat(" is not a valid command"))
}

/// The result of a wait for events: the warnings, one on each line.
pub fn scan_result(warnings: &Vec<String>) -> (value: CommandValue)
    ensures
        value@ == (ValueView { text: joined(texts(warnings@)), failed: false }),
{
    let mut text = String::new();
    let mut i: usize = 0;
    assert(texts(warnings@).take(0) =~= Seq::<Seq<char>>::empty());
    assert(text@ =~= Seq::<char>::empty());
    while i < warnings.len()
        invariant
            i <= warnings@.len(),
            text@ == joined(texts(warnings@).take(i as int)),
        decreases warnings@.len() - i,
    {
        proof {
            assert(texts(warnings@).take(i + 1).drop_last() =~= texts(warnings@).take(i as int));
            assert(texts(warnings@).take(i + 1).last() == warnings@[i as int]@);
            if i == 0 {
                assert(text@ =~= Seq::<char>::empty());
                assert(text@ + warnings@[0]@ =~= warnings@[0]@);
            }
        }
        if i > 0 {
            text.append("\n");
        }
        text.append(warnings[i].as_str());
        i = i + 1;
    }
    assert(texts(warnings@).take(i as int) =~= texts(warnings@));
    CommandValue::ok(text)
}

/// Texts with line breaks between them.
pub open spec fn joined(all: Seq<Seq<char>>) -> Seq<char>
    decreases all.len(),
{
    if all.len() == 0 {
        Seq::empty()
    } else if all.len() == 1 {
        all[0]
    } else {
        joined(all.drop_last()) + "\n"@ + all.last()
    }
}

} // verus!

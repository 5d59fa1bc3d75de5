//! What command lines mean, whatever else stands in them.

use vstd::prelude::*;
use vstd::utf8::encode_utf8;

use crate::cli::interpreter::{
    background_message, evaluated, help, in_order, joined, law_in_order_sorts, leaves, lines,
    names_of, sorts_before, stands_before, EvaluationView, InterpreterView, Routine, UsageView,
    ValueView,
};
use crate::cli::tokens::{
    digit_value, digits_value, is_multi_network_flag, names_op_field, number_in, words,
    words_of,
};
use crate::commissioner::exchange::lemma_position;
use crate::commissioner::types::{CloseReasonView, EventView};
use crate::text::{decimal, digit};

verus! {

/// Whether a line has these words, the first of them the given one, and selects
/// no other networks.
pub open spec fn is_line_of(line: Seq<char>, name: Seq<char>, words: Seq<Seq<char>>) -> bool {
    &&& words_of(line) == Some(words)
    &&& words.len() > 0
    &&& words[0] == name
    &&& forall|i: int|
        0 <= i < words.len() ==> #[trigger] words[i] != "--nwk"@ && words[i] != "--dom"@
}

/// A line runs the command whose name is its first word, with all its words;
/// `exit` and `quit` end the interpreter with nothing to print.
pub proof fn law_a_name_runs_its_command(line: Seq<char>, name: Seq<char>, words: Seq<Seq<char>>)
    requires
        is_line_of(line, name, words),
    ensures
        name == "help"@ ==> evaluated(line) == (EvaluationView::Run {
            routine: Routine::Help,
            tokens: words,
        }),
        name == "config"@ ==> evaluated(line) == (EvaluationView::Run {
            routine: Routine::Config,
            tokens: words,
        }),
        name == "state"@ ==> evaluated(line) == (EvaluationView::Run {
            routine: Routine::State,
            tokens: words,
        }),
        name == "start"@ ==> evaluated(line) == (EvaluationView::Run {
            routine: Routine::Start,
            tokens: words,
        }),
        name == "stop"@ ==> evaluated(line) == (EvaluationView::Run {
            routine: Routine::Stop,
            tokens: words,
        }),
        name == "active"@ ==> evaluated(line) == (EvaluationView::Run {
            routine: Routine::Active,
            tokens: words,
        }),
        name == "sessionid"@ ==> evaluated(line) == (EvaluationView::Run {
            routine: Routine::SessionId,
            tokens: words,
        }),
        name == "borderagent"@ ==> evaluated(line) == (EvaluationView::Run {
            routine: Routine::BorderAgent,
            tokens: words,
        }),
        name == "joiner"@ ==> evaluated(line) == (EvaluationView::Run {
            routine: Routine::Joiner,
            tokens: words,
        }),
        name == "commdataset"@ ==> evaluated(line) == (EvaluationView::Run {
            routine: Routine::CommDataset,
            tokens: words,
        }),
        name == "opdataset"@ ==> evaluated(line) == (EvaluationView::Run {
            routine: Routine::OpDataset,
            tokens: words,
        }),
        name == "bbrdataset"@ ==> evaluated(line) == (EvaluationView::Run {
            routine: Routine::BbrDataset,
            tokens: words,
        }),
        name == "reenroll"@ ==> evaluated(line) == (EvaluationView::Run {
            routine: Routine::Reenroll,
            tokens: words,
        }),
        name == "domainreset"@ ==> evaluated(line) == (EvaluationView::Run {
            routine: Routine::DomainReset,
            tokens: words,
        }),
        name == "migrate"@ ==> evaluated(line) == (EvaluationView::Run {
            routine: Routine::Migrate,
            tokens: words,
        }),
        name == "mlr"@ ==> evaluated(line) == (EvaluationView::Run {
            routine: Routine::Mlr,
            tokens: words,
        }),
        name == "announce"@ ==> evaluated(line) == (EvaluationView::Run {
            routine: Routine::Announce,
            tokens: words,
        }),
        name == "panid"@ ==> evaluated(line) == (EvaluationView::Run {
            routine: Routine::PanId,
            tokens: words,
        }),
        name == "energy"@ ==> evaluated(line) == (EvaluationView::Run {
            routine: Routine::Energy,
            tokens: words,
        }),
        name == "netdiag"@ ==> evaluated(line) == (EvaluationView::Run {
            routine: Routine::NetDiag,
            tokens: words,
        }),
        name == "exit"@ || name == "quit"@ ==> leaves(line) && evaluated(line)
            == EvaluationView::Print(ValueView { text: Seq::empty(), failed: false }),
        leaves(line) ==> name == "exit"@ || name == "quit"@,
{
    reveal_strlit("help");
    reveal_strlit("config");
    reveal_strlit("state");
    reveal_strlit("start");
    reveal_strlit("stop");
    reveal_strlit("active");
    reveal_strlit("sessionid");
    reveal_strlit("borderagent");
    reveal_strlit("joiner");
    reveal_strlit("commdataset");
    reveal_strlit("opdataset");
    reveal_strlit("bbrdataset");
    reveal_strlit("reenroll");
    reveal_strlit("domainreset");
    reveal_strlit("migrate");
    reveal_strlit("mlr");
    reveal_strlit("announce");
    reveal_strlit("panid");
    reveal_strlit("energy");
    reveal_strlit("netdiag");
    reveal_strlit("exit");
    reveal_strlit("quit");
    assert("help"@[0] != "stop"@[0]);
    assert("help"@[0] != "exit"@[0]);
    assert("help"@[0] != "quit"@[0]);
    assert("config"@[0] != "active"@[0]);
    assert("config"@[0] != "joiner"@[0]);
    assert("config"@[0] != "energy"@[0]);
    assert("state"@[3] != "start"@[3]);
    assert("state"@[0] != "panid"@[0]);
    assert("start"@[0] != "panid"@[0]);
    assert("stop"@[0] != "exit"@[0]);
    assert("stop"@[0] != "quit"@[0]);
    assert("active"@[0] != "joiner"@[0]);
    assert("active"@[0] != "energy"@[0]);
    assert("sessionid"@[0] != "opdataset"@[0]);
    assert("borderagent"@[0] != "commdataset"@[0]);
    assert("borderagent"@[0] != "domainreset"@[0]);
    assert("joiner"@[0] != "energy"@[0]);
    assert("commdataset"@[0] != "domainreset"@[0]);
    assert("reenroll"@[0] != "announce"@[0]);
    assert("migrate"@[0] != "netdiag"@[0]);
    assert("exit"@[0] != "quit"@[0]);
    assert(forall|i: int|
        0 <= i < words.len() ==> !is_multi_network_flag(#[trigger] words[i]));
}

/// Lines that run one command have the same first word: no command but the one
/// that ends the interpreter has two names.
pub proof fn law_a_command_has_one_name(
    line: Seq<char>,
    name: Seq<char>,
    words: Seq<Seq<char>>,
    other_line: Seq<char>,
    other_name: Seq<char>,
    other_words: Seq<Seq<char>>,
)
    requires
        is_line_of(line, name, words),
        is_line_of(other_line, other_name, other_words),
        evaluated(line) is Run,
        evaluated(other_line) is Run,
        evaluated(line)->routine == evaluated(other_line)->routine,
    ensures
        name == other_name,
{
    assert(forall|i: int|
        0 <= i < words.len() ==> !is_multi_network_flag(#[trigger] words[i]));
    assert(forall|i: int|
        0 <= i < other_words.len() ==> !is_multi_network_flag(#[trigger] other_words[i]));
}

/// What does not run is refused by name: for want of what the command needs,
/// or as no command at all.
pub proof fn law_other_names_are_refused(line: Seq<char>, name: Seq<char>, words: Seq<Seq<char>>)
    requires
        is_line_of(line, name, words),
    ensures
        name == "token"@ ==> evaluated(line) == EvaluationView::Print(
            ValueView {
                text: "CCM token support is not implemented in this build"@,
                failed: true,
            },
        ),
        name == "br"@ || name == "domain"@ || name == "network"@ ==> evaluated(line)
            == EvaluationView::Print(
            ValueView {
                text: "the persistent network registry is not implemented in this build"@,
                failed: true,
            },
        ),
        evaluated(line) matches EvaluationView::Print(value) ==> leaves(line) || value.failed,
        evaluated(line) is Print && !leaves(line) && name != "token"@ && name != "br"@ && name
            != "domain"@ && name != "network"@ ==> evaluated(line) == EvaluationView::Print(
            ValueView {
                text: "'"@ + name
                    + "' is not a valid command, type 'help' to list all commands"@,
                failed: true,
            },
        ),
{
    reveal_strlit("help");
    reveal_strlit("config");
    reveal_strlit("state");
    reveal_strlit("start");
    reveal_strlit("stop");
    reveal_strlit("active");
    reveal_strlit("sessionid");
    reveal_strlit("borderagent");
    reveal_strlit("joiner");
    reveal_strlit("commdataset");
    reveal_strlit("opdataset");
    reveal_strlit("bbrdataset");
    reveal_strlit("reenroll");
    reveal_strlit("domainreset");
    reveal_strlit("migrate");
    reveal_strlit("mlr");
    reveal_strlit("announce");
    reveal_strlit("panid");
    reveal_strlit("energy");
    reveal_strlit("netdiag");
    reveal_strlit("exit");
    reveal_strlit("quit");
    reveal_strlit("token");
    reveal_strlit("br");
    reveal_strlit("domain");
    reveal_strlit("network");
    assert("help"@[0] != "stop"@[0]);
    assert("help"@[0] != "exit"@[0]);
    assert("help"@[0] != "quit"@[0]);
    assert("config"@[0] != "active"@[0]);
    assert("config"@[0] != "joiner"@[0]);
    assert("config"@[0] != "energy"@[0]);
    assert("config"@[0] != "domain"@[0]);
    assert("state"@[3] != "start"@[3]);
    assert("state"@[0] != "panid"@[0]);
    assert("state"@[0] != "token"@[0]);
    assert("start"@[0] != "panid"@[0]);
    assert("start"@[0] != "token"@[0]);
    assert("stop"@[0] != "exit"@[0]);
    assert("stop"@[0] != "quit"@[0]);
    assert("active"@[0] != "joiner"@[0]);
    assert("active"@[0] != "energy"@[0]);
    assert("active"@[0] != "domain"@[0]);
    assert("sessionid"@[0] != "opdataset"@[0]);
    assert("borderagent"@[0] != "commdataset"@[0]);
    assert("borderagent"@[0] != "domainreset"@[0]);
    assert("joiner"@[0] != "energy"@[0]);
    assert("joiner"@[0] != "domain"@[0]);
    assert("commdataset"@[0] != "domainreset"@[0]);
    assert("reenroll"@[0] != "announce"@[0]);
    assert("migrate"@[0] != "netdiag"@[0]);
    assert("migrate"@[0] != "network"@[0]);
    assert("panid"@[0] != "token"@[0]);
    assert("energy"@[0] != "domain"@[0]);
    assert("netdiag"@[3] != "network"@[3]);
    assert("exit"@[0] != "quit"@[0]);
    assert(forall|i: int|
        0 <= i < words.len() ==> !is_multi_network_flag(#[trigger] words[i]));
}

/// A line that selects other networks anywhere runs nothing and ends nothing.
pub proof fn law_network_selectors_are_refused(line: Seq<char>, words: Seq<Seq<char>>, i: int)
    requires
        words_of(line) == Some(words),
        0 <= i < words.len(),
        words[i] == "--nwk"@ || words[i] == "--dom"@,
    ensures
        evaluated(line) matches EvaluationView::Print(value) && value.failed,
        !leaves(line),
{
    assert(is_multi_network_flag(words[i]));
}

/// Whether the character stands between words.
pub open spec fn separates(c: char) -> bool {
    c == ' ' || c == '\t' || c == '\n' || c == '\r'
}

/// Whether a text stands for itself in a line: it has no quote, and nothing
/// that separates words.
pub open spec fn is_plain(text: Seq<char>) -> bool {
    forall|i: int|
        0 <= i < text.len() ==> !separates(#[trigger] text[i]) && text[i] != '\'' && text[i]
            != '"'
}

/// A text in quotes.
pub open spec fn in_quotes(text: Seq<char>, quote: char) -> Seq<char> {
    seq![quote] + text + seq![quote]
}

proof fn lemma_plain(text: Seq<char>, rest: Seq<char>, start: Seq<char>)
    requires
        is_plain(text),
    ensures
        words(text + rest, Some(start), None) == words(rest, Some(start + text), None),
        text.len() > 0 ==> words(text + rest, None, None) == words(rest, Some(text), None),
    decreases text.len(),
{
    if text.len() == 0 {
        assert(text + rest =~= rest);
        assert(start + text =~= start);
    } else {
        let line = text + rest;
        let more = text.drop_first();
        assert(line[0] == text[0]);
        assert(line.drop_first() =~= more + rest);
        assert forall|i: int| 0 <= i < more.len() implies !separates(#[trigger] more[i])
            && more[i] != '\'' && more[i] != '"' by {
            assert(more[i] == text[i + 1]);
        }
        lemma_plain(more, rest, start.push(text[0]));
        lemma_plain(more, rest, Seq::empty().push(text[0]));
        assert(start.push(text[0]) + more =~= start + text);
        assert(Seq::empty().push(text[0]) + more =~= text);
    }
}

proof fn lemma_quoted(text: Seq<char>, rest: Seq<char>, start: Seq<char>, quote: char)
    requires
        !text.contains(quote),
    ensures
        words(text + rest, Some(start), Some(quote)) == words(
            rest,
            Some(start + text),
            Some(quote),
        ),
    decreases text.len(),
{
    if text.len() == 0 {
        assert(text + rest =~= rest);
        assert(start + text =~= start);
    } else {
        let line = text + rest;
        let more = text.drop_first();
        assert(text.contains(text[0]));
        assert(line[0] == text[0]);
        assert(line.drop_first() =~= more + rest);
        assert forall|i: int| 0 <= i < more.len() implies #[trigger] more[i] != quote by {
            assert(more[i] == text[i + 1]);
            assert(text.contains(text[i + 1]));
        }
        lemma_quoted(more, rest, start.push(text[0]), quote);
        assert(start.push(text[0]) + more =~= start + text);
    }
}

/// Words stand between separators, and plain text is its own word.
pub proof fn law_words_end_at_separators(text: Seq<char>, separator: char, rest: Seq<char>)
    requires
        is_plain(text),
        text.len() > 0,
        separates(separator),
    ensures
        words_of(text) == Some(seq![text]),
        words_of(Seq::empty()) == Some(Seq::<Seq<char>>::empty()),
        words_of(seq![separator] + rest) == words_of(rest),
        words_of(rest) is None ==> words_of(text + seq![separator] + rest) is None,
        words_of(rest) matches Some(more) ==> words_of(text + seq![separator] + rest) == Some(
            seq![text] + more,
        ),
{
    let spaced = seq![separator] + rest;
    assert(spaced.drop_first() =~= rest);
    assert(text + seq![separator] + rest =~= text + spaced);
    lemma_plain(text, spaced, Seq::empty());
    lemma_plain(text, Seq::empty(), Seq::empty());
    assert(text + Seq::empty() =~= text);
}

/// Quoted text is one word, separators and all, without its quotes; it joins
/// the text before it. Without its second quote it is no line.
pub proof fn law_quoted_text_is_one_word(
    before: Seq<char>,
    text: Seq<char>,
    quote: char,
    separator: char,
    rest: Seq<char>,
)
    requires
        quote == '\'' || quote == '"',
        !text.contains(quote),
        is_plain(before),
        separates(separator),
    ensures
        words_of(in_quotes(text, quote)) == Some(seq![text]),
        words_of(before + in_quotes(text, quote)) == Some(seq![before + text]),
        words_of(seq![quote] + text) is None,
        words_of(rest) is None ==> words_of(
            before + in_quotes(text, quote) + seq![separator] + rest,
        ) is None,
        words_of(rest) matches Some(more) ==> words_of(
            before + in_quotes(text, quote) + seq![separator] + rest,
        ) == Some(seq![before + text] + more),
{
    lemma_quoted_word(Seq::empty(), text, quote, Seq::empty());
    lemma_quoted_word(before, text, quote, Seq::empty());
    lemma_quoted_word(before, text, quote, seq![separator] + rest);
    assert(Seq::empty() + in_quotes(text, quote) + Seq::empty() =~= in_quotes(text, quote));
    assert(before + in_quotes(text, quote) + Seq::empty() =~= before + in_quotes(text, quote));
    assert(before + in_quotes(text, quote) + (seq![separator] + rest) =~= before + in_quotes(
        text,
        quote,
    ) + seq![separator] + rest);
    assert((seq![separator] + rest).drop_first() =~= rest);
    assert(Seq::empty() + text =~= text);
    let open = seq![quote] + text;
    assert(open.drop_first() =~= text + Seq::empty());
    lemma_quoted(text, Seq::empty(), Seq::empty(), quote);
}

proof fn lemma_quoted_word(before: Seq<char>, text: Seq<char>, quote: char, rest: Seq<char>)
    requires
        quote == '\'' || quote == '"',
        !text.contains(quote),
        is_plain(before),
    ensures
        words_of(before + in_quotes(text, quote) + rest) == words(rest, Some(before + text), None),
{
    let closing = seq![quote] + rest;
    let quoted = seq![quote] + text + closing;
    assert(before + in_quotes(text, quote) + rest =~= before + quoted);
    assert(quoted[0] == quote);
    assert(quoted.drop_first() =~= text + closing);
    assert(closing.drop_first() =~= rest);
    lemma_quoted(text, closing, before, quote);
    if before.len() == 0 {
        assert(before =~= Seq::<char>::empty());
        assert(before + quoted =~= quoted);
    } else {
        lemma_plain(before, quoted, Seq::empty());
    }
}

/// A number below 16 as a hexadecimal digit, in capitals or not.
pub open spec fn hex_digit(d: nat, capital: bool) -> char {
    if d < 10 {
        ('0' as nat + d) as char
    } else if capital {
        ('A' as nat + d - 10) as char
    } else {
        ('a' as nat + d - 10) as char
    }
}

/// A number in hexadecimal, without leading zeros.
pub open spec fn hexadecimal(n: nat, capital: bool) -> Seq<char>
    decreases n,
{
    if n < 16 {
        seq![hex_digit(n, capital)]
    } else {
        hexadecimal(n / 16, capital).push(hex_digit(n % 16, capital))
    }
}

proof fn lemma_decimal(n: nat)
    ensures
        decimal(n).len() > 0,
        digits_value(decimal(n), 10) == Some(n),
        forall|i: int| 0 <= i < decimal(n).len() ==> #[trigger] decimal(n)[i] != 'x',
    decreases n,
{
    let all = decimal(n);
    reveal_with_fuel(digits_value, 2);
    if n < 10 {
        assert(all.drop_last() =~= Seq::<char>::empty());
        assert(digit_value(digit(n), 10) == Some(n));
    } else {
        lemma_decimal(n / 10);
        assert(all.drop_last() =~= decimal(n / 10));
        assert(digit_value(digit(n % 10), 10) == Some(n % 10));
    }
}

proof fn lemma_hexadecimal(n: nat, capital: bool)
    ensures
        hexadecimal(n, capital).len() > 0,
        digits_value(hexadecimal(n, capital), 16) == Some(n),
    decreases n,
{
    let all = hexadecimal(n, capital);
    reveal_with_fuel(digits_value, 2);
    if n < 16 {
        assert(all.drop_last() =~= Seq::<char>::empty());
        assert(digit_value(hex_digit(n, capital), 16) == Some(n));
    } else {
        lemma_hexadecimal(n / 16, capital);
        assert(all.drop_last() =~= hexadecimal(n / 16, capital));
        assert(digit_value(hex_digit(n % 16, capital), 16) == Some(n % 16));
    }
}

/// A number reads as itself, in decimal and in hexadecimal behind `0x`, where
/// the limit lets it.
pub proof fn law_written_numbers_are_read(n: nat, capital: bool, limit: nat)
    ensures
        number_in(decimal(n), limit) == (if n <= limit {
            Some(n)
        } else {
            None
        }),
        number_in(seq!['0', 'x'] + hexadecimal(n, capital), limit) == (if n <= limit {
            Some(n)
        } else {
            None
        }),
        number_in(Seq::empty(), limit) is None,
        number_in(seq!['0', 'x'], limit) is None,
{
    lemma_decimal(n);
    lemma_hexadecimal(n, capital);
    let text = seq!['0', 'x'] + hexadecimal(n, capital);
    assert(text.skip(2) =~= hexadecimal(n, capital));
    assert(seq!['0', 'x'].skip(2) =~= Seq::<char>::empty());
}

proof fn lemma_no_digit(digits: Seq<char>, base: nat, i: int)
    requires
        0 <= i < digits.len(),
        digit_value(digits[i], base) is None,
    ensures
        digits_value(digits, base) is None,
    decreases digits.len(),
{
    if i < digits.len() - 1 {
        lemma_no_digit(digits.drop_last(), base, i);
    }
}

/// A text with a character that is no decimal digit is no number, unless it is
/// hexadecimal.
pub proof fn law_other_texts_are_no_numbers(text: Seq<char>, i: int, limit: nat)
    requires
        0 <= i < text.len(),
        !('0' <= text[i] <= '9'),
        text.len() >= 2 && text[0] == '0' ==> text[1] != 'x',
    ensures
        number_in(text, limit) is None,
{
    lemma_no_digit(text, 10, i);
}

/// The fields of the operational dataset have these names and no others.
pub proof fn law_the_fields_of_the_operational_dataset(name: Seq<char>)
    ensures
        names_op_field(name) <==> seq![
            "activetimestamp"@,
            "channel"@,
            "channelmask"@,
            "xpanid"@,
            "meshlocalprefix"@,
            "networkmasterkey"@,
            "networkname"@,
            "panid"@,
            "pskc"@,
            "securitypolicy"@,
        ].contains(name),
{
    let all = seq![
        "activetimestamp"@,
        "channel"@,
        "channelmask"@,
        "xpanid"@,
        "meshlocalprefix"@,
        "networkmasterkey"@,
        "networkname"@,
        "panid"@,
        "pskc"@,
        "securitypolicy"@,
    ];
    if names_op_field(name) {
        assert(all[0] == name || all[1] == name || all[2] == name || all[3] == name || all[4]
            == name || all[5] == name || all[6] == name || all[7] == name || all[8] == name
            || all[9] == name);
    }
}

/// A report is kept behind those before it, with everything that it says; other
/// events leave nothing behind.
pub proof fn law_reports_are_kept(state: InterpreterView, event: EventView)
    ensures
        ({
            let after = state.recorded(event);
            let energy = state.energy_reports.len() as int;
            let conflicts = state.panid_conflicts.len() as int;
            &&& after.joiners == state.joiners
            &&& after.should_exit == state.should_exit
            &&& after.energy_reports.take(energy) == state.energy_reports
            &&& after.panid_conflicts.take(conflicts) == state.panid_conflicts
            &&& match event {
                EventView::EnergyReport { peer_addr, channel_mask, energy_list } => {
                    &&& after.energy_reports.len() == energy + 1
                    &&& after.panid_conflicts.len() == conflicts
                    &&& after.energy_reports[energy].peer_addr == peer_addr
                    &&& after.energy_reports[energy].channel_mask == channel_mask
                    &&& after.energy_reports[energy].energy_list == energy_list
                },
                EventView::PanIdConflict { peer_addr, channel_mask, pan_id } => {
                    &&& after.energy_reports.len() == energy
                    &&& after.panid_conflicts.len() == conflicts + 1
                    &&& after.panid_conflicts[conflicts].peer_addr == peer_addr
                    &&& after.panid_conflicts[conflicts].channel_mask == channel_mask
                    &&& after.panid_conflicts[conflicts].pan_id == pan_id
                },
                _ => {
                    &&& after.energy_reports.len() == energy
                    &&& after.panid_conflicts.len() == conflicts
                },
            }
        }),
{
    let after = state.recorded(event);
    assert(after.energy_reports.take(state.energy_reports.len() as int) =~= state.energy_reports);
    assert(after.panid_conflicts.take(state.panid_conflicts.len() as int)
        =~= state.panid_conflicts);
}

/// In the background a lost session is told with its reason and lost events
/// with their number; every other event is silent.
pub proof fn law_losses_are_told(reason: CloseReasonView, missed: u64, event: EventView)
    ensures
        background_message(EventView::SessionLost { reason }) == Some(
            "commissioner session lost: "@ + reason.text(),
        ),
        background_message(EventView::Lagged { missed }) == Some(
            "missed "@ + decimal(missed as nat)
                + " commissioner events; energy and PAN ID reports may be incomplete"@,
        ),
        background_message(event) is Some <==> event is SessionLost || event is Lagged,
{
}

/// Help on a command gives the usage that stands beside its name; on another
/// word it fails.
pub proof fn law_help_gives_the_usage(commands: Seq<UsageView>, tokens: Seq<Seq<char>>, i: int)
    requires
        tokens.len() > 1,
        0 <= i < commands.len(),
        forall|j: int, k: int|
            0 <= j < k < commands.len() ==> (#[trigger] commands[j]).name != (
            #[trigger] commands[k]).name,
    ensures
        tokens[1] == commands[i].name ==> help(commands, tokens) == (ValueView {
            text: "usage:\n"@ + commands[i].usage,
            failed: false,
        }),
        !help(commands, tokens).failed ==> exists|j: int|
            0 <= j < commands.len() && (#[trigger] commands[j]).name == tokens[1],
{
    let matching = |c: UsageView| c.name == tokens[1];
    crate::commissioner::exchange::lemma_position_bounds(commands, matching);
    if tokens[1] == commands[i].name {
        lemma_position(commands, matching, i);
    }
}

/// What is printed ends with the verdict, behind the text where there is one.
pub proof fn law_the_verdict_ends_what_is_printed(value: ValueView)
    ensures
        ({
            let end = if value.failed {
                "[failed]"@
            } else {
                "[done]"@
            };
            let shown = value.rendering();
            &&& end.is_suffix_of(shown)
            &&& value.text.is_prefix_of(shown)
            &&& shown.len() == value.text.len() + end.len() + if value.text.len() == 0 {
                0int
            } else {
                1
            }
        }),
{
    let end = if value.failed {
        "[failed]"@
    } else {
        "[done]"@
    };
    reveal_strlit("\n");
    let shown = value.rendering();
    assert(shown.subrange(shown.len() - end.len(), shown.len() as int) =~= end);
    assert(shown.subrange(0, value.text.len() as int) =~= value.text);
}

/// Texts stand in the order of their bytes: the first byte that differs
/// decides, and where none does, the shorter text comes first. No text stands
/// before itself.
pub proof fn law_texts_stand_in_the_order_of_their_bytes(
    common: Seq<u8>,
    low: u8,
    high: u8,
    behind_low: Seq<u8>,
    behind_high: Seq<u8>,
)
    requires
        low < high,
    ensures
        stands_before(common + seq![low] + behind_low, common + seq![high] + behind_high),
        !stands_before(common + seq![high] + behind_high, common + seq![low] + behind_low),
        stands_before(common, common + seq![low] + behind_low),
        !stands_before(common + seq![low] + behind_low, common),
        !stands_before(common, common),
    decreases common.len(),
{
    let a = common + seq![low] + behind_low;
    let b = common + seq![high] + behind_high;
    if common.len() > 0 {
        let rest = common.drop_first();
        law_texts_stand_in_the_order_of_their_bytes(rest, low, high, behind_low, behind_high);
        assert(a.drop_first() =~= rest + seq![low] + behind_low);
        assert(b.drop_first() =~= rest + seq![high] + behind_high);
        assert(a[0] == common[0] && b[0] == common[0]);
    } else {
        assert(a[0] == low);
        assert(b[0] == high);
    }
}

/// Help without a command lists every command once, in order and on a line of
/// its own, and then how to get help on one.
pub proof fn law_help_lists_every_command(commands: Seq<UsageView>, tokens: Seq<Seq<char>>)
    requires
        tokens.len() <= 1,
    ensures
        !help(commands, tokens).failed,
        exists|names: Seq<Seq<char>>|
            {
                &&& help(commands, tokens).text == #[trigger] lines(names)
                    + "\ntype 'help <command>' for help of specific command."@
                &&& names.to_multiset() == commands.map_values(
                    |command: UsageView| command.name,
                ).to_multiset()
                &&& forall|i: int, j: int|
                    0 <= i < j < names.len() ==> !stands_before(
                        encode_utf8(#[trigger] names[j]),
                        encode_utf8(#[trigger] names[i]),
                    )
            },
{
    let names = in_order(names_of(commands));
    law_in_order_sorts(names_of(commands));
    assert(names_of(commands) =~= commands.map_values(|command: UsageView| command.name));
    assert forall|i: int, j: int| 0 <= i < j < names.len() implies !stands_before(
        encode_utf8(#[trigger] names[j]),
        encode_utf8(#[trigger] names[i]),
    ) by {
        assert(!sorts_before(names[j], names[i]));
    }
    assert(help(commands, tokens).text == lines(names)
        + "\ntype 'help <command>' for help of specific command."@);
}

/// Lines are the texts one after the other, each with a line break behind it.
pub proof fn law_lines_follow_each_other(before: Seq<Seq<char>>, text: Seq<char>, after: Seq<Seq<char>>)
    ensures
        lines(before + seq![text] + after) == lines(before) + text + "\n"@ + lines(after),
        lines(Seq::empty()) == Seq::<char>::empty(),
    decreases after.len(),
{
    let all = before + seq![text] + after;
    if after.len() > 0 {
        law_lines_follow_each_other(before, text, after.drop_last());
        assert(all.drop_last() =~= before + seq![text] + after.drop_last());
        assert(all.last() == after.last());
        assert(lines(all) =~= lines(before) + text + "\n"@ + lines(after));
    } else {
        assert(all.drop_last() =~= before);
        assert(lines(all) =~= lines(before) + text + "\n"@ + lines(after));
    }
}

/// Warnings are shown as lines, without a line break behind the last.
pub proof fn law_joined_texts_are_lines(all: Seq<Seq<char>>)
    requires
        all.len() > 0,
    ensures
        joined(all) + "\n"@ == lines(all),
    decreases all.len(),
{
    reveal_with_fuel(lines, 2);
    if all.len() > 1 {
        law_joined_texts_are_lines(all.drop_last());
        assert(joined(all) + "\n"@ =~= lines(all));
    } else {
        assert(all.drop_last() =~= Seq::empty());
        assert(joined(all) + "\n"@ =~= lines(all));
    }
}

} // verus!

//! Words and numbers of a command line.

use vstd::prelude::*;

use crate::secret::wipe;

verus! {

/// Whether the character separates words.
pub open spec fn is_space(c: char) -> bool {
    c == ' ' || c == '\t' || c == '\n' || c == '\r'
}

/// Whether the character starts quoted text.
pub open spec fn is_quote(c: char) -> bool {
    c == '\'' || c == '"'
}

/// The words of the rest of a line behind the beginning of a word, which
/// stands in quotes where `quote` says so; `None` where a quote is not closed.
///
/// Spaces separate words. Quoted text belongs to its word without the quotes,
/// spaces and all.
pub open spec fn words(line: Seq<char>, word: Option<Seq<char>>, quote: Option<char>) -> Option<
    Seq<Seq<char>>,
>
    decreases line.len(),
{
    if line.len() == 0 {
        match (quote, word) {
            (Some(_), _) => None,
            (None, Some(word)) => Some(seq![word]),
            (None, None) => Some(Seq::empty()),
        }
    } else {
        let c = line[0];
        let rest = line.drop_first();
        let start = match word {
            Some(word) => word,
            None => Seq::empty(),
        };
        match quote {
            Some(q) => if c == q {
                words(rest, word, None)
            } else {
                words(rest, Some(start.push(c)), quote)
            },
            None => if is_quote(c) {
                words(rest, Some(start), Some(c))
            } else if is_space(c) {
                match (word, words(rest, None, None)) {
                    (Some(word), Some(more)) => Some(seq![word] + more),
                    (None, more) => more,
                    (_, None) => None,
                }
            } else {
                words(rest, Some(start.push(c)), None)
            },
        }
    }
}

/// The words of a line.
pub open spec fn words_of(line: Seq<char>) -> Option<Seq<Seq<char>>> {
    words(line, None, None)
}

/// The texts of strings.
pub open spec fn texts(strings: Seq<String>) -> Seq<Seq<char>> {
    strings.map_values(|s: String| s@)
}

/// Words in front of the words of the rest of a line.
spec fn behind(first: Seq<Seq<char>>, more: Option<Seq<Seq<char>>>) -> Option<Seq<Seq<char>>> {
    match more {
        Some(more) => Some(first + more),
        None => None,
    }
}

/// Splits a line into words; fails where a quote is not closed.
pub fn tokenize(line: &str) -> (result: Result<Vec<String>, &'static str>)
    ensures
        match (result, words_of(line@)) {
            (Ok(tokens), Some(expected)) => texts(tokens@) == expected,
            (Err(message), None) => message@ == "unterminated quote"@,
            _ => false,
        },
{
    let mut tokens: Vec<String> = Vec::new();
    let mut word: Option<String> = None;
    let mut quote: Option<char> = None;
    let mut i: usize = 0;
    let length: usize = line.unicode_len();
    proof {
        assert(line@.skip(0) =~= line@);
        assert(texts(tokens@) =~= Seq::<Seq<char>>::empty());
        if let Some(all) = words_of(line@) {
            assert(Seq::<Seq<char>>::empty() + all =~= all);
        }
    }
    while i < length
        invariant
            i <= length,
            length == line@.len(),
            behind(
                texts(tokens@),
                words(
                    line@.skip(i as int),
                    crate::commissioner::error::optional_text(word),
                    quote,
                ),
            ) == words_of(line@),
        decreases length - i,
    {
        let c: char = line.get_char(i);
        let ghost rest = line@.skip(i as int);
        let ghost before = tokens@;
        proof {
            assert(rest[0] == c);
            assert(rest.drop_first() =~= line@.skip(i + 1));
        }
        if let Some(q) = quote {
            if c == q {
                quote = None;
            } else {
                let mut longer = match word {
                    Some(text) => text,
                    None => String::new(),
                };
                let ghost start = longer@;
                longer.append(line.substring_char(i, i + 1));
                assert(longer@ =~= start.push(c));
                word = Some(longer);
            }
        } else if c == '\'' || c == '"' {
            quote = Some(c);
            if word.is_none() {
                word = Some(String::new());
            }
        } else if c == ' ' || c == '\t' || c == '\n' || c == '\r' {
            if let Some(text) = word {
                proof {
                    let more = words(line@.skip(i + 1), None, None);
                    assert(texts(before.push(text)) =~= texts(before).push(text@));
                    if let Some(more) = more {
                        assert(texts(before) + (seq![text@] + more) =~= texts(before).push(text@)
                            + more);
                    }
                }
                tokens.push(text);
            }
            word = None;
        } else {
            let mut longer = match word {
                Some(text) => text,
                None => String::new(),
            };
            let ghost start = longer@;
            longer.append(line.substring_char(i, i + 1));
            assert(longer@ =~= start.push(c));
            word = Some(longer);
        }
        i = i + 1;
    }
    assert(line@.skip(i as int) =~= Seq::<char>::empty());
    if quote.is_some() {
        return Err("unterminated quote");
    }
    let ghost before = tokens@;
    if let Some(text) = word {
        proof {
            assert(texts(before.push(text)) =~= texts(before) + seq![text@]);
        }
        tokens.push(text);
    } else {
        assert(texts(before) + Seq::<Seq<char>>::empty() =~= texts(before));
    }
    Ok(tokens)
}

/// Wipes words that may hold secrets.
pub fn wipe_tokens(tokens: &mut Vec<String>)
    ensures
        final(tokens)@.len() == old(tokens)@.len(),
        forall|i: int|
            0 <= i < final(tokens)@.len() ==> (#[trigger] final(tokens)@[i])@ == Seq::<
                char,
            >::empty(),
{
    let mut i: usize = 0;
    while i < tokens.len()
        invariant
            i <= tokens@.len(),
            tokens@.len() == old(tokens)@.len(),
            forall|j: int| 0 <= j < i ==> (#[trigger] tokens@[j])@ == Seq::<char>::empty(),
        decreases tokens@.len() - i,
    {
        let mut token = tokens.remove(i);
        wipe(&mut token);
        tokens.insert(i, token);
        i = i + 1;
    }
}

/// The value of a digit; `None` where the character is none in the base.
pub open spec fn digit_value(c: char, base: nat) -> Option<nat> {
    let value = if '0' <= c <= '9' {
        Some((c as nat - '0' as nat) as nat)
    } else if 'a' <= c <= 'f' {
        Some((c as nat - 'a' as nat + 10) as nat)
    } else if 'A' <= c <= 'F' {
        Some((c as nat - 'A' as nat + 10) as nat)
    } else {
        None::<nat>
    };
    match value {
        Some(value) => if value < base {
            Some(value)
        } else {
            None
        },
        None => None,
    }
}

/// The number that digits spell in a base; `None` where a character is no
/// digit. No digits spell 0.
pub open spec fn digits_value(digits: Seq<char>, base: nat) -> Option<nat>
    decreases digits.len(),
{
    if digits.len() == 0 {
        Some(0)
    } else {
        match (digits_value(digits.drop_last(), base), digit_value(digits.last(), base)) {
            (Some(high), Some(low)) => Some(high * base + low),
            _ => None,
        }
    }
}

/// The digits of a number and their base: hexadecimal behind `0x`, decimal
/// otherwise.
pub open spec fn digits_of(text: Seq<char>) -> (Seq<char>, nat) {
    if text.len() >= 2 && text[0] == '0' && text[1] == 'x' {
        (text.skip(2), 16)
    } else {
        (text, 10)
    }
}

/// The number that a text spells, up to a limit; `None` where it spells none or
/// a larger one.
pub open spec fn number_in(text: Seq<char>, limit: nat) -> Option<nat> {
    let (digits, base) = digits_of(text);
    if digits.len() == 0 {
        None
    } else {
        match digits_value(digits, base) {
            Some(value) => if value <= limit {
                Some(value)
            } else {
                None
            },
            None => None,
        }
    }
}

/// A prefix that spells nothing, or too much, spoils the number.
proof fn lemma_prefix_spoils(digits: Seq<char>, base: nat, i: int, limit: nat)
    requires
        0 <= i <= digits.len(),
        base >= 1,
        digits_value(digits.take(i), base) matches Some(value) ==> value > limit,
    ensures
        digits_value(digits, base) matches Some(value) ==> value > limit,
    decreases digits.len() - i,
{
    if i < digits.len() {
        assert(digits.take(i + 1).drop_last() =~= digits.take(i));
        if let Some(high) = digits_value(digits.take(i), base) {
            assert(high * base >= high) by (nonlinear_arith)
                requires
                    base >= 1,
            ;
        }
        lemma_prefix_spoils(digits, base, i + 1, limit);
    } else {
        assert(digits.take(i) =~= digits);
    }
}

fn digit_of(c: char, base: u128) -> (value: Option<u128>)
    requires
        base <= 16,
    ensures
        match (value, digit_value(c, base as nat)) {
            (Some(value), Some(expected)) => value == expected,
            (None, None) => true,
            _ => false,
        },
{
    let value: u128 = if '0' <= c && c <= '9' {
        (c as u32 - '0' as u32) as u128
    } else if 'a' <= c && c <= 'f' {
        (c as u32 - 'a' as u32 + 10) as u128
    } else if 'A' <= c && c <= 'F' {
        (c as u32 - 'A' as u32 + 10) as u128
    } else {
        return None;
    };
    if value < base {
        Some(value)
    } else {
        None
    }
}

fn parse_number(text: &str, limit: u64) -> (number: Option<u64>)
    ensures
        match (number, number_in(text@, limit as nat)) {
            (Some(number), Some(expected)) => number == expected,
            (None, None) => true,
            _ => false,
        },
{
    let length: usize = text.unicode_len();
    let mut start: usize = 0;
    let mut base: u128 = 10;
    if length >= 2 && text.get_char(0) == '0' && text.get_char(1) == 'x' {
        start = 2;
        base = 16;
    }
    if start == length {
        return None;
    }
    let ghost digits = digits_of(text@).0;
    let mut value: u128 = 0;
    let mut i: usize = start;
    assert(digits.take(0) =~= Seq::<char>::empty());
    while i < length
        invariant
            start <= i <= length,
            length == text@.len(),
            digits == digits_of(text@).0,
            base == digits_of(text@).1,
            base == 10 || base == 16,
            digits == text@.skip(start as int),
            digits.len() > 0,
            value <= limit,
            digits_value(digits.take(i - start), base as nat) == Some(value as nat),
        decreases length - i,
    {
        let c: char = text.get_char(i);
        proof {
            assert(digits.take(i - start + 1).drop_last() =~= digits.take(i - start));
            assert(digits.take(i - start + 1).last() == c);
        }
        match digit_of(c, base) {
            None => {
                proof {
                    lemma_prefix_spoils(digits, base as nat, i - start + 1, limit as nat);
                }
                return None;
            },
            Some(digit) => {
                assert(value * base <= 0xffff_ffff_ffff_ffff * 16) by (nonlinear_arith)
                    requires
                        value <= 0xffff_ffff_ffff_ffff,
                        base <= 16,
                ;
                value = value * base + digit;
                if value > limit as u128 {
                    proof {
                        lemma_prefix_spoils(digits, base as nat, i - start + 1, limit as nat);
                    }
                    return None;
                }
            },
        }
        i = i + 1;
    }
    assert(digits.take(i - start) =~= digits);
    Some(value as u64)
}

/// Reads a decimal number, or a hexadecimal one behind `0x`.
pub fn parse_u32(text: &str) -> (number: Option<u32>)
    ensures
        match (number, number_in(text@, u32::MAX as nat)) {
            (Some(number), Some(expected)) => number == expected,
            (None, None) => true,
            _ => false,
        },
{
    match parse_number(text, u32::MAX as u64) {
        Some(number) => Some(number as u32),
        None => None,
    }
}

/// Reads a decimal number, or a hexadecimal one behind `0x`.
pub fn parse_u64(text: &str) -> (number: Option<u64>)
    ensures
        match (number, number_in(text@, u64::MAX as nat)) {
            (Some(number), Some(expected)) => number == expected,
            (None, None) => true,
            _ => false,
        },
{
    parse_number(text, u64::MAX)
}

/// Whether the word selects several networks.
pub open spec fn is_multi_network_flag(word: Seq<char>) -> bool {
    word == "--nwk"@ || word == "--dom"@
}

/// Whether a command line selects several networks.
pub fn has_multi_network_flag(tokens: &Vec<String>) -> (found: bool)
    ensures
        found == exists|i: int|
            0 <= i < tokens@.len() && is_multi_network_flag(#[trigger] texts(tokens@)[i]),
{
    let mut i: usize = 0;
    while i < tokens.len()
        invariant
            i <= tokens@.len(),
            forall|j: int| 0 <= j < i ==> !is_multi_network_flag(#[trigger] texts(tokens@)[j]),
        decreases tokens@.len() - i,
    {
        assert(texts(tokens@)[i as int] == tokens@[i as int]@);
        if tokens[i] == String::from_str("--nwk") || tokens[i] == String::from_str("--dom") {
            return true;
        }
        i = i + 1;
    }
    false
}

/// Whether the word names a field of the operational dataset.
pub open spec fn names_op_field(word: Seq<char>) -> bool {
    ||| word == "activetimestamp"@
    ||| word == "channel"@
    ||| word == "channelmask"@
    ||| word == "xpanid"@
    ||| word == "meshlocalprefix"@
    ||| word == "networkmasterkey"@
    ||| word == "networkname"@
    ||| word == "panid"@
    ||| word == "pskc"@
    ||| word == "securitypolicy"@
}

/// Whether the word names a field of the operational dataset.
pub fn is_known_op_field(name: &str) -> (known: bool)
    ensures
        known == names_op_field(name@),
{
    let name = String::from_str(name);
    name == String::from_str("activetimestamp") || name == String::from_str("channel") || name
        == String::from_str("channelmask") || name == String::from_str("xpanid") || name
        == String::from_str("meshlocalprefix") || name == String::from_str("networkmasterkey")
        || name == String::from_str("networkname") || name == String::from_str("panid") || name
        == String::from_str("pskc") || name == String::from_str("securitypolicy")
}

} // verus!

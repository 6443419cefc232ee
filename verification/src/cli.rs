//! The command line: three arguments that name a command and what it needs.

use vstd::prelude::*;
use vstd::string::is_ascii_spec_bytes;

use crate::error::BitcoinError;

verus! {

/// A command that the command line can ask for.
pub enum CliCommand {
    /// Send `amount` to `address`.
    Send { amount: u64, address: String },
    /// Ask for the balance.
    Balance,
}

/// What a [`CliCommand`] holds.
pub enum CliCommandView {
    Send { amount: u64, address: Seq<char> },
    Balance,
}

impl View for CliCommand {
    type V = CliCommandView;

    open spec fn view(&self) -> CliCommandView {
        match self {
            CliCommand::Send { amount, address } => CliCommandView::Send {
                amount: *amount,
                address: address@,
            },
            CliCommand::Balance => CliCommandView::Balance,
        }
    }
}

/// `c` is one of the ten decimal digits.
pub open spec fn is_digit(c: char) -> bool {
    '0' <= c <= '9'
}

/// Every character of `text` is a decimal digit.
pub open spec fn all_digits(text: Seq<char>) -> bool {
    forall|i: int| 0 <= i < text.len() ==> is_digit(#[trigger] text[i])
}

/// The number that a string of decimal digits spells.
pub open spec fn decimal_value(digits: Seq<char>) -> nat
    decreases digits.len(),
{
    if digits.len() == 0 {
        0
    } else {
        10 * decimal_value(digits.drop_last()) + (digits.last() as nat - '0' as nat) as nat
    }
}

/// The amount that `text` spells: an optional `+`, then one or more decimal
/// digits whose value fits 64 bits. Any other text spells no amount.
pub open spec fn spec_parse_amount(text: Seq<char>) -> Option<u64> {
    let digits = if text.len() > 0 && text[0] == '+' {
        text.skip(1)
    } else {
        text
    };
    if digits.len() > 0 && all_digits(digits) && decimal_value(digits) <= u64::MAX {
        Some(decimal_value(digits) as u64)
    } else {
        None
    }
}

/// What three arguments ask for, or the message that says why they ask for nothing.
///
/// There must be exactly three arguments, whatever the command: `balance`
/// needs none of the other two and ignores them.
pub open spec fn spec_parse_cli_args(args: Seq<Seq<char>>) -> Result<CliCommandView, Seq<char>> {
    if args.len() != 3 {
        Err("Too few args"@)
    } else if args[0] == "send"@ {
        match spec_parse_amount(args[1]) {
            Some(amount) => Ok(CliCommandView::Send { amount, address: args[2] }),
            None => Err("Failed to parse amount"@),
        }
    } else if args[0] == "balance"@ {
        Ok(CliCommandView::Balance)
    } else {
        Err("Unknown command"@)
    }
}

/// The texts of a list of arguments, in the same order.
pub open spec fn argument_texts(args: Seq<String>) -> Seq<Seq<char>> {
    Seq::new(args.len(), |i: int| args[i]@)
}

/// A string of digits spells at least as much as any of its beginnings.
proof fn lemma_decimal_value_grows(digits: Seq<char>, shorter: int)
    requires
        all_digits(digits),
        0 <= shorter <= digits.len(),
    ensures
        decimal_value(digits.take(shorter)) <= decimal_value(digits),
    decreases digits.len(),
{
    if shorter == digits.len() {
        assert(digits.take(shorter) =~= digits);
    } else {
        lemma_decimal_value_grows(digits.drop_last(), shorter);
        assert(digits.drop_last().take(shorter) =~= digits.take(shorter));
    }
}

/// Parses an amount: an optional `+`, then decimal digits that fit 64 bits.
pub fn parse_amount(text: &str) -> (amount: Option<u64>)
    ensures
        amount == spec_parse_amount(text@),
{
    let ghost chars = text@;
    let ghost digits = if chars.len() > 0 && chars[0] == '+' {
        chars.skip(1)
    } else {
        chars
    };
    if !text.is_ascii() {
        proof {
            let i = choose|i: int|
                0 <= i < chars.len() && !('\0' <= #[trigger] chars[i] <= '\u{7f}');
            if chars[0] == '+' {
                assert(!is_digit(digits[i - 1]));
            } else {
                assert(!is_digit(digits[i]));
            }
        }
        return None;
    }
    let bytes = text.as_bytes();
    proof {
        is_ascii_spec_bytes(text);
    }
    let len: usize = bytes.len();
    let start: usize = if len > 0 && bytes[0] == 43 {
        1
    } else {
        0
    };
    assert(digits == chars.skip(start as int));
    if start == len {
        return None;
    }
    let mut value: u64 = 0;
    let mut i: usize = start;
    assert(digits.take(0) =~= Seq::empty());
    while i < len
        invariant
            start <= i <= len,
            len == chars.len(),
            chars == text@,
            digits == chars.skip(start as int),
            digits == if chars.len() > 0 && chars[0] == '+' {
                chars.skip(1)
            } else {
                chars
            },
            bytes@ == Seq::new(chars.len(), |k: int| chars[k] as u8),
            forall|k: int| 0 <= k < chars.len() ==> '\0' <= #[trigger] chars[k] <= '\u{7f}',
            all_digits(digits.take(i - start)),
            value == decimal_value(digits.take(i - start)),
        decreases len - i,
    {
        let byte: u8 = bytes[i];
        assert(byte == chars[i as int] as u8);
        assert(digits[i - start] == chars[i as int]);
        if byte < 48 || byte > 57 {
            assert(!is_digit(digits[i - start]));
            return None;
        }
        let digit: u64 = (byte - 48) as u64;
        proof {
            let longer = digits.take(i - start + 1);
            assert(longer.drop_last() =~= digits.take(i - start));
            assert(longer.last() == chars[i as int]);
            assert(decimal_value(longer) == 10 * value + digit);
            assert(all_digits(longer));
            if all_digits(digits) {
                lemma_decimal_value_grows(digits, i - start + 1);
            }
        }
        if value > (u64::MAX - digit) / 10 {
            return None;
        }
        value = value * 10 + digit;
        i += 1;
    }
    assert(digits.take(i - start) =~= digits);
    Some(value)
}

/// Parses the three arguments of a command line.
///
/// `send` takes an amount and an address; `balance` ignores the two arguments
/// after it. Every failure is a `ParseError` whose message says what failed.
pub fn parse_cli_args(args: &[String]) -> (result: Result<CliCommand, BitcoinError>)
    ensures
        match result {
            Ok(command) => spec_parse_cli_args(argument_texts(args@)) == Ok::<
                CliCommandView,
                Seq<char>,
            >(command@),
            Err(error) => error matches BitcoinError::ParseError(message) && spec_parse_cli_args(
                argument_texts(args@),
            ) == Err::<CliCommandView, Seq<char>>(message@),
        },
{
    if args.len() != 3 {
        return Err(BitcoinError::ParseError("Too few args".to_owned()));
    }
    let send = "send".to_owned();
    let balance = "balance".to_owned();
    if args[0] == send {
        match parse_amount(args[1].as_str()) {
            Some(amount) => Ok(CliCommand::Send { amount, address: args[2].clone() }),
            None => Err(BitcoinError::ParseError("Failed to parse amount".to_owned())),
        }
    } else if args[0] == balance {
        Ok(CliCommand::Balance)
    } else {
        Err(BitcoinError::ParseError("Unknown command".to_owned()))
    }
}

} // verus!

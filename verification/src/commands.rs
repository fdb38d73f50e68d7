//! Display-format commands. Inputs opening with the sentinel `:` are
//! control commands, disjoint from arithmetic input: quitting, help, and
//! setting the numeric display format (normal or scientific notation,
//! with a chosen number of decimal places).

use vstd::prelude::*;

use crate::text::chars_to_string;
use crate::text::str_to_chars;
use crate::text::subrange_chars;

verus! {

/// Display format for numbers.
#[derive(Clone, Copy, PartialEq, Eq, Structural)]
pub enum DisplayFormat {
    Normal,
    Scientific,
}

/// Result of executing a command.
#[derive(Debug, PartialEq)]
pub enum CommandResult {
    Quit,
    Help,
    /// Message about the format change.
    FormatChanged(String),
}

/// An ASCII decimal digit.
pub open spec fn digit_char(c: char) -> bool {
    '0' <= c && c <= '9'
}

/// The numeric value of an ASCII decimal digit.
pub open spec fn digit_val(c: char) -> nat {
    (c as int - '0' as int) as nat
}

/// Text made only of decimal digits.
pub open spec fn all_digits(s: Seq<char>) -> bool {
    forall|i: int| 0 <= i < s.len() ==> digit_char(s[i])
}

/// The number that a non-empty digit string denotes, most significant
/// digit first.
pub open spec fn digits_val(s: Seq<char>) -> nat
    decreases s.len(),
{
    if s.len() == 0 {
        0
    } else {
        digits_val(s.drop_last()) * 10 + digit_val(s.last())
    }
}

/// The decimal digit character for a value below ten.
pub open spec fn dec_digit(n: nat) -> char {
    if n == 0 {
        '0'
    } else if n == 1 {
        '1'
    } else if n == 2 {
        '2'
    } else if n == 3 {
        '3'
    } else if n == 4 {
        '4'
    } else if n == 5 {
        '5'
    } else if n == 6 {
        '6'
    } else if n == 7 {
        '7'
    } else if n == 8 {
        '8'
    } else {
        '9'
    }
}

/// The decimal rendering of a natural number, without leading zeros.
pub open spec fn dec_str(n: nat) -> Seq<char>
    decreases n,
{
    if n < 10 {
        seq![dec_digit(n)]
    } else {
        dec_str(n / 10).push(dec_digit(n % 10))
    }
}

/// A quit command: `:q`, case-insensitively.
pub open spec fn is_quit_cmd(s: Seq<char>) -> bool {
    s.len() == 2 && s[0] == ':' && (s[1] == 'q' || s[1] == 'Q')
}

/// The help command `:h`.
pub open spec fn is_help_cmd(s: Seq<char>) -> bool {
    s.len() == 2 && s[0] == ':' && s[1] == 'h'
}

/// A format command: `:d` or `:s`, possibly followed by a decimal count.
pub open spec fn is_format_cmd(s: Seq<char>) -> bool {
    s.len() >= 2 && s[0] == ':' && (s[1] == 'd' || s[1] == 's')
}

/// A well-formed decimal-count suffix: either omitted, or a digit string
/// whose value fits the decimal-places field.
pub open spec fn valid_count(suffix: Seq<char>) -> bool {
    suffix.len() == 0 || (all_digits(suffix) && digits_val(suffix) <= u32::MAX)
}

/// The decimal count that a suffix selects; 3 when omitted.
pub open spec fn count_of(suffix: Seq<char>) -> nat {
    if suffix.len() == 0 {
        3
    } else {
        digits_val(suffix)
    }
}

/// Confirmation message for a format change.
pub open spec fn msg_format_set(fmt: DisplayFormat, n: nat) -> Seq<char> {
    (if fmt == DisplayFormat::Normal {
        "Set to normal notation with "@
    } else {
        "Set to scientific notation with "@
    }) + dec_str(n) + " decimal places"@
}

/// Error message for a malformed or overflowing decimal count.
pub open spec fn msg_invalid_count(suffix: Seq<char>) -> Seq<char> {
    "Invalid decimal count: '"@ + suffix + "'"@
}

/// Error message for an unrecognized command.
pub open spec fn msg_unknown(input: Seq<char>) -> Seq<char> {
    "Unknown command: '"@ + input + "'"@
}

/// Handles calculator commands and the number-formatting settings.
pub struct CommandHandler {
    display_format: DisplayFormat,
    decimal_places: u32,
}

impl CommandHandler {
    /// The current display format.
    pub closed spec fn spec_format(&self) -> DisplayFormat {
        self.display_format
    }

    /// The current number of decimal places.
    pub closed spec fn spec_decimals(&self) -> u32 {
        self.decimal_places
    }

    /// Creates a handler with the default settings: normal notation,
    /// three decimal places.
    pub fn new() -> (h: CommandHandler)
        ensures
            h.spec_format() == DisplayFormat::Normal,
            h.spec_decimals() == 3,
    {
        CommandHandler { display_format: DisplayFormat::Normal, decimal_places: 3 }
    }

    /// The current display format, for the presentation layer.
    pub fn display_format(&self) -> (r: DisplayFormat)
        ensures
            r == self.spec_format(),
    {
        self.display_format
    }

    /// The current number of decimal places, for the presentation layer.
    pub fn decimal_places(&self) -> (r: u32)
        ensures
            r == self.spec_decimals(),
    {
        self.decimal_places
    }

    /// Checks whether the input is a command (starts with `:`).
    pub fn is_command(input: &str) -> (r: bool)
        ensures
            r == (input@.len() > 0 && input@[0] == ':'),
    {
        let n = input.unicode_len();
        n > 0 && input.get_char(0) == ':'
    }

    /// Executes a command: `:q` quits, `:h` shows help, `:d<N>` selects
    /// normal notation with `N` decimal places, `:s<N>` scientific
    /// notation, with `N` defaulting to 3 when omitted. A malformed or
    /// overflowing count and an unrecognized command fail without
    /// touching the settings.
    pub fn execute_command(&mut self, input: &str) -> (r: Result<CommandResult, String>)
        ensures
            ({
                let s = input@;
                if is_quit_cmd(s) {
                    r matches Ok(CommandResult::Quit) && *final (self) == *old(self)
                } else if is_help_cmd(s) {
                    r matches Ok(CommandResult::Help) && *final (self) == *old(self)
                } else if is_format_cmd(s) {
                    let fmt = if s[1] == 'd' {
                        DisplayFormat::Normal
                    } else {
                        DisplayFormat::Scientific
                    };
                    let suffix = s.skip(2);
                    if valid_count(suffix) {
                        &&& r matches Ok(CommandResult::FormatChanged(m)) && m@ == msg_format_set(
                            fmt,
                            count_of(suffix),
                        )
                        &&& final (self).spec_format() == fmt
                        &&& final (self).spec_decimals() as nat == count_of(suffix)
                    } else {
                        &&& r matches Err(e) && e@ == msg_invalid_count(suffix)
                        &&& *final (self) == *old(self)
                    }
                } else {
                    r matches Err(e) && e@ == msg_unknown(s) && *final (self) == *old(self)
                }
            }),
    {
        let chars = str_to_chars(input);
        if chars.len() == 2 && chars[0] == ':' && (chars[1] == 'q' || chars[1] == 'Q') {
            return Ok(CommandResult::Quit);
        }
        if chars.len() == 2 && chars[0] == ':' && chars[1] == 'h' {
            return Ok(CommandResult::Help);
        }
        if chars.len() >= 2 && chars[0] == ':' && (chars[1] == 'd' || chars[1] == 's') {
            let is_normal = chars[1] == 'd';
            let suffix = subrange_chars(&chars, 2, chars.len());
            proof {
                assert(suffix@ =~= input@.skip(2));
            }
            match parse_count(&suffix) {
                Some(count) => {
                    self.display_format = if is_normal {
                        DisplayFormat::Normal
                    } else {
                        DisplayFormat::Scientific
                    };
                    self.decimal_places = count;
                    let lead: &str = if is_normal {
                        "Set to normal notation with "
                    } else {
                        "Set to scientific notation with "
                    };
                    let dec = u32_to_dec(count);
                    let dec_s = chars_to_string(&dec);
                    let msg = String::from_str(lead).concat(dec_s.as_str()).concat(
                        " decimal places",
                    );
                    proof {
                        let fmt = if input@[1] == 'd' {
                            DisplayFormat::Normal
                        } else {
                            DisplayFormat::Scientific
                        };
                        assert(msg@ =~= msg_format_set(fmt, count_of(input@.skip(2))));
                    }
                    return Ok(CommandResult::FormatChanged(msg));
                },
                None => {
                    let suffix_s = chars_to_string(&suffix);
                    let msg = String::from_str("Invalid decimal count: '").concat(
                        suffix_s.as_str(),
                    ).concat("'");
                    proof {
                        assert(msg@ =~= msg_invalid_count(input@.skip(2)));
                    }
                    return Err(msg);
                },
            }
        }
        let msg = String::from_str("Unknown command: '").concat(input).concat("'");
        proof {
            assert(msg@ =~= msg_unknown(input@));
        }
        Err(msg)
    }
}

/// The digit character of a value below ten.
fn digit_to_char(d: u32) -> (c: char)
    requires
        d < 10,
    ensures
        c == dec_digit(d as nat),
{
    if d == 0 {
        '0'
    } else if d == 1 {
        '1'
    } else if d == 2 {
        '2'
    } else if d == 3 {
        '3'
    } else if d == 4 {
        '4'
    } else if d == 5 {
        '5'
    } else if d == 6 {
        '6'
    } else if d == 7 {
        '7'
    } else if d == 8 {
        '8'
    } else {
        '9'
    }
}

/// Renders a number in decimal, for the confirmation messages.
fn u32_to_dec(n: u32) -> (r: Vec<char>)
    ensures
        r@ == dec_str(n as nat),
{
    if n == 0 {
        let mut r: Vec<char> = Vec::new();
        r.push('0');
        proof {
            assert(r@ =~= seq!['0']);
            assert(dec_str(0) =~= seq!['0']);
        }
        return r;
    }
    let mut out: Vec<char> = Vec::new();
    let mut m: u32 = n;
    proof {
        assert(dec_str(n as nat) =~= dec_str(n as nat) + out@);
    }
    while m > 0
        invariant
            m > 0 ==> dec_str(n as nat) == dec_str(m as nat) + out@,
            m == 0 ==> dec_str(n as nat) == out@,
        decreases m,
    {
        let ghost mp = m as nat;
        let ghost out0 = out@;
        let d = m % 10;
        let c = digit_to_char(d);
        out.insert(0, c);
        m = m / 10;
        proof {
            assert(out@ =~= seq![c] + out0);
            if mp < 10 {
                assert(m == 0);
                assert(dec_str(mp) == seq![dec_digit(mp)]);
                assert(dec_str(n as nat) =~= out@);
            } else {
                assert(m as nat == mp / 10 && d as nat == mp % 10);
                assert(dec_str(mp) == dec_str(mp / 10).push(dec_digit(mp % 10)));
                assert(dec_str(mp / 10).push(dec_digit(mp % 10)) =~= dec_str(mp / 10) + seq![
                    dec_digit(mp % 10),
                ]);
                assert(dec_str(n as nat) =~= dec_str(m as nat) + out@);
            }
        }
    }
    out
}

proof fn lemma_digits_val_prefix(s: Seq<char>, k: int)
    requires
        0 <= k <= s.len(),
    ensures
        digits_val(s.take(k)) <= digits_val(s),
    decreases s.len() - k,
{
    if k < s.len() {
        assert(s.take(k + 1).drop_last() =~= s.take(k));
        assert(s.take(k + 1).last() == s[k]);
        assert(digits_val(s.take(k + 1)) == digits_val(s.take(k)) * 10 + digit_val(s[k]));
        lemma_digits_val_prefix(s, k + 1);
    } else {
        assert(s.take(k) =~= s);
    }
}

/// Parses a decimal-count suffix: the value of a digit string, 3 when
/// the suffix is omitted, nothing when it is malformed or overflows.
#[verifier::loop_isolation(false)]
fn parse_count(suffix: &Vec<char>) -> (r: Option<u32>)
    ensures
        match r {
            Some(v) => valid_count(suffix@) && v as nat == count_of(suffix@),
            None => !valid_count(suffix@),
        },
{
    if suffix.len() == 0 {
        return Some(3);
    }
    let mut i: usize = 0;
    while i < suffix.len()
        invariant
            0 <= i <= suffix@.len(),
            forall|j: int| 0 <= j < i ==> digit_char(suffix@[j]),
        decreases suffix@.len() - i,
    {
        let c = suffix[i];
        if !('0' <= c && c <= '9') {
            proof {
                assert(!digit_char(suffix@[i as int]));
            }
            return None;
        }
        i += 1;
    }
    assert(all_digits(suffix@));
    let mut acc: u32 = 0;
    let mut k: usize = 0;
    while k < suffix.len()
        invariant
            0 <= k <= suffix@.len(),
            acc as nat == digits_val(suffix@.take(k as int)),
        decreases suffix@.len() - k,
    {
        let c = suffix[k];
        let d: u32 = (c as u32) - 48;
        proof {
            assert(digit_char(suffix@[k as int]));
            assert(d as nat == digit_val(suffix@[k as int]));
            assert(suffix@.take(k + 1).drop_last() =~= suffix@.take(k as int));
            assert(suffix@.take(k + 1).last() == suffix@[k as int]);
            assert(digits_val(suffix@.take(k + 1)) == (acc as nat) * 10 + d as nat);
        }
        if acc > 429496729 || (acc == 429496729 && d > 5) {
            proof {
                assert(digits_val(suffix@.take(k + 1)) > u32::MAX);
                lemma_digits_val_prefix(suffix@, k + 1);
                assert(digits_val(suffix@) > u32::MAX);
            }
            return None;
        }
        acc = acc * 10 + d;
        k += 1;
    }
    proof {
        assert(suffix@.take(suffix@.len() as int) =~= suffix@);
    }
    Some(acc)
}

} // verus!

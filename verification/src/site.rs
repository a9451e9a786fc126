//! The place in a program's text from which a line of overlay text is sent.

use vstd::prelude::*;

verus! {

/// What identifies a call site in contracts: the characters of the file's
/// name, the line and the column.
pub type SiteView = (Seq<char>, u32, u32);

/// A call site: the source file, and the line and column in it.
///
/// A message refreshed from a call site replaces the message that the same
/// call site sent before.
#[derive(Debug, Hash, PartialEq, Eq)]
pub struct InvocationSiteKey {
    pub file: &'static str,
    pub line: u32,
    pub column: u32,
}

impl View for InvocationSiteKey {
    type V = SiteView;

    open spec fn view(&self) -> SiteView {
        (self.file@, self.line, self.column)
    }
}

/// The character that stands for a digit.
pub open spec fn digit_char(digit: nat) -> char {
    if digit == 0 {
        '0'
    } else if digit == 1 {
        '1'
    } else if digit == 2 {
        '2'
    } else if digit == 3 {
        '3'
    } else if digit == 4 {
        '4'
    } else if digit == 5 {
        '5'
    } else if digit == 6 {
        '6'
    } else if digit == 7 {
        '7'
    } else if digit == 8 {
        '8'
    } else {
        '9'
    }
}

/// A number written in decimal digits, without leading zeros.
pub open spec fn decimal(number: nat) -> Seq<char>
    decreases number,
{
    if number < 10 {
        seq![digit_char(number)]
    } else {
        decimal(number / 10).push(digit_char(number % 10))
    }
}

/// How a call site is written at the head of its messages: the file, the
/// line and the column, separated by colons, in square brackets.
pub open spec fn site_label(site: SiteView) -> Seq<char> {
    seq!['['] + site.0 + seq![':'] + decimal(site.1 as nat) + seq![':'] + decimal(site.2 as nat)
        + seq![']']
}

/// The text of one digit.
fn digit_text(digit: u32) -> (text: &'static str)
    requires
        digit < 10,
    ensures
        text@ == seq![digit_char(digit as nat)],
{
    proof {
        reveal_strlit("0");
        reveal_strlit("1");
        reveal_strlit("2");
        reveal_strlit("3");
        reveal_strlit("4");
        reveal_strlit("5");
        reveal_strlit("6");
        reveal_strlit("7");
        reveal_strlit("8");
        reveal_strlit("9");
    }
    let text = if digit == 0 {
        "0"
    } else if digit == 1 {
        "1"
    } else if digit == 2 {
        "2"
    } else if digit == 3 {
        "3"
    } else if digit == 4 {
        "4"
    } else if digit == 5 {
        "5"
    } else if digit == 6 {
        "6"
    } else if digit == 7 {
        "7"
    } else if digit == 8 {
        "8"
    } else {
        "9"
    };
    assert(text@ =~= seq![digit_char(digit as nat)]);
    text
}

/// Writes `number` in decimal digits at the end of `out`.
fn append_decimal(out: &mut String, number: u32)
    ensures
        final(out)@ == old(out)@ + decimal(number as nat),
    decreases number,
{
    if number >= 10 {
        append_decimal(out, number / 10);
    }
    out.append(digit_text(number % 10));
    proof {
        if number >= 10 {
            assert(final(out)@ =~= old(out)@ + decimal(number as nat)) by {
                assert(out@ =~= old(out)@ + decimal((number / 10) as nat).push(
                    digit_char((number % 10) as nat),
                ));
            }
        } else {
            assert(out@ =~= old(out)@ + decimal(number as nat));
        }
    }
}

impl InvocationSiteKey {
    /// The call site as it is written at the head of its messages.
    pub fn to_string(&self) -> (label: String)
        ensures
            label@ == site_label(self@),
    {
        proof {
            reveal_strlit("[");
            reveal_strlit(":");
            reveal_strlit("]");
        }
        let mut label = String::from_str("[");
        label.append(self.file);
        label.append(":");
        append_decimal(&mut label, self.line);
        label.append(":");
        append_decimal(&mut label, self.column);
        label.append("]");
        assert(label@ =~= site_label(self@));
        label
    }
}

} // verus!

//! The line of text that reports the statistics of one file.

use crate::content::{Counts, FileContent};
use vstd::prelude::*;
use vstd::string::StringExecFns;

verus! {

/// The character that writes the digit `d`.
pub open spec fn digit(d: nat) -> char
    recommends
        d < 10,
{
    ('0' as nat + d) as char
}

/// The decimal numeral of `n`: its digits from the most significant to the
/// least, without leading zeros.
pub open spec fn decimal(n: nat) -> Seq<char>
    decreases n,
{
    if n < 10 {
        seq![digit(n)]
    } else {
        decimal(n / 10).push(digit(n % 10))
    }
}

/// The line that reports the counts of the file called `name`.
pub open spec fn file_info(name: Seq<char>, counts: Counts) -> Seq<char> {
    "File \""@ + name + "\" contains "@ + decimal(counts.length) + " characters where "@ + decimal(
        counts.whitespaces,
    ) + " are whitespace characters"@
}

/// The text of one digit.
fn digit_text(d: usize) -> (text: &'static str)
    requires
        d < 10,
    ensures
        text@ == seq![digit(d as nat)],
{
    proof {
        reveal_strlit("0");
        reveal_strlit("1");
        reveal_strlit("2");
        reveal_strlit("3");
        reveal_strlit("4");
        reveal_strlit("5");
        reveal_strlit("6");
        reveal_strlit("7");
        reveal_strlit("8");
        reveal_strlit("9");
    }
    let text = match d {
        0 => "0",
        1 => "1",
        2 => "2",
        3 => "3",
        4 => "4",
        5 => "5",
        6 => "6",
        7 => "7",
        8 => "8",
        _ => "9",
    };
    assert(text@ =~= seq![digit(d as nat)]);
    text
}

/// Writes the decimal numeral of `n` at the end of `text`.
fn append_decimal(text: &mut String, n: usize)
    ensures
        final(text)@ == old(text)@ + decimal(n as nat),
    decreases n,
{
    if n >= 10 {
        append_decimal(text, n / 10);
    }
    text.append(digit_text(n % 10));
    assert(text@ =~= old(text)@ + decimal(n as nat));
}

/// Writes the line that reports the statistics of the file called
/// `file_name`.
pub fn file_info_line(file_name: &str, file_content: &FileContent) -> (line: String)
    ensures
        line@ == file_info(file_name@, file_content@),
{
    let mut line = String::from_str("File \"");
    line.append(file_name);
    line.append("\" contains ");
    append_decimal(&mut line, file_content.length());
    line.append(" characters where ");
    append_decimal(&mut line, file_content.whitespaces());
    line.append(" are whitespace characters");
    assert(line@ =~= file_info(file_name@, file_content@));
    line
}

} // verus!

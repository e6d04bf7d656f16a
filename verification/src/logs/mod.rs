use vstd::prelude::*;
use crate::clock::local_date;
use crate::config::LoggingSettings;
use crate::rules::is_word;
use crate::text::{chars_of, push_char};

pub mod dual_writer;

verus! {

/// Where the log is written besides the standard output.
#[derive(Debug, Clone, Copy, PartialEq, Eq, Structural)]
pub enum LogMode {
    /// Into the file at the configured path.
    File,
    /// Into a new file in the directory at the configured path.
    Dir,
    /// Nowhere else.
    Stdout,
}

/// The mode that the word `save_as` of the settings asks for: `file`, `dir`,
/// or the standard output alone for any other word.
pub open spec fn log_mode_of(save_as: Seq<char>) -> LogMode {
    if save_as == seq!['f', 'i', 'l', 'e'] {
        LogMode::File
    } else if save_as == seq!['d', 'i', 'r'] {
        LogMode::Dir
    } else {
        LogMode::Stdout
    }
}

/// The character of a decimal digit.
pub open spec fn digit_char(d: int) -> char {
    (d + 48) as char
}

/// A number in decimal digits, without zeros in front.
pub open spec fn decimal(n: nat) -> Seq<char>
    decreases n,
{
    if n < 10 {
        seq![digit_char(n as int)]
    } else {
        decimal(n / 10).push(digit_char((n % 10) as int))
    }
}

/// The name of the log file with the number `index` of the day `date`: the
/// date, a hyphen, the number, and `.log`.
pub open spec fn log_name(date: Seq<char>, index: nat) -> Seq<char> {
    date + seq!['-'] + decimal(index) + seq!['.', 'l', 'o', 'g']
}

/// The mode in which the log is saved.
pub fn log_mode(settings: &LoggingSettings) -> (mode: LogMode)
    ensures
        mode == log_mode_of(settings.save_as@),
{
    let word = chars_of(settings.save_as.as_str());
    if is_word(&word, 'f', 'i', 'l', 'e') {
        LogMode::File
    } else if word.len() == 3 && word[0] == 'd' && word[1] == 'i' && word[2] == 'r' {
        assert(word@ =~= seq!['d', 'i', 'r']);
        LogMode::Dir
    } else {
        if word.len() == 3 {
            assert(seq!['d', 'i', 'r'][0] == 'd');
            assert(seq!['d', 'i', 'r'][1] == 'i');
            assert(seq!['d', 'i', 'r'][2] == 'r');
        } else {
            assert(seq!['d', 'i', 'r'].len() == 3);
        }
        LogMode::Stdout
    }
}

fn push_decimal(out: &mut String, n: u64)
    ensures
        final(out)@ == old(out)@ + decimal(n as nat),
    decreases n,
{
    if n >= 10 {
        push_decimal(out, n / 10);
    }
    let d: u8 = (n % 10) as u8;
    push_char(out, (d + 48) as char);
    assert(out@ =~= old(out)@ + decimal(n as nat));
}

/// The name of the log file with the number `index` of the day `date`.
pub fn log_file_name(date: &str, index: u64) -> (name: String)
    ensures
        name@ == log_name(date@, index as nat),
{
    let mut name = date.to_owned();
    push_char(&mut name, '-');
    push_decimal(&mut name, index);
    push_char(&mut name, '.');
    push_char(&mut name, 'l');
    push_char(&mut name, 'o');
    push_char(&mut name, 'g');
    assert(name@ =~= log_name(date@, index as nat));
    name
}

/// The name of the log file with the number `index` of today, by the system
/// clock and the local time zone.
pub fn todays_log_file_name(index: u64) -> (name: String)
    ensures
        exists|date: Seq<char>| name@ == #[trigger] log_name(date, index as nat),
{
    let date = local_date();
    let name = log_file_name(date.as_str(), index);
    assert(name@ == log_name(date@, index as nat));
    name
}

} // verus!

//! Dates and times on reports and on the names of the files that the tool
//! writes, read from the local clock.
use vstd::prelude::*;
use crate::launcher::push_str;
use crate::text::{is_digit, spec_lowercase, string_from_chars, to_lowercase};

verus! {

/// The clock formats that the tool uses.
pub open spec fn known_clock_format(fmt: Seq<char>) -> bool {
    ||| fmt == "%d/%m/%Y"@
    ||| fmt == "%d-%m-%Y"@
    ||| fmt == "%I:%M %p"@
    ||| fmt == "%I-%M-%p"@
}

/// `s[i]` and `s[i + 1]` are decimal digits whose value lies in `lo..=hi`.
pub open spec fn two_digits_in(s: Seq<char>, i: int, lo: int, hi: int) -> bool {
    &&& is_digit(s[i])
    &&& is_digit(s[i + 1])
    &&& lo <= (s[i] as int - '0' as int) * 10 + (s[i + 1] as int - '0' as int) <= hi
}

/// A date written as day, `sep`, month, `sep`, year (at least four
/// characters).
pub open spec fn date_shape(s: Seq<char>, sep: char) -> bool {
    &&& s.len() >= 10
    &&& two_digits_in(s, 0, 1, 31)
    &&& s[2] == sep
    &&& two_digits_in(s, 3, 1, 12)
    &&& s[5] == sep
}

/// A time written as the hour on a 12-hour clock, `sep1`, the minute,
/// `sep2`, then `AM` or `PM`.
pub open spec fn time_shape(s: Seq<char>, sep1: char, sep2: char) -> bool {
    &&& s.len() == 8
    &&& two_digits_in(s, 0, 1, 12)
    &&& s[2] == sep1
    &&& two_digits_in(s, 3, 0, 59)
    &&& s[5] == sep2
    &&& (s[6] == 'A' || s[6] == 'P')
    &&& s[7] == 'M'
}

/// What the local time written in one of the known formats looks like.
pub open spec fn clock_text_shape(fmt: Seq<char>, s: Seq<char>) -> bool {
    if fmt == "%d/%m/%Y"@ {
        date_shape(s, '/')
    } else if fmt == "%d-%m-%Y"@ {
        date_shape(s, '-')
    } else if fmt == "%I:%M %p"@ {
        time_shape(s, ':', ' ')
    } else {
        time_shape(s, '-', '-')
    }
}

/// The known clock formats differ from one another.
proof fn lemma_formats_differ()
    ensures
        "%d-%m-%Y"@ != "%d/%m/%Y"@,
        "%I:%M %p"@ != "%d/%m/%Y"@,
        "%I:%M %p"@ != "%d-%m-%Y"@,
        "%I-%M-%p"@ != "%d/%m/%Y"@,
        "%I-%M-%p"@ != "%d-%m-%Y"@,
        "%I-%M-%p"@ != "%I:%M %p"@,
{
    reveal_strlit("%d/%m/%Y");
    reveal_strlit("%I:%M %p");
    reveal_strlit("%d-%m-%Y");
    reveal_strlit("%I-%M-%p");
    assert("%d-%m-%Y"@[2] != "%d/%m/%Y"@[2]);
    assert("%I:%M %p"@[1] != "%d/%m/%Y"@[1]);
    assert("%I:%M %p"@[1] != "%d-%m-%Y"@[1]);
    assert("%I-%M-%p"@[1] != "%d/%m/%Y"@[1]);
    assert("%I-%M-%p"@[1] != "%d-%m-%Y"@[1]);
    assert("%I-%M-%p"@[2] != "%I:%M %p"@[2]);
}

/// `chrono::Local::now().format(fmt).to_string()`. What the clock reads is
/// not stated; the result has the shape that chrono documents for the
/// specifiers `%d` (01-31), `%m` (01-12), `%Y` (at least four characters),
/// `%I` (01-12), `%M` (00-59) and `%p` (`AM` or `PM`).
#[verifier::external_body]
fn local_now_text(fmt: &str) -> (r: String)
    requires
        known_clock_format(fmt@),
    ensures
        clock_text_shape(fmt@, r@),
{
    chrono::Local::now().format(fmt).to_string()
}

/// `prefix`, the date, `_`, the time in lower case, then `.txt`.
pub open spec fn stamped_name(prefix: Seq<char>, date: Seq<char>, time: Seq<char>) -> Seq<char> {
    prefix + date + "_"@ + spec_lowercase(time) + ".txt"@
}

fn stamped_name_exec(prefix: &str, date: &str, time: &str) -> (r: String)
    ensures
        r@ == stamped_name(prefix@, date@, time@),
{
    let mut v: Vec<char> = Vec::new();
    push_str(&mut v, prefix);
    push_str(&mut v, date);
    push_str(&mut v, "_");
    let low = to_lowercase(time);
    push_str(&mut v, low.as_str());
    push_str(&mut v, ".txt");
    string_from_chars(v.as_slice())
}

/// The name of the report file for a date and time written for file names.
pub fn report_file_name(date_to_file: &str, time_to_file: &str) -> (r: String)
    ensures
        r@ == stamped_name("Reporte"@, date_to_file@, time_to_file@),
{
    stamped_name_exec("Reporte", date_to_file, time_to_file)
}

/// The name of the file of dynamic addresses for a date and time written
/// for file names.
pub fn dynamic_ips_file_name(date_to_file: &str, time_to_file: &str) -> (r: String)
    ensures
        r@ == stamped_name("IP_Dinamicas_"@, date_to_file@, time_to_file@),
{
    stamped_name_exec("IP_Dinamicas_", date_to_file, time_to_file)
}

/// The date and time written on a report, and the name of its file.
#[derive(Debug)]
pub struct ReportStamp {
    /// Day, month and year, separated by `/`.
    pub date: String,
    /// Hour, minute and `am`/`pm`, as in `09:05 pm`.
    pub time: String,
    pub file_name: String,
}

/// Reads the local clock for a report.
pub fn report_stamp() -> (r: ReportStamp)
    ensures
        date_shape(r.date@, '/'),
        exists|t: Seq<char>| time_shape(t, ':', ' ') && r.time@ == spec_lowercase(t),
        exists|d: Seq<char>, t: Seq<char>|
            date_shape(d, '-') && time_shape(t, '-', '-') && r.file_name@ == #[trigger] stamped_name(
                "Reporte"@,
                d,
                t,
            ),
{
    proof {
        reveal_strlit("%d/%m/%Y");
        reveal_strlit("%I:%M %p");
        reveal_strlit("%d-%m-%Y");
        reveal_strlit("%I-%M-%p");
        lemma_formats_differ();
    }
    let date = local_now_text("%d/%m/%Y");
    let time_text = local_now_text("%I:%M %p");
    let time = to_lowercase(time_text.as_str());
    let date_to_file = local_now_text("%d-%m-%Y");
    let time_to_file = local_now_text("%I-%M-%p");
    let file_name = report_file_name(date_to_file.as_str(), time_to_file.as_str());
    assert(date_shape(date_to_file@, '-') && time_shape(time_to_file@, '-', '-'));
    assert(time_shape(time_text@, ':', ' ') && time@ == spec_lowercase(time_text@));
    ReportStamp { date, time, file_name }
}

/// Reads the local clock for the name of a file of dynamic addresses.
pub fn dynamic_ips_stamp() -> (r: String)
    ensures
        exists|d: Seq<char>, t: Seq<char>|
            date_shape(d, '-') && time_shape(t, '-', '-') && r@ == #[trigger] stamped_name(
                "IP_Dinamicas_"@,
                d,
                t,
            ),
{
    proof {
        reveal_strlit("%d-%m-%Y");
        reveal_strlit("%I-%M-%p");
        lemma_formats_differ();
    }
    let date_to_file = local_now_text("%d-%m-%Y");
    let time_to_file = local_now_text("%I-%M-%p");
    let r = dynamic_ips_file_name(date_to_file.as_str(), time_to_file.as_str());
    assert(date_shape(date_to_file@, '-') && time_shape(time_to_file@, '-', '-'));
    r
}

} // verus!

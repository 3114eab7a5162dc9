//! Names of log files. A name holds the time at which the file was opened and a number, so that no
//! file is written over.

#[allow(unused_imports)]
use crate::text::{decimal, law_digits_read_back, number_of, padded, repeated};
use crate::text::push_padded;
use vstd::prelude::*;

verus! {

/// A day of the calendar.
#[derive(Debug, Clone, Copy, PartialEq, Eq, Structural)]
pub struct Day {
    pub year: i32,
    pub month: u32,
    pub day: u32,
}

/// A time of local clocks, to the second.
#[derive(Debug, Clone, Copy, PartialEq, Eq, Structural)]
pub struct Moment {
    pub date: Day,
    pub hour: u32,
    pub minute: u32,
    pub second: u32,
}

/// Whether a year has a leap day.
pub open spec fn leap(year: int) -> bool {
    year % 4 == 0 && (year % 100 != 0 || year % 400 == 0)
}

/// How many days a month has.
pub open spec fn days_in(year: int, month: int) -> int {
    if month == 2 {
        if leap(year) {
            29
        } else {
            28
        }
    } else if month == 4 || month == 6 || month == 9 || month == 11 {
        30
    } else {
        31
    }
}

impl Day {
    /// A day that there is, in the years that `chrono` knows.
    pub open spec fn wf(self) -> bool {
        &&& -262143 <= self.year <= 262142
        &&& 1 <= self.month <= 12
        &&& 1 <= self.day <= days_in(self.year as int, self.month as int)
    }
}

impl Moment {
    /// A time that there is.
    pub open spec fn wf(self) -> bool {
        &&& self.date.wf()
        &&& self.hour < 24
        &&& self.minute < 60
        &&& self.second < 60
    }

    /// The time as it stands in the name of a file.
    pub open spec fn stamp(self) -> Seq<char> {
        year_text(self.date.year as int) + two(self.date.month as nat) + two(self.date.day as nat)
            + "."@ + two(self.hour as nat) + two(self.minute as nat) + two(self.second as nat)
    }
}

impl Moment {
    /// Whether there is such a time.
    pub fn is_valid(&self) -> (valid: bool)
        ensures
            valid == self.wf(),
    {
        let year: i32 = self.date.year;
        if year < -262143 || year > 262142 {
            return false;
        }
        // The calendar comes round every 400 years.
        let within: u32 = ((year + 262400) as u32) % 400;
        let is_leap = within % 4 == 0 && (within % 100 != 0 || within == 0);
        let month: u32 = self.date.month;
        let days: u32 = if month == 2 {
            if is_leap {
                29
            } else {
                28
            }
        } else if month == 4 || month == 6 || month == 9 || month == 11 {
            30
        } else {
            31
        };
        1 <= month && month <= 12 && 1 <= self.date.day && self.date.day <= days && self.hour < 24
            && self.minute < 60 && self.second < 60
    }
}

/// A year of at least four digits, with a sign where it is before the year 0 or after 9999.
pub open spec fn year_text(year: int) -> Seq<char> {
    if year < 0 {
        "-"@ + padded(decimal((-year) as nat), 4, '0')
    } else if year > 9999 {
        "+"@ + decimal(year as nat)
    } else {
        padded(decimal(year as nat), 4, '0')
    }
}

/// A number of at least two digits.
pub open spec fn two(value: nat) -> Seq<char> {
    padded(decimal(value), 2, '0')
}

/// Writes a time with `chrono::NaiveDateTime::format` and `%Y%m%d.%H%M%S`. The contract says what
/// `chrono` documents of these: the year has four digits at least and a sign outside of 0 to 9999,
/// and all else two digits, filled up with zeros.
#[verifier::external_body]
fn stamp_text(at: &Moment) -> (text: String)
    requires
        at.wf(),
    ensures
        text@ == at.stamp(),
{
    chrono::NaiveDate::from_ymd_opt(at.date.year, at.date.month, at.date.day)
        .and_then(|date| date.and_hms_opt(at.hour, at.minute, at.second))
        .unwrap_or_default()
        .format("%Y%m%d.%H%M%S")
        .to_string()
}

/// What the path of a log file ends in: its last part, and that part before and after its last
/// dot.
#[derive(Debug)]
pub struct PathParts {
    pub file_name: String,
    pub stem: Option<String>,
    pub extension: Option<String>,
}

/// What the path of a log file ends in.
#[verifier::ext_equal]
pub struct PartsView {
    pub file_name: Seq<char>,
    pub stem: Option<Seq<char>>,
    pub extension: Option<Seq<char>>,
}

/// What a text says, if there is one.
pub open spec fn text_view(text: Option<String>) -> Option<Seq<char>> {
    match text {
        Some(text) => Some(text@),
        None => None,
    }
}

impl View for PathParts {
    type V = PartsView;

    open spec fn view(&self) -> PartsView {
        PartsView {
            file_name: self.file_name@,
            stem: text_view(self.stem),
            extension: text_view(self.extension),
        }
    }
}

impl PartsView {
    /// What the names of the files begin with.
    pub open spec fn base(self) -> Seq<char> {
        match self.stem {
            Some(stem) => if stem.len() > 0 {
                stem
            } else {
                self.file_name
            },
            None => self.file_name,
        }
    }

    /// What the names of the files end in.
    pub open spec fn ending(self) -> Seq<char> {
        match self.extension {
            Some(extension) => if extension.len() > 0 {
                "."@ + extension
            } else {
                ""@
            },
            None => ""@,
        }
    }

    /// The name of the file that is opened at this time under this number.
    pub open spec fn named(self, at: Moment, sequence: nat) -> Seq<char> {
        self.base() + "."@ + at.stamp() + "."@ + padded(decimal(sequence), 3, '0') + self.ending()
    }
}

/// The name of the file that is opened at this time under this number.
pub fn log_name(parts: &PathParts, at: &Moment, sequence: u64) -> (name: String)
    requires
        at.wf(),
    ensures
        name@ == parts@.named(*at, sequence as nat),
{
    proof {
        reveal_strlit("0");
        reveal_strlit("");
    }
    let mut name = match &parts.stem {
        Some(stem) => if stem.as_str().is_empty() {
            parts.file_name.clone()
        } else {
            stem.clone()
        },
        None => parts.file_name.clone(),
    };
    assert(name@ == parts@.base());
    name.append(".");
    name.append(stamp_text(at).as_str());
    name.append(".");
    push_padded(&mut name, sequence, 10, 3, "0");
    match &parts.extension {
        Some(extension) => {
            if !extension.as_str().is_empty() {
                name.append(".");
                name.append(extension.as_str());
            }
        },
        None => {},
    }
    assert(name@ =~= parts@.named(*at, sequence as nat));
    name
}

/// Looks for a name that no file has yet, from the number 1 on.
#[derive(Debug)]
pub struct NameSearch {
    pub parts: PathParts,
    pub at: Moment,
    pub sequence: u64,
}

impl NameSearch {
    /// Begins with the number 1.
    pub fn new(parts: PathParts, at: Moment) -> (search: NameSearch)
        ensures
            search.parts == parts,
            search.at == at,
            search.sequence == 1,
    {
        NameSearch { parts, at, sequence: 1 }
    }

    /// The name to try.
    pub fn candidate(&self) -> (name: String)
        requires
            self.at.wf(),
        ensures
            name@ == self.parts@.named(self.at, self.sequence as nat),
    {
        log_name(&self.parts, &self.at, self.sequence)
    }

    /// There is a file of that name: the next number is tried. Says whether there is one.
    pub fn taken(&mut self) -> (more: bool)
        ensures
            final(self).parts == old(self).parts,
            final(self).at == old(self).at,
            more == (old(self).sequence < u64::MAX),
            more ==> final(self).sequence == old(self).sequence + 1,
            !more ==> final(self).sequence == old(self).sequence,
    {
        if self.sequence == u64::MAX {
            return false;
        }
        self.sequence = self.sequence + 1;
        true
    }
}

/// Zeros on the left leave a number as it is.
proof fn lemma_zeros_do_nothing(text: Seq<char>, count: nat)
    ensures
        number_of(repeated('0', count) + text, 10) == number_of(text, 10),
    decreases text.len(), count,
{
    let whole = repeated('0', count) + text;
    if text.len() > 0 {
        lemma_zeros_do_nothing(text.drop_last(), count);
        assert(whole.drop_last() =~= repeated('0', count) + text.drop_last());
        assert(whole.last() == text.last());
    } else if count > 0 {
        lemma_zeros_do_nothing(text, (count - 1) as nat);
        assert(whole.drop_last() =~= repeated('0', (count - 1) as nat) + text);
        assert(whole.last() == '0');
        assert(crate::text::digit_value('0') == 0);
        assert(number_of(whole, 10) == number_of(whole.drop_last(), 10) * 10);
    } else {
        assert(whole =~= text);
    }
}

/// Files of one time have different names under different numbers, so that no file is written
/// over.
pub proof fn law_log_names_differ(parts: PartsView, at: Moment, first: nat, second: nat)
    requires
        first != second,
    ensures
        parts.named(at, first) != parts.named(at, second),
{
    if parts.named(at, first) == parts.named(at, second) {
        let before = parts.base() + "."@ + at.stamp() + "."@;
        let a = padded(decimal(first), 3, '0');
        let b = padded(decimal(second), 3, '0');
        let ending = parts.ending();
        assert(parts.named(at, first) =~= before + a + ending);
        assert(parts.named(at, second) =~= before + b + ending);
        let name = parts.named(at, first);
        assert(a.len() == b.len());
        assert(a =~= name.subrange(before.len() as int, (before.len() + a.len()) as int));
        assert(b =~= name.subrange(before.len() as int, (before.len() + b.len()) as int));
        law_digits_read_back(first, 10);
        law_digits_read_back(second, 10);
        lemma_padding_does_nothing(decimal(first), 3);
        lemma_padding_does_nothing(decimal(second), 3);
    }
}

/// A number that is filled up with zeros is still that number.
proof fn lemma_padding_does_nothing(text: Seq<char>, width: nat)
    ensures
        number_of(padded(text, width, '0'), 10) == number_of(text, 10),
{
    if text.len() < width {
        lemma_zeros_do_nothing(text, (width - text.len()) as nat);
    }
    assert(padded(text, width, '0') =~= text || padded(text, width, '0') =~= repeated(
        '0',
        (width - text.len()) as nat,
    ) + text);
}

} // verus!

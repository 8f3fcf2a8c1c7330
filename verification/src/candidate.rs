//! One row of the interactive search: how old the command is, where it ran,
//! how it failed, and the command itself on one line.

use vstd::prelude::*;
use unicode_segmentation::UnicodeSegmentation;
use crate::command::{base_name_of, Command};
use crate::execution::text_view;
use crate::path::base_name;
use crate::zsh::{all_digits, digits_value};
use crate::text::{
    chars_of, decimal, decimal_reads_back, pad_left, pad_right, push_chars, push_decimal, push_pad_left,
    push_pad_right, push_repeat, push_signed_decimal, push_str, repeat, signed_decimal,
    string_from_chars,
};

verus! {

/// The columns `unicode_display_width::width` gives `s`.
pub uninterp spec fn display_width_of(s: Seq<char>) -> u64;

/// The extended grapheme clusters of `s`, as `UnicodeSegmentation::graphemes`
/// splits it.
pub uninterp spec fn graphemes_of(s: Seq<char>) -> Seq<Seq<char>>;

/// Calls `unicode_display_width::width`: the result is the named function of
/// the text.
#[verifier::external_body]
fn display_width(s: &str) -> (r: u64)
    ensures
        r == display_width_of(s@),
{
    unicode_display_width::width(s)
}

/// Calls `UnicodeSegmentation::graphemes` (extended clusters): the result is
/// the named function of the text.
#[verifier::external_body]
fn graphemes(s: &str) -> (r: Vec<String>)
    ensures
        r@.map_values(|g: String| g@) == graphemes_of(s@),
{
    s.graphemes(true).map(|g| g.to_string()).collect()
}

pub const DIRECTORY_WIDTH: u64 = 9;

pub const EXIT_CODE_WIDTH: usize = 5;

/// Timestamps before this are plain-history placeholders, not times.
pub const EARLIEST_TIMESTAMP_NS: i64 = 1_000_000_000_000_000_000;

pub const SECOND: i64 = 1_000_000_000;

pub const MINUTE: i64 = 60 * SECOND;

pub const HOUR: i64 = 60 * MINUTE;

pub const DAY: i64 = 24 * HOUR;

pub const MONTH: i64 = 30 * DAY;

pub const YEAR: i64 = 365 * DAY;

/// Whether `c` is a control character (general category Cc), as `char::is_control` says.
pub open spec fn is_control(c: char) -> bool {
    (c as u32) <= 0x1f || (0x7f <= (c as u32) && (c as u32) <= 0x9f)
}

/// `text` with every control character replaced by a space.
pub open spec fn one_line(text: Seq<char>) -> Seq<char> {
    text.map_values(|c: char| if is_control(c) { ' ' } else { c })
}

/// A failed exit code in brackets; nothing for success or an unknown code.
pub open spec fn exit_code_text(code: Option<i32>) -> Seq<char> {
    match code {
        Some(c) => if c != 0 {
            seq!['['] + signed_decimal(c as int) + seq![']']
        } else {
            Seq::empty()
        },
        None => Seq::empty(),
    }
}

/// How long before `now_ns` a command at `timestamp_ns` ran, in the largest
/// whole unit that fits (`s`, `m`, `h`, `d`, `mo` of 30 days, `y` of 365
/// days); nothing for a placeholder timestamp.
pub open spec fn age_text(timestamp_ns: i64, now_ns: i64) -> Seq<char> {
    if timestamp_ns < EARLIEST_TIMESTAMP_NS {
        Seq::empty()
    } else {
        let age: int = if now_ns > timestamp_ns {
            now_ns - timestamp_ns
        } else {
            0
        };
        if age < MINUTE {
            decimal((age / SECOND as int) as nat) + seq!['s']
        } else if age < HOUR {
            decimal((age / MINUTE as int) as nat) + seq!['m']
        } else if age < DAY {
            decimal((age / HOUR as int) as nat) + seq!['h']
        } else if age < MONTH {
            decimal((age / DAY as int) as nat) + seq!['d']
        } else if age < YEAR {
            decimal((age / MONTH as int) as nat) + seq!['m', 'o']
        } else {
            decimal((age / YEAR as int) as nat) + seq!['y']
        }
    }
}

/// The length in nanoseconds of the age unit `unit` (`s`, `m`, `h`, `d`,
/// `mo`, `y`); 0 for anything else.
pub open spec fn unit_length(unit: Seq<char>) -> int {
    if unit.len() == 1 && unit[0] == 's' {
        SECOND as int
    } else if unit.len() == 1 && unit[0] == 'm' {
        MINUTE as int
    } else if unit.len() == 1 && unit[0] == 'h' {
        HOUR as int
    } else if unit.len() == 1 && unit[0] == 'd' {
        DAY as int
    } else if unit.len() == 2 && unit[0] == 'm' && unit[1] == 'o' {
        MONTH as int
    } else if unit.len() == 1 && unit[0] == 'y' {
        YEAR as int
    } else {
        0
    }
}

/// The length in nanoseconds of the age unit after `unit`, the next larger
/// one; 0 after years, the largest.
pub open spec fn next_unit_length(unit: Seq<char>) -> int {
    if unit.len() == 1 && unit[0] == 's' {
        MINUTE as int
    } else if unit.len() == 1 && unit[0] == 'm' {
        HOUR as int
    } else if unit.len() == 1 && unit[0] == 'h' {
        DAY as int
    } else if unit.len() == 1 && unit[0] == 'd' {
        MONTH as int
    } else if unit.len() == 2 && unit[0] == 'm' && unit[1] == 'o' {
        YEAR as int
    } else {
        0
    }
}

/// How long ago a command ran, in nanoseconds: 0 for a time not before now.
pub open spec fn age_of(timestamp_ns: i64, now_ns: i64) -> int {
    if now_ns > timestamp_ns {
        now_ns - timestamp_ns
    } else {
        0
    }
}

/// An age is shown as a whole number of one unit followed by the unit: the
/// largest unit the age reaches (seconds below a minute), counted in whole
/// units with no leading zero, so never 0 from a minute on. A placeholder
/// timestamp shows nothing.
pub proof fn ages_count_whole_largest_units(timestamp_ns: i64, now_ns: i64)
    ensures
        timestamp_ns < EARLIEST_TIMESTAMP_NS ==> age_text(timestamp_ns, now_ns) == Seq::<char>::empty(),
        timestamp_ns >= EARLIEST_TIMESTAMP_NS ==> exists|digits: Seq<char>, unit: Seq<char>|
            #![trigger digits + unit]
            {
                let age = age_of(timestamp_ns, now_ns);
                &&& age_text(timestamp_ns, now_ns) == digits + unit
                &&& unit_length(unit) > 0
                &&& digits.len() > 0 && all_digits(digits)
                &&& (digits[0] == '0' ==> digits.len() == 1)
                &&& digits_value(digits) == age / unit_length(unit)
                &&& (unit == seq!['s'] || unit_length(unit) <= age)
                &&& (next_unit_length(unit) == 0 || age < next_unit_length(unit))
            },
{
    if timestamp_ns >= EARLIEST_TIMESTAMP_NS {
        let age = age_of(timestamp_ns, now_ns);
        assert(age >= 0);
        let unit: Seq<char> = if age < MINUTE {
            seq!['s']
        } else if age < HOUR {
            seq!['m']
        } else if age < DAY {
            seq!['h']
        } else if age < MONTH {
            seq!['d']
        } else if age < YEAR {
            seq!['m', 'o']
        } else {
            seq!['y']
        };
        assert(age_text(timestamp_ns, now_ns) == decimal((age / unit_length(unit)) as nat) + unit) by {
            if age < MINUTE {
                assert(unit_length(unit) == SECOND as int);
            } else if age < HOUR {
                assert(unit_length(unit) == MINUTE as int);
            } else if age < DAY {
                assert(unit_length(unit) == HOUR as int);
            } else if age < MONTH {
                assert(unit_length(unit) == DAY as int);
            } else if age < YEAR {
                assert(unit_length(unit) == MONTH as int);
            } else {
                assert(unit_length(unit) == YEAR as int);
            }
        }
        assert(unit_length(unit) > 0);
        let q = (age / unit_length(unit)) as nat;
        decimal_reads_back(q);
        let digits = decimal(q);
        assert(age_text(timestamp_ns, now_ns) == digits + unit);
        if digits[0] == '0' {
            assert(q == 0);
            assert(digits.len() == 1);
        }
        assert(age_text(timestamp_ns, now_ns) == digits + unit && unit_length(unit) > 0);
    }
}

/// The longest run of leading graphemes whose widths add up to at most `budget`.
pub open spec fn fitting_graphemes(gs: Seq<Seq<char>>, budget: int) -> Seq<char>
    decreases gs.len(),
{
    if gs.len() == 0 {
        Seq::empty()
    } else if display_width_of(gs[0]) > budget {
        Seq::empty()
    } else {
        gs[0] + fitting_graphemes(gs.drop_first(), budget - display_width_of(gs[0]))
    }
}

/// The directory's name as shown: whole when it fits in the column, else the
/// graphemes that fit in one column less, then an ellipsis.
pub open spec fn directory_text(directory: Option<Seq<char>>) -> Seq<char> {
    match directory {
        Some(d) => {
            let name = base_name(d);
            if display_width_of(name) <= DIRECTORY_WIDTH {
                name
            } else {
                fitting_graphemes(graphemes_of(name), DIRECTORY_WIDTH - 1) + seq!['\u{2026}']
            }
        },
        None => Seq::empty(),
    }
}

/// The directory column: the directory's name padded with spaces to the
/// column's width; `None` when its width does not fit the column.
pub open spec fn directory_column_text(directory: Option<Seq<char>>) -> Option<Seq<char>> {
    let d = directory_text(directory);
    let w = display_width_of(d);
    if w <= DIRECTORY_WIDTH {
        Some(d + repeat(' ', (DIRECTORY_WIDTH - w) as nat))
    } else {
        None
    }
}

/// A whole row: age right-aligned in 4 columns, the directory column, the exit
/// code left-aligned in 5 columns, and the command on one line, two spaces apart.
pub open spec fn row_text(command: Command, now_ns: i64) -> Option<Seq<char>> {
    match directory_column_text(text_view(command.directory)) {
        Some(column) => Some(
            pad_left(age_text(command.timestamp_ns, now_ns), 4) + seq![' ', ' '] + column + seq![
                ' ',
                ' ',
            ] + pad_right(exit_code_text(command.exit_code), 5) + seq![' ', ' '] + one_line(
                command.text@,
            ),
        ),
        None => None,
    }
}

/// A command offered by the interactive search.
pub struct Candidate {
    command: Command,
    now_ns: i64,
}

impl Candidate {
    pub closed spec fn spec_command(&self) -> Command {
        self.command
    }

    pub closed spec fn spec_now_ns(&self) -> i64 {
        self.now_ns
    }

    pub fn new(command: Command, now_ns: i64) -> (r: Candidate)
        ensures
            r.spec_command() == command,
            r.spec_now_ns() == now_ns,
    {
        Candidate { command, now_ns }
    }

    /// The command text the search matches against.
    pub fn text(&self) -> (r: &str)
        ensures
            r@ == self.spec_command().text@,
    {
        self.command.text.as_str()
    }

    /// The command text the search prints when this candidate is chosen.
    pub fn output(&self) -> (r: &str)
        ensures
            r@ == self.spec_command().text@,
    {
        self.command.text.as_str()
    }

    /// The command on one line: control characters become spaces.
    pub fn command(&self) -> (r: String)
        ensures
            r@ == one_line(self.spec_command().text@),
    {
        let text = chars_of(self.command.text.as_str());
        let mut out: Vec<char> = Vec::new();
        let mut i: usize = 0;
        while i < text.len()
            invariant
                i <= text@.len(),
                out@ == one_line(text@.take(i as int)),
            decreases text@.len() - i,
        {
            let c = text[i];
            let shown = if (c as u32) <= 0x1f || (0x7f <= (c as u32) && (c as u32) <= 0x9f) {
                ' '
            } else {
                c
            };
            out.push(shown);
            i = i + 1;
            assert(one_line(text@.take(i as int)) == one_line(text@.take((i - 1) as int)).push(
                shown,
            ));
        }
        assert(text@.take(i as int) == text@);
        string_from_chars(out.as_slice())
    }

    /// The exit code column's text.
    pub fn exit_code(&self) -> (r: String)
        ensures
            r@ == exit_code_text(self.spec_command().exit_code),
    {
        let mut out: Vec<char> = Vec::new();
        match self.command.exit_code {
            Some(code) => {
                if code != 0 {
                    out.push('[');
                    push_signed_decimal(&mut out, code as i64);
                    out.push(']');
                    assert(seq!['['] + signed_decimal(code as int) + seq![']'] == seq!['['].add(
                        signed_decimal(code as int),
                    ).push(']'));
                }
            },
            None => {},
        }
        string_from_chars(out.as_slice())
    }

    /// The age column's text.
    pub fn relative_age(&self) -> (r: String)
        ensures
            r@ == age_text(self.spec_command().timestamp_ns, self.spec_now_ns()),
    {
        let timestamp_ns = self.command.timestamp_ns;
        let mut out: Vec<char> = Vec::new();
        if timestamp_ns < EARLIEST_TIMESTAMP_NS {
            return string_from_chars(out.as_slice());
        }
        let age: i64 = if self.now_ns > timestamp_ns {
            self.now_ns - timestamp_ns
        } else {
            0
        };
        if age < MINUTE {
            push_decimal(&mut out, (age / SECOND) as u64);
            out.push('s');
        } else if age < HOUR {
            push_decimal(&mut out, (age / MINUTE) as u64);
            out.push('m');
        } else if age < DAY {
            push_decimal(&mut out, (age / HOUR) as u64);
            out.push('h');
        } else if age < MONTH {
            push_decimal(&mut out, (age / DAY) as u64);
            out.push('d');
        } else if age < YEAR {
            push_decimal(&mut out, (age / MONTH) as u64);
            out.push('m');
            out.push('o');
            assert(Seq::<char>::empty() + decimal((age / MONTH) as nat) + seq!['m', 'o'] == (
            Seq::<char>::empty() + decimal((age / MONTH) as nat)).push('m').push('o'));
        } else {
            push_decimal(&mut out, (age / YEAR) as u64);
            out.push('y');
        }
        string_from_chars(out.as_slice())
    }

    /// The directory column's text before padding.
    pub fn directory(&self) -> (r: String)
        ensures
            r@ == directory_text(text_view(self.spec_command().directory)),
    {
        match &self.command.directory {
            None => string_from_chars(Vec::<char>::new().as_slice()),
            Some(directory) => {
                let name = base_name_of(directory.as_str());
                if display_width(name.as_str()) <= DIRECTORY_WIDTH {
                    return name;
                }
                let clusters = graphemes(name.as_str());
                let ghost gs = clusters@.map_values(|g: String| g@);
                let budget: u64 = DIRECTORY_WIDTH - 1;
                let mut out: Vec<char> = Vec::new();
                let mut used: u64 = 0;
                let mut i: usize = 0;
                let mut full = false;
                assert(gs.skip(0) == gs);
                assert(Seq::<char>::empty() + fitting_graphemes(gs, budget as int) == fitting_graphemes(gs, budget as int));
                while i < clusters.len() && !full
                    invariant
                        i <= clusters@.len(),
                        gs == clusters@.map_values(|g: String| g@),
                        used <= budget,
                        budget == DIRECTORY_WIDTH - 1,
                        fitting_graphemes(gs, budget as int) == out@ + fitting_graphemes(
                            gs.skip(i as int),
                            budget - used,
                        ),
                        full ==> fitting_graphemes(gs.skip(i as int), budget - used) == Seq::<char>::empty(),
                    decreases clusters@.len() - i, if full { 0int } else { 1int },
                {
                    assert(gs.skip(i as int)[0] == clusters@[i as int]@);
                    assert(gs.skip(i as int).drop_first() == gs.skip(i + 1));
                    let width = display_width(clusters[i].as_str());
                    if width > budget - used {
                        full = true;
                    } else {
                        let chars = chars_of(clusters[i].as_str());
                        let ghost before = out@;
                        push_chars(&mut out, chars.as_slice());
                        assert(before + (clusters@[i as int]@ + fitting_graphemes(gs.skip(i + 1), budget - used - width))
                            == out@ + fitting_graphemes(gs.skip(i + 1), budget - (used + width)));
                        used = used + width;
                        i = i + 1;
                    }
                }
                assert(fitting_graphemes(gs, budget as int) == out@) by {
                    if i == clusters@.len() {
                        assert(gs.skip(i as int).len() == 0);
                    }
                    assert(out@ + Seq::<char>::empty() == out@);
                }
                out.push('\u{2026}');
                string_from_chars(out.as_slice())
            },
        }
    }

    /// The directory column: the name padded to the column's width, or `None`
    /// when the name is wider than the column.
    pub fn directory_column(&self) -> (r: Option<String>)
        ensures
            match r {
                Some(column) => directory_column_text(text_view(self.spec_command().directory))
                    == Some(column@),
                None => directory_column_text(text_view(self.spec_command().directory)) is None,
            },
    {
        let directory = self.directory();
        let width = display_width(directory.as_str());
        if width > DIRECTORY_WIDTH {
            return None;
        }
        let mut out = chars_of(directory.as_str());
        push_repeat(&mut out, ' ', (DIRECTORY_WIDTH - width) as usize);
        Some(string_from_chars(out.as_slice()))
    }

    /// The whole row, or `None` when the directory name is wider than its column.
    pub fn row(&self) -> (r: Option<String>)
        ensures
            match r {
                Some(row) => row_text(self.spec_command(), self.spec_now_ns()) == Some(row@),
                None => row_text(self.spec_command(), self.spec_now_ns()) is None,
            },
    {
        let column = match self.directory_column() {
            Some(column) => column,
            None => return None,
        };
        let age = chars_of(self.relative_age().as_str());
        let exit_code = chars_of(self.exit_code().as_str());
        let command = chars_of(self.command().as_str());
        let mut out: Vec<char> = Vec::new();
        push_pad_left(&mut out, age.as_slice(), 4);
        out.push(' ');
        out.push(' ');
        push_str(&mut out, column.as_str());
        out.push(' ');
        out.push(' ');
        push_pad_right(&mut out, exit_code.as_slice(), EXIT_CODE_WIDTH);
        out.push(' ');
        out.push(' ');
        push_chars(&mut out, command.as_slice());
        Some(string_from_chars(out.as_slice()))
    }
}

} // verus!

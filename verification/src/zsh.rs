//! The zsh history format: metafied bytes, one command per line, lines ending
//! in a backslash continuing the command, and optional `: start:duration;`
//! metadata in front of a command.

use vstd::prelude::*;
use vstd::utf8::{decode_utf8, encode_utf8, valid_utf8};
use crate::encoding::{append_bytes, be_bytes_of, be_u64};
use crate::error::{Field, HonuError};
use crate::execution::{bare_execution, Execution};
use crate::lines::{lemma_lines_next_decreases, lines_measure, lines_next, Line, LineView, LinesView};
use crate::parser::{pull, EntryParser, Records};
use crate::record::{fingerprint, Record, RecordView};
use crate::text::{chars_of, string_from_chars};

verus! {

/// The byte zsh puts in front of a byte it escapes.
pub const META: u8 = 0x83;

/// Undoes zsh's metafication of `input`, starting in the middle of an escape
/// when `escaped` holds: the bytes it stands for, and whether it ends in the
/// middle of an escape. The byte after `META` stands for itself xor `0x20`.
pub open spec fn unmetafy(escaped: bool, input: Seq<u8>) -> (Seq<u8>, bool)
    decreases input.len(),
{
    if input.len() == 0 {
        (Seq::empty(), escaped)
    } else {
        let (out, pending) = unmetafy(escaped, input.drop_last());
        let b = input.last();
        if pending {
            (out.push(b ^ 0x20u8), false)
        } else if b == META {
            (out, true)
        } else {
            (out.push(b), false)
        }
    }
}

/// Decoding is independent of how the input is cut: decoding `a` and then
/// `b`, carrying a pending escape across, gives what decoding `a + b` gives.
pub proof fn unmetafy_chunks_compose(escaped: bool, a: Seq<u8>, b: Seq<u8>)
    ensures
        ({
            let (first, pending) = unmetafy(escaped, a);
            let (second, last) = unmetafy(pending, b);
            unmetafy(escaped, a + b) == (first + second, last)
        }),
    decreases b.len(),
{
    if b.len() == 0 {
        assert(a + b == a);
        assert(unmetafy(escaped, a).0 + Seq::<u8>::empty() == unmetafy(escaped, a).0);
    } else {
        unmetafy_chunks_compose(escaped, a, b.drop_last());
        assert((a + b).drop_last() == a + b.drop_last());
        assert((a + b).last() == b.last());
        let (first, pending) = unmetafy(escaped, a);
        let (second, _) = unmetafy(pending, b.drop_last());
        assert((first + second).push(b.last() ^ 0x20u8) == first + second.push(b.last() ^ 0x20u8));
        assert((first + second).push(b.last()) == first + second.push(b.last()));
    }
}

/// The state of a streaming decoder of metafied bytes.
pub struct Metafied {
    escaped: bool,
}

impl Metafied {
    /// Whether the bytes decoded so far end in the middle of an escape.
    pub closed spec fn pending(&self) -> bool {
        self.escaped
    }

    pub fn new() -> (r: Metafied)
        ensures
            !r.pending(),
    {
        Metafied { escaped: false }
    }

    /// Decodes a prefix of `input` into at most `capacity` bytes; returns how
    /// many input bytes it consumed, and the decoded bytes. It stops early only
    /// when the output is full.
    pub fn decode(&mut self, input: &[u8], capacity: usize) -> (r: (usize, Vec<u8>))
        requires
            capacity > 0,
        ensures
            r.0 <= input@.len(),
            r.1@.len() <= capacity,
            (r.1@, final(self).pending()) == unmetafy(old(self).pending(), input@.take(r.0 as int)),
            r.0 < input@.len() ==> r.1@.len() == capacity,
    {
        let mut consumed: usize = 0;
        let mut out: Vec<u8> = Vec::new();
        while consumed < input.len() && out.len() < capacity
            invariant
                consumed <= input@.len(),
                out@.len() <= capacity,
                (out@, self.escaped) == unmetafy(old(self).escaped, input@.take(consumed as int)),
            decreases input@.len() - consumed,
        {
            let b = input[consumed];
            assert(input@.take(consumed + 1).drop_last() == input@.take(consumed as int));
            consumed = consumed + 1;
            if self.escaped {
                out.push(b ^ 0x20u8);
                self.escaped = false;
            } else if b == META {
                self.escaped = true;
            } else {
                out.push(b);
            }
        }
        (consumed, out)
    }

    /// What a read that wrote `written` bytes and then met the end of the input
    /// reports: an escape cut off by the end is an error once nothing is left
    /// to hand out before it.
    pub fn end(&self, written: usize) -> (r: Result<usize, HonuError>)
        ensures
            r == if self.pending() && written == 0 {
                Err::<usize, HonuError>(HonuError::IncompleteMetafiedByte)
            } else {
                Ok(written)
            },
    {
        if self.escaped && written == 0 {
            Err(HonuError::IncompleteMetafiedByte)
        } else {
            Ok(written)
        }
    }
}

/// The bytes a metafied history stands for, and the error reading it ends with.
pub open spec fn unmetafied_history(contents: Seq<u8>) -> (Seq<u8>, Option<HonuError>) {
    let (bytes, pending) = unmetafy(false, contents);
    (
        bytes,
        if pending {
            Some(HonuError::IncompleteMetafiedByte)
        } else {
            None
        },
    )
}

/// Decodes a whole metafied history.
pub fn unmetafy_history(contents: &[u8]) -> (r: (Vec<u8>, Option<HonuError>))
    ensures
        (r.0@, r.1) == unmetafied_history(contents@),
{
    let mut decoder = Metafied::new();
    if contents.len() == 0 {
        assert(contents@.take(0) == contents@);
        return (Vec::new(), None);
    }
    let (consumed, bytes) = decoder.decode(contents, contents.len());
    proof {
        if consumed < contents@.len() {
            lemma_unmetafy_len(false, contents@.take(consumed as int));
        }
    }
    assert(contents@.take(consumed as int) == contents@);
    let failure = match decoder.end(0) {
        Ok(_) => None,
        Err(e) => Some(e),
    };
    (bytes, failure)
}

proof fn lemma_unmetafy_len(escaped: bool, input: Seq<u8>)
    ensures
        unmetafy(escaped, input).0.len() <= input.len(),
    decreases input.len(),
{
    if input.len() > 0 {
        lemma_unmetafy_len(escaped, input.drop_last());
    }
}

/// What `String::from_utf8_lossy` makes of `bytes`.
pub uninterp spec fn utf8_lossy(bytes: Seq<u8>) -> Seq<char>;

/// Calls `String::from_utf8_lossy`: the text of `bytes`, each invalid sequence
/// replaced by U+FFFD. Stated: the result is the named function of the bytes, and
/// valid UTF-8 is decoded unchanged.
#[verifier::external_body]
fn decode_lossy(bytes: &[u8]) -> (s: String)
    ensures
        s@ == utf8_lossy(bytes@),
        valid_utf8(bytes@) ==> s@ == decode_utf8(bytes@),
{
    String::from_utf8_lossy(bytes).into_owned()
}

/// Whether every character of `s` is an ASCII digit.
pub open spec fn all_digits(s: Seq<char>) -> bool {
    forall|i: int| 0 <= i < s.len() ==> '0' <= #[trigger] s[i] <= '9'
}

/// The number the decimal digits `s` spell.
pub open spec fn digits_value(s: Seq<char>) -> nat
    decreases s.len(),
{
    if s.len() == 0 {
        0
    } else {
        digits_value(s.drop_last()) * 10 + ((s.last() as int - '0' as int) as nat)
    }
}

/// The index of the first `c` in `s`, if any.
pub open spec fn index_of(s: Seq<char>, c: char) -> Option<int>
    decreases s.len(),
{
    if s.len() == 0 {
        None
    } else if s[0] == c {
        Some(0)
    } else {
        match index_of(s.drop_first(), c) {
            Some(i) => Some(i + 1),
            None => None,
        }
    }
}

/// `index_of` finds the first occurrence: where it gives an index, `c`
/// stands there and nowhere before; where it gives none, `c` is nowhere.
pub proof fn index_of_is_the_first(s: Seq<char>, c: char)
    ensures
        match index_of(s, c) {
            Some(i) => 0 <= i < s.len() && s[i] == c && forall|k: int| 0 <= k < i ==> s[k] != c,
            None => forall|k: int| 0 <= k < s.len() ==> s[k] != c,
        },
    decreases s.len(),
{
    if s.len() > 0 && s[0] != c {
        let t = s.drop_first();
        index_of_is_the_first(t, c);
        match index_of(t, c) {
            Some(i) => {
                assert forall|k: int| 0 <= k < i + 1 implies s[k] != c by {
                    if k > 0 {
                        assert(s[k] == t[k - 1]);
                    }
                }
            },
            None => {
                assert forall|k: int| 0 <= k < s.len() implies s[k] != c by {
                    if k > 0 {
                        assert(s[k] == t[k - 1]);
                    }
                }
            },
        }
    }
}

/// In digits followed by `c`, which is not a digit, the first `c` is the one
/// right after the digits.
proof fn lemma_first_after_digits(digits: Seq<char>, c: char, tail: Seq<char>)
    requires
        all_digits(digits),
        !('0' <= c <= '9'),
    ensures
        index_of(digits + seq![c] + tail, c) == Some(digits.len() as int),
{
    let s = digits + seq![c] + tail;
    index_of_is_the_first(s, c);
    assert(s[digits.len() as int] == c);
    match index_of(s, c) {
        Some(i) => {
            if i < digits.len() {
                assert(s[i] == digits[i]);
                assert('0' <= digits[i] <= '9');
            }
        },
        None => {},
    }
}

/// An extended entry splits at the first `:` after `: ` and the first `;`
/// after that: whatever the command holds, including `:` and `;`, a line
/// `: <start>:<duration>;<command>` with digit runs for start and duration
/// reads as that start, duration and command.
pub proof fn extended_entries_split_at_the_first_separators(
    start: Seq<char>,
    duration: Seq<char>,
    command: Seq<char>,
)
    requires
        start.len() > 0,
        duration.len() > 0,
        all_digits(start),
        all_digits(duration),
    ensures
        extended_entry(seq![':', ' '] + start + seq![':'] + duration + seq![';'] + command) == Some(
            (start, duration, command),
        ),
{
    let text = seq![':', ' '] + start + seq![':'] + duration + seq![';'] + command;
    let metadata = text.skip(2);
    let rest = duration + seq![';'] + command;
    assert(metadata =~= start + seq![':'] + rest);
    lemma_first_after_digits(start, ':', rest);
    let i = start.len() as int;
    assert(metadata.take(i) =~= start);
    assert(metadata.skip(i + 1) =~= rest);
    lemma_first_after_digits(duration, ';', command);
    let j = duration.len() as int;
    assert(rest.take(j) =~= duration);
    assert(rest.skip(j + 1) =~= command);
}

/// The start time, duration and command of an extended history entry
/// `: <start>:<duration>;<command>`, where start and duration are non-empty
/// runs of digits; `None` for a plain entry.
pub open spec fn extended_entry(text: Seq<char>) -> Option<(Seq<char>, Seq<char>, Seq<char>)> {
    if text.len() >= 2 && text[0] == ':' && text[1] == ' ' {
        let metadata = text.skip(2);
        match index_of(metadata, ':') {
            Some(i) => {
                let start = metadata.take(i);
                let rest = metadata.skip(i + 1);
                match index_of(rest, ';') {
                    Some(j) => {
                        let duration = rest.take(j);
                        let command = rest.skip(j + 1);
                        if start.len() > 0 && duration.len() > 0 && all_digits(start) && all_digits(
                            duration,
                        ) {
                            Some((start, duration, command))
                        } else {
                            None
                        }
                    },
                    None => None,
                }
            },
            None => None,
        }
    } else {
        None
    }
}

/// A number of seconds, in nanoseconds, if that fits in an `i64`.
pub open spec fn nanoseconds(seconds: nat) -> Option<i64> {
    if seconds * 1_000_000_000 <= i64::MAX {
        Some((seconds * 1_000_000_000) as i64)
    } else {
        None
    }
}

pub open spec fn extended_variant() -> Seq<u8> {
    seq![101u8, 120u8, 116u8, 101u8, 110u8, 100u8, 101u8, 100u8]
}

pub open spec fn plain_variant() -> Seq<u8> {
    seq![112u8, 108u8, 97u8, 105u8, 110u8]
}

/// The state of the zsh history parser between lines.
pub struct ZshView {
    /// The bytes of the command read so far.
    pub command: Seq<u8>,
    /// The line the command being read started on.
    pub command_line: Option<usize>,
    /// The timestamp given to the last plain entry.
    pub plain_timestamp_ns: i64,
}

/// An empty command makes no record: where no command was started, the
/// command is empty, or it is an extended entry with nothing after its
/// metadata, completing it gives nothing, leaves no command open and keeps
/// the plain timestamp.
pub proof fn empty_commands_complete_to_nothing(s: ZshView)
    requires
        s.command_line is None || s.command.len() == 0 || (extended_entry(utf8_lossy(s.command)) matches Some(
            (start, duration, command),
        ) && command.len() == 0),
    ensures
        zsh_complete(s).1 == Ok::<Option<RecordView>, HonuError>(None),
        zsh_complete(s).0.command_line is None,
        zsh_complete(s).0.plain_timestamp_ns == s.plain_timestamp_ns,
{
}

/// Ends the command read so far: the state after it and the record it makes,
/// if any. An extended entry is timed by its metadata; a plain entry is given
/// the next of the timestamps 1, 2, 3, ... in order, to keep plain entries
/// ordered.
pub open spec fn zsh_complete(s: ZshView) -> (ZshView, Result<Option<RecordView>, HonuError>) {
    match s.command_line {
        None => (s, Ok(None)),
        Some(line) => {
            let cleared = ZshView { command_line: None, ..s };
            if s.command.len() == 0 {
                (cleared, Ok(None))
            } else {
                let text = utf8_lossy(s.command);
                let taken = ZshView { command: Seq::empty(), ..cleared };
                match extended_entry(text) {
                    Some((start, duration, command)) => {
                        if command.len() == 0 {
                            (taken, Ok(None))
                        } else {
                            match nanoseconds(digits_value(start)) {
                                None => (
                                    taken,
                                    Err(
                                        HonuError::NanosecondsOverflow {
                                            field: Field::Timestamp,
                                            line,
                                        },
                                    ),
                                ),
                                Some(timestamp_ns) => match nanoseconds(digits_value(duration)) {
                                    None => (
                                        taken,
                                        Err(
                                            HonuError::NanosecondsOverflow {
                                                field: Field::Duration,
                                                line,
                                            },
                                        ),
                                    ),
                                    Some(duration_ns) => (
                                        taken,
                                        Ok(
                                            Some(
                                                RecordView {
                                                    execution: bare_execution(
                                                        command,
                                                        Some(duration_ns),
                                                        timestamp_ns,
                                                    ),
                                                    fingerprint: fingerprint(
                                                        extended_variant(),
                                                        seq![
                                                            encode_utf8(command),
                                                            be_u64(timestamp_ns as nat),
                                                            be_u64(duration_ns as nat),
                                                        ],
                                                    ),
                                                },
                                            ),
                                        ),
                                    ),
                                },
                            }
                        }
                    },
                    None => if s.plain_timestamp_ns == i64::MAX {
                        (taken, Err(HonuError::PlainTimestampOverflow))
                    } else {
                        let timestamp_ns = (s.plain_timestamp_ns + 1) as i64;
                        (
                            ZshView { plain_timestamp_ns: timestamp_ns, ..taken },
                            Ok(
                                Some(
                                    RecordView {
                                        execution: bare_execution(text, None, timestamp_ns),
                                        fingerprint: fingerprint(
                                            plain_variant(),
                                            seq![encode_utf8(text)],
                                        ),
                                    },
                                ),
                            ),
                        )
                    },
                }
            }
        },
    }
}

/// Reads one line: a line ending in a backslash continues the command on the
/// next line (the backslash becomes a newline); any other line ends it.
pub open spec fn zsh_parse(s: ZshView, line: LineView) -> (
    ZshView,
    Result<Option<RecordView>, HonuError>,
) {
    let continued = line.terminated && line.bytes.len() > 0 && line.bytes.last() == 92u8;
    let bytes = if continued {
        line.bytes.drop_last()
    } else {
        line.bytes
    };
    let started = ZshView {
        command: s.command + bytes,
        command_line: match s.command_line {
            Some(n) => Some(n),
            None => Some(line.number as usize),
        },
        ..s
    };
    if continued {
        (ZshView { command: started.command.push(10u8), ..started }, Ok(None))
    } else {
        zsh_complete(started)
    }
}

/// The view of a parser's result.
pub open spec fn record_result_view(r: Result<Option<Record>, HonuError>) -> Result<
    Option<RecordView>,
    HonuError,
> {
    match r {
        Ok(Some(record)) => Ok(Some(record@)),
        Ok(None) => Ok(None),
        Err(e) => Err(e),
    }
}

/// The zsh history parser.
#[derive(Debug, Default)]
pub struct Zsh {
    command: Vec<u8>,
    command_line: Option<usize>,
    plain_timestamp_ns: i64,
}

impl View for Zsh {
    type V = ZshView;

    closed spec fn view(&self) -> ZshView {
        ZshView {
            command: self.command@,
            command_line: self.command_line,
            plain_timestamp_ns: self.plain_timestamp_ns,
        }
    }
}

/// The characters of `s` from `start` up to `end`.
fn slice_chars(s: &Vec<char>, start: usize, end: usize) -> (r: Vec<char>)
    requires
        start <= end <= s@.len(),
    ensures
        r@ == s@.subrange(start as int, end as int),
{
    let mut r: Vec<char> = Vec::new();
    let mut i = start;
    while i < end
        invariant
            start <= i <= end <= s@.len(),
            r@ == s@.subrange(start as int, i as int),
        decreases end - i,
    {
        r.push(s[i]);
        i = i + 1;
    }
    r
}

/// The index of the first `c` in `s` at or after `from`.
fn find_char(s: &Vec<char>, from: usize, c: char) -> (r: Option<usize>)
    requires
        from <= s@.len(),
    ensures
        match r {
            Some(i) => index_of(s@.skip(from as int), c) == Some(i - from) && from <= i < s@.len(),
            None => index_of(s@.skip(from as int), c) is None,
        },
{
    let mut i = from;
    while i < s.len()
        invariant
            from <= i <= s@.len(),
            index_of(s@.skip(from as int), c) == match index_of(s@.skip(i as int), c) {
                Some(k) => Some(k + (i - from)),
                None => None,
            },
        decreases s@.len() - i,
    {
        assert(s@.skip(i as int).drop_first() == s@.skip(i + 1));
        if s[i] == c {
            return Some(i);
        }
        i = i + 1;
    }
    None
}

/// Whether every character of `s` from `start` up to `end` is an ASCII digit.
fn digits_between(s: &Vec<char>, start: usize, end: usize) -> (r: bool)
    requires
        start <= end <= s@.len(),
    ensures
        r == all_digits(s@.subrange(start as int, end as int)),
{
    let mut i = start;
    while i < end
        invariant
            start <= i <= end <= s@.len(),
            all_digits(s@.subrange(start as int, i as int)),
        decreases end - i,
    {
        if !('0' <= s[i] && s[i] <= '9') {
            assert(s@.subrange(start as int, end as int)[i - start] == s@[i as int]);
            return false;
        }
        i = i + 1;
    }
    true
}

/// The positions of the two separators of an extended entry in `text`.
fn split_extended(text: &Vec<char>) -> (r: Option<(usize, usize)>)
    ensures
        match r {
            Some((i, j)) => 2 <= i < j < text@.len() && extended_entry(text@) == Some(
                (
                    text@.subrange(2, i as int),
                    text@.subrange(i + 1, j as int),
                    text@.skip(j + 1),
                ),
            ),
            None => extended_entry(text@) is None,
        },
{
    if text.len() < 2 || text[0] != ':' || text[1] != ' ' {
        return None;
    }
    let ghost metadata = text@.skip(2);
    assert(text@.skip(2) == metadata);
    let i = match find_char(text, 2, ':') {
        Some(i) => i,
        None => return None,
    };
    assert(metadata.take(i - 2) == text@.subrange(2, i as int));
    assert(metadata.skip(i - 2 + 1) == text@.skip(i + 1));
    let j = match find_char(text, i + 1, ';') {
        Some(j) => j,
        None => return None,
    };
    assert(text@.skip(i + 1).take(j - (i + 1)) == text@.subrange(i + 1, j as int));
    assert(text@.skip(i + 1).skip(j - (i + 1) + 1) == text@.skip(j + 1));
    if i == 2 || j == i + 1 || !digits_between(text, 2, i) || !digits_between(text, i + 1, j) {
        return None;
    }
    Some((i, j))
}

/// The nanoseconds in the number of seconds the digits of `s` from `start` up
/// to `end` spell, if that fits in an `i64`.
fn parse_nanoseconds(s: &Vec<char>, start: usize, end: usize) -> (r: Option<i64>)
    requires
        start <= end <= s@.len(),
        all_digits(s@.subrange(start as int, end as int)),
    ensures
        r == nanoseconds(digits_value(s@.subrange(start as int, end as int))),
{
    // The largest number of seconds whose nanoseconds fit in an i64.
    let limit: u64 = 9_223_372_036;
    let mut value: u64 = 0;
    let mut i = start;
    while i < end
        invariant
            start <= i <= end <= s@.len(),
            all_digits(s@.subrange(start as int, end as int)),
            value == digits_value(s@.subrange(start as int, i as int)),
            value <= limit,
            limit == 9_223_372_036,
        decreases end - i,
    {
        assert(s@.subrange(start as int, i + 1).drop_last() == s@.subrange(start as int, i as int));
        assert(s@.subrange(start as int, end as int)[i - start] == s@[i as int]);
        let c = s[i];
        assert('0' <= c <= '9');
        let d = (c as u32 - '0' as u32) as u64;
        assert(d <= 9);
        assert(digits_value(s@.subrange(start as int, i + 1)) == value * 10 + d);
        if value > (limit - d) / 10 {
            proof {
                lemma_digits_value_grows(s@.subrange(start as int, end as int), i + 1 - start);
                assert(s@.subrange(start as int, end as int).take(i + 1 - start) == s@.subrange(
                    start as int,
                    i + 1,
                ));
                assert(value * 10 + d > limit);
                let total = digits_value(s@.subrange(start as int, end as int));
                assert(total * 1_000_000_000 > i64::MAX) by (nonlinear_arith)
                    requires
                        total >= limit + 1,
                        limit == 9_223_372_036,
                ;
            }
            return None;
        }
        value = value * 10 + d;
        i = i + 1;
    }
    assert(value * 1_000_000_000 <= i64::MAX) by (nonlinear_arith)
        requires
            value <= limit,
            limit == 9_223_372_036,
    ;
    Some((value * 1_000_000_000) as i64)
}

/// Appending digits never makes a number smaller.
proof fn lemma_digits_value_grows(s: Seq<char>, k: int)
    requires
        0 <= k <= s.len(),
        all_digits(s),
    ensures
        digits_value(s.take(k)) <= digits_value(s),
    decreases s.len(),
{
    if k < s.len() {
        assert(s.drop_last().take(k) == s.take(k));
        assert(all_digits(s.drop_last())) by {
            assert forall|i: int| 0 <= i < s.drop_last().len() implies '0' <= #[trigger] s.drop_last()[i] <= '9' by {
                assert(s.drop_last()[i] == s[i]);
            }
        }
        lemma_digits_value_grows(s.drop_last(), k);
    } else {
        assert(s.take(k) == s);
    }
}

/// The UTF-8 bytes of `s`.
fn utf8_bytes(s: &String) -> (r: Vec<u8>)
    ensures
        r@ == encode_utf8(s@),
{
    let mut r: Vec<u8> = Vec::new();
    append_bytes(&mut r, s.as_str().as_bytes());
    r
}

impl Zsh {
    pub fn new() -> (r: Zsh)
        ensures
            r@ == (ZshView { command: Seq::empty(), command_line: None, plain_timestamp_ns: 0 }),
    {
        Zsh { command: Vec::new(), command_line: None, plain_timestamp_ns: 0 }
    }

    /// Ends the command read so far, and makes its record.
    pub fn complete(&mut self) -> (r: Result<Option<Record>, HonuError>)
        ensures
            (final(self)@, record_result_view(r)) == zsh_complete(old(self)@),
    {
        let line = match self.command_line.take() {
            Some(line) => line,
            None => return Ok(None),
        };
        if self.command.len() == 0 {
            return Ok(None);
        }
        let mut raw: Vec<u8> = Vec::new();
        std::mem::swap(&mut raw, &mut self.command);
        let command = decode_lossy(raw.as_slice());
        let text = chars_of(command.as_str());
        match split_extended(&text) {
            Some((i, j)) => {
                assert(j < text@.len());
                if j + 1 == text.len() {
                    assert(text@.skip(j + 1) == Seq::<char>::empty());
                    return Ok(None);
                }
                let timestamp_ns = match parse_nanoseconds(&text, 2, i) {
                    Some(t) => t,
                    None => {
                        return Err(
                            HonuError::NanosecondsOverflow { field: Field::Timestamp, line },
                        );
                    },
                };
                let duration_ns = match parse_nanoseconds(&text, i + 1, j) {
                    Some(d) => d,
                    None => {
                        return Err(HonuError::NanosecondsOverflow { field: Field::Duration, line });
                    },
                };
                let rest = slice_chars(&text, j + 1, text.len());
                assert(rest@ == text@.skip(j + 1));
                let command = string_from_chars(rest.as_slice());
                let components = vec![
                    utf8_bytes(&command),
                    be_bytes_of(timestamp_ns as u64, 8),
                    be_bytes_of(duration_ns as u64, 8),
                ];
                let execution = Execution {
                    command,
                    directory: None,
                    duration_ns: Some(duration_ns),
                    exit_code: None,
                    hostname: None,
                    session: None,
                    shell: None,
                    timestamp_ns,
                };
                let record = Record::new(execution, extended_variant_bytes().as_slice(), components.as_slice());
                assert(crate::record::byte_views(components@) == seq![
                    encode_utf8(rest@),
                    be_u64(timestamp_ns as nat),
                    be_u64(duration_ns as nat),
                ]);
                Ok(Some(record))
            },
            None => {
                if self.plain_timestamp_ns == i64::MAX {
                    return Err(HonuError::PlainTimestampOverflow);
                }
                self.plain_timestamp_ns = self.plain_timestamp_ns + 1;
                let components = vec![utf8_bytes(&command)];
                let execution = Execution {
                    command,
                    directory: None,
                    duration_ns: None,
                    exit_code: None,
                    hostname: None,
                    session: None,
                    shell: None,
                    timestamp_ns: self.plain_timestamp_ns,
                };
                let record = Record::new(execution, plain_variant_bytes().as_slice(), components.as_slice());
                assert(crate::record::byte_views(components@) == seq![encode_utf8(text@)]);
                Ok(Some(record))
            },
        }
    }
}

fn extended_variant_bytes() -> (r: Vec<u8>)
    ensures
        r@ == extended_variant(),
{
    let mut r: Vec<u8> = Vec::new();
    r.push(101u8);
    r.push(120u8);
    r.push(116u8);
    r.push(101u8);
    r.push(110u8);
    r.push(100u8);
    r.push(101u8);
    r.push(100u8);
    assert(r@ == extended_variant());
    r
}

fn plain_variant_bytes() -> (r: Vec<u8>)
    ensures
        r@ == plain_variant(),
{
    let mut r: Vec<u8> = Vec::new();
    r.push(112u8);
    r.push(108u8);
    r.push(97u8);
    r.push(105u8);
    r.push(110u8);
    assert(r@ == plain_variant());
    r
}

} // verus!

verus! {

impl EntryParser for Zsh {
    type Entry = Record;

    open spec fn parse_post(
        &self,
        line: LineView,
        after: Self,
        result: Result<Option<Record>, HonuError>,
    ) -> bool {
        (after@, record_result_view(result)) == zsh_parse(self@, line)
    }

    open spec fn finish_post(&self, after: Self, result: Result<Option<Record>, HonuError>) -> bool {
        (after@, record_result_view(result)) == zsh_complete(self@)
    }

    fn finish(&mut self) -> (r: Result<Option<Record>, HonuError>) {
        self.complete()
    }

    fn parse(&mut self, line: Line) -> (r: Result<Option<Record>, HonuError>) {
        let Line { bytes, number, terminated } = line;
        let mut bytes = bytes;
        let continued = terminated && bytes.len() > 0 && bytes[bytes.len() - 1] == 92u8;
        if continued {
            bytes.pop();
        }
        if self.command_line.is_none() {
            self.command_line = Some(number);
        }
        append_bytes(&mut self.command, bytes.as_slice());
        if continued {
            self.command.push(10u8);
            Ok(None)
        } else {
            self.complete()
        }
    }
}

/// The view of an item handed out by `Records`.
pub open spec fn item_view(it: Option<Result<Record, HonuError>>) -> Option<Result<RecordView, HonuError>> {
    match it {
        Some(Ok(r)) => Some(Ok(r@)),
        Some(Err(e)) => Some(Err(e)),
        None => None,
    }
}

/// One pull of records from `lines` by the zsh parser in state `s`: the lines
/// left, the parser's state, whether the records are used up, and the item.
pub open spec fn zsh_pull(lines: LinesView, s: ZshView) -> (
    LinesView,
    ZshView,
    bool,
    Option<Result<RecordView, HonuError>>,
)
    decreases lines_measure(lines),
{
    proof {
        lemma_lines_next_decreases(lines);
    }
    let (next_lines, next) = lines_next(lines);
    match next {
        Some(Ok(line)) => {
            let (s1, r) = zsh_parse(s, line);
            match r {
                Ok(Some(e)) => (next_lines, s1, false, Some(Ok(e))),
                Ok(None) => zsh_pull(next_lines, s1),
                Err(e) => (next_lines, s1, true, Some(Err(e))),
            }
        },
        Some(Err(e)) => (next_lines, s, true, Some(Err(e))),
        None => {
            let (s1, r) = zsh_complete(s);
            (
                next_lines,
                s1,
                true,
                match r {
                    Ok(Some(e)) => Some(Ok(e)),
                    Ok(None) => None,
                    Err(e) => Some(Err(e)),
                },
            )
        },
    }
}

/// A pull never adds input, and one that hands out a record and goes on
/// used up at least one line.
pub proof fn lemma_zsh_pull_measure(lines: LinesView, s: ZshView)
    ensures
        lines_measure(zsh_pull(lines, s).0) <= lines_measure(lines),
        zsh_pull(lines, s).3 matches Some(Ok(_)) && !zsh_pull(lines, s).2 ==> lines_measure(
            zsh_pull(lines, s).0,
        ) < lines_measure(lines),
    decreases lines_measure(lines),
{
    lemma_lines_next_decreases(lines);
    let (next_lines, next) = lines_next(lines);
    match next {
        Some(Ok(line)) => {
            let (s1, r) = zsh_parse(s, line);
            if r is Ok && r->Ok_0 is None {
                lemma_zsh_pull_measure(next_lines, s1);
            }
        },
        _ => {},
    }
}

/// The records the zsh parser in state `s` makes of `lines`, or the first error.
pub open spec fn zsh_collect(lines: LinesView, s: ZshView) -> Result<Seq<RecordView>, HonuError>
    decreases lines_measure(lines),
{
    proof {
        lemma_zsh_pull_measure(lines, s);
    }
    let (next_lines, next_state, done, item) = zsh_pull(lines, s);
    match item {
        None => Ok(Seq::empty()),
        Some(Err(e)) => Err(e),
        Some(Ok(record)) => if done {
            Ok(seq![record])
        } else {
            match zsh_collect(next_lines, next_state) {
                Ok(rest) => Ok(seq![record] + rest),
                Err(e) => Err(e),
            }
        },
    }
}

/// The records of a zsh history file, or the first error in it.
pub open spec fn zsh_history(contents: Seq<u8>) -> Result<Seq<RecordView>, HonuError> {
    let (bytes, failure) = unmetafied_history(contents);
    zsh_collect(
        LinesView { rest: bytes, number: 0, done: false, failure },
        ZshView { command: Seq::empty(), command_line: None, plain_timestamp_ns: 0 },
    )
}

/// The zsh parser is deterministic: whatever one pull of `Records` may do, it
/// does what `zsh_pull` says.
proof fn lemma_pull_is_zsh_pull(
    lines: LinesView,
    parser: Zsh,
    lines1: LinesView,
    parser1: Zsh,
    done1: bool,
    item: Option<Result<Record, HonuError>>,
)
    requires
        pull(lines, parser, lines1, parser1, done1, item),
    ensures
        (lines1, parser1@, done1, item_view(item)) == zsh_pull(lines, parser@),
    decreases lines_measure(lines),
{
    lemma_lines_next_decreases(lines);
    let (next_lines, next) = lines_next(lines);
    match next {
        Some(Ok(_)) => {
            let (line, p, r) = choose|line: LineView, p: Zsh, r: Result<Option<Record>, HonuError>|
                #[trigger] parser.parse_post(line, p, r) && next == Some(
                    Ok::<LineView, HonuError>(line),
                ) && match r {
                    Ok(Some(e)) => lines1 == next_lines && parser1 == p && !done1 && item == Some(
                        Ok::<Record, HonuError>(e),
                    ),
                    Ok(None) => {
                        &&& lines_measure(next_lines) < lines_measure(lines)
                        &&& pull(next_lines, p, lines1, parser1, done1, item)
                    },
                    Err(e) => lines1 == next_lines && parser1 == p && done1 && item == Some(
                        Err::<Record, HonuError>(e),
                    ),
                };
            if r is Ok && r->Ok_0 is None {
                lemma_pull_is_zsh_pull(next_lines, p, lines1, parser1, done1, item);
            }
        },
        Some(Err(_)) => {},
        None => {
            let (p, r) = choose|p: Zsh, r: Result<Option<Record>, HonuError>|
                #[trigger] parser.finish_post(p, r) && lines1 == next_lines && parser1 == p
                    && done1 && item == crate::parser::item_of(r);
        },
    }
}

/// The records already collected, followed by what is left to collect.
pub open spec fn prepend_records(
    done: Seq<RecordView>,
    rest: Result<Seq<RecordView>, HonuError>,
) -> Result<Seq<RecordView>, HonuError> {
    match rest {
        Ok(rest) => Ok(done + rest),
        Err(e) => Err(e),
    }
}

/// The views of `records`.
pub open spec fn record_views(records: Seq<Record>) -> Seq<RecordView> {
    records.map_values(|r: Record| r@)
}

impl Zsh {
    /// The records of the zsh history `contents`.
    pub fn records(contents: &[u8]) -> (r: Records<Zsh>)
        ensures
            r.wf(),
            !r.is_done(),
            r.remaining() == (LinesView {
                rest: unmetafied_history(contents@).0,
                number: 0,
                done: false,
                failure: unmetafied_history(contents@).1,
            }),
            r.parser_state()@ == (ZshView {
                command: Seq::empty(),
                command_line: None,
                plain_timestamp_ns: 0,
            }),
    {
        let (bytes, failure) = unmetafy_history(contents);
        Records::new(bytes, failure, Zsh::new())
    }

    /// The records of the zsh history `contents`, or the first error in it.
    pub fn history(contents: &[u8]) -> (r: Result<Vec<Record>, HonuError>)
        ensures
            match r {
                Ok(records) => zsh_history(contents@) == Ok::<Seq<RecordView>, HonuError>(
                    record_views(records@),
                ),
                Err(e) => zsh_history(contents@) == Err::<Seq<RecordView>, HonuError>(e),
            },
    {
        Zsh::records(contents).collect()
    }
}

/// The records `records` has left to hand out, or the first error: none once
/// it is done.
pub open spec fn records_left(records: Records<Zsh>) -> Result<Seq<RecordView>, HonuError> {
    if records.is_done() {
        Ok(Seq::empty())
    } else {
        zsh_collect(records.remaining(), records.parser_state()@)
    }
}

impl Records<Zsh> {
    /// All the records left, or the first error.
    pub fn collect(self) -> (r: Result<Vec<Record>, HonuError>)
        requires
            self.wf(),
        ensures
            match r {
                Ok(records) => records_left(self) == Ok::<Seq<RecordView>, HonuError>(
                    record_views(records@),
                ),
                Err(e) => records_left(self) == Err::<Seq<RecordView>, HonuError>(e),
            },
    {
        let ghost goal = records_left(self);
        let mut records = self;
        let mut out: Vec<Record> = Vec::new();
        loop
            invariant
                records.wf(),
                goal == records_left(self),
                goal == prepend_records(
                    record_views(out@),
                    if records.is_done() {
                        Ok(Seq::empty())
                    } else {
                        zsh_collect(records.remaining(), records.parser_state()@)
                    },
                ),
            decreases lines_measure(records.remaining()) + if records.is_done() {
                0int
            } else {
                1int
            },
        {
            let ghost was_done = records.is_done();
            let ghost lines0 = records.remaining();
            let ghost parser0 = records.parser_state();
            let ghost state0 = parser0@;
            let item = records.next();
            proof {
                if !was_done {
                    lemma_pull_is_zsh_pull(
                        lines0,
                        parser0,
                        records.remaining(),
                        records.parser_state(),
                        records.is_done(),
                        item,
                    );
                }
            }
            match item {
                None => {
                    assert(record_views(out@) + Seq::<RecordView>::empty() == record_views(out@));
                    return Ok(out);
                },
                Some(Err(e)) => {
                    return Err(e);
                },
                Some(Ok(record)) => {
                    proof {
                        lemma_zsh_pull_measure(lines0, state0);
                    }
                    let ghost before = record_views(out@);
                    out.push(record);
                    assert(record_views(out@) == before.push(record@));
                    assert(before + (seq![record@] + Seq::<RecordView>::empty()) == before.push(
                        record@,
                    ) + Seq::<RecordView>::empty());
                    assert(forall|rest: Seq<RecordView>|
                        before + (seq![record@] + rest) == #[trigger] (before.push(record@) + rest));
                },
            }
        }
    }
}

} // verus!

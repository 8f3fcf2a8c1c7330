//! Splitting a byte stream into numbered lines.

use vstd::prelude::*;
use crate::error::HonuError;

verus! {

/// One line of input, without its newline.
#[derive(Clone, Debug, PartialEq, Eq)]
pub struct Line {
    pub bytes: Vec<u8>,
    /// The 1-based number of the line in its input.
    pub number: usize,
    /// Whether a newline ended the line (only the last line of an input can lack one).
    pub terminated: bool,
}

pub struct LineView {
    pub bytes: Seq<u8>,
    pub number: nat,
    pub terminated: bool,
}

impl View for Line {
    type V = LineView;

    open spec fn view(&self) -> LineView {
        LineView { bytes: self.bytes@, number: self.number as nat, terminated: self.terminated }
    }
}

/// What remains to be read from a `Lines`.
pub struct LinesView {
    /// The bytes not read yet.
    pub rest: Seq<u8>,
    /// How many lines were handed out.
    pub number: nat,
    /// Whether the input is used up.
    pub done: bool,
    /// The error reading the input ended with, reported once the bytes before it are read.
    pub failure: Option<HonuError>,
}

/// The index of the first newline of `s`, if any.
pub open spec fn newline_index(s: Seq<u8>) -> Option<int>
    decreases s.len(),
{
    if s.len() == 0 {
        None
    } else if s[0] == 10u8 {
        Some(0)
    } else {
        match newline_index(s.drop_first()) {
            Some(i) => Some(i + 1),
            None => None,
        }
    }
}

/// How far a `Lines` is from being used up.
pub open spec fn lines_measure(v: LinesView) -> nat {
    v.rest.len() + if v.done {
        0nat
    } else {
        1nat
    }
}

/// The state and result of reading the next line from `v`: the bytes up to the
/// next newline; at the end of input the unterminated last line, if any; then
/// the input's error, if it has one, or nothing. An error drops a partial last line.
pub open spec fn lines_next(v: LinesView) -> (LinesView, Option<Result<LineView, HonuError>>) {
    if v.done {
        (v, None)
    } else if v.rest.len() == 0 {
        (
            LinesView { done: true, failure: None, ..v },
            match v.failure {
                Some(e) => Some(Err(e)),
                None => None,
            },
        )
    } else {
        match newline_index(v.rest) {
            Some(i) => (
                LinesView { rest: v.rest.skip(i + 1), number: v.number + 1, ..v },
                Some(
                    Ok(
                        LineView { bytes: v.rest.take(i), number: v.number + 1, terminated: true },
                    ),
                ),
            ),
            None => match v.failure {
                Some(e) => (LinesView { done: true, failure: None, ..v }, Some(Err(e))),
                None => (
                    LinesView { rest: Seq::empty(), number: v.number + 1, ..v },
                    Some(Ok(LineView { bytes: v.rest, number: v.number + 1, terminated: false })),
                ),
            },
        }
    }
}

pub proof fn lemma_newline_index(s: Seq<u8>)
    ensures
        match newline_index(s) {
            Some(i) => 0 <= i < s.len() && s[i] == 10u8 && forall|j: int|
                0 <= j < i ==> s[j] != 10u8,
            None => forall|j: int| 0 <= j < s.len() ==> s[j] != 10u8,
        },
    decreases s.len(),
{
    if s.len() > 0 {
        lemma_newline_index(s.drop_first());
        if s[0] != 10u8 {
            assert forall|j: int| 1 <= j < s.len() implies s[j] == s.drop_first()[j - 1] by {}
        }
    }
}

/// Reading a line uses the input up: a line consumes at least one byte.
pub proof fn lemma_lines_next_decreases(v: LinesView)
    ensures
        lines_next(v).1 matches Some(Ok(_)) ==> lines_measure(lines_next(v).0) < lines_measure(v),
{
    lemma_newline_index(v.rest);
}

/// Reading a line loses and adds nothing: the line's bytes, followed by the
/// newline that ended it if one did, and then what is left to read, are what
/// was left before; lines are numbered one after another; and only a line that
/// ends the input lacks a newline.
pub proof fn lines_lose_nothing(v: LinesView)
    ensures
        lines_next(v).1 matches Some(Ok(line)) ==> ({
            let after = lines_next(v).0;
            &&& line.bytes + (if line.terminated {
                seq![10u8]
            } else {
                Seq::<u8>::empty()
            }) + after.rest == v.rest
            &&& line.number == v.number + 1
            &&& after.number == line.number
            &&& !line.terminated ==> after.rest.len() == 0
            &&& line.terminated ==> !line.bytes.contains(10u8)
        }),
{
    lemma_newline_index(v.rest);
    if !v.done && v.rest.len() > 0 {
        match newline_index(v.rest) {
            Some(i) => {
                assert(v.rest.take(i) + seq![10u8] + v.rest.skip(i + 1) =~= v.rest);
                assert(!v.rest.take(i).contains(10u8)) by {
                    if v.rest.take(i).contains(10u8) {
                        let k = choose|k: int| 0 <= k < i && v.rest.take(i)[k] == 10u8;
                        assert(v.rest[k] == 10u8);
                    }
                }
            },
            None => {
                assert(v.rest + Seq::<u8>::empty() + Seq::<u8>::empty() =~= v.rest);
            },
        }
    }
}

/// Every line read from `v` until its end, and the error it ends with, if any.
pub open spec fn read_all(v: LinesView) -> (Seq<LineView>, Option<HonuError>)
    decreases lines_measure(v),
{
    let (after, item) = lines_next(v);
    match item {
        Some(Ok(line)) => {
            proof {
                lemma_lines_next_decreases(v);
            }
            let (rest, e) = read_all(after);
            (seq![line] + rest, e)
        },
        Some(Err(e)) => (Seq::empty(), Some(e)),
        None => (Seq::empty(), None),
    }
}

/// The bytes `lines` were read from: each line's bytes, followed by its
/// newline where it had one.
pub open spec fn rejoined(lines: Seq<LineView>) -> Seq<u8>
    decreases lines.len(),
{
    if lines.len() == 0 {
        Seq::empty()
    } else {
        lines[0].bytes + (if lines[0].terminated {
            seq![10u8]
        } else {
            Seq::<u8>::empty()
        }) + rejoined(lines.drop_first())
    }
}

/// Splitting a whole input that reads without error loses and adds nothing:
/// the lines, each followed by its newline where it had one, are the input;
/// they are numbered on from the lines read before, one after another; and
/// reading ends without an error.
pub proof fn lines_rejoin_to_input(v: LinesView)
    requires
        !v.done,
        v.failure is None,
    ensures
        read_all(v).1 is None,
        rejoined(read_all(v).0) == v.rest,
        forall|i: int|
            0 <= i < read_all(v).0.len() ==> (#[trigger] read_all(v).0[i]).number == v.number + i + 1,
    decreases lines_measure(v),
{
    lines_lose_nothing(v);
    lemma_lines_next_decreases(v);
    let (after, item) = lines_next(v);
    if let Some(Ok(line)) = item {
        if after.rest.len() > 0 || !after.done {
            lines_rejoin_to_input(after);
        }
        let (rest, e) = read_all(after);
        let all = seq![line] + rest;
        assert(all.drop_first() =~= rest);
        assert(all[0] == line);
        assert forall|i: int| 0 <= i < all.len() implies (#[trigger] all[i]).number == v.number + i + 1 by {
            if i > 0 {
                assert(all[i] == rest[i - 1]);
            }
        }
    }
}

/// The view of a read's result.
pub open spec fn read_view(r: Option<Result<Line, HonuError>>) -> Option<Result<LineView, HonuError>> {
    match r {
        Some(Ok(line)) => Some(Ok(line@)),
        Some(Err(e)) => Some(Err(e)),
        None => None,
    }
}

/// Numbered lines of an in-memory input.
pub struct Lines {
    bytes: Vec<u8>,
    position: usize,
    number: usize,
    done: bool,
    failure: Option<HonuError>,
}

impl View for Lines {
    type V = LinesView;

    closed spec fn view(&self) -> LinesView {
        LinesView {
            rest: self.bytes@.skip(self.position as int),
            number: self.number as nat,
            done: self.done,
            failure: self.failure,
        }
    }
}

impl Lines {
    /// The read position stays within the input, and every line handed out
    /// used at least one byte.
    pub closed spec fn wf(&self) -> bool {
        &&& self.position <= self.bytes@.len()
        &&& self.number <= self.position
    }

    /// The lines of `bytes`; `failure` is the error that reading them ended with, if any.
    pub fn new(bytes: Vec<u8>, failure: Option<HonuError>) -> (r: Lines)
        ensures
            r.wf(),
            r@ == (LinesView { rest: bytes@, number: 0, done: false, failure }),
    {
        let r = Lines { bytes, position: 0, number: 0, done: false, failure };
        assert(r.bytes@.skip(0) == r.bytes@);
        r
    }

    /// The next line, or the input's error, or `None` at the end.
    pub fn next(&mut self) -> (r: Option<Result<Line, HonuError>>)
        requires
            old(self).wf(),
        ensures
            final(self).wf(),
            (final(self)@, read_view(r)) == lines_next(old(self)@),
    {
        if self.done {
            return None;
        }
        let length = self.bytes.len();
        if self.position == length {
            self.done = true;
            return match self.failure.take() {
                Some(e) => Some(Err(e)),
                None => None,
            };
        }
        let ghost rest = self.bytes@.skip(self.position as int);
        proof {
            lemma_newline_index(rest);
        }
        let mut end = self.position;
        while end < length && self.bytes[end] != 10u8
            invariant
                self.position <= end <= length,
                length == self.bytes@.len(),
                rest == self.bytes@.skip(self.position as int),
                forall|j: int| self.position <= j < end ==> self.bytes@[j] != 10u8,
            decreases length - end,
        {
            end = end + 1;
        }
        if end < length {
            let bytes = slice_bytes(&self.bytes, self.position, end);
            assert(newline_index(rest) == Some(end - self.position)) by {
                assert(rest[end - self.position] == 10u8);
                assert(forall|j: int| 0 <= j < end - self.position ==> rest[j] != 10u8);
            }
            assert(rest.take(end - self.position) == bytes@);
            assert(rest.skip(end - self.position + 1) == self.bytes@.skip(end + 1));
            self.position = end + 1;
            self.number = self.number + 1;
            Some(Ok(Line { bytes, number: self.number, terminated: true }))
        } else {
            assert(newline_index(rest) is None) by {
                assert(forall|j: int| 0 <= j < rest.len() ==> rest[j] != 10u8);
            }
            match self.failure.take() {
                Some(e) => {
                    self.done = true;
                    Some(Err(e))
                },
                None => {
                    let bytes = slice_bytes(&self.bytes, self.position, end);
                    assert(rest == bytes@);
                    self.position = end;
                    self.number = self.number + 1;
                    assert(self.bytes@.skip(self.position as int) == Seq::<u8>::empty());
                    Some(Ok(Line { bytes, number: self.number, terminated: false }))
                },
            }
        }
    }
}

/// The bytes of `v` from `start` up to `end`.
pub fn slice_bytes(v: &Vec<u8>, start: usize, end: usize) -> (r: Vec<u8>)
    requires
        start <= end <= v@.len(),
    ensures
        r@ == v@.subrange(start as int, end as int),
{
    let mut r: Vec<u8> = Vec::new();
    let mut i = start;
    while i < end
        invariant
            start <= i <= end <= v@.len(),
            r@ == v@.subrange(start as int, i as int),
        decreases end - i,
    {
        r.push(v[i]);
        i = i + 1;
    }
    r
}

} // verus!

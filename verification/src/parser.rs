//! Turning numbered lines into entries with a line-oriented parser.

use vstd::prelude::*;
use crate::error::HonuError;
use crate::lines::{lemma_lines_next_decreases, lines_measure, lines_next, Line, LineView, Lines, LinesView};
use crate::record::Record;

verus! {

/// A parser that reads its input a line at a time and hands out entries.
pub trait EntryParser: Sized {
    type Entry;

    /// Whether reading `line` in state `self` may leave the parser in state
    /// `after` with `result`; a parser that states nothing allows anything.
    open spec fn parse_post(&self, line: LineView, after: Self, result: Result<Option<Self::Entry>, HonuError>) -> bool {
        true
    }

    /// Whether ending the input in state `self` may leave the parser in state
    /// `after` with `result`; a parser that states nothing allows anything.
    open spec fn finish_post(&self, after: Self, result: Result<Option<Self::Entry>, HonuError>) -> bool {
        true
    }

    /// Ends the input, handing out the entry still being read, if any.
    fn finish(&mut self) -> (r: Result<Option<Self::Entry>, HonuError>)
        ensures
            old(self).finish_post(*final(self), r),
    ;

    /// Reads one line, handing out the entry it completes, if any.
    fn parse(&mut self, line: Line) -> (r: Result<Option<Self::Entry>, HonuError>)
        ensures
            old(self).parse_post(line@, *final(self), r),
    ;
}

/// The item an entry result stands for.
pub open spec fn item_of<E>(r: Result<Option<E>, HonuError>) -> Option<Result<E, HonuError>> {
    match r {
        Ok(Some(e)) => Some(Ok(e)),
        Ok(None) => None,
        Err(e) => Some(Err(e)),
    }
}

/// Whether one pull of entries from `lines` with `parser` may end with
/// `lines1`, `parser1`, the end flag `done1` and `item`: lines are read and
/// handed to the parser until it produces an entry or an error; at the end of
/// the lines the parser is finished; an error ends everything.
pub open spec fn pull<P: EntryParser>(
    lines: LinesView,
    parser: P,
    lines1: LinesView,
    parser1: P,
    done1: bool,
    item: Option<Result<P::Entry, HonuError>>,
) -> bool
    decreases lines_measure(lines),
{
    let (next_lines, next) = lines_next(lines);
    match next {
        Some(Ok(_)) => exists|line: LineView, p: P, r: Result<Option<P::Entry>, HonuError>|
            #[trigger] parser.parse_post(line, p, r) && next == Some(Ok::<LineView, HonuError>(line))
                && match r {
                Ok(Some(e)) => lines1 == next_lines && parser1 == p && !done1 && item == Some(
                    Ok::<P::Entry, HonuError>(e),
                ),
                Ok(None) => {
                    &&& lines_measure(next_lines) < lines_measure(lines)
                    &&& pull(next_lines, p, lines1, parser1, done1, item)
                },
                Err(e) => lines1 == next_lines && parser1 == p && done1 && item == Some(
                    Err::<P::Entry, HonuError>(e),
                ),
            },
        Some(Err(e)) => lines1 == next_lines && parser1 == parser && done1 && item == Some(
            Err::<P::Entry, HonuError>(e),
        ),
        None => exists|p: P, r: Result<Option<P::Entry>, HonuError>|
            #[trigger] parser.finish_post(p, r) && lines1 == next_lines && parser1 == p && done1
                && item == item_of(r),
    }
}

/// A pull ends the entries exactly at an error or at the end of the lines:
/// an error, or nothing left to hand out, leaves the entries done, and while
/// they are not done a pull hands out an entry.
pub proof fn pulls_end_at_errors_and_the_end<P: EntryParser>(
    lines: LinesView,
    parser: P,
    lines1: LinesView,
    parser1: P,
    done1: bool,
    item: Option<Result<P::Entry, HonuError>>,
)
    requires
        pull(lines, parser, lines1, parser1, done1, item),
    ensures
        item matches Some(Err(_)) ==> done1,
        item is None ==> done1,
        !done1 ==> item matches Some(Ok(_)),
    decreases lines_measure(lines),
{
    let (next_lines, next) = lines_next(lines);
    if next is Some && next->Some_0 is Ok {
        let (line, p, r) = choose|line: LineView, p: P, r: Result<Option<P::Entry>, HonuError>|
            #[trigger] parser.parse_post(line, p, r) && next == Some(Ok::<LineView, HonuError>(line))
                && match r {
                Ok(Some(e)) => lines1 == next_lines && parser1 == p && !done1 && item == Some(
                    Ok::<P::Entry, HonuError>(e),
                ),
                Ok(None) => {
                    &&& lines_measure(next_lines) < lines_measure(lines)
                    &&& pull(next_lines, p, lines1, parser1, done1, item)
                },
                Err(e) => lines1 == next_lines && parser1 == p && done1 && item == Some(
                    Err::<P::Entry, HonuError>(e),
                ),
            };
        if r matches Ok(None) {
            pulls_end_at_errors_and_the_end(next_lines, p, lines1, parser1, done1, item);
        }
    }
}

proof fn lemma_pull_entry<P: EntryParser>(
    lines: LinesView,
    parser: P,
    line: LineView,
    p: P,
    entry: P::Entry,
)
    requires
        lines_next(lines).1 == Some(Ok::<LineView, HonuError>(line)),
        parser.parse_post(line, p, Ok(Some(entry))),
    ensures
        pull(lines, parser, lines_next(lines).0, p, false, Some(Ok::<P::Entry, HonuError>(entry))),
{
    assert(parser.parse_post(line, p, Ok::<Option<P::Entry>, HonuError>(Some(entry))));
}

proof fn lemma_pull_parse_error<P: EntryParser>(
    lines: LinesView,
    parser: P,
    line: LineView,
    p: P,
    e: HonuError,
)
    requires
        lines_next(lines).1 == Some(Ok::<LineView, HonuError>(line)),
        parser.parse_post(line, p, Err(e)),
    ensures
        pull(lines, parser, lines_next(lines).0, p, true, Some(Err::<P::Entry, HonuError>(e))),
{
    assert(parser.parse_post(line, p, Err::<Option<P::Entry>, HonuError>(e)));
}

proof fn lemma_pull_skip<P: EntryParser>(
    lines: LinesView,
    parser: P,
    line: LineView,
    p: P,
    lines1: LinesView,
    parser1: P,
    done1: bool,
    item: Option<Result<P::Entry, HonuError>>,
)
    requires
        lines_next(lines).1 == Some(Ok::<LineView, HonuError>(line)),
        parser.parse_post(line, p, Ok(None)),
        pull(lines_next(lines).0, p, lines1, parser1, done1, item),
    ensures
        pull(lines, parser, lines1, parser1, done1, item),
{
    lemma_lines_next_decreases(lines);
    assert(parser.parse_post(line, p, Ok::<Option<P::Entry>, HonuError>(None)));
}

proof fn lemma_pull_finish<P: EntryParser>(
    lines: LinesView,
    parser: P,
    p: P,
    r: Result<Option<P::Entry>, HonuError>,
)
    requires
        lines_next(lines).1 is None,
        parser.finish_post(p, r),
    ensures
        pull(lines, parser, lines_next(lines).0, p, true, item_of(r)),
{
}

/// The entries a parser makes of numbered lines.
pub struct Entries<P> {
    done: bool,
    lines: Lines,
    parser: P,
}

impl<P: EntryParser> Entries<P> {
    /// Whether the entries are used up.
    pub closed spec fn is_done(&self) -> bool {
        self.done
    }

    /// The lines not read yet.
    pub closed spec fn remaining(&self) -> LinesView {
        self.lines@
    }

    /// The parser's state.
    pub closed spec fn parser_state(&self) -> P {
        self.parser
    }

    pub closed spec fn wf(&self) -> bool {
        self.lines.wf()
    }

    /// The entries `parser` makes of `bytes`; `failure` is the error that
    /// reading them ended with, if any.
    pub fn new(bytes: Vec<u8>, failure: Option<HonuError>, parser: P) -> (r: Entries<P>)
        ensures
            r.wf(),
            !r.is_done(),
            r.remaining() == (LinesView { rest: bytes@, number: 0, done: false, failure }),
            r.parser_state() == parser,
    {
        Entries { done: false, lines: Lines::new(bytes, failure), parser }
    }

    /// The next entry, or the error that ends the entries, or `None` once
    /// they are used up.
    pub fn next(&mut self) -> (r: Option<Result<P::Entry, HonuError>>)
        requires
            old(self).wf(),
        ensures
            final(self).wf(),
            old(self).is_done() ==> r is None && final(self).is_done() && final(self).remaining()
                == old(self).remaining() && final(self).parser_state() == old(self).parser_state(),
            !old(self).is_done() ==> pull(
                old(self).remaining(),
                old(self).parser_state(),
                final(self).remaining(),
                final(self).parser_state(),
                final(self).is_done(),
                r,
            ),
    {
        if self.done {
            return None;
        }
        let ghost lines0 = self.lines@;
        let ghost parser0 = self.parser;
        loop
            invariant
                !self.done,
                !old(self).done,
                lines0 == old(self).lines@,
                parser0 == old(self).parser,
                self.lines.wf(),
                forall|l: LinesView, p: P, d: bool, it: Option<Result<P::Entry, HonuError>>|
                    #[trigger] pull(self.lines@, self.parser, l, p, d, it) ==> pull(
                        lines0,
                        parser0,
                        l,
                        p,
                        d,
                        it,
                    ),
            decreases lines_measure(self.lines@),
        {
            let ghost lines_before = self.lines@;
            let ghost parser_before = self.parser;
            proof {
                lemma_lines_next_decreases(lines_before);
            }
            let next = self.lines.next();
            match next {
                Some(Ok(line)) => {
                    let ghost line_view = line@;
                    let result = self.parser.parse(line);
                    let ghost p = self.parser;
                    assert(parser_before.parse_post(line_view, p, result));
                    match result {
                        Ok(Some(entry)) => {
                            proof {
                                lemma_pull_entry(lines_before, parser_before, line_view, p, entry);
                            }
                            return Some(Ok(entry));
                        },
                        Ok(None) => {
                            assert forall|l: LinesView, p2: P, d: bool, it: Option<Result<P::Entry, HonuError>>|
                                #[trigger] pull(self.lines@, self.parser, l, p2, d, it) implies pull(lines0, parser0, l, p2, d, it) by {
                                lemma_pull_skip(lines_before, parser_before, line_view, p, l, p2, d, it);
                            }
                        },
                        Err(e) => {
                            self.done = true;
                            proof {
                                lemma_pull_parse_error(lines_before, parser_before, line_view, p, e);
                            }
                            return Some(Err(e));
                        },
                    }
                },
                Some(Err(e)) => {
                    self.done = true;
                    assert(pull(lines_before, parser_before, self.lines@, self.parser, true, Some(Err::<P::Entry, HonuError>(e))));
                    return Some(Err(e));
                },
                None => {
                    self.done = true;
                    let result = self.parser.finish();
                    let r = match result {
                        Ok(Some(entry)) => Some(Ok(entry)),
                        Ok(None) => None,
                        Err(e) => Some(Err(e)),
                    };
                    proof {
                        lemma_pull_finish(lines_before, parser_before, self.parser, result);
                    }
                    return r;
                },
            }
        }
    }
}

/// The records a parser makes of numbered lines.
pub struct Records<P> {
    entries: Entries<P>,
}

impl<P: EntryParser<Entry = Record>> Records<P> {
    pub closed spec fn is_done(&self) -> bool {
        self.entries.is_done()
    }

    pub closed spec fn remaining(&self) -> LinesView {
        self.entries.remaining()
    }

    pub closed spec fn parser_state(&self) -> P {
        self.entries.parser_state()
    }

    pub closed spec fn wf(&self) -> bool {
        self.entries.wf()
    }

    /// The records `parser` makes of `bytes`; `failure` is the error that
    /// reading them ended with, if any.
    pub fn new(bytes: Vec<u8>, failure: Option<HonuError>, parser: P) -> (r: Records<P>)
        ensures
            r.wf(),
            !r.is_done(),
            r.remaining() == (LinesView { rest: bytes@, number: 0, done: false, failure }),
            r.parser_state() == parser,
    {
        Records { entries: Entries::new(bytes, failure, parser) }
    }

    /// The next record, or the error that ends the records, or `None` once
    /// they are used up.
    pub fn next(&mut self) -> (r: Option<Result<Record, HonuError>>)
        requires
            old(self).wf(),
        ensures
            final(self).wf(),
            old(self).is_done() ==> r is None && final(self).is_done() && final(self).remaining()
                == old(self).remaining() && final(self).parser_state() == old(self).parser_state(),
            !old(self).is_done() ==> pull(
                old(self).remaining(),
                old(self).parser_state(),
                final(self).remaining(),
                final(self).parser_state(),
                final(self).is_done(),
                r,
            ),
    {
        self.entries.next()
    }
}

} // verus!

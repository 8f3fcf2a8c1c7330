use honu::error::HonuError;
use honu::execution::Execution;
use honu::identity::{Entry, Identity};
use honu::lines::{Line, Lines};
use honu::parser::{Entries, EntryParser, Records};
use honu::record::Record;

struct StreamParser(Vec<u8>);

impl EntryParser for StreamParser {
    type Entry = Vec<u8>;

    fn finish(&mut self) -> Result<Option<Vec<u8>>, HonuError> {
        Ok(Some(std::mem::take(&mut self.0)))
    }

    fn parse(&mut self, line: Line) -> Result<Option<Vec<u8>>, HonuError> {
        self.0.extend(line.bytes);

        if line.terminated {
            self.0.push(b'\n');
        }

        Ok(None)
    }
}

#[derive(Default)]
struct EntryTestParser(Vec<u8>);

impl EntryParser for EntryTestParser {
    type Entry = Entry;

    fn finish(&mut self) -> Result<Option<Entry>, HonuError> {
        Ok(Some(Entry {
            execution: Execution {
                command: String::from_utf8(std::mem::take(&mut self.0)).unwrap(),
                ..Default::default()
            },
            identity: Identity {
                fields: Vec::new(),
                scheme: Vec::new(),
            },
        }))
    }

    fn parse(&mut self, line: Line) -> Result<Option<Entry>, HonuError> {
        self.0.extend(line.bytes);

        if line.terminated {
            self.0.push(b'\n');
        }

        Ok(None)
    }
}

#[derive(Default)]
struct RecordTestParser(Vec<u8>);

impl EntryParser for RecordTestParser {
    type Entry = Record;

    fn finish(&mut self) -> Result<Option<Record>, HonuError> {
        Ok(Some(Record::new(
            Execution {
                command: String::from_utf8(std::mem::take(&mut self.0)).unwrap(),
                ..Default::default()
            },
            b"",
            &[],
        )))
    }

    fn parse(&mut self, line: Line) -> Result<Option<Record>, HonuError> {
        self.0.extend(line.bytes);

        if line.terminated {
            self.0.push(b'\n');
        }

        Ok(None)
    }
}

fn collect_entries<P: EntryParser>(mut entries: Entries<P>) -> Result<Vec<P::Entry>, HonuError> {
    let mut all = Vec::new();
    while let Some(entry) = entries.next() {
        all.push(entry?);
    }
    Ok(all)
}

fn collect_lines(mut lines: Lines) -> Result<Vec<Line>, HonuError> {
    let mut all = Vec::new();
    while let Some(line) = lines.next() {
        all.push(line?);
    }
    Ok(all)
}

#[test]
fn entries_entries_flush_parser_at_eof() {
    assert_eq!(
        collect_entries(Entries::new(b"foo\nbar".to_vec(), None, EntryTestParser(Vec::new())))
            .unwrap()[0]
            .execution
            .command,
        "foo\nbar",
    );
}

#[test]
fn stream_entries_flush_parser_at_eof() {
    assert_eq!(
        collect_entries(Entries::new(b"foo\nbar".to_vec(), None, StreamParser(Vec::new())))
            .unwrap(),
        [b"foo\nbar".to_vec()],
    );
}

#[test]
fn records_flush_parser_at_eof() {
    let mut records = Records::new(b"foo\nbar".to_vec(), None, RecordTestParser(Vec::new()));
    let mut all = Vec::new();
    while let Some(record) = records.next() {
        all.push(record.unwrap());
    }
    assert_eq!(all[0].execution.command, "foo\nbar");
}

fn expected_lines() -> Vec<Line> {
    vec![
        Line {
            bytes: b"foo".to_vec(),
            number: 1,
            terminated: true,
        },
        Line {
            bytes: Vec::new(),
            number: 2,
            terminated: true,
        },
        Line {
            bytes: b"bar".to_vec(),
            number: 3,
            terminated: false,
        },
    ]
}

#[test]
fn lines_preserve_numbers_and_termination() {
    assert_eq!(
        collect_lines(Lines::new(b"foo\n\nbar".to_vec(), None)).unwrap(),
        expected_lines(),
    );
}

#[test]
fn preserves_numbers_and_termination() {
    assert_eq!(
        collect_lines(Lines::new(b"foo\n\nbar".to_vec(), None)).unwrap(),
        expected_lines(),
    );
}

#[test]
fn lines_report_the_input_error_after_complete_lines_and_drop_a_partial_one() {
    let mut lines = Lines::new(b"foo\nbar".to_vec(), Some(HonuError::IncompleteMetafiedByte));
    assert_eq!(
        lines.next(),
        Some(Ok(Line {
            bytes: b"foo".to_vec(),
            number: 1,
            terminated: true,
        })),
    );
    assert_eq!(lines.next(), Some(Err(HonuError::IncompleteMetafiedByte)));
    assert_eq!(lines.next(), None);
}

#[test]
fn lines_of_empty_input() {
    assert_eq!(collect_lines(Lines::new(Vec::new(), None)).unwrap(), Vec::new());
    assert_eq!(
        collect_lines(Lines::new(b"\n".to_vec(), None)).unwrap(),
        vec![Line {
            bytes: Vec::new(),
            number: 1,
            terminated: true,
        }],
    );
}

#[test]
fn entries_stop_at_the_first_error() {
    let mut entries = Entries::new(
        b"foo\n".to_vec(),
        Some(HonuError::IncompleteMetafiedByte),
        StreamParser(Vec::new()),
    );
    assert_eq!(entries.next(), Some(Err(HonuError::IncompleteMetafiedByte)));
    assert_eq!(entries.next(), None);
}

use honu::error::HonuError;
use honu::execution::Execution;
use honu::parser::Records;
use honu::record::Record;
use honu::zsh::{Metafied, Zsh, META};

fn records(contents: &[u8]) -> Result<Vec<Record>, HonuError> {
    Zsh::records(contents).collect()
}

fn plain(command: &str, timestamp_ns: i64) -> Record {
    Record::new(
        Execution {
            command: command.into(),
            timestamp_ns,
            ..Default::default()
        },
        b"plain",
        &[command.as_bytes().to_vec()],
    )
}

fn extended(command: &str, timestamp_ns: i64, duration_ns: i64) -> Record {
    Record::new(
        Execution {
            command: command.into(),
            duration_ns: Some(duration_ns),
            timestamp_ns,
            ..Default::default()
        },
        b"extended",
        &[
            command.as_bytes().to_vec(),
            timestamp_ns.to_be_bytes().to_vec(),
            duration_ns.to_be_bytes().to_vec(),
        ],
    )
}

#[test]
fn commands_beginning_with_colon() {
    assert_eq!(
        records(b": foo\n: 1:x;bar\n: 1:2bar;baz\n").unwrap(),
        vec![
            plain(": foo", 1),
            plain(": 1:x;bar", 2),
            plain(": 1:2bar;baz", 3),
        ],
    );
}

#[test]
fn duration_overflow() {
    assert_eq!(
        records(b": 1:9223372037;foo").unwrap_err().message(),
        "duration on history line 1 overflows nanoseconds",
    );
}

#[test]
fn empty_extended_command() {
    assert_eq!(records(b": 1:2;").unwrap(), Vec::new());
}

#[test]
fn empty_input() {
    assert_eq!(records(b"").unwrap(), Vec::new());
}

#[test]
fn extended_history() {
    assert_eq!(
        records(b": 1:2;foo").unwrap(),
        vec![extended("foo", 1_000_000_000, 2_000_000_000)],
    );
}

#[test]
fn incomplete_metafied_byte() {
    assert_eq!(
        records(&[META]).unwrap_err().message(),
        "zsh history ends with an incomplete metafied byte",
    );
}

#[test]
fn invalid_utf8_is_lossy() {
    assert_eq!(records(&[0xFF]).unwrap(), vec![plain("\u{FFFD}", 1)]);
}

/// Decodes `contents` the way a reader handing out one byte at a time does.
fn decode_one_byte_at_a_time(contents: &[u8]) -> (Vec<u8>, Option<HonuError>) {
    let mut decoder = Metafied::new();
    let mut decoded = Vec::new();
    let mut position = 0;
    loop {
        if position == contents.len() {
            return match decoder.end(0) {
                Ok(_) => (decoded, None),
                Err(e) => (decoded, Some(e)),
            };
        }
        let (consumed, bytes) = decoder.decode(&contents[position..position + 1], 1);
        position += consumed;
        decoded.extend(bytes);
    }
}

#[test]
fn metafied_bytes_cross_read_boundaries() {
    let contents = b"foo \xF0\x83\xBF\x83\xB8\x80";

    let (decoded, failure) = decode_one_byte_at_a_time(contents);

    assert_eq!(
        Records::new(decoded, failure, Zsh::new()).collect().unwrap(),
        records(&contents[..]).unwrap(),
    );
}

#[test]
fn metafied_unicode() {
    assert_eq!(
        records(b"foo \xF0\x83\xBF\x83\xB8\x80").unwrap(),
        vec![plain("foo \u{1F600}", 1)],
    );
}

#[test]
fn mixed_history() {
    assert_eq!(
        records(b"foo\n: 2:3;bar\nbaz\n").unwrap(),
        vec![
            plain("foo", 1),
            extended("bar", 2_000_000_000, 3_000_000_000),
            plain("baz", 2),
        ],
    );
}

#[test]
fn multiline_records() {
    assert_eq!(
        records(b"foo \\\nbar\n: 1:2;baz \\\nqux\n").unwrap(),
        vec![
            plain("foo \nbar", 1),
            extended("baz \nqux", 1_000_000_000, 2_000_000_000),
        ],
    );
}

#[test]
fn parsing_is_deterministic() {
    let contents = b"foo\n: 1:2;bar\nfoo\n";

    assert_eq!(records(&contents[..]).unwrap(), records(&contents[..]).unwrap());
}

#[test]
fn plain_history() {
    assert_eq!(
        records(b"foo\nbar\n").unwrap(),
        vec![plain("foo", 1), plain("bar", 2)],
    );
}

#[test]
fn repeated_commands() {
    assert_eq!(
        records(b"foo\nfoo\n: 1:2;foo\n: 1:2;foo\n").unwrap(),
        vec![
            plain("foo", 1),
            plain("foo", 2),
            extended("foo", 1_000_000_000, 2_000_000_000),
            extended("foo", 1_000_000_000, 2_000_000_000),
        ],
    );
}

#[test]
fn timestamp_overflow() {
    assert_eq!(
        records(b": 9223372037:1;foo").unwrap_err().message(),
        "timestamp on history line 1 overflows nanoseconds",
    );
}

#[test]
fn largest_timestamp_that_fits() {
    assert_eq!(
        records(b": 9223372036:0;foo").unwrap(),
        vec![extended("foo", 9_223_372_036_000_000_000, 0)],
    );
    assert_eq!(
        records(b": 00000000000000000000009223372036:1;foo").unwrap(),
        vec![extended("foo", 9_223_372_036_000_000_000, 1_000_000_000)],
    );
}

#[test]
fn overflow_reports_the_line_the_command_starts_on() {
    assert_eq!(
        records(b"foo\n: 1:99999999999999999999 \\\nbar;\n: 1:99999999999999999999;baz")
            .unwrap_err()
            .message(),
        "duration on history line 4 overflows nanoseconds",
    );
    assert_eq!(
        records(b"foo\n: 99999999999999999999:1;\\\nbar")
            .unwrap_err()
            .message(),
        "timestamp on history line 2 overflows nanoseconds",
    );
}

#[test]
fn metafied_escape_decodes_to_byte_xor_0x20() {
    let mut decoder = Metafied::new();
    assert_eq!(decoder.decode(&[b'a', META, 0xA3, b'b'], 16), (4, vec![b'a', 0x83, b'b']));
    assert_eq!(decoder.end(3), Ok(3));

    let mut split = Metafied::new();
    assert_eq!(split.decode(&[b'a', META], 16), (2, vec![b'a']));
    assert_eq!(split.end(1), Ok(1));
    assert_eq!(split.end(0), Err(HonuError::IncompleteMetafiedByte));
    assert_eq!(split.decode(&[0xA3], 16), (1, vec![0x83]));
    assert_eq!(split.end(0), Ok(0));
}

#[test]
fn decode_stops_when_the_output_is_full() {
    let mut decoder = Metafied::new();
    assert_eq!(decoder.decode(b"abc", 2), (2, b"ab".to_vec()));
    assert_eq!(decoder.decode(b"c", 2), (1, b"c".to_vec()));
}

#[test]
fn error_after_complete_lines_still_fails_the_history() {
    let mut contents = b"foo\n".to_vec();
    contents.push(META);
    let mut all = Zsh::records(&contents);
    assert_eq!(all.next(), Some(Ok(plain("foo", 1))));
    assert_eq!(all.next(), Some(Err(HonuError::IncompleteMetafiedByte)));
    assert_eq!(all.next(), None);
    assert_eq!(
        Zsh::history(&contents).unwrap_err(),
        HonuError::IncompleteMetafiedByte,
    );
}

#[test]
fn trailing_backslash_on_the_last_line_is_kept() {
    assert_eq!(records(b"foo \\").unwrap(), vec![plain("foo \\", 1)]);
}

#[test]
fn exhausted_records_collect_to_nothing() {
    let mut records = Zsh::records(b"foo\n");
    while records.next().is_some() {}
    assert_eq!(records.collect().unwrap(), Vec::new());
}

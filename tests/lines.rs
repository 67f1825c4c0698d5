use line_u8::{BufReadExt, ByteSource, FillError, MemSource};

fn source(text: &str) -> MemSource {
    MemSource::new(text.as_bytes().to_vec())
}

#[test]
fn read_line_u8() {
    let mut text = source("Some\r text\r\n\n\r");
    let mut line = vec![];
    assert_eq!(text.read_line_u8(&mut line).unwrap(), 5);
    assert_eq!(line, b"Some");
    line.clear();
    assert_eq!(text.read_line_u8(&mut line).unwrap(), 7);
    assert_eq!(line, b" text");
    line.clear();
    assert_eq!(text.read_line_u8(&mut line).unwrap(), 1);
    assert_eq!(line, b"");
    line.clear();
    assert_eq!(text.read_line_u8(&mut line).unwrap(), 1);
    assert_eq!(line, b"");
    line.clear();
    assert_eq!(text.read_line_u8(&mut line).unwrap(), 0);
}

#[test]
fn lines_u8() {
    let text = source("Some\r text\r\n\n\r");
    let mut iter = text.lines_u8();
    assert_eq!(iter.next().unwrap().unwrap(), b"Some");
    assert_eq!(iter.next().unwrap().unwrap(), b" text");
    assert_eq!(iter.next().unwrap().unwrap(), b"");
    assert_eq!(iter.next().unwrap().unwrap(), b"");
    assert!(iter.next().is_none());
}

fn all_lines(src: MemSource) -> Vec<Vec<u8>> {
    let mut iter = src.lines_u8();
    let mut out = vec![];
    while let Some(item) = iter.next() {
        out.push(item.unwrap());
    }
    out
}

#[test]
fn lf_terminated_lines() {
    let mut src = source("one\ntwo\n");
    let mut line = vec![];
    assert_eq!(src.read_line_u8(&mut line).unwrap(), 4);
    assert_eq!(line, b"one");
    line.clear();
    assert_eq!(src.read_line_u8(&mut line).unwrap(), 4);
    assert_eq!(line, b"two");
    line.clear();
    assert_eq!(src.read_line_u8(&mut line).unwrap(), 0);
    assert_eq!(line, b"");
}

#[test]
fn crlf_terminated_lines() {
    let mut src = source("one\r\ntwo\r\n");
    let mut line = vec![];
    assert_eq!(src.read_line_u8(&mut line).unwrap(), 5);
    assert_eq!(line, b"one");
    line.clear();
    assert_eq!(src.read_line_u8(&mut line).unwrap(), 5);
    assert_eq!(line, b"two");
    line.clear();
    assert_eq!(src.read_line_u8(&mut line).unwrap(), 0);
}

#[test]
fn cr_terminated_lines() {
    let mut src = source("one\rtwo\r");
    let mut line = vec![];
    assert_eq!(src.read_line_u8(&mut line).unwrap(), 4);
    assert_eq!(line, b"one");
    line.clear();
    assert_eq!(src.read_line_u8(&mut line).unwrap(), 4);
    assert_eq!(line, b"two");
    line.clear();
    assert_eq!(src.read_line_u8(&mut line).unwrap(), 0);
    assert_eq!(all_lines(source("one\rtwo\r")), all_lines(source("one\ntwo\n")));
}

#[test]
fn mixed_terminators() {
    let got = all_lines(source("a\nb\r\nc\rd\n\re"));
    let want: Vec<Vec<u8>> = vec![
        b"a".to_vec(),
        b"b".to_vec(),
        b"c".to_vec(),
        b"d".to_vec(),
        b"".to_vec(),
        b"e".to_vec(),
    ];
    assert_eq!(got, want);
    let mut joined = all_lines(source("a\nb\r\n"));
    joined.extend(all_lines(source("c\rd\n\re")));
    assert_eq!(got, joined);
}

#[test]
fn unterminated_last_line() {
    let mut src = source("x\nlast");
    let mut line = vec![];
    assert_eq!(src.read_line_u8(&mut line).unwrap(), 2);
    line.clear();
    assert_eq!(src.read_line_u8(&mut line).unwrap(), 4);
    assert_eq!(line, b"last");
    line.clear();
    assert_eq!(src.read_line_u8(&mut line).unwrap(), 0);
    assert!(line.is_empty());
}

#[test]
fn exhausted_stays_exhausted() {
    let mut iter = source("a").lines_u8();
    assert_eq!(iter.next().unwrap().unwrap(), b"a");
    assert!(iter.next().is_none());
    assert!(iter.next().is_none());
    assert!(iter.next().is_none());
}

#[test]
fn empty_input() {
    let mut src = source("");
    let mut line = vec![];
    assert_eq!(src.read_line_u8(&mut line).unwrap(), 0);
    assert!(line.is_empty());
    assert!(source("").lines_u8().next().is_none());
}

#[test]
fn no_terminator() {
    let mut src = source("abc");
    let mut line = vec![];
    assert_eq!(src.read_line_u8(&mut line).unwrap(), 3);
    assert_eq!(line, b"abc");
    line.clear();
    assert_eq!(src.read_line_u8(&mut line).unwrap(), 0);
}

#[test]
fn accumulator_is_appended_to() {
    let mut src = source("cd\nef");
    let mut line = b"ab".to_vec();
    assert_eq!(line_u8::read_line_u8(&mut src, &mut line).unwrap(), 3);
    assert_eq!(line, b"abcd");
    assert_eq!(src.position(), 3);
}

#[test]
fn line_across_windows() {
    let mut src = MemSource::with_capacity(2, b"abcde\nfg".to_vec());
    let mut line = vec![];
    assert_eq!(src.read_line_u8(&mut line).unwrap(), 6);
    assert_eq!(line, b"abcde");
    line.clear();
    assert_eq!(src.read_line_u8(&mut line).unwrap(), 2);
    assert_eq!(line, b"fg");
    line.clear();
    assert_eq!(src.read_line_u8(&mut line).unwrap(), 0);
}

#[test]
fn cr_at_window_end_waits_for_next_window() {
    // "ab\r" fills the first window; the "\r" is held back and shown again
    // alone, where it is taken as a bare "\r" and the "\n" makes an empty line.
    let mut src = MemSource::with_capacity(3, b"ab\r\ncd".to_vec());
    let mut line = vec![];
    assert_eq!(src.read_line_u8(&mut line).unwrap(), 3);
    assert_eq!(line, b"ab");
    line.clear();
    assert_eq!(src.read_line_u8(&mut line).unwrap(), 1);
    assert_eq!(line, b"");
    line.clear();
    assert_eq!(src.read_line_u8(&mut line).unwrap(), 2);
    assert_eq!(line, b"cd");
}

#[test]
fn cr_followed_in_window_is_bare() {
    let mut src = MemSource::with_capacity(4, b"ab\rc\r\nd".to_vec());
    let mut line = vec![];
    assert_eq!(src.read_line_u8(&mut line).unwrap(), 3);
    assert_eq!(line, b"ab");
    line.clear();
    assert_eq!(src.read_line_u8(&mut line).unwrap(), 3);
    assert_eq!(line, b"c");
    line.clear();
    assert_eq!(src.read_line_u8(&mut line).unwrap(), 1);
    assert_eq!(line, b"d");
}

#[test]
fn lf_before_cr_in_window() {
    let mut src = source("ab\ncd\r");
    let mut line = vec![];
    assert_eq!(src.read_line_u8(&mut line).unwrap(), 3);
    assert_eq!(line, b"ab");
}

#[test]
fn bare_cr_before_later_lf() {
    let mut src = source("ab\rcd\nx");
    let mut line = vec![];
    assert_eq!(src.read_line_u8(&mut line).unwrap(), 3);
    assert_eq!(line, b"ab");
    line.clear();
    assert_eq!(src.read_line_u8(&mut line).unwrap(), 3);
    assert_eq!(line, b"cd");
}

struct Scripted {
    steps: Vec<u8>,
    data: Vec<u8>,
    pos: usize,
}

impl ByteSource for Scripted {
    type Error = String;

    fn fill_buf(&mut self) -> Result<&[u8], FillError<String>> {
        if let Some(step) = self.steps.pop() {
            if step == 0 {
                return Err(FillError::Interrupted);
            }
            return Err(FillError::Failed("broken".to_string()));
        }
        Ok(&self.data[self.pos..])
    }

    fn consume(&mut self, amt: usize) {
        self.pos += amt;
    }
}

#[test]
fn interrupted_fill_is_retried() {
    let mut src = Scripted { steps: vec![0, 0], data: b"hi\n".to_vec(), pos: 0 };
    let mut line = vec![];
    assert_eq!(src.read_line_u8(&mut line).unwrap(), 3);
    assert_eq!(line, b"hi");
}

#[test]
fn failed_fill_is_returned() {
    let mut src = Scripted { steps: vec![1], data: b"hi\n".to_vec(), pos: 0 };
    let mut line = vec![];
    assert_eq!(src.read_line_u8(&mut line).unwrap_err(), "broken");
    let src = Scripted { steps: vec![1], data: b"hi\n".to_vec(), pos: 0 };
    let mut iter = src.lines_u8();
    assert_eq!(iter.next().unwrap().unwrap_err(), "broken");
    assert_eq!(iter.next().unwrap().unwrap(), b"hi");
    assert!(iter.next().is_none());
}

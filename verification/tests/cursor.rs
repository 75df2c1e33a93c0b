use consistent_read::error::LineError;
use consistent_read::{ConsistentBufReader, ReadOutcome};

/// A reader over `content`, made the only way there is: by two agreeing reads.
fn reader_over(content: &[u8]) -> ConsistentBufReader {
    let made = ConsistentBufReader::new(String::from("f"), None, || {
        ReadOutcome::Data(content.to_vec())
    });
    match made {
        Ok(reader) => reader,
        Err(error) => panic!("{}", error.message()),
    }
}

#[test]
fn fresh_reader_shows_everything() {
    let reader = reader_over(b"hello world");
    assert_eq!(reader.fill_buf(), b"hello world");
}

#[test]
fn peek_twice_shows_the_same() {
    let mut reader = reader_over(b"hello world");
    reader.consume(6);
    let first = reader.fill_buf().to_vec();
    let second = reader.fill_buf().to_vec();
    assert_eq!(first, b"world");
    assert_eq!(first, second);
}

#[test]
fn consume_moves_the_cursor() {
    let mut reader = reader_over(b"abcdef");
    reader.consume(0);
    assert_eq!(reader.fill_buf(), b"abcdef");
    reader.consume(2);
    assert_eq!(reader.fill_buf(), b"cdef");
    reader.consume(4);
    assert_eq!(reader.fill_buf(), b"");
    reader.consume(0);
    assert_eq!(reader.fill_buf(), b"");
}

#[test]
fn read_fills_the_front_of_the_buffer() {
    let mut reader = reader_over(b"abcde");
    let mut buf = [0xffu8; 3];
    assert_eq!(reader.read(&mut buf), 3);
    assert_eq!(buf, *b"abc");
    assert_eq!(reader.read(&mut buf), 2);
    assert_eq!(buf, *b"dec");
    assert_eq!(reader.read(&mut buf), 0);
    assert_eq!(buf, *b"dec");
}

#[test]
fn read_into_empty_buffer_takes_nothing() {
    let mut reader = reader_over(b"abc");
    let mut buf = [0u8; 0];
    assert_eq!(reader.read(&mut buf), 0);
    assert_eq!(reader.fill_buf(), b"abc");
}

#[test]
fn read_of_empty_content_gives_zero() {
    let mut reader = reader_over(b"");
    let mut buf = [7u8; 4];
    assert_eq!(reader.read(&mut buf), 0);
    assert_eq!(buf, [7u8; 4]);
}

#[test]
fn sequential_reads_give_back_the_content() {
    let content: Vec<u8> = (0..=255u8).cycle().take(1000).collect();
    for room in [1usize, 2, 3, 7, 64, 999, 1000, 1001, 4096] {
        let mut reader = reader_over(&content);
        let mut gathered = Vec::new();
        let mut buf = vec![0u8; room];
        loop {
            let n = reader.read(&mut buf);
            if n == 0 {
                break;
            }
            gathered.extend_from_slice(&buf[..n]);
        }
        assert_eq!(gathered, content);
        assert_eq!(reader.fill_buf(), b"");
    }
}

#[test]
fn read_until_takes_the_delimiter_along() {
    let mut reader = reader_over(b"one,two,,three");
    let mut piece = Vec::new();
    assert_eq!(reader.read_until(b',', &mut piece), 4);
    assert_eq!(piece, b"one,");
    piece.clear();
    assert_eq!(reader.read_until(b',', &mut piece), 4);
    assert_eq!(piece, b"two,");
    piece.clear();
    assert_eq!(reader.read_until(b',', &mut piece), 1);
    assert_eq!(piece, b",");
    piece.clear();
    assert_eq!(reader.read_until(b',', &mut piece), 5);
    assert_eq!(piece, b"three");
    piece.clear();
    assert_eq!(reader.read_until(b',', &mut piece), 0);
    assert_eq!(piece, b"");
}

#[test]
fn read_until_appends_to_what_is_there() {
    let mut reader = reader_over(b"ab;cd");
    let mut collected = b"xy".to_vec();
    assert_eq!(reader.read_until(b';', &mut collected), 3);
    assert_eq!(collected, b"xyab;");
    assert_eq!(reader.read_until(b';', &mut collected), 2);
    assert_eq!(collected, b"xyab;cd");
}

#[test]
fn read_until_without_delimiter_takes_all() {
    let mut reader = reader_over(b"no delimiter here");
    let mut piece = Vec::new();
    assert_eq!(reader.read_until(0, &mut piece), 17);
    assert_eq!(piece, b"no delimiter here");
    assert_eq!(reader.read_until(0, &mut piece), 0);
}

#[test]
fn delimiter_reads_give_back_the_content() {
    let content = b"36 35 98:0 /mnt1 /mnt2 rw\n37 35 98:1 / /mnt3 rw\n\n38 tail without newline";
    for delimiter in [b'\n', b' ', b'/', b'3', b'e'] {
        let mut reader = reader_over(content);
        let mut pieces: Vec<Vec<u8>> = Vec::new();
        loop {
            let mut piece = Vec::new();
            let n = reader.read_until(delimiter, &mut piece);
            if n == 0 {
                break;
            }
            assert_eq!(n, piece.len());
            pieces.push(piece);
        }
        let (last, rest) = pieces.split_last().unwrap();
        for piece in rest {
            assert_eq!(piece.last(), Some(&delimiter));
            assert_eq!(piece.iter().filter(|b| **b == delimiter).count(), 1);
        }
        assert!(last.iter().filter(|b| **b == delimiter).count() <= 1);
        assert_eq!(pieces.concat(), content);
    }
}

#[test]
fn read_line_appends_text() {
    let mut reader = reader_over("first\nzweite Zeile: äöü €\n\nlast".as_bytes());
    let mut text = String::from("> ");
    assert_eq!(reader.read_line(&mut text), Ok(6));
    assert_eq!(text, "> first\n");
    text.clear();
    assert_eq!(reader.read_line(&mut text), Ok(25));
    assert_eq!(text, "zweite Zeile: äöü €\n");
    text.clear();
    assert_eq!(reader.read_line(&mut text), Ok(1));
    assert_eq!(text, "\n");
    text.clear();
    assert_eq!(reader.read_line(&mut text), Ok(4));
    assert_eq!(text, "last");
    text.clear();
    assert_eq!(reader.read_line(&mut text), Ok(0));
    assert_eq!(text, "");
}

#[test]
fn read_line_refuses_invalid_utf8() {
    let mut reader = reader_over(b"ok\n\xff\xfe broken\nfine\n");
    let mut text = String::new();
    assert_eq!(reader.read_line(&mut text), Ok(3));
    assert_eq!(text, "ok\n");
    assert_eq!(reader.read_line(&mut text), Err(LineError::InvalidUtf8));
    assert_eq!(text, "ok\n");
    assert_eq!(reader.fill_buf(), b"fine\n");
    assert_eq!(reader.read_line(&mut text), Ok(5));
    assert_eq!(text, "ok\nfine\n");
}

#[test]
fn read_line_refuses_a_split_character() {
    // The two bytes of "é" with a line feed between them.
    let mut reader = reader_over(b"caf\xc3\n\xa9");
    let mut text = String::from("keep");
    assert_eq!(reader.read_line(&mut text), Err(LineError::InvalidUtf8));
    assert_eq!(text, "keep");
    assert_eq!(reader.read_line(&mut text), Err(LineError::InvalidUtf8));
    assert_eq!(text, "keep");
    assert_eq!(reader.read_line(&mut text), Ok(0));
}

#[test]
fn read_line_refuses_overlong_and_surrogate_encodings() {
    let mut reader = reader_over(b"\xc0\xaf\n\xed\xa0\x80\n\xf4\x90\x80\x80\n");
    let mut text = String::new();
    for _ in 0..3 {
        assert_eq!(reader.read_line(&mut text), Err(LineError::InvalidUtf8));
    }
    assert_eq!(text, "");
    assert_eq!(reader.fill_buf(), b"");
}

#[test]
fn the_cursor_is_shared() {
    let mut reader = reader_over(b"header\nbody: 0123456789\ntrailer");
    let mut line = String::new();
    assert_eq!(reader.read_line(&mut line), Ok(7));
    assert_eq!(line, "header\n");

    let mut piece = Vec::new();
    assert_eq!(reader.read_until(b' ', &mut piece), 6);
    assert_eq!(piece, b"body: ");

    let mut buf = [0u8; 4];
    assert_eq!(reader.read(&mut buf), 4);
    assert_eq!(buf, *b"0123");

    assert_eq!(reader.fill_buf(), b"456789\ntrailer");
    reader.consume(7);

    line.clear();
    assert_eq!(reader.read_line(&mut line), Ok(7));
    assert_eq!(line, "trailer");
    assert_eq!(reader.fill_buf(), b"");
}

#[test]
fn fill_buf_and_consume_give_back_the_content() {
    let content = b"some content to walk over";
    for stride in [1usize, 2, 5, 100] {
        let mut reader = reader_over(content);
        let mut gathered = Vec::new();
        loop {
            let view = reader.fill_buf();
            if view.is_empty() {
                break;
            }
            let n = stride.min(view.len());
            gathered.extend_from_slice(&view[..n]);
            reader.consume(n);
        }
        assert_eq!(gathered, content);
    }
}

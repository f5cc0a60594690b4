use mgdocker::error::Failure;
use mgdocker::lines::{to_text, Arrival, LineBuffer, LineMux, Source};

fn raw_lines(lines: &[&str]) -> Vec<Vec<u8>> {
    lines.iter().map(|l| l.as_bytes().to_vec()).collect()
}

#[test]
fn buffer_gives_out_complete_lines_only() {
    let mut buffer = LineBuffer::new();
    assert_eq!(buffer.feed(&b"one\ntwo\nthr".to_vec()), raw_lines(&["one", "two"]));
    assert_eq!(buffer.feed(&b"ee\n".to_vec()), raw_lines(&["three"]));
    assert_eq!(buffer.close(), None);
}

#[test]
fn buffer_joins_partial_writes() {
    let mut buffer = LineBuffer::new();
    assert_eq!(buffer.feed(&b"a".to_vec()), raw_lines(&[]));
    assert_eq!(buffer.feed(&b"b".to_vec()), raw_lines(&[]));
    assert_eq!(buffer.feed(&b"".to_vec()), raw_lines(&[]));
    assert_eq!(buffer.feed(&b"c\n".to_vec()), raw_lines(&["abc"]));
}

#[test]
fn buffer_flushes_the_unfinished_line_at_the_end() {
    let mut buffer = LineBuffer::new();
    assert_eq!(buffer.feed(&b"done\nhalf".to_vec()), raw_lines(&["done"]));
    assert!(buffer.is_open());
    assert_eq!(buffer.close(), Some(b"half".to_vec()));
    assert!(!buffer.is_open());
    assert_eq!(buffer.close(), None);
}

#[test]
fn buffer_strips_one_carriage_return_before_the_line_feed() {
    let mut buffer = LineBuffer::new();
    assert_eq!(
        buffer.feed(&b"a\r\nb\r\r\n\r\nc\rd\n".to_vec()),
        vec![b"a".to_vec(), b"b\r".to_vec(), b"".to_vec(), b"c\rd".to_vec()]
    );
}

#[test]
fn buffer_keeps_a_carriage_return_that_ends_the_stream() {
    let mut buffer = LineBuffer::new();
    assert_eq!(buffer.feed(&b"tail\r".to_vec()), raw_lines(&[]));
    assert_eq!(buffer.close(), Some(b"tail\r".to_vec()));
}

#[test]
fn buffer_strips_a_carriage_return_split_from_its_line_feed() {
    let mut buffer = LineBuffer::new();
    assert_eq!(buffer.feed(&b"a\r".to_vec()), raw_lines(&[]));
    assert_eq!(buffer.feed(&b"\n".to_vec()), raw_lines(&["a"]));
}

#[test]
fn buffer_gives_empty_lines() {
    let mut buffer = LineBuffer::new();
    assert_eq!(buffer.feed(&b"\n\n".to_vec()), raw_lines(&["", ""]));
    assert_eq!(buffer.close(), None);
}

#[test]
fn buffer_drops_what_arrives_after_the_end() {
    let mut buffer = LineBuffer::new();
    assert_eq!(buffer.close(), None);
    assert_eq!(buffer.feed(&b"late\n".to_vec()), raw_lines(&[]));
    assert_eq!(buffer.close(), None);
}

#[test]
fn lines_do_not_depend_on_how_the_stream_is_cut() {
    let stream = b"alpha\nbeta\r\n\ngamma\ndelta".to_vec();
    let mut whole = LineBuffer::new();
    let mut expected = whole.feed(&stream);
    expected.extend(whole.close());
    for cut in 0..=stream.len() {
        for second in cut..=stream.len() {
            let mut buffer = LineBuffer::new();
            let mut got = buffer.feed(&stream[..cut].to_vec());
            got.extend(buffer.feed(&stream[cut..second].to_vec()));
            got.extend(buffer.feed(&stream[second..].to_vec()));
            got.extend(buffer.close());
            assert_eq!(got, expected);
        }
    }
    assert_eq!(expected, vec![
        b"alpha".to_vec(),
        b"beta".to_vec(),
        b"".to_vec(),
        b"gamma".to_vec(),
        b"delta".to_vec()
    ]);
}

#[test]
fn mux_yields_lines_in_the_order_in_which_they_become_complete() {
    let mut mux = LineMux::new();
    let mut got: Vec<Vec<u8>> = Vec::new();
    got.extend(mux.accept(Arrival::Data(Source::Stdout, b"out 1\nout".to_vec())).unwrap());
    got.extend(mux.accept(Arrival::Data(Source::Stderr, b"err".to_vec())).unwrap());
    got.extend(mux.accept(Arrival::Data(Source::Stdout, b" 2\n".to_vec())).unwrap());
    got.extend(mux.accept(Arrival::Data(Source::Stderr, b" 1\nerr 2".to_vec())).unwrap());
    assert!(!mux.is_finished());
    got.extend(mux.accept(Arrival::End(Source::Stdout)).unwrap());
    assert!(!mux.is_finished());
    got.extend(mux.accept(Arrival::End(Source::Stderr)).unwrap());
    assert!(mux.is_finished());
    assert_eq!(got, raw_lines(&["out 1", "out 2", "err 1", "err 2"]));
}

#[test]
fn mux_keeps_the_fragments_of_the_two_sources_apart() {
    let mut mux = LineMux::new();
    assert_eq!(mux.accept(Arrival::Data(Source::Stdout, b"ab".to_vec())).unwrap(), raw_lines(&[]));
    assert_eq!(mux.accept(Arrival::Data(Source::Stderr, b"XY".to_vec())).unwrap(), raw_lines(&[]));
    assert_eq!(
        mux.accept(Arrival::Data(Source::Stdout, b"c\n".to_vec())).unwrap(),
        raw_lines(&["abc"])
    );
    assert_eq!(
        mux.accept(Arrival::Data(Source::Stderr, b"Z\n".to_vec())).unwrap(),
        raw_lines(&["XYZ"])
    );
}

#[test]
fn mux_flushes_the_fragment_of_the_source_that_ends() {
    let mut mux = LineMux::new();
    assert_eq!(mux.accept(Arrival::Data(Source::Stdout, b"o".to_vec())).unwrap(), raw_lines(&[]));
    assert_eq!(mux.accept(Arrival::Data(Source::Stderr, b"e".to_vec())).unwrap(), raw_lines(&[]));
    assert_eq!(mux.accept(Arrival::End(Source::Stderr)).unwrap(), raw_lines(&["e"]));
    assert_eq!(mux.accept(Arrival::End(Source::Stdout)).unwrap(), raw_lines(&["o"]));
    assert!(mux.is_finished());
}

#[test]
fn mux_ends_without_a_line_when_nothing_is_left() {
    let mut mux = LineMux::new();
    assert_eq!(mux.accept(Arrival::Data(Source::Stdout, b"x\n".to_vec())).unwrap(), raw_lines(&["x"]));
    assert_eq!(mux.accept(Arrival::End(Source::Stdout)).unwrap(), raw_lines(&[]));
    assert_eq!(mux.accept(Arrival::End(Source::Stderr)).unwrap(), raw_lines(&[]));
    assert!(mux.is_finished());
}

#[test]
fn mux_ends_with_an_error_when_a_read_fails() {
    let mut mux = LineMux::new();
    assert_eq!(mux.accept(Arrival::Data(Source::Stdout, b"half".to_vec())).unwrap(), raw_lines(&[]));
    assert_eq!(mux.accept(Arrival::Failed(Source::Stderr)), Err(Failure::ReadFailed));
    assert!(mux.is_finished());
    assert_eq!(mux.accept(Arrival::Data(Source::Stdout, b"\n".to_vec())), Err(Failure::ReadFailed));
    assert_eq!(mux.accept(Arrival::End(Source::Stdout)), Err(Failure::ReadFailed));
}

#[test]
fn mux_ignores_a_source_that_has_ended() {
    let mut mux = LineMux::new();
    assert_eq!(mux.accept(Arrival::End(Source::Stdout)).unwrap(), raw_lines(&[]));
    assert_eq!(mux.accept(Arrival::Data(Source::Stdout, b"x\n".to_vec())).unwrap(), raw_lines(&[]));
    assert_eq!(mux.accept(Arrival::End(Source::Stdout)).unwrap(), raw_lines(&[]));
    assert!(!mux.is_finished());
}

#[test]
fn to_text_reads_utf8() {
    assert_eq!(to_text("gr\u{fc}n \u{4e2d}".as_bytes().to_vec()), Ok("gr\u{fc}n \u{4e2d}".to_string()));
    assert_eq!(to_text(Vec::new()), Ok(String::new()));
}

#[test]
fn to_text_refuses_what_is_not_utf8() {
    assert_eq!(to_text(vec![0xff]), Err(Failure::ReadFailed));
    assert_eq!(to_text(vec![b'a', 0xc3]), Err(Failure::ReadFailed));
    assert_eq!(to_text(vec![0xed, 0xa0, 0x80]), Err(Failure::ReadFailed));
    assert_eq!(to_text(vec![0xc0, 0x80]), Err(Failure::ReadFailed));
}

#[test]
fn no_line_holds_a_line_feed() {
    let stream = b"one\n\ntwo\r\nthree\n\r\nfour".to_vec();
    for cut in 0..=stream.len() {
        let mut mux = LineMux::new();
        let mut lines = mux.accept(Arrival::Data(Source::Stderr, stream[..cut].to_vec())).unwrap();
        lines.extend(mux.accept(Arrival::Data(Source::Stderr, stream[cut..].to_vec())).unwrap());
        lines.extend(mux.accept(Arrival::End(Source::Stderr)).unwrap());
        assert_eq!(lines.len(), 6);
        for line in lines {
            assert!(!line.contains(&b'\n'));
        }
    }
}

use newline::{ChunkSource, Error, NewLine};

/// All lines of `bytes` read through a refill buffer of `cap` bytes,
/// panicking on any failure.
fn collect_lines(bytes: &[u8], cap: usize) -> Vec<String> {
    let mut it = ChunkSource::new(bytes.to_vec(), cap).lines_all();
    let mut out = Vec::new();
    loop {
        match it.next() {
            None => break,
            Some(Ok(line)) => out.push(line),
            Some(Err(_)) => panic!("unexpected failure"),
        }
    }
    out
}

#[test]
fn lines_all_iter() {
    let input = ChunkSource::new(
        "Heading:\r\nLine 1\rLine 2\rLine 3\r\nEnd\n\r".as_bytes().to_vec(),
        3,
    );
    let output = ["Heading:", "Line 1", "Line 2", "Line 3", "End"];
    let mut it = input.lines_all();
    for expected in output.iter() {
        match it.next() {
            Some(Ok(line)) => assert_eq!(line, *expected),
            _ => panic!("expected a decoded line"),
        }
    }
    assert!(it.next().is_none());
}

#[test]
fn empty_input_yields_no_lines() {
    let mut it = ChunkSource::new(Vec::new(), 1).lines_all();
    assert!(it.next().is_none());
    assert!(it.next().is_none());
}

#[test]
fn sentinel_repeats_after_end_of_stream() {
    let mut src = ChunkSource::new("a\n".as_bytes().to_vec(), 2);
    let mut buf = Vec::new();
    assert_eq!(src.read_line_all(&mut buf).unwrap_or(usize::MAX), 2);
    assert_eq!(buf, b"a".to_vec());
    assert_eq!(src.read_line_all(&mut buf).unwrap_or(usize::MAX), 0);
    assert_eq!(src.read_line_all(&mut buf).unwrap_or(usize::MAX), 0);
    assert_eq!(src.read_line_all(&mut buf).unwrap_or(usize::MAX), 0);
    assert_eq!(buf, b"a".to_vec());
}

#[test]
fn output_is_independent_of_chunk_size() {
    let input = "Heading:\r\nLine 1\rLine 2\rLine 3\r\nEnd\n\r";
    let expected = collect_lines(input.as_bytes(), input.len());
    for cap in 1..=input.len() {
        assert_eq!(collect_lines(input.as_bytes(), cap), expected);
    }
    assert_eq!(expected, ["Heading:", "Line 1", "Line 2", "Line 3", "End"]);
}

#[test]
fn straddled_terminator_classified_like_whole_one() {
    // With three-byte refills the two bytes of each mixed pair arrive in
    // different views.
    assert_eq!(collect_lines(b"ab\r\ncd", 3), ["ab", "cd"]);
    assert_eq!(collect_lines(b"ab\n\rcd", 3), ["ab", "cd"]);
    assert_eq!(collect_lines(b"ab\r\ncd", 6), ["ab", "cd"]);
    assert_eq!(collect_lines(b"ab\n\rcd", 6), ["ab", "cd"]);
}

#[test]
fn repeated_terminator_leaves_one_empty_line() {
    assert_eq!(collect_lines(b"a\r\rb", 4), ["a", "", "b"]);
    assert_eq!(collect_lines(b"a\n\nb", 4), ["a", "", "b"]);
    assert_eq!(collect_lines(b"\r\r", 2), ["", ""]);
}

#[test]
fn mixed_terminator_leaves_no_empty_line() {
    assert_eq!(collect_lines(b"a\r\nb", 4), ["a", "b"]);
    assert_eq!(collect_lines(b"a\n\rb", 4), ["a", "b"]);
}

#[test]
fn trailing_terminator_adds_no_empty_line() {
    assert_eq!(collect_lines(b"abc\n", 2), ["abc"]);
    assert_eq!(collect_lines(b"abc\r", 2), ["abc"]);
    assert_eq!(collect_lines(b"abc\r\n", 2), ["abc"]);
    assert_eq!(collect_lines(b"abc\n\r", 2), ["abc"]);
    assert_eq!(collect_lines(b"\n", 1), [""]);
}

#[test]
fn unterminated_final_line_is_kept() {
    assert_eq!(collect_lines(b"abc", 2), ["abc"]);
    assert_eq!(collect_lines(b"a\nbc", 2), ["a", "bc"]);
}

#[test]
fn consumed_counts_include_the_terminator() {
    let mut src = ChunkSource::new("x\r\ny".as_bytes().to_vec(), 2);
    let mut buf = Vec::new();
    assert_eq!(src.read_line_all(&mut buf).unwrap_or(usize::MAX), 3);
    assert_eq!(buf, b"x".to_vec());
    assert_eq!(src.read_line_all(&mut buf).unwrap_or(usize::MAX), 1);
    assert_eq!(buf, b"xy".to_vec());
    assert_eq!(src.read_line_all(&mut buf).unwrap_or(usize::MAX), 0);
}

#[test]
fn buffer_accumulates_across_calls() {
    let mut src = ChunkSource::new("ab\ncd".as_bytes().to_vec(), 1);
    let mut buf = Vec::new();
    assert_eq!(src.read_line_all(&mut buf).unwrap_or(usize::MAX), 3);
    assert_eq!(buf, b"ab".to_vec());
    assert_eq!(src.read_line_all(&mut buf).unwrap_or(usize::MAX), 2);
    assert_eq!(buf, b"abcd".to_vec());
}

#[test]
fn invalid_utf8_line_reports_decode_failure() {
    let mut it = ChunkSource::new(vec![0xff, b'\n', b'o', b'k'], 2).lines_all();
    match it.next() {
        Some(Err(Error::FromUtf8Error(_))) => {}
        _ => panic!("expected a decode failure"),
    }
    match it.next() {
        Some(Ok(line)) => assert_eq!(line, "ok"),
        _ => panic!("expected a decoded line"),
    }
    assert!(it.next().is_none());
}

#[test]
fn zero_capacity_still_makes_progress() {
    assert_eq!(collect_lines(b"a\r\nb", 0), ["a", "b"]);
}

#[test]
fn transient_interruptions_are_retried_silently() {
    let input = "Heading:\r\nLine 1\rLine 2\rLine 3\r\nEnd\n\r";
    let expected = ["Heading:", "Line 1", "Line 2", "Line 3", "End"];
    for hiccups in [1, 2, 5] {
        let mut it = newline::FlakySource::new(input.as_bytes().to_vec(), 3, hiccups, false)
            .lines_all();
        for line in expected.iter() {
            match it.next() {
                Some(Ok(got)) => assert_eq!(got, *line),
                _ => panic!("expected a decoded line"),
            }
        }
        assert!(it.next().is_none());
    }
}

#[test]
fn source_failure_is_handed_through() {
    let mut it = newline::FlakySource::new(b"ok\nzz".to_vec(), 5, 0, true).lines_all();
    match it.next() {
        Some(Ok(line)) => assert_eq!(line, "ok"),
        _ => panic!("expected a decoded line"),
    }
    match it.next() {
        Some(Err(Error::Io(_))) => {}
        _ => panic!("expected the source failure"),
    }
}

#[test]
fn failing_refill_keeps_partial_line_content() {
    let mut src = newline::FlakySource::new(b"partial".to_vec(), 3, 0, true);
    let mut buf = Vec::new();
    assert!(src.read_line_all(&mut buf).is_err());
    assert_eq!(buf, b"partial".to_vec());
}

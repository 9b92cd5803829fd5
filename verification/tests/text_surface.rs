use libyggterm::TextSurface;

#[test]
fn splices_are_byte_faithful_outside_the_edit() {
    let mut s = TextSurface::new("alpha\nbeta\r\ngamma");
    s.replace(6..10, "BETA");
    assert_eq!(s.source(), "alpha\nBETA\r\ngamma");
    // The CRLF terminator survived untouched; only the four edited
    // bytes moved.
    s.insert(0, "»");
    assert_eq!(s.source(), "»alpha\nBETA\r\ngamma");
    s.delete(0..2);
    assert_eq!(s.source(), "alpha\nBETA\r\ngamma");
}

#[test]
fn line_math_matches_emacs_conventions() {
    let s = TextSurface::new("");
    assert_eq!(s.len_lines(), 1, "an empty document has one line");
    assert_eq!(s.line_range(0), 0..0);

    let s = TextSurface::new("a\n");
    assert_eq!(s.len_lines(), 1, "a trailing newline does not add a line");
    assert_eq!(s.line_range(0), 0..1);

    let s = TextSurface::new("a\nb");
    assert_eq!(s.len_lines(), 2);
    assert_eq!(s.line_range(1), 2..3);
}

#[test]
fn line_math_survives_utf8_and_crlf_on_boundaries() {
    let s = TextSurface::new("héllo\n中文行\r\nthree");
    let (l, c) = s.line_col(s.offset_of(1, 3));
    assert_eq!((l, c), (1, 3));
    // \r before a \n is content (byte-faithful doctrine).
    assert_eq!(&s.source()[s.line_range(1)], "中文行\r");
}

#[test]
fn line_col_round_trips_through_every_offset() {
    let s = TextSurface::new("one\ntwo\n");
    for at in 0..=s.source().len() {
        let (l, c) = s.line_col(at);
        assert_eq!(s.offset_of(l, c), at, "offset {at} did not round-trip");
    }
}

#[test]
fn a_splice_persists_through_further_line_math() {
    // The composition the org animations rely on: splice on line 0,
    // then re-derive a LATER line's range — offsets shift by the edit.
    let mut s = TextSurface::new("* TODO one\nplain\n- [ ] box\n");
    // Same-length keyword swap keeps every offset.
    s.replace(2..6, "DONE");
    assert_eq!(s.source(), "* DONE one\nplain\n- [ ] box\n");
    // Removing the keyword and its space shifts later lines up by 5.
    let _r = s.line_range(0);
    s.replace(2..7, "");
    assert_eq!(s.source(), "* one\nplain\n- [ ] box\n");
    assert_eq!(&s.source()[s.line_range(1)], "plain");
    assert_eq!(&s.source()[s.line_range(2)], "- [ ] box");
}

#[test]
fn line_starts_skip_a_trailing_newline() {
    assert_eq!(TextSurface::new("a\nb\n").line_starts(), vec![0, 2]);
    assert_eq!(TextSurface::new("\n\n").line_starts(), vec![0, 1]);
    assert_eq!(TextSurface::new("").line_starts(), vec![0]);
}

#[test]
fn the_line_count_is_the_start_count() {
    for text in ["", "a", "a\n", "a\nb", "\n\n", "x\r\ny\r\n", "中\n文"] {
        let s = TextSurface::new(text);
        assert_eq!(s.len_lines(), s.line_starts().len(), "{text:?}");
    }
}

#[test]
fn line_col_counts_bytes_after_the_last_newline() {
    let s = TextSurface::new("ab\ncd");
    assert_eq!(s.line_col(0), (0, 0));
    assert_eq!(s.line_col(2), (0, 2));
    assert_eq!(s.line_col(3), (1, 0));
    assert_eq!(s.line_col(5), (1, 2));
    assert_eq!(s.offset_of(2, 0), 5);
}

#[test]
fn into_source_returns_the_edited_text() {
    let mut s = TextSurface::new("abc");
    s.insert(3, "def");
    assert_eq!(s.into_source(), "abcdef");
    assert_eq!(TextSurface::default().source(), "");
}

#[test]
fn a_replace_is_undone_by_replacing_back() {
    let before = "one\ntwo é\nthree";
    let mut s = TextSurface::new(before);
    s.replace(4..7, "second");
    assert_eq!(s.source(), "one\nsecond é\nthree");
    s.replace(4..10, "two");
    assert_eq!(s.source(), before);
}

#[test]
fn line_math_survives_multibyte_and_crlf() {
    let s = TextSurface::new("héllo\n中文行\r\nthree");
    let (l, c) = s.line_col(s.offset_of(1, 3));
    assert_eq!((l, c), (1, 3));
    // \r before a \n is content.
    assert_eq!(&s.source()[s.line_range(1)], "中文行\r");
}

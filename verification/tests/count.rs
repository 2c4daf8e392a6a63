use wcr::{count, CountError, FileInfo};

fn info(num_lines: usize, num_words: usize, num_bytes: usize, num_chars: usize) -> FileInfo {
    FileInfo { num_lines, num_words, num_bytes, num_chars }
}

#[test]
fn test_count() {
    let text = "I don't want the world. I just want your half.\r\n";
    let info = count(text.as_bytes());
    assert!(info.is_ok());
    let expected = FileInfo {
        num_lines: 1,
        num_words: 10,
        num_chars: 48,
        num_bytes: 48,
    };
    assert_eq!(info.unwrap(), expected);
}

#[test]
fn empty_input_has_no_counts() {
    assert_eq!(count(b""), Ok(info(0, 0, 0, 0)));
}

#[test]
fn unterminated_last_line_is_a_line() {
    let got = count(b"a\nb\nc").unwrap();
    assert_eq!(got.num_lines, 3);
    assert_eq!(got.num_words, 3);
    assert_eq!(got, info(3, 3, 5, 5));
}

#[test]
fn three_byte_character_is_one_character() {
    assert_eq!(count("\u{20AC}\n".as_bytes()), Ok(info(1, 1, 4, 2)));
}

#[test]
fn blank_line_has_no_word() {
    assert_eq!(count(b"\n"), Ok(info(1, 0, 1, 1)));
    assert_eq!(count(b"\n\n\n"), Ok(info(3, 0, 3, 3)));
    assert_eq!(count(b" \t \n"), Ok(info(1, 0, 4, 4)));
}

#[test]
fn carriage_return_is_counted_and_separates_nothing_new() {
    assert_eq!(count(b"a\r\nb\r\n"), Ok(info(2, 2, 6, 6)));
    assert_eq!(count(b"a\rb"), Ok(info(1, 2, 3, 3)));
}

#[test]
fn words_are_runs_between_whitespace() {
    assert_eq!(count(b"one"), Ok(info(1, 1, 3, 3)));
    assert_eq!(count(b"  one  two  "), Ok(info(1, 2, 12, 12)));
    assert_eq!(count(b"one\ntwo three\n"), Ok(info(2, 3, 14, 14)));
    assert_eq!(count(b"a\x0bb\x0cc"), Ok(info(1, 3, 5, 5)));
}

#[test]
fn wide_whitespace_separates_words() {
    let text = "a\u{00A0}b\u{2003}c\u{3000}d\u{0085}e\u{1680}f\u{2028}g\u{205F}h";
    let got = count(text.as_bytes()).unwrap();
    assert_eq!(got.num_words, 8);
    assert_eq!(got.num_chars, 15);
    assert_eq!(got.num_bytes, text.len());
    assert_eq!(got.num_lines, 1);
}

#[test]
fn wide_characters_that_are_not_whitespace_join_a_word() {
    let text = "a\u{200B}b\u{180E}c\u{FEFF}d";
    let got = count(text.as_bytes()).unwrap();
    assert_eq!(got.num_words, 1);
    assert_eq!(got.num_chars, 7);
}

#[test]
fn four_byte_character_is_one_character() {
    assert_eq!(count("\u{1F600}".as_bytes()), Ok(info(1, 1, 4, 1)));
    assert_eq!(count("\u{10FFFF} \u{10000}\n".as_bytes()), Ok(info(1, 2, 10, 4)));
}

#[test]
fn characters_never_outnumber_bytes() {
    for text in ["", "plain", "na\u{EF}ve", "\u{20AC}\u{20AC}", "x\u{1F600}y\n"] {
        let got = count(text.as_bytes()).unwrap();
        assert!(got.num_chars <= got.num_bytes);
        assert_eq!(got.num_chars == got.num_bytes, text.is_ascii());
    }
}

#[test]
fn counting_twice_gives_the_same() {
    let first = "to be\nor not\u{2003}to be".as_bytes().to_vec();
    let second = first.clone();
    assert_eq!(count(&first), count(&second));
    assert_eq!(count(&first), count(&first));
}

#[test]
fn extra_whitespace_between_words_keeps_the_words() {
    let few = count(b"alpha beta\ngamma").unwrap();
    let many = count(b"alpha  \t beta\n\n  gamma").unwrap();
    assert_eq!(few.num_words, 3);
    assert_eq!(many.num_words, 3);
    let more = count(b"alpha new words beta\ngamma").unwrap();
    assert_eq!(more.num_words, few.num_words + 2);
    let cut = count(b"al pha beta\ngamma").unwrap();
    assert_eq!(cut.num_words, few.num_words + 1);
}

#[test]
fn counts_grow_with_the_input() {
    let text = "one two\nthree \u{20AC}\nfour";
    let mut last = info(0, 0, 0, 0);
    for (end, _) in text.char_indices().chain([(text.len(), ' ')]) {
        let got = count(text[..end].as_bytes()).unwrap();
        assert!(got.num_lines >= last.num_lines);
        assert!(got.num_words >= last.num_words);
        assert!(got.num_bytes >= last.num_bytes);
        assert!(got.num_chars >= last.num_chars);
        last = got;
    }
    assert_eq!(last, info(3, 5, 22, 20));
}

#[test]
fn counts_of_whole_lines_add_up() {
    let head = "one two\nthree\n";
    let tail = "\u{20AC} four\nfive";
    let whole = format!("{head}{tail}");
    let a = count(head.as_bytes()).unwrap();
    let b = count(tail.as_bytes()).unwrap();
    let both = count(whole.as_bytes()).unwrap();
    assert_eq!(
        both,
        info(
            a.num_lines + b.num_lines,
            a.num_words + b.num_words,
            a.num_bytes + b.num_bytes,
            a.num_chars + b.num_chars
        )
    );
}

#[test]
fn ill_formed_input_has_no_counts() {
    let bad: [&[u8]; 12] = [
        b"\xff",
        b"ok\n\x80",
        b"\xc3",
        b"\xc3(",
        b"\xc0\x80",
        b"\xc1\xbf",
        b"\xe0\x80\x80",
        b"\xe2\x82",
        b"\xed\xa0\x80",
        b"\xf0\x80\x80\x80",
        b"\xf4\x90\x80\x80",
        b"good line\nbad \xf8\x88\x80\x80\x80 line\n",
    ];
    for bytes in bad {
        assert!(std::str::from_utf8(bytes).is_err());
        assert_eq!(count(bytes), Err(CountError::InvalidEncoding));
    }
}

#[test]
fn well_formed_edges_are_accepted() {
    let good: [&[u8]; 8] = [
        b"\x00",
        b"\x7f",
        b"\xc2\x80",
        b"\xdf\xbf",
        b"\xe0\xa0\x80",
        b"\xed\x9f\xbf",
        b"\xee\x80\x80",
        b"\xf4\x8f\xbf\xbf",
    ];
    for bytes in good {
        assert!(std::str::from_utf8(bytes).is_ok());
        assert_eq!(count(bytes), Ok(info(1, 1, bytes.len(), 1)));
    }
}

#[test]
fn agrees_with_line_by_line_counting() {
    let texts = [
        "",
        "\n",
        "no newline",
        "tabs\tand\u{00A0}spaces \r\n\r\nlast",
        "\u{1F600} \u{3000}wide\u{2029}runs\n",
    ];
    for text in texts {
        let mut lines = 0;
        let mut words = 0;
        let mut chars = 0;
        for line in text.split_inclusive('\n') {
            lines += 1;
            words += line.split_whitespace().count();
            chars += line.chars().count();
        }
        assert_eq!(count(text.as_bytes()), Ok(info(lines, words, text.len(), chars)));
    }
}

fn by_the_standard(bytes: &[u8]) -> Result<FileInfo, CountError> {
    let text = std::str::from_utf8(bytes).map_err(|_| CountError::InvalidEncoding)?;
    Ok(info(
        text.split_inclusive('\n').count(),
        text.split_whitespace().count(),
        bytes.len(),
        text.chars().count(),
    ))
}

#[test]
fn agrees_with_the_standard_on_scrambled_bytes() {
    let alphabet: [&[u8]; 16] = [
        b"a",
        b" ",
        b"\n",
        b"\r",
        b"\t",
        b"word",
        "\u{00A0}".as_bytes(),
        "\u{00E9}".as_bytes(),
        "\u{2003}".as_bytes(),
        "\u{20AC}".as_bytes(),
        "\u{1F600}".as_bytes(),
        b"\x80",
        b"\xc3",
        b"\xe2\x82",
        b"\xf0\x9f",
        b"\xff",
    ];
    let mut state: u32 = 0x2545_F491;
    let mut well_formed = 0;
    let mut ill_formed = 0;
    for _ in 0..4000 {
        let mut bytes = Vec::new();
        state = state.wrapping_mul(1_664_525).wrapping_add(1_013_904_223);
        let pieces = (state >> 28) as usize;
        for _ in 0..pieces {
            state = state.wrapping_mul(1_664_525).wrapping_add(1_013_904_223);
            let pick = (state >> 24) as usize % 64;
            bytes.extend_from_slice(alphabet[if pick < 16 { pick } else { pick % 11 }]);
        }
        let got = count(&bytes);
        assert_eq!(got, by_the_standard(&bytes), "{bytes:?}");
        if got.is_ok() {
            well_formed += 1;
        } else {
            ill_formed += 1;
        }
    }
    assert!(well_formed > 500);
    assert!(ill_formed > 500);
}

#[test]
fn a_line_is_ill_formed_exactly_when_the_input_is() {
    let inputs: [&[u8]; 5] = [
        b"one\ntwo\n",
        b"one\n\xfftwo\nthree",
        b"\xe2\x82\xac\n\xe2\x82\n",
        b"tail \xc3",
        "caf\u{00E9}\n\u{1F600}".as_bytes(),
    ];
    for input in inputs {
        let some_line_refused = input
            .split_inclusive(|b| *b == b'\n')
            .any(|line| count(line).is_err());
        assert_eq!(count(input).is_err(), some_line_refused);
    }
}

#[test]
fn counts_bound_each_other() {
    for text in ["", "\n", "a", "a b\n", "\u{20AC} \u{1F600}\n\nx", "   "] {
        let got = count(text.as_bytes()).unwrap();
        assert!(got.num_words <= got.num_chars);
        assert!(got.num_chars <= got.num_bytes);
        assert!(got.num_lines <= got.num_bytes);
        assert_eq!(got.num_lines == 0, got.num_bytes == 0);
    }
}

#[test]
fn whitespace_inside_a_word_makes_two() {
    assert_eq!(count(b"alphabet").unwrap().num_words, 1);
    assert_eq!(count(b"alpha bet").unwrap().num_words, 2);
    assert_eq!(count("alpha\u{3000}\u{2003}bet".as_bytes()).unwrap().num_words, 2);
}

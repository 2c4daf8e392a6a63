use wcr::{get_args, ArgsError, RawArgs, Source};

fn raw(files: &[&str], lines: bool, words: bool, bytes: bool, chars: bool) -> RawArgs {
    RawArgs {
        files: files.iter().map(|f| f.to_string()).collect(),
        lines,
        words,
        bytes,
        chars,
    }
}

#[test]
fn no_selector_shows_lines_words_and_bytes() {
    let args = get_args(raw(&["a.txt"], false, false, false, false)).unwrap();
    assert!(args.lines());
    assert!(args.words());
    assert!(args.bytes());
    assert!(!args.chars());
    assert_eq!(args.files(), &vec!["a.txt".to_string()]);
}

#[test]
fn a_selector_switches_the_defaults_off() {
    let args = get_args(raw(&["a", "b"], false, true, false, false)).unwrap();
    assert!(!args.lines());
    assert!(args.words());
    assert!(!args.bytes());
    assert!(!args.chars());
    assert_eq!(args.files(), &vec!["a".to_string(), "b".to_string()]);

    let args = get_args(raw(&["a"], false, false, false, true)).unwrap();
    assert!(!args.lines());
    assert!(!args.words());
    assert!(!args.bytes());
    assert!(args.chars());

    let args = get_args(raw(&["a"], true, true, true, false)).unwrap();
    assert!(args.lines() && args.words() && args.bytes() && !args.chars());
}

#[test]
fn no_input_named_means_standard_input() {
    let args = get_args(raw(&[], true, false, false, false)).unwrap();
    assert_eq!(args.files(), &vec!["-".to_string()]);
    assert_eq!(Source::from_name(&args.files()[0]), Source::Stdin);
}

#[test]
fn bytes_and_characters_exclude_each_other() {
    let refused = get_args(raw(&["a"], false, false, true, true));
    assert_eq!(refused.err(), Some(ArgsError::BytesWithChars));
    let refused = get_args(raw(&[], true, true, true, true));
    assert_eq!(refused.err(), Some(ArgsError::BytesWithChars));
}

#[test]
fn every_selection_resolves_as_stated() {
    for bits in 0..16u8 {
        let (l, w, b, c) = (bits & 1 != 0, bits & 2 != 0, bits & 4 != 0, bits & 8 != 0);
        let got = get_args(raw(&["f"], l, w, b, c));
        if b && c {
            assert!(got.is_err());
        } else {
            let args = got.unwrap();
            let none = !l && !w && !b && !c;
            assert_eq!(args.lines(), l || none);
            assert_eq!(args.words(), w || none);
            assert_eq!(args.bytes(), b || none);
            assert_eq!(args.chars(), c);
            assert!(args.lines() || args.words() || args.bytes() || args.chars());
        }
    }
}

#[test]
fn a_dash_names_the_standard_input() {
    assert_eq!(Source::from_name("-"), Source::Stdin);
    assert_eq!(Source::from_name("--"), Source::File("--".to_string()));
    assert_eq!(Source::from_name(""), Source::File(String::new()));
    assert_eq!(Source::from_name("notes.txt"), Source::File("notes.txt".to_string()));
    assert_eq!(Source::from_name("\u{2212}"), Source::File("\u{2212}".to_string()));
}

#[test]
fn resolving_again_changes_nothing() {
    for bits in 0..16u8 {
        let (l, w, b, c) = (bits & 1 != 0, bits & 2 != 0, bits & 4 != 0, bits & 8 != 0);
        for files in [&[][..], &["x", "-"][..]] {
            if let Ok(once) = get_args(raw(files, l, w, b, c)) {
                let names: Vec<&str> = once.files().iter().map(|f| f.as_str()).collect();
                let again = get_args(raw(
                    &names,
                    once.lines(),
                    once.words(),
                    once.bytes(),
                    once.chars(),
                ))
                .unwrap();
                assert_eq!(again.files(), once.files());
                assert_eq!(again.lines(), once.lines());
                assert_eq!(again.words(), once.words());
                assert_eq!(again.bytes(), once.bytes());
                assert_eq!(again.chars(), once.chars());
            }
        }
    }
}

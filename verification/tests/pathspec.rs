use git_config::pathspec::parse::{parse_attributes, parse_long_keywords, parse_short_keywords, split_keywords, Error};
use git_config::pathspec::{MagicSignature, Pattern, SearchMode, State, EXCLUDE, ICASE, TOP};

fn pattern(path: &str, bits: u32, search_mode: SearchMode, attributes: Vec<(&str, State)>) -> Pattern {
    Pattern {
        path: path.as_bytes().to_vec(),
        signature: MagicSignature { bits },
        search_mode,
        attributes: attributes
            .into_iter()
            .map(|(name, state)| (name.as_bytes().to_vec(), state))
            .collect(),
    }
}

fn parse(input: &str) -> Result<Pattern, Error> {
    Pattern::from_bytes(input.as_bytes())
}

#[test]
fn empty_input_is_refused() {
    assert_eq!(parse(""), Err(Error::EmptyString));
}

#[test]
fn plain_paths_have_no_signature() {
    assert_eq!(parse("some/path"), Ok(pattern("some/path", 0, SearchMode::ShellGlob, vec![])));
    assert_eq!(parse("*.rs"), Ok(pattern("*.rs", 0, SearchMode::ShellGlob, vec![])));
    assert_eq!(parse("a:b"), Ok(pattern("a:b", 0, SearchMode::ShellGlob, vec![])));
}

#[test]
fn a_lone_colon_is_the_empty_path() {
    assert_eq!(parse(":"), Ok(pattern("", 0, SearchMode::ShellGlob, vec![])));
    assert_eq!(parse("::"), Ok(pattern("", 0, SearchMode::ShellGlob, vec![])));
    assert_eq!(parse(":path"), Ok(pattern("path", 0, SearchMode::ShellGlob, vec![])));
}

#[test]
fn short_keywords_set_their_bits() {
    assert_eq!(parse(":/"), Ok(pattern("", TOP, SearchMode::ShellGlob, vec![])));
    assert_eq!(parse(":/a"), Ok(pattern("a", TOP, SearchMode::ShellGlob, vec![])));
    assert_eq!(parse(":^a"), Ok(pattern("a", EXCLUDE, SearchMode::ShellGlob, vec![])));
    assert_eq!(parse(":!a"), Ok(pattern("a", EXCLUDE, SearchMode::ShellGlob, vec![])));
    assert_eq!(parse(":/!a"), Ok(pattern("a", TOP | EXCLUDE, SearchMode::ShellGlob, vec![])));
    assert_eq!(parse(":!/^a"), Ok(pattern("a", TOP | EXCLUDE, SearchMode::ShellGlob, vec![])));
}

#[test]
fn a_colon_closes_the_short_keywords() {
    assert_eq!(parse(":/:a"), Ok(pattern("a", TOP, SearchMode::ShellGlob, vec![])));
    assert_eq!(parse(":/:/a"), Ok(pattern("/a", TOP, SearchMode::ShellGlob, vec![])));
    assert_eq!(parse("::(top)a"), Ok(pattern("a", TOP, SearchMode::ShellGlob, vec![])));
}

#[test]
fn reserved_short_keywords_are_unimplemented() {
    for b in "\"#%&',-;<=>@_`~".bytes() {
        let input = [b':', b];
        assert_eq!(
            Pattern::from_bytes(&input),
            Err(Error::Unimplemented { found_short_keyword: vec![b] })
        );
    }
    assert_eq!(
        parse(":/!-rest"),
        Err(Error::Unimplemented { found_short_keyword: b"-".to_vec() })
    );
}

#[test]
fn short_keywords_move_the_cursor() {
    let mut cursor = 1;
    let r = parse_short_keywords(b":/!:rest", &mut cursor);
    assert_eq!(r, Ok(MagicSignature { bits: TOP | EXCLUDE }));
    assert_eq!(cursor, 4);

    let mut cursor = 1;
    let r = parse_short_keywords(b":/rest", &mut cursor);
    assert_eq!(r, Ok(MagicSignature { bits: TOP }));
    assert_eq!(cursor, 2);

    let mut cursor = 1;
    let r = parse_short_keywords(b":/#", &mut cursor);
    assert_eq!(r, Err(Error::Unimplemented { found_short_keyword: b"#".to_vec() }));
    assert_eq!(cursor, 3);

    let mut cursor = 9;
    let r = parse_short_keywords(b":/", &mut cursor);
    assert_eq!(r, Ok(MagicSignature { bits: 0 }));
    assert_eq!(cursor, 9);
}

#[test]
fn long_keywords_set_their_bits() {
    assert_eq!(parse(":(top)"), Ok(pattern("", TOP, SearchMode::ShellGlob, vec![])));
    assert_eq!(parse(":(icase)a"), Ok(pattern("a", ICASE, SearchMode::ShellGlob, vec![])));
    assert_eq!(parse(":(exclude)a"), Ok(pattern("a", EXCLUDE, SearchMode::ShellGlob, vec![])));
    assert_eq!(
        parse(":(top,icase,exclude)a"),
        Ok(pattern("a", TOP | ICASE | EXCLUDE, SearchMode::ShellGlob, vec![]))
    );
    assert_eq!(parse(":()a"), Ok(pattern("a", 0, SearchMode::ShellGlob, vec![])));
    assert_eq!(parse(":(attr)a"), Ok(pattern("a", 0, SearchMode::ShellGlob, vec![])));
    assert_eq!(parse(":(prefix:any)a"), Ok(pattern("a", 0, SearchMode::ShellGlob, vec![])));
}

#[test]
fn short_and_long_keywords_add_up() {
    assert_eq!(parse(":/(icase)a"), Ok(pattern("a", TOP | ICASE, SearchMode::ShellGlob, vec![])));
    assert_eq!(parse(":!(literal)a"), Ok(pattern("a", EXCLUDE, SearchMode::Literal, vec![])));
}

#[test]
fn search_modes() {
    assert_eq!(parse(":(literal)a"), Ok(pattern("a", 0, SearchMode::Literal, vec![])));
    assert_eq!(parse(":(glob)a"), Ok(pattern("a", 0, SearchMode::PathAwareGlob, vec![])));
    assert_eq!(parse(":(glob,glob)a"), Ok(pattern("a", 0, SearchMode::PathAwareGlob, vec![])));
    assert_eq!(parse(":(literal,glob)a"), Err(Error::IncompatibleSearchModes));
    assert_eq!(parse(":(glob,literal)a"), Err(Error::IncompatibleSearchModes));
}

#[test]
fn attributes_are_read_in_order() {
    assert_eq!(
        parse(":(attr:someAttr)a"),
        Ok(pattern("a", 0, SearchMode::ShellGlob, vec![("someAttr", State::IsSet)]))
    );
    assert_eq!(
        parse(":(attr:one -two !three four=value five=)a"),
        Ok(pattern(
            "a",
            0,
            SearchMode::ShellGlob,
            vec![
                ("one", State::IsSet),
                ("two", State::Unset),
                ("three", State::Unspecified),
                ("four", State::Value(b"value".to_vec())),
                ("five", State::Value(Vec::new())),
            ]
        ))
    );
    assert_eq!(
        parse(":(top,attr:a b)p"),
        Ok(pattern("p", TOP, SearchMode::ShellGlob, vec![("a", State::IsSet), ("b", State::IsSet)]))
    );
}

#[test]
fn attribute_errors() {
    assert_eq!(parse(":(attr:)a"), Err(Error::EmptyAttribute));
    assert_eq!(
        parse(":(attr:+invalid)a"),
        Err(Error::InvalidAttribute { attribute: b"+invalid".to_vec() })
    );
    assert_eq!(
        parse(":(attr:--bad)a"),
        Err(Error::InvalidAttribute { attribute: b"-bad".to_vec() })
    );
    assert_eq!(parse(":(attr:a,attr:b)p"), Err(Error::MultipleAttributeSpecifications));
    assert_eq!(parse_attributes(b""), Err(Error::EmptyAttribute));
    assert_eq!(
        parse_attributes(b"ok in=valid inv@lid"),
        Err(Error::InvalidAttribute { attribute: b"inv@lid".to_vec() })
    );
    assert_eq!(
        parse_attributes(b"a=b"),
        Ok(vec![(b"a".to_vec(), State::Value(b"b".to_vec()))])
    );
}

#[test]
fn a_blank_attribute_list_leaves_room_for_another() {
    assert_eq!(
        parse(":(attr: ,attr:a)p"),
        Ok(pattern("p", 0, SearchMode::ShellGlob, vec![("a", State::IsSet)]))
    );
}

#[test]
fn keyword_errors() {
    assert_eq!(
        parse(":(top"),
        Err(Error::MissingClosingParenthesis { pathspec: b":(top".to_vec() })
    );
    assert_eq!(
        parse(":(unknown)a"),
        Err(Error::InvalidKeyword { found_keyword: b"unknown".to_vec() })
    );
    assert_eq!(parse(":(top,)a"), Err(Error::InvalidKeyword { found_keyword: Vec::new() }));
    assert_eq!(parse(":(TOP)a"), Err(Error::InvalidKeyword { found_keyword: b"TOP".to_vec() }));
    assert_eq!(
        parse(":(top,,icase)a"),
        Err(Error::InvalidKeyword { found_keyword: b",icase".to_vec() })
    );
}

#[test]
fn keywords_are_cut_at_unescaped_commas() {
    assert_eq!(split_keywords(b""), vec![&b""[..]]);
    assert_eq!(split_keywords(b"top"), vec![&b"top"[..]]);
    assert_eq!(split_keywords(b"top,icase"), vec![&b"top"[..], &b"icase"[..]]);
    assert_eq!(split_keywords(b"a\\,b,c"), vec![&b"a\\,b"[..], &b"c"[..]]);
    assert_eq!(split_keywords(b",a"), vec![&b",a"[..]]);
    assert_eq!(split_keywords(b"a,"), vec![&b"a"[..], &b""[..]]);
    assert_eq!(split_keywords(b"a,,,b"), vec![&b"a"[..], &b","[..], &b"b"[..]]);
    assert_eq!(
        parse(":(attr:a=one\\,two,top)p"),
        Ok(pattern("p", TOP, SearchMode::ShellGlob, vec![("a", State::Value(b"one\\,two".to_vec()))]))
    );
}

#[test]
fn long_keywords_move_the_cursor() {
    let input = b":(top,icase)rest";
    let mut cursor = 2;
    let r = parse_long_keywords(input, &mut cursor).unwrap();
    assert_eq!(r, pattern("", TOP | ICASE, SearchMode::ShellGlob, vec![]));
    assert_eq!(cursor, 12);

    let mut cursor = 2;
    let r = parse_long_keywords(b":(top", &mut cursor);
    assert_eq!(r, Err(Error::MissingClosingParenthesis { pathspec: b":(top".to_vec() }));
    assert_eq!(cursor, 2);

    let mut cursor = 2;
    let r = parse_long_keywords(b":(nope)rest", &mut cursor);
    assert_eq!(r, Err(Error::InvalidKeyword { found_keyword: b"nope".to_vec() }));
    assert_eq!(cursor, 7);
}

#[test]
fn signatures_combine() {
    let both = MagicSignature::top().union(MagicSignature::exclude());
    assert_eq!(both.bits, TOP | EXCLUDE);
    assert!(both.contains(MagicSignature::top()));
    assert!(!both.contains(MagicSignature::icase()));
    assert!(MagicSignature::empty().is_empty());
    assert!(!both.is_empty());
    assert!(both.contains(both));
    assert!(both.contains(MagicSignature::empty()));
    assert!(!MagicSignature::top().contains(both));
    assert_eq!(MagicSignature::icase().bits, ICASE);
}

use pil_condenser::path::{
    parse_absolute_path, AbsoluteSymbolPath, ParseError, Part, PathResolutionError, SymbolPath,
};

fn abs(s: &str) -> AbsoluteSymbolPath {
    parse_absolute_path(s).unwrap()
}

#[test]
fn common_prefix() {
    assert_eq!(abs("::a::b").common_prefix(&abs("::a::c")), abs("::a"));
    assert_eq!(abs("::a::b").common_prefix(&abs("::a")), abs("::a"));
    assert_eq!(abs("::a").common_prefix(&abs("::a::c")), abs("::a"));
    assert_eq!(abs("::x").common_prefix(&abs("::y::t")), abs("::"));
    assert_eq!(
        abs("::x::r::v").common_prefix(&abs("::x::r::t")),
        abs("::x::r")
    );
}

#[test]
fn relative_to() {
    assert_eq!(
        abs("::a::b").relative_to(&abs("::a::c")).to_string(),
        "super::b".to_string()
    );
    assert_eq!(
        abs("::a::b").relative_to(&abs("::a")).to_string(),
        "b".to_string()
    );
    assert_eq!(
        abs("::x").relative_to(&abs("::y::t")).to_string(),
        "super::super::x".to_string()
    );
    assert_eq!(
        abs("::x::r::v").relative_to(&abs("::x::r")).to_string(),
        "v".to_string()
    );
    assert_eq!(
        abs("::x").relative_to(&abs("::x::t::k")).to_string(),
        "super::super".to_string()
    );
    assert_eq!(
        abs("::x").relative_to(&abs("::x")).to_string(),
        "".to_string()
    );
}

#[test]
fn relative_to_join() {
    let v = abs("::x::r::v");
    let base = abs("::x::t");
    let rel = v.relative_to(&base);
    assert_eq!(base.join(rel), Ok(v));
}

#[test]
fn common_prefix_of_a_path_with_itself() {
    let a = abs("::a::b::c");
    assert_eq!(a.common_prefix(&a), a);
    assert_eq!(abs("::").common_prefix(&a), abs("::"));
}

#[test]
fn join_round_trip_on_several_pairs() {
    let texts = ["::", "::a", "::a::b", "::a::c::d", "::x", "::a::b::c::d::e"];
    for a in texts {
        for b in texts {
            let path = abs(a);
            let base = abs(b);
            assert_eq!(base.clone().join(path.relative_to(&base)), Ok(path));
        }
    }
}

#[test]
fn join_fails_above_the_root() {
    let rel = SymbolPath::from_parts(vec![
        Part::Named("a".to_string()),
        Part::Super,
        Part::Super,
        Part::Super,
    ]);
    assert_eq!(
        abs("::x").join(rel),
        Err(PathResolutionError { part: 3 })
    );
    let up = SymbolPath::from_parts(vec![Part::Super]);
    assert_eq!(abs("::").join(up), Err(PathResolutionError { part: 0 }));
}

#[test]
fn join_resets_at_the_root_part_and_at_an_empty_name() {
    let rel = SymbolPath::from_parts(vec![
        Part::Named("a".to_string()),
        Part::Named(String::new()),
        Part::Named("b".to_string()),
    ]);
    assert_eq!(abs("::x::y").join(rel), Ok(abs("::b")));
    let rel = SymbolPath::from_absolute(abs("::p::q"));
    assert_eq!(
        rel.parts(),
        vec![
            &Part::Root,
            &Part::Named("p".to_string()),
            &Part::Named("q".to_string())
        ]
    );
    assert_eq!(abs("::x::y").join(rel), Ok(abs("::p::q")));
}

#[test]
fn join_of_relative_paths_concatenates() {
    let a = SymbolPath::from_str("a::super").unwrap();
    let b = SymbolPath::from_identifier("b".to_string());
    assert_eq!(
        a.join(b),
        SymbolPath::from_parts(vec![
            Part::Named("a".to_string()),
            Part::Super,
            Part::Named("b".to_string())
        ])
    );
}

#[test]
fn parse_dotted_and_colon_notation() {
    let expected = SymbolPath::from_parts(vec![
        Part::Named("a".to_string()),
        Part::Named("b".to_string()),
    ]);
    assert_eq!(SymbolPath::from_str("a.b"), Ok(expected.clone()));
    assert_eq!(SymbolPath::from_str("a::b"), Ok(expected));
    assert_eq!(
        SymbolPath::from_str("super::x"),
        Ok(SymbolPath::from_parts(vec![
            Part::Super,
            Part::Named("x".to_string())
        ]))
    );
    assert_eq!(
        SymbolPath::from_str(""),
        Ok(SymbolPath::from_parts(vec![Part::Named(String::new())]))
    );
    assert_eq!(
        SymbolPath::from_str("a:::b"),
        Ok(SymbolPath::from_parts(vec![
            Part::Named("a".to_string()),
            Part::Named(":b".to_string())
        ]))
    );
}

#[test]
fn parse_refuses_mixed_separators() {
    assert_eq!(
        SymbolPath::from_str("a.b::c"),
        Err(ParseError::MixedSeparators("a.b::c".to_string()))
    );
}

#[test]
fn parse_absolute_path_needs_the_root_prefix() {
    assert_eq!(
        parse_absolute_path("a::b"),
        Err(ParseError::MissingRootPrefix("a::b".to_string()))
    );
    assert_eq!(
        parse_absolute_path(":"),
        Err(ParseError::MissingRootPrefix(":".to_string()))
    );
    assert_eq!(
        parse_absolute_path("::a::::b"),
        Err(ParseError::EmptyPart("::a::::b".to_string()))
    );
    assert_eq!(parse_absolute_path("::"), Ok(AbsoluteSymbolPath::new()));
    assert_eq!(parse_absolute_path("::a").unwrap().len(), 1);
}

#[test]
fn dotted_string_uses_dots_up_to_two_parts() {
    assert_eq!(abs("::a::b").to_dotted_string(), "a.b");
    assert_eq!(abs("::a::b::c").to_dotted_string(), "a::b::c");
    assert_eq!(abs("::").to_dotted_string(), "");
    assert_eq!(abs("::a::b::c").to_string(), "::a::b::c");
    assert_eq!(abs("::").to_string(), "::");
    let p = SymbolPath::from_str("super::x").unwrap();
    assert_eq!(p.to_dotted_string(), "super.x");
    let q = SymbolPath::from_str("a::b::c").unwrap();
    assert_eq!(q.to_dotted_string(), "a::b::c");
    assert_eq!(q.to_string(), "a::b::c");
}

#[test]
fn written_paths_read_back() {
    for text in ["a", "a.b", "super.a", "super.super"] {
        let path = SymbolPath::from_str(text).unwrap();
        assert_eq!(SymbolPath::from_str(&path.to_dotted_string()), Ok(path));
    }
    for text in ["a", "a::b", "a::b::c", "super::super::x", "a:b::c"] {
        let path = SymbolPath::from_str(text).unwrap();
        assert_eq!(SymbolPath::from_str(&path.to_string()), Ok(path));
    }
    for text in ["::", "::a", "::a::b::c"] {
        let path = abs(text);
        assert_eq!(parse_absolute_path(&path.to_string()), Ok(path));
    }
}

#[test]
fn identifiers_and_last_parts() {
    let single = SymbolPath::from_identifier("x".to_string());
    assert_eq!(single.try_to_identifier(), Some(&"x".to_string()));
    assert_eq!(single.try_last_part(), Some(&"x".to_string()));
    assert_eq!(single.name(), "x");
    let two = SymbolPath::from_str("a::b").unwrap();
    assert_eq!(two.try_to_identifier(), None);
    assert_eq!(two.try_last_part(), Some(&"b".to_string()));
    let up = SymbolPath::from_parts(vec![Part::Named("a".to_string()), Part::Super]);
    assert_eq!(up.try_last_part(), None);
    assert_eq!(SymbolPath::from_parts(vec![]).try_last_part(), None);
    assert_eq!(Part::Named("n".to_string()).try_into(), Ok("n".to_string()));
    assert_eq!(Part::Super.try_into(), Err(()));
    assert_eq!(Part::Super.to_string(), "super");
}

#[test]
fn absolute_path_editing() {
    let mut p = abs("::a::b");
    assert_eq!(p.pop(), Some("b".to_string()));
    assert_eq!(p, abs("::a"));
    p.push("c".to_string());
    assert_eq!(p, abs("::a::c"));
    assert_eq!(p.parts(), vec!["a", "c"]);
    assert_eq!(p.len(), 2);
    assert!(!p.is_empty());
    assert_eq!(p.clone().parent(), Ok(abs("::a")));
    assert_eq!(abs("::").parent(), Err(PathResolutionError { part: 0 }));
    assert_eq!(abs("::").pop(), None);
    assert_eq!(p.with_part("d"), Ok(abs("::a::c::d")));
    assert_eq!(p.with_part(""), Err(ParseError::EmptyPart(String::new())));
    assert_eq!(
        abs("::a::b").iter_to_root(),
        vec![abs("::a::b"), abs("::a"), abs("::")]
    );
}

use attr_parser_fn::find_attr::{all, first, only};
use attr_parser_fn::meta::{conflicts, key_str, key_value, list, path_only, Node, Out, ParseError};
use attr_parser_fn::token::{Tok, ValueKind};
use attr_parser_fn::{Attr, ParseArgs, Payload};

fn id(s: &str) -> Tok {
    Tok::Ident(s.to_string())
}

fn st(s: &str) -> Tok {
    Tok::Str(s.to_string())
}

fn comma() -> Tok {
    Tok::Punct(',')
}

fn eq() -> Tok {
    Tok::Punct('=')
}

fn text(s: &str) -> Out {
    Out::Text(s.to_string())
}

fn flag_or_kv() -> Node {
    conflicts(vec![
        path_only().named("flag").value("X"),
        key_value(ValueKind::Int).named("kv").value("Y"),
    ])
}

#[test]
fn required_two_strings() {
    let toks = vec![st("a"), comma(), st("b")];
    let r = ParseArgs::new().args(vec![ValueKind::Str, ValueKind::Str]).parse(&toks).unwrap();
    assert_eq!(r.args, vec![st("a"), st("b")]);
    assert!(r.opt_args.is_empty());
    assert!(r.rest_args.is_empty());
    assert_eq!(r.meta, Out::Tuple(vec![]));
}

#[test]
fn optional_two_ints_one_given() {
    let toks = vec![Tok::Int(1)];
    let r = ParseArgs::new().opt_args(vec![ValueKind::Int, ValueKind::Int]).parse(&toks).unwrap();
    assert_eq!(r.opt_args, vec![Some(Tok::Int(1)), None]);
}

#[test]
fn optional_stops_at_first_mismatch() {
    // The string would match the second slot, but the first slot already failed.
    let toks = vec![st("s")];
    let r = ParseArgs::new()
        .opt_args(vec![ValueKind::Int, ValueKind::Str])
        .meta(path_only().named("s").optional())
        .parse(&toks);
    assert_eq!(r.unwrap_err(), ParseError::UnexpectedToken(0));

    let toks = vec![Tok::Int(3), comma(), id("x")];
    let r = ParseArgs::new()
        .opt_args(vec![ValueKind::Int, ValueKind::Int, ValueKind::Int])
        .meta(path_only().named("x"))
        .parse(&toks)
        .unwrap();
    assert_eq!(r.opt_args, vec![Some(Tok::Int(3)), None, None]);
    assert_eq!(r.meta, Out::Flag(true));
}

#[test]
fn conflict_group_flag() {
    let toks = vec![id("flag")];
    let r = ParseArgs::new().meta(flag_or_kv()).parse(&toks).unwrap();
    assert_eq!(r.meta, text("X"));
}

#[test]
fn conflict_group_key_value() {
    let toks = vec![id("kv"), eq(), Tok::Int(5)];
    let r = ParseArgs::new().meta(flag_or_kv()).parse(&toks).unwrap();
    assert_eq!(r.meta, text("Y"));
}

#[test]
fn conflict_group_both_given() {
    let toks = vec![id("flag"), comma(), id("kv"), eq(), Tok::Int(5)];
    let r = ParseArgs::new().meta(flag_or_kv()).parse(&toks);
    assert_eq!(r.unwrap_err(), ParseError::ConflictingAttribute("kv".to_string(), "flag".to_string()));
}

#[test]
fn conflict_group_none_given() {
    let toks: Vec<Tok> = vec![];
    let r = ParseArgs::new().meta(flag_or_kv()).parse(&toks);
    assert_eq!(r.unwrap_err(), ParseError::MissingOneOf("`flag`, `kv`".to_string()));
}

#[test]
fn nested_required_flag() {
    let toks = vec![id("nested"), Tok::Group(vec![id("p")])];
    let meta = list(path_only().named("p")).named("nested");
    let r = ParseArgs::new().meta(meta).parse(&toks).unwrap();
    assert_eq!(r.meta, Out::Flag(true));
}

#[test]
fn nested_optional_present_and_absent() {
    let meta = || list(path_only().named("p")).named("nested").optional();
    let toks = vec![id("nested"), Tok::Group(vec![id("p")])];
    let r = ParseArgs::new().meta(meta()).parse(&toks).unwrap();
    assert_eq!(r.meta, Out::Opt(Some(Box::new(Out::Flag(true)))));

    let toks: Vec<Tok> = vec![];
    let r = ParseArgs::new().meta(meta()).parse(&toks).unwrap();
    assert_eq!(r.meta, Out::Opt(None));
}

#[test]
fn nested_optional_given_empty() {
    let meta = list(Node::tuple(vec![key_value(ValueKind::Int).named("x").optional()]))
        .named("nested")
        .optional();
    let toks = vec![id("nested"), Tok::Group(vec![])];
    let r = ParseArgs::new().meta(meta).parse(&toks).unwrap();
    assert_eq!(r.meta, Out::Opt(Some(Box::new(Out::Tuple(vec![Out::Opt(None)])))));
}

#[test]
fn nested_absent_required_inner() {
    let meta = list(key_value(ValueKind::Int).named("x")).named("nested");
    let toks: Vec<Tok> = vec![];
    let r = ParseArgs::new().meta(meta).parse(&toks);
    assert_eq!(r.unwrap_err(), ParseError::MissingRequired("nested".to_string()));
}

#[test]
fn duplicate_name_any_shape() {
    let grammar = || Node::tuple(vec![path_only().named("k").optional(), key_value(ValueKind::Int).named("k").optional()]);
    let cases = vec![
        vec![id("k"), comma(), id("k")],
        vec![id("k"), comma(), id("k"), eq(), Tok::Int(1)],
        vec![id("k"), eq(), Tok::Int(1), comma(), id("k")],
        vec![id("k"), comma(), id("k"), Tok::Group(vec![])],
    ];
    for toks in cases {
        let r = ParseArgs::new().meta(grammar()).parse(&toks);
        assert_eq!(r.unwrap_err(), ParseError::DuplicateAttribute("k".to_string()));
    }
}

#[test]
fn unrecognized_name_and_shape() {
    let toks = vec![id("other")];
    let r = ParseArgs::new().meta(path_only().named("flag").optional()).parse(&toks);
    assert_eq!(r.unwrap_err(), ParseError::Unrecognized("other".to_string()));

    let toks = vec![id("flag"), Tok::Group(vec![])];
    let r = ParseArgs::new().meta(path_only().named("flag")).parse(&toks);
    assert_eq!(r.unwrap_err(), ParseError::Unrecognized("flag".to_string()));
}

#[test]
fn missing_required_key_value() {
    let toks: Vec<Tok> = vec![];
    let r = ParseArgs::new().meta(key_value(ValueKind::Int).named("n")).parse(&toks);
    assert_eq!(r.unwrap_err(), ParseError::MissingRequired("n".to_string()));
}

#[test]
fn type_mismatch_in_value_and_positional() {
    let toks = vec![id("n"), eq(), st("x")];
    let r = ParseArgs::new().meta(key_value(ValueKind::Int).named("n")).parse(&toks);
    assert_eq!(r.unwrap_err(), ParseError::TypeMismatch(2));

    let toks = vec![Tok::Int(1)];
    let r = ParseArgs::new().args(vec![ValueKind::Str]).parse(&toks);
    assert_eq!(r.unwrap_err(), ParseError::TypeMismatch(0));
}

#[test]
fn unexpected_token_between_positionals() {
    let toks = vec![st("a"), st("b")];
    let r = ParseArgs::new().args(vec![ValueKind::Str, ValueKind::Str]).parse(&toks);
    assert_eq!(r.unwrap_err(), ParseError::UnexpectedToken(1));
}

#[test]
fn rest_values_then_keywords() {
    let toks = vec![Tok::Int(1), comma(), Tok::Int(2), comma(), id("x"), comma()];
    let r = ParseArgs::new()
        .rest_args(ValueKind::Int)
        .meta(path_only().named("x"))
        .parse(&toks)
        .unwrap();
    assert_eq!(r.rest_args, vec![Tok::Int(1), Tok::Int(2)]);
    assert_eq!(r.meta, Out::Flag(true));
}

#[test]
fn absent_flag_is_false() {
    let toks: Vec<Tok> = vec![];
    let r = ParseArgs::new().meta(path_only().named("x")).parse(&toks).unwrap();
    assert_eq!(r.meta, Out::Flag(false));
}

#[test]
fn key_str_takes_string_contents() {
    let toks = vec![id("s"), eq(), st("u8, u16")];
    let r = ParseArgs::new().meta(key_str().named("s")).parse(&toks).unwrap();
    assert_eq!(r.meta, text("u8, u16"));

    let toks = vec![id("s"), eq(), Tok::Int(3)];
    let r = ParseArgs::new().meta(key_str().named("s")).parse(&toks);
    assert_eq!(r.unwrap_err(), ParseError::TypeMismatch(2));
}

#[test]
fn tuple_of_entries_in_any_order() {
    let grammar = || {
        Node::tuple(vec![
            path_only().named("a"),
            key_value(ValueKind::Ident).named("b"),
            key_value(ValueKind::Lit).named("c").optional(),
        ])
    };
    let toks = vec![id("b"), eq(), id("T"), comma(), id("a")];
    let r = ParseArgs::new().meta(grammar()).parse(&toks).unwrap();
    assert_eq!(r.meta, Out::Tuple(vec![Out::Flag(true), Out::Val(id("T")), Out::Opt(None)]));
}

#[test]
fn conflict_group_described_inside_tuple() {
    let grammar = Node::tuple(vec![path_only().named("a"), key_value(ValueKind::Int).named("b")]);
    let toks: Vec<Tok> = vec![];
    let r = ParseArgs::new().meta(conflicts(vec![grammar, path_only().named("c").value("c")])).parse(&toks);
    assert_eq!(r.unwrap_err(), ParseError::MissingOneOf("`a`, `b`, `c`".to_string()));

    let inner = conflicts(vec![path_only().named("x"), path_only().named("y")]);
    let toks: Vec<Tok> = vec![];
    let r = ParseArgs::new().meta(conflicts(vec![inner, path_only().named("z")])).parse(&toks);
    assert_eq!(r.unwrap_err(), ParseError::MissingOneOf("(conflict group: `x`, `y`), `z`".to_string()));
}

#[test]
fn parse_attr_payload_forms() {
    let attr = Attr { path: "my_attr".to_string(), payload: Payload::Path };
    let r = ParseArgs::new().meta(path_only().named("x")).parse_attr(&attr).unwrap();
    assert_eq!(r.meta, Out::Flag(false));

    let attr = Attr { path: "my_attr".to_string(), payload: Payload::List(vec![id("x")]) };
    let r = ParseArgs::new().meta(path_only().named("x")).parse_attr(&attr).unwrap();
    assert_eq!(r.meta, Out::Flag(true));

    let attr = Attr { path: "my_attr".to_string(), payload: Payload::NameValue(vec![Tok::Int(1)]) };
    let r = ParseArgs::new().meta(path_only().named("x")).parse_attr(&attr);
    assert_eq!(r.unwrap_err(), ParseError::UnsupportedPayloadShape);
}

#[test]
fn concatenated_attrs() {
    let attrs = vec![
        Attr { path: "my".to_string(), payload: Payload::List(vec![id("a")]) },
        Attr { path: "my".to_string(), payload: Payload::List(vec![]) },
        Attr { path: "my".to_string(), payload: Payload::List(vec![id("b"), eq(), Tok::Int(7), comma()]) },
    ];
    let grammar = Node::tuple(vec![path_only().named("a"), key_value(ValueKind::Int).named("b")]);
    let r = ParseArgs::new().meta(grammar).parse_concat_attrs(attrs).unwrap();
    assert_eq!(r.meta, Out::Tuple(vec![Out::Flag(true), Out::Val(Tok::Int(7))]));

    let attrs = vec![Attr { path: "my".to_string(), payload: Payload::Path }];
    let r = ParseArgs::new().parse_concat_attrs(attrs);
    assert_eq!(r.unwrap_err(), ParseError::UnsupportedPayloadShape);
}

#[test]
fn entry_after_bad_start_token() {
    let toks = vec![Tok::Int(4)];
    let r = ParseArgs::new().parse(&toks);
    assert_eq!(r.unwrap_err(), ParseError::UnexpectedToken(0));
}

#[test]
fn find_attrs_by_path() {
    let mk = |p: &str| Attr { path: p.to_string(), payload: Payload::Path };
    let attrs = vec![mk("a"), mk("b"), mk("a"), mk("c")];
    assert_eq!(all(&attrs, "a"), vec![0, 2]);
    assert_eq!(first(&attrs, "a"), Some(0));
    assert_eq!(first(&attrs, "z"), None);
    assert_eq!(only(&attrs, "b"), Ok(Some(1)));
    assert_eq!(only(&attrs, "z"), Ok(None));
    assert_eq!(only(&attrs, "a"), Err(ParseError::ConflictingDeclaration("a".to_string())));
}

#[test]
fn conflict_selection_survives_reserialization() {
    let grammar = || Node::tuple(vec![path_only().named("first").optional(), flag_or_kv()]);
    let toks = vec![id("first"), comma(), id("kv"), eq(), Tok::Int(5)];
    let r = ParseArgs::new().meta(grammar()).parse(&toks).unwrap();
    assert_eq!(r.meta, Out::Tuple(vec![Out::Opt(Some(Box::new(Out::Flag(true)))), text("Y")]));

    // The selected entry written back on its own selects the same alternative.
    let toks = vec![id("kv"), eq(), Tok::Int(5)];
    let r = ParseArgs::new().meta(grammar()).parse(&toks).unwrap();
    assert_eq!(r.meta, Out::Tuple(vec![Out::Opt(Some(Box::new(Out::Flag(false)))), text("Y")]));
}

use cbor2_derive::decimal::{i128_to_text, parse_i128, IntErrorKind};
use cbor2_derive::expand::expand;
use cbor2_derive::key::{key_arg_from_digits, key_arg_from_literal, marker_name, KeyArg, MARKER};
use cbor2_derive::syntax::AttrArgs;
use quote::ToTokens;
use cbor2_derive::plan::{plan_field, AttrInfo, FieldError};
use proc_macro2::{Span, TokenStream};

fn key(negative: bool, magnitude: i128) -> KeyArg {
    KeyArg { negative, magnitude, span: Span::call_site() }
}

fn cbor(negative: bool, magnitude: i128) -> AttrInfo {
    AttrInfo::Cbor { span: Span::call_site(), arg: Ok(key(negative, magnitude)) }
}

fn bad_cbor(message: &str) -> AttrInfo {
    AttrInfo::Cbor { span: Span::call_site(), arg: Err(syn::Error::new(Span::call_site(), message)) }
}

fn expand_text(item: &str) -> Result<String, String> {
    expand(TokenStream::new(), item.parse::<TokenStream>().unwrap())
        .map(|t| t.to_string())
        .map_err(|e| e.to_string())
}

#[test]
fn decimal_text_of_edge_values() {
    assert_eq!(i128_to_text(0), "0");
    assert_eq!(i128_to_text(7), "7");
    assert_eq!(i128_to_text(10), "10");
    assert_eq!(i128_to_text(-2), "-2");
    assert_eq!(i128_to_text(i128::MAX), "170141183460469231731687303715884105727");
    assert_eq!(i128_to_text(i128::MIN), "-170141183460469231731687303715884105728");
}

#[test]
fn decimal_parse_matches_std() {
    let cases = [
        "", "+", "-", "0", "-0", "+7", "007", "12x", "1_0", "-18446744073709551616",
        "170141183460469231731687303715884105727",
        "170141183460469231731687303715884105728",
        "-170141183460469231731687303715884105728",
        "-170141183460469231731687303715884105729",
        "9999999999999999999999999999999999999999x", "--1", "+-1", "١",
    ];
    for text in cases {
        let ours = parse_i128(text);
        let std = text.parse::<i128>();
        match (ours, std) {
            (Ok(a), Ok(b)) => assert_eq!(a, b, "{text}"),
            (Err(kind), Err(err)) => assert_eq!(kind.message(), err.to_string(), "{text}"),
            (ours, std) => panic!("{text}: {ours:?} vs {std:?}"),
        }
    }
}

#[test]
fn decimal_error_kinds() {
    assert_eq!(parse_i128(""), Err(IntErrorKind::Empty));
    assert_eq!(parse_i128("-"), Err(IntErrorKind::InvalidDigit));
    assert_eq!(parse_i128("1a"), Err(IntErrorKind::InvalidDigit));
    assert_eq!(parse_i128("170141183460469231731687303715884105728"), Err(IntErrorKind::PosOverflow));
    assert_eq!(parse_i128("-170141183460469231731687303715884105729"), Err(IntErrorKind::NegOverflow));
}

#[test]
fn text_round_trips() {
    for v in [0i128, 1, -1, 9, 10, -10, 18446744073709551615, -18446744073709551616, i128::MAX, i128::MIN] {
        assert_eq!(parse_i128(&i128_to_text(v)), Ok(v));
    }
}

#[test]
fn marker_names() {
    assert_eq!(MARKER, "@@KEY@@");
    assert_eq!(marker_name(1), "@@KEY@@1");
    assert_eq!(marker_name(-2), "@@KEY@@-2");
    assert_eq!(marker_name(0), "@@KEY@@0");
    assert_eq!(marker_name(18446744073709551615), "@@KEY@@18446744073709551615");
    assert_eq!(marker_name(-18446744073709551616), "@@KEY@@-18446744073709551616");
}

#[test]
fn key_range_edges() {
    assert!(key(false, 18446744073709551615).fits_cbor());
    assert!(!key(false, 18446744073709551616).fits_cbor());
    assert!(key(true, 18446744073709551616).fits_cbor());
    assert!(!key(true, 18446744073709551617).fits_cbor());
    // A negative literal after `-` gives a positive key.
    assert!(key(true, -5).fits_cbor());
    assert_eq!(key(true, -5).value_i128(), 5);
    // `- -170141183460469231731687303715884105728` is 2^127: out of range.
    assert!(!key(true, i128::MIN).fits_cbor());
    assert_eq!(key(true, 3).value_i128(), -3);
}

#[test]
fn key_arg_from_digits_reads_the_literal() {
    let k = key_arg_from_digits(true, "18446744073709551616", Span::call_site()).ok().unwrap();
    assert!(k.negative);
    assert_eq!(k.magnitude, 18446744073709551616);
    assert!(matches!(
        key_arg_from_digits(false, "1x", Span::call_site()),
        Err(IntErrorKind::InvalidDigit)
    ));
}

#[test]
fn plan_without_key_leaves_field_alone() {
    let attrs = vec![AttrInfo::Other, AttrInfo::Serde { renames: true }];
    assert!(matches!(plan_field(false, attrs), Ok(None)));
}

#[test]
fn plan_renames_keyed_field() {
    let attrs = vec![AttrInfo::Other, cbor(true, 2), AttrInfo::Serde { renames: false }];
    assert_eq!(plan_field(true, attrs).ok().unwrap(), Some("@@KEY@@-2".to_string()));
}

#[test]
fn plan_error_variants() {
    assert!(matches!(plan_field(true, vec![bad_cbor("bad")]), Err(FieldError::Arg(_))));
    assert!(matches!(plan_field(true, vec![cbor(false, 1), cbor(false, 2)]), Err(FieldError::Duplicate(_))));
    // The second attribute's argument is parsed before the duplicate is noticed.
    match plan_field(true, vec![cbor(false, 1), bad_cbor("second")]) {
        Err(FieldError::Arg(e)) => assert_eq!(e.to_string(), "second"),
        _ => panic!("expected the second argument's error"),
    }
    assert!(matches!(plan_field(false, vec![cbor(false, 1)]), Err(FieldError::Unnamed(_))));
    assert!(matches!(plan_field(true, vec![cbor(false, 18446744073709551616)]), Err(FieldError::OutOfRange(_))));
    assert!(matches!(
        plan_field(true, vec![AttrInfo::Serde { renames: true }, cbor(false, 1)]),
        Err(FieldError::RenameConflict(_))
    ));
    // Errors come in order: the unnamed field before the range.
    assert!(matches!(plan_field(false, vec![cbor(false, 18446744073709551616)]), Err(FieldError::Unnamed(_))));
}

#[test]
fn error_messages() {
    let e = FieldError::Duplicate(Span::call_site()).into_error();
    assert_eq!(e.to_string(), "duplicate #[cbor(key = ...)] attribute");
    let e = FieldError::OutOfRange(Span::call_site()).into_error();
    assert_eq!(e.to_string(), "#[cbor(key = ...)] must fit a CBOR integer (-2^64 ..= 2^64 - 1)");
}

#[test]
fn expansion_is_idempotent() {
    let once = expand_text("struct S { #[cbor(key = 5)] #[serde(default)] a: u8, b: u8 }").unwrap();
    let twice = expand_text(&once).unwrap();
    assert_eq!(once, twice);
    assert!(once.contains(r#"rename = "@@KEY@@5""#), "{once}");
}

#[test]
fn unkeyed_items_pass_through() {
    let item = "struct S { # [serde (default)] a : u8 , b : u8 }";
    let out = expand_text(item).unwrap();
    assert_eq!(out, item.parse::<TokenStream>().unwrap().to_string());
}

#[test]
fn literal_forms() {
    let out = expand_text("struct S { #[cbor(key = 0x10)] a: u8, #[cbor(key = 1_000u64)] b: u8 }").unwrap();
    assert!(out.contains(r#"rename = "@@KEY@@16""#), "{out}");
    assert!(out.contains(r#"rename = "@@KEY@@1000""#), "{out}");
    let err = expand_text("struct S { #[cbor(key = 1, extra)] a: u8 }").unwrap_err();
    assert!(err.contains("unexpected token"), "{err}");
    let err = expand_text("struct S { #[cbor] a: u8 }").unwrap_err();
    assert!(err.contains("expected attribute arguments in parentheses"), "{err}");
    let err = expand_text("struct S { #[cbor(key = 170141183460469231731687303715884105728)] a: u8 }").unwrap_err();
    assert!(err.contains("number too large to fit in target type"), "{err}");
}

#[test]
fn serde_rename_in_nested_form_conflicts() {
    let err = expand_text("struct S { #[cbor(key = 1)] #[serde(rename(serialize = \"a\"))] a: u8 }").unwrap_err();
    assert!(err.contains("conflicts with"), "{err}");
    let out = expand_text("struct S { #[cbor(key = 1)] #[serde(with = \"m\", default)] a: u8 }").unwrap();
    assert!(out.contains(r#"rename = "@@KEY@@1""#), "{out}");
}

#[test]
fn enum_errors_stop_at_first_variant() {
    let err = expand_text("enum E { A { #[cbor(key = 1)] #[cbor(key = 2)] a: u8 }, B(#[cbor(key = 3)] u8) }").unwrap_err();
    assert!(err.contains("duplicate"), "{err}");
    let err = expand_text("enum E { A { a: u8 }, B(#[cbor(key = 3)] u8) }").unwrap_err();
    assert!(err.contains("named field"), "{err}");
}

#[test]
fn rewrite_item_rewrites_struct_fields() {
    let mut item: syn::Item = syn::parse_str(
        "struct S { #[cbor(key = 3)] #[serde(default)] a: u8, #[allow(unused)] b: u8 }",
    )
    .unwrap();
    cbor2_derive::expand::rewrite_item(&mut item).unwrap();
    let out = item.to_token_stream().to_string();
    assert!(out.contains(r#"# [serde (default)] # [serde (rename = "@@KEY@@3")] a"#), "{out}");
    assert!(out.contains("# [allow (unused)] b"), "{out}");
    assert!(!out.contains("cbor"), "{out}");
}

#[test]
fn rewrite_item_refuses_other_items() {
    let mut item: syn::Item = syn::parse_str("union U { a: u8 }").unwrap();
    let err = cbor2_derive::expand::rewrite_item(&mut item).unwrap_err();
    assert_eq!(err.to_string(), "int_keys supports structs and enums");
}

#[test]
fn rewrite_fields_removes_key_attributes_in_place() {
    let mut item: syn::ItemStruct = syn::parse_str(
        "struct S { #[doc = \"x\"] #[cbor(key = -7)] #[serde(alias = \"y\")] a: u8 }",
    )
    .unwrap();
    cbor2_derive::expand::rewrite_fields(&mut item.fields).unwrap();
    let attrs: Vec<String> = item.fields.iter().next().unwrap().attrs.iter()
        .map(|a| a.to_token_stream().to_string())
        .collect();
    assert_eq!(attrs, vec![
        "# [doc = \"x\"]".to_string(),
        "# [serde (alias = \"y\")]".to_string(),
        "# [serde (rename = \"@@KEY@@-7\")]".to_string(),
    ]);
}

#[test]
fn rewrite_fields_without_keys_changes_nothing() {
    let mut item: syn::ItemStruct = syn::parse_str("struct S(#[serde(rename = \"x\")] u8, u16);").unwrap();
    let before = item.to_token_stream().to_string();
    cbor2_derive::expand::rewrite_fields(&mut item.fields).unwrap();
    assert_eq!(before, item.to_token_stream().to_string());
}

#[test]
fn key_literal_checks() {
    let k = key_arg_from_literal(true, "2", Span::call_site()).ok().unwrap();
    assert!(k.negative && k.magnitude == 2);
    let e = key_arg_from_literal(false, "170141183460469231731687303715884105728", Span::call_site()).err().unwrap();
    assert_eq!(e.to_string(), "number too large to fit in target type");
}

fn read_key(text: &str) -> Result<i128, String> {
    read_key_tokens(text.parse::<TokenStream>().unwrap())
}

fn read_key_tokens(tokens: TokenStream) -> Result<i128, String> {
    let args = AttrArgs::List(Span::call_site(), tokens);
    match KeyArg::parse(&args) {
        Ok(k) => Ok(if k.negative { -k.magnitude } else { k.magnitude }),
        Err(e) => Err(e.to_string()),
    }
}

fn read_key_with_syn(text: &str) -> Result<i128, String> {
    read_key_tokens_with_syn(text.parse::<TokenStream>().unwrap())
}

fn read_key_tokens_with_syn(tokens: TokenStream) -> Result<i128, String> {
    let parser = |input: syn::parse::ParseStream| -> syn::Result<i128> {
        let name: syn::Ident = input.parse()?;
        if name != "key" {
            return Err(syn::Error::new(name.span(), "expected `key = <integer>`"));
        }
        input.parse::<syn::token::Eq>()?;
        let negative = input.peek(syn::token::Minus);
        if negative {
            input.parse::<syn::token::Minus>()?;
        }
        let literal: syn::LitInt = input.parse()?;
        let magnitude: i128 = literal.base10_parse()?;
        Ok(if negative { -magnitude } else { magnitude })
    };
    syn::parse::Parser::parse2(parser, tokens).map_err(|e| e.to_string())
}

#[test]
fn key_argument_grammar() {
    assert_eq!(read_key("key = 5"), Ok(5));
    assert_eq!(read_key("key = -5"), Ok(-5));
    assert_eq!(read_key("key = - -5"), Ok(5));
    assert_eq!(read_key("key = 0x10"), Ok(16));
    assert_eq!(read_key("key = 1_000u64"), Ok(1000));
    assert_eq!(read_key("key = -0"), Ok(0));
    assert_eq!(read_key(""), Err("unexpected end of input, expected identifier".to_string()));
    assert_eq!(read_key("5"), Err("expected identifier".to_string()));
    assert_eq!(read_key("(key) = 5"), Err("expected identifier".to_string()));
    assert_eq!(read_key("type = 5"), Err("expected identifier, found keyword `type`".to_string()));
    assert_eq!(read_key("name = 1"), Err("expected `key = <integer>`".to_string()));
    assert_eq!(read_key("key"), Err("expected `=`".to_string()));
    assert_eq!(read_key("key 5"), Err("expected `=`".to_string()));
    assert_eq!(read_key("key ="), Err("unexpected end of input, expected integer literal".to_string()));
    assert_eq!(read_key("key = -"), Err("unexpected end of input, expected integer literal".to_string()));
    assert_eq!(read_key("key = \"1\""), Err("expected integer literal".to_string()));
    assert_eq!(read_key("key = 1.5"), Err("expected integer literal".to_string()));
    assert_eq!(read_key("key = true"), Err("expected integer literal".to_string()));
    assert_eq!(read_key("key = 1 2"), Err("unexpected token".to_string()));
    assert_eq!(
        read_key("key = 170141183460469231731687303715884105728"),
        Err("number too large to fit in target type".to_string())
    );
    let path = KeyArg::parse(&AttrArgs::Path(Span::call_site())).err().unwrap();
    assert_eq!(path.to_string(), "expected attribute arguments in parentheses: #[cbor(...)]");
    let name_value = KeyArg::parse(&AttrArgs::NameValue(Span::call_site())).err().unwrap();
    assert_eq!(name_value.to_string(), "expected parentheses: #[cbor(...)]");
}

#[test]
fn key_argument_grammar_agrees_with_syn() {
    for text in [
        "key = 5", "key = -5", "key = - -5", "key = --5", "key = 0x10", "key = 1_000u64", "key = -0",
        "", "5", "(key) = 5", "type = 5", "self = 1", "_ = 1", "r#type = 1", "name = 1", "key",
        "key 5", "key ==5", "key =", "key = -", "key = \"1\"", "key = 1.5", "key = -1.5",
        "key = true", "key = 1 2", "key = 1,", "key = 'c'", "key = b'c'", "key = [1]",
        "key = 18446744073709551616", "key = -18446744073709551617",
        "key = 170141183460469231731687303715884105727",
        "key = 170141183460469231731687303715884105728",
        "key = -170141183460469231731687303715884105728",
    ] {
        assert_eq!(read_key(text), read_key_with_syn(text), "{text}");
    }
}

#[test]
fn refusal_messages() {
    for (error, text) in [
        (FieldError::Unnamed(Span::call_site()), "#[cbor(key = ...)] requires a named field"),
        (FieldError::RenameConflict(Span::call_site()), "#[cbor(key = ...)] conflicts with #[serde(rename = ...)]"),
    ] {
        assert_eq!(error.into_error().to_string(), text);
    }
}

fn with_invisible_group(before: &str, inside: &str, after: &str) -> TokenStream {
    let mut tokens: TokenStream = before.parse().unwrap();
    let group = proc_macro2::Group::new(proc_macro2::Delimiter::None, inside.parse().unwrap());
    tokens.extend([proc_macro2::TokenTree::Group(group)]);
    tokens.extend(after.parse::<TokenStream>().unwrap());
    tokens
}

#[test]
fn key_argument_reads_through_invisible_groups() {
    let cases = [
        with_invisible_group("key =", "-5", ""),
        with_invisible_group("key =", "5", ""),
        with_invisible_group("", "key", "= 7"),
        with_invisible_group("key = 5", "", ""),
        with_invisible_group("key = 5", "6", ""),
        with_invisible_group("key =", "", "9"),
        with_invisible_group("key =", "x", ""),
    ];
    assert_eq!(read_key_tokens(cases[0].clone()), Ok(-5));
    assert_eq!(read_key_tokens(cases[3].clone()), Ok(5));
    for tokens in cases {
        assert_eq!(read_key_tokens(tokens.clone()), read_key_tokens_with_syn(tokens.clone()), "{tokens}");
    }
}

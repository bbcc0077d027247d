use cbor2_derive::expand::expand;
use proc_macro2::TokenStream;

fn tokens(text: &str) -> TokenStream {
    text.parse::<TokenStream>().unwrap()
}

fn expanded(item: &str) -> String {
    expand(TokenStream::new(), tokens(item)).unwrap().to_string()
}

fn error(item: &str) -> String {
    expand(TokenStream::new(), tokens(item)).unwrap_err().to_string()
}

#[test]
fn rewrites_keys_into_marker_renames() {
    let out = expanded(
        r#"
        struct CoseKey {
            #[cbor(key = 1)]
            kty: u8,
            #[cbor(key = -2)]
            #[serde(alias = "x")]
            x: Vec<u8>,
            plain: bool,
        }
        "#,
    );

    assert!(out.contains(r#"rename = "@@KEY@@1""#), "{out}");
    assert!(out.contains(r#"rename = "@@KEY@@-2""#), "{out}");
    assert!(out.contains(r#"alias = "x""#), "{out}");
    assert!(!out.contains("cbor"), "{out}");
}

#[test]
fn coexists_with_flag_attributes() {
    // serde metas without values (`default`) and non-serde attributes
    // pass through untouched.
    let out = expanded(
        r#"
        struct S {
            #[cbor(key = 1)]
            #[serde(default, alias = "k")]
            #[allow(unused)]
            a: u8,
        }
        "#,
    );

    assert!(out.contains(r#"rename = "@@KEY@@1""#), "{out}");
    assert!(out.contains("default"), "{out}");
    assert!(out.contains("allow"), "{out}");
}

#[test]
fn rewrites_enum_variant_fields() {
    let out = expanded(
        r#"
        enum Message {
            Signed {
                #[cbor(key = 1)]
                payload: u8,
            },
            Unit,
        }
        "#,
    );

    assert!(out.contains(r#"rename = "@@KEY@@1""#), "{out}");
}

#[test]
fn accepts_the_full_cbor_integer_range() {
    let out = expanded(
        r#"
        struct Edges {
            #[cbor(key = 18446744073709551615)]
            hi: u8,
            #[cbor(key = -18446744073709551616)]
            lo: u8,
            #[cbor(key = 0)]
            zero: u8,
        }
        "#,
    );

    assert!(
        out.contains(r#"rename = "@@KEY@@18446744073709551615""#),
        "{out}"
    );
    assert!(
        out.contains(r#"rename = "@@KEY@@-18446744073709551616""#),
        "{out}"
    );
    assert!(out.contains(r#"rename = "@@KEY@@0""#), "{out}");
}

#[test]
fn rejects_invalid_uses() {
    let msg = error(
        r#"
        struct S {
            #[cbor(key = 18446744073709551616)]
            a: u8,
        }
        "#,
    );
    assert!(msg.contains("must fit a CBOR integer"), "{msg}");

    let msg = error(
        r#"
        struct S {
            #[cbor(key = -18446744073709551617)]
            a: u8,
        }
        "#,
    );
    assert!(msg.contains("must fit a CBOR integer"), "{msg}");

    let msg = error(
        r#"
        struct S {
            #[cbor(key = 1)]
            #[cbor(key = 2)]
            a: u8,
        }
        "#,
    );
    assert!(msg.contains("duplicate"), "{msg}");

    let msg = error(
        r#"
        struct S {
            #[cbor(key = 1)]
            #[serde(rename = "one")]
            a: u8,
        }
        "#,
    );
    assert!(msg.contains("conflicts with"), "{msg}");

    let msg = error(
        r#"
        struct S(#[cbor(key = 1)] u8);
        "#,
    );
    assert!(msg.contains("named field"), "{msg}");

    let msg = error(
        r#"
        struct S {
            #[cbor(name = 1)]
            a: u8,
        }
        "#,
    );
    assert!(msg.contains("expected `key = <integer>`"), "{msg}");

    let msg = error(
        r#"
        struct S {
            #[cbor(key = "1")]
            a: u8,
        }
        "#,
    );
    assert!(msg.contains("expected integer literal"), "{msg}");

    let msg = error(
        r#"
        fn not_a_struct() {}
        "#,
    );
    assert!(msg.contains("supports structs and enums"), "{msg}");
}

#[test]
fn rejects_macro_arguments() {
    let msg = expand(tokens("unexpected"), tokens("struct S;"))
        .unwrap_err()
        .to_string();
    assert!(msg.contains("takes no arguments"), "{msg}");
}

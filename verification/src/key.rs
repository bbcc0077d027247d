//! Integer map keys: the argument of `#[cbor(key = ...)]`, the range of
//! integers that CBOR can write as a map key, and the field name that tells
//! the `cbor2` serializers to write a key as that integer.
use vstd::prelude::*;

use vstd::string::{StrSliceExecFns, StringExecFns};

use crate::decimal::{
    int_text, i128_to_text, is_digit, lemma_int_text_canonical, lemma_int_text_round_trip, parse_i128,
    parse_int_text, IntErrorKind,
};
use crate::syntax::{
    arg_token_view, attr_args_view, error_messages, error_new, ident_is_reserved, is_reserved_word,
    flat, join_span, plain_char, shallow, stream_arg_tokens, stream_view, ArgToken, ArgTokenView, ArgsView,
    AttrArgs, DelimView, TokenView,
};

verus! {

/// The prefix that marks a field name as an integer key for the `cbor2`
/// serializers.
pub const MARKER: &'static str = "@@KEY@@";

/// The characters of `MARKER`.
pub open spec fn marker_text() -> Seq<char> {
    seq!['@', '@', 'K', 'E', 'Y', '@', '@']
}

/// The largest key: the largest value of CBOR major type 0.
pub open spec fn cbor_key_max() -> int {
    18446744073709551615
}

/// The smallest key: the smallest value of CBOR major type 1.
pub open spec fn cbor_key_min() -> int {
    -18446744073709551616
}

/// Whether `v` is an integer that a CBOR map can hold as a key.
pub open spec fn fits_cbor_key(v: int) -> bool {
    cbor_key_min() <= v <= cbor_key_max()
}

/// The field name that stands for the integer key `v`.
pub open spec fn marker_name_text(v: int) -> Seq<char> {
    marker_text() + int_text(v)
}

/// The argument of one `#[cbor(key = <integer>)]` attribute: the sign
/// written before the literal, the value that the literal's digits read as,
/// and where the literal stands.
pub struct KeyArg {
    pub negative: bool,
    pub magnitude: i128,
    pub span: proc_macro2::Span,
}

impl KeyArg {
    /// The key the attribute asks for.
    pub open spec fn value(self) -> int {
        if self.negative {
            -(self.magnitude as int)
        } else {
            self.magnitude as int
        }
    }

    /// The key as an `i128`; it exists whenever the key fits CBOR.
    pub fn value_i128(&self) -> (v: i128)
        requires
            fits_cbor_key(self.value()),
        ensures
            v as int == self.value(),
    {
        if self.negative {
            -self.magnitude
        } else {
            self.magnitude
        }
    }

    /// Whether the key lies in the range of CBOR integers,
    /// `-2^64 ..= 2^64 - 1`.
    pub fn fits_cbor(&self) -> (fits: bool)
        ensures
            fits == fits_cbor_key(self.value()),
    {
        let max: i128 = 18446744073709551615;
        if self.negative {
            // value = -magnitude; compare without negating.
            self.magnitude >= -max && self.magnitude <= max + 1
        } else {
            self.magnitude >= -max - 1 && self.magnitude <= max
        }
    }
}

/// The text `key`.
pub open spec fn key_word() -> Seq<char> {
    seq!['k', 'e', 'y']
}

/// The error for an argument that is not named `key`.
pub open spec fn key_name_message() -> Seq<char> {
    "expected `key = <integer>`"@
}

/// The error for a reserved word where the argument's name belongs.
pub open spec fn keyword_message(word: Seq<char>) -> Seq<char> {
    "expected identifier, found keyword `"@ + word + "`"@
}

/// The digits of the integer literal that starts at token `i`, and where
/// it ends: a literal that `syn::Lit::new` reads as an integer, or a `-`
/// followed by such a literal whose digits carry no sign, which read
/// together as a negative literal.
pub open spec fn int_literal_at(s: Seq<ArgTokenView>, i: int) -> Option<(Seq<char>, int)> {
    if !(0 <= i < s.len()) {
        None
    } else {
        match s[i] {
            ArgTokenView::Literal(Some(d)) => Some((d, i + 1)),
            ArgTokenView::Punct(c) => if c == '-' && i + 1 < s.len() {
                match s[i + 1] {
                    ArgTokenView::Literal(Some(d)) => if d.len() > 0 && d[0] == '-' {
                        None
                    } else {
                        Some((seq!['-'] + d, i + 2))
                    },
                    _ => None,
                }
            } else {
                None
            },
            _ => None,
        }
    }
}

/// What the tokens from `i` on read as: an integer literal, which must be
/// the last token, its digits read as `str::parse::<i128>` reads them and
/// negated when a `-` came before it; or the error that `syn` and
/// `str::parse` report.
pub open spec fn key_value_at(s: Seq<ArgTokenView>, i: int, negative: bool) -> Result<
    int,
    Seq<char>,
> {
    match int_literal_at(s, i) {
        None => if i >= s.len() {
            Err("unexpected end of input, expected integer literal"@)
        } else {
            Err("expected integer literal"@)
        },
        Some((digits, next)) => match parse_int_text(digits) {
            Err(kind) => Err(kind.message_text()),
            Ok(m) => if next < s.len() {
                Err("unexpected token"@)
            } else {
                Ok(
                    if negative {
                        -m
                    } else {
                        m
                    },
                )
            },
        },
    }
}

/// What the tokens inside `#[cbor(...)]` read as under the grammar
/// `key = -? <integer literal>`: the key, or the message of the first
/// error, in the order in which `syn` meets them.
pub open spec fn key_tokens_reading(s: Seq<ArgTokenView>) -> Result<int, Seq<char>> {
    if s.len() == 0 {
        Err("unexpected end of input, expected identifier"@)
    } else {
        match s[0] {
            ArgTokenView::Ident(name) => if name != key_word() {
                if is_reserved_word(name) {
                    Err(keyword_message(name))
                } else {
                    Err(key_name_message())
                }
            } else if s.len() > 1 && s[1] == ArgTokenView::Punct('=') {
                if s.len() > 2 && s[2] == ArgTokenView::Punct('-') {
                    key_value_at(s, 3, true)
                } else {
                    key_value_at(s, 2, false)
                }
            } else {
                Err("expected `=`"@)
            },
            _ => Err("expected identifier"@),
        }
    }
}

/// What the arguments of a `#[cbor...]` attribute read as: the key, or the
/// message of the error that refuses them.
pub open spec fn key_reading(args: ArgsView) -> Result<int, Seq<char>> {
    match args {
        ArgsView::Path => Err("expected attribute arguments in parentheses: #[cbor(...)]"@),
        ArgsView::NameValue => Err("expected parentheses: #[cbor(...)]"@),
        ArgsView::List(tokens) => key_tokens_reading(
            flat(tokens).map_values(|t: TokenView| shallow(t)),
        ),
    }
}

/// What the key grammar reads of argument tokens.
pub open spec fn arg_views(s: Seq<ArgToken>) -> Seq<ArgTokenView> {
    s.map_values(|t: ArgToken| arg_token_view(t))
}

/// Whether a parse result is the reading: the key with that value, or an
/// error with that one message.
pub open spec fn key_result_agrees(
    res: Result<KeyArg, syn::Error>,
    reading: Result<int, Seq<char>>,
) -> bool {
    match reading {
        Ok(v) => res matches Ok(k) && k.value() == v,
        Err(m) => res matches Err(e) && error_messages(e) == seq![m],
    }
}

impl KeyArg {
    /// Parses the arguments of a `#[cbor...]` attribute as
    /// `(key = <integer>)`: an identifier `key`, a `=`, and an integer
    /// literal with an optional `-` before it, and nothing else. The
    /// literal's digits are read as `str::parse::<i128>` reads them. Errors
    /// carry the messages that `syn` gives.
    pub fn parse(args: &AttrArgs) -> (res: Result<KeyArg, syn::Error>)
        ensures
            key_result_agrees(res, key_reading(attr_args_view(*args))),
    {
        match args {
            AttrArgs::Path(span) => Err(
                error_new(*span, "expected attribute arguments in parentheses: #[cbor(...)]"),
            ),
            AttrArgs::NameValue(span) => Err(error_new(*span, "expected parentheses: #[cbor(...)]")),
            AttrArgs::List(end, stream) => {
                let mut tokens: Vec<ArgToken> = Vec::new();
                push_flat_tokens(stream, &mut tokens);
                assert(arg_views(tokens@) =~= flat(stream_view(*stream)).map_values(
                    |t: TokenView| shallow(t),
                ));
                key_from_tokens(&tokens, *end)
            },
        }
    }
}

/// Appends the token trees of `stream` to `out` as `syn`'s cursor meets
/// them, each group without delimiters replaced by the tokens inside it.
fn push_flat_tokens(stream: &proc_macro2::TokenStream, out: &mut Vec<ArgToken>)
    ensures
        arg_views(final(out)@) == arg_views(old(out)@) + flat(stream_view(*stream)).map_values(
            |t: TokenView| shallow(t),
        ),
    decreases stream_view(*stream),
{
    let ghost sv = stream_view(*stream);
    let ghost start = arg_views(out@);
    let mut rest = stream_arg_tokens(stream);
    let ghost all = rest@;
    assert(all.len() == rest.len());
    let mut k: usize = 0;
    assert(sv.subrange(0, 0) =~= Seq::<TokenView>::empty());
    assert(arg_views(out@) =~= start + flat(sv.subrange(0, 0)).map_values(|t: TokenView| shallow(t)));
    while rest.len() > 0
        invariant
            sv == stream_view(*stream),
            all.len() == sv.len(),
            all.len() <= usize::MAX,
            k + rest.len() == all.len(),
            rest@ == all.skip(k as int),
            forall|j: int| 0 <= j < all.len() ==> arg_token_view(#[trigger] all[j]) == shallow(sv[j]),
            forall|j: int|
                0 <= j < all.len() ==> (#[trigger] all[j] matches ArgToken::Group {
                    span: _,
                    invisible,
                    stream,
                } ==> (sv[j] matches TokenView::Group(d, inner) && invisible == (d
                    == DelimView::Invisible) && stream_view(stream) == inner)),
            arg_views(out@) == start + flat(sv.subrange(0, k as int)).map_values(
                |t: TokenView| shallow(t),
            ),
        decreases rest.len(),
    {
        let ghost before = arg_views(out@);
        let t = rest.remove(0);
        assert(t == all[k as int]);
        let ghost prefix = sv.subrange(0, k + 1);
        assert(prefix.subrange(0, k as int) =~= sv.subrange(0, k as int));
        assert(prefix[k as int] == sv[k as int]);
        match t {
            ArgToken::Group { span, invisible, stream: inner } => {
                if invisible {
                    assert(decreases_to!(sv => sv[k as int]));
                    push_flat_tokens(&inner, out);
                    proof {
                        let a = flat(sv.subrange(0, k as int));
                        let b = flat(stream_view(inner));
                        assert((a + b).map_values(|t: TokenView| shallow(t)) =~= a.map_values(
                            |t: TokenView| shallow(t),
                        ) + b.map_values(|t: TokenView| shallow(t)));
                        assert(arg_views(out@) =~= start + flat(prefix).map_values(
                            |t: TokenView| shallow(t),
                        ));
                    }
                } else {
                    out.push(ArgToken::Group { span, invisible, stream: inner });
                    proof {
                        let a = flat(sv.subrange(0, k as int));
                        assert(flat(prefix) == a.push(sv[k as int]));
                        assert(arg_views(out@) =~= before.push(ArgTokenView::Group));
                        assert(shallow(sv[k as int]) == ArgTokenView::Group);
                        assert(a.push(sv[k as int]).map_values(|t: TokenView| shallow(t)) =~= a.map_values(
                            |t: TokenView| shallow(t),
                        ).push(shallow(sv[k as int])));
                        assert(arg_views(out@) =~= start + flat(prefix).map_values(
                            |t: TokenView| shallow(t),
                        ));
                    }
                }
            },
            other => {
                let ghost view = arg_token_view(other);
                out.push(other);
                proof {
                    let a = flat(sv.subrange(0, k as int));
                    assert(!(sv[k as int] is Group));
                    assert(flat(prefix) == a.push(sv[k as int]));
                    assert(arg_views(out@) =~= before.push(view));
                    assert(shallow(sv[k as int]) == view);
                    assert(a.push(sv[k as int]).map_values(|t: TokenView| shallow(t)) =~= a.map_values(
                        |t: TokenView| shallow(t),
                    ).push(shallow(sv[k as int])));
                    assert(arg_views(out@) =~= start + flat(prefix).map_values(
                        |t: TokenView| shallow(t),
                    ));
                }
            },
        }
        k = k + 1;
    }
    assert(sv.subrange(0, k as int) =~= sv);
}

/// The place of a token.
fn token_span(t: &ArgToken) -> proc_macro2::Span {
    match t {
        ArgToken::Ident { text: _, span } => *span,
        ArgToken::Punct { ch: _, span } => *span,
        ArgToken::Literal { int_digits: _, span } => *span,
        ArgToken::Group { span, invisible: _, stream: _ } => *span,
    }
}

/// Whether a token is the punctuation `c`.
fn is_punct(t: &ArgToken, c: char) -> (b: bool)
    ensures
        b == (arg_token_view(*t) == ArgTokenView::Punct(c)),
{
    match t {
        ArgToken::Punct { ch, span: _ } => *ch == c,
        _ => false,
    }
}

/// Reads the tokens inside the delimiters as `key_tokens_reading` says;
/// `end` is the place of the closing delimiter.
fn key_from_tokens(tokens: &Vec<ArgToken>, end: proc_macro2::Span) -> (res: Result<
    KeyArg,
    syn::Error,
>)
    ensures
        key_result_agrees(res, key_tokens_reading(arg_views(tokens@))),
{
    let ghost s = arg_views(tokens@);
    let n = tokens.len();
    if n == 0 {
        return Err(error_new(end, "unexpected end of input, expected identifier"));
    }
    assert(s[0] == arg_token_view(tokens@[0]));
    match &tokens[0] {
        ArgToken::Ident { text, span } => {
            let key = String::from_str("key");
            proof {
                reveal_strlit("key");
            }
            assert(key@ =~= key_word());
            if !(*text == key) {
                if ident_is_reserved(text.as_str()) {
                    let mut message = String::from_str("expected identifier, found keyword `");
                    message.append(text.as_str());
                    message.append("`");
                    return Err(error_new(*span, message.as_str()));
                }
                return Err(error_new(*span, "expected `key = <integer>`"));
            }
        },
        _ => {
            return Err(error_new(token_span(&tokens[0]), "expected identifier"));
        },
    }
    if n < 2 {
        return Err(error_new(end, "expected `=`"));
    }
    assert(s[1] == arg_token_view(tokens@[1]));
    if !is_punct(&tokens[1], '=') {
        return Err(error_new(token_span(&tokens[1]), "expected `=`"));
    }
    let negative = if n > 2 {
        assert(s[2] == arg_token_view(tokens@[2]));
        is_punct(&tokens[2], '-')
    } else {
        false
    };
    let start: usize = if negative {
        3
    } else {
        2
    };
    key_value_from(tokens, start, negative, end)
}

/// Reads the integer literal at token `i`, which must end the tokens, as
/// `key_value_at` says.
fn key_value_from(tokens: &Vec<ArgToken>, i: usize, negative: bool, end: proc_macro2::Span) -> (res:
    Result<KeyArg, syn::Error>)
    requires
        i <= tokens.len(),
    ensures
        key_result_agrees(res, key_value_at(arg_views(tokens@), i as int, negative)),
{
    let ghost s = arg_views(tokens@);
    let n = tokens.len();
    if i >= n {
        return Err(error_new(end, "unexpected end of input, expected integer literal"));
    }
    assert(s[i as int] == arg_token_view(tokens@[i as int]));
    let mut digits = String::new();
    let mut next: usize = i;
    let mut lit_span = token_span(&tokens[i]);
    match &tokens[i] {
        ArgToken::Literal { int_digits: Some(d), span: _ } => {
            digits.append(d.as_str());
            next = i + 1;
            assert(digits@ =~= d@);
            assert(s[i as int] == ArgTokenView::Literal(Some(d@)));
        },
        ArgToken::Punct { ch, span } => {
            if *ch == '-' && i + 1 < n {
                assert(s[i + 1] == arg_token_view(tokens@[i + 1]));
                match &tokens[i + 1] {
                    ArgToken::Literal { int_digits: Some(d), span: last } => {
                        let signed = d.as_str().unicode_len() > 0 && d.as_str().get_char(0)
                            == '-';
                        if !signed {
                            digits.append("-");
                            digits.append(d.as_str());
                            next = i + 2;
                            lit_span = join_span(*span, *last);
                            proof {
                                reveal_strlit("-");
                            }
                            assert(digits@ =~= seq!['-'] + d@);
                            assert(s[i + 1] == ArgTokenView::Literal(Some(d@)));
                            assert(!(d@.len() > 0 && d@[0] == '-'));
                        }
                    },
                    _ => {},
                }
            }
        },
        _ => {},
    }
    if next == i {
        return Err(error_new(lit_span, "expected integer literal"));
    }
    assert(int_literal_at(s, i as int) == Some((digits@, next as int)));
    let arg = key_arg_from_literal(negative, digits.as_str(), lit_span)?;
    if next < n {
        return Err(error_new(token_span(&tokens[next]), "unexpected token"));
    }
    Ok(arg)
}

/// The key argument that an integer literal gives, with the sign written
/// before it: its digits read as `str::parse::<i128>` reads them, at the
/// literal's place; where they do not read, the error carries the message of
/// `core::num::ParseIntError`.
pub fn key_arg_from_literal(negative: bool, digits: &str, span: proc_macro2::Span) -> (res: Result<
    KeyArg,
    syn::Error,
>)
    ensures
        match parse_int_text(digits@) {
            Ok(m) => res matches Ok(k) && k.magnitude as int == m && k.negative == negative
                && k.span == span,
            Err(kind) => res matches Err(e) && error_messages(e) == seq![
                kind.message_text(),
            ],
        },
{
    match key_arg_from_digits(negative, digits, span) {
        Ok(arg) => Ok(arg),
        Err(kind) => Err(error_new(span, kind.message())),
    }
}

/// Reads the digits of an integer literal into a key argument with the
/// given sign and span; fails as `str::parse::<i128>` fails on the digits.
pub fn key_arg_from_digits(negative: bool, digits: &str, span: proc_macro2::Span) -> (res:
    Result<KeyArg, IntErrorKind>)
    ensures
        match res {
            Ok(k) => parse_int_text(digits@) == Ok::<int, IntErrorKind>(
                k.magnitude as int,
            ) && k.negative == negative && k.span == span,
            Err(e) => parse_int_text(digits@) == Err::<int, IntErrorKind>(e),
        },
{
    match parse_i128(digits) {
        Ok(magnitude) => Ok(KeyArg { negative, magnitude, span }),
        Err(e) => Err(e),
    }
}

/// The field name that tells the `cbor2` serializers to write the map key
/// `value` as an integer: `MARKER` followed by the value's decimal text.
pub fn marker_name(value: i128) -> (name: String)
    ensures
        name@ == marker_name_text(value as int),
{
    let digits = i128_to_text(value);
    let mut name = String::from_str(MARKER);
    proof {
        reveal_strlit("@@KEY@@");
        assert(MARKER@ =~= marker_text());
    }
    name.append(digits.as_str());
    name
}

/// Law: a marker name reads back as its key. It is `MARKER` followed by
/// the key's canonical decimal text (no `+`, no leading zero, no `-0`),
/// and reading that text as `str::parse::<i128>` does gives the key.
pub proof fn lemma_marker_name_reads_back(v: i128)
    ensures
        ({
            let name = marker_name_text(v as int);
            let digits = name.skip(7);
            &&& name.take(7) == marker_text()
            &&& digits == int_text(v as int)
            &&& parse_int_text(digits) == Ok::<int, IntErrorKind>(v as int)
            &&& (v < 0 <==> digits[0] == '-')
            &&& digits[0] != '+'
        }),
{
    let name = marker_name_text(v as int);
    assert(name.take(7) =~= marker_text());
    assert(name.skip(7) =~= int_text(v as int));
    lemma_int_text_round_trip(v);
    lemma_int_text_canonical(v);
}

/// Law: distinct keys get distinct marker names.
pub proof fn lemma_marker_name_injective(a: i128, b: i128)
    ensures
        marker_name_text(a as int) == marker_name_text(b as int) ==> a == b,
{
    lemma_marker_name_reads_back(a);
    lemma_marker_name_reads_back(b);
}


/// Every character of a marker name is an ASCII letter or digit, `@` or
/// `-`.
pub proof fn lemma_marker_name_plain(v: i128)
    ensures
        forall|k: int|
            0 <= k < marker_name_text(v as int).len() ==> plain_char(
                #[trigger] marker_name_text(v as int)[k],
            ),
{
    lemma_int_text_canonical(v);
    let t = int_text(v as int);
    let name = marker_name_text(v as int);
    assert(name == marker_text() + t);
    assert forall|k: int| 0 <= k < name.len() implies plain_char(#[trigger] name[k]) by {
        if k < 7 {
            assert(name[k] == marker_text()[k]);
            assert(plain_char(marker_text()[k]));
        } else {
            assert(name[k] == t[k - 7]);
            if v < 0 {
                if k == 7 {
                    assert(t[0] == '-');
                } else {
                    assert(is_digit(t[k - 7]));
                }
            } else {
                assert(is_digit(t[k - 7]));
            }
        }
    }
}

} // verus!

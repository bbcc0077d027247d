//! The syntax trees of `syn` and `proc-macro2` as this crate uses them.
//!
//! Their values are opaque here: each function below makes one call into
//! those crates and is trusted, not proved. What a token stream, an item, a
//! list of fields and an error hold is named (`stream_view`,
//! `item_contents`, `fields_contents`, `error_messages`) over plain views of
//! tokens and attributes, and the functions that read or change those
//! values say what they do to them.
use vstd::prelude::*;

use proc_macro2::TokenTree;
use quote::ToTokens;
use syn::spanned::Spanned;

verus! {

#[verifier::external_type_specification]
#[verifier::external_body]
pub struct ExTokenStream(proc_macro2::TokenStream);

#[verifier::external_type_specification]
#[verifier::external_body]
pub struct ExSpan(proc_macro2::Span);

#[verifier::external_type_specification]
#[verifier::external_body]
pub struct ExError(syn::Error);

#[verifier::external_type_specification]
#[verifier::external_body]
pub struct ExItem(syn::Item);

#[verifier::external_type_specification]
#[verifier::external_body]
pub struct ExFields(syn::Fields);

#[verifier::external_type_specification]
#[verifier::external_body]
pub struct ExPath(syn::Path);

#[verifier::external_type_specification]
#[verifier::external_body]
pub struct ExParseBuffer<'a>(syn::parse::ParseBuffer<'a>);

#[verifier::external_type_specification]
#[verifier::external_body]
pub struct ExParseNestedMeta<'a>(syn::meta::ParseNestedMeta<'a>);

/// The delimiter of a group of tokens.
pub enum DelimView {
    Paren,
    Brace,
    Bracket,
    /// A group without visible delimiters.
    Invisible,
}

/// A token tree as this crate reads it.
pub enum TokenView {
    /// An identifier, as `Ident::to_string` writes it.
    Ident(Seq<char>),
    /// A punctuation character, and whether it is joined to the next one.
    Punct(char, bool),
    /// A literal, as `Literal::to_string` writes it, and the decimal digits
    /// of its value (`syn::LitInt::base10_digits`) where `syn::Lit::new`
    /// reads it as an integer literal.
    Literal(Seq<char>, Option<Seq<char>>),
    /// A delimited group and the tokens inside it.
    Group(DelimView, Seq<TokenView>),
}

/// What follows the path of an attribute: nothing (`#[path]`), `= value`
/// (`#[path = value]`), or tokens in delimiters (`#[path(tokens)]`).
pub enum ArgsView {
    Path,
    NameValue,
    List(Seq<TokenView>),
}

/// An attribute as this crate reads it: the text of the identifier that
/// its path is (`syn::Path::get_ident`, written with `Ident::to_string`),
/// or `None` where the path is no single identifier; its arguments; and
/// the tokens that `quote::ToTokens` writes for the whole attribute.
pub struct AttrView {
    pub ident: Option<Seq<char>>,
    pub args: ArgsView,
    pub tokens: Seq<TokenView>,
}

/// A field as this crate reads it: whether it has a name, and its
/// attributes in order.
pub type FieldView = (bool, Seq<AttrView>);

/// A list of fields as this crate reads it: what `fields_frame` says of it,
/// and its fields.
pub type ListView = (Seq<TokenView>, Seq<FieldView>);

/// A token tree of an attribute's arguments, with the place it stands.
pub enum ArgToken {
    Ident { text: String, span: proc_macro2::Span },
    Punct { ch: char, span: proc_macro2::Span },
    /// A literal with its integer digits, as in `TokenView::Literal`.
    Literal { int_digits: Option<String>, span: proc_macro2::Span },
    /// A group, with the place of its opening delimiter, whether it has no
    /// delimiters, and the tokens inside it.
    Group { span: proc_macro2::Span, invisible: bool, stream: proc_macro2::TokenStream },
}

/// What the grammar of a key argument reads of a token tree: the text of an
/// identifier, the character of a punctuation, the integer digits of a
/// literal, and that a group is a group.
pub enum ArgTokenView {
    Ident(Seq<char>),
    Punct(char),
    Literal(Option<Seq<char>>),
    Group,
}

/// The arguments of an attribute, with the places that errors point at:
/// the path, the `=`, or the closing delimiter and the tokens inside.
pub enum AttrArgs {
    Path(proc_macro2::Span),
    NameValue(proc_macro2::Span),
    List(proc_macro2::Span, proc_macro2::TokenStream),
}

/// The view of an optional string.
pub open spec fn opt_text(s: Option<String>) -> Option<Seq<char>> {
    match s {
        Some(t) => Some(t@),
        None => None,
    }
}

/// What the key grammar reads of a token tree.
pub open spec fn shallow(t: TokenView) -> ArgTokenView {
    match t {
        TokenView::Ident(text) => ArgTokenView::Ident(text),
        TokenView::Punct(c, _) => ArgTokenView::Punct(c),
        TokenView::Literal(_, digits) => ArgTokenView::Literal(digits),
        TokenView::Group(_, _) => ArgTokenView::Group,
    }
}

/// The token trees as `syn`'s cursor meets them: each group without
/// delimiters is replaced by the tokens inside it.
pub open spec fn flat(s: Seq<TokenView>) -> Seq<TokenView>
    decreases s,
{
    if s.len() == 0 {
        Seq::empty()
    } else {
        let rest = flat(s.subrange(0, s.len() - 1));
        match s[s.len() - 1] {
            TokenView::Group(DelimView::Invisible, inner) => rest + flat(inner),
            t => rest.push(t),
        }
    }
}

/// What the key grammar reads of an argument token.
pub open spec fn arg_token_view(t: ArgToken) -> ArgTokenView {
    match t {
        ArgToken::Ident { text, span: _ } => ArgTokenView::Ident(text@),
        ArgToken::Punct { ch, span: _ } => ArgTokenView::Punct(ch),
        ArgToken::Literal { int_digits, span: _ } => ArgTokenView::Literal(opt_text(int_digits)),
        ArgToken::Group { span: _, invisible: _, stream: _ } => ArgTokenView::Group,
    }
}

/// What a token stream holds: its token trees, in order.
pub uninterp spec fn stream_view(tokens: proc_macro2::TokenStream) -> Seq<TokenView>;

/// The view of an attribute's arguments.
pub open spec fn attr_args_view(args: AttrArgs) -> ArgsView {
    match args {
        AttrArgs::Path(_) => ArgsView::Path,
        AttrArgs::NameValue(_) => ArgsView::NameValue,
        AttrArgs::List(_, tokens) => ArgsView::List(stream_view(tokens)),
    }
}

/// What an error holds: the message of each error it combines, in order.
pub uninterp spec fn error_messages(error: syn::Error) -> Seq<Seq<char>>;

/// What a list of fields holds: each field, in order (`syn::Fields::iter`),
/// as `FieldView` reads it.
pub uninterp spec fn fields_contents(fields: syn::Fields) -> Seq<FieldView>;

/// The tokens that `quote::ToTokens` writes for a list of fields once
/// every field's attributes are removed: the delimiters, and the names,
/// types and punctuation of the fields.
pub uninterp spec fn fields_frame(fields: syn::Fields) -> Seq<TokenView>;

/// What an item holds, as this crate reads it: for a struct (`false`) its
/// one list of fields, for an enum (`true`) the fields of each variant in
/// order, each list with its frame (`fields_frame`) and its fields
/// (`fields_contents`); `None` for any other item.
pub uninterp spec fn item_contents(item: syn::Item) -> Option<(bool, Seq<ListView>)>;

/// The tokens that `quote::ToTokens` writes for an item once each of its
/// lists of fields (of the struct, or of each variant) is replaced by unit
/// fields: everything but the fields.
pub uninterp spec fn item_outline(item: syn::Item) -> Seq<TokenView>;

/// What `syn::parse2::<syn::Item>` reads from tokens: the outline
/// (`item_outline`) and the contents (`item_contents`) of the item they
/// spell, or, where they spell none, the messages of its error.
pub uninterp spec fn item_reading(tokens: Seq<TokenView>) -> Result<
    (Seq<TokenView>, Option<(bool, Seq<ListView>)>),
    Seq<Seq<char>>,
>;

/// The tokens that `quote::ToTokens::into_token_stream` writes for an
/// item.
pub uninterp spec fn item_tokens(item: syn::Item) -> Seq<TokenView>;

/// Whether `syn`'s identifier parser refuses the identifier `text` as a
/// reserved word (`syn::parse_str::<syn::Ident>` fails on it).
pub uninterp spec fn is_reserved_word(text: Seq<char>) -> bool;

/// Whether `syn::Attribute::parse_nested_meta` on an attribute with these
/// arguments, each nested item handed to `expand::note_serde_item`, meets
/// an item named `rename` before it stops: at the end of the arguments or
/// at the first item that does not parse.
pub uninterp spec fn serde_args_rename(args: ArgsView) -> bool;

/// Whether the identifier `rename` can be read at the top level of these
/// arguments: one of the tokens inside the delimiters is that identifier,
/// or a group without delimiters, whose tokens `syn` reads as if they
/// stood in its place.
pub open spec fn may_name_rename(args: ArgsView) -> bool {
    match args {
        ArgsView::List(tokens) => exists|k: int|
            0 <= k < tokens.len() && (#[trigger] tokens[k] == TokenView::Ident(
                seq!['r', 'e', 'n', 'a', 'm', 'e'],
            ) || tokens[k] matches TokenView::Group(DelimView::Invisible, _)),
        _ => false,
    }
}

/// A character that a marker name may hold: an ASCII letter or digit, `@`
/// or `-`. Neither `proc-macro2` nor the compiler escapes it in a string
/// literal.
pub open spec fn plain_char(c: char) -> bool {
    ('a' <= c && c <= 'z') || ('A' <= c && c <= 'Z') || ('0' <= c && c <= '9') || c == '@' || c
        == '-'
}

/// The tokens `rename = "<name>"`.
pub open spec fn rename_args(name: Seq<char>) -> Seq<TokenView> {
    seq![
        TokenView::Ident(seq!['r', 'e', 'n', 'a', 'm', 'e']),
        TokenView::Punct('=', false),
        TokenView::Literal(seq!['"'] + name + seq!['"'], None),
    ]
}

/// The attribute `#[serde(rename = "<name>")]`.
pub open spec fn rename_attr_view(name: Seq<char>) -> AttrView {
    AttrView {
        ident: Some(seq!['s', 'e', 'r', 'd', 'e']),
        args: ArgsView::List(rename_args(name)),
        tokens: seq![
            TokenView::Punct('#', false),
            TokenView::Group(
                DelimView::Bracket,
                seq![
                    TokenView::Ident(seq!['s', 'e', 'r', 'd', 'e']),
                    TokenView::Group(DelimView::Paren, rename_args(name)),
                ],
            ),
        ],
    }
}

/// What kind of item the attribute is placed on.
pub(crate) enum ItemKind {
    Struct,
    Enum,
    Other,
}

/// `proc_macro2::TokenStream::is_empty`: whether the stream holds no token
/// tree.
#[verifier::external_body]
pub(crate) fn token_stream_is_empty(tokens: &proc_macro2::TokenStream) -> (empty: bool)
    ensures
        empty == (stream_view(*tokens).len() == 0),
{
    tokens.is_empty()
}

/// `syn::spanned::Spanned::span` of an item: the source region it covers.
#[verifier::external_body]
pub(crate) fn item_span(item: &syn::Item) -> proc_macro2::Span {
    item.span()
}

/// `syn::spanned::Spanned::span` of a token stream: the source region it
/// covers.
#[verifier::external_body]
pub(crate) fn stream_span(tokens: &proc_macro2::TokenStream) -> proc_macro2::Span {
    tokens.span()
}

/// `proc_macro2::Span::join`, or the first span where the two do not join.
#[verifier::external_body]
pub(crate) fn join_span(first: proc_macro2::Span, last: proc_macro2::Span) -> proc_macro2::Span {
    first.join(last).unwrap_or(first)
}

/// `syn::Error::new`: an error with the given message at the given place.
/// The error holds that one message; its place is not stated.
#[verifier::external_body]
pub(crate) fn error_new(span: proc_macro2::Span, message: &str) -> (error: syn::Error)
    ensures
        error_messages(error) == seq![message@],
{
    syn::Error::new(span, message)
}

/// `syn::parse2::<syn::Item>`: the item that the tokens spell, or why they
/// spell none.
#[verifier::external_body]
pub(crate) fn parse_item(tokens: proc_macro2::TokenStream) -> (res: Result<syn::Item, syn::Error>)
    ensures
        match res {
            Ok(item) => item_reading(stream_view(tokens)) == Ok::<
                (Seq<TokenView>, Option<(bool, Seq<ListView>)>),
                Seq<Seq<char>>,
            >((item_outline(item), item_contents(item))),
            Err(e) => item_reading(stream_view(tokens)) == Err::<
                (Seq<TokenView>, Option<(bool, Seq<ListView>)>),
                Seq<Seq<char>>,
            >(error_messages(e)),
        },
{
    syn::parse2::<syn::Item>(tokens)
}

/// Tells a struct, an enum and any other item apart.
#[verifier::external_body]
pub(crate) fn item_kind(item: &syn::Item) -> (kind: ItemKind)
    ensures
        kind is Struct <==> item_contents(*item) matches Some((false, _)),
        kind is Enum <==> item_contents(*item) matches Some((true, _)),
        kind is Other <==> item_contents(*item) is None,
{
    match item {
        syn::Item::Struct(_) => ItemKind::Struct,
        syn::Item::Enum(_) => ItemKind::Enum,
        _ => ItemKind::Other,
    }
}

/// `quote::ToTokens::into_token_stream`: the tokens of an item.
#[verifier::external_body]
pub(crate) fn item_into_tokens(item: syn::Item) -> (tokens: proc_macro2::TokenStream)
    ensures
        stream_view(tokens) == item_tokens(item),
{
    item.into_token_stream()
}

/// `std::mem::replace` on the fields of a struct item: hands them out and
/// leaves unit fields, which hold no field, in their place; `None` for any
/// other item, which is left as it is.
#[verifier::external_body]
pub(crate) fn take_struct_fields(item: &mut syn::Item) -> (fields: Option<syn::Fields>)
    ensures
        match item_contents(*old(item)) {
            Some((false, lists)) => {
                &&& lists.len() == 1
                &&& fields matches Some(f)
                &&& fields_frame(f) == lists[0].0
                &&& fields_contents(f) == lists[0].1
                &&& item_contents(*final(item)) matches Some((false, l2)) && l2.len() == 1
            },
            _ => fields is None && *final(item) == *old(item),
        },
        item_outline(*final(item)) == item_outline(*old(item)),
{
    match item {
        syn::Item::Struct(s) => Some(std::mem::replace(&mut s.fields, syn::Fields::Unit)),
        _ => None,
    }
}

/// Sets the fields of a struct item; does nothing to any other item.
#[verifier::external_body]
pub(crate) fn put_struct_fields(item: &mut syn::Item, fields: syn::Fields)
    ensures
        match item_contents(*old(item)) {
            Some((false, lists)) => item_contents(*final(item)) == Some(
                (false, seq![(fields_frame(fields), fields_contents(fields))]),
            ),
            _ => *final(item) == *old(item),
        },
        item_outline(*final(item)) == item_outline(*old(item)),
{
    if let syn::Item::Struct(s) = item {
        s.fields = fields;
    }
}

/// `syn::punctuated::Punctuated::len` on the variants of an enum item; 0
/// for any other item.
#[verifier::external_body]
pub(crate) fn variant_count(item: &syn::Item) -> (n: usize)
    ensures
        match item_contents(*item) {
            Some((true, lists)) => n == lists.len(),
            _ => n == 0,
        },
{
    match item {
        syn::Item::Enum(e) => e.variants.len(),
        _ => 0,
    }
}

/// `std::mem::replace` on the fields of variant `index` of an enum item
/// (found with `Punctuated::get_mut`): hands them out and leaves unit
/// fields in their place; `None` where there is no such variant, and then
/// the item is left as it is.
#[verifier::external_body]
pub(crate) fn take_variant_fields(item: &mut syn::Item, index: usize) -> (fields: Option<
    syn::Fields,
>)
    ensures
        match item_contents(*old(item)) {
            Some((true, lists)) => if index < lists.len() {
                &&& fields matches Some(f)
                &&& fields_frame(f) == lists[index as int].0
                &&& fields_contents(f) == lists[index as int].1
                &&& item_contents(*final(item)) matches Some((true, l2)) && l2.len() == lists.len()
                    && forall|k: int| 0 <= k < lists.len() && k != index ==> #[trigger] l2[k] == lists[k]
            } else {
                fields is None && *final(item) == *old(item)
            },
            _ => fields is None && *final(item) == *old(item),
        },
        item_outline(*final(item)) == item_outline(*old(item)),
{
    match item {
        syn::Item::Enum(e) => match e.variants.get_mut(index) {
            Some(v) => Some(std::mem::replace(&mut v.fields, syn::Fields::Unit)),
            None => None,
        },
        _ => None,
    }
}

/// Sets the fields of variant `index` of an enum item, where it exists.
#[verifier::external_body]
pub(crate) fn put_variant_fields(item: &mut syn::Item, index: usize, fields: syn::Fields)
    ensures
        match item_contents(*old(item)) {
            Some((true, lists)) => if index < lists.len() {
                item_contents(*final(item)) == Some(
                    (
                        true,
                        lists.update(index as int, (fields_frame(fields), fields_contents(fields))),
                    ),
                )
            } else {
                *final(item) == *old(item)
            },
            _ => *final(item) == *old(item),
        },
        item_outline(*final(item)) == item_outline(*old(item)),
{
    if let syn::Item::Enum(e) = item {
        if let Some(v) = e.variants.get_mut(index) {
            v.fields = fields;
        }
    }
}

/// `syn::Fields::len`: the number of fields.
#[verifier::external_body]
pub(crate) fn fields_len(fields: &syn::Fields) -> (n: usize)
    ensures
        n == fields_contents(*fields).len(),
{
    fields.len()
}

/// Whether field `index` (in the order of `syn::Fields::iter`) has a name
/// (`syn::Field::ident`).
#[verifier::external_body]
pub(crate) fn field_is_named(fields: &syn::Fields, index: usize) -> (named: bool)
    requires
        index < fields_contents(*fields).len(),
    ensures
        named == fields_contents(*fields)[index as int].0,
{
    fields.iter().nth(index).unwrap().ident.is_some()
}

/// The number of attributes of field `index`.
#[verifier::external_body]
pub(crate) fn field_attr_count(fields: &syn::Fields, index: usize) -> (n: usize)
    requires
        index < fields_contents(*fields).len(),
    ensures
        n == fields_contents(*fields)[index as int].1.len(),
{
    fields.iter().nth(index).unwrap().attrs.len()
}

/// `syn::Path::get_ident` on the path of attribute `attr` of field
/// `index`, with the identifier written by `Ident::to_string`.
#[verifier::external_body]
pub(crate) fn field_attr_ident(fields: &syn::Fields, index: usize, attr: usize) -> (ident: Option<
    String,
>)
    requires
        index < fields_contents(*fields).len(),
        attr < fields_contents(*fields)[index as int].1.len(),
    ensures
        opt_text(ident) == fields_contents(*fields)[index as int].1[attr as int].ident,
{
    match fields.iter().nth(index).unwrap().attrs[attr].path().get_ident() {
        Some(ident) => Some(ident.to_string()),
        None => None,
    }
}

/// `syn::spanned::Spanned::span` of attribute `attr` of field `index`.
#[verifier::external_body]
pub(crate) fn field_attr_span(fields: &syn::Fields, index: usize, attr: usize) -> proc_macro2::Span
    requires
        index < fields_contents(*fields).len(),
        attr < fields_contents(*fields)[index as int].1.len(),
{
    fields.iter().nth(index).unwrap().attrs[attr].span()
}

/// The arguments (`syn::Attribute::meta`) of attribute `attr` of field
/// `index`: for a path, its place; for `path = value`, the place of the
/// `=`; for a list, the place of its closing delimiter and its tokens.
#[verifier::external_body]
pub(crate) fn field_attr_args(fields: &syn::Fields, index: usize, attr: usize) -> (args: AttrArgs)
    requires
        index < fields_contents(*fields).len(),
        attr < fields_contents(*fields)[index as int].1.len(),
    ensures
        attr_args_view(args) == fields_contents(*fields)[index as int].1[attr as int].args,
{
    match &fields.iter().nth(index).unwrap().attrs[attr].meta {
        syn::Meta::Path(path) => AttrArgs::Path(path.span()),
        syn::Meta::NameValue(nv) => AttrArgs::NameValue(nv.eq_token.span),
        syn::Meta::List(list) => AttrArgs::List(list.delimiter.span().close(), list.tokens.clone()),
    }
}

/// The token trees of a stream, each with the place it stands (for a
/// group, its opening delimiter), and a literal's integer digits as
/// `syn::Lit::new` reads them.
#[verifier::external_body]
pub(crate) fn stream_arg_tokens(tokens: &proc_macro2::TokenStream) -> (res: Vec<ArgToken>)
    ensures
        res@.len() == stream_view(*tokens).len(),
        forall|k: int|
            0 <= k < res@.len() ==> arg_token_view(#[trigger] res@[k]) == shallow(
                stream_view(*tokens)[k],
            ),
        forall|k: int|
            0 <= k < res@.len() ==> (#[trigger] res@[k] matches ArgToken::Group {
                span: _,
                invisible,
                stream,
            } ==> (stream_view(*tokens)[k] matches TokenView::Group(d, inner) && invisible == (d
                == DelimView::Invisible) && stream_view(stream) == inner)),
{
    tokens.clone().into_iter().map(|tt| match tt {
        TokenTree::Ident(i) => ArgToken::Ident { text: i.to_string(), span: i.span() },
        TokenTree::Punct(p) => ArgToken::Punct { ch: p.as_char(), span: p.span() },
        TokenTree::Literal(l) => ArgToken::Literal { span: l.span(), int_digits: match syn::Lit::new(l) {
            syn::Lit::Int(n) => Some(n.base10_digits().to_string()),
            _ => None,
        } },
        TokenTree::Group(g) => ArgToken::Group {
            span: g.span_open(),
            invisible: g.delimiter() == proc_macro2::Delimiter::None,
            stream: g.stream(),
        },
    }).collect()
}

/// Whether `syn`'s identifier parser refuses `text` as a reserved word:
/// `syn::parse_str::<syn::Ident>` fails on it.
#[verifier::external_body]
pub(crate) fn ident_is_reserved(text: &str) -> (reserved: bool)
    ensures
        reserved == is_reserved_word(text@),
{
    syn::parse_str::<syn::Ident>(text).is_err()
}

/// `syn::Attribute::parse_nested_meta` on attribute `attr` of field
/// `index`, handing each nested item to `note_serde_item`: whether an item
/// named `rename` came before the end of the arguments or the first item
/// that does not parse. That the arguments do not parse is not reported.
/// Only arguments in delimiters are read, and an item's path is read from
/// the tokens at their top level, so an item named `rename` needs the
/// identifier there (`may_name_rename`).
#[verifier::external_body]
pub(crate) fn field_attr_renames(fields: &syn::Fields, index: usize, attr: usize) -> (renamed: bool)
    requires
        index < fields_contents(*fields).len(),
        attr < fields_contents(*fields)[index as int].1.len(),
    ensures
        renamed == serde_args_rename(fields_contents(*fields)[index as int].1[attr as int].args),
        renamed ==> may_name_rename(fields_contents(*fields)[index as int].1[attr as int].args),
{
    let mut renamed = false;
    let attr = &fields.iter().nth(index).unwrap().attrs[attr];
    let _ = attr.parse_nested_meta(|meta| crate::expand::note_serde_item(&meta, &mut renamed));
    renamed
}

/// `Vec::remove` on the attributes of field `index`.
#[verifier::external_body]
pub(crate) fn remove_field_attr(fields: &mut syn::Fields, index: usize, attr: usize)
    requires
        index < fields_contents(*old(fields)).len(),
        attr < fields_contents(*old(fields))[index as int].1.len(),
    ensures
        fields_contents(*final(fields)) == fields_contents(*old(fields)).update(
            index as int,
            (
                fields_contents(*old(fields))[index as int].0,
                fields_contents(*old(fields))[index as int].1.remove(attr as int),
            ),
        ),
        fields_frame(*final(fields)) == fields_frame(*old(fields)),
{
    fields.iter_mut().nth(index).unwrap().attrs.remove(attr);
}

/// Appends `#[serde(rename = "<name>")]` to the attributes of field
/// `index` (`Vec::push`), built from its parts: the path `serde`, and in
/// parentheses the identifier `rename`, a lone `=` and
/// `proc_macro2::Literal::string(name)`, every span `Span::call_site()`.
/// For a name of plain characters that literal is the name in double
/// quotes, and `syn::Lit::new` reads it as a string, not an integer.
#[verifier::external_body]
pub(crate) fn push_serde_rename(fields: &mut syn::Fields, index: usize, name: &str)
    requires
        index < fields_contents(*old(fields)).len(),
        forall|k: int| 0 <= k < name@.len() ==> plain_char(#[trigger] name@[k]),
    ensures
        fields_contents(*final(fields)) == fields_contents(*old(fields)).update(
            index as int,
            (
                fields_contents(*old(fields))[index as int].0,
                fields_contents(*old(fields))[index as int].1.push(rename_attr_view(name@)),
            ),
        ),
        fields_frame(*final(fields)) == fields_frame(*old(fields)),
{
    let span = proc_macro2::Span::call_site();
    let tokens: proc_macro2::TokenStream = [
        TokenTree::Ident(proc_macro2::Ident::new("rename", span)),
        TokenTree::Punct(proc_macro2::Punct::new('=', proc_macro2::Spacing::Alone)),
        TokenTree::Literal(proc_macro2::Literal::string(name)),
    ].into_iter().collect();
    let path = syn::Path::from(proc_macro2::Ident::new("serde", span));
    let delimiter = syn::MacroDelimiter::Paren(Default::default());
    let meta = syn::Meta::List(syn::MetaList { path, delimiter, tokens });
    let style = syn::AttrStyle::Outer;
    let attr = syn::Attribute { pound_token: Default::default(), style, bracket_token: Default::default(), meta };
    fields.iter_mut().nth(index).unwrap().attrs.push(attr);
}

/// `syn::Path::is_ident`: whether the path is the single identifier
/// `name`.
#[verifier::external_body]
pub(crate) fn path_is_ident(path: &syn::Path, name: &str) -> bool {
    path.is_ident(name)
}

/// `ParseNestedMeta::path`: the path of a nested item.
#[verifier::external_body]
pub(crate) fn meta_path<'a, 'b>(meta: &'b syn::meta::ParseNestedMeta<'a>) -> &'b syn::Path {
    &meta.path
}

/// `ParseNestedMeta::input`: what follows the path of a nested item.
#[verifier::external_body]
pub(crate) fn meta_input<'a>(meta: &syn::meta::ParseNestedMeta<'a>) -> syn::parse::ParseStream<'a> {
    meta.input
}

/// `syn::meta::ParseNestedMeta::value` followed by parsing a `syn::Expr`:
/// consumes `= <expression>`, or says why that is not what follows.
#[verifier::external_body]
pub(crate) fn meta_skip_value(meta: &syn::meta::ParseNestedMeta<'_>) -> Result<(), syn::Error> {
    meta.value()?.parse::<syn::Expr>().map(|_| ())
}

/// `syn::parse::ParseBuffer::is_empty`: whether no token is left.
#[verifier::external_body]
pub(crate) fn input_is_empty(input: syn::parse::ParseStream<'_>) -> bool {
    input.is_empty()
}

/// `syn::parse::ParseBuffer::peek` for `,`.
#[verifier::external_body]
pub(crate) fn input_peek_comma(input: syn::parse::ParseStream<'_>) -> bool {
    input.peek(syn::token::Comma)
}

} // verus!

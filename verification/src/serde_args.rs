//! Whether a `#[serde(...)]` attribute names `rename`.
//!
//! `syn::Attribute::parse_nested_meta` reads the nested items of the
//! attribute in order: a path, then, unless the end or a `,` follows, `=`
//! and an expression, then a `,`. It stops at the end or at the first item
//! that does not parse. An item `name(...)` does not parse (a `=` is
//! expected), so it is the last item read. Where every value is a single
//! literal, that reading is decided here, over the tokens; where some value
//! is a longer expression, `syn` reads it (`serde_args_rename`).
use vstd::prelude::*;

use crate::syntax::{
    field_attr_args, field_attr_renames, fields_contents, serde_args_rename, stream_arg_tokens,
    stream_view, arg_token_view, shallow, ArgToken, ArgTokenView, ArgsView, AttrArgs, DelimView,
    TokenView,
};

verus! {

/// The identifier `rename`.
pub open spec fn rename_word() -> Seq<char> {
    seq!['r', 'e', 'n', 'a', 'm', 'e']
}

/// Whether a token is the punctuation `c`.
pub open spec fn is_punct_view(t: TokenView, c: char) -> bool {
    match t {
        TokenView::Punct(x, _) => x == c,
        _ => false,
    }
}

/// A flag or'ed into a reading that may be undecided.
pub open spec fn or_found(found: bool, rest: Option<bool>) -> Option<bool> {
    match rest {
        Some(b) => Some(found || b),
        None => None,
    }
}

/// Whether the nested items read from token `i` on name `rename`: `None`
/// where an item's value is more than one literal, or the tokens are no
/// list of items `name`, `name = <literal>` and `name(...)`, separated by
/// commas.
pub open spec fn serde_items_at(s: Seq<TokenView>, i: int) -> Option<bool>
    decreases s.len() - i,
{
    if i < 0 || i >= s.len() {
        Some(false)
    } else {
        match s[i] {
            TokenView::Ident(name) => {
                let here = name == rename_word();
                if i + 1 >= s.len() {
                    Some(here)
                } else if is_punct_view(s[i + 1], ',') {
                    or_found(here, serde_items_at(s, i + 2))
                } else if is_punct_view(s[i + 1], '=') && i + 2 < s.len() && s[i + 2] is Literal {
                    if i + 3 >= s.len() {
                        Some(here)
                    } else if is_punct_view(s[i + 3], ',') {
                        or_found(here, serde_items_at(s, i + 4))
                    } else {
                        None
                    }
                } else {
                    match s[i + 1] {
                        TokenView::Group(d, _) => if d != DelimView::Invisible {
                            Some(here)
                        } else {
                            None
                        },
                        _ => None,
                    }
                }
            },
            _ => None,
        }
    }
}

/// Whether a `#[serde...]` attribute with these arguments names `rename`:
/// never without arguments in delimiters (`parse_nested_meta` refuses
/// them); over the items where they are single literals; else as `syn`
/// reads them.
pub open spec fn serde_attr_renames(args: ArgsView) -> bool {
    match args {
        ArgsView::List(tokens) => match serde_items_at(tokens, 0) {
            Some(b) => b,
            None => serde_args_rename(args),
        },
        _ => false,
    }
}

/// Whether a token is the punctuation `c`.
fn punct_is(t: &ArgToken, c: char) -> (b: bool)
    ensures
        b == (arg_token_view(*t) == ArgTokenView::Punct(c)),
{
    match t {
        ArgToken::Punct { ch, span: _ } => *ch == c,
        _ => false,
    }
}

/// Reads the nested items of the token trees as `serde_items_at` says.
fn read_serde_items(toks: &Vec<ArgToken>, Ghost(s): Ghost<Seq<TokenView>>) -> (res: Option<bool>)
    requires
        toks@.len() == s.len(),
        forall|k: int| 0 <= k < s.len() ==> arg_token_view(#[trigger] toks@[k]) == shallow(s[k]),
        forall|k: int|
            0 <= k < s.len() ==> (#[trigger] toks@[k] matches ArgToken::Group {
                span: _,
                invisible,
                stream: _,
            } ==> (s[k] matches TokenView::Group(d, _) && invisible == (d == DelimView::Invisible))),
    ensures
        res == serde_items_at(s, 0),
{
    let n = toks.len();
    let mut i: usize = 0;
    let mut found = false;
    let rename = String::from_str("rename");
    proof {
        reveal_strlit("rename");
    }
    assert(rename@ =~= rename_word());
    while i < n
        invariant
            n == s.len(),
            toks@.len() == s.len(),
            rename@ == rename_word(),
            forall|k: int| 0 <= k < s.len() ==> arg_token_view(#[trigger] toks@[k]) == shallow(s[k]),
            forall|k: int|
                0 <= k < s.len() ==> (#[trigger] toks@[k] matches ArgToken::Group {
                    span: _,
                    invisible,
                    stream: _,
                } ==> (s[k] matches TokenView::Group(d, _) && invisible == (d
                    == DelimView::Invisible))),
            serde_items_at(s, 0) == or_found(found, serde_items_at(s, i as int)),
        decreases n - i,
    {
        assert(shallow(s[i as int]) == arg_token_view(toks@[i as int]));
        let here = match &toks[i] {
            ArgToken::Ident { text, span: _ } => *text == rename,
            _ => {
                return None;
            },
        };
        assert(s[i as int] == TokenView::Ident(toks@[i as int]->Ident_text@));
        if i + 1 >= n {
            return Some(found || here);
        }
        assert(shallow(s[i + 1]) == arg_token_view(toks@[i + 1]));
        if n - i > 2 {
            assert(shallow(s[i + 2]) == arg_token_view(toks@[i + 2]));
        }
        if n - i > 3 {
            assert(shallow(s[i + 3]) == arg_token_view(toks@[i + 3]));
        }
        let comma = punct_is(&toks[i + 1], ',');
        let eq = punct_is(&toks[i + 1], '=');
        let literal_next = if n - i > 2 {
            match &toks[i + 2] {
                ArgToken::Literal { int_digits: _, span: _ } => true,
                _ => false,
            }
        } else {
            false
        };
        if comma {
            found = found || here;
            i = i + 2;
        } else if eq && literal_next {
            if n - i <= 3 {
                return Some(found || here);
            }
            if punct_is(&toks[i + 3], ',') {
                found = found || here;
                i = i + 4;
            } else {
                return None;
            }
        } else {
            match &toks[i + 1] {
                ArgToken::Group { span: _, invisible, stream: _ } => {
                    if *invisible {
                        return None;
                    }
                    return Some(found || here);
                },
                _ => {
                    return None;
                },
            }
        }
    }
    Some(found)
}

/// Whether attribute `attr` of field `index`, a `#[serde...]` attribute,
/// names `rename` among the nested items that `syn` reads, as
/// `serde_attr_renames` says.
pub(crate) fn serde_attr_names_rename(fields: &syn::Fields, index: usize, attr: usize) -> (renamed:
    bool)
    requires
        index < fields_contents(*fields).len(),
        attr < fields_contents(*fields)[index as int].1.len(),
    ensures
        renamed == serde_attr_renames(fields_contents(*fields)[index as int].1[attr as int].args),
{
    let args = field_attr_args(fields, index, attr);
    match &args {
        AttrArgs::List(_, stream) => {
            let toks = stream_arg_tokens(stream);
            match read_serde_items(&toks, Ghost(stream_view(*stream))) {
                Some(b) => b,
                None => field_attr_renames(fields, index, attr),
            }
        },
        _ => false,
    }
}

/// A nested item `name` or `name = <literal>`: the name, and the literal
/// (its text and integer digits) where there is one.
pub type SerdeItem = (Seq<char>, Option<(Seq<char>, Option<Seq<char>>)>);

/// The tokens of one nested item.
pub open spec fn serde_item_tokens(item: SerdeItem) -> Seq<TokenView> {
    match item.1 {
        None => seq![TokenView::Ident(item.0)],
        Some((text, digits)) => seq![
            TokenView::Ident(item.0),
            TokenView::Punct('=', false),
            TokenView::Literal(text, digits),
        ],
    }
}

/// The tokens of nested items separated by commas.
pub open spec fn serde_list_tokens(items: Seq<SerdeItem>) -> Seq<TokenView>
    decreases items.len(),
{
    if items.len() == 0 {
        Seq::empty()
    } else if items.len() == 1 {
        serde_item_tokens(items[0])
    } else {
        serde_item_tokens(items[0]) + seq![TokenView::Punct(',', false)] + serde_list_tokens(
            items.drop_first(),
        )
    }
}

/// Reading from token `p.len() + i` of `p + q` is reading from token `i`
/// of `q`.
proof fn lemma_serde_items_shift(p: Seq<TokenView>, q: Seq<TokenView>, i: int)
    requires
        0 <= i,
    ensures
        serde_items_at(p + q, p.len() + i) == serde_items_at(q, i),
    decreases q.len() - i,
{
    let s = p + q;
    let j = p.len() + i;
    if i < q.len() {
        assert(s[j] == q[i]);
        if i + 1 < q.len() {
            assert(s[j + 1] == q[i + 1]);
        }
        if i + 2 < q.len() {
            assert(s[j + 2] == q[i + 2]);
        }
        if i + 3 < q.len() {
            assert(s[j + 3] == q[i + 3]);
        }
        if i + 2 <= q.len() {
            lemma_serde_items_shift(p, q, i + 2);
        }
        if i + 4 <= q.len() {
            lemma_serde_items_shift(p, q, i + 4);
        }
    }
}

/// Law: a `#[serde(...)]` attribute whose arguments are nested items
/// `name` and `name = <literal>`, separated by commas, names `rename`
/// exactly when one of its items, at any position, is named `rename`.
pub proof fn lemma_serde_rename_at_any_position(items: Seq<SerdeItem>)
    ensures
        serde_items_at(serde_list_tokens(items), 0) == Some(
            exists|k: int| 0 <= k < items.len() && (#[trigger] items[k]).0 == rename_word(),
        ),
        serde_attr_renames(ArgsView::List(serde_list_tokens(items))) == exists|k: int|
            0 <= k < items.len() && (#[trigger] items[k]).0 == rename_word(),
    decreases items.len(),
{
    let t = serde_list_tokens(items);
    if items.len() == 0 {
        assert(serde_items_at(t, 0) == Some(false));
    } else {
        let first = serde_item_tokens(items[0]);
        let here = items[0].0 == rename_word();
        if items.len() == 1 {
            assert(serde_items_at(t, 0) == Some(here));
            if exists|k: int| 0 <= k < items.len() && (#[trigger] items[k]).0 == rename_word() {
                let k = choose|k: int| 0 <= k < items.len() && (#[trigger] items[k]).0 == rename_word();
                assert(k == 0);
            }
        } else {
            let rest = items.drop_first();
            lemma_serde_rename_at_any_position(rest);
            let rt = serde_list_tokens(rest);
            let p = first + seq![TokenView::Punct(',', false)];
            assert(t == p + rt);
            lemma_serde_items_shift(p, rt, 0);
            assert(serde_items_at(t, p.len() as int) == serde_items_at(rt, 0));
            let rest_found = exists|k: int| 0 <= k < rest.len() && (#[trigger] rest[k]).0 == rename_word();
            assert(serde_items_at(rt, 0) == Some(rest_found));
            assert(serde_items_at(t, 0) == or_found(here, serde_items_at(t, p.len() as int)));
            if exists|k: int| 0 <= k < items.len() && (#[trigger] items[k]).0 == rename_word() {
                let k = choose|k: int| 0 <= k < items.len() && (#[trigger] items[k]).0 == rename_word();
                if k > 0 {
                    assert(rest[k - 1] == items[k]);
                }
            }
            if rest_found {
                let k = choose|k: int| 0 <= k < rest.len() && (#[trigger] rest[k]).0 == rename_word();
                assert(items[k + 1] == rest[k]);
            }
        }
    }
}

} // verus!

//! The expansion of `#[int_keys]`: every field of the struct, or of each
//! variant of the enum, that carries `#[cbor(key = <integer>)]` loses that
//! attribute and gains `#[serde(rename = "@@KEY@@<integer>")]`.
use vstd::prelude::*;

use vstd::string::StringExecFns;

use crate::key::{
    fits_cbor_key, key_reading, key_result_agrees, lemma_marker_name_plain, marker_name_text,
    KeyArg,
};
use crate::serde_args::{
    lemma_serde_rename_at_any_position, rename_word, serde_attr_names_rename, serde_attr_renames,
    serde_list_tokens, SerdeItem,
};
use crate::plan::{
    cbor_attrs, duplicate_message, field_error_message, field_outcome, is_cbor, kept,
    out_of_range_message, plan_field, rename_conflict_message, serde_renames, unnamed_message,
    AttrInfo, FieldError,
};
use crate::syntax::{
    error_messages, error_new, field_attr_args, field_attr_count, field_attr_ident,
    field_attr_span, field_is_named, fields_contents, fields_frame, fields_len,
    input_is_empty, input_peek_comma, item_contents, item_into_tokens, item_kind, item_reading,
    item_outline, item_tokens, meta_input, meta_path, meta_skip_value, opt_text, parse_item, path_is_ident,
    push_serde_rename, put_struct_fields, put_variant_fields, remove_field_attr,
    rename_attr_view, item_span, stream_span, stream_view, take_struct_fields,
    take_variant_fields, token_stream_is_empty, variant_count, ArgsView, AttrView, FieldView, ItemKind, ListView,
};

verus! {

/// Looks at one nested item of a `#[serde(...)]` attribute: notes whether
/// it is named `rename`, and skips the `= <expression>` that follows its
/// name, if anything other than the end or a `,` follows.
pub(crate) fn note_serde_item(meta: &syn::meta::ParseNestedMeta<'_>, renamed: &mut bool) -> (res:
    Result<(), syn::Error>)
    ensures
        *old(renamed) ==> *final(renamed),
{
    if path_is_ident(meta_path(meta), "rename") {
        *renamed = true;
    }
    let input = meta_input(meta);
    if !input_is_empty(input) && !input_peek_comma(input) {
        meta_skip_value(meta)?;
    }
    Ok(())
}

/// The identifier `cbor`.
pub open spec fn cbor_ident() -> Seq<char> {
    seq!['c', 'b', 'o', 'r']
}

/// The identifier `serde`.
pub open spec fn serde_ident() -> Seq<char> {
    seq!['s', 'e', 'r', 'd', 'e']
}

/// Whether an attribute is `#[cbor...]`: its path is the identifier `cbor`.
pub open spec fn is_key_attr(a: AttrView) -> bool {
    a.ident == Some(cbor_ident())
}

/// Which of a field's attributes are `#[cbor...]`.
pub open spec fn key_flags(attrs: Seq<AttrView>) -> Seq<bool> {
    attrs.map_values(|a: AttrView| is_key_attr(a))
}

/// The `#[cbor...]` attributes among `attrs`, in order.
pub open spec fn key_attrs(attrs: Seq<AttrView>) -> Seq<AttrView>
    decreases attrs.len(),
{
    if attrs.len() == 0 {
        Seq::empty()
    } else if is_key_attr(attrs.last()) {
        key_attrs(attrs.drop_last()).push(attrs.last())
    } else {
        key_attrs(attrs.drop_last())
    }
}

/// Whether some `#[serde(...)]` attribute among `attrs` names `rename`.
pub open spec fn serde_rename_among(attrs: Seq<AttrView>) -> bool {
    exists|j: int|
        0 <= j < attrs.len() && (#[trigger] attrs[j]).ident == Some(serde_ident())
            && serde_attr_renames(attrs[j].args)
}

/// What happens to a field: refused with the message of the first error,
/// left as it is (`None`), or renamed to the given name. The checks come in
/// this order: the argument of the first `#[cbor...]`, that of a second
/// one, which is then refused as a duplicate; a name for the field; the
/// CBOR range; a `serde` rename beside the key.
pub open spec fn field_result(field: FieldView) -> Result<Option<Seq<char>>, Seq<char>> {
    let c = key_attrs(field.1);
    if c.len() == 0 {
        Ok(None)
    } else {
        match key_reading(c[0].args) {
            Err(m) => Err(m),
            Ok(v) => if c.len() >= 2 {
                match key_reading(c[1].args) {
                    Err(m) => Err(m),
                    Ok(_) => Err(duplicate_message()),
                }
            } else if !field.0 {
                Err(unnamed_message())
            } else if !fits_cbor_key(v) {
                Err(out_of_range_message())
            } else if serde_rename_among(field.1) {
                Err(rename_conflict_message())
            } else {
                Ok(Some(marker_name_text(v)))
            },
        }
    }
}

/// A field after a successful rewrite: a renamed field keeps its attributes
/// other than `#[cbor...]`, in order, and gains `#[serde(rename = "<name>")]`
/// at the end; any other field stays as it is.
pub open spec fn field_after(field: FieldView) -> FieldView {
    match field_result(field) {
        Ok(Some(name)) => (field.0, kept(field.1, key_flags(field.1)).push(rename_attr_view(name))),
        _ => field,
    }
}

/// What rewriting a list of fields in order gives: the message of the
/// first field that is refused, if any.
pub open spec fn fields_result(fields: Seq<FieldView>) -> Result<(), Seq<char>>
    decreases fields.len(),
{
    if fields.len() == 0 {
        Ok(())
    } else {
        match fields_result(fields.drop_last()) {
            Err(m) => Err(m),
            Ok(()) => match field_result(fields.last()) {
                Err(m) => Err(m),
                Ok(_) => Ok(()),
            },
        }
    }
}

/// A list of fields after a successful rewrite.
pub open spec fn fields_after(fields: Seq<FieldView>) -> Seq<FieldView> {
    fields.map_values(|f: FieldView| field_after(f))
}

/// What rewriting several lists of fields in order gives: the message of
/// the first field that is refused, if any.
pub open spec fn lists_result(lists: Seq<ListView>) -> Result<(), Seq<char>>
    decreases lists.len(),
{
    if lists.len() == 0 {
        Ok(())
    } else {
        match lists_result(lists.drop_last()) {
            Err(m) => Err(m),
            Ok(()) => fields_result(lists.last().1),
        }
    }
}

/// A list of fields after a successful rewrite: the same frame, and the
/// fields as `fields_after` says.
pub open spec fn list_after(list: ListView) -> ListView {
    (list.0, fields_after(list.1))
}

/// Several lists of fields after a successful rewrite.
pub open spec fn lists_after(lists: Seq<ListView>) -> Seq<ListView> {
    lists.map_values(|l: ListView| list_after(l))
}

/// Whether no field of the list has a `#[cbor...]` attribute.
pub open spec fn no_key_fields(fields: Seq<FieldView>) -> bool {
    forall|i: int| 0 <= i < fields.len() ==> key_attrs(#[trigger] fields[i].1).len() == 0
}

/// The message for an item that is neither a struct nor an enum.
pub open spec fn unsupported_item_message() -> Seq<char> {
    "int_keys supports structs and enums"@
}

/// The message for arguments given to `#[int_keys]`.
pub open spec fn no_arguments_message() -> Seq<char> {
    "int_keys takes no arguments"@
}

/// Whether what the rewrite read of an attribute is what its view says:
/// for `#[cbor...]`, the reading of its arguments; for `#[serde(...)]`,
/// whether it names `rename`; nothing for any other attribute.
pub open spec fn info_matches(info: AttrInfo, a: AttrView) -> bool {
    if is_key_attr(a) {
        info matches AttrInfo::Cbor { span: _, arg } && key_result_agrees(arg, key_reading(a.args))
    } else if a.ident == Some(serde_ident()) {
        info == (AttrInfo::Serde { renames: serde_attr_renames(a.args) })
    } else {
        info is Other
    }
}

/// Whether a field error is the refusal with message `m`.
pub open spec fn error_agrees(e: FieldError, m: Seq<char>) -> bool {
    match e {
        FieldError::Arg(a) => error_messages(a) == seq![m],
        _ => field_error_message(e) == m,
    }
}

/// Whether an optional identifier is the given text.
fn ident_is_text(ident: &Option<String>, text: &String) -> (b: bool)
    ensures
        b == (opt_text(*ident) == Some(text@)),
{
    match ident {
        Some(t) => *t == *text,
        None => false,
    }
}

/// What the rewrite reads of each attribute of field `index`, and which of
/// them are `#[cbor...]`: those whose path is the identifier `cbor`.
fn describe_field_attrs(fields: &syn::Fields, index: usize) -> (res: (Vec<AttrInfo>, Vec<bool>))
    requires
        index < fields_contents(*fields).len(),
    ensures
        res.0.len() == fields_contents(*fields)[index as int].1.len(),
        res.1@ == key_flags(fields_contents(*fields)[index as int].1),
        forall|j: int|
            0 <= j < res.0.len() ==> info_matches(
                #[trigger] res.0[j],
                fields_contents(*fields)[index as int].1[j],
            ),
{
    let ghost attrs = fields_contents(*fields)[index as int].1;
    let cbor = String::from_str("cbor");
    let serde = String::from_str("serde");
    proof {
        reveal_strlit("cbor");
        reveal_strlit("serde");
    }
    assert(cbor@ =~= cbor_ident());
    assert(serde@ =~= serde_ident());
    let m = field_attr_count(fields, index);
    let mut infos: Vec<AttrInfo> = Vec::new();
    let mut flags: Vec<bool> = Vec::new();
    for j in 0..m
        invariant
            m == attrs.len(),
            attrs == fields_contents(*fields)[index as int].1,
            index < fields_contents(*fields).len(),
            cbor@ == cbor_ident(),
            serde@ == serde_ident(),
            infos.len() == j,
            flags@ == key_flags(attrs).take(j as int),
            forall|k: int| 0 <= k < j ==> info_matches(#[trigger] infos[k], attrs[k]),
    {
        let ident = field_attr_ident(fields, index, j);
        let is_key = ident_is_text(&ident, &cbor);
        if is_key {
            let args = field_attr_args(fields, index, j);
            let span = field_attr_span(fields, index, j);
            infos.push(AttrInfo::Cbor { span, arg: KeyArg::parse(&args) });
        } else if ident_is_text(&ident, &serde) {
            infos.push(AttrInfo::Serde { renames: serde_attr_names_rename(fields, index, j) });
        } else {
            infos.push(AttrInfo::Other);
        }
        flags.push(is_key);
        assert(flags@ =~= key_flags(attrs).take(j + 1));
    }
    assert(flags@ =~= key_flags(attrs));
    (infos, flags)
}

/// Removes from field `index` the attributes whose flag is set, keeping the
/// others in order.
fn remove_flagged_attrs(fields: &mut syn::Fields, index: usize, flags: &Vec<bool>)
    requires
        index < fields_contents(*old(fields)).len(),
        flags.len() == fields_contents(*old(fields))[index as int].1.len(),
    ensures
        fields_contents(*final(fields)) == fields_contents(*old(fields)).update(
            index as int,
            (
                fields_contents(*old(fields))[index as int].0,
                kept(fields_contents(*old(fields))[index as int].1, flags@),
            ),
        ),
        fields_frame(*final(fields)) == fields_frame(*old(fields)),
{
    let ghost before = fields_contents(*fields);
    let ghost names = before[index as int].1;
    let mut j = flags.len();
    assert(names.take(j as int) =~= names);
    assert(names.skip(j as int) =~= Seq::<AttrView>::empty());
    assert(fields_contents(*fields) =~= before.update(
        index as int,
        (before[index as int].0, names.take(j as int) + kept(names.skip(j as int), flags@.skip(j as int))),
    ));
    while j > 0
        invariant
            fields_frame(*fields) == fields_frame(*old(fields)),
            j <= flags.len(),
            flags.len() == names.len(),
            index < before.len(),
            names == before[index as int].1,
            fields_contents(*fields) == before.update(
                index as int,
                (
                    before[index as int].0,
                    names.take(j as int) + kept(names.skip(j as int), flags@.skip(j as int)),
                ),
            ),
        decreases j,
    {
        j = j - 1;
        let ghost rest = kept(names.skip(j + 1), flags@.skip(j + 1));
        proof {
            assert(names.skip(j as int) =~= seq![names[j as int]] + names.skip(j + 1));
            assert(flags@.skip(j as int) =~= seq![flags@[j as int]] + flags@.skip(j + 1));
            lemma_kept_prepend(names[j as int], names.skip(j + 1), flags@[j as int], flags@.skip(j + 1));
            assert(names.take(j + 1) =~= names.take(j as int).push(names[j as int]));
        }
        if flags[j] {
            let ghost cur = fields_contents(*fields)[index as int].1;
            assert(cur =~= names.take(j + 1) + rest);
            remove_field_attr(fields, index, j);
            assert(cur.remove(j as int) =~= names.take(j as int) + rest);
            assert(fields_contents(*fields) =~= before.update(
                index as int,
                (before[index as int].0, names.take(j as int) + kept(names.skip(j as int), flags@.skip(j as int))),
            ));
        } else {
            assert(names.take(j + 1) + rest =~= names.take(j as int) + (seq![names[j as int]] + rest));
            assert(fields_contents(*fields) =~= before.update(
                index as int,
                (before[index as int].0, names.take(j as int) + kept(names.skip(j as int), flags@.skip(j as int))),
            ));
        }
    }
    assert(names.take(0) + kept(names.skip(0), flags@.skip(0)) =~= kept(names, flags@)) by {
        assert(names.skip(0) =~= names);
        assert(flags@.skip(0) =~= flags@);
    }
    assert(fields_contents(*fields) =~= before.update(
        index as int,
        (before[index as int].0, kept(names, flags@)),
    ));
}

/// Keeping a flagged or unflagged first element.
proof fn lemma_kept_prepend<A>(x: A, s: Seq<A>, f: bool, g: Seq<bool>)
    requires
        s.len() == g.len(),
    ensures
        kept(seq![x] + s, seq![f] + g) == (if f {
            Seq::<A>::empty()
        } else {
            seq![x]
        }) + kept(s, g),
    decreases s.len(),
{
    if s.len() == 0 {
        assert((seq![x] + s).drop_last() =~= Seq::<A>::empty());
        assert((seq![f] + g).drop_last() =~= Seq::<bool>::empty());
        assert((seq![x] + s).last() == x);
        assert((seq![f] + g).last() == f);
        assert(kept(Seq::<A>::empty(), Seq::<bool>::empty()) =~= Seq::<A>::empty());
        assert(s =~= Seq::<A>::empty());
        assert(kept(s, g) =~= Seq::<A>::empty());
        if f {
            assert(kept(seq![x] + s, seq![f] + g) =~= Seq::<A>::empty());
        } else {
            assert(kept(seq![x] + s, seq![f] + g) =~= seq![x]);
        }
    } else {
        lemma_kept_prepend(x, s.drop_last(), f, g.drop_last());
        assert((seq![x] + s).drop_last() =~= seq![x] + s.drop_last());
        assert((seq![f] + g).drop_last() =~= seq![f] + g.drop_last());
        assert((seq![x] + s).last() == s.last());
        assert((seq![f] + g).last() == g.last());
        let pre = if f { Seq::<A>::empty() } else { seq![x] };
        if g.last() {
            assert(kept(seq![x] + s, seq![f] + g) == kept(seq![x] + s.drop_last(), seq![f] + g.drop_last()));
        } else {
            assert((pre + kept(s.drop_last(), g.drop_last())).push(s.last()) =~= pre + kept(s.drop_last(), g.drop_last()).push(s.last()));
        }
    }
}

/// The `#[cbor...]` attributes of a description that matches the views
/// correspond one to one, in order, to the `#[cbor...]` views.
proof fn lemma_key_attrs_match(infos: Seq<AttrInfo>, attrs: Seq<AttrView>)
    requires
        infos.len() == attrs.len(),
        forall|j: int| 0 <= j < infos.len() ==> info_matches(#[trigger] infos[j], attrs[j]),
    ensures
        cbor_attrs(infos).len() == key_attrs(attrs).len(),
        forall|k: int|
            0 <= k < key_attrs(attrs).len() ==> info_matches(
                #[trigger] cbor_attrs(infos)[k],
                key_attrs(attrs)[k],
            ) && is_key_attr(key_attrs(attrs)[k]),
    decreases infos.len(),
{
    if infos.len() > 0 {
        let (pi, pa) = (infos.drop_last(), attrs.drop_last());
        assert forall|j: int| 0 <= j < pi.len() implies info_matches(#[trigger] pi[j], pa[j]) by {
            assert(pi[j] == infos[j]);
            assert(pa[j] == attrs[j]);
        }
        lemma_key_attrs_match(pi, pa);
        let last = infos.len() - 1;
        assert(info_matches(infos[last], attrs[last]));
        assert(is_cbor(infos.last()) == is_key_attr(attrs.last()));
        let (ci, ca) = (cbor_attrs(pi), key_attrs(pa));
        assert forall|k: int| 0 <= k < key_attrs(attrs).len() implies info_matches(
            #[trigger] cbor_attrs(infos)[k],
            key_attrs(attrs)[k],
        ) && is_key_attr(key_attrs(attrs)[k]) by {
            if k < ca.len() {
                assert(cbor_attrs(infos)[k] == ci[k]);
                assert(key_attrs(attrs)[k] == ca[k]);
            }
        }
    }
}

/// A `serde` rename among the described attributes is one among the views.
proof fn lemma_serde_match(infos: Seq<AttrInfo>, attrs: Seq<AttrView>)
    requires
        infos.len() == attrs.len(),
        forall|j: int| 0 <= j < infos.len() ==> info_matches(#[trigger] infos[j], attrs[j]),
    ensures
        serde_renames(infos) == serde_rename_among(attrs),
{
    if serde_renames(infos) {
        let j = choose|j: int|
            0 <= j < infos.len() && #[trigger] infos[j] == (AttrInfo::Serde { renames: true });
        assert(info_matches(infos[j], attrs[j]));
        assert(attrs[j].ident == Some(serde_ident()) && serde_attr_renames(attrs[j].args));
    }
    if serde_rename_among(attrs) {
        let j = choose|j: int|
            0 <= j < attrs.len() && (#[trigger] attrs[j]).ident == Some(serde_ident())
                && serde_attr_renames(attrs[j].args);
        assert(info_matches(infos[j], attrs[j]));
        assert(serde_ident() != cbor_ident()) by {
            assert(serde_ident().len() != cbor_ident().len());
        }
        assert(infos[j] == (AttrInfo::Serde { renames: true }));
    }
}

/// The plan for a field whose description matches its view is what
/// `field_result` says of the view.
proof fn lemma_outcome_agrees(named: bool, infos: Seq<AttrInfo>, attrs: Seq<AttrView>)
    requires
        infos.len() == attrs.len(),
        forall|j: int| 0 <= j < infos.len() ==> info_matches(#[trigger] infos[j], attrs[j]),
    ensures
        field_outcome(named, infos) matches Ok(o) ==> field_result((named, attrs)) == Ok::<
            Option<Seq<char>>,
            Seq<char>,
        >(o),
        field_outcome(named, infos) matches Err(e) ==> (field_result((named, attrs)) matches Err(m)
            && error_agrees(e, m)),
{
    lemma_key_attrs_match(infos, attrs);
    lemma_serde_match(infos, attrs);
    let (ci, ca) = (cbor_attrs(infos), key_attrs(attrs));
    if ci.len() >= 1 {
        assert(info_matches(ci[0], ca[0]) && is_key_attr(ca[0]));
    }
    if ci.len() >= 2 {
        assert(info_matches(ci[1], ca[1]) && is_key_attr(ca[1]));
    }
}

/// An error in a prefix of the fields is the error of all of them.
proof fn lemma_fields_result_prefix(s: Seq<FieldView>, k: int)
    requires
        0 <= k <= s.len(),
        fields_result(s.take(k)) is Err,
    ensures
        fields_result(s) == fields_result(s.take(k)),
    decreases s.len(),
{
    if k == s.len() {
        assert(s.take(k) =~= s);
    } else {
        assert(s.drop_last().take(k) =~= s.take(k));
        lemma_fields_result_prefix(s.drop_last(), k);
    }
}

/// An error in a prefix of the lists is the error of all of them.
proof fn lemma_lists_result_prefix(s: Seq<ListView>, k: int)
    requires
        0 <= k <= s.len(),
        lists_result(s.take(k)) is Err,
    ensures
        lists_result(s) == lists_result(s.take(k)),
    decreases s.len(),
{
    if k == s.len() {
        assert(s.take(k) =~= s);
    } else {
        assert(s.drop_last().take(k) =~= s.take(k));
        lemma_lists_result_prefix(s.drop_last(), k);
    }
}

/// Rewriting fields succeeds only where every field is accepted.
proof fn lemma_fields_result_ok(s: Seq<FieldView>)
    requires
        fields_result(s) is Ok,
    ensures
        forall|i: int| 0 <= i < s.len() ==> field_result(#[trigger] s[i]) is Ok,
    decreases s.len(),
{
    if s.len() > 0 {
        lemma_fields_result_ok(s.drop_last());
        assert forall|i: int| 0 <= i < s.len() implies field_result(#[trigger] s[i]) is Ok by {
            if i < s.len() - 1 {
                assert(s[i] == s.drop_last()[i]);
            }
        }
    }
}

/// What a field keeps holds no `#[cbor...]` attribute.
proof fn lemma_kept_no_key(s: Seq<AttrView>)
    ensures
        key_attrs(kept(s, key_flags(s))).len() == 0,
    decreases s.len(),
{
    if s.len() > 0 {
        assert(key_flags(s).drop_last() =~= key_flags(s.drop_last()));
        lemma_kept_no_key(s.drop_last());
        let k = kept(s.drop_last(), key_flags(s.drop_last()));
        if !key_flags(s).last() {
            assert(k.push(s.last()).drop_last() =~= k);
        }
    }
}

/// Law: fields without `#[cbor...]` attributes are accepted and left
/// exactly as they are.
pub proof fn lemma_no_keys_no_change(s: Seq<FieldView>)
    requires
        no_key_fields(s),
    ensures
        fields_result(s) == Ok::<(), Seq<char>>(()),
        fields_after(s) == s,
    decreases s.len(),
{
    if s.len() > 0 {
        assert(no_key_fields(s.drop_last())) by {
            assert forall|i: int| 0 <= i < s.drop_last().len() implies key_attrs(
                #[trigger] s.drop_last()[i].1,
            ).len() == 0 by {
                assert(s.drop_last()[i] == s[i]);
            }
        }
        lemma_no_keys_no_change(s.drop_last());
        assert(key_attrs(s[s.len() - 1].1).len() == 0);
    }
    assert(fields_after(s) =~= s) by {
        assert forall|i: int| 0 <= i < s.len() implies #[trigger] fields_after(s)[i] == s[i] by {
            assert(key_attrs(s[i].1).len() == 0);
        }
    }
}

/// Law: the rewrite is idempotent. Fields that were rewritten hold no
/// `#[cbor...]` attribute, so a second rewrite accepts them and leaves them
/// exactly as they are.
pub proof fn lemma_rewrite_fields_idempotent(s: Seq<FieldView>)
    requires
        fields_result(s) is Ok,
    ensures
        no_key_fields(fields_after(s)),
        fields_result(fields_after(s)) == Ok::<(), Seq<char>>(()),
        fields_after(fields_after(s)) == fields_after(s),
{
    lemma_fields_result_ok(s);
    let after = fields_after(s);
    assert forall|i: int| 0 <= i < after.len() implies key_attrs(#[trigger] after[i].1).len()
        == 0 by {
        let f = s[i];
        if let Ok(Some(name)) = field_result(f) {
            let k = kept(f.1, key_flags(f.1));
            lemma_kept_no_key(f.1);
            assert(k.push(rename_attr_view(name)).drop_last() =~= k);
            assert(!is_key_attr(rename_attr_view(name))) by {
                assert(serde_ident().len() != cbor_ident().len());
            }
        } else {
            assert(key_attrs(f.1).len() == 0);
        }
    }
    lemma_no_keys_no_change(after);
}

/// Rewriting lists of fields succeeds only where every list is accepted.
proof fn lemma_lists_result_ok(s: Seq<ListView>)
    requires
        lists_result(s) is Ok,
    ensures
        forall|i: int| 0 <= i < s.len() ==> fields_result(#[trigger] s[i].1) is Ok,
    decreases s.len(),
{
    if s.len() > 0 {
        lemma_lists_result_ok(s.drop_last());
        assert forall|i: int| 0 <= i < s.len() implies fields_result(#[trigger] s[i].1) is Ok by {
            if i < s.len() - 1 {
                assert(s[i] == s.drop_last()[i]);
            }
        }
    }
}

/// Lists whose fields are all accepted are accepted.
proof fn lemma_lists_result_all_ok(s: Seq<ListView>)
    requires
        forall|i: int| 0 <= i < s.len() ==> fields_result(#[trigger] s[i].1) is Ok,
    ensures
        lists_result(s) == Ok::<(), Seq<char>>(()),
    decreases s.len(),
{
    if s.len() > 0 {
        assert forall|i: int| 0 <= i < s.drop_last().len() implies fields_result(
            #[trigger] s.drop_last()[i].1,
        ) is Ok by {
            assert(s.drop_last()[i] == s[i]);
        }
        lemma_lists_result_all_ok(s.drop_last());
        assert(fields_result(s[s.len() - 1].1) is Ok);
    }
}

/// Law: expanding an item twice gives what expanding it once gives. The
/// lists of fields of an item that was rewritten hold no `#[cbor...]`
/// attribute, so a second rewrite accepts them and leaves them exactly as
/// they are.
pub proof fn lemma_rewrite_lists_idempotent(lists: Seq<ListView>)
    requires
        lists_result(lists) is Ok,
    ensures
        lists_result(lists_after(lists)) == Ok::<(), Seq<char>>(()),
        lists_after(lists_after(lists)) == lists_after(lists),
{
    lemma_lists_result_ok(lists);
    let after = lists_after(lists);
    assert forall|i: int| 0 <= i < after.len() implies fields_result(#[trigger] after[i].1) is Ok
        && list_after(after[i]) == after[i] by {
        lemma_rewrite_fields_idempotent(lists[i].1);
    }
    lemma_lists_result_all_ok(after);
    assert(lists_after(after) =~= after);
}

/// Law: an item without `#[cbor...]` attributes is accepted and its lists
/// of fields are left exactly as they are (with `rewrite_item`, which keeps
/// the outline, the whole item is left as it was).
pub proof fn lemma_no_keys_lists_unchanged(lists: Seq<ListView>)
    requires
        forall|i: int| 0 <= i < lists.len() ==> no_key_fields(#[trigger] lists[i].1),
    ensures
        lists_result(lists) == Ok::<(), Seq<char>>(()),
        lists_after(lists) == lists,
{
    assert forall|i: int| 0 <= i < lists.len() implies fields_result(#[trigger] lists[i].1) is Ok
        && list_after(lists[i]) == lists[i] by {
        lemma_no_keys_no_change(lists[i].1);
    }
    lemma_lists_result_all_ok(lists);
    assert(lists_after(lists) =~= lists);
}

/// Law: a key beside a `#[serde(...)]` attribute that names `rename` is
/// refused, whatever position that attribute holds among the field's
/// attributes and whatever attributes follow it.
pub proof fn lemma_key_beside_rename_refused(field: FieldView, j: int)
    requires
        field.0,
        key_attrs(field.1).len() == 1,
        key_reading(key_attrs(field.1)[0].args) matches Ok(v) && fits_cbor_key(v),
        0 <= j < field.1.len(),
        field.1[j].ident == Some(serde_ident()),
        serde_attr_renames(field.1[j].args),
    ensures
        field_result(field) == Err::<Option<Seq<char>>, Seq<char>>(rename_conflict_message()),
{
    assert(field.1[j].ident == Some(serde_ident()));
    assert(serde_rename_among(field.1));
}

/// Law: a key beside `#[serde(a, b = "..", rename = "..", ...)]` is refused
/// wherever among the nested items `rename` stands.
pub proof fn lemma_key_beside_listed_rename_refused(
    field: FieldView,
    j: int,
    items: Seq<SerdeItem>,
    k: int,
)
    requires
        field.0,
        key_attrs(field.1).len() == 1,
        key_reading(key_attrs(field.1)[0].args) matches Ok(v) && fits_cbor_key(v),
        0 <= j < field.1.len(),
        field.1[j].ident == Some(serde_ident()),
        field.1[j].args == ArgsView::List(serde_list_tokens(items)),
        0 <= k < items.len(),
        items[k].0 == rename_word(),
    ensures
        field_result(field) == Err::<Option<Seq<char>>, Seq<char>>(rename_conflict_message()),
{
    lemma_serde_rename_at_any_position(items);
    assert(items[k].0 == rename_word());
    lemma_key_beside_rename_refused(field, j);
}

/// Law: a successful rewrite of a list of fields leaves no `#[cbor...]`
/// attribute in any field; each field keeps whether it is named, and a
/// renamed field ends with the rename to its marker.
pub proof fn lemma_rewrite_fields_complete(fields: Seq<FieldView>)
    requires
        fields_result(fields) is Ok,
    ensures
        fields_after(fields).len() == fields.len(),
        forall|i: int|
            0 <= i < fields.len() ==> key_attrs((#[trigger] fields_after(fields)[i]).1).len() == 0
                && fields_after(fields)[i].0 == fields[i].0,
        forall|i: int|
            0 <= i < fields.len() ==> (field_result(#[trigger] fields[i]) matches Ok(Some(name))
                ==> fields_after(fields)[i].1.last() == rename_attr_view(name)),
{
    lemma_rewrite_fields_idempotent(fields);
    lemma_fields_result_ok(fields);
    assert forall|i: int| 0 <= i < fields.len() implies key_attrs(
        (#[trigger] fields_after(fields)[i]).1,
    ).len() == 0 && fields_after(fields)[i].0 == fields[i].0 by {
        assert(fields_after(fields)[i] == field_after(fields[i]));
    }
}

/// Law: a successful rewrite of an item rewrites every one of its lists of
/// fields, not only the first: each keeps its frame and its number of
/// fields, holds no `#[cbor...]` attribute, and each renamed field ends
/// with the rename to its marker.
pub proof fn lemma_rewrite_lists_complete(lists: Seq<ListView>)
    requires
        lists_result(lists) is Ok,
    ensures
        lists_after(lists).len() == lists.len(),
        forall|k: int|
            0 <= k < lists.len() ==> (#[trigger] lists_after(lists)[k]).0 == lists[k].0
                && lists_after(lists)[k].1.len() == lists[k].1.len() && no_key_fields(
                lists_after(lists)[k].1,
            ),
        forall|k: int, i: int|
            0 <= k < lists.len() && 0 <= i < lists[k].1.len() ==> (field_result(
                #[trigger] lists[k].1[i],
            ) matches Ok(Some(name)) ==> lists_after(lists)[k].1[i].1.last() == rename_attr_view(
                name,
            )),
{
    lemma_lists_result_ok(lists);
    assert forall|k: int| 0 <= k < lists.len() implies (#[trigger] lists_after(lists)[k]).0
        == lists[k].0 && lists_after(lists)[k].1.len() == lists[k].1.len() && no_key_fields(
        lists_after(lists)[k].1,
    ) by {
        lemma_rewrite_fields_complete(lists[k].1);
        assert(lists_after(lists)[k] == list_after(lists[k]));
    }
    assert forall|k: int, i: int|
        0 <= k < lists.len() && 0 <= i < lists[k].1.len() implies (field_result(
        #[trigger] lists[k].1[i],
    ) matches Ok(Some(name)) ==> lists_after(lists)[k].1[i].1.last() == rename_attr_view(name)) by {
        lemma_rewrite_fields_complete(lists[k].1);
        assert(lists_after(lists)[k] == list_after(lists[k]));
    }
}

/// Rewrites every field, in order, as `field_after` says, and stops at the
/// first field that is refused, with that field's error (`fields_result`).
/// Without any `#[cbor...]` attribute the fields are left exactly as they
/// were.
pub fn rewrite_fields(fields: &mut syn::Fields) -> (res: Result<(), syn::Error>)
    ensures
        fields_contents(*final(fields)).len() == fields_contents(*old(fields)).len(),
        match fields_result(fields_contents(*old(fields))) {
            Ok(()) => res is Ok && fields_contents(*final(fields)) == fields_after(
                fields_contents(*old(fields)),
            ),
            Err(m) => res matches Err(e) && error_messages(e) == seq![m],
        },
        no_key_fields(fields_contents(*old(fields))) ==> *final(fields) == *old(fields),
        fields_frame(*final(fields)) == fields_frame(*old(fields)),
{
    let ghost start_fields = *fields;
    let ghost start = fields_contents(*fields);
    let n = fields_len(fields);
    assert(start.take(0) =~= Seq::<FieldView>::empty());
    for i in 0..n
        invariant
            n == start.len(),
            start_fields == *old(fields),
            start == fields_contents(start_fields),
            fields_contents(*fields).len() == n,
            fields_frame(*fields) == fields_frame(start_fields),
            forall|k: int| 0 <= k < i ==> #[trigger] fields_contents(*fields)[k] == field_after(start[k]),
            forall|k: int| i <= k < n ==> #[trigger] fields_contents(*fields)[k] == start[k],
            fields_result(start.take(i as int)) == Ok::<(), Seq<char>>(()),
            no_key_fields(start.take(i as int)) ==> *fields == start_fields,
    {
        let ghost cur = fields_contents(*fields);
        let ghost f = start[i as int];
        assert(cur[i as int] == f);
        let named = field_is_named(fields, i);
        let (infos, flags) = describe_field_attrs(fields, i);
        proof {
            lemma_outcome_agrees(named, infos@, f.1);
            assert(start.take(i + 1).drop_last() =~= start.take(i as int));
            assert(start.take(i + 1).last() == f);
        }
        let planned = plan_field(named, infos);
        match planned {
            Err(e) => {
                proof {
                    lemma_fields_result_prefix(start, i + 1);
                }
                return Err(e.into_error());
            },
            Ok(None) => {
                assert(field_result(f) == Ok::<Option<Seq<char>>, Seq<char>>(None));
                proof {
                    if no_key_fields(start.take(i + 1)) {
                        assert(no_key_fields(start.take(i as int))) by {
                            assert forall|k: int| 0 <= k < i implies key_attrs(
                                #[trigger] start.take(i as int)[k].1,
                            ).len() == 0 by {
                                assert(start.take(i as int)[k] == start.take(i + 1)[k]);
                            }
                        }
                    }
                }
            },
            Ok(Some(name)) => {
                let ghost v = key_reading(key_attrs(f.1)[0].args)->Ok_0;
                assert(field_result(f) == Ok::<Option<Seq<char>>, Seq<char>>(Some(name@)));
                assert(fits_cbor_key(v) && name@ == marker_name_text(v));
                proof {
                    lemma_marker_name_plain(v as i128);
                    assert(start.take(i + 1)[i as int] == f);
                }
                remove_flagged_attrs(fields, i, &flags);
                push_serde_rename(fields, i, name.as_str());
                assert(fields_contents(*fields)[i as int] == field_after(f));
            },
        }
        assert forall|k: int| 0 <= k < i + 1 implies #[trigger] fields_contents(*fields)[k]
            == field_after(start[k]) by {
            if k < i {
                assert(fields_contents(*fields)[k] == cur[k]);
            }
        }
    }
    assert(start.take(n as int) =~= start);
    assert(fields_contents(*fields) =~= fields_after(start));
    Ok(())
}

/// Rewrites the fields of a struct, or those of each variant of an enum in
/// order, as `rewrite_fields` says, and stops at the first field that is
/// refused, with its error (`lists_result`). On success the item is of the
/// same kind and its lists of fields are as `lists_after` says. Any other
/// item is refused with `unsupported_item_message`. Everything but the
/// fields (`item_outline`) is left as it was.
pub fn rewrite_item(item: &mut syn::Item) -> (res: Result<(), syn::Error>)
    ensures
        item_outline(*final(item)) == item_outline(*old(item)),
        item_contents(*old(item)) is None ==> (res matches Err(e) && error_messages(e) == seq![
            unsupported_item_message(),
        ]),
        item_contents(*old(item)) matches Some((is_enum, lists)) ==> match lists_result(lists) {
            Ok(()) => res is Ok && item_contents(*final(item)) == Some(
                (is_enum, lists_after(lists)),
            ),
            Err(m) => res matches Err(e) && error_messages(e) == seq![m],
        },
        res is Ok ==> (item_contents(*final(item)) matches Some((_, l)) && forall|k: int|
            0 <= k < l.len() ==> no_key_fields(#[trigger] l[k].1)),
{
    let ghost start = item_contents(*item);
    match item_kind(item) {
        ItemKind::Struct => {
            let ghost lists = start->Some_0.1;
            let taken = take_struct_fields(item);
            if let Some(mut fields) = taken {
                let ghost before = fields_contents(fields);
                proof {
                    assert(lists.drop_last() =~= Seq::<ListView>::empty());
                    assert(lists.last().1 == before);
                    assert(lists_result(lists.drop_last()) == Ok::<(), Seq<char>>(()));
                    assert(lists_result(lists) == fields_result(before));
                }
                let rewritten = rewrite_fields(&mut fields);
                match rewritten {
                    Err(e) => {
                        return Err(e);
                    },
                    Ok(()) => {},
                }
                put_struct_fields(item, fields);
                assert(lists_after(lists)[0] == list_after(lists[0]));
                assert(seq![(fields_frame(fields), fields_contents(fields))] =~= lists_after(lists));
                proof {
                    lemma_rewrite_lists_complete(lists);
                }
            }
            Ok(())
        },
        ItemKind::Enum => {
            let ghost lists = start->Some_0.1;
            let n = variant_count(item);
            assert(lists.take(0) =~= Seq::<ListView>::empty());
            for i in 0..n
                invariant
                    n == lists.len(),
                    start == item_contents(*old(item)),
                    start == Some((true, lists)),
                    item_outline(*item) == item_outline(*old(item)),
                    item_contents(*item) matches Some((true, cur)) && cur.len() == n && (forall|k: int|
                        0 <= k < i ==> #[trigger] cur[k] == list_after(lists[k])) && (forall|k: int|
                        i <= k < n ==> #[trigger] cur[k] == lists[k]),
                    lists_result(lists.take(i as int)) == Ok::<(), Seq<char>>(()),
            {
                let ghost cur = item_contents(*item)->Some_0.1;
                let taken = take_variant_fields(item, i);
                if let Some(mut fields) = taken {
                    let ghost before = fields_contents(fields);
                    let ghost held = item_contents(*item)->Some_0.1;
                    assert(before == lists[i as int].1);
                    proof {
                        assert(lists.take(i + 1).drop_last() =~= lists.take(i as int));
                        assert(lists.take(i + 1).last() == lists[i as int]);
                    }
                    let rewritten = rewrite_fields(&mut fields);
                    match rewritten {
                        Err(e) => {
                            proof {
                                lemma_lists_result_prefix(lists, i + 1);
                            }
                            return Err(e);
                        },
                        Ok(()) => {},
                    }
                    put_variant_fields(item, i, fields);
                    proof {
                        let next = item_contents(*item)->Some_0.1;
                        assert(next =~= held.update(i as int, (fields_frame(fields), fields_contents(fields))));
                        assert forall|k: int| 0 <= k < i + 1 implies #[trigger] next[k] == list_after(
                            lists[k],
                        ) by {
                            if k < i {
                                assert(held[k] == cur[k]);
                            }
                        }
                        assert forall|k: int| i + 1 <= k < n implies #[trigger] next[k] == lists[k] by {
                            assert(held[k] == cur[k]);
                        }
                    }
                }
            }
            proof {
                assert(lists.take(n as int) =~= lists);
                let after = item_contents(*item)->Some_0.1;
                assert(after =~= lists_after(lists));
                lemma_rewrite_lists_complete(lists);
            }
            Ok(())
        },
        ItemKind::Other => Err(error_new(item_span(item), "int_keys supports structs and enums")),
    }
}

/// Expands `#[int_keys]` with the given arguments on the given item. The
/// attribute takes no arguments; they are refused before the item is
/// looked at. The tokens must spell an item (`syn::parse2`, whose error is
/// returned where they do not), which is rewritten as `rewrite_item` says; on success the result is the tokens
/// of the rewritten item, which has the outline of the item read and its
/// lists of fields rewritten.
pub fn expand(attr: proc_macro2::TokenStream, item: proc_macro2::TokenStream) -> (res: Result<
    proc_macro2::TokenStream,
    syn::Error,
>)
    ensures
        stream_view(attr).len() != 0 ==> (res matches Err(e) && error_messages(e) == seq![
            no_arguments_message(),
        ]),
        stream_view(attr).len() == 0 ==> match item_reading(stream_view(item)) {
            Err(messages) => res matches Err(e) && error_messages(e) == messages,
            Ok((_, None)) => res matches Err(e) && error_messages(e) == seq![
                unsupported_item_message(),
            ],
            Ok((outline, Some((is_enum, lists)))) => match lists_result(lists) {
                Err(m) => res matches Err(e) && error_messages(e) == seq![m],
                Ok(()) => res matches Ok(out) && exists|rewritten: syn::Item|
                    #[trigger] item_contents(rewritten) == Some((is_enum, lists_after(lists)))
                        && item_outline(rewritten) == outline && stream_view(out) == item_tokens(
                        rewritten,
                    ),
            },
        },
{
    if !token_stream_is_empty(&attr) {
        return Err(error_new(stream_span(&attr), "int_keys takes no arguments"));
    }
    let mut item = parse_item(item)?;
    rewrite_item(&mut item)?;
    let ghost rewritten = item;
    let out = item_into_tokens(item);
    assert(stream_view(out) == item_tokens(rewritten));
    Ok(out)
}

} // verus!

//! What `int_keys` does to one field, decided from what its attributes say:
//! which attributes stay, which `serde` rename is added, or why the field
//! is refused.
use vstd::prelude::*;

use crate::key::{fits_cbor_key, marker_name, marker_name_text, KeyArg};
use crate::syntax::error_new;

verus! {

/// What the rewrite reads of one attribute of a field.
pub enum AttrInfo {
    /// `#[cbor(...)]`: where the attribute stands, and what its arguments
    /// parse to as `key = <integer>`.
    Cbor { span: proc_macro2::Span, arg: Result<KeyArg, syn::Error> },
    /// `#[serde(...)]`: whether one of its nested items, up to the first
    /// that does not parse, is named `rename`.
    Serde { renames: bool },
    /// Any other attribute.
    Other,
}

/// Why a field cannot be rewritten.
pub enum FieldError {
    /// The arguments of a `#[cbor(...)]` attribute are no `key = <integer>`.
    Arg(syn::Error),
    /// A second `#[cbor(key = ...)]` attribute, at the given place.
    Duplicate(proc_macro2::Span),
    /// The key is given on a field without a name.
    Unnamed(proc_macro2::Span),
    /// The key is outside `-2^64 ..= 2^64 - 1`.
    OutOfRange(proc_macro2::Span),
    /// The field also carries `#[serde(rename = ...)]`.
    RenameConflict(proc_macro2::Span),
}

/// The message that the compiler shows for a refusal other than a failed
/// argument.
pub open spec fn field_error_message(e: FieldError) -> Seq<char> {
    match e {
        FieldError::Duplicate(_) => duplicate_message(),
        FieldError::Unnamed(_) => unnamed_message(),
        FieldError::OutOfRange(_) => out_of_range_message(),
        FieldError::RenameConflict(_) => rename_conflict_message(),
        FieldError::Arg(_) => Seq::empty(),
    }
}

/// The message for a second `#[cbor(key = ...)]` on one field.
pub open spec fn duplicate_message() -> Seq<char> {
    "duplicate #[cbor(key = ...)] attribute"@
}

/// The message for a key on a field without a name.
pub open spec fn unnamed_message() -> Seq<char> {
    "#[cbor(key = ...)] requires a named field"@
}

/// The message for a key outside the CBOR range.
pub open spec fn out_of_range_message() -> Seq<char> {
    "#[cbor(key = ...)] must fit a CBOR integer (-2^64 ..= 2^64 - 1)"@
}

/// The message for a key beside a `serde` rename.
pub open spec fn rename_conflict_message() -> Seq<char> {
    "#[cbor(key = ...)] conflicts with #[serde(rename = ...)]"@
}

impl FieldError {
    /// The message that the compiler shows for this error.
    pub fn message(&self) -> (m: &'static str)
        requires
            !(self is Arg),
        ensures
            m@ == field_error_message(*self),
    {
        match self {
            FieldError::Duplicate(_) => "duplicate #[cbor(key = ...)] attribute",
            FieldError::Unnamed(_) => "#[cbor(key = ...)] requires a named field",
            FieldError::OutOfRange(_) => {
                "#[cbor(key = ...)] must fit a CBOR integer (-2^64 ..= 2^64 - 1)"
            },
            FieldError::RenameConflict(_) => {
                "#[cbor(key = ...)] conflicts with #[serde(rename = ...)]"
            },
            FieldError::Arg(_) => "",
        }
    }

    /// The compiler error for this refusal: the error of the argument's
    /// parser, or this error's message at its place.
    pub fn into_error(self) -> (e: syn::Error)
        ensures
            self matches FieldError::Arg(a) ==> e == a,
            !(self is Arg) ==> crate::syntax::error_messages(e) == seq![field_error_message(self)],
    {
        match self {
            FieldError::Arg(e) => e,
            other => {
                let message = other.message();
                match other {
                    FieldError::Duplicate(span)
                    | FieldError::Unnamed(span)
                    | FieldError::OutOfRange(span)
                    | FieldError::RenameConflict(span) => error_new(span, message),
                    FieldError::Arg(e) => e,
                }
            },
        }
    }
}

/// Whether an attribute is a `#[cbor(...)]` attribute.
pub open spec fn is_cbor(a: AttrInfo) -> bool {
    a is Cbor
}

/// The `#[cbor(...)]` attributes among `attrs`, in their order.
pub open spec fn cbor_attrs(attrs: Seq<AttrInfo>) -> Seq<AttrInfo>
    decreases attrs.len(),
{
    if attrs.len() == 0 {
        Seq::empty()
    } else if is_cbor(attrs.last()) {
        cbor_attrs(attrs.drop_last()).push(attrs.last())
    } else {
        cbor_attrs(attrs.drop_last())
    }
}

/// The attributes among `attrs` whose flag in `cbor` is unset, in order.
pub open spec fn kept<A>(attrs: Seq<A>, cbor: Seq<bool>) -> Seq<A>
    decreases attrs.len(),
{
    if attrs.len() == 0 || cbor.len() == 0 {
        Seq::empty()
    } else if cbor.last() {
        kept(attrs.drop_last(), cbor.drop_last())
    } else {
        kept(attrs.drop_last(), cbor.drop_last()).push(attrs.last())
    }
}

/// Which of `attrs` are `#[cbor(...)]` attributes.
pub open spec fn cbor_flags(attrs: Seq<AttrInfo>) -> Seq<bool> {
    attrs.map_values(|a: AttrInfo| is_cbor(a))
}

/// The attributes of a field after a successful rewrite: those that are
/// not `#[cbor(...)]`, then `#[serde(rename = ...)]` where a name is given.
pub open spec fn rewritten(attrs: Seq<AttrInfo>, rename: Option<Seq<char>>) -> Seq<AttrInfo> {
    kept(attrs, cbor_flags(attrs)) + if rename is Some {
        seq![AttrInfo::Serde { renames: true }]
    } else {
        Seq::empty()
    }
}

/// Whether some `#[serde(...)]` attribute among `attrs` names `rename`.
pub open spec fn serde_renames(attrs: Seq<AttrInfo>) -> bool {
    exists|i: int| 0 <= i < attrs.len() && #[trigger] attrs[i] == (AttrInfo::Serde { renames: true })
}

/// The key that the `#[cbor(...)]` attributes of a field give it: none
/// without such an attribute; the first one's argument, which must parse;
/// a second one is refused, after its argument is parsed.
pub open spec fn field_key(attrs: Seq<AttrInfo>) -> Result<Option<KeyArg>, FieldError> {
    let c = cbor_attrs(attrs);
    if c.len() == 0 {
        Ok(None)
    } else {
        match c[0] {
            AttrInfo::Cbor { span: _, arg: Err(e) } => Err(FieldError::Arg(e)),
            AttrInfo::Cbor { span: _, arg: Ok(k) } => {
                if c.len() == 1 {
                    Ok(Some(k))
                } else {
                    match c[1] {
                        AttrInfo::Cbor { span: _, arg: Err(e) } => Err(FieldError::Arg(e)),
                        AttrInfo::Cbor { span, arg: Ok(_) } => Err(FieldError::Duplicate(span)),
                        _ => Ok(None),
                    }
                }
            },
            _ => Ok(None),
        }
    }
}

/// What happens to a field: refused with an error, left as it is (`None`),
/// or renamed to the given name. The checks come in this order: the key
/// attributes themselves, a name for the field, the CBOR range, a `serde`
/// rename beside the key.
pub open spec fn field_outcome(named: bool, attrs: Seq<AttrInfo>) -> Result<
    Option<Seq<char>>,
    FieldError,
> {
    match field_key(attrs) {
        Err(e) => Err(e),
        Ok(None) => Ok(None),
        Ok(Some(k)) => {
            if !named {
                Err(FieldError::Unnamed(k.span))
            } else if !fits_cbor_key(k.value()) {
                Err(FieldError::OutOfRange(k.span))
            } else if serde_renames(attrs) {
                Err(FieldError::RenameConflict(k.span))
            } else {
                Ok(Some(marker_name_text(k.value())))
            }
        },
    }
}

/// The view of a planned outcome.
pub open spec fn outcome_view(res: Result<Option<String>, FieldError>) -> Result<
    Option<Seq<char>>,
    FieldError,
> {
    match res {
        Ok(None) => Ok(None),
        Ok(Some(name)) => Ok(Some(name@)),
        Err(e) => Err(e),
    }
}

/// Decides what happens to a field with the given attributes, in their
/// order; `named` tells whether the field has a name. On success the field
/// keeps every attribute that is not `#[cbor(...)]`, in order, and gains
/// `#[serde(rename = <name>)]` when a name is returned.
pub fn plan_field(named: bool, attrs: Vec<AttrInfo>) -> (res: Result<Option<String>, FieldError>)
    ensures
        outcome_view(res) == field_outcome(named, attrs@),
{
    let ghost all = attrs@;
    let mut rest = attrs;
    let mut found: Option<KeyArg> = None;
    let mut renames = false;
    let ghost mut done: Seq<AttrInfo> = Seq::empty();
    while rest.len() > 0
        invariant
            all == attrs@,
            all == done + rest@,
            cbor_attrs(done).len() <= 1,
            cbor_attrs(done).len() == 0 <==> found is None,
            found matches Some(k) ==> cbor_attrs(done)[0] matches AttrInfo::Cbor { span: _, arg: Ok(k2) } && k2 == k,
            renames == serde_renames(done),
        decreases rest.len(),
    {
        let a = rest.remove(0);
        let ghost ga = a;
        let ghost next = done.push(a);
        assert(next.drop_last() =~= done);
        assert(cbor_attrs(next) == if is_cbor(ga) {
            cbor_attrs(done).push(ga)
        } else {
            cbor_attrs(done)
        });
        assert(all =~= next + rest@);
        assert(serde_renames(next) == (serde_renames(done) || a == (AttrInfo::Serde { renames: true }))) by {
            if serde_renames(next) && !(a == (AttrInfo::Serde { renames: true })) {
                let i = choose|i: int| 0 <= i < next.len() && #[trigger] next[i] == (AttrInfo::Serde { renames: true });
                assert(done[i] == next[i]);
            }
            if a == (AttrInfo::Serde { renames: true }) {
                assert(next[done.len() as int] == a);
            }
            if serde_renames(done) {
                let i = choose|i: int| 0 <= i < done.len() && #[trigger] done[i] == (AttrInfo::Serde { renames: true });
                assert(next[i] == done[i]);
            }
        }
        match a {
            AttrInfo::Cbor { span, arg } => {
                match arg {
                    Err(e) => {
                        proof {
                            lemma_cbor_attrs_append(next, rest@);
                            let c = cbor_attrs(all);
                            assert(ga == (AttrInfo::Cbor { span, arg: Err(e) }));
                            if found is None {
                                assert(cbor_attrs(next) =~= seq![ga]);
                                assert(c[0] == ga);
                            } else {
                                assert(cbor_attrs(next).len() == 2);
                                assert(c[1] == ga);
                                assert(c[0] == cbor_attrs(done)[0]);
                            }
                            assert(field_key(all) == Err::<Option<KeyArg>, FieldError>(FieldError::Arg(e)));
                        }
                        return Err(FieldError::Arg(e));
                    },
                    Ok(k) => {
                        if found.is_some() {
                            proof {
                                lemma_cbor_attrs_append(next, rest@);
                                let c = cbor_attrs(all);
                                assert(cbor_attrs(next).len() == 2);
                                assert(c[1] == ga);
                                assert(c[0] == cbor_attrs(done)[0]);
                                assert(field_key(all) == Err::<Option<KeyArg>, FieldError>(FieldError::Duplicate(span)));
                            }
                            return Err(FieldError::Duplicate(span));
                        }
                        found = Some(k);
                    },
                }
            },
            AttrInfo::Serde { renames: r } => {
                renames = renames || r;
            },
            AttrInfo::Other => {},
        }
        proof {
            done = next;
        }
    }
    assert(done =~= all);
    match found {
        None => Ok(None),
        Some(k) => {
            if !named {
                Err(FieldError::Unnamed(k.span))
            } else if !k.fits_cbor() {
                Err(FieldError::OutOfRange(k.span))
            } else if renames {
                Err(FieldError::RenameConflict(k.span))
            } else {
                Ok(Some(marker_name(k.value_i128())))
            }
        },
    }
}

/// The `#[cbor(...)]` attributes of two sequences laid end to end.
proof fn lemma_cbor_attrs_append(s: Seq<AttrInfo>, t: Seq<AttrInfo>)
    ensures
        cbor_attrs(s + t) == cbor_attrs(s) + cbor_attrs(t),
    decreases t.len(),
{
    if t.len() == 0 {
        assert(s + t =~= s);
        assert(cbor_attrs(s) + cbor_attrs(t) =~= cbor_attrs(s));
    } else {
        lemma_cbor_attrs_append(s, t.drop_last());
        assert((s + t).drop_last() =~= s + t.drop_last());
        assert((s + t).last() == t.last());
        if is_cbor(t.last()) {
            assert(cbor_attrs(s) + cbor_attrs(t) =~= (cbor_attrs(s) + cbor_attrs(t.drop_last())).push(t.last()));
        } else {
            assert(cbor_attrs(s) + cbor_attrs(t) =~= cbor_attrs(s) + cbor_attrs(t.drop_last()));
        }
    }
}

/// No attribute without a flag is `#[cbor(...)]`: then there is none to
/// find.
proof fn lemma_no_cbor(s: Seq<AttrInfo>)
    requires
        forall|i: int| 0 <= i < s.len() ==> !is_cbor(#[trigger] s[i]),
    ensures
        cbor_attrs(s).len() == 0,
    decreases s.len(),
{
    if s.len() > 0 {
        assert forall|i: int| 0 <= i < s.drop_last().len() implies !is_cbor(
            #[trigger] s.drop_last()[i],
        ) by {
            assert(s.drop_last()[i] == s[i]);
        }
        lemma_no_cbor(s.drop_last());
    }
}

/// Without `#[cbor(...)]` attributes, every attribute is kept.
proof fn lemma_kept_all(s: Seq<AttrInfo>)
    requires
        cbor_attrs(s).len() == 0,
    ensures
        kept(s, cbor_flags(s)) == s,
    decreases s.len(),
{
    if s.len() > 0 {
        assert(cbor_flags(s).drop_last() =~= cbor_flags(s.drop_last()));
        lemma_kept_all(s.drop_last());
        assert(s.drop_last().push(s.last()) =~= s);
    }
}

/// Law: what a field keeps holds no `#[cbor(...)]` attribute.
pub proof fn lemma_kept_has_no_cbor(s: Seq<AttrInfo>)
    ensures
        forall|i: int|
            0 <= i < kept(s, cbor_flags(s)).len() ==> !is_cbor(#[trigger] kept(s, cbor_flags(s))[i]),
    decreases s.len(),
{
    if s.len() > 0 {
        assert(cbor_flags(s).drop_last() =~= cbor_flags(s.drop_last()));
        lemma_kept_has_no_cbor(s.drop_last());
        let k = kept(s.drop_last(), cbor_flags(s.drop_last()));
        assert forall|i: int| 0 <= i < kept(s, cbor_flags(s)).len() implies !is_cbor(
            #[trigger] kept(s, cbor_flags(s))[i],
        ) by {
            if i < k.len() {
                assert(kept(s, cbor_flags(s))[i] == k[i]);
            }
        }
    }
}

/// Law: a field without `#[cbor(...)]` attributes is left as it is: it is
/// neither renamed nor refused, and keeps all its attributes.
pub proof fn lemma_unkeyed_field_unchanged(named: bool, attrs: Seq<AttrInfo>)
    requires
        forall|i: int| 0 <= i < attrs.len() ==> !is_cbor(#[trigger] attrs[i]),
    ensures
        field_outcome(named, attrs) == Ok::<Option<Seq<char>>, FieldError>(None),
        rewritten(attrs, None) == attrs,
{
    lemma_no_cbor(attrs);
    lemma_kept_all(attrs);
    assert(rewritten(attrs, None) =~= kept(attrs, cbor_flags(attrs)));
}

/// Law: the rewrite is idempotent. A field that was rewritten holds no
/// `#[cbor(...)]` attribute, so rewriting it again leaves it as it is.
pub proof fn lemma_rewrite_idempotent(named: bool, attrs: Seq<AttrInfo>)
    requires
        field_outcome(named, attrs) is Ok,
    ensures
        ({
            let once = rewritten(attrs, field_outcome(named, attrs)->Ok_0);
            &&& field_outcome(named, once) == Ok::<Option<Seq<char>>, FieldError>(None)
            &&& rewritten(once, None) == once
        }),
{
    let once = rewritten(attrs, field_outcome(named, attrs)->Ok_0);
    let k = kept(attrs, cbor_flags(attrs));
    lemma_kept_has_no_cbor(attrs);
    assert forall|i: int| 0 <= i < once.len() implies !is_cbor(#[trigger] once[i]) by {
        if i < k.len() {
            assert(once[i] == k[i]);
        }
    }
    lemma_unkeyed_field_unchanged(named, once);
}

/// Law: a key beside a `#[serde(...)]` attribute that names `rename` is
/// refused, whatever position that attribute holds among the field's
/// attributes and whatever attributes follow it.
pub proof fn lemma_rename_conflict_at_any_position(named: bool, attrs: Seq<AttrInfo>, i: int)
    requires
        0 <= i < attrs.len(),
        attrs[i] == (AttrInfo::Serde { renames: true }),
        named,
        cbor_attrs(attrs).len() == 1,
        cbor_attrs(attrs)[0] matches AttrInfo::Cbor { span: _, arg: Ok(k) } && fits_cbor_key(
            k.value(),
        ),
    ensures
        field_outcome(named, attrs) matches Err(e) && e is RenameConflict,
{
    assert(attrs[i] == (AttrInfo::Serde { renames: true }));
    assert(serde_renames(attrs));
}

} // verus!

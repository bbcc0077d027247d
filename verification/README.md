# cbor2-derive

The rewrite behind the `#[cbor2::int_keys]` attribute. A field marked
`#[cbor(key = <integer>)]` loses that attribute and gains
`#[serde(rename = "@@KEY@@<integer>")]`; the `cbor2` serializers write such a
field's map key as the integer.

- `src/` is the library, verified with Verus: decimal text of integers
  (`decimal`), the grammar of the key argument and the marker names (`key`),
  the decision for one field (`plan`), and the expansion of an item
  (`expand`). The calls into `syn`, `proc-macro2` and `quote` are trusted
  wrappers in `src/syntax.rs`. What token streams, items, fields and
  attributes hold is named there over plain views of tokens, and the
  expansion is stated over those views: which fields are renamed, to which
  marker, which error refuses an item, and that everything else is left as
  it was.
- `app/` holds the `int_keys` function that a proc-macro crate exports: it
  converts the compiler's token streams, calls the library and turns an
  error into `compile_error!` tokens. The `#[proc_macro_attribute]` marker
  belongs to the crate that ships the macro.
- `tests/` runs the expansion on token streams, checks the key grammar
  against `syn`'s own parsers, and runs the verified functions on concrete
  values.

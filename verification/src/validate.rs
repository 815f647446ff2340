//! Validators for a configuration tree.
//!
//! A schema is a tree of [`Schema`] nodes, built in a fluent style from
//! the concrete node types ([`Scalar`], [`Numeric`], [`Directory`],
//! [`Structure`], [`Enum`], [`Mapping`], [`Sequence`], [`Anything`],
//! [`Nothing`]).  Each node both checks and coerces an input tree
//! (`validate`) and synthesizes a conforming tree when input is absent
//! (`default`).  Validation reports every violation it finds and always
//! returns a structurally usable tree; on an irrecoverable shape mismatch
//! the original node is returned verbatim.
//!
//! The exact behaviour of both operations is given by the specification
//! functions [`spec_validate`] and [`spec_default`].

use vstd::prelude::*;
use crate::ast::{
    Ast, AstV, Pos, PosV, Tag, TagV, ScalarKind, NullKind, entries_view, items_view, es_find,
    es_remove, es_insert, map_take, map_insert, lemma_entries_view, lemma_items_view,
};
use crate::errors::{Error, ErrorCollector, ErrorV};
use crate::text::{
    chars_lt, dashed, nat_dec, int_dec, quote1, quoted_join, split_chars, str_lt, dashed_str,
    starts_underscore, usize_dec_str, i64_dec_str, quoted_join_str, split_str,
};
use crate::numerals::{from_numeric_spec, from_numeric};

verus! {

/// Scalar value: a string, number, boolean or path in textual form.
pub struct Scalar {
    pub optional: bool,
    pub default: Option<String>,
    pub min_length: Option<usize>,
    pub max_length: Option<usize>,
}

/// Scalar that must denote an integer, with optional range limits.
pub struct Numeric {
    pub optional: bool,
    pub default: Option<i64>,
    pub min: Option<i64>,
    pub max: Option<i64>,
}

/// Scalar that must denote a path, with optional absoluteness limits.
pub struct Directory {
    pub optional: bool,
    pub default: Option<String>,
    pub absolute: Option<bool>,
}

/// How a bare scalar desugars into a one-entry mapping: the scalar
/// becomes the value under the given key.
pub enum ScalarShortcut {
    UnderKey(String),
}

/// How a bare scalar desugars into a list: the text is cut at every
/// occurrence of the given separator, one plain scalar per piece.
pub enum ListShortcut {
    SplitOn(char),
}

/// Record: a mapping of declared, named fields.
pub struct Structure {
    pub members: Vec<(String, Schema)>,
    pub optional: bool,
    pub from_scalar: Option<ScalarShortcut>,
}

/// Tagged sum type: a value dispatched on its tag to one declared option.
pub struct Enum {
    pub options: Vec<(String, Schema)>,
    pub optional: bool,
    pub default_tag: Option<String>,
    pub allow_plain: bool,
}

/// Homogeneous dictionary: one validator for keys, one for values.
pub struct Mapping {
    pub key_element: Box<Schema>,
    pub value_element: Box<Schema>,
    pub from_scalar: Option<ScalarShortcut>,
}

/// Homogeneous list: one validator for every element.
pub struct Sequence {
    pub element: Box<Schema>,
    pub from_scalar: Option<ListShortcut>,
}

/// Accepts any value unchanged; useful to defer checking to a later stage.
pub struct Anything;

/// Accepts only null; useful for enum options that carry no payload.
pub struct Nothing;

/// A schema node: the closed set of validator kinds.
pub enum Schema {
    Scalar(Scalar),
    Numeric(Numeric),
    Directory(Directory),
    Structure(Structure),
    Enum(Enum),
    Mapping(Mapping),
    Sequence(Sequence),
    Anything(Anything),
    Nothing(Nothing),
}

// ---------------------------------------------------------------------
// Messages
// ---------------------------------------------------------------------

pub open spec fn msg_at_least_chars(n: nat) -> Seq<char> {
    "Value must be at least "@ + nat_dec(n) + " characters"@
}

pub open spec fn msg_at_most_chars(n: nat) -> Seq<char> {
    "Value must be at most "@ + nat_dec(n) + " characters"@
}

pub open spec fn msg_at_least(v: int) -> Seq<char> {
    "Value must be at least "@ + int_dec(v)
}

pub open spec fn msg_at_most(v: int) -> Seq<char> {
    "Value must be at most "@ + int_dec(v)
}

pub open spec fn msg_field_expected(k: Seq<char>) -> Seq<char> {
    "Field "@ + k + " is expected"@
}

pub open spec fn msg_keys_unexpected(ks: Seq<Seq<char>>) -> Seq<char> {
    "Keys {"@ + quoted_join(ks) + "} are not expected"@
}

pub open spec fn msg_tags_expected(names: Seq<Seq<char>>) -> Seq<char> {
    "One of the tags ["@ + quoted_join(names) + "] expected"@
}

pub open spec fn msg_tag_unexpected(name: Seq<char>) -> Seq<char> {
    "The tag "@ + name + " is not expected"@
}

pub open spec fn msg_null_expected(rendered: Seq<char>) -> Seq<char> {
    "Null expected, "@ + rendered + " found"@
}

/// Short textual rendering of a node, used in the null-expected message.
pub open spec fn ast_render(a: AstV) -> Seq<char> {
    match a {
        AstV::Scalar(_, _, _, text) => text,
        AstV::Mapping(_, _, _) => "{...}"@,
        AstV::List(_, _, _) => "[...]"@,
        AstV::Null(_, _, _) => "null"@,
    }
}

// ---------------------------------------------------------------------
// Specification of validate and default
// ---------------------------------------------------------------------

/// Whether a scalar text denotes an absolute path.
pub open spec fn is_abs_path(text: Seq<char>) -> bool {
    text.len() > 0 && text[0] == '/'
}

/// One error for every parent-directory component among the segments.
pub open spec fn parent_errs(segs: Seq<Seq<char>>, pos: PosV) -> Seq<ErrorV>
    decreases segs.len(),
{
    if segs.len() == 0 {
        Seq::empty()
    } else {
        (if segs[0] == ".."@ {
            seq![ErrorV::Validation(pos, "The /../ is not allowed in path"@)]
        } else {
            Seq::empty()
        }) + parent_errs(segs.skip(1), pos)
    }
}

/// What `Scalar::validate` returns and reports.
pub open spec fn scalar_validate(sc: Scalar, a: AstV) -> (AstV, Seq<ErrorV>) {
    match a {
        AstV::Scalar(pos, tag, kind, text) => {
            let e1: Seq<ErrorV> = match sc.min_length {
                Some(n) => if text.len() < n {
                    seq![ErrorV::Validation(pos, msg_at_least_chars(n as nat))]
                } else {
                    Seq::empty()
                },
                None => Seq::empty(),
            };
            let e2: Seq<ErrorV> = match sc.max_length {
                Some(n) => if text.len() > n {
                    seq![ErrorV::Validation(pos, msg_at_most_chars(n as nat))]
                } else {
                    Seq::empty()
                },
                None => Seq::empty(),
            };
            (AstV::Scalar(pos, TagV::NonSpecific, kind, text), e1 + e2)
        },
        AstV::Null(_, _, _) => if sc.optional {
            (a, Seq::empty())
        } else {
            (a, seq![ErrorV::Validation(a.pos(), "Value must be scalar"@)])
        },
        _ => (a, seq![ErrorV::Validation(a.pos(), "Value must be scalar"@)]),
    }
}

/// What `Scalar::default` synthesizes.
pub open spec fn scalar_default(sc: Scalar, pos: PosV) -> Option<AstV> {
    if sc.default is None && sc.optional {
        Some(AstV::Null(pos, TagV::NonSpecific, NullKind::Implicit))
    } else {
        match sc.default {
            Some(text) => Some(AstV::Scalar(pos, TagV::NonSpecific, ScalarKind::Quoted, text@)),
            None => None,
        }
    }
}

/// What `Numeric::validate` returns and reports.
pub open spec fn numeric_validate(nv: Numeric, a: AstV) -> (AstV, Seq<ErrorV>) {
    match a {
        AstV::Scalar(pos, tag, kind, text) => match from_numeric_spec(text) {
            Some(v) => {
                let e1: Seq<ErrorV> = match nv.min {
                    Some(m) => if v < m {
                        seq![ErrorV::Validation(pos, msg_at_least(m as int))]
                    } else {
                        Seq::empty()
                    },
                    None => Seq::empty(),
                };
                let e2: Seq<ErrorV> = match nv.max {
                    Some(m) => if v > m {
                        seq![ErrorV::Validation(pos, msg_at_most(m as int))]
                    } else {
                        Seq::empty()
                    },
                    None => Seq::empty(),
                };
                (AstV::Scalar(pos, TagV::NonSpecific, ScalarKind::Plain, int_dec(v as int)), e1
                    + e2)
            },
            None => (a, seq![ErrorV::Validation(pos, "Value must be numeric"@)]),
        },
        AstV::Null(_, _, _) => if nv.optional {
            (a, Seq::empty())
        } else {
            (a, seq![ErrorV::Validation(a.pos(), "Value must be scalar"@)])
        },
        _ => (a, seq![ErrorV::Validation(a.pos(), "Value must be scalar"@)]),
    }
}

/// What `Numeric::default` synthesizes.
pub open spec fn numeric_default(nv: Numeric, pos: PosV) -> Option<AstV> {
    if nv.default is None && nv.optional {
        Some(AstV::Null(pos, TagV::NonSpecific, NullKind::Implicit))
    } else {
        match nv.default {
            Some(v) => Some(
                AstV::Scalar(pos, TagV::NonSpecific, ScalarKind::Quoted, int_dec(v as int)),
            ),
            None => None,
        }
    }
}

/// The path-shape errors `Directory::validate` reports on a scalar.
pub open spec fn dir_errs(d: Directory, pos: PosV, text: Seq<char>) -> Seq<ErrorV> {
    match d.absolute {
        Some(true) => if !is_abs_path(text) {
            seq![ErrorV::Validation(pos, "Path must be absolute"@)]
        } else {
            Seq::empty()
        },
        Some(false) => if is_abs_path(text) {
            seq![ErrorV::Validation(pos, "Path must not be absolute"@)]
        } else {
            parent_errs(split_chars(text, '/'), pos)
        },
        None => Seq::empty(),
    }
}

/// What `Directory::validate` returns and reports.
pub open spec fn directory_validate(d: Directory, a: AstV) -> (AstV, Seq<ErrorV>) {
    match a {
        AstV::Scalar(pos, tag, kind, text) => {
            (AstV::Scalar(pos, TagV::NonSpecific, kind, text), dir_errs(d, pos, text))
        },
        AstV::Null(_, _, _) => if d.optional {
            (a, Seq::empty())
        } else {
            (a, seq![ErrorV::Validation(a.pos(), "Path expected"@)])
        },
        _ => (a, seq![ErrorV::Validation(a.pos(), "Path expected"@)]),
    }
}

/// What `Directory::default` synthesizes.
pub open spec fn directory_default(d: Directory, pos: PosV) -> Option<AstV> {
    if d.default is None && d.optional {
        Some(AstV::Null(pos, TagV::NonSpecific, NullKind::Implicit))
    } else {
        match d.default {
            Some(text) => Some(AstV::Scalar(pos, TagV::NonSpecific, ScalarKind::Quoted, text@)),
            None => None,
        }
    }
}

/// What `Nothing::validate` returns and reports.
pub open spec fn nothing_validate(a: AstV) -> (AstV, Seq<ErrorV>) {
    match a {
        AstV::Null(_, _, _) => (a, Seq::empty()),
        _ => (a, seq![ErrorV::Parse(a.pos(), msg_null_expected(ast_render(a)))]),
    }
}

/// The names of the declared members or options, in declaration order.
pub open spec fn decl_names(decls: Seq<(String, Schema)>) -> Seq<Seq<char>> {
    Seq::new(decls.len(), |i: int| decls[i].0@)
}

/// The keys of the entries, in entry order.
pub open spec fn es_keys(es: Seq<(Seq<char>, AstV)>) -> Seq<Seq<char>> {
    Seq::new(es.len(), |i: int| es[i].0)
}

/// The remaining keys a structure flags: not underscore-prefixed and not
/// the name of a declared member.
pub open spec fn unexpected_keys(members: Seq<(String, Schema)>, es: Seq<(Seq<char>, AstV)>) -> Seq<
    Seq<char>,
> {
    es_keys(es).filter(
        |k: Seq<char>| !(k.len() > 0 && k[0] == '_') && !decl_names(members).contains(k),
    )
}

/// Process the declared members of a structure against the entries:
/// each member is taken by exact name, then by hyphenated alias, and its
/// validated value (or its default) is put back under the declared name.
pub open spec fn members_validate(
    members: Seq<(String, Schema)>,
    pos: PosV,
    es: Seq<(Seq<char>, AstV)>,
) -> (Seq<(Seq<char>, AstV)>, Seq<ErrorV>)
    decreases members, 2int, 0int,
{
    if members.len() == 0 {
        (es, Seq::empty())
    } else {
        let k = members[0].0@;
        let child = members[0].1;
        let v1 = es_find(es, k);
        let es1 = es_remove(es, k);
        let v2 = es_find(es1, dashed(k));
        let es2 = es_remove(es1, dashed(k));
        let chosen = if v1 is Some {
            v1
        } else {
            v2
        };
        match chosen {
            Some(src) => {
                let r = spec_validate(child, src);
                let f = members_validate(members.skip(1), pos, es_insert(es2, k, r.0));
                (f.0, r.1 + f.1)
            },
            None => match spec_default(child, pos) {
                Some(d) => members_validate(members.skip(1), pos, es_insert(es2, k, d)),
                None => {
                    let f = members_validate(members.skip(1), pos, es2);
                    (f.0, seq![ErrorV::Validation(pos, msg_field_expected(k))] + f.1)
                },
            },
        }
    }
}

/// The member defaults of a structure, keyed by member name; members
/// without a default are omitted.
pub open spec fn members_default(
    members: Seq<(String, Schema)>,
    pos: PosV,
    acc: Seq<(Seq<char>, AstV)>,
) -> Seq<(Seq<char>, AstV)>
    decreases members, 2int, 0int,
{
    if members.len() == 0 {
        acc
    } else {
        let next = match spec_default(members[0].1, pos) {
            Some(d) => es_insert(acc, members[0].0@, d),
            None => acc,
        };
        members_default(members.skip(1), pos, next)
    }
}

/// What `Structure::default` synthesizes (always something).
pub open spec fn structure_default(st: Structure, pos: PosV) -> AstV
    decreases st, 2int, 0int,
{
    if st.optional {
        AstV::Null(pos, TagV::NonSpecific, NullKind::Implicit)
    } else {
        AstV::Mapping(pos, TagV::NonSpecific, members_default(st.members@, pos, Seq::empty()))
    }
}

/// What `Structure::validate` returns and reports.
pub open spec fn structure_validate(st: Structure, a: AstV) -> (AstV, Seq<ErrorV>)
    decreases st, 3int, 0int,
{
    match a {
        AstV::Mapping(pos, tag, es) => structure_entries(st, pos, es),
        AstV::Null(pos, tag, NullKind::Implicit) => (structure_default(st, pos), Seq::empty()),
        AstV::Scalar(pos, tag, kind, text) => match st.from_scalar {
            Some(ScalarShortcut::UnderKey(key)) => structure_entries(
                st,
                pos,
                seq![(key@, AstV::Scalar(pos, TagV::NonSpecific, kind, text))],
            ),
            None => (a, seq![ErrorV::Validation(a.pos(), "Value must be mapping"@)]),
        },
        _ => (a, seq![ErrorV::Validation(a.pos(), "Value must be mapping"@)]),
    }
}

/// Validate a structure's entries: members first, then one aggregated
/// error naming every remaining unexpected key.
pub open spec fn structure_entries(st: Structure, pos: PosV, es: Seq<(Seq<char>, AstV)>) -> (
    AstV,
    Seq<ErrorV>,
)
    decreases st, 2int, 1int,
{
    let r = members_validate(st.members@, pos, es);
    let bad = unexpected_keys(st.members@, r.0);
    let tail: Seq<ErrorV> = if bad.len() > 0 {
        seq![ErrorV::Validation(pos, msg_keys_unexpected(bad))]
    } else {
        Seq::empty()
    };
    (AstV::Mapping(pos, TagV::NonSpecific, r.0), r.1 + tail)
}

/// Find the declared option with the given name and run it on `input`,
/// stamping the resolved tag on the result.
pub open spec fn enum_dispatch(
    options: Seq<(String, Schema)>,
    input: AstV,
    name: Seq<char>,
) -> Option<(AstV, Seq<ErrorV>)>
    decreases options, 2int, 0int,
{
    if options.len() == 0 {
        None
    } else if options[0].0@ == name {
        let r = spec_validate(options[0].1, input);
        Some((r.0.with_tag(TagV::Local(name)), r.1))
    } else {
        enum_dispatch(options.skip(1), input, name)
    }
}

/// What `Enum::validate` returns and reports.
pub open spec fn enum_validate(e: Enum, a: AstV) -> (AstV, Seq<ErrorV>)
    decreases e, 3int, 0int,
{
    match a.tag() {
        TagV::Local(name) => match enum_dispatch(e.options@, a, name) {
            Some(r) => r,
            None => (a, seq![ErrorV::Validation(a.pos(), msg_tag_unexpected(name))]),
        },
        TagV::NonSpecific => {
            let plain: Option<(AstV, Seq<ErrorV>)> = if e.allow_plain {
                match a {
                    AstV::Scalar(pos, _, _, text) => enum_dispatch(
                        e.options@,
                        AstV::Null(pos, TagV::NonSpecific, NullKind::Implicit),
                        text,
                    ),
                    _ => None,
                }
            } else {
                None
            };
            match plain {
                Some(r) => r,
                None => match e.default_tag {
                    Some(t) => match enum_dispatch(e.options@, a, t@) {
                        Some(r) => r,
                        None => (a, seq![ErrorV::Validation(a.pos(), msg_tag_unexpected(t@))]),
                    },
                    None => (
                        a,
                        seq![
                            ErrorV::Validation(a.pos(), msg_tags_expected(decl_names(e.options@))),
                        ],
                    ),
                },
            }
        },
    }
}

/// What `Enum::default` synthesizes.
pub open spec fn enum_default(e: Enum, pos: PosV) -> Option<AstV> {
    if e.default_tag is Some && e.optional {
        Some(AstV::Null(pos, TagV::Local(e.default_tag.unwrap()@), NullKind::Implicit))
    } else if e.optional {
        Some(AstV::Null(pos, TagV::NonSpecific, NullKind::Implicit))
    } else {
        None
    }
}

/// Validate every entry of a homogeneous mapping: the key is re-wrapped
/// as a plain scalar and run through the key validator (its scalar text,
/// or the original key when the key validator returns another shape,
/// becomes the new key), the value through the value validator.
pub open spec fn mapping_entries(
    m: Mapping,
    es: Seq<(Seq<char>, AstV)>,
    acc: Seq<(Seq<char>, AstV)>,
) -> (Seq<(Seq<char>, AstV)>, Seq<ErrorV>)
    decreases m, 2int, es.len(),
{
    if es.len() == 0 {
        (acc, Seq::empty())
    } else {
        let k = es[0].0;
        let v = es[0].1;
        let kr = spec_validate(
            *m.key_element,
            AstV::Scalar(v.pos(), TagV::NonSpecific, ScalarKind::Plain, k),
        );
        let nk = match kr.0 {
            AstV::Scalar(_, _, _, text) => text,
            _ => k,
        };
        let vr = spec_validate(*m.value_element, v);
        let f = mapping_entries(m, es.skip(1), es_insert(acc, nk, vr.0));
        (f.0, kr.1 + vr.1 + f.1)
    }
}

/// What `Mapping::validate` returns and reports.
pub open spec fn mapping_validate(m: Mapping, a: AstV) -> (AstV, Seq<ErrorV>)
    decreases m, 3int, 0int,
{
    match a {
        AstV::Mapping(pos, tag, es) => {
            let r = mapping_entries(m, es, Seq::empty());
            (AstV::Mapping(pos, TagV::NonSpecific, r.0), r.1)
        },
        AstV::Null(pos, tag, NullKind::Implicit) => (
            AstV::Mapping(pos, TagV::NonSpecific, Seq::empty()),
            Seq::empty(),
        ),
        AstV::Scalar(pos, tag, kind, text) => match m.from_scalar {
            Some(ScalarShortcut::UnderKey(key)) => {
                let es = seq![(key@, AstV::Scalar(pos, TagV::NonSpecific, kind, text))];
                let r = mapping_entries(m, es, Seq::empty());
                (AstV::Mapping(pos, TagV::NonSpecific, r.0), r.1)
            },
            None => (a, seq![ErrorV::Validation(a.pos(), "Value must be mapping"@)]),
        },
        _ => (a, seq![ErrorV::Validation(a.pos(), "Value must be mapping"@)]),
    }
}

/// The desugared pieces of a scalar under a list shortcut.
pub open spec fn split_items(pos: PosV, text: Seq<char>, sep: char) -> Seq<AstV> {
    Seq::new(
        split_chars(text, sep).len(),
        |i: int| AstV::Scalar(pos, TagV::NonSpecific, ScalarKind::Plain, split_chars(text, sep)[i]),
    )
}

/// Validate every element of a homogeneous list, in order.
pub open spec fn sequence_items(q: Sequence, items: Seq<AstV>) -> (Seq<AstV>, Seq<ErrorV>)
    decreases q, 2int, items.len(),
{
    if items.len() == 0 {
        (Seq::empty(), Seq::empty())
    } else {
        let r = spec_validate(*q.element, items[0]);
        let f = sequence_items(q, items.skip(1));
        (seq![r.0] + f.0, r.1 + f.1)
    }
}

/// What `Sequence::validate` returns and reports.
pub open spec fn sequence_validate(q: Sequence, a: AstV) -> (AstV, Seq<ErrorV>)
    decreases q, 3int, 0int,
{
    match a {
        AstV::List(pos, tag, items) => {
            let r = sequence_items(q, items);
            (AstV::List(pos, TagV::NonSpecific, r.0), r.1)
        },
        AstV::Null(pos, tag, NullKind::Implicit) => (
            AstV::List(pos, TagV::NonSpecific, Seq::empty()),
            Seq::empty(),
        ),
        AstV::Scalar(pos, tag, kind, text) => match q.from_scalar {
            Some(ListShortcut::SplitOn(sep)) => {
                let r = sequence_items(q, split_items(pos, text, sep));
                (AstV::List(pos, TagV::NonSpecific, r.0), r.1)
            },
            None => (a, seq![ErrorV::Validation(a.pos(), "Value must be sequence"@)]),
        },
        _ => (a, seq![ErrorV::Validation(a.pos(), "Value must be sequence"@)]),
    }
}

/// The full behaviour of `validate`: the returned tree and the reported
/// diagnostics, in order, for every schema node and every input.
pub open spec fn spec_validate(s: Schema, a: AstV) -> (AstV, Seq<ErrorV>)
    decreases s, 1int, 0int,
{
    match s {
        Schema::Scalar(sc) => scalar_validate(sc, a),
        Schema::Numeric(nv) => numeric_validate(nv, a),
        Schema::Directory(d) => directory_validate(d, a),
        Schema::Structure(st) => structure_validate(st, a),
        Schema::Enum(e) => enum_validate(e, a),
        Schema::Mapping(m) => mapping_validate(m, a),
        Schema::Sequence(q) => sequence_validate(q, a),
        Schema::Anything(_) => (a, Seq::empty()),
        Schema::Nothing(_) => nothing_validate(a),
    }
}

/// The full behaviour of `default`: the synthesized tree, if any, for
/// every schema node and position.
pub open spec fn spec_default(s: Schema, pos: PosV) -> Option<AstV>
    decreases s, 0int, 0int,
{
    match s {
        Schema::Scalar(sc) => scalar_default(sc, pos),
        Schema::Numeric(nv) => numeric_default(nv, pos),
        Schema::Directory(d) => directory_default(d, pos),
        Schema::Structure(st) => Some(structure_default(st, pos)),
        Schema::Enum(e) => enum_default(e, pos),
        Schema::Mapping(_) => Some(AstV::Mapping(pos, TagV::NonSpecific, Seq::empty())),
        Schema::Sequence(_) => Some(AstV::List(pos, TagV::NonSpecific, Seq::empty())),
        Schema::Anything(_) => None,
        Schema::Nothing(_) => None,
    }
}

// ---------------------------------------------------------------------
// Message builders
// ---------------------------------------------------------------------

fn report(err: &mut ErrorCollector, e: Error)
    ensures
        final(err)@ == old(err)@ + seq![e@],
{
    let ghost ev = e@;
    err.add_error(e);
    proof {
        assert(final(err)@ =~= old(err)@ + seq![ev]);
    }
}

fn msg_at_least_chars_str(n: usize) -> (r: String)
    ensures
        r@ == msg_at_least_chars(n as nat),
{
    let mut s = String::from_str("Value must be at least ");
    let d = usize_dec_str(n);
    s.append(d.as_str());
    s.append(" characters");
    s
}

fn msg_at_most_chars_str(n: usize) -> (r: String)
    ensures
        r@ == msg_at_most_chars(n as nat),
{
    let mut s = String::from_str("Value must be at most ");
    let d = usize_dec_str(n);
    s.append(d.as_str());
    s.append(" characters");
    s
}

fn msg_at_least_str(v: i64) -> (r: String)
    ensures
        r@ == msg_at_least(v as int),
{
    let mut s = String::from_str("Value must be at least ");
    let d = i64_dec_str(v);
    s.append(d.as_str());
    s
}

fn msg_at_most_str(v: i64) -> (r: String)
    ensures
        r@ == msg_at_most(v as int),
{
    let mut s = String::from_str("Value must be at most ");
    let d = i64_dec_str(v);
    s.append(d.as_str());
    s
}

fn msg_field_expected_str(k: &String) -> (r: String)
    ensures
        r@ == msg_field_expected(k@),
{
    let mut s = String::from_str("Field ");
    s.append(k.as_str());
    s.append(" is expected");
    s
}

fn msg_keys_unexpected_str(keys: &Vec<String>) -> (r: String)
    ensures
        r@ == msg_keys_unexpected(keys.deep_view()),
{
    let mut s = String::from_str("Keys {");
    let j = quoted_join_str(keys);
    s.append(j.as_str());
    s.append("} are not expected");
    s
}

fn msg_tags_expected_str(names: &Vec<String>) -> (r: String)
    ensures
        r@ == msg_tags_expected(names.deep_view()),
{
    let mut s = String::from_str("One of the tags [");
    let j = quoted_join_str(names);
    s.append(j.as_str());
    s.append("] expected");
    s
}

fn msg_tag_unexpected_str(name: &String) -> (r: String)
    ensures
        r@ == msg_tag_unexpected(name@),
{
    let mut s = String::from_str("The tag ");
    s.append(name.as_str());
    s.append(" is not expected");
    s
}

fn msg_null_expected_str(rendered: &String) -> (r: String)
    ensures
        r@ == msg_null_expected(rendered@),
{
    let mut s = String::from_str("Null expected, ");
    s.append(rendered.as_str());
    s.append(" found");
    s
}

fn render_str(a: &Ast) -> (r: String)
    ensures
        r@ == ast_render(a@),
{
    match a {
        Ast::Scalar(_, _, _, text) => text.clone(),
        Ast::Mapping(_, _, _) => String::from_str("{...}"),
        Ast::List(_, _, _) => String::from_str("[...]"),
        Ast::Null(_, _, _) => String::from_str("null"),
    }
}

// ---------------------------------------------------------------------
// Leaf validators, executable
// ---------------------------------------------------------------------

fn run_scalar(sc: &Scalar, ast: Ast, err: &mut ErrorCollector) -> (r: Ast)
    ensures
        ({
            let sv = scalar_validate(*sc, ast@);
            r@ == sv.0 && final(err)@ == old(err)@ + sv.1
        }),
{
    let ghost sv = scalar_validate(*sc, ast@);
    match ast {
        Ast::Scalar(pos, _tag, kind, text) => {
            let ghost base = old(err)@;
            let ghost e1 = final(err)@;
            match sc.min_length {
                Some(minl) => {
                    if text.as_str().unicode_len() < minl {
                        report(err, Error::validation_error(&pos, msg_at_least_chars_str(minl)));
                    }
                },
                None => {},
            }
            let ghost mid = final(err)@;
            match sc.max_length {
                Some(maxl) => {
                    if text.as_str().unicode_len() > maxl {
                        report(err, Error::validation_error(&pos, msg_at_most_chars_str(maxl)));
                    }
                },
                None => {},
            }
            proof {
                assert(final(err)@ =~= base + sv.1);
            }
            Ast::Scalar(pos, Tag::NonSpecific, kind, text)
        },
        Ast::Null(pos, tag, kind) if sc.optional => {
            proof {
                assert(final(err)@ =~= old(err)@ + sv.1);
            }
            Ast::Null(pos, tag, kind)
        },
        other => {
            report(err, Error::validation_error(other.pos(), String::from_str(
                "Value must be scalar",
            )));
            proof {
                assert(final(err)@ =~= old(err)@ + sv.1);
            }
            other
        },
    }
}

fn default_scalar(sc: &Scalar, pos: &Pos) -> (r: Option<Ast>)
    ensures
        default_matches(r, scalar_default(*sc, pos@)),
{
    if sc.default.is_none() && sc.optional {
        Some(Ast::Null(pos.clone(), Tag::NonSpecific, NullKind::Implicit))
    } else {
        match &sc.default {
            Some(text) => Some(
                Ast::Scalar(pos.clone(), Tag::NonSpecific, ScalarKind::Quoted, text.clone()),
            ),
            None => None,
        }
    }
}

/// Whether an executable default agrees with a specified one.
pub open spec fn default_matches(r: Option<Ast>, v: Option<AstV>) -> bool {
    match (r, v) {
        (Some(a), Some(b)) => a@ == b,
        (None, None) => true,
        _ => false,
    }
}

fn run_numeric(nv: &Numeric, ast: Ast, err: &mut ErrorCollector) -> (r: Ast)
    ensures
        ({
            let sv = numeric_validate(*nv, ast@);
            r@ == sv.0 && final(err)@ == old(err)@ + sv.1
        }),
{
    let ghost sv = numeric_validate(*nv, ast@);
    match ast {
        Ast::Scalar(pos, tag, kind, text) => {
            match from_numeric(text.as_str()) {
                Some(v) => {
                    let ghost base = old(err)@;
                    match nv.min {
                        Some(m) => {
                            if v < m {
                                report(err, Error::validation_error(&pos, msg_at_least_str(m)));
                            }
                        },
                        None => {},
                    }
                    match nv.max {
                        Some(m) => {
                            if v > m {
                                report(err, Error::validation_error(&pos, msg_at_most_str(m)));
                            }
                        },
                        None => {},
                    }
                    proof {
                        assert(final(err)@ =~= base + sv.1);
                    }
                    Ast::Scalar(pos, Tag::NonSpecific, ScalarKind::Plain, i64_dec_str(v))
                },
                None => {
                    report(err, Error::validation_error(&pos, String::from_str(
                        "Value must be numeric",
                    )));
                    proof {
                        assert(final(err)@ =~= old(err)@ + sv.1);
                    }
                    Ast::Scalar(pos, tag, kind, text)
                },
            }
        },
        Ast::Null(pos, tag, kind) if nv.optional => {
            proof {
                assert(final(err)@ =~= old(err)@ + sv.1);
            }
            Ast::Null(pos, tag, kind)
        },
        other => {
            report(err, Error::validation_error(other.pos(), String::from_str(
                "Value must be scalar",
            )));
            proof {
                assert(final(err)@ =~= old(err)@ + sv.1);
            }
            other
        },
    }
}

fn default_numeric(nv: &Numeric, pos: &Pos) -> (r: Option<Ast>)
    ensures
        default_matches(r, numeric_default(*nv, pos@)),
{
    if nv.default.is_none() && nv.optional {
        Some(Ast::Null(pos.clone(), Tag::NonSpecific, NullKind::Implicit))
    } else {
        match nv.default {
            Some(v) => Some(
                Ast::Scalar(pos.clone(), Tag::NonSpecific, ScalarKind::Quoted, i64_dec_str(v)),
            ),
            None => None,
        }
    }
}

fn run_directory(d: &Directory, ast: Ast, err: &mut ErrorCollector) -> (r: Ast)
    ensures
        ({
            let sv = directory_validate(*d, ast@);
            r@ == sv.0 && final(err)@ == old(err)@ + sv.1
        }),
{
    let ghost sv = directory_validate(*d, ast@);
    match ast {
        Ast::Scalar(pos, _tag, kind, text) => {
            let ghost base = old(err)@;
            let is_abs = text.as_str().unicode_len() > 0 && text.as_str().get_char(0) == '/';
            proof {
                assert(is_abs == is_abs_path(text@));
            }
            match d.absolute {
                Some(true) => {
                    if !is_abs {
                        report(err, Error::validation_error(&pos, String::from_str(
                            "Path must be absolute",
                        )));
                    }
                },
                Some(false) => {
                    if is_abs {
                        report(err, Error::validation_error(&pos, String::from_str(
                            "Path must not be absolute",
                        )));
                    } else {
                        let segs = split_str(text.as_str(), '/');
                        let parent = String::from_str("..");
                        let ghost sg = segs.deep_view();
                        let ghost mid = err@;
                        let n = segs.len();
                        let mut i: usize = 0;
                        proof {
                            assert(sg.skip(0) =~= sg);
                            assert(err@ + parent_errs(sg, pos@) =~= mid + parent_errs(sg, pos@));
                        }
                        while i < n
                            invariant
                                0 <= i <= n,
                                n == segs@.len(),
                                sg == segs.deep_view(),
                                sg.len() == n,
                                parent@ == ".."@,
                                err@ + parent_errs(sg.skip(i as int), pos@) =~= mid + parent_errs(
                                    sg,
                                    pos@,
                                ),
                            decreases n - i,
                        {
                            let ghost pre = err@;
                            if segs[i] == parent {
                                report(err, Error::validation_error(&pos, String::from_str(
                                    "The /../ is not allowed in path",
                                )));
                            }
                            proof {
                                let tail = sg.skip(i as int);
                                assert(tail[0] == sg[i as int]);
                                assert(sg[i as int] == segs@[i as int]@);
                                assert(tail.skip(1) =~= sg.skip(i as int + 1));
                                assert(parent_errs(tail, pos@) == (if tail[0] == ".."@ {
                                    seq![
                                        ErrorV::Validation(pos@, "The /../ is not allowed in path"@),
                                    ]
                                } else {
                                    Seq::<ErrorV>::empty()
                                }) + parent_errs(tail.skip(1), pos@));
                                assert(err@ + parent_errs(sg.skip(i as int + 1), pos@) =~= pre
                                    + parent_errs(tail, pos@));
                            }
                            i += 1;
                        }
                        proof {
                            assert(parent_errs(sg.skip(n as int), pos@) == Seq::<ErrorV>::empty());
                            assert(err@ + parent_errs(sg.skip(n as int), pos@) =~= err@);
                            assert(err@ =~= mid + parent_errs(sg, pos@));
                        }
                    }
                },
                None => {},
            }
            proof {
                assert(final(err)@ =~= base + sv.1);
            }
            Ast::Scalar(pos, Tag::NonSpecific, kind, text)
        },
        Ast::Null(pos, tag, kind) if d.optional => {
            proof {
                assert(final(err)@ =~= old(err)@ + sv.1);
            }
            Ast::Null(pos, tag, kind)
        },
        other => {
            report(err, Error::validation_error(other.pos(), String::from_str("Path expected")));
            proof {
                assert(final(err)@ =~= old(err)@ + sv.1);
            }
            other
        },
    }
}

fn default_directory(d: &Directory, pos: &Pos) -> (r: Option<Ast>)
    ensures
        default_matches(r, directory_default(*d, pos@)),
{
    if d.default.is_none() && d.optional {
        Some(Ast::Null(pos.clone(), Tag::NonSpecific, NullKind::Implicit))
    } else {
        match &d.default {
            Some(text) => Some(
                Ast::Scalar(pos.clone(), Tag::NonSpecific, ScalarKind::Quoted, text.clone()),
            ),
            None => None,
        }
    }
}

fn run_nothing(ast: Ast, err: &mut ErrorCollector) -> (r: Ast)
    ensures
        ({
            let sv = nothing_validate(ast@);
            r@ == sv.0 && final(err)@ == old(err)@ + sv.1
        }),
{
    let ghost sv = nothing_validate(ast@);
    match ast {
        Ast::Null(pos, tag, kind) => {
            proof {
                assert(final(err)@ =~= old(err)@ + sv.1);
            }
            Ast::Null(pos, tag, kind)
        },
        other => {
            let rendered = render_str(&other);
            report(err, Error::parse_error(other.pos(), msg_null_expected_str(&rendered)));
            proof {
                assert(final(err)@ =~= old(err)@ + sv.1);
            }
            other
        },
    }
}

// ---------------------------------------------------------------------
// Composite validators, executable
// ---------------------------------------------------------------------

fn contains_name(decls: &Vec<(String, Schema)>, key: &String) -> (r: bool)
    ensures
        r == decl_names(decls@).contains(key@),
{
    let n = decls.len();
    let mut i: usize = 0;
    while i < n
        invariant
            0 <= i <= n,
            n == decls@.len(),
            forall|j: int| 0 <= j < i ==> decl_names(decls@)[j] != key@,
        decreases n - i,
    {
        if decls[i].0 == *key {
            proof {
                assert(decl_names(decls@)[i as int] == key@);
            }
            return true;
        }
        proof {
            assert(decl_names(decls@)[i as int] == decls@[i as int].0@);
        }
        i += 1;
    }
    false
}

fn decl_names_vec(decls: &Vec<(String, Schema)>) -> (r: Vec<String>)
    ensures
        r.deep_view() == decl_names(decls@),
{
    let n = decls.len();
    let mut out: Vec<String> = Vec::new();
    let mut i: usize = 0;
    while i < n
        invariant
            0 <= i <= n,
            n == decls@.len(),
            out@.len() == i,
            forall|j: int| 0 <= j < i ==> out.deep_view()[j] == decl_names(decls@)[j],
        decreases n - i,
    {
        let ghost prevec = out@;
        let ghost predv = out.deep_view();
        out.push(decls[i].0.clone());
        proof {
            assert forall|j: int| 0 <= j <= i implies out.deep_view()[j] == decl_names(decls@)[j] by {
                assert(out.deep_view()[j] == out@[j]@);
                assert(decl_names(decls@)[j] == decls@[j].0@);
                if j < i {
                    assert(out@[j] == prevec[j]);
                    assert(predv[j] == prevec[j]@);
                } else {
                    assert(out@[j] == decls@[i as int].0);
                }
            }
        }
        i += 1;
    }
    proof {
        assert(out.deep_view() =~= decl_names(decls@));
    }
    out
}

fn find_option(decls: &Vec<(String, Schema)>, name: &String) -> (r: Option<usize>)
    ensures
        match r {
            Some(i) => i < decls@.len() && decls@[i as int].0@ == name@ && forall|j: int|
                0 <= j < i ==> decls@[j].0@ != name@,
            None => forall|j: int| 0 <= j < decls@.len() ==> decls@[j].0@ != name@,
        },
{
    let n = decls.len();
    let mut i: usize = 0;
    while i < n
        invariant
            0 <= i <= n,
            n == decls@.len(),
            forall|j: int| 0 <= j < i ==> decls@[j].0@ != name@,
        decreases n - i,
    {
        if decls[i].0 == *name {
            return Some(i);
        }
        i += 1;
    }
    None
}

pub proof fn lemma_enum_dispatch_at(
    options: Seq<(String, Schema)>,
    input: AstV,
    name: Seq<char>,
    i: int,
)
    requires
        0 <= i < options.len(),
        options[i].0@ == name,
        forall|j: int| 0 <= j < i ==> options[j].0@ != name,
    ensures
        enum_dispatch(options, input, name) == ({
            let r = spec_validate(options[i].1, input);
            Some((r.0.with_tag(TagV::Local(name)), r.1))
        }),
    decreases i,
{
    if i > 0 {
        lemma_enum_dispatch_at(options.skip(1), input, name, i - 1);
    }
}

pub proof fn lemma_enum_dispatch_none(options: Seq<(String, Schema)>, input: AstV, name: Seq<char>)
    requires
        forall|j: int| 0 <= j < options.len() ==> options[j].0@ != name,
    ensures
        enum_dispatch(options, input, name) is None,
    decreases options.len(),
{
    if options.len() > 0 {
        lemma_enum_dispatch_none(options.skip(1), input, name);
    }
}

fn default_enum(e: &Enum, pos: &Pos) -> (r: Option<Ast>)
    ensures
        default_matches(r, enum_default(*e, pos@)),
{
    match &e.default_tag {
        Some(t) => {
            if e.optional {
                Some(Ast::Null(pos.clone(), Tag::LocalTag(t.clone()), NullKind::Implicit))
            } else {
                None
            }
        },
        None => {
            if e.optional {
                Some(Ast::Null(pos.clone(), Tag::NonSpecific, NullKind::Implicit))
            } else {
                None
            }
        },
    }
}

fn default_structure(st: &Structure, pos: &Pos) -> (r: Ast)
    ensures
        r@ == structure_default(*st, pos@),
    decreases *st, 2int, 0int,
{
    if st.optional {
        Ast::Null(pos.clone(), Tag::NonSpecific, NullKind::Implicit)
    } else {
        let ghost mm = st.members@;
        let mut out: Vec<(String, Ast)> = Vec::new();
        let n = st.members.len();
        let mut i: usize = 0;
        proof {
            assert(entries_view(out@) =~= Seq::<(Seq<char>, AstV)>::empty());
            assert(mm.skip(0) =~= mm);
        }
        while i < n
            invariant
                0 <= i <= n,
                n == st.members@.len(),
                mm == st.members@,
                members_default(mm, pos@, Seq::empty()) == members_default(
                    mm.skip(i as int),
                    pos@,
                    entries_view(out@),
                ),
            decreases n - i,
        {
            let ghost pre = entries_view(out@);
            let d = st.members[i].1.default(pos.clone());
            match d {
                Some(val) => {
                    map_insert(&mut out, st.members[i].0.clone(), val);
                },
                None => {},
            }
            proof {
                let tail = mm.skip(i as int);
                assert(tail[0] == mm[i as int]);
                assert(tail.skip(1) =~= mm.skip(i as int + 1));
            }
            i += 1;
        }
        proof {
            assert(mm.skip(n as int).len() == 0);
            assert(members_default(mm.skip(n as int), pos@, entries_view(out@)) == entries_view(
                out@,
            ));
        }
        Ast::Mapping(pos.clone(), Tag::NonSpecific, out)
    }
}

fn run_structure_entries(
    st: &Structure,
    pos: Pos,
    entries: Vec<(String, Ast)>,
    err: &mut ErrorCollector,
) -> (r: Ast)
    ensures
        ({
            let sv = structure_entries(*st, pos@, entries_view(entries@));
            r@ == sv.0 && final(err)@ == old(err)@ + sv.1
        }),
    decreases *st, 2int, 1int,
{
    let ghost es0 = entries_view(entries@);
    let ghost mm = st.members@;
    let ghost base = old(err)@;
    let mut entries = entries;
    let ghost mut acc: Seq<ErrorV> = Seq::empty();
    let n = st.members.len();
    let mut i: usize = 0;
    proof {
        assert(mm.skip(0) =~= mm);
        assert(err@ =~= base + acc);
    }
    while i < n
        invariant
            0 <= i <= n,
            n == st.members@.len(),
            mm == st.members@,
            err@ == base + acc,
            members_validate(mm, pos@, es0).0 == members_validate(
                mm.skip(i as int),
                pos@,
                entries_view(entries@),
            ).0,
            members_validate(mm, pos@, es0).1 == acc + members_validate(
                mm.skip(i as int),
                pos@,
                entries_view(entries@),
            ).1,
        decreases n - i,
    {
        let ghost esi = entries_view(entries@);
        let ghost tail = mm.skip(i as int);
        proof {
            assert(tail[0] == mm[i as int]);
            assert(tail.skip(1) =~= mm.skip(i as int + 1));
        }
        let key = &st.members[i].0;
        let v1 = map_take(&mut entries, key);
        let alias = dashed_str(key.as_str());
        let v2 = map_take(&mut entries, &alias);
        let ghost es2 = entries_view(entries@);
        let chosen: Option<Ast> = match v1 {
            Some(x) => Some(x),
            None => v2,
        };
        match chosen {
            Some(src) => {
                let ghost pre = err@;
                let ghost sr = spec_validate(mm[i as int].1, src@);
                let out = st.members[i].1.validate(src, err);
                proof {
                    acc = acc + sr.1;
                    assert(err@ =~= base + acc);
                }
                map_insert(&mut entries, key.clone(), out);
            },
            None => {
                let d = st.members[i].1.default(pos.clone());
                match d {
                    Some(val) => {
                        map_insert(&mut entries, key.clone(), val);
                    },
                    None => {
                        report(err, Error::validation_error(&pos, msg_field_expected_str(key)));
                        proof {
                            acc = acc + seq![
                                ErrorV::Validation(pos@, msg_field_expected(mm[i as int].0@)),
                            ];
                            assert(err@ =~= base + acc);
                        }
                    },
                }
            },
        }
        proof {
            assert(members_validate(mm, pos@, es0).1 =~= acc + members_validate(
                mm.skip(i as int + 1),
                pos@,
                entries_view(entries@),
            ).1);
        }
        i += 1;
    }
    let ghost fes = entries_view(entries@);
    proof {
        assert(mm.skip(n as int).len() == 0);
        assert(members_validate(mm.skip(n as int), pos@, fes).0 == fes);
        assert(members_validate(mm.skip(n as int), pos@, fes).1 == Seq::<ErrorV>::empty());
        assert(members_validate(mm, pos@, es0).0 == fes);
        assert(members_validate(mm, pos@, es0).1 =~= acc);
    }
    // Aggregate every unexpected remaining key into one error.
    let en = entries.len();
    let mut bad: Vec<String> = Vec::new();
    let ghost pred = (|k: Seq<char>|
        !(k.len() > 0 && k[0] == '_') && !decl_names(mm).contains(k));
    let mut j: usize = 0;
    proof {
        lemma_entries_view(entries@);
        reveal(Seq::filter);
        assert(es_keys(fes).take(0) =~= Seq::<Seq<char>>::empty());
        assert(es_keys(fes).take(0).filter(pred) =~= Seq::<Seq<char>>::empty());
        assert(bad.deep_view() =~= Seq::<Seq<char>>::empty());
    }
    while j < en
        invariant
            0 <= j <= en,
            en == entries@.len(),
            fes == entries_view(entries@),
            fes.len() == en,
            mm == st.members@,
            pred == (|k: Seq<char>|
                !(k.len() > 0 && k[0] == '_') && !decl_names(mm).contains(k)),
            forall|p: int| 0 <= p < en ==> fes[p] == (entries@[p].0@, entries@[p].1@),
            bad.deep_view() == es_keys(fes).take(j as int).filter(pred),
        decreases en - j,
    {
        let key = &entries[j].0;
        let under = starts_underscore(key.as_str());
        let is_member = contains_name(&st.members, key);
        let ghost pre = bad.deep_view();
        if !under && !is_member {
            bad.push(key.clone());
        }
        proof {
            reveal(Seq::filter);
            let t = es_keys(fes).take(j + 1);
            assert(t.drop_last() =~= es_keys(fes).take(j as int));
            assert(t.last() == fes[j as int].0);
            assert(fes[j as int].0 == entries@[j as int].0@);
            assert(t.filter(pred) == (if pred(t.last()) {
                t.drop_last().filter(pred).push(t.last())
            } else {
                t.drop_last().filter(pred)
            }));
            assert(bad.deep_view() =~= es_keys(fes).take(j + 1).filter(pred));
        }
        j += 1;
    }
    proof {
        assert(es_keys(fes).take(en as int) =~= es_keys(fes));
        assert(bad.deep_view() == unexpected_keys(mm, fes));
    }
    if bad.len() > 0 {
        report(err, Error::validation_error(&pos, msg_keys_unexpected_str(&bad)));
    }
    proof {
        let sv = structure_entries(*st, pos@, es0);
        assert(final(err)@ =~= base + sv.1);
    }
    Ast::Mapping(pos, Tag::NonSpecific, entries)
}

fn run_structure(st: &Structure, ast: Ast, err: &mut ErrorCollector) -> (r: Ast)
    ensures
        ({
            let sv = structure_validate(*st, ast@);
            r@ == sv.0 && final(err)@ == old(err)@ + sv.1
        }),
    decreases *st, 3int, 0int,
{
    let ghost sv = structure_validate(*st, ast@);
    match ast {
        Ast::Mapping(pos, _tag, entries) => run_structure_entries(st, pos, entries, err),
        Ast::Null(pos, _tag, NullKind::Implicit) => {
            let d = default_structure(st, &pos);
            proof {
                assert(final(err)@ =~= old(err)@ + sv.1);
            }
            d
        },
        Ast::Scalar(pos, tag, kind, text) => match &st.from_scalar {
            Some(ScalarShortcut::UnderKey(key)) => {
                let mut es: Vec<(String, Ast)> = Vec::new();
                es.push((key.clone(), Ast::Scalar(pos.clone(), Tag::NonSpecific, kind, text)));
                proof {
                    lemma_entries_view(es@);
                    assert(entries_view(es@) =~= seq![
                        (key@, AstV::Scalar(pos@, TagV::NonSpecific, kind, text@)),
                    ]);
                }
                run_structure_entries(st, pos, es, err)
            },
            None => {
                report(err, Error::validation_error(&pos, String::from_str(
                    "Value must be mapping",
                )));
                proof {
                    assert(final(err)@ =~= old(err)@ + sv.1);
                }
                Ast::Scalar(pos, tag, kind, text)
            },
        },
        other => {
            report(err, Error::validation_error(other.pos(), String::from_str(
                "Value must be mapping",
            )));
            proof {
                assert(final(err)@ =~= old(err)@ + sv.1);
            }
            other
        },
    }
}

fn run_enum_name(e: &Enum, input: Ast, name: String, err: &mut ErrorCollector) -> (r: Ast)
    ensures
        ({
            match enum_dispatch(e.options@, input@, name@) {
                Some(p) => r@ == p.0 && final(err)@ == old(err)@ + p.1,
                None => r@ == input@ && final(err)@ == old(err)@ + seq![
                    ErrorV::Validation(input@.pos(), msg_tag_unexpected(name@)),
                ],
            }
        }),
    decreases *e, 2int, 0int,
{
    match find_option(&e.options, &name) {
        Some(i) => {
            proof {
                lemma_enum_dispatch_at(e.options@, input@, name@, i as int);
            }
            let out = e.options[i].1.validate(input, err);
            out.with_tag(Tag::LocalTag(name))
        },
        None => {
            proof {
                lemma_enum_dispatch_none(e.options@, input@, name@);
            }
            report(err, Error::validation_error(input.pos(), msg_tag_unexpected_str(&name)));
            input
        },
    }
}

fn run_enum(e: &Enum, ast: Ast, err: &mut ErrorCollector) -> (r: Ast)
    ensures
        ({
            let sv = enum_validate(*e, ast@);
            r@ == sv.0 && final(err)@ == old(err)@ + sv.1
        }),
    decreases *e, 3int, 0int,
{
    let ghost sv = enum_validate(*e, ast@);
    let explicit: Option<String> = match ast.tag() {
        Tag::LocalTag(n) => Some(n.clone()),
        Tag::NonSpecific => None,
    };
    match explicit {
        Some(n) => run_enum_name(e, ast, n, err),
        None => {
            let mut cur = ast;
            if e.allow_plain {
                match cur {
                    Ast::Scalar(pos, tag, kind, text) => {
                        match find_option(&e.options, &text) {
                            Some(i) => {
                                proof {
                                    lemma_enum_dispatch_at(
                                        e.options@,
                                        AstV::Null(pos@, TagV::NonSpecific, NullKind::Implicit),
                                        text@,
                                        i as int,
                                    );
                                }
                                let nul = Ast::Null(pos, Tag::NonSpecific, NullKind::Implicit);
                                let out = e.options[i].1.validate(nul, err);
                                return out.with_tag(Tag::LocalTag(text));
                            },
                            None => {
                                proof {
                                    lemma_enum_dispatch_none(
                                        e.options@,
                                        AstV::Null(pos@, TagV::NonSpecific, NullKind::Implicit),
                                        text@,
                                    );
                                }
                                cur = Ast::Scalar(pos, tag, kind, text);
                            },
                        }
                    },
                    other => {
                        cur = other;
                    },
                }
            }
            match &e.default_tag {
                Some(t) => run_enum_name(e, cur, t.clone(), err),
                None => {
                    let names = decl_names_vec(&e.options);
                    report(err, Error::validation_error(cur.pos(), msg_tags_expected_str(&names)));
                    cur
                },
            }
        },
    }
}

fn run_mapping_entries(m: &Mapping, entries: Vec<(String, Ast)>, err: &mut ErrorCollector) -> (r:
    Vec<(String, Ast)>)
    ensures
        ({
            let f = mapping_entries(*m, entries_view(entries@), Seq::empty());
            entries_view(r@) == f.0 && final(err)@ == old(err)@ + f.1
        }),
    decreases *m, 2int, 0int,
{
    let ghost es0 = entries_view(entries@);
    let ghost base = old(err)@;
    let ghost mut acc: Seq<ErrorV> = Seq::empty();
    let mut rest = entries;
    let mut out: Vec<(String, Ast)> = Vec::new();
    proof {
        assert(entries_view(out@) =~= Seq::<(Seq<char>, AstV)>::empty());
        assert(err@ =~= base + acc);
    }
    while rest.len() > 0
        invariant
            err@ == base + acc,
            mapping_entries(*m, es0, Seq::empty()).0 == mapping_entries(
                *m,
                entries_view(rest@),
                entries_view(out@),
            ).0,
            mapping_entries(*m, es0, Seq::empty()).1 == acc + mapping_entries(
                *m,
                entries_view(rest@),
                entries_view(out@),
            ).1,
        decreases rest@.len(),
    {
        let ghost esr = entries_view(rest@);
        let ghost before = rest@;
        proof {
            lemma_entries_view(before);
            assert(esr[0] == (before[0].0@, before[0].1@));
        }
        let (k, v) = rest.remove(0);
        proof {
            lemma_entries_view(rest@);
            assert(rest@ =~= before.skip(1));
            assert(entries_view(rest@) =~= esr.skip(1));
        }
        let kpos = v.pos().clone();
        let knode = Ast::Scalar(kpos, Tag::NonSpecific, ScalarKind::Plain, k.clone());
        let ghost kr = spec_validate(*m.key_element, knode@);
        let kout = m.key_element.validate(knode, err);
        let nk: String = match kout {
            Ast::Scalar(_, _, _, text) => text,
            _ => k,
        };
        let ghost vr = spec_validate(*m.value_element, v@);
        let vout = m.value_element.validate(v, err);
        map_insert(&mut out, nk, vout);
        proof {
            acc = acc + kr.1 + vr.1;
            assert(err@ =~= base + acc);
            assert(mapping_entries(*m, es0, Seq::empty()).1 =~= acc + mapping_entries(
                *m,
                entries_view(rest@),
                entries_view(out@),
            ).1);
        }
    }
    proof {
        assert(entries_view(rest@).len() == 0);
        assert(mapping_entries(*m, entries_view(rest@), entries_view(out@)).0 == entries_view(
            out@,
        ));
        assert(mapping_entries(*m, es0, Seq::empty()).1 =~= acc);
    }
    out
}

fn run_mapping(m: &Mapping, ast: Ast, err: &mut ErrorCollector) -> (r: Ast)
    ensures
        ({
            let sv = mapping_validate(*m, ast@);
            r@ == sv.0 && final(err)@ == old(err)@ + sv.1
        }),
    decreases *m, 3int, 0int,
{
    let ghost sv = mapping_validate(*m, ast@);
    match ast {
        Ast::Mapping(pos, _tag, entries) => {
            let out = run_mapping_entries(m, entries, err);
            Ast::Mapping(pos, Tag::NonSpecific, out)
        },
        Ast::Null(pos, _tag, NullKind::Implicit) => {
            let out: Vec<(String, Ast)> = Vec::new();
            proof {
                assert(entries_view(out@) =~= Seq::<(Seq<char>, AstV)>::empty());
                assert(final(err)@ =~= old(err)@ + sv.1);
            }
            Ast::Mapping(pos, Tag::NonSpecific, out)
        },
        Ast::Scalar(pos, tag, kind, text) => match &m.from_scalar {
            Some(ScalarShortcut::UnderKey(key)) => {
                let mut es: Vec<(String, Ast)> = Vec::new();
                es.push((key.clone(), Ast::Scalar(pos.clone(), Tag::NonSpecific, kind, text)));
                proof {
                    lemma_entries_view(es@);
                    assert(entries_view(es@) =~= seq![
                        (key@, AstV::Scalar(pos@, TagV::NonSpecific, kind, text@)),
                    ]);
                }
                let out = run_mapping_entries(m, es, err);
                Ast::Mapping(pos, Tag::NonSpecific, out)
            },
            None => {
                report(err, Error::validation_error(&pos, String::from_str(
                    "Value must be mapping",
                )));
                proof {
                    assert(final(err)@ =~= old(err)@ + sv.1);
                }
                Ast::Scalar(pos, tag, kind, text)
            },
        },
        other => {
            report(err, Error::validation_error(other.pos(), String::from_str(
                "Value must be mapping",
            )));
            proof {
                assert(final(err)@ =~= old(err)@ + sv.1);
            }
            other
        },
    }
}

fn run_sequence_items(q: &Sequence, items: Vec<Ast>, err: &mut ErrorCollector) -> (r: Vec<Ast>)
    ensures
        ({
            let f = sequence_items(*q, items_view(items@));
            items_view(r@) == f.0 && final(err)@ == old(err)@ + f.1
        }),
    decreases *q, 2int, 0int,
{
    let ghost it0 = items_view(items@);
    let ghost base = old(err)@;
    let ghost mut acc: Seq<ErrorV> = Seq::empty();
    let mut rest = items;
    let mut out: Vec<Ast> = Vec::new();
    proof {
        assert(items_view(out@) =~= Seq::<AstV>::empty());
        assert(err@ =~= base + acc);
        assert(sequence_items(*q, it0).0 =~= items_view(out@) + sequence_items(
            *q,
            items_view(rest@),
        ).0);
    }
    while rest.len() > 0
        invariant
            err@ == base + acc,
            sequence_items(*q, it0).0 == items_view(out@) + sequence_items(
                *q,
                items_view(rest@),
            ).0,
            sequence_items(*q, it0).1 == acc + sequence_items(*q, items_view(rest@)).1,
        decreases rest@.len(),
    {
        let ghost itr = items_view(rest@);
        proof {
            lemma_items_view(rest@);
            assert(itr[0] == rest@[0]@);
        }
        let v = rest.remove(0);
        proof {
            lemma_items_view(rest@);
            assert(items_view(rest@) =~= itr.skip(1));
        }
        let ghost vr = spec_validate(*q.element, v@);
        let vout = q.element.validate(v, err);
        let ghost preout = items_view(out@);
        proof {
            lemma_items_view(out@);
        }
        out.push(vout);
        proof {
            lemma_items_view(out@);
            assert(items_view(out@) =~= preout.push(vr.0));
            acc = acc + vr.1;
            assert(err@ =~= base + acc);
            assert(spec_validate(*q.element, itr[0]) == vr);
            assert(sequence_items(*q, itr).0 == seq![vr.0] + sequence_items(*q, itr.skip(1)).0);
            assert(sequence_items(*q, itr).1 == vr.1 + sequence_items(*q, itr.skip(1)).1);
            assert(sequence_items(*q, it0).0 =~= items_view(out@) + sequence_items(
                *q,
                items_view(rest@),
            ).0);
            assert(sequence_items(*q, it0).1 =~= acc + sequence_items(*q, items_view(rest@)).1);
        }
    }
    proof {
        assert(items_view(rest@).len() == 0);
        assert(sequence_items(*q, items_view(rest@)).0 == Seq::<AstV>::empty());
        assert(sequence_items(*q, it0).0 =~= items_view(out@));
        assert(sequence_items(*q, it0).1 =~= acc);
    }
    out
}

fn run_sequence(q: &Sequence, ast: Ast, err: &mut ErrorCollector) -> (r: Ast)
    ensures
        ({
            let sv = sequence_validate(*q, ast@);
            r@ == sv.0 && final(err)@ == old(err)@ + sv.1
        }),
    decreases *q, 3int, 0int,
{
    let ghost sv = sequence_validate(*q, ast@);
    match ast {
        Ast::List(pos, _tag, items) => {
            let out = run_sequence_items(q, items, err);
            Ast::List(pos, Tag::NonSpecific, out)
        },
        Ast::Null(pos, _tag, NullKind::Implicit) => {
            let out: Vec<Ast> = Vec::new();
            proof {
                assert(items_view(out@) =~= Seq::<AstV>::empty());
                assert(final(err)@ =~= old(err)@ + sv.1);
            }
            Ast::List(pos, Tag::NonSpecific, out)
        },
        Ast::Scalar(pos, tag, kind, text) => match &q.from_scalar {
            Some(ListShortcut::SplitOn(sep)) => {
                let sep = *sep;
                let pieces = split_str(text.as_str(), sep);
                let ghost si = split_items(pos@, text@, sep);
                let pn = pieces.len();
                let mut items: Vec<Ast> = Vec::new();
                let mut i: usize = 0;
                proof {
                    assert(items_view(items@) =~= si.take(0));
                }
                while i < pn
                    invariant
                        0 <= i <= pn,
                        pn == pieces@.len(),
                        si == split_items(pos@, text@, sep),
                        si.len() == pn,
                        pieces.deep_view() == split_chars(text@, sep),
                        items_view(items@) == si.take(i as int),
                    decreases pn - i,
                {
                    let ghost pre = items_view(items@);
                    proof {
                        lemma_items_view(items@);
                    }
                    items.push(
                        Ast::Scalar(pos.clone(), Tag::NonSpecific, ScalarKind::Plain,
                            pieces[i].clone()),
                    );
                    proof {
                        lemma_items_view(items@);
                        assert(items_view(items@) =~= pre.push(
                            AstV::Scalar(pos@, TagV::NonSpecific, ScalarKind::Plain,
                                pieces@[i as int]@),
                        ));
                        assert(pieces@[i as int]@ == pieces.deep_view()[i as int]);
                        assert(items_view(items@) =~= si.take(i as int + 1));
                    }
                    i += 1;
                }
                proof {
                    assert(si.take(pn as int) =~= si);
                }
                let out = run_sequence_items(q, items, err);
                Ast::List(pos, Tag::NonSpecific, out)
            },
            None => {
                report(err, Error::validation_error(&pos, String::from_str(
                    "Value must be sequence",
                )));
                proof {
                    assert(final(err)@ =~= old(err)@ + sv.1);
                }
                Ast::Scalar(pos, tag, kind, text)
            },
        },
        other => {
            report(err, Error::validation_error(other.pos(), String::from_str(
                "Value must be sequence",
            )));
            proof {
                assert(final(err)@ =~= old(err)@ + sv.1);
            }
            other
        },
    }
}

impl Schema {
    /// Check and coerce `ast` against this schema node: report every
    /// violation into `err` and return a structurally usable tree.
    pub fn validate(&self, ast: Ast, err: &mut ErrorCollector) -> (r: Ast)
        ensures
            ({
                let sv = spec_validate(*self, ast@);
                r@ == sv.0 && final(err)@ == old(err)@ + sv.1
            }),
        decreases *self, 1int, 0int,
    {
        match self {
            Schema::Scalar(sc) => run_scalar(sc, ast, err),
            Schema::Numeric(nv) => run_numeric(nv, ast, err),
            Schema::Directory(d) => run_directory(d, ast, err),
            Schema::Structure(st) => run_structure(st, ast, err),
            Schema::Enum(e) => run_enum(e, ast, err),
            Schema::Mapping(m) => run_mapping(m, ast, err),
            Schema::Sequence(q) => run_sequence(q, ast, err),
            Schema::Anything(_) => {
                proof {
                    assert(final(err)@ =~= old(err)@ + Seq::<ErrorV>::empty());
                }
                ast
            },
            Schema::Nothing(_) => run_nothing(ast, err),
        }
    }

    /// Synthesize a conforming tree at `pos`, if this node has a default.
    pub fn default(&self, pos: Pos) -> (r: Option<Ast>)
        ensures
            default_matches(r, spec_default(*self, pos@)),
        decreases *self, 0int, 0int,
    {
        match self {
            Schema::Scalar(sc) => default_scalar(sc, &pos),
            Schema::Numeric(nv) => default_numeric(nv, &pos),
            Schema::Directory(d) => default_directory(d, &pos),
            Schema::Structure(st) => Some(default_structure(st, &pos)),
            Schema::Enum(e) => default_enum(e, &pos),
            Schema::Mapping(_) => {
                let out: Vec<(String, Ast)> = Vec::new();
                proof {
                    assert(entries_view(out@) =~= Seq::<(Seq<char>, AstV)>::empty());
                }
                Some(Ast::Mapping(pos, Tag::NonSpecific, out))
            },
            Schema::Sequence(_) => {
                let out: Vec<Ast> = Vec::new();
                proof {
                    assert(items_view(out@) =~= Seq::<AstV>::empty());
                }
                Some(Ast::List(pos, Tag::NonSpecific, out))
            },
            Schema::Anything(_) => None,
            Schema::Nothing(_) => None,
        }
    }
}

// ---------------------------------------------------------------------
// The validator capability and the builders
// ---------------------------------------------------------------------

/// The capability every schema node offers: validate an input tree, or
/// synthesize a default.  [`as_schema`](Validator::as_schema) names the
/// schema node a value denotes; both operations are fully specified by
/// [`spec_validate`] and [`spec_default`] over that node.
pub trait Validator: Sized {
    /// The schema node this validator denotes.
    spec fn as_schema(&self) -> Schema;

    /// The schema node itself, consuming the builder.
    fn into_schema(self) -> (r: Schema)
        ensures
            r == self.as_schema(),
    ;

    /// Check and coerce `ast`, reporting every violation found into
    /// `err`; always returns a structurally usable tree.
    fn validate(&self, ast: Ast, err: &mut ErrorCollector) -> (r: Ast)
        ensures
            ({
                let sv = spec_validate(self.as_schema(), ast@);
                r@ == sv.0 && final(err)@ == old(err)@ + sv.1
            }),
    ;

    /// Synthesize a conforming tree at `pos`; `None` means the value is
    /// required and must be present in the input.
    fn default(&self, pos: Pos) -> (r: Option<Ast>)
        ensures
            default_matches(r, spec_default(self.as_schema(), pos@)),
    ;
}

impl Validator for Scalar {
    open spec fn as_schema(&self) -> Schema {
        Schema::Scalar(*self)
    }

    fn into_schema(self) -> (r: Schema) {
        Schema::Scalar(self)
    }

    fn validate(&self, ast: Ast, err: &mut ErrorCollector) -> (r: Ast) {
        run_scalar(self, ast, err)
    }

    fn default(&self, pos: Pos) -> (r: Option<Ast>) {
        default_scalar(self, &pos)
    }
}

impl Validator for Numeric {
    open spec fn as_schema(&self) -> Schema {
        Schema::Numeric(*self)
    }

    fn into_schema(self) -> (r: Schema) {
        Schema::Numeric(self)
    }

    fn validate(&self, ast: Ast, err: &mut ErrorCollector) -> (r: Ast) {
        run_numeric(self, ast, err)
    }

    fn default(&self, pos: Pos) -> (r: Option<Ast>) {
        default_numeric(self, &pos)
    }
}

impl Validator for Directory {
    open spec fn as_schema(&self) -> Schema {
        Schema::Directory(*self)
    }

    fn into_schema(self) -> (r: Schema) {
        Schema::Directory(self)
    }

    fn validate(&self, ast: Ast, err: &mut ErrorCollector) -> (r: Ast) {
        run_directory(self, ast, err)
    }

    fn default(&self, pos: Pos) -> (r: Option<Ast>) {
        default_directory(self, &pos)
    }
}

impl Validator for Structure {
    open spec fn as_schema(&self) -> Schema {
        Schema::Structure(*self)
    }

    fn into_schema(self) -> (r: Schema) {
        Schema::Structure(self)
    }

    fn validate(&self, ast: Ast, err: &mut ErrorCollector) -> (r: Ast) {
        run_structure(self, ast, err)
    }

    fn default(&self, pos: Pos) -> (r: Option<Ast>) {
        Some(default_structure(self, &pos))
    }
}

impl Validator for Enum {
    open spec fn as_schema(&self) -> Schema {
        Schema::Enum(*self)
    }

    fn into_schema(self) -> (r: Schema) {
        Schema::Enum(self)
    }

    fn validate(&self, ast: Ast, err: &mut ErrorCollector) -> (r: Ast) {
        run_enum(self, ast, err)
    }

    fn default(&self, pos: Pos) -> (r: Option<Ast>) {
        default_enum(self, &pos)
    }
}

impl Validator for Mapping {
    open spec fn as_schema(&self) -> Schema {
        Schema::Mapping(*self)
    }

    fn into_schema(self) -> (r: Schema) {
        Schema::Mapping(self)
    }

    fn validate(&self, ast: Ast, err: &mut ErrorCollector) -> (r: Ast) {
        run_mapping(self, ast, err)
    }

    fn default(&self, pos: Pos) -> (r: Option<Ast>) {
        let out: Vec<(String, Ast)> = Vec::new();
        proof {
            assert(entries_view(out@) =~= Seq::<(Seq<char>, AstV)>::empty());
        }
        Some(Ast::Mapping(pos, Tag::NonSpecific, out))
    }
}

impl Validator for Sequence {
    open spec fn as_schema(&self) -> Schema {
        Schema::Sequence(*self)
    }

    fn into_schema(self) -> (r: Schema) {
        Schema::Sequence(self)
    }

    fn validate(&self, ast: Ast, err: &mut ErrorCollector) -> (r: Ast) {
        run_sequence(self, ast, err)
    }

    fn default(&self, pos: Pos) -> (r: Option<Ast>) {
        let out: Vec<Ast> = Vec::new();
        proof {
            assert(items_view(out@) =~= Seq::<AstV>::empty());
        }
        Some(Ast::List(pos, Tag::NonSpecific, out))
    }
}

impl Validator for Anything {
    open spec fn as_schema(&self) -> Schema {
        Schema::Anything(Anything)
    }

    fn into_schema(self) -> (r: Schema) {
        Schema::Anything(self)
    }

    fn validate(&self, ast: Ast, err: &mut ErrorCollector) -> (r: Ast) {
        proof {
            assert(final(err)@ =~= old(err)@ + Seq::<ErrorV>::empty());
        }
        ast
    }

    fn default(&self, _pos: Pos) -> (r: Option<Ast>) {
        None
    }
}

impl Validator for Nothing {
    open spec fn as_schema(&self) -> Schema {
        Schema::Nothing(Nothing)
    }

    fn into_schema(self) -> (r: Schema) {
        Schema::Nothing(self)
    }

    fn validate(&self, ast: Ast, err: &mut ErrorCollector) -> (r: Ast) {
        run_nothing(ast, err)
    }

    fn default(&self, _pos: Pos) -> (r: Option<Ast>) {
        None
    }
}

impl Scalar {
    /// A required scalar with no constraints.
    pub fn new() -> (r: Scalar)
        ensures
            !r.optional && r.default is None && r.min_length is None && r.max_length is None,
    {
        Scalar { optional: false, default: None, min_length: None, max_length: None }
    }

    /// Accept a null value in place of this scalar.
    pub fn optional(self) -> (r: Scalar)
        ensures
            r == (Scalar { optional: true, ..self }),
    {
        Scalar { optional: true, ..self }
    }

    /// Use the given text when the value is absent.
    pub fn default(self, value: &str) -> (r: Scalar)
        ensures
            r.optional == self.optional,
            r.min_length == self.min_length,
            r.max_length == self.max_length,
            r.default matches Some(d) && d@ == value@,
    {
        Scalar { default: Some(value.to_owned()), ..self }
    }

    /// Require at least this many characters.
    pub fn min_length(self, len: usize) -> (r: Scalar)
        ensures
            r == (Scalar { min_length: Some(len), ..self }),
    {
        Scalar { min_length: Some(len), ..self }
    }

    /// Require at most this many characters.
    pub fn max_length(self, len: usize) -> (r: Scalar)
        ensures
            r == (Scalar { max_length: Some(len), ..self }),
    {
        Scalar { max_length: Some(len), ..self }
    }
}

impl Numeric {
    /// A required integer with no constraints.
    pub fn new() -> (r: Numeric)
        ensures
            !r.optional && r.default is None && r.min is None && r.max is None,
    {
        Numeric { optional: false, default: None, min: None, max: None }
    }

    /// Accept a null value in place of this number.
    pub fn optional(self) -> (r: Numeric)
        ensures
            r == (Numeric { optional: true, ..self }),
    {
        Numeric { optional: true, ..self }
    }

    /// Use the given integer when the value is absent.
    pub fn default(self, value: i64) -> (r: Numeric)
        ensures
            r == (Numeric { default: Some(value), ..self }),
    {
        Numeric { default: Some(value), ..self }
    }

    /// Require at least this value.
    pub fn min(self, val: i64) -> (r: Numeric)
        ensures
            r == (Numeric { min: Some(val), ..self }),
    {
        Numeric { min: Some(val), ..self }
    }

    /// Require at most this value.
    pub fn max(self, val: i64) -> (r: Numeric)
        ensures
            r == (Numeric { max: Some(val), ..self }),
    {
        Numeric { max: Some(val), ..self }
    }
}

impl Directory {
    /// A required path with no constraints.
    pub fn new() -> (r: Directory)
        ensures
            !r.optional && r.default is None && r.absolute is None,
    {
        Directory { optional: false, default: None, absolute: None }
    }

    /// Accept a null value in place of this path.
    pub fn optional(self) -> (r: Directory)
        ensures
            r == (Directory { optional: true, ..self }),
    {
        Directory { optional: true, ..self }
    }

    /// Use the given path when the value is absent.
    pub fn default(self, value: &str) -> (r: Directory)
        ensures
            r.optional == self.optional,
            r.absolute == self.absolute,
            r.default matches Some(d) && d@ == value@,
    {
        Directory { default: Some(value.to_owned()), ..self }
    }

    /// Require the path to be absolute (`true`), or relative and free of
    /// parent-directory components (`false`).
    pub fn is_absolute(self, value: bool) -> (r: Directory)
        ensures
            r == (Directory { absolute: Some(value), ..self }),
    {
        Directory { absolute: Some(value), ..self }
    }
}

impl Structure {
    /// A record with no members yet.
    pub fn new() -> (r: Structure)
        ensures
            r.members@ =~= Seq::<(String, Schema)>::empty(),
            !r.optional,
            r.from_scalar is None,
    {
        Structure { members: Vec::new(), optional: false, from_scalar: None }
    }

    /// Declare one more member field with its validator.
    pub fn member<V: Validator>(self, name: &str, value: V) -> (r: Structure)
        ensures
            r.optional == self.optional,
            r.from_scalar == self.from_scalar,
            r.members@.len() == self.members@.len() + 1,
            r.members@.take(self.members@.len() as int) == self.members@,
            r.members@.last().0@ == name@,
            r.members@.last().1 == value.as_schema(),
    {
        let ghost pre = self.members@;
        let mut m = self;
        m.members.push((name.to_owned(), value.into_schema()));
        proof {
            assert(m.members@.take(pre.len() as int) =~= pre);
        }
        m
    }

    /// Accept an implicit null in place of this record.
    pub fn optional(self) -> (r: Structure)
        ensures
            r.members@ == self.members@,
            r.optional,
            r.from_scalar == self.from_scalar,
    {
        Structure { optional: true, ..self }
    }

    /// Desugar a bare scalar through the given shortcut before checking.
    pub fn parser(self, f: ScalarShortcut) -> (r: Structure)
        ensures
            r.members@ == self.members@,
            r.optional == self.optional,
            r.from_scalar == Some(f),
    {
        Structure { from_scalar: Some(f), ..self }
    }
}

impl Enum {
    /// A sum type with no options yet.
    pub fn new() -> (r: Enum)
        ensures
            r.options@ =~= Seq::<(String, Schema)>::empty(),
            !r.optional,
            r.default_tag is None,
            !r.allow_plain,
    {
        Enum { options: Vec::new(), optional: false, default_tag: None, allow_plain: false }
    }

    /// Accept a null value in place of this enum.
    pub fn optional(self) -> (r: Enum)
        ensures
            r.options@ == self.options@,
            r.optional,
            r.default_tag == self.default_tag,
            r.allow_plain == self.allow_plain,
    {
        Enum { optional: true, ..self }
    }

    /// Let a bare scalar equal to an option name select that option with
    /// no payload.  Incompatible with a default tag.
    pub fn allow_plain(self) -> (r: Enum)
        requires
            self.default_tag is None,
        ensures
            r.options@ == self.options@,
            r.optional == self.optional,
            r.default_tag is None,
            r.allow_plain,
    {
        Enum { allow_plain: true, ..self }
    }

    /// Declare one more option with its payload validator.
    pub fn option<V: Validator>(self, name: &str, value: V) -> (r: Enum)
        ensures
            r.optional == self.optional,
            r.default_tag == self.default_tag,
            r.allow_plain == self.allow_plain,
            r.options@.len() == self.options@.len() + 1,
            r.options@.take(self.options@.len() as int) == self.options@,
            r.options@.last().0@ == name@,
            r.options@.last().1 == value.as_schema(),
    {
        let ghost pre = self.options@;
        let mut e = self;
        e.options.push((name.to_owned(), value.into_schema()));
        proof {
            assert(e.options@.take(pre.len() as int) =~= pre);
        }
        e
    }

    /// Select the given option when the input carries no tag.
    /// Incompatible with plain-scalar matching.
    pub fn default_tag(self, name: &str) -> (r: Enum)
        requires
            !self.allow_plain,
        ensures
            r.options@ == self.options@,
            r.optional == self.optional,
            r.default_tag matches Some(t) && t@ == name@,
            !r.allow_plain,
    {
        Enum { default_tag: Some(name.to_owned()), ..self }
    }
}

impl Mapping {
    /// A dictionary with the given key and value validators.
    pub fn new<V: Validator, W: Validator>(key: V, val: W) -> (r: Mapping)
        ensures
            *r.key_element == key.as_schema(),
            *r.value_element == val.as_schema(),
            r.from_scalar is None,
    {
        Mapping {
            key_element: Box::new(key.into_schema()),
            value_element: Box::new(val.into_schema()),
            from_scalar: None,
        }
    }

    /// Desugar a bare scalar through the given shortcut before checking.
    pub fn parser(self, f: ScalarShortcut) -> (r: Mapping)
        ensures
            *r.key_element == *self.key_element,
            *r.value_element == *self.value_element,
            r.from_scalar == Some(f),
    {
        Mapping { from_scalar: Some(f), ..self }
    }
}

impl Sequence {
    /// A list with the given element validator.
    pub fn new<V: Validator>(el: V) -> (r: Sequence)
        ensures
            *r.element == el.as_schema(),
            r.from_scalar is None,
    {
        Sequence { element: Box::new(el.into_schema()), from_scalar: None }
    }

    /// Desugar a bare scalar through the given shortcut before checking.
    pub fn parser(self, f: ListShortcut) -> (r: Sequence)
        ensures
            *r.element == *self.element,
            r.from_scalar == Some(f),
    {
        Sequence { from_scalar: Some(f), ..self }
    }
}

} // verus!

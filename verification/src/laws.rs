//! General laws of the validator framework, stated and proved over the
//! specification functions [`spec_validate`] and [`spec_default`].

use vstd::prelude::*;
use crate::ast::{AstV, PosV, TagV, ScalarKind, NullKind};
use crate::errors::ErrorV;
use crate::text::{dashed, int_dec};
use crate::numerals::{from_numeric_spec, lemma_dec_round_trip};
use crate::validate::{
    Schema, Structure, Enum, Nothing, spec_validate, spec_default, lemma_enum_dispatch_at,
    lemma_enum_dispatch_none, msg_keys_unexpected, members_validate, members_default,
    unexpected_keys, decl_names, es_keys, is_abs_path, parent_errs,
};
use crate::text::split_chars;

verus! {

/// No segment of the path walks up to a parent directory.
pub open spec fn no_parent_segs(segs: Seq<Seq<char>>) -> bool {
    forall|i: int| 0 <= i < segs.len() ==> segs[i] != ".."@
}

/// A scalar default that satisfies its own length bounds.
pub open spec fn scalar_default_ok(sc: crate::validate::Scalar) -> bool {
    match sc.default {
        Some(t) => (match sc.min_length {
            Some(n) => t@.len() >= n,
            None => true,
        }) && (match sc.max_length {
            Some(n) => t@.len() <= n,
            None => true,
        }),
        None => true,
    }
}

/// A numeric default that satisfies its own range bounds.
pub open spec fn numeric_default_ok(nv: crate::validate::Numeric) -> bool {
    match nv.default {
        Some(v) => (match nv.min {
            Some(m) => m <= v,
            None => true,
        }) && (match nv.max {
            Some(m) => v <= m,
            None => true,
        }),
        None => true,
    }
}

/// A path default that satisfies its own absoluteness constraint.
pub open spec fn directory_default_ok(d: crate::validate::Directory) -> bool {
    match d.default {
        Some(t) => match d.absolute {
            Some(true) => is_abs_path(t@),
            Some(false) => !is_abs_path(t@) && no_parent_segs(split_chars(t@, '/')),
            None => true,
        },
        None => true,
    }
}

/// A schema made purely of optional members: every leaf accepts a null
/// in place of a value and any explicit default it carries satisfies
/// its own constraints; every record is itself optional; dictionaries
/// and lists carry such members.  Sum types are excluded: a required
/// tag has no null reading, and even an optional one rejects its own
/// untagged null default.
pub open spec fn all_optional(s: Schema) -> bool
    decreases s, 1int,
{
    match s {
        Schema::Scalar(sc) => sc.optional && scalar_default_ok(sc),
        Schema::Numeric(nv) => nv.optional && numeric_default_ok(nv),
        Schema::Directory(d) => d.optional && directory_default_ok(d),
        Schema::Structure(st) => (st.optional || member_names_ok(st.members@))
            && all_optional_members(st.members@),
        Schema::Enum(_) => false,
        Schema::Mapping(m) => all_optional(*m.key_element) && all_optional(*m.value_element),
        Schema::Sequence(q) => all_optional(*q.element),
        Schema::Anything(_) => false,
        Schema::Nothing(_) => false,
    }
}

proof fn lemma_no_parent_errs(segs: Seq<Seq<char>>, pos: PosV)
    requires
        no_parent_segs(segs),
    ensures
        parent_errs(segs, pos) == Seq::<ErrorV>::empty(),
    decreases segs.len(),
{
    if segs.len() > 0 {
        assert(forall|i: int| 0 <= i < segs.skip(1).len() ==> segs.skip(1)[i] == segs[i + 1]);
        lemma_no_parent_errs(segs.skip(1), pos);
        assert(parent_errs(segs, pos) =~= Seq::<ErrorV>::empty());
    }
}

/// Every declared member is itself built purely from optional members.
pub open spec fn all_optional_members(members: Seq<(String, Schema)>) -> bool
    decreases members, 0int,
{
    if members.len() == 0 {
        true
    } else {
        all_optional(members[0].1) && all_optional_members(members.skip(1))
    }
}

/// Distinct member names, no member name equal to another member's
/// hyphenated alias.
pub open spec fn member_names_ok(members: Seq<(String, Schema)>) -> bool {
    (forall|i: int, j: int| 0 <= i < j < members.len() ==> members[i].0@ != members[j].0@)
        && (forall|i: int, j: int|
        0 <= i < members.len() && 0 <= j < members.len() && i != j ==> dashed(members[i].0@)
            != members[j].0@)
}

proof fn lemma_filter_none(s: Seq<Seq<char>>, pred: spec_fn(Seq<char>) -> bool)
    requires
        forall|j: int| 0 <= j < s.len() ==> !pred(s[j]),
    ensures
        s.filter(pred) == Seq::<Seq<char>>::empty(),
    decreases s.len(),
{
    reveal(Seq::filter);
    if s.len() > 0 {
        assert(forall|j: int| 0 <= j < s.drop_last().len() ==> s.drop_last()[j] == s[j]);
        lemma_filter_none(s.drop_last(), pred);
        assert(!pred(s.last()));
    }
}

/// The default entries a record builds: sorted, holding every member's
/// own default under its name, and no key from anywhere else.
proof fn lemma_build_defaults(
    members: Seq<(String, Schema)>,
    pos: PosV,
    acc: Seq<(Seq<char>, AstV)>,
)
    requires
        all_optional_members(members),
        forall|i: int, j: int| 0 <= i < j < members.len() ==> members[i].0@ != members[j].0@,
        crate::ast::es_sorted(acc),
    ensures
        crate::ast::es_sorted(members_default(members, pos, acc)),
        forall|i: int|
            0 <= i < members.len() ==> crate::ast::es_find(
                members_default(members, pos, acc),
                members[i].0@,
            ) == Some(spec_default(members[i].1, pos).unwrap()),
        forall|k: Seq<char>|
            crate::ast::es_find(members_default(members, pos, acc), k) is Some
                ==> crate::ast::es_find(acc, k) is Some || (exists|i: int|
                0 <= i < members.len() && members[i].0@ == k),
        forall|k: Seq<char>|
            (forall|i: int| 0 <= i < members.len() ==> members[i].0@ != k)
                ==> crate::ast::es_find(members_default(members, pos, acc), k)
                == crate::ast::es_find(acc, k),
    decreases members, 0int, 0int,
{
    if members.len() > 0 {
        let rest = members.skip(1);
        let n0 = members[0].0@;
        let child = members[0].1;
        lemma_default_totality(child, pos);
        let d0 = spec_default(child, pos).unwrap();
        let acc2 = crate::ast::es_insert(acc, n0, d0);
        crate::ast::lemma_es_insert_sorted(acc, n0, d0);
        crate::ast::lemma_es_insert_find_same(acc, n0, d0);
        assert(forall|i: int| 0 <= i < rest.len() ==> rest[i] == members[i + 1]);
        lemma_build_defaults(rest, pos, acc2);
        let result = members_default(members, pos, acc);
        assert(result == members_default(rest, pos, acc2));
        // member 0's entry survives: no later member reuses its name
        assert(forall|p: int| 0 <= p < rest.len() ==> rest[p].0@ != n0);
        assert(crate::ast::es_find(result, n0) == crate::ast::es_find(acc2, n0));
        assert forall|i: int|
            0 <= i < members.len() implies crate::ast::es_find(result, members[i].0@) == Some(
            spec_default(members[i].1, pos).unwrap(),
        ) by {
            if i > 0 {
                assert(rest[i - 1] == members[i]);
                assert(crate::ast::es_find(result, rest[i - 1].0@) == Some(
                    spec_default(rest[i - 1].1, pos).unwrap(),
                ));
            }
        }
        // other keys pass through the one insertion
        assert forall|k: Seq<char>|
            (forall|i: int| 0 <= i < members.len() ==> members[i].0@ != k) implies
            crate::ast::es_find(result, k) == crate::ast::es_find(acc, k) by {
            crate::ast::lemma_es_insert_find_other(acc, n0, d0, k);
        }
        assert forall|k: Seq<char>|
            crate::ast::es_find(result, k) is Some implies crate::ast::es_find(acc, k) is Some
            || (exists|i: int| 0 <= i < members.len() && members[i].0@ == k) by {
            if !(exists|i: int| 0 <= i < rest.len() && rest[i].0@ == k) {
                assert(crate::ast::es_find(acc2, k) is Some);
                if k != n0 {
                    crate::ast::lemma_es_insert_find_other(acc, n0, d0, k);
                } else {
                    assert(members[0].0@ == k);
                }
            } else {
                let i = choose|i: int| 0 <= i < rest.len() && rest[i].0@ == k;
                assert(members[i + 1].0@ == k);
            }
        }
    }
}

/// A clean walk over a record's members: when every member finds its
/// own default in the entries and no alias spelling is present, the
/// member pass reports nothing, keeps the entries sorted, and adds no
/// new key.
proof fn lemma_walk_clean(members: Seq<(String, Schema)>, pos: PosV, es: Seq<(Seq<char>, AstV)>)
    requires
        all_optional_members(members),
        member_names_ok(members),
        crate::ast::es_sorted(es),
        forall|i: int|
            0 <= i < members.len() ==> crate::ast::es_find(es, members[i].0@) == Some(
                spec_default(members[i].1, pos).unwrap(),
            ),
        forall|i: int|
            0 <= i < members.len() ==> dashed(members[i].0@) == members[i].0@
                || crate::ast::es_find(es, dashed(members[i].0@)) is None,
    ensures
        members_validate(members, pos, es).1 == Seq::<ErrorV>::empty(),
        forall|k: Seq<char>|
            crate::ast::es_find(members_validate(members, pos, es).0, k) is Some
                ==> crate::ast::es_find(es, k) is Some,
    decreases members, 1int, 0int,
{
    if members.len() == 0 {
        assert(members_validate(members, pos, es).1 =~= Seq::<ErrorV>::empty());
    } else {
        let rest = members.skip(1);
        assert(forall|i: int| 0 <= i < rest.len() ==> rest[i] == members[i + 1]);
        let n0 = members[0].0@;
        let child = members[0].1;
        lemma_default_totality(child, pos);
        let d0 = spec_default(child, pos).unwrap();
        assert(crate::ast::es_find(es, n0) == Some(d0));
        let es1 = crate::ast::es_remove(es, n0);
        crate::ast::lemma_es_remove_sorted(es, n0);
        let al = dashed(n0);
        let es2 = crate::ast::es_remove(es1, al);
        crate::ast::lemma_es_remove_sorted(es1, al);
        let r = spec_validate(child, d0);
        assert(r.1 == Seq::<ErrorV>::empty());
        let es3 = crate::ast::es_insert(es2, n0, r.0);
        crate::ast::lemma_es_insert_sorted(es2, n0, r.0);
        // keys of later members still hold their defaults
        assert forall|i: int|
            0 <= i < rest.len() implies crate::ast::es_find(es3, rest[i].0@) == Some(
            spec_default(rest[i].1, pos).unwrap(),
        ) by {
            let ni = rest[i].0@;
            assert(ni == members[i + 1].0@);
            assert(ni != n0);
            assert(al != ni);
            crate::ast::lemma_es_insert_find_other(es2, n0, r.0, ni);
            crate::ast::lemma_es_remove_find_other(es1, al, ni);
            crate::ast::lemma_es_remove_find_other(es, n0, ni);
        }
        // alias spellings of later members stay absent
        assert forall|i: int|
            0 <= i < rest.len() implies dashed(rest[i].0@) == rest[i].0@ || crate::ast::es_find(
            es3,
            dashed(rest[i].0@),
        ) is None by {
            let ai = dashed(rest[i].0@);
            if ai != rest[i].0@ {
                assert(ai != n0);
                crate::ast::lemma_es_insert_find_other(es2, n0, r.0, ai);
                if ai == al {
                } else {
                    crate::ast::lemma_es_remove_find_other(es1, al, ai);
                    if ai == n0 {
                    } else {
                        crate::ast::lemma_es_remove_find_other(es, n0, ai);
                    }
                }
            }
        }
        assert(member_names_ok(rest));
        lemma_walk_clean(rest, pos, es3);
        assert(members_validate(members, pos, es).1 =~= Seq::<ErrorV>::empty());
        // no key appears that the entries did not already hold
        assert forall|k: Seq<char>|
            crate::ast::es_find(members_validate(members, pos, es).0, k) is Some implies
            crate::ast::es_find(es, k) is Some by {
            assert(crate::ast::es_find(es3, k) is Some);
            if k == n0 {
            } else {
                crate::ast::lemma_es_insert_find_other(es2, n0, r.0, k);
                assert(crate::ast::es_find(es2, k) is Some);
                if k == al {
                    assert(false);
                } else {
                    crate::ast::lemma_es_remove_find_other(es1, al, k);
                    crate::ast::lemma_es_remove_find_other(es, n0, k);
                }
            }
        }
    }
}

/// Default totality: a schema built purely from optional members always
/// has a default, and validating that default reports no error.
pub proof fn lemma_default_totality(s: Schema, pos: PosV)
    requires
        all_optional(s),
    ensures
        spec_default(s, pos) matches Some(d) && spec_validate(s, d).1 == Seq::<ErrorV>::empty(),
    decreases s, 2int, 0int,
{
    let d = spec_default(s, pos).unwrap();
    match s {
        Schema::Scalar(sc) => {
            assert(spec_validate(s, d).1 =~= Seq::<ErrorV>::empty());
        },
        Schema::Numeric(nv) => {
            match nv.default {
                Some(v) => {
                    lemma_dec_round_trip(v);
                    assert(spec_validate(s, d).1 =~= Seq::<ErrorV>::empty());
                },
                None => {},
            }
        },
        Schema::Directory(dv) => {
            match dv.default {
                Some(t) => {
                    match dv.absolute {
                        Some(false) => {
                            lemma_no_parent_errs(split_chars(t@, '/'), pos);
                        },
                        _ => {},
                    }
                    assert(spec_validate(s, d).1 =~= Seq::<ErrorV>::empty());
                },
                None => {},
            }
        },
        Schema::Structure(st) => {
            if st.optional {
                assert(spec_validate(s, d).1 == Seq::<ErrorV>::empty());
            } else {
                let empty_es: Seq<(Seq<char>, AstV)> = Seq::empty();
                let es = members_default(st.members@, pos, empty_es);
                assert(crate::ast::es_sorted(empty_es));
                lemma_build_defaults(st.members@, pos, empty_es);
                // alias spellings are absent from the built defaults
                assert forall|i: int|
                    0 <= i < st.members@.len() implies dashed(st.members@[i].0@)
                    == st.members@[i].0@ || crate::ast::es_find(
                    es,
                    dashed(st.members@[i].0@),
                ) is None by {
                    let ai = dashed(st.members@[i].0@);
                    if ai != st.members@[i].0@ && crate::ast::es_find(es, ai) is Some {
                        assert(crate::ast::es_find(empty_es, ai) is Some || (exists|j: int|
                            0 <= j < st.members@.len() && st.members@[j].0@ == ai));
                        let j = choose|j: int|
                            0 <= j < st.members@.len() && st.members@[j].0@ == ai;
                        assert(j != i);
                        assert(dashed(st.members@[i].0@) != st.members@[j].0@);
                        assert(false);
                    }
                }
                lemma_walk_clean(st.members@, pos, es);
                let w = members_validate(st.members@, pos, es);
                // every remaining key names a declared member
                let pred = |k: Seq<char>|
                    !(k.len() > 0 && k[0] == '_') && !decl_names(st.members@).contains(k);
                assert forall|j: int| 0 <= j < es_keys(w.0).len() implies !pred(
                    es_keys(w.0)[j],
                ) by {
                    let k = w.0[j].0;
                    crate::ast::lemma_es_find_present(w.0, j);
                    assert(crate::ast::es_find(es, k) is Some);
                    assert(crate::ast::es_find(empty_es, k) is Some || (exists|m: int|
                        0 <= m < st.members@.len() && st.members@[m].0@ == k));
                    let m = choose|m: int| 0 <= m < st.members@.len() && st.members@[m].0@ == k;
                    assert(decl_names(st.members@)[m] == k);
                    assert(decl_names(st.members@).contains(k));
                }
                lemma_filter_none(es_keys(w.0), pred);
                assert(unexpected_keys(st.members@, w.0) == Seq::<Seq<char>>::empty());
                assert(spec_validate(s, d).1 =~= Seq::<ErrorV>::empty());
            }
        },
        Schema::Mapping(m) => {
            assert(spec_validate(s, d).1 == Seq::<ErrorV>::empty());
        },
        _ => {},
    }
}

/// Numeric round-trip: a canonical decimal rendering within the
/// declared range validates with no error to itself, unchanged.
pub proof fn lemma_numeric_round_trip(
    nv: crate::validate::Numeric,
    pos: PosV,
    tag: TagV,
    kind: ScalarKind,
    n: i64,
)
    requires
        match nv.min {
            Some(m) => m <= n,
            None => true,
        },
        match nv.max {
            Some(m) => n <= m,
            None => true,
        },
    ensures
        spec_validate(Schema::Numeric(nv), AstV::Scalar(pos, tag, kind, int_dec(n as int))) == (
            AstV::Scalar(pos, TagV::NonSpecific, ScalarKind::Plain, int_dec(n as int)),
            Seq::<ErrorV>::empty(),
        ),
{
    lemma_dec_round_trip(n);
    assert(spec_validate(Schema::Numeric(nv), AstV::Scalar(pos, tag, kind, int_dec(n as int))).1
        =~= Seq::<ErrorV>::empty());
}

/// Two scalar spellings that denote the same integer (`"100M"` and
/// `"100000000"`, say) validate to the same canonical output.
pub proof fn lemma_numeric_same_value(
    nv: crate::validate::Numeric,
    pos: PosV,
    tag1: TagV,
    tag2: TagV,
    kind1: ScalarKind,
    kind2: ScalarKind,
    t1: Seq<char>,
    t2: Seq<char>,
)
    requires
        from_numeric_spec(t1) == from_numeric_spec(t2),
        from_numeric_spec(t1) is Some,
    ensures
        spec_validate(Schema::Numeric(nv), AstV::Scalar(pos, tag1, kind1, t1)) == spec_validate(
            Schema::Numeric(nv),
            AstV::Scalar(pos, tag2, kind2, t2),
        ),
{
}

/// Structure key aliasing: a field declared under an underscored name
/// accepts the hyphenated spelling of the same key, and both spellings
/// validate to the same tree with the same diagnostics.
pub proof fn lemma_structure_key_alias(
    st: Structure,
    child: Schema,
    kname: String,
    pos: PosV,
    tag1: TagV,
    tag2: TagV,
    v: AstV,
)
    requires
        st.members@ == seq![(kname, child)],
        dashed(kname@) != kname@,
    ensures
        spec_validate(Schema::Structure(st), AstV::Mapping(pos, tag1, seq![(kname@, v)]))
            == spec_validate(
            Schema::Structure(st),
            AstV::Mapping(pos, tag2, seq![(dashed(kname@), v)]),
        ),
{
    let k = kname@;
    let dk = dashed(k);
    let es1: Seq<(Seq<char>, AstV)> = seq![(k, v)];
    let es2: Seq<(Seq<char>, AstV)> = seq![(dk, v)];
    let empty: Seq<(Seq<char>, AstV)> = Seq::empty();
    assert(es1.skip(1) =~= empty);
    assert(es2.skip(1) =~= empty);
    assert(st.members@.skip(1) =~= Seq::<(String, Schema)>::empty());
    // Exact spelling: found by name; both spellings removed; value kept.
    assert(crate::ast::es_find(es1, k) == Some(v));
    assert(crate::ast::es_remove(es1, k) == es1.skip(1));
    assert(crate::ast::es_find(empty, dk) is None);
    assert(crate::ast::es_remove(empty, dk) =~= empty);
    assert(crate::ast::es_find(empty, k) is None);
    assert(crate::ast::es_remove(empty, k) =~= empty);
    // Hyphenated spelling: missed by name, found by alias.
    assert(es2[0].0 == dk && dk != k);
    assert(crate::ast::es_find(es2, k) is None);
    assert(crate::ast::es_remove(es2, k) =~= seq![(dk, v)] + empty);
    assert(seq![(dk, v)] + empty =~= es2);
    assert(crate::ast::es_remove(es2, k) =~= es2);
    assert(crate::ast::es_find(es2, dk) == Some(v));
    assert(crate::ast::es_remove(es2, dk) =~= empty);
    let r = spec_validate(child, v);
    let after = crate::ast::es_insert(empty, k, r.0);
    assert(members_validate(st.members@.skip(1), pos, after) == (after, Seq::<ErrorV>::empty()));
    assert(members_validate(st.members@, pos, es1) == (after, r.1 + Seq::<ErrorV>::empty()));
    assert(members_validate(st.members@, pos, es2) == (after, r.1 + Seq::<ErrorV>::empty()));
}

/// Unexpected keys are aggregated: a record with no declared members,
/// validated against a mapping holding two keys that are not
/// underscore-prefixed, reports exactly one error naming both keys.
pub proof fn lemma_unexpected_key_aggregation(
    st: Structure,
    pos: PosV,
    tag: TagV,
    k1: Seq<char>,
    v1: AstV,
    k2: Seq<char>,
    v2: AstV,
)
    requires
        st.members@.len() == 0,
        !(k1.len() > 0 && k1[0] == '_'),
        !(k2.len() > 0 && k2[0] == '_'),
    ensures
        spec_validate(Schema::Structure(st), AstV::Mapping(pos, tag, seq![(k1, v1), (k2, v2)]))
            == (
            AstV::Mapping(pos, TagV::NonSpecific, seq![(k1, v1), (k2, v2)]),
            seq![ErrorV::Validation(pos, msg_keys_unexpected(seq![k1, k2]))],
        ),
{
    reveal(Seq::filter);
    let es: Seq<(Seq<char>, AstV)> = seq![(k1, v1), (k2, v2)];
    assert(members_validate(st.members@, pos, es) == (es, Seq::<ErrorV>::empty()));
    let keys = es_keys(es);
    assert(keys =~= seq![k1, k2]);
    assert(decl_names(st.members@).len() == 0);
    assert(!decl_names(st.members@).contains(k1));
    assert(!decl_names(st.members@).contains(k2));
    let pred = |k: Seq<char>|
        !(k.len() > 0 && k[0] == '_') && !decl_names(st.members@).contains(k);
    assert(seq![k1, k2].drop_last() =~= seq![k1]);
    assert(seq![k1].drop_last() =~= Seq::<Seq<char>>::empty());
    assert(Seq::<Seq<char>>::empty().filter(pred) =~= Seq::<Seq<char>>::empty());
    assert(seq![k1].filter(pred) =~= seq![k1]);
    assert(seq![k1, k2].filter(pred) =~= seq![k1, k2]);
    assert(unexpected_keys(st.members@, es) =~= seq![k1, k2]);
    assert(spec_validate(Schema::Structure(st), AstV::Mapping(pos, tag, es)).1 =~= seq![
        ErrorV::Validation(pos, msg_keys_unexpected(seq![k1, k2])),
    ]);
}

/// Enum dispatch determinism, tagged case: an input carrying the tag of
/// a declared option validates to that option's own validation of the
/// input, stamped with the resolved tag.
pub proof fn lemma_enum_tag_dispatch(e: Enum, a: AstV, name: Seq<char>, i: int)
    requires
        a.tag() == TagV::Local(name),
        0 <= i < e.options@.len(),
        e.options@[i].0@ == name,
        forall|j: int| 0 <= j < i ==> e.options@[j].0@ != name,
    ensures
        ({
            let r = spec_validate(e.options@[i].1, a);
            spec_validate(Schema::Enum(e), a) == (r.0.with_tag(TagV::Local(name)), r.1)
        }),
{
    lemma_enum_dispatch_at(e.options@, a, name, i);
}

/// Enum dispatch determinism, plain case: with plain matching enabled,
/// a bare scalar naming an option whose payload is `Nothing` validates
/// exactly as the explicitly tagged null does.
pub proof fn lemma_enum_plain_matches_tagged(
    e: Enum,
    pos: PosV,
    kind: ScalarKind,
    name: Seq<char>,
    i: int,
)
    requires
        e.allow_plain,
        0 <= i < e.options@.len(),
        e.options@[i].0@ == name,
        e.options@[i].1 == Schema::Nothing(Nothing),
        forall|j: int| 0 <= j < i ==> e.options@[j].0@ != name,
    ensures
        spec_validate(Schema::Enum(e), AstV::Scalar(pos, TagV::NonSpecific, kind, name))
            == spec_validate(
            Schema::Enum(e),
            AstV::Null(pos, TagV::Local(name), NullKind::Implicit),
        ),
{
    lemma_enum_dispatch_at(
        e.options@,
        AstV::Null(pos, TagV::NonSpecific, NullKind::Implicit),
        name,
        i,
    );
    lemma_enum_dispatch_at(
        e.options@,
        AstV::Null(pos, TagV::Local(name), NullKind::Implicit),
        name,
        i,
    );
}

/// Index of the first declared option with the given name, or `-1`.
pub open spec fn match_index(options: Seq<(String, Schema)>, name: Seq<char>) -> int
    decreases options.len(),
{
    if options.len() == 0 {
        -1
    } else if options[0].0@ == name {
        0
    } else {
        let r = match_index(options.skip(1), name);
        if r < 0 {
            -1
        } else {
            r + 1
        }
    }
}

/// Where [`match_index`] points, and what that means.
pub proof fn lemma_match_index(options: Seq<(String, Schema)>, name: Seq<char>)
    ensures
        -1 <= match_index(options, name) < options.len(),
        match_index(options, name) >= 0 ==> options[match_index(options, name)].0@ == name,
        forall|j: int|
            0 <= j < options.len() && (match_index(options, name) < 0 || j < match_index(
                options,
                name,
            )) ==> options[j].0@ != name,
    decreases options.len(),
{
    if options.len() > 0 && options[0].0@ != name {
        let rest = options.skip(1);
        lemma_match_index(rest, name);
        let r = match_index(rest, name);
        assert(forall|j: int| 1 <= j < options.len() ==> options[j] == rest[j - 1]);
    }
}

/// Whether each declared option's payload validator is free of tag
/// dispatch and itself revalidation-stable.
pub open spec fn stable_options(options: Seq<(String, Schema)>) -> bool
    decreases options, 0int,
{
    if options.len() == 0 {
        true
    } else {
        revalidation_stable(options[0].1) && !(options[0].1 is Enum) && stable_options(
            options.skip(1),
        )
    }
}

/// The schema shapes for which idempotent revalidation is established
/// here: leaf validators, lists of such, and sum types whose payloads
/// do not themselves dispatch on tags.  Records and dictionaries are
/// not covered by this predicate.
pub open spec fn revalidation_stable(s: Schema) -> bool
    decreases s, 1int,
{
    match s {
        Schema::Scalar(_) => true,
        Schema::Numeric(_) => true,
        Schema::Directory(_) => true,
        Schema::Anything(_) => true,
        Schema::Nothing(_) => true,
        Schema::Sequence(q) => revalidation_stable(*q.element),
        Schema::Enum(e) => stable_options(e.options@),
        Schema::Structure(_) => false,
        Schema::Mapping(_) => false,
    }
}

proof fn lemma_stable_options_at(options: Seq<(String, Schema)>, i: int)
    requires
        stable_options(options),
        0 <= i < options.len(),
    ensures
        revalidation_stable(options[i].1),
        !(options[i].1 is Enum),
    decreases i,
{
    if i > 0 {
        lemma_stable_options_at(options.skip(1), i - 1);
    }
}

/// Replacing the tag of the input does not change what a validator
/// without tag dispatch reports, and changes its result at most by the
/// same tag replacement.
pub proof fn lemma_tag_shift(s: Schema, x: AstV, t: TagV)
    requires
        !(s is Enum),
    ensures
        spec_validate(s, x.with_tag(t)).1 == spec_validate(s, x).1,
        spec_validate(s, x.with_tag(t)).0 == spec_validate(s, x).0 || spec_validate(
            s,
            x.with_tag(t),
        ).0 == spec_validate(s, x).0.with_tag(t),
{
    let xt = x.with_tag(t);
    assert(xt.pos() == x.pos());
}

/// Splitting an empty concatenation.
proof fn lemma_empty_concat(a: Seq<ErrorV>, b: Seq<ErrorV>)
    requires
        (a + b).len() == 0,
    ensures
        a == Seq::<ErrorV>::empty(),
        b == Seq::<ErrorV>::empty(),
{
    assert(a =~= Seq::<ErrorV>::empty());
    assert(b =~= Seq::<ErrorV>::empty());
}

/// Idempotence of validation, for the shapes `revalidation_stable`
/// covers: when a validation reported nothing, validating its result
/// again reports nothing and returns the identical tree.
pub proof fn lemma_validate_idempotent(s: Schema, a: AstV)
    requires
        revalidation_stable(s),
        spec_validate(s, a).1.len() == 0,
    ensures
        spec_validate(s, spec_validate(s, a).0) == (
            spec_validate(s, a).0,
            Seq::<ErrorV>::empty(),
        ),
    decreases s, 1int, 0int,
{
    let out = spec_validate(s, a).0;
    match s {
        Schema::Scalar(sc) => {
            match a {
                AstV::Scalar(pos, tag, kind, text) => {
                    let r = crate::validate::scalar_validate(sc, a);
                    assert(spec_validate(s, out).1 =~= Seq::<ErrorV>::empty());
                },
                _ => {},
            }
        },
        Schema::Numeric(nv) => {
            match a {
                AstV::Scalar(pos, tag, kind, text) => {
                    let v = crate::numerals::from_numeric_spec(text).unwrap();
                    lemma_dec_round_trip(v);
                    assert(spec_validate(s, out).1 =~= Seq::<ErrorV>::empty());
                },
                _ => {},
            }
        },
        Schema::Directory(d) => {},
        Schema::Anything(_) => {},
        Schema::Nothing(_) => {},
        Schema::Sequence(q) => {
            match a {
                AstV::List(pos, tag, items) => {
                    lemma_sequence_items_idempotent(q, items);
                },
                AstV::Null(pos, tag, NullKind::Implicit) => {
                    assert(crate::validate::sequence_items(q, Seq::empty()) == (
                        Seq::<AstV>::empty(),
                        Seq::<ErrorV>::empty(),
                    ));
                },
                AstV::Scalar(pos, tag, kind, text) => {
                    match q.from_scalar {
                        Some(crate::validate::ListShortcut::SplitOn(sep)) => {
                            lemma_sequence_items_idempotent(
                                q,
                                crate::validate::split_items(pos, text, sep),
                            );
                        },
                        None => {},
                    }
                },
                _ => {},
            }
        },
        Schema::Enum(e) => {
            lemma_enum_idempotent(e, a);
        },
        Schema::Structure(_) => {},
        Schema::Mapping(_) => {},
    }
}

/// Element-wise idempotence for a list: a clean pass over the items
/// leaves a second pass nothing to change or report.
proof fn lemma_sequence_items_idempotent(q: crate::validate::Sequence, items: Seq<AstV>)
    requires
        revalidation_stable(*q.element),
        crate::validate::sequence_items(q, items).1.len() == 0,
    ensures
        crate::validate::sequence_items(q, crate::validate::sequence_items(q, items).0) == (
            crate::validate::sequence_items(q, items).0,
            Seq::<ErrorV>::empty(),
        ),
    decreases q, 0int, items.len(),
{
    let f = crate::validate::sequence_items(q, items);
    if items.len() == 0 {
        assert(f.0 =~= Seq::<AstV>::empty());
    } else {
        let r = spec_validate(*q.element, items[0]);
        let rest = crate::validate::sequence_items(q, items.skip(1));
        lemma_empty_concat(r.1, rest.1);
        lemma_validate_idempotent(*q.element, items[0]);
        lemma_sequence_items_idempotent(q, items.skip(1));
        let outs = f.0;
        assert(outs == seq![r.0] + rest.0);
        assert(outs[0] == r.0);
        assert(outs.skip(1) =~= rest.0);
        let g = crate::validate::sequence_items(q, outs);
        assert(g.0 == seq![spec_validate(*q.element, r.0).0] + crate::validate::sequence_items(
            q,
            outs.skip(1),
        ).0);
        assert(g.0 =~= outs);
        assert(g.1 =~= Seq::<ErrorV>::empty());
    }
}

/// Idempotence for a sum type whose options are revalidation-stable
/// and free of tag dispatch.
proof fn lemma_enum_idempotent(e: Enum, a: AstV)
    requires
        stable_options(e.options@),
        spec_validate(Schema::Enum(e), a).1.len() == 0,
    ensures
        spec_validate(Schema::Enum(e), spec_validate(Schema::Enum(e), a).0) == (
            spec_validate(Schema::Enum(e), a).0,
            Seq::<ErrorV>::empty(),
        ),
    decreases e, 0int, 1int,
{
    let s = Schema::Enum(e);
    let out = spec_validate(s, a).0;
    match a.tag() {
        TagV::Local(name) => {
            lemma_match_index(e.options@, name);
            let mi = match_index(e.options@, name);
            if mi < 0 {
                lemma_enum_dispatch_none(e.options@, a, name);
                assert(false);
            }
            lemma_enum_dispatch_at(e.options@, a, name, mi);
            lemma_enum_resolved_revalidation(e, a, name, mi);
        },
        TagV::NonSpecific => {
            let plain_hit = e.allow_plain && match a {
                AstV::Scalar(pos, _, _, text) => match_index(e.options@, text) >= 0,
                _ => false,
            };
            if plain_hit {
                match a {
                    AstV::Scalar(pos, _, _, text) => {
                        lemma_match_index(e.options@, text);
                        let mi = match_index(e.options@, text);
                        let nul = AstV::Null(pos, TagV::NonSpecific, NullKind::Implicit);
                        lemma_enum_dispatch_at(e.options@, nul, text, mi);
                        assert(spec_validate(s, a) == ({
                            let r = spec_validate(e.options@[mi].1, nul);
                            (r.0.with_tag(TagV::Local(text)), r.1)
                        }));
                        lemma_enum_resolved_revalidation(e, nul, text, mi);
                    },
                    _ => {},
                }
            } else {
                if e.allow_plain {
                    match a {
                        AstV::Scalar(pos, _, _, text) => {
                            lemma_match_index(e.options@, text);
                            lemma_enum_dispatch_none(
                                e.options@,
                                AstV::Null(pos, TagV::NonSpecific, NullKind::Implicit),
                                text,
                            );
                        },
                        _ => {},
                    }
                }
                match e.default_tag {
                    Some(t) => {
                        lemma_match_index(e.options@, t@);
                        let mi = match_index(e.options@, t@);
                        if mi < 0 {
                            lemma_enum_dispatch_none(e.options@, a, t@);
                            assert(false);
                        }
                        lemma_enum_dispatch_at(e.options@, a, t@, mi);
                        lemma_enum_resolved_revalidation(e, a, t@, mi);
                    },
                    None => {
                        assert(false);
                    },
                }
            }
        },
    }
}

/// The shared revalidation core: validating the stamped result of a
/// clean dispatch again takes the explicit-tag path to the same option
/// and changes nothing.
proof fn lemma_enum_resolved_revalidation(e: Enum, input: AstV, name: Seq<char>, mi: int)
    requires
        stable_options(e.options@),
        0 <= mi < e.options@.len(),
        e.options@[mi].0@ == name,
        forall|j: int| 0 <= j < mi ==> e.options@[j].0@ != name,
        spec_validate(e.options@[mi].1, input).1.len() == 0,
    ensures
        ({
            let r = spec_validate(e.options@[mi].1, input);
            spec_validate(Schema::Enum(e), r.0.with_tag(TagV::Local(name))) == (
                r.0.with_tag(TagV::Local(name)),
                Seq::<ErrorV>::empty(),
            )
        }),
    decreases e, 0int, 0int,
{
    let child = e.options@[mi].1;
    lemma_stable_options_at(e.options@, mi);
    let r = spec_validate(child, input);
    let stamped = r.0.with_tag(TagV::Local(name));
    assert(stamped.tag() == TagV::Local(name));
    lemma_enum_dispatch_at(e.options@, stamped, name, mi);
    lemma_validate_idempotent(child, input);
    lemma_tag_shift(child, r.0, TagV::Local(name));
    let r2 = spec_validate(child, stamped);
    assert(r2.1.len() == 0);
    assert(r2.0 == r.0 || r2.0 == r.0.with_tag(TagV::Local(name)));
    assert(r.0.with_tag(TagV::Local(name)).with_tag(TagV::Local(name)) == r.0.with_tag(
        TagV::Local(name),
    ));
    assert(r2.0.with_tag(TagV::Local(name)) == stamped);
    assert(spec_validate(Schema::Enum(e), stamped).1 =~= Seq::<ErrorV>::empty());
}

} // verus!

//! The tagged document tree and its source-position metadata.
//!
//! Every node of the tree carries a [`Pos`] (where it came from) and a
//! [`Tag`] (an explicit `!Name` annotation, or none).  Mappings keep their
//! entries ordered by key so that traversal is deterministic.

use vstd::prelude::*;

verus! {

/// Source location: file name, line and offset within the line.
///
/// Attached to every tree node and every error; cloned, never mutated.
#[derive(Debug, PartialEq, Eq)]
pub struct Pos {
    pub filename: String,
    pub line: usize,
    pub offset: usize,
}

/// Mathematical image of a [`Pos`].
pub struct PosV {
    pub filename: Seq<char>,
    pub line: nat,
    pub offset: nat,
}

impl View for Pos {
    type V = PosV;

    open spec fn view(&self) -> PosV {
        PosV { filename: self.filename@, line: self.line as nat, offset: self.offset as nat }
    }
}

impl Clone for Pos {
    fn clone(&self) -> (r: Self)
        ensures
            r == *self,
    {
        Pos { filename: self.filename.clone(), line: self.line, offset: self.offset }
    }
}

impl Pos {
    pub fn new(filename: &str, line: usize, offset: usize) -> (r: Pos)
        ensures
            r@.filename == filename@,
            r@.line == line as nat,
            r@.offset == offset as nat,
    {
        Pos { filename: filename.to_owned(), line, offset }
    }
}

/// Type annotation of a node: none, or an explicit local `!Name` tag.
#[derive(Debug, PartialEq, Eq)]
pub enum Tag {
    NonSpecific,
    LocalTag(String),
}

/// Mathematical image of a [`Tag`].
pub enum TagV {
    NonSpecific,
    Local(Seq<char>),
}

impl View for Tag {
    type V = TagV;

    open spec fn view(&self) -> TagV {
        match self {
            Tag::NonSpecific => TagV::NonSpecific,
            Tag::LocalTag(name) => TagV::Local(name@),
        }
    }
}

impl Clone for Tag {
    fn clone(&self) -> (r: Self)
        ensures
            r == *self,
    {
        match self {
            Tag::NonSpecific => Tag::NonSpecific,
            Tag::LocalTag(name) => Tag::LocalTag(name.clone()),
        }
    }
}

/// Whether a scalar's literal syntax was quoted or plain.
#[derive(Debug, Clone, Copy, PartialEq, Eq, Structural)]
pub enum ScalarKind {
    Quoted,
    Plain,
}

/// Whether absence of a value was inferred or explicitly written.
///
/// Only an implicit null may be replaced by a validator's default.
#[derive(Debug, Clone, Copy, PartialEq, Eq, Structural)]
pub enum NullKind {
    Implicit,
    Explicit,
}

/// A node of the document tree.
///
/// Every variant carries its position and its tag.  `Mapping` entries are
/// ordered by key (strictly increasing, so keys are unique); consumers
/// rely on that for deterministic traversal and defaulting.
#[derive(Debug, PartialEq)]
pub enum Ast {
    /// Leaf text content; numbers, booleans and paths are all text here.
    Scalar(Pos, Tag, ScalarKind, String),
    /// Mapping of string keys to subtrees, ordered by key.
    Mapping(Pos, Tag, Vec<(String, Ast)>),
    /// Ordered sequence of subtrees.
    List(Pos, Tag, Vec<Ast>),
    /// Absence of a value.
    Null(Pos, Tag, NullKind),
}

/// Mathematical image of an [`Ast`].
pub enum AstV {
    Scalar(PosV, TagV, ScalarKind, Seq<char>),
    Mapping(PosV, TagV, Seq<(Seq<char>, AstV)>),
    List(PosV, TagV, Seq<AstV>),
    Null(PosV, TagV, NullKind),
}

impl View for Ast {
    type V = AstV;

    open spec fn view(&self) -> AstV
        decreases self,
    {
        match self {
            Ast::Scalar(pos, tag, kind, text) => AstV::Scalar(pos@, tag@, *kind, text@),
            Ast::Mapping(pos, tag, entries) => AstV::Mapping(pos@, tag@, entries_view(entries@)),
            Ast::List(pos, tag, items) => AstV::List(pos@, tag@, items_view(items@)),
            Ast::Null(pos, tag, kind) => AstV::Null(pos@, tag@, *kind),
        }
    }
}

/// The mathematical image of a sequence of mapping entries.
pub open spec fn entries_view(s: Seq<(String, Ast)>) -> Seq<(Seq<char>, AstV)>
    decreases s,
{
    if s.len() == 0 {
        Seq::empty()
    } else {
        seq![(s[0].0@, s[0].1@)] + entries_view(s.subrange(1, s.len() as int))
    }
}

/// The mathematical image of a sequence of list elements.
pub open spec fn items_view(s: Seq<Ast>) -> Seq<AstV>
    decreases s,
{
    if s.len() == 0 {
        Seq::empty()
    } else {
        seq![s[0]@] + items_view(s.subrange(1, s.len() as int))
    }
}

/// Length and pointwise content of [`entries_view`].
pub proof fn lemma_entries_view(s: Seq<(String, Ast)>)
    ensures
        entries_view(s).len() == s.len(),
        forall|i: int| 0 <= i < s.len() ==> entries_view(s)[i] == (s[i].0@, s[i].1@),
    decreases s,
{
    if s.len() > 0 {
        let rest = s.subrange(1, s.len() as int);
        lemma_entries_view(rest);
        assert(entries_view(s) == seq![(s[0].0@, s[0].1@)] + entries_view(rest));
        assert forall|i: int| 0 <= i < s.len() implies entries_view(s)[i] == (
            s[i].0@,
            s[i].1@,
        ) by {
            if i > 0 {
                assert(entries_view(s)[i] == entries_view(rest)[i - 1]);
                assert(rest[i - 1] == s[i]);
            }
        }
    }
}

/// Length and pointwise content of [`items_view`].
pub proof fn lemma_items_view(s: Seq<Ast>)
    ensures
        items_view(s).len() == s.len(),
        forall|i: int| 0 <= i < s.len() ==> items_view(s)[i] == s[i]@,
    decreases s,
{
    if s.len() > 0 {
        let rest = s.subrange(1, s.len() as int);
        lemma_items_view(rest);
        assert(items_view(s) == seq![s[0]@] + items_view(rest));
        assert forall|i: int| 0 <= i < s.len() implies items_view(s)[i] == s[i]@ by {
            if i > 0 {
                assert(items_view(s)[i] == items_view(rest)[i - 1]);
                assert(rest[i - 1] == s[i]);
            }
        }
    }
}

/// The value under the first entry with the given key, if any.
pub open spec fn es_find(es: Seq<(Seq<char>, AstV)>, k: Seq<char>) -> Option<AstV>
    decreases es.len(),
{
    if es.len() == 0 {
        None
    } else if es[0].0 == k {
        Some(es[0].1)
    } else {
        es_find(es.skip(1), k)
    }
}

/// The entries with the first occurrence of the given key removed.
pub open spec fn es_remove(es: Seq<(Seq<char>, AstV)>, k: Seq<char>) -> Seq<(Seq<char>, AstV)>
    decreases es.len(),
{
    if es.len() == 0 {
        es
    } else if es[0].0 == k {
        es.skip(1)
    } else {
        seq![es[0]] + es_remove(es.skip(1), k)
    }
}

/// The entries with the given key bound to the given value, placed in
/// key order (replacing an equal key).
pub open spec fn es_insert(es: Seq<(Seq<char>, AstV)>, k: Seq<char>, v: AstV) -> Seq<
    (Seq<char>, AstV),
>
    decreases es.len(),
{
    if es.len() == 0 {
        seq![(k, v)]
    } else if crate::text::chars_lt(es[0].0, k) {
        seq![es[0]] + es_insert(es.skip(1), k, v)
    } else if es[0].0 == k {
        seq![(k, v)] + es.skip(1)
    } else {
        seq![(k, v)] + es
    }
}

/// Entries strictly increasing by key: the well-formed mapping shape.
pub open spec fn es_sorted(es: Seq<(Seq<char>, AstV)>) -> bool {
    forall|i: int, j: int|
        0 <= i < j < es.len() ==> crate::text::chars_lt(es[i].0, es[j].0)
}

/// Index of the first entry with the given key, or `-1`.
pub open spec fn es_index_of(es: Seq<(Seq<char>, AstV)>, k: Seq<char>) -> int
    decreases es.len(),
{
    if es.len() == 0 {
        -1
    } else if es[0].0 == k {
        0
    } else {
        let r = es_index_of(es.skip(1), k);
        if r < 0 {
            -1
        } else {
            r + 1
        }
    }
}

/// Where [`es_index_of`] points, and how it decides [`es_find`].
pub proof fn lemma_es_index_of(es: Seq<(Seq<char>, AstV)>, k: Seq<char>)
    ensures
        -1 <= es_index_of(es, k) < es.len(),
        es_index_of(es, k) >= 0 ==> es[es_index_of(es, k)].0 == k && es_find(es, k) == Some(
            es[es_index_of(es, k)].1,
        ),
        forall|j: int|
            0 <= j < es.len() && (es_index_of(es, k) < 0 || j < es_index_of(es, k)) ==> es[j].0
                != k,
        es_index_of(es, k) < 0 ==> es_find(es, k) is None,
    decreases es.len(),
{
    if es.len() > 0 && es[0].0 != k {
        let rest = es.skip(1);
        lemma_es_index_of(rest, k);
        assert(forall|j: int| 1 <= j < es.len() ==> es[j] == rest[j - 1]);
    }
}

/// A key taken from an entry is always found.
pub proof fn lemma_es_find_present(es: Seq<(Seq<char>, AstV)>, j: int)
    requires
        0 <= j < es.len(),
    ensures
        es_find(es, es[j].0) is Some,
    decreases j,
{
    if es[0].0 != es[j].0 {
        lemma_es_find_present(es.skip(1), j - 1);
        assert(es.skip(1)[j - 1] == es[j]);
    }
}

/// Removing one key leaves every other key's binding untouched.
pub proof fn lemma_es_remove_find_other(es: Seq<(Seq<char>, AstV)>, k: Seq<char>, k2: Seq<char>)
    requires
        k2 != k,
    ensures
        es_find(es_remove(es, k), k2) == es_find(es, k2),
    decreases es.len(),
{
    if es.len() > 0 && es[0].0 != k {
        lemma_es_remove_find_other(es.skip(1), k, k2);
        let r = seq![es[0]] + es_remove(es.skip(1), k);
        assert(r.skip(1) =~= es_remove(es.skip(1), k));
        assert(r[0] == es[0]);
    }
}

/// Removal keeps entries sorted, and under sortedness removes the key
/// for good.
pub proof fn lemma_es_remove_sorted(es: Seq<(Seq<char>, AstV)>, k: Seq<char>)
    requires
        es_sorted(es),
    ensures
        es_sorted(es_remove(es, k)),
        es_find(es_remove(es, k), k) is None,
{
    lemma_es_index_of(es, k);
    let i = es_index_of(es, k);
    if i < 0 {
        lemma_es_absent(es, k);
    } else {
        lemma_es_found_at(es, k, i);
        let r = es.take(i) + es.skip(i + 1);
        assert(es_remove(es, k) == r);
        assert forall|p: int, q: int| 0 <= p < q < r.len() implies crate::text::chars_lt(
            r[p].0,
            r[q].0,
        ) by {
            let pp = if p < i {
                p
            } else {
                p + 1
            };
            let qq = if q < i {
                q
            } else {
                q + 1
            };
            assert(r[p] == es[pp]);
            assert(r[q] == es[qq]);
        }
        assert forall|j: int| 0 <= j < r.len() implies r[j].0 != k by {
            let jj = if j < i {
                j
            } else {
                j + 1
            };
            assert(r[j] == es[jj]);
            if jj > i {
                crate::text::lemma_chars_lt_irrefl(k);
                assert(crate::text::chars_lt(es[i].0, es[jj].0));
            }
        }
        lemma_es_absent(r, k);
    }
}

/// Insertion binds the key to the value.
pub proof fn lemma_es_insert_find_same(es: Seq<(Seq<char>, AstV)>, k: Seq<char>, v: AstV)
    ensures
        es_find(es_insert(es, k, v), k) == Some(v),
    decreases es.len(),
{
    if es.len() > 0 && crate::text::chars_lt(es[0].0, k) {
        crate::text::lemma_chars_lt_irrefl(k);
        assert(es[0].0 != k);
        lemma_es_insert_find_same(es.skip(1), k, v);
        let r = seq![es[0]] + es_insert(es.skip(1), k, v);
        assert(r.skip(1) =~= es_insert(es.skip(1), k, v));
    }
}

/// Insertion leaves every other key's binding untouched.
pub proof fn lemma_es_insert_find_other(
    es: Seq<(Seq<char>, AstV)>,
    k: Seq<char>,
    v: AstV,
    k2: Seq<char>,
)
    requires
        k2 != k,
    ensures
        es_find(es_insert(es, k, v), k2) == es_find(es, k2),
    decreases es.len(),
{
    if es.len() == 0 {
        let r = seq![(k, v)];
        assert(r.skip(1) =~= Seq::<(Seq<char>, AstV)>::empty());
        assert(r[0].0 != k2);
        assert(es_find(r.skip(1), k2) is None);
        assert(es_find(r, k2) is None);
    } else if crate::text::chars_lt(es[0].0, k) {
        lemma_es_insert_find_other(es.skip(1), k, v, k2);
        let r = seq![es[0]] + es_insert(es.skip(1), k, v);
        assert(es_insert(es, k, v) == r);
        assert(r.skip(1) =~= es_insert(es.skip(1), k, v));
        assert(r[0] == es[0]);
        if es[0].0 == k2 {
            assert(es_find(r, k2) == Some(es[0].1));
        } else {
            assert(es_find(r, k2) == es_find(es_insert(es.skip(1), k, v), k2));
            assert(es_find(es, k2) == es_find(es.skip(1), k2));
        }
    } else if es[0].0 == k {
        let r = seq![(k, v)] + es.skip(1);
        assert(es_insert(es, k, v) == r);
        assert(r.skip(1) =~= es.skip(1));
        assert(r[0].0 == k);
        assert(es_find(r, k2) == es_find(es.skip(1), k2));
        assert(es_find(es, k2) == es_find(es.skip(1), k2));
    } else {
        let r = seq![(k, v)] + es;
        assert(es_insert(es, k, v) == r);
        assert(r.skip(1) =~= es);
        assert(es_find(r, k2) == es_find(es, k2));
    }
}

/// Insertion keeps entries sorted.
pub proof fn lemma_es_insert_sorted(es: Seq<(Seq<char>, AstV)>, k: Seq<char>, v: AstV)
    requires
        es_sorted(es),
    ensures
        es_sorted(es_insert(es, k, v)),
        forall|j: int|
            0 <= j < es_insert(es, k, v).len() ==> es_insert(es, k, v)[j].0 == k || (exists|i: int|
                0 <= i < es.len() && es_insert(es, k, v)[j].0 == es[i].0),
    decreases es.len(),
{
    let r = es_insert(es, k, v);
    if es.len() == 0 {
    } else if crate::text::chars_lt(es[0].0, k) {
        assert(es_sorted(es.skip(1)));
        lemma_es_insert_sorted(es.skip(1), k, v);
        let r1 = es_insert(es.skip(1), k, v);
        assert(r == seq![es[0]] + r1);
        assert forall|p: int, q: int| 0 <= p < q < r.len() implies crate::text::chars_lt(
            r[p].0,
            r[q].0,
        ) by {
            if p == 0 {
                assert(r[q] == r1[q - 1]);
                if r1[q - 1].0 == k {
                    assert(crate::text::chars_lt(es[0].0, k));
                } else {
                    let i = choose|i: int| 0 <= i < es.skip(1).len() && r1[q - 1].0 == es.skip(
                        1,
                    )[i].0;
                    assert(es.skip(1)[i] == es[i + 1]);
                    assert(crate::text::chars_lt(es[0].0, es[i + 1].0));
                }
            } else {
                assert(r[p] == r1[p - 1] && r[q] == r1[q - 1]);
            }
        }
        assert forall|j: int| 0 <= j < r.len() implies r[j].0 == k || (exists|i: int|
            0 <= i < es.len() && r[j].0 == es[i].0) by {
            if j == 0 {
                assert(r[0].0 == es[0].0);
            } else {
                assert(r[j] == r1[j - 1]);
                if r1[j - 1].0 != k {
                    let i = choose|i: int| 0 <= i < es.skip(1).len() && r1[j - 1].0 == es.skip(
                        1,
                    )[i].0;
                    assert(es.skip(1)[i].0 == es[i + 1].0);
                }
            }
        }
    } else if es[0].0 == k {
        assert(r == seq![(k, v)] + es.skip(1));
        assert forall|p: int, q: int| 0 <= p < q < r.len() implies crate::text::chars_lt(
            r[p].0,
            r[q].0,
        ) by {
            if p == 0 {
                assert(r[q] == es[q]);
                assert(crate::text::chars_lt(es[0].0, es[q].0));
            } else {
                assert(r[p] == es[p] && r[q] == es[q]);
            }
        }
    } else {
        crate::text::lemma_chars_lt_connex(es[0].0, k);
        assert(crate::text::chars_lt(k, es[0].0));
        assert(r == seq![(k, v)] + es);
        assert forall|p: int, q: int| 0 <= p < q < r.len() implies crate::text::chars_lt(
            r[p].0,
            r[q].0,
        ) by {
            if p == 0 {
                assert(r[q] == es[q - 1]);
                if q > 1 {
                    crate::text::lemma_chars_lt_trans(k, es[0].0, es[q - 1].0);
                }
            } else {
                assert(r[p] == es[p - 1] && r[q] == es[q - 1]);
            }
        }
    }
}

proof fn lemma_es_found_at(es: Seq<(Seq<char>, AstV)>, k: Seq<char>, i: int)
    requires
        0 <= i < es.len(),
        es[i].0 == k,
        forall|j: int| 0 <= j < i ==> es[j].0 != k,
    ensures
        es_find(es, k) == Some(es[i].1),
        es_remove(es, k) =~= es.take(i) + es.skip(i + 1),
    decreases i,
{
    if i == 0 {
        assert(es_remove(es, k) == es.skip(1));
        assert(es.take(0) + es.skip(1) =~= es.skip(1));
    } else {
        let rest = es.skip(1);
        assert(forall|j: int| 0 <= j < i - 1 ==> rest[j].0 != k);
        lemma_es_found_at(rest, k, i - 1);
        assert(seq![es[0]] + (rest.take(i - 1) + rest.skip(i)) =~= es.take(i) + es.skip(i + 1));
    }
}

proof fn lemma_es_absent(es: Seq<(Seq<char>, AstV)>, k: Seq<char>)
    requires
        forall|j: int| 0 <= j < es.len() ==> es[j].0 != k,
    ensures
        es_find(es, k) is None,
        es_remove(es, k) =~= es,
    decreases es.len(),
{
    if es.len() > 0 {
        lemma_es_absent(es.skip(1), k);
        assert(seq![es[0]] + es.skip(1) =~= es);
    }
}

proof fn lemma_es_insert_at(es: Seq<(Seq<char>, AstV)>, k: Seq<char>, v: AstV, i: int)
    requires
        0 <= i <= es.len(),
        forall|j: int| 0 <= j < i ==> crate::text::chars_lt(es[j].0, k),
        i < es.len() ==> !crate::text::chars_lt(es[i].0, k),
    ensures
        i < es.len() && es[i].0 == k ==> es_insert(es, k, v) =~= es.update(i, (k, v)),
        !(i < es.len() && es[i].0 == k) ==> es_insert(es, k, v) =~= es.take(i) + seq![(k, v)]
            + es.skip(i),
    decreases i,
{
    if i == 0 {
        if es.len() == 0 {
            assert(es_insert(es, k, v) == seq![(k, v)]);
            assert(es.take(0) + seq![(k, v)] + es.skip(0) =~= seq![(k, v)]);
        } else if es[0].0 == k {
            assert(es_insert(es, k, v) == seq![(k, v)] + es.skip(1));
            assert(seq![(k, v)] + es.skip(1) =~= es.update(0, (k, v)));
        } else {
            assert(es_insert(es, k, v) == seq![(k, v)] + es);
            assert(seq![(k, v)] + es =~= es.take(0) + seq![(k, v)] + es.skip(0));
        }
    } else {
        let rest = es.skip(1);
        assert(crate::text::chars_lt(es[0].0, k));
        assert(es_insert(es, k, v) == seq![es[0]] + es_insert(rest, k, v));
        assert(forall|j: int| 0 <= j < i - 1 ==> crate::text::chars_lt(rest[j].0, k));
        lemma_es_insert_at(rest, k, v, i - 1);
        if i < es.len() && es[i].0 == k {
            assert(rest[i - 1].0 == k);
            assert(seq![es[0]] + rest.update(i - 1, (k, v)) =~= es.update(i, (k, v)));
        } else {
            assert(seq![es[0]] + (rest.take(i - 1) + seq![(k, v)] + rest.skip(i - 1)) =~= es.take(i)
                + seq![(k, v)] + es.skip(i));
        }
    }
}

/// Remove and return the value bound to the given key, if present.
pub fn map_take(entries: &mut Vec<(String, Ast)>, key: &String) -> (r: Option<Ast>)
    ensures
        entries_view(final(entries)@) == es_remove(entries_view(old(entries)@), key@),
        match r {
            Some(a) => es_find(entries_view(old(entries)@), key@) == Some(a@),
            None => es_find(entries_view(old(entries)@), key@) is None,
        },
{
    let ghost es = entries_view(old(entries)@);
    proof {
        lemma_entries_view(old(entries)@);
    }
    let n = entries.len();
    let mut i: usize = 0;
    while i < n
        invariant
            0 <= i <= n,
            n == entries@.len(),
            entries@ == old(entries)@,
            es == entries_view(old(entries)@),
            es.len() == n,
            forall|j: int| 0 <= j < n ==> es[j] == (entries@[j].0@, entries@[j].1@),
            forall|j: int| 0 <= j < i ==> es[j].0 != key@,
        decreases n - i,
    {
        if entries[i].0 == *key {
            let (_, val) = entries.remove(i);
            proof {
                lemma_es_found_at(es, key@, i as int);
                lemma_entries_view(final(entries)@);
                assert(final(entries)@ =~= old(entries)@.take(i as int) + old(entries)@.skip(
                    i as int + 1,
                ));
                assert(entries_view(final(entries)@) =~= es.take(i as int) + es.skip(i as int + 1));
            }
            return Some(val);
        }
        i += 1;
    }
    proof {
        lemma_es_absent(es, key@);
        assert(entries_view(final(entries)@) =~= es);
    }
    None
}

/// Bind the given key to the given value, keeping entries in key order.
pub fn map_insert(entries: &mut Vec<(String, Ast)>, key: String, val: Ast)
    ensures
        entries_view(final(entries)@) == es_insert(entries_view(old(entries)@), key@, val@),
{
    let ghost es = entries_view(old(entries)@);
    proof {
        lemma_entries_view(old(entries)@);
    }
    let n = entries.len();
    let mut i: usize = 0;
    while i < n
        invariant
            0 <= i <= n,
            n == entries@.len(),
            entries@ == old(entries)@,
            es == entries_view(old(entries)@),
            es.len() == n,
            forall|j: int| 0 <= j < n ==> es[j] == (entries@[j].0@, entries@[j].1@),
            forall|j: int| 0 <= j < i ==> crate::text::chars_lt(es[j].0, key@),
        decreases n - i,
    {
        if !crate::text::str_lt(entries[i].0.as_str(), key.as_str()) {
            if entries[i].0 == key {
                let ghost kv = (key@, val@);
                entries.set(i, (key, val));
                proof {
                    lemma_es_insert_at(es, kv.0, kv.1, i as int);
                    lemma_entries_view(final(entries)@);
                    assert(entries_view(final(entries)@) =~= es.update(i as int, kv));
                }
            } else {
                let ghost kv = (key@, val@);
                entries.insert(i, (key, val));
                proof {
                    lemma_es_insert_at(es, kv.0, kv.1, i as int);
                    lemma_entries_view(final(entries)@);
                    assert(final(entries)@ =~= old(entries)@.take(i as int) + seq![
                        final(entries)@[i as int],
                    ] + old(entries)@.skip(i as int));
                    assert(entries_view(final(entries)@) =~= es.take(i as int) + seq![kv] + es.skip(
                        i as int,
                    ));
                }
            }
            return ;
        }
        i += 1;
    }
    let ghost kv = (key@, val@);
    entries.push((key, val));
    proof {
        lemma_es_insert_at(es, kv.0, kv.1, n as int);
        lemma_entries_view(final(entries)@);
        assert(final(entries)@ =~= old(entries)@.push(final(entries)@[n as int]));
        assert(entries_view(final(entries)@) =~= es.take(n as int) + seq![kv] + es.skip(n as int));
    }
}

impl AstV {
    /// The position a node carries.
    pub open spec fn pos(self) -> PosV {
        match self {
            AstV::Scalar(pos, _, _, _) => pos,
            AstV::Mapping(pos, _, _) => pos,
            AstV::List(pos, _, _) => pos,
            AstV::Null(pos, _, _) => pos,
        }
    }

    /// The tag a node carries.
    pub open spec fn tag(self) -> TagV {
        match self {
            AstV::Scalar(_, tag, _, _) => tag,
            AstV::Mapping(_, tag, _) => tag,
            AstV::List(_, tag, _) => tag,
            AstV::Null(_, tag, _) => tag,
        }
    }

    /// The same node with its tag replaced.
    pub open spec fn with_tag(self, tag: TagV) -> AstV {
        match self {
            AstV::Scalar(pos, _, kind, text) => AstV::Scalar(pos, tag, kind, text),
            AstV::Mapping(pos, _, entries) => AstV::Mapping(pos, tag, entries),
            AstV::List(pos, _, items) => AstV::List(pos, tag, items),
            AstV::Null(pos, _, kind) => AstV::Null(pos, tag, kind),
        }
    }
}

impl Clone for Ast {
    fn clone(&self) -> (r: Ast)
        ensures
            r@ == self@,
        decreases self,
    {
        match self {
            Ast::Scalar(p, t, k, s) => Ast::Scalar(p.clone(), t.clone(), *k, s.clone()),
            Ast::Null(p, t, k) => Ast::Null(p.clone(), t.clone(), *k),
            Ast::Mapping(p, t, entries) => {
                let mut out: Vec<(String, Ast)> = Vec::new();
                let n = entries.len();
                let mut i: usize = 0;
                while i < n
                    invariant
                        0 <= i <= n,
                        n == entries@.len(),
                        *self is Mapping,
                        self->Mapping_2 == *entries,
                        out@.len() == i,
                        forall|j: int|
                            0 <= j < i ==> out@[j].0@ == entries@[j].0@ && out@[j].1@
                                == entries@[j].1@,
                    decreases n - i,
                {
                    proof {
                        assert(self->Mapping_2 == *entries);
                        assert(decreases_to!(*self => self->Mapping_2));
                        assert(decreases_to!(self->Mapping_2 => self->Mapping_2[i as int].1));
                    }
                    let name = entries[i].0.clone();
                    let val = entries[i].1.clone();
                    out.push((name, val));
                    i += 1;
                }
                proof {
                    lemma_entries_view(out@);
                    lemma_entries_view(entries@);
                    assert(entries_view(out@) =~= entries_view(entries@));
                }
                Ast::Mapping(p.clone(), t.clone(), out)
            },
            Ast::List(p, t, items) => {
                let mut out: Vec<Ast> = Vec::new();
                let n = items.len();
                let mut i: usize = 0;
                while i < n
                    invariant
                        0 <= i <= n,
                        n == items@.len(),
                        *self is List,
                        self->List_2 == *items,
                        out@.len() == i,
                        forall|j: int| 0 <= j < i ==> out@[j]@ == items@[j]@,
                    decreases n - i,
                {
                    proof {
                        assert(self->List_2 == *items);
                        assert(decreases_to!(*self => self->List_2));
                        assert(decreases_to!(self->List_2 => self->List_2[i as int]));
                    }
                    let val = items[i].clone();
                    out.push(val);
                    i += 1;
                }
                proof {
                    lemma_items_view(out@);
                    lemma_items_view(items@);
                    assert(items_view(out@) =~= items_view(items@));
                }
                Ast::List(p.clone(), t.clone(), out)
            },
        }
    }
}

impl Ast {
    /// The position a node carries.
    pub fn pos(&self) -> (r: &Pos)
        ensures
            r@ == self@.pos(),
    {
        match self {
            Ast::Scalar(pos, _, _, _) => pos,
            Ast::Mapping(pos, _, _) => pos,
            Ast::List(pos, _, _) => pos,
            Ast::Null(pos, _, _) => pos,
        }
    }

    /// The tag a node carries.
    pub fn tag(&self) -> (r: &Tag)
        ensures
            r@ == self@.tag(),
    {
        match self {
            Ast::Scalar(_, tag, _, _) => tag,
            Ast::Mapping(_, tag, _) => tag,
            Ast::List(_, tag, _) => tag,
            Ast::Null(_, tag, _) => tag,
        }
    }

    /// The same node with its tag replaced.
    pub fn with_tag(self, tag: Tag) -> (r: Ast)
        ensures
            r@ == self@.with_tag(tag@),
    {
        match self {
            Ast::Scalar(pos, _, kind, text) => Ast::Scalar(pos, tag, kind, text),
            Ast::Mapping(pos, _, entries) => Ast::Mapping(pos, tag, entries),
            Ast::List(pos, _, items) => Ast::List(pos, tag, items),
            Ast::Null(pos, _, kind) => Ast::Null(pos, tag, kind),
        }
    }
}

} // verus!

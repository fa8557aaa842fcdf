//! Comparison of two canonical schema models.
//!
//! Diff never queries a database. Tables and views are matched by schema
//! and name, columns, indexes and foreign keys by name. Where several items
//! share a key, the last of them stands for the key. Every list in a report
//! is in key order.
use vstd::prelude::*;

use crate::model::{
    Column, ColumnSpec, Database, DatabaseSpec, ForeignKey, ForeignKeySpec, Index, IndexSpec,
    SchemaView, SchemaViewSpec, Table, TableSpec,
};
use crate::text::{owned, push_str};
use crate::order::{
    is_sorted_by, key_le, keys_distinct, lemma_key_order, lemma_lex_strict_total,
    lemma_part_order, part_order, sorted_by, stable_sort, text_key, view_keyed, KeyPart, Keyed,
};

verus! {

// ---------------------------------------------------------------------------
// Keyed collections
// ---------------------------------------------------------------------------

/// An item that a diff matches by key.
pub trait Entry: DeepView + Sized {
    /// The key an item with view `v` is matched and ordered by.
    spec fn entry_key(v: <Self as DeepView>::V) -> Seq<KeyPart>;

    /// Whether `self` may stand before `other` in key order.
    fn entry_key_le(&self, other: &Self) -> (r: bool)
        ensures
            r == key_le(Self::entry_key(self.deep_view()), Self::entry_key(other.deep_view())),
    ;

    /// A copy of `self`.
    fn duplicate(&self) -> (r: Self)
        ensures
            r.deep_view() == self.deep_view(),
    ;
}

/// An entry whose definitions a diff compares field by field.
pub trait Compared: Entry {
    /// Whether `self` and `other` are the same in every field.
    fn same(&self, other: &Self) -> (r: bool)
        ensures
            r == (self.deep_view() == other.deep_view()),
    ;
}

/// The key of an entry, as a function of its view.
pub open spec fn entry_keyed<T: Entry>() -> spec_fn(<T as DeepView>::V) -> Seq<KeyPart> {
    |v: <T as DeepView>::V| T::entry_key(v)
}

/// The last item of `s` with key `k`, if any.
pub open spec fn keyed<A>(s: Seq<A>, k: Seq<KeyPart>, kf: spec_fn(A) -> Seq<KeyPart>) -> Option<A>
    decreases s.len(),
{
    if s.len() == 0 {
        None
    } else if kf(s.last()) == k {
        Some(s.last())
    } else {
        keyed(s.drop_last(), k, kf)
    }
}

/// Whether an item after position `i` of `s` shares the key of `s[i]`.
pub open spec fn shadowed<A>(s: Seq<A>, i: int, kf: spec_fn(A) -> Seq<KeyPart>) -> bool {
    exists|j: int| i < j < s.len() && kf(#[trigger] s[j]) == kf(s[i])
}

/// Of the first `i` items of `s`, those that no later item shadows.
pub open spec fn unshadowed<A>(s: Seq<A>, i: int, kf: spec_fn(A) -> Seq<KeyPart>) -> Seq<A>
    decreases i,
{
    if i <= 0 {
        Seq::empty()
    } else if shadowed(s, i - 1, kf) {
        unshadowed(s, i - 1, kf)
    } else {
        unshadowed(s, i - 1, kf).push(s[i - 1])
    }
}

/// The items of `s` that stand for their keys, in key order.
pub open spec fn entries<A>(s: Seq<A>, kf: spec_fn(A) -> Seq<KeyPart>) -> Seq<A> {
    sorted_by(unshadowed(s, s.len() as int, kf), kf)
}

/// The items of `s` whose keys `other` lacks, in the order of `s`.
pub open spec fn missing_from<A>(s: Seq<A>, other: Seq<A>, kf: spec_fn(A) -> Seq<KeyPart>) -> Seq<A>
    decreases s.len(),
{
    if s.len() == 0 {
        Seq::empty()
    } else if keyed(other, kf(s.last()), kf) is Some {
        missing_from(s.drop_last(), other, kf)
    } else {
        missing_from(s.drop_last(), other, kf).push(s.last())
    }
}

/// For each item of `s` whose key `old` has with another value, the pair
/// of the old item and the item, in the order of `s`.
pub open spec fn changed_pairs<A>(s: Seq<A>, old: Seq<A>, kf: spec_fn(A) -> Seq<KeyPart>) -> Seq<
    (A, A),
>
    decreases s.len(),
{
    if s.len() == 0 {
        Seq::empty()
    } else {
        let rest = changed_pairs(s.drop_last(), old, kf);
        match keyed(old, kf(s.last()), kf) {
            Some(o) => if o != s.last() {
                rest.push((o, s.last()))
            } else {
                rest
            },
            None => rest,
        }
    }
}

/// The items only `new` has, in key order.
pub open spec fn added_items<A>(old: Seq<A>, new: Seq<A>, kf: spec_fn(A) -> Seq<KeyPart>) -> Seq<A> {
    missing_from(entries(new, kf), old, kf)
}

/// The items only `old` has, in key order.
pub open spec fn removed_items<A>(old: Seq<A>, new: Seq<A>, kf: spec_fn(A) -> Seq<KeyPart>) -> Seq<
    A,
> {
    missing_from(entries(old, kf), new, kf)
}

/// The items both have with different values, in key order.
pub open spec fn changed_items<A>(old: Seq<A>, new: Seq<A>, kf: spec_fn(A) -> Seq<KeyPart>) -> Seq<
    (A, A),
> {
    changed_pairs(entries(new, kf), old, kf)
}

/// An item ordered by its entry key.
struct ByEntry<T>(T);

impl<T: Entry> DeepView for ByEntry<T> {
    type V = <T as DeepView>::V;

    closed spec fn deep_view(&self) -> <T as DeepView>::V {
        self.0.deep_view()
    }
}

impl<T: Entry> Keyed for ByEntry<T> {
    closed spec fn view_key(v: <T as DeepView>::V) -> Seq<KeyPart> {
        T::entry_key(v)
    }

    fn key_le(&self, other: &Self) -> (r: bool) {
        self.0.entry_key_le(&other.0)
    }
}

fn sort_entries<T: Entry>(v: Vec<T>) -> (r: Vec<T>)
    ensures
        r.deep_view() == sorted_by(v.deep_view(), entry_keyed::<T>()),
{
    let ghost input = v.deep_view();
    let mut rest = v;
    let mut wrapped: Vec<ByEntry<T>> = Vec::new();
    let mut k: usize = 0;
    assert(input.len() == rest.len());
    assert(wrapped.deep_view() =~= input.take(0));
    while rest.len() > 0
        invariant
            input.len() <= usize::MAX,
            k + rest.len() == input.len(),
            rest.deep_view() == input.skip(k as int),
            wrapped.deep_view() == input.take(k as int),
        decreases rest.len(),
    {
        let ghost before_rest = rest.deep_view();
        let x = rest.remove(0);
        assert(x.deep_view() == before_rest[0]);
        assert(rest.deep_view() =~= before_rest.drop_first());
        push_entry(&mut wrapped, ByEntry(x));
        k = k + 1;
        assert(wrapped.deep_view() =~= input.take(k as int));
        assert(rest.deep_view() =~= input.skip(k as int));
    }
    assert(input.take(k as int) =~= input);
    stable_sort(&mut wrapped);
    assert(view_keyed::<ByEntry<T>>() =~= entry_keyed::<T>());
    let ghost sorted = wrapped.deep_view();
    let mut out: Vec<T> = Vec::new();
    let mut k: usize = 0;
    assert(sorted.len() == wrapped.len());
    assert(out.deep_view() =~= sorted.take(0));
    while wrapped.len() > 0
        invariant
            sorted.len() <= usize::MAX,
            k + wrapped.len() == sorted.len(),
            wrapped.deep_view() == sorted.skip(k as int),
            out.deep_view() == sorted.take(k as int),
        decreases wrapped.len(),
    {
        let ghost before = wrapped.deep_view();
        let ByEntry(x) = wrapped.remove(0);
        assert(x.deep_view() == before[0]);
        assert(wrapped.deep_view() =~= before.drop_first());
        push_entry(&mut out, x);
        k = k + 1;
        assert(out.deep_view() =~= sorted.take(k as int));
        assert(wrapped.deep_view() =~= sorted.skip(k as int));
    }
    assert(sorted.take(k as int) =~= sorted);
    out
}

fn same_key<T: Entry>(a: &T, b: &T) -> (r: bool)
    ensures
        r == (T::entry_key(a.deep_view()) == T::entry_key(b.deep_view())),
{
    proof {
        lemma_part_order();
        lemma_lex_strict_total(part_order());
    }
    a.entry_key_le(b) && b.entry_key_le(a)
}

fn find_keyed<T: Entry>(s: &Vec<T>, x: &T) -> (r: Option<usize>)
    ensures
        match r {
            Some(j) => j < s.len() && keyed(
                s.deep_view(),
                T::entry_key(x.deep_view()),
                entry_keyed::<T>(),
            ) == Some(s.deep_view()[j as int]),
            None => keyed(s.deep_view(), T::entry_key(x.deep_view()), entry_keyed::<T>()) is None,
        },
{
    let ghost all = s.deep_view();
    let ghost k = T::entry_key(x.deep_view());
    let ghost kf = entry_keyed::<T>();
    let mut found: Option<usize> = None;
    let mut j: usize = 0;
    while j < s.len()
        invariant
            all == s.deep_view(),
            all.len() == s.len(),
            k == T::entry_key(x.deep_view()),
            kf == entry_keyed::<T>(),
            j <= s.len(),
            match found {
                Some(p) => p < j && keyed(all.take(j as int), k, kf) == Some(all[p as int]),
                None => keyed(all.take(j as int), k, kf) is None,
            },
        decreases s.len() - j,
    {
        proof {
            assert(all.take(j + 1).drop_last() =~= all.take(j as int));
            assert(all.take(j + 1).last() == all[j as int]);
        }
        if same_key(&s[j], x) {
            found = Some(j);
        }
        j = j + 1;
    }
    assert(all.take(j as int) =~= all);
    found
}

fn is_shadowed<T: Entry>(s: &Vec<T>, i: usize) -> (r: bool)
    requires
        i < s.len(),
    ensures
        r == shadowed(s.deep_view(), i as int, entry_keyed::<T>()),
{
    let ghost all = s.deep_view();
    let ghost kf = entry_keyed::<T>();
    let mut j: usize = i + 1;
    while j < s.len()
        invariant
            all == s.deep_view(),
            all.len() == s.len(),
            kf == entry_keyed::<T>(),
            i < j <= s.len(),
            forall|p: int| i < p < j ==> kf(#[trigger] all[p]) != kf(all[i as int]),
        decreases s.len() - j,
    {
        if same_key(&s[j], &s[i]) {
            assert(kf(all[j as int]) == kf(all[i as int]));
            return true;
        }
        j = j + 1;
    }
    false
}

fn push_entry<T: DeepView>(v: &mut Vec<T>, x: T)
    ensures
        final(v).deep_view() == old(v).deep_view().push(x.deep_view()),
{
    let ghost before = *v;
    let ghost g = x;
    v.push(x);
    proof {
        crate::model::lemma_push_deep_view(before, *v, g);
    }
}

fn entries_of<T: Entry>(s: &Vec<T>) -> (r: Vec<T>)
    ensures
        r.deep_view() == entries(s.deep_view(), entry_keyed::<T>()),
{
    let ghost all = s.deep_view();
    let ghost kf = entry_keyed::<T>();
    let mut out: Vec<T> = Vec::new();
    assert(out.deep_view() =~= Seq::<<T as DeepView>::V>::empty());
    let mut i: usize = 0;
    while i < s.len()
        invariant
            all == s.deep_view(),
            all.len() == s.len(),
            kf == entry_keyed::<T>(),
            i <= s.len(),
            out.deep_view() == unshadowed(all, i as int, kf),
        decreases s.len() - i,
    {
        if !is_shadowed(s, i) {
            push_entry(&mut out, s[i].duplicate());
        }
        i = i + 1;
    }
    sort_entries(out)
}

fn missing<T: Entry>(s: &Vec<T>, other: &Vec<T>) -> (r: Vec<T>)
    ensures
        r.deep_view() == missing_from(s.deep_view(), other.deep_view(), entry_keyed::<T>()),
{
    let ghost all = s.deep_view();
    let ghost kf = entry_keyed::<T>();
    let mut out: Vec<T> = Vec::new();
    assert(out.deep_view() =~= Seq::<<T as DeepView>::V>::empty());
    let mut i: usize = 0;
    while i < s.len()
        invariant
            all == s.deep_view(),
            all.len() == s.len(),
            kf == entry_keyed::<T>(),
            i <= s.len(),
            out.deep_view() == missing_from(all.take(i as int), other.deep_view(), kf),
        decreases s.len() - i,
    {
        proof {
            assert(all.take(i + 1).drop_last() =~= all.take(i as int));
            assert(all.take(i + 1).last() == all[i as int]);
        }
        if find_keyed(other, &s[i]).is_none() {
            push_entry(&mut out, s[i].duplicate());
        }
        i = i + 1;
    }
    assert(all.take(i as int) =~= all);
    out
}

/// An item whose definition changed between two schemas.
pub struct Change<T> {
    /// The definition in the old schema.
    pub old: T,
    /// The definition in the new schema.
    pub new: T,
}

impl<T: DeepView> DeepView for Change<T> {
    type V = (<T as DeepView>::V, <T as DeepView>::V);

    open spec fn deep_view(&self) -> (<T as DeepView>::V, <T as DeepView>::V) {
        (self.old.deep_view(), self.new.deep_view())
    }
}

/// A column whose definition changed between two schemas.
pub type ColumnChange = Change<Column>;

/// An index whose definition changed between two schemas.
pub type IndexChange = Change<Index>;

/// A foreign key whose definition changed between two schemas.
pub type ForeignKeyChange = Change<ForeignKey>;

fn changes<T: Compared>(new_entries: &Vec<T>, old: &Vec<T>) -> (r: Vec<Change<T>>)
    ensures
        r.deep_view() == changed_pairs(new_entries.deep_view(), old.deep_view(), entry_keyed::<T>()),
{
    let ghost all = new_entries.deep_view();
    let ghost kf = entry_keyed::<T>();
    let mut out: Vec<Change<T>> = Vec::new();
    assert(out.deep_view() =~= Seq::<(<T as DeepView>::V, <T as DeepView>::V)>::empty());
    let mut i: usize = 0;
    while i < new_entries.len()
        invariant
            all == new_entries.deep_view(),
            all.len() == new_entries.len(),
            kf == entry_keyed::<T>(),
            i <= new_entries.len(),
            out.deep_view() == changed_pairs(all.take(i as int), old.deep_view(), kf),
        decreases new_entries.len() - i,
    {
        proof {
            assert(all.take(i + 1).drop_last() =~= all.take(i as int));
            assert(all.take(i + 1).last() == all[i as int]);
        }
        let item = &new_entries[i];
        match find_keyed(old, item) {
            Some(j) => {
                if !old[j].same(item) {
                    push_entry(&mut out, Change { old: old[j].duplicate(), new: item.duplicate() });
                }
            },
            None => {},
        }
        i = i + 1;
    }
    assert(all.take(i as int) =~= all);
    out
}

/// What changed in one keyed collection.
pub struct ItemChanges<T> {
    /// Items only the new schema has.
    pub added: Vec<T>,
    /// Items only the old schema has.
    pub removed: Vec<T>,
    /// Items both have, with different definitions.
    pub changed: Vec<Change<T>>,
}

impl<T: Compared> ItemChanges<T> {
    /// Whether nothing changed.
    pub open spec fn none(&self) -> bool {
        self.added.len() == 0 && self.removed.len() == 0 && self.changed.len() == 0
    }

    /// Whether nothing changed.
    pub fn is_empty(&self) -> (r: bool)
        ensures
            r == self.none(),
    {
        self.added.len() == 0 && self.removed.len() == 0 && self.changed.len() == 0
    }
}

fn diff_items<T: Compared>(old: &Vec<T>, new: &Vec<T>) -> (r: ItemChanges<T>)
    ensures
        r.added.deep_view() == added_items(old.deep_view(), new.deep_view(), entry_keyed::<T>()),
        r.removed.deep_view() == removed_items(old.deep_view(), new.deep_view(), entry_keyed::<T>()),
        r.changed.deep_view() == changed_items(old.deep_view(), new.deep_view(), entry_keyed::<T>()),
{
    let new_entries = entries_of(new);
    let old_entries = entries_of(old);
    let added = missing(&new_entries, old);
    let removed = missing(&old_entries, new);
    let changed = changes(&new_entries, old);
    ItemChanges { added, removed, changed }
}

// ---------------------------------------------------------------------------
// The entries of a schema
// ---------------------------------------------------------------------------

fn opt_text_eq(a: &Option<String>, b: &Option<String>) -> (r: bool)
    ensures
        r == (a.deep_view() == b.deep_view()),
{
    match (a, b) {
        (Some(x), Some(y)) => *x == *y,
        (None, None) => true,
        _ => false,
    }
}

fn name_key_le(a: &String, b: &String) -> (r: bool)
    ensures
        r == key_le(text_key(seq![a@]), text_key(seq![b@])),
{
    a.key_le(b)
}

impl Entry for Column {
    open spec fn entry_key(v: ColumnSpec) -> Seq<KeyPart> {
        text_key(seq![v.name])
    }

    fn entry_key_le(&self, other: &Self) -> (r: bool) {
        name_key_le(&self.name, &other.name)
    }

    fn duplicate(&self) -> (r: Self) {
        self.clone()
    }
}

impl Compared for Column {
    fn same(&self, other: &Self) -> (r: bool) {
        self.name == other.name && self.ordinal_position == other.ordinal_position
            && self.data_type == other.data_type && self.full_type == other.full_type
            && self.nullable == other.nullable && opt_text_eq(&self.default, &other.default)
            && self.auto_increment == other.auto_increment && self.primary_key == other.primary_key
            && self.unique == other.unique && opt_text_eq(&self.comment, &other.comment)
            && self.generated == other.generated && opt_text_eq(
            &self.expression,
            &other.expression,
        )
    }
}

impl Entry for Index {
    open spec fn entry_key(v: IndexSpec) -> Seq<KeyPart> {
        text_key(seq![v.name])
    }

    fn entry_key_le(&self, other: &Self) -> (r: bool) {
        name_key_le(&self.name, &other.name)
    }

    fn duplicate(&self) -> (r: Self) {
        self.clone()
    }
}

impl Compared for Index {
    fn same(&self, other: &Self) -> (r: bool) {
        self.name == other.name && self.unique == other.unique && crate::order::texts_eq(
            &self.columns,
            &other.columns,
        ) && self.index_type == other.index_type
    }
}

impl Entry for ForeignKey {
    open spec fn entry_key(v: ForeignKeySpec) -> Seq<KeyPart> {
        text_key(seq![v.name])
    }

    fn entry_key_le(&self, other: &Self) -> (r: bool) {
        name_key_le(&self.name, &other.name)
    }

    fn duplicate(&self) -> (r: Self) {
        self.clone()
    }
}

impl Compared for ForeignKey {
    fn same(&self, other: &Self) -> (r: bool) {
        self.name == other.name && crate::order::texts_eq(&self.columns, &other.columns)
            && self.referenced_schema == other.referenced_schema && self.referenced_table
            == other.referenced_table && crate::order::texts_eq(
            &self.referenced_columns,
            &other.referenced_columns,
        ) && self.on_update == other.on_update && self.on_delete == other.on_delete
    }
}

impl Entry for Table {
    open spec fn entry_key(v: TableSpec) -> Seq<KeyPart> {
        crate::model::qualified_key(v.schema, v.name)
    }

    fn entry_key_le(&self, other: &Self) -> (r: bool) {
        self.key_le(other)
    }

    fn duplicate(&self) -> (r: Self) {
        self.clone()
    }
}

impl Entry for SchemaView {
    open spec fn entry_key(v: SchemaViewSpec) -> Seq<KeyPart> {
        crate::model::qualified_key(v.schema, v.name)
    }

    fn entry_key_le(&self, other: &Self) -> (r: bool) {
        self.key_le(other)
    }

    fn duplicate(&self) -> (r: Self) {
        self.clone()
    }
}

// ---------------------------------------------------------------------------
// Tables and views
// ---------------------------------------------------------------------------

/// The differences inside a single table.
pub struct TableDiff {
    /// Object namespace of the table.
    pub schema: String,
    /// Table name.
    pub name: String,
    /// Columns added in the new schema.
    pub added_columns: Vec<Column>,
    /// Columns removed in the new schema.
    pub removed_columns: Vec<Column>,
    /// Columns that exist in both schemas but differ.
    pub changed_columns: Vec<ColumnChange>,
    /// Indexes added in the new schema.
    pub added_indexes: Vec<Index>,
    /// Indexes removed in the new schema.
    pub removed_indexes: Vec<Index>,
    /// Indexes that exist in both schemas but differ.
    pub changed_indexes: Vec<IndexChange>,
    /// Foreign keys added in the new schema.
    pub added_foreign_keys: Vec<ForeignKey>,
    /// Foreign keys removed in the new schema.
    pub removed_foreign_keys: Vec<ForeignKey>,
    /// Foreign keys that exist in both schemas but differ.
    pub changed_foreign_keys: Vec<ForeignKeyChange>,
}

pub struct TableDiffSpec {
    pub schema: Seq<char>,
    pub name: Seq<char>,
    pub added_columns: Seq<ColumnSpec>,
    pub removed_columns: Seq<ColumnSpec>,
    pub changed_columns: Seq<(ColumnSpec, ColumnSpec)>,
    pub added_indexes: Seq<IndexSpec>,
    pub removed_indexes: Seq<IndexSpec>,
    pub changed_indexes: Seq<(IndexSpec, IndexSpec)>,
    pub added_foreign_keys: Seq<ForeignKeySpec>,
    pub removed_foreign_keys: Seq<ForeignKeySpec>,
    pub changed_foreign_keys: Seq<(ForeignKeySpec, ForeignKeySpec)>,
}

impl DeepView for TableDiff {
    type V = TableDiffSpec;

    open spec fn deep_view(&self) -> TableDiffSpec {
        TableDiffSpec {
            schema: self.schema@,
            name: self.name@,
            added_columns: self.added_columns.deep_view(),
            removed_columns: self.removed_columns.deep_view(),
            changed_columns: self.changed_columns.deep_view(),
            added_indexes: self.added_indexes.deep_view(),
            removed_indexes: self.removed_indexes.deep_view(),
            changed_indexes: self.changed_indexes.deep_view(),
            added_foreign_keys: self.added_foreign_keys.deep_view(),
            removed_foreign_keys: self.removed_foreign_keys.deep_view(),
            changed_foreign_keys: self.changed_foreign_keys.deep_view(),
        }
    }
}

/// The differences inside a single view.
pub struct ViewDiff {
    /// Object namespace of the view.
    pub schema: String,
    /// View name.
    pub name: String,
    /// Columns added in the new schema.
    pub added_columns: Vec<Column>,
    /// Columns removed in the new schema.
    pub removed_columns: Vec<Column>,
    /// Columns that exist in both schemas but differ.
    pub changed_columns: Vec<ColumnChange>,
}

pub struct ViewDiffSpec {
    pub schema: Seq<char>,
    pub name: Seq<char>,
    pub added_columns: Seq<ColumnSpec>,
    pub removed_columns: Seq<ColumnSpec>,
    pub changed_columns: Seq<(ColumnSpec, ColumnSpec)>,
}

impl DeepView for ViewDiff {
    type V = ViewDiffSpec;

    open spec fn deep_view(&self) -> ViewDiffSpec {
        ViewDiffSpec {
            schema: self.schema@,
            name: self.name@,
            added_columns: self.added_columns.deep_view(),
            removed_columns: self.removed_columns.deep_view(),
            changed_columns: self.changed_columns.deep_view(),
        }
    }
}

/// How table `old` became table `new`, when anything in it changed.
pub open spec fn table_diff(old: TableSpec, new: TableSpec) -> Option<TableDiffSpec> {
    let ck = entry_keyed::<Column>();
    let ik = entry_keyed::<Index>();
    let fk = entry_keyed::<ForeignKey>();
    let d = TableDiffSpec {
        schema: new.schema,
        name: new.name,
        added_columns: added_items(old.columns, new.columns, ck),
        removed_columns: removed_items(old.columns, new.columns, ck),
        changed_columns: changed_items(old.columns, new.columns, ck),
        added_indexes: added_items(old.indexes, new.indexes, ik),
        removed_indexes: removed_items(old.indexes, new.indexes, ik),
        changed_indexes: changed_items(old.indexes, new.indexes, ik),
        added_foreign_keys: added_items(old.foreign_keys, new.foreign_keys, fk),
        removed_foreign_keys: removed_items(old.foreign_keys, new.foreign_keys, fk),
        changed_foreign_keys: changed_items(old.foreign_keys, new.foreign_keys, fk),
    };
    if d.added_columns.len() == 0 && d.removed_columns.len() == 0 && d.changed_columns.len() == 0
        && d.added_indexes.len() == 0 && d.removed_indexes.len() == 0 && d.changed_indexes.len()
        == 0 && d.added_foreign_keys.len() == 0 && d.removed_foreign_keys.len() == 0
        && d.changed_foreign_keys.len() == 0 {
        None
    } else {
        Some(d)
    }
}

/// How view `old` became view `new`, when any column changed.
pub open spec fn view_diff(old: SchemaViewSpec, new: SchemaViewSpec) -> Option<ViewDiffSpec> {
    let ck = entry_keyed::<Column>();
    let d = ViewDiffSpec {
        schema: new.schema,
        name: new.name,
        added_columns: added_items(old.columns, new.columns, ck),
        removed_columns: removed_items(old.columns, new.columns, ck),
        changed_columns: changed_items(old.columns, new.columns, ck),
    };
    if d.added_columns.len() == 0 && d.removed_columns.len() == 0 && d.changed_columns.len() == 0 {
        None
    } else {
        Some(d)
    }
}

/// For each table of `s` that `old` also has, how it changed, when it did.
pub open spec fn table_diffs(s: Seq<TableSpec>, old: Seq<TableSpec>) -> Seq<TableDiffSpec>
    decreases s.len(),
{
    if s.len() == 0 {
        Seq::empty()
    } else {
        let rest = table_diffs(s.drop_last(), old);
        match keyed(old, Table::entry_key(s.last()), entry_keyed::<Table>()) {
            Some(o) => match table_diff(o, s.last()) {
                Some(d) => rest.push(d),
                None => rest,
            },
            None => rest,
        }
    }
}

/// For each view of `s` that `old` also has, how it changed, when it did.
pub open spec fn view_diffs(s: Seq<SchemaViewSpec>, old: Seq<SchemaViewSpec>) -> Seq<ViewDiffSpec>
    decreases s.len(),
{
    if s.len() == 0 {
        Seq::empty()
    } else {
        let rest = view_diffs(s.drop_last(), old);
        match keyed(old, SchemaView::entry_key(s.last()), entry_keyed::<SchemaView>()) {
            Some(o) => match view_diff(o, s.last()) {
                Some(d) => rest.push(d),
                None => rest,
            },
            None => rest,
        }
    }
}

/// The tables both schemas have that changed, in key order.
pub open spec fn modified_tables(old: Seq<TableSpec>, new: Seq<TableSpec>) -> Seq<TableDiffSpec> {
    table_diffs(entries(new, entry_keyed::<Table>()), old)
}

/// The views both schemas have that changed, in key order.
pub open spec fn modified_views(old: Seq<SchemaViewSpec>, new: Seq<SchemaViewSpec>) -> Seq<
    ViewDiffSpec,
> {
    view_diffs(entries(new, entry_keyed::<SchemaView>()), old)
}

/// Compare two tables; `None` when nothing in them changed.
pub fn diff_table(old: &Table, new: &Table) -> (r: Option<TableDiff>)
    ensures
        r.deep_view() == table_diff(old@, new@),
{
    let columns = diff_items(&old.columns, &new.columns);
    let indexes = diff_items(&old.indexes, &new.indexes);
    let foreign_keys = diff_items(&old.foreign_keys, &new.foreign_keys);
    if columns.is_empty() && indexes.is_empty() && foreign_keys.is_empty() {
        return None;
    }
    Some(
        TableDiff {
            schema: new.schema.clone(),
            name: new.name.clone(),
            added_columns: columns.added,
            removed_columns: columns.removed,
            changed_columns: columns.changed,
            added_indexes: indexes.added,
            removed_indexes: indexes.removed,
            changed_indexes: indexes.changed,
            added_foreign_keys: foreign_keys.added,
            removed_foreign_keys: foreign_keys.removed,
            changed_foreign_keys: foreign_keys.changed,
        },
    )
}

/// Compare two views; `None` when no column changed.
pub fn diff_view(old: &SchemaView, new: &SchemaView) -> (r: Option<ViewDiff>)
    ensures
        r.deep_view() == view_diff(old@, new@),
{
    let columns = diff_items(&old.columns, &new.columns);
    if columns.is_empty() {
        return None;
    }
    Some(
        ViewDiff {
            schema: new.schema.clone(),
            name: new.name.clone(),
            added_columns: columns.added,
            removed_columns: columns.removed,
            changed_columns: columns.changed,
        },
    )
}

/// Table-level change categories.
pub struct TableChanges {
    /// Tables added in the new schema.
    pub added: Vec<Table>,
    /// Tables removed in the new schema.
    pub removed: Vec<Table>,
    /// Tables that exist in both schemas but differ.
    pub modified: Vec<TableDiff>,
}

/// View-level change categories.
pub struct ViewChanges {
    /// Views added in the new schema.
    pub added: Vec<SchemaView>,
    /// Views removed in the new schema.
    pub removed: Vec<SchemaView>,
    /// Views that exist in both schemas but differ.
    pub modified: Vec<ViewDiff>,
}

fn table_modifications(new_entries: &Vec<Table>, old: &Vec<Table>) -> (r: Vec<TableDiff>)
    ensures
        r.deep_view() == table_diffs(new_entries.deep_view(), old.deep_view()),
{
    let ghost all = new_entries.deep_view();
    let mut out: Vec<TableDiff> = Vec::new();
    assert(out.deep_view() =~= Seq::<TableDiffSpec>::empty());
    let mut i: usize = 0;
    while i < new_entries.len()
        invariant
            all == new_entries.deep_view(),
            all.len() == new_entries.len(),
            i <= new_entries.len(),
            out.deep_view() == table_diffs(all.take(i as int), old.deep_view()),
        decreases new_entries.len() - i,
    {
        proof {
            assert(all.take(i + 1).drop_last() =~= all.take(i as int));
            assert(all.take(i + 1).last() == all[i as int]);
        }
        match find_keyed(old, &new_entries[i]) {
            Some(j) => match diff_table(&old[j], &new_entries[i]) {
                Some(d) => push_entry(&mut out, d),
                None => {},
            },
            None => {},
        }
        i = i + 1;
    }
    assert(all.take(i as int) =~= all);
    out
}

fn view_modifications(new_entries: &Vec<SchemaView>, old: &Vec<SchemaView>) -> (r: Vec<ViewDiff>)
    ensures
        r.deep_view() == view_diffs(new_entries.deep_view(), old.deep_view()),
{
    let ghost all = new_entries.deep_view();
    let mut out: Vec<ViewDiff> = Vec::new();
    assert(out.deep_view() =~= Seq::<ViewDiffSpec>::empty());
    let mut i: usize = 0;
    while i < new_entries.len()
        invariant
            all == new_entries.deep_view(),
            all.len() == new_entries.len(),
            i <= new_entries.len(),
            out.deep_view() == view_diffs(all.take(i as int), old.deep_view()),
        decreases new_entries.len() - i,
    {
        proof {
            assert(all.take(i + 1).drop_last() =~= all.take(i as int));
            assert(all.take(i + 1).last() == all[i as int]);
        }
        match find_keyed(old, &new_entries[i]) {
            Some(j) => match diff_view(&old[j], &new_entries[i]) {
                Some(d) => push_entry(&mut out, d),
                None => {},
            },
            None => {},
        }
        i = i + 1;
    }
    assert(all.take(i as int) =~= all);
    out
}

/// Compare the tables of two schemas.
pub fn diff_tables(old: &Vec<Table>, new: &Vec<Table>) -> (r: TableChanges)
    ensures
        r.added.deep_view() == added_items(old.deep_view(), new.deep_view(), entry_keyed::<Table>()),
        r.removed.deep_view() == removed_items(
            old.deep_view(),
            new.deep_view(),
            entry_keyed::<Table>(),
        ),
        r.modified.deep_view() == modified_tables(old.deep_view(), new.deep_view()),
{
    let new_entries = entries_of(new);
    let old_entries = entries_of(old);
    let added = missing(&new_entries, old);
    let removed = missing(&old_entries, new);
    let modified = table_modifications(&new_entries, old);
    TableChanges { added, removed, modified }
}

/// Compare the views of two schemas.
pub fn diff_views(old: &Vec<SchemaView>, new: &Vec<SchemaView>) -> (r: ViewChanges)
    ensures
        r.added.deep_view() == added_items(
            old.deep_view(),
            new.deep_view(),
            entry_keyed::<SchemaView>(),
        ),
        r.removed.deep_view() == removed_items(
            old.deep_view(),
            new.deep_view(),
            entry_keyed::<SchemaView>(),
        ),
        r.modified.deep_view() == modified_views(old.deep_view(), new.deep_view()),
{
    let new_entries = entries_of(new);
    let old_entries = entries_of(old);
    let added = missing(&new_entries, old);
    let removed = missing(&old_entries, new);
    let modified = view_modifications(&new_entries, old);
    ViewChanges { added, removed, modified }
}

// ---------------------------------------------------------------------------
// The report
// ---------------------------------------------------------------------------

/// Counts of changes at the table and view level.
#[derive(Debug, Clone, Copy, PartialEq, Eq, Structural)]
pub struct DiffSummary {
    /// Tables present only in the new schema.
    pub added_tables: usize,
    /// Tables present only in the old schema.
    pub removed_tables: usize,
    /// Tables present in both schemas but with different columns, indexes, or keys.
    pub modified_tables: usize,
    /// Views present only in the new schema.
    pub added_views: usize,
    /// Views present only in the old schema.
    pub removed_views: usize,
    /// Views present in both schemas but with different columns.
    pub modified_views: usize,
    /// Sum of all top-level change entries.
    pub total_changes: usize,
}

/// The result of comparing an old schema to a new one.
pub struct DiffReport {
    /// Counts of detected changes.
    pub summary: DiffSummary,
    /// Table-level changes.
    pub tables: TableChanges,
    /// View-level changes.
    pub views: ViewChanges,
}

proof fn lemma_unshadowed_len<A>(s: Seq<A>, i: int, kf: spec_fn(A) -> Seq<KeyPart>)
    requires
        0 <= i,
    ensures
        unshadowed(s, i, kf).len() <= i,
    decreases i,
{
    if i > 0 {
        lemma_unshadowed_len(s, i - 1, kf);
    }
}

proof fn lemma_entries_len<A>(s: Seq<A>, kf: spec_fn(A) -> Seq<KeyPart>)
    ensures
        entries(s, kf).len() <= s.len(),
{
    lemma_unshadowed_len(s, s.len() as int, kf);
    crate::order::lemma_sorted_by_len(unshadowed(s, s.len() as int, kf), kf);
}

proof fn lemma_missing_len<A>(s: Seq<A>, other: Seq<A>, kf: spec_fn(A) -> Seq<KeyPart>)
    ensures
        missing_from(s, other, kf).len() <= s.len(),
    decreases s.len(),
{
    if s.len() > 0 {
        lemma_missing_len(s.drop_last(), other, kf);
    }
}

proof fn lemma_table_split(s: Seq<TableSpec>, old: Seq<TableSpec>)
    ensures
        missing_from(s, old, entry_keyed::<Table>()).len() + table_diffs(s, old).len() <= s.len(),
    decreases s.len(),
{
    if s.len() > 0 {
        lemma_table_split(s.drop_last(), old);
    }
}

proof fn lemma_view_split(s: Seq<SchemaViewSpec>, old: Seq<SchemaViewSpec>)
    ensures
        missing_from(s, old, entry_keyed::<SchemaView>()).len() + view_diffs(s, old).len()
            <= s.len(),
    decreases s.len(),
{
    if s.len() > 0 {
        lemma_view_split(s.drop_last(), old);
    }
}

/// Compare two schema models and return a deterministic report.
pub fn diff(old: &Database, new: &Database) -> (r: DiffReport)
    requires
        old.tables.len() + new.tables.len() + old.views.len() + new.views.len() <= usize::MAX,
    ensures
        r.tables.added.deep_view() == added_items(
            old@.tables,
            new@.tables,
            entry_keyed::<Table>(),
        ),
        r.tables.removed.deep_view() == removed_items(
            old@.tables,
            new@.tables,
            entry_keyed::<Table>(),
        ),
        r.tables.modified.deep_view() == modified_tables(old@.tables, new@.tables),
        r.views.added.deep_view() == added_items(
            old@.views,
            new@.views,
            entry_keyed::<SchemaView>(),
        ),
        r.views.removed.deep_view() == removed_items(
            old@.views,
            new@.views,
            entry_keyed::<SchemaView>(),
        ),
        r.views.modified.deep_view() == modified_views(old@.views, new@.views),
        r.summary.added_tables == r.tables.added.len(),
        r.summary.removed_tables == r.tables.removed.len(),
        r.summary.modified_tables == r.tables.modified.len(),
        r.summary.added_views == r.views.added.len(),
        r.summary.removed_views == r.views.removed.len(),
        r.summary.modified_views == r.views.modified.len(),
        r.summary.total_changes == r.tables.added.len() + r.tables.removed.len()
            + r.tables.modified.len() + r.views.added.len() + r.views.removed.len()
            + r.views.modified.len(),
        r.summary.total_changes == change_count(old@, new@),
{
    let tables = diff_tables(&old.tables, &new.tables);
    let views = diff_views(&old.views, &new.views);
    proof {
        let tk = entry_keyed::<Table>();
        let vk = entry_keyed::<SchemaView>();
        lemma_entries_len(new@.tables, tk);
        lemma_entries_len(old@.tables, tk);
        lemma_table_split(entries(new@.tables, tk), old@.tables);
        lemma_missing_len(entries(old@.tables, tk), new@.tables, tk);
        lemma_entries_len(new@.views, vk);
        lemma_entries_len(old@.views, vk);
        lemma_view_split(entries(new@.views, vk), old@.views);
        lemma_missing_len(entries(old@.views, vk), new@.views, vk);
        assert(tables.added.len() == tables.added.deep_view().len());
        assert(tables.removed.len() == tables.removed.deep_view().len());
        assert(tables.modified.len() == tables.modified.deep_view().len());
        assert(views.added.len() == views.added.deep_view().len());
        assert(views.removed.len() == views.removed.deep_view().len());
        assert(views.modified.len() == views.modified.deep_view().len());
        assert(old@.tables.len() == old.tables.len());
        assert(new@.tables.len() == new.tables.len());
        assert(old@.views.len() == old.views.len());
        assert(new@.views.len() == new.views.len());
    }
    let summary = DiffSummary {
        added_tables: tables.added.len(),
        removed_tables: tables.removed.len(),
        modified_tables: tables.modified.len(),
        added_views: views.added.len(),
        removed_views: views.removed.len(),
        modified_views: views.modified.len(),
        total_changes: tables.added.len() + tables.removed.len() + tables.modified.len()
            + views.added.len() + views.removed.len() + views.modified.len(),
    };
    DiffReport { summary, tables, views }
}

// ---------------------------------------------------------------------------
// Comparing a schema with itself
// ---------------------------------------------------------------------------

proof fn lemma_keyed_unshadowed<A>(s: Seq<A>, i: int, kf: spec_fn(A) -> Seq<KeyPart>)
    requires
        0 <= i < s.len(),
        !shadowed(s, i, kf),
    ensures
        keyed(s, kf(s[i]), kf) == Some(s[i]),
    decreases s.len(),
{
    if i != s.len() - 1 {
        let t = s.drop_last();
        if kf(s.last()) == kf(s[i]) {
            assert(i < s.len() - 1 && kf(s[s.len() - 1]) == kf(s[i]));
        }
        assert forall|j: int| i < j < t.len() implies kf(#[trigger] t[j]) != kf(t[i]) by {
            assert(t[j] == s[j]);
        }
        lemma_keyed_unshadowed(t, i, kf);
    }
}

proof fn lemma_unshadowed_stand<A>(s: Seq<A>, n: int, kf: spec_fn(A) -> Seq<KeyPart>)
    requires
        0 <= n <= s.len(),
    ensures
        forall|k: int|
            0 <= k < unshadowed(s, n, kf).len() ==> keyed(
                s,
                kf(#[trigger] unshadowed(s, n, kf)[k]),
                kf,
            ) == Some(unshadowed(s, n, kf)[k]),
    decreases n,
{
    if n > 0 {
        lemma_unshadowed_stand(s, n - 1, kf);
        if !shadowed(s, n - 1, kf) {
            lemma_keyed_unshadowed(s, n - 1, kf);
            let u = unshadowed(s, n - 1, kf);
            let w = u.push(s[n - 1]);
            assert forall|k: int| 0 <= k < w.len() implies keyed(s, kf(#[trigger] w[k]), kf)
                == Some(w[k]) by {
                if k < u.len() {
                    assert(w[k] == u[k]);
                }
            }
        }
    }
}

proof fn lemma_entries_stand<A>(s: Seq<A>, kf: spec_fn(A) -> Seq<KeyPart>)
    ensures
        forall|k: int|
            0 <= k < entries(s, kf).len() ==> keyed(s, kf(#[trigger] entries(s, kf)[k]), kf)
                == Some(entries(s, kf)[k]),
{
    broadcast use vstd::seq_lib::group_to_multiset_ensures;

    let u = unshadowed(s, s.len() as int, kf);
    let e = entries(s, kf);
    lemma_unshadowed_stand(s, s.len() as int, kf);
    crate::order::lemma_sorted_by(u, kf);
    assert forall|k: int| 0 <= k < e.len() implies keyed(s, kf(#[trigger] e[k]), kf) == Some(
        e[k],
    ) by {
        assert(e.contains(e[k]));
        assert(e.to_multiset().count(e[k]) > 0);
        assert(u.contains(e[k]));
        let j = choose|j: int| 0 <= j < u.len() && #[trigger] u[j] == e[k];
        assert(keyed(s, kf(u[j]), kf) == Some(u[j]));
    }
}

proof fn lemma_standing_items_unchanged<A>(t: Seq<A>, s: Seq<A>, kf: spec_fn(A) -> Seq<KeyPart>)
    requires
        forall|k: int| 0 <= k < t.len() ==> keyed(s, kf(#[trigger] t[k]), kf) == Some(t[k]),
    ensures
        missing_from(t, s, kf).len() == 0,
        changed_pairs(t, s, kf).len() == 0,
    decreases t.len(),
{
    if t.len() > 0 {
        let r = t.drop_last();
        assert forall|k: int| 0 <= k < r.len() implies keyed(s, kf(#[trigger] r[k]), kf) == Some(
            r[k],
        ) by {
            assert(t[k] == r[k]);
        }
        assert(t[t.len() - 1] == t.last());
        lemma_standing_items_unchanged(r, s, kf);
    }
}

proof fn lemma_items_against_themselves<A>(s: Seq<A>, kf: spec_fn(A) -> Seq<KeyPart>)
    ensures
        added_items(s, s, kf).len() == 0,
        removed_items(s, s, kf).len() == 0,
        changed_items(s, s, kf).len() == 0,
{
    lemma_entries_stand(s, kf);
    lemma_standing_items_unchanged(entries(s, kf), s, kf);
}

/// A table compared with itself has no difference.
pub proof fn law_table_diff_of_itself(t: TableSpec)
    ensures
        table_diff(t, t) is None,
{
    lemma_items_against_themselves(t.columns, entry_keyed::<Column>());
    lemma_items_against_themselves(t.indexes, entry_keyed::<Index>());
    lemma_items_against_themselves(t.foreign_keys, entry_keyed::<ForeignKey>());
}

/// A view compared with itself has no difference.
pub proof fn law_view_diff_of_itself(v: SchemaViewSpec)
    ensures
        view_diff(v, v) is None,
{
    lemma_items_against_themselves(v.columns, entry_keyed::<Column>());
}

proof fn lemma_table_diffs_standing(t: Seq<TableSpec>, s: Seq<TableSpec>)
    requires
        forall|k: int|
            0 <= k < t.len() ==> keyed(s, Table::entry_key(#[trigger] t[k]), entry_keyed::<Table>())
                == Some(t[k]),
    ensures
        table_diffs(t, s).len() == 0,
    decreases t.len(),
{
    if t.len() > 0 {
        let r = t.drop_last();
        assert forall|k: int| 0 <= k < r.len() implies keyed(
            s,
            Table::entry_key(#[trigger] r[k]),
            entry_keyed::<Table>(),
        ) == Some(r[k]) by {
            assert(t[k] == r[k]);
        }
        assert(t[t.len() - 1] == t.last());
        law_table_diff_of_itself(t.last());
        lemma_table_diffs_standing(r, s);
    }
}

proof fn lemma_view_diffs_standing(t: Seq<SchemaViewSpec>, s: Seq<SchemaViewSpec>)
    requires
        forall|k: int|
            0 <= k < t.len() ==> keyed(
                s,
                SchemaView::entry_key(#[trigger] t[k]),
                entry_keyed::<SchemaView>(),
            ) == Some(t[k]),
    ensures
        view_diffs(t, s).len() == 0,
    decreases t.len(),
{
    if t.len() > 0 {
        let r = t.drop_last();
        assert forall|k: int| 0 <= k < r.len() implies keyed(
            s,
            SchemaView::entry_key(#[trigger] r[k]),
            entry_keyed::<SchemaView>(),
        ) == Some(r[k]) by {
            assert(t[k] == r[k]);
        }
        assert(t[t.len() - 1] == t.last());
        law_view_diff_of_itself(t.last());
        lemma_view_diffs_standing(r, s);
    }
}

/// Comparing the other way round swaps what was added and what was
/// removed, for tables and for views.
pub proof fn law_reversed_comparison_swaps_added_and_removed(a: DatabaseSpec, b: DatabaseSpec)
    ensures
        added_items(a.tables, b.tables, entry_keyed::<Table>()) == removed_items(
            b.tables,
            a.tables,
            entry_keyed::<Table>(),
        ),
        added_items(a.views, b.views, entry_keyed::<SchemaView>()) == removed_items(
            b.views,
            a.views,
            entry_keyed::<SchemaView>(),
        ),
{
}

/// Comparing a schema with itself finds no added, removed or modified
/// table or view, so the report of such a comparison counts no change.
pub proof fn law_diff_of_identical_schemas_is_empty(db: DatabaseSpec)
    ensures
        added_items(db.tables, db.tables, entry_keyed::<Table>()).len() == 0,
        removed_items(db.tables, db.tables, entry_keyed::<Table>()).len() == 0,
        modified_tables(db.tables, db.tables).len() == 0,
        added_items(db.views, db.views, entry_keyed::<SchemaView>()).len() == 0,
        removed_items(db.views, db.views, entry_keyed::<SchemaView>()).len() == 0,
        modified_views(db.views, db.views).len() == 0,
{
    let tk = entry_keyed::<Table>();
    let vk = entry_keyed::<SchemaView>();
    lemma_items_against_themselves(db.tables, tk);
    lemma_items_against_themselves(db.views, vk);
    lemma_entries_stand(db.tables, tk);
    lemma_entries_stand(db.views, vk);
    lemma_table_diffs_standing(entries(db.tables, tk), db.tables);
    lemma_view_diffs_standing(entries(db.views, vk), db.views);
}

// ---------------------------------------------------------------------------
// Errors
// ---------------------------------------------------------------------------

/// Why a diff could not be performed.
#[derive(Debug)]
pub enum DiffError {
    /// A file could not be read.
    Io {
        /// File that could not be read.
        path: String,
        /// What the operating system reported.
        source: String,
    },
    /// A file could not be parsed as a schema document.
    Parse {
        /// File that could not be parsed.
        path: String,
        /// What the parser reported.
        source: String,
    },
}

/// The message a diff error is reported with.
pub open spec fn diff_error_text(e: DiffError) -> Seq<char> {
    match e {
        DiffError::Io { path, source } => "could not read `"@ + path@ + "`: "@ + source@,
        DiffError::Parse { path, source } => "could not parse `"@ + path@
            + "` as a schema document: "@ + source@,
    }
}

impl DiffError {
    /// The failure to read `path`, as the operating system reported it.
    pub fn io(path: &str, source: &str) -> (r: Self)
        ensures
            r matches DiffError::Io { path: p, source: s } && p@ == path@ && s@ == source@,
    {
        DiffError::Io { path: owned(path), source: owned(source) }
    }

    /// The failure to parse `path`, as the parser reported it.
    pub fn parse(path: &str, source: &str) -> (r: Self)
        ensures
            r matches DiffError::Parse { path: p, source: s } && p@ == path@ && s@ == source@,
    {
        DiffError::Parse { path: owned(path), source: owned(source) }
    }

    /// The message this error is reported with.
    pub fn to_string(&self) -> (r: String)
        ensures
            r@ == diff_error_text(*self),
    {
        match self {
            DiffError::Io { path, source } => {
                let mut out = owned("could not read `");
                push_str(&mut out, path.as_str());
                push_str(&mut out, "`: ");
                push_str(&mut out, source.as_str());
                out
            },
            DiffError::Parse { path, source } => {
                let mut out = owned("could not parse `");
                push_str(&mut out, path.as_str());
                push_str(&mut out, "` as a schema document: ");
                push_str(&mut out, source.as_str());
                out
            },
        }
    }
}

// ---------------------------------------------------------------------------
// What a keyed comparison finds
// ---------------------------------------------------------------------------

proof fn lemma_keyed_found<A>(s: Seq<A>, k: Seq<KeyPart>, kf: spec_fn(A) -> Seq<KeyPart>)
    ensures
        (keyed(s, k, kf) is None) <==> (forall|i: int| 0 <= i < s.len() ==> kf(#[trigger] s[i]) != k),
        keyed(s, k, kf) matches Some(y) ==> s.contains(y) && kf(y) == k,
    decreases s.len(),
{
    if s.len() > 0 {
        let t = s.drop_last();
        lemma_keyed_found(t, k, kf);
        if kf(s.last()) == k {
            assert(s[s.len() - 1] == s.last());
        } else {
            assert forall|i: int| 0 <= i < s.len() && (forall|j: int| 0 <= j < t.len() ==> kf(#[trigger] t[j]) != k)
                implies kf(#[trigger] s[i]) != k by {
                if i < t.len() {
                    assert(s[i] == t[i]);
                }
            }
            if keyed(t, k, kf) is None {
                assert forall|i: int| 0 <= i < t.len() implies kf(#[trigger] t[i]) != k by {
                    assert(t[i] == s[i]);
                }
            } else {
                let y = keyed(t, k, kf)->Some_0;
                let j = choose|j: int| 0 <= j < t.len() && t[j] == y;
                assert(s[j] == y);
            }
        }
    }
}

proof fn lemma_keyed_distinct<A>(s: Seq<A>, i: int, kf: spec_fn(A) -> Seq<KeyPart>)
    requires
        0 <= i < s.len(),
        keys_distinct(s, kf),
    ensures
        keyed(s, kf(s[i]), kf) == Some(s[i]),
    decreases s.len(),
{
    if i != s.len() - 1 {
        let t = s.drop_last();
        assert(kf(s[i]) != kf(s[s.len() - 1]));
        assert forall|p: int, q: int| 0 <= p < q < t.len() implies kf(#[trigger] t[p]) != kf(
            #[trigger] t[q],
        ) by {
            assert(t[p] == s[p] && t[q] == s[q]);
        }
        assert(t[i] == s[i]);
        lemma_keyed_distinct(t, i, kf);
    }
}

proof fn lemma_unshadowed_distinct<A>(s: Seq<A>, i: int, kf: spec_fn(A) -> Seq<KeyPart>)
    requires
        0 <= i <= s.len(),
        keys_distinct(s, kf),
    ensures
        unshadowed(s, i, kf) == s.take(i),
    decreases i,
{
    if i > 0 {
        lemma_unshadowed_distinct(s, i - 1, kf);
        if shadowed(s, i - 1, kf) {
            let j = choose|j: int| i - 1 < j < s.len() && kf(#[trigger] s[j]) == kf(s[i - 1]);
            assert(kf(s[i - 1]) != kf(s[j]));
        }
        assert(s.take(i - 1).push(s[i - 1]) =~= s.take(i));
    } else {
        assert(s.take(0) =~= Seq::<A>::empty());
    }
}

proof fn lemma_entries_distinct<A>(s: Seq<A>, kf: spec_fn(A) -> Seq<KeyPart>)
    requires
        keys_distinct(s, kf),
    ensures
        entries(s, kf) == sorted_by(s, kf),
        forall|x: A| #[trigger] entries(s, kf).contains(x) <==> s.contains(x),
        is_sorted_by(entries(s, kf), kf),
{
    broadcast use vstd::seq_lib::group_to_multiset_ensures;

    lemma_unshadowed_distinct(s, s.len() as int, kf);
    assert(s.take(s.len() as int) =~= s);
    crate::order::lemma_sorted_by(s, kf);
    let e = sorted_by(s, kf);
    assert forall|x: A| #[trigger] e.contains(x) <==> s.contains(x) by {
        assert(e.contains(x) <==> e.to_multiset().count(x) > 0);
        assert(s.contains(x) <==> s.to_multiset().count(x) > 0);
    }
}

proof fn lemma_missing_from_contains<A>(s: Seq<A>, other: Seq<A>, kf: spec_fn(A) -> Seq<KeyPart>)
    ensures
        forall|x: A|
            #[trigger] missing_from(s, other, kf).contains(x) <==> s.contains(x) && keyed(
                other,
                kf(x),
                kf,
            ) is None,
    decreases s.len(),
{
    if s.len() > 0 {
        let t = s.drop_last();
        lemma_missing_from_contains(t, other, kf);
        let r = missing_from(t, other, kf);
        assert forall|x: A|
            #[trigger] missing_from(s, other, kf).contains(x) <==> s.contains(x) && keyed(
                other,
                kf(x),
                kf,
            ) is None by {
            if s.contains(x) {
                let i = choose|i: int| 0 <= i < s.len() && s[i] == x;
                if i < t.len() {
                    assert(t[i] == x);
                    assert(t.contains(x));
                } else {
                    assert(x == s.last());
                }
            }
            if t.contains(x) {
                let i = choose|i: int| 0 <= i < t.len() && t[i] == x;
                assert(s[i] == x);
            }
            if keyed(other, kf(s.last()), kf) is None {
                let w = r.push(s.last());
                assert(w[w.len() - 1] == s.last());
                if w.contains(x) {
                    let i = choose|i: int| 0 <= i < w.len() && w[i] == x;
                    if i < r.len() {
                        assert(r[i] == x);
                    }
                }
                if r.contains(x) {
                    let i = choose|i: int| 0 <= i < r.len() && r[i] == x;
                    assert(w[i] == x);
                }
            }
        }
    }
}

proof fn lemma_changed_pairs_contains<A>(s: Seq<A>, old: Seq<A>, kf: spec_fn(A) -> Seq<KeyPart>)
    ensures
        forall|o: A, n: A|
            #[trigger] changed_pairs(s, old, kf).contains((o, n)) <==> s.contains(n) && keyed(
                old,
                kf(n),
                kf,
            ) == Some(o) && o != n,
    decreases s.len(),
{
    if s.len() > 0 {
        let t = s.drop_last();
        lemma_changed_pairs_contains(t, old, kf);
        let r = changed_pairs(t, old, kf);
        assert forall|o: A, n: A|
            #[trigger] changed_pairs(s, old, kf).contains((o, n)) <==> s.contains(n) && keyed(
                old,
                kf(n),
                kf,
            ) == Some(o) && o != n by {
            if s.contains(n) {
                let i = choose|i: int| 0 <= i < s.len() && s[i] == n;
                if i < t.len() {
                    assert(t[i] == n);
                    assert(t.contains(n));
                } else {
                    assert(n == s.last());
                }
            }
            if t.contains(n) {
                let i = choose|i: int| 0 <= i < t.len() && t[i] == n;
                assert(s[i] == n);
            }
            match keyed(old, kf(s.last()), kf) {
                Some(p) => {
                    if p != s.last() {
                        let w = r.push((p, s.last()));
                        assert(w[w.len() - 1] == (p, s.last()));
                        if w.contains((o, n)) {
                            let i = choose|i: int| 0 <= i < w.len() && w[i] == (o, n);
                            if i < r.len() {
                                assert(r[i] == (o, n));
                            }
                        }
                        if r.contains((o, n)) {
                            let i = choose|i: int| 0 <= i < r.len() && r[i] == (o, n);
                            assert(w[i] == (o, n));
                        }
                    }
                },
                None => {},
            }
        }
    }
}

proof fn lemma_missing_from_sorted<A>(s: Seq<A>, other: Seq<A>, kf: spec_fn(A) -> Seq<KeyPart>)
    requires
        is_sorted_by(s, kf),
    ensures
        is_sorted_by(missing_from(s, other, kf), kf),
    decreases s.len(),
{
    if s.len() > 0 {
        let t = s.drop_last();
        assert forall|i: int, j: int| 0 <= i < j < t.len() implies key_le(
            kf(#[trigger] t[i]),
            kf(#[trigger] t[j]),
        ) by {
            assert(t[i] == s[i] && t[j] == s[j]);
        }
        lemma_missing_from_sorted(t, other, kf);
        lemma_missing_from_contains(t, other, kf);
        let r = missing_from(t, other, kf);
        if keyed(other, kf(s.last()), kf) is None {
            let w = r.push(s.last());
            assert forall|i: int, j: int| 0 <= i < j < w.len() implies key_le(
                kf(#[trigger] w[i]),
                kf(#[trigger] w[j]),
            ) by {
                if j < r.len() {
                    assert(w[i] == r[i] && w[j] == r[j]);
                } else {
                    assert(w[i] == r[i]);
                    assert(r.contains(r[i]));
                    assert(t.contains(r[i]));
                    let p = choose|p: int| 0 <= p < t.len() && t[p] == r[i];
                    assert(s[p] == r[i]);
                    assert(w[j] == s[s.len() - 1]);
                }
            }
        }
    }
}

/// What comparing two keyed lists finds, when neither list holds two
/// items with one key: the added items are exactly those of `new` whose key
/// `old` lacks, the removed ones those of `old` whose key `new` lacks, both
/// in key order, and the changed pairs exactly the items of `old` and `new`
/// that share a key but differ.
pub proof fn law_keyed_comparison_finds_what_changed<A>(
    old: Seq<A>,
    new: Seq<A>,
    kf: spec_fn(A) -> Seq<KeyPart>,
)
    requires
        keys_distinct(old, kf),
        keys_distinct(new, kf),
    ensures
        is_sorted_by(added_items(old, new, kf), kf),
        is_sorted_by(removed_items(old, new, kf), kf),
        forall|x: A|
            #[trigger] added_items(old, new, kf).contains(x) <==> new.contains(x) && (forall|
                i: int,
            |
                0 <= i < old.len() ==> kf(#[trigger] old[i]) != kf(x)),
        forall|x: A|
            #[trigger] removed_items(old, new, kf).contains(x) <==> old.contains(x) && (forall|
                i: int,
            |
                0 <= i < new.len() ==> kf(#[trigger] new[i]) != kf(x)),
        forall|o: A, n: A|
            #[trigger] changed_items(old, new, kf).contains((o, n)) <==> old.contains(o)
                && new.contains(n) && kf(o) == kf(n) && o != n,
{
    lemma_entries_distinct(old, kf);
    lemma_entries_distinct(new, kf);
    lemma_missing_from_sorted(entries(new, kf), old, kf);
    lemma_missing_from_sorted(entries(old, kf), new, kf);
    lemma_missing_from_contains(entries(new, kf), old, kf);
    lemma_missing_from_contains(entries(old, kf), new, kf);
    lemma_changed_pairs_contains(entries(new, kf), old, kf);
    assert forall|x: A|
        #[trigger] added_items(old, new, kf).contains(x) <==> new.contains(x) && (forall|i: int|
            0 <= i < old.len() ==> kf(#[trigger] old[i]) != kf(x)) by {
        lemma_keyed_found(old, kf(x), kf);
    }
    assert forall|x: A|
        #[trigger] removed_items(old, new, kf).contains(x) <==> old.contains(x) && (forall|i: int|
            0 <= i < new.len() ==> kf(#[trigger] new[i]) != kf(x)) by {
        lemma_keyed_found(new, kf(x), kf);
    }
    assert forall|o: A, n: A|
        #[trigger] changed_items(old, new, kf).contains((o, n)) <==> old.contains(o)
            && new.contains(n) && kf(o) == kf(n) && o != n by {
        lemma_keyed_found(old, kf(n), kf);
        if old.contains(o) && kf(o) == kf(n) {
            let i = choose|i: int| 0 <= i < old.len() && old[i] == o;
            lemma_keyed_distinct(old, i, kf);
        }
    }
}

/// A comparison of two keyed lists, neither holding two items with one
/// key, finds nothing exactly when both lists hold the same items.
pub proof fn law_keyed_comparison_is_empty_exactly_for_the_same_items<A>(
    old: Seq<A>,
    new: Seq<A>,
    kf: spec_fn(A) -> Seq<KeyPart>,
)
    requires
        keys_distinct(old, kf),
        keys_distinct(new, kf),
    ensures
        (added_items(old, new, kf).len() == 0 && removed_items(old, new, kf).len() == 0
            && changed_items(old, new, kf).len() == 0) <==> (forall|x: A|
            #[trigger] new.contains(x) <==> old.contains(x)),
{
    law_keyed_comparison_finds_what_changed(old, new, kf);
    let a = added_items(old, new, kf);
    let r = removed_items(old, new, kf);
    let c = changed_items(old, new, kf);
    if a.len() == 0 && r.len() == 0 && c.len() == 0 {
        assert forall|x: A| #[trigger] new.contains(x) <==> old.contains(x) by {
            if new.contains(x) {
                assert(!a.contains(x));
                let i = choose|i: int| 0 <= i < old.len() && kf(#[trigger] old[i]) == kf(x);
                let o = old[i];
                assert(old.contains(o));
                assert(!c.contains((o, x)));
            }
            if old.contains(x) {
                assert(!r.contains(x));
                let i = choose|i: int| 0 <= i < new.len() && kf(#[trigger] new[i]) == kf(x);
                let n = new[i];
                assert(new.contains(n));
                assert(!c.contains((x, n)));
            }
        }
    }
    if forall|x: A| #[trigger] new.contains(x) <==> old.contains(x) {
        if a.len() > 0 {
            assert(a.contains(a[0]));
            assert(new.contains(a[0]));
            assert(old.contains(a[0]));
            let i = choose|i: int| 0 <= i < old.len() && old[i] == a[0];
            assert(kf(old[i]) == kf(a[0]));
        }
        if r.len() > 0 {
            assert(r.contains(r[0]));
            assert(old.contains(r[0]));
            assert(new.contains(r[0]));
            let i = choose|i: int| 0 <= i < new.len() && new[i] == r[0];
            assert(kf(new[i]) == kf(r[0]));
        }
        if c.len() > 0 {
            let (o, n) = c[0];
            assert(c.contains((o, n)));
            assert(old.contains(n));
            let i = choose|i: int| 0 <= i < old.len() && old[i] == o;
            let j = choose|j: int| 0 <= j < old.len() && old[j] == n;
            if i < j {
                assert(kf(old[i]) != kf(old[j]));
            } else if j < i {
                assert(kf(old[j]) != kf(old[i]));
            }
        }
    }
}

/// Comparing two tables looks only at their columns, indexes and foreign
/// keys, each matched by key: the engine, charset, collation, comment,
/// analysis and AI context never count, and a difference found carries the
/// newer table's namespace and name. With no two columns (indexes, foreign
/// keys) of either table sharing a key, the tables differ exactly when the
/// two tables' columns, indexes or foreign keys are not the same items.
pub proof fn law_table_comparison_reads_columns_indexes_and_foreign_keys(
    old: TableSpec,
    new: TableSpec,
    other_old: TableSpec,
    other_new: TableSpec,
)
    requires
        other_old.columns == old.columns && other_old.indexes == old.indexes
            && other_old.foreign_keys == old.foreign_keys,
        other_new.columns == new.columns && other_new.indexes == new.indexes
            && other_new.foreign_keys == new.foreign_keys,
        other_new.schema == new.schema && other_new.name == new.name,
    ensures
        table_diff(other_old, other_new) == table_diff(old, new),
        table_diff(old, new) matches Some(d) ==> d.schema == new.schema && d.name == new.name,
        keys_distinct(old.columns, entry_keyed::<Column>()) && keys_distinct(
            new.columns,
            entry_keyed::<Column>(),
        ) && keys_distinct(old.indexes, entry_keyed::<Index>()) && keys_distinct(
            new.indexes,
            entry_keyed::<Index>(),
        ) && keys_distinct(old.foreign_keys, entry_keyed::<ForeignKey>()) && keys_distinct(
            new.foreign_keys,
            entry_keyed::<ForeignKey>(),
        ) ==> ((table_diff(old, new) is None) <==> ((forall|x: ColumnSpec|
            #[trigger] new.columns.contains(x) <==> old.columns.contains(x)) && (forall|x: IndexSpec|
            #[trigger] new.indexes.contains(x) <==> old.indexes.contains(x)) && (forall|
            x: ForeignKeySpec,
        | #[trigger] new.foreign_keys.contains(x) <==> old.foreign_keys.contains(x)))),
{
    if keys_distinct(old.columns, entry_keyed::<Column>()) && keys_distinct(
        new.columns,
        entry_keyed::<Column>(),
    ) && keys_distinct(old.indexes, entry_keyed::<Index>()) && keys_distinct(
        new.indexes,
        entry_keyed::<Index>(),
    ) && keys_distinct(old.foreign_keys, entry_keyed::<ForeignKey>()) && keys_distinct(
        new.foreign_keys,
        entry_keyed::<ForeignKey>(),
    ) {
        law_keyed_comparison_is_empty_exactly_for_the_same_items(
            old.columns,
            new.columns,
            entry_keyed::<Column>(),
        );
        law_keyed_comparison_is_empty_exactly_for_the_same_items(
            old.indexes,
            new.indexes,
            entry_keyed::<Index>(),
        );
        law_keyed_comparison_is_empty_exactly_for_the_same_items(
            old.foreign_keys,
            new.foreign_keys,
            entry_keyed::<ForeignKey>(),
        );
    }
}

/// Comparing two views looks only at their columns, matched by name (the
/// older view's namespace and name never count), and a difference found
/// carries the newer view's namespace and name. With no two columns
/// of either view sharing a name, the views differ exactly when their
/// columns are not the same items.
pub proof fn law_view_comparison_reads_columns(
    old: SchemaViewSpec,
    new: SchemaViewSpec,
    other_old: SchemaViewSpec,
    other_new: SchemaViewSpec,
)
    requires
        other_old.columns == old.columns,
        other_new.columns == new.columns,
        other_new.schema == new.schema && other_new.name == new.name,
    ensures
        view_diff(other_old, other_new) == view_diff(old, new),
        view_diff(old, new) matches Some(d) ==> d.schema == new.schema && d.name == new.name,
        keys_distinct(old.columns, entry_keyed::<Column>()) && keys_distinct(
            new.columns,
            entry_keyed::<Column>(),
        ) ==> ((view_diff(old, new) is None) <==> (forall|x: ColumnSpec|
            #[trigger] new.columns.contains(x) <==> old.columns.contains(x))),
{
    if keys_distinct(old.columns, entry_keyed::<Column>()) && keys_distinct(
        new.columns,
        entry_keyed::<Column>(),
    ) {
        law_keyed_comparison_is_empty_exactly_for_the_same_items(
            old.columns,
            new.columns,
            entry_keyed::<Column>(),
        );
    }
}

/// What comparing two schemas finds of their tables and views, when
/// neither schema holds two tables, or two views, with one namespace and
/// name: the added tables are exactly those of the newer schema whose
/// namespace and name the older one lacks, the removed ones the reverse,
/// both in namespace-then-name order; views likewise.
pub proof fn law_schema_comparison_finds_added_and_removed(old: DatabaseSpec, new: DatabaseSpec)
    requires
        keys_distinct(old.tables, entry_keyed::<Table>()),
        keys_distinct(new.tables, entry_keyed::<Table>()),
        keys_distinct(old.views, entry_keyed::<SchemaView>()),
        keys_distinct(new.views, entry_keyed::<SchemaView>()),
    ensures
        is_sorted_by(added_items(old.tables, new.tables, entry_keyed::<Table>()), entry_keyed::<Table>()),
        is_sorted_by(removed_items(old.tables, new.tables, entry_keyed::<Table>()), entry_keyed::<Table>()),
        forall|t: TableSpec|
            #[trigger] added_items(old.tables, new.tables, entry_keyed::<Table>()).contains(t)
                <==> new.tables.contains(t) && (forall|i: int|
                0 <= i < old.tables.len() ==> Table::entry_key(#[trigger] old.tables[i])
                    != Table::entry_key(t)),
        forall|t: TableSpec|
            #[trigger] removed_items(old.tables, new.tables, entry_keyed::<Table>()).contains(t)
                <==> old.tables.contains(t) && (forall|i: int|
                0 <= i < new.tables.len() ==> Table::entry_key(#[trigger] new.tables[i])
                    != Table::entry_key(t)),
        is_sorted_by(
            added_items(old.views, new.views, entry_keyed::<SchemaView>()),
            entry_keyed::<SchemaView>(),
        ),
        is_sorted_by(
            removed_items(old.views, new.views, entry_keyed::<SchemaView>()),
            entry_keyed::<SchemaView>(),
        ),
        forall|v: SchemaViewSpec|
            #[trigger] added_items(old.views, new.views, entry_keyed::<SchemaView>()).contains(v)
                <==> new.views.contains(v) && (forall|i: int|
                0 <= i < old.views.len() ==> SchemaView::entry_key(#[trigger] old.views[i])
                    != SchemaView::entry_key(v)),
        forall|v: SchemaViewSpec|
            #[trigger] removed_items(old.views, new.views, entry_keyed::<SchemaView>()).contains(v)
                <==> old.views.contains(v) && (forall|i: int|
                0 <= i < new.views.len() ==> SchemaView::entry_key(#[trigger] new.views[i])
                    != SchemaView::entry_key(v)),
{
    law_keyed_comparison_finds_what_changed(old.tables, new.tables, entry_keyed::<Table>());
    law_keyed_comparison_finds_what_changed(old.views, new.views, entry_keyed::<SchemaView>());
}

// ---------------------------------------------------------------------------
// Comparing the other way round
// ---------------------------------------------------------------------------

proof fn lemma_keyed_last_position<A>(s: Seq<A>, k: Seq<KeyPart>, kf: spec_fn(A) -> Seq<KeyPart>)
    requires
        keyed(s, k, kf) is Some,
    ensures
        exists|i: int|
            0 <= i < s.len() && s[i] == keyed(s, k, kf)->Some_0 && kf(s[i]) == k && !shadowed(
                s,
                i,
                kf,
            ),
    decreases s.len(),
{
    let n = s.len() - 1;
    if kf(s.last()) == k {
        assert(s[n] == s.last());
        assert(!shadowed(s, n, kf));
    } else {
        let t = s.drop_last();
        lemma_keyed_last_position(t, k, kf);
        let i = choose|i: int|
            0 <= i < t.len() && t[i] == keyed(t, k, kf)->Some_0 && kf(t[i]) == k && !shadowed(t, i, kf);
        assert(s[i] == t[i]);
        if shadowed(s, i, kf) {
            let j = choose|j: int| i < j < s.len() && kf(#[trigger] s[j]) == kf(s[i]);
            if j < n {
                assert(t[j] == s[j]);
            }
        }
    }
}

proof fn lemma_unshadowed_holds<A>(s: Seq<A>, m: int, i: int, kf: spec_fn(A) -> Seq<KeyPart>)
    requires
        0 <= i < m <= s.len(),
        !shadowed(s, i, kf),
    ensures
        unshadowed(s, m, kf).contains(s[i]),
    decreases m,
{
    if i == m - 1 {
        let u = unshadowed(s, m - 1, kf).push(s[i]);
        assert(u[u.len() - 1] == s[i]);
    } else {
        lemma_unshadowed_holds(s, m - 1, i, kf);
        let r = unshadowed(s, m - 1, kf);
        let k = choose|k: int| 0 <= k < r.len() && r[k] == s[i];
        if !shadowed(s, m - 1, kf) {
            assert(r.push(s[m - 1])[k] == s[i]);
        }
    }
}

proof fn lemma_keyed_in_entries<A>(s: Seq<A>, k: Seq<KeyPart>, kf: spec_fn(A) -> Seq<KeyPart>)
    requires
        keyed(s, k, kf) is Some,
    ensures
        entries(s, kf).contains(keyed(s, k, kf)->Some_0),
{
    broadcast use vstd::seq_lib::group_to_multiset_ensures;

    lemma_keyed_last_position(s, k, kf);
    let i = choose|i: int|
        0 <= i < s.len() && s[i] == keyed(s, k, kf)->Some_0 && kf(s[i]) == k && !shadowed(s, i, kf);
    lemma_unshadowed_holds(s, s.len() as int, i, kf);
    let u = unshadowed(s, s.len() as int, kf);
    crate::order::lemma_sorted_by(u, kf);
    assert(u.to_multiset().count(s[i]) > 0);
    assert(entries(s, kf).to_multiset().count(s[i]) > 0);
}

proof fn lemma_changed_symmetric<A>(o: Seq<A>, n: Seq<A>, kf: spec_fn(A) -> Seq<KeyPart>)
    ensures
        (changed_items(o, n, kf).len() == 0) <==> (changed_items(n, o, kf).len() == 0),
{
    lemma_changed_pairs_contains(entries(n, kf), o, kf);
    lemma_changed_pairs_contains(entries(o, kf), n, kf);
    lemma_entries_stand(n, kf);
    lemma_entries_stand(o, kf);
    let c1 = changed_items(o, n, kf);
    let c2 = changed_items(n, o, kf);
    if c1.len() > 0 {
        let (y, x) = c1[0];
        assert(c1.contains((y, x)));
        lemma_keyed_found(o, kf(x), kf);
        lemma_keyed_in_entries(o, kf(x), kf);
        let e = entries(n, kf);
        let j = choose|j: int| 0 <= j < e.len() && e[j] == x;
        assert(keyed(n, kf(e[j]), kf) == Some(e[j]));
        assert(c2.contains((x, y)));
    }
    if c2.len() > 0 {
        let (y, x) = c2[0];
        assert(c2.contains((y, x)));
        lemma_keyed_found(n, kf(x), kf);
        lemma_keyed_in_entries(n, kf(x), kf);
        let e = entries(o, kf);
        let j = choose|j: int| 0 <= j < e.len() && e[j] == x;
        assert(keyed(o, kf(e[j]), kf) == Some(e[j]));
        assert(c1.contains((x, y)));
    }
}

proof fn lemma_table_diff_symmetric(o: TableSpec, n: TableSpec)
    ensures
        (table_diff(o, n) is None) <==> (table_diff(n, o) is None),
{
    lemma_changed_symmetric(o.columns, n.columns, entry_keyed::<Column>());
    lemma_changed_symmetric(o.indexes, n.indexes, entry_keyed::<Index>());
    lemma_changed_symmetric(o.foreign_keys, n.foreign_keys, entry_keyed::<ForeignKey>());
}

proof fn lemma_table_diffs_no_old(s: Seq<TableSpec>)
    ensures
        table_diffs(s, Seq::empty()).len() == 0,
    decreases s.len(),
{
    if s.len() > 0 {
        lemma_table_diffs_no_old(s.drop_last());
    }
}

proof fn lemma_table_diffs_drop_old(s: Seq<TableSpec>, q: Seq<TableSpec>)
    requires
        q.len() > 0,
        forall|i: int| 0 <= i < s.len() ==> Table::entry_key(#[trigger] s[i]) != Table::entry_key(q.last()),
    ensures
        table_diffs(s, q) == table_diffs(s, q.drop_last()),
    decreases s.len(),
{
    if s.len() > 0 {
        let t = s.drop_last();
        assert forall|i: int| 0 <= i < t.len() implies Table::entry_key(#[trigger] t[i]) != Table::entry_key(q.last()) by {
            assert(t[i] == s[i]);
        }
        lemma_table_diffs_drop_old(t, q);
        assert(s[s.len() - 1] == s.last());
    }
}

proof fn lemma_strictly_sorted_tail(p: Seq<TableSpec>)
    requires
        p.len() > 0,
        is_sorted_by(p, entry_keyed::<Table>()),
        keys_distinct(p, entry_keyed::<Table>()),
    ensures
        is_sorted_by(p.drop_last(), entry_keyed::<Table>()),
        keys_distinct(p.drop_last(), entry_keyed::<Table>()),
        forall|i: int|
            0 <= i < p.len() - 1 ==> crate::order::key_lt(
                Table::entry_key(#[trigger] p[i]),
                Table::entry_key(p.last()),
            ),
{
    let kf = entry_keyed::<Table>();
    let t = p.drop_last();
    lemma_part_order();
    lemma_lex_strict_total(part_order());
    assert forall|i: int, j: int| 0 <= i < j < t.len() implies key_le(kf(#[trigger] t[i]), kf(#[trigger] t[j])) by {
        assert(t[i] == p[i] && t[j] == p[j]);
    }
    assert forall|i: int, j: int| 0 <= i < j < t.len() implies kf(#[trigger] t[i]) != kf(#[trigger] t[j]) by {
        assert(t[i] == p[i] && t[j] == p[j]);
    }
    assert forall|i: int| 0 <= i < p.len() - 1 implies crate::order::key_lt(
        Table::entry_key(#[trigger] p[i]),
        Table::entry_key(p.last()),
    ) by {
        assert(p[p.len() - 1] == p.last());
        assert(key_le(kf(p[i]), kf(p[p.len() - 1])));
        assert(kf(p[i]) != kf(p[p.len() - 1]));
    }
}

proof fn lemma_table_diffs_swap(p: Seq<TableSpec>, q: Seq<TableSpec>)
    requires
        is_sorted_by(p, entry_keyed::<Table>()),
        keys_distinct(p, entry_keyed::<Table>()),
        is_sorted_by(q, entry_keyed::<Table>()),
        keys_distinct(q, entry_keyed::<Table>()),
    ensures
        table_diffs(p, q).len() == table_diffs(q, p).len(),
    decreases p.len() + q.len(),
{
    lemma_part_order();
    lemma_lex_strict_total(part_order());
    if p.len() == 0 {
        lemma_table_diffs_no_old(q);
        assert(p =~= Seq::<TableSpec>::empty());
    } else if q.len() == 0 {
        lemma_table_diffs_no_old(p);
        assert(q =~= Seq::<TableSpec>::empty());
    } else {
        let kf = entry_keyed::<Table>();
        let kp = Table::entry_key(p.last());
        let kq = Table::entry_key(q.last());
        lemma_strictly_sorted_tail(p);
        lemma_strictly_sorted_tail(q);
        let p1 = p.drop_last();
        let q1 = q.drop_last();
        if kp == kq {
            assert forall|i: int| 0 <= i < p1.len() implies Table::entry_key(#[trigger] p1[i]) != Table::entry_key(q.last()) by {
                assert(p1[i] == p[i]);
            }
            assert forall|i: int| 0 <= i < q1.len() implies Table::entry_key(#[trigger] q1[i]) != Table::entry_key(p.last()) by {
                assert(q1[i] == q[i]);
            }
            lemma_table_diffs_drop_old(p1, q);
            lemma_table_diffs_drop_old(q1, p);
            lemma_table_diffs_swap(p1, q1);
            lemma_table_diff_symmetric(q.last(), p.last());
        } else if crate::order::key_lt(kq, kp) {
            assert forall|i: int| 0 <= i < q.len() implies Table::entry_key(#[trigger] q[i]) != kp by {
                if i < q.len() - 1 {
                    assert(crate::order::key_lt(kf(q[i]), kq));
                }
            }
            lemma_keyed_found(q, kp, kf);
            lemma_table_diffs_drop_old(q, p);
            lemma_table_diffs_swap(p1, q);
        } else {
            assert(crate::order::key_lt(kp, kq));
            assert forall|i: int| 0 <= i < p.len() implies Table::entry_key(#[trigger] p[i]) != kq by {
                if i < p.len() - 1 {
                    assert(crate::order::key_lt(kf(p[i]), kp));
                }
            }
            lemma_keyed_found(p, kq, kf);
            lemma_table_diffs_drop_old(p, q);
            lemma_table_diffs_swap(p, q1);
        }
    }
}

proof fn lemma_unshadowed_keys_distinct<A>(s: Seq<A>, n: int, kf: spec_fn(A) -> Seq<KeyPart>)
    requires
        0 <= n <= s.len(),
    ensures
        keys_distinct(unshadowed(s, n, kf), kf),
        forall|k: int|
            0 <= k < unshadowed(s, n, kf).len() ==> exists|i: int|
                0 <= i < n && s[i] == #[trigger] unshadowed(s, n, kf)[k] && !shadowed(s, i, kf),
    decreases n,
{
    if n > 0 {
        lemma_unshadowed_keys_distinct(s, n - 1, kf);
        let u = unshadowed(s, n - 1, kf);
        if !shadowed(s, n - 1, kf) {
            let w = u.push(s[n - 1]);
            assert forall|k: int| 0 <= k < w.len() implies exists|i: int|
                0 <= i < n && s[i] == #[trigger] w[k] && !shadowed(s, i, kf) by {
                if k < u.len() {
                    assert(w[k] == u[k]);
                } else {
                    assert(w[k] == s[n - 1]);
                }
            }
            assert forall|p: int, q: int| 0 <= p < q < w.len() implies kf(#[trigger] w[p]) != kf(
                #[trigger] w[q],
            ) by {
                if q < u.len() {
                    assert(w[p] == u[p] && w[q] == u[q]);
                } else {
                    assert(w[p] == u[p]);
                    let i = choose|i: int| 0 <= i < n - 1 && s[i] == #[trigger] u[p] && !shadowed(s, i, kf);
                    assert(w[q] == s[n - 1]);
                    if kf(s[i]) == kf(s[n - 1]) {
                        assert(i < n - 1 && kf(s[n - 1]) == kf(s[i]));
                        assert(shadowed(s, i, kf));
                    }
                }
            }
        }
    }
}

/// The items that stand for their keys hold each key once, in key order.
proof fn lemma_entries_keys_distinct<A>(s: Seq<A>, kf: spec_fn(A) -> Seq<KeyPart>)
    ensures
        keys_distinct(entries(s, kf), kf),
        is_sorted_by(entries(s, kf), kf),
{
    let u = unshadowed(s, s.len() as int, kf);
    lemma_unshadowed_keys_distinct(s, s.len() as int, kf);
    crate::order::lemma_sorted_by(u, kf);
    crate::order::lemma_keys_distinct_rearranged(u, entries(s, kf), kf);
}

/// Looking a key up among the items that stand for their keys finds what
/// looking it up among all items finds.
proof fn lemma_keyed_through_entries<A>(s: Seq<A>, k: Seq<KeyPart>, kf: spec_fn(A) -> Seq<KeyPart>)
    ensures
        keyed(entries(s, kf), k, kf) == keyed(s, k, kf),
{
    let e = entries(s, kf);
    lemma_entries_stand(s, kf);
    lemma_keyed_found(s, k, kf);
    lemma_keyed_found(e, k, kf);
    if keyed(e, k, kf) is Some {
        let z = keyed(e, k, kf)->Some_0;
        let j = choose|j: int| 0 <= j < e.len() && e[j] == z;
        assert(keyed(s, kf(e[j]), kf) == Some(e[j]));
    } else if keyed(s, k, kf) is Some {
        lemma_keyed_in_entries(s, k, kf);
        let y = keyed(s, k, kf)->Some_0;
        let j = choose|j: int| 0 <= j < e.len() && e[j] == y;
        assert(kf(e[j]) != k);
    }
}

proof fn lemma_table_diffs_through_entries(x: Seq<TableSpec>, s: Seq<TableSpec>)
    ensures
        table_diffs(x, s) == table_diffs(x, entries(s, entry_keyed::<Table>())),
    decreases x.len(),
{
    if x.len() > 0 {
        lemma_table_diffs_through_entries(x.drop_last(), s);
        lemma_keyed_through_entries(s, Table::entry_key(x.last()), entry_keyed::<Table>());
    }
}

proof fn lemma_view_diffs_through_entries(x: Seq<SchemaViewSpec>, s: Seq<SchemaViewSpec>)
    ensures
        view_diffs(x, s) == view_diffs(x, entries(s, entry_keyed::<SchemaView>())),
    decreases x.len(),
{
    if x.len() > 0 {
        lemma_view_diffs_through_entries(x.drop_last(), s);
        lemma_keyed_through_entries(s, SchemaView::entry_key(x.last()), entry_keyed::<SchemaView>());
    }
}

/// Comparing the other way round finds the same number of modified tables:
/// a table changed one way round is changed the other way round too.
pub proof fn law_reversed_comparison_counts_the_same_modified_tables(a: DatabaseSpec, b: DatabaseSpec)
    ensures
        modified_tables(a.tables, b.tables).len() == modified_tables(b.tables, a.tables).len(),
{
    let kf = entry_keyed::<Table>();
    lemma_entries_keys_distinct(a.tables, kf);
    lemma_entries_keys_distinct(b.tables, kf);
    lemma_table_diffs_through_entries(entries(b.tables, kf), a.tables);
    lemma_table_diffs_through_entries(entries(a.tables, kf), b.tables);
    lemma_table_diffs_swap(entries(b.tables, kf), entries(a.tables, kf));
}

proof fn lemma_view_diff_symmetric(o: SchemaViewSpec, n: SchemaViewSpec)
    ensures
        (view_diff(o, n) is None) <==> (view_diff(n, o) is None),
{
    lemma_changed_symmetric(o.columns, n.columns, entry_keyed::<Column>());
}

proof fn lemma_view_diffs_no_old(s: Seq<SchemaViewSpec>)
    ensures
        view_diffs(s, Seq::empty()).len() == 0,
    decreases s.len(),
{
    if s.len() > 0 {
        lemma_view_diffs_no_old(s.drop_last());
    }
}

proof fn lemma_view_diffs_drop_old(s: Seq<SchemaViewSpec>, q: Seq<SchemaViewSpec>)
    requires
        q.len() > 0,
        forall|i: int| 0 <= i < s.len() ==> SchemaView::entry_key(#[trigger] s[i]) != SchemaView::entry_key(q.last()),
    ensures
        view_diffs(s, q) == view_diffs(s, q.drop_last()),
    decreases s.len(),
{
    if s.len() > 0 {
        let t = s.drop_last();
        assert forall|i: int| 0 <= i < t.len() implies SchemaView::entry_key(#[trigger] t[i]) != SchemaView::entry_key(q.last()) by {
            assert(t[i] == s[i]);
        }
        lemma_view_diffs_drop_old(t, q);
        assert(s[s.len() - 1] == s.last());
    }
}

proof fn lemma_strictly_sorted_view_tail(p: Seq<SchemaViewSpec>)
    requires
        p.len() > 0,
        is_sorted_by(p, entry_keyed::<SchemaView>()),
        keys_distinct(p, entry_keyed::<SchemaView>()),
    ensures
        is_sorted_by(p.drop_last(), entry_keyed::<SchemaView>()),
        keys_distinct(p.drop_last(), entry_keyed::<SchemaView>()),
        forall|i: int|
            0 <= i < p.len() - 1 ==> crate::order::key_lt(
                SchemaView::entry_key(#[trigger] p[i]),
                SchemaView::entry_key(p.last()),
            ),
{
    let kf = entry_keyed::<SchemaView>();
    let t = p.drop_last();
    lemma_part_order();
    lemma_lex_strict_total(part_order());
    assert forall|i: int, j: int| 0 <= i < j < t.len() implies key_le(kf(#[trigger] t[i]), kf(#[trigger] t[j])) by {
        assert(t[i] == p[i] && t[j] == p[j]);
    }
    assert forall|i: int, j: int| 0 <= i < j < t.len() implies kf(#[trigger] t[i]) != kf(#[trigger] t[j]) by {
        assert(t[i] == p[i] && t[j] == p[j]);
    }
    assert forall|i: int| 0 <= i < p.len() - 1 implies crate::order::key_lt(
        SchemaView::entry_key(#[trigger] p[i]),
        SchemaView::entry_key(p.last()),
    ) by {
        assert(p[p.len() - 1] == p.last());
        assert(key_le(kf(p[i]), kf(p[p.len() - 1])));
        assert(kf(p[i]) != kf(p[p.len() - 1]));
    }
}

proof fn lemma_view_diffs_swap(p: Seq<SchemaViewSpec>, q: Seq<SchemaViewSpec>)
    requires
        is_sorted_by(p, entry_keyed::<SchemaView>()),
        keys_distinct(p, entry_keyed::<SchemaView>()),
        is_sorted_by(q, entry_keyed::<SchemaView>()),
        keys_distinct(q, entry_keyed::<SchemaView>()),
    ensures
        view_diffs(p, q).len() == view_diffs(q, p).len(),
    decreases p.len() + q.len(),
{
    lemma_part_order();
    lemma_lex_strict_total(part_order());
    if p.len() == 0 {
        lemma_view_diffs_no_old(q);
        assert(p =~= Seq::<SchemaViewSpec>::empty());
    } else if q.len() == 0 {
        lemma_view_diffs_no_old(p);
        assert(q =~= Seq::<SchemaViewSpec>::empty());
    } else {
        let kf = entry_keyed::<SchemaView>();
        let kp = SchemaView::entry_key(p.last());
        let kq = SchemaView::entry_key(q.last());
        lemma_strictly_sorted_view_tail(p);
        lemma_strictly_sorted_view_tail(q);
        let p1 = p.drop_last();
        let q1 = q.drop_last();
        if kp == kq {
            assert forall|i: int| 0 <= i < p1.len() implies SchemaView::entry_key(#[trigger] p1[i]) != SchemaView::entry_key(q.last()) by {
                assert(p1[i] == p[i]);
            }
            assert forall|i: int| 0 <= i < q1.len() implies SchemaView::entry_key(#[trigger] q1[i]) != SchemaView::entry_key(p.last()) by {
                assert(q1[i] == q[i]);
            }
            lemma_view_diffs_drop_old(p1, q);
            lemma_view_diffs_drop_old(q1, p);
            lemma_view_diffs_swap(p1, q1);
            lemma_view_diff_symmetric(q.last(), p.last());
        } else if crate::order::key_lt(kq, kp) {
            assert forall|i: int| 0 <= i < q.len() implies SchemaView::entry_key(#[trigger] q[i]) != kp by {
                if i < q.len() - 1 {
                    assert(crate::order::key_lt(kf(q[i]), kq));
                }
            }
            lemma_keyed_found(q, kp, kf);
            lemma_view_diffs_drop_old(q, p);
            lemma_view_diffs_swap(p1, q);
        } else {
            assert(crate::order::key_lt(kp, kq));
            assert forall|i: int| 0 <= i < p.len() implies SchemaView::entry_key(#[trigger] p[i]) != kq by {
                if i < p.len() - 1 {
                    assert(crate::order::key_lt(kf(p[i]), kp));
                }
            }
            lemma_keyed_found(p, kq, kf);
            lemma_view_diffs_drop_old(p, q);
            lemma_view_diffs_swap(p, q1);
        }
    }
}

/// Comparing the other way round finds the same number of modified views:
/// a view changed one way round is changed the other way round too.
pub proof fn law_reversed_comparison_counts_the_same_modified_views(a: DatabaseSpec, b: DatabaseSpec)
    ensures
        modified_views(a.views, b.views).len() == modified_views(b.views, a.views).len(),
{
    let kf = entry_keyed::<SchemaView>();
    lemma_entries_keys_distinct(a.views, kf);
    lemma_entries_keys_distinct(b.views, kf);
    lemma_view_diffs_through_entries(entries(b.views, kf), a.views);
    lemma_view_diffs_through_entries(entries(a.views, kf), b.views);
    lemma_view_diffs_swap(entries(b.views, kf), entries(a.views, kf));
}

/// The number of changes a comparison of `old` with `new` reports: the
/// added, removed and modified tables and views together.
pub open spec fn change_count(old: DatabaseSpec, new: DatabaseSpec) -> nat {
    added_items(old.tables, new.tables, entry_keyed::<Table>()).len() + removed_items(
        old.tables,
        new.tables,
        entry_keyed::<Table>(),
    ).len() + modified_tables(old.tables, new.tables).len() + added_items(
        old.views,
        new.views,
        entry_keyed::<SchemaView>(),
    ).len() + removed_items(old.views, new.views, entry_keyed::<SchemaView>()).len()
        + modified_views(old.views, new.views).len()
}

/// Comparing the other way round reports what was added as removed and
/// what was removed as added, finds as many modified tables and views, and
/// so counts as many changes.
pub proof fn law_reversed_comparison_counts_the_same_changes(a: DatabaseSpec, b: DatabaseSpec)
    ensures
        added_items(a.tables, b.tables, entry_keyed::<Table>()) == removed_items(
            b.tables,
            a.tables,
            entry_keyed::<Table>(),
        ),
        removed_items(a.tables, b.tables, entry_keyed::<Table>()) == added_items(
            b.tables,
            a.tables,
            entry_keyed::<Table>(),
        ),
        added_items(a.views, b.views, entry_keyed::<SchemaView>()) == removed_items(
            b.views,
            a.views,
            entry_keyed::<SchemaView>(),
        ),
        removed_items(a.views, b.views, entry_keyed::<SchemaView>()) == added_items(
            b.views,
            a.views,
            entry_keyed::<SchemaView>(),
        ),
        modified_tables(a.tables, b.tables).len() == modified_tables(b.tables, a.tables).len(),
        modified_views(a.views, b.views).len() == modified_views(b.views, a.views).len(),
        change_count(a, b) == change_count(b, a),
{
    law_reversed_comparison_counts_the_same_modified_tables(a, b);
    law_reversed_comparison_counts_the_same_modified_views(a, b);
}

proof fn lemma_text_key_same(a: Seq<Seq<char>>, b: Seq<Seq<char>>)
    ensures
        text_key(a) == text_key(b) <==> a == b,
{
    if text_key(a) == text_key(b) {
        assert(text_key(a).len() == a.len() && text_key(b).len() == b.len());
        assert(a.len() == b.len());
        assert forall|i: int| 0 <= i < a.len() implies a[i] == b[i] by {
            assert(text_key(a)[i] == KeyPart::Text(a[i]));
            assert(text_key(b)[i] == KeyPart::Text(b[i]));
        }
        assert(a =~= b);
    }
}

/// What a comparison matches old and new items by: columns, indexes and
/// foreign keys by their name alone, tables and views by their namespace
/// and name.
pub proof fn law_comparisons_match_by_name(
    c1: ColumnSpec,
    c2: ColumnSpec,
    i1: IndexSpec,
    i2: IndexSpec,
    f1: ForeignKeySpec,
    f2: ForeignKeySpec,
    t1: TableSpec,
    t2: TableSpec,
    v1: SchemaViewSpec,
    v2: SchemaViewSpec,
)
    ensures
        entry_keyed::<Column>()(c1) == entry_keyed::<Column>()(c2) <==> c1.name == c2.name,
        entry_keyed::<Index>()(i1) == entry_keyed::<Index>()(i2) <==> i1.name == i2.name,
        entry_keyed::<ForeignKey>()(f1) == entry_keyed::<ForeignKey>()(f2) <==> f1.name == f2.name,
        entry_keyed::<Table>()(t1) == entry_keyed::<Table>()(t2) <==> (t1.schema == t2.schema && t1.name
            == t2.name),
        entry_keyed::<SchemaView>()(v1) == entry_keyed::<SchemaView>()(v2) <==> (v1.schema == v2.schema
            && v1.name == v2.name),
{
    lemma_text_key_same(seq![c1.name], seq![c2.name]);
    lemma_text_key_same(seq![i1.name], seq![i2.name]);
    lemma_text_key_same(seq![f1.name], seq![f2.name]);
    lemma_text_key_same(seq![t1.schema, t1.name], seq![t2.schema, t2.name]);
    lemma_text_key_same(seq![v1.schema, v1.name], seq![v2.schema, v2.name]);
    if seq![c1.name] == seq![c2.name] {
        assert(seq![c1.name][0] == seq![c2.name][0]);
    }
    if seq![i1.name] == seq![i2.name] {
        assert(seq![i1.name][0] == seq![i2.name][0]);
    }
    if seq![f1.name] == seq![f2.name] {
        assert(seq![f1.name][0] == seq![f2.name][0]);
    }
    if seq![t1.schema, t1.name] == seq![t2.schema, t2.name] {
        assert(seq![t1.schema, t1.name][0] == seq![t2.schema, t2.name][0]);
        assert(seq![t1.schema, t1.name][1] == seq![t2.schema, t2.name][1]);
    }
    if seq![v1.schema, v1.name] == seq![v2.schema, v2.name] {
        assert(seq![v1.schema, v1.name][0] == seq![v2.schema, v2.name][0]);
        assert(seq![v1.schema, v1.name][1] == seq![v2.schema, v2.name][1]);
    }
    if t1.schema == t2.schema && t1.name == t2.name {
        assert(seq![t1.schema, t1.name] =~= seq![t2.schema, t2.name]);
    }
    if v1.schema == v2.schema && v1.name == v2.name {
        assert(seq![v1.schema, v1.name] =~= seq![v2.schema, v2.name]);
    }
}

} // verus!

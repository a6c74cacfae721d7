//! Schema comparison of two Parquet files (`--diff`): which leaf columns were
//! added, removed, or changed type, and the text report of the differences.

use vstd::prelude::*;
use crate::parquet_types::spec_physical_name;
use crate::schema::{ColumnInfo, get_logical_type_str, spec_logical_type_str};
use crate::text::{contains_str, str_eq, strs};

verus! {

/// The type of a column as the diff compares it: its physical type name and
/// its logical label, if any.
#[derive(Debug)]
pub struct TypeInfo {
    pub physical: String,
    pub logical: Option<String>,
}

/// A column present in only one of the two files.
#[derive(Debug)]
pub struct FieldDiff {
    pub name: String,
    pub type_info: TypeInfo,
}

/// A column whose type differs between the two files.
#[derive(Debug)]
pub struct FieldChanged {
    pub name: String,
    pub from: TypeInfo,
    pub to: TypeInfo,
}

/// Result of comparing two schemas.
#[derive(Debug)]
pub enum DiffOutcome {
    Identical,
    Different {
        added: Vec<FieldDiff>,
        removed: Vec<FieldDiff>,
        changed: Vec<FieldChanged>,
        union_order: Vec<String>,
    },
}

/// Model of a column type: physical name and optional logical label.
pub type TypeModel = (Seq<char>, Option<Seq<char>>);

/// Model of a named column type.
pub type EntryModel = (Seq<char>, TypeModel);

/// Model of a changed column: name, old type, new type.
pub type ChangeModel = (Seq<char>, TypeModel, TypeModel);

/// An optional string as optional text.
pub open spec fn opt_str(o: Option<String>) -> Option<Seq<char>> {
    match o {
        Some(s) => Some(s@),
        None => None,
    }
}

impl View for TypeInfo {
    type V = TypeModel;

    open spec fn view(&self) -> TypeModel {
        (self.physical@, opt_str(self.logical))
    }
}

/// Named column types as plain values.
pub open spec fn entries(fields: Seq<(String, TypeInfo)>) -> Seq<EntryModel> {
    fields.map_values(|f: (String, TypeInfo)| (f.0@, f.1@))
}

/// Added or removed columns as plain values.
pub open spec fn diff_entries(v: Seq<FieldDiff>) -> Seq<EntryModel> {
    v.map_values(|f: FieldDiff| (f.name@, f.type_info@))
}

/// Changed columns as plain values.
pub open spec fn change_entries(v: Seq<FieldChanged>) -> Seq<ChangeModel> {
    v.map_values(|f: FieldChanged| (f.name@, f.from@, f.to@))
}

/// Model of a diff outcome.
pub enum DiffModel {
    Identical,
    Different {
        added: Seq<EntryModel>,
        removed: Seq<EntryModel>,
        changed: Seq<ChangeModel>,
        union_order: Seq<Seq<char>>,
    },
}

impl View for DiffOutcome {
    type V = DiffModel;

    open spec fn view(&self) -> DiffModel {
        match self {
            DiffOutcome::Identical => DiffModel::Identical,
            DiffOutcome::Different { added, removed, changed, union_order } => DiffModel::Different {
                added: diff_entries(added@),
                removed: diff_entries(removed@),
                changed: change_entries(changed@),
                union_order: strs(union_order@),
            },
        }
    }
}

/// The type recorded for `name`: its last occurrence wins, as when the
/// columns are collected into a map.
pub open spec fn lookup_last(es: Seq<EntryModel>, name: Seq<char>) -> Option<TypeModel>
    decreases es.len(),
{
    if es.len() == 0 {
        None
    } else if es.last().0 == name {
        Some(es.last().1)
    } else {
        lookup_last(es.drop_last(), name)
    }
}

/// `acc` followed by the names of `es` not seen before, in first-seen order.
pub open spec fn add_names(acc: Seq<Seq<char>>, es: Seq<EntryModel>) -> Seq<Seq<char>>
    decreases es.len(),
{
    if es.len() == 0 {
        acc
    } else {
        let prev = add_names(acc, es.drop_last());
        if prev.contains(es.last().0) {
            prev
        } else {
            prev.push(es.last().0)
        }
    }
}

/// Column names of the first file, then those only in the second, each once.
pub open spec fn spec_union_order(a: Seq<EntryModel>, b: Seq<EntryModel>) -> Seq<Seq<char>> {
    add_names(add_names(Seq::empty(), a), b)
}

/// Names of `u` present only in `a`, with their type in `a`.
pub open spec fn removed_of(u: Seq<Seq<char>>, a: Seq<EntryModel>, b: Seq<EntryModel>) -> Seq<
    EntryModel,
>
    decreases u.len(),
{
    if u.len() == 0 {
        Seq::empty()
    } else {
        let prev = removed_of(u.drop_last(), a, b);
        let n = u.last();
        match (lookup_last(a, n), lookup_last(b, n)) {
            (Some(ta), None) => prev.push((n, ta)),
            _ => prev,
        }
    }
}

/// Names of `u` present only in `b`, with their type in `b`.
pub open spec fn added_of(u: Seq<Seq<char>>, a: Seq<EntryModel>, b: Seq<EntryModel>) -> Seq<
    EntryModel,
>
    decreases u.len(),
{
    if u.len() == 0 {
        Seq::empty()
    } else {
        let prev = added_of(u.drop_last(), a, b);
        let n = u.last();
        match (lookup_last(a, n), lookup_last(b, n)) {
            (None, Some(tb)) => prev.push((n, tb)),
            _ => prev,
        }
    }
}

/// Names of `u` present in both with different types.
pub open spec fn changed_of(u: Seq<Seq<char>>, a: Seq<EntryModel>, b: Seq<EntryModel>) -> Seq<
    ChangeModel,
>
    decreases u.len(),
{
    if u.len() == 0 {
        Seq::empty()
    } else {
        let prev = changed_of(u.drop_last(), a, b);
        let n = u.last();
        match (lookup_last(a, n), lookup_last(b, n)) {
            (Some(ta), Some(tb)) => if ta != tb {
                prev.push((n, ta, tb))
            } else {
                prev
            },
            _ => prev,
        }
    }
}

/// The comparison of two column lists: `Identical` when no column was added,
/// removed or changed; otherwise the three lists in union order.
pub open spec fn spec_diff(a: Seq<EntryModel>, b: Seq<EntryModel>) -> DiffModel {
    let u = spec_union_order(a, b);
    let added = added_of(u, a, b);
    let removed = removed_of(u, a, b);
    let changed = changed_of(u, a, b);
    if added.len() == 0 && removed.len() == 0 && changed.len() == 0 {
        DiffModel::Identical
    } else {
        DiffModel::Different { added, removed, changed, union_order: u }
    }
}

/// Whether some entry of `es` is named `n`.
pub open spec fn has_name(es: Seq<EntryModel>, n: Seq<char>) -> bool {
    exists|j: int| 0 <= j < es.len() && (#[trigger] es[j]).0 == n
}

proof fn lemma_lookup_some_has_name(es: Seq<EntryModel>, n: Seq<char>)
    ensures
        lookup_last(es, n) is Some <==> has_name(es, n),
    decreases es.len(),
{
    if es.len() > 0 {
        lemma_lookup_some_has_name(es.drop_last(), n);
        if has_name(es, n) && es.last().0 != n {
            let j = choose|j: int| 0 <= j < es.len() && (#[trigger] es[j]).0 == n;
            assert(j != es.len() - 1);
            assert(es.drop_last()[j] == es[j]);
        }
        if has_name(es.drop_last(), n) {
            let j = choose|j: int| 0 <= j < es.drop_last().len() && (#[trigger] es.drop_last()[j]).0 == n;
            assert(es[j] == es.drop_last()[j]);
        }
        if es.last().0 == n {
            assert(es[es.len() - 1].0 == n);
        }
    }
}

proof fn lemma_add_names_contains(acc: Seq<Seq<char>>, es: Seq<EntryModel>, n: Seq<char>)
    ensures
        add_names(acc, es).contains(n) <==> (acc.contains(n) || has_name(es, n)),
    decreases es.len(),
{
    if es.len() > 0 {
        lemma_add_names_contains(acc, es.drop_last(), n);
        let prev = add_names(acc, es.drop_last());
        if has_name(es, n) && es.last().0 != n {
            let j = choose|j: int| 0 <= j < es.len() && (#[trigger] es[j]).0 == n;
            assert(j != es.len() - 1);
            assert(es.drop_last()[j] == es[j]);
        }
        if has_name(es.drop_last(), n) {
            let j = choose|j: int| 0 <= j < es.drop_last().len() && (#[trigger] es.drop_last()[j]).0 == n;
            assert(es[j] == es.drop_last()[j]);
        }
        if es.last().0 == n {
            assert(es[es.len() - 1].0 == n);
            assert(prev.push(n)[prev.len() as int] == n);
        }
        if !prev.contains(es.last().0) && prev.contains(n) {
            let k = choose|k: int| 0 <= k < prev.len() && prev[k] == n;
            assert(prev.push(es.last().0)[k] == n);
        }
        if !prev.contains(es.last().0) && prev.push(es.last().0).contains(n) && n != es.last().0 {
            let k = choose|k: int| 0 <= k < prev.len() + 1 && prev.push(es.last().0)[k] == n;
            assert(k < prev.len());
            assert(prev[k] == n);
        }
    }
}

proof fn lemma_outputs_empty(u: Seq<Seq<char>>, a: Seq<EntryModel>, b: Seq<EntryModel>)
    requires
        forall|n: Seq<char>| #[trigger] lookup_last(a, n) == lookup_last(b, n),
    ensures
        added_of(u, a, b).len() == 0,
        removed_of(u, a, b).len() == 0,
        changed_of(u, a, b).len() == 0,
    decreases u.len(),
{
    if u.len() > 0 {
        lemma_outputs_empty(u.drop_last(), a, b);
        assert(lookup_last(a, u.last()) == lookup_last(b, u.last()));
    }
}

proof fn lemma_outputs_empty_agree(u: Seq<Seq<char>>, a: Seq<EntryModel>, b: Seq<EntryModel>, n: Seq<char>)
    requires
        added_of(u, a, b).len() == 0,
        removed_of(u, a, b).len() == 0,
        changed_of(u, a, b).len() == 0,
        u.contains(n),
    ensures
        lookup_last(a, n) == lookup_last(b, n),
    decreases u.len(),
{
    if u.len() > 0 {
        let prev_added = added_of(u.drop_last(), a, b);
        let prev_removed = removed_of(u.drop_last(), a, b);
        let prev_changed = changed_of(u.drop_last(), a, b);
        let m = u.last();
        match (lookup_last(a, m), lookup_last(b, m)) {
            (Some(ta), None) => {
                assert(removed_of(u, a, b).len() == prev_removed.len() + 1);
            },
            (None, Some(tb)) => {
                assert(added_of(u, a, b).len() == prev_added.len() + 1);
            },
            (Some(ta), Some(tb)) => {
                if ta != tb {
                    assert(changed_of(u, a, b).len() == prev_changed.len() + 1);
                }
            },
            _ => {},
        }
        if n != m {
            let k = choose|k: int| 0 <= k < u.len() && u[k] == n;
            assert(k != u.len() - 1);
            assert(u.drop_last()[k] == n);
            lemma_outputs_empty_agree(u.drop_last(), a, b, n);
        }
    }
}

/// The diff reports two schemas as identical exactly when every column name
/// has the same type in both (a name absent from both counts as agreeing).
pub proof fn law_diff_identical_iff(a: Seq<EntryModel>, b: Seq<EntryModel>)
    ensures
        (spec_diff(a, b) is Identical) <==> (forall|n: Seq<char>|
            #[trigger] lookup_last(a, n) == lookup_last(b, n)),
{
    let u = spec_union_order(a, b);
    if forall|n: Seq<char>| #[trigger] lookup_last(a, n) == lookup_last(b, n) {
        lemma_outputs_empty(u, a, b);
    }
    if spec_diff(a, b) is Identical {
        assert forall|n: Seq<char>| #[trigger] lookup_last(a, n) == lookup_last(b, n) by {
            lemma_lookup_some_has_name(a, n);
            lemma_lookup_some_has_name(b, n);
            lemma_add_names_contains(Seq::empty(), a, n);
            lemma_add_names_contains(add_names(Seq::empty(), a), b, n);
            if has_name(a, n) || has_name(b, n) {
                lemma_outputs_empty_agree(u, a, b, n);
            }
        }
    }
}

/// A schema compared with itself is identical.
pub proof fn law_diff_reflexive(a: Seq<EntryModel>)
    ensures
        spec_diff(a, a) is Identical,
{
    law_diff_identical_iff(a, a);
}

/// The union order lists each column name of either schema, and no other.
pub proof fn law_union_order_names(a: Seq<EntryModel>, b: Seq<EntryModel>, n: Seq<char>)
    ensures
        spec_union_order(a, b).contains(n) <==> (has_name(a, n) || has_name(b, n)),
{
    lemma_add_names_contains(Seq::empty(), a, n);
    lemma_add_names_contains(add_names(Seq::empty(), a), b, n);
}

proof fn lemma_push_contains<A>(s: Seq<A>, x: A, e: A)
    ensures
        s.push(x).contains(e) <==> (s.contains(e) || e == x),
{
    if s.contains(e) {
        let k = choose|k: int| 0 <= k < s.len() && s[k] == e;
        assert(s.push(x)[k] == e);
    }
    if e == x {
        assert(s.push(x)[s.len() as int] == e);
    }
    if s.push(x).contains(e) && e != x {
        let k = choose|k: int| 0 <= k < s.len() + 1 && s.push(x)[k] == e;
        assert(s[k] == e);
    }
}

proof fn lemma_last_contains<A>(u: Seq<A>, e: A)
    requires
        u.len() > 0,
    ensures
        u.contains(e) <==> (u.drop_last().contains(e) || e == u.last()),
{
    assert(u =~= u.drop_last().push(u.last()));
    lemma_push_contains(u.drop_last(), u.last(), e);
}

proof fn lemma_removed_of_contains(u: Seq<Seq<char>>, a: Seq<EntryModel>, b: Seq<EntryModel>, e: EntryModel)
    ensures
        removed_of(u, a, b).contains(e) <==> (u.contains(e.0) && lookup_last(a, e.0) == Some(e.1)
            && lookup_last(b, e.0) is None),
    decreases u.len(),
{
    if u.len() > 0 {
        lemma_removed_of_contains(u.drop_last(), a, b, e);
        lemma_last_contains(u, e.0);
        let prev = removed_of(u.drop_last(), a, b);
        let n = u.last();
        match (lookup_last(a, n), lookup_last(b, n)) {
            (Some(ta), None) => lemma_push_contains(prev, (n, ta), e),
            _ => {},
        }
    }
}

proof fn lemma_added_of_contains(u: Seq<Seq<char>>, a: Seq<EntryModel>, b: Seq<EntryModel>, e: EntryModel)
    ensures
        added_of(u, a, b).contains(e) <==> (u.contains(e.0) && lookup_last(a, e.0) is None
            && lookup_last(b, e.0) == Some(e.1)),
    decreases u.len(),
{
    if u.len() > 0 {
        lemma_added_of_contains(u.drop_last(), a, b, e);
        lemma_last_contains(u, e.0);
        let prev = added_of(u.drop_last(), a, b);
        let n = u.last();
        match (lookup_last(a, n), lookup_last(b, n)) {
            (None, Some(tb)) => lemma_push_contains(prev, (n, tb), e),
            _ => {},
        }
    }
}

proof fn lemma_changed_of_contains(u: Seq<Seq<char>>, a: Seq<EntryModel>, b: Seq<EntryModel>, e: ChangeModel)
    ensures
        changed_of(u, a, b).contains(e) <==> (u.contains(e.0) && lookup_last(a, e.0) == Some(e.1)
            && lookup_last(b, e.0) == Some(e.2) && e.1 != e.2),
    decreases u.len(),
{
    if u.len() > 0 {
        lemma_changed_of_contains(u.drop_last(), a, b, e);
        lemma_last_contains(u, e.0);
        let prev = changed_of(u.drop_last(), a, b);
        let n = u.last();
        match (lookup_last(a, n), lookup_last(b, n)) {
            (Some(ta), Some(tb)) => if ta != tb {
                lemma_push_contains(prev, (n, ta, tb), e);
            },
            _ => {},
        }
    }
}

/// Swapping the two schemas swaps the report: the diff of `(b, a)` is
/// identical exactly when that of `(a, b)` is; the columns added in one are
/// those removed in the other, with the same types; and a column changed from
/// `x` to `y` in one is changed from `y` to `x` in the other.
pub proof fn law_diff_symmetric(a: Seq<EntryModel>, b: Seq<EntryModel>)
    ensures
        (spec_diff(a, b) is Identical) <==> (spec_diff(b, a) is Identical),
        forall|e: EntryModel|
            #[trigger] added_of(spec_union_order(a, b), a, b).contains(e) <==> removed_of(
                spec_union_order(b, a),
                b,
                a,
            ).contains(e),
        forall|e: EntryModel|
            #[trigger] removed_of(spec_union_order(a, b), a, b).contains(e) <==> added_of(
                spec_union_order(b, a),
                b,
                a,
            ).contains(e),
        forall|n: Seq<char>, x: TypeModel, y: TypeModel|
            #[trigger] changed_of(spec_union_order(a, b), a, b).contains((n, x, y)) <==> changed_of(
                spec_union_order(b, a),
                b,
                a,
            ).contains((n, y, x)),
{
    law_diff_identical_iff(a, b);
    law_diff_identical_iff(b, a);
    let uab = spec_union_order(a, b);
    let uba = spec_union_order(b, a);
    assert forall|n: Seq<char>| #[trigger] uab.contains(n) <==> uba.contains(n) by {
        law_union_order_names(a, b, n);
        law_union_order_names(b, a, n);
    }
    assert forall|e: EntryModel| #[trigger] added_of(uab, a, b).contains(e) <==> removed_of(
        uba,
        b,
        a,
    ).contains(e) by {
        lemma_added_of_contains(uab, a, b, e);
        lemma_removed_of_contains(uba, b, a, e);
    }
    assert forall|e: EntryModel| #[trigger] removed_of(uab, a, b).contains(e) <==> added_of(
        uba,
        b,
        a,
    ).contains(e) by {
        lemma_removed_of_contains(uab, a, b, e);
        lemma_added_of_contains(uba, b, a, e);
    }
    assert forall|n: Seq<char>, x: TypeModel, y: TypeModel| #[trigger] changed_of(uab, a, b).contains(
        (n, x, y),
    ) <==> changed_of(uba, b, a).contains((n, y, x)) by {
        lemma_changed_of_contains(uab, a, b, (n, x, y));
        lemma_changed_of_contains(uba, b, a, (n, y, x));
    }
}

/// Dropping trailing entries that do not name `name` keeps its lookup.
pub proof fn lemma_lookup_last_take(es: Seq<EntryModel>, name: Seq<char>, k: int)
    requires
        0 <= k <= es.len(),
        forall|j: int| k <= j < es.len() ==> es[j].0 != name,
    ensures
        lookup_last(es, name) == lookup_last(es.take(k), name),
    decreases es.len() - k,
{
    if k < es.len() {
        assert(es.last() == es[es.len() - 1]);
        assert forall|j: int| k <= j < es.drop_last().len() implies es.drop_last()[j].0 != name by {
            assert(es.drop_last()[j] == es[j]);
        }
        lemma_lookup_last_take(es.drop_last(), name, k);
        assert(es.drop_last().take(k) =~= es.take(k));
    } else {
        assert(es.take(k) =~= es);
    }
}

impl TypeInfo {
    /// A copy of the type info.
    pub fn duplicate(&self) -> (r: TypeInfo)
        ensures
            r@ == self@,
    {
        let logical = match &self.logical {
            Some(l) => Some(l.clone()),
            None => None,
        };
        TypeInfo { physical: self.physical.clone(), logical }
    }

    /// Whether two type infos are the same.
    pub fn same_as(&self, other: &TypeInfo) -> (r: bool)
        ensures
            r == (self@ == other@),
    {
        if !str_eq(self.physical.as_str(), other.physical.as_str()) {
            return false;
        }
        match (&self.logical, &other.logical) {
            (Some(x), Some(y)) => str_eq(x.as_str(), y.as_str()),
            (None, None) => true,
            _ => false,
        }
    }
}

/// Position of the last column named `name`, if any.
fn find_last(fields: &Vec<(String, TypeInfo)>, name: &str) -> (r: Option<usize>)
    ensures
        match r {
            Some(k) => k < fields.len() && lookup_last(entries(fields@), name@) == Some(
                entries(fields@)[k as int].1,
            ),
            None => lookup_last(entries(fields@), name@) is None,
        },
{
    let ghost es = entries(fields@);
    let mut i: usize = fields.len();
    while i > 0
        invariant
            i <= fields.len(),
            es == entries(fields@),
            forall|j: int| i <= j < fields.len() ==> es[j].0 != name@,
        decreases i,
    {
        if str_eq(fields[i - 1].0.as_str(), name) {
            proof {
                lemma_lookup_last_take(es, name@, i as int);
                assert(es.take(i as int).last() == es[i - 1]);
            }
            return Some(i - 1);
        }
        i = i - 1;
    }
    proof {
        lemma_lookup_last_take(es, name@, 0);
    }
    None
}

/// Appends to `acc` the names of `fields` that it does not hold yet.
fn add_names_exec(acc: &mut Vec<String>, fields: &Vec<(String, TypeInfo)>)
    ensures
        strs(final(acc)@) == add_names(strs(old(acc)@), entries(fields@)),
{
    let ghost start = strs(acc@);
    let ghost es = entries(fields@);
    let mut i: usize = 0;
    while i < fields.len()
        invariant
            0 <= i <= fields.len(),
            es == entries(fields@),
            strs(acc@) == add_names(start, es.take(i as int)),
        decreases fields.len() - i,
    {
        assert(es.take(i + 1).drop_last() =~= es.take(i as int));
        if !contains_str(acc, fields[i].0.as_str()) {
            acc.push(fields[i].0.clone());
            assert(strs(acc@) =~= add_names(start, es.take(i as int)).push(fields@[i as int].0@));
        }
        i = i + 1;
    }
    assert(es.take(fields.len() as int) =~= es);
}

/// Compares the leaf columns of two schemas, given as `(name, type)` lists
/// in schema order.
pub fn diff_schemas(fields_a: &Vec<(String, TypeInfo)>, fields_b: &Vec<(String, TypeInfo)>) -> (r: DiffOutcome)
    ensures
        r@ == spec_diff(entries(fields_a@), entries(fields_b@)),
{
    let ghost a = entries(fields_a@);
    let ghost b = entries(fields_b@);
    let mut union_order: Vec<String> = Vec::new();
    assert(strs(union_order@) =~= Seq::<Seq<char>>::empty());
    add_names_exec(&mut union_order, fields_a);
    add_names_exec(&mut union_order, fields_b);
    let ghost u = strs(union_order@);
    assert(u == spec_union_order(a, b));

    let mut added: Vec<FieldDiff> = Vec::new();
    let mut removed: Vec<FieldDiff> = Vec::new();
    let mut changed: Vec<FieldChanged> = Vec::new();
    let mut i: usize = 0;
    while i < union_order.len()
        invariant
            0 <= i <= union_order.len(),
            u == strs(union_order@),
            a == entries(fields_a@),
            b == entries(fields_b@),
            diff_entries(added@) == added_of(u.take(i as int), a, b),
            diff_entries(removed@) == removed_of(u.take(i as int), a, b),
            change_entries(changed@) == changed_of(u.take(i as int), a, b),
        decreases union_order.len() - i,
    {
        let name = union_order[i].as_str();
        assert(u.take(i + 1).drop_last() =~= u.take(i as int));
        assert(u.take(i + 1).last() == name@);
        let ia = find_last(fields_a, name);
        let ib = find_last(fields_b, name);
        match (ia, ib) {
            (Some(ka), None) => {
                removed.push(
                    FieldDiff { name: union_order[i].clone(), type_info: fields_a[ka].1.duplicate() },
                );
                assert(diff_entries(removed@) =~= removed_of(u.take(i as int), a, b).push(
                    (name@, a[ka as int].1),
                ));
            },
            (None, Some(kb)) => {
                added.push(
                    FieldDiff { name: union_order[i].clone(), type_info: fields_b[kb].1.duplicate() },
                );
                assert(diff_entries(added@) =~= added_of(u.take(i as int), a, b).push(
                    (name@, b[kb as int].1),
                ));
            },
            (Some(ka), Some(kb)) => {
                if !fields_a[ka].1.same_as(&fields_b[kb].1) {
                    changed.push(
                        FieldChanged {
                            name: union_order[i].clone(),
                            from: fields_a[ka].1.duplicate(),
                            to: fields_b[kb].1.duplicate(),
                        },
                    );
                    assert(change_entries(changed@) =~= changed_of(u.take(i as int), a, b).push(
                        (name@, a[ka as int].1, b[kb as int].1),
                    ));
                }
            },
            (None, None) => {},
        }
        i = i + 1;
    }
    assert(u.take(union_order.len() as int) =~= u);
    if added.len() == 0 && removed.len() == 0 && changed.len() == 0 {
        DiffOutcome::Identical
    } else {
        DiffOutcome::Different { added, removed, changed, union_order }
    }
}

/// How a column type is shown: `PHYSICAL` or `PHYSICAL LOGICAL`.
pub open spec fn spec_display(t: TypeModel) -> Seq<char> {
    match t.1 {
        Some(l) => t.0 + " "@ + l,
        None => t.0,
    }
}

impl TypeInfo {
    /// How the type is shown in the text report.
    pub fn display(&self) -> (s: String)
        ensures
            s@ == spec_display(self@),
    {
        match &self.logical {
            Some(l) => {
                let mut s = self.physical.clone();
                s.append(" ");
                s.append(l.as_str());
                s
            },
            None => self.physical.clone(),
        }
    }
}

/// The change recorded for `name` (last occurrence wins).
pub open spec fn lookup_change(cs: Seq<ChangeModel>, name: Seq<char>) -> Option<(TypeModel, TypeModel)>
    decreases cs.len(),
{
    if cs.len() == 0 {
        None
    } else if cs.last().0 == name {
        Some((cs.last().1, cs.last().2))
    } else {
        lookup_change(cs.drop_last(), name)
    }
}

proof fn lemma_lookup_change_take(cs: Seq<ChangeModel>, name: Seq<char>, k: int)
    requires
        0 <= k <= cs.len(),
        forall|j: int| k <= j < cs.len() ==> cs[j].0 != name,
    ensures
        lookup_change(cs, name) == lookup_change(cs.take(k), name),
    decreases cs.len() - k,
{
    if k < cs.len() {
        assert(cs.last() == cs[cs.len() - 1]);
        assert forall|j: int| k <= j < cs.drop_last().len() implies cs.drop_last()[j].0 != name by {
            assert(cs.drop_last()[j] == cs[j]);
        }
        lemma_lookup_change_take(cs.drop_last(), name, k);
        assert(cs.drop_last().take(k) =~= cs.take(k));
    } else {
        assert(cs.take(k) =~= cs);
    }
}

/// The report line for one name: `- name type` when removed, `+ name type`
/// when added, `~ name old → new` when changed, none otherwise.
pub open spec fn spec_text_line(
    n: Seq<char>,
    removed: Seq<EntryModel>,
    added: Seq<EntryModel>,
    changed: Seq<ChangeModel>,
) -> Option<Seq<char>> {
    if lookup_last(removed, n) is Some {
        Some("- "@ + n + " "@ + spec_display(lookup_last(removed, n)->0))
    } else if lookup_last(added, n) is Some {
        Some("+ "@ + n + " "@ + spec_display(lookup_last(added, n)->0))
    } else if lookup_change(changed, n) is Some {
        let c = lookup_change(changed, n)->0;
        Some("~ "@ + n + " "@ + spec_display(c.0) + " → "@ + spec_display(c.1))
    } else {
        None
    }
}

/// The report lines for the names of `u`, in order.
pub open spec fn spec_text_lines(
    u: Seq<Seq<char>>,
    removed: Seq<EntryModel>,
    added: Seq<EntryModel>,
    changed: Seq<ChangeModel>,
) -> Seq<Seq<char>>
    decreases u.len(),
{
    if u.len() == 0 {
        Seq::empty()
    } else {
        let prev = spec_text_lines(u.drop_last(), removed, added, changed);
        match spec_text_line(u.last(), removed, added, changed) {
            Some(l) => prev.push(l),
            None => prev,
        }
    }
}

/// The text report of an outcome: nothing when identical.
pub open spec fn spec_report(d: DiffModel) -> Seq<Seq<char>> {
    match d {
        DiffModel::Identical => Seq::empty(),
        DiffModel::Different { added, removed, changed, union_order } => spec_text_lines(
            union_order,
            removed,
            added,
            changed,
        ),
    }
}

fn find_last_entry(v: &Vec<FieldDiff>, name: &str) -> (r: Option<usize>)
    ensures
        match r {
            Some(k) => k < v.len() && lookup_last(diff_entries(v@), name@) == Some(
                diff_entries(v@)[k as int].1,
            ),
            None => lookup_last(diff_entries(v@), name@) is None,
        },
{
    let ghost es = diff_entries(v@);
    let mut i: usize = v.len();
    while i > 0
        invariant
            i <= v.len(),
            es == diff_entries(v@),
            forall|j: int| i <= j < v.len() ==> es[j].0 != name@,
        decreases i,
    {
        if str_eq(v[i - 1].name.as_str(), name) {
            proof {
                lemma_lookup_last_take(es, name@, i as int);
                assert(es.take(i as int).last() == es[i - 1]);
            }
            return Some(i - 1);
        }
        i = i - 1;
    }
    proof {
        lemma_lookup_last_take(es, name@, 0);
    }
    None
}

fn find_last_change(v: &Vec<FieldChanged>, name: &str) -> (r: Option<usize>)
    ensures
        match r {
            Some(k) => k < v.len() && lookup_change(change_entries(v@), name@) == Some(
                (change_entries(v@)[k as int].1, change_entries(v@)[k as int].2),
            ),
            None => lookup_change(change_entries(v@), name@) is None,
        },
{
    let ghost cs = change_entries(v@);
    let mut i: usize = v.len();
    while i > 0
        invariant
            i <= v.len(),
            cs == change_entries(v@),
            forall|j: int| i <= j < v.len() ==> cs[j].0 != name@,
        decreases i,
    {
        if str_eq(v[i - 1].name.as_str(), name) {
            proof {
                lemma_lookup_change_take(cs, name@, i as int);
                assert(cs.take(i as int).last() == cs[i - 1]);
            }
            return Some(i - 1);
        }
        i = i - 1;
    }
    proof {
        lemma_lookup_change_take(cs, name@, 0);
    }
    None
}

/// The text report of a schema comparison, one line per differing column.
pub fn emit_text(outcome: &DiffOutcome) -> (lines: Vec<String>)
    ensures
        strs(lines@) == spec_report(outcome@),
{
    let mut lines: Vec<String> = Vec::new();
    match outcome {
        DiffOutcome::Identical => {
            assert(strs(lines@) =~= Seq::<Seq<char>>::empty());
            lines
        },
        DiffOutcome::Different { added, removed, changed, union_order } => {
            let ghost u = strs(union_order@);
            let ghost rm = diff_entries(removed@);
            let ghost ad = diff_entries(added@);
            let ghost ch = change_entries(changed@);
            let mut i: usize = 0;
            while i < union_order.len()
                invariant
                    0 <= i <= union_order.len(),
                    u == strs(union_order@),
                    rm == diff_entries(removed@),
                    ad == diff_entries(added@),
                    ch == change_entries(changed@),
                    strs(lines@) == spec_text_lines(u.take(i as int), rm, ad, ch),
                decreases union_order.len() - i,
            {
                let name = union_order[i].as_str();
                assert(u.take(i + 1).drop_last() =~= u.take(i as int));
                assert(u.take(i + 1).last() == name@);
                let ghost before = strs(lines@);
                if let Some(k) = find_last_entry(removed, name) {
                    let mut l = String::from_str("- ");
                    l.append(name);
                    l.append(" ");
                    l.append(removed[k].type_info.display().as_str());
                    lines.push(l);
                    assert(strs(lines@) =~= before.push(l@));
                } else if let Some(k) = find_last_entry(added, name) {
                    let mut l = String::from_str("+ ");
                    l.append(name);
                    l.append(" ");
                    l.append(added[k].type_info.display().as_str());
                    lines.push(l);
                    assert(strs(lines@) =~= before.push(l@));
                } else if let Some(k) = find_last_change(changed, name) {
                    let mut l = String::from_str("~ ");
                    l.append(name);
                    l.append(" ");
                    l.append(changed[k].from.display().as_str());
                    l.append(" → ");
                    l.append(changed[k].to.display().as_str());
                    lines.push(l);
                    assert(strs(lines@) =~= before.push(l@));
                }
                i = i + 1;
            }
            assert(u.take(union_order.len() as int) =~= u);
            lines
        },
    }
}

/// The named column types of a schema, in schema order: each column's name
/// with its physical type name and logical label.
pub open spec fn spec_column_types(cols: Seq<ColumnInfo>) -> Seq<EntryModel> {
    cols.map_values(
        |c: ColumnInfo|
            (c.name@, (spec_physical_name(c.physical_type), spec_logical_type_str(c.logical_type, c.converted_type))),
    )
}

/// The named column types that `--diff` compares, read from a schema's leaf
/// columns.
pub fn column_types(cols: &Vec<ColumnInfo>) -> (fields: Vec<(String, TypeInfo)>)
    ensures
        entries(fields@) == spec_column_types(cols@),
{
    let mut fields: Vec<(String, TypeInfo)> = Vec::new();
    let mut i: usize = 0;
    while i < cols.len()
        invariant
            0 <= i <= cols.len(),
            entries(fields@) == spec_column_types(cols@.take(i as int)),
        decreases cols.len() - i,
    {
        let col = &cols[i];
        let info = TypeInfo { physical: col.physical_type.debug_name(), logical: get_logical_type_str(col) };
        assert(info@ == (spec_physical_name(col.physical_type), spec_logical_type_str(col.logical_type, col.converted_type)));
        let ghost before = fields@;
        fields.push((col.name.clone(), info));
        assert(entries(fields@) =~= entries(before).push((col.name@, info@)));
        assert(spec_column_types(cols@.take(i + 1)) =~= spec_column_types(cols@.take(i as int)).push(
            (col.name@, info@),
        ));
        i = i + 1;
    }
    assert(cols@.take(cols.len() as int) =~= cols@);
    fields
}

} // verus!

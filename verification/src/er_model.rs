//! The ER diagram of a database schema: relationships from declared foreign keys and
//! from `<table>_id` column names, a layered layout, and the graph of table nodes.
//!
//! Coordinates are whole numbers of pixels (every constant of the layout is whole); the
//! layout arithmetic saturates at `u64::MAX`.

use vstd::prelude::*;

use crate::levels::{
    assoc_map, dependency_levels, distinct_keys, lemma_acyclic_levels_respect_dependencies,
    lemma_source_above_free_target, level_in,
    level_of, level_rounds, sat,
};
use crate::seqs::{opt_index, opt_view, pair_views, views};
use crate::text::{
    concat_str, copy_str, spec_to_lowercase, str_chars, str_equal, str_to_lowercase,
    copy_strings, string_from_chars, string_push, string_push_str, strings_equal,
};

verus! {

/// A column of a table.
#[derive(Clone, Debug, PartialEq, Eq)]
pub struct ErColumnModel {
    pub name: String,
    pub data_type: String,
    pub is_primary_key: bool,
    pub is_nullable: bool,
}

/// A declared foreign key of a table.
#[derive(Clone, Debug, PartialEq, Eq)]
pub struct ErForeignKeyModel {
    pub name: String,
    pub columns: Vec<String>,
    pub ref_table: String,
    pub ref_columns: Vec<String>,
}

/// A table with its columns and foreign keys.
#[derive(Clone, Debug, PartialEq, Eq)]
pub struct ErTableModel {
    pub name: String,
    pub schema: Option<String>,
    pub columns: Vec<ErColumnModel>,
    pub foreign_keys: Vec<ErForeignKeyModel>,
}

/// A reference from columns of a source table to columns of a target table.
#[derive(Clone, Debug, PartialEq, Eq)]
pub struct ErRelationship {
    pub source_table: String,
    pub source_columns: Vec<String>,
    pub target_table: String,
    pub target_columns: Vec<String>,
    /// Whether it was inferred from a column name rather than declared.
    pub inferred: bool,
}

/// The model of an [`ErRelationship`].
pub struct RelationshipView {
    pub source_table: Seq<char>,
    pub source_columns: Seq<Seq<char>>,
    pub target_table: Seq<char>,
    pub target_columns: Seq<Seq<char>>,
    pub inferred: bool,
}

impl View for ErRelationship {
    type V = RelationshipView;

    open spec fn view(&self) -> RelationshipView {
        RelationshipView {
            source_table: self.source_table@,
            source_columns: views(self.source_columns@),
            target_table: self.target_table@,
            target_columns: views(self.target_columns@),
            inferred: self.inferred,
        }
    }
}

/// The relationships of `rs`, by their models.
pub open spec fn rel_views(rs: Seq<ErRelationship>) -> Seq<RelationshipView> {
    rs.map_values(|r: ErRelationship| r@)
}

/// The key of a table: `schema.name` when it has a non-empty schema, else its name.
pub open spec fn table_key_of(table: ErTableModel) -> Seq<char> {
    match table.schema {
        Some(s) => if s@.len() > 0 {
            s@ + "."@ + table.name@
        } else {
            table.name@
        },
        None => table.name@,
    }
}

/// The key of `table`.
pub fn table_key(table: &ErTableModel) -> (r: String)
    ensures
        r@ == table_key_of(*table),
{
    match &table.schema {
        Some(schema) => {
            if !schema.as_str().is_empty() {
                let mut key = concat_str(schema.as_str(), ".");
                string_push_str(&mut key, table.name.as_str());
                key
            } else {
                table.name.clone()
            }
        },
        None => table.name.clone(),
    }
}

/// The names under which each table can be referenced, in order: its lowercased name
/// and its lowercased key, each leading to its key.
pub open spec fn lookup_entries(tables: Seq<ErTableModel>) -> Seq<(Seq<char>, Seq<char>)>
    decreases tables.len(),
{
    if tables.len() == 0 {
        seq![]
    } else {
        let t = tables.last();
        lookup_entries(tables.drop_last()) + seq![
            (spec_to_lowercase(t.name@), table_key_of(t)),
            (spec_to_lowercase(table_key_of(t)), table_key_of(t)),
        ]
    }
}

/// The value of the last entry named `name`, as a map filled in order holds it.
pub open spec fn lookup_last(entries: Seq<(Seq<char>, Seq<char>)>, name: Seq<char>) -> Option<Seq<char>>
    decreases entries.len(),
{
    if entries.len() == 0 {
        None
    } else if entries.last().0 == name {
        Some(entries.last().1)
    } else {
        lookup_last(entries.drop_last(), name)
    }
}

/// The table names that references are resolved with.
pub struct TableLookup {
    entries: Vec<(String, String)>,
}

impl View for TableLookup {
    type V = Seq<(Seq<char>, Seq<char>)>;

    closed spec fn view(&self) -> Seq<(Seq<char>, Seq<char>)> {
        self.entries@.map_values(|e: (String, String)| (e.0@, e.1@))
    }
}

impl TableLookup {
    /// The key of the table that `name` refers to, if any.
    pub fn get(&self, name: &str) -> (r: Option<String>)
        ensures
            opt_view(r) == lookup_last(self@, name@),
    {
        let mut i = self.entries.len();
        assert(self@.subrange(0, i as int) =~= self@);
        while i > 0
            invariant
                i <= self.entries@.len(),
                lookup_last(self@, name@) == lookup_last(self@.subrange(0, i as int), name@),
            decreases i,
        {
            assert(self@.subrange(0, i as int).drop_last() =~= self@.subrange(0, i - 1));
            if str_equal(self.entries[i - 1].0.as_str(), name) {
                return Some(self.entries[i - 1].1.clone());
            }
            i -= 1;
        }
        None
    }
}

/// The lookup of `tables`.
pub fn table_lookup(tables: &[ErTableModel]) -> (r: TableLookup)
    ensures
        r@ == lookup_entries(tables@),
{
    let mut entries: Vec<(String, String)> = Vec::new();
    let mut i: usize = 0;
    while i < tables.len()
        invariant
            i <= tables@.len(),
            entries@.map_values(|e: (String, String)| (e.0@, e.1@)) == lookup_entries(tables@.subrange(0, i as int)),
        decreases tables@.len() - i,
    {
        let key = table_key(&tables[i]);
        let lowered_name = str_to_lowercase(tables[i].name.as_str());
        let lowered_key = str_to_lowercase(key.as_str());
        let ghost before = entries@;
        entries.push((lowered_name, key.clone()));
        entries.push((lowered_key, key));
        assert(tables@.subrange(0, i + 1).drop_last() =~= tables@.subrange(0, i as int));
        assert(entries@.map_values(|e: (String, String)| (e.0@, e.1@)) =~= lookup_entries(tables@.subrange(0, i + 1)));
        i += 1;
    }
    assert(tables@.subrange(0, i as int) =~= tables@);
    TableLookup { entries }
}

/// The key of the table that `ref_table` names, seen from `source`: by its lowercased
/// name or key, or else within the source's schema.
pub open spec fn resolve_table(ref_table: Seq<char>, source: ErTableModel, entries: Seq<(Seq<char>, Seq<char>)>) -> Option<Seq<char>> {
    let lower = spec_to_lowercase(ref_table);
    match lookup_last(entries, lower) {
        Some(k) => Some(k),
        None => match source.schema {
            Some(s) => lookup_last(entries, spec_to_lowercase(s@) + "."@ + lower),
            None => None,
        },
    }
}

/// Resolves `ref_table` as seen from `source` (see `resolve_table`).
pub fn normalize_ref_table(ref_table: &str, source: &ErTableModel, table_keys: &TableLookup) -> (r: Option<String>)
    ensures
        opt_view(r) == resolve_table(ref_table@, *source, table_keys@),
{
    let lower = str_to_lowercase(ref_table);
    match table_keys.get(lower.as_str()) {
        Some(k) => Some(k),
        None => match &source.schema {
            Some(schema) => {
                let mut key = str_to_lowercase(schema.as_str());
                string_push(&mut key, '.');
                string_push_str(&mut key, lower.as_str());
                proof {
                    assert(key@ =~= spec_to_lowercase(schema@) + "."@ + lower@) by {
                        reveal_strlit(".");
                    }
                }
                table_keys.get(key.as_str())
            },
            None => None,
        },
    }
}

/// `c` when it is not an upper-case ASCII letter, else its lower-case form.
pub open spec fn ascii_lower(c: char) -> char {
    if 'A' <= c && c <= 'Z' {
        ((c as u32) + 32) as char
    } else {
        c
    }
}

/// The table has a column named `id` (in any ASCII case) or a primary key column.
pub open spec fn has_id_target(table: ErTableModel) -> bool {
    exists|i: int| 0 <= i < table.columns@.len() && ({
        let c = #[trigger] table.columns@[i];
        (c.name@.len() == 2 && (c.name@[0] == 'i' || c.name@[0] == 'I') && (c.name@[1] == 'd'
            || c.name@[1] == 'D')) || c.is_primary_key
    })
}

/// Whether `table` can be the target of an inferred reference.
pub fn has_id_target_column(table: &ErTableModel) -> (r: bool)
    ensures
        r == has_id_target(*table),
{
    let mut i: usize = 0;
    while i < table.columns.len()
        invariant
            i <= table.columns@.len(),
            forall|k: int| 0 <= k < i ==> !({
                let c = #[trigger] table.columns@[k];
                (c.name@.len() == 2 && (c.name@[0] == 'i' || c.name@[0] == 'I') && (c.name@[1] == 'd'
                    || c.name@[1] == 'D')) || c.is_primary_key
            }),
        decreases table.columns@.len() - i,
    {
        let name = str_chars(table.columns[i].name.as_str());
        let is_id = name.len() == 2 && (name[0] == 'i' || name[0] == 'I') && (name[1] == 'd' || name[1] == 'D');
        if is_id || table.columns[i].is_primary_key {
            return true;
        }
        i += 1;
    }
    false
}

/// The table name that a column `<prefix>_id` (in any case) points to: the lowercased
/// prefix, when it is not empty.
pub open spec fn reference_prefix(column_name: Seq<char>) -> Option<Seq<char>> {
    id_prefix(spec_to_lowercase(column_name))
}

/// The prefix of a lowercased column name `<prefix>_id`, when it is not empty.
pub open spec fn id_prefix(lowered: Seq<char>) -> Option<Seq<char>> {
    if lowered.len() > 3 && lowered.subrange(lowered.len() - 3, lowered.len() as int) == "_id"@ {
        Some(lowered.subrange(0, lowered.len() - 3))
    } else {
        None
    }
}

/// The prefix of the lowercased column name `lowered` (see `id_prefix`).
pub fn id_column_prefix(lowered: &str) -> (r: Option<String>)
    ensures
        opt_view(r) == id_prefix(lowered@),
{
    let v = str_chars(lowered);
    proof {
        reveal_strlit("_id");
    }
    let n = v.len();
    if n > 3 && v[n - 3] == '_' && v[n - 2] == 'i' && v[n - 1] == 'd' {
        assert(v@.subrange(n - 3, n as int) =~= "_id"@);
        Some(string_from_chars(&v, 0, n - 3))
    } else {
        proof {
            if n > 3 {
                assert(v@.subrange(n - 3, n as int)[0] == v@[n - 3]);
                assert(v@.subrange(n - 3, n as int)[1] == v@[n - 2]);
                assert(v@.subrange(n - 3, n as int)[2] == v@[n - 1]);
            }
        }
        None
    }
}

/// The prefix of a `<prefix>_id` column name (see `reference_prefix`).
pub fn infer_reference_prefix(column_name: &str) -> (r: Option<String>)
    ensures
        opt_view(r) == reference_prefix(column_name@),
{
    let lower = str_to_lowercase(column_name);
    id_column_prefix(lower.as_str())
}

/// The table names tried for a prefix, in order: the prefix, its plural with `s`, and
/// for a prefix ending in `y`, its plural with `ies`.
pub open spec fn candidate_names_of(prefix: Seq<char>) -> Seq<Seq<char>> {
    if prefix.len() > 0 && prefix.last() == 'y' {
        seq![prefix, prefix + "s"@, prefix.drop_last() + "ies"@]
    } else {
        seq![prefix, prefix + "s"@]
    }
}

/// The table names tried for `prefix`.
pub fn candidate_names(prefix: &str) -> (r: Vec<String>)
    ensures
        views(r@) == candidate_names_of(prefix@),
{
    let mut candidates: Vec<String> = Vec::new();
    candidates.push(copy_str(prefix));
    candidates.push(concat_str(prefix, "s"));
    let v = str_chars(prefix);
    if v.len() > 0 && v[v.len() - 1] == 'y' {
        let mut stem = string_from_chars(&v, 0, v.len() - 1);
        string_push_str(&mut stem, "ies");
        assert(v@.subrange(0, v@.len() - 1) =~= prefix@.drop_last());
        candidates.push(stem);
    }
    assert(views(candidates@) =~= candidate_names_of(prefix@));
    candidates
}

/// Some table of `tables` has the key `key`.
pub open spec fn has_key(tables: Seq<ErTableModel>, key: Seq<char>) -> bool {
    exists|i: int| 0 <= i < tables.len() && table_key_of(#[trigger] tables[i]) == key
}

/// `i` is the first index of a table with the key `key`.
pub open spec fn is_first_with_key(tables: Seq<ErTableModel>, key: Seq<char>, i: int) -> bool {
    &&& 0 <= i < tables.len()
    &&& table_key_of(tables[i]) == key
    &&& forall|j: int| 0 <= j < i ==> table_key_of(#[trigger] tables[j]) != key
}

/// `i` is the last index of a table with the key `key`.
pub open spec fn is_last_with_key(tables: Seq<ErTableModel>, key: Seq<char>, i: int) -> bool {
    &&& 0 <= i < tables.len()
    &&& table_key_of(tables[i]) == key
    &&& forall|j: int| i < j < tables.len() ==> table_key_of(#[trigger] tables[j]) != key
}

/// The first index of a table with the key `key`, if any.
pub open spec fn first_with_key(tables: Seq<ErTableModel>, key: Seq<char>) -> Option<int> {
    if has_key(tables, key) {
        Some(choose|i: int| is_first_with_key(tables, key, i))
    } else {
        None
    }
}

/// The last index of a table with the key `key` (meaningful when there is one).
pub open spec fn last_with_key(tables: Seq<ErTableModel>, key: Seq<char>) -> int {
    choose|i: int| is_last_with_key(tables, key, i)
}

/// The first table of `tables` whose key is `key`.
pub fn find_table_with_key(tables: &[ErTableModel], key: &str) -> (r: Option<usize>)
    ensures
        opt_index(r) == first_with_key(tables@, key@),
        r matches Some(i) ==> is_first_with_key(tables@, key@, i as int),
{
    let mut i: usize = 0;
    while i < tables.len()
        invariant
            i <= tables@.len(),
            forall|j: int| 0 <= j < i ==> table_key_of(#[trigger] tables@[j]) != key@,
        decreases tables@.len() - i,
    {
        let k = table_key(&tables[i]);
        if str_equal(k.as_str(), key) {
            assert(is_first_with_key(tables@, key@, i as int));
            assert(has_key(tables@, key@));
            let ghost c = choose|c: int| is_first_with_key(tables@, key@, c);
            assert(c == i as int) by {
                if c < i {
                } else if c > i {
                    assert(table_key_of(tables@[i as int]) != key@);
                }
            }
            return Some(i);
        }
        i += 1;
    }
    None
}

/// The last table of `tables` whose key is `key`.
pub fn find_last_table_with_key(tables: &[ErTableModel], key: &str) -> (r: Option<usize>)
    ensures
        r is None <==> !has_key(tables@, key@),
        r matches Some(i) ==> is_last_with_key(tables@, key@, i as int) && last_with_key(tables@, key@) == i,
{
    let mut i: usize = tables.len();
    while i > 0
        invariant
            i <= tables@.len(),
            forall|j: int| i <= j < tables@.len() ==> table_key_of(#[trigger] tables@[j]) != key@,
        decreases i,
    {
        let k = table_key(&tables[i - 1]);
        if str_equal(k.as_str(), key) {
            assert(is_last_with_key(tables@, key@, i - 1));
            let ghost c = choose|c: int| is_last_with_key(tables@, key@, c);
            assert(c == i - 1) by {
                if c < i - 1 {
                    assert(table_key_of(tables@[i - 1]) != key@);
                } else if c > i - 1 {
                }
            }
            return Some(i - 1);
        }
        i -= 1;
    }
    None
}

/// The table that the candidate name `c` leads to from `source`, unless it is `source`
/// itself (by key).
pub open spec fn candidate_target(
    c: Seq<char>,
    source: ErTableModel,
    tables: Seq<ErTableModel>,
    entries: Seq<(Seq<char>, Seq<char>)>,
) -> Option<int> {
    match resolve_table(c, source, entries) {
        Some(k) => if k != table_key_of(source) {
            first_with_key(tables, k)
        } else {
            None
        },
        None => None,
    }
}

/// The table that the first candidate leading to one leads to.
pub open spec fn first_candidate_target(
    cands: Seq<Seq<char>>,
    source: ErTableModel,
    tables: Seq<ErTableModel>,
    entries: Seq<(Seq<char>, Seq<char>)>,
) -> Option<int>
    decreases cands.len(),
{
    if cands.len() == 0 {
        None
    } else {
        match candidate_target(cands[0], source, tables, entries) {
            Some(i) => Some(i),
            None => first_candidate_target(cands.drop_first(), source, tables, entries),
        }
    }
}

/// The table that a `<prefix>_id` column of `source` refers to: the one that the
/// first fitting candidate name leads to, when it has an `id` or primary key column.
pub open spec fn find_target(
    prefix: Seq<char>,
    source: ErTableModel,
    tables: Seq<ErTableModel>,
    entries: Seq<(Seq<char>, Seq<char>)>,
) -> Option<int> {
    match first_candidate_target(candidate_names_of(prefix), source, tables, entries) {
        Some(i) => if has_id_target(tables[i]) {
            Some(i)
        } else {
            None
        },
        None => None,
    }
}

/// The index of the table that a `<prefix>_id` column of `source` refers to.
pub fn find_target_table(
    prefix: &str,
    source: &ErTableModel,
    tables: &[ErTableModel],
    table_keys: &TableLookup,
) -> (r: Option<usize>)
    ensures
        opt_index(r) == find_target(prefix@, *source, tables@, table_keys@),
        r matches Some(i) ==> i < tables@.len(),
{
    let cands = candidate_names(prefix);
    let ghost cs = views(cands@);
    let source_key = table_key(source);
    let mut i: usize = 0;
    assert(cs.skip(0) =~= cs);
    while i < cands.len()
        invariant
            i <= cands@.len(),
            cs == views(cands@),
            cs == candidate_names_of(prefix@),
            source_key@ == table_key_of(*source),
            first_candidate_target(cs, *source, tables@, table_keys@) == first_candidate_target(
                cs.skip(i as int),
                *source,
                tables@,
                table_keys@,
            ),
        decreases cands@.len() - i,
    {
        assert(cs.skip(i as int)[0] == cands@[i as int]@);
        assert(cs.skip(i as int).drop_first() =~= cs.skip(i + 1));
        if let Some(target_key) = normalize_ref_table(cands[i].as_str(), source, table_keys) {
            if !str_equal(target_key.as_str(), source_key.as_str()) {
                if let Some(t) = find_table_with_key(tables, target_key.as_str()) {
                    if has_id_target_column(&tables[t]) {
                        return Some(t);
                    } else {
                        return None;
                    }
                }
            }
        }
        i += 1;
    }
    None
}

/// The relationship inferred from a column named `name` of `t`, if any.
pub open spec fn inferred_for_column(
    name: Seq<char>,
    t: ErTableModel,
    tables: Seq<ErTableModel>,
    entries: Seq<(Seq<char>, Seq<char>)>,
) -> Seq<RelationshipView> {
    match reference_prefix(name) {
        Some(p) => match find_target(p, t, tables, entries) {
            Some(i) => seq![
                RelationshipView {
                    source_table: table_key_of(t),
                    source_columns: seq![name],
                    target_table: table_key_of(tables[i]),
                    target_columns: seq!["id"@],
                    inferred: true,
                },
            ],
            None => seq![],
        },
        None => seq![],
    }
}

/// The relationships inferred from the columns `cols` of `t`, in column order.
pub open spec fn inferred_for_columns(
    cols: Seq<ErColumnModel>,
    t: ErTableModel,
    tables: Seq<ErTableModel>,
    entries: Seq<(Seq<char>, Seq<char>)>,
) -> Seq<RelationshipView>
    decreases cols.len(),
{
    if cols.len() == 0 {
        seq![]
    } else {
        inferred_for_columns(cols.drop_last(), t, tables, entries) + inferred_for_column(
            cols.last().name@,
            t,
            tables,
            entries,
        )
    }
}

/// The relationships inferred from the tables `ts`, in table order.
pub open spec fn inferred_for_tables(
    ts: Seq<ErTableModel>,
    tables: Seq<ErTableModel>,
    entries: Seq<(Seq<char>, Seq<char>)>,
) -> Seq<RelationshipView>
    decreases ts.len(),
{
    if ts.len() == 0 {
        seq![]
    } else {
        inferred_for_tables(ts.drop_last(), tables, entries) + inferred_for_columns(
            ts.last().columns@,
            ts.last(),
            tables,
            entries,
        )
    }
}

/// The relationships inferred from `<table>_id` column names of `tables`.
pub open spec fn inferred_relationships(tables: Seq<ErTableModel>) -> Seq<RelationshipView> {
    inferred_for_tables(tables, tables, lookup_entries(tables))
}

/// Infers a relationship for each column named `<table>_id` (in any case) whose table
/// can be found by that name, its plural, or its `-ies` plural, and has an `id` or
/// primary key column.
pub fn infer_relationships(tables: &[ErTableModel]) -> (r: Vec<ErRelationship>)
    ensures
        rel_views(r@) == inferred_relationships(tables@),
{
    let table_keys = table_lookup(tables);
    let ghost entries = table_keys@;
    let mut relationships: Vec<ErRelationship> = Vec::new();
    let mut i: usize = 0;
    while i < tables.len()
        invariant
            i <= tables@.len(),
            entries == table_keys@,
            entries == lookup_entries(tables@),
            rel_views(relationships@) == inferred_for_tables(tables@.subrange(0, i as int), tables@, entries),
        decreases tables@.len() - i,
    {
        let table = &tables[i];
        let ghost before = rel_views(relationships@);
        let mut j: usize = 0;
        while j < table.columns.len()
            invariant
                i < tables@.len(),
                *table == tables@[i as int],
                j <= table.columns@.len(),
                entries == table_keys@,
                rel_views(relationships@) == before + inferred_for_columns(
                    table.columns@.subrange(0, j as int),
                    *table,
                    tables@,
                    entries,
                ),
            decreases table.columns@.len() - j,
        {
            let column = &table.columns[j];
            let ghost prev = rel_views(relationships@);
            assert(table.columns@.subrange(0, j + 1).drop_last() =~= table.columns@.subrange(0, j as int));
            if let Some(prefix) = infer_reference_prefix(column.name.as_str()) {
                if let Some(t) = find_target_table(prefix.as_str(), table, tables, &table_keys) {
                    let mut source_columns: Vec<String> = Vec::new();
                    source_columns.push(copy_str(column.name.as_str()));
                    let mut target_columns: Vec<String> = Vec::new();
                    target_columns.push(copy_str("id"));
                    let rel = ErRelationship {
                        source_table: table_key(table),
                        source_columns,
                        target_table: table_key(&tables[t]),
                        target_columns,
                        inferred: true,
                    };
                    relationships.push(rel);
                    assert(views(rel.source_columns@) =~= seq![column.name@]);
                    assert(views(rel.target_columns@) =~= seq!["id"@]);
                    assert(rel_views(relationships@) =~= prev + inferred_for_column(column.name@, *table, tables@, entries));
                } else {
                    assert(rel_views(relationships@) =~= prev + inferred_for_column(column.name@, *table, tables@, entries));
                }
            } else {
                assert(rel_views(relationships@) =~= prev + inferred_for_column(column.name@, *table, tables@, entries));
            }
            assert(rel_views(relationships@) =~= before + inferred_for_columns(
                table.columns@.subrange(0, j + 1),
                *table,
                tables@,
                entries,
            ));
            j += 1;
        }
        assert(table.columns@.subrange(0, j as int) =~= table.columns@);
        assert(tables@.subrange(0, i + 1).drop_last() =~= tables@.subrange(0, i as int));
        assert(rel_views(relationships@) =~= inferred_for_tables(tables@.subrange(0, i + 1), tables@, entries));
        i += 1;
    }
    assert(tables@.subrange(0, i as int) =~= tables@);
    relationships
}

/// The relationship that the foreign key `fk` of `t` declares, when its table resolves.
pub open spec fn explicit_for_fk(
    fk: ErForeignKeyModel,
    t: ErTableModel,
    entries: Seq<(Seq<char>, Seq<char>)>,
) -> Seq<RelationshipView> {
    match resolve_table(fk.ref_table@, t, entries) {
        Some(k) => seq![
            RelationshipView {
                source_table: table_key_of(t),
                source_columns: views(fk.columns@),
                target_table: k,
                target_columns: views(fk.ref_columns@),
                inferred: false,
            },
        ],
        None => seq![],
    }
}

/// The relationships that the foreign keys `fks` of `t` declare, in order.
pub open spec fn explicit_for_fks(
    fks: Seq<ErForeignKeyModel>,
    t: ErTableModel,
    entries: Seq<(Seq<char>, Seq<char>)>,
) -> Seq<RelationshipView>
    decreases fks.len(),
{
    if fks.len() == 0 {
        seq![]
    } else {
        explicit_for_fks(fks.drop_last(), t, entries) + explicit_for_fk(fks.last(), t, entries)
    }
}

/// The declared relationships of the tables `ts`, in table order.
pub open spec fn explicit_for_tables(
    ts: Seq<ErTableModel>,
    entries: Seq<(Seq<char>, Seq<char>)>,
) -> Seq<RelationshipView>
    decreases ts.len(),
{
    if ts.len() == 0 {
        seq![]
    } else {
        explicit_for_tables(ts.drop_last(), entries) + explicit_for_fks(
            ts.last().foreign_keys@,
            ts.last(),
            entries,
        )
    }
}

/// The declared relationships of `tables` whose referenced table resolves.
pub open spec fn explicit_relationships_of(tables: Seq<ErTableModel>) -> Seq<RelationshipView> {
    explicit_for_tables(tables, lookup_entries(tables))
}

/// The relationships that the foreign keys of `table` declare and whose referenced
/// table resolves.
pub fn explicit_for_table(table: &ErTableModel, table_keys: &TableLookup) -> (r: Vec<ErRelationship>)
    ensures
        rel_views(r@) == explicit_for_fks(table.foreign_keys@, *table, table_keys@),
{
    let mut relationships: Vec<ErRelationship> = Vec::new();
    let mut j: usize = 0;
    while j < table.foreign_keys.len()
        invariant
            j <= table.foreign_keys@.len(),
            rel_views(relationships@) == explicit_for_fks(
                table.foreign_keys@.subrange(0, j as int),
                *table,
                table_keys@,
            ),
        decreases table.foreign_keys@.len() - j,
    {
        let fk = &table.foreign_keys[j];
        let ghost prev = rel_views(relationships@);
        assert(table.foreign_keys@.subrange(0, j + 1).drop_last() =~= table.foreign_keys@.subrange(0, j as int));
        if let Some(target) = normalize_ref_table(fk.ref_table.as_str(), table, table_keys) {
            let rel = ErRelationship {
                source_table: table_key(table),
                source_columns: copy_strings(&fk.columns),
                target_table: target,
                target_columns: copy_strings(&fk.ref_columns),
                inferred: false,
            };
            relationships.push(rel);
        }
        assert(rel_views(relationships@) =~= prev + explicit_for_fk(*fk, *table, table_keys@));
        j += 1;
    }
    assert(table.foreign_keys@.subrange(0, j as int) =~= table.foreign_keys@);
    relationships
}

/// The relationships that the foreign keys of `tables` declare, in table order.
pub fn explicit_relationships(tables: &[ErTableModel]) -> (r: Vec<ErRelationship>)
    ensures
        rel_views(r@) == explicit_relationships_of(tables@),
{
    let table_keys = table_lookup(tables);
    let mut relationships: Vec<ErRelationship> = Vec::new();
    let mut i: usize = 0;
    while i < tables.len()
        invariant
            i <= tables@.len(),
            table_keys@ == lookup_entries(tables@),
            rel_views(relationships@) == explicit_for_tables(tables@.subrange(0, i as int), table_keys@),
        decreases tables@.len() - i,
    {
        let mut more = explicit_for_table(&tables[i], &table_keys);
        let ghost prev = relationships@;
        let ghost added = more@;
        relationships.append(&mut more);
        assert(tables@.subrange(0, i + 1).drop_last() =~= tables@.subrange(0, i as int));
        assert(rel_views(relationships@) =~= rel_views(prev) + rel_views(added));
        i += 1;
    }
    assert(tables@.subrange(0, i as int) =~= tables@);
    relationships
}

/// What makes two relationships the same for merging: source table, source columns
/// and target table.
pub open spec fn rel_key(r: RelationshipView) -> (Seq<char>, Seq<Seq<char>>, Seq<char>) {
    (r.source_table, r.source_columns, r.target_table)
}

/// The merge key of `relationship`.
pub fn relationship_key(relationship: &ErRelationship) -> (r: (String, Vec<String>, String))
    ensures
        (r.0@, views(r.1@), r.2@) == rel_key(relationship@),
{
    (
        copy_str(relationship.source_table.as_str()),
        copy_strings(&relationship.source_columns),
        copy_str(relationship.target_table.as_str()),
    )
}

/// Some relationship of `rs` has the merge key of `r`.
pub open spec fn has_rel_key(rs: Seq<RelationshipView>, r: RelationshipView) -> bool {
    exists|i: int| 0 <= i < rs.len() && rel_key(#[trigger] rs[i]) == rel_key(r)
}

/// The relationships of `rs` whose merge key no relationship of `known` has, in order.
pub open spec fn not_known(rs: Seq<RelationshipView>, known: Seq<RelationshipView>) -> Seq<RelationshipView>
    decreases rs.len(),
{
    if rs.len() == 0 {
        seq![]
    } else if has_rel_key(known, rs.last()) {
        not_known(rs.drop_last(), known)
    } else {
        not_known(rs.drop_last(), known).push(rs.last())
    }
}

/// All relationships of `tables`: the declared ones, then the inferred ones that no
/// declared one already covers (same source table, source columns and target table).
pub open spec fn collected_relationships(tables: Seq<ErTableModel>) -> Seq<RelationshipView> {
    explicit_relationships_of(tables) + not_known(
        inferred_relationships(tables),
        explicit_relationships_of(tables),
    )
}

/// Whether some relationship of `known` has the merge key of `r`.
fn has_relationship_key(known: &Vec<ErRelationship>, r: &ErRelationship) -> (b: bool)
    ensures
        b == has_rel_key(rel_views(known@), r@),
{
    let key = relationship_key(r);
    let mut i: usize = 0;
    while i < known.len()
        invariant
            i <= known@.len(),
            (key.0@, views(key.1@), key.2@) == rel_key(r@),
            forall|j: int| 0 <= j < i ==> rel_key(#[trigger] rel_views(known@)[j]) != rel_key(r@),
        decreases known@.len() - i,
    {
        let other = relationship_key(&known[i]);
        if str_equal(other.0.as_str(), key.0.as_str()) && strings_equal(&other.1, &key.1)
            && str_equal(other.2.as_str(), key.2.as_str()) {
            assert(rel_key(rel_views(known@)[i as int]) == rel_key(r@));
            return true;
        }
        i += 1;
    }
    false
}

/// A copy of `r`.
fn copy_relationship(r: &ErRelationship) -> (c: ErRelationship)
    ensures
        c@ == r@,
{
    ErRelationship {
        source_table: copy_str(r.source_table.as_str()),
        source_columns: copy_strings(&r.source_columns),
        target_table: copy_str(r.target_table.as_str()),
        target_columns: copy_strings(&r.target_columns),
        inferred: r.inferred,
    }
}

/// The declared relationships of `tables`, then the inferred ones that none of them
/// already covers.
pub fn collect_relationships(tables: &[ErTableModel]) -> (r: Vec<ErRelationship>)
    ensures
        rel_views(r@) == collected_relationships(tables@),
{
    let mut relationships = explicit_relationships(tables);
    let ghost explicit = rel_views(relationships@);
    let inferred = infer_relationships(tables);
    let ghost inf = rel_views(inferred@);
    let mut extra: Vec<ErRelationship> = Vec::new();
    let mut i: usize = 0;
    while i < inferred.len()
        invariant
            i <= inferred@.len(),
            inf == rel_views(inferred@),
            explicit == rel_views(relationships@),
            rel_views(extra@) == not_known(inf.subrange(0, i as int), explicit),
        decreases inferred@.len() - i,
    {
        assert(inf.subrange(0, i + 1).drop_last() =~= inf.subrange(0, i as int));
        if !has_relationship_key(&relationships, &inferred[i]) {
            extra.push(copy_relationship(&inferred[i]));
        }
        assert(rel_views(extra@) =~= not_known(inf.subrange(0, i + 1), explicit));
        i += 1;
    }
    assert(inf.subrange(0, i as int) =~= inf);
    let ghost e = extra@;
    let ghost p = relationships@;
    relationships.append(&mut extra);
    assert(rel_views(relationships@) =~= rel_views(p) + rel_views(e));
    relationships
}

/// The height of a table with `column_count` columns: a 58 pixel header and 34 pixels
/// per column, at least 96 pixels.
pub open spec fn height_of(column_count: int) -> int {
    if 58 + 34 * column_count > 96 {
        58 + 34 * column_count
    } else {
        96
    }
}

/// The height of a table with `column_count` columns.
pub fn table_height(column_count: usize) -> (h: u64)
    ensures
        h == sat(height_of(column_count as int)),
{
    let c = column_count as u64;
    if c > (u64::MAX - 58) / 34 {
        u64::MAX
    } else {
        let h = 58 + 34 * c;
        if h > 96 {
            h
        } else {
            96
        }
    }
}

/// The dependencies of `rels`: each relationship lifts its source table above its
/// target table.
pub open spec fn rel_deps(rels: Seq<RelationshipView>) -> Seq<(Seq<char>, Seq<char>)> {
    rels.map_values(|r: RelationshipView| (r.source_table, r.target_table))
}

/// The layout level of each table key: one pass over the relationships per table.
pub open spec fn table_levels(tables: Seq<ErTableModel>, rels: Seq<RelationshipView>) -> Map<Seq<char>, nat> {
    level_rounds(rel_deps(rels), tables.len())
}

/// The layout level of each table key after one pass over the relationships per table:
/// each relationship lifts its source table to at least one past its target table.
pub fn relationship_levels(tables: &[ErTableModel], relationships: &Vec<ErRelationship>) -> (levels: Vec<(String, u64)>)
    ensures
        distinct_keys(levels@),
        assoc_map(levels@) == table_levels(tables@, rel_views(relationships@)),
{
    let ghost rels = rel_views(relationships@);
    let mut deps: Vec<(String, String)> = Vec::new();
    let mut k: usize = 0;
    while k < relationships.len()
        invariant
            k <= relationships@.len(),
            rels == rel_views(relationships@),
            pair_views(deps@) == rel_deps(rels.subrange(0, k as int)),
        decreases relationships@.len() - k,
    {
        let r = &relationships[k];
        let ghost before = deps@;
        let dep = (copy_str(r.source_table.as_str()), copy_str(r.target_table.as_str()));
        deps.push(dep);
        assert(rels[k as int] == r@);
        assert(pair_views(deps@) =~= pair_views(before).push((dep.0@, dep.1@)));
        assert(rel_deps(rels.subrange(0, k + 1)) =~= rel_deps(rels.subrange(0, k as int)).push((r.source_table@, r.target_table@)));
        assert(pair_views(deps@) =~= rel_deps(rels.subrange(0, k + 1)));
        k += 1;
    }
    assert(rels.subrange(0, k as int) =~= rels);
    dependency_levels(tables.len(), &deps)
}

/// The stacked height of the tables of `ts` at level `lvl`, each with the 56 pixel
/// gap below it.
pub open spec fn layer_height(ts: Seq<ErTableModel>, levels: Map<Seq<char>, nat>, lvl: nat) -> int
    decreases ts.len(),
{
    if ts.len() == 0 {
        0
    } else {
        layer_height(ts.drop_last(), levels, lvl) + if level_in(levels, table_key_of(ts.last())) == lvl {
            height_of(ts.last().columns@.len() as int) + 56
        } else {
            0
        }
    }
}

/// The horizontal position of the tables at level `lvl`: 40 pixels in, 400 per level.
pub open spec fn level_x(lvl: nat) -> int {
    sat(40 + 400 * (lvl as int))
}

/// The vertical position of table `i` in its layer: 40 pixels down, below the tables
/// of the same level that come before it.
pub open spec fn stacked_y(tables: Seq<ErTableModel>, levels: Map<Seq<char>, nat>, i: int) -> int {
    sat(40 + layer_height(tables.subrange(0, i), levels, level_in(levels, table_key_of(tables[i]))))
}

/// The position of table `i`: that of the last table with its key, which a later
/// table with the same key takes over.
pub open spec fn table_position(tables: Seq<ErTableModel>, levels: Map<Seq<char>, nat>, i: int) -> (int, int) {
    let key = table_key_of(tables[i]);
    (level_x(level_in(levels, key)), stacked_y(tables, levels, last_with_key(tables, key)))
}

/// The horizontal position of the tables at level `lvl`.
fn x_for_level(lvl: u64) -> (x: u64)
    ensures
        x == level_x(lvl as nat),
{
    if lvl > (u64::MAX - 40) / 400 {
        u64::MAX
    } else {
        40 + 400 * lvl
    }
}

/// The position of each table of `tables`, by index, for the given levels.
pub fn layered_positions(tables: &[ErTableModel], levels: &Vec<(String, u64)>) -> (r: Vec<(u64, u64)>)
    requires
        distinct_keys(levels@),
    ensures
        r@.len() == tables@.len(),
        forall|i: int|
            0 <= i < tables@.len() ==> (r@[i].0 as int, r@[i].1 as int) == #[trigger] table_position(
                tables@,
                assoc_map(levels@),
                i,
            ),
{
    let ghost m = assoc_map(levels@);
    let mut lv: Vec<u64> = Vec::new();
    let mut i: usize = 0;
    while i < tables.len()
        invariant
            i <= tables@.len(),
            m == assoc_map(levels@),
            distinct_keys(levels@),
            lv@.len() == i,
            forall|j: int| 0 <= j < i ==> lv@[j] == level_in(m, table_key_of(#[trigger] tables@[j])),
        decreases tables@.len() - i,
    {
        let key = table_key(&tables[i]);
        lv.push(level_of(levels, key.as_str()));
        i += 1;
    }
    let mut ys: Vec<u64> = Vec::new();
    let mut i: usize = 0;
    while i < tables.len()
        invariant
            i <= tables@.len(),
            lv@.len() == tables@.len(),
            forall|j: int| 0 <= j < tables@.len() ==> lv@[j] == level_in(m, table_key_of(#[trigger] tables@[j])),
            ys@.len() == i,
            forall|j: int| 0 <= j < i ==> ys@[j] == #[trigger] stacked_y(tables@, m, j),
        decreases tables@.len() - i,
    {
        let mut y: u64 = 40;
        let mut j: usize = 0;
        assert(tables@.subrange(0, 0) =~= Seq::<ErTableModel>::empty());
        while j < i
            invariant
                j <= i < tables@.len(),
                lv@.len() == tables@.len(),
                forall|k: int| 0 <= k < tables@.len() ==> lv@[k] == level_in(m, table_key_of(#[trigger] tables@[k])),
                y == sat(40 + layer_height(tables@.subrange(0, j as int), m, lv@[i as int] as nat)),
            decreases i - j,
        {
            assert(tables@.subrange(0, j + 1).drop_last() =~= tables@.subrange(0, j as int));
            assert(tables@.subrange(0, j + 1).last() == tables@[j as int]);
            if lv[j] == lv[i] {
                y = y.saturating_add(table_height(tables[j].columns.len()));
                y = y.saturating_add(56);
            }
            j += 1;
        }
        ys.push(y);
        i += 1;
    }
    let mut r: Vec<(u64, u64)> = Vec::new();
    let mut i: usize = 0;
    while i < tables.len()
        invariant
            i <= tables@.len(),
            lv@.len() == tables@.len(),
            forall|j: int| 0 <= j < tables@.len() ==> lv@[j] == level_in(m, table_key_of(#[trigger] tables@[j])),
            ys@.len() == tables@.len(),
            forall|j: int| 0 <= j < tables@.len() ==> ys@[j] == #[trigger] stacked_y(tables@, m, j),
            r@.len() == i,
            forall|j: int| 0 <= j < i ==> (r@[j].0 as int, r@[j].1 as int) == #[trigger] table_position(tables@, m, j),
        decreases tables@.len() - i,
    {
        let key = table_key(&tables[i]);
        let last = find_last_table_with_key(tables, key.as_str());
        proof {
            assert(table_key_of(tables@[i as int]) == key@);
            assert(has_key(tables@, key@));
        }
        let j = match last {
            Some(j) => j,
            None => i,
        };
        r.push((x_for_level(lv[i]), ys[j]));
        i += 1;
    }
    r
}

/// The position of each table of `tables`, by index: its level decides the column,
/// and tables of one level stack in table order.
pub fn relationship_layout(tables: &[ErTableModel], relationships: &Vec<ErRelationship>) -> (r: Vec<(u64, u64)>)
    ensures
        r@.len() == tables@.len(),
        forall|i: int|
            0 <= i < tables@.len() ==> (r@[i].0 as int, r@[i].1 as int) == #[trigger] table_position(
                tables@,
                table_levels(tables@, rel_views(relationships@)),
                i,
            ),
{
    let levels = relationship_levels(tables, relationships);
    layered_positions(tables, &levels)
}

/// The source table of `r` with each of its source columns, lowercased.
pub open spec fn columns_of_rel(r: RelationshipView) -> Seq<(Seq<char>, Seq<char>)> {
    r.source_columns.map_values(|c: Seq<char>| (r.source_table, spec_to_lowercase(c)))
}

/// The source columns of all relationships of `rs`, each with its table, in order.
pub open spec fn relationship_columns_of(rs: Seq<RelationshipView>) -> Seq<(Seq<char>, Seq<char>)>
    decreases rs.len(),
{
    if rs.len() == 0 {
        seq![]
    } else {
        relationship_columns_of(rs.drop_last()) + columns_of_rel(rs.last())
    }
}

/// Each source column of the relationships, lowercased, with its source table.
pub fn relationship_column_lookup(relationships: &Vec<ErRelationship>) -> (r: Vec<(String, String)>)
    ensures
        pair_views(r@) == relationship_columns_of(rel_views(relationships@)),
{
    let ghost rels = rel_views(relationships@);
    let mut pairs: Vec<(String, String)> = Vec::new();
    let mut i: usize = 0;
    while i < relationships.len()
        invariant
            i <= relationships@.len(),
            rels == rel_views(relationships@),
            pair_views(pairs@) == relationship_columns_of(rels.subrange(0, i as int)),
        decreases relationships@.len() - i,
    {
        let r = &relationships[i];
        let ghost before = pair_views(pairs@);
        let mut j: usize = 0;
        while j < r.source_columns.len()
            invariant
                i < relationships@.len(),
                *r == relationships@[i as int],
                rels == rel_views(relationships@),
                j <= r.source_columns@.len(),
                pair_views(pairs@) == before + columns_of_rel(rels[i as int]).subrange(0, j as int),
            decreases r.source_columns@.len() - j,
        {
            let entry = (copy_str(r.source_table.as_str()), str_to_lowercase(r.source_columns[j].as_str()));
            let ghost old_pairs = pairs@;
            pairs.push(entry);
            assert(pair_views(pairs@) =~= pair_views(old_pairs).push((entry.0@, entry.1@)));
            assert(rels[i as int] == r@);
            assert(views(r.source_columns@)[j as int] == r.source_columns@[j as int]@);
            assert(columns_of_rel(r@)[j as int] == (r.source_table@, spec_to_lowercase(r.source_columns@[j as int]@)));
            assert(pair_views(pairs@) =~= before + columns_of_rel(rels[i as int]).subrange(0, j + 1));
            j += 1;
        }
        assert(columns_of_rel(rels[i as int]).subrange(0, j as int) =~= columns_of_rel(rels[i as int]));
        assert(rels.subrange(0, i + 1).drop_last() =~= rels.subrange(0, i as int));
        i += 1;
    }
    assert(rels.subrange(0, i as int) =~= rels);
    pairs
}

/// Whether `(a, b)` is one of `pairs`.
pub fn contains_pair(pairs: &Vec<(String, String)>, a: &str, b: &str) -> (r: bool)
    ensures
        r == pair_views(pairs@).contains((a@, b@)),
{
    let mut i: usize = 0;
    while i < pairs.len()
        invariant
            i <= pairs@.len(),
            forall|j: int| 0 <= j < i ==> (#[trigger] pair_views(pairs@)[j]) != (a@, b@),
        decreases pairs@.len() - i,
    {
        if str_equal(pairs[i].0.as_str(), a) && str_equal(pairs[i].1.as_str(), b) {
            assert(pair_views(pairs@)[i as int] == (a@, b@));
            return true;
        }
        i += 1;
    }
    false
}

/// Which side of a table node a port is on: references come in on the left and go out
/// on the right.
#[derive(Clone, Copy, Debug, PartialEq, Eq)]
pub enum PortSide {
    Input,
    Output,
}

/// A port of a node of the graph.
#[derive(Clone, Copy, Debug, PartialEq, Eq)]
pub struct PortId {
    pub node: usize,
    pub side: PortSide,
}

/// What a table node shows of a column.
#[derive(Clone, Debug, PartialEq, Eq)]
pub struct ErColumnData {
    pub name: String,
    pub ty: String,
    pub pk: bool,
    /// Whether some relationship starts at this column.
    pub fk: bool,
    pub nullable: bool,
}

/// What a table node shows.
#[derive(Clone, Debug, PartialEq, Eq)]
pub struct ErTableData {
    pub schema: Option<String>,
    pub table: String,
    pub label: String,
    pub columns: Vec<ErColumnData>,
}

/// A table node of the graph.
#[derive(Clone, Debug, PartialEq, Eq)]
pub struct ErNode {
    pub id: usize,
    pub node_type: String,
    pub x: u64,
    pub y: u64,
    pub width: u64,
    pub height: u64,
    pub inputs: Vec<PortId>,
    pub outputs: Vec<PortId>,
    pub data: ErTableData,
}

/// An edge of the graph, from an output port to an input port.
#[derive(Clone, Copy, Debug, PartialEq, Eq)]
pub struct ErEdge {
    pub source_port: PortId,
    pub target_port: PortId,
}

/// The graph of an ER diagram: one node per table, one edge per relationship.
#[derive(Clone, Debug)]
pub struct ErGraph {
    pub nodes: Vec<ErNode>,
    pub edges: Vec<ErEdge>,
}

impl ErGraph {
    /// The nodes, one per table, in table order.
    pub fn nodes(&self) -> (r: &Vec<ErNode>)
        ensures
            r == self.nodes,
    {
        &self.nodes
    }
}

/// The node type of table nodes.
pub const NODE_TYPE_TABLE: &'static str = "er.table";

/// The width of a table node.
pub const TABLE_WIDTH: u64 = 280;

/// `c` shows the column `col` of the table with key `key`, `rc` being the relationship
/// columns.
pub open spec fn column_shows(
    c: ErColumnData,
    col: ErColumnModel,
    key: Seq<char>,
    rc: Seq<(Seq<char>, Seq<char>)>,
) -> bool {
    &&& c.name@ == col.name@
    &&& c.ty@ == col.data_type@
    &&& c.pk == col.is_primary_key
    &&& c.nullable == col.is_nullable
    &&& c.fk == rc.contains((key, spec_to_lowercase(col.name@)))
}

/// `d` shows the table `t`, `rc` being the relationship columns.
pub open spec fn table_shows(d: ErTableData, t: ErTableModel, rc: Seq<(Seq<char>, Seq<char>)>) -> bool {
    &&& opt_view(d.schema) == opt_view(t.schema)
    &&& d.table@ == t.name@
    &&& d.label@ == table_key_of(t)
    &&& d.columns@.len() == t.columns@.len()
    &&& forall|j: int|
        0 <= j < t.columns@.len() ==> column_shows(
            #[trigger] d.columns@[j],
            t.columns@[j],
            table_key_of(t),
            rc,
        )
}

/// The column data of `column` in the table with key `table_key`.
pub fn column_data(table_key: &str, column: &ErColumnModel, relationship_columns: &Vec<(String, String)>) -> (c: ErColumnData)
    ensures
        column_shows(c, *column, table_key@, pair_views(relationship_columns@)),
{
    let lowered = str_to_lowercase(column.name.as_str());
    ErColumnData {
        name: copy_str(column.name.as_str()),
        ty: copy_str(column.data_type.as_str()),
        pk: column.is_primary_key,
        fk: contains_pair(relationship_columns, table_key, lowered.as_str()),
        nullable: column.is_nullable,
    }
}

/// The data that the node of `table` shows.
pub fn table_data(table: &ErTableModel, relationship_columns: &Vec<(String, String)>) -> (d: ErTableData)
    ensures
        table_shows(d, *table, pair_views(relationship_columns@)),
{
    let key = table_key(table);
    let mut columns: Vec<ErColumnData> = Vec::new();
    let mut j: usize = 0;
    while j < table.columns.len()
        invariant
            j <= table.columns@.len(),
            key@ == table_key_of(*table),
            columns@.len() == j,
            forall|k: int|
                0 <= k < j ==> column_shows(
                    #[trigger] columns@[k],
                    table.columns@[k],
                    table_key_of(*table),
                    pair_views(relationship_columns@),
                ),
        decreases table.columns@.len() - j,
    {
        columns.push(column_data(key.as_str(), &table.columns[j], relationship_columns));
        j += 1;
    }
    let schema = match &table.schema {
        Some(s) => Some(copy_str(s.as_str())),
        None => None,
    };
    ErTableData { schema, table: copy_str(table.name.as_str()), label: key, columns }
}

/// `n` is the node of table `i` of `tables`, `rels` being their relationships.
pub open spec fn node_shows(n: ErNode, tables: Seq<ErTableModel>, rels: Seq<RelationshipView>, i: int) -> bool {
    let t = tables[i];
    let pos = table_position(tables, table_levels(tables, rels), i);
    &&& n.id == i
    &&& n.node_type@ == "er.table"@
    &&& n.x == pos.0
    &&& n.y == pos.1
    &&& n.width == 280
    &&& n.height == sat(height_of(t.columns@.len() as int))
    &&& n.inputs@ == seq![PortId { node: i as usize, side: PortSide::Input }]
    &&& n.outputs@ == seq![PortId { node: i as usize, side: PortSide::Output }]
    &&& table_shows(n.data, t, relationship_columns_of(rels))
}

/// The edges of the relationships `rels` among the nodes of `tables`: from the output
/// port of the target table's node to the input port of the source table's node, the
/// node of a key being that of the last table with it.
pub open spec fn edges_of(rels: Seq<RelationshipView>, tables: Seq<ErTableModel>) -> Seq<ErEdge>
    decreases rels.len(),
{
    if rels.len() == 0 {
        seq![]
    } else {
        let r = rels.last();
        edges_of(rels.drop_last(), tables) + if has_key(tables, r.source_table) && has_key(
            tables,
            r.target_table,
        ) {
            seq![
                ErEdge {
                    source_port: PortId {
                        node: last_with_key(tables, r.target_table) as usize,
                        side: PortSide::Output,
                    },
                    target_port: PortId {
                        node: last_with_key(tables, r.source_table) as usize,
                        side: PortSide::Input,
                    },
                },
            ]
        } else {
            seq![]
        }
    }
}

/// The graph of the ER diagram of `tables`.
pub fn build_er_graph(tables: Vec<ErTableModel>) -> (g: ErGraph)
    ensures
        g.nodes@.len() == tables@.len(),
        forall|i: int|
            0 <= i < tables@.len() ==> node_shows(
                #[trigger] g.nodes@[i],
                tables@,
                collected_relationships(tables@),
                i,
            ),
        g.edges@ == edges_of(collected_relationships(tables@), tables@),
{
    let relationships = collect_relationships(tables.as_slice());
    let ghost rels = rel_views(relationships@);
    let relationship_columns = relationship_column_lookup(&relationships);
    let positions = relationship_layout(tables.as_slice(), &relationships);
    let mut nodes: Vec<ErNode> = Vec::new();
    let mut i: usize = 0;
    while i < tables.len()
        invariant
            i <= tables@.len(),
            rels == rel_views(relationships@),
            rels == collected_relationships(tables@),
            pair_views(relationship_columns@) == relationship_columns_of(rels),
            positions@.len() == tables@.len(),
            forall|k: int|
                0 <= k < tables@.len() ==> (positions@[k].0 as int, positions@[k].1 as int)
                    == #[trigger] table_position(tables@, table_levels(tables@, rels), k),
            nodes@.len() == i,
            forall|k: int| 0 <= k < i ==> node_shows(#[trigger] nodes@[k], tables@, rels, k),
        decreases tables@.len() - i,
    {
        let table = &tables[i];
        let mut inputs: Vec<PortId> = Vec::new();
        inputs.push(PortId { node: i, side: PortSide::Input });
        let mut outputs: Vec<PortId> = Vec::new();
        outputs.push(PortId { node: i, side: PortSide::Output });
        let ghost pos = table_position(tables@, table_levels(tables@, rels), i as int);
        assert((positions@[i as int].0 as int, positions@[i as int].1 as int) == pos);
        let node = ErNode {
            id: i,
            node_type: copy_str(NODE_TYPE_TABLE),
            x: positions[i].0,
            y: positions[i].1,
            width: TABLE_WIDTH,
            height: table_height(table.columns.len()),
            inputs,
            outputs,
            data: table_data(table, &relationship_columns),
        };
        proof {
            reveal_strlit("er.table");
        }
        assert(node_shows(node, tables@, rels, i as int));
        nodes.push(node);
        i += 1;
    }
    let mut edges: Vec<ErEdge> = Vec::new();
    let mut k: usize = 0;
    while k < relationships.len()
        invariant
            k <= relationships@.len(),
            rels == rel_views(relationships@),
            edges@ == edges_of(rels.subrange(0, k as int), tables@),
        decreases relationships@.len() - k,
    {
        let r = &relationships[k];
        assert(rels.subrange(0, k + 1).drop_last() =~= rels.subrange(0, k as int));
        assert(rels.subrange(0, k + 1).last() == r@);
        let source = find_last_table_with_key(tables.as_slice(), r.source_table.as_str());
        let target = find_last_table_with_key(tables.as_slice(), r.target_table.as_str());
        let ghost before = edges@;
        match (source, target) {
            (Some(s), Some(t)) => {
                edges.push(ErEdge {
                    source_port: PortId { node: t, side: PortSide::Output },
                    target_port: PortId { node: s, side: PortSide::Input },
                });
            },
            _ => {},
        }
        assert(edges@ =~= edges_of(rels.subrange(0, k + 1), tables@));
        k += 1;
    }
    assert(rels.subrange(0, k as int) =~= rels);
    ErGraph { nodes, edges }
}

/// A table that references a table from which no relationship starts is laid out in a
/// column to the right of it.
pub proof fn lemma_dependent_right_of_target(
    tables: Seq<ErTableModel>,
    rels: Seq<RelationshipView>,
    idx: int,
    i: int,
    j: int,
)
    requires
        0 <= idx < rels.len(),
        0 <= i < tables.len(),
        0 <= j < tables.len(),
        table_key_of(tables[i]) == rels[idx].source_table,
        table_key_of(tables[j]) == rels[idx].target_table,
        forall|k: int| 0 <= k < rels.len() ==> (#[trigger] rels[k]).source_table != rels[idx].target_table,
    ensures
        table_position(tables, table_levels(tables, rels), i).0 > table_position(
            tables,
            table_levels(tables, rels),
            j,
        ).0,
{
    let deps = rel_deps(rels);
    assert forall|k: int| 0 <= k < deps.len() implies (#[trigger] deps[k]).0 != deps[idx].1 by {
        assert(deps[k].0 == rels[k].source_table);
    }
    lemma_source_above_free_target(deps, tables.len(), idx);
}

/// Without a cycle among the relationships, every relationship's source table is laid
/// out on a higher level, in a column to the right of its target table, however the
/// tables and relationships are ordered. No cycle means that the table keys can be
/// numbered below the number of tables so that each relationship goes from a higher
/// number to a lower one (a topological numbering).
pub proof fn lemma_sources_right_of_targets(
    tables: Seq<ErTableModel>,
    rels: Seq<RelationshipView>,
    rank: spec_fn(Seq<char>) -> nat,
    idx: int,
    i: int,
    j: int,
)
    requires
        tables.len() <= u64::MAX,
        forall|k: int|
            0 <= k < rels.len() ==> rank((#[trigger] rels[k]).target_table) < rank(rels[k].source_table)
                < tables.len(),
        0 <= idx < rels.len(),
        0 <= i < tables.len(),
        0 <= j < tables.len(),
        table_key_of(tables[i]) == rels[idx].source_table,
        table_key_of(tables[j]) == rels[idx].target_table,
    ensures
        forall|k: int|
            0 <= k < rels.len() ==> level_in(table_levels(tables, rels), (#[trigger] rels[k]).source_table)
                >= level_in(table_levels(tables, rels), rels[k].target_table) + 1,
        40 + 400 * tables.len() <= u64::MAX ==> table_position(tables, table_levels(tables, rels), i).0
            > table_position(tables, table_levels(tables, rels), j).0,
{
    let deps = rel_deps(rels);
    assert forall|k: int| 0 <= k < deps.len() implies rank((#[trigger] deps[k]).1) < rank(deps[k].0)
        < tables.len() by {
        assert(deps[k] == (rels[k].source_table, rels[k].target_table));
    }
    lemma_acyclic_levels_respect_dependencies(deps, rank, tables.len());
    let levels = table_levels(tables, rels);
    assert forall|k: int| 0 <= k < rels.len() implies level_in(levels, (#[trigger] rels[k]).source_table)
        >= level_in(levels, rels[k].target_table) + 1 by {
        assert(deps[k] == (rels[k].source_table, rels[k].target_table));
    }
    let ls = level_in(levels, rels[idx].source_table);
    let lt = level_in(levels, rels[idx].target_table);
    assert(ls >= lt + 1);
    assert(ls <= rank(rels[idx].source_table));
    if 40 + 400 * tables.len() <= u64::MAX {
        assert(ls < tables.len());
        assert(400 * ls < 400 * tables.len());
        assert(400 * lt < 400 * ls);
    }
}

proof fn lemma_layer_height_grows(ts: Seq<ErTableModel>, levels: Map<Seq<char>, nat>, lvl: nat, a: int, b: int)
    requires
        0 <= a <= b <= ts.len(),
    ensures
        layer_height(ts.subrange(0, a), levels, lvl) <= layer_height(ts.subrange(0, b), levels, lvl),
    decreases b - a,
{
    if a < b {
        lemma_layer_height_grows(ts, levels, lvl, a, b - 1);
        assert(ts.subrange(0, b).drop_last() =~= ts.subrange(0, b - 1));
    }
}

/// Two tables with distinct keys in the same column do not overlap: the later one
/// starts below the earlier one and the 56 pixel gap, as long as the coordinates do not
/// reach `u64::MAX`.
pub proof fn lemma_layer_without_overlap(
    tables: Seq<ErTableModel>,
    levels: Map<Seq<char>, nat>,
    i: int,
    j: int,
)
    requires
        0 <= i < j < tables.len(),
        forall|a: int, b: int|
            0 <= a < b < tables.len() ==> table_key_of(#[trigger] tables[a]) != table_key_of(
                #[trigger] tables[b],
            ),
        level_in(levels, table_key_of(tables[i])) == level_in(levels, table_key_of(tables[j])),
        40 + layer_height(tables.subrange(0, j), levels, level_in(levels, table_key_of(tables[j])))
            <= u64::MAX,
    ensures
        table_position(tables, levels, j).1 >= table_position(tables, levels, i).1 + height_of(
            tables[i].columns@.len() as int,
        ) + 56,
{
    let lvl = level_in(levels, table_key_of(tables[j]));
    lemma_layer_height_grows(tables, levels, lvl, i + 1, j);
    lemma_layer_height_grows(tables, levels, lvl, i, i + 1);
    assert(tables.subrange(0, i + 1).drop_last() =~= tables.subrange(0, i));
    let ki = table_key_of(tables[i]);
    let kj = table_key_of(tables[j]);
    assert(is_last_with_key(tables, ki, i));
    assert(is_last_with_key(tables, kj, j));
    let ci = choose|c: int| is_last_with_key(tables, ki, c);
    let cj = choose|c: int| is_last_with_key(tables, kj, c);
    assert(ci == i) by {
        if ci != i {
            assert(table_key_of(tables[ci]) == ki);
        }
    }
    assert(cj == j) by {
        if cj != j {
            assert(table_key_of(tables[cj]) == kj);
        }
    }
}

// ---------------------------------------------------------------------------
// Loading tables from the database driver.

/// A column as the database driver describes it: the parts that the diagram reads.
#[derive(Clone, Debug, PartialEq, Eq)]
pub struct ColumnInfo {
    pub name: String,
    pub data_type: String,
    pub is_primary_key: bool,
    pub is_nullable: bool,
}

/// A foreign key as the database driver describes it.
#[derive(Clone, Debug, PartialEq, Eq)]
pub struct ForeignKeyDefinition {
    pub name: String,
    pub columns: Vec<String>,
    pub ref_table: String,
    pub ref_columns: Vec<String>,
}

/// The diagram's model of a column.
pub fn column_model(column: ColumnInfo) -> (c: ErColumnModel)
    ensures
        c.name == column.name,
        c.data_type == column.data_type,
        c.is_primary_key == column.is_primary_key,
        c.is_nullable == column.is_nullable,
{
    ErColumnModel {
        name: column.name,
        data_type: column.data_type,
        is_primary_key: column.is_primary_key,
        is_nullable: column.is_nullable,
    }
}

/// The diagram's model of a foreign key.
pub fn foreign_key_model(fk: ForeignKeyDefinition) -> (f: ErForeignKeyModel)
    ensures
        f.name == fk.name,
        f.columns == fk.columns,
        f.ref_table == fk.ref_table,
        f.ref_columns == fk.ref_columns,
{
    ErForeignKeyModel {
        name: fk.name,
        columns: fk.columns,
        ref_table: fk.ref_table,
        ref_columns: fk.ref_columns,
    }
}

/// The diagram's model of the table `name`: its own schema, else the schema that the
/// diagram was opened on; its columns and foreign keys in the driver's order.
pub fn table_model(
    name: String,
    table_schema: Option<String>,
    selected_schema: Option<String>,
    columns: Vec<ColumnInfo>,
    foreign_keys: Vec<ForeignKeyDefinition>,
) -> (t: ErTableModel)
    ensures
        t.name == name,
        t.schema == (if table_schema is Some {
            table_schema
        } else {
            selected_schema
        }),
        t.columns@.len() == columns@.len(),
        forall|i: int|
            0 <= i < columns@.len() ==> (#[trigger] t.columns@[i]).name == columns@[i].name
                && t.columns@[i].data_type == columns@[i].data_type && t.columns@[i].is_primary_key
                == columns@[i].is_primary_key && t.columns@[i].is_nullable == columns@[i].is_nullable,
        t.foreign_keys@.len() == foreign_keys@.len(),
        forall|i: int|
            0 <= i < foreign_keys@.len() ==> (#[trigger] t.foreign_keys@[i]).name == foreign_keys@[i].name
                && t.foreign_keys@[i].columns == foreign_keys@[i].columns && t.foreign_keys@[i].ref_table
                == foreign_keys@[i].ref_table && t.foreign_keys@[i].ref_columns == foreign_keys@[i].ref_columns,
{
    let schema = match table_schema {
        Some(s) => Some(s),
        None => selected_schema,
    };
    let ghost cs = columns@;
    let mut column_models: Vec<ErColumnModel> = Vec::new();
    for c in it: columns.into_iter()
        invariant
            it.seq() == cs,
            column_models@.len() == it.index(),
            forall|i: int|
                0 <= i < column_models@.len() ==> (#[trigger] column_models@[i]).name == cs[i].name
                    && column_models@[i].data_type == cs[i].data_type
                    && column_models@[i].is_primary_key == cs[i].is_primary_key
                    && column_models@[i].is_nullable == cs[i].is_nullable,
    {
        column_models.push(column_model(c));
    }
    let ghost fs = foreign_keys@;
    let mut fk_models: Vec<ErForeignKeyModel> = Vec::new();
    for f in it: foreign_keys.into_iter()
        invariant
            it.seq() == fs,
            fk_models@.len() == it.index(),
            forall|i: int|
                0 <= i < fk_models@.len() ==> (#[trigger] fk_models@[i]).name == fs[i].name
                    && fk_models@[i].columns == fs[i].columns && fk_models@[i].ref_table == fs[i].ref_table
                    && fk_models@[i].ref_columns == fs[i].ref_columns,
    {
        fk_models.push(foreign_key_model(f));
    }
    ErTableModel { name, schema, columns: column_models, foreign_keys: fk_models }
}

/// The text that a table node shows under `key`: `schema`, `table` or `label`.
pub open spec fn text_value_of(data: ErTableData, key: Seq<char>) -> Option<Seq<char>> {
    if key == "schema"@ {
        opt_view(data.schema)
    } else if key == "table"@ {
        Some(data.table@)
    } else if key == "label"@ {
        Some(data.label@)
    } else {
        None
    }
}

/// The text that a table node shows under `key`, if any.
pub fn text_value(data: &ErTableData, key: &str) -> (r: Option<String>)
    ensures
        opt_view(r) == text_value_of(*data, key@),
{
    if str_equal(key, "schema") {
        match &data.schema {
            Some(s) => Some(copy_str(s.as_str())),
            None => None,
        }
    } else if str_equal(key, "table") {
        Some(copy_str(data.table.as_str()))
    } else if str_equal(key, "label") {
        Some(copy_str(data.label.as_str()))
    } else {
        None
    }
}

proof fn lemma_not_known_members(rs: Seq<RelationshipView>, known: Seq<RelationshipView>)
    ensures
        forall|i: int|
            0 <= i < not_known(rs, known).len() ==> !has_rel_key(known, #[trigger] not_known(rs, known)[i])
                && rs.contains(not_known(rs, known)[i]),
    decreases rs.len(),
{
    if rs.len() > 0 {
        lemma_not_known_members(rs.drop_last(), known);
        let prev = not_known(rs.drop_last(), known);
        let cur = not_known(rs, known);
        assert forall|i: int| 0 <= i < cur.len() implies !has_rel_key(known, #[trigger] cur[i]) && rs.contains(
            cur[i],
        ) by {
            if i < prev.len() {
                assert(cur[i] == prev[i]);
                let k = choose|k: int| 0 <= k < rs.drop_last().len() && rs.drop_last()[k] == prev[i];
                assert(rs[k] == prev[i]);
            } else {
                assert(cur[i] == rs.last());
                assert(rs[rs.len() - 1] == rs.last());
            }
        }
    }
}

/// All relationships of the diagram: the declared ones come first, in order, and each
/// inferred one that follows is an inferred relationship whose source table, source
/// columns and target table no declared one has.
pub proof fn lemma_collected_relationships_do_not_repeat_declared(tables: Seq<ErTableModel>)
    ensures
        ({
            let all = collected_relationships(tables);
            let declared = explicit_relationships_of(tables);
            &&& all.subrange(0, declared.len() as int) == declared
            &&& forall|i: int|
                declared.len() <= i < all.len() ==> !has_rel_key(declared, #[trigger] all[i])
                    && inferred_relationships(tables).contains(all[i])
        }),
{
    let declared = explicit_relationships_of(tables);
    let extra = not_known(inferred_relationships(tables), declared);
    let all = collected_relationships(tables);
    lemma_not_known_members(inferred_relationships(tables), declared);
    assert(all.subrange(0, declared.len() as int) =~= declared);
    assert forall|i: int| declared.len() <= i < all.len() implies !has_rel_key(declared, #[trigger] all[i])
        && inferred_relationships(tables).contains(all[i]) by {
        assert(all[i] == extra[i - declared.len()]);
    }
}

} // verus!

//! Statement planning for the dataset storage driver.
//!
//! Each dataset lives in its own database file
//! `<storage_dir>/<safe_name>.db`, attached under the alias
//! `<safe_name>`, holding one base table `default` and exposed
//! through one view `<safe_name>`. The functions here decide which
//! statements the driver runs — boot statements, attach, create,
//! introspection, view, detach — and assemble query results; the
//! connection that executes them lives outside this crate.

use vstd::prelude::*;

use crate::codec::JsonValue;
use crate::sanitize::MAX_IDENT_LENGTH;
use crate::sanitize::sanitize_to_sql_name;
use crate::sanitize::spec_sanitized;
use crate::sanitize::suffix_ok;
use crate::strutil::chars_of_bytes;
use crate::strutil::is_alnum_char;
use crate::strutil::spec_join;
use crate::strutil::str_ends_with;

verus! {

/// The statements that install and load the engine extensions for
/// CSV/JSON/Parquet/embedded-SQLite/remote-file access, in order.
pub open spec fn spec_fixed_boot_statements() -> Seq<Seq<char>> {
    seq![
        "install 'json'"@,
        "load 'json'"@,
        "install 'icu'"@,
        "load 'icu'"@,
        "install 'parquet'"@,
        "load 'parquet'"@,
        "install 'sqlite'"@,
        "load 'sqlite'"@,
        "install 'httpfs'"@,
        "load 'httpfs'"@,
    ]
}

/// The backing file of a dataset: `<storage_dir>/<name>.db`.
pub open spec fn spec_db_file_path(storage_path: Seq<char>, name: Seq<char>) -> Seq<char> {
    storage_path + "/"@ + name + ".db"@
}

/// `attach '<storage_dir>/<name>.db' as <name>`.
pub open spec fn spec_attach_statement(storage_path: Seq<char>, name: Seq<char>) -> Seq<char> {
    "attach '"@ + spec_db_file_path(storage_path, name) + "' as "@ + name
}

/// `create or replace table <name>.default as (<select_sql>)`.
pub open spec fn spec_create_table_statement(name: Seq<char>, select_sql: Seq<char>) -> Seq<
    char,
> {
    "create or replace table "@ + name + ".default as ("@ + select_sql + "\n)"@
}

/// The introspection query for the column names of a dataset's base
/// table, in ordinal order.
pub open spec fn spec_columns_query(name: Seq<char>) -> Seq<char> {
    "select column_name as name from information_schema.columns where table_catalog = '"@ + name
        + "' and table_name = 'default' order by ordinal_position"@
}

/// `select <columns> from <name>.default`.
pub open spec fn spec_select_statement(name: Seq<char>, columns: Seq<Seq<char>>) -> Seq<char> {
    "select "@ + spec_join(columns, ", "@) + " from "@ + name + ".default"@
}

/// `create or replace view <name> as <select>`.
pub open spec fn spec_view_statement(name: Seq<char>, columns: Seq<Seq<char>>) -> Seq<char> {
    "create or replace view "@ + name + " as "@ + spec_select_statement(name, columns)
}

/// `detach <name>`.
pub open spec fn spec_detach_statement(name: Seq<char>) -> Seq<char> {
    "detach "@ + name
}

/// Whether the listing holds a write-ahead sibling of `f`, the mark
/// of a file the engine is actively writing.
pub open spec fn spec_has_wal_sibling(f: Seq<char>, files: Seq<Seq<char>>) -> bool {
    exists|j: int| 0 <= j < files.len() && #[trigger] files[j] == f + ".wal"@
}

/// A file of the storage directory backs an attachable dataset when
/// it has the `.db` suffix, is not the primary database file
/// `main.db` itself, and has no write-ahead sibling in the listing.
pub open spec fn spec_is_dataset_file(f: Seq<char>, files: Seq<Seq<char>>) -> bool {
    &&& f.len() >= 3
    &&& f.skip(f.len() - 3) == ".db"@
    &&& f != "main.db"@
    &&& !spec_has_wal_sibling(f, files)
}

/// The dataset names the listing yields from its tail starting at
/// `i`: each dataset file with its `.db` suffix stripped, in order.
pub open spec fn spec_dataset_names_from(files: Seq<Seq<char>>, i: int) -> Seq<Seq<char>>
    decreases files.len() - i,
{
    if i < 0 || i >= files.len() {
        Seq::empty()
    } else {
        (if spec_is_dataset_file(files[i], files) {
            seq![files[i].take(files[i].len() - 3)]
        } else {
            Seq::empty()
        }) + spec_dataset_names_from(files, i + 1)
    }
}

/// The dataset names a directory listing yields.
pub open spec fn spec_dataset_names(files: Seq<Seq<char>>) -> Seq<Seq<char>> {
    spec_dataset_names_from(files, 0)
}

fn string_lit(s: &str) -> (r: String)
    ensures
        r@ == s@,
{
    String::from_str(s)
}

/// The boot statements the driver runs at startup: the fixed
/// extension statements, then the caller's extra boot queries, in
/// order.
pub fn boot_statements(extra: &Vec<String>) -> (r: Vec<String>)
    ensures
        r.deep_view() == spec_fixed_boot_statements() + extra.deep_view(),
{
    let mut r: Vec<String> = Vec::new();
    r.push(string_lit("install 'json'"));
    r.push(string_lit("load 'json'"));
    r.push(string_lit("install 'icu'"));
    r.push(string_lit("load 'icu'"));
    r.push(string_lit("install 'parquet'"));
    r.push(string_lit("load 'parquet'"));
    r.push(string_lit("install 'sqlite'"));
    r.push(string_lit("load 'sqlite'"));
    r.push(string_lit("install 'httpfs'"));
    r.push(string_lit("load 'httpfs'"));
    assert(r.deep_view() =~= spec_fixed_boot_statements());
    let n = extra.len();
    let mut i: usize = 0;
    while i < n
        invariant
            n == extra@.len(),
            0 <= i <= n,
            r.deep_view() == spec_fixed_boot_statements() + extra.deep_view().take(i as int),
        decreases n - i,
    {
        let ghost before = r.deep_view();
        r.push(extra[i].clone());
        proof {
            assert(r.deep_view() =~= before.push(extra.deep_view()[i as int]));
            assert(r.deep_view() =~= spec_fixed_boot_statements() + extra.deep_view().take(
                i + 1,
            ));
        }
        i = i + 1;
    }
    proof {
        assert(extra.deep_view().take(n as int) =~= extra.deep_view());
    }
    r
}

/// The statement that forces the information-schema views to
/// materialize at startup.
pub fn information_schema_probe() -> (r: String)
    ensures
        r@
            == "select coalesce(t.table_catalog, current_database()) as database, t.table_schema as schema, t.table_name as name, t.table_type as type, array_agg(c.column_name order by c.ordinal_position) as column_names, array_agg(c.data_type order by c.ordinal_position) as column_types, array_agg(c.is_nullable = 'YES' order by c.ordinal_position) as column_nullable from information_schema.tables t join information_schema.columns c on t.table_schema = c.table_schema and t.table_name = c.table_name group by 1, 2, 3, 4 order by 1, 2, 3, 4"@,
{
    string_lit(
        "select coalesce(t.table_catalog, current_database()) as database, t.table_schema as schema, t.table_name as name, t.table_type as type, array_agg(c.column_name order by c.ordinal_position) as column_names, array_agg(c.data_type order by c.ordinal_position) as column_types, array_agg(c.is_nullable = 'YES' order by c.ordinal_position) as column_nullable from information_schema.tables t join information_schema.columns c on t.table_schema = c.table_schema and t.table_name = c.table_name group by 1, 2, 3, 4 order by 1, 2, 3, 4",
    )
}

/// The backing file of a dataset.
pub fn db_file_path(storage_path: &str, name: &str) -> (r: String)
    ensures
        r@ == spec_db_file_path(storage_path@, name@),
{
    let mut r = String::from_str(storage_path);
    r.append("/");
    r.append(name);
    r.append(".db");
    r
}

/// The statement that attaches a dataset's file under its alias.
pub fn attach_statement(storage_path: &str, name: &str) -> (r: String)
    ensures
        r@ == spec_attach_statement(storage_path@, name@),
{
    let mut r = string_lit("attach '");
    let p = db_file_path(storage_path, name);
    r.append(p.as_str());
    r.append("' as ");
    r.append(name);
    assert(r@ =~= spec_attach_statement(storage_path@, name@));
    r
}

/// The statement that materializes the ingested rows into the
/// dataset's base table.
pub fn create_table_statement(name: &str, select_sql: &str) -> (r: String)
    ensures
        r@ == spec_create_table_statement(name@, select_sql@),
{
    let mut r = string_lit("create or replace table ");
    r.append(name);
    r.append(".default as (");
    r.append(select_sql);
    r.append("\n)");
    assert(r@ =~= spec_create_table_statement(name@, select_sql@));
    r
}

/// The introspection query for a dataset's column names.
pub fn columns_query(name: &str) -> (r: String)
    ensures
        r@ == spec_columns_query(name@),
{
    let mut r = string_lit(
        "select column_name as name from information_schema.columns where table_catalog = '",
    );
    r.append(name);
    r.append("' and table_name = 'default' order by ordinal_position");
    assert(r@ =~= spec_columns_query(name@));
    r
}

/// The select over a dataset's base table with its columns spelled
/// out in schema order.
pub fn select_statement(name: &str, columns: &Vec<String>) -> (r: String)
    ensures
        r@ == spec_select_statement(name@, columns.deep_view()),
{
    let mut joined = string_lit("");
    let n = columns.len();
    let mut i: usize = 0;
    proof {
        reveal_strlit("");
        assert(joined@ =~= Seq::<char>::empty());
        assert(columns.deep_view().take(0) =~= Seq::<Seq<char>>::empty());
    }
    while i < n
        invariant
            n == columns@.len(),
            0 <= i <= n,
            joined@ == spec_join(columns.deep_view().take(i as int), ", "@),
        decreases n - i,
    {
        if i > 0 {
            joined.append(", ");
        }
        joined.append(columns[i].as_str());
        proof {
            let parts = columns.deep_view();
            assert(parts.take(i + 1).drop_last() =~= parts.take(i as int));
            assert(parts.take(i + 1).last() == parts[i as int]);
            if i == 0 {
                assert(joined@ =~= spec_join(parts.take(1), ", "@));
            }
        }
        i = i + 1;
    }
    proof {
        assert(columns.deep_view().take(n as int) =~= columns.deep_view());
    }
    let mut r = string_lit("select ");
    r.append(joined.as_str());
    r.append(" from ");
    r.append(name);
    r.append(".default");
    assert(r@ =~= spec_select_statement(name@, columns.deep_view()));
    r
}

/// The statement that creates the dataset's stable view over its
/// base table.
pub fn view_statement(name: &str, columns: &Vec<String>) -> (r: String)
    ensures
        r@ == spec_view_statement(name@, columns.deep_view()),
{
    let mut r = string_lit("create or replace view ");
    r.append(name);
    r.append(" as ");
    let sel = select_statement(name, columns);
    r.append(sel.as_str());
    assert(r@ =~= spec_view_statement(name@, columns.deep_view()));
    r
}

/// The row-count probe against a dataset's view.
pub open spec fn spec_count_query(name: Seq<char>) -> Seq<char> {
    "SELECT COUNT(*) as count FROM "@ + name
}

/// The query that counts a dataset's rows through its view.
pub fn count_query(name: &str) -> (r: String)
    ensures
        r@ == spec_count_query(name@),
{
    let mut r = string_lit("SELECT COUNT(*) as count FROM ");
    r.append(name);
    r
}

/// The statement that detaches a dataset's alias.
pub fn detach_statement(name: &str) -> (r: String)
    ensures
        r@ == spec_detach_statement(name@),
{
    let mut r = string_lit("detach ");
    r.append(name);
    r
}

/// The dataset names found in a storage-directory listing: every
/// `.db` file that is not the primary database, suffix stripped.
/// The on-disk listing is the source of truth the driver re-attaches
/// from at startup.
pub fn dataset_names_from_listing(files: &Vec<String>) -> (r: Vec<String>)
    ensures
        r.deep_view() == spec_dataset_names(files.deep_view()),
{
    let ghost fs = files.deep_view();
    let mut r: Vec<String> = Vec::new();
    let n = files.len();
    let mut i: usize = 0;
    proof {
        assert(r.deep_view() =~= Seq::<Seq<char>>::empty());
        assert(r.deep_view() + spec_dataset_names_from(fs, 0) =~= spec_dataset_names_from(fs, 0));
    }
    while i < n
        invariant
            n == files@.len(),
            fs == files.deep_view(),
            0 <= i <= n,
            spec_dataset_names(fs) == r.deep_view() + spec_dataset_names_from(fs, i as int),
        decreases n - i,
    {
        let f = &files[i];
        let flen = f.unicode_len();
        proof {
            reveal_strlit(".db");
        }
        let keeps = str_ends_with(f.as_str(), ".db") && !crate::strutil::str_equal(
            f.as_str(),
            "main.db",
        ) && !has_wal_sibling(f.as_str(), files);
        if keeps {
            let ghost before = r.deep_view();
            let stem = f.as_str().substring_char(0, flen - 3);
            r.push(String::from_str(stem));
            proof {
                assert(spec_is_dataset_file(fs[i as int], fs));
                assert(stem@ =~= fs[i as int].take(fs[i as int].len() - 3));
                assert(r.deep_view() =~= before.push(stem@));
                assert(r.deep_view() + spec_dataset_names_from(fs, i + 1) =~= before + (seq![
                    fs[i as int].take(fs[i as int].len() - 3)
                ] + spec_dataset_names_from(fs, i + 1)));
            }
        } else {
            proof {
                assert(!spec_is_dataset_file(fs[i as int], fs));
                assert(r.deep_view() + spec_dataset_names_from(fs, i + 1) =~= r.deep_view() + (
                Seq::<Seq<char>>::empty() + spec_dataset_names_from(fs, i + 1)));
            }
        }
        i = i + 1;
    }
    proof {
        assert(r.deep_view() + spec_dataset_names_from(fs, n as int) =~= r.deep_view());
    }
    r
}

/// Whether the listing holds the write-ahead sibling `<f>.wal`.
fn has_wal_sibling(f: &str, files: &Vec<String>) -> (r: bool)
    ensures
        r == spec_has_wal_sibling(f@, files.deep_view()),
{
    let mut wal = String::from_str(f);
    wal.append(".wal");
    let n = files.len();
    let mut j: usize = 0;
    while j < n
        invariant
            n == files@.len(),
            0 <= j <= n,
            wal@ == f@ + ".wal"@,
            forall|k: int| 0 <= k < j ==> #[trigger] files.deep_view()[k] != f@ + ".wal"@,
        decreases n - j,
    {
        if crate::strutil::str_equal(files[j].as_str(), wal.as_str()) {
            proof {
                assert(files.deep_view()[j as int] == files@[j as int]@);
                assert(files.deep_view()[j as int] == f@ + ".wal"@);
            }
            return true;
        }
        proof {
            assert(files.deep_view()[j as int] == files@[j as int]@);
        }
        j = j + 1;
    }
    false
}

/// The statements with which a dataset is created from a `select`
/// expression, and the name it is created under.
pub struct CreateTablePlan {
    /// The sanitized identifier the dataset actually gets; callers
    /// must persist this, not the name they asked for.
    pub safe_name: String,
    /// Attaches the new backing file under the safe name.
    pub attach_sql: String,
    /// Materializes the ingested rows into `<safe_name>.default`.
    pub create_sql: String,
    /// Introspects the new table's columns for the view statement.
    pub columns_sql: String,
}

/// Plans the creation of a dataset: sanitizes the requested name
/// and lays out the attach, create and introspection statements.
/// The view statement follows once the introspection returns the
/// column list.
pub fn plan_create_table(storage_path: &str, requested_name: &str, select_sql: &str) -> (r:
    CreateTablePlan)
    ensures
        1 <= r.safe_name@.len() <= MAX_IDENT_LENGTH,
        forall|i: int|
            0 <= i < r.safe_name@.len() ==> is_alnum_char(#[trigger] r.safe_name@[i])
                || r.safe_name@[i] == '_',
        exists|suffix: Seq<u8>| #[trigger] suffix_ok(suffix) && r.safe_name@ == chars_of_bytes(
            spec_sanitized(requested_name@, suffix),
        ),
        r.attach_sql@ == spec_attach_statement(storage_path@, r.safe_name@),
        r.create_sql@ == spec_create_table_statement(r.safe_name@, select_sql@),
        r.columns_sql@ == spec_columns_query(r.safe_name@),
{
    let safe_name = sanitize_to_sql_name(requested_name);
    let attach_sql = attach_statement(storage_path, safe_name.as_str());
    let create_sql = create_table_statement(safe_name.as_str(), select_sql);
    let columns_sql = columns_query(safe_name.as_str());
    CreateTablePlan { safe_name, attach_sql, create_sql, columns_sql }
}

/// One result row materialized into an ordered mapping from column
/// name to converted value, in schema order; names and values are
/// paired up to the shorter of the two lists.
pub fn zip_row(column_names: &Vec<String>, row: Vec<JsonValue>) -> (r: Vec<(String, JsonValue)>)
    ensures
        r@.len() == vstd::math::min(column_names@.len() as int, row@.len() as int),
        forall|j: int|
            0 <= j < r@.len() ==> #[trigger] r@[j] == (column_names@[j], row@[j]),
{
    let ghost orig = row@;
    let mut row = row;
    let n = if column_names.len() < row.len() {
        column_names.len()
    } else {
        row.len()
    };
    row.truncate(n);
    proof {
        assert(row@ =~= orig.take(n as int));
    }
    let mut r: Vec<(String, JsonValue)> = Vec::new();
    while row.len() > 0
        invariant
            n <= column_names@.len(),
            n <= orig.len(),
            row@.len() + r@.len() == n,
            row@ =~= orig.take(row@.len() as int),
            forall|j: int|
                0 <= j < r@.len() ==> #[trigger] r@[j] == (
                    column_names@[row@.len() + j],
                    orig[row@.len() + j],
                ),
        decreases row@.len(),
    {
        let k = row.len() - 1;
        let v = match row.pop() {
            Some(v) => v,
            None => {
                proof {
                    assert(false);
                }
                return r;
            },
        };
        proof {
            assert(orig.take(k + 1)[k as int] == orig[k as int]);
            assert(orig.take(k + 1).take(k as int) =~= orig.take(k as int));
        }
        let ghost before = r@;
        r.insert(0, (column_names[k].clone(), v));
        proof {
            assert(r@ =~= seq![(column_names@[k as int], orig[k as int])] + before);
        }
    }
    r
}

/// The value of the first column named `name` in a materialized
/// row, when one exists.
pub fn find_column<'a>(row: &'a Vec<(String, JsonValue)>, name: &str) -> (r: Option<
    &'a JsonValue,
>)
    ensures
        match r {
            Some(v) => exists|i: int|
                {
                    &&& 0 <= i < row@.len()
                    &&& (#[trigger] row@[i]).0@ == name@
                    &&& *v == row@[i].1
                    &&& forall|j: int| 0 <= j < i ==> (#[trigger] row@[j]).0@ != name@
                },
            None => forall|i: int| 0 <= i < row@.len() ==> (#[trigger] row@[i]).0@ != name@,
        },
{
    let n = row.len();
    let mut i: usize = 0;
    while i < n
        invariant
            n == row@.len(),
            0 <= i <= n,
            forall|j: int| 0 <= j < i ==> (#[trigger] row@[j]).0@ != name@,
        decreases n - i,
    {
        if crate::strutil::str_equal(row[i].0.as_str(), name) {
            let v = &row[i].1;
            proof {
                let wi = i as int;
                assert(0 <= wi < row@.len() && row@[wi].0@ == name@ && *v == row@[wi].1
                    && forall|j: int| 0 <= j < wi ==> (#[trigger] row@[j]).0@ != name@);
            }
            return Some(v);
        }
        i = i + 1;
    }
    None
}

/// The unsigned count a JSON value carries: a non-negative integer
/// number, read as the engine's row-count probe expects it.
pub fn json_as_u64(v: &JsonValue) -> (r: Option<u64>)
    ensures
        match r {
            Some(u) => v@ == crate::codec::JsonVal::Int(u as int),
            None => forall|u: u64| v@ != crate::codec::JsonVal::Int(u as int),
        },
{
    match v {
        JsonValue::Number(n) => match n {
            crate::codec::JsonNumber::UInt(u) => Some(*u),
            crate::codec::JsonNumber::Int(i) => {
                if *i >= 0 {
                    Some(*i as u64)
                } else {
                    proof {
                        assert(forall|u: u64| v@ != crate::codec::JsonVal::Int(u as int));
                    }
                    None
                }
            },
            crate::codec::JsonNumber::Float(_) => None,
        },
        _ => None,
    }
}

} // verus!

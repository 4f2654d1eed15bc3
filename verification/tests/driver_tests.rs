use karna_engine::codec::JsonNumber;
use karna_engine::codec::JsonValue;
use karna_engine::driver::attach_statement;
use karna_engine::driver::boot_statements;
use karna_engine::driver::columns_query;
use karna_engine::driver::count_query;
use karna_engine::driver::create_table_statement;
use karna_engine::driver::dataset_names_from_listing;
use karna_engine::driver::db_file_path;
use karna_engine::driver::detach_statement;
use karna_engine::driver::find_column;
use karna_engine::driver::json_as_u64;
use karna_engine::driver::plan_create_table;
use karna_engine::driver::select_statement;
use karna_engine::driver::view_statement;
use karna_engine::driver::zip_row;

#[test]
fn boot_statements_install_and_load_every_extension() {
    let extra = vec![String::from("CREATE TABLE test (id INTEGER)")];
    let statements = boot_statements(&extra);
    let expected = [
        "install 'json'",
        "load 'json'",
        "install 'icu'",
        "load 'icu'",
        "install 'parquet'",
        "load 'parquet'",
        "install 'sqlite'",
        "load 'sqlite'",
        "install 'httpfs'",
        "load 'httpfs'",
        "CREATE TABLE test (id INTEGER)",
    ];
    assert_eq!(statements.len(), expected.len());
    for (got, want) in statements.iter().zip(expected.iter()) {
        assert_eq!(got, want);
    }
}

#[test]
fn lifecycle_statements() {
    assert_eq!(db_file_path("/tmp/karna", "sales"), "/tmp/karna/sales.db");
    assert_eq!(
        attach_statement("/tmp/karna", "sales"),
        "attach '/tmp/karna/sales.db' as sales"
    );
    assert_eq!(
        create_table_statement("sales", "select * from read_csv('/tmp/s.csv')"),
        "create or replace table sales.default as (select * from read_csv('/tmp/s.csv')\n)"
    );
    assert_eq!(
        columns_query("sales"),
        "select column_name as name from information_schema.columns where table_catalog = 'sales' and table_name = 'default' order by ordinal_position"
    );
    assert_eq!(detach_statement("sales"), "detach sales");
    assert_eq!(count_query("sales"), "SELECT COUNT(*) as count FROM sales");
}

#[test]
fn view_spells_out_columns_in_schema_order() {
    let columns = vec![String::from("id"), String::from("name")];
    assert_eq!(
        select_statement("sales", &columns),
        "select id, name from sales.default"
    );
    assert_eq!(
        view_statement("sales", &columns),
        "create or replace view sales as select id, name from sales.default"
    );
}

#[test]
fn listing_yields_dataset_names_in_order() {
    // only the primary file main.db itself is reserved: datasets
    // whose names merely start with "main" are ordinary datasets
    let files = vec![
        String::from("main.db"),
        String::from("alpha.db"),
        String::from("notes.txt"),
        String::from("beta.db"),
        String::from("main2.db"),
        String::from("mainline.db"),
        String::from("gamma.db.wal"),
    ];
    let names = dataset_names_from_listing(&files);
    assert_eq!(
        names,
        vec![
            String::from("alpha"),
            String::from("beta"),
            String::from("main2"),
            String::from("mainline"),
        ]
    );
}

#[test]
fn files_with_wal_siblings_are_skipped() {
    // gamma.db is being written: its write-ahead sibling is present
    let files = vec![
        String::from("alpha.db"),
        String::from("gamma.db"),
        String::from("gamma.db.wal"),
    ];
    let names = dataset_names_from_listing(&files);
    assert_eq!(names, vec![String::from("alpha")]);
}

#[test]
fn create_table_plan_uses_one_safe_name_throughout() {
    let plan = plan_create_table("/tmp/karna", "my data.csv", "select 1");
    assert!(plan.safe_name.starts_with("my_data_csv_"));
    assert!(plan.safe_name.len() <= 63);
    assert_eq!(
        plan.attach_sql,
        format!("attach '/tmp/karna/{}.db' as {}", plan.safe_name, plan.safe_name)
    );
    assert_eq!(
        plan.create_sql,
        format!("create or replace table {}.default as (select 1\n)", plan.safe_name)
    );
    assert!(plan.columns_sql.contains(&plan.safe_name));
}

#[test]
fn rows_zip_with_column_names() {
    let columns = vec![String::from("id"), String::from("count")];
    let row = vec![
        JsonValue::Number(JsonNumber::Int(1)),
        JsonValue::Number(JsonNumber::UInt(42)),
    ];
    let object = zip_row(&columns, row);
    assert_eq!(object.len(), 2);
    assert_eq!(object[0].0, "id");
    assert_eq!(object[1].0, "count");

    let count = find_column(&object, "count").unwrap();
    assert_eq!(json_as_u64(count), Some(42));
    assert!(find_column(&object, "missing").is_none());
}

#[test]
fn row_counts_read_from_either_integer_form() {
    assert_eq!(json_as_u64(&JsonValue::Number(JsonNumber::UInt(7))), Some(7));
    assert_eq!(json_as_u64(&JsonValue::Number(JsonNumber::Int(7))), Some(7));
    assert_eq!(json_as_u64(&JsonValue::Number(JsonNumber::Int(-7))), None);
    assert_eq!(json_as_u64(&JsonValue::Null), None);
}

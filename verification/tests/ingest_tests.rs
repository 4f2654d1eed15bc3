use karna_engine::error::Error;
use karna_engine::ingest::FileFormat;
use karna_engine::ingest::FileSystem;
use karna_engine::ingest::extension_of;
use karna_engine::ingest::generate_read_csv_statement;
use karna_engine::ingest::generate_read_json_statement;
use karna_engine::ingest::generate_read_parquet_statement;
use karna_engine::ingest::override_params;
use karna_engine::ingest::source_reader;

fn pair(k: &str, v: &str) -> (String, String) {
    (String::from(k), String::from(v))
}

#[test]
fn formats_from_extensions() {
    assert_eq!(FileFormat::from_extension("csv").unwrap(), FileFormat::Csv);
    assert_eq!(FileFormat::from_extension("tsv").unwrap(), FileFormat::Tsv);
    assert_eq!(FileFormat::from_extension("txt").unwrap(), FileFormat::Txt);
    assert_eq!(
        FileFormat::from_extension("parquet").unwrap(),
        FileFormat::Parquet
    );
    assert_eq!(FileFormat::from_extension("json").unwrap(), FileFormat::Json);
    assert_eq!(FileFormat::from_extension("CSV").unwrap(), FileFormat::Csv);
    match FileFormat::from_extension("xlsx") {
        Err(Error::InvalidFormat { format }) => assert_eq!(format, "xlsx"),
        _ => panic!("expected an InvalidFormat error"),
    }
}

#[test]
fn tsv_defaults_include_header_and_tab_delimiter() {
    let format = FileFormat::from_extension("tsv").unwrap();
    let params = format.default_params();
    let sql = generate_read_csv_statement("upload.tsv", &params);
    assert!(sql.contains("header = 'true'"));
    assert!(sql.contains("delimiter = '\t'"));
}

#[test]
fn csv_defaults_render_in_insertion_order() {
    let format = FileFormat::from_extension("csv").unwrap();
    let params = format.default_params();
    let sql = generate_read_csv_statement("/tmp/a.csv", &params);
    assert_eq!(
        sql,
        "read_csv('/tmp/a.csv', auto_detect = 'true', sample_size = '1000', header = 'true')"
    );
}

#[test]
fn empty_parameter_set_renders_a_bare_csv_call() {
    let params = Vec::new();
    let sql = generate_read_csv_statement("/tmp/a.csv", &params);
    assert_eq!(sql, "read_csv('/tmp/a.csv')");
}

#[test]
fn parquet_and_json_readers() {
    let params = FileFormat::Parquet.default_params();
    let sql = generate_read_parquet_statement("/tmp/a.parquet", &params);
    assert_eq!(sql, "read_parquet('/tmp/a.parquet', union_by_name = 'true')");

    let params = FileFormat::Json.default_params();
    let sql = generate_read_json_statement("/tmp/a.json", &params);
    assert_eq!(
        sql,
        "read_json('/tmp/a.json', auto_detect = 'true', sample_size = '1000')"
    );
}

#[test]
fn overrides_replace_defaults_key_by_key() {
    let defaults = FileFormat::Csv.default_params();
    let overrides = vec![pair("sample_size", "50"), pair("compression", "gzip")];
    let resolved = override_params(defaults, &overrides);
    let sql = generate_read_csv_statement("/tmp/a.csv", &resolved);
    assert_eq!(
        sql,
        "read_csv('/tmp/a.csv', auto_detect = 'true', sample_size = '50', header = 'true', compression = 'gzip')"
    );
}

#[test]
fn source_reader_dispatches_on_the_format_token() {
    let params = vec![pair("header", "false")];
    assert_eq!(
        source_reader("/tmp/a.csv", "csv", &params).unwrap(),
        "read_csv('/tmp/a.csv', header = 'false')"
    );
    assert_eq!(
        source_reader("/tmp/a.tsv", "tsv", &params).unwrap(),
        "read_csv('/tmp/a.tsv', header = 'false')"
    );
    assert_eq!(
        source_reader("/tmp/a.parquet", "parquet", &params).unwrap(),
        "read_parquet('/tmp/a.parquet', header = 'false')"
    );
    assert_eq!(
        source_reader("/tmp/a.json", "json", &params).unwrap(),
        "read_json('/tmp/a.json', header = 'false')"
    );
    match source_reader("/tmp/a.avro", "avro", &params) {
        Err(Error::InvalidFormat { format }) => assert_eq!(format, "avro"),
        _ => panic!("expected an InvalidFormat error"),
    }
}

#[test]
fn extensions_come_from_the_final_component() {
    assert_eq!(extension_of("/tmp/a.csv"), Some("csv"));
    assert_eq!(extension_of("/tmp/archive.tar.gz"), Some("gz"));
    assert_eq!(extension_of("/tmp/noext"), None);
    assert_eq!(extension_of("/tmp/.hidden"), None);
    assert_eq!(extension_of("/tmp.d/noext"), None);
    assert_eq!(extension_of("relative.json"), Some("json"));
}

#[test]
fn generate_sql_wraps_the_reader_in_a_select() {
    let fs = FileSystem::new();
    let sql = fs.generate_sql("/tmp/data.csv", &Vec::new()).unwrap();
    assert_eq!(
        sql,
        "select * from read_csv('/tmp/data.csv', auto_detect = 'true', sample_size = '1000', header = 'true')"
    );
}

#[test]
fn generate_sql_rejects_missing_and_unknown_extensions() {
    let fs = FileSystem::new();
    match fs.generate_sql("/tmp/noext", &Vec::new()) {
        Err(Error::FileSystem { path, .. }) => assert_eq!(path, "/tmp/noext"),
        _ => panic!("expected a FileSystem error"),
    }
    match fs.generate_sql("/tmp/a.xlsx", &Vec::new()) {
        Err(Error::InvalidFormat { format }) => assert_eq!(format, "xlsx"),
        _ => panic!("expected an InvalidFormat error"),
    }
}

#[test]
fn validate_rejects_empty_and_oversized_files() {
    let fs = FileSystem::new();
    assert!(fs.validate(1, "/tmp/a.csv").is_ok());
    match fs.validate(0, "/tmp/a.csv") {
        Err(Error::FileSystem { path, .. }) => assert_eq!(path, "/tmp/a.csv"),
        _ => panic!("expected a FileSystem error"),
    }

    let bounded = FileSystem::new().with_max_file_size(2);
    assert!(bounded.validate(2 * 1024 * 1024, "/tmp/a.csv").is_ok());
    match bounded.validate(2 * 1024 * 1024 + 1, "/tmp/a.csv") {
        Err(Error::FileSystem { path, .. }) => assert_eq!(path, "/tmp/a.csv"),
        _ => panic!("expected a FileSystem error"),
    }
}

use karna_engine::config::Config;
use karna_engine::error::Error;

#[test]
fn test_error_handling() {
    let config_result = Config::new("relative/path");
    assert!(matches!(config_result.unwrap_err(), Error::Config { .. }));
}

#[test]
fn test_config_builder() {
    let test_path = "/tmp/test.db";

    let config = Config::new(test_path)
        .unwrap()
        .with_cpu_cores(1)
        .unwrap()
        .with_memory_limit_gb(2)
        .unwrap()
        .with_storage_limit_bytes(2 * 1024 * 1024)
        .unwrap();

    assert_eq!(config.cpu_cores(), Some(1));
    assert_eq!(config.memory_limit_gb(), Some(2));
    assert_eq!(config.storage_limit_bytes(), Some(2 * 1024 * 1024));
}

#[test]
fn absolute_paths_are_accepted() {
    let config = Config::new("/var/data/primary.db").unwrap();
    assert_eq!(config.dsn(), "/var/data/primary.db");
    assert_eq!(config.db_file_path(), "/var/data/primary.db");
    assert_eq!(config.db_storage_path(), "/var/data");
    assert_eq!(config.cpu_cores(), None);
    assert_eq!(config.memory_limit_gb(), None);
    assert_eq!(config.storage_limit_bytes(), None);
    assert_eq!(config.pool_size(), None);
    assert!(config.boot_queries().is_empty());
}

#[test]
fn relative_and_rootless_paths_are_rejected() {
    assert!(matches!(Config::new("data/main.db"), Err(Error::Config { .. })));
    assert!(matches!(Config::new(""), Err(Error::Config { .. })));
    assert!(matches!(Config::new("/"), Err(Error::Config { .. })));
}

#[test]
fn paths_without_a_file_name_are_rejected() {
    assert!(matches!(Config::new("//"), Err(Error::Config { .. })));
    assert!(matches!(Config::new("/foo/"), Err(Error::Config { .. })));
}

#[test]
fn parent_of_file_in_root_is_root() {
    let config = Config::new("/main.db").unwrap();
    assert_eq!(config.db_storage_path(), "/");
}

#[test]
fn dsn_with_memory_limit_and_pool_size() {
    // pool size tunes the pool, not the engine, so it never shows
    // in the DSN
    let config = Config::new("/tmp/karna/main.db")
        .unwrap()
        .with_memory_limit_gb(2)
        .unwrap()
        .with_pool_size(1)
        .unwrap();
    assert_eq!(config.build_dsn(), "/tmp/karna/main.db?max_memory_limit=2");
    assert_eq!(config.pool_size(), Some(1));
}

#[test]
fn dsn_without_parameters_is_the_path() {
    let config = Config::new("/tmp/karna/main.db").unwrap();
    assert_eq!(config.build_dsn(), "/tmp/karna/main.db");
}

#[test]
fn dsn_with_every_parameter() {
    let config = Config::new("/tmp/karna/main.db")
        .unwrap()
        .with_cpu_cores(1)
        .unwrap()
        .with_memory_limit_gb(4)
        .unwrap()
        .with_storage_limit_bytes(1048576)
        .unwrap();
    assert_eq!(
        config.build_dsn(),
        "/tmp/karna/main.db?cpu=1&max_memory_limit=4&storage_limit=1048576"
    );
}

#[test]
fn cpu_core_bounds() {
    let config = Config::new("/tmp/test.db").unwrap();
    assert!(matches!(
        config.clone().with_cpu_cores(0),
        Err(Error::Config { .. })
    ));
    assert!(matches!(
        config.clone().with_cpu_cores(usize::MAX),
        Err(Error::Config { .. })
    ));
    let tuned = config.with_cpu_cores(1).unwrap();
    assert_eq!(tuned.cpu_cores(), Some(1));
}

#[test]
fn memory_limit_bounds() {
    let config = Config::new("/tmp/test.db").unwrap();
    assert!(matches!(
        config.clone().with_memory_limit_gb(0),
        Err(Error::Config { .. })
    ));
    assert!(matches!(
        config.clone().with_memory_limit_gb(1025),
        Err(Error::Config { .. })
    ));
    assert_eq!(
        config.clone().with_memory_limit_gb(1).unwrap().memory_limit_gb(),
        Some(1)
    );
    assert_eq!(
        config.with_memory_limit_gb(1024).unwrap().memory_limit_gb(),
        Some(1024)
    );
}

#[test]
fn storage_limit_bounds() {
    let config = Config::new("/tmp/test.db").unwrap();
    assert!(matches!(
        config.clone().with_storage_limit_bytes(1048575),
        Err(Error::Config { .. })
    ));
    assert_eq!(
        config
            .with_storage_limit_bytes(1048576)
            .unwrap()
            .storage_limit_bytes(),
        Some(1048576)
    );
}

#[test]
fn pool_size_bounds() {
    let config = Config::new("/tmp/test.db").unwrap();
    assert!(matches!(
        config.clone().with_pool_size(0),
        Err(Error::Config { .. })
    ));
    assert_eq!(config.with_pool_size(8).unwrap().pool_size(), Some(8));
}

#[test]
fn unset_pool_size_defaults_to_four() {
    let config = Config::new("/tmp/test.db").unwrap();
    assert_eq!(config.pool_size_or_default(), 4);
    let sized = config.with_pool_size(2).unwrap();
    assert_eq!(sized.pool_size_or_default(), 2);
}

#[test]
fn errors_render_with_their_payload() {
    let err = Config::new("relative/path").unwrap_err();
    assert_eq!(
        err.message(),
        "Invalid configuration: DSN path must be absolute"
    );
    let err = Error::Execution {
        sql: String::from("select 1"),
        message: String::from("boom"),
    };
    assert_eq!(err.message(), "Failed to execute query 'select 1': boom");
    let err = Error::Pool {
        message: String::from("timed out"),
    };
    assert_eq!(err.message(), "Pool error: timed out");
}

#[test]
fn boot_queries_are_kept_in_order() {
    let config = Config::new("/tmp/test.db")
        .unwrap()
        .with_boot_query(String::from("SET enable_progress_bar=false"))
        .with_boot_query(String::from("SET sqlite_all_varchar=false"));
    let queries = config.boot_queries();
    assert_eq!(queries.len(), 2);
    assert_eq!(queries[0], "SET enable_progress_bar=false");
    assert_eq!(queries[1], "SET sqlite_all_varchar=false");
}

use cubestore::remote::{S3RemoteFs, list_paths, process_listing, process_listing_entry};
use cubestore::table::TableValue;
use cubestore::workbench::handle_workbench_queries;

fn s(text: &str) -> String {
    text.to_string()
}

#[test]
fn s3_paths_carry_the_sub_path() {
    let fs = S3RemoteFs::new(s("/tmp/mirror"), Some(s("bucket-sub")));
    assert_eq!(fs.s3_path("a/b.parquet"), "bucket-sub/a/b.parquet");
    let bare = S3RemoteFs::new(s("/tmp/mirror"), None);
    assert_eq!(bare.s3_path("a/b.parquet"), "/a/b.parquet");
    assert_eq!(fs.local_path(), "/tmp/mirror");
    assert_eq!(fs.local_file("a/b.parquet"), "/tmp/mirror/a/b.parquet");
}

#[test]
fn download_is_idempotent() {
    let mut fs = S3RemoteFs::new(s("/tmp/mirror"), None);
    // Nothing mirrored yet: the host must fetch.
    assert_eq!(fs.download_plan("a/b.parquet"), None);
    // A failed fetch names the status and mirrors nothing.
    let err = fs.download_complete("a/b.parquet", 500).unwrap_err();
    assert_eq!(err.get_message(), "S3 download returned non OK status: 500");
    assert_eq!(fs.download_plan("a/b.parquet"), None);
    // A completed fetch mirrors the file.
    let local = fs.download_complete("a/b.parquet", 200).unwrap();
    assert_eq!(local, "/tmp/mirror/a/b.parquet");
    // The second download needs no fetch and reports the same local path.
    assert_eq!(fs.download_plan("a/b.parquet"), Some(s("/tmp/mirror/a/b.parquet")));
}

#[test]
fn delete_prunes_emptied_ancestors() {
    let mut fs = S3RemoteFs::new(s("/tmp/mirror"), None);
    fs.download_complete("a/b/c.parquet", 200).unwrap();
    fs.record_dir("a");
    fs.record_dir("a/b");
    // A failed remote deletion changes nothing locally.
    let err = fs.delete_file("a/b/c.parquet", 409).unwrap_err();
    assert_eq!(err.get_message(), "S3 delete returned non OK status: 409");
    assert_eq!(fs.mirror_files.len(), 1);
    // The deletion removes the mirror copy and both newly emptied ancestors.
    fs.delete_file("a/b/c.parquet", 204).unwrap();
    assert!(fs.mirror_files.is_empty());
    assert!(fs.mirror_dirs.is_empty());
}

#[test]
fn delete_keeps_occupied_ancestors() {
    let mut fs = S3RemoteFs::new(s("/tmp/mirror"), None);
    fs.download_complete("a/b/c.parquet", 200).unwrap();
    fs.download_complete("a/d.parquet", 200).unwrap();
    fs.record_dir("a");
    fs.record_dir("a/b");
    fs.delete_file("a/b/c.parquet", 204).unwrap();
    // `a/b` became empty and is pruned; `a` still holds `a/d.parquet`.
    assert_eq!(fs.mirror_dirs, vec![s("a")]);
    assert_eq!(fs.mirror_files, vec![s("a/d.parquet")]);
}

#[test]
fn listings_strip_the_sub_path() {
    let sub = Some(s("sub"));
    let f = process_listing_entry(&sub, "sub/a/b.parquet", "2020-01-02T00:00:00+00:00").unwrap();
    assert_eq!(f.remote_path, "a/b.parquet");
    assert_eq!(f.updated, 1577923200000000000);
    // A key outside the prefix is kept whole.
    let g = process_listing_entry(&sub, "elsewhere.txt", "2020-01-02T00:00:00+00:00").unwrap();
    assert_eq!(g.remote_path, "elsewhere.txt");
    // A timestamp that does not parse is a user error.
    assert!(process_listing_entry(&sub, "sub/x", "yesterday").is_err());
}

#[test]
fn upload_status_is_checked() {
    let fs = S3RemoteFs::new(s("/tmp/mirror"), None);
    assert!(fs.upload_status(200).is_ok());
    let err = fs.upload_status(403).unwrap_err();
    assert_eq!(err.get_message(), "S3 upload returned non OK status: 403");
}

#[test]
fn workbench_queries_get_canned_frames() {
    let f = handle_workbench_queries("SHOW SESSION VARIABLES LIKE 'lower_case_table_names'")
        .unwrap();
    assert_eq!(
        f.get_rows()[0].values(),
        &vec![
            TableValue::String(s("lower_case_table_names")),
            TableValue::String(s("2")),
        ]
    );
    let f = handle_workbench_queries("SHOW SESSION VARIABLES LIKE 'sql_mode'").unwrap();
    assert_eq!(
        f.get_rows()[0].values(),
        &vec![TableValue::String(s("sql_mode")), TableValue::String(s("TRADITIONAL"))]
    );
    // The select and set forms compare on the lowercased query.
    let f = handle_workbench_queries("SELECT CURRENT_USER()").unwrap();
    assert_eq!(f.get_rows()[0].values(), &vec![TableValue::String(s("root"))]);
    let f = handle_workbench_queries("select connection_id()").unwrap();
    assert_eq!(f.get_rows()[0].values(), &vec![TableValue::String(s("1"))]);
    let f = handle_workbench_queries("select connection_id() as connectionId").unwrap();
    assert_eq!(f.get_columns()[0].get_name(), "connectionId");
    assert!(handle_workbench_queries("SET character SET utf8").unwrap().get_rows().is_empty());
    assert!(handle_workbench_queries("set names utf8").unwrap().get_rows().is_empty());
    assert!(
        handle_workbench_queries("show character set where charset = 'utf8mb4'")
            .unwrap()
            .get_rows()
            .is_empty()
    );
    assert!(handle_workbench_queries("SELECT 1").is_none());
    // The session-variable forms are matched case-sensitively.
    assert!(handle_workbench_queries("show session variables like 'sql_mode'").is_none());
}

#[test]
fn dialect_identifier_rules() {
    let d = cubestore::dialect::MySqlDialectWithBackTicks {};
    assert!(d.is_delimited_identifier_start('"'));
    assert!(d.is_delimited_identifier_start('`'));
    assert!(!d.is_delimited_identifier_start('\''));
    assert!(d.is_identifier_start('a'));
    assert!(d.is_identifier_start('_'));
    assert!(d.is_identifier_start('$'));
    assert!(d.is_identifier_start('\u{00e9}'));
    assert!(!d.is_identifier_start('5'));
    assert!(d.is_identifier_part('5'));
    assert!(!d.is_identifier_part('-'));
}

#[test]
fn listings_process_in_order() {
    let sub = Some(s("sub"));
    let entries = vec![
        (s("sub/1.parquet"), s("2020-01-01T00:00:00+00:00")),
        (s("sub/2.parquet"), s("2020-01-02T00:00:00+00:00")),
    ];
    let files = process_listing(&sub, &entries).unwrap();
    assert_eq!(list_paths(&files), vec![s("1.parquet"), s("2.parquet")]);
    assert_eq!(files[1].updated, 1577923200000000000);
    let bad = vec![(s("sub/1.parquet"), s("not a time"))];
    assert!(process_listing(&sub, &bad).is_err());
}

//! Single steps of the procedures.

use staged_update::archive::{
    extract_archive, extract_zip, kind_of_lowered, ArchiveKind, ArchiveReply, ArchiveRequest, Extraction,
};
use staged_update::disk::{IoFailure, Listed, Reply, Request};
use staged_update::fallback::version_folder_name;
use staged_update::path::{Platform, RelativePath};
use staged_update::plan::{PreparedUpdate, UpdatePlan};
use staged_update::rename::{is_retryable_lock_error, rename_with_retry};
use staged_update::sweep::cleanup_previous_committed_transactions;
use staged_update::transaction::{combine_errors, format_transaction_error, join_errors};
use staged_update::transaction_id::{new_transaction_id, transaction_id, transaction_id_at};

fn failure(code: Option<i32>) -> Reply {
    Reply::Failed(IoFailure {
        message: "denied".to_string(),
        raw_os_error: code,
    })
}

#[test]
fn a_rename_gives_up_after_five_attempts() {
    let mut rename = rename_with_retry(Platform::Windows, "a", "b");
    let mut attempts = 0;
    let mut waits = Vec::new();
    while let Some(request) = rename.request() {
        let reply = match request {
            Request::Rename { from, to } => {
                assert_eq!((from.as_str(), to.as_str()), ("a", "b"));
                attempts += 1;
                failure(Some(if attempts % 2 == 0 { 32 } else { 33 }))
            }
            Request::Sleep(millis) => {
                waits.push(millis);
                Reply::Done
            }
            _ => panic!(),
        };
        assert!(rename.accepts(&reply));
        rename.advance(reply);
    }
    assert_eq!(attempts, 5);
    assert_eq!(waits, vec![50, 100, 200, 400]);
    assert_eq!(rename.outcome().unwrap().unwrap_err().raw_os_error, Some(33));
}

#[test]
fn a_rename_does_not_wait_for_other_errors() {
    for (platform, code) in [
        (Platform::Unix, Some(32)),
        (Platform::Windows, Some(5)),
        (Platform::Windows, None),
    ] {
        let mut rename = rename_with_retry(platform, "a", "b");
        rename.advance(failure(code));
        assert!(rename.request().is_none());
        assert_eq!(
            rename.outcome().unwrap().unwrap_err().detailed(),
            match code {
                Some(n) => format!("denied, raw_os_error=Some({})", n),
                None => "denied, raw_os_error=None".to_string(),
            }
        );
    }
    assert!(is_retryable_lock_error(Platform::Windows, Some(32)));
    assert!(is_retryable_lock_error(Platform::Windows, Some(33)));
    assert!(!is_retryable_lock_error(Platform::Windows, Some(34)));
    assert!(!is_retryable_lock_error(Platform::Unix, Some(32)));
    assert!(!is_retryable_lock_error(Platform::Windows, None));
}

fn one_file() -> PreparedUpdate {
    let path = || {
        vec![RelativePath {
            parts: vec!["a".to_string(), "b".to_string()],
        }]
    };
    PreparedUpdate {
        platform: Platform::Unix,
        staging: "/s".to_string(),
        target: "/t".to_string(),
        plan: UpdatePlan {
            backup: path(),
            apply: path(),
        },
    }
}

#[test]
fn an_installation_asks_for_its_steps_in_order() {
    let mut installation = one_file().install_as("id");
    let mut seen = Vec::new();
    while let Some(request) = installation.request() {
        seen.push(format!("{:?}", request));
        let reply = match request {
            Request::Exists(_) => Reply::Flag(true),
            Request::MarkCommitted { .. } => failure(None),
            _ => Reply::Done,
        };
        assert!(installation.accepts(&reply));
        assert!(!installation.accepts(&Reply::Listing(vec![])));
        installation.advance(reply);
    }
    assert_eq!(
        seen,
        vec![
            "SweepCommitted(\"/t/.update-tx\")",
            "CreateDirAll(\"/t/.update-tx/id\")",
            "CreateDirAll(\"/t/.update-tx/id/backup\")",
            "Exists(\"/t/a/b\")",
            "CreateDirAll(\"/t/.update-tx/id/backup/a\")",
            "RenameWithRetry { from: \"/t/a/b\", to: \"/t/.update-tx/id/backup/a/b\" }",
            "CopyEntry { from: \"/s/a/b\", to: \"/t/a/b\" }",
            "MarkCommitted { path: \"/t/.update-tx/id/COMMITTED\", content: \"committed\" }",
        ]
    );
    assert_eq!(installation.outcome(), Some(Ok(())));
}

#[test]
fn an_installation_reports_where_it_failed() {
    let outcome = |refused: &str| -> Result<(), String> {
        let mut installation = one_file().install_as("id");
        while let Some(request) = installation.request() {
            let text = format!("{:?}", request);
            let reply = match request {
                Request::Exists(_) => Reply::Flag(true),
                _ if text.contains(refused) => failure(Some(5)),
                _ => Reply::Done,
            };
            installation.advance(reply);
        }
        installation.outcome().unwrap()
    };
    assert_eq!(
        outcome("update-tx/id\")"),
        Err("无法创建更新事务目录 [/t/.update-tx/id]: denied".to_string())
    );
    assert_eq!(
        outcome("backup\")"),
        Err("无法创建更新备份目录 [/t/.update-tx/id/backup]: denied".to_string())
    );
    assert_eq!(
        outcome("backup/a\")"),
        Err("无法创建备份父目录 [/t/.update-tx/id/backup/a]: denied".to_string())
    );
    assert_eq!(
        outcome("RenameWithRetry { from: \"/t/a/b\""),
        Err(
            "更新备份失败: [/t/a/b] -> [/t/.update-tx/id/backup/a/b], error=denied, \
             raw_os_error=Some(5)"
                .to_string()
        )
    );
    assert_eq!(outcome("CopyEntry"), Err("应用更新失败: denied".to_string()));
    assert_eq!(outcome("nothing"), Ok(()));
}

#[test]
fn failures_of_going_back_are_all_reported() {
    let mut installation = one_file().install_as("id");
    while let Some(request) = installation.request() {
        let reply = match request {
            Request::Exists(_) => Reply::Flag(true),
            Request::CopyEntry { .. } | Request::RemovePathIfExists(_) => failure(Some(5)),
            Request::RenameWithRetry { from, .. } if from.contains("backup") => failure(Some(6)),
            _ => Reply::Done,
        };
        installation.advance(reply);
    }
    assert_eq!(
        installation.outcome(),
        Some(Err(
            "应用更新失败: denied; 回滚也失败: [/t/a/b]: denied; [/t/.update-tx/id/backup/a/b] -> \
             [/t/a/b]: denied, raw_os_error=Some(6)"
                .to_string()
        ))
    );
}

#[test]
fn errors_are_joined() {
    let some = |t: &str| Some(t.to_string());
    assert_eq!(join_errors(&vec![]), None);
    assert_eq!(
        join_errors(&vec!["a".to_string(), "b".to_string(), "c".to_string()]),
        some("a; b; c")
    );
    assert_eq!(combine_errors(None, None), None);
    assert_eq!(combine_errors(some("a"), None), some("a"));
    assert_eq!(combine_errors(None, some("b")), some("b"));
    assert_eq!(combine_errors(some("a"), some("b")), some("a; b"));
    assert_eq!(format_transaction_error("p".to_string(), None), "p");
    assert_eq!(
        format_transaction_error("p".to_string(), some("r")),
        "p; 回滚也失败: r"
    );
}

#[test]
fn a_sweep_removes_committed_transactions_only() {
    let mut sweep = cleanup_previous_committed_transactions(Platform::Unix, "/t/.update-tx");
    let mut removed = Vec::new();
    while let Some(request) = sweep.request() {
        let reply = match request {
            Request::ReadDir(_) => Reply::Listing(vec![
                Listed::Name("one".to_string()),
                Listed::Failed("gone".to_string()),
                Listed::Name("two".to_string()),
                Listed::Name("three".to_string()),
            ]),
            Request::IsFile(path) => Reply::Flag(path != "/t/.update-tx/two/COMMITTED"),
            Request::RemoveDirAll(path) => {
                removed.push(path);
                failure(None)
            }
            _ => panic!(),
        };
        assert!(sweep.accepts(&reply));
        sweep.advance(reply);
    }
    assert_eq!(removed, vec!["/t/.update-tx/one", "/t/.update-tx/three"]);
    let mut sweep = cleanup_previous_committed_transactions(Platform::Unix, "/none");
    sweep.advance(failure(Some(2)));
    assert!(sweep.request().is_none());
}

#[test]
fn transactions_are_named_after_their_start() {
    assert_eq!(transaction_id("stamp", 42), "stamp-42");
    assert_eq!(
        transaction_id_at(1643723400, 123456789, 42).unwrap(),
        "20220201-135000-123456789-42"
    );
    assert_eq!(
        transaction_id_at(0, 7, 1).unwrap(),
        "19700101-000000-000000007-1"
    );
    assert_eq!(transaction_id_at(i64::MAX, 0, 1), None);
    let id = new_transaction_id(7);
    assert!(id.ends_with("-7"));
    assert_eq!(id.len(), 27);
    assert!(id.chars().all(|c| c.is_ascii_digit() || c == '-'));
}

#[test]
fn version_folders_start_with_one_v() {
    assert_eq!(version_folder_name("1.2.3"), "v1.2.3");
    assert_eq!(version_folder_name("v1.2.3"), "v1.2.3");
    assert_eq!(version_folder_name("vv"), "v");
    assert_eq!(version_folder_name("V1"), "vV1");
    assert_eq!(version_folder_name(""), "v");
}

#[test]
fn formats_are_told_by_the_file_name() {
    let kind = |name: &str| extract_zip(Platform::Unix, name.to_string(), "/d".to_string()).kind();
    assert_eq!(kind("/p/A.TAR.GZ"), ArchiveKind::TarGz);
    assert_eq!(kind("/p/a.Tgz"), ArchiveKind::TarGz);
    assert_eq!(kind("/p/a.zip"), ArchiveKind::Zip);
    assert_eq!(kind("/p/a.gz"), ArchiveKind::Zip);
    assert_eq!(kind("/p/a.ｔgz"), ArchiveKind::Zip);
    assert_eq!(kind_of_lowered("a.tar.gz"), ArchiveKind::TarGz);
    assert_eq!(kind_of_lowered("a.TAR.GZ"), ArchiveKind::Zip);
}

fn refuse(extraction: &mut Extraction) -> String {
    extraction.advance(ArchiveReply::Failed("denied".to_string()));
    assert!(extraction.request().is_none());
    match std::mem::replace(extraction, zip()).outcome() {
        Some(Err(message)) => message,
        _ => panic!(),
    }
}

fn zip() -> Extraction {
    extract_archive(
        Platform::Unix,
        ArchiveKind::Zip,
        "/p.zip".to_string(),
        "/d".to_string(),
    )
}

fn entry(name: &str, enclosed: Option<&str>) -> ArchiveReply {
    ArchiveReply::Entry {
        name: name.to_string(),
        enclosed: enclosed.map(|p| p.to_string()),
    }
}

#[test]
fn a_zip_archive_is_extracted_entry_by_entry() {
    let mut extraction = zip();
    let mut seen = Vec::new();
    while let Some(request) = extraction.request() {
        seen.push(format!("{:?}", request));
        let reply = match request {
            ArchiveRequest::Parse => ArchiveReply::Entries(4),
            ArchiveRequest::ReadEntry(0) => entry("sub/", Some("sub")),
            ArchiveRequest::ReadEntry(1) => entry("../evil", None),
            ArchiveRequest::ReadEntry(2) => entry("sub/f", Some("sub/f")),
            ArchiveRequest::ReadEntry(_) => entry("new/g", Some("new/g")),
            ArchiveRequest::Exists(path) => ArchiveReply::Flag(path == "/d/sub"),
            _ => ArchiveReply::Done,
        };
        assert!(extraction.accepts(&reply));
        extraction.advance(reply);
    }
    assert_eq!(extraction.outcome(), Some(Ok(())));
    assert_eq!(
        seen,
        vec![
            "Open(\"/p.zip\")",
            "Parse",
            "CreateDirAll(\"/d\")",
            "ReadEntry(0)",
            "CreateDirAll(\"/d/sub\")",
            "ReadEntry(1)",
            "ReadEntry(2)",
            "Exists(\"/d/sub\")",
            "CreateFile(\"/d/sub/f\")",
            "WriteEntry { index: 2, path: \"/d/sub/f\" }",
            "ReadEntry(3)",
            "Exists(\"/d/new\")",
            "CreateDirAll(\"/d/new\")",
            "CreateFile(\"/d/new/g\")",
            "WriteEntry { index: 3, path: \"/d/new/g\" }",
        ]
    );
}

#[test]
fn an_extraction_reports_where_it_failed() {
    let mut z = zip();
    assert_eq!(refuse(&mut z), "无法打开 ZIP 文件 [/p.zip]: denied");
    let mut z = zip();
    z.advance(ArchiveReply::Done);
    assert_eq!(refuse(&mut z), "无法解析 ZIP 文件: denied");
    let opened = || {
        let mut z = zip();
        z.advance(ArchiveReply::Done);
        z.advance(ArchiveReply::Entries(1));
        z
    };
    assert_eq!(refuse(&mut opened()), "无法创建目录 [/d]: denied");
    let reading = || {
        let mut z = opened();
        z.advance(ArchiveReply::Done);
        z
    };
    assert_eq!(refuse(&mut reading()), "无法读取 ZIP 条目 0: denied");
    let mut z = reading();
    z.advance(entry("s/", Some("s")));
    assert_eq!(refuse(&mut z), "无法创建目录 [/d/s]: denied");
    let mut z = reading();
    z.advance(entry("s/f", Some("s/f")));
    z.advance(ArchiveReply::Flag(false));
    assert_eq!(refuse(&mut z), "无法创建父目录 [/d/s]: denied");
    let mut z = reading();
    z.advance(entry("f", Some("f")));
    z.advance(ArchiveReply::Flag(true));
    assert_eq!(refuse(&mut z), "无法创建文件 [/d/f]: denied");
    let mut z = reading();
    z.advance(entry("f", Some("f")));
    z.advance(ArchiveReply::Flag(true));
    z.advance(ArchiveReply::Done);
    assert_eq!(refuse(&mut z), "无法写入文件 [/d/f]: denied");
}

#[test]
fn a_tar_archive_is_unpacked_at_once() {
    let tar = || {
        extract_archive(
            Platform::Unix,
            ArchiveKind::TarGz,
            "/p.tgz".to_string(),
            "/d".to_string(),
        )
    };
    let mut t = tar();
    assert_eq!(refuse(&mut t), "无法打开 tar.gz 文件 [/p.tgz]: denied");
    let mut t = tar();
    t.advance(ArchiveReply::Done);
    assert_eq!(refuse(&mut t), "无法创建目录 [/d]: denied");
    let mut t = tar();
    t.advance(ArchiveReply::Done);
    t.advance(ArchiveReply::Done);
    assert_eq!(refuse(&mut t), "解压 tar.gz 失败: denied");
    let mut t = tar();
    t.advance(ArchiveReply::Done);
    t.advance(ArchiveReply::Done);
    assert!(matches!(t.request(), Some(ArchiveRequest::Unpack(dir)) if dir == "/d"));
    t.advance(ArchiveReply::Done);
    assert_eq!(t.outcome(), Some(Ok(())));
}

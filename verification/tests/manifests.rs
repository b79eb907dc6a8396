//! Manifests and plans.

use staged_update::changes::{
    normalize_paths, validate_non_overlapping_paths, ChangesJson, Classification, Classified,
};
use staged_update::disk::Listed;
use staged_update::path::{Platform, RelativePath};
use staged_update::plan::{
    build_incremental_plan, build_update_plan, declared_paths, full_update_entries, Package,
    PreparedUpdate, Survey,
};

fn strings(list: &[&str]) -> Vec<String> {
    list.iter().map(|t| t.to_string()).collect()
}

fn changes(added: &[&str], modified: &[&str], deleted: &[&str]) -> ChangesJson {
    ChangesJson {
        added: strings(added),
        modified: strings(modified),
        deleted: strings(deleted),
    }
}

fn relative(text: &str) -> RelativePath {
    RelativePath {
        parts: text.split('/').map(|p| p.to_string()).collect(),
    }
}

fn shown(list: &[RelativePath]) -> Vec<String> {
    list.iter().map(|p| p.parts.join("/")).collect()
}

fn refusal(platform: Platform, changes: &ChangesJson) -> String {
    match declared_paths(platform, changes) {
        Ok(_) => String::new(),
        Err(error) => error.message(),
    }
}

#[test]
fn every_fault_of_a_manifest_has_its_message() {
    let unix = Platform::Unix;
    assert_eq!(
        refusal(unix, &changes(&["/abs"], &[], &[])),
        "changes.json 包含非法相对路径: [/abs]"
    );
    assert_eq!(
        refusal(unix, &changes(&[], &["a/../b"], &[])),
        "changes.json 路径越过更新根目录: [a/../b]"
    );
    assert_eq!(
        refusal(unix, &changes(&[], &[], &["config/x"])),
        "changes.json 包含保留路径: [config/x]"
    );
    assert_eq!(
        refusal(unix, &changes(&["a/b", "a\\b"], &[], &[])),
        "changes.json 的 added 包含重复路径: [a\\b]"
    );
    assert_eq!(
        refusal(unix, &changes(&["a"], &["./a"], &[])),
        "changes.json 路径同时属于 added 和 modified: [./a]"
    );
    assert_eq!(
        refusal(unix, &changes(&[], &["lib"], &["lib/x"])),
        "changes.json 包含相互重叠的路径: modified [lib] 与 deleted [lib/x]"
    );
    assert_eq!(
        refusal(Platform::Windows, &changes(&["A.bin"], &[], &["a.BIN"])),
        "changes.json 路径同时属于 added 和 deleted: [a.BIN]"
    );
    assert_eq!(refusal(unix, &changes(&["A.bin"], &[], &["a.BIN"])), "");
    assert_eq!(refusal(unix, &changes(&["lib"], &["lib2/x"], &["li"])), "");
}

#[test]
fn lists_are_read_in_order_and_noted() {
    let mut noted: Vec<Classified> = Vec::new();
    let list = normalize_paths(
        Platform::Windows,
        Classification::Added,
        &strings(&["Z.bin", "a/B"]),
        &mut noted,
    )
    .unwrap();
    assert_eq!(shown(&list), vec!["Z.bin", "a/B"]);
    assert_eq!(noted.len(), 2);
    assert_eq!(noted[0].key, "z.bin");
    assert_eq!(noted[1].key, "a/b");
    assert_eq!(noted[1].class, Classification::Added);
    assert!(validate_non_overlapping_paths(&noted).is_ok());
    let error = normalize_paths(
        Platform::Windows,
        Classification::Deleted,
        &strings(&["new", "A/b"]),
        &mut noted,
    )
    .unwrap_err();
    assert_eq!(
        error.message(),
        "changes.json 路径同时属于 added 和 deleted: [A/b]"
    );
    assert_eq!(noted.len(), 3);
}

#[test]
fn an_incremental_plan_is_sorted_and_holds_what_is_there() {
    let declared = changes(&["z/new"], &["m"], &["a/old", "b/gone"]);
    let staged = vec![relative("z/new"), relative("m")];
    let installed = vec![relative("m"), relative("a/old")];
    let plan =
        build_incremental_plan(Platform::Unix, "/s", "/t", &declared, &staged, &installed).unwrap();
    assert_eq!(shown(&plan.backup), vec!["a/old", "m"]);
    assert_eq!(shown(&plan.apply), vec!["m", "z/new"]);
    let conflict = vec![relative("m"), relative("z/new")];
    assert_eq!(
        build_incremental_plan(Platform::Unix, "/s", "/t", &declared, &staged, &conflict)
            .unwrap_err()
            .message(),
        "changes.json 将已存在路径声明为 added: [/t/z/new]"
    );
}

#[test]
fn a_full_plan_leaves_reserved_entries_out() {
    let entries = |names: &[&str]| -> Vec<Listed> {
        names.iter().map(|n| Listed::Name(n.to_string())).collect()
    };
    let names = ["b", "cache", "Config", "changes.json", "a", ".update-tx", "logs", "debug"];
    assert_eq!(
        shown(&full_update_entries(Platform::Unix, &entries(&names)).unwrap()),
        vec!["Config", "a", "b"]
    );
    assert_eq!(
        shown(&full_update_entries(Platform::Windows, &entries(&names)).unwrap()),
        vec!["a", "b"]
    );
    let mut torn = entries(&["a"]);
    torn.push(Listed::Failed("first".to_string()));
    torn.push(Listed::Failed("second".to_string()));
    assert_eq!(full_update_entries(Platform::Unix, &torn).unwrap_err(), "first");
    let plan = build_update_plan(
        Platform::Unix,
        "/s",
        "/t",
        &Package::Full {
            entries: entries(&["b", "a"]),
        },
    )
    .unwrap();
    assert_eq!(shown(&plan.backup), vec!["a", "b"]);
    assert_eq!(shown(&plan.apply), vec!["a", "b"]);
}

fn prepare(package: Package) -> Result<PreparedUpdate, String> {
    PreparedUpdate::prepare(
        Platform::Unix,
        "/s",
        "/t",
        &Survey {
            staging_is_dir: true,
            target_is_dir: true,
            package,
        },
    )
}

#[test]
fn a_package_that_cannot_be_read_is_refused() {
    assert_eq!(
        prepare(Package::Unlisted {
            error: "denied".to_string()
        })
        .unwrap_err(),
        "无法读取更新暂存目录 [/s]: denied"
    );
    assert_eq!(
        prepare(Package::Full {
            entries: vec![Listed::Failed("gone".to_string())]
        })
        .unwrap_err(),
        "无法读取更新暂存目录条目: gone"
    );
    assert_eq!(
        prepare(Package::UnreadableManifest {
            error: "denied".to_string()
        })
        .unwrap_err(),
        "无法读取 changes.json [/s/changes.json]: denied"
    );
    assert_eq!(
        prepare(Package::InvalidManifest {
            error: "eof".to_string()
        })
        .unwrap_err(),
        "无法解析 changes.json [/s/changes.json]: eof"
    );
}

#[test]
fn a_prepared_update_keeps_its_directories() {
    let prepared = prepare(Package::Full { entries: vec![] }).unwrap();
    assert_eq!(prepared.staging, "/s");
    assert_eq!(prepared.target, "/t");
    assert_eq!(prepared.platform, Platform::Unix);
    assert!(prepared.plan.backup.is_empty() && prepared.plan.apply.is_empty());
}

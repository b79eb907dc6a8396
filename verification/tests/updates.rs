//! Updates from end to end, on a disk that is kept in memory.

use std::collections::{BTreeMap, BTreeSet};

use staged_update::artifacts::{cleanup_extract_dir, cleanup_update_artifacts};
use staged_update::changes::ChangesJson;
use staged_update::cleanup::cleanup_dir_contents;
use staged_update::copy::{copy_dir_contents, copy_dir_recursive, copy_entry, TreeCopy};
use staged_update::disk::{IoFailure, Listed, Reply, Request};
use staged_update::fallback::fallback_update;
use staged_update::old_files::{move_file_to_old, move_to_old_folder};
use staged_update::path::{Platform, TRANSACTION_DIR};
use staged_update::plan::{PreparedUpdate, Survey};
use staged_update::remove::remove_path_if_exists;
use staged_update::rename::rename_with_retry;
use staged_update::survey::{check_changes_json, survey_update};
use staged_update::sweep::cleanup_previous_committed_transactions;

struct Disk {
    platform: Platform,
    files: BTreeMap<String, Vec<u8>>,
    dirs: BTreeSet<String>,
    /// Files that cannot be renamed or read until this time.
    locks: BTreeMap<String, u64>,
    /// Paths that cannot be removed.
    stuck: BTreeSet<String>,
    /// Directories whose listing ends with an entry that cannot be read.
    torn: BTreeSet<String>,
    now: u64,
    renames: usize,
}

impl Disk {
    fn new(platform: Platform) -> Disk {
        Disk {
            platform,
            files: BTreeMap::new(),
            dirs: BTreeSet::new(),
            locks: BTreeMap::new(),
            stuck: BTreeSet::new(),
            torn: BTreeSet::new(),
            now: 0,
            renames: 0,
        }
    }

    fn separator(&self) -> char {
        match self.platform {
            Platform::Windows => '\\',
            Platform::Unix => '/',
        }
    }

    /// A path written with slashes, as it is on this platform.
    fn at(&self, path: &str) -> String {
        match self.platform {
            Platform::Windows => format!("C:{}", path.replace('/', "\\")),
            Platform::Unix => path.to_string(),
        }
    }

    fn mkdir(&mut self, path: &str) {
        let full = self.at(path);
        assert!(matches!(self.create_dir_all(&full), Reply::Done));
    }

    fn write(&mut self, path: &str, content: &str) {
        let full = self.at(path);
        if let Some(end) = full.rfind(self.separator()) {
            let parent = full[..end].to_string();
            assert!(matches!(self.create_dir_all(&parent), Reply::Done));
        }
        self.files.insert(full, content.as_bytes().to_vec());
    }

    fn read(&self, path: &str) -> Option<String> {
        self.files
            .get(&self.at(path))
            .map(|bytes| String::from_utf8(bytes.clone()).unwrap())
    }

    fn has(&self, path: &str) -> bool {
        self.present(&self.at(path))
    }

    fn present(&self, path: &str) -> bool {
        self.files.contains_key(path) || self.dirs.contains(path)
    }

    fn locked(&self, path: &str) -> bool {
        match self.locks.get(path) {
            Some(until) => self.now < *until,
            None => false,
        }
    }

    fn failure(message: &str, code: i32) -> Reply {
        Reply::Failed(IoFailure {
            message: format!("{} (os error {})", message, code),
            raw_os_error: Some(code),
        })
    }

    fn below(&self, path: &str) -> String {
        format!("{}{}", path, self.separator())
    }

    fn create_dir_all(&mut self, path: &str) -> Reply {
        if self.files.contains_key(path) {
            return Disk::failure("File exists", 17);
        }
        let mut end = 0;
        while let Some(next) = path[end..].find(self.separator()) {
            let part = path[..end + next].to_string();
            if self.files.contains_key(&part) {
                return Disk::failure("Not a directory", 20);
            }
            if !part.is_empty() {
                self.dirs.insert(part);
            }
            end = end + next + 1;
        }
        self.dirs.insert(path.to_string());
        Reply::Done
    }

    fn children(&self, path: &str) -> Vec<String> {
        let prefix = self.below(path);
        let mut names = BTreeSet::new();
        for full in self.files.keys().chain(self.dirs.iter()) {
            if let Some(rest) = full.strip_prefix(prefix.as_str()) {
                let name = rest.split(self.separator()).next().unwrap();
                if !name.is_empty() {
                    names.insert(name.to_string());
                }
            }
        }
        names.into_iter().collect()
    }

    fn remove_tree(&mut self, path: &str) -> Reply {
        let prefix = self.below(path);
        let held = self
            .stuck
            .iter()
            .any(|s| s.as_str() == path || s.starts_with(prefix.as_str()));
        if held {
            return Disk::failure("Access is denied", 5);
        }
        if !self.dirs.contains(path) {
            return Disk::failure("No such directory", 2);
        }
        self.files.retain(|p, _| !p.starts_with(prefix.as_str()));
        self.dirs
            .retain(|p| p != path && !p.starts_with(prefix.as_str()));
        Reply::Done
    }

    fn rename(&mut self, from: &str, to: &str) -> Reply {
        self.renames += 1;
        let prefix = self.below(from);
        let locked = self.locked(from)
            || self
                .locks
                .keys()
                .any(|p| p.starts_with(prefix.as_str()) && self.locked(p));
        if locked {
            return Disk::failure("The file is in use", 32);
        }
        if !self.present(from) {
            return Disk::failure("No such file", 2);
        }
        let parent = match to.rfind(self.separator()) {
            Some(end) => to[..end].to_string(),
            None => String::new(),
        };
        if !parent.is_empty() && !self.dirs.contains(&parent) {
            return Disk::failure("No such directory", 2);
        }
        if let Some(content) = self.files.remove(from) {
            self.files.insert(to.to_string(), content);
            return Reply::Done;
        }
        let moved_files: Vec<String> = self
            .files
            .keys()
            .filter(|p| p.starts_with(prefix.as_str()))
            .cloned()
            .collect();
        for path in moved_files {
            let content = self.files.remove(&path).unwrap();
            self.files
                .insert(format!("{}{}", to, &path[from.len()..]), content);
        }
        let moved_dirs: Vec<String> = self
            .dirs
            .iter()
            .filter(|p| p.as_str() == from || p.starts_with(prefix.as_str()))
            .cloned()
            .collect();
        for path in moved_dirs {
            self.dirs.remove(&path);
            self.dirs.insert(format!("{}{}", to, &path[from.len()..]));
        }
        Reply::Done
    }

    fn copy_tree(&mut self, mut copy: TreeCopy) -> Reply {
        while let Some(request) = copy.request() {
            let reply = self.perform(request);
            assert!(copy.accepts(&reply));
            copy.advance(reply);
        }
        Disk::plain(copy.outcome().unwrap())
    }

    fn plain(outcome: Result<(), String>) -> Reply {
        match outcome {
            Ok(()) => Reply::Done,
            Err(message) => Reply::Failed(IoFailure {
                message,
                raw_os_error: None,
            }),
        }
    }

    fn perform(&mut self, request: Request) -> Reply {
        match request {
            Request::Exists(path) => Reply::Flag(self.present(&path)),
            Request::IsDir(path) => Reply::Flag(self.dirs.contains(&path)),
            Request::IsFile(path) => Reply::Flag(self.files.contains_key(&path)),
            Request::CreateDirAll(path) => {
                if self.stuck.contains(&path) && !self.dirs.contains(&path) {
                    return Disk::failure("Access is denied", 5);
                }
                self.create_dir_all(&path)
            }
            Request::ReadDir(path) => {
                if !self.dirs.contains(&path) {
                    return Disk::failure("No such directory", 2);
                }
                let mut entries: Vec<Listed> = self
                    .children(&path)
                    .into_iter()
                    .map(Listed::Name)
                    .collect();
                if self.torn.contains(&path) {
                    entries.push(Listed::Failed("entry is gone".to_string()));
                }
                Reply::Listing(entries)
            }
            Request::ReadManifest(path) => self.read_manifest(&path),
            Request::RemoveFile(path) => {
                if self.stuck.contains(&path) {
                    return Disk::failure("Access is denied", 5);
                }
                match self.files.remove(&path) {
                    Some(_) => Reply::Done,
                    None => Disk::failure("No such file", 2),
                }
            }
            Request::RemoveDir(path) => {
                if !self.dirs.contains(&path) {
                    return Disk::failure("No such directory", 2);
                }
                if self.stuck.contains(&path) || !self.children(&path).is_empty() {
                    return Disk::failure("Directory not empty", 39);
                }
                self.dirs.remove(&path);
                Reply::Done
            }
            Request::RemoveDirAll(path) => self.remove_tree(&path),
            Request::Rename { from, to } => self.rename(&from, &to),
            Request::CopyFile { from, to } => {
                if self.locked(&from) {
                    return Disk::failure("The file is in use", 32);
                }
                match self.files.get(&from).cloned() {
                    Some(content) => {
                        self.files.insert(to, content);
                        Reply::Done
                    }
                    None => Disk::failure("No such file", 2),
                }
            }
            Request::Sleep(millis) => {
                self.now += millis;
                Reply::Done
            }
            Request::MarkCommitted { path, content } => {
                if self.stuck.contains(&path) {
                    return Disk::failure("Access is denied", 5);
                }
                self.files.insert(path, content.into_bytes());
                Reply::Done
            }
            Request::RenameWithRetry { from, to } => {
                let mut rename = rename_with_retry(self.platform, &from, &to);
                while let Some(request) = rename.request() {
                    let reply = self.perform(request);
                    assert!(rename.accepts(&reply));
                    rename.advance(reply);
                }
                match rename.outcome().unwrap() {
                    Ok(()) => Reply::Done,
                    Err(failure) => Reply::Failed(failure),
                }
            }
            Request::CopyEntry { from, to } => {
                let copy = copy_entry(self.platform, &from, &to);
                self.copy_tree(copy)
            }
            Request::CopyDirRecursive { from, to } => {
                let copy = copy_dir_recursive(self.platform, &from, &to);
                self.copy_tree(copy)
            }
            Request::CopyDirContents { from, to, skip } => {
                let copy = copy_dir_contents(self.platform, &from, &to, skip);
                self.copy_tree(copy)
            }
            Request::RemovePathIfExists(path) => {
                let mut removal = remove_path_if_exists(&path);
                while let Some(request) = removal.request() {
                    let reply = self.perform(request);
                    assert!(removal.accepts(&reply));
                    removal.advance(reply);
                }
                Disk::plain(removal.outcome().unwrap())
            }
            Request::SweepCommitted(base) => {
                let mut sweep = cleanup_previous_committed_transactions(self.platform, &base);
                while let Some(request) = sweep.request() {
                    let reply = self.perform(request);
                    assert!(sweep.accepts(&reply));
                    sweep.advance(reply);
                }
                Reply::Done
            }
            Request::CleanupDirContents(dir) => {
                self.clean(&dir);
                Reply::Done
            }
        }
    }

    fn clean(&mut self, dir: &str) -> (usize, usize) {
        let mut cleanup = cleanup_dir_contents(self.platform, dir);
        while let Some(request) = cleanup.request() {
            let reply = self.perform(request);
            assert!(cleanup.accepts(&reply));
            cleanup.advance(reply);
        }
        cleanup.counts()
    }

    fn read_manifest(&self, path: &str) -> Reply {
        let content = match self.files.get(path) {
            Some(bytes) => String::from_utf8(bytes.clone()).unwrap(),
            None => return Disk::failure("No such file", 2),
        };
        let value: serde_json::Value = match serde_json::from_str(&content) {
            Ok(value) => value,
            Err(error) => return Reply::Manifest(Err(error.to_string())),
        };
        let list = |name: &str| -> Vec<String> {
            match value.get(name).and_then(|v| v.as_array()) {
                Some(items) => items
                    .iter()
                    .map(|v| v.as_str().unwrap().to_string())
                    .collect(),
                None => Vec::new(),
            }
        };
        Reply::Manifest(Ok(ChangesJson {
            added: list("added"),
            modified: list("modified"),
            deleted: list("deleted"),
        }))
    }

    fn survey(&mut self, staging: &str, target: &str) -> Survey {
        let mut surveying = survey_update(self.platform, staging, target);
        while let Some(request) = surveying.request() {
            let reply = self.perform(request);
            assert!(surveying.accepts(&reply));
            surveying.advance(reply);
        }
        surveying.survey().unwrap()
    }

    /// Installs what is in `/tmp/staging` into `/tmp/MaaNTE`.
    fn install(&mut self) -> Result<(), String> {
        let staging = self.at("/tmp/staging");
        let target = self.at("/tmp/MaaNTE");
        let survey = self.survey(&staging, &target);
        let prepared = PreparedUpdate::prepare(self.platform, &staging, &target, &survey)?;
        let mut installation = prepared.install(4711);
        while let Some(request) = installation.request() {
            let reply = self.perform(request);
            assert!(installation.accepts(&reply));
            installation.advance(reply);
        }
        installation.outcome().unwrap()
    }

    fn transactions(&self) -> Vec<String> {
        let base = self.at(&format!("/tmp/MaaNTE/{}", TRANSACTION_DIR));
        self.children(&base)
    }
}

#[test]
fn full_update_replaces_managed_roots_and_preserves_mutable_data() {
    let mut disk = Disk::new(Platform::Unix);
    disk.write("/tmp/MaaNTE/python/runtime.pyd", "old-runtime");
    disk.write("/tmp/MaaNTE/config/user.json", "user-config");
    disk.write("/tmp/MaaNTE/cache/download.zip", "download");
    disk.write("/tmp/staging/python/runtime.pyd", "new-runtime");
    disk.write("/tmp/staging/config/default.json", "default-config");
    disk.write("/tmp/staging/cache/packaged.tmp", "packaged-cache");

    disk.install().unwrap();

    assert_eq!(
        disk.read("/tmp/MaaNTE/python/runtime.pyd").unwrap(),
        "new-runtime"
    );
    assert_eq!(
        disk.read("/tmp/MaaNTE/config/user.json").unwrap(),
        "user-config"
    );
    assert_eq!(
        disk.read("/tmp/MaaNTE/cache/download.zip").unwrap(),
        "download"
    );
    assert!(!disk.has("/tmp/MaaNTE/config/default.json"));
    assert!(!disk.has("/tmp/MaaNTE/cache/packaged.tmp"));
}

#[test]
fn incremental_update_applies_added_modified_and_deleted_paths() {
    let mut disk = Disk::new(Platform::Unix);
    disk.write("/tmp/MaaNTE/python/modified.pyd", "old-modified");
    disk.write("/tmp/MaaNTE/python/deleted.pyd", "old-deleted");
    disk.write("/tmp/MaaNTE/untouched.txt", "untouched");
    disk.write("/tmp/staging/python/modified.pyd", "new-modified");
    disk.write("/tmp/staging/python/added.pyd", "new-added");
    disk.write("/tmp/staging/unlisted.txt", "must-not-be-copied");
    disk.write(
        "/tmp/staging/changes.json",
        r#"{
                "added": ["python/added.pyd"],
                "modified": ["python/modified.pyd"],
                "deleted": ["python/deleted.pyd"]
            }"#,
    );

    disk.install().unwrap();

    assert_eq!(
        disk.read("/tmp/MaaNTE/python/modified.pyd").unwrap(),
        "new-modified"
    );
    assert_eq!(
        disk.read("/tmp/MaaNTE/python/added.pyd").unwrap(),
        "new-added"
    );
    assert!(!disk.has("/tmp/MaaNTE/python/deleted.pyd"));
    assert_eq!(
        disk.read("/tmp/MaaNTE/untouched.txt").unwrap(),
        "untouched"
    );
    assert!(!disk.has("/tmp/MaaNTE/unlisted.txt"));
}

#[test]
fn backup_retries_a_transient_windows_file_lock() {
    let mut disk = Disk::new(Platform::Windows);
    disk.write("/tmp/MaaNTE/runtime.pyd", "old-runtime");
    disk.write("/tmp/staging/runtime.pyd", "new-runtime");
    let locked = disk.at("/tmp/MaaNTE/runtime.pyd");
    disk.locks.insert(locked, 150);

    disk.install().unwrap();

    assert_eq!(
        disk.read("/tmp/MaaNTE/runtime.pyd").unwrap(),
        "new-runtime"
    );
    assert_eq!(disk.renames, 3);
    assert_eq!(disk.now, 150);
}

#[test]
fn a_new_update_cleans_the_previous_committed_transaction_once() {
    let mut disk = Disk::new(Platform::Unix);
    disk.write("/tmp/MaaNTE/runtime.pyd", "v1");
    disk.write("/tmp/staging/runtime.pyd", "v2");

    disk.install().unwrap();
    disk.write("/tmp/staging/runtime.pyd", "v3");
    disk.install().unwrap();

    let transactions = disk.transactions();
    assert_eq!(transactions.len(), 1);
    assert!(disk.has(&format!(
        "/tmp/MaaNTE/{}/{}/COMMITTED",
        TRANSACTION_DIR, transactions[0]
    )));
    assert_eq!(disk.read("/tmp/MaaNTE/runtime.pyd").unwrap(), "v3");
}

#[test]
fn apply_failure_restores_every_backed_up_root() {
    let mut disk = Disk::new(Platform::Windows);
    disk.write("/tmp/MaaNTE/a-runtime.bin", "old-a");
    disk.write("/tmp/MaaNTE/b-runtime.bin", "old-b");
    disk.write("/tmp/staging/a-runtime.bin", "new-a");
    disk.write("/tmp/staging/b-runtime.bin", "new-b");
    let locked = disk.at("/tmp/staging/b-runtime.bin");
    disk.locks.insert(locked, 1_000_000);

    let result = disk.install();

    assert!(result.is_err());
    assert_eq!(disk.read("/tmp/MaaNTE/a-runtime.bin").unwrap(), "old-a");
    assert_eq!(disk.read("/tmp/MaaNTE/b-runtime.bin").unwrap(), "old-b");
    assert_eq!(
        result.unwrap_err(),
        "应用更新失败: 无法复制更新文件 [C:\\tmp\\staging\\b-runtime.bin] -> \
         [C:\\tmp\\MaaNTE\\b-runtime.bin]: The file is in use (os error 32), raw_os_error=Some(32)"
    );
}

#[test]
fn incremental_added_conflict_aborts_before_creating_a_transaction() {
    let mut disk = Disk::new(Platform::Unix);
    disk.write("/tmp/MaaNTE/existing.bin", "user-data");
    disk.write("/tmp/staging/existing.bin", "package-data");
    disk.write(
        "/tmp/staging/changes.json",
        r#"{"added":["existing.bin"],"modified":[],"deleted":[]}"#,
    );

    let result = disk.install();

    assert!(result.is_err());
    assert_eq!(
        disk.read("/tmp/MaaNTE/existing.bin").unwrap(),
        "user-data"
    );
    assert!(!disk.has(&format!("/tmp/MaaNTE/{}", TRANSACTION_DIR)));
}

#[test]
fn incremental_path_traversal_is_rejected_before_target_writes() {
    let mut disk = Disk::new(Platform::Unix);
    disk.mkdir("/tmp/MaaNTE");
    disk.write(
        "/tmp/staging/changes.json",
        r#"{"added":[],"modified":[],"deleted":["../outside.bin"]}"#,
    );

    let result = disk.install();

    assert!(result.is_err());
    assert!(!disk.has(&format!("/tmp/MaaNTE/{}", TRANSACTION_DIR)));
}

#[test]
fn incremental_parent_and_child_paths_are_rejected_before_target_writes() {
    let mut disk = Disk::new(Platform::Unix);
    disk.write("/tmp/MaaNTE/python/runtime.pyd", "old-runtime");
    disk.write("/tmp/staging/python/runtime.pyd", "new-runtime");
    disk.write(
        "/tmp/staging/changes.json",
        r#"{
                "added": [],
                "modified": ["python"],
                "deleted": ["python/runtime.pyd"]
            }"#,
    );

    let result = disk.install();

    assert!(result.is_err());
    assert_eq!(
        disk.read("/tmp/MaaNTE/python/runtime.pyd").unwrap(),
        "old-runtime"
    );
    assert!(!disk.has(&format!("/tmp/MaaNTE/{}", TRANSACTION_DIR)));
}

#[test]
fn incremental_reserved_paths_are_case_insensitive_on_windows() {
    let mut disk = Disk::new(Platform::Windows);
    disk.mkdir("/tmp/MaaNTE");
    disk.write("/tmp/staging/CACHE/package.tmp", "package-data");
    disk.write(
        "/tmp/staging/changes.json",
        r#"{"added":["CACHE/package.tmp"],"modified":[],"deleted":[]}"#,
    );

    let result = disk.install();

    assert!(result.is_err());
    assert!(!disk.has(&format!("/tmp/MaaNTE/{}", TRANSACTION_DIR)));
}

#[test]
fn a_lock_that_does_not_pass_fails_the_backup_and_restores_what_was_moved() {
    let mut disk = Disk::new(Platform::Windows);
    disk.write("/tmp/MaaNTE/a.bin", "old-a");
    disk.write("/tmp/MaaNTE/b.bin", "old-b");
    disk.write("/tmp/staging/a.bin", "new-a");
    disk.write("/tmp/staging/b.bin", "new-b");
    let locked = disk.at("/tmp/MaaNTE/b.bin");
    disk.locks.insert(locked, 1_000_000);

    let message = disk.install().unwrap_err();

    assert!(message.starts_with("更新备份失败: [C:\\tmp\\MaaNTE\\b.bin] -> ["));
    assert!(message.ends_with(
        "\\backup\\b.bin], error=The file is in use (os error 32), raw_os_error=Some(32)"
    ));
    assert_eq!(disk.now, 750);
    assert_eq!(disk.read("/tmp/MaaNTE/a.bin").unwrap(), "old-a");
    assert_eq!(disk.read("/tmp/MaaNTE/b.bin").unwrap(), "old-b");
}

#[test]
fn a_failed_transaction_is_not_swept() {
    let mut disk = Disk::new(Platform::Windows);
    disk.write("/tmp/MaaNTE/a.bin", "old-a");
    disk.write("/tmp/staging/a.bin", "new-a");
    let locked = disk.at("/tmp/staging/a.bin");
    disk.locks.insert(locked.clone(), 1_000_000);
    assert!(disk.install().is_err());
    disk.locks.remove(&locked);
    disk.install().unwrap();
    assert_eq!(disk.transactions().len(), 2);
    assert_eq!(disk.read("/tmp/MaaNTE/a.bin").unwrap(), "new-a");
}

#[test]
fn going_back_reports_what_could_not_be_undone() {
    let mut disk = Disk::new(Platform::Unix);
    disk.write("/tmp/MaaNTE/a.bin", "old-a");
    disk.write("/tmp/staging/a.bin", "new-a");
    disk.write("/tmp/staging/b.bin", "new-b");
    let locked = disk.at("/tmp/staging/b.bin");
    disk.locks.insert(locked, 1_000_000);
    let stuck = disk.at("/tmp/MaaNTE/a.bin");
    disk.stuck.insert(stuck);

    let message = disk.install().unwrap_err();

    assert!(message.starts_with("应用更新失败: 无法复制更新文件 ["));
    assert!(message.contains(
        "; 回滚也失败: [/tmp/MaaNTE/a.bin]: Access is denied (os error 5), raw_os_error=Some(5)"
    ));
}

#[test]
fn what_an_update_replaces_stays_in_its_transaction() {
    let mut disk = Disk::new(Platform::Unix);
    disk.write("/tmp/MaaNTE/a.bin", "old-a");
    disk.write("/tmp/staging/a.bin", "new-a");
    disk.install().unwrap();
    let transaction = disk.transactions()[0].clone();
    assert!(disk.has(&format!(
        "/tmp/MaaNTE/{}/{}/backup/a.bin",
        TRANSACTION_DIR, transaction
    )));
    assert!(transaction.ends_with("-4711"));
}

#[test]
fn missing_directories_are_reported() {
    let mut disk = Disk::new(Platform::Unix);
    assert_eq!(
        disk.install().unwrap_err(),
        "更新暂存目录不存在: [/tmp/staging]"
    );
    disk.mkdir("/tmp/staging");
    assert_eq!(
        disk.install().unwrap_err(),
        "更新目标目录不存在: [/tmp/MaaNTE]"
    );
}

#[test]
fn declared_files_must_be_staged_and_modified_files_installed() {
    let mut disk = Disk::new(Platform::Unix);
    disk.mkdir("/tmp/MaaNTE");
    disk.write(
        "/tmp/staging/changes.json",
        r#"{"added":["a/new.bin"],"modified":[],"deleted":[]}"#,
    );
    assert_eq!(
        disk.install().unwrap_err(),
        "changes.json 声明的新文件不存在: [/tmp/staging/a/new.bin]"
    );
    disk.write("/tmp/staging/b.bin", "b");
    disk.write(
        "/tmp/staging/changes.json",
        r#"{"added":[],"modified":["b.bin"],"deleted":[]}"#,
    );
    assert_eq!(
        disk.install().unwrap_err(),
        "changes.json 将不存在路径声明为 modified: [/tmp/MaaNTE/b.bin]"
    );
}

#[test]
fn a_deleted_path_that_is_not_there_is_no_error() {
    let mut disk = Disk::new(Platform::Unix);
    disk.mkdir("/tmp/MaaNTE");
    disk.write(
        "/tmp/staging/changes.json",
        r#"{"added":[],"modified":[],"deleted":["gone.bin"]}"#,
    );
    disk.install().unwrap();
    assert!(!disk.has("/tmp/MaaNTE/gone.bin"));
}

#[test]
fn a_directory_is_replaced_as_a_whole() {
    let mut disk = Disk::new(Platform::Unix);
    disk.write("/tmp/MaaNTE/lib/old/only.bin", "old");
    disk.write("/tmp/staging/lib/new/deep/file.bin", "new");
    disk.install().unwrap();
    assert!(!disk.has("/tmp/MaaNTE/lib/old/only.bin"));
    assert_eq!(
        disk.read("/tmp/MaaNTE/lib/new/deep/file.bin").unwrap(),
        "new"
    );
}

#[test]
fn empty_directories_are_installed_too() {
    let mut disk = Disk::new(Platform::Unix);
    disk.mkdir("/tmp/MaaNTE/python/stale");
    disk.mkdir("/tmp/MaaNTE/config/kept");
    disk.mkdir("/tmp/staging/python/fresh/deep");
    disk.write("/tmp/staging/python/x.py", "x");
    disk.install().unwrap();
    assert!(disk.has("/tmp/MaaNTE/python/fresh/deep"));
    assert!(!disk.has("/tmp/MaaNTE/python/stale"));
    assert!(disk.has("/tmp/MaaNTE/config/kept"));

    let mut disk = Disk::new(Platform::Unix);
    disk.mkdir("/tmp/MaaNTE/old/empty");
    disk.mkdir("/tmp/staging/a/b/empty");
    disk.mkdir("/tmp/staging/unlisted");
    disk.write(
        "/tmp/staging/changes.json",
        r#"{"added":["a/b"],"modified":[],"deleted":["old"]}"#,
    );
    disk.install().unwrap();
    assert!(disk.has("/tmp/MaaNTE/a/b/empty"));
    assert!(!disk.has("/tmp/MaaNTE/old"));
    assert!(!disk.has("/tmp/MaaNTE/unlisted"));
}

#[test]
fn a_manifest_that_does_not_parse_is_reported() {
    let mut disk = Disk::new(Platform::Unix);
    disk.mkdir("/tmp/MaaNTE");
    disk.write("/tmp/staging/changes.json", "{");
    let message = disk.install().unwrap_err();
    assert!(message.starts_with("无法解析 changes.json [/tmp/staging/changes.json]: EOF"));
}

#[test]
fn a_manifest_is_looked_up() {
    let mut disk = Disk::new(Platform::Unix);
    disk.mkdir("/full");
    disk.write("/incremental/changes.json", r#"{"added":["a"],"deleted":["b"]}"#);
    disk.write("/broken/changes.json", "[");
    let mut look = |dir: &str| {
        let mut check = check_changes_json(Platform::Unix, dir);
        while let Some(request) = check.request() {
            let reply = disk.perform(request);
            assert!(check.accepts(&reply));
            check.advance(reply);
        }
        check.outcome().unwrap()
    };
    assert!(look("/full").unwrap().is_none());
    let changes = look("/incremental").unwrap().unwrap();
    assert_eq!(changes.added, vec!["a"]);
    assert!(changes.modified.is_empty());
    assert_eq!(changes.deleted, vec!["b"]);
    assert!(look("/broken").unwrap_err().starts_with("无法解析 changes.json: "));
    let mut check = check_changes_json(Platform::Unix, "/gone");
    check.advance(Reply::Flag(true));
    check.advance(Disk::failure("No such file", 2));
    assert_eq!(
        check.outcome().unwrap().unwrap_err(),
        "无法读取 changes.json: No such file (os error 2)"
    );
}

#[test]
fn a_survey_asks_for_what_a_plan_needs() {
    let mut surveying = survey_update(Platform::Unix, "/s", "/t");
    let mut seen = Vec::new();
    while let Some(request) = surveying.request() {
        seen.push(format!("{:?}", request));
        let reply = match request {
            Request::ReadManifest(_) => Reply::Manifest(Ok(ChangesJson {
                added: vec!["n".to_string()],
                modified: vec!["z".to_string(), "m".to_string()],
                deleted: vec!["d".to_string()],
            })),
            Request::Exists(path) => Reply::Flag(path != "/t/n"),
            _ => Reply::Flag(true),
        };
        assert!(surveying.accepts(&reply));
        surveying.advance(reply);
    }
    assert_eq!(
        seen,
        vec![
            "IsDir(\"/s\")",
            "IsDir(\"/t\")",
            "Exists(\"/s/changes.json\")",
            "ReadManifest(\"/s/changes.json\")",
            "Exists(\"/s/n\")",
            "Exists(\"/s/m\")",
            "Exists(\"/s/z\")",
            "Exists(\"/t/n\")",
            "Exists(\"/t/m\")",
            "Exists(\"/t/z\")",
            "Exists(\"/t/d\")",
        ]
    );
    let survey = surveying.survey().unwrap();
    let prepared = PreparedUpdate::prepare(Platform::Unix, "/s", "/t", &survey).unwrap();
    let shown = |list: &Vec<staged_update::path::RelativePath>| -> Vec<String> {
        list.iter().map(|p| p.parts.join("/")).collect()
    };
    assert_eq!(shown(&prepared.plan.backup), vec!["d", "m", "z"]);
    assert_eq!(shown(&prepared.plan.apply), vec!["m", "n", "z"]);
}

#[test]
fn a_survey_of_a_refused_manifest_looks_for_nothing() {
    let mut surveying = survey_update(Platform::Unix, "/s", "/t");
    for reply in [
        Reply::Flag(true),
        Reply::Flag(true),
        Reply::Flag(true),
        Reply::Manifest(Ok(ChangesJson {
            added: vec!["a".to_string()],
            modified: vec![],
            deleted: vec!["a/b".to_string()],
        })),
    ] {
        assert!(surveying.accepts(&reply));
        surveying.advance(reply);
    }
    assert!(surveying.request().is_none());
    assert_eq!(
        PreparedUpdate::prepare(Platform::Unix, "/s", "/t", &surveying.survey().unwrap()).unwrap_err(),
        "changes.json 包含相互重叠的路径: added [a] 与 deleted [a/b]"
    );
}

#[test]
fn cleanup_counts_files_and_directories() {
    let mut disk = Disk::new(Platform::Unix);
    disk.write("/d/a.txt", "a");
    disk.write("/d/sub/b.txt", "b");
    assert_eq!(disk.clean("/d"), (3, 0));
    assert!(!disk.has("/d"));
    disk.write("/e/a.txt", "a");
    disk.write("/e/sub/b.txt", "b");
    disk.write("/e/sub/deep/c.txt", "c");
    disk.mkdir("/e/empty");
    assert_eq!(disk.clean("/e"), (6, 0));
    assert!(!disk.has("/e"));
}

#[test]
fn cleanup_counts_what_cannot_be_removed() {
    let mut disk = Disk::new(Platform::Unix);
    disk.write("/d/a.txt", "a");
    disk.write("/d/sub/b.txt", "b");
    disk.stuck.insert("/d/sub/b.txt".to_string());
    disk.torn.insert("/d".to_string());
    assert_eq!(disk.clean("/d"), (1, 4));
    assert!(disk.has("/d/sub/b.txt"));
    assert!(!disk.has("/d/a.txt"));
    assert_eq!(disk.clean("/missing"), (0, 1));
}

#[test]
fn cleanup_tries_a_directory_that_stays_once_more() {
    let mut cleanup = cleanup_dir_contents(Platform::Unix, "/d");
    for (expected, reply) in [
        ("ReadDir(\"/d\")", Reply::Listing(vec![Listed::Name("sub".to_string())])),
        ("IsDir(\"/d/sub\")", Reply::Flag(true)),
        ("ReadDir(\"/d/sub\")", Reply::Listing(vec![])),
        ("RemoveDir(\"/d/sub\")", Disk::failure("Busy", 16)),
        ("Exists(\"/d/sub\")", Reply::Flag(true)),
        ("RemoveDir(\"/d/sub\")", Reply::Done),
        ("RemoveDir(\"/d\")", Disk::failure("Gone", 2)),
        ("Exists(\"/d\")", Reply::Flag(false)),
    ] {
        assert_eq!(format!("{:?}", cleanup.request().unwrap()), expected);
        assert!(cleanup.accepts(&reply));
        cleanup.advance(reply);
    }
    assert!(cleanup.request().is_none());
    assert_eq!(cleanup.counts(), (1, 0));
}

fn move_old(disk: &mut Disk, source: &str, exe: Result<&str, &str>) -> Result<(), String> {
    let mut moving = move_to_old_folder(
        disk.platform,
        source,
        match exe {
            Ok(dir) => Ok(dir.to_string()),
            Err(error) => Err(error.to_string()),
        },
    );
    while let Some(request) = moving.request() {
        let reply = disk.perform(request);
        assert!(moving.accepts(&reply));
        moving.advance(reply);
    }
    moving.outcome().unwrap()
}

#[test]
fn a_file_is_moved_to_the_old_folder() {
    let mut disk = Disk::new(Platform::Unix);
    disk.write("/app/tool.exe", "tool");
    disk.write("/app/cache/old/earlier.exe", "earlier");
    move_old(&mut disk, "/app/tool.exe", Ok("/app")).unwrap();
    assert!(!disk.has("/app/tool.exe"));
    assert!(!disk.has("/app/cache/old/earlier.exe"));
    assert_eq!(disk.read("/app/cache/old/tool.exe").unwrap(), "tool");
}

#[test]
fn a_taken_name_gets_the_first_free_suffix() {
    let mut disk = Disk::new(Platform::Unix);
    disk.write("/app/tool.exe", "new");
    disk.write("/app/cache/old/tool.exe", "one");
    disk.write("/app/cache/old/tool.exe.bak001", "two");
    disk.stuck.insert("/app/cache/old/tool.exe".to_string());
    disk.stuck.insert("/app/cache/old/tool.exe.bak001".to_string());
    move_old(&mut disk, "/app/tool.exe", Ok("/app")).unwrap();
    assert_eq!(
        disk.read("/app/cache/old/tool.exe.bak002").unwrap(),
        "new"
    );
    assert_eq!(disk.read("/app/cache/old/tool.exe").unwrap(), "one");
}

#[test]
fn the_last_suffix_is_used_where_all_names_are_taken() {
    let mut disk = Disk::new(Platform::Unix);
    disk.write("/app/t", "new");
    disk.write("/app/cache/old/t", "x");
    disk.stuck.insert("/app/cache/old/t".to_string());
    for i in 1..=999 {
        let path = format!("/app/cache/old/t.bak{:03}", i);
        disk.write(&path, "x");
        disk.stuck.insert(path);
    }
    move_old(&mut disk, "/app/t", Ok("/app")).unwrap();
    assert_eq!(disk.read("/app/cache/old/t.bak999").unwrap(), "new");
    assert_eq!(disk.read("/app/cache/old/t.bak998").unwrap(), "x");
}

#[test]
fn moves_report_what_fails() {
    let mut disk = Disk::new(Platform::Unix);
    assert_eq!(move_old(&mut disk, "/app/none", Err("no exe")), Ok(()));
    disk.write("/app/t", "t");
    assert_eq!(
        move_old(&mut disk, "/app/t", Err("no exe")),
        Err("no exe".to_string())
    );
    disk.mkdir("/app/..");
    assert_eq!(
        move_old(&mut disk, "/app/..", Ok("/app")),
        Err("无法获取文件名: /app/..".to_string())
    );
    disk.locks.insert("/app/t".to_string(), 10);
    assert_eq!(
        move_old(&mut disk, "/app/t", Ok("/app")),
        Err("无法移动 [/app/t] -> [/app/cache/old/t]: The file is in use (os error 32)".to_string())
    );
    disk.write("/exe/cache", "a file in the way");
    disk.locks.clear();
    assert_eq!(
        move_old(&mut disk, "/app/t", Ok("/exe")),
        Err("无法创建 old 目录 [/exe/cache/old]: Not a directory (os error 20)".to_string())
    );
}

#[test]
fn a_path_given_as_text_is_moved_in_the_same_way() {
    let moving = move_file_to_old(
        Platform::Windows,
        "C:\\app\\t.exe".to_string(),
        Ok("C:\\app".to_string()),
    );
    assert!(matches!(moving.request(), Some(Request::Exists(p)) if p == "C:\\app\\t.exe"));
}

fn fall_back(disk: &mut Disk, version: &str) -> Result<String, String> {
    let mut fallback = fallback_update(
        disk.platform,
        "/x".to_string(),
        "/app".to_string(),
        version.to_string(),
    );
    while let Some(request) = fallback.request() {
        let reply = disk.perform(request);
        assert!(fallback.accepts(&reply));
        fallback.advance(reply);
    }
    fallback.outcome().unwrap()
}

#[test]
fn a_fallback_goes_to_a_folder_of_its_own() {
    let mut disk = Disk::new(Platform::Unix);
    disk.write("/x/bin/tool", "new");
    disk.write("/x/changes.json", "{}");
    disk.write("/x/bin/changes.json", "kept");
    disk.write("/app/config/user.json", "user");
    assert_eq!(fall_back(&mut disk, "v1.2.3"), Ok("/app/v1.2.3".to_string()));
    assert_eq!(disk.read("/app/v1.2.3/bin/tool").unwrap(), "new");
    assert_eq!(disk.read("/app/v1.2.3/bin/changes.json").unwrap(), "kept");
    assert!(!disk.has("/app/v1.2.3/changes.json"));
    assert_eq!(disk.read("/app/v1.2.3/config/user.json").unwrap(), "user");
    assert_eq!(fall_back(&mut disk, "1.2.3"), Ok("/app/v1.2.3-1".to_string()));
    assert_eq!(fall_back(&mut disk, "vvv1.2.3"), Ok("/app/v1.2.3-2".to_string()));
}

#[test]
fn a_fallback_reports_what_fails_but_passes_over_the_configuration() {
    let mut disk = Disk::new(Platform::Unix);
    disk.write("/x/tool", "new");
    disk.write("/app/config/user.json", "user");
    disk.locks.insert("/app/config/user.json".to_string(), 10);
    assert_eq!(fall_back(&mut disk, "2"), Ok("/app/v2".to_string()));
    assert!(!disk.has("/app/v2/config/user.json"));
    disk.locks.insert("/x/tool".to_string(), 10);
    assert_eq!(
        fall_back(&mut disk, "3"),
        Err("无法复制文件 [/x/tool] -> [/app/v3/tool]: The file is in use (os error 32)".to_string())
    );
    disk.stuck.insert("/app/v4".to_string());
    assert_eq!(
        fall_back(&mut disk, "4"),
        Err("无法创建兜底目录: Access is denied (os error 5)".to_string())
    );
}

#[test]
fn artifacts_are_removed_and_nothing_else() {
    let mut disk = Disk::new(Platform::Unix);
    disk.write("/app/changes.json", "{}");
    disk.write("/app/tool", "tool");
    disk.write("/cache/a.zip.downloading", "x");
    disk.write("/cache/a.zip", "x");
    disk.write("/cache/sub.downloading/b.downloading", "x");
    let mut cleanup = cleanup_update_artifacts(Platform::Unix, "/app", "/cache");
    while let Some(request) = cleanup.request() {
        let reply = disk.perform(request);
        assert!(cleanup.accepts(&reply));
        cleanup.advance(reply);
    }
    assert!(!disk.has("/app/changes.json"));
    assert!(disk.has("/app/tool"));
    assert!(!disk.has("/cache/a.zip.downloading"));
    assert!(disk.has("/cache/a.zip"));
    assert!(disk.has("/cache/sub.downloading/b.downloading"));
}

#[test]
fn an_extracted_package_is_removed() {
    let mut disk = Disk::new(Platform::Unix);
    disk.write("/x/a/b", "x");
    for _ in 0..2 {
        let mut cleanup = cleanup_extract_dir("/x");
        while let Some(request) = cleanup.request() {
            let reply = disk.perform(request);
            assert!(cleanup.accepts(&reply));
            cleanup.advance(reply);
        }
        assert_eq!(cleanup.outcome(), Some(Ok(())));
        assert!(!disk.has("/x"));
    }
    disk.write("/x/a/b", "x");
    disk.stuck.insert("/x/a/b".to_string());
    let mut cleanup = cleanup_extract_dir("/x");
    while let Some(request) = cleanup.request() {
        let reply = disk.perform(request);
        cleanup.advance(reply);
    }
    assert_eq!(
        cleanup.outcome(),
        Some(Err("无法清理目录 [/x]: Access is denied (os error 5)".to_string()))
    );
}

#[test]
fn copies_report_what_fails() {
    let mut disk = Disk::new(Platform::Unix);
    disk.write("/s/sub/f", "f");
    disk.torn.insert("/s/sub".to_string());
    let copy = copy_entry(Platform::Unix, "/s", "/t");
    match disk.copy_tree(copy) {
        Reply::Failed(failure) => assert_eq!(failure.message, "无法读取更新目录条目: entry is gone"),
        _ => panic!(),
    }
    assert_eq!(disk.read("/t/sub/f").unwrap(), "f");
    let copy = copy_dir_recursive(Platform::Unix, "/none", "/u");
    match disk.copy_tree(copy) {
        Reply::Failed(failure) => {
            assert_eq!(failure.message, "无法读取目录 [/none]: No such directory (os error 2)")
        }
        _ => panic!(),
    }
    disk.write("/w", "a file");
    let copy = copy_dir_contents(Platform::Unix, "/s", "/w", vec![]);
    match disk.copy_tree(copy) {
        Reply::Failed(failure) => {
            assert_eq!(failure.message, "无法创建目录 [/w]: File exists (os error 17)")
        }
        _ => panic!(),
    }
    disk.write("/f", "f");
    let copy = copy_entry(Platform::Unix, "/f", "/w/x/f");
    match disk.copy_tree(copy) {
        Reply::Failed(failure) => assert_eq!(
            failure.message,
            "无法创建更新父目录 [/w/x]: Not a directory (os error 20)"
        ),
        _ => panic!(),
    }
    let copy = copy_entry(Platform::Unix, "/s", "/w/x");
    match disk.copy_tree(copy) {
        Reply::Failed(failure) => {
            assert_eq!(failure.message, "无法创建更新目录 [/w/x]: Not a directory (os error 20)")
        }
        _ => panic!(),
    }
}

#[test]
fn a_removal_reports_what_fails() {
    let mut disk = Disk::new(Platform::Unix);
    disk.write("/a/b", "b");
    disk.stuck.insert("/a/b".to_string());
    match disk.perform(Request::RemovePathIfExists("/a/b".to_string())) {
        Reply::Failed(failure) => assert_eq!(
            failure.message,
            "Access is denied (os error 5), raw_os_error=Some(5)"
        ),
        _ => panic!(),
    }
    assert!(matches!(
        disk.perform(Request::RemovePathIfExists("/none".to_string())),
        Reply::Done
    ));
    disk.stuck.clear();
    assert!(matches!(
        disk.perform(Request::RemovePathIfExists("/a".to_string())),
        Reply::Done
    ));
    assert!(!disk.has("/a/b"));
}

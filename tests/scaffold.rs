use rustskeleton::app::{cargo_manifest, files_to_be_created, main_template, App};
use rustskeleton::args::AppArguments;
use rustskeleton::file_manager::{
    DiskEntry, DiskEntryType, ErrorKind, FileManager, Found, FsStep, Presence, ScaffoldError,
};
use rustskeleton::paths::{is_within_path, join_paths, parent_path};
use std::collections::BTreeMap;

#[derive(Debug, Clone, PartialEq)]
enum Node {
    Dir,
    File(Vec<u8>),
}

/// Carries out the steps on an in-memory disk.
fn apply(disk: &mut BTreeMap<String, Node>, steps: &[FsStep]) {
    for step in steps {
        match step {
            FsStep::CreateDirAll(p) => {
                for (i, c) in p.char_indices() {
                    if c == '/' && i > 0 {
                        disk.entry(p[..i].to_string()).or_insert(Node::Dir);
                    }
                }
                disk.entry(p.clone()).or_insert(Node::Dir);
            }
            FsStep::CreateFile(p) => {
                disk.insert(p.clone(), Node::File(Vec::new()));
            }
            FsStep::WriteFile(p, b) => {
                disk.insert(p.clone(), Node::File(b.clone()));
            }
        }
    }
}

fn expected_manifest(name: &str, details: &str) -> String {
    format!(
        "[package]\nname = \"{}\"\nversion = \"0.1.0\"\nauthors = [\"Your Name\"]\ndescription = \"{}",
        name, details
    )
}

const MAIN_SRC: &str = "fn main() {\n    println!(\"Hello, world!\");\n}";

fn setup(base: &str) -> App {
    let args = AppArguments::new("test_project", "test details", Some(base.to_owned()));
    App::new(&args)
}

fn file_at(disk: &BTreeMap<String, Node>, p: &str) -> Vec<u8> {
    match disk.get(p) {
        Some(Node::File(b)) => b.clone(),
        other => panic!("no file at {}: {:?}", p, other),
    }
}

#[test]
fn test_app_run_success() {
    let app = setup("/tmp/base");
    let result = app.run("/elsewhere", false);
    assert!(result.is_ok());
    assert_eq!(result.unwrap().0, "/tmp/base/test_project");
}

#[test]
fn test_app_run_fails_folder_exists() {
    let app = setup("/tmp/base");
    let mut disk = BTreeMap::new();
    disk.insert("/tmp".to_string(), Node::Dir);
    disk.insert("/tmp/base".to_string(), Node::Dir);
    let result = app.run("/", disk.contains_key("/tmp/base/test_project"));
    assert!(result.is_ok());
    let (_, steps) = result.unwrap();
    apply(&mut disk, &steps);
    let before = disk.clone();
    let result2 = app.run("/", disk.contains_key("/tmp/base/test_project"));
    assert!(result2.is_err());
    assert_eq!(
        result2.unwrap_err().message(),
        format!("Error: Folder already exists. Please choose a different location.")
    );
    assert_eq!(disk, before);
}

#[test]
fn test_file_contents() {
    let app = setup("/tmp/base");
    let mut disk = BTreeMap::new();
    let (root, steps) = app.run("/", false).unwrap();
    apply(&mut disk, &steps);
    let cargo = file_at(&disk, &format!("{}/Cargo.toml", root));
    let main = file_at(&disk, &format!("{}/src/main.rs", root));
    assert_eq!(
        String::from_utf8(cargo).unwrap(),
        expected_manifest("test_project", "test details")
    );
    assert_eq!(String::from_utf8(main).unwrap(), MAIN_SRC);
}

#[test]
fn end_to_end_layout() {
    let args = AppArguments::new("demo", "a test", Some("/tmp/work".to_owned()));
    let app = App::new(&args);
    let mut disk = BTreeMap::new();
    let (root, steps) = app.run("/", false).unwrap();
    assert_eq!(root, "/tmp/work/demo");
    apply(&mut disk, &steps);
    for d in ["/tmp/work/demo", "/tmp/work/demo/src", "/tmp/work/demo/src/application",
        "/tmp/work/demo/src/domain", "/tmp/work/demo/src/infrastructure"]
    {
        assert_eq!(disk.get(d), Some(&Node::Dir), "{}", d);
    }
    for m in ["application", "domain", "infrastructure"] {
        assert!(file_at(&disk, &format!("/tmp/work/demo/src/{}/mod.rs", m)).is_empty());
    }
    assert_eq!(file_at(&disk, "/tmp/work/demo/src/main.rs"), MAIN_SRC.as_bytes());
    assert_eq!(
        file_at(&disk, "/tmp/work/demo/Cargo.toml"),
        expected_manifest("demo", "a test").as_bytes()
    );
    assert_eq!(disk.len(), 12);
}

#[test]
fn run_steps_in_order() {
    let args = AppArguments::new("demo", "a test", Some("/tmp/work".to_owned()));
    let (_, steps) = App::new(&args).run("/", false).unwrap();
    let names: Vec<String> = steps
        .iter()
        .map(|s| match s {
            FsStep::CreateDirAll(p) => format!("dir {}", p),
            FsStep::CreateFile(p) => format!("file {}", p),
            FsStep::WriteFile(p, _) => format!("write {}", p),
        })
        .collect();
    assert_eq!(
        names,
        vec![
            "dir /tmp/work/demo",
            "dir /tmp/work/demo/src/application",
            "file /tmp/work/demo/src/application/mod.rs",
            "dir /tmp/work/demo/src/domain",
            "file /tmp/work/demo/src/domain/mod.rs",
            "dir /tmp/work/demo/src/infrastructure",
            "file /tmp/work/demo/src/infrastructure/mod.rs",
            "file /tmp/work/demo/Cargo.toml",
            "file /tmp/work/demo/src/main.rs",
            "write /tmp/work/demo/src/main.rs",
            "write /tmp/work/demo/Cargo.toml",
        ]
    );
}

#[test]
fn rerun_rejected_keeps_tree() {
    let args = AppArguments::new("demo", "a test", Some("/tmp/work".to_owned()));
    let app = App::new(&args);
    let mut disk = BTreeMap::new();
    let (root, steps) = app.run("/", false).unwrap();
    apply(&mut disk, &steps);
    let err = app.run("/", disk.contains_key(&root)).unwrap_err();
    assert_eq!(err.kind, ErrorKind::RootAlreadyExists);
    assert_eq!(err.path, "/tmp/work/demo");
}

#[test]
fn empty_description_renders() {
    assert_eq!(cargo_manifest("demo", ""), expected_manifest("demo", ""));
    let args = AppArguments::new("demo", "", Some("/w".to_owned()));
    let mut disk = BTreeMap::new();
    let (_, steps) = App::new(&args).run("/", false).unwrap();
    apply(&mut disk, &steps);
    assert_eq!(file_at(&disk, "/w/demo/Cargo.toml"), expected_manifest("demo", "").as_bytes());
}

#[test]
fn templates() {
    assert_eq!(main_template(), MAIN_SRC);
    assert_eq!(cargo_manifest("x", "y"), expected_manifest("x", "y"));
}

#[test]
fn base_path_uses_current_dir_without_output() {
    let args = AppArguments::new("demo", "d", None);
    assert_eq!(FileManager::get_base_path(&args, "/home/me"), "/home/me/demo");
    let args = AppArguments::new("demo", "d", Some("out/".to_owned()));
    assert_eq!(FileManager::get_base_path(&args, "/home/me"), "out/demo");
    let (_, steps) = App::new(&AppArguments::new("p", "d", None)).run("/cwd", false).unwrap();
    assert!(matches!(&steps[0], FsStep::CreateDirAll(p) if p == "/cwd/p"));
}

#[test]
fn arguments_getters() {
    let args = AppArguments::new("n", "d", Some("o".to_owned()));
    assert_eq!(args.project_name(), "n");
    assert_eq!(args.details(), "d");
    assert_eq!(args.output(), Some("o".to_owned()));
    assert_eq!(AppArguments::new("n", "d", None).output(), None);
}

#[test]
fn entry_full_path() {
    assert_eq!(DiskEntry::new("src", "main.rs", DiskEntryType::File).get_full_path(), "src/main.rs");
    assert_eq!(DiskEntry::new("", "Cargo.toml", DiskEntryType::File).get_full_path(), "Cargo.toml");
    assert_eq!(DiskEntry::new("a/", "b", DiskEntryType::Folder).get_full_path(), "a/b");
    assert_eq!(DiskEntry::new("a", "/b", DiskEntryType::Folder).get_full_path(), "/b");
    assert_eq!(
        DiskEntry::new("a", "b", DiskEntryType::Folder).representation_type(),
        DiskEntryType::Folder
    );
}

#[test]
fn fixed_entry_list() {
    let paths: Vec<String> = files_to_be_created().iter().map(|e| e.get_full_path()).collect();
    assert_eq!(
        paths,
        vec![
            "src/application/mod.rs",
            "src/domain/mod.rs",
            "src/infrastructure/mod.rs",
            "Cargo.toml",
            "src/main.rs"
        ]
    );
}

#[test]
fn join_and_parent() {
    assert_eq!(join_paths("/a", "b"), "/a/b");
    assert_eq!(join_paths("", "b"), "b");
    assert_eq!(parent_path("/a/b/c.rs"), Some("/a/b".to_owned()));
    assert_eq!(parent_path("/a"), Some("/".to_owned()));
    assert_eq!(parent_path("a"), Some(String::new()));
    assert_eq!(parent_path("/"), None);
    assert_eq!(parent_path(""), None);
    assert_eq!(parent_path("a//b"), Some("a".to_owned()));
    assert_eq!(parent_path("a/b/"), Some("a".to_owned()));
    assert_eq!(parent_path("/a/"), Some("/".to_owned()));
    assert_eq!(parent_path("//"), None);
    assert!(is_within_path("/a", "/a/b"));
    assert!(is_within_path("/a/b", "/a/b"));
    assert!(!is_within_path("/a/b", "/a/bc"));
    assert!(!is_within_path("", "/a"));
}

#[test]
fn extension_detection() {
    assert!(FileManager::has_extension("src/main.rs"));
    assert!(FileManager::has_extension("archive.tar.gz"));
    assert!(!FileManager::has_extension("src/main"));
    assert!(!FileManager::has_extension(".bashrc"));
    assert!(!FileManager::has_extension("a.b/c"));
    assert!(!FileManager::has_extension("x/.."));
    assert!(FileManager::has_extension("x/..."));
    assert!(FileManager::has_extension("a.rs/"));
    assert!(FileManager::has_extension("x/b.c/."));
    assert!(FileManager::has_extension("x/b.c/./"));
    assert!(!FileManager::has_extension("."));
    assert!(!FileManager::has_extension("/"));
    assert!(!FileManager::has_extension("x/../"));
}

#[test]
fn init_root_guard() {
    let err = FileManager::init("/p", true).unwrap_err();
    assert_eq!(err.kind, ErrorKind::RootAlreadyExists);
    let (fm, step) = FileManager::init("/p", false).unwrap();
    assert_eq!(fm.base_path(), "/p");
    assert!(matches!(step, FsStep::CreateDirAll(p) if p == "/p"));
}

#[test]
fn folder_creation_idempotent() {
    let first = FileManager::create_folder("/p/x", Found::Absent).unwrap();
    assert_eq!(first.len(), 1);
    let mut disk = BTreeMap::new();
    apply(&mut disk, &first);
    assert_eq!(disk.get("/p/x"), Some(&Node::Dir));
    let second = FileManager::create_folder("/p/x", Found::Dir).unwrap();
    assert!(second.is_empty());
    assert_eq!(disk.get("/p/x"), Some(&Node::Dir));
}

#[test]
fn duplicate_file_rejected() {
    let err = FileManager::create_file("/p/a.rs", Found::File, Found::Dir).unwrap_err();
    assert_eq!(err.kind, ErrorKind::DuplicateEntry);
    assert_eq!(err.path, "/p/a.rs");
    assert_eq!(
        err.message(),
        "File \"/p/a.rs\" already exists, cannot create duplicate file."
    );
    let (fm, _) = FileManager::init("/p", false).unwrap();
    let entry = DiskEntry::new("dir", "x", DiskEntryType::File);
    let found = Presence { base: Found::Dir, target: Found::File, parent: Found::Dir };
    assert_eq!(fm.create(&entry, found).unwrap_err().kind, ErrorKind::DuplicateEntry);
    let on_dir = Presence { base: Found::Dir, target: Found::Dir, parent: Found::Dir };
    assert_eq!(fm.create(&entry, on_dir).unwrap_err().kind, ErrorKind::DuplicateEntry);
    let folder = DiskEntry::new("dir", "x", DiskEntryType::Folder);
    assert!(fm.create(&folder, on_dir).unwrap().is_empty());
}

#[test]
fn parent_chain_created() {
    let steps = FileManager::create_file("/p/a/b/c.rs", Found::Absent, Found::Absent).unwrap();
    let mut disk = BTreeMap::new();
    apply(&mut disk, &steps);
    for d in ["/p", "/p/a", "/p/a/b"] {
        assert_eq!(disk.get(d), Some(&Node::Dir));
    }
    assert_eq!(disk.get("/p/a/b/c.rs"), Some(&Node::File(Vec::new())));
    let steps = FileManager::create_file("/p/a/b/d.rs", Found::Absent, Found::Dir).unwrap();
    assert_eq!(steps.len(), 1);
    let err = FileManager::create_file("/", Found::Absent, Found::Dir).unwrap_err();
    assert_eq!(err.kind, ErrorKind::IoFailure);
    let err = FileManager::create_file("", Found::Absent, Found::Absent).unwrap_err();
    assert_eq!(err.kind, ErrorKind::IoFailure);
    assert_eq!(
        err.message(),
        "Unable to determine parent directory of \"\" for file creation."
    );
    let err = FileManager::create_file("/p/f/x.rs", Found::Absent, Found::File).unwrap_err();
    assert_eq!(err.kind, ErrorKind::IoFailure);
    assert_eq!(err.path, "/p/f");
}

#[test]
fn create_makes_missing_root() {
    let (fm, _) = FileManager::init("/p", false).unwrap();
    let entry = DiskEntry::new("", "f", DiskEntryType::Folder);
    assert_eq!(fm.target_path(&entry), "/p/f");
    let found = Presence { base: Found::Absent, target: Found::Absent, parent: Found::Absent };
    let steps = fm.create(&entry, found).unwrap();
    assert!(matches!(&steps[0], FsStep::CreateDirAll(p) if p == "/p"));
    assert!(matches!(&steps[1], FsStep::CreateDirAll(p) if p == "/p/f"));
}

#[test]
fn write_requires_existing_target() {
    let (fm, _) = FileManager::init("/p", false).unwrap();
    let err = fm.write_to_file("src/x.rs", b"abc", false).unwrap_err();
    assert_eq!(err.kind, ErrorKind::MissingTarget);
    assert_eq!(err.path, "/p/src/x.rs");
    assert_eq!(err.message(), "File \"/p/src/x.rs\" does not exist.");
    let step = fm.write_to_file("src/x.rs", b"abc", true).unwrap();
    let mut disk = BTreeMap::new();
    disk.insert("/p/src/x.rs".to_string(), Node::File(b"old content".to_vec()));
    apply(&mut disk, &[step]);
    assert_eq!(file_at(&disk, "/p/src/x.rs"), b"abc");
}

#[test]
fn io_failure_message() {
    let e = ScaffoldError::io_failure("/p", "denied".to_owned());
    assert_eq!(e.kind, ErrorKind::IoFailure);
    assert_eq!(e.message(), "Cannot complete the operation on \"/p\": denied");
}

#[test]
fn folder_entry_on_a_file_fails() {
    let (fm, _) = FileManager::init("/p", false).unwrap();
    let folder = DiskEntry::new("", "x", DiskEntryType::Folder);
    let found = Presence { base: Found::Dir, target: Found::File, parent: Found::Dir };
    let err = fm.create(&folder, found).unwrap_err();
    assert_eq!(err.kind, ErrorKind::IoFailure);
    assert_eq!(err.path, "/p/x");
    assert_eq!(err.detail, "a file stands where a directory is needed");
    let err = FileManager::create_folder("/p/x", Found::File).unwrap_err();
    assert_eq!(err.kind, ErrorKind::IoFailure);
}

#[test]
fn plain_errors_have_no_detail() {
    let e = ScaffoldError::new(ErrorKind::MissingTarget, "/q");
    assert_eq!(e.detail, "");
    assert_eq!(e.message(), "File \"/q\" does not exist.");
}

#[test]
fn name_with_trailing_separator_still_plans() {
    let args = AppArguments::new("demo/", "d", Some("/w".to_owned()));
    let mut disk = BTreeMap::new();
    let (root, steps) = App::new(&args).run("/", false).unwrap();
    assert_eq!(root, "/w/demo/");
    apply(&mut disk, &steps);
    assert_eq!(file_at(&disk, "/w/demo/src/main.rs"), MAIN_SRC.as_bytes());
}

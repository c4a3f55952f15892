use vstd::prelude::*;
use crate::args::AppArguments;
use crate::paths::{
    file_name_spec,
    find_last_sep,
    has_extension_spec,
    join_paths,
    join_spec,
    lemma_last_sep_range,
    parent_path,
    parent_spec,
    trim_end,
    trim_end_len,
};

verus! {

/// One change to the file system, as the model sees it.
pub enum StepModel {
    /// Make the directory and every missing directory above it.
    CreateDirAll(Seq<char>),
    /// Make an empty file.
    CreateFile(Seq<char>),
    /// Replace the whole content of an existing file.
    WriteFile(Seq<char>, Seq<u8>),
}

/// One change to the file system, to be carried out by the caller.
#[derive(Debug)]
pub enum FsStep {
    CreateDirAll(String),
    CreateFile(String),
    WriteFile(String, Vec<u8>),
}

impl View for FsStep {
    type V = StepModel;

    open spec fn view(&self) -> StepModel {
        match self {
            FsStep::CreateDirAll(p) => StepModel::CreateDirAll(p@),
            FsStep::CreateFile(p) => StepModel::CreateFile(p@),
            FsStep::WriteFile(p, b) => StepModel::WriteFile(p@, b@),
        }
    }
}

/// The model of a list of steps.
pub open spec fn steps_view(v: Seq<FsStep>) -> Seq<StepModel> {
    v.map_values(|s: FsStep| s@)
}

/// What went wrong.
#[derive(Clone, Copy, PartialEq, Eq, Structural, Debug)]
pub enum ErrorKind {
    /// The project's root is already on disk.
    RootAlreadyExists,
    /// A file to be created is already on disk.
    DuplicateEntry,
    /// A file to be written was never created.
    MissingTarget,
    /// The file system refused an operation, or a path cannot be used.
    IoFailure,
}

/// A failure, with the path it concerns and, for `IoFailure`, what the
/// file system said.
#[derive(Debug)]
pub struct ScaffoldError {
    pub kind: ErrorKind,
    pub path: String,
    pub detail: String,
}

/// The model of a failure: its kind, the path concerned and the detail.
pub type FailureModel = (ErrorKind, Seq<char>, Seq<char>);

/// The detail of the failure on a path that has no parent directory.
pub open spec fn no_parent_detail() -> Seq<char> {
    "no parent directory can be determined for file creation"@
}

/// The detail of the failure on a directory whose place a file holds.
pub open spec fn not_a_directory_detail() -> Seq<char> {
    "a file stands where a directory is needed"@
}

/// The model of a planned operation: the steps to take, or the failure.
pub type PlanModel = Result<Seq<StepModel>, FailureModel>;

impl ScaffoldError {
    pub open spec fn model(&self) -> FailureModel {
        (self.kind, self.path@, self.detail@)
    }

    pub fn new(kind: ErrorKind, path: &str) -> (r: ScaffoldError)
        ensures
            r.model() == (kind, path@, Seq::<char>::empty()),
    {
        ScaffoldError { kind, path: path.to_owned(), detail: String::new() }
    }

    /// A failure of the file system on `path`, with what it said.
    pub fn io_failure(path: &str, detail: String) -> (r: ScaffoldError)
        ensures
            r.model() == (ErrorKind::IoFailure, path@, detail@),
    {
        ScaffoldError { kind: ErrorKind::IoFailure, path: path.to_owned(), detail }
    }

    /// A sentence that tells the user what went wrong.
    pub fn message(&self) -> (r: String)
        ensures
            r@ == match self.kind {
                ErrorKind::RootAlreadyExists => "Error: Folder already exists. Please choose a different location."@,
                ErrorKind::DuplicateEntry => "File \""@ + self.path@
                    + "\" already exists, cannot create duplicate file."@,
                ErrorKind::MissingTarget => "File \""@ + self.path@ + "\" does not exist."@,
                ErrorKind::IoFailure => if self.detail@ == no_parent_detail() {
                    "Unable to determine parent directory of \""@ + self.path@
                        + "\" for file creation."@
                } else {
                    "Cannot complete the operation on \""@ + self.path@ + "\": "@ + self.detail@
                },
            },
    {
        match self.kind {
            ErrorKind::RootAlreadyExists => {
                "Error: Folder already exists. Please choose a different location.".to_owned()
            },
            ErrorKind::DuplicateEntry => {
                let mut m = "File \"".to_owned();
                m.append(self.path.as_str());
                m.append("\" already exists, cannot create duplicate file.");
                m
            },
            ErrorKind::MissingTarget => {
                let mut m = "File \"".to_owned();
                m.append(self.path.as_str());
                m.append("\" does not exist.");
                m
            },
            ErrorKind::IoFailure => {
                let no_parent = "no parent directory can be determined for file creation".to_owned();
                if self.detail == no_parent {
                    let mut m = "Unable to determine parent directory of \"".to_owned();
                    m.append(self.path.as_str());
                    m.append("\" for file creation.");
                    m
                } else {
                    let mut m = "Cannot complete the operation on \"".to_owned();
                    m.append(self.path.as_str());
                    m.append("\": ");
                    m.append(self.detail.as_str());
                    m
                }
            },
        }
    }
}

/// The model of a planned operation held in an executable result.
pub open spec fn plan_model(r: Result<Vec<FsStep>, ScaffoldError>) -> PlanModel {
    match r {
        Ok(v) => Ok(steps_view(v@)),
        Err(e) => Err(e.model()),
    }
}

/// Whether an entry is a file or a folder.
#[derive(Clone, Copy, PartialEq, Eq, Structural, Debug)]
pub enum DiskEntryType {
    Folder,
    File,
}

/// A file or folder to create, under a parent given relative to the root.
#[derive(Debug)]
pub struct DiskEntry {
    base_path: String,
    name: String,
    representation_type: DiskEntryType,
}

impl DiskEntry {
    pub closed spec fn parent(&self) -> Seq<char> {
        self.base_path@
    }

    pub closed spec fn name(&self) -> Seq<char> {
        self.name@
    }

    pub closed spec fn kind(&self) -> DiskEntryType {
        self.representation_type
    }

    /// The entry's path relative to the root.
    pub open spec fn full_path(&self) -> Seq<char> {
        join_spec(self.parent(), self.name())
    }

    pub fn new(base_path: &str, name: &str, representation_type: DiskEntryType) -> (r: DiskEntry)
        ensures
            r.parent() == base_path@,
            r.name() == name@,
            r.kind() == representation_type,
    {
        DiskEntry {
            base_path: base_path.to_owned(),
            name: name.to_owned(),
            representation_type,
        }
    }

    pub fn get_full_path(&self) -> (r: String)
        ensures
            r@ == self.full_path(),
    {
        join_paths(self.base_path.as_str(), self.name.as_str())
    }

    pub fn representation_type(&self) -> (r: DiskEntryType)
        ensures
            r == self.kind(),
    {
        self.representation_type
    }
}

/// What stands at a path on disk.
#[derive(Clone, Copy, PartialEq, Eq, Structural, Debug)]
pub enum Found {
    Absent,
    File,
    Dir,
}

/// What the caller found on disk before asking for an entry to be created: at
/// the root, at the entry's target, and at the directory holding the target.
#[derive(Clone, Copy, Debug)]
pub struct Presence {
    pub base: Found,
    pub target: Found,
    pub parent: Found,
}

/// Steps that make sure a directory exists: none when one is there already; a
/// file in its place is a failure.
pub open spec fn folder_plan(path: Seq<char>, found: Found) -> PlanModel {
    match found {
        Found::Dir => Ok(Seq::empty()),
        Found::Absent => Ok(seq![StepModel::CreateDirAll(path)]),
        Found::File => Err((ErrorKind::IoFailure, path, not_a_directory_detail())),
    }
}

/// Steps that create an empty file, with its directory where that is missing.
/// A target already present is never touched.
pub open spec fn file_plan(path: Seq<char>, target: Found, parent: Found) -> PlanModel {
    if target != Found::Absent {
        Err((ErrorKind::DuplicateEntry, path, Seq::empty()))
    } else {
        match parent_spec(path) {
            None => Err((ErrorKind::IoFailure, path, no_parent_detail())),
            Some(q) => match folder_plan(q, parent) {
                Err(f) => Err(f),
                Ok(s) => Ok(s + seq![StepModel::CreateFile(path)]),
            },
        }
    }
}

/// Steps that create an entry at `target` under `root`.
pub open spec fn create_plan(
    root: Seq<char>,
    target: Seq<char>,
    kind: DiskEntryType,
    found: Presence,
) -> PlanModel {
    match folder_plan(root, found.base) {
        Err(f) => Err(f),
        Ok(lead) => match kind {
            DiskEntryType::Folder => match folder_plan(target, found.target) {
                Ok(s) => Ok(lead + s),
                Err(f) => Err(f),
            },
            DiskEntryType::File => match file_plan(target, found.target, found.parent) {
                Ok(s) => Ok(lead + s),
                Err(f) => Err(f),
            },
        },
    }
}

/// The step that writes `bytes` to `target`, which must exist.
pub open spec fn write_plan(target: Seq<char>, bytes: Seq<u8>, exists: bool) -> Result<
    StepModel,
    FailureModel,
> {
    if exists {
        Ok(StepModel::WriteFile(target, bytes))
    } else {
        Err((ErrorKind::MissingTarget, target, Seq::empty()))
    }
}

/// The engine: it holds the project's root and decides, from what the caller
/// found on disk, which steps each operation takes.
#[derive(Debug)]
pub struct FileManager {
    base_path: String,
}

impl FileManager {
    pub closed spec fn root(&self) -> Seq<char> {
        self.base_path@
    }

    /// Takes charge of `base_path`, which must not be on disk yet; the step
    /// returned makes it.
    pub fn init(base_path: &str, base_exists: bool) -> (r: Result<(FileManager, FsStep), ScaffoldError>)
        ensures
            base_exists <==> r is Err,
            r matches Err(e) ==> e.model() == (
                ErrorKind::RootAlreadyExists,
                base_path@,
                Seq::<char>::empty(),
            ),
            r matches Ok((fm, step)) ==> fm.root() == base_path@ && step@ == StepModel::CreateDirAll(
                base_path@,
            ),
    {
        if base_exists {
            return Err(ScaffoldError::new(ErrorKind::RootAlreadyExists, base_path));
        }
        let fm = FileManager { base_path: base_path.to_owned() };
        Ok((fm, FsStep::CreateDirAll(base_path.to_owned())))
    }

    /// The project's root: the project's name under the output directory, or
    /// under `current_dir` where none was given.
    pub fn get_base_path(args: &AppArguments, current_dir: &str) -> (r: String)
        ensures
            r@ == join_spec(
                match args.output_dir() {
                    Some(o) => o,
                    None => current_dir@,
                },
                args.name(),
            ),
    {
        match args.output() {
            Some(o) => join_paths(o.as_str(), args.project_name()),
            None => join_paths(current_dir, args.project_name()),
        }
    }

    /// Tells whether the last component of `path` has an extension.
    pub fn has_extension(path: &str) -> (r: bool)
        ensures
            r == has_extension_spec(path@),
    {
        let end = trim_end_len(path);
        let t = path.substring_char(0, end);
        assert(t@ == trim_end(path@));
        let len = t.unicode_len();
        proof { lemma_last_sep_range(t@, t@.len() as int); }
        let start: usize = match find_last_sep(t) {
            Some(i) => i + 1,
            None => 0,
        };
        let ghost name = file_name_spec(path@);
        assert(name.len() == len - start);
        if len - start == 2 && t.get_char(start) == '.' && t.get_char(start + 1) == '.' {
            assert(name =~= seq!['.', '.']);
            return false;
        }
        assert(name != seq!['.', '.']) by {
            if name == seq!['.', '.'] {
                assert(name[0] == t@[start as int]);
                assert(name[1] == t@[start + 1]);
            }
        }
        let mut k: usize = start;
        while k < len
            invariant
                start <= k,
                start <= len == t@.len(),
                name == t@.subrange(start as int, len as int),
                name == file_name_spec(path@),
                name != seq!['.', '.'],
                forall|j: int| 0 < j < k - start ==> name[j] != '.',
            decreases len - k,
        {
            if k > start && t.get_char(k) == '.' {
                let ghost w = k - start;
                assert(0 < w < name.len() && name[w] == '.');
                return true;
            }
            k = k + 1;
        }
        false
    }

    /// The root this engine works under.
    pub fn base_path(&self) -> (r: String)
        ensures
            r@ == self.root(),
    {
        self.base_path.clone()
    }

    /// Where `entry` goes on disk.
    pub fn target_path(&self, entry: &DiskEntry) -> (r: String)
        ensures
            r@ == join_spec(self.root(), entry.full_path()),
    {
        let rel = entry.get_full_path();
        join_paths(self.base_path.as_str(), rel.as_str())
    }

    /// Steps that make sure the folder `path` exists, given what stands there.
    pub fn create_folder(path: &str, found: Found) -> (r: Result<Vec<FsStep>, ScaffoldError>)
        ensures
            plan_model(r) == folder_plan(path@, found),
    {
        let mut v: Vec<FsStep> = Vec::new();
        match found {
            Found::Dir => {},
            Found::Absent => {
                v.push(FsStep::CreateDirAll(path.to_owned()));
            },
            Found::File => {
                return Err(
                    ScaffoldError::io_failure(
                        path,
                        "a file stands where a directory is needed".to_owned(),
                    ),
                );
            },
        }
        assert(steps_view(v@) =~= folder_plan(path@, found)->Ok_0);
        Ok(v)
    }

    /// Steps that create an empty file at `path`, given what stands there and
    /// at its directory.
    pub fn create_file(path: &str, target: Found, parent: Found) -> (r: Result<
        Vec<FsStep>,
        ScaffoldError,
    >)
        ensures
            plan_model(r) == file_plan(path@, target, parent),
    {
        if target != Found::Absent {
            return Err(ScaffoldError::new(ErrorKind::DuplicateEntry, path));
        }
        match parent_path(path) {
            None => Err(
                ScaffoldError::io_failure(
                    path,
                    "no parent directory can be determined for file creation".to_owned(),
                ),
            ),
            Some(q) => match FileManager::create_folder(q.as_str(), parent) {
                Err(e) => Err(e),
                Ok(mut v) => {
                    let ghost before = v@;
                    v.push(FsStep::CreateFile(path.to_owned()));
                    assert(steps_view(v@) =~= steps_view(before) + seq![
                        StepModel::CreateFile(path@),
                    ]);
                    Ok(v)
                },
            },
        }
    }

    /// Steps that create `entry` under the root.
    pub fn create(&self, entry: &DiskEntry, found: Presence) -> (r: Result<Vec<FsStep>, ScaffoldError>)
        ensures
            plan_model(r) == create_plan(
                self.root(),
                join_spec(self.root(), entry.full_path()),
                entry.kind(),
                found,
            ),
    {
        let mut lead = match FileManager::create_folder(self.base_path.as_str(), found.base) {
            Err(e) => return Err(e),
            Ok(v) => v,
        };
        let target = self.target_path(entry);
        let rest = match entry.representation_type() {
            DiskEntryType::File => FileManager::create_file(target.as_str(), found.target, found.parent),
            DiskEntryType::Folder => FileManager::create_folder(target.as_str(), found.target),
        };
        match rest {
            Err(e) => Err(e),
            Ok(mut s) => {
                let ghost a = lead@;
                let ghost b = s@;
                lead.append(&mut s);
                assert(steps_view(lead@) =~= steps_view(a) + steps_view(b));
                Ok(lead)
            },
        }
    }

    /// The step that writes `buff` to `target`, relative to the root; the file
    /// must exist already.
    pub fn write_to_file(&self, target: &str, buff: &[u8], exists: bool) -> (r: Result<
        FsStep,
        ScaffoldError,
    >)
        ensures
            match r {
                Ok(s) => write_plan(join_spec(self.root(), target@), buff@, exists) == Ok::<
                    StepModel,
                    FailureModel,
                >(s@),
                Err(e) => write_plan(join_spec(self.root(), target@), buff@, exists) == Err::<
                    StepModel,
                    FailureModel,
                >(e.model()),
            },
    {
        let full = join_paths(self.base_path.as_str(), target);
        if !exists {
            return Err(ScaffoldError::new(ErrorKind::MissingTarget, full.as_str()));
        }
        Ok(FsStep::WriteFile(full, vstd::slice::slice_to_vec(buff)))
    }
}

} // verus!

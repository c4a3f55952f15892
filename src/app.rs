use vstd::prelude::*;
use crate::args::AppArguments;
use crate::file_manager::{
    create_plan,
    steps_view,
    write_plan,
    DiskEntry,
    DiskEntryType,
    ErrorKind,
    FailureModel,
    Found,
    FileManager,
    FsStep,
    PlanModel,
    Presence,
    ScaffoldError,
    StepModel,
};
use crate::fresh_run::{fresh_plan, lemma_fresh_run_ok};
use crate::model::{apply_plan, exists_after, found_after, found_on, lemma_apply_keeps_paths, on_disk, DiskModel};
use crate::paths::{is_within, join_paths, join_spec, parent_path, parent_spec};
use vstd::utf8::encode_utf8;

verus! {

/// The entry-point source written into a new project.
pub open spec fn main_text() -> Seq<char> {
    "fn main() {\n    println!(\"Hello, world!\");\n}"@
}

/// The manifest written into a new project, with the project's name and
/// description in its two slots.
pub open spec fn manifest_text(name: Seq<char>, details: Seq<char>) -> Seq<char> {
    "[package]\nname = \""@ + name + "\"\nversion = \"0.1.0\"\nauthors = [\"Your Name\"]\ndescription = \""@
        + details
}

pub fn main_template() -> (r: String)
    ensures
        r@ == main_text(),
{
    "fn main() {\n    println!(\"Hello, world!\");\n}".to_owned()
}

pub fn cargo_manifest(project_name: &str, details: &str) -> (r: String)
    ensures
        r@ == manifest_text(project_name@, details@),
{
    let mut m = "[package]\nname = \"".to_owned();
    m.append(project_name);
    m.append("\"\nversion = \"0.1.0\"\nauthors = [\"Your Name\"]\ndescription = \"");
    m.append(details);
    m
}

/// The parent, name and kind of an entry.
pub open spec fn entry_model(e: DiskEntry) -> (Seq<char>, Seq<char>, DiskEntryType) {
    (e.parent(), e.name(), e.kind())
}

/// The entries of every new project, in the order they are created.
pub open spec fn scaffold_spec() -> Seq<(Seq<char>, Seq<char>, DiskEntryType)> {
    seq![
        ("src/application"@, "mod.rs"@, DiskEntryType::File),
        ("src/domain"@, "mod.rs"@, DiskEntryType::File),
        ("src/infrastructure"@, "mod.rs"@, DiskEntryType::File),
        (""@, "Cargo.toml"@, DiskEntryType::File),
        ("src"@, "main.rs"@, DiskEntryType::File),
    ]
}

pub fn files_to_be_created() -> (r: Vec<DiskEntry>)
    ensures
        r@.map_values(|e: DiskEntry| entry_model(e)) == scaffold_spec(),
{
    let mut v: Vec<DiskEntry> = Vec::new();
    v.push(DiskEntry::new("src/application", "mod.rs", DiskEntryType::File));
    v.push(DiskEntry::new("src/domain", "mod.rs", DiskEntryType::File));
    v.push(DiskEntry::new("src/infrastructure", "mod.rs", DiskEntryType::File));
    v.push(DiskEntry::new("", "Cargo.toml", DiskEntryType::File));
    v.push(DiskEntry::new("src", "main.rs", DiskEntryType::File));
    assert(v@.map_values(|e: DiskEntry| entry_model(e)) =~= scaffold_spec());
    v
}

/// What the planner finds on disk for an entry at `target`: inside a root that
/// was absent, only what the steps so far have made.
pub open spec fn probe(s: Seq<StepModel>, root: Seq<char>, target: Seq<char>) -> Presence {
    Presence {
        base: found_on(s, root),
        target: found_on(s, target),
        parent: match parent_spec(target) {
            Some(q) => found_on(s, q),
            None => Found::Absent,
        },
    }
}

/// The steps that make `root` and then the first `n` entries.
pub open spec fn plan_entries(
    root: Seq<char>,
    entries: Seq<(Seq<char>, Seq<char>, DiskEntryType)>,
    n: nat,
) -> PlanModel
    decreases n,
{
    if n == 0 {
        Ok(seq![StepModel::CreateDirAll(root)])
    } else {
        match plan_entries(root, entries, (n - 1) as nat) {
            Err(f) => Err(f),
            Ok(s) => {
                let e = entries[n - 1];
                let t = join_spec(root, join_spec(e.0, e.1));
                match create_plan(root, t, e.2, probe(s, root, t)) {
                    Ok(m) => Ok(s + m),
                    Err(f) => Err(f),
                }
            },
        }
    }
}

proof fn lemma_plan_entries_err(
    root: Seq<char>,
    entries: Seq<(Seq<char>, Seq<char>, DiskEntryType)>,
    n: nat,
    m: nat,
)
    requires
        n <= m,
        plan_entries(root, entries, n) is Err,
    ensures
        plan_entries(root, entries, m) == plan_entries(root, entries, n),
    decreases m - n,
{
    if n < m {
        lemma_plan_entries_err(root, entries, n, (m - 1) as nat);
    }
}

/// The step that writes `bytes` to `rel` under `root`, after the steps `s`.
pub open spec fn write_step(s: Seq<StepModel>, root: Seq<char>, rel: Seq<char>, bytes: Seq<u8>) -> Result<
    StepModel,
    FailureModel,
> {
    let t = join_spec(root, rel);
    write_plan(t, bytes, on_disk(s, t))
}

/// Every step of a run that scaffolds a project at the absent `root`: make the
/// root and each entry, then fill the entry point and the manifest.
pub open spec fn run_plan(root: Seq<char>, name: Seq<char>, details: Seq<char>) -> PlanModel {
    match plan_entries(root, scaffold_spec(), 5) {
        Err(f) => Err(f),
        Ok(s) => match write_step(s, root, join_spec("src"@, "main.rs"@), encode_utf8(main_text())) {
            Err(f) => Err(f),
            Ok(w1) => {
                let s1 = s.push(w1);
                match write_step(
                    s1,
                    root,
                    join_spec(""@, "Cargo.toml"@),
                    encode_utf8(manifest_text(name, details)),
                ) {
                    Err(f) => Err(f),
                    Ok(w2) => Ok(s1.push(w2)),
                }
            },
        },
    }
}

/// The root a run works under.
pub open spec fn root_of(args: AppArguments, current_dir: Seq<char>) -> Seq<char> {
    join_spec(
        match args.output_dir() {
            Some(o) => o,
            None => current_dir,
        },
        args.name(),
    )
}

proof fn lemma_plan_entries_starts(
    root: Seq<char>,
    entries: Seq<(Seq<char>, Seq<char>, DiskEntryType)>,
    n: nat,
)
    requires
        plan_entries(root, entries, n) is Ok,
    ensures
        plan_entries(root, entries, n)->Ok_0.len() >= 1,
        plan_entries(root, entries, n)->Ok_0[0] == StepModel::CreateDirAll(root),
    decreases n,
{
    if n > 0 {
        lemma_plan_entries_starts(root, entries, (n - 1) as nat);
    }
}

proof fn lemma_first_step_stays(d: DiskModel, s: Seq<StepModel>, root: Seq<char>)
    requires
        s.len() >= 1,
        s[0] == StepModel::CreateDirAll(root),
        root.len() > 0,
    ensures
        apply_plan(d, s).contains_key(root),
    decreases s.len(),
{
    if s.len() == 1 {
        assert(s.drop_last() =~= Seq::<StepModel>::empty());
        assert(is_within(root, root));
    } else {
        lemma_first_step_stays(d, s.drop_last(), root);
        let before = apply_plan(d, s.drop_last());
        lemma_apply_keeps_paths(before, seq![s.last()], root);
        assert(seq![s.last()].drop_last() =~= Seq::<StepModel>::empty());
    }
}

/// Once a run's steps have been taken, its root is on disk, whatever the disk
/// held before; so a second run with the same arguments is refused with
/// `RootAlreadyExists` and takes no step.
pub proof fn law_rerun_rejected(d: DiskModel, args: AppArguments, current_dir: Seq<char>)
    requires
        args.name().len() > 0,
        run_plan(root_of(args, current_dir), args.name(), args.description()) is Ok,
    ensures
        apply_plan(
            d,
            run_plan(root_of(args, current_dir), args.name(), args.description())->Ok_0,
        ).contains_key(root_of(args, current_dir)),
{
    let root = root_of(args, current_dir);
    lemma_plan_entries_starts(root, scaffold_spec(), 5);
    let s = run_plan(root, args.name(), args.description())->Ok_0;
    assert(s[0] == StepModel::CreateDirAll(root));
    lemma_first_step_stays(d, s, root);
}

/// A run: it scaffolds the project that its arguments describe.
#[derive(Debug)]
pub struct App {
    args: AppArguments,
}

impl App {
    pub closed spec fn arguments(&self) -> AppArguments {
        self.args
    }

    pub fn new(args: &AppArguments) -> (r: App)
        ensures
            r.arguments().name() == args.name(),
            r.arguments().description() == args.description(),
            r.arguments().output_dir() == args.output_dir(),
    {
        App { args: args.duplicate() }
    }

    /// Plans a run: the project's root and every step that scaffolds it.
    /// `current_dir` stands in for a missing output directory, and
    /// `root_exists` tells whether the root is on disk already.
    pub fn run(&self, current_dir: &str, root_exists: bool) -> (r: Result<
        (String, Vec<FsStep>),
        ScaffoldError,
    >)
        ensures
            ({
                let root = root_of(self.arguments(), current_dir@);
                &&& root_exists ==> (r matches Err(e) && e.model() == (
                    ErrorKind::RootAlreadyExists,
                    root,
                    Seq::<char>::empty(),
                ))
                &&& !root_exists ==> match run_plan(
                    root,
                    self.arguments().name(),
                    self.arguments().description(),
                ) {
                    Ok(s) => (r matches Ok((p, v)) && p@ == root && steps_view(v@) == s),
                    Err(f) => (r matches Err(e) && e.model() == f),
                }
                &&& !root_exists && self.arguments().name().len() > 0
                    && self.arguments().name().last() != '/' ==> (r matches Ok((p, v))
                    && steps_view(v@) == fresh_plan(
                    root,
                    self.arguments().name(),
                    self.arguments().description(),
                ))
            }),
    {
        proof {
            let root = root_of(self.arguments(), current_dir@);
            let name = self.arguments().name();
            if name.len() > 0 && name.last() != '/' {
                assert(root.len() > 0 && root.last() == name.last());
                lemma_fresh_run_ok(root, name, self.arguments().description());
            }
        }
        let root = FileManager::get_base_path(&self.args, current_dir);
        let (fm, first) = match FileManager::init(root.as_str(), root_exists) {
            Err(e) => return Err(e),
            Ok(x) => x,
        };
        let mut steps: Vec<FsStep> = Vec::new();
        steps.push(first);
        assert(steps_view(steps@) =~= seq![StepModel::CreateDirAll(root@)]);
        let entries = files_to_be_created();
        let mut i: usize = 0;
        assert(scaffold_spec().len() == 5);
        assert(entries@.len() == 5) by {
            assert(entries@.map_values(|e: DiskEntry| entry_model(e)).len() == entries@.len());
        }
        while i < entries.len()
            invariant
                i <= entries@.len(),
                entries@.len() == 5,
                !root_exists,
                root@ == root_of(self.arguments(), current_dir@),
                self.arguments().name().len() > 0 && self.arguments().name().last() != '/'
                    ==> run_plan(
                    root@,
                    self.arguments().name(),
                    self.arguments().description(),
                ) is Ok,
                entries@.map_values(|e: DiskEntry| entry_model(e)) == scaffold_spec(),
                fm.root() == root@,
                plan_entries(root@, scaffold_spec(), i as nat) == Ok::<
                    Seq<StepModel>,
                    FailureModel,
                >(steps_view(steps@)),
            decreases entries@.len() - i,
        {
            let e = &entries[i];
            assert(entry_model(*e) == scaffold_spec()[i as int]);
            let target = fm.target_path(e);
            let parent = match parent_path(target.as_str()) {
                Some(q) => found_after(&steps, q.as_str()),
                None => Found::Absent,
            };
            let found = Presence {
                base: found_after(&steps, root.as_str()),
                target: found_after(&steps, target.as_str()),
                parent,
            };
            match fm.create(e, found) {
                Err(err) => {
                    assert(plan_entries(root@, scaffold_spec(), (i + 1) as nat) == Err::<
                        Seq<StepModel>,
                        FailureModel,
                    >(err.model()));
                    proof {
                        lemma_plan_entries_err(root@, scaffold_spec(), (i + 1) as nat, 5);
                    }
                    return Err(err);
                },
                Ok(mut more) => {
                    let ghost a = steps@;
                    let ghost b = more@;
                    steps.append(&mut more);
                    assert(steps_view(steps@) =~= steps_view(a) + steps_view(b));
                },
            }
            i = i + 1;
        }
        let main_rel = DiskEntry::new("src", "main.rs", DiskEntryType::File).get_full_path();
        let main_full = join_paths(root.as_str(), main_rel.as_str());
        let main_src = main_template();
        let w1 = match fm.write_to_file(
            main_rel.as_str(),
            main_src.as_str().as_bytes(),
            exists_after(&steps, main_full.as_str()),
        ) {
            Err(e) => return Err(e),
            Ok(w) => w,
        };
        let ghost s0 = steps_view(steps@);
        steps.push(w1);
        assert(steps_view(steps@) =~= s0.push(w1@));
        let cargo_rel = DiskEntry::new("", "Cargo.toml", DiskEntryType::File).get_full_path();
        let cargo_full = join_paths(root.as_str(), cargo_rel.as_str());
        let manifest = cargo_manifest(self.args.project_name(), self.args.details());
        let w2 = match fm.write_to_file(
            cargo_rel.as_str(),
            manifest.as_str().as_bytes(),
            exists_after(&steps, cargo_full.as_str()),
        ) {
            Err(e) => return Err(e),
            Ok(w) => w,
        };
        let ghost s1 = steps_view(steps@);
        steps.push(w2);
        assert(steps_view(steps@) =~= s1.push(w2@));
        Ok((root, steps))
    }
}

} // verus!

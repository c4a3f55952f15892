use vstd::prelude::*;
use crate::file_manager::{
    create_plan,
    file_plan,
    folder_plan,
    write_plan,
    DiskEntryType,
    ErrorKind,
    FailureModel,
    Found,
    FsStep,
    Presence,
    StepModel,
    not_a_directory_detail,
    steps_view,
};
use crate::paths::{
    is_within,
    is_within_path,
    last_sep,
    lemma_last_sep_range,
    lemma_trim_seps_prefix,
    parent_spec,
    trim_seps,
};

verus! {

/// What sits at a path: a directory, or a file with its bytes.
pub enum Node {
    Dir,
    File(Seq<u8>),
}

/// A file system: what sits at each path present.
pub type DiskModel = Map<Seq<char>, Node>;

pub open spec fn is_dir(d: DiskModel, p: Seq<char>) -> bool {
    d.contains_key(p) && d[p] is Dir
}

/// What stands at `p`.
pub open spec fn found_in(d: DiskModel, p: Seq<char>) -> Found {
    if !d.contains_key(p) {
        Found::Absent
    } else if d[p] is Dir {
        Found::Dir
    } else {
        Found::File
    }
}

/// A file can be made in `q`: it is the current or root directory, or a
/// directory on disk.
pub open spec fn dir_ready(d: DiskModel, q: Seq<char>) -> bool {
    q.len() == 0 || q == seq!['/'] || is_dir(d, q)
}

/// The file system after one step.
pub open spec fn apply_step(d: DiskModel, s: StepModel) -> DiskModel {
    match s {
        StepModel::CreateDirAll(p) => Map::new(
            |a: Seq<char>| is_within(a, p),
            |a: Seq<char>| Node::Dir,
        ).union_prefer_right(d),
        StepModel::CreateFile(p) => d.insert(p, Node::File(Seq::empty())),
        StepModel::WriteFile(p, b) => d.insert(p, Node::File(b)),
    }
}

/// The step can be carried out on `d`: a directory chain meets no file on the
/// way, a new file lands in a directory where nothing stands yet, and a write
/// finds a file.
pub open spec fn step_ok(d: DiskModel, s: StepModel) -> bool {
    match s {
        StepModel::CreateDirAll(p) => p.len() > 0 && forall|a: Seq<char>|
            is_within(a, p) && #[trigger] d.contains_key(a) ==> d[a] is Dir,
        StepModel::CreateFile(p) => !d.contains_key(p) && match parent_spec(p) {
            Some(q) => dir_ready(d, q),
            None => false,
        },
        StepModel::WriteFile(p, b) => d.contains_key(p) && d[p] is File,
    }
}

/// The file system after the steps, in order.
pub open spec fn apply_plan(d: DiskModel, s: Seq<StepModel>) -> DiskModel
    decreases s.len(),
{
    if s.len() == 0 {
        d
    } else {
        apply_step(apply_plan(d, s.drop_last()), s.last())
    }
}

/// Every step can be carried out when its turn comes.
pub open spec fn plan_ok(d: DiskModel, s: Seq<StepModel>) -> bool
    decreases s.len(),
{
    if s.len() == 0 {
        true
    } else {
        plan_ok(d, s.drop_last()) && step_ok(apply_plan(d, s.drop_last()), s.last())
    }
}

/// No step takes a path away.
pub proof fn lemma_apply_keeps_paths(d: DiskModel, s: Seq<StepModel>, p: Seq<char>)
    requires
        d.contains_key(p),
    ensures
        apply_plan(d, s).contains_key(p),
    decreases s.len(),
{
    if s.len() > 0 {
        lemma_apply_keeps_paths(d, s.drop_last(), p);
    }
}

/// Taking `s` and then `m` is taking `s + m`.
pub proof fn lemma_apply_concat(d: DiskModel, s: Seq<StepModel>, m: Seq<StepModel>)
    ensures
        apply_plan(d, s + m) == apply_plan(apply_plan(d, s), m),
    decreases m.len(),
{
    if m.len() == 0 {
        assert(s + m =~= s);
    } else {
        assert((s + m).drop_last() =~= s + m.drop_last());
        assert((s + m).last() == m.last());
        lemma_apply_concat(d, s, m.drop_last());
    }
}

pub proof fn lemma_apply_two(d: DiskModel, x: StepModel, y: StepModel)
    ensures
        apply_plan(d, seq![x, y]) == apply_step(apply_step(d, x), y),
        plan_ok(d, seq![x, y]) == (step_ok(d, x) && step_ok(apply_step(d, x), y)),
{
    let s = seq![x, y];
    assert(s.drop_last() =~= seq![x]);
    lemma_apply_one(d, x);
    assert(apply_plan(d, s) == apply_step(apply_plan(d, seq![x]), y));
    assert(plan_ok(d, s) == (plan_ok(d, seq![x]) && step_ok(apply_plan(d, seq![x]), y)));
}

pub proof fn lemma_apply_one(d: DiskModel, x: StepModel)
    ensures
        apply_plan(d, seq![x]) == apply_step(d, x),
        plan_ok(d, seq![x]) == step_ok(d, x),
{
    let e = Seq::<StepModel>::empty();
    assert(seq![x].drop_last() =~= e);
    assert(apply_plan(d, e) == d);
    assert(plan_ok(d, e));
    assert(apply_plan(d, seq![x]) == apply_step(apply_plan(d, e), x));
    assert(plan_ok(d, seq![x]) == (plan_ok(d, e) && step_ok(apply_plan(d, e), x)));
}

/// Making a folder twice: where a file holds its place the first time fails
/// and takes no step; otherwise the first time leaves a directory there, and
/// succeeds where no file stands on the way, and the second time takes no step
/// at all, so it cannot fail and changes nothing.
pub proof fn law_folder_creation_idempotent(d: DiskModel, p: Seq<char>)
    requires
        p.len() > 0,
    ensures
        found_in(d, p) == Found::File ==> folder_plan(p, found_in(d, p)) == Err::<
            Seq<StepModel>,
            FailureModel,
        >((ErrorKind::IoFailure, p, not_a_directory_detail())),
        found_in(d, p) != Found::File ==> ({
            let first = folder_plan(p, found_in(d, p))->Ok_0;
            let d1 = apply_plan(d, first);
            let second = folder_plan(p, found_in(d1, p));
            &&& folder_plan(p, found_in(d, p)) is Ok
            &&& is_dir(d1, p)
            &&& (forall|a: Seq<char>| is_within(a, p) && #[trigger] d.contains_key(a) ==> d[a] is Dir)
                ==> plan_ok(d, first)
            &&& second == Ok::<Seq<StepModel>, FailureModel>(Seq::empty())
            &&& plan_ok(d1, second->Ok_0)
            &&& apply_plan(d1, second->Ok_0) == d1
        }),
{
    if found_in(d, p) == Found::Absent {
        lemma_apply_one(d, StepModel::CreateDirAll(p));
        assert(is_within(p, p));
    }
}

/// Under a root that is a directory, creating a folder entry plans exactly
/// what making the folder does, so the law above holds of it too: a second
/// call finds the directory and takes no step.
pub proof fn law_folder_entry_idempotent(
    d: DiskModel,
    root: Seq<char>,
    target: Seq<char>,
    found: Presence,
)
    requires
        found.base == Found::Dir,
        found.target == found_in(d, target),
    ensures
        create_plan(root, target, DiskEntryType::Folder, found) == folder_plan(target, found.target),
        is_dir(d, target) ==> create_plan(root, target, DiskEntryType::Folder, found) == Ok::<
            Seq<StepModel>,
            FailureModel,
        >(Seq::empty()),
{
    match folder_plan(target, found.target) {
        Ok(s) => {
            assert(Seq::<StepModel>::empty() + s =~= s);
        },
        Err(_) => {},
    }
}

/// The step puts a file at `p`.
pub open spec fn writes_at(st: StepModel, p: Seq<char>) -> bool {
    match st {
        StepModel::CreateDirAll(_) => false,
        StepModel::CreateFile(y) => y == p,
        StepModel::WriteFile(y, _) => y == p,
    }
}

/// Steps that put files only where `d` has nothing leave every node of `d` as
/// it was.
pub proof fn lemma_keeps_nodes(d: DiskModel, s: Seq<StepModel>)
    requires
        forall|i: int, p: Seq<char>|
            0 <= i < s.len() && d.contains_key(p) ==> !#[trigger] writes_at(s[i], p),
    ensures
        forall|p: Seq<char>| #[trigger]
            d.contains_key(p) ==> apply_plan(d, s).contains_key(p) && apply_plan(d, s)[p] == d[p],
    decreases s.len(),
{
    if s.len() > 0 {
        let s0 = s.drop_last();
        assert forall|i: int, p: Seq<char>|
            0 <= i < s0.len() && d.contains_key(p) implies !#[trigger] writes_at(s0[i], p) by {
            assert(s0[i] == s[i]);
        }
        lemma_keeps_nodes(d, s0);
        assert forall|p: Seq<char>| d.contains_key(p) implies !writes_at(s.last(), p) by {
            assert(s.last() == s[s.len() - 1]);
        }
    }
}

/// Creating an entry never changes what already stands on disk: whatever it
/// plans, every node present before is there afterwards, unchanged, when the
/// target was probed on that disk.
pub proof fn law_no_silent_overwrite(
    d: DiskModel,
    root: Seq<char>,
    target: Seq<char>,
    kind: DiskEntryType,
    found: Presence,
)
    requires
        found.target == found_in(d, target),
        create_plan(root, target, kind, found) is Ok,
    ensures
        ({
            let after = apply_plan(d, create_plan(root, target, kind, found)->Ok_0);
            forall|p: Seq<char>| #[trigger]
                d.contains_key(p) ==> after.contains_key(p) && after[p] == d[p]
        }),
{
    let s = create_plan(root, target, kind, found)->Ok_0;
    assert forall|i: int, p: Seq<char>|
        0 <= i < s.len() && d.contains_key(p) implies !#[trigger] writes_at(s[i], p) by {
        let lead = folder_plan(root, found.base)->Ok_0;
        assert(s[i] == if i < lead.len() {
            lead[i]
        } else {
            s[i]
        });
        if i < lead.len() {
            assert(lead[i] is CreateDirAll);
        } else {
            let rest = match kind {
                DiskEntryType::Folder => folder_plan(target, found.target)->Ok_0,
                DiskEntryType::File => file_plan(target, found.target, found.parent)->Ok_0,
            };
            assert(s == lead + rest);
            assert(s[i] == rest[i - lead.len()]);
            if kind == DiskEntryType::File {
                let q = parent_spec(target)->Some_0;
                let pre = folder_plan(q, found.parent)->Ok_0;
                assert(rest == pre + seq![StepModel::CreateFile(target)]);
                if i - lead.len() < pre.len() {
                    assert(rest[i - lead.len()] == pre[i - lead.len()]);
                }
            }
        }
    }
    lemma_keeps_nodes(d, s);
}

/// Creating an entry of kind file where something, file or directory, already
/// stands fails with `DuplicateEntry` and takes no step, once the root is not
/// a file.
pub proof fn law_no_duplicate_files(
    d: DiskModel,
    root: Seq<char>,
    target: Seq<char>,
    found: Presence,
)
    requires
        d.contains_key(target),
        found.target == found_in(d, target),
        found.base != Found::File,
    ensures
        create_plan(root, target, DiskEntryType::File, found) == Err::<Seq<StepModel>, FailureModel>(
            (ErrorKind::DuplicateEntry, target, Seq::empty()),
        ),
{
}

proof fn lemma_parent_shorter(p: Seq<char>)
    requires
        parent_spec(p) is Some,
    ensures
        parent_spec(p)->Some_0.len() < p.len(),
{
    let t = trim_seps(p);
    lemma_trim_seps_prefix(p);
    lemma_last_sep_range(t, t.len() as int);
    if last_sep(t) >= 0 {
        lemma_trim_seps_prefix(t.subrange(0, last_sep(t)));
    }
}

/// A file whose directory is missing can be created, where no file stands on
/// its directory chain and a directory on disk has its own chain: the missing
/// directories are made (the whole chain, when the directory itself is
/// missing), and the file is there, empty.
pub proof fn law_parent_auto_creation(d: DiskModel, p: Seq<char>)
    requires
        parent_spec(p) matches Some(q) && q.len() > 0 && (forall|a: Seq<char>|
            is_within(a, q) && #[trigger] d.contains_key(a) ==> d[a] is Dir) && (d.contains_key(q)
            ==> forall|a: Seq<char>| is_within(a, q) ==> #[trigger] d.contains_key(a)),
        !d.contains_key(p),
    ensures
        ({
            let q = parent_spec(p)->Some_0;
            let plan = file_plan(p, Found::Absent, found_in(d, q));
            &&& plan is Ok
            &&& !d.contains_key(q) ==> plan == Ok::<Seq<StepModel>, FailureModel>(
                seq![StepModel::CreateDirAll(q), StepModel::CreateFile(p)],
            )
            &&& plan_ok(d, plan->Ok_0)
            &&& forall|a: Seq<char>| is_within(a, q) ==> is_dir(#[trigger] apply_plan(d, plan->Ok_0), a)
            &&& apply_plan(d, plan->Ok_0)[p] == Node::File(Seq::empty())
        }),
{
    let q = parent_spec(p)->Some_0;
    assert(is_within(q, q));
    lemma_parent_shorter(p);
    let plan = file_plan(p, Found::Absent, found_in(d, q));
    let y = StepModel::CreateFile(p);
    if d.contains_key(q) {
        assert(seq![] + seq![y] =~= seq![y]);
        lemma_apply_one(d, y);
        assert forall|a: Seq<char>| is_within(a, q) implies is_dir(apply_plan(d, plan->Ok_0), a) by {
            assert(a.len() <= q.len());
            assert(a != p);
            assert(d.contains_key(a));
        }
    } else {
        let x = StepModel::CreateDirAll(q);
        assert(seq![x] + seq![y] =~= seq![x, y]);
        lemma_apply_two(d, x, y);
        let d1 = apply_step(d, x);
        assert(!is_within(p, q));
        assert(is_dir(d1, q));
        assert(step_ok(d1, y));
        assert forall|a: Seq<char>| is_within(a, q) implies is_dir(apply_plan(d, plan->Ok_0), a) by {
            assert(a.len() <= q.len());
            assert(a != p);
            assert(d1.contains_key(a));
        }
    }
}

/// Writing to a path that is not on disk fails with `MissingTarget`; writing
/// to a file leaves exactly the bytes written in it.
pub proof fn law_write_requires_existence(d: DiskModel, target: Seq<char>, bytes: Seq<u8>)
    ensures
        !d.contains_key(target) ==> write_plan(target, bytes, d.contains_key(target)) == Err::<
            StepModel,
            FailureModel,
        >((ErrorKind::MissingTarget, target, Seq::empty())),
        d.contains_key(target) && d[target] is File ==> ({
            let s = write_plan(target, bytes, d.contains_key(target))->Ok_0;
            &&& write_plan(target, bytes, d.contains_key(target)) is Ok
            &&& step_ok(d, s)
            &&& apply_step(d, s)[target] == Node::File(bytes)
        }),
{
}

/// What stands at `p` after the steps, starting from an empty file system.
pub open spec fn found_on(s: Seq<StepModel>, p: Seq<char>) -> Found {
    found_in(apply_plan(Map::empty(), s), p)
}

/// Tells what stands at `p` once `steps` have been taken on an empty file
/// system.
pub fn found_after(steps: &Vec<FsStep>, p: &str) -> (r: Found)
    ensures
        r == found_on(steps_view(steps@), p@),
{
    let ghost sv = steps_view(steps@);
    let mut st = Found::Absent;
    let mut i: usize = 0;
    assert(sv.take(0) =~= Seq::<StepModel>::empty());
    while i < steps.len()
        invariant
            i <= steps@.len(),
            sv == steps_view(steps@),
            st == found_on(sv.take(i as int), p@),
        decreases steps@.len() - i,
    {
        assert(sv.take(i + 1).drop_last() =~= sv.take(i as int));
        match &steps[i] {
            FsStep::CreateDirAll(q) => {
                if st == Found::Absent && is_within_path(p, q.as_str()) {
                    st = Found::Dir;
                }
            },
            FsStep::CreateFile(q) => {
                if p.to_owned() == q.clone() {
                    st = Found::File;
                }
            },
            FsStep::WriteFile(q, _) => {
                if p.to_owned() == q.clone() {
                    st = Found::File;
                }
            },
        }
        i = i + 1;
    }
    assert(sv.take(i as int) =~= sv);
    st
}

/// A path is on disk after the steps, starting from an empty file system.
pub open spec fn on_disk(s: Seq<StepModel>, p: Seq<char>) -> bool {
    apply_plan(Map::empty(), s).contains_key(p)
}

/// Tells whether `p` is on disk once `steps` have been taken on an empty file
/// system.
pub fn exists_after(steps: &Vec<FsStep>, p: &str) -> (r: bool)
    ensures
        r == on_disk(steps_view(steps@), p@),
{
    let ghost sv = steps_view(steps@);
    let mut found = false;
    let mut i: usize = 0;
    assert(sv.take(0) =~= Seq::<StepModel>::empty());
    while i < steps.len()
        invariant
            i <= steps@.len(),
            sv == steps_view(steps@),
            found == on_disk(sv.take(i as int), p@),
        decreases steps@.len() - i,
    {
        assert(sv.take(i + 1).drop_last() =~= sv.take(i as int));
        let hit = match &steps[i] {
            FsStep::CreateDirAll(q) => is_within_path(p, q.as_str()),
            FsStep::CreateFile(q) => p.to_owned() == q.clone(),
            FsStep::WriteFile(q, _) => p.to_owned() == q.clone(),
        };
        found = found || hit;
        i = i + 1;
    }
    assert(sv.take(i as int) =~= sv);
    found
}

} // verus!

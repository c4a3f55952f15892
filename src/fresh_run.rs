use vstd::prelude::*;
use crate::app::{main_text, manifest_text, plan_entries, probe, run_plan, scaffold_spec};
use crate::file_manager::{
    create_plan,
    file_plan,
    folder_plan,
    DiskEntryType,
    FailureModel,
    Found,
    StepModel,
};
use crate::model::{
    apply_plan,
    apply_step,
    found_on,
    lemma_apply_concat,
    lemma_apply_one,
    lemma_apply_two,
    on_disk,
    writes_at,
    lemma_keeps_nodes,
    DiskModel,
    Node,
};
use crate::paths::{is_within, join_spec, last_sep_before, parent_spec, trim_seps};
use vstd::utf8::encode_utf8;

verus! {

// The run on a root that was absent, worked out path by path: each planned
// path is the root followed by a fixed suffix, so which path lies within which
// comes down to the suffixes.

pub open spec fn sfx_s() -> Seq<char> {
    seq!['/', 's', 'r', 'c']
}

pub open spec fn sfx_a() -> Seq<char> {
    sfx_s() + seq!['/', 'a', 'p', 'p', 'l', 'i', 'c', 'a', 't', 'i', 'o', 'n']
}

pub open spec fn sfx_d() -> Seq<char> {
    sfx_s() + seq!['/', 'd', 'o', 'm', 'a', 'i', 'n']
}

pub open spec fn sfx_i() -> Seq<char> {
    sfx_s() + seq!['/', 'i', 'n', 'f', 'r', 'a', 's', 't', 'r', 'u', 'c', 't', 'u', 'r', 'e']
}

pub open spec fn sfx_mod() -> Seq<char> {
    seq!['/', 'm', 'o', 'd', '.', 'r', 's']
}

pub open spec fn sfx_c() -> Seq<char> {
    seq!['/', 'C', 'a', 'r', 'g', 'o', '.', 't', 'o', 'm', 'l']
}

pub open spec fn sfx_m() -> Seq<char> {
    sfx_s() + seq!['/', 'm', 'a', 'i', 'n', '.', 'r', 's']
}

proof fn lemma_within_suffix(r: Seq<char>, x: Seq<char>, y: Seq<char>)
    requires
        r.len() > 0,
    ensures
        (r + x == r + y) == (x == y),
        is_within(r + x, r + y) == (x == y || (x.len() < y.len() && y.subrange(0, x.len() as int)
            == x && y[x.len() as int] == '/')),
{
    let n = r.len() as int;
    if x == y {
        assert(r + x == r + y);
    } else {
        if r + x == r + y {
            assert(x =~= (r + x).subrange(n, (r + x).len() as int));
            assert(y =~= (r + y).subrange(n, (r + y).len() as int));
        }
        if x.len() < y.len() {
            let py = (r + y).subrange(0, (r + x).len() as int);
            assert(py =~= r + y.subrange(0, x.len() as int));
            assert((r + y)[(r + x).len() as int] == y[x.len() as int]);
            if py == r + x {
                assert(y.subrange(0, x.len() as int) =~= py.subrange(n, py.len() as int));
                assert(x =~= (r + x).subrange(n, (r + x).len() as int));
            }
        }
    }
}

proof fn lemma_last_sep_at(p: Seq<char>, k: int, n: int)
    requires
        0 <= k < n <= p.len(),
        p[k] == '/',
        forall|j: int| k < j < n ==> p[j] != '/',
    ensures
        last_sep_before(p, n) == k,
    decreases n,
{
    if n > k + 1 {
        lemma_last_sep_at(p, k, n - 1);
    }
}

/// The parent of `r + dir + name`, where `name` starts with the only separator
/// after `dir`, is `r + dir`.
proof fn lemma_parent_suffix(r: Seq<char>, dir: Seq<char>, name: Seq<char>)
    requires
        r.len() > 0,
        (r + dir).last() != '/',
        name.len() >= 2,
        name[0] == '/',
        forall|j: int| 0 < j < name.len() ==> name[j] != '/',
    ensures
        parent_spec(r + dir + name) == Some(r + dir),
{
    let p = r + dir + name;
    let k = (r + dir).len() as int;
    assert forall|j: int| k < j < p.len() implies p[j] != '/' by {
        assert(p[j] == name[j - k]);
    }
    lemma_last_sep_at(p, k, p.len() as int);
    assert(p.last() == name.last());
    assert(trim_seps(p) == p);
    assert(trim_seps(r + dir) == r + dir);
    assert(p.subrange(0, k) =~= r + dir);
}

proof fn lemma_join_rel(r: Seq<char>, parent: Seq<char>, name: Seq<char>, x: Seq<char>)
    requires
        r.len() > 0,
        r.last() != '/',
        name.len() > 0,
        name[0] != '/',
        parent.len() == 0 ==> x == seq!['/'] + name,
        parent.len() > 0 ==> parent[0] != '/' && parent.last() != '/' && x == seq!['/'] + parent
            + seq!['/'] + name,
    ensures
        join_spec(r, join_spec(parent, name)) == r + x,
{
    if parent.len() == 0 {
        assert(join_spec(parent, name) =~= name);
        assert(r + seq!['/'] + name =~= r + x);
    } else {
        let rel = parent + seq!['/'] + name;
        assert(rel[0] == parent[0]);
        assert(r + seq!['/'] + rel =~= r + x);
    }
}

proof fn lemma_fresh_target_a(r: Seq<char>)
    requires
        r.len() > 0,
        r.last() != '/',
    ensures
        join_spec(r, join_spec(scaffold_spec()[0].0, scaffold_spec()[0].1)) == r + (sfx_a()
            + sfx_mod()),
{
    reveal_strlit("src/application");
    reveal_strlit("mod.rs");
    let p = seq!['s', 'r', 'c', '/', 'a', 'p', 'p', 'l', 'i', 'c', 'a', 't', 'i', 'o', 'n'];
    let n = seq!['m', 'o', 'd', '.', 'r', 's'];
    assert("src/application"@ =~= p);
    assert("mod.rs"@ =~= n);
    assert(seq!['/'] + p + seq!['/'] + n =~= sfx_a() + sfx_mod());
    lemma_join_rel(r, p, n, sfx_a() + sfx_mod());
}

proof fn lemma_fresh_target_d(r: Seq<char>)
    requires
        r.len() > 0,
        r.last() != '/',
    ensures
        join_spec(r, join_spec(scaffold_spec()[1].0, scaffold_spec()[1].1)) == r + (sfx_d()
            + sfx_mod()),
{
    reveal_strlit("src/domain");
    reveal_strlit("mod.rs");
    let p = seq!['s', 'r', 'c', '/', 'd', 'o', 'm', 'a', 'i', 'n'];
    let n = seq!['m', 'o', 'd', '.', 'r', 's'];
    assert("src/domain"@ =~= p);
    assert("mod.rs"@ =~= n);
    assert(seq!['/'] + p + seq!['/'] + n =~= sfx_d() + sfx_mod());
    lemma_join_rel(r, p, n, sfx_d() + sfx_mod());
}

proof fn lemma_fresh_target_i(r: Seq<char>)
    requires
        r.len() > 0,
        r.last() != '/',
    ensures
        join_spec(r, join_spec(scaffold_spec()[2].0, scaffold_spec()[2].1)) == r + (sfx_i()
            + sfx_mod()),
{
    reveal_strlit("src/infrastructure");
    reveal_strlit("mod.rs");
    let p = seq![
        's', 'r', 'c', '/', 'i', 'n', 'f', 'r', 'a', 's', 't', 'r', 'u', 'c', 't', 'u', 'r', 'e'
    ];
    let n = seq!['m', 'o', 'd', '.', 'r', 's'];
    assert("src/infrastructure"@ =~= p);
    assert("mod.rs"@ =~= n);
    assert(seq!['/'] + p + seq!['/'] + n =~= sfx_i() + sfx_mod());
    lemma_join_rel(r, p, n, sfx_i() + sfx_mod());
}

proof fn lemma_fresh_target_c(r: Seq<char>)
    requires
        r.len() > 0,
        r.last() != '/',
    ensures
        join_spec(r, join_spec(scaffold_spec()[3].0, scaffold_spec()[3].1)) == r + sfx_c(),
{
    reveal_strlit("");
    reveal_strlit("Cargo.toml");
    let n = seq!['C', 'a', 'r', 'g', 'o', '.', 't', 'o', 'm', 'l'];
    assert(""@ =~= Seq::<char>::empty());
    assert("Cargo.toml"@ =~= n);
    assert(seq!['/'] + n =~= sfx_c());
    lemma_join_rel(r, Seq::empty(), n, sfx_c());
}

proof fn lemma_fresh_target_m(r: Seq<char>)
    requires
        r.len() > 0,
        r.last() != '/',
    ensures
        join_spec(r, join_spec(scaffold_spec()[4].0, scaffold_spec()[4].1)) == r + sfx_m(),
{
    reveal_strlit("src");
    reveal_strlit("main.rs");
    let p = seq!['s', 'r', 'c'];
    let n = seq!['m', 'a', 'i', 'n', '.', 'r', 's'];
    assert("src"@ =~= p);
    assert("main.rs"@ =~= n);
    assert(seq!['/'] + p + seq!['/'] + n =~= sfx_m());
    lemma_join_rel(r, p, n, sfx_m());
}

proof fn lemma_fresh_parents(r: Seq<char>)
    requires
        r.len() > 0,
        r.last() != '/',
    ensures
        parent_spec(r + (sfx_a() + sfx_mod())) == Some(r + sfx_a()),
        parent_spec(r + (sfx_d() + sfx_mod())) == Some(r + sfx_d()),
        parent_spec(r + (sfx_i() + sfx_mod())) == Some(r + sfx_i()),
        parent_spec(r + sfx_c()) == Some(r),
        parent_spec(r + sfx_m()) == Some(r + sfx_s()),
{
    let e = Seq::<char>::empty();
    let main = seq!['/', 'm', 'a', 'i', 'n', '.', 'r', 's'];
    assert(r + e =~= r);
    assert((r + sfx_a()).last() == 'n');
    assert((r + sfx_d()).last() == 'n');
    assert((r + sfx_i()).last() == 'e');
    assert((r + sfx_s()).last() == 'c');
    lemma_parent_suffix(r, sfx_a(), sfx_mod());
    lemma_parent_suffix(r, sfx_d(), sfx_mod());
    lemma_parent_suffix(r, sfx_i(), sfx_mod());
    lemma_parent_suffix(r, e, sfx_c());
    lemma_parent_suffix(r, sfx_s(), main);
    assert(r + sfx_a() + sfx_mod() =~= r + (sfx_a() + sfx_mod()));
    assert(r + sfx_d() + sfx_mod() =~= r + (sfx_d() + sfx_mod()));
    assert(r + sfx_i() + sfx_mod() =~= r + (sfx_i() + sfx_mod()));
    assert(r + e + sfx_c() =~= r + sfx_c());
    assert(r + e =~= r);
    assert(r + sfx_s() + main =~= r + sfx_m());
}

/// Which planned paths lie within which planned directories.
proof fn lemma_fresh_within(r: Seq<char>)
    requires
        r.len() > 0,
    ensures
        is_within(r, r),
        !is_within(r + (sfx_a() + sfx_mod()), r),
        !is_within(r + sfx_a(), r),
        !is_within(r + (sfx_d() + sfx_mod()), r),
        !is_within(r + (sfx_d() + sfx_mod()), r + sfx_a()),
        !is_within(r + sfx_d(), r),
        !is_within(r + sfx_d(), r + sfx_a()),
        !is_within(r + (sfx_i() + sfx_mod()), r),
        !is_within(r + (sfx_i() + sfx_mod()), r + sfx_a()),
        !is_within(r + (sfx_i() + sfx_mod()), r + sfx_d()),
        !is_within(r + sfx_i(), r),
        !is_within(r + sfx_i(), r + sfx_a()),
        !is_within(r + sfx_i(), r + sfx_d()),
{
    let e = Seq::<char>::empty();
    assert(r + e =~= r);
    lemma_within_suffix(r, sfx_a() + sfx_mod(), e);
    lemma_within_suffix(r, sfx_a(), e);
    lemma_within_suffix(r, sfx_d() + sfx_mod(), e);
    lemma_within_suffix(r, sfx_d() + sfx_mod(), sfx_a());
    lemma_within_suffix(r, sfx_d(), e);
    lemma_within_suffix(r, sfx_d(), sfx_a());
    assert(sfx_a().subrange(0, 11)[5] != sfx_d()[5]);
    lemma_within_suffix(r, sfx_i() + sfx_mod(), e);
    lemma_within_suffix(r, sfx_i() + sfx_mod(), sfx_a());
    lemma_within_suffix(r, sfx_i() + sfx_mod(), sfx_d());
    lemma_within_suffix(r, sfx_i(), e);
    lemma_within_suffix(r, sfx_i(), sfx_a());
    lemma_within_suffix(r, sfx_i(), sfx_d());
}

/// Which planned paths lie within which planned directories, for the last two
/// entries.
proof fn lemma_fresh_within_late(r: Seq<char>)
    requires
        r.len() > 0,
    ensures
        !is_within(r + sfx_c(), r),
        !is_within(r + sfx_c(), r + sfx_a()),
        !is_within(r + sfx_c(), r + sfx_d()),
        !is_within(r + sfx_c(), r + sfx_i()),
        !is_within(r + sfx_m(), r),
        !is_within(r + sfx_m(), r + sfx_a()),
        !is_within(r + sfx_m(), r + sfx_d()),
        !is_within(r + sfx_m(), r + sfx_i()),
        is_within(r + sfx_s(), r + sfx_a()),
        r + sfx_c() != r + sfx_d(),
{
    let e = Seq::<char>::empty();
    assert(r + e =~= r);
    lemma_within_suffix(r, sfx_c(), e);
    lemma_within_suffix(r, sfx_c(), sfx_a());
    assert(sfx_a().subrange(0, 11)[1] != sfx_c()[1]);
    lemma_within_suffix(r, sfx_c(), sfx_d());
    assert(sfx_d()[1] != sfx_c()[1]);
    lemma_within_suffix(r, sfx_c(), sfx_i());
    assert(sfx_i().subrange(0, 11)[1] != sfx_c()[1]);
    lemma_within_suffix(r, sfx_m(), e);
    lemma_within_suffix(r, sfx_m(), sfx_a());
    assert(sfx_a().subrange(0, 12)[5] != sfx_m()[5]);
    lemma_within_suffix(r, sfx_m(), sfx_d());
    lemma_within_suffix(r, sfx_m(), sfx_i());
    assert(sfx_i().subrange(0, 12)[5] != sfx_m()[5]);
    lemma_within_suffix(r, sfx_s(), sfx_a());
    assert(sfx_a().subrange(0, 4) =~= sfx_s());
}

/// The steps of a run on a fresh root for entry `k`, the root's own first.
pub open spec fn fresh_step(r: Seq<char>, k: int) -> Seq<StepModel> {
    if k == 0 {
        seq![StepModel::CreateDirAll(r)]
    } else if k == 1 {
        seq![
            StepModel::CreateDirAll(r + sfx_a()),
            StepModel::CreateFile(r + (sfx_a() + sfx_mod())),
        ]
    } else if k == 2 {
        seq![
            StepModel::CreateDirAll(r + sfx_d()),
            StepModel::CreateFile(r + (sfx_d() + sfx_mod())),
        ]
    } else if k == 3 {
        seq![
            StepModel::CreateDirAll(r + sfx_i()),
            StepModel::CreateFile(r + (sfx_i() + sfx_mod())),
        ]
    } else if k == 4 {
        seq![StepModel::CreateFile(r + sfx_c())]
    } else {
        seq![StepModel::CreateFile(r + sfx_m())]
    }
}

/// The steps of a run on a fresh root, up to entry `k`.
pub open spec fn fresh_upto(r: Seq<char>, k: nat) -> Seq<StepModel>
    decreases k,
{
    if k == 0 {
        fresh_step(r, 0)
    } else {
        fresh_upto(r, (k - 1) as nat) + fresh_step(r, k as int)
    }
}

proof fn lemma_on_disk_first(m: Seq<StepModel>, x: Seq<char>)
    requires
        m == seq![StepModel::CreateDirAll(x)],
    ensures
        forall|p: Seq<char>| #[trigger] on_disk(m, p) == is_within(p, x),
{
    lemma_apply_one(Map::empty(), StepModel::CreateDirAll(x));
}

proof fn lemma_found_first(m: Seq<StepModel>, x: Seq<char>)
    requires
        m == seq![StepModel::CreateDirAll(x)],
    ensures
        forall|p: Seq<char>| #[trigger]
            found_on(m, p) == if is_within(p, x) {
                Found::Dir
            } else {
                Found::Absent
            },
{
    lemma_apply_one(Map::empty(), StepModel::CreateDirAll(x));
}

proof fn lemma_found_two(s: Seq<StepModel>, m: Seq<StepModel>, x: Seq<char>, y: Seq<char>)
    requires
        m == seq![StepModel::CreateDirAll(x), StepModel::CreateFile(y)],
    ensures
        forall|p: Seq<char>| #[trigger]
            found_on(s + m, p) == if p == y {
                Found::File
            } else if found_on(s, p) != Found::Absent {
                found_on(s, p)
            } else if is_within(p, x) {
                Found::Dir
            } else {
                Found::Absent
            },
{
    lemma_apply_concat(Map::empty(), s, m);
    lemma_apply_two(apply_plan(Map::empty(), s), m[0], m[1]);
}

proof fn lemma_found_file(s: Seq<StepModel>, m: Seq<StepModel>, y: Seq<char>)
    requires
        m == seq![StepModel::CreateFile(y)],
    ensures
        forall|p: Seq<char>| #[trigger]
            found_on(s + m, p) == if p == y {
                Found::File
            } else {
                found_on(s, p)
            },
{
    lemma_apply_concat(Map::empty(), s, m);
    lemma_apply_one(apply_plan(Map::empty(), s), m[0]);
}

proof fn lemma_on_disk_two(s: Seq<StepModel>, m: Seq<StepModel>, x: Seq<char>, y: Seq<char>)
    requires
        m == seq![StepModel::CreateDirAll(x), StepModel::CreateFile(y)],
    ensures
        forall|p: Seq<char>| #[trigger]
            on_disk(s + m, p) == (on_disk(s, p) || is_within(p, x) || p == y),
{
    lemma_apply_concat(Map::empty(), s, m);
    lemma_apply_two(apply_plan(Map::empty(), s), m[0], m[1]);
}

proof fn lemma_on_disk_file(s: Seq<StepModel>, m: Seq<StepModel>, y: Seq<char>)
    requires
        m == seq![StepModel::CreateFile(y)],
    ensures
        forall|p: Seq<char>| #[trigger] on_disk(s + m, p) == (on_disk(s, p) || p == y),
{
    lemma_apply_concat(Map::empty(), s, m);
    lemma_apply_one(apply_plan(Map::empty(), s), m[0]);
}

proof fn lemma_fresh_disk(r: Seq<char>)
    ensures
        forall|p: Seq<char>| #[trigger]
            found_on(fresh_upto(r, 0), p) == if is_within(p, r) {
                Found::Dir
            } else {
                Found::Absent
            },
        forall|p: Seq<char>| #[trigger]
            found_on(fresh_upto(r, 1), p) == if p == r + (sfx_a() + sfx_mod()) {
                Found::File
            } else if found_on(fresh_upto(r, 0), p) != Found::Absent {
                found_on(fresh_upto(r, 0), p)
            } else if is_within(p, r + sfx_a()) {
                Found::Dir
            } else {
                Found::Absent
            },
        forall|p: Seq<char>| #[trigger]
            found_on(fresh_upto(r, 2), p) == if p == r + (sfx_d() + sfx_mod()) {
                Found::File
            } else if found_on(fresh_upto(r, 1), p) != Found::Absent {
                found_on(fresh_upto(r, 1), p)
            } else if is_within(p, r + sfx_d()) {
                Found::Dir
            } else {
                Found::Absent
            },
        forall|p: Seq<char>| #[trigger]
            found_on(fresh_upto(r, 3), p) == if p == r + (sfx_i() + sfx_mod()) {
                Found::File
            } else if found_on(fresh_upto(r, 2), p) != Found::Absent {
                found_on(fresh_upto(r, 2), p)
            } else if is_within(p, r + sfx_i()) {
                Found::Dir
            } else {
                Found::Absent
            },
        forall|p: Seq<char>| #[trigger]
            found_on(fresh_upto(r, 4), p) == if p == r + sfx_c() {
                Found::File
            } else {
                found_on(fresh_upto(r, 3), p)
            },
        forall|p: Seq<char>| #[trigger]
            found_on(fresh_upto(r, 5), p) == if p == r + sfx_m() {
                Found::File
            } else {
                found_on(fresh_upto(r, 4), p)
            },
        forall|p: Seq<char>| #[trigger] on_disk(fresh_upto(r, 0), p) == is_within(p, r),
        forall|p: Seq<char>| #[trigger]
            on_disk(fresh_upto(r, 1), p) == (on_disk(fresh_upto(r, 0), p) || is_within(
                p,
                r + sfx_a(),
            ) || p == r + (sfx_a() + sfx_mod())),
        forall|p: Seq<char>| #[trigger]
            on_disk(fresh_upto(r, 2), p) == (on_disk(fresh_upto(r, 1), p) || is_within(
                p,
                r + sfx_d(),
            ) || p == r + (sfx_d() + sfx_mod())),
        forall|p: Seq<char>| #[trigger]
            on_disk(fresh_upto(r, 3), p) == (on_disk(fresh_upto(r, 2), p) || is_within(
                p,
                r + sfx_i(),
            ) || p == r + (sfx_i() + sfx_mod())),
        forall|p: Seq<char>| #[trigger]
            on_disk(fresh_upto(r, 4), p) == (on_disk(fresh_upto(r, 3), p) || p == r + sfx_c()),
        forall|p: Seq<char>| #[trigger]
            on_disk(fresh_upto(r, 5), p) == (on_disk(fresh_upto(r, 4), p) || p == r + sfx_m()),
{
    lemma_found_first(fresh_upto(r, 0), r);
    lemma_found_two(fresh_upto(r, 0), fresh_step(r, 1), r + sfx_a(), r + (sfx_a() + sfx_mod()));
    lemma_found_two(fresh_upto(r, 1), fresh_step(r, 2), r + sfx_d(), r + (sfx_d() + sfx_mod()));
    lemma_found_two(fresh_upto(r, 2), fresh_step(r, 3), r + sfx_i(), r + (sfx_i() + sfx_mod()));
    lemma_found_file(fresh_upto(r, 3), fresh_step(r, 4), r + sfx_c());
    lemma_found_file(fresh_upto(r, 4), fresh_step(r, 5), r + sfx_m());
    lemma_on_disk_first(fresh_upto(r, 0), r);
    lemma_on_disk_two(fresh_upto(r, 0), fresh_step(r, 1), r + sfx_a(), r + (sfx_a() + sfx_mod()));
    lemma_on_disk_two(fresh_upto(r, 1), fresh_step(r, 2), r + sfx_d(), r + (sfx_d() + sfx_mod()));
    lemma_on_disk_two(fresh_upto(r, 2), fresh_step(r, 3), r + sfx_i(), r + (sfx_i() + sfx_mod()));
    lemma_on_disk_file(fresh_upto(r, 3), fresh_step(r, 4), r + sfx_c());
    lemma_on_disk_file(fresh_upto(r, 4), fresh_step(r, 5), r + sfx_m());
}

proof fn lemma_fresh_stage_1(r: Seq<char>)
    requires
        r.len() > 0,
        r.last() != '/',
    ensures
        plan_entries(r, scaffold_spec(), 1) == Ok::<Seq<StepModel>, FailureModel>(
            fresh_upto(r, 1),
        ),
{
    let es = scaffold_spec();
    lemma_fresh_target_a(r);
    lemma_fresh_parents(r);
    lemma_fresh_within(r);
    lemma_fresh_disk(r);
    let s0 = fresh_upto(r, 0);
    assert(plan_entries(r, es, 0) == Ok::<Seq<StepModel>, FailureModel>(s0));
    let t = r + (sfx_a() + sfx_mod());
    assert(es[0].2 == DiskEntryType::File);
    let pr = probe(s0, r, t);
    assert(pr.base == Found::Dir && pr.target == Found::Absent && pr.parent == Found::Absent);
    let m = seq![StepModel::CreateDirAll(r + sfx_a()), StepModel::CreateFile(t)];
    assert(file_plan(t, Found::Absent, Found::Absent) == Ok::<Seq<StepModel>, FailureModel>(m)) by {
        assert(folder_plan(r + sfx_a(), Found::Absent)->Ok_0 + seq![StepModel::CreateFile(t)] =~= m);
    }
    assert(Seq::<StepModel>::empty() + m =~= m);
    assert(create_plan(r, t, DiskEntryType::File, pr) == Ok::<Seq<StepModel>, FailureModel>(m));
    assert(fresh_step(r, 1) == m);
}

proof fn lemma_fresh_stage_2(r: Seq<char>)
    requires
        r.len() > 0,
        r.last() != '/',
    ensures
        plan_entries(r, scaffold_spec(), 2) == Ok::<Seq<StepModel>, FailureModel>(
            fresh_upto(r, 2),
        ),
{
    let es = scaffold_spec();
    lemma_fresh_stage_1(r);
    lemma_fresh_target_d(r);
    lemma_fresh_parents(r);
    lemma_fresh_within(r);
    lemma_fresh_within_late(r);
    lemma_fresh_disk(r);
    let s0 = fresh_upto(r, 1);
    let t = r + (sfx_d() + sfx_mod());
    assert(es[1].2 == DiskEntryType::File);
    let pr = probe(s0, r, t);
    assert(pr.base == Found::Dir && pr.target == Found::Absent && pr.parent == Found::Absent);
    let m = seq![StepModel::CreateDirAll(r + sfx_d()), StepModel::CreateFile(t)];
    assert(file_plan(t, Found::Absent, Found::Absent) == Ok::<Seq<StepModel>, FailureModel>(m)) by {
        assert(folder_plan(r + sfx_d(), Found::Absent)->Ok_0 + seq![StepModel::CreateFile(t)] =~= m);
    }
    assert(Seq::<StepModel>::empty() + m =~= m);
    assert(create_plan(r, t, DiskEntryType::File, pr) == Ok::<Seq<StepModel>, FailureModel>(m));
    assert(fresh_step(r, 2) == m);
}

proof fn lemma_fresh_stage_3(r: Seq<char>)
    requires
        r.len() > 0,
        r.last() != '/',
    ensures
        plan_entries(r, scaffold_spec(), 3) == Ok::<Seq<StepModel>, FailureModel>(
            fresh_upto(r, 3),
        ),
{
    let es = scaffold_spec();
    lemma_fresh_stage_2(r);
    lemma_fresh_target_i(r);
    lemma_fresh_parents(r);
    lemma_fresh_within(r);
    lemma_fresh_within_late(r);
    lemma_fresh_disk(r);
    let s0 = fresh_upto(r, 2);
    let t = r + (sfx_i() + sfx_mod());
    assert(es[2].2 == DiskEntryType::File);
    let pr = probe(s0, r, t);
    assert(pr.base == Found::Dir && pr.target == Found::Absent && pr.parent == Found::Absent);
    let m = seq![StepModel::CreateDirAll(r + sfx_i()), StepModel::CreateFile(t)];
    assert(file_plan(t, Found::Absent, Found::Absent) == Ok::<Seq<StepModel>, FailureModel>(m)) by {
        assert(folder_plan(r + sfx_i(), Found::Absent)->Ok_0 + seq![StepModel::CreateFile(t)] =~= m);
    }
    assert(Seq::<StepModel>::empty() + m =~= m);
    assert(create_plan(r, t, DiskEntryType::File, pr) == Ok::<Seq<StepModel>, FailureModel>(m));
    assert(fresh_step(r, 3) == m);
}

proof fn lemma_fresh_stage_4(r: Seq<char>)
    requires
        r.len() > 0,
        r.last() != '/',
    ensures
        plan_entries(r, scaffold_spec(), 4) == Ok::<Seq<StepModel>, FailureModel>(
            fresh_upto(r, 4),
        ),
{
    let es = scaffold_spec();
    lemma_fresh_stage_3(r);
    lemma_fresh_target_c(r);
    lemma_fresh_parents(r);
    lemma_fresh_within(r);
    lemma_fresh_within_late(r);
    lemma_fresh_disk(r);
    let s0 = fresh_upto(r, 3);
    let t = r + sfx_c();
    assert(es[3].2 == DiskEntryType::File);
    let pr = probe(s0, r, t);
    assert(pr.base == Found::Dir && pr.target == Found::Absent && pr.parent == Found::Dir);
    let m = seq![StepModel::CreateFile(t)];
    assert(file_plan(t, Found::Absent, Found::Dir) == Ok::<Seq<StepModel>, FailureModel>(m)) by {
        assert(Seq::<StepModel>::empty() + m =~= m);
    }
    assert(Seq::<StepModel>::empty() + m =~= m);
    assert(create_plan(r, t, DiskEntryType::File, pr) == Ok::<Seq<StepModel>, FailureModel>(m));
    assert(fresh_step(r, 4) == m);
}

proof fn lemma_fresh_stage_5(r: Seq<char>)
    requires
        r.len() > 0,
        r.last() != '/',
    ensures
        plan_entries(r, scaffold_spec(), 5) == Ok::<Seq<StepModel>, FailureModel>(
            fresh_upto(r, 5),
        ),
{
    let es = scaffold_spec();
    lemma_fresh_stage_4(r);
    lemma_fresh_target_m(r);
    lemma_fresh_parents(r);
    lemma_fresh_within(r);
    lemma_fresh_within_late(r);
    lemma_fresh_disk(r);
    let s0 = fresh_upto(r, 4);
    let t = r + sfx_m();
    assert(es[4].2 == DiskEntryType::File);
    let pr = probe(s0, r, t);
    assert(pr.base == Found::Dir && pr.target == Found::Absent && pr.parent == Found::Dir);
    let m = seq![StepModel::CreateFile(t)];
    assert(file_plan(t, Found::Absent, Found::Dir) == Ok::<Seq<StepModel>, FailureModel>(m)) by {
        assert(Seq::<StepModel>::empty() + m =~= m);
    }
    assert(Seq::<StepModel>::empty() + m =~= m);
    assert(create_plan(r, t, DiskEntryType::File, pr) == Ok::<Seq<StepModel>, FailureModel>(m));
    assert(fresh_step(r, 5) == m);
}

/// Every step of a run on the absent root `r`: the root; `src/application`,
/// `src/domain` and `src/infrastructure`, each with an empty `mod.rs`; an empty
/// `Cargo.toml` and `src/main.rs`; then the entry point's source and the
/// manifest written into them.
pub open spec fn fresh_plan(r: Seq<char>, name: Seq<char>, details: Seq<char>) -> Seq<StepModel> {
    fresh_upto(r, 5).push(StepModel::WriteFile(r + sfx_m(), encode_utf8(main_text()))).push(
        StepModel::WriteFile(r + sfx_c(), encode_utf8(manifest_text(name, details))),
    )
}

/// On a root that is not empty and does not end in a separator, a run's plan
/// never fails, and is `fresh_plan`.
pub proof fn lemma_fresh_run_ok(r: Seq<char>, name: Seq<char>, details: Seq<char>)
    requires
        r.len() > 0,
        r.last() != '/',
    ensures
        run_plan(r, name, details) == Ok::<Seq<StepModel>, FailureModel>(
            fresh_plan(r, name, details),
        ),
{
    lemma_fresh_stage_5(r);
    lemma_fresh_target_m(r);
    lemma_fresh_target_c(r);
    lemma_fresh_within_late(r);
    lemma_fresh_disk(r);
    let s = fresh_upto(r, 5);
    let es = scaffold_spec();
    assert(join_spec("src"@, "main.rs"@) == join_spec(es[4].0, es[4].1));
    assert(join_spec(""@, "Cargo.toml"@) == join_spec(es[3].0, es[3].1));
    assert(on_disk(s, r + sfx_m()));
    let w1 = StepModel::WriteFile(r + sfx_m(), encode_utf8(main_text()));
    assert(on_disk(s, r + sfx_c()));
    assert(s.push(w1).drop_last() =~= s);
    assert(on_disk(s.push(w1), r + sfx_c()));
}

/// The tree a run leaves under a root that was absent: the root, `src` and
/// its three module directories, an empty `mod.rs` in each, the entry point's
/// source in `src/main.rs`, and the manifest with the project's name and
/// description in `Cargo.toml`.
pub proof fn law_fresh_layout(r: Seq<char>, name: Seq<char>, details: Seq<char>)
    requires
        r.len() > 0,
        r.last() != '/',
    ensures
        ({
            let m = apply_plan(Map::empty(), fresh_plan(r, name, details));
            &&& m.contains_key(r) && m.contains_key(r + sfx_s()) && m.contains_key(r + sfx_a())
                && m.contains_key(r + sfx_d()) && m.contains_key(r + sfx_i())
            &&& m[r] is Dir
            &&& m[r + sfx_s()] is Dir
            &&& m[r + sfx_a()] is Dir
            &&& m[r + sfx_d()] is Dir
            &&& m[r + sfx_i()] is Dir
            &&& m[r + (sfx_a() + sfx_mod())] == Node::File(Seq::empty())
            &&& m[r + (sfx_d() + sfx_mod())] == Node::File(Seq::empty())
            &&& m[r + (sfx_i() + sfx_mod())] == Node::File(Seq::empty())
            &&& m[r + sfx_m()] == Node::File(encode_utf8(main_text()))
            &&& m[r + sfx_c()] == Node::File(encode_utf8(manifest_text(name, details)))
        }),
{
    let e = Map::<Seq<char>, Node>::empty();
    lemma_fresh_within(r);
    lemma_fresh_within_late(r);
    assert(is_within(r, r));
    assert(is_within(r + sfx_a(), r + sfx_a()));
    assert(is_within(r + sfx_d(), r + sfx_d()));
    assert(is_within(r + sfx_i(), r + sfx_i()));
    lemma_apply_one(e, StepModel::CreateDirAll(r));
    let m0 = apply_plan(e, fresh_upto(r, 0));
    assert(m0.contains_key(r) && m0[r] is Dir);
    lemma_apply_concat(e, fresh_upto(r, 0), fresh_step(r, 1));
    lemma_apply_two(m0, fresh_step(r, 1)[0], fresh_step(r, 1)[1]);
    let m1 = apply_plan(e, fresh_upto(r, 1));
    assert(r + (sfx_a() + sfx_mod()) != r);
    assert(m1.contains_key(r) && m1[r] is Dir);
    assert(m1.contains_key(r + sfx_s()) && m1[r + sfx_s()] is Dir);
    assert(m1[r + (sfx_a() + sfx_mod())] == Node::File(Seq::empty()));
    lemma_apply_concat(e, fresh_upto(r, 1), fresh_step(r, 2));
    lemma_apply_two(m1, fresh_step(r, 2)[0], fresh_step(r, 2)[1]);
    let m2 = apply_plan(e, fresh_upto(r, 2));
    lemma_apply_concat(e, fresh_upto(r, 2), fresh_step(r, 3));
    lemma_apply_two(m2, fresh_step(r, 3)[0], fresh_step(r, 3)[1]);
    let m3 = apply_plan(e, fresh_upto(r, 3));
    lemma_apply_concat(e, fresh_upto(r, 3), fresh_step(r, 4));
    lemma_apply_one(m3, fresh_step(r, 4)[0]);
    let m4 = apply_plan(e, fresh_upto(r, 4));
    lemma_apply_concat(e, fresh_upto(r, 4), fresh_step(r, 5));
    lemma_apply_one(m4, fresh_step(r, 5)[0]);
    let s5 = fresh_upto(r, 5);
    let m5 = apply_plan(e, s5);
    assert(m5.contains_key(r) && m5[r] is Dir);
    assert(m5.contains_key(r + sfx_s()) && m5[r + sfx_s()] is Dir);
    assert(m5[r + (sfx_a() + sfx_mod())] == Node::File(Seq::empty()));
    let w1 = StepModel::WriteFile(r + sfx_m(), encode_utf8(main_text()));
    let all = fresh_plan(r, name, details);
    let w2 = StepModel::WriteFile(r + sfx_c(), encode_utf8(manifest_text(name, details)));
    assert(all.drop_last() =~= s5.push(w1));
    assert(all.last() == w2);
    assert(s5.push(w1).drop_last() =~= s5);
    assert(s5.push(w1).last() == w1);
    let m6 = apply_plan(e, s5.push(w1));
    assert(m6 == apply_step(m5, w1));
    let m = apply_plan(e, all);
    assert(m == apply_step(m6, w2));
    assert(m5[r + sfx_a()] is Dir);
    assert(m5[r + sfx_d()] is Dir);
    assert(m5[r + sfx_i()] is Dir);
    assert(m5[r + (sfx_d() + sfx_mod())] == Node::File(Seq::empty()));
    assert(m5[r + (sfx_i() + sfx_mod())] == Node::File(Seq::empty()));
    assert(r + sfx_c() != r + sfx_m());
}

proof fn lemma_under_root(r: Seq<char>, x: Seq<char>)
    requires
        r.len() > 0,
        x.len() > 0,
        x[0] == '/',
    ensures
        is_within(r, r + x),
{
    assert((r + x).subrange(0, r.len() as int) =~= r);
}

/// A run on a root where nothing stands, at it or under it, leaves every node
/// already on disk as it was: it adds the project's tree and overwrites
/// nothing.
pub proof fn law_run_keeps_disk(d: DiskModel, r: Seq<char>, name: Seq<char>, details: Seq<char>)
    requires
        r.len() > 0,
        r.last() != '/',
        forall|p: Seq<char>| #[trigger] d.contains_key(p) ==> !is_within(r, p),
    ensures
        ({
            let after = apply_plan(d, fresh_plan(r, name, details));
            forall|p: Seq<char>| #[trigger]
                d.contains_key(p) ==> after.contains_key(p) && after[p] == d[p]
        }),
{
    let am = sfx_a() + sfx_mod();
    let dm = sfx_d() + sfx_mod();
    let im = sfx_i() + sfx_mod();
    lemma_under_root(r, am);
    lemma_under_root(r, dm);
    lemma_under_root(r, im);
    lemma_under_root(r, sfx_c());
    lemma_under_root(r, sfx_m());
    let all = fresh_plan(r, name, details);
    let w1 = StepModel::WriteFile(r + sfx_m(), encode_utf8(main_text()));
    let w2 = StepModel::WriteFile(r + sfx_c(), encode_utf8(manifest_text(name, details)));
    let listed = seq![
        StepModel::CreateDirAll(r),
        StepModel::CreateDirAll(r + sfx_a()),
        StepModel::CreateFile(r + am),
        StepModel::CreateDirAll(r + sfx_d()),
        StepModel::CreateFile(r + dm),
        StepModel::CreateDirAll(r + sfx_i()),
        StepModel::CreateFile(r + im),
        StepModel::CreateFile(r + sfx_c()),
        StepModel::CreateFile(r + sfx_m()),
        w1,
        w2,
    ];
    assert(fresh_upto(r, 0) == fresh_step(r, 0));
    assert(fresh_upto(r, 1) == fresh_upto(r, 0) + fresh_step(r, 1));
    assert(fresh_upto(r, 2) =~= fresh_upto(r, 1) + fresh_step(r, 2));
    assert(fresh_upto(r, 3) =~= fresh_upto(r, 2) + fresh_step(r, 3));
    assert(fresh_upto(r, 4) =~= fresh_upto(r, 3) + fresh_step(r, 4));
    assert(fresh_upto(r, 5) =~= fresh_upto(r, 4) + fresh_step(r, 5));
    assert(all =~= listed);
    assert forall|i: int, p: Seq<char>|
        0 <= i < all.len() && d.contains_key(p) implies !#[trigger] writes_at(all[i], p) by {
        if writes_at(all[i], p) {
            assert(p == r + am || p == r + dm || p == r + im || p == r + sfx_c() || p == r
                + sfx_m());
        }
    }
    lemma_keeps_nodes(d, all);
}

} // verus!

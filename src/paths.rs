use vstd::prelude::*;

verus! {

/// The path `name` joined onto `base`, as `Path::join` does it on text: an
/// absolute `name` replaces `base`; otherwise one separator is put between them
/// unless `base` is empty or already ends in one.
pub open spec fn join_spec(base: Seq<char>, name: Seq<char>) -> Seq<char> {
    if name.len() > 0 && name[0] == '/' {
        name
    } else if base.len() == 0 || base.last() == '/' {
        base + name
    } else {
        base + seq!['/'] + name
    }
}

/// Joins `name` onto `base`.
pub fn join_paths(base: &str, name: &str) -> (r: String)
    ensures
        r@ == join_spec(base@, name@),
{
    let nlen = name.unicode_len();
    let blen = base.unicode_len();
    if nlen > 0 && name.get_char(0) == '/' {
        return name.to_owned();
    }
    let mut r = base.to_owned();
    if !(blen == 0 || base.get_char(blen - 1) == '/') {
        r.append("/");
        proof { reveal_strlit("/"); }
    }
    r.append(name);
    proof {
        if !(base@.len() == 0 || base@.last() == '/') {
            assert(r@ =~= base@ + seq!['/'] + name@);
        }
    }
    r
}

/// Index of the last separator in the first `n` characters of `p`, or -1.
pub open spec fn last_sep_before(p: Seq<char>, n: int) -> int
    decreases n,
{
    if n <= 0 {
        -1
    } else if p[n - 1] == '/' {
        n - 1
    } else {
        last_sep_before(p, n - 1)
    }
}

/// Index of the last separator of `p`, or -1.
pub open spec fn last_sep(p: Seq<char>) -> int {
    last_sep_before(p, p.len() as int)
}

/// `p` without the separators at its end.
pub open spec fn trim_seps(p: Seq<char>) -> Seq<char>
    decreases p.len(),
{
    if p.len() > 0 && p.last() == '/' {
        trim_seps(p.drop_last())
    } else {
        p
    }
}

/// The directory that holds `p`: what precedes its last component, without
/// the separators between them; `/` for a child of the file-system root, and
/// empty for a bare name. A path with no component (empty, or separators
/// only) has none. Separators at the end of `p` are ignored.
pub open spec fn parent_spec(p: Seq<char>) -> Option<Seq<char>> {
    let t = trim_seps(p);
    let i = last_sep(t);
    if t.len() == 0 {
        None
    } else if i < 0 {
        Some(Seq::empty())
    } else if trim_seps(t.subrange(0, i)).len() == 0 {
        Some(seq!['/'])
    } else {
        Some(trim_seps(t.subrange(0, i)))
    }
}

/// `trim_seps` keeps a prefix of its argument.
pub proof fn lemma_trim_seps_prefix(p: Seq<char>)
    ensures
        trim_seps(p).len() <= p.len(),
        trim_seps(p) == p.subrange(0, trim_seps(p).len() as int),
        trim_seps(p).len() > 0 ==> trim_seps(p).last() != '/',
    decreases p.len(),
{
    if p.len() > 0 && p.last() == '/' {
        lemma_trim_seps_prefix(p.drop_last());
        assert(p.drop_last().subrange(0, trim_seps(p).len() as int) =~= p.subrange(
            0,
            trim_seps(p).len() as int,
        ));
    } else {
        assert(p.subrange(0, p.len() as int) =~= p);
    }
}

/// The length of `trim_seps(p)`.
pub fn trim_seps_len(p: &str) -> (r: usize)
    ensures
        r <= p@.len(),
        trim_seps(p@) == p@.subrange(0, r as int),
{
    let len = p.unicode_len();
    let mut end: usize = len;
    assert(p@.subrange(0, len as int) =~= p@);
    while end > 0 && p.get_char(end - 1) == '/'
        invariant
            end <= len == p@.len(),
            trim_seps(p@) == trim_seps(p@.subrange(0, end as int)),
        decreases end,
    {
        assert(p@.subrange(0, end as int).drop_last() =~= p@.subrange(0, end - 1));
        end = end - 1;
    }
    end
}

/// `a` names `p` itself or one of the directories on the way to it.
pub open spec fn is_within(a: Seq<char>, p: Seq<char>) -> bool {
    &&& a.len() > 0
    &&& (a == p || (a.len() < p.len() && p.subrange(0, a.len() as int) == a && p[a.len() as int]
        == '/'))
}

/// `p` without the separators and `.` components at its end.
pub open spec fn trim_end(p: Seq<char>) -> Seq<char>
    decreases p.len(),
{
    if p.len() > 0 && p.last() == '/' {
        trim_end(p.drop_last())
    } else if p.len() >= 2 && p.last() == '.' && p[p.len() - 2] == '/' {
        trim_end(p.drop_last())
    } else {
        p
    }
}

/// The last component of `p`: the text after the last separator, once the
/// separators and `.` components at its end are dropped.
pub open spec fn file_name_spec(p: Seq<char>) -> Seq<char> {
    let t = trim_end(p);
    t.subrange(last_sep(t) + 1, t.len() as int)
}

/// The length of `trim_end(p)`.
pub fn trim_end_len(p: &str) -> (r: usize)
    ensures
        r <= p@.len(),
        trim_end(p@) == p@.subrange(0, r as int),
{
    let len = p.unicode_len();
    let mut end: usize = len;
    assert(p@.subrange(0, len as int) =~= p@);
    loop
        invariant
            end <= len == p@.len(),
            trim_end(p@) == trim_end(p@.subrange(0, end as int)),
        decreases end,
    {
        let ghost sub = p@.subrange(0, end as int);
        let slash = end > 0 && p.get_char(end - 1) == '/';
        let dot = end >= 2 && p.get_char(end - 1) == '.' && p.get_char(end - 2) == '/';
        if !slash && !dot {
            return end;
        }
        assert(sub.drop_last() =~= p@.subrange(0, end - 1));
        end = end - 1;
    }
}

/// `p` has an extension: its last component is not `..` and holds a dot after
/// its first character.
pub open spec fn has_extension_spec(p: Seq<char>) -> bool {
    let n = file_name_spec(p);
    n != seq!['.', '.'] && exists|k: int| 0 < k < n.len() && n[k] == '.'
}

pub proof fn lemma_last_sep_range(p: Seq<char>, n: int)
    requires
        0 <= n <= p.len(),
    ensures
        -1 <= last_sep_before(p, n) < n,
        last_sep_before(p, n) >= 0 ==> p[last_sep_before(p, n)] == '/',
        forall|j: int| last_sep_before(p, n) < j < n ==> p[j] != '/',
    decreases n,
{
    if n > 0 {
        lemma_last_sep_range(p, n - 1);
    }
}

/// Finds the last separator of `p`.
pub fn find_last_sep(p: &str) -> (r: Option<usize>)
    ensures
        match r {
            Some(i) => i as int == last_sep(p@),
            None => last_sep(p@) == -1,
        },
{
    let len = p.unicode_len();
    let mut n: usize = len;
    while n > 0
        invariant
            n <= len,
            len == p@.len(),
            last_sep_before(p@, n as int) == last_sep(p@),
        decreases n,
    {
        if p.get_char(n - 1) == '/' {
            return Some(n - 1);
        }
        n = n - 1;
    }
    None
}

/// The directory that holds `p`, where it has one.
pub fn parent_path(p: &str) -> (r: Option<String>)
    ensures
        match r {
            Some(q) => parent_spec(p@) == Some(q@),
            None => parent_spec(p@).is_none(),
        },
{
    let tlen = trim_seps_len(p);
    if tlen == 0 {
        return None;
    }
    let t = p.substring_char(0, tlen);
    match find_last_sep(t) {
        None => Some(String::new()),
        Some(i) => {
            proof { lemma_last_sep_range(t@, t@.len() as int); }
            let head = t.substring_char(0, i);
            let hlen = trim_seps_len(head);
            if hlen == 0 {
                proof { reveal_strlit("/"); }
                let r = "/".to_owned();
                assert(r@ =~= seq!['/']);
                Some(r)
            } else {
                Some(head.substring_char(0, hlen).to_owned())
            }
        },
    }
}

/// Tells whether `a` names `p` itself or one of the directories on the way to it.
pub fn is_within_path(a: &str, p: &str) -> (r: bool)
    ensures
        r == is_within(a@, p@),
{
    let alen = a.unicode_len();
    let plen = p.unicode_len();
    if alen == 0 || alen > plen {
        return false;
    }
    let mut i: usize = 0;
    while i < alen
        invariant
            i <= alen <= plen,
            alen == a@.len(),
            plen == p@.len(),
            forall|j: int| 0 <= j < i ==> a@[j] == p@[j],
        decreases alen - i,
    {
        if a.get_char(i) != p.get_char(i) {
            assert(p@.subrange(0, alen as int)[i as int] != a@[i as int]);
            assert(a@ != p@);
            return false;
        }
        i = i + 1;
    }
    assert(p@.subrange(0, alen as int) =~= a@);
    if alen == plen {
        assert(a@ =~= p@);
        true
    } else {
        p.get_char(alen) == '/'
    }
}

} // verus!

use vstd::prelude::*;

use crate::package::{
    parse_package_path, parse_spec, pkg_cmp, pkg_vercmp, PackageIdentity, PackageIdentityView,
};
use crate::version::{lex_cmp, path_before};

verus! {

/// A package archive found on disk, with whether a `.sig` file sits beside it.
#[derive(Clone, Debug, PartialEq, Eq)]
pub struct PackageFile {
    pub path: String,
    pub has_signature: bool,
}

/// Two identities name the same package when name and architecture agree.
pub open spec fn same_group(a: PackageIdentityView, b: PackageIdentityView) -> bool {
    a.name == b.name && a.arch == b.arch
}

impl PackageFile {
    /// A copy of this file record.
    pub fn duplicate(&self) -> (r: PackageFile)
        ensures
            r == *self,
    {
        PackageFile { path: self.path.clone(), has_signature: self.has_signature }
    }
}

pub open spec fn parsed(f: Seq<PackageFile>) -> Seq<Option<PackageIdentityView>> {
    f.map_values(|x: PackageFile| parse_spec(x.path@))
}

pub open spec fn paths_of(f: Seq<PackageFile>) -> Seq<Seq<char>> {
    f.map_values(|x: PackageFile| x.path@)
}

/// `a` (at path `pa`) takes the place of `b` (at path `pb`): it is newer, or
/// as new and its path sorts first.
pub open spec fn beats(a: PackageIdentityView, pa: Seq<char>, b: PackageIdentityView, pb: Seq<char>) -> bool {
    pkg_cmp(a, b) > 0 || (pkg_cmp(a, b) == 0 && lex_cmp(pa, pb) < 0)
}

/// The index of the newest file of group `g` among the first `n`, the files
/// being at the paths `q`: a file takes the place of the current one when it
/// beats it, so of equal versions the one whose path sorts first stays.
/// -1 when the group has no file there.
pub open spec fn keeper_upto(p: Seq<Option<PackageIdentityView>>, q: Seq<Seq<char>>, g: PackageIdentityView, n: int) -> int
    decreases n,
{
    if n <= 0 || n > p.len() {
        -1
    } else {
        let prev = keeper_upto(p, q, g, n - 1);
        if p[n - 1] is Some && same_group(p[n - 1]->0, g) && (prev < 0 || beats(
            p[n - 1]->0,
            q[n - 1],
            p[prev]->0,
            q[prev],
        )) {
            n - 1
        } else {
            prev
        }
    }
}

/// File `i` is the newest of its group.
pub open spec fn is_new(p: Seq<Option<PackageIdentityView>>, q: Seq<Seq<char>>, i: int) -> bool {
    p[i] is Some && keeper_upto(p, q, p[i]->0, p.len() as int) == i
}

/// File `i` is superseded by another file of its group.
pub open spec fn is_outdated(p: Seq<Option<PackageIdentityView>>, q: Seq<Seq<char>>, i: int) -> bool {
    p[i] is Some && keeper_upto(p, q, p[i]->0, p.len() as int) != i
}

/// The files among the first `n` that are new (or outdated), in their order.
pub open spec fn select(f: Seq<PackageFile>, n: int, new: bool) -> Seq<PackageFile>
    decreases n,
{
    if n <= 0 || n > f.len() {
        Seq::empty()
    } else {
        let r = select(f, n - 1, new);
        if (new && is_new(parsed(f), paths_of(f), n - 1)) || (!new && is_outdated(parsed(f), paths_of(f), n - 1)) {
            r.push(f[n - 1])
        } else {
            r
        }
    }
}

pub open spec fn opt_view(o: Option<PackageIdentity>) -> Option<PackageIdentityView> {
    match o {
        Some(x) => Some(x@),
        None => None,
    }
}

proof fn lemma_keeper_bounds(p: Seq<Option<PackageIdentityView>>, q: Seq<Seq<char>>, g: PackageIdentityView, n: int)
    requires
        0 <= n <= p.len(),
    ensures
        -1 <= keeper_upto(p, q, g, n) < n,
        keeper_upto(p, q, g, n) >= 0 ==> p[keeper_upto(p, q, g, n)] is Some && same_group(
            p[keeper_upto(p, q, g, n)]->0,
            g,
        ),
        keeper_upto(p, q, g, n) < p.len(),
    decreases n,
{
    if n > 0 {
        lemma_keeper_bounds(p, q, g, n - 1);
    }
}

proof fn lemma_keeper_exists(p: Seq<Option<PackageIdentityView>>, q: Seq<Seq<char>>, g: PackageIdentityView, n: int, i: int)
    requires
        0 <= i < n <= p.len(),
        p[i] is Some,
        same_group(p[i]->0, g),
    ensures
        keeper_upto(p, q, g, n) >= 0,
    decreases n,
{
    if i < n - 1 {
        lemma_keeper_exists(p, q, g, n - 1, i);
    }
}

proof fn lemma_keeper_same_group(
    p: Seq<Option<PackageIdentityView>>,
    q: Seq<Seq<char>>,
    g: PackageIdentityView,
    h: PackageIdentityView,
    n: int,
)
    requires
        same_group(g, h),
    ensures
        keeper_upto(p, q, g, n) == keeper_upto(p, q, h, n),
    decreases n,
{
    if n > 0 && n <= p.len() {
        lemma_keeper_same_group(p, q, g, h, n - 1);
    }
}

/// Classification splits each group of files with the same name and
/// architecture exactly: no file is both new and outdated, every parsed file
/// is one of the two, and each group has exactly one new file.
pub proof fn lemma_classification_partitions(f: Seq<PackageFile>, i: int)
    requires
        0 <= i < f.len(),
        parsed(f)[i] is Some,
    ensures
        !(is_new(parsed(f), paths_of(f), i) && is_outdated(parsed(f), paths_of(f), i)),
        is_new(parsed(f), paths_of(f), i) || is_outdated(parsed(f), paths_of(f), i),
        exists|k: int|
            0 <= k < f.len() && #[trigger] is_new(parsed(f), paths_of(f), k) && same_group(
                parsed(f)[k]->0,
                parsed(f)[i]->0,
            ),
        forall|j: int, k: int|
            0 <= j < f.len() && 0 <= k < f.len() && is_new(parsed(f), paths_of(f), j) && is_new(parsed(f), paths_of(f), k)
                && same_group(parsed(f)[j]->0, parsed(f)[i]->0) && same_group(
                parsed(f)[k]->0,
                parsed(f)[i]->0,
            ) ==> j == k,
{
    let p = parsed(f);
    let q = paths_of(f);
    let g = p[i]->0;
    let n = p.len() as int;
    lemma_keeper_exists(p, q, g, n, i);
    lemma_keeper_bounds(p, q, g, n);
    let k = keeper_upto(p, q, g, n);
    lemma_keeper_same_group(p, q, g, p[k]->0, n);
    assert(is_new(p, q, k));
    assert forall|j: int, k2: int|
        0 <= j < f.len() && 0 <= k2 < f.len() && is_new(p, q, j) && is_new(p, q, k2) && same_group(
            p[j]->0,
            g,
        ) && same_group(p[k2]->0, g) implies j == k2 by {
        lemma_keeper_same_group(p, q, g, p[j]->0, n);
        lemma_keeper_same_group(p, q, g, p[k2]->0, n);
    }
}

/// The files of `s` all parse and no two share a package and architecture.
pub open spec fn distinct_groups(s: Seq<PackageFile>) -> bool {
    &&& forall|a: int| 0 <= a < s.len() ==> (#[trigger] parsed(s)[a]) is Some
    &&& forall|a: int, b: int|
        0 <= a < s.len() && 0 <= b < s.len() && a != b ==> !same_group(
            #[trigger] parsed(s)[a]->0,
            #[trigger] parsed(s)[b]->0,
        )
}

/// Where the `a`-th new file among the first `n` stands in `f`.
pub open spec fn src_index(f: Seq<PackageFile>, n: int, a: int) -> int
    decreases n,
{
    if n <= 0 || n > f.len() {
        -1
    } else if is_new(parsed(f), paths_of(f), n - 1) && a == select(f, n - 1, true).len() {
        n - 1
    } else {
        src_index(f, n - 1, a)
    }
}

proof fn lemma_select_new_distinct(f: Seq<PackageFile>, n: int)
    requires
        0 <= n <= f.len(),
    ensures
        distinct_groups(select(f, n, true)),
        forall|a: int|
            0 <= a < select(f, n, true).len() ==> 0 <= #[trigger] src_index(f, n, a) < n && is_new(
                parsed(f),
                paths_of(f),
                src_index(f, n, a),
            ) && select(f, n, true)[a] == f[src_index(f, n, a)],
    decreases n,
{
    if n > 0 {
        lemma_select_new_distinct(f, n - 1);
        let r = select(f, n - 1, true);
        let s = select(f, n, true);
        let p = parsed(f);
        let q = paths_of(f);
    let q = paths_of(f);
        if is_new(p, q, n - 1) {
            assert(s == r.push(f[n - 1]));
            lemma_classification_partitions(f, n - 1);
            assert forall|a: int| 0 <= a < s.len() implies 0 <= #[trigger] src_index(f, n, a) < n && is_new(
                p,
                q,
                src_index(f, n, a),
            ) && s[a] == f[src_index(f, n, a)] by {
                if a < r.len() {
                    assert(src_index(f, n, a) == src_index(f, n - 1, a));
                    assert(s[a] == r[a]);
                } else {
                    assert(s[a] == f[n - 1]);
                }
            }
            assert forall|a: int| 0 <= a < s.len() implies (#[trigger] parsed(s)[a]) is Some by {
                if a < r.len() {
                    assert(parsed(r)[a] is Some);
                    assert(s[a] == r[a]);
                } else {
                    assert(s[a] == f[n - 1]);
                }
            }
            assert forall|a: int, b: int|
                0 <= a < s.len() && 0 <= b < s.len() && a != b implies !same_group(
                #[trigger] parsed(s)[a]->0,
                #[trigger] parsed(s)[b]->0,
            ) by {
                if a < r.len() && b < r.len() {
                    assert(s[a] == r[a] && s[b] == r[b]);
                    assert(!same_group(parsed(r)[a]->0, parsed(r)[b]->0));
                } else if a < r.len() || b < r.len() {
                    let x = if a < r.len() { a } else { b };
                    let y = if a < r.len() { b } else { a };
                    let k = src_index(f, n - 1, x);
                    assert(src_index(f, n - 1, x) == k);
                    assert(s[x] == r[x]);
                    assert(s[y] == f[n - 1]);
                    assert(parsed(s)[x] == p[k]);
                    assert(parsed(s)[y] == p[n - 1]);
                    if same_group(p[k]->0, p[n - 1]->0) {
                        assert(same_group(p[n - 1]->0, p[n - 1]->0));
                        assert(k == n - 1);
                    }
                }
            }
        } else {
            assert(s == r);
            assert forall|a: int| 0 <= a < s.len() implies 0 <= #[trigger] src_index(f, n, a) < n && is_new(
                p,
                q,
                src_index(f, n, a),
            ) && s[a] == f[src_index(f, n, a)] by {
                assert(src_index(f, n, a) == src_index(f, n - 1, a));
            }
        }
    }
}

proof fn lemma_distinct_keeper(p: Seq<Option<PackageIdentityView>>, q: Seq<Seq<char>>, i: int, n: int)
    requires
        0 <= i < p.len(),
        0 <= n <= p.len(),
        forall|a: int| 0 <= a < p.len() ==> (#[trigger] p[a]) is Some,
        forall|a: int, b: int|
            0 <= a < p.len() && 0 <= b < p.len() && a != b ==> !same_group(#[trigger] p[a]->0, #[trigger] p[b]->0),
    ensures
        keeper_upto(p, q, p[i]->0, n) == if n > i {
            i
        } else {
            -1
        },
    decreases n,
{
    if n > 0 {
        lemma_distinct_keeper(p, q, i, n - 1);
        if n - 1 != i {
            assert(!same_group(p[n - 1]->0, p[i]->0));
        }
    }
}

proof fn lemma_distinct_all_new(s: Seq<PackageFile>, m: int)
    requires
        distinct_groups(s),
        0 <= m <= s.len(),
    ensures
        select(s, m, true) == s.subrange(0, m),
        select(s, m, false).len() == 0,
    decreases m,
{
    if m > 0 {
        lemma_distinct_all_new(s, m - 1);
        lemma_distinct_keeper(parsed(s), paths_of(s), m - 1, s.len() as int);
        assert(s.subrange(0, m - 1).push(s[m - 1]) =~= s.subrange(0, m));
    }
}

/// Classifying the newest files once more keeps every one of them as new and
/// finds none outdated: a second reset with no change on disk in between adds
/// the same files and moves or deletes none.
pub proof fn lemma_reset_idempotent(f: Seq<PackageFile>)
    ensures
        ({
            let s = select(f, f.len() as int, true);
            select(s, s.len() as int, true) == s && select(s, s.len() as int, false).len() == 0
        }),
{
    let s = select(f, f.len() as int, true);
    lemma_select_new_distinct(f, f.len() as int);
    lemma_distinct_all_new(s, s.len() as int);
    assert(s.subrange(0, s.len() as int) =~= s);
}

pub(crate) fn parse_all(files: &Vec<PackageFile>) -> (r: Vec<Option<PackageIdentity>>)
    ensures
        r@.len() == files@.len(),
        forall|k: int| 0 <= k < r@.len() ==> opt_view(#[trigger] r@[k]) == parsed(files@)[k],
{
    let mut r: Vec<Option<PackageIdentity>> = Vec::new();
    let mut i: usize = 0;
    while i < files.len()
        invariant
            i <= files@.len(),
            r@.len() == i,
            forall|k: int| 0 <= k < i ==> opt_view(#[trigger] r@[k]) == parsed(files@)[k],
        decreases files@.len() - i,
    {
        r.push(parse_package_path(files[i].path.as_str()));
        i = i + 1;
    }
    r
}

fn same_group_exec(a: &PackageIdentity, b: &PackageIdentity) -> (r: bool)
    ensures
        r == same_group(a@, b@),
{
    a.name == b.name && a.arch == b.arch
}

/// The index of the newest file in the group of `g`.
fn keeper_exec(ids: &Vec<Option<PackageIdentity>>, files: &Vec<PackageFile>, g: &PackageIdentity) -> (r: Option<usize>)
    requires
        ids@.len() == files@.len(),
    ensures
        r matches Some(k) ==> keeper_upto(ids@.map_values(|o| opt_view(o)), paths_of(files@), g@, ids@.len() as int)
            == k,
        r is None ==> keeper_upto(ids@.map_values(|o| opt_view(o)), paths_of(files@), g@, ids@.len() as int) == -1,
{
    let ghost p = ids@.map_values(|o| opt_view(o));
    let ghost q = paths_of(files@);
    let mut best: Option<usize> = None;
    let mut n: usize = 0;
    while n < ids.len()
        invariant
            n <= ids@.len(),
            ids@.len() == files@.len(),
            p == ids@.map_values(|o| opt_view(o)),
            q == paths_of(files@),
            best matches Some(k) ==> keeper_upto(p, q, g@, n as int) == k && k < n,
            best is None ==> keeper_upto(p, q, g@, n as int) == -1,
        decreases ids@.len() - n,
    {
        proof {
            lemma_keeper_bounds(p, q, g@, n as int);
        }
        match &ids[n] {
            Some(x) => {
                if same_group_exec(x, g) {
                    match best {
                        None => {
                            best = Some(n);
                        },
                        Some(b) => {
                            match &ids[b] {
                                Some(y) => {
                                    let c = pkg_vercmp(x, y);
                                    if c > 0 || (c == 0 && path_before(
                                        files[n].path.as_str(),
                                        files[b].path.as_str(),
                                    )) {
                                        best = Some(n);
                                    }
                                },
                                None => {},
                            }
                        },
                    }
                }
            },
            None => {},
        }
        n = n + 1;
    }
    best
}

/// Splits the files into those that are the newest of their package and
/// architecture (first) and those that an other file supersedes (second);
/// files whose names do not parse are in neither.
pub fn classify_pkgs(files: &Vec<PackageFile>) -> (r: (Vec<PackageFile>, Vec<PackageFile>))
    ensures
        r.0@ == select(files@, files@.len() as int, true),
        r.1@ == select(files@, files@.len() as int, false),
{
    let ids = parse_all(files);
    let ghost p = ids@.map_values(|o| opt_view(o));
    proof {
        assert(p =~= parsed(files@));
    }
    let mut new_files: Vec<PackageFile> = Vec::new();
    let mut old_files: Vec<PackageFile> = Vec::new();
    let mut i: usize = 0;
    while i < files.len()
        invariant
            i <= files@.len(),
            ids@.len() == files@.len(),
            p == ids@.map_values(|o| opt_view(o)),
            p == parsed(files@),
            new_files@ == select(files@, i as int, true),
            old_files@ == select(files@, i as int, false),
        decreases files@.len() - i,
    {
        match &ids[i] {
            Some(g) => {
                let k = keeper_exec(&ids, files, g);
                let keeps = match k {
                    Some(k) => k == i,
                    None => false,
                };
                if keeps {
                    new_files.push(files[i].duplicate());
                } else {
                    old_files.push(files[i].duplicate());
                }
            },
            None => {},
        }
        i = i + 1;
    }
    (new_files, old_files)
}

/// The files that are the newest of their package and architecture.
pub fn get_new_pkgs(files: &Vec<PackageFile>) -> (r: Vec<PackageFile>)
    ensures
        r@ == select(files@, files@.len() as int, true),
{
    classify_pkgs(files).0
}

/// The files that another file of the same package and architecture supersedes.
pub fn get_outdated_pkgs(files: &Vec<PackageFile>) -> (r: Vec<PackageFile>)
    ensures
        r@ == select(files@, files@.len() as int, false),
{
    classify_pkgs(files).1
}

} // verus!

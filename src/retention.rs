use vstd::prelude::*;

use crate::classify::{beats, opt_view, parse_all, parsed, paths_of, PackageFile};
use crate::package::{pkg_cmp, pkg_vercmp, PackageIdentity, PackageIdentityView};
use crate::version::path_before;

verus! {

/// Backups are grouped by package name.
pub open spec fn same_name(a: PackageIdentityView, b: PackageIdentityView) -> bool {
    a.name == b.name
}

/// File `i` belongs to group `g` and was not kept yet.
pub open spec fn open_in(p: Seq<Option<PackageIdentityView>>, g: PackageIdentityView, t: Seq<bool>, i: int) -> bool {
    p[i] is Some && same_name(p[i]->0, g) && !t[i]
}

/// The newest file of group `g` among the first `n` that is not kept yet,
/// the files being at the paths `q` (of equal versions, the one whose path
/// sorts first), or -1.
pub open spec fn pick(p: Seq<Option<PackageIdentityView>>, q: Seq<Seq<char>>, g: PackageIdentityView, t: Seq<bool>, n: int) -> int
    decreases n,
{
    if n <= 0 || n > p.len() || n > t.len() {
        -1
    } else {
        let prev = pick(p, q, g, t, n - 1);
        if open_in(p, g, t, n - 1) && (prev < 0 || beats(p[n - 1]->0, q[n - 1], p[prev]->0, q[prev])) {
            n - 1
        } else {
            prev
        }
    }
}

/// Which files of group `g` are kept after `r` rounds, each round keeping
/// the newest file not kept yet.
pub open spec fn kept_mask(p: Seq<Option<PackageIdentityView>>, q: Seq<Seq<char>>, g: PackageIdentityView, r: nat) -> Seq<bool>
    decreases r,
{
    if r == 0 {
        Seq::new(p.len(), |i: int| false)
    } else {
        let t = kept_mask(p, q, g, (r - 1) as nat);
        let k = pick(p, q, g, t, p.len() as int);
        if k < 0 {
            t
        } else {
            t.update(k, true)
        }
    }
}

/// The number of files of group `g` among the first `n` not kept in `t`.
pub open spec fn count_open(p: Seq<Option<PackageIdentityView>>, g: PackageIdentityView, t: Seq<bool>, n: int) -> nat
    decreases n,
{
    if n <= 0 {
        0
    } else if open_in(p, g, t, n - 1) {
        count_open(p, g, t, n - 1) + 1
    } else {
        count_open(p, g, t, n - 1)
    }
}

/// The number of files of group `g`.
pub open spec fn group_size(p: Seq<Option<PackageIdentityView>>, g: PackageIdentityView) -> nat {
    count_open(p, g, Seq::new(p.len(), |i: int| false), p.len() as int)
}

/// File `i` is a backup beyond the `keep` newest of its package.
pub open spec fn is_evicted(p: Seq<Option<PackageIdentityView>>, q: Seq<Seq<char>>, keep: nat, i: int) -> bool {
    p[i] is Some && !kept_mask(p, q, p[i]->0, keep)[i]
}

/// The evicted files among the first `n`, in their order.
pub open spec fn evicted_upto(f: Seq<PackageFile>, keep: nat, n: int) -> Seq<PackageFile>
    decreases n,
{
    if n <= 0 || n > f.len() {
        Seq::empty()
    } else {
        let r = evicted_upto(f, keep, n - 1);
        if is_evicted(parsed(f), paths_of(f), keep, n - 1) {
            r.push(f[n - 1])
        } else {
            r
        }
    }
}

proof fn lemma_pick(p: Seq<Option<PackageIdentityView>>, q: Seq<Seq<char>>, g: PackageIdentityView, t: Seq<bool>, n: int)
    requires
        0 <= n <= p.len(),
        t.len() == p.len(),
    ensures
        -1 <= pick(p, q, g, t, n) < n,
        pick(p, q, g, t, n) >= 0 ==> open_in(p, g, t, pick(p, q, g, t, n)),
        (pick(p, q, g, t, n) < 0) == (count_open(p, g, t, n) == 0),
    decreases n,
{
    if n > 0 {
        lemma_pick(p, q, g, t, n - 1);
    }
}

proof fn lemma_count_take(p: Seq<Option<PackageIdentityView>>, g: PackageIdentityView, t: Seq<bool>, k: int, n: int)
    requires
        0 <= k < t.len(),
        0 <= n <= p.len(),
        t.len() == p.len(),
        open_in(p, g, t, k),
    ensures
        count_open(p, g, t.update(k, true), n) == if k < n {
            count_open(p, g, t, n) - 1
        } else {
            count_open(p, g, t, n) as int
        },
    decreases n,
{
    if n > 0 {
        lemma_count_take(p, g, t, k, n - 1);
        if k < n - 1 {
            assert(count_open(p, g, t, n - 1) > 0) by {
                lemma_count_positive(p, g, t, k, n - 1);
            }
        }
    }
}

proof fn lemma_count_positive(p: Seq<Option<PackageIdentityView>>, g: PackageIdentityView, t: Seq<bool>, k: int, n: int)
    requires
        0 <= k < n <= p.len(),
        t.len() == p.len(),
        open_in(p, g, t, k),
    ensures
        count_open(p, g, t, n) > 0,
    decreases n,
{
    if k < n - 1 {
        lemma_count_positive(p, g, t, k, n - 1);
    }
}

proof fn lemma_kept_mask_count(p: Seq<Option<PackageIdentityView>>, q: Seq<Seq<char>>, g: PackageIdentityView, r: nat)
    ensures
        kept_mask(p, q, g, r).len() == p.len(),
        count_open(p, g, kept_mask(p, q, g, r), p.len() as int) == if group_size(p, g) >= r {
            group_size(p, g) - r
        } else {
            0
        },
    decreases r,
{
    if r > 0 {
        lemma_kept_mask_count(p, q, g, (r - 1) as nat);
        let t = kept_mask(p, q, g, (r - 1) as nat);
        let n = p.len() as int;
        lemma_pick(p, q, g, t, n);
        let k = pick(p, q, g, t, n);
        if k >= 0 {
            lemma_count_take(p, g, t, k, n);
        }
    }
}

/// Of a package with `k` backups, retention with `keep` evicts `max(k - keep, 0)`.
pub proof fn lemma_retention_count(p: Seq<Option<PackageIdentityView>>, q: Seq<Seq<char>>, g: PackageIdentityView, keep: nat)
    ensures
        count_open(p, g, kept_mask(p, q, g, keep), p.len() as int) == if group_size(p, g) >= keep {
            group_size(p, g) - keep
        } else {
            0
        },
{
    lemma_kept_mask_count(p, q, g, keep);
}

fn pick_exec(ids: &Vec<Option<PackageIdentity>>, files: &Vec<PackageFile>, g: &PackageIdentity, t: &Vec<bool>) -> (r: Option<usize>)
    requires
        t@.len() == ids@.len(),
        files@.len() == ids@.len(),
    ensures
        r matches Some(k) ==> pick(ids@.map_values(|o| opt_view(o)), paths_of(files@), g@, t@, ids@.len() as int) == k,
        r is None ==> pick(ids@.map_values(|o| opt_view(o)), paths_of(files@), g@, t@, ids@.len() as int) == -1,
{
    let ghost p = ids@.map_values(|o| opt_view(o));
    let ghost q = paths_of(files@);
    let mut best: Option<usize> = None;
    let mut n: usize = 0;
    while n < ids.len()
        invariant
            n <= ids@.len(),
            t@.len() == ids@.len(),
            files@.len() == ids@.len(),
            p == ids@.map_values(|o| opt_view(o)),
            q == paths_of(files@),
            best matches Some(k) ==> pick(p, q, g@, t@, n as int) == k && k < n,
            best is None ==> pick(p, q, g@, t@, n as int) == -1,
        decreases ids@.len() - n,
    {
        proof {
            lemma_pick(p, q, g@, t@, n as int);
        }
        if !t[n] {
            match &ids[n] {
                Some(x) => {
                    if x.name == g.name {
                        match best {
                            None => {
                                best = Some(n);
                            },
                            Some(b) => {
                                match &ids[b] {
                                    Some(y) => {
                                        let c = pkg_vercmp(x, y);
                                        if c > 0 || (c == 0 && path_before(
                                            files[n].path.as_str(),
                                            files[b].path.as_str(),
                                        )) {
                                            best = Some(n);
                                        }
                                    },
                                    None => {},
                                }
                            },
                        }
                    }
                },
                None => {},
            }
        }
        n = n + 1;
    }
    best
}

fn kept_mask_exec(ids: &Vec<Option<PackageIdentity>>, files: &Vec<PackageFile>, g: &PackageIdentity, keep: usize) -> (r: Vec<bool>)
    requires
        files@.len() == ids@.len(),
    ensures
        r@ == kept_mask(ids@.map_values(|o| opt_view(o)), paths_of(files@), g@, keep as nat),
{
    let ghost p = ids@.map_values(|o| opt_view(o));
    let ghost q = paths_of(files@);
    let mut t: Vec<bool> = Vec::new();
    let mut i: usize = 0;
    while i < ids.len()
        invariant
            i <= ids@.len(),
            t@ == Seq::new(i as nat, |k: int| false),
        decreases ids@.len() - i,
    {
        t.push(false);
        i = i + 1;
        proof {
            assert(t@ =~= Seq::new(i as nat, |k: int| false));
        }
    }
    let mut r: usize = 0;
    while r < keep
        invariant
            r <= keep,
            files@.len() == ids@.len(),
            p == ids@.map_values(|o| opt_view(o)),
            q == paths_of(files@),
            t@ == kept_mask(p, q, g@, r as nat),
            t@.len() == ids@.len(),
        decreases keep - r,
    {
        match pick_exec(ids, files, g, &t) {
            Some(k) => {
                proof {
                    lemma_pick(p, q, g@, t@, ids@.len() as int);
                }
                t.set(k, true);
            },
            None => {},
        }
        r = r + 1;
    }
    t
}

/// The backups to remove: for each package name, every file beyond the
/// `keep` newest versions. They come as one list in the order the files were
/// given, not grouped by name; each file's name is in its path.
pub fn get_stale_pkg_versions(files: &Vec<PackageFile>, keep: usize) -> (r: Vec<PackageFile>)
    ensures
        r@ == evicted_upto(files@, keep as nat, files@.len() as int),
{
    let ids = parse_all(files);
    let ghost p = parsed(files@);
    proof {
        assert(ids@.map_values(|o| opt_view(o)) =~= p);
    }
    let mut out: Vec<PackageFile> = Vec::new();
    let mut i: usize = 0;
    while i < files.len()
        invariant
            i <= files@.len(),
            ids@.len() == files@.len(),
            ids@.map_values(|o| opt_view(o)) == p,
            p == parsed(files@),
            out@ == evicted_upto(files@, keep as nat, i as int),
        decreases files@.len() - i,
    {
        match &ids[i] {
            Some(g) => {
                let t = kept_mask_exec(&ids, files, g, keep);
                proof {
                    lemma_kept_mask_count(p, paths_of(files@), g@, keep as nat);
                }
                if !t[i] {
                    out.push(files[i].duplicate());
                }
            },
            None => {},
        }
        i = i + 1;
    }
    out
}

} // verus!

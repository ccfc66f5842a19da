use vstd::prelude::*;

use crate::classify::{opt_view, parsed, same_group, PackageFile};
use crate::package::{parse_package_path, pkg_cmp, pkg_vercmp, PackageIdentity, PackageIdentityView};

verus! {

/// `require_signature` is met by every file.
pub open spec fn all_signed(require_signature: bool, f: Seq<PackageFile>) -> bool {
    !require_signature || forall|i: int| 0 <= i < f.len() ==> (#[trigger] f[i]).has_signature
}

/// The files that carry a signature, in their order.
pub open spec fn signed_only(f: Seq<PackageFile>) -> Seq<PackageFile>
    decreases f.len(),
{
    if f.len() == 0 {
        f
    } else {
        let r = signed_only(f.drop_last());
        if f.last().has_signature {
            r.push(f.last())
        } else {
            r
        }
    }
}

/// Some database entry names the same package and architecture.
pub open spec fn in_db(db: Seq<PackageIdentity>, x: PackageIdentityView) -> bool {
    exists|k: int| 0 <= k < db.len() && same_group(#[trigger] db[k]@, x)
}

/// Some database entry names the same package at an equal or newer version.
pub open spec fn present_not_older(db: Seq<PackageIdentity>, x: PackageIdentityView) -> bool {
    exists|k: int| 0 <= k < db.len() && same_group(#[trigger] db[k]@, x) && pkg_cmp(x, db[k]@) <= 0
}

/// Some file on disk names the same package and architecture.
pub open spec fn on_disk(f: Seq<PackageFile>, x: PackageIdentityView) -> bool {
    exists|k: int| 0 <= k < f.len() && parsed(f)[k] is Some && same_group(#[trigger] parsed(f)[k]->0, x)
}

/// The files among the first `n` that the database holds at an equal or newer
/// version (`existing`), or whose package it lacks (otherwise), in their order.
pub open spec fn files_where(f: Seq<PackageFile>, db: Seq<PackageIdentity>, n: int, existing: bool) -> Seq<PackageFile>
    decreases n,
{
    if n <= 0 || n > f.len() {
        Seq::empty()
    } else {
        let r = files_where(f, db, n - 1, existing);
        let p = parsed(f)[n - 1];
        if p is Some && ((existing && present_not_older(db, p->0)) || (!existing && !in_db(db, p->0))) {
            r.push(f[n - 1])
        } else {
            r
        }
    }
}

/// The files among the first `n` that the database does not hold at an equal
/// or newer version, in their order.
pub open spec fn not_existing(f: Seq<PackageFile>, db: Seq<PackageIdentity>, n: int) -> Seq<PackageFile>
    decreases n,
{
    if n <= 0 || n > f.len() {
        Seq::empty()
    } else {
        let r = not_existing(f, db, n - 1);
        let p = parsed(f)[n - 1];
        if p is Some && present_not_older(db, p->0) {
            r
        } else {
            r.push(f[n - 1])
        }
    }
}

/// The database entries among the first `n` with no file on disk.
pub open spec fn stale_entries(db: Seq<PackageIdentity>, f: Seq<PackageFile>, n: int) -> Seq<PackageIdentity>
    decreases n,
{
    if n <= 0 || n > db.len() {
        Seq::empty()
    } else {
        let r = stale_entries(db, f, n - 1);
        if !on_disk(f, db[n - 1]@) {
            r.push(db[n - 1])
        } else {
            r
        }
    }
}

/// Whether the files may be moved: when signatures are required, every file
/// must have one.
pub fn validate_packages(require_signature: bool, files: &Vec<PackageFile>) -> (r: bool)
    ensures
        r == all_signed(require_signature, files@),
{
    if !require_signature {
        return true;
    }
    let mut i: usize = 0;
    while i < files.len()
        invariant
            require_signature,
            i <= files@.len(),
            forall|k: int| 0 <= k < i ==> (#[trigger] files@[k]).has_signature,
        decreases files@.len() - i,
    {
        if !files[i].has_signature {
            proof {
                assert(!files@[i as int].has_signature);
            }
            return false;
        }
        i = i + 1;
    }
    true
}

/// Drops the files that have no signature, keeping the order of the others.
pub fn remove_pkgs_without_sig(files: &mut Vec<PackageFile>)
    ensures
        final(files)@ == signed_only(old(files)@),
{
    let mut kept: Vec<PackageFile> = Vec::new();
    let mut i: usize = 0;
    while i < files.len()
        invariant
            i <= files@.len(),
            kept@ == signed_only(files@.subrange(0, i as int)),
        decreases files@.len() - i,
    {
        proof {
            let s = files@.subrange(0, i as int + 1);
            assert(s.drop_last() =~= files@.subrange(0, i as int));
            assert(s.last() == files@[i as int]);
        }
        if files[i].has_signature {
            kept.push(files[i].duplicate());
        }
        i = i + 1;
    }
    proof {
        assert(files@.subrange(0, files@.len() as int) =~= files@);
    }
    *files = kept;
}

fn in_db_exec(db: &Vec<PackageIdentity>, x: &PackageIdentity, not_older: bool) -> (r: bool)
    ensures
        !not_older ==> r == in_db(db@, x@),
        not_older ==> r == present_not_older(db@, x@),
{
    let mut k: usize = 0;
    while k < db.len()
        invariant
            k <= db@.len(),
            forall|j: int|
                0 <= j < k ==> !(same_group(#[trigger] db@[j]@, x@) && (!not_older || pkg_cmp(x@, db@[j]@) <= 0)),
        decreases db@.len() - k,
    {
        if db[k].name == x.name && db[k].arch == x.arch {
            if !not_older || pkg_vercmp(x, &db[k]) <= 0 {
                proof {
                    assert(same_group(db@[k as int]@, x@));
                }
                return true;
            }
        }
        k = k + 1;
    }
    false
}

fn files_where_exec(db: &Vec<PackageIdentity>, files: &Vec<PackageFile>, existing: bool) -> (r: Vec<PackageFile>)
    ensures
        r@ == files_where(files@, db@, files@.len() as int, existing),
{
    let mut out: Vec<PackageFile> = Vec::new();
    let mut i: usize = 0;
    while i < files.len()
        invariant
            i <= files@.len(),
            out@ == files_where(files@, db@, i as int, existing),
        decreases files@.len() - i,
    {
        match parse_package_path(files[i].path.as_str()) {
            Some(x) => {
                if existing {
                    if in_db_exec(db, &x, true) {
                        out.push(files[i].duplicate());
                    }
                } else {
                    if !in_db_exec(db, &x, false) {
                        out.push(files[i].duplicate());
                    }
                }
            },
            None => {},
        }
        i = i + 1;
    }
    out
}

/// The files that the repository already holds at an equal or newer version.
pub fn exclude_existing_pkgs(db: &Vec<PackageIdentity>, files: &Vec<PackageFile>) -> (r: Vec<PackageFile>)
    ensures
        r@ == files_where(files@, db@, files@.len() as int, true),
{
    files_where_exec(db, files, true)
}

/// The files that the repository does not hold at an equal or newer version.
pub fn retain_not_existing(db: &Vec<PackageIdentity>, files: &Vec<PackageFile>) -> (r: Vec<PackageFile>)
    ensures
        r@ == not_existing(files@, db@, files@.len() as int),
{
    let mut out: Vec<PackageFile> = Vec::new();
    let mut i: usize = 0;
    while i < files.len()
        invariant
            i <= files@.len(),
            out@ == not_existing(files@, db@, i as int),
        decreases files@.len() - i,
    {
        let keep = match parse_package_path(files[i].path.as_str()) {
            Some(x) => !in_db_exec(db, &x, true),
            None => true,
        };
        if keep {
            out.push(files[i].duplicate());
        }
        i = i + 1;
    }
    out
}

/// The files on disk whose package and architecture the database lacks.
pub fn get_brand_new_pkgs(db: &Vec<PackageIdentity>, files: &Vec<PackageFile>) -> (r: Vec<PackageFile>)
    ensures
        r@ == files_where(files@, db@, files@.len() as int, false),
{
    files_where_exec(db, files, false)
}

/// The database entries whose package and architecture has no file on disk.
pub fn get_stale_pkgs(db: &Vec<PackageIdentity>, files: &Vec<PackageFile>) -> (r: Vec<PackageIdentity>)
    ensures
        r@ == stale_entries(db@, files@, db@.len() as int),
{
    let mut ids: Vec<Option<PackageIdentity>> = Vec::new();
    let mut i: usize = 0;
    while i < files.len()
        invariant
            i <= files@.len(),
            ids@.len() == i,
            forall|k: int| 0 <= k < i ==> opt_view(#[trigger] ids@[k]) == parsed(files@)[k],
        decreases files@.len() - i,
    {
        ids.push(parse_package_path(files[i].path.as_str()));
        i = i + 1;
    }
    let mut out: Vec<PackageIdentity> = Vec::new();
    let mut k: usize = 0;
    while k < db.len()
        invariant
            k <= db@.len(),
            ids@.len() == files@.len(),
            forall|j: int| 0 <= j < ids@.len() ==> opt_view(#[trigger] ids@[j]) == parsed(files@)[j],
            out@ == stale_entries(db@, files@, k as int),
        decreases db@.len() - k,
    {
        let mut found = false;
        let mut j: usize = 0;
        while j < ids.len()
            invariant
                j <= ids@.len(),
                k < db@.len(),
                ids@.len() == files@.len(),
                forall|m: int| 0 <= m < ids@.len() ==> opt_view(#[trigger] ids@[m]) == parsed(files@)[m],
                found == exists|m: int|
                    0 <= m < j && parsed(files@)[m] is Some && same_group(#[trigger] parsed(files@)[m]->0, db@[k as int]@),
            decreases ids@.len() - j,
        {
            proof {
                assert(opt_view(ids@[j as int]) == parsed(files@)[j as int]);
            }
            match &ids[j] {
                Some(x) => {
                    if x.name == db[k].name && x.arch == db[k].arch {
                        proof {
                            assert(same_group(parsed(files@)[j as int]->0, db@[k as int]@));
                        }
                        found = true;
                    }
                },
                None => {},
            }
            j = j + 1;
        }
        if !found {
            out.push(db[k].duplicate());
        }
        k = k + 1;
    }
    out
}

} // verus!

use vstd::prelude::*;

use crate::classify::{classify_pkgs, same_group, select, PackageFile};
use crate::package::{
    chars_of, file_start, last_before, lemma_last_before, parse_package_path, parse_spec, pkg_cmp,
    pkg_vercmp, PackageIdentity, PackageIdentityView,
};
use crate::repo::{
    files_where, not_existing, retain_not_existing, get_brand_new_pkgs, get_stale_pkgs, remove_pkgs_without_sig,
    signed_only, stale_entries, validate_packages, all_signed,
};
use crate::retention::{evicted_upto, get_stale_pkg_versions};

verus! {

/// The settings of one repository.
#[derive(Debug)]
pub struct Profile {
    /// Path to the repository database file; its directory holds the packages.
    pub repo: String,
    pub require_signature: bool,
    pub backup: bool,
    pub backup_dir: Option<String>,
    /// How many versions of a package the backup directory keeps; none means all.
    pub backup_num: Option<usize>,
    pub reference_repo: Option<String>,
    pub debug_dir: Option<String>,
}

/// A named profile of the configuration.
#[derive(Debug)]
pub struct NamedProfile {
    pub name: String,
    pub profile: Profile,
}

#[derive(Debug)]
pub struct Config {
    pub profiles: Vec<NamedProfile>,
}

/// A rename of one file. A failed rename of a `required` one stops the move.
#[derive(Debug, PartialEq, Eq)]
pub struct Transfer {
    pub from: String,
    pub to: String,
    pub required: bool,
}

pub struct TransferView {
    pub from: Seq<char>,
    pub to: Seq<char>,
    pub required: bool,
}

impl View for Transfer {
    type V = TransferView;

    open spec fn view(&self) -> TransferView {
        TransferView { from: self.from@, to: self.to@, required: self.required }
    }
}

/// What becomes of outdated packages: moves into the backup directory, files
/// to delete (best effort), and whether the backup directory is pruned after.
#[derive(Debug)]
pub struct OutdatedPlan {
    pub transfers: Vec<Transfer>,
    pub removals: Vec<String>,
    pub cleanup_backups: bool,
}

/// The database additions and removals of a reset or an update, and what
/// becomes of the outdated files.
#[derive(Debug)]
pub struct RepoPlan {
    pub add: Vec<PackageFile>,
    pub outdated: OutdatedPlan,
    pub remove: Vec<PackageIdentity>,
}

/// The files to move, or `Aborted` where validation refused the move.
#[derive(Debug)]
pub enum MovePlan {
    Aborted,
    Move { transfers: Vec<Transfer> },
}

/// A move between two repositories: the renames, then the entries to remove
/// from the source database and the files to add to the destination one.
#[derive(Debug)]
pub enum RepoMovePlan {
    Aborted,
    Move { transfers: Vec<Transfer>, remove_from_src: Vec<PackageIdentity>, add_to_dest: Vec<PackageFile> },
}

/// What a checkup reports.
#[derive(Debug)]
pub struct CheckupReport {
    pub brand_new: Vec<PackageFile>,
    pub new: Vec<PackageFile>,
    pub outdated: Vec<PackageFile>,
    pub stale: Vec<PackageIdentity>,
    pub newer_in_reference: Vec<PackageIdentity>,
}

pub open spec fn slash() -> Seq<char> {
    seq!['/']
}

pub open spec fn sig_path(p: Seq<char>) -> Seq<char> {
    p + seq!['.', 's', 'i', 'g']
}

/// The file name of a path.
pub open spec fn base_of(p: Seq<char>) -> Seq<char> {
    p.subrange(file_start(p), p.len() as int)
}

pub open spec fn join(dir: Seq<char>, name: Seq<char>) -> Seq<char> {
    dir + slash() + name
}

/// The length of a path once its trailing `/` are left out.
pub open spec fn trimmed_len(p: Seq<char>, n: int) -> int
    decreases n,
{
    if 0 < n <= p.len() && p[n - 1] == '/' {
        trimmed_len(p, n - 1)
    } else {
        n
    }
}

/// The directory that holds a file, trailing `/` aside: the text before the
/// last `/`, `/` for a file at the root, `.` for a bare file name; none for
/// an empty path or the root itself.
pub open spec fn dir_of(p: Seq<char>) -> Option<Seq<char>> {
    let m = trimmed_len(p, p.len() as int);
    let k = last_before(p, m, '/');
    if m <= 0 {
        None
    } else if k < 0 {
        Some(seq!['.'])
    } else if k == 0 {
        Some(slash())
    } else {
        Some(p.subrange(0, k))
    }
}

/// Outdated files go to the backup directory only when backups are on and
/// that directory is neither the database file nor the repository directory.
pub open spec fn backup_active(p: Profile) -> bool {
    &&& p.backup
    &&& p.backup_dir is Some
    &&& p.backup_dir->0@ != p.repo@
    &&& dir_of(p.repo@) != Some(p.backup_dir->0@)
}

/// The index of the first profile called `name`, or -1.
pub open spec fn find_profile(ps: Seq<NamedProfile>, name: Seq<char>, n: int) -> int
    decreases n,
{
    if n <= 0 || n > ps.len() {
        -1
    } else if find_profile(ps, name, n - 1) >= 0 {
        find_profile(ps, name, n - 1)
    } else if ps[n - 1].name@ == name {
        n - 1
    } else {
        -1
    }
}

/// Pruning runs only when backups are active and a retention count is set.
pub open spec fn cleanup_active(p: Profile) -> bool {
    backup_active(p) && p.backup_num is Some
}

/// The renames that move a file, and its signature, into `dir`.
pub open spec fn transfers_of_file(f: PackageFile, dir: Seq<char>) -> Seq<TransferView> {
    let to = join(dir, base_of(f.path@));
    let pkg = TransferView { from: f.path@, to: to, required: true };
    if f.has_signature {
        seq![pkg, TransferView { from: sig_path(f.path@), to: sig_path(to), required: false }]
    } else {
        seq![pkg]
    }
}

pub open spec fn transfers_of(f: Seq<PackageFile>, dir: Seq<char>, n: int) -> Seq<TransferView>
    decreases n,
{
    if n <= 0 || n > f.len() {
        Seq::empty()
    } else {
        transfers_of(f, dir, n - 1) + transfers_of_file(f[n - 1], dir)
    }
}

/// The files to delete for each package: the archive, then its signature.
pub open spec fn removals_of(f: Seq<PackageFile>, n: int) -> Seq<Seq<char>>
    decreases n,
{
    if n <= 0 || n > f.len() {
        Seq::empty()
    } else if f[n - 1].has_signature {
        removals_of(f, n - 1) + seq![f[n - 1].path@, sig_path(f[n - 1].path@)]
    } else {
        removals_of(f, n - 1).push(f[n - 1].path@)
    }
}

pub open spec fn views_of(t: Seq<Transfer>) -> Seq<TransferView> {
    t.map_values(|x: Transfer| x@)
}

pub open spec fn strings_of(t: Seq<String>) -> Seq<Seq<char>> {
    t.map_values(|x: String| x@)
}

/// The profile called `profile_name`: the first one of that name.
pub fn get_profile_from_config<'a>(profile_name: &str, config: &'a Config) -> (r: Option<&'a Profile>)
    ensures
        r is None <==> find_profile(config.profiles@, profile_name@, config.profiles@.len() as int)
            == -1,
        r matches Some(p) ==> *p == config.profiles@[find_profile(
            config.profiles@,
            profile_name@,
            config.profiles@.len() as int,
        )].profile,
{
    let name = String::from_str(profile_name);
    let mut i: usize = 0;
    while i < config.profiles.len()
        invariant
            i <= config.profiles@.len(),
            name@ == profile_name@,
            find_profile(config.profiles@, profile_name@, i as int) == -1,
        decreases config.profiles@.len() - i,
    {
        if config.profiles[i].name == name {
            proof {
                assert(find_profile(config.profiles@, profile_name@, i as int + 1) == i);
                lemma_find_profile_stays(config.profiles@, profile_name@, i as int + 1);
            }
            return Some(&config.profiles[i].profile);
        }
        i = i + 1;
    }
    None
}

proof fn lemma_find_profile_stays(ps: Seq<NamedProfile>, name: Seq<char>, n: int)
    requires
        0 <= n <= ps.len(),
        find_profile(ps, name, n) >= 0,
    ensures
        find_profile(ps, name, ps.len() as int) == find_profile(ps, name, n),
    decreases ps.len() - n,
{
    if n < ps.len() {
        lemma_find_profile_stays(ps, name, n + 1);
    }
}

/// The repository directory: the directory that holds the database file.
pub fn get_repo_dir_from_profile(profile: &Profile) -> (r: Option<String>)
    ensures
        r matches Some(d) ==> dir_of(profile.repo@) == Some(d@),
        r is None ==> dir_of(profile.repo@) is None,
{
    let p = chars_of(profile.repo.as_str());
    let n = p.len();
    let mut m: usize = n;
    while m > 0 && p[m - 1] == '/'
        invariant
            m <= n == p@.len(),
            trimmed_len(p@, m as int) == trimmed_len(p@, n as int),
        decreases m,
    {
        m = m - 1;
    }
    if m == 0 {
        return None;
    }
    proof {
        lemma_last_before(p@, m as int, '/');
    }
    let mut k: usize = m;
    while k > 0 && p[k - 1] != '/'
        invariant
            k <= m <= n == p@.len(),
            last_before(p@, k as int, '/') == last_before(p@, m as int, '/'),
        decreases k,
    {
        k = k - 1;
    }
    if k == 0 {
        let d = String::from_str(".");
        proof {
            reveal_strlit(".");
            assert(d@ =~= seq!['.']);
        }
        return Some(d);
    }
    let pos = k - 1;
    if pos == 0 {
        let d = String::from_str("/");
        proof {
            reveal_strlit("/");
            assert(d@ =~= slash());
        }
        return Some(d);
    }
    Some(String::from_str(profile.repo.as_str().substring_char(0, pos)))
}

fn is_backup_active(profile: &Profile) -> (r: bool)
    ensures
        r == backup_active(*profile),
{
    if !profile.backup {
        return false;
    }
    match &profile.backup_dir {
        None => false,
        Some(d) => {
            if *d == profile.repo {
                return false;
            }
            match get_repo_dir_from_profile(profile) {
                Some(rd) => *d != rd,
                None => true,
            }
        },
    }
}

/// The index of the first `c` in `s` from `i` on, or the length.
pub open spec fn first_from(s: Seq<char>, i: int, c: char) -> int
    decreases s.len() - i,
{
    if 0 <= i < s.len() && s[i] != c {
        first_from(s, i + 1, c)
    } else {
        i
    }
}

/// The name of a repository: the file name of its database up to the first `.`.
pub open spec fn db_prefix(p: Seq<char>) -> Seq<char> {
    p.subrange(file_start(p), first_from(p, file_start(p), '.'))
}

pub proof fn lemma_first_from(s: Seq<char>, i: int, c: char)
    requires
        0 <= i <= s.len(),
    ensures
        i <= first_from(s, i, c) <= s.len(),
    decreases s.len() - i,
{
    if i < s.len() && s[i] != c {
        lemma_first_from(s, i + 1, c);
    }
}

/// The name of the repository whose database is at `repo`.
pub fn get_repo_db_prefix(repo: &str) -> (r: String)
    ensures
        r@ == db_prefix(repo@),
{
    let p = chars_of(repo);
    let n = p.len();
    proof {
        lemma_last_before(p@, n as int, '/');
    }
    let mut start: usize = n;
    while start > 0 && p[start - 1] != '/'
        invariant
            start <= n == p@.len(),
            last_before(p@, start as int, '/') == last_before(p@, n as int, '/'),
        decreases start,
    {
        start = start - 1;
    }
    proof {
        lemma_first_from(p@, start as int, '.');
    }
    let mut end: usize = start;
    while end < n && p[end] != '.'
        invariant
            start <= end <= n == p@.len(),
            first_from(p@, end as int, '.') == first_from(p@, start as int, '.'),
        decreases n - end,
    {
        end = end + 1;
    }
    String::from_str(repo.substring_char(start, end))
}

fn join_exec(dir: &str, name: &str) -> (r: String)
    ensures
        r@ == join(dir@, name@),
{
    proof {
        reveal_strlit("/");
    }
    String::from_str(dir).concat("/").concat(name)
}

fn sig_path_exec(p: &str) -> (r: String)
    ensures
        r@ == sig_path(p@),
{
    proof {
        reveal_strlit(".sig");
    }
    String::from_str(p).concat(".sig")
}

fn base_exec(p: &str) -> (r: String)
    ensures
        r@ == base_of(p@),
{
    let c = chars_of(p);
    let n = c.len();
    proof {
        lemma_last_before(c@, n as int, '/');
    }
    let mut k: usize = n;
    while k > 0 && c[k - 1] != '/'
        invariant
            k <= n == c@.len(),
            last_before(c@, k as int, '/') == last_before(c@, n as int, '/'),
        decreases k,
    {
        k = k - 1;
    }
    String::from_str(p.substring_char(k, n))
}

/// The renames that move one package file, and its signature, into `dest_dir`.
pub fn handle_pkgfile_move(pkg: &PackageFile, dest_dir: &str) -> (r: Vec<Transfer>)
    ensures
        views_of(r@) == transfers_of_file(*pkg, dest_dir@),
{
    let to = join_exec(dest_dir, base_exec(pkg.path.as_str()).as_str());
    let mut r: Vec<Transfer> = Vec::new();
    if pkg.has_signature {
        let sig_from = sig_path_exec(pkg.path.as_str());
        let sig_to = sig_path_exec(to.as_str());
        r.push(Transfer { from: pkg.path.clone(), to: to, required: true });
        r.push(Transfer { from: sig_from, to: sig_to, required: false });
    } else {
        r.push(Transfer { from: pkg.path.clone(), to: to, required: true });
    }
    proof {
        assert(views_of(r@) =~= transfers_of_file(*pkg, dest_dir@));
    }
    r
}

/// The renames that move the files, each with its signature, into `dest_dir`,
/// in the order of the files.
pub fn handle_pkgfiles_move(files: &Vec<PackageFile>, dest_dir: &str) -> (r: Vec<Transfer>)
    ensures
        views_of(r@) == transfers_of(files@, dest_dir@, files@.len() as int),
{
    let mut r: Vec<Transfer> = Vec::new();
    let mut i: usize = 0;
    while i < files.len()
        invariant
            i <= files@.len(),
            views_of(r@) == transfers_of(files@, dest_dir@, i as int),
        decreases files@.len() - i,
    {
        let mut t = handle_pkgfile_move(&files[i], dest_dir);
        let ghost before = r@;
        r.append(&mut t);
        proof {
            assert(views_of(r@) =~= views_of(before) + transfers_of_file(files@[i as int], dest_dir@));
        }
        i = i + 1;
    }
    r
}

fn removals_exec(files: &Vec<PackageFile>) -> (r: Vec<String>)
    ensures
        strings_of(r@) == removals_of(files@, files@.len() as int),
{
    let mut r: Vec<String> = Vec::new();
    let mut i: usize = 0;
    while i < files.len()
        invariant
            i <= files@.len(),
            strings_of(r@) == removals_of(files@, i as int),
        decreases files@.len() - i,
    {
        let ghost before = r@;
        r.push(files[i].path.clone());
        if files[i].has_signature {
            r.push(sig_path_exec(files[i].path.as_str()));
        }
        proof {
            assert(strings_of(r@) =~= removals_of(files@, i as int + 1));
        }
        i = i + 1;
    }
    r
}

/// Outdated files move into the backup directory where backups are active,
/// and are deleted with their signatures otherwise; pruning follows whenever
/// backups are on.
pub fn handle_outdated_pkgs(profile: &Profile, outdated: &Vec<PackageFile>) -> (r: OutdatedPlan)
    ensures
        backup_active(*profile) ==> views_of(r.transfers@) == transfers_of(
            outdated@,
            profile.backup_dir->0@,
            outdated@.len() as int,
        ) && r.removals@.len() == 0,
        !backup_active(*profile) ==> r.transfers@.len() == 0 && strings_of(r.removals@)
            == removals_of(outdated@, outdated@.len() as int),
        r.cleanup_backups == profile.backup,
{
    let active = is_backup_active(profile);
    if active {
        match &profile.backup_dir {
            Some(d) => OutdatedPlan {
                transfers: handle_pkgfiles_move(outdated, d.as_str()),
                removals: Vec::new(),
                cleanup_backups: profile.backup,
            },
            None => OutdatedPlan { transfers: Vec::new(), removals: Vec::new(), cleanup_backups: profile.backup },
        }
    } else {
        OutdatedPlan { transfers: Vec::new(), removals: removals_exec(outdated), cleanup_backups: profile.backup }
    }
}

/// The backup files to delete, with their signatures: those beyond the
/// retention count of each package. Nothing where pruning is not active.
pub fn do_backup_repo_cleanup(profile: &Profile, backup_files: &Vec<PackageFile>) -> (r: Vec<String>)
    ensures
        !cleanup_active(*profile) ==> r@.len() == 0,
        cleanup_active(*profile) ==> ({
            let ev = evicted_upto(backup_files@, profile.backup_num->0 as nat, backup_files@.len() as int);
            strings_of(r@) == removals_of(ev, ev.len() as int)
        }),
{
    let active = is_backup_active(profile);
    if !active {
        return Vec::new();
    }
    match profile.backup_num {
        None => Vec::new(),
        Some(n) => {
            let evicted = get_stale_pkg_versions(backup_files, n);
            removals_exec(&evicted)
        },
    }
}

fn new_list_signed(profile: &Profile, mut files: Vec<PackageFile>) -> (r: Vec<PackageFile>)
    ensures
        profile.require_signature ==> r@ == signed_only(files@),
        !profile.require_signature ==> r@ == files@,
{
    if profile.require_signature {
        remove_pkgs_without_sig(&mut files);
    }
    files
}

/// Reset: the database is rebuilt from the newest file of each package
/// (signed ones only where signatures are required); outdated files are
/// handled as `handle_outdated_pkgs` says.
pub fn do_repo_reset(profile: &Profile, files: &Vec<PackageFile>) -> (r: RepoPlan)
    ensures
        ({
            let new = select(files@, files@.len() as int, true);
            &&& profile.require_signature ==> r.add@ == signed_only(new)
            &&& !profile.require_signature ==> r.add@ == new
        }),
        backup_active(*profile) ==> views_of(r.outdated.transfers@) == transfers_of(
            select(files@, files@.len() as int, false),
            profile.backup_dir->0@,
            select(files@, files@.len() as int, false).len() as int,
        ),
        !backup_active(*profile) ==> strings_of(r.outdated.removals@) == removals_of(
            select(files@, files@.len() as int, false),
            select(files@, files@.len() as int, false).len() as int,
        ),
        r.outdated.cleanup_backups == profile.backup,
        backup_active(*profile) ==> r.outdated.removals@.len() == 0,
        !backup_active(*profile) ==> r.outdated.transfers@.len() == 0,
        r.remove@.len() == 0,
{
    let (new, outdated) = classify_pkgs(files);
    let add = new_list_signed(profile, new);
    let out = handle_outdated_pkgs(profile, &outdated);
    RepoPlan { add, outdated: out, remove: Vec::new() }
}

/// Update: the newest files and the files the database lacks are added
/// (signed ones only where required); where anything is added, outdated
/// files are handled; entries with no file on disk are removed either way.
pub fn do_repo_update(profile: &Profile, files: &Vec<PackageFile>, db: &Vec<PackageIdentity>) -> (r: RepoPlan)
    ensures
        ({
            let merged = select(files@, files@.len() as int, true) + files_where(
                files@,
                db@,
                files@.len() as int,
                false,
            );
            let add = if profile.require_signature {
                signed_only(merged)
            } else {
                merged
            };
            let outdated = select(files@, files@.len() as int, false);
            &&& r.add@ == add
            &&& add.len() == 0 ==> r.outdated.transfers@.len() == 0 && r.outdated.removals@.len() == 0
                && !r.outdated.cleanup_backups
            &&& add.len() > 0 && backup_active(*profile) ==> views_of(r.outdated.transfers@)
                == transfers_of(outdated, profile.backup_dir->0@, outdated.len() as int)
            &&& add.len() > 0 && !backup_active(*profile) ==> strings_of(r.outdated.removals@)
                == removals_of(outdated, outdated.len() as int)
            &&& add.len() > 0 ==> r.outdated.cleanup_backups == profile.backup
            &&& backup_active(*profile) ==> r.outdated.removals@.len() == 0
            &&& !backup_active(*profile) ==> r.outdated.transfers@.len() == 0
        }),
        r.remove@ == stale_entries(db@, files@, db@.len() as int),
{
    let (mut new, outdated) = classify_pkgs(files);
    let mut brand_new = get_brand_new_pkgs(db, files);
    new.append(&mut brand_new);
    let add = new_list_signed(profile, new);
    let out = if add.len() > 0 {
        handle_outdated_pkgs(profile, &outdated)
    } else {
        OutdatedPlan { transfers: Vec::new(), removals: Vec::new(), cleanup_backups: false }
    };
    let remove = get_stale_pkgs(db, files);
    RepoPlan { add, outdated: out, remove }
}

/// Moving packages into a repository: nothing moves unless every file passes
/// the signature check; files the repository holds at an equal or newer
/// version stay where they are; the rest move with their signatures.
pub fn do_repo_move_pkgs(profile: &Profile, files: &Vec<PackageFile>, db: &Vec<PackageIdentity>, repo_dir: &str) -> (r: MovePlan)
    ensures
        !all_signed(profile.require_signature, files@) ==> r is Aborted,
        all_signed(profile.require_signature, files@) ==> (r matches MovePlan::Move { transfers } && ({
            let rest = not_existing(files@, db@, files@.len() as int);
            views_of(transfers@) == transfers_of(rest, repo_dir@, rest.len() as int)
        })),
{
    if !validate_packages(profile.require_signature, files) {
        return MovePlan::Aborted;
    }
    let rest = retain_not_existing(db, files);
    MovePlan::Move { transfers: handle_pkgfiles_move(&rest, repo_dir) }
}

/// The identities of the files whose names parse, in their order.
pub open spec fn ids_of(f: Seq<PackageFile>, n: int) -> Seq<PackageIdentityView>
    decreases n,
{
    if n <= 0 || n > f.len() {
        Seq::empty()
    } else if parse_spec(f[n - 1].path@) is Some {
        ids_of(f, n - 1).push(parse_spec(f[n - 1].path@)->0)
    } else {
        ids_of(f, n - 1)
    }
}

pub open spec fn id_views(t: Seq<PackageIdentity>) -> Seq<PackageIdentityView> {
    t.map_values(|x: PackageIdentity| x@)
}

/// `g` holds the files of `f` as they are once moved into `dir`.
pub open spec fn rebased(g: Seq<PackageFile>, f: Seq<PackageFile>, dir: Seq<char>) -> bool {
    g.len() == f.len() && forall|i: int|
        0 <= i < f.len() ==> (#[trigger] g[i]).path@ == join(dir, base_of(f[i].path@))
            && g[i].has_signature == f[i].has_signature
}

/// Entries of the reference repository among the first `n` that are newer
/// than an entry of the same package and architecture in the repository.
pub open spec fn newer_entries(reference: Seq<PackageIdentity>, db: Seq<PackageIdentity>, n: int) -> Seq<PackageIdentity>
    decreases n,
{
    if n <= 0 || n > reference.len() {
        Seq::empty()
    } else if exists|k: int|
        0 <= k < db.len() && same_group(#[trigger] db[k]@, reference[n - 1]@) && pkg_cmp(
            reference[n - 1]@,
            db[k]@,
        ) > 0 {
        newer_entries(reference, db, n - 1).push(reference[n - 1])
    } else {
        newer_entries(reference, db, n - 1)
    }
}

fn ids_exec(files: &Vec<PackageFile>) -> (r: Vec<PackageIdentity>)
    ensures
        id_views(r@) == ids_of(files@, files@.len() as int),
{
    let mut r: Vec<PackageIdentity> = Vec::new();
    let mut i: usize = 0;
    while i < files.len()
        invariant
            i <= files@.len(),
            id_views(r@) == ids_of(files@, i as int),
        decreases files@.len() - i,
    {
        match parse_package_path(files[i].path.as_str()) {
            Some(x) => {
                let ghost before = r@;
                r.push(x);
                proof {
                    assert(id_views(r@) =~= id_views(before).push(r@.last()@));
                }
            },
            None => {},
        }
        i = i + 1;
    }
    r
}

fn rebase_exec(files: &Vec<PackageFile>, dir: &str) -> (r: Vec<PackageFile>)
    ensures
        rebased(r@, files@, dir@),
{
    let mut r: Vec<PackageFile> = Vec::new();
    let mut i: usize = 0;
    while i < files.len()
        invariant
            i <= files@.len(),
            r@.len() == i,
            forall|k: int|
                0 <= k < i ==> (#[trigger] r@[k]).path@ == join(dir@, base_of(files@[k].path@))
                    && r@[k].has_signature == files@[k].has_signature,
        decreases files@.len() - i,
    {
        let path = join_exec(dir, base_exec(files[i].path.as_str()).as_str());
        r.push(PackageFile { path, has_signature: files[i].has_signature });
        i = i + 1;
    }
    r
}

/// Moving all packages of one repository into another: nothing happens unless
/// every file passes the destination's signature check; otherwise each file
/// moves with its signature, its entry leaves the source database, and the
/// moved file is added to the destination database.
pub fn move_packages_from_repo_to_repo(
    src_profile: &Profile,
    src_files: &Vec<PackageFile>,
    dest_profile: &Profile,
    dest_repo_dir: &str,
) -> (r: RepoMovePlan)
    ensures
        !all_signed(dest_profile.require_signature, src_files@) ==> r is Aborted,
        all_signed(dest_profile.require_signature, src_files@) ==> (r matches RepoMovePlan::Move {
            transfers,
            remove_from_src,
            add_to_dest,
        } && views_of(transfers@) == transfers_of(src_files@, dest_repo_dir@, src_files@.len() as int)
            && id_views(remove_from_src@) == ids_of(src_files@, src_files@.len() as int) && rebased(
            add_to_dest@,
            src_files@,
            dest_repo_dir@,
        )),
{
    if !validate_packages(dest_profile.require_signature, src_files) {
        return RepoMovePlan::Aborted;
    }
    let transfers = handle_pkgfiles_move(src_files, dest_repo_dir);
    let add_to_dest = rebase_exec(src_files, dest_repo_dir);
    let remove_from_src = ids_exec(src_files);
    RepoMovePlan::Move { transfers, remove_from_src, add_to_dest }
}

/// The database changes that follow the renames of a move between
/// repositories: none where the move was refused or a required rename failed.
pub fn db_changes_after_move(plan: RepoMovePlan, all_moved: bool) -> (r: Option<(Vec<PackageIdentity>, Vec<PackageFile>)>)
    ensures
        !all_moved ==> r is None,
        plan is Aborted ==> r is None,
        all_moved ==> (plan matches RepoMovePlan::Move { remove_from_src, add_to_dest, .. } ==> r == Some(
            (remove_from_src, add_to_dest),
        )),
{
    if !all_moved {
        return None;
    }
    match plan {
        RepoMovePlan::Aborted => None,
        RepoMovePlan::Move { transfers, remove_from_src, add_to_dest } => Some((remove_from_src, add_to_dest)),
    }
}

fn newer_exec(reference: &Vec<PackageIdentity>, db: &Vec<PackageIdentity>) -> (r: Vec<PackageIdentity>)
    ensures
        r@ == newer_entries(reference@, db@, reference@.len() as int),
{
    let mut out: Vec<PackageIdentity> = Vec::new();
    let mut i: usize = 0;
    while i < reference.len()
        invariant
            i <= reference@.len(),
            out@ == newer_entries(reference@, db@, i as int),
        decreases reference@.len() - i,
    {
        let mut found = false;
        let mut k: usize = 0;
        while k < db.len()
            invariant
                k <= db@.len(),
                i < reference@.len(),
                found == exists|m: int|
                    0 <= m < k && same_group(#[trigger] db@[m]@, reference@[i as int]@) && pkg_cmp(
                        reference@[i as int]@,
                        db@[m]@,
                    ) > 0,
            decreases db@.len() - k,
        {
            if db[k].name == reference[i].name && db[k].arch == reference[i].arch && pkg_vercmp(
                &reference[i],
                &db[k],
            ) > 0 {
                proof {
                    assert(same_group(db@[k as int]@, reference@[i as int]@));
                }
                found = true;
            }
            k = k + 1;
        }
        if found {
            out.push(reference[i].duplicate());
        }
        i = i + 1;
    }
    out
}

/// Checkup reports, without changing anything, the files the database lacks,
/// the newest and the outdated files, the entries with no file, and the
/// entries of the reference repository newer than those of the repository.
pub fn do_repo_checkup(files: &Vec<PackageFile>, db: &Vec<PackageIdentity>, reference: &Vec<PackageIdentity>) -> (r: CheckupReport)
    ensures
        r.brand_new@ == files_where(files@, db@, files@.len() as int, false),
        r.new@ == select(files@, files@.len() as int, true),
        r.outdated@ == select(files@, files@.len() as int, false),
        r.stale@ == stale_entries(db@, files@, db@.len() as int),
        r.newer_in_reference@ == newer_entries(reference@, db@, reference@.len() as int),
{
    let (new, outdated) = classify_pkgs(files);
    CheckupReport {
        brand_new: get_brand_new_pkgs(db, files),
        new,
        outdated,
        stale: get_stale_pkgs(db, files),
        newer_in_reference: newer_exec(reference, db),
    }
}

} // verus!

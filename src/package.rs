use vstd::prelude::*;

use crate::version::{lemma_run_end, rpmvercmp_chars, rpmvercmp_spec, run_end, CharClass};

verus! {

/// The identity of a package archive, as read from its file name
/// `<name>-[<epoch>:]<version>-<release>-<arch>.pkg.tar.<ext>`.
/// `version` keeps its optional `<epoch>:` prefix.
#[derive(Clone, Debug, PartialEq, Eq)]
pub struct PackageIdentity {
    pub name: String,
    pub version: String,
    pub release: String,
    pub arch: String,
}

pub struct PackageIdentityView {
    pub name: Seq<char>,
    pub version: Seq<char>,
    pub release: Seq<char>,
    pub arch: Seq<char>,
}

impl View for PackageIdentity {
    type V = PackageIdentityView;

    open spec fn view(&self) -> PackageIdentityView {
        PackageIdentityView {
            name: self.name@,
            version: self.version@,
            release: self.release@,
            arch: self.arch@,
        }
    }
}

impl PackageIdentity {
    /// A copy of this identity.
    pub fn duplicate(&self) -> (r: PackageIdentity)
        ensures
            r == *self,
    {
        PackageIdentity {
            name: self.name.clone(),
            version: self.version.clone(),
            release: self.release.clone(),
            arch: self.arch.clone(),
        }
    }
}

/// The position of the last `c` in `s[..hi]`, or -1.
pub open spec fn last_before(s: Seq<char>, hi: int, c: char) -> int
    decreases hi,
{
    if hi <= 0 || hi > s.len() {
        -1
    } else if s[hi - 1] == c {
        hi - 1
    } else {
        last_before(s, hi - 1, c)
    }
}

pub open spec fn pkg_tar_marker() -> Seq<char> {
    seq!['.', 'p', 'k', 'g', '.', 't', 'a', 'r', '.']
}

pub open spec fn sig_suffix() -> Seq<char> {
    seq!['.', 's', 'i', 'g']
}

/// Where the file name of a path starts.
pub open spec fn file_start(p: Seq<char>) -> int {
    last_before(p, p.len() as int, '/') + 1
}

/// Where the file name of a path ends, once a `.sig` suffix is left out.
pub open spec fn file_end(p: Seq<char>) -> int {
    if p.len() - file_start(p) >= 4 && p.subrange(p.len() - 4, p.len() as int) == sig_suffix() {
        p.len() - 4
    } else {
        p.len() as int
    }
}

/// The package identity that a path names, if its file name has the shape of
/// a package archive (or of its signature).
pub open spec fn parse_spec(p: Seq<char>) -> Option<PackageIdentityView> {
    let lo = file_start(p);
    let hi = file_end(p);
    let d = last_before(p, hi, '.');
    let m = d - 8;
    if d < lo + 8 || d + 1 >= hi || p.subrange(m, d + 1) != pkg_tar_marker() {
        None
    } else {
        let k3 = last_before(p, m, '-');
        let k2 = last_before(p, k3, '-');
        let k1 = last_before(p, k2, '-');
        if k1 <= lo || k2 <= k1 + 1 || k3 <= k2 + 1 || m <= k3 + 1 {
            None
        } else {
            Some(
                PackageIdentityView {
                    name: p.subrange(lo, k1),
                    version: p.subrange(k1 + 1, k2),
                    release: p.subrange(k2 + 1, k3),
                    arch: p.subrange(k3 + 1, m),
                },
            )
        }
    }
}

pub open spec fn epoch_len(v: Seq<char>) -> int {
    run_end(v, 0, CharClass::Digit)
}

pub open spec fn has_epoch(v: Seq<char>) -> bool {
    epoch_len(v) < v.len() && v[epoch_len(v)] == ':'
}

/// The epoch of a version string: its leading digits before a `:`, else `0`.
pub open spec fn epoch_of(v: Seq<char>) -> Seq<char> {
    if has_epoch(v) && epoch_len(v) > 0 {
        v.subrange(0, epoch_len(v))
    } else {
        seq!['0']
    }
}

/// A version string without its epoch.
pub open spec fn pkgver_of(v: Seq<char>) -> Seq<char> {
    if has_epoch(v) {
        v.subrange(epoch_len(v) + 1, v.len() as int)
    } else {
        v
    }
}

/// The order of two `(epoch:version, release)` pairs: epochs first, then
/// versions, then releases.
pub open spec fn evr_cmp(va: Seq<char>, ra: Seq<char>, vb: Seq<char>, rb: Seq<char>) -> int {
    let e = rpmvercmp_spec(epoch_of(va), epoch_of(vb));
    if e != 0 {
        e
    } else {
        let v = rpmvercmp_spec(pkgver_of(va), pkgver_of(vb));
        if v != 0 {
            v
        } else {
            rpmvercmp_spec(ra, rb)
        }
    }
}

/// The version order of two package identities.
pub open spec fn pkg_cmp(a: PackageIdentityView, b: PackageIdentityView) -> int {
    evr_cmp(a.version, a.release, b.version, b.release)
}

pub proof fn lemma_last_before(s: Seq<char>, hi: int, c: char)
    ensures
        -1 <= last_before(s, hi, c),
        last_before(s, hi, c) < hi || last_before(s, hi, c) == -1,
        last_before(s, hi, c) >= 0 ==> s[last_before(s, hi, c)] == c,
    decreases hi,
{
    if hi > 0 && hi <= s.len() && s[hi - 1] != c {
        lemma_last_before(s, hi - 1, c);
    }
}

/// The characters of a string, one by one.
pub fn chars_of(s: &str) -> (r: Vec<char>)
    ensures
        r@ == s@,
{
    let n = s.unicode_len();
    let mut r: Vec<char> = Vec::new();
    let mut i: usize = 0;
    while i < n
        invariant
            n == s@.len(),
            i <= n,
            r@ == s@.subrange(0, i as int),
        decreases n - i,
    {
        r.push(s.get_char(i));
        i = i + 1;
        proof {
            assert(r@ =~= s@.subrange(0, i as int));
        }
    }
    proof {
        assert(r@ =~= s@);
    }
    r
}

fn slice_chars(s: &Vec<char>, lo: usize, hi: usize) -> (r: Vec<char>)
    requires
        lo <= hi <= s@.len(),
    ensures
        r@ == s@.subrange(lo as int, hi as int),
{
    let mut r: Vec<char> = Vec::new();
    let mut i: usize = lo;
    while i < hi
        invariant
            lo <= i <= hi <= s@.len(),
            r@ == s@.subrange(lo as int, i as int),
        decreases hi - i,
    {
        r.push(s[i]);
        i = i + 1;
        proof {
            assert(r@ =~= s@.subrange(lo as int, i as int));
        }
    }
    r
}

fn last_before_exec(s: &Vec<char>, hi: usize, c: char) -> (r: Option<usize>)
    requires
        hi <= s@.len(),
    ensures
        r matches Some(k) ==> last_before(s@, hi as int, c) == k as int,
        r is None ==> last_before(s@, hi as int, c) == -1,
{
    let mut h: usize = hi;
    while h > 0
        invariant
            h <= hi <= s@.len(),
            last_before(s@, h as int, c) == last_before(s@, hi as int, c),
        decreases h,
    {
        if s[h - 1] == c {
            return Some(h - 1);
        }
        h = h - 1;
    }
    None
}

pub(crate) fn range_eq(s: &Vec<char>, lo: usize, t: &Vec<char>) -> (r: bool)
    requires
        lo + t@.len() <= s@.len(),
    ensures
        r == (s@.subrange(lo as int, lo + t@.len()) == t@),
{
    let sl = s.len();
    let mut i: usize = 0;
    while i < t.len()
        invariant
            sl == s@.len(),
            lo + t@.len() <= s@.len(),
            i <= t@.len(),
            forall|k: int| 0 <= k < i ==> s@[lo + k] == t@[k],
        decreases t@.len() - i,
    {
        assert(lo + i < s@.len());
        if s[lo + i] != t[i] {
            proof {
                assert(s@.subrange(lo as int, lo + t@.len())[i as int] != t@[i as int]);
            }
            return false;
        }
        i = i + 1;
    }
    proof {
        assert(s@.subrange(lo as int, lo + t@.len()) =~= t@);
    }
    true
}

/// Reads the package identity from a path to a package archive or to its
/// signature; `None` where the file name has not that shape.
pub fn parse_package_path(path: &str) -> (r: Option<PackageIdentity>)
    ensures
        r matches Some(id) ==> parse_spec(path@) == Some(id@),
        r is None ==> parse_spec(path@) is None,
{
    let p = chars_of(path);
    let n = p.len();
    proof {
        lemma_last_before(p@, n as int, '/');
    }
    let lo: usize = match last_before_exec(&p, n, '/') {
        Some(k) => k + 1,
        None => 0,
    };
    let sig = vec!['.', 's', 'i', 'g'];
    let hi: usize = if n - lo >= 4 && range_eq(&p, n - 4, &sig) {
        n - 4
    } else {
        n
    };
    proof {
        assert(sig@ =~= sig_suffix());
        assert(hi == file_end(p@));
        lemma_last_before(p@, hi as int, '.');
    }
    let d = match last_before_exec(&p, hi, '.') {
        Some(d) => d,
        None => {
            return None;
        },
    };
    if d < 8 || d - 8 < lo || d + 1 >= hi {
        return None;
    }
    let m = d - 8;
    let marker = vec!['.', 'p', 'k', 'g', '.', 't', 'a', 'r', '.'];
    proof {
        assert(marker@ =~= pkg_tar_marker());
    }
    if !range_eq(&p, m, &marker) {
        return None;
    }
    proof {
        lemma_last_before(p@, m as int, '-');
    }
    let k3 = match last_before_exec(&p, m, '-') {
        Some(k) => k,
        None => {
            return None;
        },
    };
    proof {
        lemma_last_before(p@, k3 as int, '-');
    }
    let k2 = match last_before_exec(&p, k3, '-') {
        Some(k) => k,
        None => {
            return None;
        },
    };
    proof {
        lemma_last_before(p@, k2 as int, '-');
    }
    let k1 = match last_before_exec(&p, k2, '-') {
        Some(k) => k,
        None => {
            return None;
        },
    };
    if k1 <= lo || k2 <= k1 + 1 || k3 <= k2 + 1 || m <= k3 + 1 {
        return None;
    }
    let name = String::from_str(path.substring_char(lo, k1));
    let version = String::from_str(path.substring_char(k1 + 1, k2));
    let release = String::from_str(path.substring_char(k2 + 1, k3));
    let arch = String::from_str(path.substring_char(k3 + 1, m));
    let r = PackageIdentity { name, version, release, arch };
    proof {
        assert(parse_spec(path@) == Some(r@));
    }
    Some(r)
}

fn split_epoch(v: &Vec<char>) -> (r: (Vec<char>, Vec<char>))
    ensures
        r.0@ == epoch_of(v@),
        r.1@ == pkgver_of(v@),
{
    let e = run_end_digits(v);
    if e < v.len() && v[e] == ':' {
        let zero = vec!['0'];
        proof {
            assert(zero@ =~= seq!['0']);
        }
        let ep = if e > 0 {
            slice_chars(v, 0, e)
        } else {
            zero
        };
        let rest = slice_chars(v, e + 1, v.len());
        (ep, rest)
    } else {
        let zero = vec!['0'];
        proof {
            assert(zero@ =~= seq!['0']);
        }
        (zero, v.clone())
    }
}

fn run_end_digits(v: &Vec<char>) -> (r: usize)
    ensures
        r as int == epoch_len(v@),
        r <= v@.len(),
{
    let mut p: usize = 0;
    while p < v.len() && '0' <= v[p] && v[p] <= '9'
        invariant
            p <= v@.len(),
            run_end(v@, p as int, CharClass::Digit) == run_end(v@, 0, CharClass::Digit),
        decreases v@.len() - p,
    {
        p = p + 1;
    }
    proof {
        lemma_run_end(v@, p as int, CharClass::Digit);
    }
    p
}

/// Compares two `(epoch:version, release)` pairs as pacman does: -1 when the
/// first is older, 0 when the two are the same version, 1 when it is newer.
pub fn evr_compare(va: &str, ra: &str, vb: &str, rb: &str) -> (r: i32)
    ensures
        r as int == evr_cmp(va@, ra@, vb@, rb@),
{
    let (ea, pa) = split_epoch(&chars_of(va));
    let (eb, pb) = split_epoch(&chars_of(vb));
    let e = rpmvercmp_chars(&ea, &eb);
    if e != 0 {
        return e;
    }
    let v = rpmvercmp_chars(&pa, &pb);
    if v != 0 {
        return v;
    }
    rpmvercmp_chars(&chars_of(ra), &chars_of(rb))
}

/// Compares the versions of two packages (-1 older, 0 same, 1 newer).
pub fn pkg_vercmp(a: &PackageIdentity, b: &PackageIdentity) -> (r: i32)
    ensures
        r as int == pkg_cmp(a@, b@),
{
    evr_compare(a.version.as_str(), a.release.as_str(), b.version.as_str(), b.release.as_str())
}

/// Where the version part of a full `[epoch:]version[-release]` string starts.
pub open spec fn version_start(s: Seq<char>) -> int {
    if has_epoch(s) {
        epoch_len(s) + 1
    } else {
        0
    }
}

/// The position of the `-` that opens the release, or -1 when there is none.
pub open spec fn release_dash(s: Seq<char>) -> int {
    let d = last_before(s, s.len() as int, '-');
    if d >= version_start(s) {
        d
    } else {
        -1
    }
}

pub open spec fn version_part(s: Seq<char>) -> Seq<char> {
    if release_dash(s) >= 0 {
        s.subrange(version_start(s), release_dash(s))
    } else {
        s.subrange(version_start(s), s.len() as int)
    }
}

pub open spec fn release_part(s: Seq<char>) -> Option<Seq<char>> {
    if release_dash(s) >= 0 {
        Some(s.subrange(release_dash(s) + 1, s.len() as int))
    } else {
        None
    }
}

/// The order of two full version strings: epochs, then versions, then
/// releases where both strings have one.
pub open spec fn vercmp_spec(a: Seq<char>, b: Seq<char>) -> int {
    if a == b {
        0
    } else {
        let e = rpmvercmp_spec(epoch_of(a), epoch_of(b));
        if e != 0 {
            e
        } else {
            let v = rpmvercmp_spec(version_part(a), version_part(b));
            if v != 0 {
                v
            } else if release_part(a) is Some && release_part(b) is Some {
                rpmvercmp_spec(release_part(a)->0, release_part(b)->0)
            } else {
                0
            }
        }
    }
}

fn split_evr(v: &Vec<char>) -> (r: (Vec<char>, Vec<char>, Option<Vec<char>>))
    ensures
        r.0@ == epoch_of(v@),
        r.1@ == version_part(v@),
        r.2 matches Some(x) ==> release_part(v@) == Some(x@),
        r.2 is None ==> release_part(v@) is None,
{
    let e = run_end_digits(v);
    let n = v.len();
    let zero = vec!['0'];
    proof {
        assert(zero@ =~= seq!['0']);
        lemma_last_before(v@, n as int, '-');
    }
    let with_epoch = e < n && v[e] == ':';
    let ep = if with_epoch && e > 0 {
        slice_chars(v, 0, e)
    } else {
        zero
    };
    let st: usize = if with_epoch {
        e + 1
    } else {
        0
    };
    match last_before_exec(v, n, '-') {
        Some(d) => {
            if d >= st {
                (ep, slice_chars(v, st, d), Some(slice_chars(v, d + 1, n)))
            } else {
                (ep, slice_chars(v, st, n), None)
            }
        },
        None => (ep, slice_chars(v, st, n), None),
    }
}

pub(crate) fn same_chars_vec(a: &Vec<char>, b: &Vec<char>) -> (r: bool)
    ensures
        r == (a@ == b@),
{
    if a.len() != b.len() {
        return false;
    }
    let mut i: usize = 0;
    while i < a.len()
        invariant
            i <= a@.len() == b@.len(),
            forall|k: int| 0 <= k < i ==> a@[k] == b@[k],
        decreases a@.len() - i,
    {
        if a[i] != b[i] {
            return false;
        }
        i = i + 1;
    }
    proof {
        assert(a@ =~= b@);
    }
    true
}

/// Compares two full version strings `[epoch:]version[-release]` as pacman's
/// `vercmp` does: -1 when `a` is older, 0 when the same, 1 when newer.
pub fn vercmp(a: &str, b: &str) -> (r: i32)
    ensures
        r as int == vercmp_spec(a@, b@),
{
    let ca = chars_of(a);
    let cb = chars_of(b);
    if same_chars_vec(&ca, &cb) {
        return 0;
    }
    let (ea, va, ra) = split_evr(&ca);
    let (eb, vb, rb) = split_evr(&cb);
    let e = rpmvercmp_chars(&ea, &eb);
    if e != 0 {
        return e;
    }
    let v = rpmvercmp_chars(&va, &vb);
    if v != 0 {
        return v;
    }
    match (ra, rb) {
        (Some(x), Some(y)) => rpmvercmp_chars(&x, &y),
        _ => 0,
    }
}

} // verus!

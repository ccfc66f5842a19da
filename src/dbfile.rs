use vstd::prelude::*;

use crate::package::{chars_of, parse_package_path, range_eq, parse_spec, PackageIdentity, PackageIdentityView};
use crate::workflow::{first_from, lemma_first_from};

verus! {

pub open spec fn filename_tag() -> Seq<char> {
    "%FILENAME%"@
}

/// The identities named by the line after each `%FILENAME%` line of a
/// repository database's `desc` text, from the line that starts at `i` on.
/// A file name that does not parse is skipped.
pub open spec fn entries_from(s: Seq<char>, i: int) -> Seq<PackageIdentityView>
    decreases s.len() - i,
    via entries_from_decreases
{
    if i < 0 || i >= s.len() {
        Seq::empty()
    } else {
        let e = first_from(s, i, '\n');
        let here = if s.subrange(i, e) == filename_tag() && e < s.len() {
            match parse_spec(s.subrange(e + 1, first_from(s, e + 1, '\n'))) {
                Some(v) => seq![v],
                None => Seq::empty(),
            }
        } else {
            Seq::empty()
        };
        if e < s.len() {
            here + entries_from(s, e + 1)
        } else {
            here
        }
    }
}

#[via_fn]
proof fn entries_from_decreases(s: Seq<char>, i: int) {
    if 0 <= i < s.len() {
        lemma_first_from(s, i, '\n');
    }
}

/// The package identities that the `desc` entries of a repository database
/// list, in their order.
pub fn db_entries_from_desc(text: &str) -> (r: Vec<PackageIdentity>)
    ensures
        r@.map_values(|x: PackageIdentity| x@) == entries_from(text@, 0),
{
    let s = chars_of(text);
    let tag = chars_of("%FILENAME%");
    let n = s.len();
    let mut out: Vec<PackageIdentity> = Vec::new();
    let mut i: usize = 0;
    while i < n
        invariant
            n == s@.len(),
            s@ == text@,
            tag@ == filename_tag(),
            i <= n,
            out@.map_values(|x: PackageIdentity| x@) + entries_from(s@, i as int) == entries_from(s@, 0),
        decreases n - i,
    {
        proof {
            lemma_first_from(s@, i as int, '\n');
        }
        let mut e: usize = i;
        while e < n && s[e] != '\n'
            invariant
                i <= e <= n == s@.len(),
                first_from(s@, e as int, '\n') == first_from(s@, i as int, '\n'),
            decreases n - e,
        {
            e = e + 1;
        }
        let ghost before = out@;
        let is_tag = e - i == tag.len() && range_eq(&s, i, &tag);
        if is_tag && e < n {
            proof {
                lemma_first_from(s@, e + 1, '\n');
            }
            let mut e2: usize = e + 1;
            while e2 < n && s[e2] != '\n'
                invariant
                    e + 1 <= e2 <= n == s@.len(),
                    first_from(s@, e2 as int, '\n') == first_from(s@, e + 1, '\n'),
                decreases n - e2,
            {
                e2 = e2 + 1;
            }
            match parse_package_path(text.substring_char(e + 1, e2)) {
                Some(x) => {
                    out.push(x);
                },
                None => {},
            }
        }
        proof {
            assert(is_tag == (s@.subrange(i as int, e as int) == filename_tag()));
            if e < n {
                assert(out@.map_values(|x: PackageIdentity| x@) + entries_from(s@, e + 1) =~= before.map_values(
                    |x: PackageIdentity| x@,
                ) + entries_from(s@, i as int));
            } else {
                assert(out@.map_values(|x: PackageIdentity| x@) + entries_from(s@, n as int) =~= before.map_values(
                    |x: PackageIdentity| x@,
                ) + entries_from(s@, i as int));
            }
        }
        i = if e < n {
            e + 1
        } else {
            n
        };
    }
    proof {
        assert(out@.map_values(|x: PackageIdentity| x@) =~= out@.map_values(|x: PackageIdentity| x@)
            + entries_from(s@, i as int));
    }
    out
}

} // verus!

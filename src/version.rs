use vstd::prelude::*;

verus! {

/// The character classes that the version algorithm walks over.
#[derive(Clone, Copy, PartialEq, Eq, Debug)]
pub enum CharClass {
    Separator,
    Digit,
    Alpha,
    Zero,
}

pub open spec fn is_digit(c: char) -> bool {
    '0' <= c && c <= '9'
}

pub open spec fn is_alpha(c: char) -> bool {
    ('a' <= c && c <= 'z') || ('A' <= c && c <= 'Z')
}

pub open spec fn is_alnum(c: char) -> bool {
    is_digit(c) || is_alpha(c)
}

pub open spec fn in_class(c: char, k: CharClass) -> bool {
    match k {
        CharClass::Separator => !is_alnum(c),
        CharClass::Digit => is_digit(c),
        CharClass::Alpha => is_alpha(c),
        CharClass::Zero => c == '0',
    }
}

/// The end of the run of characters of class `k` that starts at `i`.
pub open spec fn run_end(s: Seq<char>, i: int, k: CharClass) -> int
    decreases s.len() - i,
{
    if 0 <= i < s.len() && in_class(s[i], k) {
        run_end(s, i + 1, k)
    } else {
        i
    }
}

/// `strcmp` on two segments: -1, 0 or 1.
pub open spec fn lex_cmp(x: Seq<char>, y: Seq<char>) -> int
    decreases x.len(),
{
    if x.len() == 0 {
        if y.len() == 0 {
            0
        } else {
            -1
        }
    } else if y.len() == 0 {
        1
    } else if (x[0] as u32) < (y[0] as u32) {
        -1
    } else if (x[0] as u32) > (y[0] as u32) {
        1
    } else {
        lex_cmp(x.drop_first(), y.drop_first())
    }
}

/// What is decided once one of the two strings has no segment left.
pub open spec fn rpm_final(a: Seq<char>, b: Seq<char>, i: int, j: int) -> int {
    if i >= a.len() && j >= b.len() {
        0
    } else if (i >= a.len() && !is_alpha(b[j])) || (i < a.len() && is_alpha(a[i])) {
        -1
    } else {
        1
    }
}

/// The segment-by-segment comparison of `a[i..]` and `b[j..]`: separators are
/// skipped (their lengths must agree), numeric segments compare as numbers and
/// beat alphabetic ones, alphabetic segments compare as strings.
pub open spec fn rpm_loop(a: Seq<char>, b: Seq<char>, i: int, j: int) -> int
    decreases a.len() - i + b.len() - j,
    via rpm_loop_decreases
{
    if i < 0 || j < 0 || i >= a.len() || j >= b.len() {
        rpm_final(a, b, i, j)
    } else {
        let i1 = run_end(a, i, CharClass::Separator);
        let j1 = run_end(b, j, CharClass::Separator);
        if i1 >= a.len() || j1 >= b.len() {
            rpm_final(a, b, i1, j1)
        } else if i1 - i != j1 - j {
            if i1 - i < j1 - j {
                -1
            } else {
                1
            }
        } else if is_digit(a[i1]) {
            let i2 = run_end(a, i1, CharClass::Digit);
            let j2 = run_end(b, j1, CharClass::Digit);
            if j2 == j1 {
                1
            } else {
                let z1 = run_end(a, i1, CharClass::Zero);
                let z2 = run_end(b, j1, CharClass::Zero);
                if i2 - z1 > j2 - z2 {
                    1
                } else if i2 - z1 < j2 - z2 {
                    -1
                } else {
                    let c = lex_cmp(a.subrange(z1, i2), b.subrange(z2, j2));
                    if c != 0 {
                        c
                    } else {
                        rpm_loop(a, b, i2, j2)
                    }
                }
            }
        } else {
            let i2 = run_end(a, i1, CharClass::Alpha);
            let j2 = run_end(b, j1, CharClass::Alpha);
            if j2 == j1 {
                -1
            } else {
                let c = lex_cmp(a.subrange(i1, i2), b.subrange(j1, j2));
                if c != 0 {
                    c
                } else {
                    rpm_loop(a, b, i2, j2)
                }
            }
        }
    }
}

#[via_fn]
proof fn rpm_loop_decreases(a: Seq<char>, b: Seq<char>, i: int, j: int) {
    if i < 0 || j < 0 || i >= a.len() || j >= b.len() {
    } else {
        let i1 = run_end(a, i, CharClass::Separator);
        let j1 = run_end(b, j, CharClass::Separator);
        lemma_run_end(a, i, CharClass::Separator);
        lemma_run_end(b, j, CharClass::Separator);
        if i1 < a.len() && j1 < b.len() {
            lemma_run_end(a, i1, CharClass::Digit);
            lemma_run_end(b, j1, CharClass::Digit);
            lemma_run_end(a, i1, CharClass::Alpha);
            lemma_run_end(b, j1, CharClass::Alpha);
        }
    }
}

/// Package version order on two version strings (-1 older, 0 same, 1 newer).
pub open spec fn rpmvercmp_spec(a: Seq<char>, b: Seq<char>) -> int {
    rpm_loop(a, b, 0, 0)
}

pub proof fn lemma_run_end(s: Seq<char>, i: int, k: CharClass)
    requires
        0 <= i <= s.len(),
    ensures
        i <= run_end(s, i, k) <= s.len(),
        i < s.len() && in_class(s[i], k) ==> run_end(s, i, k) > i,
        run_end(s, i, k) < s.len() ==> !in_class(s[run_end(s, i, k)], k),
        forall|p: int| i <= p < run_end(s, i, k) ==> in_class(#[trigger] s[p], k),
    decreases s.len() - i,
{
    if i < s.len() && in_class(s[i], k) {
        lemma_run_end(s, i + 1, k);
    }
}

proof fn lemma_zeros_within_digits(s: Seq<char>, i: int)
    requires
        0 <= i <= s.len(),
    ensures
        run_end(s, i, CharClass::Zero) <= run_end(s, i, CharClass::Digit),
    decreases s.len() - i,
{
    lemma_run_end(s, i, CharClass::Digit);
    if i < s.len() && s[i] == '0' {
        lemma_zeros_within_digits(s, i + 1);
    }
}

fn in_class_exec(c: char, k: CharClass) -> (r: bool)
    ensures
        r == in_class(c, k),
{
    let d = '0' <= c && c <= '9';
    let al = ('a' <= c && c <= 'z') || ('A' <= c && c <= 'Z');
    match k {
        CharClass::Separator => !(d || al),
        CharClass::Digit => d,
        CharClass::Alpha => al,
        CharClass::Zero => c == '0',
    }
}

fn run_end_exec(s: &Vec<char>, i: usize, k: CharClass) -> (r: usize)
    requires
        i <= s@.len(),
    ensures
        r as int == run_end(s@, i as int, k),
        i <= r <= s@.len(),
{
    let mut p: usize = i;
    while p < s.len() && in_class_exec(s[p], k)
        invariant
            i <= p <= s@.len(),
            run_end(s@, p as int, k) == run_end(s@, i as int, k),
        decreases s@.len() - p,
    {
        p = p + 1;
    }
    p
}

pub(crate) fn lex_cmp_exec(a: &Vec<char>, lo1: usize, hi1: usize, b: &Vec<char>, lo2: usize, hi2: usize) -> (r: i32)
    requires
        lo1 <= hi1 <= a@.len(),
        lo2 <= hi2 <= b@.len(),
    ensures
        r as int == lex_cmp(a@.subrange(lo1 as int, hi1 as int), b@.subrange(lo2 as int, hi2 as int)),
{
    let mut p: usize = lo1;
    let mut q: usize = lo2;
    loop
        invariant
            lo1 <= p <= hi1 <= a@.len(),
            lo2 <= q <= hi2 <= b@.len(),
            p - lo1 == q - lo2,
            lex_cmp(a@.subrange(p as int, hi1 as int), b@.subrange(q as int, hi2 as int))
                == lex_cmp(a@.subrange(lo1 as int, hi1 as int), b@.subrange(lo2 as int, hi2 as int)),
        decreases hi1 - p,
    {
        let ghost x = a@.subrange(p as int, hi1 as int);
        let ghost y = b@.subrange(q as int, hi2 as int);
        if p == hi1 {
            if q == hi2 {
                return 0;
            } else {
                return -1;
            }
        }
        if q == hi2 {
            return 1;
        }
        let c = a[p] as u32;
        let d = b[q] as u32;
        if c < d {
            return -1;
        }
        if c > d {
            return 1;
        }
        proof {
            assert(x.drop_first() =~= a@.subrange(p + 1, hi1 as int));
            assert(y.drop_first() =~= b@.subrange(q + 1, hi2 as int));
        }
        p = p + 1;
        q = q + 1;
    }
}

fn rpm_final_exec(a: &Vec<char>, b: &Vec<char>, i: usize, j: usize) -> (r: i32)
    requires
        i <= a@.len(),
        j <= b@.len(),
    ensures
        r as int == rpm_final(a@, b@, i as int, j as int),
{
    if i >= a.len() && j >= b.len() {
        0
    } else if (i >= a.len() && !in_class_exec(b[j], CharClass::Alpha)) || (i < a.len()
        && in_class_exec(a[i], CharClass::Alpha)) {
        -1
    } else {
        1
    }
}

/// Compares two version strings segment by segment, as pacman's `vercmp`
/// does for one component.
pub fn rpmvercmp_chars(a: &Vec<char>, b: &Vec<char>) -> (r: i32)
    ensures
        r as int == rpmvercmp_spec(a@, b@),
{
    let mut i: usize = 0;
    let mut j: usize = 0;
    loop
        invariant
            0 <= i <= a@.len(),
            0 <= j <= b@.len(),
            rpm_loop(a@, b@, i as int, j as int) == rpm_loop(a@, b@, 0, 0),
        decreases a@.len() - i + b@.len() - j,
    {
        if i >= a.len() || j >= b.len() {
            return rpm_final_exec(a, b, i, j);
        }
        let i1 = run_end_exec(a, i, CharClass::Separator);
        let j1 = run_end_exec(b, j, CharClass::Separator);
        if i1 >= a.len() || j1 >= b.len() {
            return rpm_final_exec(a, b, i1, j1);
        }
        if i1 - i != j1 - j {
            if i1 - i < j1 - j {
                return -1;
            } else {
                return 1;
            }
        }
        if in_class_exec(a[i1], CharClass::Digit) {
            let i2 = run_end_exec(a, i1, CharClass::Digit);
            let j2 = run_end_exec(b, j1, CharClass::Digit);
            if j2 == j1 {
                return 1;
            }
            let z1 = run_end_exec(a, i1, CharClass::Zero);
            let z2 = run_end_exec(b, j1, CharClass::Zero);
            proof {
                lemma_zeros_within_digits(a@, i1 as int);
                lemma_zeros_within_digits(b@, j1 as int);
                lemma_run_end(a@, i1 as int, CharClass::Digit);
            }
            if i2 - z1 > j2 - z2 {
                return 1;
            }
            if i2 - z1 < j2 - z2 {
                return -1;
            }
            let c = lex_cmp_exec(a, z1, i2, b, z2, j2);
            if c != 0 {
                return c;
            }
            i = i2;
            j = j2;
        } else {
            let i2 = run_end_exec(a, i1, CharClass::Alpha);
            let j2 = run_end_exec(b, j1, CharClass::Alpha);
            proof {
                lemma_run_end(a@, i1 as int, CharClass::Alpha);
            }
            if j2 == j1 {
                return -1;
            }
            let c = lex_cmp_exec(a, i1, i2, b, j1, j2);
            if c != 0 {
                return c;
            }
            i = i2;
            j = j2;
        }
    }
}


proof fn lemma_lex_cmp_antisymmetric(x: Seq<char>, y: Seq<char>)
    ensures
        lex_cmp(x, y) == -lex_cmp(y, x),
    decreases x.len(),
{
    if x.len() > 0 && y.len() > 0 {
        lemma_lex_cmp_antisymmetric(x.drop_first(), y.drop_first());
    }
}

proof fn lemma_lex_cmp_reflexive(x: Seq<char>)
    ensures
        lex_cmp(x, x) == 0,
    decreases x.len(),
{
    if x.len() > 0 {
        lemma_lex_cmp_reflexive(x.drop_first());
    }
}

proof fn lemma_rpm_loop_antisymmetric(a: Seq<char>, b: Seq<char>, i: int, j: int)
    requires
        0 <= i <= a.len(),
        0 <= j <= b.len(),
    ensures
        rpm_loop(a, b, i, j) == -rpm_loop(b, a, j, i),
    decreases a.len() - i + b.len() - j,
{
    if i < a.len() && j < b.len() {
        let i1 = run_end(a, i, CharClass::Separator);
        let j1 = run_end(b, j, CharClass::Separator);
        lemma_run_end(a, i, CharClass::Separator);
        lemma_run_end(b, j, CharClass::Separator);
        if i1 < a.len() && j1 < b.len() && i1 - i == j1 - j {
            lemma_run_end(a, i1, CharClass::Digit);
            lemma_run_end(b, j1, CharClass::Digit);
            lemma_run_end(a, i1, CharClass::Alpha);
            lemma_run_end(b, j1, CharClass::Alpha);
            if is_digit(a[i1]) && is_digit(b[j1]) {
                let i2 = run_end(a, i1, CharClass::Digit);
                let j2 = run_end(b, j1, CharClass::Digit);
                let z1 = run_end(a, i1, CharClass::Zero);
                let z2 = run_end(b, j1, CharClass::Zero);
                lemma_lex_cmp_antisymmetric(a.subrange(z1, i2), b.subrange(z2, j2));
                lemma_rpm_loop_antisymmetric(a, b, i2, j2);
            } else if is_alpha(a[i1]) && is_alpha(b[j1]) {
                let i2 = run_end(a, i1, CharClass::Alpha);
                let j2 = run_end(b, j1, CharClass::Alpha);
                lemma_lex_cmp_antisymmetric(a.subrange(i1, i2), b.subrange(j1, j2));
                lemma_rpm_loop_antisymmetric(a, b, i2, j2);
            }
        }
    }
}

proof fn lemma_rpm_loop_reflexive(a: Seq<char>, i: int)
    requires
        0 <= i <= a.len(),
    ensures
        rpm_loop(a, a, i, i) == 0,
    decreases a.len() - i,
{
    if i < a.len() {
        let i1 = run_end(a, i, CharClass::Separator);
        lemma_run_end(a, i, CharClass::Separator);
        if i1 < a.len() {
            lemma_run_end(a, i1, CharClass::Digit);
            lemma_run_end(a, i1, CharClass::Alpha);
            lemma_run_end(a, i1, CharClass::Zero);
            lemma_zeros_within_digits(a, i1);
            if is_digit(a[i1]) {
                let i2 = run_end(a, i1, CharClass::Digit);
                let z1 = run_end(a, i1, CharClass::Zero);
                lemma_lex_cmp_reflexive(a.subrange(z1, i2));
                lemma_rpm_loop_reflexive(a, i2);
            } else {
                let i2 = run_end(a, i1, CharClass::Alpha);
                lemma_lex_cmp_reflexive(a.subrange(i1, i2));
                lemma_rpm_loop_reflexive(a, i2);
            }
        }
    }
}

/// Swapping the two version strings negates the comparison, and a version
/// string is equal to itself.
pub proof fn lemma_rpmvercmp_antisymmetric(a: Seq<char>, b: Seq<char>)
    ensures
        rpmvercmp_spec(a, b) == -rpmvercmp_spec(b, a),
        rpmvercmp_spec(a, a) == 0,
{
    lemma_rpm_loop_antisymmetric(a, b, 0, 0);
    lemma_rpm_loop_reflexive(a, 0);
}

/// Whether path `a` sorts before path `b`, character by character.
pub fn path_before(a: &str, b: &str) -> (r: bool)
    ensures
        r == (lex_cmp(a@, b@) < 0),
{
    let x = crate::package::chars_of(a);
    let y = crate::package::chars_of(b);
    proof {
        assert(x@.subrange(0, x@.len() as int) =~= x@);
        assert(y@.subrange(0, y@.len() as int) =~= y@);
    }
    lex_cmp_exec(&x, 0, x.len(), &y, 0, y.len()) < 0
}

} // verus!

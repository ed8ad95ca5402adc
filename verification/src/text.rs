//! Character-level text operations: whitespace, trimming, finding a
//! separator, and comparing names without regard to ASCII case.
use vstd::prelude::*;

verus! {

/// The Unicode `White_Space` characters, the set that Rust's
/// `char::is_whitespace` and `str::trim` go by.
pub open spec fn is_white_space(c: char) -> bool {
    let u: u32 = c as u32;
    ||| 0x09 <= u <= 0x0D
    ||| u == 0x20
    ||| u == 0x85
    ||| u == 0xA0
    ||| u == 0x1680
    ||| 0x2000 <= u <= 0x200A
    ||| u == 0x2028
    ||| u == 0x2029
    ||| u == 0x202F
    ||| u == 0x205F
    ||| u == 0x3000
}

/// `s` without its leading whitespace.
pub open spec fn trim_start(s: Seq<char>) -> Seq<char>
    decreases s.len(),
{
    if s.len() > 0 && is_white_space(s[0]) {
        trim_start(s.drop_first())
    } else {
        s
    }
}

/// `s` without its trailing whitespace.
pub open spec fn trim_end(s: Seq<char>) -> Seq<char>
    decreases s.len(),
{
    if s.len() > 0 && is_white_space(s.last()) {
        trim_end(s.drop_last())
    } else {
        s
    }
}

/// `s` without leading or trailing whitespace.
pub open spec fn trim(s: Seq<char>) -> Seq<char> {
    trim_end(trim_start(s))
}

/// Whether `s` is all whitespace (the empty text included).
pub open spec fn is_blank(s: Seq<char>) -> bool {
    trim(s).len() == 0
}

/// The code of `c` with ASCII upper-case letters folded onto lower case.
pub open spec fn fold_ascii_case(c: char) -> int {
    if 'A' <= c && c <= 'Z' {
        c as int + 32
    } else {
        c as int
    }
}

/// Whether `a` and `b` are equal once ASCII letters are folded to one case.
pub open spec fn eq_ignoring_ascii_case(a: Seq<char>, b: Seq<char>) -> bool {
    &&& a.len() == b.len()
    &&& forall|i: int| 0 <= i < a.len() ==> fold_ascii_case(#[trigger] a[i]) == fold_ascii_case(b[i])
}

/// `trim_start(s)` is `s` with a run of leading whitespace skipped, and
/// starts with a character that is not whitespace where it is not empty.
pub proof fn lemma_trim_start_shape(s: Seq<char>) -> (a: int)
    ensures
        0 <= a <= s.len(),
        trim_start(s) == s.skip(a),
        forall|j: int| 0 <= j < a ==> is_white_space(#[trigger] s[j]),
        trim_start(s).len() > 0 ==> !is_white_space(trim_start(s)[0]),
    decreases s.len(),
{
    if s.len() > 0 && is_white_space(s[0]) {
        let b = lemma_trim_start_shape(s.drop_first());
        assert(s.drop_first().skip(b) =~= s.skip(b + 1));
        assert forall|j: int| 0 <= j < b + 1 implies is_white_space(#[trigger] s[j]) by {
            if j > 0 {
                assert(s[j] == s.drop_first()[j - 1]);
            }
        }
        b + 1
    } else {
        assert(s.skip(0) =~= s);
        0
    }
}

/// `trim_end(s)` is a prefix of `s` that is followed only by whitespace,
/// and ends in a character that is not whitespace where it is not empty.
pub proof fn lemma_trim_end_shape(s: Seq<char>) -> (b: int)
    ensures
        0 <= b <= s.len(),
        trim_end(s) == s.take(b),
        forall|j: int| b <= j < s.len() ==> is_white_space(#[trigger] s[j]),
        trim_end(s).len() > 0 ==> !is_white_space(trim_end(s).last()),
    decreases s.len(),
{
    if s.len() > 0 && is_white_space(s.last()) {
        let b = lemma_trim_end_shape(s.drop_last());
        assert(s.drop_last().take(b) =~= s.take(b));
        assert forall|j: int| b <= j < s.len() implies is_white_space(#[trigger] s[j]) by {
            if j < s.len() - 1 {
                assert(s[j] == s.drop_last()[j]);
            }
        }
        b
    } else {
        assert(s.take(s.len() as int) =~= s);
        s.len() as int
    }
}

/// `trim(s)` is a stretch of `s` that neither starts nor ends with
/// whitespace.
pub proof fn lemma_trim_shape(s: Seq<char>) -> (ab: (int, int))
    ensures
        0 <= ab.0 <= ab.1 <= s.len(),
        trim(s) == s.subrange(ab.0, ab.1),
        trim(s).len() > 0 ==> !is_white_space(trim(s)[0]) && !is_white_space(trim(s).last()),
{
    let a = lemma_trim_start_shape(s);
    let z = trim_start(s);
    let b = lemma_trim_end_shape(z);
    assert(z.take(b) =~= s.subrange(a, a + b));
    if b > 0 {
        assert(trim(s)[0] == z[0]);
    }
    (a, a + b)
}

/// Trimming twice is trimming once.
pub proof fn lemma_trim_idempotent(s: Seq<char>)
    ensures
        trim(trim(s)) == trim(s),
{
    let t = trim(s);
    lemma_trim_shape(s);
    if t.len() > 0 {
        assert(trim_start(t) == t);
        assert(trim_end(t) == t);
    } else {
        assert(trim_start(t) == t);
        assert(trim_end(t) == t);
    }
}

/// Trimming keeps no character that the text did not have.
pub proof fn lemma_trim_contains(s: Seq<char>, c: char)
    ensures
        trim(s).contains(c) ==> s.contains(c),
{
    let (a, b) = lemma_trim_shape(s);
    if trim(s).contains(c) {
        let i = choose|i: int| 0 <= i < trim(s).len() && trim(s)[i] == c;
        assert(s[a + i] == c);
    }
}

/// Whether `upper` is an ASCII upper-case letter and `lower` the
/// lower-case letter that goes with it.
pub open spec fn is_ascii_case_pair(upper: char, lower: char) -> bool {
    'A' <= upper && upper <= 'Z' && lower as int == upper as int + 32
}

/// Folding ASCII case equates two characters exactly when they are the same
/// character or an ASCII letter in its two cases.
pub proof fn lemma_fold_equates_exactly_case_pairs(c: char, d: char)
    ensures
        (fold_ascii_case(c) == fold_ascii_case(d)) <==> (c == d || is_ascii_case_pair(c, d)
            || is_ascii_case_pair(d, c)),
{
    assert(c as int == d as int ==> c == d);
}

/// Two texts are equal ignoring ASCII case exactly when they have the same
/// length and each character is the other's, or its ASCII letter in the
/// other case.
pub proof fn lemma_eq_ignoring_case_is_per_character(a: Seq<char>, b: Seq<char>)
    ensures
        eq_ignoring_ascii_case(a, b) <==> (a.len() == b.len() && forall|i: int|
            0 <= i < a.len() ==> (#[trigger] a[i] == b[i] || is_ascii_case_pair(a[i], b[i])
                || is_ascii_case_pair(b[i], a[i]))),
{
    assert forall|i: int| 0 <= i < a.len() && i < b.len() implies (fold_ascii_case(#[trigger] a[i])
        == fold_ascii_case(b[i])) <==> (a[i] == b[i] || is_ascii_case_pair(a[i], b[i])
        || is_ascii_case_pair(b[i], a[i])) by {
        lemma_fold_equates_exactly_case_pairs(a[i], b[i]);
    }
}

/// Whether every character of `s` is whitespace.
pub open spec fn all_white_space(s: Seq<char>) -> bool {
    forall|i: int| 0 <= i < s.len() ==> is_white_space(#[trigger] s[i])
}

proof fn lemma_trim_start_after_space(w: Seq<char>, x: Seq<char>)
    requires
        all_white_space(w),
    ensures
        trim_start(w + x) == trim_start(x),
    decreases w.len(),
{
    if w.len() > 0 {
        assert((w + x)[0] == w[0]);
        assert((w + x).drop_first() =~= w.drop_first() + x);
        assert forall|i: int| 0 <= i < w.drop_first().len() implies is_white_space(
            #[trigger] w.drop_first()[i],
        ) by {
            assert(w.drop_first()[i] == w[i + 1]);
        }
        lemma_trim_start_after_space(w.drop_first(), x);
    } else {
        assert(w + x =~= x);
    }
}

proof fn lemma_trim_end_before_space(x: Seq<char>, w: Seq<char>)
    requires
        all_white_space(w),
    ensures
        trim_end(x + w) == trim_end(x),
    decreases w.len(),
{
    if w.len() > 0 {
        assert((x + w).last() == w.last());
        assert((x + w).drop_last() =~= x + w.drop_last());
        assert forall|i: int| 0 <= i < w.drop_last().len() implies is_white_space(
            #[trigger] w.drop_last()[i],
        ) by {
            assert(w.drop_last()[i] == w[i]);
        }
        lemma_trim_end_before_space(x, w.drop_last());
    } else {
        assert(x + w =~= x);
    }
}

/// Whitespace around a text that neither starts nor ends with whitespace is
/// what trimming takes away: the text itself is left.
pub proof fn lemma_trim_removes_surrounding_space(before: Seq<char>, x: Seq<char>, after: Seq<char>)
    requires
        all_white_space(before),
        all_white_space(after),
        x.len() > 0,
        !is_white_space(x[0]),
        !is_white_space(x.last()),
    ensures
        trim(before + x + after) == x,
{
    assert(before + x + after =~= before + (x + after));
    lemma_trim_start_after_space(before, x + after);
    assert((x + after)[0] == x[0]);
    assert(trim_start(x + after) == x + after);
    lemma_trim_end_before_space(x, after);
    assert(trim_end(x) == x);
}

/// The characters of `s`, in order.
pub fn chars_of(s: &str) -> (r: Vec<char>)
    ensures
        r@ == s@,
{
    let mut v: Vec<char> = Vec::new();
    for c in it: s.chars()
        invariant
            v@ == it.seq().take(it.index() as int),
            it.seq() == s@,
    {
        v.push(c);
    }
    v
}

/// Whether `c` is a Unicode whitespace character.
pub fn is_whitespace(c: char) -> (r: bool)
    ensures
        r == is_white_space(c),
{
    let u: u32 = c as u32;
    (0x09 <= u && u <= 0x0D) || u == 0x20 || u == 0x85 || u == 0xA0 || u == 0x1680 || (0x2000
        <= u && u <= 0x200A) || u == 0x2028 || u == 0x2029 || u == 0x202F || u == 0x205F || u
        == 0x3000
}

proof fn lemma_trim_start_skip(s: Seq<char>, a: int)
    requires
        0 <= a < s.len(),
        is_white_space(s[a]),
    ensures
        trim_start(s.skip(a)) == trim_start(s.skip(a + 1)),
{
    assert(s.skip(a).drop_first() =~= s.skip(a + 1));
}

proof fn lemma_trim_end_take(s: Seq<char>, b: int)
    requires
        0 < b <= s.len(),
        is_white_space(s[b - 1]),
    ensures
        trim_end(s.take(b)) == trim_end(s.take(b - 1)),
{
    assert(s.take(b).drop_last() =~= s.take(b - 1));
}

/// `s` with leading and trailing whitespace removed, as `str::trim` does.
pub fn trim_str(s: &str) -> (r: &str)
    ensures
        r@ == trim(s@),
{
    let v = chars_of(s);
    let n: usize = v.len();
    let mut a: usize = 0;
    assert(s@.skip(0) =~= s@);
    while a < n && is_whitespace(v[a])
        invariant
            v@ == s@,
            n == s@.len(),
            a <= n,
            trim_start(s@) == trim_start(s@.skip(a as int)),
        decreases n - a,
    {
        proof {
            lemma_trim_start_skip(s@, a as int);
        }
        a = a + 1;
    }
    let ghost rest = s@.skip(a as int);
    assert(trim_start(s@) == rest) by {
        if a < n {
            assert(rest[0] == s@[a as int]);
        } else {
            assert(rest.len() == 0);
        }
    }
    let mut b: usize = n;
    assert(rest.take((n - a) as int) =~= rest);
    while b > a && is_whitespace(v[b - 1])
        invariant
            v@ == s@,
            n == s@.len(),
            a <= b <= n,
            rest == s@.skip(a as int),
            trim_end(rest) == trim_end(rest.take(b - a)),
        decreases b,
    {
        proof {
            assert(rest[b - a - 1] == s@[b - 1]);
            lemma_trim_end_take(rest, (b - a) as int);
        }
        b = b - 1;
    }
    proof {
        let kept = rest.take(b - a);
        if b > a {
            assert(kept.last() == s@[b - 1]);
        }
        assert(trim_end(kept) == kept);
        assert(kept =~= s@.subrange(a as int, b as int));
    }
    s.substring_char(a, b)
}

/// The index of the first `sep` in `s`, if it has one.
pub fn find_char(s: &Vec<char>, sep: char) -> (r: Option<usize>)
    ensures
        r == (match s@.index_of_first(sep) {
            Some(i) => Some(i as usize),
            None => None::<usize>,
        }),
{
    proof {
        s@.index_of_first_ensures(sep);
    }
    let mut i: usize = 0;
    while i < s.len()
        invariant
            i <= s@.len(),
            forall|j: int| 0 <= j < i ==> s@[j] != sep,
        decreases s.len() - i,
    {
        if s[i] == sep {
            proof {
                s@.index_of_first_ensures(sep);
                assert(s@[i as int] == sep);
                assert(s@.contains(sep));
            }
            return Some(i);
        }
        i = i + 1;
    }
    None
}

/// `c` with an ASCII upper-case letter folded onto lower case, as a code.
fn fold_char(c: char) -> (r: u32)
    ensures
        r as int == fold_ascii_case(c),
{
    if 'A' <= c && c <= 'Z' {
        (c as u32) + 32
    } else {
        c as u32
    }
}

/// Whether `a` and `b` are equal once ASCII letters are folded to one case,
/// as `str::eq_ignore_ascii_case` decides.
pub fn eq_ignore_ascii_case(a: &str, b: &str) -> (r: bool)
    ensures
        r == eq_ignoring_ascii_case(a@, b@),
{
    let x = chars_of(a);
    let y = chars_of(b);
    if x.len() != y.len() {
        return false;
    }
    let mut i: usize = 0;
    while i < x.len()
        invariant
            x@ == a@,
            y@ == b@,
            x@.len() == y@.len(),
            i <= x@.len(),
            forall|j: int| 0 <= j < i ==> fold_ascii_case(#[trigger] a@[j]) == fold_ascii_case(b@[j]),
        decreases x.len() - i,
    {
        if fold_char(x[i]) != fold_char(y[i]) {
            return false;
        }
        i = i + 1;
    }
    true
}

} // verus!

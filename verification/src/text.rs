//! Character-level string operations with their mathematical meaning.
//!
//! Paths in this crate are `/`-separated strings; the functions here give
//! them the meaning that `std::path::Path` gives them on Unix.
use vstd::prelude::*;

verus! {

broadcast use vstd::string::group_string_axioms;

/// The characters of `s`, in order.
pub fn chars_of(s: &str) -> (v: Vec<char>)
    ensures
        v@ == s@,
{
    let mut v: Vec<char> = Vec::new();
    for c in it: s.chars()
        invariant
            it.seq() == s@,
            v@ == it.seq().take(it.index() as int),
        ensures
            v@ == s@,
    {
        v.push(c);
    }
    v
}

/// Whether `a` and `b` hold the same characters.
pub fn str_eq(a: &str, b: &str) -> (r: bool)
    ensures
        r == (a@ == b@),
{
    let x = chars_of(a);
    let y = chars_of(b);
    if x.len() != y.len() {
        return false;
    }
    let mut i: usize = 0;
    while i < x.len()
        invariant
            x@ == a@,
            y@ == b@,
            x.len() == y.len(),
            i <= x.len(),
            forall|j: int| 0 <= j < i ==> x@[j] == y@[j],
        decreases x.len() - i,
    {
        if x[i] != y[i] {
            return false;
        }
        i = i + 1;
    }
    proof {
        assert(x@ =~= y@);
    }
    true
}

/// Whether `suffix` ends `s`, as `str::ends_with` with a string pattern.
pub fn str_ends_with(s: &str, suffix: &str) -> (r: bool)
    ensures
        r == suffix@.is_suffix_of(s@),
{
    let x = chars_of(s);
    let y = chars_of(suffix);
    if y.len() > x.len() {
        return false;
    }
    let off = x.len() - y.len();
    let mut i: usize = 0;
    while i < y.len()
        invariant
            x@ == s@,
            y@ == suffix@,
            y.len() <= x.len(),
            off == x.len() - y.len(),
            i <= y.len(),
            forall|j: int| 0 <= j < i ==> x@[off + j] == y@[j],
        decreases y.len() - i,
    {
        if x[off + i] != y[i] {
            return false;
        }
        i = i + 1;
    }
    proof {
        assert(y@ =~= x@.subrange(off as int, x@.len() as int));
    }
    true
}

/// Whether `prefix` starts `s`, as `str::starts_with` with a string pattern.
pub fn str_starts_with(s: &str, prefix: &str) -> (r: bool)
    ensures
        r == prefix@.is_prefix_of(s@),
{
    let x = chars_of(s);
    let y = chars_of(prefix);
    if y.len() > x.len() {
        return false;
    }
    let mut i: usize = 0;
    while i < y.len()
        invariant
            x@ == s@,
            y@ == prefix@,
            y.len() <= x.len(),
            i <= y.len(),
            forall|j: int| 0 <= j < i ==> x@[j] == y@[j],
        decreases y.len() - i,
    {
        if x[i] != y[i] {
            return false;
        }
        i = i + 1;
    }
    proof {
        assert(y@ =~= x@.subrange(0, y@.len() as int));
    }
    true
}

/// Index of the last occurrence of `c` in `s`, or -1 when there is none.
pub open spec fn last_index_of(s: Seq<char>, c: char) -> int
    decreases s.len(),
{
    if s.len() == 0 {
        -1
    } else if s.last() == c {
        s.len() - 1
    } else {
        last_index_of(s.drop_last(), c)
    }
}

pub proof fn lemma_last_index_of(s: Seq<char>, c: char)
    ensures
        -1 <= last_index_of(s, c) < s.len(),
        last_index_of(s, c) >= 0 ==> s[last_index_of(s, c)] == c,
        forall|j: int| last_index_of(s, c) < j < s.len() ==> s[j] != c,
    decreases s.len(),
{
    if s.len() > 0 && s.last() != c {
        lemma_last_index_of(s.drop_last(), c);
        assert forall|j: int| last_index_of(s, c) < j < s.len() implies s[j] != c by {
            if j < s.len() - 1 {
                assert(s.drop_last()[j] == s[j]);
            }
        }
    }
}

/// Finds the last `c` in `v[0..end]`.
pub fn rfind_char(v: &Vec<char>, end: usize, c: char) -> (r: Option<usize>)
    requires
        end <= v.len(),
    ensures
        match r {
            Some(i) => i < end && i == last_index_of(v@.take(end as int), c),
            None => last_index_of(v@.take(end as int), c) == -1,
        },
{
    let mut k = end;
    while k > 0
        invariant
            k <= end <= v.len(),
            last_index_of(v@.take(end as int), c) == last_index_of(v@.take(k as int), c),
        decreases k,
    {
        proof {
            assert(v@.take(k as int).drop_last() =~= v@.take(k - 1));
        }
        if v[k - 1] == c {
            return Some(k - 1);
        }
        k = k - 1;
    }
    None
}

/// The last normal component of the `/`-separated path `s`, as
/// `Path::file_name` gives it: empty and `.` components are skipped, and a
/// final `..` (or no component at all) gives none.
pub open spec fn path_file_name(s: Seq<char>) -> Option<Seq<char>>
    decreases s.len(),
{
    let k = last_index_of(s, '/');
    let seg = s.subrange(k + 1, s.len() as int);
    if seg.len() == 0 || seg == seq!['.'] {
        if k < 0 {
            None
        } else {
            proof { lemma_last_index_of(s, '/'); }
            path_file_name(s.take(k))
        }
    } else if seg == seq!['.', '.'] {
        None
    } else {
        Some(seg)
    }
}

/// Where the file name of `s[0..end]` starts and ends.
pub open spec fn path_file_name_span(s: Seq<char>) -> Option<(int, int)>
    decreases s.len(),
{
    let k = last_index_of(s, '/');
    let seg = s.subrange(k + 1, s.len() as int);
    if seg.len() == 0 || seg == seq!['.'] {
        if k < 0 {
            None
        } else {
            proof { lemma_last_index_of(s, '/'); }
            path_file_name_span(s.take(k))
        }
    } else if seg == seq!['.', '.'] {
        None
    } else {
        Some((k + 1, s.len() as int))
    }
}

pub proof fn lemma_file_name_span(s: Seq<char>)
    ensures
        match path_file_name_span(s) {
            Some((a, b)) => 0 <= a < b <= s.len() && path_file_name(s) == Some(
                s.subrange(a, b),
            ),
            None => path_file_name(s) is None,
        },
    decreases s.len(),
{
    lemma_last_index_of(s, '/');
    let k = last_index_of(s, '/');
    let seg = s.subrange(k + 1, s.len() as int);
    if seg.len() == 0 || seg == seq!['.'] {
        if k >= 0 {
            lemma_file_name_span(s.take(k));
            match path_file_name_span(s.take(k)) {
                Some((a, b)) => {
                    assert(s.take(k).subrange(a, b) =~= s.subrange(a, b));
                },
                None => {},
            }
        }
    }
}

fn is_dot_seg(v: &Vec<char>, a: usize, b: usize) -> (r: bool)
    requires
        a <= b <= v.len(),
    ensures
        r == (v@.subrange(a as int, b as int) == seq!['.']),
{
    let ghost d = seq!['.'];
    assert(d.len() == 1 && d[0] == '.');
    if b - a == 1 && v[a] == '.' {
        assert(v@.subrange(a as int, b as int) =~= seq!['.']);
        true
    } else {
        if b - a == 1 {
            assert(v@.subrange(a as int, b as int)[0] == v@[a as int]);
        }
        assert(v@.subrange(a as int, b as int) != d);
        false
    }
}

fn is_dotdot_seg(v: &Vec<char>, a: usize, b: usize) -> (r: bool)
    requires
        a <= b <= v.len(),
    ensures
        r == (v@.subrange(a as int, b as int) == seq!['.', '.']),
{
    let ghost d = seq!['.', '.'];
    assert(d.len() == 2 && d[0] == '.' && d[1] == '.');
    if b - a == 2 && v[a] == '.' && v[a + 1] == '.' {
        assert(v@.subrange(a as int, b as int) =~= seq!['.', '.']);
        true
    } else {
        if b - a == 2 {
            assert(v@.subrange(a as int, b as int)[0] == v@[a as int]);
            assert(v@.subrange(a as int, b as int)[1] == v@[a + 1]);
        }
        assert(v@.subrange(a as int, b as int) != d);
        false
    }
}

/// Start and end (in characters) of the file name of `v`.
pub fn file_name_span(v: &Vec<char>) -> (r: Option<(usize, usize)>)
    ensures
        match r {
            Some((a, b)) => path_file_name_span(v@) == Some((a as int, b as int)),
            None => path_file_name_span(v@) is None,
        },
{
    let mut end = v.len();
    assert(v@.take(end as int) =~= v@);
    loop
        invariant
            end <= v.len(),
            path_file_name_span(v@) == path_file_name_span(v@.take(end as int)),
        decreases end,
    {
        let ghost s = v@.take(end as int);
        let k = rfind_char(v, end, '/');
        let start: usize = match k {
            Some(i) => i + 1,
            None => 0,
        };
        proof {
            lemma_last_index_of(s, '/');
            assert(s.subrange(start as int, s.len() as int) =~= v@.subrange(
                start as int,
                end as int,
            ));
        }
        if start == end || is_dot_seg(v, start, end) {
            match k {
                None => {
                    return None;
                },
                Some(i) => {
                    proof {
                        assert(s.take(i as int) =~= v@.take(i as int));
                    }
                    end = i;
                },
            }
        } else if is_dotdot_seg(v, start, end) {
            return None;
        } else {
            return Some((start, end));
        }
    }
}

/// `Path::file_name` of the `/`-separated path `s`.
pub fn file_name(s: &str) -> (r: Option<&str>)
    ensures
        match r {
            Some(n) => path_file_name(s@) == Some(n@),
            None => path_file_name(s@) is None,
        },
{
    let v = chars_of(s);
    proof {
        lemma_file_name_span(s@);
    }
    match file_name_span(&v) {
        Some((a, b)) => Some(s.substring_char(a, b)),
        None => None,
    }
}

/// The extension of a file name, as `Path::extension` gives it: what follows
/// the last `.`, unless that `.` opens the name or there is none.
pub open spec fn name_extension(name: Seq<char>) -> Option<Seq<char>> {
    let k = last_index_of(name, '.');
    if name == seq!['.', '.'] || k <= 0 {
        None
    } else {
        Some(name.subrange(k + 1, name.len() as int))
    }
}

/// `Path::extension` of the `/`-separated path `s`.
pub open spec fn path_extension(s: Seq<char>) -> Option<Seq<char>> {
    match path_file_name(s) {
        Some(name) => name_extension(name),
        None => None,
    }
}

/// `Path::extension` of the `/`-separated path `s`.
pub fn extension(s: &str) -> (r: Option<&str>)
    ensures
        match r {
            Some(e) => path_extension(s@) == Some(e@),
            None => path_extension(s@) is None,
        },
{
    match file_name(s) {
        None => None,
        Some(name) => {
            let v = chars_of(name);
            let k = rfind_char(&v, v.len(), '.');
            proof {
                assert(v@.take(v@.len() as int) =~= v@);
            }
            match k {
                Some(i) => {
                    if i == 0 || is_dotdot_seg(&v, 0, v.len()) {
                        proof {
                            assert(v@.subrange(0, v@.len() as int) =~= v@);
                        }
                        None
                    } else {
                        proof {
                            assert(v@.subrange(0, v@.len() as int) =~= v@);
                        }
                        Some(name.substring_char(i + 1, v.len()))
                    }
                },
                None => None,
            }
        },
    }
}

/// Number of occurrences of `c` in `s`.
pub open spec fn count_char(s: Seq<char>, c: char) -> nat
    decreases s.len(),
{
    if s.len() == 0 {
        0
    } else {
        count_char(s.drop_last(), c) + if s.last() == c {
            1nat
        } else {
            0nat
        }
    }
}

pub proof fn lemma_count_char_bound(s: Seq<char>, c: char)
    ensures
        count_char(s, c) <= s.len(),
    decreases s.len(),
{
    if s.len() > 0 {
        lemma_count_char_bound(s.drop_last(), c);
    }
}

/// Counts the occurrences of `c` in `s`.
pub fn count_chars(s: &str, c: char) -> (n: usize)
    ensures
        n == count_char(s@, c),
{
    let v = chars_of(s);
    let mut n: usize = 0;
    let mut i: usize = 0;
    while i < v.len()
        invariant
            v@ == s@,
            i <= v.len(),
            n == count_char(v@.take(i as int), c),
        decreases v.len() - i,
    {
        proof {
            assert(v@.take(i + 1).drop_last() =~= v@.take(i as int));
            lemma_count_char_bound(v@.take(i as int), c);
        }
        if v[i] == c {
            n = n + 1;
        }
        i = i + 1;
    }
    proof {
        assert(v@.take(v@.len() as int) =~= v@);
    }
    n
}


/// Whether every character of `s` is an ASCII digit.
pub open spec fn all_digits(s: Seq<char>) -> bool {
    forall|i: int| 0 <= i < s.len() ==> '0' <= #[trigger] s[i] <= '9'
}

/// The number that the decimal digits `s` spell.
pub open spec fn digits_value(s: Seq<char>) -> nat
    decreases s.len(),
{
    if s.len() == 0 {
        0
    } else {
        digits_value(s.drop_last()) * 10 + ((s.last() as int - '0' as int) as nat)
    }
}

/// What `str::parse::<usize>` gives: an optional `+`, then one or more
/// decimal digits whose value fits in a `usize`.
pub open spec fn parse_usize_spec(s: Seq<char>) -> Option<usize> {
    let d = if s.len() > 0 && s[0] == '+' {
        s.skip(1)
    } else {
        s
    };
    if d.len() > 0 && all_digits(d) && digits_value(d) <= usize::MAX {
        Some(digits_value(d) as usize)
    } else {
        None
    }
}

proof fn lemma_digits_value_mono(s: Seq<char>, i: int)
    requires
        0 <= i <= s.len(),
        all_digits(s),
    ensures
        digits_value(s.take(i)) <= digits_value(s),
    decreases s.len() - i,
{
    if i < s.len() {
        lemma_digits_value_mono(s, i + 1);
        assert(s.take(i + 1).drop_last() =~= s.take(i));
        let t = s.take(i + 1);
        assert(t.last() == s[i]);
        assert(digits_value(t) == digits_value(s.take(i)) * 10 + ((s[i] as int - '0' as int) as nat));
        assert(digits_value(s.take(i)) <= digits_value(s.take(i)) * 10) by (nonlinear_arith);
    } else {
        assert(s.take(i) =~= s);
    }
}

/// `str::parse::<usize>` on `s`.
pub fn parse_usize(s: &str) -> (r: Option<usize>)
    ensures
        r == parse_usize_spec(s@),
{
    let v = chars_of(s);
    let mut i: usize = 0;
    if v.len() > 0 && v[0] == '+' {
        i = 1;
    }
    let start = i;
    let ghost d = if s@.len() > 0 && s@[0] == '+' {
        s@.skip(1)
    } else {
        s@
    };
    assert(d =~= v@.skip(start as int));
    if start == v.len() {
        return None;
    }
    let mut acc: usize = 0;
    while i < v.len()
        invariant
            v@ == s@,
            start <= i <= v.len(),
            d == v@.skip(start as int),
            d == (if s@.len() > 0 && s@[0] == '+' { s@.skip(1) } else { s@ }),
            all_digits(d.take(i - start)),
            acc == digits_value(d.take(i - start)),
        decreases v.len() - i,
    {
        let c = v[i];
        let ghost t = d.take(i - start + 1);
        assert(t.drop_last() =~= d.take(i - start));
        assert(t.last() == c);
        if c < '0' || c > '9' {
            assert(!all_digits(d)) by {
                let k = (i - start) as int;
                assert(d[k] == c);
                assert(!('0' <= d[k] <= '9'));
            }
            return None;
        }
        let digit = (c as u32 - '0' as u32) as usize;
        assert(digit as int == c as int - '0' as int);
        match acc.checked_mul(10) {
            None => {
                proof {
                    assert(acc * 10 > usize::MAX);
                    assert(digits_value(t) == digits_value(t.drop_last()) * 10 + ((t.last() as int - '0' as int) as nat));
                    assert(digits_value(t) >= acc * 10);
                    assert forall|j: int| 0 <= j < t.len() implies '0' <= #[trigger] t[j] <= '9' by {
                        if j < t.len() - 1 {
                            assert(t[j] == d.take(i - start)[j]);
                        }
                    }
                    if all_digits(d) {
                        assert(t =~= d.take(i - start + 1));
                        lemma_digits_value_mono(d, i - start + 1);
                    }
                }
                return None;
            },
            Some(m) => match m.checked_add(digit) {
                None => {
                    proof {
                        assert forall|j: int| 0 <= j < t.len() implies '0' <= #[trigger] t[j] <= '9' by {
                            if j < t.len() - 1 {
                                assert(t[j] == d.take(i - start)[j]);
                            }
                        }
                        if all_digits(d) {
                            lemma_digits_value_mono(d, i - start + 1);
                        }
                    }
                    return None;
                },
                Some(n) => {
                    acc = n;
                },
            },
        }
        proof {
            assert forall|j: int| 0 <= j < t.len() implies '0' <= #[trigger] t[j] <= '9' by {
                if j < t.len() - 1 {
                    assert(t[j] == d.take(i - start)[j]);
                }
            }
        }
        i = i + 1;
    }
    assert(d.take(i - start) =~= d);
    Some(acc)
}


/// The characters of each string of `v`.
pub open spec fn strs_view(v: Seq<&str>) -> Seq<Seq<char>> {
    v.map_values(|e: &str| e@)
}

/// The first of `exts` that ends `s`.
pub open spec fn first_suffix(exts: Seq<Seq<char>>, s: Seq<char>) -> Option<Seq<char>>
    decreases exts.len(),
{
    if exts.len() == 0 {
        None
    } else if exts[0].is_suffix_of(s) {
        Some(exts[0])
    } else {
        first_suffix(exts.drop_first(), s)
    }
}

pub proof fn lemma_first_suffix(exts: Seq<Seq<char>>, s: Seq<char>)
    ensures
        first_suffix(exts, s) matches Some(e) ==> exts.contains(e) && e.is_suffix_of(s),
        first_suffix(exts, s) is None ==> forall|i: int|
            0 <= i < exts.len() ==> !(#[trigger] exts[i]).is_suffix_of(s),
    decreases exts.len(),
{
    if exts.len() > 0 && !exts[0].is_suffix_of(s) {
        lemma_first_suffix(exts.drop_first(), s);
        if let Some(e) = first_suffix(exts.drop_first(), s) {
            let j = choose|j: int| 0 <= j < exts.drop_first().len() && exts.drop_first()[j] == e;
            assert(exts[j + 1] == e);
        }
        assert forall|i: int| 0 <= i < exts.len() && first_suffix(exts, s) is None implies !(
        #[trigger] exts[i]).is_suffix_of(s) by {
            if i > 0 {
                assert(exts[i] == exts.drop_first()[i - 1]);
            }
        }
    } else if exts.len() > 0 {
        assert(exts[0] == exts[0]);
    }
}

/// Looking through two lists of extensions in turn finds what the first
/// finds, else what the second finds.
pub proof fn lemma_first_suffix_concat(a: Seq<Seq<char>>, b: Seq<Seq<char>>, s: Seq<char>)
    ensures
        first_suffix(a + b, s) == (match first_suffix(a, s) {
            Some(e) => Some(e),
            None => first_suffix(b, s),
        }),
    decreases a.len(),
{
    if a.len() == 0 {
        assert(a + b =~= b);
    } else {
        assert((a + b)[0] == a[0]);
        assert((a + b).drop_first() =~= a.drop_first() + b);
        lemma_first_suffix_concat(a.drop_first(), b, s);
    }
}

/// The first of `exts` that ends `s`, as a loop over `exts` with
/// `str::ends_with` finds it.
pub fn find_suffix(exts: &Vec<&'static str>, s: &str) -> (r: Option<&'static str>)
    ensures
        match r {
            Some(e) => first_suffix(strs_view(exts@), s@) == Some(e@),
            None => first_suffix(strs_view(exts@), s@) is None,
        },
{
    let ghost all = strs_view(exts@);
    let mut i: usize = 0;
    assert(all.skip(0) =~= all);
    while i < exts.len()
        invariant
            i <= exts.len(),
            all == strs_view(exts@),
            first_suffix(all, s@) == first_suffix(all.skip(i as int), s@),
        decreases exts.len() - i,
    {
        let e = exts[i];
        proof {
            assert(all.skip(i as int)[0] == e@);
            assert(all.skip(i as int).drop_first() =~= all.skip(i + 1));
        }
        if str_ends_with(s, e) {
            return Some(e);
        }
        i = i + 1;
    }
    None
}


/// `s` with every non-overlapping occurrence of `pat`, found from the left,
/// replaced by `rep`, as `str::replace` does.
pub open spec fn replace_all(s: Seq<char>, pat: Seq<char>, rep: Seq<char>) -> Seq<char>
    recommends
        pat.len() > 0,
    decreases s.len(),
{
    if s.len() == 0 || pat.len() == 0 {
        s
    } else if pat.is_prefix_of(s) {
        rep + replace_all(s.skip(pat.len() as int), pat, rep)
    } else {
        seq![s[0]] + replace_all(s.skip(1), pat, rep)
    }
}

/// Whether `pat` occurs in `v` at `i`.
fn occurs_at(v: &Vec<char>, i: usize, pat: &Vec<char>) -> (r: bool)
    requires
        i <= v.len(),
    ensures
        r == pat@.is_prefix_of(v@.skip(i as int)),
{
    if pat.len() > v.len() - i {
        return false;
    }
    let mut j: usize = 0;
    while j < pat.len()
        invariant
            i + pat.len() <= v.len(),
            j <= pat.len(),
            forall|k: int| 0 <= k < j ==> v@[i + k] == pat@[k],
        decreases pat.len() - j,
    {
        if v[i + j] != pat[j] {
            assert(v@.skip(i as int).subrange(0, pat@.len() as int)[j as int] == v@[i + j]);
            return false;
        }
        j = j + 1;
    }
    assert(pat@ =~= v@.skip(i as int).subrange(0, pat@.len() as int));
    true
}

/// `str::replace(s, pat, rep)` for a non-empty `pat`.
pub fn replace_str(s: &str, pat: &str, rep: &str) -> (r: String)
    requires
        pat@.len() > 0,
    ensures
        r@ == replace_all(s@, pat@, rep@),
{
    let v = chars_of(s);
    let p = chars_of(pat);
    let mut out = String::new();
    let mut i: usize = 0;
    assert(v@.skip(0) =~= v@);
    while i < v.len()
        invariant
            v@ == s@,
            p@ == pat@,
            p@.len() > 0,
            i <= v.len(),
            replace_all(s@, pat@, rep@) == out@ + replace_all(v@.skip(i as int), pat@, rep@),
        decreases v.len() - i,
    {
        let ghost rest = v@.skip(i as int);
        if occurs_at(&v, i, &p) {
            out.append(rep);
            proof {
                assert(rest.skip(p@.len() as int) =~= v@.skip(i + p@.len()));
            }
            i = i + p.len();
        } else {
            out.append(s.substring_char(i, i + 1));
            proof {
                assert(rest.skip(1) =~= v@.skip(i + 1));
                assert(v@.subrange(i as int, i + 1) =~= seq![rest[0]]);
            }
            i = i + 1;
        }
        proof {
            assert(out@ + replace_all(v@.skip(i as int), pat@, rep@) =~= replace_all(s@, pat@, rep@));
        }
    }
    proof {
        assert(v@.skip(i as int) =~= Seq::<char>::empty());
        assert(out@ + Seq::<char>::empty() =~= out@);
    }
    out
}

/// The `.`-separated parts of `s` in reverse order, joined again by `.`.
pub open spec fn reverse_dotted(s: Seq<char>) -> Seq<char>
    decreases s.len(),
{
    let k = last_index_of(s, '.');
    if k < 0 {
        s
    } else {
        proof { lemma_last_index_of(s, '.'); }
        s.subrange(k + 1, s.len() as int) + seq!['.'] + reverse_dotted(s.take(k))
    }
}

/// Reverses the order of the `.`-separated parts of `s`, as
/// `s.split('.').rev().collect::<Vec<_>>().join(".")` does.
pub fn reverse_dotted_str(s: &str) -> (r: String)
    ensures
        r@ == reverse_dotted(s@),
{
    let v = chars_of(s);
    let mut out = String::new();
    let mut end = v.len();
    assert(v@.take(end as int) =~= v@);
    loop
        invariant
            v@ == s@,
            end <= v.len(),
            reverse_dotted(s@) == out@ + reverse_dotted(v@.take(end as int)),
        decreases end,
    {
        let ghost t = v@.take(end as int);
        proof {
            lemma_last_index_of(t, '.');
        }
        match rfind_char(&v, end, '.') {
            None => {
                out.append(s.substring_char(0, end));
                proof {
                    assert(v@.subrange(0, end as int) =~= t);
                }
                return out;
            },
            Some(k) => {
                out.append(s.substring_char(k + 1, end));
                out.append(".");
                proof {
                    reveal_strlit(".");
                    assert(v@.subrange(k + 1, end as int) =~= t.subrange(k + 1, t.len() as int));
                    assert(t.take(k as int) =~= v@.take(k as int));
                    assert(out@ + reverse_dotted(v@.take(k as int)) =~= reverse_dotted(s@));
                }
                end = k;
            },
        }
    }
}

/// The decimal digit character of `d`.
pub open spec fn digit_char(d: nat) -> char {
    seq!['0', '1', '2', '3', '4', '5', '6', '7', '8', '9'][d as int]
}

/// The decimal spelling of `n`, as `format!("{}", n)` writes it.
pub open spec fn decimal(n: nat) -> Seq<char>
    decreases n,
{
    if n < 10 {
        seq![digit_char(n)]
    } else {
        decimal(n / 10) + seq![digit_char(n % 10)]
    }
}

proof fn lemma_digit_char(d: nat)
    requires
        d < 10,
    ensures
        digit_char(d) as int - '0' as int == d,
        '0' <= digit_char(d) <= '9',
{
    let t = seq!['0', '1', '2', '3', '4', '5', '6', '7', '8', '9'];
    assert(t[0] == '0' && t[1] == '1' && t[2] == '2' && t[3] == '3' && t[4] == '4');
    assert(t[5] == '5' && t[6] == '6' && t[7] == '7' && t[8] == '8' && t[9] == '9');
}

/// The decimal spelling of `n` is digits only, and spells `n`.
pub proof fn lemma_decimal_digits(n: nat)
    ensures
        decimal(n).len() > 0,
        all_digits(decimal(n)),
        digits_value(decimal(n)) == n,
    decreases n,
{
    if n < 10 {
        lemma_digit_char(n);
        assert(decimal(n).drop_last() =~= Seq::<char>::empty());
        assert(digits_value(decimal(n)) == digits_value(decimal(n).drop_last()) * 10 + ((
        decimal(n).last() as int - '0' as int) as nat));
    } else {
        lemma_decimal_digits(n / 10);
        lemma_digit_char(n % 10);
        let d = decimal(n);
        assert(d.drop_last() =~= decimal(n / 10));
        assert(n == (n / 10) * 10 + n % 10) by (nonlinear_arith);
        assert(d.last() == digit_char(n % 10));
        assert(digits_value(d) == digits_value(d.drop_last()) * 10 + ((d.last() as int - '0' as int) as nat));
        assert forall|i: int| 0 <= i < d.len() implies '0' <= #[trigger] d[i] <= '9' by {
            if i < d.len() - 1 {
                assert(d[i] == decimal(n / 10)[i]);
            }
        }
    }
}

/// A number written out in decimal parses back as itself: what
/// `usize_to_string` writes, `parse_usize` reads back.
pub proof fn lemma_decimal_parses(n: usize)
    ensures
        parse_usize_spec(decimal(n as nat)) == Some(n),
{
    lemma_decimal_digits(n as nat);
    let d = decimal(n as nat);
    assert('0' <= d[0] <= '9');
}

/// `n.to_string()`.
pub fn usize_to_string(n: usize) -> (r: String)
    ensures
        r@ == decimal(n as nat),
{
    let digits = "0123456789";
    proof {
        reveal_strlit("0123456789");
        assert(digits@ =~= seq!['0', '1', '2', '3', '4', '5', '6', '7', '8', '9']);
    }
    let mut m = n;
    let mut tail: Vec<usize> = Vec::new();
    while m >= 10
        invariant
            decimal(n as nat) == decimal(m as nat) + Seq::new(
                tail@.len(),
                |i: int| digit_char(tail@[tail@.len() - 1 - i] as nat),
            ),
            forall|i: int| 0 <= i < tail@.len() ==> tail@[i] < 10,
        decreases m,
    {
        let ghost before = Seq::new(
            tail@.len(),
            |i: int| digit_char(tail@[tail@.len() - 1 - i] as nat),
        );
        tail.push(m % 10);
        let ghost after = Seq::new(
            tail@.len(),
            |i: int| digit_char(tail@[tail@.len() - 1 - i] as nat),
        );
        proof {
            assert(after =~= seq![digit_char((m % 10) as nat)] + before);
            assert(decimal(m as nat) == decimal((m / 10) as nat) + seq![digit_char((m % 10) as nat)]);
        }
        m = m / 10;
        proof {
            assert(decimal(n as nat) =~= decimal(m as nat) + after);
        }
    }
    let mut out = String::new();
    out.append(digits.substring_char(m, m + 1));
    proof {
        assert(out@ =~= decimal(m as nat));
    }
    let mut j = tail.len();
    while j > 0
        invariant
            j <= tail.len(),
            digits@ == seq!['0', '1', '2', '3', '4', '5', '6', '7', '8', '9'],
            forall|i: int| 0 <= i < tail@.len() ==> tail@[i] < 10,
            decimal(n as nat) == out@ + Seq::new(j as nat, |i: int| digit_char(tail@[j - 1 - i] as nat)),
        decreases j,
    {
        let d = tail[j - 1];
        let ghost before = Seq::new(j as nat, |i: int| digit_char(tail@[j - 1 - i] as nat));
        out.append(digits.substring_char(d, d + 1));
        proof {
            let after = Seq::new((j - 1) as nat, |i: int| digit_char(tail@[j - 2 - i] as nat));
            assert(before =~= seq![digit_char(d as nat)] + after);
            assert(digits@.subrange(d as int, d + 1) =~= seq![digit_char(d as nat)]);
        }
        j = j - 1;
    }
    proof {
        assert(Seq::new(0 as nat, |i: int| digit_char(tail@[-1 - i] as nat)) =~= Seq::<char>::empty());
        assert(out@ + Seq::<char>::empty() =~= out@);
    }
    out
}


/// Drops leading empty and `.` components: `Path` components skip them once
/// past the first one.
pub open spec fn trim_front_dots(s: Seq<char>) -> Seq<char>
    decreases s.len(),
{
    if s.len() > 0 && s[0] == '/' {
        trim_front_dots(s.skip(1))
    } else if s == seq!['.'] {
        Seq::empty()
    } else if s.len() >= 2 && s[0] == '.' && s[1] == '/' {
        trim_front_dots(s.skip(2))
    } else {
        s
    }
}

/// Drops trailing empty and `.` components.
pub open spec fn trim_back_dots(s: Seq<char>) -> Seq<char>
    decreases s.len(),
{
    if s.len() > 0 && s.last() == '/' {
        trim_back_dots(s.drop_last())
    } else if s == seq!['.'] {
        Seq::empty()
    } else if s.len() >= 2 && s.last() == '.' && s[s.len() - 2] == '/' {
        trim_back_dots(s.take(s.len() - 2))
    } else {
        s
    }
}

/// `Path::strip_prefix("./")`: a path whose first component is `.` loses it
/// (the rest trimmed of empty and `.` components at both ends, as
/// `Components::as_path` trims); any other path is refused.
pub open spec fn strip_curdir(p: Seq<char>) -> Option<Seq<char>> {
    if p == seq!['.'] || (p.len() >= 2 && p[0] == '.' && p[1] == '/') {
        Some(trim_back_dots(trim_front_dots(p.skip(1))))
    } else {
        None
    }
}

/// Finds where `trim_front_dots(v[a..b])` starts.
fn trim_front_at(v: &Vec<char>, a: usize, b: usize) -> (r: usize)
    requires
        a <= b <= v.len(),
    ensures
        a <= r <= b,
        v@.subrange(r as int, b as int) == trim_front_dots(v@.subrange(a as int, b as int)),
{
    let mut i = a;
    while i < b
        invariant
            a <= i <= b <= v.len(),
            trim_front_dots(v@.subrange(a as int, b as int)) == trim_front_dots(
                v@.subrange(i as int, b as int),
            ),
        decreases b - i,
    {
        let ghost t = v@.subrange(i as int, b as int);
        if v[i] == '/' {
            assert(t.skip(1) =~= v@.subrange(i + 1, b as int));
            i = i + 1;
        } else if b - i == 1 && v[i] == '.' {
            assert(t =~= seq!['.']);
            assert(v@.subrange(b as int, b as int) =~= Seq::<char>::empty());
            return b;
        } else if b - i >= 2 && v[i] == '.' && v[i + 1] == '/' {
            assert(t.skip(2) =~= v@.subrange(i + 2, b as int));
            i = i + 2;
        } else {
            proof {
                if t.len() == 1 {
                    assert(t[0] == v@[i as int]);
                    assert(seq!['.'][0] == '.');
                }
            }
            return i;
        }
    }
    i
}

/// Finds where `trim_back_dots(v[a..b])` ends.
fn trim_back_at(v: &Vec<char>, a: usize, b: usize) -> (r: usize)
    requires
        a <= b <= v.len(),
    ensures
        a <= r <= b,
        v@.subrange(a as int, r as int) == trim_back_dots(v@.subrange(a as int, b as int)),
{
    let mut j = b;
    while j > a
        invariant
            a <= j <= b <= v.len(),
            trim_back_dots(v@.subrange(a as int, b as int)) == trim_back_dots(
                v@.subrange(a as int, j as int),
            ),
        decreases j - a,
    {
        let ghost t = v@.subrange(a as int, j as int);
        if v[j - 1] == '/' {
            assert(t.drop_last() =~= v@.subrange(a as int, j - 1));
            j = j - 1;
        } else if j - a == 1 && v[j - 1] == '.' {
            assert(t =~= seq!['.']);
            assert(v@.subrange(a as int, a as int) =~= Seq::<char>::empty());
            return a;
        } else if j - a >= 2 && v[j - 1] == '.' && v[j - 2] == '/' {
            assert(t.take(t.len() - 2) =~= v@.subrange(a as int, j - 2));
            j = j - 2;
        } else {
            proof {
                if t.len() == 1 {
                    assert(t[0] == v@[a as int]);
                    assert(seq!['.'][0] == '.');
                }
            }
            return j;
        }
    }
    j
}

/// `Path::strip_prefix("./")` on the `/`-separated path `p`.
pub fn strip_curdir_str(p: &str) -> (r: Option<&str>)
    ensures
        match r {
            Some(q) => strip_curdir(p@) == Some(q@),
            None => strip_curdir(p@) is None,
        },
{
    let v = chars_of(p);
    let n = v.len();
    let ghost d = seq!['.'];
    assert(d.len() == 1 && d[0] == '.');
    if n >= 1 && v[0] == '.' && (n == 1 || v[1] == '/') {
        let a = trim_front_at(&v, 1, n);
        let b = trim_back_at(&v, a, n);
        proof {
            assert(v@.subrange(1, n as int) =~= p@.skip(1));
            if n == 1 {
                assert(p@ =~= seq!['.']);
            }
        }
        Some(p.substring_char(a, b))
    } else {
        proof {
            if n == 1 {
                assert(p@[0] == v@[0]);
            }
        }
        None
    }
}


/// Index of the first occurrence of `c` in `s`, or -1 when there is none.
pub open spec fn first_index_of(s: Seq<char>, c: char) -> int
    decreases s.len(),
{
    if s.len() == 0 {
        -1
    } else if s[0] == c {
        0
    } else {
        let k = first_index_of(s.drop_first(), c);
        if k < 0 {
            -1
        } else {
            k + 1
        }
    }
}

pub proof fn lemma_first_index_of(s: Seq<char>, c: char)
    ensures
        -1 <= first_index_of(s, c) < s.len(),
        first_index_of(s, c) >= 0 ==> s[first_index_of(s, c)] == c,
        forall|j: int|
            0 <= j < s.len() && (first_index_of(s, c) < 0 || j < first_index_of(s, c)) ==> s[j]
                != c,
    decreases s.len(),
{
    if s.len() > 0 && s[0] != c {
        lemma_first_index_of(s.drop_first(), c);
        assert forall|j: int|
            0 <= j < s.len() && (first_index_of(s, c) < 0 || j < first_index_of(s, c)) implies s[j]
            != c by {
            if j > 0 {
                assert(s[j] == s.drop_first()[j - 1]);
            }
        }
    }
}

/// The first `c` of `a`, `c`, `b` is the one after `a` when `a` holds none.
pub proof fn lemma_first_index_of_split(a: Seq<char>, c: char, b: Seq<char>)
    requires
        forall|i: int| 0 <= i < a.len() ==> a[i] != c,
    ensures
        first_index_of(a + seq![c] + b, c) == a.len(),
    decreases a.len(),
{
    let s = a + seq![c] + b;
    if a.len() == 0 {
        assert(s[0] == c);
    } else {
        assert(s[0] == a[0]);
        assert(s.drop_first() =~= a.drop_first() + seq![c] + b);
        lemma_first_index_of_split(a.drop_first(), c, b);
    }
}

/// A string without `c` has no first `c`.
pub proof fn lemma_first_index_of_absent(s: Seq<char>, c: char)
    requires
        forall|i: int| 0 <= i < s.len() ==> s[i] != c,
    ensures
        first_index_of(s, c) == -1,
    decreases s.len(),
{
    if s.len() > 0 {
        lemma_first_index_of_absent(s.drop_first(), c);
    }
}

/// Replacing a character that `s` does not hold leaves `s` as it is.
pub proof fn lemma_replace_absent(s: Seq<char>, c: char, rep: Seq<char>)
    requires
        forall|i: int| 0 <= i < s.len() ==> s[i] != c,
    ensures
        replace_all(s, seq![c], rep) == s,
    decreases s.len(),
{
    if s.len() > 0 {
        assert(!seq![c].is_prefix_of(s)) by {
            assert(s[0] != seq![c][0]);
        }
        lemma_replace_absent(s.skip(1), c, rep);
        assert(seq![s[0]] + s.skip(1) =~= s);
    }
}

/// Replacing every `c` by a text without `c` leaves no `c`.
pub proof fn lemma_replace_removes(s: Seq<char>, c: char, rep: Seq<char>)
    requires
        forall|i: int| 0 <= i < rep.len() ==> rep[i] != c,
    ensures
        forall|i: int|
            0 <= i < replace_all(s, seq![c], rep).len() ==> #[trigger] replace_all(s, seq![c], rep)[i]
                != c,
    decreases s.len(),
{
    if s.len() > 0 {
        lemma_replace_removes(s.skip(1), c, rep);
        let rest = replace_all(s.skip(1), seq![c], rep);
        if seq![c].is_prefix_of(s) {
            assert(s.skip(seq![c].len() as int) =~= s.skip(1));
            let r = rep + rest;
            assert forall|i: int| 0 <= i < r.len() implies r[i] != c by {
                if i >= rep.len() {
                    assert(r[i] == rest[i - rep.len()]);
                }
            }
        } else {
            assert(s[0] != c) by {
                if s[0] == c {
                    assert(seq![c] =~= s.subrange(0, 1));
                }
            }
            let r = seq![s[0]] + rest;
            assert forall|i: int| 0 <= i < r.len() implies r[i] != c by {
                if i >= 1 {
                    assert(r[i] == rest[i - 1]);
                }
            }
        }
    }
}

/// Finds the first `c` in `v[from..]`.
pub fn find_char(v: &Vec<char>, from: usize, c: char) -> (r: Option<usize>)
    requires
        from <= v.len(),
    ensures
        match r {
            Some(i) => from <= i < v.len() && i - from == first_index_of(v@.skip(from as int), c),
            None => first_index_of(v@.skip(from as int), c) == -1,
        },
{
    let mut i = from;
    proof {
        lemma_first_index_of(v@.skip(from as int), c);
    }
    while i < v.len()
        invariant
            from <= i <= v.len(),
            forall|j: int| from <= j < i ==> v@[j] != c,
        decreases v.len() - i,
    {
        if v[i] == c {
            proof {
                let t = v@.skip(from as int);
                lemma_first_index_of(t, c);
                let k = first_index_of(t, c);
                assert(t[i - from] == c);
                if k >= 0 && k > i - from {
                    assert(t[i - from] != c);
                }
                if k >= 0 && k < i - from {
                    assert(t[k] == v@[from + k]);
                }
            }
            return Some(i);
        }
        i = i + 1;
    }
    proof {
        let t = v@.skip(from as int);
        let k = first_index_of(t, c);
        if k >= 0 {
            assert(t[k] == v@[from + k]);
        }
    }
    None
}

} // verus!

//! Character-level utilities shared by the splitter, the extractor and the
//! output planner: whitespace trimming, substring search, digit runs and
//! conversions between `&str`, `Vec<char>` and `String`.

use vstd::prelude::*;
use vstd::string::StrSliceExecFns;

verus! {

/// The whitespace characters the grammar tolerates around its tokens.
pub open spec fn is_space_char(c: char) -> bool {
    c == ' ' || c == '\t' || c == '\r' || c == '\n'
}

/// Executable twin of [`is_space_char`].
pub fn is_space(c: char) -> (r: bool)
    ensures
        r == is_space_char(c),
{
    c == ' ' || c == '\t' || c == '\r' || c == '\n'
}

/// A decimal digit.
pub open spec fn is_digit_char(c: char) -> bool {
    '0' <= c && c <= '9'
}

/// Executable twin of [`is_digit_char`].
pub fn is_digit(c: char) -> (r: bool)
    ensures
        r == is_digit_char(c),
{
    '0' <= c && c <= '9'
}

/// The views of a sequence of character vectors.
pub open spec fn char_views(ls: Seq<Vec<char>>) -> Seq<Seq<char>> {
    ls.map_values(|l: Vec<char>| l@)
}

/// The views of a sequence of strings.
pub open spec fn string_views(ls: Seq<String>) -> Seq<Seq<char>> {
    ls.map_values(|l: String| l@)
}

/// `s` without its leading whitespace.
pub open spec fn spec_trim_start(s: Seq<char>) -> Seq<char>
    decreases s.len(),
{
    if s.len() > 0 && is_space_char(s[0]) {
        spec_trim_start(s.drop_first())
    } else {
        s
    }
}

/// `s` without its trailing whitespace.
pub open spec fn spec_trim_end(s: Seq<char>) -> Seq<char>
    decreases s.len(),
{
    if s.len() > 0 && is_space_char(s.last()) {
        spec_trim_end(s.drop_last())
    } else {
        s
    }
}

/// `s` without its leading and trailing whitespace.
pub open spec fn spec_trim(s: Seq<char>) -> Seq<char> {
    spec_trim_end(spec_trim_start(s))
}

/// Copies `v[lo..hi]` into a fresh vector.
pub fn copy_range(v: &Vec<char>, lo: usize, hi: usize) -> (r: Vec<char>)
    requires
        lo <= hi <= v@.len(),
    ensures
        r@ == v@.subrange(lo as int, hi as int),
{
    let mut r: Vec<char> = Vec::new();
    let mut i: usize = lo;
    while i < hi
        invariant
            lo <= i <= hi <= v@.len(),
            r@ == v@.subrange(lo as int, i as int),
        decreases hi - i,
    {
        r.push(v[i]);
        i = i + 1;
        proof {
            assert(r@ =~= v@.subrange(lo as int, i as int));
        }
    }
    r
}

/// Removes the surrounding whitespace of `v`.
pub fn trim_chars(v: &Vec<char>) -> (r: Vec<char>)
    ensures
        r@ == spec_trim(v@),
{
    let n = v.len();
    let mut lo: usize = 0;
    proof {
        assert(v@.skip(0) =~= v@);
    }
    while lo < n && is_space(v[lo])
        invariant
            n == v@.len(),
            lo <= n,
            spec_trim_start(v@) == spec_trim_start(v@.skip(lo as int)),
        decreases n - lo,
    {
        proof {
            assert(v@.skip(lo as int).drop_first() =~= v@.skip(lo as int + 1));
        }
        lo = lo + 1;
    }
    proof {
        if lo < n {
            assert(v@.skip(lo as int)[0] == v@[lo as int]);
        }
        assert(spec_trim_start(v@) =~= v@.skip(lo as int));
    }
    let mut hi: usize = n;
    while hi > lo && is_space(v[hi - 1])
        invariant
            lo <= hi <= n == v@.len(),
            spec_trim_end(v@.skip(lo as int)) == spec_trim_end(v@.subrange(lo as int, hi as int)),
        decreases hi,
    {
        proof {
            let cur = v@.subrange(lo as int, hi as int);
            assert(cur.last() == v@[hi as int - 1]);
            assert(cur.drop_last() =~= v@.subrange(lo as int, hi as int - 1));
        }
        hi = hi - 1;
    }
    proof {
        let cur = v@.subrange(lo as int, hi as int);
        if hi > lo {
            assert(cur.last() == v@[hi as int - 1]);
        }
        assert(spec_trim_end(v@.skip(lo as int)) == cur);
    }
    copy_range(v, lo, hi)
}

/// Whether `pat` occurs in `s` starting at position `i`.
pub open spec fn matches_at(s: Seq<char>, pat: Seq<char>, i: int) -> bool {
    &&& 0 <= i
    &&& i + pat.len() <= s.len()
    &&& s.subrange(i, i + pat.len()) =~= pat
}

/// The first position `>= i` at which `rest` occurs right after one of the
/// two characters `lo` and `up` (a keyword with its first letter in either
/// case).
pub open spec fn spec_find_keyword_from(
    s: Seq<char>,
    lo: char,
    up: char,
    rest: Seq<char>,
    i: int,
) -> Option<int>
    decreases s.len() - i,
{
    if i < 0 || i + 1 + rest.len() > s.len() {
        None
    } else if (s[i] == lo || s[i] == up) && matches_at(s, rest, i + 1) {
        Some(i)
    } else {
        spec_find_keyword_from(s, lo, up, rest, i + 1)
    }
}

/// Whether `rest` occurs right after `lo` or `up` at position `i` of `v`.
fn keyword_at(v: &Vec<char>, lo: char, up: char, rest: &Vec<char>, i: usize) -> (r: bool)
    requires
        i + 1 + rest@.len() <= v@.len(),
    ensures
        r == ((v@[i as int] == lo || v@[i as int] == up) && matches_at(v@, rest@, i as int + 1)),
{
    let n = v.len();
    if v[i] != lo && v[i] != up {
        return false;
    }
    let mut k: usize = 0;
    proof {
        assert(v@.subrange(i as int + 1, i as int + 1) =~= rest@.subrange(0, 0));
    }
    while k < rest.len()
        invariant
            n == v@.len(),
            i + 1 + rest@.len() <= n,
            k <= rest@.len(),
            v@.subrange(i as int + 1, i as int + 1 + k as int) =~= rest@.subrange(0, k as int),
        decreases rest@.len() - k,
    {
        if v[i + 1 + k] != rest[k] {
            proof {
                assert(v@.subrange(i as int + 1, i as int + 1 + rest@.len() as int)[k as int]
                    == v@[i as int + 1 + k as int]);
            }
            return false;
        }
        k = k + 1;
        proof {
            assert(v@.subrange(i as int + 1, i as int + 1 + k as int) =~= rest@.subrange(
                0,
                k as int,
            ));
        }
    }
    proof {
        assert(rest@.subrange(0, rest@.len() as int) =~= rest@);
    }
    true
}

/// Executable twin of [`spec_find_keyword_from`], searching from the start.
pub fn find_keyword(v: &Vec<char>, lo: char, up: char, rest: &Vec<char>) -> (r: Option<usize>)
    ensures
        match r {
            Some(i) => spec_find_keyword_from(v@, lo, up, rest@, 0) == Some(i as int),
            None => spec_find_keyword_from(v@, lo, up, rest@, 0) is None,
        },
{
    let n = v.len();
    let m = rest.len();
    if n <= m {
        return None;
    }
    let mut i: usize = 0;
    while i <= n - 1 - m
        invariant
            n == v@.len(),
            m == rest@.len(),
            1 + m <= n,
            i <= n,
            spec_find_keyword_from(v@, lo, up, rest@, 0) == spec_find_keyword_from(
                v@,
                lo,
                up,
                rest@,
                i as int,
            ),
        decreases n - i,
    {
        if keyword_at(v, lo, up, rest, i) {
            return Some(i);
        }
        i = i + 1;
    }
    None
}

/// The last position of `c` in `s`, if any.
pub open spec fn spec_rfind_char(s: Seq<char>, c: char) -> Option<int>
    decreases s.len(),
{
    if s.len() == 0 {
        None
    } else if s.last() == c {
        Some(s.len() - 1)
    } else {
        spec_rfind_char(s.drop_last(), c)
    }
}

/// The last position of `c` in `v[0..end]`, scanned from the back.
pub fn rfind_char_before(v: &Vec<char>, c: char, end: usize) -> (r: Option<usize>)
    requires
        end <= v@.len(),
    ensures
        match r {
            Some(i) => spec_rfind_char(v@.subrange(0, end as int), c) == Some(i as int),
            None => spec_rfind_char(v@.subrange(0, end as int), c) is None,
        },
{
    let mut i: usize = end;
    while i > 0
        invariant
            i <= end <= v@.len(),
            spec_rfind_char(v@.subrange(0, end as int), c) == spec_rfind_char(
                v@.subrange(0, i as int),
                c,
            ),
        decreases i,
    {
        if v[i - 1] == c {
            proof {
                assert(v@.subrange(0, i as int).last() == v@[i as int - 1]);
            }
            return Some(i - 1);
        }
        proof {
            assert(v@.subrange(0, i as int).last() == v@[i as int - 1]);
            assert(v@.subrange(0, i as int).drop_last() =~= v@.subrange(0, i as int - 1));
        }
        i = i - 1;
    }
    proof {
        assert(v@.subrange(0, 0) =~= Seq::<char>::empty());
    }
    None
}

/// The first position `>= i` in `s` that holds a non-whitespace character,
/// or `s.len()` when only whitespace remains.
pub open spec fn spec_skip_spaces(s: Seq<char>, i: int) -> int
    decreases s.len() - i,
{
    if 0 <= i < s.len() && is_space_char(s[i]) {
        spec_skip_spaces(s, i + 1)
    } else {
        i
    }
}

/// Executable twin of [`spec_skip_spaces`].
pub fn skip_spaces(v: &Vec<char>, i: usize) -> (r: usize)
    requires
        i <= v@.len(),
    ensures
        r == spec_skip_spaces(v@, i as int),
        i <= r <= v@.len(),
{
    let n = v.len();
    let mut j: usize = i;
    while j < n && is_space(v[j])
        invariant
            i <= j <= n == v@.len(),
            spec_skip_spaces(v@, i as int) == spec_skip_spaces(v@, j as int),
        decreases n - j,
    {
        j = j + 1;
    }
    j
}

/// The end of the run of decimal digits that starts at position `i`.
pub open spec fn spec_digit_run_end(s: Seq<char>, i: int) -> int
    decreases s.len() - i,
{
    if 0 <= i < s.len() && is_digit_char(s[i]) {
        spec_digit_run_end(s, i + 1)
    } else {
        i
    }
}

/// Executable twin of [`spec_digit_run_end`].
pub fn digit_run_end(v: &Vec<char>, i: usize) -> (r: usize)
    requires
        i <= v@.len(),
    ensures
        r == spec_digit_run_end(v@, i as int),
        i <= r <= v@.len(),
{
    let n = v.len();
    let mut j: usize = i;
    while j < n && is_digit(v[j])
        invariant
            i <= j <= n == v@.len(),
            spec_digit_run_end(v@, i as int) == spec_digit_run_end(v@, j as int),
        decreases n - j,
    {
        j = j + 1;
    }
    j
}

/// An ASCII letter, as the kind keyword of a block is spelled.
pub open spec fn is_alpha_char(c: char) -> bool {
    ('a' <= c && c <= 'z') || ('A' <= c && c <= 'Z')
}

/// Executable twin of [`is_alpha_char`].
pub fn is_alpha(c: char) -> (r: bool)
    ensures
        r == is_alpha_char(c),
{
    ('a' <= c && c <= 'z') || ('A' <= c && c <= 'Z')
}

/// The end of the run of ASCII letters that starts at position `i`.
pub open spec fn spec_alpha_run_end(s: Seq<char>, i: int) -> int
    decreases s.len() - i,
{
    if 0 <= i < s.len() && is_alpha_char(s[i]) {
        spec_alpha_run_end(s, i + 1)
    } else {
        i
    }
}

/// Executable twin of [`spec_alpha_run_end`].
pub fn alpha_run_end(v: &Vec<char>, i: usize) -> (r: usize)
    requires
        i <= v@.len(),
    ensures
        r == spec_alpha_run_end(v@, i as int),
        i <= r <= v@.len(),
{
    let n = v.len();
    let mut j: usize = i;
    while j < n && is_alpha(v[j])
        invariant
            i <= j <= n == v@.len(),
            spec_alpha_run_end(v@, i as int) == spec_alpha_run_end(v@, j as int),
        decreases n - j,
    {
        j = j + 1;
    }
    j
}

/// A found keyword lies inside the text, with room for its tail.
pub proof fn lemma_find_keyword_bounds(s: Seq<char>, lo: char, up: char, rest: Seq<char>, i: int)
    ensures
        spec_find_keyword_from(s, lo, up, rest, i) is Some ==> {
            let k = spec_find_keyword_from(s, lo, up, rest, i).unwrap();
            0 <= k && i <= k && k + 1 + rest.len() <= s.len()
        },
    decreases s.len() - i,
{
    if !(i < 0 || i + 1 + rest.len() > s.len()) {
        if !((s[i] == lo || s[i] == up) && matches_at(s, rest, i + 1)) {
            lemma_find_keyword_bounds(s, lo, up, rest, i + 1);
        }
    }
}

/// A found character lies inside the text and is the one sought.
pub proof fn lemma_rfind_bounds(s: Seq<char>, c: char)
    ensures
        spec_rfind_char(s, c) is Some ==> {
            let k = spec_rfind_char(s, c).unwrap();
            0 <= k < s.len() && s[k] == c
        },
    decreases s.len(),
{
    if s.len() > 0 && s.last() != c {
        lemma_rfind_bounds(s.drop_last(), c);
    }
}

/// Whether every character of `s` is a decimal digit.
pub open spec fn all_digits(s: Seq<char>) -> bool {
    forall|k: int| 0 <= k < s.len() ==> is_digit_char(s[k])
}

/// The numeric value of a sequence of decimal digits, most significant first.
pub open spec fn digits_val(s: Seq<char>) -> int
    decreases s.len(),
{
    if s.len() == 0 {
        0
    } else {
        digits_val(s.drop_last()) * 10 + (s.last() as int - '0' as int)
    }
}

/// What the integer normalizer yields for a captured substring: a value only
/// for a non-empty, purely numeric capture that fits the record's integer
/// width; absence otherwise.
pub open spec fn spec_parse_i32(s: Seq<char>) -> Option<i32> {
    if s.len() > 0 && all_digits(s) && digits_val(s) <= i32::MAX {
        Some(digits_val(s) as i32)
    } else {
        None
    }
}

proof fn lemma_digits_val_nonneg(s: Seq<char>)
    requires
        all_digits(s),
    ensures
        digits_val(s) >= 0,
    decreases s.len(),
{
    if s.len() > 0 {
        assert(all_digits(s.drop_last()));
        lemma_digits_val_nonneg(s.drop_last());
    }
}

proof fn lemma_digits_val_prefix_grows(s: Seq<char>, i: int)
    requires
        all_digits(s),
        0 <= i <= s.len(),
    ensures
        digits_val(s.subrange(0, i)) <= digits_val(s),
    decreases s.len() - i,
{
    if i < s.len() {
        lemma_digits_val_prefix_grows(s, i + 1);
        let p = s.subrange(0, i + 1);
        assert(p.drop_last() =~= s.subrange(0, i));
        assert(all_digits(s.subrange(0, i)));
        lemma_digits_val_nonneg(s.subrange(0, i));
        assert(is_digit_char(p.last()));
        assert(digits_val(s.subrange(0, i)) <= digits_val(p));
    } else {
        assert(s.subrange(0, i) =~= s);
    }
}

/// Parses `v[lo..hi]` as a decimal integer; executable twin of
/// [`spec_parse_i32`] on that range.
pub fn parse_i32_range(v: &Vec<char>, lo: usize, hi: usize) -> (r: Option<i32>)
    requires
        lo <= hi <= v@.len(),
    ensures
        r == spec_parse_i32(v@.subrange(lo as int, hi as int)),
{
    let ghost s = v@.subrange(lo as int, hi as int);
    if lo == hi {
        return None;
    }
    let mut acc: u64 = 0;
    let mut i: usize = lo;
    while i < hi
        invariant
            lo <= i <= hi <= v@.len(),
            s == v@.subrange(lo as int, hi as int),
            acc == digits_val(s.subrange(0, i - lo)),
            acc <= i32::MAX,
            all_digits(s.subrange(0, i - lo)),
        decreases hi - i,
    {
        let c = v[i];
        proof {
            assert(s[i - lo] == v@[i as int]);
        }
        if !is_digit(c) {
            return None;
        }
        let d = (c as u32 - '0' as u32) as u64;
        acc = acc * 10 + d;
        i = i + 1;
        proof {
            let p = s.subrange(0, i - lo);
            assert(p.drop_last() =~= s.subrange(0, i - 1 - lo));
            assert(p.last() == c);
            assert(acc == digits_val(p));
            assert(all_digits(p));
        }
        if acc > i32::MAX as u64 {
            proof {
                if all_digits(s) {
                    lemma_digits_val_prefix_grows(s, i - lo);
                    assert(digits_val(s) > i32::MAX);
                }
            }
            return None;
        }
    }
    proof {
        assert(s.subrange(0, (hi - lo) as int) =~= s);
        lemma_digits_val_nonneg(s);
    }
    Some(acc as i32)
}

/// Appends the characters of `src` to `dst`.
pub fn extend_chars(dst: &mut Vec<char>, src: &Vec<char>)
    ensures
        final(dst)@ == old(dst)@ + src@,
{
    let mut i: usize = 0;
    while i < src.len()
        invariant
            i <= src@.len(),
            dst@ == old(dst)@ + src@.subrange(0, i as int),
        decreases src@.len() - i,
    {
        dst.push(src[i]);
        i = i + 1;
        proof {
            assert(old(dst)@ + src@.subrange(0, i as int) =~= (old(dst)@ + src@.subrange(
                0,
                i as int - 1,
            )).push(src@[i as int - 1]));
        }
    }
    proof {
        assert(old(dst)@ + src@.subrange(0, src@.len() as int) =~= old(dst)@ + src@);
    }
}

/// Whether two character vectors hold the same characters.
pub fn chars_eq(a: &Vec<char>, b: &Vec<char>) -> (r: bool)
    ensures
        r == (a@ =~= b@),
{
    if a.len() != b.len() {
        return false;
    }
    let mut i: usize = 0;
    while i < a.len()
        invariant
            i <= a@.len(),
            a@.len() == b@.len(),
            forall|k: int| 0 <= k < i ==> a@[k] == b@[k],
        decreases a@.len() - i,
    {
        if a[i] != b[i] {
            return false;
        }
        i = i + 1;
    }
    true
}

/// Turns a string slice into its sequence of characters.
pub fn str_to_chars(s: &str) -> (r: Vec<char>)
    ensures
        r@ == s@,
{
    let n = s.unicode_len();
    let mut r: Vec<char> = Vec::new();
    let mut i: usize = 0;
    while i < n
        invariant
            n == s@.len(),
            i <= n,
            r@ == s@.subrange(0, i as int),
        decreases n - i,
    {
        r.push(s.get_char(i));
        i = i + 1;
        proof {
            assert(r@ =~= s@.subrange(0, i as int));
        }
    }
    proof {
        assert(r@ =~= s@);
    }
    r
}

/// Relies on `String::push`: appends the given character to the end of the
/// string.
#[verifier::external_body]
fn push_char(s: &mut String, c: char)
    ensures
        final(s)@ == old(s)@.push(c),
{
    s.push(c);
}

/// Turns a sequence of characters into the string holding exactly them.
pub fn chars_to_string(v: &Vec<char>) -> (r: String)
    ensures
        r@ == v@,
{
    let mut r = String::new();
    let mut i: usize = 0;
    while i < v.len()
        invariant
            i <= v@.len(),
            r@ == v@.subrange(0, i as int),
        decreases v@.len() - i,
    {
        push_char(&mut r, v[i]);
        i = i + 1;
        proof {
            assert(r@ =~= v@.subrange(0, i as int));
        }
    }
    proof {
        assert(r@ =~= v@);
    }
    r
}

} // verus!

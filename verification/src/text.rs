//! Character-sequence helpers shared by the remote and change-request parsers.
//!
//! Every executable helper works on a `Vec<char>` and is specified over the
//! `Seq<char>` it holds, so the parsers above can be stated in terms of plain
//! sequences.
use vstd::prelude::*;

verus! {

// ---------------------------------------------------------------------------
// Character classes
// ---------------------------------------------------------------------------

/// ASCII lower-casing of one character; every other character is unchanged.
pub open spec fn lower(c: char) -> char {
    if 'A' <= c && c <= 'Z' {
        ((c as u32) + 32) as char
    } else {
        c
    }
}

/// ASCII lower-casing of a whole sequence.
pub open spec fn lower_seq(s: Seq<char>) -> Seq<char> {
    s.map_values(|c: char| lower(c))
}

/// Equality that ignores ASCII case.
pub open spec fn eq_ignore_case(a: Seq<char>, b: Seq<char>) -> bool {
    lower_seq(a) == lower_seq(b)
}

pub open spec fn is_digit(c: char) -> bool {
    '0' <= c && c <= '9'
}

pub open spec fn is_alphanumeric(c: char) -> bool {
    ('0' <= c && c <= '9') || ('a' <= c && c <= 'z') || ('A' <= c && c <= 'Z')
}

/// Every character of `s` is an ASCII digit.
pub open spec fn all_digits(s: Seq<char>) -> bool {
    forall|i: int| 0 <= i < s.len() ==> is_digit(#[trigger] s[i])
}

/// The Unicode `White_Space` property.
pub open spec fn is_whitespace(c: char) -> bool {
    ||| ('\u{9}' <= c && c <= '\u{d}')
    ||| c == ' '
    ||| c == '\u{85}'
    ||| c == '\u{a0}'
    ||| c == '\u{1680}'
    ||| ('\u{2000}' <= c && c <= '\u{200a}')
    ||| c == '\u{2028}'
    ||| c == '\u{2029}'
    ||| c == '\u{202f}'
    ||| c == '\u{205f}'
    ||| c == '\u{3000}'
}

// ---------------------------------------------------------------------------
// Searching and splitting
// ---------------------------------------------------------------------------

/// The first position at or after `i` that holds `c`, or `s.len()` when there
/// is none.
pub open spec fn first_from(s: Seq<char>, c: char, i: int) -> int
    decreases s.len() - i,
{
    if i < 0 || i >= s.len() {
        s.len() as int
    } else if s[i] == c {
        i
    } else {
        first_from(s, c, i + 1)
    }
}

/// The last position before `i` that holds `c`, or `-1` when there is none.
pub open spec fn last_before(s: Seq<char>, c: char, i: int) -> int
    decreases i,
{
    if i <= 0 {
        -1
    } else if s[i - 1] == c {
        i - 1
    } else {
        last_before(s, c, i - 1)
    }
}

/// The last position of `c` in `s`, or `-1`.
pub open spec fn last_index(s: Seq<char>, c: char) -> int {
    last_before(s, c, s.len() as int)
}

pub proof fn lemma_first_from(s: Seq<char>, c: char, i: int)
    requires
        0 <= i <= s.len(),
    ensures
        i <= first_from(s, c, i) <= s.len(),
        first_from(s, c, i) < s.len() ==> s[first_from(s, c, i)] == c,
        forall|j: int| i <= j < first_from(s, c, i) ==> s[j] != c,
    decreases s.len() - i,
{
    if i < s.len() && s[i] != c {
        lemma_first_from(s, c, i + 1);
    }
}

pub proof fn lemma_last_before(s: Seq<char>, c: char, i: int)
    requires
        0 <= i <= s.len(),
    ensures
        -1 <= last_before(s, c, i) < i,
        last_before(s, c, i) >= 0 ==> s[last_before(s, c, i)] == c,
        forall|j: int| last_before(s, c, i) < j < i ==> s[j] != c,
    decreases i,
{
    if i > 0 && s[i - 1] != c {
        lemma_last_before(s, c, i - 1);
    }
}

/// The pieces of `s` from position `start` on, cut at every `sep`
/// (the behaviour of `str::split` with a single-character pattern).
pub open spec fn split_from(s: Seq<char>, sep: char, start: int) -> Seq<Seq<char>>
    decreases s.len() - start,
{
    if start < 0 || start > s.len() {
        seq![]
    } else {
        let i = first_from(s, sep, start);
        if i >= s.len() {
            seq![s.subrange(start, s.len() as int)]
        } else {
            proof {
                lemma_first_from(s, sep, start);
            }
            seq![s.subrange(start, i)] + split_from(s, sep, i + 1)
        }
    }
}

/// `s` cut at every `sep`.
pub open spec fn split(s: Seq<char>, sep: char) -> Seq<Seq<char>> {
    split_from(s, sep, 0)
}

/// `s` without any trailing `c`.
pub open spec fn trim_end_char(s: Seq<char>, c: char) -> Seq<char>
    decreases s.len(),
{
    if s.len() > 0 && s.last() == c {
        trim_end_char(s.drop_last(), c)
    } else {
        s
    }
}

/// Number of leading whitespace characters of `s` from position `i` on.
pub open spec fn leading_space_end(s: Seq<char>, i: int) -> int
    decreases s.len() - i,
{
    if i < 0 || i >= s.len() {
        s.len() as int
    } else if is_whitespace(s[i]) {
        leading_space_end(s, i + 1)
    } else {
        i
    }
}

/// Position just after the last non-whitespace character before `i`.
pub open spec fn trailing_space_start(s: Seq<char>, i: int) -> int
    decreases i,
{
    if i <= 0 {
        0
    } else if is_whitespace(s[i - 1]) {
        trailing_space_start(s, i - 1)
    } else {
        i
    }
}

/// `s` without leading and trailing whitespace (the behaviour of `str::trim`).
pub open spec fn trim(s: Seq<char>) -> Seq<char> {
    let a = leading_space_end(s, 0);
    let b = trailing_space_start(s, s.len() as int);
    if a >= b {
        seq![]
    } else {
        s.subrange(a, b)
    }
}

// ---------------------------------------------------------------------------
// Executable helpers
// ---------------------------------------------------------------------------

pub fn lower_char(c: char) -> (r: char)
    ensures
        r == lower(c),
{
    if 'A' <= c && c <= 'Z' {
        let b: u8 = (c as u8) + 32;
        b as char
    } else {
        c
    }
}

pub fn is_digit_char(c: char) -> (r: bool)
    ensures
        r == is_digit(c),
{
    '0' <= c && c <= '9'
}

pub fn is_alphanumeric_char(c: char) -> (r: bool)
    ensures
        r == is_alphanumeric(c),
{
    ('0' <= c && c <= '9') || ('a' <= c && c <= 'z') || ('A' <= c && c <= 'Z')
}

pub fn is_whitespace_char(c: char) -> (r: bool)
    ensures
        r == is_whitespace(c),
{
    ('\u{9}' <= c && c <= '\u{d}') || c == ' ' || c == '\u{85}' || c == '\u{a0}' || c
        == '\u{1680}' || ('\u{2000}' <= c && c <= '\u{200a}') || c == '\u{2028}' || c
        == '\u{2029}' || c == '\u{202f}' || c == '\u{205f}' || c == '\u{3000}'
}

/// The characters of `s`.
pub fn chars_of(s: &str) -> (v: Vec<char>)
    ensures
        v@ == s@,
{
    broadcast use vstd::string::group_string_axioms;

    let mut v: Vec<char> = Vec::new();
    for c in it: s.chars()
        invariant
            it.seq() == s@,
            v@ == it.seq().take(it.index()),
    {
        v.push(c);
    }
    v
}

/// A `String` holding exactly the characters of `v`.
///
/// Calls std's `FromIterator<char>` for `String`, which appends the
/// characters in order; the contract states that the result's characters are
/// those of `v`.
#[verifier::external_body]
pub(crate) fn string_from_chars(v: &Vec<char>) -> (s: String)
    ensures
        s@ == v@,
{
    v.iter().collect()
}

/// The characters of `v` from `lo` up to `hi`.
pub fn slice(v: &Vec<char>, lo: usize, hi: usize) -> (r: Vec<char>)
    requires
        lo <= hi <= v.len(),
    ensures
        r@ == v@.subrange(lo as int, hi as int),
{
    let mut r: Vec<char> = Vec::new();
    let mut i: usize = lo;
    while i < hi
        invariant
            lo <= i <= hi <= v.len(),
            r@ == v@.subrange(lo as int, i as int),
        decreases hi - i,
    {
        r.push(v[i]);
        i = i + 1;
    }
    r
}

/// `a` followed by `b`.
pub fn concat(a: &Vec<char>, b: &Vec<char>) -> (r: Vec<char>)
    ensures
        r@ == a@ + b@,
{
    let mut r: Vec<char> = Vec::new();
    let mut i: usize = 0;
    while i < a.len()
        invariant
            i <= a.len(),
            r@ == a@.subrange(0, i as int),
        decreases a.len() - i,
    {
        r.push(a[i]);
        i = i + 1;
    }
    let mut j: usize = 0;
    while j < b.len()
        invariant
            j <= b.len(),
            r@ == a@ + b@.subrange(0, j as int),
        decreases b.len() - j,
    {
        r.push(b[j]);
        j = j + 1;
    }
    assert(a@.subrange(0, a@.len() as int) == a@);
    assert(b@.subrange(0, b@.len() as int) == b@);
    r
}

/// ASCII lower-case copy of `v`.
pub fn lower_vec(v: &Vec<char>) -> (r: Vec<char>)
    ensures
        r@ == lower_seq(v@),
{
    let mut r: Vec<char> = Vec::new();
    let mut i: usize = 0;
    while i < v.len()
        invariant
            i <= v.len(),
            r@ == lower_seq(v@.subrange(0, i as int)),
        decreases v.len() - i,
    {
        let c = lower_char(v[i]);
        r.push(c);
        i = i + 1;
        assert(lower_seq(v@.subrange(0, i as int)) =~= lower_seq(v@.subrange(0, i - 1)).push(
            lower(v@[i - 1]),
        ));
    }
    assert(v@.subrange(0, v@.len() as int) == v@);
    r
}

/// Exact equality of two character vectors.
pub fn eq_chars(a: &Vec<char>, b: &Vec<char>) -> (r: bool)
    ensures
        r == (a@ == b@),
{
    if a.len() != b.len() {
        return false;
    }
    let mut i: usize = 0;
    while i < a.len()
        invariant
            a.len() == b.len(),
            i <= a.len(),
            forall|j: int| 0 <= j < i ==> a@[j] == b@[j],
        decreases a.len() - i,
    {
        if a[i] != b[i] {
            return false;
        }
        i = i + 1;
    }
    assert(a@ =~= b@);
    true
}

/// Equality of two character vectors up to ASCII case.
pub fn eq_ignore_case_chars(a: &Vec<char>, b: &Vec<char>) -> (r: bool)
    ensures
        r == eq_ignore_case(a@, b@),
{
    let la = lower_vec(a);
    let lb = lower_vec(b);
    eq_chars(&la, &lb)
}

/// `p` is a prefix of `v`.
pub fn starts_with(v: &Vec<char>, p: &Vec<char>) -> (r: bool)
    ensures
        r == p@.is_prefix_of(v@),
{
    if p.len() > v.len() {
        return false;
    }
    let mut i: usize = 0;
    while i < p.len()
        invariant
            p.len() <= v.len(),
            i <= p.len(),
            forall|j: int| 0 <= j < i ==> p@[j] == v@[j],
        decreases p.len() - i,
    {
        if p[i] != v[i] {
            return false;
        }
        i = i + 1;
    }
    true
}

/// `p` is a suffix of `v`.
pub fn ends_with(v: &Vec<char>, p: &Vec<char>) -> (r: bool)
    ensures
        r == p@.is_suffix_of(v@),
{
    if p.len() > v.len() {
        return false;
    }
    let off: usize = v.len() - p.len();
    let mut i: usize = 0;
    while i < p.len()
        invariant
            p.len() <= v.len(),
            off == v.len() - p.len(),
            i <= p.len(),
            forall|j: int| 0 <= j < i ==> p@[j] == v@[off + j],
        decreases p.len() - i,
    {
        if p[i] != v[off + i] {
            return false;
        }
        i = i + 1;
    }
    true
}

/// Whether `v` holds `c` somewhere.
pub fn contains_char(v: &Vec<char>, c: char) -> (r: bool)
    ensures
        r == v@.contains(c),
{
    let mut i: usize = 0;
    while i < v.len()
        invariant
            i <= v.len(),
            forall|j: int| 0 <= j < i ==> v@[j] != c,
        decreases v.len() - i,
    {
        if v[i] == c {
            return true;
        }
        i = i + 1;
    }
    false
}

/// Whether every character of `v` is an ASCII digit.
pub fn all_digits_chars(v: &Vec<char>) -> (r: bool)
    ensures
        r == all_digits(v@),
{
    let mut i: usize = 0;
    while i < v.len()
        invariant
            i <= v.len(),
            forall|j: int| 0 <= j < i ==> is_digit(#[trigger] v@[j]),
        decreases v.len() - i,
    {
        if !is_digit_char(v[i]) {
            return false;
        }
        i = i + 1;
    }
    true
}

/// Position of the first `c` at or after `from`, or `v.len()`.
pub fn find_first(v: &Vec<char>, c: char, from: usize) -> (r: usize)
    requires
        from <= v.len(),
    ensures
        r == first_from(v@, c, from as int),
{
    let mut i: usize = from;
    while i < v.len() && v[i] != c
        invariant
            from <= i <= v.len(),
            first_from(v@, c, from as int) == first_from(v@, c, i as int),
        decreases v.len() - i,
    {
        i = i + 1;
    }
    i
}

/// Position of the last `c` in `v`, if any.
pub fn find_last(v: &Vec<char>, c: char) -> (r: Option<usize>)
    ensures
        match r {
            Some(i) => i as int == last_index(v@, c),
            None => last_index(v@, c) == -1,
        },
{
    let mut i: usize = v.len();
    while i > 0 && v[i - 1] != c
        invariant
            i <= v.len(),
            last_index(v@, c) == last_before(v@, c, i as int),
        decreases i,
    {
        i = i - 1;
    }
    if i == 0 {
        None
    } else {
        Some(i - 1)
    }
}

/// The views of a vector of character vectors.
pub open spec fn views(v: Seq<Vec<char>>) -> Seq<Seq<char>> {
    v.map_values(|x: Vec<char>| x@)
}

/// `v` cut at every `sep`.
pub fn split_chars(v: &Vec<char>, sep: char) -> (r: Vec<Vec<char>>)
    ensures
        views(r@) == split(v@, sep),
{
    let mut out: Vec<Vec<char>> = Vec::new();
    let mut start: usize = 0;
    loop
        invariant
            start <= v.len(),
            views(out@) + split_from(v@, sep, start as int) == split(v@, sep),
        decreases v.len() - start,
    {
        let i = find_first(v, sep, start);
        proof {
            lemma_first_from(v@, sep, start as int);
        }
        let piece = slice(v, start, i);
        let ghost before = out@;
        out.push(piece);
        proof {
            assert(views(out@) =~= views(before).push(piece@));
        }
        if i >= v.len() {
            assert(views(out@) =~= split(v@, sep));
            return out;
        }
        assert(views(out@) + split_from(v@, sep, i + 1) =~= views(before) + split_from(
            v@,
            sep,
            start as int,
        ));
        start = i + 1;
    }
}

/// `v` without any trailing `c`.
pub fn trim_end_chars(v: &Vec<char>, c: char) -> (r: Vec<char>)
    ensures
        r@ == trim_end_char(v@, c),
{
    let mut n: usize = v.len();
    assert(v@.subrange(0, v@.len() as int) == v@);
    while n > 0 && v[n - 1] == c
        invariant
            n <= v.len(),
            trim_end_char(v@, c) == trim_end_char(v@.subrange(0, n as int), c),
        decreases n,
    {
        assert(v@.subrange(0, n as int).drop_last() =~= v@.subrange(0, n - 1));
        n = n - 1;
    }
    slice(v, 0, n)
}

/// `v` without leading and trailing whitespace.
pub fn trim_chars(v: &Vec<char>) -> (r: Vec<char>)
    ensures
        r@ == trim(v@),
{
    let mut a: usize = 0;
    while a < v.len() && is_whitespace_char(v[a])
        invariant
            a <= v.len(),
            leading_space_end(v@, 0) == leading_space_end(v@, a as int),
        decreases v.len() - a,
    {
        a = a + 1;
    }
    let mut b: usize = v.len();
    while b > 0 && is_whitespace_char(v[b - 1])
        invariant
            b <= v.len(),
            trailing_space_start(v@, v@.len() as int) == trailing_space_start(v@, b as int),
        decreases b,
    {
        b = b - 1;
    }
    if a >= b {
        Vec::new()
    } else {
        slice(v, a, b)
    }
}

// ---------------------------------------------------------------------------
// Facts about lower-casing
// ---------------------------------------------------------------------------

/// Lower-casing a character twice is lower-casing it once.
pub proof fn lemma_lower_idempotent(c: char)
    ensures
        lower(lower(c)) == lower(c),
{
}

/// Lower-casing a sequence twice is lower-casing it once.
pub proof fn lemma_lower_seq_idempotent(s: Seq<char>)
    ensures
        lower_seq(lower_seq(s)) == lower_seq(s),
{
    assert forall|i: int| 0 <= i < s.len() implies #[trigger] lower_seq(lower_seq(s))[i]
        == lower_seq(s)[i] by {
        lemma_lower_idempotent(s[i]);
    }
    assert(lower_seq(lower_seq(s)) =~= lower_seq(s));
}

/// An ASCII letter.
pub open spec fn is_letter(c: char) -> bool {
    ('a' <= c && c <= 'z') || ('A' <= c && c <= 'Z')
}

/// Lower-casing keeps a character that is not a letter only where it
/// already stood.
pub proof fn lemma_lower_eq_other(c: char, x: char)
    requires
        !is_letter(x),
    ensures
        (lower(c) == x) == (c == x),
{
    if 'A' <= c && c <= 'Z' {
        let v: u32 = ((c as u32) + 32) as u32;
        assert(v as char == lower(c));
        assert((v as char) as u32 == v);
    }
}

/// Lower-casing commutes with taking a subrange.
pub proof fn lemma_lower_subrange(s: Seq<char>, a: int, b: int)
    requires
        0 <= a <= b <= s.len(),
    ensures
        lower_seq(s).subrange(a, b) == lower_seq(s.subrange(a, b)),
{
    assert(lower_seq(s).subrange(a, b) =~= lower_seq(s.subrange(a, b)));
}

/// Lower-casing commutes with concatenation.
pub proof fn lemma_lower_concat(a: Seq<char>, b: Seq<char>)
    ensures
        lower_seq(a + b) == lower_seq(a) + lower_seq(b),
{
    assert(lower_seq(a + b) =~= lower_seq(a) + lower_seq(b));
}

/// A lower-cased sequence holds a character that is not a letter
/// exactly when the original does.
pub proof fn lemma_lower_contains(s: Seq<char>, x: char)
    requires
        !is_letter(x),
    ensures
        lower_seq(s).contains(x) == s.contains(x),
{
    if s.contains(x) {
        let i = choose|i: int| 0 <= i < s.len() && s[i] == x;
        assert(lower_seq(s)[i] == x);
    }
    if lower_seq(s).contains(x) {
        let i = choose|i: int| 0 <= i < lower_seq(s).len() && lower_seq(s)[i] == x;
        lemma_lower_eq_other(s[i], x);
    }
}

/// Searching forward finds a separator that is not a letter at
/// the same place after lower-casing.
pub proof fn lemma_first_from_lower(s: Seq<char>, c: char, i: int)
    requires
        !is_letter(c),
    ensures
        first_from(lower_seq(s), c, i) == first_from(s, c, i),
    decreases s.len() - i,
{
    if 0 <= i < s.len() {
        lemma_lower_eq_other(s[i], c);
        lemma_first_from_lower(s, c, i + 1);
    }
}

/// Searching backward finds a separator that is not a letter at
/// the same place after lower-casing.
pub proof fn lemma_last_before_lower(s: Seq<char>, c: char, i: int)
    requires
        !is_letter(c),
        i <= s.len(),
    ensures
        last_before(lower_seq(s), c, i) == last_before(s, c, i),
    decreases i,
{
    if i > 0 {
        lemma_lower_eq_other(s[i - 1], c);
        lemma_last_before_lower(s, c, i - 1);
    }
}

/// Splitting a lower-cased sequence at a separator that is not a letter gives the lower-cased pieces.
pub proof fn lemma_split_from_lower(s: Seq<char>, sep: char, start: int)
    requires
        !is_letter(sep),
    ensures
        split_from(lower_seq(s), sep, start) == split_from(s, sep, start).map_values(
            |x: Seq<char>| lower_seq(x),
        ),
    decreases s.len() - start,
{
    if 0 <= start <= s.len() {
        lemma_first_from_lower(s, sep, start);
        lemma_first_from(s, sep, start);
        let i = first_from(s, sep, start);
        if i >= s.len() {
            lemma_lower_subrange(s, start, s.len() as int);
            assert(split_from(lower_seq(s), sep, start) =~= split_from(s, sep, start).map_values(
                |x: Seq<char>| lower_seq(x),
            ));
        } else {
            lemma_lower_subrange(s, start, i);
            lemma_split_from_lower(s, sep, i + 1);
            assert(split_from(lower_seq(s), sep, start) =~= split_from(s, sep, start).map_values(
                |x: Seq<char>| lower_seq(x),
            ));
        }
    }
}

/// Splitting a lower-cased sequence at a separator that is not a letter gives the lower-cased pieces.
pub proof fn lemma_split_lower(s: Seq<char>, sep: char)
    requires
        !is_letter(sep),
    ensures
        split(lower_seq(s), sep) == split(s, sep).map_values(|x: Seq<char>| lower_seq(x)),
{
    lemma_split_from_lower(s, sep, 0);
}

/// A sequence without `sep` splits into itself alone.
pub proof fn lemma_split_without_separator(s: Seq<char>, sep: char)
    requires
        last_index(s, sep) == -1,
    ensures
        split(s, sep).len() == 1,
{
    lemma_last_before(s, sep, s.len() as int);
    lemma_first_from(s, sep, 0);
    assert(s.subrange(0, s.len() as int) == s);
}

/// The first `c` at or after `start` is at `i` when `s[i]` is `c` and none
/// comes between.
pub proof fn lemma_first_from_at(s: Seq<char>, c: char, start: int, i: int)
    requires
        0 <= start <= i < s.len(),
        s[i] == c,
        forall|j: int| start <= j < i ==> s[j] != c,
    ensures
        first_from(s, c, start) == i,
    decreases i - start,
{
    if start < i {
        lemma_first_from_at(s, c, start + 1, i);
    }
}

/// No `c` before `i` means there is no last `c` before `i`.
pub proof fn lemma_last_before_absent(s: Seq<char>, c: char, i: int)
    requires
        i <= s.len(),
        forall|j: int| 0 <= j < i ==> s[j] != c,
    ensures
        last_before(s, c, i) == -1,
    decreases i,
{
    if i > 0 {
        lemma_last_before_absent(s, c, i - 1);
    }
}

/// Removing trailing `c` keeps a prefix.
pub proof fn lemma_trim_end_char_prefix(s: Seq<char>, c: char)
    ensures
        trim_end_char(s, c).len() <= s.len(),
        trim_end_char(s, c) == s.subrange(0, trim_end_char(s, c).len() as int),
    decreases s.len(),
{
    if s.len() > 0 && s.last() == c {
        lemma_trim_end_char_prefix(s.drop_last(), c);
        assert(s.drop_last().subrange(0, trim_end_char(s, c).len() as int) =~= s.subrange(
            0,
            trim_end_char(s, c).len() as int,
        ));
    } else {
        assert(s.subrange(0, s.len() as int) =~= s);
    }
}

/// A sequence whose lower-casing is a letter-free sequence is that sequence.
pub proof fn lemma_lower_seq_letter_free(s: Seq<char>, t: Seq<char>)
    requires
        forall|i: int| 0 <= i < t.len() ==> !is_letter(#[trigger] t[i]),
        lower_seq(s) == t,
    ensures
        s == t,
{
    assert forall|i: int| 0 <= i < s.len() implies s[i] == t[i] by {
        assert(lower_seq(s)[i] == t[i]);
        lemma_lower_eq_other(s[i], t[i]);
    }
    assert(s =~= t);
}

/// Searching in `x + b` from inside `b` finds what searching `b` finds,
/// shifted by `x.len()`.
pub proof fn lemma_first_from_shift(x: Seq<char>, b: Seq<char>, c: char, j: int)
    requires
        0 <= j <= b.len(),
    ensures
        first_from(x + b, c, x.len() + j) == x.len() + first_from(b, c, j),
    decreases b.len() - j,
{
    if j < b.len() {
        assert((x + b)[x.len() + j] == b[j]);
        lemma_first_from_shift(x, b, c, j + 1);
    }
}

/// Splitting `x + b` from inside `b` splits `b`.
pub proof fn lemma_split_from_shift(x: Seq<char>, b: Seq<char>, sep: char, j: int)
    requires
        0 <= j <= b.len(),
    ensures
        split_from(x + b, sep, x.len() + j) == split_from(b, sep, j),
    decreases b.len() - j,
{
    lemma_first_from_shift(x, b, sep, j);
    lemma_first_from(b, sep, j);
    let i = first_from(b, sep, j);
    if i >= b.len() {
        assert((x + b).subrange(x.len() + j, (x + b).len() as int) =~= b.subrange(
            j,
            b.len() as int,
        ));
    } else {
        assert((x + b).subrange(x.len() + j, x.len() + i) =~= b.subrange(j, i));
        lemma_split_from_shift(x, b, sep, i + 1);
    }
}

/// Splitting `a + [sep] + b` from inside `a` continues with the pieces of `b`.
pub proof fn lemma_split_from_concat(a: Seq<char>, b: Seq<char>, sep: char, start: int)
    requires
        0 <= start <= a.len(),
    ensures
        split_from(a + seq![sep] + b, sep, start) == split_from(a, sep, start) + split(b, sep),
    decreases a.len() - start,
{
    let s = a + seq![sep] + b;
    let x = a + seq![sep];
    assert(s == x + b);
    lemma_first_from(a, sep, start);
    let i = first_from(a, sep, start);
    if i < a.len() {
        assert forall|j: int| start <= j < i implies s[j] != sep by {
            assert(s[j] == a[j]);
        }
        lemma_first_from_at(s, sep, start, i);
        assert(s.subrange(start, i) =~= a.subrange(start, i));
        lemma_split_from_concat(a, b, sep, i + 1);
        assert(split_from(a, sep, start) == seq![a.subrange(start, i)] + split_from(
            a,
            sep,
            i + 1,
        ));
        assert(split_from(s, sep, start) =~= split_from(a, sep, start) + split(b, sep));
    } else {
        assert forall|j: int| start <= j < a.len() implies s[j] != sep by {
            assert(s[j] == a[j]);
        }
        lemma_first_from_at(s, sep, start, a.len() as int);
        assert(s.subrange(start, a.len() as int) =~= a.subrange(start, a.len() as int));
        lemma_split_from_shift(x, b, sep, 0);
        assert(split_from(s, sep, start) =~= split_from(a, sep, start) + split(b, sep));
    }
}

/// Splitting `a + [sep] + b` splits `a` and `b` separately.
pub proof fn lemma_split_concat(a: Seq<char>, b: Seq<char>, sep: char)
    ensures
        split(a + seq![sep] + b, sep) == split(a, sep) + split(b, sep),
{
    lemma_split_from_concat(a, b, sep, 0);
}

/// A sequence without `sep` splits into itself alone.
pub proof fn lemma_split_single(s: Seq<char>, sep: char)
    requires
        !s.contains(sep),
    ensures
        split(s, sep) == seq![s],
{
    lemma_first_from(s, sep, 0);
    if first_from(s, sep, 0) < s.len() {
        assert(s[first_from(s, sep, 0)] == sep);
    }
    assert(s.subrange(0, s.len() as int) =~= s);
}

/// When every piece of a split satisfies `ok` character by character, every
/// character of the sequence is the separator or satisfies `ok`.
pub proof fn lemma_split_from_chars(
    s: Seq<char>,
    sep: char,
    start: int,
    ok: spec_fn(char) -> bool,
)
    requires
        0 <= start <= s.len(),
        forall|k: int, j: int|
            0 <= k < split_from(s, sep, start).len() && 0 <= j < split_from(
                s,
                sep,
                start,
            )[k].len() ==> ok(#[trigger] split_from(s, sep, start)[k][j]),
    ensures
        forall|i: int| start <= i < s.len() ==> s[i] == sep || ok(#[trigger] s[i]),
    decreases s.len() - start,
{
    lemma_first_from(s, sep, start);
    let i = first_from(s, sep, start);
    let pieces = split_from(s, sep, start);
    assert forall|idx: int| start <= idx < i implies ok(#[trigger] s[idx]) by {
        assert(pieces[0][idx - start] == s[idx]);
    }
    if i < s.len() {
        let rest = split_from(s, sep, i + 1);
        assert forall|k: int, j: int|
            0 <= k < rest.len() && 0 <= j < rest[k].len() implies ok(#[trigger] rest[k][j]) by {
            assert(pieces[k + 1] == rest[k]);
        }
        lemma_split_from_chars(s, sep, i + 1, ok);
    }
}

/// A non-empty sequence without whitespace is its own trim.
pub proof fn lemma_trim_without_whitespace(s: Seq<char>)
    requires
        s.len() > 0,
        forall|i: int| 0 <= i < s.len() ==> !is_whitespace(#[trigger] s[i]),
    ensures
        trim(s) == s,
{
    assert(leading_space_end(s, 0) == 0);
    assert(trailing_space_start(s, s.len() as int) == s.len());
    assert(s.subrange(0, s.len() as int) =~= s);
}

/// The last `c` before `i` is at `k` when `s[k]` is `c` and none comes
/// between.
pub proof fn lemma_last_before_at(s: Seq<char>, c: char, i: int, k: int)
    requires
        0 <= k < i <= s.len(),
        s[k] == c,
        forall|j: int| k < j < i ==> s[j] != c,
    ensures
        last_before(s, c, i) == k,
    decreases i - k,
{
    if k < i - 1 {
        lemma_last_before_at(s, c, i - 1, k);
    }
}

/// A character of a concatenation comes from one of its parts.
pub proof fn lemma_concat_contains(a: Seq<char>, b: Seq<char>, x: char)
    ensures
        (a + b).contains(x) == (a.contains(x) || b.contains(x)),
{
    if (a + b).contains(x) {
        let i = choose|i: int| 0 <= i < (a + b).len() && (a + b)[i] == x;
        if i < a.len() {
            assert(a[i] == x);
        } else {
            assert(b[i - a.len()] == x);
        }
    }
    if a.contains(x) {
        let i = choose|i: int| 0 <= i < a.len() && a[i] == x;
        assert((a + b)[i] == x);
    }
    if b.contains(x) {
        let i = choose|i: int| 0 <= i < b.len() && b[i] == x;
        assert((a + b)[a.len() + i] == x);
    }
}

/// `a + [sep] + b` with no `sep` in `b` determines `a` and `b`.
pub proof fn lemma_split_last_unique(a: Seq<char>, b: Seq<char>, c: Seq<char>, d: Seq<char>, sep: char)
    requires
        a + seq![sep] + b == c + seq![sep] + d,
        !b.contains(sep),
        !d.contains(sep),
    ensures
        a == c,
        b == d,
{
    let s = a + seq![sep] + b;
    assert forall|j: int| a.len() < j < s.len() implies s[j] != sep by {
        assert(s[j] == b[j - a.len() - 1]);
    }
    lemma_last_before_at(s, sep, s.len() as int, a.len() as int);
    assert forall|j: int| c.len() < j < s.len() implies s[j] != sep by {
        assert(s[j] == d[j - c.len() - 1]);
    }
    lemma_last_before_at(s, sep, s.len() as int, c.len() as int);
    assert(a =~= s.subrange(0, a.len() as int));
    assert(c =~= s.subrange(0, c.len() as int));
    assert(b =~= s.subrange(a.len() as int + 1, s.len() as int));
    assert(d =~= s.subrange(c.len() as int + 1, s.len() as int));
}

} // verus!

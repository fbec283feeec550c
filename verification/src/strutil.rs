//! Verified helpers for working with strings as sequences of characters.

use vstd::prelude::*;

verus! {

/// Blank characters recognized when trimming user input.
pub open spec fn is_space(c: char) -> bool {
    c == ' ' || c == '\t' || c == '\n' || c == '\r'
}

/// Executable form of `is_space`.
pub fn space_char(c: char) -> (r: bool)
    ensures
        r == is_space(c),
{
    c == ' ' || c == '\t' || c == '\n' || c == '\r'
}

/// The sequence with leading and trailing blank characters removed.
pub open spec fn trim_spec(s: Seq<char>) -> Seq<char>
    decreases s.len(),
{
    if s.len() == 0 {
        s
    } else if is_space(s[0]) {
        trim_spec(s.skip(1))
    } else if is_space(s[s.len() - 1]) {
        trim_spec(s.take(s.len() - 1))
    } else {
        s
    }
}

/// Removes leading and trailing blank characters.
pub fn trimmed(s: &str) -> (r: String)
    ensures
        r@ == trim_spec(s@),
{
    let len = s.unicode_len();
    let mut lo: usize = 0;
    let mut hi: usize = len;
    proof {
        assert(s@.subrange(0, len as int) =~= s@);
    }
    while lo < hi && space_char(s.get_char(lo))
        invariant
            0 <= lo <= hi <= len,
            len == s@.len(),
            trim_spec(s@) == trim_spec(s@.subrange(lo as int, hi as int)),
        decreases hi - lo,
    {
        proof {
            let sub = s@.subrange(lo as int, hi as int);
            assert(sub.skip(1) =~= s@.subrange(lo as int + 1, hi as int));
        }
        lo += 1;
    }
    while lo < hi && space_char(s.get_char(hi - 1))
        invariant
            0 <= lo <= hi <= len,
            len == s@.len(),
            lo < hi ==> !is_space(s@[lo as int]),
            trim_spec(s@) == trim_spec(s@.subrange(lo as int, hi as int)),
        decreases hi - lo,
    {
        proof {
            let sub = s@.subrange(lo as int, hi as int);
            assert(sub.take(sub.len() - 1) =~= s@.subrange(lo as int, hi as int - 1));
        }
        hi -= 1;
    }
    proof {
        let sub = s@.subrange(lo as int, hi as int);
        assert(trim_spec(sub) == sub);
    }
    s.substring_char(lo, hi).to_owned()
}

/// Compares two string slices for equality of their character sequences.
pub fn str_eq(a: &str, b: &str) -> (r: bool)
    ensures
        r == (a@ == b@),
{
    let a_len = a.unicode_len();
    let b_len = b.unicode_len();
    if a_len != b_len {
        assert(a@ != b@) by {
            assert(a@.len() != b@.len());
        }
        return false;
    }
    let mut i: usize = 0;
    while i < a_len
        invariant
            0 <= i <= a_len,
            a_len == a@.len(),
            b_len == b@.len(),
            a@.len() == b@.len(),
            forall|j: int| 0 <= j < i ==> a@[j] == b@[j],
        decreases a_len - i,
    {
        if a.get_char(i) != b.get_char(i) {
            return false;
        }
        i += 1;
    }
    proof {
        assert(a@ =~= b@);
    }
    true
}

/// Whether `b` occurs as a prefix of `a`.
pub fn starts_with(a: &str, b: &str) -> (r: bool)
    ensures
        r == (a@.len() >= b@.len() && a@.subrange(0, b@.len() as int) == b@),
{
    let a_len = a.unicode_len();
    let b_len = b.unicode_len();
    if a_len < b_len {
        return false;
    }
    let mut i: usize = 0;
    while i < b_len
        invariant
            0 <= i <= b_len <= a_len,
            a_len == a@.len(),
            b_len == b@.len(),
            forall|j: int| 0 <= j < i ==> a@[j] == b@[j],
        decreases b_len - i,
    {
        if a.get_char(i) != b.get_char(i) {
            assert(a@.subrange(0, b@.len() as int)[i as int] != b@[i as int]);
            return false;
        }
        i += 1;
    }
    proof {
        assert(a@.subrange(0, b@.len() as int) =~= b@);
    }
    true
}

/// The index of the first occurrence of `c` in `s`, or the length of `s`
/// if `c` does not occur.
pub open spec fn break_at<T>(s: Seq<T>, c: T) -> int
    decreases s.len(),
{
    if s.len() == 0 {
        0
    } else if s[0] == c {
        0
    } else {
        1 + break_at(s.skip(1), c)
    }
}

pub proof fn lemma_break_at_bounds<T>(s: Seq<T>, c: T)
    ensures
        0 <= break_at(s, c) <= s.len(),
        forall|j: int| 0 <= j < break_at(s, c) ==> s[j] != c,
        break_at(s, c) < s.len() ==> s[break_at(s, c)] == c,
    decreases s.len(),
{
    if s.len() == 0 {
    } else if s[0] == c {
    } else {
        lemma_break_at_bounds(s.skip(1), c);
        assert forall|j: int| 0 <= j < break_at(s, c) implies s[j] != c by {
            if j > 0 {
                assert(s.skip(1)[j - 1] != c);
            }
        }
    }
}

/// `break_at` is determined by any index with no `c` before it and `c` (or
/// the end of the sequence) at it.
pub proof fn lemma_break_at_char<T>(s: Seq<T>, c: T, i: int)
    requires
        0 <= i <= s.len(),
        forall|j: int| 0 <= j < i ==> s[j] != c,
        i < s.len() ==> s[i] == c,
    ensures
        break_at(s, c) == i,
    decreases s.len(),
{
    if s.len() == 0 {
    } else if s[0] == c {
        assert(i == 0);
    } else {
        assert(i >= 1);
        lemma_break_at_char(s.skip(1), c, i - 1);
    }
}

/// Splits `s` at every occurrence of the separator `c`.  A trailing
/// separator does not produce a trailing empty segment, so a text made of
/// newline-terminated lines splits into exactly those lines.
pub open spec fn split_sep_spec<T>(s: Seq<T>, c: T) -> Seq<Seq<T>>
    decreases s.len(),
{
    if s.len() == 0 {
        Seq::<Seq<T>>::empty()
    } else {
        let b = break_at(s, c);
        if 0 <= b && b < s.len() {
            seq![s.subrange(0, b)] + split_sep_spec(s.skip(b + 1), c)
        } else {
            seq![s]
        }
    }
}

/// Joins segments, terminating each with the separator `c`.
pub open spec fn join_sep_spec<T>(ls: Seq<Seq<T>>, c: T) -> Seq<T>
    decreases ls.len(),
{
    if ls.len() == 0 {
        Seq::<T>::empty()
    } else {
        ls[0] + seq![c] + join_sep_spec(ls.skip(1), c)
    }
}

pub proof fn lemma_break_at_concat<T>(l: Seq<T>, c: T, t: Seq<T>)
    requires
        !l.contains(c),
    ensures
        break_at(l + seq![c] + t, c) == l.len(),
    decreases l.len(),
{
    let s = l + seq![c] + t;
    if l.len() == 0 {
        assert(s[0] == c);
    } else {
        assert(s[0] == l[0]);
        assert(!l.contains(c) ==> l[0] != c) by {
            if l[0] == c {
                assert(l.contains(c));
            }
        }
        assert(l.skip(1) + seq![c] + t =~= s.skip(1));
        assert(!l.skip(1).contains(c)) by {
            if l.skip(1).contains(c) {
                let j = choose|j: int| 0 <= j < l.skip(1).len() && l.skip(1)[j] == c;
                assert(l[j + 1] == c);
                assert(l.contains(c));
            }
        }
        lemma_break_at_concat(l.skip(1), c, t);
    }
}

/// Joining distributes over concatenation of segment lists.
pub proof fn lemma_join_sep_app<T>(a: Seq<Seq<T>>, b: Seq<Seq<T>>, c: T)
    ensures
        join_sep_spec(a + b, c) == join_sep_spec(a, c) + join_sep_spec(b, c),
    decreases a.len(),
{
    if a.len() == 0 {
        assert(a + b =~= b);
        assert(join_sep_spec(a, c) + join_sep_spec(b, c) =~= join_sep_spec(b, c));
    } else {
        assert((a + b)[0] == a[0]);
        assert((a + b).skip(1) =~= a.skip(1) + b);
        lemma_join_sep_app(a.skip(1), b, c);
        assert(join_sep_spec(a + b, c) =~= join_sep_spec(a, c) + join_sep_spec(b, c));
    }
}

/// A property of the separator and of every segment element holds of every
/// element of the joined sequence.
pub proof fn lemma_join_sep_elems<T>(ls: Seq<Seq<T>>, c: T, p: spec_fn(T) -> bool)
    requires
        p(c),
        forall|i: int, j: int|
            0 <= i < ls.len() && 0 <= j < ls[i].len() ==> p(#[trigger] ls[i][j]),
    ensures
        forall|m: int|
            0 <= m < join_sep_spec(ls, c).len() ==> p(#[trigger] join_sep_spec(ls, c)[m]),
    decreases ls.len(),
{
    if ls.len() > 0 {
        assert(forall|i: int, j: int|
            0 <= i < ls.skip(1).len() && 0 <= j < ls.skip(1)[i].len() ==> p(
                #[trigger] ls.skip(1)[i][j],
            )) by {
            assert(forall|i: int| 0 <= i < ls.skip(1).len() ==> ls.skip(1)[i] == ls[i + 1]);
        }
        lemma_join_sep_elems(ls.skip(1), c, p);
        let s = join_sep_spec(ls, c);
        let head_len = ls[0].len() as int;
        assert forall|m: int| 0 <= m < s.len() implies p(s[m]) by {
            if m < head_len {
                assert(s[m] == ls[0][m]);
            } else if m == head_len {
                assert(s[m] == c);
            } else {
                assert(s[m] == join_sep_spec(ls.skip(1), c)[m - head_len - 1]);
            }
        }
    }
}

/// Splitting undoes joining, as long as no segment contains the separator.
pub proof fn lemma_split_join<T>(ls: Seq<Seq<T>>, c: T)
    requires
        forall|i: int| 0 <= i < ls.len() ==> !(#[trigger] ls[i]).contains(c),
    ensures
        split_sep_spec(join_sep_spec(ls, c), c) == ls,
    decreases ls.len(),
{
    if ls.len() == 0 {
        assert(split_sep_spec(join_sep_spec(ls, c), c) =~= ls);
    } else {
        let s = join_sep_spec(ls, c);
        let rest = join_sep_spec(ls.skip(1), c);
        assert(s == ls[0] + seq![c] + rest);
        lemma_break_at_concat(ls[0], c, rest);
        let b = break_at(s, c);
        assert(b == ls[0].len());
        assert(b < s.len());
        assert(s.subrange(0, b) =~= ls[0]);
        assert(s.skip(b + 1) =~= rest);
        assert(forall|i: int|
            0 <= i < ls.skip(1).len() ==> !(#[trigger] ls.skip(1)[i]).contains(c));
        lemma_split_join(ls.skip(1), c);
        assert(split_sep_spec(s, c) =~= ls);
    }
}

/// The index of the first occurrence of `c`, or the length of `s` if absent.
pub fn find_char(s: &str, c: char) -> (r: usize)
    ensures
        r == break_at(s@, c),
{
    let len = s.unicode_len();
    let mut i: usize = 0;
    while i < len && s.get_char(i) != c
        invariant
            0 <= i <= len,
            len == s@.len(),
            forall|j: int| 0 <= j < i ==> s@[j] != c,
        decreases len - i,
    {
        i += 1;
    }
    proof {
        lemma_break_at_char(s@, c, i as int);
    }
    i
}

/// Splits a string at every occurrence of the separator character.
pub fn split_sep(s: &str, c: char) -> (r: Vec<String>)
    ensures
        r.deep_view() == split_sep_spec(s@, c),
    decreases s@.len(),
{
    let len = s.unicode_len();
    if len == 0 {
        let r: Vec<String> = Vec::new();
        proof {
            assert(r.deep_view() =~= split_sep_spec(s@, c));
        }
        return r;
    }
    let b = find_char(s, c);
    proof {
        lemma_break_at_bounds(s@, c);
    }
    if b == len {
        let mut r: Vec<String> = Vec::new();
        r.push(s.to_owned());
        proof {
            assert(r.deep_view() =~= split_sep_spec(s@, c));
        }
        return r;
    }
    let first = s.substring_char(0, b).to_owned();
    let rest = s.substring_char(b + 1, len);
    let mut r = split_sep(rest, c);
    r.insert(0, first);
    proof {
        assert(r.deep_view() =~= split_sep_spec(s@, c));
    }
    r
}

/// Joins segments, terminating each with the separator character.
pub fn join_sep(lines: &Vec<String>, c: char, sep: &str) -> (r: String)
    requires
        sep@ == seq![c],
    ensures
        r@ == join_sep_spec(lines.deep_view(), c),
{
    let ghost ls = lines.deep_view();
    let mut r = String::new();
    let mut i: usize = 0;
    proof {
        assert(ls.skip(0) =~= ls);
        assert(r@ + join_sep_spec(ls, c) =~= join_sep_spec(ls, c));
    }
    while i < lines.len()
        invariant
            0 <= i <= lines.len(),
            ls == lines.deep_view(),
            ls.len() == lines.len(),
            sep@ == seq![c],
            r@ + join_sep_spec(ls.skip(i as int), c) == join_sep_spec(ls, c),
        decreases lines.len() - i,
    {
        proof {
            assert(ls.skip(i as int)[0] == ls[i as int]);
            assert(ls.skip(i as int).skip(1) =~= ls.skip(i as int + 1));
            assert(lines.deep_view()[i as int] == lines@[i as int].deep_view());
        }
        r.append(lines[i].as_str());
        r.append(sep);
        i += 1;
    }
    proof {
        assert(ls.skip(ls.len() as int) =~= Seq::<Seq<char>>::empty());
    }
    r
}

/// The subsequence of elements satisfying `p`, in order.
pub open spec fn filter_seq<T>(s: Seq<T>, p: spec_fn(T) -> bool) -> Seq<T>
    decreases s.len(),
{
    if s.len() == 0 {
        Seq::<T>::empty()
    } else if p(s[0]) {
        seq![s[0]] + filter_seq(s.skip(1), p)
    } else {
        filter_seq(s.skip(1), p)
    }
}

pub proof fn lemma_filter_seq_app<T>(a: Seq<T>, b: Seq<T>, p: spec_fn(T) -> bool)
    ensures
        filter_seq(a + b, p) == filter_seq(a, p) + filter_seq(b, p),
    decreases a.len(),
{
    if a.len() == 0 {
        assert(a + b =~= b);
        assert(filter_seq(a, p) + filter_seq(b, p) =~= filter_seq(b, p));
    } else {
        assert((a + b)[0] == a[0]);
        assert((a + b).skip(1) =~= a.skip(1) + b);
        lemma_filter_seq_app(a.skip(1), b, p);
        if p(a[0]) {
            assert(filter_seq(a + b, p) =~= filter_seq(a, p) + filter_seq(b, p));
        }
    }
}

/// Every element kept by the filter satisfies the predicate.
pub proof fn lemma_filter_seq_elems<T>(s: Seq<T>, p: spec_fn(T) -> bool)
    ensures
        forall|i: int| 0 <= i < filter_seq(s, p).len() ==> p(#[trigger] filter_seq(s, p)[i]),
    decreases s.len(),
{
    if s.len() > 0 {
        lemma_filter_seq_elems(s.skip(1), p);
        let f = filter_seq(s, p);
        let rest = filter_seq(s.skip(1), p);
        assert forall|i: int| 0 <= i < f.len() implies p(#[trigger] f[i]) by {
            if p(s[0]) {
                if i > 0 {
                    assert(f[i] == rest[i - 1]);
                }
            } else {
                assert(f[i] == rest[i]);
            }
        }
    }
}

/// Filtering keeps a sequence whose elements all satisfy the predicate.
pub proof fn lemma_filter_seq_all<T>(s: Seq<T>, p: spec_fn(T) -> bool)
    requires
        forall|i: int| 0 <= i < s.len() ==> p(#[trigger] s[i]),
    ensures
        filter_seq(s, p) == s,
    decreases s.len(),
{
    if s.len() == 0 {
        assert(filter_seq(s, p) =~= s);
    } else {
        assert(forall|i: int| 0 <= i < s.skip(1).len() ==> p(#[trigger] s.skip(1)[i]));
        lemma_filter_seq_all(s.skip(1), p);
        assert(filter_seq(s, p) =~= s);
    }
}

/// No segment of a split contains the separator.
pub proof fn lemma_split_sep_elements<T>(s: Seq<T>, c: T)
    ensures
        forall|i: int|
            0 <= i < split_sep_spec(s, c).len() ==> !(#[trigger] split_sep_spec(s, c)[i]).contains(
                c,
            ),
    decreases s.len(),
{
    if s.len() > 0 {
        lemma_break_at_bounds(s, c);
        let b = break_at(s, c);
        if b < s.len() {
            lemma_split_sep_elements(s.skip(b + 1), c);
            assert forall|i: int| 0 <= i < split_sep_spec(s, c).len() implies !(
            #[trigger] split_sep_spec(s, c)[i]).contains(c) by {
                if i == 0 {
                    let seg = s.subrange(0, b);
                    if seg.contains(c) {
                        let j = choose|j: int| 0 <= j < seg.len() && seg[j] == c;
                        assert(s[j] == c);
                    }
                } else {
                    assert(split_sep_spec(s, c)[i] == split_sep_spec(s.skip(b + 1), c)[i - 1]);
                }
            }
        } else {
            assert(split_sep_spec(s, c) == seq![s]);
            if s.contains(c) {
                let j = choose|j: int| 0 <= j < s.len() && s[j] == c;
            }
        }
    }
}

/// `needle` occurs in `hay` starting at index `i`.
pub open spec fn matches_at(hay: Seq<char>, needle: Seq<char>, i: int) -> bool {
    0 <= i && i + needle.len() <= hay.len() && hay.subrange(i, i + needle.len()) == needle
}

/// `needle` occurs somewhere in `hay`.
pub open spec fn has_substring(hay: Seq<char>, needle: Seq<char>) -> bool {
    exists|i: int| matches_at(hay, needle, i)
}

/// Compares `needle` against `hay` at position `i`.
fn match_at(hay: &str, needle: &str, i: usize) -> (r: bool)
    requires
        i + needle@.len() <= hay@.len(),
    ensures
        r == matches_at(hay@, needle@, i as int),
{
    let h_len = hay.unicode_len();
    let n_len = needle.unicode_len();
    let mut j: usize = 0;
    while j < n_len
        invariant
            0 <= j <= n_len,
            n_len == needle@.len(),
            h_len == hay@.len(),
            i + n_len <= h_len,
            forall|m: int| 0 <= m < j ==> hay@[i + m] == needle@[m],
        decreases n_len - j,
    {
        if hay.get_char(i + j) != needle.get_char(j) {
            proof {
                let sub = hay@.subrange(i as int, i + needle@.len());
                assert(sub[j as int] != needle@[j as int]);
            }
            return false;
        }
        j += 1;
    }
    proof {
        assert(hay@.subrange(i as int, i + needle@.len()) =~= needle@);
    }
    true
}

/// Substring search by direct comparison at every position.
pub fn contains_substring(hay: &str, needle: &str) -> (r: bool)
    ensures
        r == has_substring(hay@, needle@),
{
    let h_len = hay.unicode_len();
    let n_len = needle.unicode_len();
    if n_len > h_len {
        proof {
            assert forall|i: int| !matches_at(hay@, needle@, i) by {}
        }
        return false;
    }
    if n_len == 0 {
        proof {
            assert(hay@.subrange(0, 0) =~= needle@);
            assert(matches_at(hay@, needle@, 0));
        }
        return true;
    }
    let mut i: usize = 0;
    while i <= h_len - n_len
        invariant
            0 <= i <= h_len - n_len + 1,
            1 <= n_len <= h_len,
            h_len == hay@.len(),
            n_len == needle@.len(),
            forall|k: int| 0 <= k < i ==> !matches_at(hay@, needle@, k),
        decreases h_len - i,
    {
        if match_at(hay, needle, i) {
            return true;
        }
        i += 1;
    }
    proof {
        assert forall|k: int| !matches_at(hay@, needle@, k) by {
            if k > h_len - n_len {
                assert(!matches_at(hay@, needle@, k));
            }
        }
    }
    false
}

/// The decimal digit character for a value below ten.
pub open spec fn digit_char(d: int) -> char {
    if d == 0 {
        '0'
    } else if d == 1 {
        '1'
    } else if d == 2 {
        '2'
    } else if d == 3 {
        '3'
    } else if d == 4 {
        '4'
    } else if d == 5 {
        '5'
    } else if d == 6 {
        '6'
    } else if d == 7 {
        '7'
    } else if d == 8 {
        '8'
    } else {
        '9'
    }
}

/// The decimal representation of a non-negative integer.
pub open spec fn dec_digits(n: int) -> Seq<char>
    decreases n,
{
    if n < 10 {
        seq![digit_char(n)]
    } else {
        dec_digits(n / 10) + seq![digit_char(n % 10)]
    }
}

/// The decimal representation of an integer, with a sign when negative.
pub open spec fn dec_int(n: int) -> Seq<char> {
    if n >= 0 {
        dec_digits(n)
    } else {
        seq!['-'] + dec_digits(-n)
    }
}

/// A one-character string slice holding the digit for `d`.
fn digit_str(d: u32) -> (r: &'static str)
    requires
        d < 10,
    ensures
        r@ == seq![digit_char(d as int)],
{
    let digits = "0123456789";
    proof {
        reveal_strlit("0123456789");
    }
    let r = digits.substring_char(d as usize, d as usize + 1);
    proof {
        assert(r@ =~= seq![digit_char(d as int)]);
    }
    r
}

/// Formats a `u32` in decimal.
pub fn u32_to_string(n: u32) -> (r: String)
    ensures
        r@ == dec_digits(n as int),
    decreases n,
{
    if n < 10 {
        digit_str(n).to_owned()
    } else {
        let mut r = u32_to_string(n / 10);
        r.append(digit_str(n % 10));
        r
    }
}

/// Formats an `i32` in decimal.
pub fn i32_to_string(n: i32) -> (r: String)
    ensures
        r@ == dec_int(n as int),
{
    if n >= 0 {
        u32_to_string(n as u32)
    } else {
        let magnitude: u32 = (-(n as i64)) as u32;
        let mut r = String::from_str("-");
        proof {
            reveal_strlit("-");
        }
        r.append(u32_to_string(magnitude).as_str());
        r
    }
}

/// Strict lexicographic order on character sequences, by code point;
/// a proper prefix comes first.
pub open spec fn lex_lt(a: Seq<char>, b: Seq<char>) -> bool
    decreases a.len(),
{
    if b.len() == 0 {
        false
    } else if a.len() == 0 {
        true
    } else if a[0] != b[0] {
        (a[0] as int) < (b[0] as int)
    } else {
        lex_lt(a.skip(1), b.skip(1))
    }
}

/// `lex_lt` is decided at the first differing position.
pub proof fn lemma_lex_lt_at(a: Seq<char>, b: Seq<char>, k: int)
    requires
        0 <= k <= a.len(),
        k <= b.len(),
        forall|j: int| 0 <= j < k ==> a[j] == b[j],
    ensures
        k < a.len() && k < b.len() && a[k] != b[k] ==> lex_lt(a, b) == ((a[k] as int) < (
        b[k] as int)),
        k == a.len() ==> lex_lt(a, b) == (a.len() < b.len()),
        k == b.len() && k < a.len() ==> !lex_lt(a, b),
    decreases k,
{
    if k == 0 {
    } else {
        assert(a[0] == b[0]);
        assert(forall|j: int| 0 <= j < k - 1 ==> a.skip(1)[j] == b.skip(1)[j]);
        lemma_lex_lt_at(a.skip(1), b.skip(1), k - 1);
        if k < a.len() && k < b.len() {
            assert(a.skip(1)[k - 1] == a[k]);
            assert(b.skip(1)[k - 1] == b[k]);
        }
    }
}

/// Two sequences neither of which precedes the other are equal.
pub proof fn lemma_lex_connected(a: Seq<char>, b: Seq<char>)
    requires
        !lex_lt(a, b),
        !lex_lt(b, a),
    ensures
        a == b,
    decreases a.len(),
{
    if a.len() == 0 {
        assert(b.len() == 0);
        assert(a =~= b);
    } else {
        assert(b.len() > 0);
        if a[0] != b[0] {
            assert((a[0] as int) != (b[0] as int));
        } else {
            lemma_lex_connected(a.skip(1), b.skip(1));
            assert(a.skip(1) == b.skip(1));
            assert(a.skip(1).len() == a.len() - 1);
            assert(b.skip(1).len() == b.len() - 1);
            assert(a.len() == b.len());
            assert forall|j: int| 0 <= j < a.len() implies a[j] == b[j] by {
                if j > 0 {
                    assert(a.skip(1)[j - 1] == b.skip(1)[j - 1]);
                }
            }
            assert(a =~= b);
        }
    }
}

/// The order is transitive.
pub proof fn lemma_lex_trans(a: Seq<char>, b: Seq<char>, c: Seq<char>)
    requires
        lex_lt(a, b),
        lex_lt(b, c),
    ensures
        lex_lt(a, c),
    decreases a.len(),
{
    assert(b.len() > 0 && c.len() > 0);
    if a.len() == 0 {
    } else {
        if a[0] != b[0] {
            if b[0] != c[0] {
                assert((a[0] as int) < (c[0] as int));
            } else {
                assert(a[0] != c[0]);
            }
        } else {
            if b[0] != c[0] {
                assert(a[0] != c[0] && (a[0] as int) < (c[0] as int));
            } else {
                lemma_lex_trans(a.skip(1), b.skip(1), c.skip(1));
            }
        }
    }
}

/// Compares two strings in the lexicographic order.
pub fn str_lt(a: &str, b: &str) -> (r: bool)
    ensures
        r == lex_lt(a@, b@),
{
    let a_len = a.unicode_len();
    let b_len = b.unicode_len();
    let mut i: usize = 0;
    while i < a_len && i < b_len
        invariant
            0 <= i <= a_len,
            i <= b_len,
            a_len == a@.len(),
            b_len == b@.len(),
            forall|j: int| 0 <= j < i ==> a@[j] == b@[j],
        decreases a_len - i,
    {
        let ca = a.get_char(i);
        let cb = b.get_char(i);
        if ca != cb {
            proof {
                lemma_lex_lt_at(a@, b@, i as int);
            }
            return ca < cb;
        }
        i += 1;
    }
    proof {
        lemma_lex_lt_at(a@, b@, i as int);
    }
    a_len < b_len
}

/// Sorts the lines of a text and removes duplicates: the result is
/// strictly ascending and holds exactly the distinct input lines.
pub fn dedupe_and_sort_lines(text: &str) -> (r: Vec<String>)
    ensures
        forall|i: int, j: int|
            0 <= i < j < r.deep_view().len() ==> lex_lt(
                #[trigger] r.deep_view()[i],
                #[trigger] r.deep_view()[j],
            ),
        forall|l: Seq<char>|
            #[trigger] r.deep_view().contains(l) <==> split_sep_spec(text@, '\n').contains(l),
{
    let lines = split_sep(text, '\n');
    let ghost lv = lines.deep_view();
    let mut out: Vec<String> = Vec::new();
    let mut i: usize = 0;
    while i < lines.len()
        invariant
            0 <= i <= lines.len(),
            lv == lines.deep_view(),
            lv.len() == lines.len(),
            forall|m: int, n: int|
                0 <= m < n < out.deep_view().len() ==> lex_lt(
                    #[trigger] out.deep_view()[m],
                    #[trigger] out.deep_view()[n],
                ),
            forall|l: Seq<char>|
                #[trigger] out.deep_view().contains(l) <==> lv.take(i as int).contains(l),
        decreases lines.len() - i,
    {
        proof {
            assert(lines.deep_view()[i as int] == lines@[i as int]@);
        }
        insert_sorted(&mut out, &lines[i]);
        proof {
            let ov = out.deep_view();
            assert forall|l: Seq<char>| #[trigger] ov.contains(l) implies lv.take(
                i as int + 1,
            ).contains(l) by {
                if l == lv[i as int] {
                    assert(lv.take(i as int + 1)[i as int] == lv[i as int]);
                } else {
                    let m = choose|m: int| 0 <= m < lv.take(i as int).len() && lv.take(i as int)[m]
                        == l;
                    assert(lv.take(i as int + 1)[m] == l);
                }
            }
            assert forall|l: Seq<char>| #[trigger] lv.take(i as int + 1).contains(l) implies ov
                .contains(l) by {
                let m = choose|m: int|
                    0 <= m < i + 1 && #[trigger] lv.take(i as int + 1)[m] == l;
                if m < i {
                    assert(lv.take(i as int)[m] == l);
                }
            }
        }
        i += 1;
    }
    proof {
        assert(lv.take(lv.len() as int) =~= lv);
    }
    out
}

/// Inserts a line into a strictly sorted list, keeping it strictly
/// sorted; a line already present is dropped.
fn insert_sorted(out: &mut Vec<String>, line: &String)
    requires
        forall|m: int, n: int|
            0 <= m < n < old(out).deep_view().len() ==> lex_lt(
                #[trigger] old(out).deep_view()[m],
                #[trigger] old(out).deep_view()[n],
            ),
    ensures
        forall|m: int, n: int|
            0 <= m < n < final (out).deep_view().len() ==> lex_lt(
                #[trigger] final (out).deep_view()[m],
                #[trigger] final (out).deep_view()[n],
            ),
        forall|l: Seq<char>|
            #[trigger] final (out).deep_view().contains(l) <==> (old(out).deep_view().contains(l)
                || l == line@),
{
    let ghost ov = out.deep_view();
    let mut p: usize = 0;
    while p < out.len() && str_lt(out[p].as_str(), line.as_str())
        invariant
            0 <= p <= out.len(),
            ov == out.deep_view(),
            ov.len() == out.len(),
            forall|m: int, n: int|
                0 <= m < n < ov.len() ==> lex_lt(#[trigger] ov[m], #[trigger] ov[n]),
            forall|m: int| 0 <= m < p ==> lex_lt(#[trigger] ov[m], line@),
        decreases out.len() - p,
    {
        proof {
            assert(out.deep_view()[p as int] == out@[p as int]@);
        }
        p += 1;
    }
    proof {
        if p < ov.len() {
            assert(out.deep_view()[p as int] == out@[p as int]@);
        }
    }
    if p < out.len() && crate::strutil::str_eq(out[p].as_str(), line.as_str()) {
        proof {
            assert forall|l: Seq<char>| #[trigger] out.deep_view().contains(l) implies (
            ov.contains(l) || l == line@) by {}
            assert(ov[p as int] == line@);
        }
        return;
    }
    let ghost was_lt = p < out.len();
    proof {
        if p < ov.len() {
            assert(!lex_lt(ov[p as int], line@));
            assert(ov[p as int] != line@);
            if !lex_lt(line@, ov[p as int]) {
                lemma_lex_connected(line@, ov[p as int]);
            }
        }
    }
    out.insert(p, line.clone());
    proof {
        let nv = out.deep_view();
        assert(nv.len() == ov.len() + 1);
        assert forall|m: int| 0 <= m < nv.len() implies #[trigger] nv[m] == (if m < p {
            ov[m]
        } else if m == p {
            line@
        } else {
            ov[m - 1]
        }) by {
            if m < p {
                assert(out@[m] == old(out)@[m]);
            } else if m == p {
            } else {
                assert(out@[m] == old(out)@[m - 1]);
            }
        }
        assert forall|m: int, n: int| 0 <= m < n < nv.len() implies lex_lt(
            #[trigger] nv[m],
            #[trigger] nv[n],
        ) by {
            if n < p {
            } else if n == p {
                if m < p {
                    assert(nv[m] == ov[m]);
                    if m < p - 1 {
                        assert(lex_lt(ov[m], ov[p - 1]));
                        lemma_lex_trans(ov[m], ov[p - 1], line@);
                    }
                }
            } else {
                if m == p {
                    assert(nv[n] == ov[n - 1]);
                    if n - 1 > p {
                        assert(lex_lt(line@, ov[p as int]));
                        assert(lex_lt(ov[p as int], ov[n - 1]));
                        lemma_lex_trans(line@, ov[p as int], ov[n - 1]);
                    }
                } else if m < p {
                    assert(nv[m] == ov[m]);
                    assert(nv[n] == ov[n - 1]);
                    if m < p - 1 {
                        assert(lex_lt(ov[m], ov[p - 1]));
                        lemma_lex_trans(ov[m], ov[p - 1], line@);
                    }
                    if n - 1 == p {
                        assert(nv[n] == ov[p as int]);
                        lemma_lex_trans(nv[m], line@, ov[p as int]);
                    } else {
                        assert(lex_lt(ov[p as int], ov[n - 1]));
                        lemma_lex_trans(nv[m], line@, ov[p as int]);
                        lemma_lex_trans(nv[m], ov[p as int], ov[n - 1]);
                    }
                } else {
                    assert(nv[m] == ov[m - 1] && nv[n] == ov[n - 1]);
                }
            }
        }
        assert forall|l: Seq<char>| #[trigger] nv.contains(l) implies (ov.contains(l) || l
            == line@) by {
            let m = choose|m: int| 0 <= m < nv.len() && nv[m] == l;
            if m < p {
                assert(ov[m] == l);
            } else if m > p {
                assert(ov[m - 1] == l);
            }
        }
        assert forall|l: Seq<char>| ov.contains(l) || l == line@ implies #[trigger] nv.contains(
            l,
        ) by {
            if l == line@ {
                assert(nv[p as int] == l);
            } else {
                let m = choose|m: int| 0 <= m < ov.len() && ov[m] == l;
                if m < p {
                    assert(nv[m] == l);
                } else {
                    assert(nv[m + 1] == l);
                }
            }
        }
    }
}

/// Rewrites a text as its distinct lines in ascending order, each
/// newline-terminated, as the manifest deduplication step does.
pub fn deduplicate_lines(text: &str) -> (r: String)
    ensures
        forall|i: int, j: int|
            0 <= i < j < split_sep_spec(r@, '\n').len() ==> lex_lt(
                #[trigger] split_sep_spec(r@, '\n')[i],
                #[trigger] split_sep_spec(r@, '\n')[j],
            ),
        forall|l: Seq<char>|
            #[trigger] split_sep_spec(r@, '\n').contains(l) <==> split_sep_spec(
                text@,
                '\n',
            ).contains(l),
{
    let lines = dedupe_and_sort_lines(text);
    proof {
        lemma_split_sep_elements(text@, '\n');
        assert forall|i: int| 0 <= i < lines.deep_view().len() implies !(#[trigger] lines
            .deep_view()[i]).contains('\n') by {
            assert(lines.deep_view().contains(lines.deep_view()[i]));
            let m = choose|m: int|
                0 <= m < split_sep_spec(text@, '\n').len() && #[trigger] split_sep_spec(
                    text@,
                    '\n',
                )[m] == lines.deep_view()[i];
        }
        lemma_split_join(lines.deep_view(), '\n');
        reveal_strlit("\n");
        assert("\n"@ =~= seq!['\n']);
    }
    join_sep(&lines, '\n', "\n")
}

/// Decimal digit characters.
pub open spec fn is_digit(c: char) -> bool {
    '0' <= c && c <= '9'
}

/// The numeric value of a digit character.
pub open spec fn digit_val(c: char) -> int {
    c as int - '0' as int
}

/// Executable digit test.
pub fn is_digit_char(c: char) -> (r: bool)
    ensures
        r == is_digit(c),
{
    '0' <= c && c <= '9'
}

pub open spec fn all_digits(s: Seq<char>) -> bool {
    forall|i: int| 0 <= i < s.len() ==> is_digit(#[trigger] s[i])
}

/// The integer denoted by a sequence of digit characters.
pub open spec fn digits_val(s: Seq<char>) -> int
    decreases s.len(),
{
    if s.len() == 0 {
        0
    } else {
        digits_val(s.drop_last()) * 10 + digit_val(s.last())
    }
}

/// The value a non-empty, all-digit sequence denotes, when it fits in `u32`.
pub open spec fn parse_u32_spec(s: Seq<char>) -> Option<u32> {
    if s.len() > 0 && all_digits(s) && digits_val(s) <= u32::MAX {
        Some(digits_val(s) as u32)
    } else {
        None
    }
}

/// The value an optionally `-`-signed digit sequence denotes, when it fits
/// in `i32`.
pub open spec fn parse_i32_spec(s: Seq<char>) -> Option<i32> {
    if s.len() >= 2 && s[0] == '-' {
        let rest = s.skip(1);
        if all_digits(rest) && digits_val(rest) <= 0x8000_0000 {
            Some((-digits_val(rest)) as i32)
        } else {
            None
        }
    } else if s.len() > 0 && all_digits(s) && digits_val(s) <= 0x7fff_ffff {
        Some(digits_val(s) as i32)
    } else {
        None
    }
}

pub proof fn lemma_digits_val_nonneg(s: Seq<char>)
    requires
        all_digits(s),
    ensures
        digits_val(s) >= 0,
    decreases s.len(),
{
    if s.len() > 0 {
        assert(all_digits(s.drop_last())) by {
            assert(forall|i: int| 0 <= i < s.len() - 1 ==> s.drop_last()[i] == s[i]);
        }
        lemma_digits_val_nonneg(s.drop_last());
    }
}

/// The value of a digit prefix never exceeds the value of the whole.
pub proof fn lemma_digits_prefix_le(s: Seq<char>, i: int)
    requires
        all_digits(s),
        0 <= i <= s.len(),
    ensures
        digits_val(s.take(i)) <= digits_val(s),
    decreases s.len() - i,
{
    if i < s.len() {
        lemma_digits_prefix_le(s, i + 1);
        let t = s.take(i + 1);
        assert(t.drop_last() =~= s.take(i));
        assert(all_digits(s.take(i))) by {
            assert(forall|j: int| 0 <= j < i ==> s.take(i)[j] == s[j]);
        }
        lemma_digits_val_nonneg(s.take(i));
        assert(digits_val(t) == digits_val(s.take(i)) * 10 + digit_val(t.last()));
    } else {
        assert(s.take(i) =~= s);
    }
}

/// Parses a decimal `u32`.
pub fn parse_u32(s: &str) -> (r: Option<u32>)
    ensures
        r == parse_u32_spec(s@),
{
    let len = s.unicode_len();
    if len == 0 {
        return None;
    }
    let mut acc: u64 = 0;
    let mut i: usize = 0;
    while i < len
        invariant
            0 <= i <= len,
            len == s@.len(),
            all_digits(s@.take(i as int)),
            acc == digits_val(s@.take(i as int)),
            acc <= u32::MAX,
        decreases len - i,
    {
        let c = s.get_char(i);
        if !('0' <= c && c <= '9') {
            assert(!all_digits(s@));
            return None;
        }
        let d: u64 = (c as u64) - ('0' as u64);
        acc = acc * 10 + d;
        proof {
            let t = s@.take(i as int + 1);
            assert(t.drop_last() =~= s@.take(i as int));
            assert(t.last() == s@[i as int]);
        }
        i += 1;
        if acc > 0xffff_ffff {
            proof {
                assert(s@.take(len as int) =~= s@);
                if all_digits(s@) {
                    lemma_digits_prefix_le(s@, i as int);
                }
            }
            return None;
        }
    }
    proof {
        assert(s@.take(len as int) =~= s@);
    }
    Some(acc as u32)
}

/// Parses a decimal `i32`, with an optional leading minus sign.
pub fn parse_i32(s: &str) -> (r: Option<i32>)
    ensures
        r == parse_i32_spec(s@),
{
    let len = s.unicode_len();
    if len >= 2 && s.get_char(0) == '-' {
        let rest = s.substring_char(1, len);
        proof {
            assert(rest@ =~= s@.skip(1));
            if all_digits(rest@) {
                lemma_digits_val_nonneg(rest@);
            }
        }
        match parse_u32(rest) {
            Some(v) => {
                proof {
                    assert(all_digits(rest@));
                    assert(0 <= digits_val(rest@) <= u32::MAX);
                    assert(v == digits_val(rest@) as u32);
                    assert(v as int == digits_val(rest@));
                }
                if v <= 0x8000_0000 {
                    Some((-(v as i64)) as i32)
                } else {
                    None
                }
            },
            None => None,
        }
    } else {
        proof {
            if all_digits(s@) {
                lemma_digits_val_nonneg(s@);
            }
        }
        match parse_u32(s) {
            Some(v) => {
                if v <= 0x7fff_ffff {
                    Some(v as i32)
                } else {
                    None
                }
            },
            None => None,
        }
    }
}

pub proof fn lemma_dec_digits_wf(n: int)
    requires
        n >= 0,
    ensures
        dec_digits(n).len() >= 1,
        all_digits(dec_digits(n)),
    decreases n,
{
    if n >= 10 {
        lemma_dec_digits_wf(n / 10);
        let s = dec_digits(n);
        assert(s == dec_digits(n / 10) + seq![digit_char(n % 10)]);
        assert(is_digit(digit_char(n % 10)));
        assert forall|i: int| 0 <= i < s.len() implies is_digit(#[trigger] s[i]) by {
            if i < dec_digits(n / 10).len() {
                assert(s[i] == dec_digits(n / 10)[i]);
            }
        }
    }
}

/// Printing then reading back a non-negative integer is the identity.
pub proof fn lemma_digits_val_dec(n: int)
    requires
        n >= 0,
    ensures
        digits_val(dec_digits(n)) == n,
    decreases n,
{
    if n < 10 {
        let s = dec_digits(n);
        assert(s =~= seq![digit_char(n)]);
        assert(s.len() == 1);
        assert(s.drop_last() =~= Seq::<char>::empty());
        assert(s.last() == digit_char(n));
        assert(digits_val(Seq::<char>::empty()) == 0);
        assert(digits_val(s) == digits_val(s.drop_last()) * 10 + digit_val(s.last()));
        assert(digit_val(digit_char(n)) == n);
    } else {
        lemma_digits_val_dec(n / 10);
        let s = dec_digits(n);
        assert(s.drop_last() =~= dec_digits(n / 10));
        assert(s.last() == digit_char(n % 10));
        assert(digit_val(digit_char(n % 10)) == n % 10);
    }
}

/// Printing then parsing an `i32` is the identity.
pub proof fn lemma_parse_i32_round(n: i32)
    ensures
        parse_i32_spec(dec_int(n as int)) == Some(n),
{
    if n >= 0 {
        let s = dec_digits(n as int);
        lemma_dec_digits_wf(n as int);
        lemma_digits_val_dec(n as int);
        assert(is_digit(s[0]));
        assert(s[0] != '-');
    } else {
        let m = -(n as int);
        let s = dec_int(n as int);
        lemma_dec_digits_wf(m);
        lemma_digits_val_dec(m);
        assert(s[0] == '-');
        assert(s.skip(1) =~= dec_digits(m));
    }
}

} // verus!

//! Character classes, line splitting, trimming and decimal numbers over
//! sequences of chars, with the meaning that the standard library gives them.
use vstd::prelude::*;

verus! {

// ---------------------------------------------------------------------------
// Character classes
// ---------------------------------------------------------------------------

/// `char::is_whitespace`: the Unicode White_Space property.
pub open spec fn is_ws(c: char) -> bool {
    let u = c as u32;
    (9 <= u <= 13) || u == 32 || u == 0x85 || u == 0xA0 || u == 0x1680 || (0x2000 <= u <= 0x200A)
        || u == 0x2028 || u == 0x2029 || u == 0x202F || u == 0x205F || u == 0x3000
}

/// `char::is_control`: general category Cc.
pub open spec fn is_ctrl(c: char) -> bool {
    let u = c as u32;
    u <= 0x1F || (0x7F <= u <= 0x9F)
}

pub open spec fn is_digit(c: char) -> bool {
    '0' <= c <= '9'
}

/// `char::is_ascii_alphanumeric`.
pub open spec fn is_alnum(c: char) -> bool {
    ('0' <= c <= '9') || ('a' <= c <= 'z') || ('A' <= c <= 'Z')
}

/// `char::to_ascii_lowercase`.
pub open spec fn lower(c: char) -> char {
    if 'A' <= c <= 'Z' {
        ((c as u32) + 32) as char
    } else {
        c
    }
}

pub fn ws(c: char) -> (r: bool)
    ensures
        r == is_ws(c),
{
    let u = c as u32;
    (9 <= u && u <= 13) || u == 32 || u == 0x85 || u == 0xA0 || u == 0x1680 || (0x2000 <= u && u
        <= 0x200A) || u == 0x2028 || u == 0x2029 || u == 0x202F || u == 0x205F || u == 0x3000
}

pub fn ctrl(c: char) -> (r: bool)
    ensures
        r == is_ctrl(c),
{
    let u = c as u32;
    u <= 0x1F || (0x7F <= u && u <= 0x9F)
}

pub fn alnum(c: char) -> (r: bool)
    ensures
        r == is_alnum(c),
{
    ('0' <= c && c <= '9') || ('a' <= c && c <= 'z') || ('A' <= c && c <= 'Z')
}

pub fn to_lower(c: char) -> (r: char)
    ensures
        r == lower(c),
{
    if 'A' <= c && c <= 'Z' {
        let b: u8 = ((c as u32) + 32) as u8;
        b as char
    } else {
        c
    }
}


// ---------------------------------------------------------------------------
// Conversions between strings and char vectors
// ---------------------------------------------------------------------------

/// The chars of a string, in order.
pub fn chars_of(s: &str) -> (v: Vec<char>)
    ensures
        v@ == s@,
{
    let mut v: Vec<char> = Vec::new();
    for c in it: s.chars()
        invariant
            v@ == it.seq().take(it.index() as int),
    {
        v.push(c);
    }
    v
}

/// An owned copy of a string.
pub fn owned(s: &str) -> (r: String)
    ensures
        r@ == s@,
{
    s.to_owned()
}

/// `String::push`.
#[verifier::external_body]
pub(crate) fn push_char(s: &mut String, c: char)
    ensures
        final(s)@ == old(s)@.push(c),
{
    s.push(c);
}

/// Appends the chars `v[lo..hi]` to `out`.
pub fn push_span(out: &mut String, v: &Vec<char>, lo: usize, hi: usize)
    requires
        lo <= hi <= v@.len(),
    ensures
        final(out)@ == old(out)@ + v@.subrange(lo as int, hi as int),
{
    let mut i = lo;
    while i < hi
        invariant
            lo <= i <= hi <= v@.len(),
            out@ == old(out)@ + v@.subrange(lo as int, i as int),
        decreases hi - i,
    {
        push_char(out, v[i]);
        assert(v@.subrange(lo as int, i + 1) == v@.subrange(lo as int, i as int).push(v@[i as int]));
        i = i + 1;
    }
}

/// Appends all chars of `v` to `out`.
pub(crate) fn push_chars(out: &mut String, v: &Vec<char>)
    ensures
        final(out)@ == old(out)@ + v@,
{
    push_span(out, v, 0, v.len());
    assert(v@.subrange(0, v@.len() as int) == v@);
}

/// Appends a string to `out`.
pub fn push_str(out: &mut String, s: &str)
    ensures
        final(out)@ == old(out)@ + s@,
{
    let v = chars_of(s);
    push_chars(out, &v);
}

/// A string holding `v[lo..hi]`.
pub fn string_of_span(v: &Vec<char>, lo: usize, hi: usize) -> (s: String)
    requires
        lo <= hi <= v@.len(),
    ensures
        s@ == v@.subrange(lo as int, hi as int),
{
    let mut s = String::new();
    push_span(&mut s, v, lo, hi);
    s
}

/// Equality of two strings by their chars.
pub fn str_eq(a: &str, b: &str) -> (r: bool)
    ensures
        r == (a@ == b@),
{
    let x = chars_of(a);
    let y = chars_of(b);
    assert(x@.subrange(0, x@.len() as int) == x@);
    span_eq(&x, 0, x.len(), &y)
}

// ---------------------------------------------------------------------------
// Trimming
// ---------------------------------------------------------------------------

pub open spec fn trim_start(s: Seq<char>) -> Seq<char>
    decreases s.len(),
{
    if s.len() > 0 && is_ws(s[0]) {
        trim_start(s.drop_first())
    } else {
        s
    }
}

pub open spec fn trim_end(s: Seq<char>) -> Seq<char>
    decreases s.len(),
{
    if s.len() > 0 && is_ws(s.last()) {
        trim_end(s.drop_last())
    } else {
        s
    }
}

/// `str::trim`.
pub open spec fn trim(s: Seq<char>) -> Seq<char> {
    trim_end(trim_start(s))
}

pub proof fn lemma_trim_start_at(s: Seq<char>, k: int)
    requires
        0 <= k <= s.len(),
        forall|j: int| 0 <= j < k ==> is_ws(#[trigger] s[j]),
        k == s.len() || !is_ws(s[k]),
    ensures
        trim_start(s) == s.subrange(k, s.len() as int),
    decreases k,
{
    if k == 0 {
        assert(s.subrange(0, s.len() as int) == s);
    } else {
        let t = s.drop_first();
        assert forall|j: int| 0 <= j < k - 1 implies is_ws(#[trigger] t[j]) by {
            assert(t[j] == s[j + 1]);
        }
        if k - 1 < t.len() {
            assert(t[k - 1] == s[k]);
        }
        lemma_trim_start_at(t, k - 1);
        assert(t.subrange(k - 1, t.len() as int) == s.subrange(k, s.len() as int));
    }
}

proof fn lemma_trim_end_at(s: Seq<char>, k: int)
    requires
        0 <= k <= s.len(),
        forall|j: int| k <= j < s.len() ==> is_ws(#[trigger] s[j]),
        k == 0 || !is_ws(s[k - 1]),
    ensures
        trim_end(s) == s.subrange(0, k),
    decreases s.len() - k,
{
    if k == s.len() {
        assert(s.subrange(0, s.len() as int) == s);
    } else {
        let t = s.drop_last();
        assert forall|j: int| k <= j < t.len() implies is_ws(#[trigger] t[j]) by {
            assert(t[j] == s[j]);
        }
        if k > 0 {
            assert(t[k - 1] == s[k - 1]);
        }
        lemma_trim_end_at(t, k);
        assert(t.subrange(0, k) == s.subrange(0, k));
    }
}

/// Start of `trim_start(v[lo..hi])` inside `v`.
pub fn trim_start_idx(v: &Vec<char>, lo: usize, hi: usize) -> (a: usize)
    requires
        lo <= hi <= v@.len(),
    ensures
        lo <= a <= hi,
        v@.subrange(a as int, hi as int) == trim_start(v@.subrange(lo as int, hi as int)),
{
    let ghost s = v@.subrange(lo as int, hi as int);
    let mut a = lo;
    while a < hi && ws(v[a])
        invariant
            lo <= a <= hi <= v@.len(),
            forall|j: int| lo <= j < a ==> is_ws(#[trigger] v@[j]),
        decreases hi - a,
    {
        a = a + 1;
    }
    proof {
        assert forall|j: int| 0 <= j < a - lo implies is_ws(#[trigger] s[j]) by {
            assert(s[j] == v@[lo + j]);
        }
        if a < hi {
            assert(s[a - lo] == v@[a as int]);
        }
        lemma_trim_start_at(s, a - lo);
        assert(s.subrange(a - lo, s.len() as int) == v@.subrange(a as int, hi as int));
    }
    a
}

/// Bounds of `trim(v[lo..hi])` inside `v`.
pub fn trim_span(v: &Vec<char>, lo: usize, hi: usize) -> (r: (usize, usize))
    requires
        lo <= hi <= v@.len(),
    ensures
        lo <= r.0 <= r.1 <= hi,
        v@.subrange(r.0 as int, r.1 as int) == trim(v@.subrange(lo as int, hi as int)),
{
    let ghost s = v@.subrange(lo as int, hi as int);
    let mut a = lo;
    while a < hi && ws(v[a])
        invariant
            lo <= a <= hi <= v@.len(),
            s == v@.subrange(lo as int, hi as int),
            forall|j: int| lo <= j < a ==> is_ws(#[trigger] v@[j]),
        decreases hi - a,
    {
        a = a + 1;
    }
    proof {
        assert forall|j: int| 0 <= j < a - lo implies is_ws(#[trigger] s[j]) by {
            assert(s[j] == v@[lo + j]);
        }
        if a < hi {
            assert(s[a - lo] == v@[a as int]);
        }
        lemma_trim_start_at(s, a - lo);
    }
    let ghost t = v@.subrange(a as int, hi as int);
    assert(t == s.subrange(a - lo, s.len() as int));
    let mut b = hi;
    while b > a && ws(v[b - 1])
        invariant
            lo <= a <= b <= hi <= v@.len(),
            forall|j: int| b <= j < hi ==> is_ws(#[trigger] v@[j]),
        decreases b - a,
    {
        b = b - 1;
    }
    proof {
        assert forall|j: int| b - a <= j < t.len() implies is_ws(#[trigger] t[j]) by {
            assert(t[j] == v@[a + j]);
        }
        if b > a {
            assert(t[b - a - 1] == v@[b - 1]);
        }
        lemma_trim_end_at(t, b - a);
        assert(t.subrange(0, b - a) == v@.subrange(a as int, b as int));
    }
    (a, b)
}

// ---------------------------------------------------------------------------
// Comparisons on spans
// ---------------------------------------------------------------------------

/// `v[lo..hi] == p`.
pub fn span_eq(v: &Vec<char>, lo: usize, hi: usize, p: &Vec<char>) -> (r: bool)
    requires
        lo <= hi <= v@.len(),
    ensures
        r == (v@.subrange(lo as int, hi as int) == p@),
{
    if hi - lo != p.len() {
        return false;
    }
    let mut i: usize = 0;
    while i < p.len()
        invariant
            lo <= hi <= v@.len(),
            hi - lo == p@.len(),
            i <= p@.len(),
            forall|j: int| 0 <= j < i ==> v@[lo + j] == p@[j],
        decreases p@.len() - i,
    {
        if v[lo + i] != p[i] {
            assert(v@.subrange(lo as int, hi as int)[i as int] != p@[i as int]);
            return false;
        }
        i = i + 1;
    }
    assert(v@.subrange(lo as int, hi as int) =~= p@);
    true
}

/// `p` is a prefix of `s`.
pub open spec fn starts_with(s: Seq<char>, p: Seq<char>) -> bool {
    p.len() <= s.len() && s.subrange(0, p.len() as int) == p
}

/// `v[lo..hi].starts_with(p)`.
pub fn span_starts_with(v: &Vec<char>, lo: usize, hi: usize, p: &Vec<char>) -> (r: bool)
    requires
        lo <= hi <= v@.len(),
    ensures
        r == starts_with(v@.subrange(lo as int, hi as int), p@),
{
    if hi - lo < p.len() {
        return false;
    }
    let r = span_eq(v, lo, lo + p.len(), p);
    assert(v@.subrange(lo as int, hi as int).subrange(0, p@.len() as int) == v@.subrange(
        lo as int,
        lo + p@.len(),
    ));
    r
}

/// Index of the first `c` in `s` at or after `from`.
pub open spec fn find_from(s: Seq<char>, c: char, from: int) -> Option<int>
    decreases s.len() - from,
{
    if from < 0 || from >= s.len() {
        None
    } else if s[from] == c {
        Some(from)
    } else {
        find_from(s, c, from + 1)
    }
}

/// Index of the first `c` in `s`.
pub open spec fn find(s: Seq<char>, c: char) -> Option<int> {
    find_from(s, c, 0)
}

proof fn lemma_find_from_none(s: Seq<char>, c: char, from: int)
    requires
        0 <= from,
        forall|j: int| from <= j < s.len() ==> s[j] != c,
    ensures
        find_from(s, c, from) is None,
    decreases s.len() - from,
{
    if from < s.len() {
        lemma_find_from_none(s, c, from + 1);
    }
}

proof fn lemma_find_from_some(s: Seq<char>, c: char, from: int, k: int)
    requires
        0 <= from <= k < s.len(),
        s[k] == c,
        forall|j: int| from <= j < k ==> s[j] != c,
    ensures
        find_from(s, c, from) == Some(k),
    decreases k - from,
{
    if from < k {
        lemma_find_from_some(s, c, from + 1, k);
    }
}

/// Position (inside `v`) of the first `c` in `v[lo..hi]`.
pub fn span_find(v: &Vec<char>, lo: usize, hi: usize, c: char) -> (r: Option<usize>)
    requires
        lo <= hi <= v@.len(),
    ensures
        match r {
            Some(k) => lo <= k < hi && find(v@.subrange(lo as int, hi as int), c) == Some(k - lo),
            None => find(v@.subrange(lo as int, hi as int), c) is None,
        },
{
    let ghost s = v@.subrange(lo as int, hi as int);
    let mut i = lo;
    while i < hi
        invariant
            lo <= i <= hi <= v@.len(),
            s == v@.subrange(lo as int, hi as int),
            forall|j: int| lo <= j < i ==> v@[j] != c,
        decreases hi - i,
    {
        if v[i] == c {
            proof {
                assert forall|j: int| 0 <= j < i - lo implies s[j] != c by {
                    assert(s[j] == v@[lo + j]);
                }
                lemma_find_from_some(s, c, 0, i - lo);
            }
            return Some(i);
        }
        i = i + 1;
    }
    proof {
        assert forall|j: int| 0 <= j < s.len() implies s[j] != c by {
            assert(s[j] == v@[lo + j]);
        }
        lemma_find_from_none(s, c, 0);
    }
    None
}

/// Index of the first occurrence of `pat` in `s` at or after `from`.
pub open spec fn find_sub_from(s: Seq<char>, pat: Seq<char>, from: int) -> Option<int>
    decreases s.len() - from,
{
    if from < 0 || from >= s.len() || from + pat.len() > s.len() {
        None
    } else if s.subrange(from, from + pat.len()) == pat {
        Some(from)
    } else {
        find_sub_from(s, pat, from + 1)
    }
}

/// Index of the first occurrence of `pat` in `s`.
pub open spec fn find_sub(s: Seq<char>, pat: Seq<char>) -> Option<int> {
    find_sub_from(s, pat, 0)
}

proof fn lemma_find_sub_from_skip(s: Seq<char>, pat: Seq<char>, from: int, k: int)
    requires
        0 <= from <= k,
        forall|j: int|
            from <= j < k ==> #[trigger] s.subrange(j, j + pat.len()) != pat || j + pat.len() > s.len(),
    ensures
        find_sub_from(s, pat, from) == find_sub_from(s, pat, k),
    decreases k - from,
{
    if from < k {
        lemma_find_sub_from_skip(s, pat, from + 1, k);
    }
}

/// Position (inside `v`) of the first occurrence of `pat` in `v[lo..hi]`.
pub fn span_find_sub(v: &Vec<char>, lo: usize, hi: usize, pat: &Vec<char>) -> (r: Option<usize>)
    requires
        lo <= hi <= v@.len(),
    ensures
        match r {
            Some(k) => lo <= k && k + pat@.len() <= hi && find_sub(v@.subrange(lo as int, hi as int), pat@)
                == Some(k - lo),
            None => find_sub(v@.subrange(lo as int, hi as int), pat@) is None,
        },
{
    let ghost s = v@.subrange(lo as int, hi as int);
    if pat.len() > hi - lo {
        return None;
    }
    if pat.len() == 0 {
        if hi > lo {
            assert(s.subrange(0, 0) == pat@);
            return Some(lo);
        } else {
            return None;
        }
    }
    let mut i = lo;
    while i <= hi - pat.len()
        invariant
            lo <= i,
            pat@.len() > 0,
            pat@.len() <= hi - lo,
            hi <= v@.len(),
            s == v@.subrange(lo as int, hi as int),
            find_sub_from(s, pat@, 0) == find_sub_from(s, pat@, i - lo),
        decreases hi - i,
    {
        assert(s.subrange(i - lo, i - lo + pat@.len()) == v@.subrange(i as int, i + pat@.len()));
        if span_eq(v, i, i + pat.len(), pat) {
            return Some(i);
        }
        proof {
            lemma_find_sub_from_skip(s, pat@, i - lo, i - lo + 1);
        }
        i = i + 1;
    }
    None
}

/// `str::to_ascii_lowercase`.
pub open spec fn lower_seq(s: Seq<char>) -> Seq<char> {
    s.map_values(|c: char| lower(c))
}

/// `s.ends_with(suffix)`.
pub open spec fn ends_with(s: Seq<char>, suffix: Seq<char>) -> bool {
    suffix.len() <= s.len() && s.subrange(s.len() - suffix.len(), s.len() as int) == suffix
}

/// Whether the lower-cased `s` ends with `suffix`.
pub fn lower_ends_with(s: &str, suffix: &str) -> (r: bool)
    ensures
        r == ends_with(lower_seq(s@), suffix@),
{
    let v = chars_of(s);
    let x = chars_of(suffix);
    if x.len() > v.len() {
        return false;
    }
    let off = v.len() - x.len();
    let mut i: usize = 0;
    while i < x.len()
        invariant
            i <= x@.len(),
            off + x@.len() == v@.len(),
            x@.len() == x.len(),
            v@.len() == v.len(),
            v@ == s@,
            x@ == suffix@,
            forall|j: int| 0 <= j < i ==> lower(v@[off + j]) == x@[j],
        decreases x@.len() - i,
    {
        if to_lower(v[off + i]) != x[i] {
            assert(lower_seq(s@).subrange(off as int, v@.len() as int)[i as int] != x@[i as int]);
            return false;
        }
        i = i + 1;
    }
    assert(lower_seq(s@).subrange(off as int, v@.len() as int) =~= suffix@);
    true
}

/// Whether `c` occurs in `s`.
pub fn contains_char(s: &str, c: char) -> (r: bool)
    ensures
        r == s@.contains(c),
{
    let v = chars_of(s);
    let mut i: usize = 0;
    while i < v.len()
        invariant
            i <= v@.len(),
            v@ == s@,
            forall|j: int| 0 <= j < i ==> v@[j] != c,
        decreases v@.len() - i,
    {
        if v[i] == c {
            assert(s@[i as int] == c);
            return true;
        }
        i = i + 1;
    }
    false
}

// ---------------------------------------------------------------------------
// Order of strings
// ---------------------------------------------------------------------------

/// `a < b` for strings: lexicographic by char (code point), a proper prefix first.
pub open spec fn seq_less(a: Seq<char>, b: Seq<char>) -> bool
    decreases a.len(),
{
    if a.len() == 0 {
        b.len() > 0
    } else if b.len() == 0 {
        false
    } else if a[0] != b[0] {
        a[0] < b[0]
    } else {
        seq_less(a.drop_first(), b.drop_first())
    }
}

pub proof fn lemma_seq_less_irreflexive(a: Seq<char>)
    ensures
        !seq_less(a, a),
    decreases a.len(),
{
    if a.len() > 0 {
        lemma_seq_less_irreflexive(a.drop_first());
    }
}

pub proof fn lemma_seq_less_total(a: Seq<char>, b: Seq<char>)
    ensures
        a == b || seq_less(a, b) || seq_less(b, a),
    decreases a.len(),
{
    if a.len() > 0 && b.len() > 0 && a[0] == b[0] {
        lemma_seq_less_total(a.drop_first(), b.drop_first());
        if a.drop_first() == b.drop_first() {
            assert(a =~= seq![a[0]] + a.drop_first());
            assert(b =~= seq![b[0]] + b.drop_first());
        }
    } else if a.len() == 0 && b.len() == 0 {
        assert(a =~= b);
    }
}

pub proof fn lemma_seq_less_asymmetric(a: Seq<char>, b: Seq<char>)
    ensures
        !(seq_less(a, b) && seq_less(b, a)),
    decreases a.len(),
{
    if a.len() > 0 && b.len() > 0 && a[0] == b[0] {
        lemma_seq_less_asymmetric(a.drop_first(), b.drop_first());
    }
}

pub proof fn lemma_seq_less_transitive(a: Seq<char>, b: Seq<char>, c: Seq<char>)
    requires
        seq_less(a, b),
        seq_less(b, c),
    ensures
        seq_less(a, c),
    decreases a.len(),
{
    if a.len() > 0 && b.len() > 0 && c.len() > 0 && a[0] == b[0] && b[0] == c[0] {
        lemma_seq_less_transitive(a.drop_first(), b.drop_first(), c.drop_first());
    }
}

proof fn lemma_seq_less_skip(a: Seq<char>, b: Seq<char>, i: int)
    requires
        0 <= i <= a.len(),
        i <= b.len(),
        a.subrange(0, i) == b.subrange(0, i),
    ensures
        seq_less(a, b) == seq_less(a.subrange(i, a.len() as int), b.subrange(i, b.len() as int)),
    decreases i,
{
    if i > 0 {
        assert(a[0] == a.subrange(0, i)[0]);
        assert(b[0] == b.subrange(0, i)[0]);
        let a1 = a.drop_first();
        let b1 = b.drop_first();
        assert(a1.subrange(0, i - 1) =~= a.subrange(1, i));
        assert(b1.subrange(0, i - 1) =~= b.subrange(1, i));
        assert(a.subrange(1, i) =~= a.subrange(0, i).subrange(1, i));
        assert(b.subrange(1, i) =~= b.subrange(0, i).subrange(1, i));
        lemma_seq_less_skip(a1, b1, i - 1);
        assert(a1.subrange(i - 1, a1.len() as int) =~= a.subrange(i, a.len() as int));
        assert(b1.subrange(i - 1, b1.len() as int) =~= b.subrange(i, b.len() as int));
    } else {
        assert(a.subrange(0, a.len() as int) =~= a);
        assert(b.subrange(0, b.len() as int) =~= b);
    }
}

/// `a < b` for strings.
pub fn str_less(a: &str, b: &str) -> (r: bool)
    ensures
        r == seq_less(a@, b@),
{
    let x = chars_of(a);
    let y = chars_of(b);
    let mut i: usize = 0;
    while i < x.len() && i < y.len() && x[i] == y[i]
        invariant
            i <= x@.len(),
            i <= y@.len(),
            x@ == a@,
            y@ == b@,
            x@.subrange(0, i as int) == y@.subrange(0, i as int),
        decreases x@.len() - i,
    {
        assert(x@.subrange(0, i + 1) =~= x@.subrange(0, i as int).push(x@[i as int]));
        assert(y@.subrange(0, i + 1) =~= y@.subrange(0, i as int).push(y@[i as int]));
        i = i + 1;
    }
    proof {
        lemma_seq_less_skip(x@, y@, i as int);
    }
    let ghost xs = x@.subrange(i as int, x@.len() as int);
    if i == x.len() {
        assert(xs.len() == 0);
        i < y.len()
    } else if i == y.len() {
        false
    } else {
        assert(xs[0] == x@[i as int]);
        assert(y@.subrange(i as int, y@.len() as int)[0] == y@[i as int]);
        x[i] < y[i]
    }
}

// ---------------------------------------------------------------------------
// Lines
// ---------------------------------------------------------------------------

/// Lines of `s` after a line that began at `start`, scanning from `i`.
pub open spec fn lines_from(s: Seq<char>, start: int, i: int) -> Seq<Seq<char>>
    decreases s.len() - i,
{
    if i < 0 || start < 0 || start > i {
        seq![]
    } else if i >= s.len() {
        if start < s.len() {
            seq![s.subrange(start, s.len() as int)]
        } else {
            seq![]
        }
    } else if s[i] == '\n' {
        seq![strip_cr(s.subrange(start, i))] + lines_from(s, i + 1, i + 1)
    } else {
        lines_from(s, start, i + 1)
    }
}

/// Drops one trailing carriage return.
pub open spec fn strip_cr(l: Seq<char>) -> Seq<char> {
    if l.len() > 0 && l.last() == '\r' {
        l.drop_last()
    } else {
        l
    }
}

/// `str::lines`: split at `\n`, a `\r` before it dropped, no empty last line.
pub open spec fn lines(s: Seq<char>) -> Seq<Seq<char>> {
    lines_from(s, 0, 0)
}

/// The text of each span.
pub open spec fn span_views(s: Seq<char>, spans: Seq<(usize, usize)>) -> Seq<Seq<char>> {
    Seq::new(spans.len(), |k: int| s.subrange(spans[k].0 as int, spans[k].1 as int))
}

pub open spec fn spans_within(s: Seq<char>, spans: Seq<(usize, usize)>) -> bool {
    forall|k: int| 0 <= k < spans.len() ==> (#[trigger] spans[k]).0 <= spans[k].1 <= s.len()
}

/// The trimmed text of each line.
pub open spec fn trimmed_lines(s: Seq<char>) -> Seq<Seq<char>> {
    lines(s).map_values(|l: Seq<char>| trim(l))
}

/// Spans of `lines(v)`.
pub fn line_spans(v: &Vec<char>) -> (r: Vec<(usize, usize)>)
    ensures
        spans_within(v@, r@),
        span_views(v@, r@) == lines(v@),
{
    let mut r: Vec<(usize, usize)> = Vec::new();
    let mut start: usize = 0;
    let mut i: usize = 0;
    let n = v.len();
    while i < n
        invariant
            n == v@.len(),
            start <= i <= n,
            spans_within(v@, r@),
            span_views(v@, r@) + lines_from(v@, start as int, i as int) == lines(v@),
        decreases n - i,
    {
        if v[i] == '\n' {
            let ghost old_r = r@;
            let e = if i > start && v[i - 1] == '\r' {
                i - 1
            } else {
                i
            };
            assert(v@.subrange(start as int, e as int) == strip_cr(v@.subrange(start as int, i as int)));
            r.push((start, e));
            assert(span_views(v@, r@) == span_views(v@, old_r).push(strip_cr(v@.subrange(start as int, i as int))));
            start = i + 1;
        }
        i = i + 1;
    }
    if start < n {
        let ghost old_r = r@;
        r.push((start, n));
        assert(span_views(v@, r@) == span_views(v@, old_r).push(v@.subrange(start as int, n as int)));
    }
    r
}

/// Spans of the trimmed lines of `v`.
pub fn trimmed_line_spans(v: &Vec<char>) -> (r: Vec<(usize, usize)>)
    ensures
        spans_within(v@, r@),
        span_views(v@, r@) == trimmed_lines(v@),
{
    let ls = line_spans(v);
    let mut r: Vec<(usize, usize)> = Vec::new();
    let mut k: usize = 0;
    while k < ls.len()
        invariant
            k <= ls@.len(),
            spans_within(v@, ls@),
            span_views(v@, ls@) == lines(v@),
            spans_within(v@, r@),
            span_views(v@, r@) == trimmed_lines(v@).take(k as int),
        decreases ls@.len() - k,
    {
        let (lo, hi) = ls[k];
        let ghost old_r = r@;
        let t = trim_span(v, lo, hi);
        r.push(t);
        assert(span_views(v@, ls@)[k as int] == v@.subrange(lo as int, hi as int));
        assert(span_views(v@, r@) == span_views(v@, old_r).push(trim(v@.subrange(lo as int, hi as int))));
        assert(trimmed_lines(v@).take(k + 1) == trimmed_lines(v@).take(k as int).push(trimmed_lines(v@)[k as int]));
        k = k + 1;
    }
    assert(trimmed_lines(v@).take(k as int) == trimmed_lines(v@));
    r
}

// ---------------------------------------------------------------------------
// Splitting at a char
// ---------------------------------------------------------------------------

/// Pieces of `s` from a piece that began at `start`, scanning from `i`.
pub open spec fn split_from(s: Seq<char>, c: char, start: int, i: int) -> Seq<Seq<char>>
    decreases s.len() - i,
{
    if i < 0 || start < 0 || start > i {
        seq![]
    } else if i >= s.len() {
        seq![s.subrange(start, s.len() as int)]
    } else if s[i] == c {
        seq![s.subrange(start, i)] + split_from(s, c, i + 1, i + 1)
    } else {
        split_from(s, c, start, i + 1)
    }
}

/// `str::split(c)`: the pieces between separators; one more piece than separators.
pub open spec fn split(s: Seq<char>, c: char) -> Seq<Seq<char>> {
    split_from(s, c, 0, 0)
}

pub proof fn lemma_split_from_nonempty(s: Seq<char>, c: char, start: int, i: int)
    requires
        0 <= start <= i <= s.len(),
    ensures
        split_from(s, c, start, i).len() >= 1,
    decreases s.len() - i,
{
    if i < s.len() {
        lemma_split_from_nonempty(s, c, if s[i] == c { i + 1 } else { start }, i + 1);
    }
}

/// Spans, inside `v`, of `split(v[lo..hi], c)`.
pub fn split_spans(v: &Vec<char>, lo: usize, hi: usize, c: char) -> (r: Vec<(usize, usize)>)
    requires
        lo <= hi <= v@.len(),
    ensures
        spans_within(v@, r@),
        r@.len() >= 1,
        span_views(v@, r@) == split(v@.subrange(lo as int, hi as int), c),
{
    let ghost s = v@.subrange(lo as int, hi as int);
    let mut r: Vec<(usize, usize)> = Vec::new();
    let mut start = lo;
    let mut i = lo;
    while i < hi
        invariant
            lo <= start <= i <= hi <= v@.len(),
            s == v@.subrange(lo as int, hi as int),
            spans_within(v@, r@),
            span_views(v@, r@) + split_from(s, c, start - lo, i - lo) == split(s, c),
        decreases hi - i,
    {
        if v[i] == c {
            let ghost old_r = r@;
            assert(s[i - lo] == c);
            assert(s.subrange(start - lo, i - lo) == v@.subrange(start as int, i as int));
            r.push((start, i));
            assert(span_views(v@, r@) == span_views(v@, old_r).push(v@.subrange(start as int, i as int)));
            start = i + 1;
        } else {
            assert(s[i - lo] != c);
        }
        i = i + 1;
    }
    let ghost old_r = r@;
    assert(s.subrange(start - lo, s.len() as int) == v@.subrange(start as int, hi as int));
    r.push((start, hi));
    assert(span_views(v@, r@) == span_views(v@, old_r).push(v@.subrange(start as int, hi as int)));
    r
}

// ---------------------------------------------------------------------------
// Decimal numbers
// ---------------------------------------------------------------------------

pub open spec fn digit_value(c: char) -> nat {
    ((c as u32) - ('0' as u32)) as nat
}

pub open spec fn all_digits(s: Seq<char>) -> bool {
    forall|i: int| 0 <= i < s.len() ==> is_digit(#[trigger] s[i])
}

pub open spec fn digits_value(s: Seq<char>) -> nat
    decreases s.len(),
{
    if s.len() == 0 {
        0
    } else {
        digits_value(s.drop_last()) * 10 + digit_value(s.last())
    }
}

/// The digits that an unsigned integer's `from_str` reads: one leading `+` is allowed.
pub open spec fn unsigned_digits(s: Seq<char>) -> Seq<char> {
    if s.len() > 0 && s[0] == '+' {
        s.drop_first()
    } else {
        s
    }
}

/// `str::parse` for an unsigned integer type whose largest value is `max`.
pub open spec fn parse_uint(s: Seq<char>, max: nat) -> Option<nat> {
    let d = unsigned_digits(s);
    if d.len() > 0 && all_digits(d) && digits_value(d) <= max {
        Some(digits_value(d))
    } else {
        None
    }
}

proof fn lemma_digits_value_grows(s: Seq<char>, k: int)
    requires
        0 <= k <= s.len(),
    ensures
        digits_value(s.subrange(0, k)) <= digits_value(s),
    decreases s.len() - k,
{
    if k < s.len() {
        lemma_digits_value_grows(s, k + 1);
        assert(s.subrange(0, k + 1).drop_last() == s.subrange(0, k));
    } else {
        assert(s.subrange(0, k) == s);
    }
}

/// Parses `v[lo..hi]` as an unsigned integer no larger than `max`.
pub fn parse_uint_span(v: &Vec<char>, lo: usize, hi: usize, max: u64) -> (r: Option<u64>)
    requires
        lo <= hi <= v@.len(),
    ensures
        match r {
            Some(n) => parse_uint(v@.subrange(lo as int, hi as int), max as nat) == Some(n as nat),
            None => parse_uint(v@.subrange(lo as int, hi as int), max as nat) is None,
        },
{
    let ghost s = v@.subrange(lo as int, hi as int);
    let mut a = lo;
    if a < hi && v[a] == '+' {
        a = a + 1;
    }
    let ghost d = v@.subrange(a as int, hi as int);
    assert(d == unsigned_digits(s));
    if a == hi {
        return None;
    }
    let mut acc: u64 = 0;
    let mut i = a;
    while i < hi
        invariant
            lo <= a <= i <= hi <= v@.len(),
            s == v@.subrange(lo as int, hi as int),
            d == v@.subrange(a as int, hi as int),
            d == unsigned_digits(s),
            all_digits(v@.subrange(a as int, i as int)),
            acc as nat == digits_value(v@.subrange(a as int, i as int)),
            acc <= max,
        decreases hi - i,
    {
        let c = v[i];
        if !('0' <= c && c <= '9') {
            assert(d[i - a] == c);
            assert(!is_digit(d[i - a]));
            return None;
        }
        let dv: u64 = ((c as u32) - ('0' as u32)) as u64;
        assert(v@.subrange(a as int, i + 1).drop_last() == v@.subrange(a as int, i as int));
        assert(v@.subrange(a as int, i + 1).last() == c);
        if dv > max || acc > (max - dv) / 10 {
            proof {
                assert(acc * 10 + dv > max) by (nonlinear_arith)
                    requires
                        dv > max || acc > (max - dv) / 10,
                {
                }
                lemma_digits_value_grows(d, i + 1 - a);
                assert(d.subrange(0, i + 1 - a) == v@.subrange(a as int, i + 1));
            }
            return None;
        }
        proof {
            assert(acc * 10 + dv <= max) by (nonlinear_arith)
                requires
                    acc <= (max - dv) / 10,
                    dv <= 9,
            {
            }
        }
        acc = acc * 10 + dv;
        i = i + 1;
    }
    assert(v@.subrange(a as int, i as int) == d);
    Some(acc)
}

/// The message of the error that an unsigned integer's `from_str` gives for a
/// text that it refuses: empty, a char that is no digit, or too large.
pub open spec fn int_error_text(s: Seq<char>) -> Seq<char> {
    if s.len() == 0 {
        "cannot parse integer from empty string"@
    } else if unsigned_digits(s).len() == 0 || !all_digits(unsigned_digits(s)) {
        "invalid digit found in string"@
    } else {
        "number too large to fit in target type"@
    }
}

/// The message of the parse error of `v[lo..hi]`.
pub fn int_error(v: &Vec<char>, lo: usize, hi: usize) -> (r: &'static str)
    requires
        lo <= hi <= v@.len(),
    ensures
        r@ == int_error_text(v@.subrange(lo as int, hi as int)),
{
    let ghost s = v@.subrange(lo as int, hi as int);
    if lo == hi {
        return "cannot parse integer from empty string";
    }
    let mut a = lo;
    if v[a] == '+' {
        a = a + 1;
    }
    assert(v@.subrange(a as int, hi as int) == unsigned_digits(s));
    if a == hi {
        return "invalid digit found in string";
    }
    let mut i = a;
    while i < hi
        invariant
            lo < hi,
            lo <= a <= i <= hi <= v@.len(),
            v@.subrange(a as int, hi as int) == unsigned_digits(v@.subrange(lo as int, hi as int)),
            forall|j: int| a <= j < i ==> is_digit(#[trigger] v@[j]),
        decreases hi - i,
    {
        if !('0' <= v[i] && v[i] <= '9') {
            assert(v@.subrange(a as int, hi as int)[i - a] == v@[i as int]);
            assert(!is_digit(v@.subrange(a as int, hi as int)[i - a]));
            return "invalid digit found in string";
        }
        i = i + 1;
    }
    assert(all_digits(v@.subrange(a as int, hi as int))) by {
        assert forall|j: int| 0 <= j < hi - a implies is_digit(#[trigger] v@.subrange(a as int, hi as int)[j]) by {
            assert(v@.subrange(a as int, hi as int)[j] == v@[a + j]);
        }
    }
    "number too large to fit in target type"
}

/// The decimal digits of `n`.
pub open spec fn decimal(n: nat) -> Seq<char>
    decreases n,
{
    if n < 10 {
        seq![digit_char(n)]
    } else {
        decimal(n / 10) + seq![digit_char(n % 10)]
    }
}

pub open spec fn digit_char(d: nat) -> char {
    ((d + 48) as u32) as char
}

/// Appends the decimal digits of `n` to `out`.
pub fn push_decimal(out: &mut String, n: u64)
    ensures
        final(out)@ == old(out)@ + decimal(n as nat),
    decreases n,
{
    if n >= 10 {
        push_decimal(out, n / 10);
    }
    let d: u8 = (n % 10) as u8;
    push_char(out, (d + 48) as char);
    assert(((d + 48) as u8) as char == digit_char((n % 10) as nat));
}

/// `format!("{n:0w$}")`: the decimal digits of `n`, zero-padded to `w` chars.
pub open spec fn padded_decimal(n: nat, w: nat) -> Seq<char> {
    let d = decimal(n);
    if d.len() < w {
        Seq::new((w - d.len()) as nat, |i: int| '0') + d
    } else {
        d
    }
}

pub proof fn lemma_decimal_len(n: nat)
    ensures
        decimal(n).len() >= 1,
        n < 10 ==> decimal(n).len() == 1,
    decreases n,
{
    if n >= 10 {
        lemma_decimal_len(n / 10);
    }
}

/// Pieces joined with the separator `c` between them.
pub open spec fn join_char(ps: Seq<Seq<char>>, c: char) -> Seq<char>
    decreases ps.len(),
{
    if ps.len() == 0 {
        seq![]
    } else if ps.len() == 1 {
        ps[0]
    } else {
        ps[0] + seq![c] + join_char(ps.drop_first(), c)
    }
}

proof fn lemma_split_from_shift(p: Seq<char>, y: Seq<char>, c: char, st: int, i: int)
    requires
        0 <= st <= i <= y.len(),
    ensures
        split_from(p + y, c, p.len() + st, p.len() + i) == split_from(y, c, st, i),
    decreases y.len() - i,
{
    let w = p + y;
    if i < y.len() {
        assert(w[p.len() + i] == y[i]);
        if y[i] == c {
            assert(w.subrange(p.len() + st, p.len() + i) == y.subrange(st, i));
            lemma_split_from_shift(p, y, c, i + 1, i + 1);
        } else {
            lemma_split_from_shift(p, y, c, st, i + 1);
        }
    } else {
        assert(w.subrange(p.len() + st, w.len() as int) == y.subrange(st, y.len() as int));
    }
}

proof fn lemma_split_from_no_sep(x: Seq<char>, c: char, st: int, i: int)
    requires
        0 <= st <= i <= x.len(),
        forall|j: int| i <= j < x.len() ==> x[j] != c,
    ensures
        split_from(x, c, st, i) == seq![x.subrange(st, x.len() as int)],
    decreases x.len() - i,
{
    if i < x.len() {
        lemma_split_from_no_sep(x, c, st, i + 1);
    }
}

proof fn lemma_split_from_first(x: Seq<char>, y: Seq<char>, c: char, st: int, i: int)
    requires
        0 <= st <= i <= x.len(),
        forall|j: int| i <= j < x.len() ==> x[j] != c,
    ensures
        split_from(x + seq![c] + y, c, st, i) == seq![x.subrange(st, x.len() as int)] + split_from(
            x + seq![c] + y,
            c,
            x.len() + 1int,
            x.len() + 1int,
        ),
    decreases x.len() - i,
{
    let w = x + seq![c] + y;
    if i < x.len() {
        assert(w[i] == x[i]);
        lemma_split_from_first(x, y, c, st, i + 1);
    } else {
        assert(w[i] == c);
        assert(w.subrange(st, i) == x.subrange(st, x.len() as int));
    }
}

proof fn lemma_split_from_last(p: Seq<char>, e: Seq<char>, c: char, st: int, i: int)
    requires
        0 <= st <= i <= p.len(),
        !e.contains(c),
    ensures
        split_from(p + seq![c] + e, c, st, i).len() >= 1,
        split_from(p + seq![c] + e, c, st, i).last() == e,
    decreases p.len() - i,
{
    let w = p + seq![c] + e;
    if i < p.len() {
        assert(w[i] == p[i]);
        if w[i] == c {
            lemma_split_from_last(p, e, c, i + 1, i + 1);
            let rest = split_from(w, c, i + 1, i + 1);
            assert((seq![w.subrange(st, i)] + rest).last() == rest.last());
        } else {
            lemma_split_from_last(p, e, c, st, i + 1);
        }
    } else {
        assert(w[i] == c);
        let q = p + seq![c];
        assert(w == q + e);
        lemma_split_from_shift(q, e, c, 0, 0);
        assert forall|j: int| 0 <= j < e.len() implies e[j] != c by {
            if e[j] == c {
                assert(e.contains(c));
            }
        }
        lemma_split_from_no_sep(e, c, 0, 0);
        assert(e.subrange(0, e.len() as int) == e);
        let rest = split_from(w, c, i + 1, i + 1);
        assert(rest == seq![e]);
        assert((seq![w.subrange(st, i)] + rest).last() == e);
    }
}

/// The last piece of a split is the text after the last separator.
pub proof fn lemma_split_last(p: Seq<char>, e: Seq<char>, c: char)
    requires
        !e.contains(c),
    ensures
        split(p + seq![c] + e, c).last() == e,
{
    lemma_split_from_last(p, e, c, 0, 0);
}

/// Splitting pieces joined with `c` gives the pieces back, when none holds `c`.
pub proof fn lemma_split_join(ps: Seq<Seq<char>>, c: char)
    requires
        ps.len() >= 1,
        forall|k: int| 0 <= k < ps.len() ==> !(#[trigger] ps[k]).contains(c),
    ensures
        split(join_char(ps, c), c) == ps,
    decreases ps.len(),
{
    if ps.len() == 1 {
        assert forall|j: int| 0 <= j < ps[0].len() implies ps[0][j] != c by {
            assert(!ps[0].contains(c));
        }
        lemma_split_from_no_sep(ps[0], c, 0, 0);
        assert(ps[0].subrange(0, ps[0].len() as int) == ps[0]);
        assert(seq![ps[0]] == ps);
    } else {
        let x = ps[0];
        let rest = ps.drop_first();
        assert forall|k: int| 0 <= k < rest.len() implies !(#[trigger] rest[k]).contains(c) by {
            assert(rest[k] == ps[k + 1]);
        }
        lemma_split_join(rest, c);
        let y = join_char(rest, c);
        assert forall|j: int| 0 <= j < x.len() implies x[j] != c by {
            assert(!x.contains(c));
        }
        lemma_split_from_first(x, y, c, 0, 0);
        let p = x + seq![c];
        assert(x + seq![c] + y == p + y);
        lemma_split_from_shift(p, y, c, 0, 0);
        assert(x.subrange(0, x.len() as int) == x);
        assert(seq![x] + rest == ps);
    }
}

proof fn lemma_digit_char(d: nat)
    requires
        d < 10,
    ensures
        is_digit(digit_char(d)),
        digit_value(digit_char(d)) == d,
        !is_ws(digit_char(d)),
        digit_char(d) != ',' && digit_char(d) != '-' && digit_char(d) != '+',
{
    let x: u32 = (d + 48) as u32;
    assert(48 <= x <= 57);
    assert((x as char) as u32 == x);
}

/// The decimal digits of `n` are digits, read back as `n`, and hold no
/// whitespace, comma, hyphen or plus sign.
pub proof fn lemma_decimal_digits(n: nat)
    ensures
        decimal(n).len() >= 1,
        all_digits(decimal(n)),
        digits_value(decimal(n)) == n,
        forall|j: int|
            0 <= j < decimal(n).len() ==> !is_ws(#[trigger] decimal(n)[j]) && decimal(n)[j] != ','
                && decimal(n)[j] != '-' && decimal(n)[j] != '+',
    decreases n,
{
    if n < 10 {
        lemma_digit_char(n);
        assert(decimal(n).drop_last() =~= Seq::<char>::empty());
        assert(digits_value(decimal(n)) == digits_value(decimal(n).drop_last()) * 10 + digit_value(
            decimal(n).last(),
        ));
    } else {
        lemma_decimal_digits(n / 10);
        lemma_digit_char(n % 10);
        let d = decimal(n);
        assert(d.drop_last() == decimal(n / 10));
        assert(d.last() == digit_char(n % 10));
        assert forall|j: int| 0 <= j < d.len() implies is_digit(#[trigger] d[j]) by {
            if j < d.len() - 1 {
                assert(d[j] == decimal(n / 10)[j]);
            }
        }
        assert forall|j: int|
            0 <= j < d.len() implies !is_ws(#[trigger] d[j]) && d[j] != ',' && d[j] != '-' && d[j]
                != '+' by {
            if j < d.len() - 1 {
                assert(d[j] == decimal(n / 10)[j]);
            }
        }
        assert(digits_value(d) == digits_value(decimal(n / 10)) * 10 + digit_value(d.last()));
        assert(n == (n / 10) * 10 + n % 10);
    }
}

/// The decimal digits of `n` parse back to `n`, trimmed or not.
pub proof fn lemma_parse_decimal(n: nat, max: nat)
    requires
        n <= max,
    ensures
        parse_uint(decimal(n), max) == Some(n),
        trim(decimal(n)) == decimal(n),
{
    lemma_decimal_digits(n);
    let d = decimal(n);
    assert(unsigned_digits(d) == d);
    lemma_trim_start_at(d, 0);
    assert(d.subrange(0, d.len() as int) == d);
    lemma_trim_end_at(d, d.len() as int);
}

/// The decimal digits of `n`, as chars.
fn decimal_chars(n: u64) -> (r: Vec<char>)
    ensures
        r@ == decimal(n as nat),
    decreases n,
{
    let mut r = if n >= 10 {
        decimal_chars(n / 10)
    } else {
        Vec::new()
    };
    let d: u8 = (n % 10) as u8;
    r.push((d + 48) as char);
    assert(((d + 48) as u8) as char == digit_char((n % 10) as nat));
    r
}

/// Appends `n` zero-padded to width `w`.
pub fn push_padded(out: &mut String, n: u64, w: usize)
    ensures
        final(out)@ == old(out)@ + padded_decimal(n as nat, w as nat),
{
    let digits = decimal_chars(n);
    let k = digits.len();
    let ghost start = out@;
    if k < w {
        let mut i = k;
        while i < w
            invariant
                k <= i <= w,
                out@ == start + Seq::new((i - k) as nat, |j: int| '0'),
            decreases w - i,
        {
            push_char(out, '0');
            assert(Seq::new((i + 1 - k) as nat, |j: int| '0') == Seq::new((i - k) as nat, |j: int| '0').push('0'));
            i = i + 1;
        }
    }
    push_chars(out, &digits);
}

} // verus!

//! Portable names for files and folders.
use vstd::prelude::*;
use crate::text::{alnum, chars_of, is_alnum, push_char, push_str};

verus! {

/// A char that may stand in a name as it is; others become `_`.
pub open spec fn name_char(c: char) -> char {
    if is_alnum(c) || c == '-' || c == '_' {
        c
    } else {
        '_'
    }
}

/// The part after `ani-`: the first 80 chars, each kept or replaced by `_`,
/// and a single `_` for an empty input.
pub open spec fn sanitized_body(s: Seq<char>) -> Seq<char> {
    let head = if s.len() <= 80 { s } else { s.subrange(0, 80) };
    if head.len() == 0 {
        seq!['_']
    } else {
        head.map_values(|c: char| name_char(c))
    }
}

pub open spec fn spec_sanitize(s: Seq<char>) -> Seq<char> {
    "ani-"@ + sanitized_body(s)
}

/// A portable folder name for `s`: `ani-` and then at most 80 chars among
/// ASCII letters, digits, `-` and `_`.
pub fn sanitize(s: &str) -> (r: String)
    ensures
        r@ == spec_sanitize(s@),
        r@.len() <= 84,
        r@.len() >= 5,
        r@.subrange(0, 4) == "ani-"@,
        forall|i: int|
            4 <= i < r@.len() ==> is_alnum(#[trigger] r@[i]) || r@[i] == '-' || r@[i] == '_',
{
    proof {
        reveal_strlit("ani-");
    }
    let v = chars_of(s);
    let n = if v.len() <= 80 {
        v.len()
    } else {
        80
    };
    let ghost head = if s@.len() <= 80 { s@ } else { s@.subrange(0, 80) };
    assert(head == v@.subrange(0, n as int));
    let mut out = String::new();
    push_str(&mut out, "ani-");
    let mut i: usize = 0;
    while i < n
        invariant
            n <= v@.len(),
            i <= n,
            head == v@.subrange(0, n as int),
            "ani-"@.len() == 4,
            out@ == "ani-"@ + head.subrange(0, i as int).map_values(|c: char| name_char(c)),
        decreases n - i,
    {
        let c = v[i];
        let m = if alnum(c) || c == '-' || c == '_' {
            c
        } else {
            '_'
        };
        push_char(&mut out, m);
        assert(head.subrange(0, i + 1).map_values(|c: char| name_char(c)) == head.subrange(
            0,
            i as int,
        ).map_values(|c: char| name_char(c)).push(name_char(head[i as int])));
        i = i + 1;
    }
    assert(head.subrange(0, n as int) == head);
    if n == 0 {
        push_char(&mut out, '_');
        assert(head.map_values(|c: char| name_char(c)) == Seq::<char>::empty());
    }
    out
}

/// A sanitized name holds only ASCII letters, digits, `-` and `_`.
pub proof fn lemma_sanitize_chars(s: Seq<char>)
    ensures
        forall|i: int|
            0 <= i < spec_sanitize(s).len() ==> is_alnum(#[trigger] spec_sanitize(s)[i])
                || spec_sanitize(s)[i] == '-' || spec_sanitize(s)[i] == '_',
{
    reveal_strlit("ani-");
    let r = spec_sanitize(s);
    let b = sanitized_body(s);
    assert forall|i: int| 0 <= i < r.len() implies is_alnum(#[trigger] r[i]) || r[i] == '-' || r[i]
        == '_' by {
        if i >= 4 {
            assert(r[i] == b[i - 4]);
        }
    }
}

} // verus!

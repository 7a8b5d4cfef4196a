use vstd::prelude::*;

verus! {

/// A query is ticker-shaped when it is all uppercase ASCII letters and at
/// most five characters long.
pub open spec fn spec_can_be_symbol(q: Seq<char>) -> bool {
    &&& q.len() <= 5
    &&& forall|i: int| 0 <= i < q.len() ==> 'A' <= #[trigger] q[i] <= 'Z'
}

/// Heuristic used to route a search query: ticker-shaped queries are matched
/// against the symbol field, others against the display name.
pub fn can_be_symbol(query: &str) -> (r: bool)
    ensures
        r == spec_can_be_symbol(query@),
{
    let n = query.unicode_len();
    if n > 5 {
        return false;
    }
    let mut i: usize = 0;
    while i < n
        invariant
            0 <= i <= n,
            n == query@.len(),
            n <= 5,
            forall|k: int| 0 <= k < i ==> 'A' <= #[trigger] query@[k] <= 'Z',
        decreases n - i,
    {
        let c = query.get_char(i);
        if !(c >= 'A' && c <= 'Z') {
            return false;
        }
        i += 1;
    }
    true
}

/// ASCII lowercase folding of one character; other characters are unchanged.
pub open spec fn lower_char(c: char) -> char {
    if 'A' <= c <= 'Z' {
        (c as u8 + 32) as char
    } else {
        c
    }
}

/// The sequence with every character folded to ASCII lowercase.
pub open spec fn lower_seq(s: Seq<char>) -> Seq<char> {
    s.map_values(|c: char| lower_char(c))
}

/// Folds one character to ASCII lowercase.
pub fn to_lower_char(c: char) -> (r: char)
    ensures
        r == lower_char(c),
{
    if c >= 'A' && c <= 'Z' {
        (c as u8 + 32) as char
    } else {
        c
    }
}

/// The characters of `s`, for random access.
pub fn str_chars(s: &str) -> (r: Vec<char>)
    ensures
        r@ == s@,
{
    let n = s.unicode_len();
    let mut r: Vec<char> = Vec::new();
    let mut i: usize = 0;
    while i < n
        invariant
            0 <= i <= n,
            n == s@.len(),
            r@ == s@.subrange(0, i as int),
        decreases n - i,
    {
        r.push(s.get_char(i));
        i += 1;
        proof {
            assert(r@ =~= s@.subrange(0, i as int));
        }
    }
    proof {
        assert(r@ =~= s@);
    }
    r
}

/// Case-insensitive equality of two character sequences.
pub open spec fn eq_ci(a: Seq<char>, b: Seq<char>) -> bool {
    lower_seq(a) == lower_seq(b)
}

/// Case-insensitive equality of two strings (ASCII folding).
pub fn str_eq_ignore_case(a: &str, b: &str) -> (r: bool)
    ensures
        r == eq_ci(a@, b@),
{
    let na = a.unicode_len();
    let nb = b.unicode_len();
    if na != nb {
        proof {
            assert(lower_seq(a@).len() != lower_seq(b@).len());
        }
        return false;
    }
    let mut i: usize = 0;
    while i < na
        invariant
            0 <= i <= na,
            na == a@.len(),
            nb == b@.len(),
            na == nb,
            forall|k: int| 0 <= k < i ==> lower_char(#[trigger] a@[k]) == lower_char(b@[k]),
        decreases na - i,
    {
        let ca = to_lower_char(a.get_char(i));
        let cb = to_lower_char(b.get_char(i));
        if ca != cb {
            proof {
                assert(lower_seq(a@)[i as int] != lower_seq(b@)[i as int]);
            }
            return false;
        }
        i += 1;
    }
    proof {
        assert(lower_seq(a@) =~= lower_seq(b@));
    }
    true
}

/// Exact equality of two strings, character by character.
pub fn str_eq(a: &str, b: &str) -> (r: bool)
    ensures
        r == (a@ == b@),
{
    let na = a.unicode_len();
    let nb = b.unicode_len();
    if na != nb {
        return false;
    }
    let mut i: usize = 0;
    while i < na
        invariant
            0 <= i <= na,
            na == a@.len(),
            nb == b@.len(),
            na == nb,
            forall|k: int| 0 <= k < i ==> a@[k] == b@[k],
        decreases na - i,
    {
        if a.get_char(i) != b.get_char(i) {
            return false;
        }
        i += 1;
    }
    proof {
        assert(a@ =~= b@);
    }
    true
}

/// `needle` occurs, case-folded, as a contiguous run inside `hay`.
pub open spec fn contains_ci(hay: Seq<char>, needle: Seq<char>) -> bool {
    exists|i: int|
        0 <= i <= hay.len() - needle.len() && lower_seq(#[trigger] hay.subrange(i, i + needle.len())) == lower_seq(needle)
}

/// Case-insensitive substring search.
pub fn chars_contain_ci(hay: &Vec<char>, needle: &Vec<char>) -> (r: bool)
    ensures
        r == contains_ci(hay@, needle@),
{
    if needle.len() > hay.len() {
        return false;
    }
    let m = needle.len();
    let n = hay.len();
    let mut i: usize = 0;
    while i <= n - m
        invariant
            0 <= i <= n - m + 1,
            m <= n,
            m == needle@.len(),
            n == hay@.len(),
            forall|s: int| 0 <= s < i ==> lower_seq(#[trigger] hay@.subrange(s, s + m)) != lower_seq(needle@),
        decreases n - m + 1 - i,
    {
        let mut k: usize = 0;
        let mut matched = true;
        while k < m && matched
            invariant
                0 <= k <= m,
                0 <= i <= n - m,
                m == needle@.len(),
                n == hay@.len(),
                m <= n,
                matched ==> forall|j: int| 0 <= j < k
                    ==> lower_char(#[trigger] hay@[i + j]) == lower_char(needle@[j]),
                !matched ==> exists|j: int| 0 <= j < m
                    && lower_char(#[trigger] hay@[i + j]) != lower_char(needle@[j]),
            decreases m - k + (if matched { 1int } else { 0int }),
        {
            let ca = to_lower_char(hay[i + k]);
            let cb = to_lower_char(needle[k]);
            if ca != cb {
                matched = false;
                proof {
                    assert(lower_char(hay@[i as int + k as int]) != lower_char(needle@[k as int]));
                }
            } else {
                k += 1;
            }
        }
        if matched {
            proof {
                let w = hay@.subrange(i as int, i as int + m as int);
                assert forall|j: int| 0 <= j < m implies lower_seq(w)[j] == lower_seq(needle@)[j] by {
                    assert(w[j] == hay@[i + j]);
                    assert(lower_seq(w)[j] == lower_char(w[j]));
                    assert(lower_seq(needle@)[j] == lower_char(needle@[j]));
                    assert(lower_char(hay@[i + j]) == lower_char(needle@[j]));
                }
                assert(lower_seq(w) =~= lower_seq(needle@));
            }
            return true;
        }
        proof {
            let w = hay@.subrange(i as int, i as int + m as int);
            let j = choose|j: int| 0 <= j < m && lower_char(#[trigger] hay@[i + j]) != lower_char(needle@[j]);
            assert(w[j] == hay@[i + j]);
            assert(lower_seq(w)[j] == lower_char(w[j]));
            assert(lower_seq(needle@)[j] == lower_char(needle@[j]));
            assert(lower_seq(w)[j] != lower_seq(needle@)[j]);
        }
        i += 1;
    }
    false
}

} // verus!

//! Character-level text operations on `str` and `String`, each with the
//! mathematical meaning that the rest of the crate's contracts are written in.

use vstd::prelude::*;

verus! {

/// The position of the first occurrence of `c` in `s`, if any.
pub open spec fn first_index_of(s: Seq<char>, c: char) -> Option<int> {
    if exists|i: int| 0 <= i < s.len() && s[i] == c {
        Some(choose|i: int| 0 <= i < s.len() && s[i] == c && forall|j: int| 0 <= j < i ==> s[j] != c)
    } else {
        None
    }
}

/// `pat` occurs in `s` starting at position `i`.
pub open spec fn occurs_at(s: Seq<char>, pat: Seq<char>, i: int) -> bool {
    0 <= i && i + pat.len() <= s.len() && s.subrange(i, i + pat.len()) == pat
}

/// The position of the first occurrence of `pat` in `s`, if any.
pub open spec fn first_match_of(s: Seq<char>, pat: Seq<char>) -> Option<int> {
    if exists|i: int| occurs_at(s, pat, i) {
        Some(choose|i: int| occurs_at(s, pat, i) && forall|j: int| 0 <= j < i ==> !occurs_at(s, pat, j))
    } else {
        None
    }
}

/// `s` begins with `p`.
pub open spec fn has_prefix(s: Seq<char>, p: Seq<char>) -> bool {
    p.len() <= s.len() && s.take(p.len() as int) == p
}

/// `s` ends with `p`.
pub open spec fn has_suffix(s: Seq<char>, p: Seq<char>) -> bool {
    p.len() <= s.len() && s.skip(s.len() - p.len()) == p
}

/// `s` with every leading repetition of the non-empty pattern `p` removed.
pub open spec fn strip_prefixes(s: Seq<char>, p: Seq<char>) -> Seq<char>
    decreases s.len(),
{
    if p.len() > 0 && has_prefix(s, p) {
        strip_prefixes(s.skip(p.len() as int), p)
    } else {
        s
    }
}

/// `s` with every trailing repetition of the non-empty pattern `p` removed.
pub open spec fn strip_suffixes(s: Seq<char>, p: Seq<char>) -> Seq<char>
    decreases s.len(),
{
    if p.len() > 0 && has_suffix(s, p) {
        strip_suffixes(s.take(s.len() - p.len()), p)
    } else {
        s
    }
}

/// Appends one character to a string.
#[verifier::external_body]
pub(crate) fn push_char(s: &mut String, c: char)
    ensures
        final(s)@ == old(s)@.push(c),
{
    s.push(c);
}

/// The characters of `s`, in order.
pub fn chars_of(s: &str) -> (v: Vec<char>)
    ensures
        v@ == s@,
{
    let mut v: Vec<char> = Vec::new();
    let n = s.unicode_len();
    let mut i: usize = 0;
    let mut rest = s;
    while i < n
        invariant
            n == s@.len(),
            i <= n,
            v@ == s@.take(i as int),
            rest@ == s@.skip(i as int),
        decreases n - i,
    {
        let c = rest.get_char(0);
        let rlen = rest.unicode_len();
        rest = rest.substring_char(1, rlen);
        v.push(c);
        i = i + 1;
        assert(v@ =~= s@.take(i as int));
        assert(rest@ =~= s@.skip(i as int));
    }
    assert(v@ =~= s@);
    v
}

/// A new string with the given characters.
pub fn string_of(v: &[char]) -> (s: String)
    ensures
        s@ == v@,
{
    let mut s = String::new();
    let mut i: usize = 0;
    while i < v.len()
        invariant
            i <= v@.len(),
            s@ == v@.take(i as int),
        decreases v.len() - i,
    {
        push_char(&mut s, v[i]);
        i = i + 1;
        assert(s@ =~= v@.take(i as int));
    }
    assert(s@ =~= v@);
    s
}

/// Whether `c` occurs in `s`.
pub fn contains_char(s: &str, c: char) -> (r: bool)
    ensures
        r == s@.contains(c),
{
    let v = chars_of(s);
    match find_char_in(&v, c) {
        Some(i) => {
            assert(s@[i as int] == c);
            true
        },
        None => false,
    }
}

/// The first position of `c` in `v`.
pub fn find_char_in(v: &Vec<char>, c: char) -> (r: Option<usize>)
    ensures
        r matches Some(i) ==> i < v@.len() && v@[i as int] == c && forall|j: int| 0 <= j < i ==> v@[j] != c,
        r is None ==> !v@.contains(c),
        r matches Some(i) ==> first_index_of(v@, c) == Some(i as int),
        r is None ==> first_index_of(v@, c) is None,
{
    let mut i: usize = 0;
    while i < v.len()
        invariant
            i <= v@.len(),
            forall|j: int| 0 <= j < i ==> v@[j] != c,
        decreases v.len() - i,
    {
        if v[i] == c {
            proof {
                let k = choose|k: int| 0 <= k < v@.len() && v@[k] == c && forall|j: int| 0 <= j < k ==> v@[j] != c;
                assert(0 <= k < v@.len() && v@[k] == c && forall|j: int| 0 <= j < k ==> v@[j] != c);
                if k < i as int {
                } else if k > i as int {
                    assert(v@[i as int] == c);
                }
            }
            return Some(i);
        }
        i = i + 1;
    }
    None
}

/// Whether `pat` occurs in `v` at position `i`.
pub fn matches_at(v: &Vec<char>, pat: &Vec<char>, i: usize) -> (r: bool)
    ensures
        r == occurs_at(v@, pat@, i as int),
{
    if i > v.len() || pat.len() > v.len() - i {
        return false;
    }
    let mut k: usize = 0;
    let vlen = v.len();
    while k < pat.len()
        invariant
            vlen == v@.len(),
            i + pat@.len() <= v@.len(),
            k <= pat@.len(),
            forall|j: int| 0 <= j < k ==> v@[i + j] == pat@[j],
        decreases pat.len() - k,
    {
        assert(i + k < v@.len());
        if v[i + k] != pat[k] {
            assert(v@.subrange(i as int, i + pat@.len())[k as int] != pat@[k as int]);
            return false;
        }
        k = k + 1;
    }
    assert(v@.subrange(i as int, i + pat@.len()) =~= pat@);
    true
}

/// The first position of `pat` in `v`.
pub fn find_seq_in(v: &Vec<char>, pat: &Vec<char>) -> (r: Option<usize>)
    ensures
        r matches Some(i) ==> occurs_at(v@, pat@, i as int) && forall|j: int| 0 <= j < i ==> !occurs_at(v@, pat@, j),
        r matches Some(i) ==> first_match_of(v@, pat@) == Some(i as int),
        r is None ==> first_match_of(v@, pat@) is None,
{
    let mut i: usize = 0;
    while i <= v.len()
        invariant
            i <= v@.len() + 1,
            forall|j: int| 0 <= j < i ==> !occurs_at(v@, pat@, j),
        decreases v.len() + 1 - i,
    {
        if matches_at(v, pat, i) {
            proof {
                let k = choose|k: int| occurs_at(v@, pat@, k) && forall|j: int| 0 <= j < k ==> !occurs_at(v@, pat@, j);
                assert(occurs_at(v@, pat@, k) && forall|j: int| 0 <= j < k ==> !occurs_at(v@, pat@, j));
                if k < i as int {
                } else if k > i as int {
                    assert(occurs_at(v@, pat@, i as int));
                }
            }
            return Some(i);
        }
        if i == v.len() {
            proof {
                assert forall|j: int| occurs_at(v@, pat@, j) implies false by {
                    if j < i as int {
                    } else {
                        assert(j + pat@.len() <= v@.len());
                        assert(j >= v@.len());
                        if pat@.len() > 0 {
                        } else {
                            assert(j == v@.len());
                        }
                    }
                }
            }
            return None;
        }
        i = i + 1;
    }
    None
}

/// Whether `s` begins with `p`.
pub fn starts_with(s: &str, p: &str) -> (r: bool)
    ensures
        r == has_prefix(s@, p@),
{
    let v = chars_of(s);
    let w = chars_of(p);
    let r = matches_at(&v, &w, 0);
    proof {
        if w@.len() <= v@.len() {
            assert(v@.subrange(0, w@.len() as int) =~= v@.take(w@.len() as int));
        }
    }
    r
}

/// Whether `s` ends with `p`.
pub fn ends_with(s: &str, p: &str) -> (r: bool)
    ensures
        r == has_suffix(s@, p@),
{
    let v = chars_of(s);
    let w = chars_of(p);
    if w.len() > v.len() {
        return false;
    }
    let r = matches_at(&v, &w, v.len() - w.len());
    proof {
        assert(v@.subrange(v@.len() - w@.len(), v@.len() as int) =~= v@.skip(v@.len() - w@.len()));
    }
    r
}

/// Whether the string `pat` occurs in `s`.
pub fn contains_str(s: &str, pat: &str) -> (r: bool)
    ensures
        r == (first_match_of(s@, pat@) is Some),
{
    let v = chars_of(s);
    let w = chars_of(pat);
    find_seq_in(&v, &w).is_some()
}

/// `s` without the characters before position `from`.
pub fn tail_from(s: &str, from: usize) -> (r: String)
    requires
        from <= s@.len(),
    ensures
        r@ == s@.skip(from as int),
{
    let n = s.unicode_len();
    let t = s.substring_char(from, n);
    let r = String::from_str(t);
    assert(r@ =~= s@.skip(from as int));
    r
}

/// The characters of `s` from `from` up to (not including) `to`.
pub fn slice_of(s: &str, from: usize, to: usize) -> (r: String)
    requires
        from <= to <= s@.len(),
    ensures
        r@ == s@.subrange(from as int, to as int),
{
    String::from_str(s.substring_char(from, to))
}

/// `s` with every leading repetition of the non-empty `p` removed.
pub fn trim_prefixes(s: &str, p: &str) -> (r: String)
    requires
        p@.len() > 0,
    ensures
        r@ == strip_prefixes(s@, p@),
{
    let v = chars_of(s);
    let w = chars_of(p);
    let mut k: usize = 0;
    let vlen = v.len();
    assert(s@.skip(0) =~= s@);
    loop
        invariant
            vlen == v@.len(),
            w@ == p@,
            v@ == s@,
            p@.len() > 0,
            k <= v@.len(),
            strip_prefixes(s@, p@) == strip_prefixes(s@.skip(k as int), p@),
        ensures
            k <= v@.len(),
            strip_prefixes(s@, p@) == strip_prefixes(s@.skip(k as int), p@),
            !occurs_at(v@, w@, k as int),
        decreases v@.len() - k,
    {
        if !matches_at(&v, &w, k) {
            break;
        }
        proof {
            let t = s@.skip(k as int);
            assert(t.take(p@.len() as int) =~= s@.subrange(k as int, k + p@.len()));
            assert(has_prefix(t, p@));
            assert(t.skip(p@.len() as int) =~= s@.skip(k + p@.len()));
        }
        k = k + w.len();
    }
    proof {
        let t = s@.skip(k as int);
        if has_prefix(t, p@) {
            assert(s@.subrange(k as int, k + p@.len()) =~= t.take(p@.len() as int));
            assert(occurs_at(v@, w@, k as int));
        }
    }
    tail_from(s, k)
}

/// `s` with every trailing repetition of the non-empty `p` removed.
pub fn trim_suffixes(s: &str, p: &str) -> (r: String)
    requires
        p@.len() > 0,
    ensures
        r@ == strip_suffixes(s@, p@),
{
    let v = chars_of(s);
    let w = chars_of(p);
    let mut k: usize = v.len();
    assert(s@.take(k as int) =~= s@);
    loop
        invariant
            w@ == p@,
            v@ == s@,
            p@.len() > 0,
            k <= v@.len(),
            strip_suffixes(s@, p@) == strip_suffixes(s@.take(k as int), p@),
        ensures
            k <= v@.len(),
            strip_suffixes(s@, p@) == strip_suffixes(s@.take(k as int), p@),
            k < p@.len() || !occurs_at(v@, w@, k - p@.len()),
        decreases k,
    {
        if k < w.len() || !matches_at(&v, &w, k - w.len()) {
            break;
        }
        proof {
            let t = s@.take(k as int);
            assert(t.skip(t.len() - p@.len()) =~= s@.subrange(k - p@.len(), k as int));
            assert(has_suffix(t, p@));
            assert(t.take(t.len() - p@.len()) =~= s@.take(k - p@.len()));
        }
        k = k - w.len();
    }
    proof {
        let t = s@.take(k as int);
        if has_suffix(t, p@) {
            assert(s@.subrange(k - p@.len(), k as int) =~= t.skip(t.len() - p@.len()));
            assert(occurs_at(v@, w@, k - p@.len()));
        }
    }
    slice_of(s, 0, k)
}

/// The lowercase hexadecimal digits, by value.
pub open spec fn hex_digits() -> Seq<char> {
    seq!['0', '1', '2', '3', '4', '5', '6', '7', '8', '9', 'a', 'b', 'c', 'd', 'e', 'f']
}

/// `c` is a lowercase hexadecimal digit.
pub open spec fn is_lower_hex_digit(c: char) -> bool {
    ('0' <= c <= '9') || ('a' <= c <= 'f')
}

/// The lowercase hexadecimal text of `b`: two digits per byte, high nibble first.
pub open spec fn hex_lower(b: Seq<u8>) -> Seq<char> {
    Seq::new(
        2 * b.len(),
        |i: int|
            if i % 2 == 0 {
                hex_digits()[(b[i / 2] / 16) as int]
            } else {
                hex_digits()[(b[i / 2] % 16) as int]
            },
    )
}

/// Every character of a hexadecimal text is a lowercase hexadecimal digit.
pub proof fn lemma_hex_lower_digits(b: Seq<u8>)
    ensures
        forall|i: int| 0 <= i < hex_lower(b).len() ==> is_lower_hex_digit(#[trigger] hex_lower(b)[i]),
{
    assert forall|i: int| 0 <= i < hex_lower(b).len() implies is_lower_hex_digit(#[trigger] hex_lower(b)[i]) by {
        let n: int = if i % 2 == 0 { (b[i / 2] / 16) as int } else { (b[i / 2] % 16) as int };
        assert(0 <= n < 16);
        assert(hex_lower(b)[i] == hex_digits()[n]);
    }
}

/// The first occurrence of `c` is at `k` when `c` stands at `k` and nowhere before.
pub proof fn lemma_first_index_at(s: Seq<char>, c: char, k: int)
    requires
        0 <= k < s.len(),
        s[k] == c,
        forall|j: int| 0 <= j < k ==> s[j] != c,
    ensures
        first_index_of(s, c) == Some(k),
{
    let w = choose|i: int| 0 <= i < s.len() && s[i] == c && forall|j: int| 0 <= j < i ==> s[j] != c;
    assert(0 <= w < s.len() && s[w] == c && forall|j: int| 0 <= j < w ==> s[j] != c);
    if w < k {
    } else if w > k {
        assert(s[k] != c);
    }
}

/// `c` does not occur: there is no first occurrence.
pub proof fn lemma_first_index_none(s: Seq<char>, c: char)
    requires
        !s.contains(c),
    ensures
        first_index_of(s, c) is None,
{
    if exists|i: int| 0 <= i < s.len() && s[i] == c {
        let i = choose|i: int| 0 <= i < s.len() && s[i] == c;
        assert(s.contains(c));
    }
}

} // verus!

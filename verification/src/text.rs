//! Character-level string operations with exact specifications.
//!
//! Every operation is specified over the sequence of characters of its
//! argument (`s@`), so that the parsers built on top of them can state what
//! they extract.

use vstd::prelude::*;

verus! {

/// Whether `c` is white space: a character with the Unicode property
/// `White_Space`.
pub open spec fn is_space(c: char) -> bool {
    let n = c as u32;
    ||| 0x09 <= n <= 0x0D
    ||| n == 0x20
    ||| n == 0x85
    ||| n == 0xA0
    ||| n == 0x1680
    ||| 0x2000 <= n <= 0x200A
    ||| n == 0x2028
    ||| n == 0x2029
    ||| n == 0x202F
    ||| n == 0x205F
    ||| n == 0x3000
}

/// The number of white-space characters at the front of `s`.
pub open spec fn leading_spaces(s: Seq<char>) -> nat
    decreases s.len(),
{
    if s.len() > 0 && is_space(s[0]) {
        1 + leading_spaces(s.drop_first())
    } else {
        0
    }
}

/// The number of white-space characters at the back of `s`.
pub open spec fn trailing_spaces(s: Seq<char>) -> nat
    decreases s.len(),
{
    if s.len() > 0 && is_space(s.last()) {
        1 + trailing_spaces(s.drop_last())
    } else {
        0
    }
}

/// `s` without its leading and trailing white space.
pub open spec fn trimmed(s: Seq<char>) -> Seq<char> {
    let rest = s.skip(leading_spaces(s) as int);
    rest.take(rest.len() - trailing_spaces(rest))
}

/// Whether `pat` stands in `s` at index `i`.
pub open spec fn occurs_at(s: Seq<char>, pat: Seq<char>, i: int) -> bool {
    0 <= i && i + pat.len() <= s.len() && s.subrange(i, i + pat.len()) == pat
}

/// The least index from `start` on at which `pat` stands in `s`.
pub open spec fn occurrence_from(s: Seq<char>, pat: Seq<char>, start: int) -> Option<int>
    decreases s.len() - start + 1,
{
    if start < 0 || start + pat.len() > s.len() {
        None
    } else if occurs_at(s, pat, start) {
        Some(start)
    } else {
        occurrence_from(s, pat, start + 1)
    }
}

/// The least index at which `pat` stands in `s`.
pub open spec fn first_occurrence(s: Seq<char>, pat: Seq<char>) -> Option<int> {
    occurrence_from(s, pat, 0)
}

/// What stands before and after the first occurrence of `pat` in `s`.
pub open spec fn split_once(s: Seq<char>, pat: Seq<char>) -> Option<(Seq<char>, Seq<char>)> {
    match first_occurrence(s, pat) {
        Some(i) => Some((s.take(i), s.skip(i + pat.len()))),
        None => None,
    }
}

/// The index of the first `c` in `s`, or the length of `s` where there is none.
pub open spec fn index_of_char(s: Seq<char>, c: char) -> nat
    decreases s.len(),
{
    if s.len() == 0 || s[0] == c {
        0
    } else {
        1 + index_of_char(s.drop_first(), c)
    }
}

/// The pieces of `s` between the occurrences of `c`; one more piece than
/// there are occurrences.
pub open spec fn split_char(s: Seq<char>, c: char) -> Seq<Seq<char>>
    decreases s.len(),
{
    let i = index_of_char(s, c) as int;
    if i >= s.len() {
        seq![s]
    } else {
        seq![s.take(i)] + split_char(s.skip(i + 1), c)
    }
}

/// The pieces of `parts` joined end to end.
pub open spec fn joined(parts: Seq<Seq<char>>) -> Seq<char>
    decreases parts.len(),
{
    if parts.len() == 0 {
        Seq::empty()
    } else {
        joined(parts.drop_last()) + parts.last()
    }
}

/// A run of white space at the front of `s`, followed by the end or by a
/// character that is none, is all of its leading white space.
pub proof fn lemma_leading_spaces(s: Seq<char>, n: int)
    requires
        0 <= n <= s.len(),
        forall|j: int| 0 <= j < n ==> is_space(#[trigger] s[j]),
        n == s.len() || !is_space(s[n]),
    ensures
        leading_spaces(s) == n,
    decreases n,
{
    if n > 0 {
        let rest = s.drop_first();
        assert forall|j: int| 0 <= j < n - 1 implies is_space(#[trigger] rest[j]) by {
            assert(rest[j] == s[j + 1]);
        }
        lemma_leading_spaces(rest, n - 1);
    }
}

/// A run of white space at the back of `s`, preceded by the start or by a
/// character that is none, is all of its trailing white space.
pub proof fn lemma_trailing_spaces(s: Seq<char>, n: int)
    requires
        0 <= n <= s.len(),
        forall|j: int| s.len() - n <= j < s.len() ==> is_space(#[trigger] s[j]),
        n == s.len() || !is_space(s[s.len() - n - 1]),
    ensures
        trailing_spaces(s) == n,
    decreases n,
{
    if n > 0 {
        let rest = s.drop_last();
        assert forall|j: int| rest.len() - (n - 1) <= j < rest.len() implies is_space(
            #[trigger] rest[j],
        ) by {
            assert(rest[j] == s[j]);
        }
        lemma_trailing_spaces(rest, n - 1);
    }
}

/// Where `c` does not stand before index `n` and stands there, or `s` ends
/// there, `n` is the index of the first `c`.
pub proof fn lemma_index_of_char(s: Seq<char>, c: char, n: int)
    requires
        0 <= n <= s.len(),
        forall|j: int| 0 <= j < n ==> #[trigger] s[j] != c,
        n == s.len() || s[n] == c,
    ensures
        index_of_char(s, c) == n,
    decreases n,
{
    if n > 0 {
        let rest = s.drop_first();
        assert forall|j: int| 0 <= j < n - 1 implies #[trigger] rest[j] != c by {
            assert(rest[j] == s[j + 1]);
        }
        lemma_index_of_char(rest, c, n - 1);
    }
}

/// Joining distributes over appending one more piece.
pub proof fn lemma_joined_push(parts: Seq<Seq<char>>, piece: Seq<char>)
    ensures
        joined(parts.push(piece)) == joined(parts) + piece,
{
    assert(parts.push(piece).drop_last() == parts);
}

/// Whether `c` is white space.
pub fn is_space_char(c: char) -> (r: bool)
    ensures
        r == is_space(c),
{
    let n: u32 = c as u32;
    (0x09 <= n && n <= 0x0D) || n == 0x20 || n == 0x85 || n == 0xA0 || n == 0x1680 || (0x2000 <= n
        && n <= 0x200A) || n == 0x2028 || n == 0x2029 || n == 0x202F || n == 0x205F || n
        == 0x3000
}

/// The characters of `s`, in order.
pub fn chars_of(s: &str) -> (chars: Vec<char>)
    ensures
        chars@ == s@,
{
    let mut chars: Vec<char> = Vec::new();
    for c in it: s.chars()
        invariant
            it.seq() == s@,
            chars@ == s@.take(it.index()),
    {
        chars.push(c);
    }
    chars
}

/// The characters of `s` from index `from` up to `to`, as a string.
pub fn substring(s: &str, from: usize, to: usize) -> (r: String)
    requires
        from <= to <= s@.len(),
    ensures
        r@ == s@.subrange(from as int, to as int),
{
    s.substring_char(from, to).to_owned()
}

/// Whether the two strings hold the same characters.
pub fn same_text(a: &str, b: &str) -> (r: bool)
    ensures
        r == (a@ == b@),
{
    let x = chars_of(a);
    let y = chars_of(b);
    if x.len() != y.len() {
        return false;
    }
    let mut i: usize = 0;
    while i < x.len()
        invariant
            i <= x.len(),
            x.len() == y.len(),
            x@ == a@,
            y@ == b@,
            forall|j: int| 0 <= j < i ==> x@[j] == y@[j],
        decreases x.len() - i,
    {
        if x[i] != y[i] {
            assert(x@[i as int] != y@[i as int]);
            return false;
        }
        i += 1;
    }
    assert(x@ =~= y@);
    true
}

/// Whether `pat` stands in `s` at index `i`.
fn occurs_at_index(s: &Vec<char>, pat: &Vec<char>, i: usize) -> (r: bool)
    ensures
        r == occurs_at(s@, pat@, i as int),
{
    if pat.len() > s.len() || i > s.len() - pat.len() {
        return false;
    }
    let mut k: usize = 0;
    while k < pat.len()
        invariant
            k <= pat.len(),
            i + pat.len() <= s.len(),
            forall|j: int| 0 <= j < k ==> s@[i + j] == pat@[j],
        decreases pat.len() - k,
    {
        if s[i + k] != pat[k] {
            assert(s@.subrange(i as int, i + pat.len())[k as int] == s@[i + k]);
            return false;
        }
        k += 1;
    }
    assert(s@.subrange(i as int, i + pat.len()) =~= pat@);
    true
}

/// The least index at which `pat` stands in `s`.
fn find_in(s: &Vec<char>, pat: &Vec<char>) -> (r: Option<usize>)
    ensures
        r matches Some(i) ==> first_occurrence(s@, pat@) == Some(i as int),
        r is None ==> first_occurrence(s@, pat@) is None,
{
    if pat.len() > s.len() {
        return None;
    }
    let last: usize = s.len() - pat.len();
    let mut i: usize = 0;
    loop
        invariant
            i <= last,
            last == s.len() - pat.len(),
            first_occurrence(s@, pat@) == occurrence_from(s@, pat@, i as int),
        decreases last - i,
    {
        if occurs_at_index(s, pat, i) {
            return Some(i);
        }
        if i == last {
            assert(occurrence_from(s@, pat@, i + 1) is None);
            return None;
        }
        i += 1;
    }
}

/// Whether `s` begins with `prefix`.
pub fn starts_with(s: &str, prefix: &str) -> (r: bool)
    ensures
        r == prefix@.is_prefix_of(s@),
{
    let cs = chars_of(s);
    let ps = chars_of(prefix);
    let r = occurs_at_index(&cs, &ps, 0);
    proof {
        if ps@.len() <= cs@.len() {
            assert(cs@.subrange(0, ps@.len() as int) =~= cs@.take(ps@.len() as int));
        }
        if prefix@.is_prefix_of(s@) {
            assert(s@.subrange(0, prefix@.len() as int) =~= prefix@);
        }
    }
    r
}

/// Whether `pat` stands anywhere in `s`.
pub fn contains(s: &str, pat: &str) -> (r: bool)
    ensures
        r == first_occurrence(s@, pat@).is_some(),
{
    let cs = chars_of(s);
    let ps = chars_of(pat);
    find_in(&cs, &ps).is_some()
}

/// What follows `prefix` in `s`, where `s` begins with it.
pub fn strip_prefix(s: &str, prefix: &str) -> (r: Option<String>)
    ensures
        prefix@.is_prefix_of(s@) ==> r.is_some() && r.unwrap()@ == s@.skip(prefix@.len() as int),
        !prefix@.is_prefix_of(s@) ==> r.is_none(),
{
    if starts_with(s, prefix) {
        let n = s.unicode_len();
        let k = prefix.unicode_len();
        Some(substring(s, k, n))
    } else {
        None
    }
}

/// What stands before and after the first occurrence of `pat` in `s`.
pub fn split_once_at(s: &str, pat: &str) -> (r: Option<(String, String)>)
    ensures
        r matches Some(pair) ==> split_once(s@, pat@) == Some((pair.0@, pair.1@)),
        r is None ==> split_once(s@, pat@) is None,
{
    let cs = chars_of(s);
    let ps = chars_of(pat);
    match find_in(&cs, &ps) {
        Some(i) => {
            proof {
                lemma_occurrence_bound(cs@, ps@, 0);
            }
            let n = cs.len();
            let head = substring(s, 0, i);
            let tail = substring(s, i + ps.len(), n);
            Some((head, tail))
        },
        None => None,
    }
}

/// An occurrence lies inside the sequence.
pub proof fn lemma_occurrence_bound(s: Seq<char>, pat: Seq<char>, start: int)
    ensures
        occurrence_from(s, pat, start) matches Some(i) ==> start <= i && occurs_at(s, pat, i),
    decreases s.len() - start + 1,
{
    if start < 0 || start + pat.len() > s.len() {
    } else if occurs_at(s, pat, start) {
    } else {
        lemma_occurrence_bound(s, pat, start + 1);
    }
}

/// `s` without its leading and trailing white space.
pub fn trim(s: &str) -> (r: String)
    ensures
        r@ == trimmed(s@),
{
    let cs = chars_of(s);
    let n = cs.len();
    let mut a: usize = 0;
    while a < n && is_space_char(cs[a])
        invariant
            a <= n,
            n == cs.len(),
            forall|j: int| 0 <= j < a ==> is_space(#[trigger] cs@[j]),
        decreases n - a,
    {
        a += 1;
    }
    let mut b: usize = n;
    while b > a && is_space_char(cs[b - 1])
        invariant
            a <= b <= n,
            n == cs.len(),
            forall|j: int| b <= j < n ==> is_space(#[trigger] cs@[j]),
        decreases b,
    {
        b -= 1;
    }
    proof {
        lemma_leading_spaces(cs@, a as int);
        let rest = cs@.skip(a as int);
        assert forall|j: int| rest.len() - (n - b) <= j < rest.len() implies is_space(
            #[trigger] rest[j],
        ) by {
            assert(rest[j] == cs@[j + a]);
        }
        if b > a {
            assert(rest[rest.len() - (n - b) - 1] == cs@[b - 1]);
        }
        lemma_trailing_spaces(rest, (n - b) as int);
        assert(rest.take(rest.len() - (n - b)) =~= cs@.subrange(a as int, b as int));
    }
    substring(s, a, b)
}

/// The pieces of `s` between the occurrences of `sep`.
pub fn split_at_char(s: &str, sep: char) -> (pieces: Vec<String>)
    ensures
        pieces.deep_view() == split_char(s@, sep),
{
    let cs = chars_of(s);
    let n = cs.len();
    let mut pieces: Vec<String> = Vec::new();
    let mut start: usize = 0;
    proof {
        assert(s@.skip(0) =~= s@);
        assert(pieces.deep_view() + split_char(s@, sep) =~= split_char(s@, sep));
    }
    loop
        invariant
            start <= n,
            n == cs.len(),
            cs@ == s@,
            pieces.deep_view() + split_char(s@.skip(start as int), sep) == split_char(s@, sep),
        decreases n - start,
    {
        let mut j: usize = start;
        while j < n && cs[j] != sep
            invariant
                start <= j <= n,
                n == cs.len(),
                forall|k: int| start <= k < j ==> #[trigger] cs@[k] != sep,
            decreases n - j,
        {
            j += 1;
        }
        let piece = substring(s, start, j);
        let ghost before = pieces.deep_view();
        let ghost rest = s@.skip(start as int);
        proof {
            assert forall|k: int| 0 <= k < j - start implies #[trigger] rest[k] != sep by {
                assert(rest[k] == cs@[k + start]);
            }
            lemma_index_of_char(rest, sep, (j - start) as int);
            assert(rest.take((j - start) as int) =~= s@.subrange(start as int, j as int));
        }
        pieces.push(piece);
        assert(pieces.deep_view() =~= before.push(piece@));
        if j >= n {
            proof {
                assert(rest.take(rest.len() as int) =~= rest);
                assert(before.push(piece@) =~= before + seq![rest]);
            }
            return pieces;
        }
        proof {
            assert(rest.skip(j - start + 1) =~= s@.skip(j + 1));
            assert(before + (seq![piece@] + split_char(s@.skip(j + 1), sep)) =~= before.push(
                piece@,
            ) + split_char(s@.skip(j + 1), sep));
        }
        start = j + 1;
    }
}

/// The strings of `parts` joined end to end.
pub fn join_all(parts: &Vec<String>) -> (r: String)
    ensures
        r@ == joined(parts.deep_view()),
{
    let mut r = String::new();
    let mut i: usize = 0;
    while i < parts.len()
        invariant
            i <= parts.len(),
            r@ == joined(parts.deep_view().take(i as int)),
        decreases parts.len() - i,
    {
        proof {
            let upto = parts.deep_view().take(i as int);
            assert(parts.deep_view().take(i + 1) =~= upto.push(parts@[i as int]@));
            lemma_joined_push(upto, parts@[i as int]@);
        }
        r.append(parts[i].as_str());
        i += 1;
    }
    assert(parts.deep_view().take(parts.len() as int) =~= parts.deep_view());
    r
}

} // verus!

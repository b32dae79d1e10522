//! Character-level utilities shared by every parsing stage: whitespace
//! classification, ASCII case folding, trimming, substring search,
//! splitting and line handling, each with an exact specification.

use vstd::prelude::*;

verus! {

/// The whitespace characters that trimming and blank-line detection
/// recognize: space, tab, carriage return and line feed.
pub open spec fn is_ws(c: char) -> bool {
    c == ' ' || c == '\t' || c == '\r' || c == '\n'
}

/// A string is blank when every character is whitespace (so the empty
/// string is blank).
pub open spec fn is_blank(s: Seq<char>) -> bool {
    forall|i: int| 0 <= i < s.len() ==> is_ws(#[trigger] s[i])
}

/// ASCII case folding: `'A'..='Z'` map to `'a'..='z'`, everything else
/// is unchanged. This single function defines what "case-insensitive"
/// means throughout the crate.
pub open spec fn fold_char(c: char) -> char {
    if 65 <= c as u32 && c as u32 <= 90 {
        (((c as u32) + 32) as u8) as char
    } else {
        c
    }
}

/// ASCII case folding of a whole string.
pub open spec fn fold_seq(s: Seq<char>) -> Seq<char> {
    Seq::new(s.len(), |i: int| fold_char(s[i]))
}

pub fn blank(s: &[char]) -> (b: bool)
    ensures
        b == is_blank(s@),
{
    let mut i: usize = 0;
    while i < s.len()
        invariant
            0 <= i <= s@.len(),
            forall|j: int| 0 <= j < i ==> is_ws(#[trigger] s@[j]),
        decreases s@.len() - i,
    {
        let c = s[i];
        if !(c == ' ' || c == '\t' || c == '\r' || c == '\n') {
            return false;
        }
        i = i + 1;
    }
    true
}

pub fn fold_lower(c: char) -> (r: char)
    ensures
        r == fold_char(c),
{
    let u = c as u32;
    if 65 <= u && u <= 90 {
        ((u + 32) as u8) as char
    } else {
        c
    }
}

pub fn fold_vec(s: &[char]) -> (r: Vec<char>)
    ensures
        r@ == fold_seq(s@),
{
    let mut r: Vec<char> = Vec::new();
    let mut i: usize = 0;
    while i < s.len()
        invariant
            0 <= i <= s@.len(),
            r@ =~= fold_seq(s@).take(i as int),
        decreases s@.len() - i,
    {
        r.push(fold_lower(s[i]));
        i = i + 1;
        proof {
            assert(r@ =~= fold_seq(s@).take(i as int));
        }
    }
    proof {
        assert(fold_seq(s@).take(s@.len() as int) =~= fold_seq(s@));
    }
    r
}

pub fn eq_chars(a: &[char], b: &[char]) -> (r: bool)
    ensures
        r == (a@ == b@),
{
    if a.len() != b.len() {
        proof {
            assert(a@.len() != b@.len());
        }
        return false;
    }
    let mut i: usize = 0;
    while i < a.len()
        invariant
            0 <= i <= a@.len(),
            a@.len() == b@.len(),
            forall|j: int| 0 <= j < i ==> a@[j] == b@[j],
        decreases a@.len() - i,
    {
        if a[i] != b[i] {
            proof {
                assert(a@[i as int] != b@[i as int]);
            }
            return false;
        }
        i = i + 1;
    }
    proof {
        assert(a@ =~= b@);
    }
    true
}

pub fn copy_chars(s: &[char]) -> (r: Vec<char>)
    ensures
        r@ == s@,
{
    let mut r: Vec<char> = Vec::new();
    let mut i: usize = 0;
    while i < s.len()
        invariant
            0 <= i <= s@.len(),
            r@ =~= s@.take(i as int),
        decreases s@.len() - i,
    {
        r.push(s[i]);
        i = i + 1;
    }
    proof {
        assert(s@.take(s@.len() as int) =~= s@);
    }
    r
}

pub fn append_chars(acc: &mut Vec<char>, s: &[char])
    ensures
        final(acc)@ == old(acc)@ + s@,
{
    let mut i: usize = 0;
    while i < s.len()
        invariant
            0 <= i <= s@.len(),
            acc@ =~= old(acc)@ + s@.take(i as int),
        decreases s@.len() - i,
    {
        acc.push(s[i]);
        i = i + 1;
    }
    proof {
        assert(acc@ =~= old(acc)@ + s@);
    }
}

/// The characters of `s` from `from` (inclusive) to `to` (exclusive).
pub fn sub_chars(s: &[char], from: usize, to: usize) -> (r: Vec<char>)
    requires
        0 <= from <= to <= s@.len(),
    ensures
        r@ == s@.subrange(from as int, to as int),
{
    let mut r: Vec<char> = Vec::new();
    let mut i: usize = from;
    while i < to
        invariant
            from <= i <= to <= s@.len(),
            r@ =~= s@.subrange(from as int, i as int),
        decreases to - i,
    {
        r.push(s[i]);
        i = i + 1;
    }
    r
}

/// The string with leading whitespace removed.
pub open spec fn trim_left(s: Seq<char>) -> Seq<char>
    decreases s.len(),
{
    if s.len() > 0 && is_ws(s[0]) {
        trim_left(s.drop_first())
    } else {
        s
    }
}

/// The string with trailing whitespace removed.
pub open spec fn trim_right(s: Seq<char>) -> Seq<char>
    decreases s.len(),
{
    if s.len() > 0 && is_ws(s.last()) {
        trim_right(s.drop_last())
    } else {
        s
    }
}

/// The string with surrounding whitespace removed.
pub open spec fn trim_spec(s: Seq<char>) -> Seq<char> {
    trim_right(trim_left(s))
}

proof fn lemma_trim_left_at(s: Seq<char>, k: int)
    requires
        0 <= k <= s.len(),
        forall|j: int| 0 <= j < k ==> is_ws(#[trigger] s[j]),
        k < s.len() ==> !is_ws(s[k]),
    ensures
        trim_left(s) == s.skip(k),
    decreases k,
{
    if k == 0 {
        assert(s.skip(0) =~= s);
    } else {
        assert(is_ws(s[0]));
        let t = s.drop_first();
        assert(t =~= s.skip(1));
        lemma_trim_left_at(t, k - 1);
        assert(t.skip(k - 1) =~= s.skip(k));
    }
}

proof fn lemma_trim_right_at(s: Seq<char>, e: int)
    requires
        0 <= e <= s.len(),
        forall|j: int| e <= j < s.len() ==> is_ws(#[trigger] s[j]),
        e > 0 ==> !is_ws(s[e - 1]),
    ensures
        trim_right(s) == s.take(e),
    decreases s.len() - e,
{
    if e == s.len() {
        if s.len() > 0 && is_ws(s.last()) {
            assert(!is_ws(s[e - 1]));
            assert(false);
        }
        assert(s.take(e) =~= s);
    } else {
        assert(is_ws(s.last()));
        let t = s.drop_last();
        assert(t =~= s.take(s.len() - 1));
        lemma_trim_right_at(t, e);
        assert(t.take(e) =~= s.take(e));
    }
}

pub fn trim(s: &[char]) -> (r: Vec<char>)
    ensures
        r@ == trim_spec(s@),
{
    let mut a: usize = 0;
    while a < s.len()
        invariant
            0 <= a <= s@.len(),
            forall|j: int| 0 <= j < a ==> is_ws(#[trigger] s@[j]),
        ensures
            0 <= a <= s@.len(),
            forall|j: int| 0 <= j < a ==> is_ws(#[trigger] s@[j]),
            a < s@.len() ==> !is_ws(s@[a as int]),
        decreases s@.len() - a,
    {
        let c = s[a];
        if !(c == ' ' || c == '\t' || c == '\r' || c == '\n') {
            break ;
        }
        a = a + 1;
    }
    proof {
        lemma_trim_left_at(s@, a as int);
    }
    if a == s.len() {
        proof {
            assert(s@.skip(a as int) =~= Seq::<char>::empty());
            lemma_trim_right_at(Seq::<char>::empty(), 0);
            assert(trim_spec(s@) =~= Seq::<char>::empty());
        }
        let r: Vec<char> = Vec::new();
        return r;
    }
    let mut b: usize = s.len() - 1;
    while b > a
        invariant
            a <= b < s@.len(),
            !is_ws(s@[a as int]),
            forall|j: int| b < j < s@.len() ==> is_ws(#[trigger] s@[j]),
        ensures
            a <= b < s@.len(),
            forall|j: int| b < j < s@.len() ==> is_ws(#[trigger] s@[j]),
            !is_ws(s@[b as int]),
        decreases b,
    {
        let c = s[b];
        if !(c == ' ' || c == '\t' || c == '\r' || c == '\n') {
            break ;
        }
        b = b - 1;
    }
    // b is the last non-whitespace index: s[a] is not whitespace, so the
    // scan can stop at a without finding one only because none follows it.
    proof {
        let t = s@.skip(a as int);
        assert(forall|j: int| b - a < j < t.len() ==> is_ws(#[trigger] t[j]));
        assert(t[b - a as int] == s@[b as int]);
        assert(!is_ws(s@[b as int]));
        lemma_trim_right_at(t, b - a + 1);
        assert(t.take(b - a + 1) =~= s@.subrange(a as int, b + 1));
    }
    sub_chars(s, a, b + 1)
}

/// Whether `d` occurs in `s` at position `i`.
pub open spec fn match_at(s: Seq<char>, d: Seq<char>, i: int) -> bool {
    0 <= i && i + d.len() <= s.len() && s.subrange(i, i + d.len()) == d
}

/// The first position at or after `i` where the non-empty `d` occurs
/// in `s`.
pub open spec fn find_sub_from(s: Seq<char>, d: Seq<char>, i: int) -> Option<int>
    recommends
        0 <= i,
        d.len() > 0,
    decreases s.len() - i,
{
    if d.len() <= 0 || i < 0 || i + d.len() > s.len() {
        None
    } else if s.subrange(i, i + d.len()) == d {
        Some(i)
    } else {
        find_sub_from(s, d, i + 1)
    }
}

pub proof fn lemma_find_sub_from_bounds(s: Seq<char>, d: Seq<char>, i: int)
    ensures
        find_sub_from(s, d, i) matches Some(j) ==> i <= j && d.len() > 0 && match_at(s, d, j),
    decreases s.len() - i,
{
    if d.len() <= 0 || i < 0 || i + d.len() > s.len() {
    } else if s.subrange(i, i + d.len()) == d {
    } else {
        lemma_find_sub_from_bounds(s, d, i + 1);
    }
}

fn match_here(s: &[char], d: &[char], i: usize) -> (r: bool)
    requires
        i + d@.len() <= s@.len(),
    ensures
        r == (s@.subrange(i as int, i + d@.len()) == d@),
{
    let n: usize = s.len();
    let dn: usize = d.len();
    let mut j: usize = 0;
    while j < dn
        invariant
            0 <= j <= dn,
            dn == d@.len(),
            n == s@.len(),
            i + dn <= n,
            forall|k: int| 0 <= k < j ==> s@[i + k] == #[trigger] d@[k],
        decreases dn - j,
    {
        if s[i + j] != d[j] {
            proof {
                assert(s@.subrange(i as int, i + d@.len())[j as int] == s@[i + j]);
            }
            return false;
        }
        j = j + 1;
    }
    proof {
        assert(s@.subrange(i as int, i + d@.len()) =~= d@);
    }
    true
}

pub fn find_sub(s: &[char], d: &[char]) -> (r: Option<usize>)
    requires
        d@.len() > 0,
    ensures
        match r {
            Some(u) => find_sub_from(s@, d@, 0) == Some(u as int),
            None => find_sub_from(s@, d@, 0) is None,
        },
{
    let n: usize = s.len();
    let dn: usize = d.len();
    let mut i: usize = 0;
    loop
        invariant
            0 <= i <= n,
            n == s@.len(),
            dn == d@.len(),
            dn > 0,
            find_sub_from(s@, d@, 0) == find_sub_from(s@, d@, i as int),
        decreases n - i,
    {
        if n < dn || i > n - dn {
            return None;
        }
        if match_here(s, d, i) {
            return Some(i);
        }
        i = i + 1;
    }
}

/// The search finds the first occurrence: a match at `k` with none
/// before it (from `j`) is the result.
pub proof fn lemma_find_sub_from_found(s: Seq<char>, d: Seq<char>, j: int, k: int)
    requires
        d.len() > 0,
        0 <= j <= k,
        match_at(s, d, k),
        forall|i: int| j <= i < k ==> !(#[trigger] match_at(s, d, i)),
    ensures
        find_sub_from(s, d, j) == Some(k),
    decreases k - j,
{
    if j == k {
    } else {
        assert(!match_at(s, d, j));
        assert(j + d.len() <= s.len());
        assert(s.subrange(j, j + d.len()) != d);
        lemma_find_sub_from_found(s, d, j + 1, k);
    }
}

/// With no occurrence at or after `j`, the search finds nothing.
pub proof fn lemma_find_sub_from_none(s: Seq<char>, d: Seq<char>, j: int)
    requires
        forall|i: int| j <= i ==> !(#[trigger] match_at(s, d, i)),
    ensures
        find_sub_from(s, d, j) is None,
    decreases s.len() - j,
{
    if d.len() <= 0 || j < 0 || j + d.len() > s.len() {
    } else {
        assert(!match_at(s, d, j));
        assert(s.subrange(j, j + d.len()) != d);
        lemma_find_sub_from_none(s, d, j + 1);
    }
}

/// An occurrence of `d` in the suffix of `s` from `off` is an
/// occurrence in `s`, shifted by `off`.
pub proof fn lemma_match_at_shift(s: Seq<char>, off: int, d: Seq<char>, i: int)
    requires
        0 <= off <= s.len(),
        0 <= i,
    ensures
        match_at(s.subrange(off, s.len() as int), d, i) <==> match_at(s, d, off + i),
{
    let t = s.subrange(off, s.len() as int);
    if i + d.len() <= t.len() {
        assert(t.subrange(i, i + d.len()) =~= s.subrange(off + i, off + i + d.len()));
    }
}

/// The pieces of `s` delimited by non-overlapping occurrences of `d`,
/// scanned left to right; a string without an occurrence is one piece.
pub open spec fn split_on_spec(s: Seq<char>, d: Seq<char>) -> Seq<Seq<char>>
    recommends
        d.len() > 0,
    decreases s.len(),
    via split_on_spec_decreases
{
    match find_sub_from(s, d, 0) {
        None => seq![s],
        Some(i) => seq![s.subrange(0, i)] + split_on_spec(
            s.subrange(i + d.len(), s.len() as int),
            d,
        ),
    }
}

#[via_fn]
proof fn split_on_spec_decreases(s: Seq<char>, d: Seq<char>) {
    lemma_find_sub_from_bounds(s, d, 0);
}

pub proof fn lemma_split_on_spec_len(s: Seq<char>, d: Seq<char>)
    ensures
        split_on_spec(s, d).len() >= 1,
    decreases s.len(),
{
    lemma_find_sub_from_bounds(s, d, 0);
}

/// The split of a string whose first occurrence of `d` is at `k`:
/// the piece before `k`, then the split of what follows the
/// occurrence.
pub proof fn lemma_split_on_step(s: Seq<char>, d: Seq<char>, k: int)
    requires
        d.len() > 0,
        0 <= k,
        match_at(s, d, k),
        forall|i: int| 0 <= i < k ==> !(#[trigger] match_at(s, d, i)),
    ensures
        split_on_spec(s, d) == seq![s.subrange(0, k)] + split_on_spec(
            s.subrange(k + d.len(), s.len() as int),
            d,
        ),
{
    lemma_find_sub_from_found(s, d, 0, k);
}

/// The split of a string without any occurrence of `d` is the string
/// itself, as one piece.
pub proof fn lemma_split_on_single(s: Seq<char>, d: Seq<char>)
    requires
        d.len() > 0,
        forall|i: int| 0 <= i ==> !(#[trigger] match_at(s, d, i)),
    ensures
        split_on_spec(s, d) == seq![s],
{
    lemma_find_sub_from_none(s, d, 0);
}

pub fn split_on(s: &[char], d: &[char]) -> (r: Vec<Vec<char>>)
    requires
        d@.len() > 0,
    ensures
        r.deep_view() == split_on_spec(s@, d@),
        r@.len() >= 1,
{
    let mut acc: Vec<Vec<char>> = Vec::new();
    let mut rem: Vec<char> = copy_chars(s);
    loop
        invariant
            d@.len() > 0,
            split_on_spec(s@, d@) =~~= acc.deep_view() + split_on_spec(rem@, d@),
        decreases rem@.len(),
    {
        match find_sub(rem.as_slice(), d) {
            None => {
                proof {
                    assert(split_on_spec(rem@, d@) =~~= seq![rem@]);
                }
                let ghost pre = acc.deep_view();
                acc.push(rem);
                proof {
                    assert(acc.deep_view() =~~= pre.push(rem@));
                    assert(acc.deep_view() + Seq::<Seq<char>>::empty() =~~= acc.deep_view());
                    assert(split_on_spec(s@, d@) =~~= acc.deep_view());
                }
                return acc;
            },
            Some(i) => {
                proof {
                    lemma_find_sub_from_bounds(rem@, d@, 0);
                }
                let rl: usize = rem.len();
                let piece = sub_chars(rem.as_slice(), 0, i);
                let next = sub_chars(rem.as_slice(), i + d.len(), rl);
                let ghost pre = acc.deep_view();
                let ghost old_rem = rem@;
                acc.push(piece);
                rem = next;
                proof {
                    assert(acc.deep_view() =~~= pre.push(old_rem.subrange(0, i as int)));
                    assert(split_on_spec(old_rem, d@) =~~= seq![
                        old_rem.subrange(0, i as int),
                    ] + split_on_spec(rem@, d@));
                    assert(split_on_spec(s@, d@) =~~= acc.deep_view() + split_on_spec(
                        rem@,
                        d@,
                    ));
                }
            },
        }
    }
}

/// The lines of `ls` from `from` (inclusive) to `to` (exclusive).
pub fn sub_lines(ls: &Vec<Vec<char>>, from: usize, to: usize) -> (r: Vec<Vec<char>>)
    requires
        0 <= from <= to <= ls@.len(),
    ensures
        r.deep_view() == ls.deep_view().subrange(from as int, to as int),
{
    let mut r: Vec<Vec<char>> = Vec::new();
    let mut i: usize = from;
    proof {
        assert(r.deep_view() =~~= ls.deep_view().subrange(from as int, from as int));
    }
    while i < to
        invariant
            from <= i <= to <= ls@.len(),
            r.deep_view() =~~= ls.deep_view().subrange(from as int, i as int),
        decreases to - i,
    {
        let ghost r0 = r.deep_view();
        r.push(copy_chars(ls[i].as_slice()));
        proof {
            assert(ls.deep_view()[i as int] =~= ls@[i as int]@);
            assert(r.deep_view() =~~= r0.push(ls.deep_view()[i as int]));
            assert(r.deep_view() =~~= ls.deep_view().subrange(from as int, i + 1));
        }
        i = i + 1;
    }
    r
}

/// The first position at or after `i` holding the character `c`.
pub open spec fn find_char_from(s: Seq<char>, c: char, i: int) -> Option<int>
    recommends
        0 <= i,
    decreases s.len() - i,
{
    if i < 0 || i >= s.len() {
        None
    } else if s[i] == c {
        Some(i)
    } else {
        find_char_from(s, c, i + 1)
    }
}

pub proof fn lemma_find_char_from_bounds(s: Seq<char>, c: char, i: int)
    ensures
        find_char_from(s, c, i) matches Some(j) ==> i <= j < s.len() && s[j] == c,
    decreases s.len() - i,
{
    if i < 0 || i >= s.len() {
    } else if s[i] == c {
    } else {
        lemma_find_char_from_bounds(s, c, i + 1);
    }
}

pub fn find_ch(s: &[char], c: char) -> (r: Option<usize>)
    ensures
        match r {
            Some(u) => find_char_from(s@, c, 0) == Some(u as int),
            None => find_char_from(s@, c, 0) is None,
        },
{
    let n: usize = s.len();
    let mut i: usize = 0;
    while i < n
        invariant
            0 <= i <= n,
            n == s@.len(),
            find_char_from(s@, c, 0) == find_char_from(s@, c, i as int),
        decreases n - i,
    {
        if s[i] == c {
            return Some(i);
        }
        i = i + 1;
    }
    None
}

/// Whether `p` is a prefix of `s`.
pub open spec fn starts_with(s: Seq<char>, p: Seq<char>) -> bool {
    p.len() <= s.len() && s.subrange(0, p.len() as int) == p
}

pub fn has_prefix(s: &[char], p: &[char]) -> (r: bool)
    ensures
        r == starts_with(s@, p@),
{
    if p.len() > s.len() {
        return false;
    }
    match_here(s, p, 0)
}

/// One line's trailing carriage return, if any, removed.
pub open spec fn strip_cr(l: Seq<char>) -> Seq<char> {
    if l.len() > 0 && l.last() == '\r' {
        l.drop_last()
    } else {
        l
    }
}

/// The lines of `s`: pieces delimited by `'\n'`, a final empty piece
/// dropped (so a trailing newline opens no extra line), and one
/// trailing `'\r'` removed from each piece.
pub open spec fn lines_spec(s: Seq<char>) -> Seq<Seq<char>> {
    if s.len() == 0 {
        Seq::empty()
    } else {
        let ps = split_on_spec(s, seq!['\n']);
        let qs = if ps.last().len() == 0 {
            ps.drop_last()
        } else {
            ps
        };
        qs.map_values(|l: Seq<char>| strip_cr(l))
    }
}

pub fn lines_of(s: &[char]) -> (r: Vec<Vec<char>>)
    ensures
        r.deep_view() == lines_spec(s@),
{
    if s.len() == 0 {
        let r: Vec<Vec<char>> = Vec::new();
        proof {
            assert(r.deep_view() =~~= lines_spec(s@));
        }
        return r;
    }
    let nl: Vec<char> = vec!['\n'];
    proof {
        assert(nl@ =~= seq!['\n']);
    }
    let mut qs = split_on(s, nl.as_slice());
    let ghost ps = qs.deep_view();
    proof {
        lemma_split_on_spec_len(s@, seq!['\n']);
        assert(ps.last() == qs@.last()@);
    }
    if qs[qs.len() - 1].len() == 0 {
        qs.pop();
        proof {
            assert(qs.deep_view() =~~= ps.drop_last());
        }
    }
    let ghost mid = qs.deep_view();
    let n: usize = qs.len();
    let mut r: Vec<Vec<char>> = Vec::new();
    let mut i: usize = 0;
    while i < n
        invariant
            0 <= i <= n,
            n == qs@.len(),
            mid == qs.deep_view(),
            r.deep_view().len() == i,
            forall|j: int| 0 <= j < i ==> r.deep_view()[j] == strip_cr(#[trigger] mid[j]),
        decreases n - i,
    {
        let line = &qs[i];
        let ll: usize = line.len();
        if ll > 0 && line[ll - 1] == '\r' {
            let stripped = sub_chars(line.as_slice(), 0, ll - 1);
            proof {
                assert(stripped@ =~= strip_cr(mid[i as int]));
            }
            r.push(stripped);
        } else {
            let kept = copy_chars(line.as_slice());
            proof {
                assert(kept@ =~= strip_cr(mid[i as int]));
            }
            r.push(kept);
        }
        i = i + 1;
    }
    proof {
        assert(r.deep_view() =~~= mid.map_values(|l: Seq<char>| strip_cr(l)));
        assert(r.deep_view() =~~= lines_spec(s@));
    }
    r
}

/// The lines joined back with a single `'\n'` between consecutive
/// lines (no trailing newline).
pub open spec fn join_lines(ls: Seq<Seq<char>>) -> Seq<char>
    decreases ls.len(),
{
    if ls.len() == 0 {
        Seq::empty()
    } else if ls.len() == 1 {
        ls[0]
    } else {
        join_lines(ls.drop_last()) + seq!['\n'] + ls.last()
    }
}

pub fn join(ls: &Vec<Vec<char>>) -> (r: Vec<char>)
    ensures
        r@ == join_lines(ls.deep_view()),
{
    let ghost lv = ls.deep_view();
    let n: usize = ls.len();
    let mut r: Vec<char> = Vec::new();
    let mut i: usize = 0;
    while i < n
        invariant
            0 <= i <= n,
            n == ls@.len(),
            lv == ls.deep_view(),
            r@ == join_lines(lv.take(i as int)),
        decreases n - i,
    {
        if i > 0 {
            r.push('\n');
        }
        append_chars(&mut r, ls[i].as_slice());
        proof {
            let t = lv.take(i + 1);
            assert(t.drop_last() =~~= lv.take(i as int));
            assert(t.last() == lv[i as int]);
            if i == 0 {
                assert(r@ =~= join_lines(t));
            } else {
                assert(r@ =~= join_lines(lv.take(i as int)) + seq!['\n'] + lv[i as int]);
                assert(r@ =~= join_lines(t));
            }
        }
        i = i + 1;
    }
    proof {
        assert(lv.take(n as int) =~~= lv);
    }
    r
}

/// The first index at or after `i` of a line that is not blank.
pub open spec fn first_nonblank_from(ls: Seq<Seq<char>>, i: int) -> Option<int>
    recommends
        0 <= i,
    decreases ls.len() - i,
{
    if i < 0 || i >= ls.len() {
        None
    } else if !is_blank(ls[i]) {
        Some(i)
    } else {
        first_nonblank_from(ls, i + 1)
    }
}

pub proof fn lemma_first_nonblank_from_bounds(ls: Seq<Seq<char>>, i: int)
    ensures
        first_nonblank_from(ls, i) matches Some(j) ==> i <= j < ls.len() && !is_blank(ls[j]),
    decreases ls.len() - i,
{
    if i < 0 || i >= ls.len() {
    } else if !is_blank(ls[i]) {
    } else {
        lemma_first_nonblank_from_bounds(ls, i + 1);
    }
}

pub fn first_nonblank(ls: &Vec<Vec<char>>, from: usize) -> (r: Option<usize>)
    ensures
        match r {
            Some(u) => first_nonblank_from(ls.deep_view(), from as int) == Some(u as int),
            None => first_nonblank_from(ls.deep_view(), from as int) is None,
        },
{
    let ghost lv = ls.deep_view();
    let n: usize = ls.len();
    let mut i: usize = from;
    while i < n
        invariant
            from <= i,
            n == ls@.len(),
            lv == ls.deep_view(),
            first_nonblank_from(lv, from as int) == first_nonblank_from(lv, i as int),
        decreases n - i,
    {
        proof {
            assert(lv[i as int] =~= ls@[i as int]@);
        }
        if !blank(ls[i].as_slice()) {
            return Some(i);
        }
        i = i + 1;
    }
    None
}

/// The first index at or after `i` of an empty line.
pub open spec fn first_empty_from(ls: Seq<Seq<char>>, i: int) -> Option<int>
    recommends
        0 <= i,
    decreases ls.len() - i,
{
    if i < 0 || i >= ls.len() {
        None
    } else if ls[i].len() == 0 {
        Some(i)
    } else {
        first_empty_from(ls, i + 1)
    }
}

pub proof fn lemma_first_empty_from_bounds(ls: Seq<Seq<char>>, i: int)
    ensures
        first_empty_from(ls, i) matches Some(j) ==> i <= j < ls.len() && ls[j].len() == 0,
    decreases ls.len() - i,
{
    if i < 0 || i >= ls.len() {
    } else if ls[i].len() == 0 {
    } else {
        lemma_first_empty_from_bounds(ls, i + 1);
    }
}

pub fn first_empty(ls: &Vec<Vec<char>>, from: usize) -> (r: Option<usize>)
    ensures
        match r {
            Some(u) => first_empty_from(ls.deep_view(), from as int) == Some(u as int),
            None => first_empty_from(ls.deep_view(), from as int) is None,
        },
{
    let ghost lv = ls.deep_view();
    let n: usize = ls.len();
    let mut i: usize = from;
    while i < n
        invariant
            from <= i,
            n == ls@.len(),
            lv == ls.deep_view(),
            first_empty_from(lv, from as int) == first_empty_from(lv, i as int),
        decreases n - i,
    {
        if ls[i].len() == 0 {
            return Some(i);
        }
        i = i + 1;
    }
    None
}

pub fn to_char_vec(s: &str) -> (r: Vec<char>)
    ensures
        r@ == s@,
{
    broadcast use vstd::string::group_string_axioms;

    let mut it = s.chars();
    let mut r: Vec<char> = Vec::new();
    loop
        invariant
            r@ + vstd::std_specs::iter::IteratorSpec::remaining(&it) == s@,
        decreases s@.len() - r@.len(),
    {
        match it.next() {
            Some(c) => {
                r.push(c);
                proof {
                    assert(r@ + vstd::std_specs::iter::IteratorSpec::remaining(&it) =~= s@);
                }
            },
            None => {
                proof {
                    assert(r@ =~= s@);
                }
                return r;
            },
        }
    }
}

/// Relies on std's `FromIterator` implementation for `String`:
/// collecting an iterator of characters concatenates exactly those
/// characters, in order.
#[verifier::external_body]
pub fn from_chars(v: &[char]) -> (r: String)
    ensures
        r@ == v@,
{
    v.iter().collect()
}

pub fn str_eq(a: &str, b: &str) -> (r: bool)
    ensures
        r == (a@ == b@),
{
    let va = to_char_vec(a);
    let vb = to_char_vec(b);
    eq_chars(va.as_slice(), vb.as_slice())
}

} // verus!

//! Character-level text operations with their mathematical meaning:
//! pattern search, splitting at a separator, and decimal numbers.

use vstd::prelude::*;

verus! {

// ---------------------------------------------------------------------------
// Pattern search and splitting
// ---------------------------------------------------------------------------

/// `pat` occurs in `s` starting at index `i`.
pub open spec fn matches_at(s: Seq<char>, pat: Seq<char>, i: int) -> bool {
    &&& 0 <= i
    &&& i + pat.len() <= s.len()
    &&& s.subrange(i, i + pat.len()) == pat
}

/// The leftmost index `>= i` at which `pat` occurs in `s`.
pub open spec fn find_from(s: Seq<char>, pat: Seq<char>, i: int) -> Option<int>
    decreases s.len() - i,
{
    if i < 0 || i >= s.len() || i + pat.len() > s.len() {
        None
    } else if s.subrange(i, i + pat.len()) == pat {
        Some(i)
    } else {
        find_from(s, pat, i + 1)
    }
}

/// What a search from `i` finds is a leftmost occurrence at or after `i`,
/// and when nothing is found there is no occurrence at or after `i`.
pub proof fn lemma_find_from(s: Seq<char>, pat: Seq<char>, i: int)
    requires
        0 <= i,
        pat.len() > 0,
    ensures
        find_from(s, pat, i) matches Some(j) ==> {
            &&& i <= j
            &&& matches_at(s, pat, j)
            &&& forall|k: int| i <= k < j ==> !matches_at(s, pat, k)
        },
        find_from(s, pat, i) is None ==> forall|k: int| i <= k ==> !matches_at(s, pat, k),
    decreases s.len() - i,
{
    if i >= s.len() || i + pat.len() > s.len() {
    } else if s.subrange(i, i + pat.len()) == pat {
    } else {
        lemma_find_from(s, pat, i + 1);
    }
}

/// The pieces of `s` from index `start` on, cut at each leftmost
/// non-overlapping occurrence of `pat`: what `str::split` with a non-empty
/// pattern yields for the text from `start` on.
pub open spec fn split_from(s: Seq<char>, pat: Seq<char>, start: int) -> Seq<Seq<char>>
    decreases s.len() - start,
{
    if pat.len() == 0 || start < 0 || start > s.len() {
        Seq::empty()
    } else {
        match find_from(s, pat, start) {
            Some(i) => {
                proof {
                    lemma_find_from(s, pat, start);
                }
                seq![s.subrange(start, i)] + split_from(s, pat, i + pat.len())
            },
            None => seq![s.subrange(start, s.len() as int)],
        }
    }
}

/// The pieces of `s` cut at each occurrence of the non-empty pattern `pat`.
pub open spec fn split_spec(s: Seq<char>, pat: Seq<char>) -> Seq<Seq<char>> {
    split_from(s, pat, 0)
}

/// A split of a text from a valid position yields at least one piece.
pub proof fn lemma_split_from_nonempty(s: Seq<char>, pat: Seq<char>, start: int)
    requires
        pat.len() > 0,
        0 <= start <= s.len(),
    ensures
        split_from(s, pat, start).len() >= 1,
{
    lemma_find_from(s, pat, start);
}

/// A search from `i` skips positions where the pattern does not occur.
pub proof fn lemma_find_from_skip(s: Seq<char>, pat: Seq<char>, i: int, j: int)
    requires
        0 <= i <= j,
        pat.len() > 0,
        forall|k: int| i <= k < j ==> !matches_at(s, pat, k),
    ensures
        find_from(s, pat, i) == find_from(s, pat, j),
    decreases j - i,
{
    if i < j {
        assert(!matches_at(s, pat, i));
        lemma_find_from_skip(s, pat, i + 1, j);
    }
}

/// A search from an occurrence finds that occurrence.
pub proof fn lemma_find_from_hit(s: Seq<char>, pat: Seq<char>, i: int)
    requires
        pat.len() > 0,
        matches_at(s, pat, i),
    ensures
        find_from(s, pat, i) == Some(i),
{
}

/// A one-character pattern occurs exactly where that character stands.
pub proof fn lemma_matches_at_char(s: Seq<char>, c: char, k: int)
    ensures
        matches_at(s, seq![c], k) <==> (0 <= k < s.len() && s[k] == c),
{
    if 0 <= k < s.len() {
        assert(s.subrange(k, k + 1) =~= seq![s[k]]);
        if s.subrange(k, k + 1) == seq![c] {
            assert(s.subrange(k, k + 1)[0] == c);
        }
    }
}

/// The pieces of a text in which a one-character separator does not occur
/// from `start` on: the rest of the text, whole.
pub proof fn lemma_split_from_no_separator(s: Seq<char>, c: char, start: int)
    requires
        0 <= start <= s.len(),
        forall|k: int| start <= k < s.len() ==> s[k] != c,
    ensures
        split_from(s, seq![c], start) == seq![s.subrange(start, s.len() as int)],
{
    assert forall|k: int| start <= k implies !matches_at(s, seq![c], k) by {
        lemma_matches_at_char(s, c, k);
    }
    lemma_find_from_skip(s, seq![c], start, s.len() as int);
}

/// The pieces of a text from `start` whose first separator from `start` is
/// at `j`: the text up to `j`, then the pieces after it.
pub proof fn lemma_split_from_first_separator(s: Seq<char>, c: char, start: int, j: int)
    requires
        0 <= start <= j < s.len(),
        s[j] == c,
        forall|k: int| start <= k < j ==> s[k] != c,
    ensures
        split_from(s, seq![c], start) == seq![s.subrange(start, j)] + split_from(s, seq![c], j + 1),
{
    assert forall|k: int| start <= k < j implies !matches_at(s, seq![c], k) by {
        lemma_matches_at_char(s, c, k);
    }
    lemma_find_from_skip(s, seq![c], start, j);
    lemma_matches_at_char(s, c, j);
    lemma_find_from_hit(s, seq![c], j);
}

/// One more digit multiplies the value by ten and adds the digit.
pub proof fn lemma_decimal_value_push(ds: Seq<char>, c: char)
    ensures
        decimal_value(ds.push(c)) == decimal_value(ds) * 10 + digit_value(c),
{
    assert(ds.push(c).drop_last() =~= ds);
}

/// An occurrence begins with the pattern's first character.
pub proof fn lemma_matches_at_first(s: Seq<char>, pat: Seq<char>, k: int)
    requires
        pat.len() > 0,
        matches_at(s, pat, k),
    ensures
        s[k] == pat[0],
{
    assert(s.subrange(k, k + pat.len())[0] == s[k]);
}

/// Searching for a pattern in `a + b` past `a` is searching in `b`, shifted
/// by the length of `a`.
pub proof fn lemma_find_from_shift(a: Seq<char>, b: Seq<char>, pat: Seq<char>, i: int)
    requires
        0 <= i,
        pat.len() > 0,
    ensures
        find_from(a + b, pat, a.len() + i) == match find_from(b, pat, i) {
            Some(j) => Some(a.len() + j),
            None => None,
        },
    decreases b.len() - i,
{
    let s = a + b;
    let k = a.len() + i;
    if i < b.len() && i + pat.len() <= b.len() {
        assert(s.subrange(k, k + pat.len()) =~= b.subrange(i, i + pat.len()));
        lemma_find_from_shift(a, b, pat, i + 1);
        assert(a.len() + (i + 1) == k + 1);
    }
}

/// Splitting `a + b` past `a` splits `b`.
pub proof fn lemma_split_from_shift(a: Seq<char>, b: Seq<char>, pat: Seq<char>, i: int)
    requires
        0 <= i <= b.len(),
        pat.len() > 0,
    ensures
        split_from(a + b, pat, a.len() + i) == split_from(b, pat, i),
    decreases b.len() - i,
{
    let s = a + b;
    lemma_find_from_shift(a, b, pat, i);
    lemma_find_from(b, pat, i);
    match find_from(b, pat, i) {
        Some(j) => {
            assert(s.subrange(a.len() + i, a.len() + j) =~= b.subrange(i, j));
            lemma_split_from_shift(a, b, pat, j + pat.len());
            assert(a.len() + j + pat.len() == a.len() + (j + pat.len()));
        },
        None => {
            assert(s.subrange(a.len() + i, s.len() as int) =~= b.subrange(i, b.len() as int));
        },
    }
}

/// When `a` ends with the separator, the pieces of `a + b` are the pieces
/// of `a` but its last (empty) one, then the pieces of `b`.
pub proof fn lemma_split_concat(a: Seq<char>, b: Seq<char>, c: char, start: int)
    requires
        a.len() > 0,
        a.last() == c,
        0 <= start <= a.len(),
    ensures
        split_from(a, seq![c], start).len() >= 1,
        split_from(a + b, seq![c], start) == split_from(a, seq![c], start).drop_last()
            + split_spec(b, seq![c]),
    decreases a.len() - start,
{
    let s = a + b;
    lemma_find_from(a, seq![c], start);
    if start == a.len() {
        lemma_split_from_shift(a, b, seq![c], 0);
        lemma_find_from(a, seq![c], start);
        assert(split_from(a, seq![c], start) == seq![a.subrange(start, a.len() as int)]);
        assert(split_from(a, seq![c], start).drop_last() =~= Seq::<Seq<char>>::empty());
        assert(Seq::<Seq<char>>::empty() + split_spec(b, seq![c]) =~= split_spec(b, seq![c]));
    } else {
        // the next separator in `a` from `start`
        lemma_matches_at_char(a, c, a.len() - 1);
        let j = find_from(a, seq![c], start)->0;
        assert(j < a.len());
        assert forall|k: int| start <= k < j implies a[k] != c && s[k] != c by {
            lemma_matches_at_char(a, c, k);
        }
        lemma_matches_at_char(a, c, j);
        assert(s[j] == c);
        lemma_split_from_first_separator(s, c, start, j);
        lemma_split_from_first_separator(a, c, start, j);
        assert(s.subrange(start, j) =~= a.subrange(start, j));
        lemma_split_concat(a, b, c, j + 1);
        let rest_a = split_from(a, seq![c], j + 1);
        assert((seq![a.subrange(start, j)] + rest_a).drop_last() =~= seq![a.subrange(start, j)]
            + rest_a.drop_last());
        assert(seq![a.subrange(start, j)] + (rest_a.drop_last() + split_spec(b, seq![c])) =~= (
        seq![a.subrange(start, j)] + rest_a.drop_last()) + split_spec(b, seq![c]));
    }
}

/// The characters of `s`, one by one.
pub fn chars_of(s: &str) -> (res: Vec<char>)
    ensures
        res@ == s@,
{
    let n = s.unicode_len();
    let mut res: Vec<char> = Vec::new();
    let mut i: usize = 0;
    while i < n
        invariant
            n == s@.len(),
            i <= n,
            res@ == s@.subrange(0, i as int),
        decreases n - i,
    {
        res.push(s.get_char(i));
        i = i + 1;
    }
    assert(res@ =~= s@);
    res
}

/// Whether `pat` occurs in `s` at index `i`.
fn matches_at_exec(s: &Vec<char>, pat: &Vec<char>, i: usize) -> (res: bool)
    requires
        i + pat@.len() <= s@.len(),
    ensures
        res == (s@.subrange(i as int, i + pat@.len()) == pat@),
{
    let m = pat.len();
    let mut k: usize = 0;
    while k < m
        invariant
            m == pat@.len(),
            i + m <= s.len(),
            k <= m,
            forall|j: int| 0 <= j < k ==> s@[i + j] == pat@[j],
        decreases m - k,
    {
        if s[i + k] != pat[k] {
            assert(s@.subrange(i as int, i + pat@.len())[k as int] != pat@[k as int]);
            return false;
        }
        k = k + 1;
    }
    assert(s@.subrange(i as int, i + pat@.len()) =~= pat@);
    true
}

/// The leftmost occurrence of `pat` in `s` at or after `i`.
pub fn find_from_exec(s: &Vec<char>, pat: &Vec<char>, i: usize) -> (res: Option<usize>)
    requires
        pat@.len() > 0,
    ensures
        res matches Some(j) ==> find_from(s@, pat@, i as int) == Some(j as int),
        res is None ==> find_from(s@, pat@, i as int) is None,
{
    let n = s.len();
    let m = pat.len();
    if m > n {
        return None;
    }
    let mut j: usize = i;
    if i > n {
        return None;
    }
    while m <= n - j
        invariant
            n == s@.len(),
            m == pat@.len(),
            0 < m <= n,
            i <= j <= n,
            find_from(s@, pat@, i as int) == find_from(s@, pat@, j as int),
        decreases n - j,
    {
        if matches_at_exec(s, pat, j) {
            return Some(j);
        }
        j = j + 1;
    }
    None
}

/// The pieces of `s` cut at each occurrence of `pat`, as `str::split` gives
/// them.
pub fn split_str(s: &str, pat: &str) -> (res: Vec<String>)
    requires
        pat@.len() > 0,
    ensures
        res@.map_values(|p: String| p@) == split_spec(s@, pat@),
{
    let chars = chars_of(s);
    let pchars = chars_of(pat);
    let n = chars.len();
    let m = pchars.len();
    let mut res: Vec<String> = Vec::new();
    let mut start: usize = 0;
    loop
        invariant
            chars@ == s@,
            pchars@ == pat@,
            n == s@.len(),
            m == pat@.len(),
            m > 0,
            start <= n,
            res@.map_values(|p: String| p@) + split_from(s@, pat@, start as int) == split_spec(
                s@,
                pat@,
            ),
        decreases n - start,
    {
        proof {
            lemma_find_from(s@, pat@, start as int);
        }
        match find_from_exec(&chars, &pchars, start) {
            Some(i) => {
                let piece = s.substring_char(start, i).to_owned();
                let ghost before = res@.map_values(|p: String| p@);
                res.push(piece);
                assert(res@.map_values(|p: String| p@) =~= before.push(piece@));
                assert(split_from(s@, pat@, start as int) == seq![s@.subrange(start as int, i as int)]
                    + split_from(s@, pat@, i + m));
                assert(before + split_from(s@, pat@, start as int) =~= before.push(piece@)
                    + split_from(s@, pat@, i + m));
                start = i + m;
            },
            None => {
                let piece = s.substring_char(start, n).to_owned();
                let ghost before = res@.map_values(|p: String| p@);
                res.push(piece);
                assert(res@.map_values(|p: String| p@) =~= before.push(piece@));
                assert(split_from(s@, pat@, start as int) == seq![s@.subrange(start as int, n as int)]);
                assert(before + split_from(s@, pat@, start as int) =~= before.push(piece@));
                return res;
            },
        }
    }
}

/// Whether `a` and `b` hold the same characters.
pub fn str_eq(a: &str, b: &str) -> (res: bool)
    ensures
        res == (a@ == b@),
{
    let ac = chars_of(a);
    let bc = chars_of(b);
    if ac.len() != bc.len() {
        return false;
    }
    let n = ac.len();
    let mut i: usize = 0;
    while i < n
        invariant
            ac@ == a@,
            bc@ == b@,
            n == a@.len(),
            n == b@.len(),
            i <= n,
            forall|j: int| 0 <= j < i ==> a@[j] == b@[j],
        decreases n - i,
    {
        if ac[i] != bc[i] {
            return false;
        }
        i = i + 1;
    }
    assert(a@ =~= b@);
    true
}

/// Whether `s` begins with `prefix`.
pub fn has_prefix(s: &str, prefix: &str) -> (res: bool)
    ensures
        res == (prefix@.len() <= s@.len() && s@.take(prefix@.len() as int) == prefix@),
{
    let sc = chars_of(s);
    let pc = chars_of(prefix);
    let m = pc.len();
    if m > sc.len() {
        return false;
    }
    let mut i: usize = 0;
    while i < m
        invariant
            sc@ == s@,
            pc@ == prefix@,
            m == prefix@.len(),
            m <= s@.len(),
            i <= m,
            forall|j: int| 0 <= j < i ==> s@[j] == prefix@[j],
        decreases m - i,
    {
        if sc[i] != pc[i] {
            assert(s@.take(m as int)[i as int] != prefix@[i as int]);
            return false;
        }
        i = i + 1;
    }
    assert(s@.take(m as int) =~= prefix@);
    true
}

/// Whether `pat` occurs anywhere in `s`, as `str::contains` tells.
pub fn contains_str(s: &str, pat: &str) -> (res: bool)
    requires
        pat@.len() > 0,
    ensures
        res == (exists|i: int| matches_at(s@, pat@, i)),
        res == (find_from(s@, pat@, 0) is Some),
{
    let sc = chars_of(s);
    let pc = chars_of(pat);
    proof {
        lemma_find_from(s@, pat@, 0);
    }
    let found = find_from_exec(&sc, &pc, 0);
    proof {
        if found is None {
            assert forall|i: int| !matches_at(s@, pat@, i) by {
                if i >= 0 {
                    assert(0 <= i);
                }
            }
        }
    }
    found.is_some()
}

// ---------------------------------------------------------------------------
// Decimal numbers
// ---------------------------------------------------------------------------

/// An ASCII decimal digit.
pub open spec fn is_digit(c: char) -> bool {
    '0' <= c && c <= '9'
}

/// The value of a decimal digit.
pub open spec fn digit_value(c: char) -> int {
    (c as int) - ('0' as int)
}

/// Every character of `ds` is a decimal digit.
pub open spec fn all_digits(ds: Seq<char>) -> bool {
    forall|i: int| 0 <= i < ds.len() ==> is_digit(#[trigger] ds[i])
}

/// The number that the decimal digits `ds` denote (most significant first).
pub open spec fn decimal_value(ds: Seq<char>) -> int
    decreases ds.len(),
{
    if ds.len() == 0 {
        0
    } else {
        decimal_value(ds.drop_last()) * 10 + digit_value(ds.last())
    }
}

/// The digits of an unsigned number's text: a single leading `+` is dropped.
pub open spec fn unsigned_digits(s: Seq<char>) -> Seq<char> {
    if s.len() > 0 && s[0] == '+' {
        s.drop_first()
    } else {
        s
    }
}

/// What `s.parse::<u16>().ok()` gives: an optional `+` followed by one or
/// more decimal digits whose value fits in a `u16`; anything else is `None`.
pub open spec fn parse_u16_spec(s: Seq<char>) -> Option<u16> {
    let ds = unsigned_digits(s);
    if ds.len() > 0 && all_digits(ds) && decimal_value(ds) <= u16::MAX {
        Some(decimal_value(ds) as u16)
    } else {
        None
    }
}

/// The value of a prefix of digits never exceeds the value of all of them.
pub proof fn lemma_decimal_value_prefix(ds: Seq<char>, k: int)
    requires
        all_digits(ds),
        0 <= k <= ds.len(),
    ensures
        0 <= decimal_value(ds.take(k)) <= decimal_value(ds),
    decreases ds.len(),
{
    if ds.len() == 0 {
        assert(ds.take(k) =~= ds);
    } else if k == ds.len() {
        assert(ds.take(k) =~= ds);
        lemma_decimal_value_prefix(ds.drop_last(), 0);
    } else {
        assert(ds.take(k) =~= ds.drop_last().take(k));
        assert(all_digits(ds.drop_last()));
        lemma_decimal_value_prefix(ds.drop_last(), k);
        assert(is_digit(ds[ds.len() - 1]));
    }
}

/// The number written in `s`, as `s.parse::<u16>().ok()` reads it.
pub fn parse_u16(s: &str) -> (res: Option<u16>)
    ensures
        res == parse_u16_spec(s@),
{
    let chars = chars_of(s);
    let n = chars.len();
    let start: usize = if n > 0 && chars[0] == '+' {
        1
    } else {
        0
    };
    let ghost ds = unsigned_digits(s@);
    assert(ds =~= s@.subrange(start as int, n as int));
    if start == n {
        return None;
    }
    let mut acc: u32 = 0;
    let mut i: usize = start;
    while i < n
        invariant
            chars@ == s@,
            n == s@.len(),
            ds == s@.subrange(start as int, n as int),
            ds == unsigned_digits(s@),
            start <= i <= n,
            start < n,
            acc <= u16::MAX,
            all_digits(s@.subrange(start as int, i as int)),
            acc == decimal_value(s@.subrange(start as int, i as int)),
        decreases n - i,
    {
        let c = chars[i];
        if c < '0' || c > '9' {
            assert(ds[i - start] == c);
            assert(!is_digit(ds[i - start]));
            assert(!all_digits(ds));
            return None;
        }
        let d: u32 = (c as u32) - ('0' as u32);
        let ghost next = s@.subrange(start as int, i + 1);
        assert(next.drop_last() =~= s@.subrange(start as int, i as int));
        assert(next.last() == c);
        assert(d == digit_value(c));
        assert(decimal_value(next) == decimal_value(next.drop_last()) * 10 + digit_value(next.last()));
        assert forall|j: int| 0 <= j < next.len() implies is_digit(#[trigger] next[j]) by {
            if j < next.len() - 1 {
                assert(next[j] == s@.subrange(start as int, i as int)[j]);
            }
        }
        acc = acc * 10 + d;
        if acc > 65535 {
            proof {
                if all_digits(ds) {
                    assert(ds.take(i + 1 - start) =~= s@.subrange(start as int, i + 1));
                    lemma_decimal_value_prefix(ds, i + 1 - start);
                }
            }
            return None;
        }
        i = i + 1;
    }
    assert(s@.subrange(start as int, n as int) =~= ds);
    Some(acc as u16)
}

/// The decimal digit for `d` (`0 <= d < 10`).
pub open spec fn digit_char(d: int) -> char {
    if d == 0 {
        '0'
    } else if d == 1 {
        '1'
    } else if d == 2 {
        '2'
    } else if d == 3 {
        '3'
    } else if d == 4 {
        '4'
    } else if d == 5 {
        '5'
    } else if d == 6 {
        '6'
    } else if d == 7 {
        '7'
    } else if d == 8 {
        '8'
    } else {
        '9'
    }
}

/// The decimal text of `n`, without leading zeros: what `{}` prints.
pub open spec fn decimal_seq(n: nat) -> Seq<char>
    decreases n,
{
    if n < 10 {
        seq![digit_char(n as int)]
    } else {
        decimal_seq(n / 10).push(digit_char((n % 10) as int))
    }
}

/// The decimal text of `n` padded with zeros to at least two digits: what
/// `{:02}` prints.
pub open spec fn padded2_seq(n: nat) -> Seq<char> {
    if n < 10 {
        seq!['0', digit_char(n as int)]
    } else {
        decimal_seq(n)
    }
}

/// `digit_char` gives a digit whose value is its argument.
pub proof fn lemma_digit_char(d: int)
    requires
        0 <= d < 10,
    ensures
        is_digit(digit_char(d)),
        digit_value(digit_char(d)) == d,
{
}

/// Decimal text reads back as the number it was written from.
pub proof fn lemma_decimal_seq_value(n: nat)
    ensures
        decimal_seq(n).len() > 0,
        all_digits(decimal_seq(n)),
        decimal_value(decimal_seq(n)) == n,
    decreases n,
{
    if n < 10 {
        lemma_digit_char(n as int);
        let ds = seq![digit_char(n as int)];
        assert(ds.drop_last() =~= Seq::<char>::empty());
        assert(decimal_value(Seq::<char>::empty()) == 0);
        assert(decimal_value(ds) == decimal_value(ds.drop_last()) * 10 + digit_value(ds.last()));
    } else {
        lemma_decimal_seq_value(n / 10);
        lemma_digit_char((n % 10) as int);
        let ds = decimal_seq(n);
        assert(ds.drop_last() =~= decimal_seq(n / 10));
        assert(decimal_value(ds) == decimal_value(ds.drop_last()) * 10 + digit_value(ds.last()));
        assert forall|i: int| 0 <= i < ds.len() implies is_digit(#[trigger] ds[i]) by {
            if i < ds.len() - 1 {
                assert(ds[i] == decimal_seq(n / 10)[i]);
            }
        }
    }
}

/// Reading back the decimal text of a number gives the number.
pub proof fn lemma_parse_decimal_roundtrip(n: u16)
    ensures
        parse_u16_spec(decimal_seq(n as nat)) == Some(n),
{
    lemma_decimal_seq_value(n as nat);
    let ds = decimal_seq(n as nat);
    assert(is_digit(ds[0]));
    assert(unsigned_digits(ds) == ds);
}

/// The text of the decimal digit `d`.
fn digit_str(d: u16) -> (res: &'static str)
    requires
        d < 10,
    ensures
        res@ == seq![digit_char(d as int)],
{
    if d == 0 {
        proof { reveal_strlit("0"); }
        "0"
    } else if d == 1 {
        proof { reveal_strlit("1"); }
        "1"
    } else if d == 2 {
        proof { reveal_strlit("2"); }
        "2"
    } else if d == 3 {
        proof { reveal_strlit("3"); }
        "3"
    } else if d == 4 {
        proof { reveal_strlit("4"); }
        "4"
    } else if d == 5 {
        proof { reveal_strlit("5"); }
        "5"
    } else if d == 6 {
        proof { reveal_strlit("6"); }
        "6"
    } else if d == 7 {
        proof { reveal_strlit("7"); }
        "7"
    } else if d == 8 {
        proof { reveal_strlit("8"); }
        "8"
    } else {
        proof { reveal_strlit("9"); }
        "9"
    }
}

/// The decimal text of `n`, as `format!("{}", n)` writes it.
pub fn decimal_string(n: u16) -> (res: String)
    ensures
        res@ == decimal_seq(n as nat),
    decreases n,
{
    if n < 10 {
        digit_str(n).to_owned()
    } else {
        let mut res = decimal_string(n / 10);
        res.append(digit_str(n % 10));
        res
    }
}

/// The decimal text of `n` padded with zeros to two digits, as
/// `format!("{:02}", n)` writes it.
pub fn padded2_string(n: u16) -> (res: String)
    ensures
        res@ == padded2_seq(n as nat),
{
    if n < 10 {
        let mut res = digit_str(0).to_owned();
        res.append(digit_str(n));
        res
    } else {
        decimal_string(n)
    }
}

} // verus!

//! Character-level text handling: pattern search, splitting, trimming,
//! ASCII lowercasing and decimal formatting, all over `Seq<char>` models.
use vstd::prelude::*;

verus! {

/// `String::push` appends one character.
pub assume_specification[ String::push ](s: &mut String, ch: char)
    ensures
        final(s)@ == old(s)@.push(ch),
;

/// `pat` occurs in `s` starting at index `i`.
pub open spec fn matches_at(s: Seq<char>, pat: Seq<char>, i: int) -> bool {
    &&& 0 <= i
    &&& i + pat.len() <= s.len()
    &&& s.subrange(i, i + pat.len()) == pat
}

/// The first index `j >= i` at which `pat` occurs in `s`, or `-1`.
pub open spec fn find_from(s: Seq<char>, pat: Seq<char>, i: int) -> int
    decreases s.len() - i,
{
    if i < 0 || i + pat.len() > s.len() {
        -1
    } else if pat.len() == 0 || matches_at(s, pat, i) {
        i
    } else {
        find_from(s, pat, i + 1)
    }
}

/// Splits `s` at the first occurrence of `pat` (`str::split_once`).
pub open spec fn split_once(s: Seq<char>, pat: Seq<char>) -> Option<(Seq<char>, Seq<char>)> {
    let j = find_from(s, pat, 0);
    if j < 0 {
        None
    } else {
        Some((s.take(j), s.skip(j + pat.len())))
    }
}

/// The pieces of `s[start..]` between the non-overlapping occurrences of a
/// non-empty `pat`, found from left to right (`str::split`).
pub open spec fn split_from(s: Seq<char>, pat: Seq<char>, start: int) -> Seq<Seq<char>>
    decreases s.len() - start,
{
    if pat.len() == 0 || start < 0 || start > s.len() {
        seq![]
    } else {
        let j = find_from(s, pat, start);
        if j < 0 {
            seq![s.subrange(start, s.len() as int)]
        } else {
            proof {
                lemma_find_from_bounds(s, pat, start);
            }
            seq![s.subrange(start, j)] + split_from(s, pat, j + pat.len())
        }
    }
}

/// The pieces of `s` between the occurrences of a non-empty `pat`.
pub open spec fn split(s: Seq<char>, pat: Seq<char>) -> Seq<Seq<char>> {
    split_from(s, pat, 0)
}

/// `find_from` finds an occurrence at or after `i`, the first one; `-1`
/// means there is none.
pub proof fn lemma_find_from_bounds(s: Seq<char>, pat: Seq<char>, i: int)
    requires
        0 <= i,
    ensures
        find_from(s, pat, i) == -1 || (i <= find_from(s, pat, i) && matches_at(
            s,
            pat,
            find_from(s, pat, i),
        )),
        forall|k: int| i <= k < find_from(s, pat, i) ==> !matches_at(s, pat, k),
        find_from(s, pat, i) == -1 ==> forall|k: int| i <= k ==> !matches_at(s, pat, k),
    decreases s.len() - i,
{
    if i < 0 || i + pat.len() > s.len() {
    } else if pat.len() == 0 || matches_at(s, pat, i) {
        assert(s.subrange(i, i + pat.len()) =~= pat);
    } else {
        lemma_find_from_bounds(s, pat, i + 1);
    }
}

/// Unicode `White_Space` characters, which `char::is_whitespace` recognises.
pub open spec fn is_white_space(c: char) -> bool {
    ||| ('\u{9}' <= c && c <= '\u{d}')
    ||| c == ' '
    ||| c == '\u{85}'
    ||| c == '\u{a0}'
    ||| c == '\u{1680}'
    ||| ('\u{2000}' <= c && c <= '\u{200a}')
    ||| c == '\u{2028}'
    ||| c == '\u{2029}'
    ||| c == '\u{202f}'
    ||| c == '\u{205f}'
    ||| c == '\u{3000}'
}

/// Every character of `s` is white space (`s.trim().is_empty()`).
pub open spec fn all_white_space(s: Seq<char>) -> bool {
    forall|i: int| 0 <= i < s.len() ==> is_white_space(#[trigger] s[i])
}

/// `s` without its leading white space.
pub open spec fn trim_start(s: Seq<char>) -> Seq<char>
    decreases s.len(),
{
    if s.len() > 0 && is_white_space(s[0]) {
        trim_start(s.drop_first())
    } else {
        s
    }
}

/// `s` without its trailing white space.
pub open spec fn trim_end(s: Seq<char>) -> Seq<char>
    decreases s.len(),
{
    if s.len() > 0 && is_white_space(s.last()) {
        trim_end(s.drop_last())
    } else {
        s
    }
}

/// `s` without leading and trailing white space (`str::trim`).
pub open spec fn trim(s: Seq<char>) -> Seq<char> {
    trim_end(trim_start(s))
}

/// ASCII lowercase of one character.
pub open spec fn lower_char(c: char) -> char {
    if 'A' <= c && c <= 'Z' {
        ((c as u32) + 32) as char
    } else {
        c
    }
}

/// `str::to_ascii_lowercase`.
pub open spec fn ascii_lower(s: Seq<char>) -> Seq<char> {
    s.map_values(|c: char| lower_char(c))
}

/// The decimal digit for `d` in `0..10`.
pub open spec fn digit_char(d: int) -> char {
    if d == 0 {
        '0'
    } else if d == 1 {
        '1'
    } else if d == 2 {
        '2'
    } else if d == 3 {
        '3'
    } else if d == 4 {
        '4'
    } else if d == 5 {
        '5'
    } else if d == 6 {
        '6'
    } else if d == 7 {
        '7'
    } else if d == 8 {
        '8'
    } else {
        '9'
    }
}

/// Decimal notation of a natural number, without leading zeros.
pub open spec fn dec_nat(n: nat) -> Seq<char>
    decreases n,
{
    if n < 10 {
        seq![digit_char(n as int)]
    } else {
        dec_nat(n / 10).push(digit_char((n % 10) as int))
    }
}

/// Decimal notation of an integer, with a `-` for negative values.
pub open spec fn dec_int(i: int) -> Seq<char> {
    if i < 0 {
        seq!['-'] + dec_nat((-i) as nat)
    } else {
        dec_nat(i as nat)
    }
}

/// The characters of `s`, in order.
pub fn chars_of(s: &str) -> (v: Vec<char>)
    ensures
        v@ == s@,
{
    let mut v: Vec<char> = Vec::new();
    for c in it: s.chars()
        invariant
            it.seq() == s@,
            v@ == it.seq().take(it.index() as int),
    {
        v.push(c);
    }
    assert(s@.take(s@.len() as int) == s@);
    v
}

/// Equality of two string slices by their characters.
pub fn str_eq(a: &str, b: &str) -> (r: bool)
    ensures
        r == (a@ == b@),
{
    let x = chars_of(a);
    let y = chars_of(b);
    chars_eq(&x, &y)
}

/// Equality of two character vectors.
pub fn chars_eq(x: &Vec<char>, y: &Vec<char>) -> (r: bool)
    ensures
        r == (x@ == y@),
{
    if x.len() != y.len() {
        return false;
    }
    let mut i: usize = 0;
    while i < x.len()
        invariant
            x@.len() == y@.len(),
            i <= x@.len(),
            forall|k: int| 0 <= k < i ==> x@[k] == y@[k],
        decreases x@.len() - i,
    {
        if x[i] != y[i] {
            return false;
        }
        i = i + 1;
    }
    assert(x@ =~= y@);
    true
}

/// `s[a..b]` reads `lit`.
pub fn range_eq_str(s: &Vec<char>, a: usize, b: usize, lit: &str) -> (r: bool)
    requires
        a <= b <= s@.len(),
    ensures
        r == (s@.subrange(a as int, b as int) == lit@),
{
    let l = chars_of(lit);
    if b - a != l.len() {
        assert(s@.subrange(a as int, b as int).len() != l@.len());
        return false;
    }
    let mut i: usize = 0;
    while i < l.len()
        invariant
            l@ == lit@,
            a + l@.len() == b,
            b <= s@.len(),
            i <= l@.len(),
            forall|k: int| 0 <= k < i ==> s@[a + k] == l@[k],
        decreases l@.len() - i,
    {
        if s[a + i] != l[i] {
            assert(s@.subrange(a as int, b as int)[i as int] != l@[i as int]);
            return false;
        }
        i = i + 1;
    }
    assert(s@.subrange(a as int, b as int) =~= l@);
    true
}

/// The string made of the characters `s[a..b]`.
pub fn range_string(s: &Vec<char>, a: usize, b: usize) -> (r: String)
    requires
        a <= b <= s@.len(),
    ensures
        r@ == s@.subrange(a as int, b as int),
{
    let mut r = String::new();
    let mut i: usize = a;
    while i < b
        invariant
            a <= i <= b,
            b <= s@.len(),
            r@ == s@.subrange(a as int, i as int),
        decreases b - i,
    {
        r.push(s[i]);
        assert(s@.subrange(a as int, i + 1) == s@.subrange(a as int, i as int).push(s@[i as int]));
        i = i + 1;
    }
    r
}

/// `pat` occurs in `s` at index `i`.
pub fn matches_at_exec(s: &Vec<char>, pat: &Vec<char>, i: usize) -> (r: bool)
    ensures
        r == matches_at(s@, pat@, i as int),
{
    if i > s.len() || pat.len() > s.len() - i {
        return false;
    }
    let mut k: usize = 0;
    while k < pat.len()
        invariant
            i + pat@.len() <= s@.len(),
            s@.len() <= usize::MAX,
            k <= pat@.len(),
            forall|m: int| 0 <= m < k ==> s@[i + m] == pat@[m],
        decreases pat@.len() - k,
    {
        if s[i + k] != pat[k] {
            assert(s@.subrange(i as int, i + pat@.len())[k as int] != pat@[k as int]);
            return false;
        }
        k = k + 1;
    }
    assert(s@.subrange(i as int, i + pat@.len()) =~= pat@);
    true
}

/// The first occurrence of `pat` in `s` at or after `start`.
pub fn find_from_exec(s: &Vec<char>, pat: &Vec<char>, start: usize) -> (r: Option<usize>)
    requires
        pat@.len() > 0,
    ensures
        match r {
            Some(j) => find_from(s@, pat@, start as int) == j as int,
            None => find_from(s@, pat@, start as int) == -1,
        },
{
    let mut j: usize = start;
    while j <= s.len() && pat.len() <= s.len() - j
        invariant
            pat@.len() > 0,
            start <= j,
            find_from(s@, pat@, start as int) == find_from(s@, pat@, j as int),
        decreases s@.len() + 1 - j,
    {
        if matches_at_exec(s, pat, j) {
            return Some(j);
        }
        j = j + 1;
    }
    None
}

/// `str::split_once` on a character vector, as the two halves' bounds:
/// `Some((j, k))` when `s[..j]` and `s[k..]` are the halves.
pub fn split_once_exec(s: &Vec<char>, pat: &Vec<char>) -> (r: Option<(usize, usize)>)
    requires
        pat@.len() > 0,
    ensures
        match r {
            Some((j, k)) => {
                &&& j <= k <= s@.len()
                &&& split_once(s@, pat@) == Some((s@.take(j as int), s@.skip(k as int)))
            },
            None => split_once(s@, pat@) is None,
        },
{
    match find_from_exec(s, pat, 0) {
        Some(j) => {
            proof {
                lemma_find_from_bounds(s@, pat@, 0);
            }
            let n = s.len();
            assert(j + pat@.len() <= n);
            Some((j, j + pat.len()))
        },
        None => None,
    }
}

/// `str::split` on a character vector: the bounds of each piece.
pub fn split_exec(s: &Vec<char>, pat: &Vec<char>) -> (r: Vec<(usize, usize)>)
    requires
        pat@.len() > 0,
    ensures
        r@.len() == split(s@, pat@).len(),
        forall|i: int|
            0 <= i < r@.len() ==> {
                &&& (#[trigger] r@[i]).0 <= r@[i].1 <= s@.len()
                &&& split(s@, pat@)[i] == s@.subrange(r@[i].0 as int, r@[i].1 as int)
            },
{
    let mut r: Vec<(usize, usize)> = Vec::new();
    let mut start: usize = 0;
    loop
        invariant
            pat@.len() > 0,
            start <= s@.len(),
            split(s@, pat@) == r@.map_values(
                |p: (usize, usize)| s@.subrange(p.0 as int, p.1 as int),
            ) + split_from(s@, pat@, start as int),
            forall|i: int|
                0 <= i < r@.len() ==> (#[trigger] r@[i]).0 <= r@[i].1 <= s@.len(),
        decreases s@.len() - start,
    {
        let ghost old_r = r@;
        match find_from_exec(s, pat, start) {
            Some(j) => {
                proof {
                    lemma_find_from_bounds(s@, pat@, start as int);
                }
                let n = s.len();
                assert(j + pat@.len() <= n);
                r.push((start, j));
                assert(r@.map_values(|p: (usize, usize)| s@.subrange(p.0 as int, p.1 as int))
                    =~= old_r.map_values(
                    |p: (usize, usize)| s@.subrange(p.0 as int, p.1 as int),
                ).push(s@.subrange(start as int, j as int)));
                start = j + pat.len();
            },
            None => {
                r.push((start, s.len()));
                assert(r@.map_values(|p: (usize, usize)| s@.subrange(p.0 as int, p.1 as int))
                    =~= old_r.map_values(
                    |p: (usize, usize)| s@.subrange(p.0 as int, p.1 as int),
                ).push(s@.subrange(start as int, s@.len() as int)));
                assert(split(s@, pat@) =~= r@.map_values(
                    |p: (usize, usize)| s@.subrange(p.0 as int, p.1 as int),
                ));
                return r;
            },
        }
    }
}

/// Every character of `s` is white space.
pub fn all_white_space_exec(s: &Vec<char>, a: usize, b: usize) -> (r: bool)
    requires
        a <= b <= s@.len(),
    ensures
        r == all_white_space(s@.subrange(a as int, b as int)),
{
    let mut i: usize = a;
    while i < b
        invariant
            a <= i <= b,
            b <= s@.len(),
            forall|k: int| a <= k < i ==> is_white_space(s@[k]),
        decreases b - i,
    {
        if !is_white_space_exec(s[i]) {
            assert(s@.subrange(a as int, b as int)[i - a] == s@[i as int]);
            return false;
        }
        i = i + 1;
    }
    assert forall|k: int| 0 <= k < b - a implies is_white_space(
        #[trigger] s@.subrange(a as int, b as int)[k],
    ) by {
        assert(s@.subrange(a as int, b as int)[k] == s@[a + k]);
    }
    true
}

/// `char::is_whitespace`.
pub fn is_white_space_exec(c: char) -> (r: bool)
    ensures
        r == is_white_space(c),
{
    ('\u{9}' <= c && c <= '\u{d}') || c == ' ' || c == '\u{85}' || c == '\u{a0}' || c
        == '\u{1680}' || ('\u{2000}' <= c && c <= '\u{200a}') || c == '\u{2028}' || c
        == '\u{2029}' || c == '\u{202f}' || c == '\u{205f}' || c == '\u{3000}'
}

/// ASCII lowercase of one character.
pub fn lower_char_exec(c: char) -> (r: char)
    ensures
        r == lower_char(c),
{
    if 'A' <= c && c <= 'Z' {
        let u: u32 = c as u32;
        ((u + 32) as u8) as char
    } else {
        c
    }
}

/// `str::to_ascii_lowercase` of `s[a..b]`.
pub fn ascii_lower_range(s: &Vec<char>, a: usize, b: usize) -> (r: String)
    requires
        a <= b <= s@.len(),
    ensures
        r@ == ascii_lower(s@.subrange(a as int, b as int)),
{
    let mut r = String::new();
    let mut i: usize = a;
    while i < b
        invariant
            a <= i <= b,
            b <= s@.len(),
            r@ == ascii_lower(s@.subrange(a as int, i as int)),
        decreases b - i,
    {
        let c = lower_char_exec(s[i]);
        r.push(c);
        assert(ascii_lower(s@.subrange(a as int, i + 1)) =~= ascii_lower(
            s@.subrange(a as int, i as int),
        ).push(lower_char(s@[i as int])));
        i = i + 1;
    }
    r
}

/// The bounds of `trim(s[a..b])` within `s`.
pub fn trim_range(s: &Vec<char>, a: usize, b: usize) -> (r: (usize, usize))
    requires
        a <= b <= s@.len(),
    ensures
        a <= r.0 <= r.1 <= b,
        trim(s@.subrange(a as int, b as int)) == s@.subrange(r.0 as int, r.1 as int),
{
    let mut i: usize = a;
    while i < b && is_white_space_exec(s[i])
        invariant
            a <= i <= b,
            b <= s@.len(),
            trim_start(s@.subrange(a as int, b as int)) == trim_start(
                s@.subrange(i as int, b as int),
            ),
        decreases b - i,
    {
        assert(s@.subrange(i as int, b as int).drop_first() =~= s@.subrange(i + 1, b as int));
        i = i + 1;
    }
    assert(trim_start(s@.subrange(i as int, b as int)) == s@.subrange(i as int, b as int));
    let mut j: usize = b;
    while j > i && is_white_space_exec(s[j - 1])
        invariant
            a <= i <= j <= b,
            b <= s@.len(),
            trim(s@.subrange(a as int, b as int)) == trim_end(s@.subrange(i as int, j as int)),
        decreases j - i,
    {
        assert(s@.subrange(i as int, j as int).drop_last() =~= s@.subrange(i as int, j - 1));
        j = j - 1;
    }
    (i, j)
}

/// Appends the decimal notation of `n` to `s`.
pub fn push_dec_nat(s: &mut String, n: u64)
    ensures
        final(s)@ == old(s)@ + dec_nat(n as nat),
    decreases n,
{
    if n >= 10 {
        push_dec_nat(s, n / 10);
    }
    let d = n % 10;
    let c = if d == 0 {
        '0'
    } else if d == 1 {
        '1'
    } else if d == 2 {
        '2'
    } else if d == 3 {
        '3'
    } else if d == 4 {
        '4'
    } else if d == 5 {
        '5'
    } else if d == 6 {
        '6'
    } else if d == 7 {
        '7'
    } else if d == 8 {
        '8'
    } else {
        '9'
    };
    s.push(c);
    proof {
        if n >= 10 {
            assert(dec_nat(n as nat) == dec_nat((n / 10) as nat).push(digit_char((n % 10) as int)));
        }
    }
}

/// Appends the decimal notation of `n` to `s`.
pub fn push_dec_int(s: &mut String, n: i32)
    ensures
        final(s)@ == old(s)@ + dec_int(n as int),
{
    if n < 0 {
        s.push('-');
        let m: i64 = n as i64;
        let mag: u64 = (-m) as u64;
        push_dec_nat(s, mag);
        assert(s@ =~= old(s)@ + (seq!['-'] + dec_nat((-n) as nat)));
    } else {
        push_dec_nat(s, n as u64);
    }
}

} // verus!

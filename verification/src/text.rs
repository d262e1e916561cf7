//! Verified text helpers: character predicates, string equality, decimal
//! rendering, case folding, trimming, substring search and replacement.
//!
//! Everything here works at the level of `Seq<char>` views; no outside
//! crate is involved.

use vstd::prelude::*;
use vstd::string::*;

verus! {

/// An ASCII letter, the data-quality gate used by the tag cache.
pub open spec fn is_alpha_char(c: char) -> bool {
    ('A' <= c && c <= 'Z') || ('a' <= c && c <= 'z')
}

/// Whether some character of `s` is an ASCII letter.
pub open spec fn has_alpha(s: Seq<char>) -> bool {
    exists|i: int| 0 <= i < s.len() && is_alpha_char(s[i])
}

/// ASCII whitespace, the characters stripped by title trimming.
pub open spec fn is_space_char(c: char) -> bool {
    c == ' ' || c == '\t' || c == '\n' || c == '\r' || c == '\x0b' || c == '\x0c'
}

/// ASCII lower-casing of one character; other characters are unchanged.
pub open spec fn lower_char(c: char) -> char {
    if c == 'A' { 'a' } else if c == 'B' { 'b' } else if c == 'C' { 'c' }
    else if c == 'D' { 'd' } else if c == 'E' { 'e' } else if c == 'F' { 'f' }
    else if c == 'G' { 'g' } else if c == 'H' { 'h' } else if c == 'I' { 'i' }
    else if c == 'J' { 'j' } else if c == 'K' { 'k' } else if c == 'L' { 'l' }
    else if c == 'M' { 'm' } else if c == 'N' { 'n' } else if c == 'O' { 'o' }
    else if c == 'P' { 'p' } else if c == 'Q' { 'q' } else if c == 'R' { 'r' }
    else if c == 'S' { 's' } else if c == 'T' { 't' } else if c == 'U' { 'u' }
    else if c == 'V' { 'v' } else if c == 'W' { 'w' } else if c == 'X' { 'x' }
    else if c == 'Y' { 'y' } else if c == 'Z' { 'z' } else { c }
}

/// ASCII lower-casing of a character sequence.
pub open spec fn lower_chars(s: Seq<char>) -> Seq<char> {
    s.map_values(|c: char| lower_char(c))
}

/// Whether `s` holds at least one ASCII letter.
pub fn contains_alpha(s: &str) -> (r: bool)
    ensures
        r == has_alpha(s@),
{
    let n = s.unicode_len();
    for i in 0..n
        invariant
            n == s@.len(),
            forall|j: int| 0 <= j < i ==> !is_alpha_char(#[trigger] s@[j]),
    {
        let c = s.get_char(i);
        if ('A' <= c && c <= 'Z') || ('a' <= c && c <= 'z') {
            return true;
        }
    }
    false
}

/// Character-wise string equality, proved against the views.
pub fn str_eq(a: &str, b: &str) -> (r: bool)
    ensures
        r == (a@ == b@),
{
    let n = a.unicode_len();
    if n != b.unicode_len() {
        assert(a@ != b@) by {
            assert(a@.len() != b@.len());
        }
        return false;
    }
    for i in 0..n
        invariant
            n == a@.len(),
            n == b@.len(),
            forall|j: int| 0 <= j < i ==> a@[j] == b@[j],
    {
        if a.get_char(i) != b.get_char(i) {
            return false;
        }
    }
    assert(a@ =~= b@);
    true
}

/// The decimal digit character for `d` (0 through 9).
pub open spec fn digit_char(d: int) -> char {
    if d == 0 { '0' } else if d == 1 { '1' } else if d == 2 { '2' }
    else if d == 3 { '3' } else if d == 4 { '4' } else if d == 5 { '5' }
    else if d == 6 { '6' } else if d == 7 { '7' } else if d == 8 { '8' }
    else { '9' }
}

/// The decimal rendering of a non-negative integer, most significant
/// digit first, with no leading zero except for zero itself.
pub open spec fn decimal_chars(n: int) -> Seq<char>
    decreases n,
{
    if n < 10 {
        seq![digit_char(n)]
    } else {
        decimal_chars(n / 10).push(digit_char(n % 10))
    }
}

fn digit_str(d: u64) -> (r: &'static str)
    requires
        d < 10,
    ensures
        r@ =~= seq![digit_char(d as int)],
{
    proof {
        reveal_strlit("0");
        reveal_strlit("1");
        reveal_strlit("2");
        reveal_strlit("3");
        reveal_strlit("4");
        reveal_strlit("5");
        reveal_strlit("6");
        reveal_strlit("7");
        reveal_strlit("8");
        reveal_strlit("9");
    }
    match d {
        0 => "0",
        1 => "1",
        2 => "2",
        3 => "3",
        4 => "4",
        5 => "5",
        6 => "6",
        7 => "7",
        8 => "8",
        _ => "9",
    }
}

/// Renders `n` in decimal.
pub fn u64_to_string(n: u64) -> (r: String)
    ensures
        r@ == decimal_chars(n as int),
    decreases n,
{
    if n < 10 {
        digit_str(n).to_owned()
    } else {
        let mut s = u64_to_string(n / 10);
        s.append(digit_str(n % 10));
        s
    }
}

/// The lower-case letter for an upper-case ASCII letter, as a string.
fn lower_letter_str(c: char) -> (r: &'static str)
    requires
        'A' <= c && c <= 'Z',
    ensures
        r@ =~= seq![lower_char(c)],
{
    proof {
        reveal_strlit("a");
        reveal_strlit("b");
        reveal_strlit("c");
        reveal_strlit("d");
        reveal_strlit("e");
        reveal_strlit("f");
        reveal_strlit("g");
        reveal_strlit("h");
        reveal_strlit("i");
        reveal_strlit("j");
        reveal_strlit("k");
        reveal_strlit("l");
        reveal_strlit("m");
        reveal_strlit("n");
        reveal_strlit("o");
        reveal_strlit("p");
        reveal_strlit("q");
        reveal_strlit("r");
        reveal_strlit("s");
        reveal_strlit("t");
        reveal_strlit("u");
        reveal_strlit("v");
        reveal_strlit("w");
        reveal_strlit("x");
        reveal_strlit("y");
        reveal_strlit("z");
    }
    match c {
        'A' => "a", 'B' => "b", 'C' => "c", 'D' => "d", 'E' => "e",
        'F' => "f", 'G' => "g", 'H' => "h", 'I' => "i", 'J' => "j",
        'K' => "k", 'L' => "l", 'M' => "m", 'N' => "n", 'O' => "o",
        'P' => "p", 'Q' => "q", 'R' => "r", 'S' => "s", 'T' => "t",
        'U' => "u", 'V' => "v", 'W' => "w", 'X' => "x", 'Y' => "y",
        _ => "z",
    }
}

/// Lower-cases the ASCII letters of `s`.
pub fn to_ascii_lower(s: &str) -> (r: String)
    ensures
        r@ == lower_chars(s@),
{
    let n = s.unicode_len();
    let mut out = String::new();
    for i in 0..n
        invariant
            n == s@.len(),
            out@ =~= s@.take(i as int).map_values(|c: char| lower_char(c)),
    {
        let c = s.get_char(i);
        if 'A' <= c && c <= 'Z' {
            out.append(lower_letter_str(c));
        } else {
            proof {
                assert(s@.subrange(i as int, i + 1) =~= seq![lower_char(s@[i as int])]);
            }
            out.append(s.substring_char(i, i + 1));
        }
        proof {
            assert(s@.take(i + 1).map_values(|c: char| lower_char(c)) =~= s@.take(
                i as int,
            ).map_values(|c: char| lower_char(c)).push(lower_char(s@[i as int])));
        }
    }
    proof {
        assert(s@.take(n as int) =~= s@);
    }
    out
}

/// `s` with leading ASCII whitespace removed.
pub open spec fn trim_start_chars(s: Seq<char>) -> Seq<char>
    decreases s.len(),
{
    if s.len() > 0 && is_space_char(s[0]) {
        trim_start_chars(s.drop_first())
    } else {
        s
    }
}

/// `s` with trailing ASCII whitespace removed.
pub open spec fn trim_end_chars(s: Seq<char>) -> Seq<char>
    decreases s.len(),
{
    if s.len() > 0 && is_space_char(s.last()) {
        trim_end_chars(s.drop_last())
    } else {
        s
    }
}

/// `s` with ASCII whitespace removed from both ends.
pub open spec fn trim_chars(s: Seq<char>) -> Seq<char> {
    trim_end_chars(trim_start_chars(s))
}

proof fn lemma_trim_start_skip(s: Seq<char>, a: int)
    requires
        0 <= a <= s.len(),
        forall|k: int| 0 <= k < a ==> is_space_char(#[trigger] s[k]),
        a < s.len() ==> !is_space_char(s[a]),
    ensures
        trim_start_chars(s) =~= s.skip(a),
    decreases a,
{
    if a == 0 {
        assert(s.skip(0) =~= s);
    } else {
        assert(is_space_char(s[0]));
        lemma_trim_start_skip(s.drop_first(), a - 1);
        assert(s.drop_first().skip(a - 1) =~= s.skip(a));
    }
}

proof fn lemma_trim_end_take(s: Seq<char>, b: int)
    requires
        0 <= b <= s.len(),
        forall|k: int| b <= k < s.len() ==> is_space_char(#[trigger] s[k]),
        b > 0 ==> !is_space_char(s[b - 1]),
    ensures
        trim_end_chars(s) =~= s.take(b),
    decreases s.len(),
{
    if b == s.len() {
        if s.len() > 0 && is_space_char(s.last()) {
            assert(!is_space_char(s[b - 1]));
            assert(false);
        }
        assert(s.take(b) =~= s);
    } else {
        assert(is_space_char(s.last()));
        lemma_trim_end_take(s.drop_last(), b);
        assert(s.drop_last().take(b) =~= s.take(b));
    }
}

/// Executable test for ASCII whitespace.
pub fn is_space_exec(c: char) -> (r: bool)
    ensures
        r == is_space_char(c),
{
    c == ' ' || c == '\t' || c == '\n' || c == '\r' || c == '\x0b' || c == '\x0c'
}

/// Removes ASCII whitespace from both ends of `s`.
pub fn trim(s: &str) -> (r: String)
    ensures
        r@ == trim_chars(s@),
{
    let n = s.unicode_len();
    let mut a: usize = 0;
    while a < n && is_space_exec(s.get_char(a))
        invariant
            n == s@.len(),
            a <= n,
            forall|k: int| 0 <= k < a ==> is_space_char(#[trigger] s@[k]),
        decreases n - a,
    {
        a = a + 1;
    }
    proof {
        lemma_trim_start_skip(s@, a as int);
    }
    let mut b: usize = n;
    while b > a && is_space_exec(s.get_char(b - 1))
        invariant
            n == s@.len(),
            a <= b <= n,
            forall|k: int| b <= k < n ==> is_space_char(#[trigger] s@[k]),
        decreases b,
    {
        b = b - 1;
    }
    proof {
        let t = s@.skip(a as int);
        lemma_trim_end_take(t, b - a);
        assert(forall|k: int|
            b - a <= k < t.len() ==> is_space_char(#[trigger] t[k]) == is_space_char(
                s@[k + a],
            ));
        assert(trim_end_chars(t) =~= t.take(b - a));
        assert(t.take(b - a) =~= s@.subrange(a as int, b as int));
    }
    s.substring_char(a, b).to_owned()
}

/// Removes leading ASCII whitespace from `s`.
pub fn trim_start(s: &str) -> (r: String)
    ensures
        r@ == trim_start_chars(s@),
{
    let n = s.unicode_len();
    let mut a: usize = 0;
    while a < n && is_space_exec(s.get_char(a))
        invariant
            n == s@.len(),
            a <= n,
            forall|k: int| 0 <= k < a ==> is_space_char(#[trigger] s@[k]),
        decreases n - a,
    {
        a = a + 1;
    }
    proof {
        lemma_trim_start_skip(s@, a as int);
    }
    s.substring_char(a, n).to_owned()
}

/// The first index at or after `i` holding `a` or `b`.
pub open spec fn first_of_two(s: Seq<char>, a: char, b: char, i: int) -> Option<int>
    decreases s.len() - i,
{
    if i < 0 || i >= s.len() {
        None
    } else if s[i] == a || s[i] == b {
        Some(i)
    } else {
        first_of_two(s, a, b, i + 1)
    }
}

/// Finds the first occurrence of `a` or `b` at or after `from`.
pub fn find_first_of_two(s: &str, a: char, b: char, from: usize) -> (r: Option<usize>)
    ensures
        match r {
            Some(j) => first_of_two(s@, a, b, from as int) == Some(j as int) && from <= j
                < s@.len() && (s@[j as int] == a || s@[j as int] == b),
            None => first_of_two(s@, a, b, from as int) is None,
        },
{
    let n = s.unicode_len();
    if from >= n {
        return None;
    }
    let mut i: usize = from;
    while i < n
        invariant
            n == s@.len(),
            from <= i <= n,
            first_of_two(s@, a, b, from as int) == first_of_two(s@, a, b, i as int),
        decreases n - i,
    {
        let c = s.get_char(i);
        if c == a || c == b {
            return Some(i);
        }
        i = i + 1;
    }
    None
}

/// Whether the characters of `s` starting at `i` equal `pat`.
pub fn match_at(s: &str, i: usize, pat: &str) -> (b: bool)
    requires
        i + pat@.len() <= s@.len(),
        i + pat@.len() <= usize::MAX,
    ensures
        b == (s@.subrange(i as int, i + pat@.len()) == pat@),
{
    let m = pat.unicode_len();
    for j in 0..m
        invariant
            m == pat@.len(),
            i + m <= s@.len(),
            i + m <= usize::MAX,
            forall|k: int| 0 <= k < j ==> s@[i + k] == pat@[k],
    {
        if s.get_char(i + j) != pat.get_char(j) {
            assert(s@.subrange(i as int, i + pat@.len())[j as int] != pat@[j as int]);
            return false;
        }
    }
    assert(s@.subrange(i as int, i + pat@.len()) =~= pat@);
    true
}

/// `s` with every non-overlapping occurrence of `pat` replaced by `sub`,
/// scanning left to right, as std's `str::replace` does.
pub open spec fn replace_chars(s: Seq<char>, pat: Seq<char>, sub: Seq<char>) -> Seq<char>
    decreases s.len(),
{
    if pat.len() == 0 || s.len() < pat.len() {
        s
    } else if s.take(pat.len() as int) == pat {
        sub + replace_chars(s.skip(pat.len() as int), pat, sub)
    } else {
        seq![s[0]] + replace_chars(s.skip(1), pat, sub)
    }
}

/// Replaces every occurrence of `pat` in `s` by `sub`.
pub fn replace_all(s: &str, pat: &str, sub: &str) -> (r: String)
    requires
        pat@.len() >= 1,
    ensures
        r@ == replace_chars(s@, pat@, sub@),
{
    let n = s.unicode_len();
    let m = pat.unicode_len();
    let mut out = String::new();
    let mut i: usize = 0;
    proof {
        assert(s@.skip(0) =~= s@);
        assert(Seq::<char>::empty() + replace_chars(s@, pat@, sub@) =~= replace_chars(
            s@,
            pat@,
            sub@,
        ));
    }
    while i < n
        invariant
            n == s@.len(),
            m == pat@.len(),
            m >= 1,
            i <= n,
            out@ + replace_chars(s@.skip(i as int), pat@, sub@) == replace_chars(
                s@,
                pat@,
                sub@,
            ),
        decreases n - i,
    {
        let ghost pre = out@;
        let ghost tail = s@.skip(i as int);
        if n - i >= m && match_at(s, i, pat) {
            proof {
                assert(tail.take(m as int) =~= s@.subrange(i as int, i + m));
                assert(tail.skip(m as int) =~= s@.skip(i + m));
            }
            out.append(sub);
            i = i + m;
        } else {
            proof {
                if tail.len() >= m {
                    assert(tail.take(m as int) =~= s@.subrange(i as int, i + m));
                }
                assert(seq![tail[0]] =~= s@.subrange(i as int, i + 1));
                assert(tail.skip(1) =~= s@.skip(i + 1));
            }
            out.append(s.substring_char(i, i + 1));
            i = i + 1;
            proof {
                if tail.len() < m {
                    assert(replace_chars(tail, pat@, sub@) == tail);
                    assert(replace_chars(s@.skip(i as int), pat@, sub@) == s@.skip(
                        i as int,
                    ));
                    assert(tail =~= s@.subrange(i - 1, i as int) + s@.skip(i as int));
                }
            }
        }
    }
    proof {
        assert(s@.skip(n as int) =~= Seq::<char>::empty());
        assert(replace_chars(s@.skip(n as int), pat@, sub@) =~= Seq::<char>::empty());
        assert(out@ =~= out@ + Seq::<char>::empty());
    }
    out
}

/// The characters after the last occurrence of `sep`, or all of `s` when
/// `sep` does not occur.
pub open spec fn after_last_char(s: Seq<char>, sep: char) -> Seq<char>
    decreases s.len(),
{
    if s.len() == 0 {
        s
    } else if s.last() == sep {
        Seq::empty()
    } else {
        after_last_char(s.drop_last(), sep).push(s.last())
    }
}

/// The extension of a file name: the characters after its last `.`,
/// provided that dot is not the leading character, as std's
/// `Path::extension` reads a file name.
pub open spec fn ext_of_file_name(f: Seq<char>) -> Option<Seq<char>>
    decreases f.len(),
{
    if f.len() <= 1 {
        None
    } else if f.last() == '.' {
        Some(Seq::empty())
    } else {
        match ext_of_file_name(f.drop_last()) {
            Some(e) => Some(e.push(f.last())),
            None => None,
        }
    }
}

/// The extension of a `/`-separated path: the extension of its final
/// component.
pub open spec fn ext_of_path(s: Seq<char>) -> Option<Seq<char>> {
    ext_of_file_name(after_last_char(s, '/'))
}

proof fn lemma_after_last_skip(s: Seq<char>, k: int, sep: char)
    requires
        0 <= k <= s.len(),
        k > 0 ==> s[k - 1] == sep,
        forall|j: int| k <= j < s.len() ==> s[j] != sep,
    ensures
        after_last_char(s, sep) =~= s.skip(k),
    decreases s.len(),
{
    if s.len() == 0 {
    } else if k == s.len() {
        if k > 0 {
            assert(s.last() == sep);
        }
    } else {
        assert(s.last() != sep);
        lemma_after_last_skip(s.drop_last(), k, sep);
        assert(s.drop_last().skip(k) =~= s.skip(k).drop_last());
    }
}

proof fn lemma_ext_some(f: Seq<char>, p: int)
    requires
        1 <= p < f.len(),
        f[p] == '.',
        forall|j: int| p < j < f.len() ==> f[j] != '.',
    ensures
        ext_of_file_name(f) == Some(f.skip(p + 1)),
    decreases f.len(),
{
    if p == f.len() - 1 {
        assert(f.last() == '.');
        assert(f.skip(p + 1) =~= Seq::<char>::empty());
    } else {
        assert(f.last() != '.');
        lemma_ext_some(f.drop_last(), p);
        assert(f.drop_last().skip(p + 1).push(f.last()) =~= f.skip(p + 1));
    }
}

proof fn lemma_ext_none(f: Seq<char>)
    requires
        forall|j: int| 1 <= j < f.len() ==> f[j] != '.',
    ensures
        ext_of_file_name(f) is None,
    decreases f.len(),
{
    if f.len() > 1 {
        assert(f.last() != '.');
        lemma_ext_none(f.drop_last());
    }
}

/// The extension of `path`, as `ext_of_path` reads it.
pub fn extension_of(path: &str) -> (r: Option<String>)
    ensures
        r is Some <==> ext_of_path(path@) is Some,
        r is Some ==> r->Some_0@ == ext_of_path(path@)->Some_0,
{
    let n = path.unicode_len();
    // The final component starts after the last '/'.
    let mut fstart: usize = n;
    while fstart > 0 && path.get_char(fstart - 1) != '/'
        invariant
            n == path@.len(),
            fstart <= n,
            forall|j: int| fstart <= j < n ==> path@[j] != '/',
        decreases fstart,
    {
        fstart = fstart - 1;
    }
    proof {
        lemma_after_last_skip(path@, fstart as int, '/');
    }
    let ghost f = path@.skip(fstart as int);
    // The last '.' strictly inside the final component.
    let mut p: usize = n;
    while p > 0 && p - 1 > fstart && path.get_char(p - 1) != '.'
        invariant
            n == path@.len(),
            fstart <= p <= n,
            forall|j: int| p <= j < n ==> path@[j] != '.',
        decreases p,
    {
        p = p - 1;
    }
    if p > 0 && p - 1 > fstart {
        // path[p - 1] == '.', at index p - 1 - fstart >= 1 of the component.
        proof {
            lemma_ext_some(f, p - 1 - fstart);
            assert(f.skip(p - fstart) =~= path@.subrange(p as int, n as int));
        }
        Some(path.substring_char(p, n).to_owned())
    } else {
        proof {
            assert(forall|j: int| 1 <= j < f.len() ==> f[j] != #[trigger] f[j] || f[j]
                != '.') by {
                assert(forall|j: int|
                    fstart + 1 <= j < n ==> path@[j] != #[trigger] path@[j] || path@[j]
                        != '.');
            }
            assert(forall|j: int| 1 <= j < f.len() ==> #[trigger] f[j] != '.') by {
                assert(forall|j: int| 1 <= j < f.len() ==> f[j] == path@[j + fstart]);
            }
            lemma_ext_none(f);
        }
        None
    }
}

} // verus!

//! Text primitives: trimming, splitting and searching, over the characters of a string.
use vstd::prelude::*;
use vstd::string::*;
use vstd::utf8::*;

verus! {

/// The characters with the Unicode `White_Space` property.
pub open spec fn white_space(c: char) -> bool {
    let u = c as u32;
    ||| 0x09 <= u <= 0x0d
    ||| u == 0x20
    ||| u == 0x85
    ||| u == 0xa0
    ||| u == 0x1680
    ||| 0x2000 <= u <= 0x200a
    ||| u == 0x2028
    ||| u == 0x2029
    ||| u == 0x202f
    ||| u == 0x205f
    ||| u == 0x3000
}

/// Tells white space from other characters.
pub fn is_white_space(c: char) -> (r: bool)
    ensures
        r == white_space(c),
{
    let u: u32 = c as u32;
    (0x09 <= u && u <= 0x0d) || u == 0x20 || u == 0x85 || u == 0xa0 || u == 0x1680 || (0x2000 <= u
        && u <= 0x200a) || u == 0x2028 || u == 0x2029 || u == 0x202f || u == 0x205f || u == 0x3000
}

/// The characters of `s`, in order.
pub fn chars_of(s: &str) -> (r: Vec<char>)
    ensures
        r@ == s@,
{
    let mut out: Vec<char> = Vec::new();
    for c in it: s.chars()
        invariant
            it.seq() == s@,
            out@ == s@.take(it.index() as int),
    {
        out.push(c);
    }
    out
}

/// The length of the UTF-8 form of `s`.
pub open spec fn byte_len(s: Seq<char>) -> nat {
    encode_utf8(s).len()
}

/// The length of `s` in bytes.
pub fn str_byte_len(s: &str) -> (r: usize)
    ensures
        r == byte_len(s@),
{
    s.as_bytes().len()
}

/// Two strings hold the same characters.
pub fn str_eq(a: &str, b: &str) -> (r: bool)
    ensures
        r == (a@ == b@),
{
    let x = a.as_bytes();
    let y = b.as_bytes();
    proof {
        encode_utf8_decode_utf8(a@);
        encode_utf8_decode_utf8(b@);
    }
    if x.len() != y.len() {
        return false;
    }
    let mut i: usize = 0;
    while i < x.len()
        invariant
            x@ == encode_utf8(a@),
            y@ == encode_utf8(b@),
            x@.len() == y@.len(),
            i <= x@.len(),
            x@.take(i as int) == y@.take(i as int),
        decreases x@.len() - i,
    {
        if x[i] != y[i] {
            return false;
        }
        assert(x@.take(i + 1) == x@.take(i as int).push(x@[i as int]));
        assert(y@.take(i + 1) == y@.take(i as int).push(y@[i as int]));
        i = i + 1;
    }
    assert(x@.take(i as int) == x@);
    assert(y@.take(i as int) == y@);
    true
}


/// `s` without its leading white space.
pub open spec fn trimmed_start(s: Seq<char>) -> Seq<char>
    decreases s.len(),
{
    if s.len() > 0 && white_space(s[0]) {
        trimmed_start(s.skip(1))
    } else {
        s
    }
}

/// `s` without its trailing white space.
pub open spec fn trimmed_end(s: Seq<char>) -> Seq<char>
    decreases s.len(),
{
    if s.len() > 0 && white_space(s.last()) {
        trimmed_end(s.drop_last())
    } else {
        s
    }
}

/// `s` without white space at either end.
pub open spec fn trimmed(s: Seq<char>) -> Seq<char> {
    trimmed_end(trimmed_start(s))
}

/// `s` without its leading run of `c`.
pub open spec fn trimmed_start_char(s: Seq<char>, c: char) -> Seq<char>
    decreases s.len(),
{
    if s.len() > 0 && s[0] == c {
        trimmed_start_char(s.skip(1), c)
    } else {
        s
    }
}

/// `s` without its trailing run of `c`.
pub open spec fn trimmed_end_char(s: Seq<char>, c: char) -> Seq<char>
    decreases s.len(),
{
    if s.len() > 0 && s.last() == c {
        trimmed_end_char(s.drop_last(), c)
    } else {
        s
    }
}

/// `s` without `c` at either end.
pub open spec fn trimmed_char(s: Seq<char>, c: char) -> Seq<char> {
    trimmed_end_char(trimmed_start_char(s, c), c)
}

/// Removes white space at both ends.
pub fn trim<'a>(s: &'a str) -> (r: &'a str)
    ensures
        r@ == trimmed(s@),
{
    let cs = chars_of(s);
    let n: usize = cs.len();
    let mut i: usize = 0;
    assert(s@.skip(0) == s@);
    while i < n && is_white_space(cs[i])
        invariant
            cs@ == s@,
            n == s@.len(),
            i <= n,
            trimmed_start(s@) == trimmed_start(s@.skip(i as int)),
        decreases n - i,
    {
        assert(s@.skip(i as int).skip(1) == s@.skip(i + 1));
        i = i + 1;
    }
    let mut j: usize = n;
    assert(s@.skip(i as int) == s@.subrange(i as int, n as int));
    while j > i && is_white_space(cs[j - 1])
        invariant
            cs@ == s@,
            n == s@.len(),
            i <= j <= n,
            trimmed(s@) == trimmed_end(s@.subrange(i as int, j as int)),
        decreases j,
    {
        assert(s@.subrange(i as int, j as int).drop_last() == s@.subrange(i as int, j - 1));
        j = j - 1;
    }
    s.substring_char(i, j)
}

/// Removes a trailing run of `c`.
pub fn trim_end_char<'a>(s: &'a str, c: char) -> (r: &'a str)
    ensures
        r@ == trimmed_end_char(s@, c),
{
    let cs = chars_of(s);
    let n: usize = cs.len();
    let mut j: usize = n;
    assert(s@.take(n as int) == s@);
    while j > 0 && cs[j - 1] == c
        invariant
            cs@ == s@,
            n == s@.len(),
            j <= n,
            trimmed_end_char(s@, c) == trimmed_end_char(s@.take(j as int), c),
        decreases j,
    {
        assert(s@.take(j as int).drop_last() == s@.take(j - 1));
        j = j - 1;
    }
    assert(s@.subrange(0, j as int) == s@.take(j as int));
    s.substring_char(0, j)
}

/// Removes `c` from both ends.
pub fn trim_char<'a>(s: &'a str, c: char) -> (r: &'a str)
    ensures
        r@ == trimmed_char(s@, c),
{
    let cs = chars_of(s);
    let n: usize = cs.len();
    let mut i: usize = 0;
    assert(s@.skip(0) == s@);
    while i < n && cs[i] == c
        invariant
            cs@ == s@,
            n == s@.len(),
            i <= n,
            trimmed_start_char(s@, c) == trimmed_start_char(s@.skip(i as int), c),
        decreases n - i,
    {
        assert(s@.skip(i as int).skip(1) == s@.skip(i + 1));
        i = i + 1;
    }
    assert(s@.subrange(i as int, n as int) == s@.skip(i as int));
    trim_end_char(s.substring_char(i, n), c)
}

/// `s` begins with `p`.
pub open spec fn has_prefix(s: Seq<char>, p: Seq<char>) -> bool {
    p.len() <= s.len() && s.take(p.len() as int) == p
}

/// `s` ends with `p`.
pub open spec fn has_suffix(s: Seq<char>, p: Seq<char>) -> bool {
    p.len() <= s.len() && s.skip(s.len() - p.len()) == p
}

/// `p` stands somewhere in `s`.
pub open spec fn has_infix(s: Seq<char>, p: Seq<char>) -> bool {
    exists|i: int| 0 <= i && #[trigger] infix_at(s, p, i)
}

/// `p` stands in `s` at position `i`.
pub open spec fn infix_at(s: Seq<char>, p: Seq<char>, i: int) -> bool {
    0 <= i <= s.len() && i + p.len() <= s.len() && s.subrange(i, i + p.len()) == p
}

/// `p` stands in `s` at position `at`.
fn matches_at(s: &Vec<char>, p: &Vec<char>, at: usize) -> (r: bool)
    ensures
        r == infix_at(s@, p@, at as int),
{
    if at > s.len() || s.len() - at < p.len() {
        return false;
    }
    let mut k: usize = 0;
    while k < p.len()
        invariant
            at + p@.len() <= s.len(),
            s.len() == s@.len(),
            k <= p@.len(),
            forall|j: int| 0 <= j < k ==> s@[at + j] == #[trigger] p@[j],
        decreases p@.len() - k,
    {
        if s[at + k] != p[k] {
            assert(s@.subrange(at as int, at + p@.len())[k as int] == s@[at + k]);
            return false;
        }
        k = k + 1;
    }
    assert(s@.subrange(at as int, at + p@.len()) =~= p@);
    true
}

/// Tests for a prefix.
pub fn starts_with(s: &str, p: &str) -> (r: bool)
    ensures
        r == has_prefix(s@, p@),
{
    let cs = chars_of(s);
    let ps = chars_of(p);
    assert(ps@.len() <= cs@.len() ==> cs@.subrange(0, ps@.len() as int) == cs@.take(
        ps@.len() as int,
    ));
    matches_at(&cs, &ps, 0)
}

/// Tests for a suffix.
pub fn ends_with(s: &str, p: &str) -> (r: bool)
    ensures
        r == has_suffix(s@, p@),
{
    let cs = chars_of(s);
    let ps = chars_of(p);
    if cs.len() < ps.len() {
        return false;
    }
    assert(cs@.subrange(cs@.len() - ps@.len(), cs@.len() as int) == cs@.skip(
        cs@.len() - ps@.len(),
    ));
    matches_at(&cs, &ps, cs.len() - ps.len())
}

/// Tests for an occurrence anywhere.
pub fn contains(s: &str, p: &str) -> (r: bool)
    ensures
        r == has_infix(s@, p@),
{
    let cs = chars_of(s);
    let ps = chars_of(p);
    if cs.len() < ps.len() {
        return false;
    }
    let last: usize = cs.len() - ps.len();
    let mut i: usize = 0;
    loop
        invariant
            cs@ == s@,
            ps@ == p@,
            last == cs@.len() - ps@.len(),
            i <= last,
            forall|j: int| 0 <= j < i ==> !#[trigger] infix_at(s@, p@, j),
        decreases last - i,
    {
        if matches_at(&cs, &ps, i) {
            return true;
        }
        if i == last {
            assert forall|j: int| 0 <= j implies !#[trigger] infix_at(s@, p@, j) by {
                if j > last {
                    assert(j + p@.len() > s@.len());
                }
            }
            return false;
        }
        i = i + 1;
    }
}

/// `s` without any leading repetitions of `p`.
pub open spec fn without_prefixes(s: Seq<char>, p: Seq<char>) -> Seq<char>
    decreases s.len(),
{
    if p.len() > 0 && has_prefix(s, p) {
        without_prefixes(s.skip(p.len() as int), p)
    } else {
        s
    }
}

/// `s` without any trailing repetitions of `p`.
pub open spec fn without_suffixes(s: Seq<char>, p: Seq<char>) -> Seq<char>
    decreases s.len(),
{
    if p.len() > 0 && has_suffix(s, p) {
        without_suffixes(s.take(s.len() - p.len()), p)
    } else {
        s
    }
}

/// Removes leading repetitions of `p`.
pub fn trim_prefixes<'a>(s: &'a str, p: &str) -> (r: &'a str)
    ensures
        r@ == without_prefixes(s@, p@),
{
    let cs = chars_of(s);
    let ps = chars_of(p);
    let n: usize = cs.len();
    let mut i: usize = 0;
    assert(s@.skip(0) == s@);
    if ps.len() > 0 {
        while matches_at(&cs, &ps, i)
            invariant
                cs@ == s@,
                ps@ == p@,
                n == s@.len(),
                0 < p@.len(),
                i <= n,
                without_prefixes(s@, p@) == without_prefixes(s@.skip(i as int), p@),
            decreases n - i,
        {
            assert(s@.skip(i as int).take(p@.len() as int) == s@.subrange(
                i as int,
                i + p@.len(),
            ));
            assert(s@.skip(i as int).skip(p@.len() as int) == s@.skip(i + p@.len()));
            i = i + ps.len();
        }
        assert(has_prefix(s@.skip(i as int), p@) ==> s@.skip(i as int).take(p@.len() as int)
            == s@.subrange(i as int, i + p@.len()));
    }
    assert(s@.subrange(i as int, n as int) == s@.skip(i as int));
    s.substring_char(i, n)
}

/// Removes trailing repetitions of `p`.
pub fn trim_suffixes<'a>(s: &'a str, p: &str) -> (r: &'a str)
    ensures
        r@ == without_suffixes(s@, p@),
{
    let cs = chars_of(s);
    let ps = chars_of(p);
    let mut j: usize = cs.len();
    assert(s@.take(j as int) == s@);
    if ps.len() > 0 {
        while j >= ps.len() && matches_at(&cs, &ps, j - ps.len())
            invariant
                cs@ == s@,
                ps@ == p@,
                0 < p@.len(),
                j <= s@.len(),
                without_suffixes(s@, p@) == without_suffixes(s@.take(j as int), p@),
            decreases j,
        {
            assert(s@.take(j as int).skip(j - p@.len()) == s@.subrange(j - p@.len(), j as int));
            assert(s@.take(j as int).take(j - p@.len()) == s@.take(j - p@.len()));
            j = j - ps.len();
        }
        assert(has_suffix(s@.take(j as int), p@) ==> s@.take(j as int).skip(j - p@.len())
            == s@.subrange(j - p@.len(), j as int));
    }
    assert(s@.subrange(0, j as int) == s@.take(j as int));
    s.substring_char(0, j)
}

/// The part of `s` before the first `c`: all of it where `c` is absent.
pub open spec fn before_char(s: Seq<char>, c: char) -> Seq<char>
    decreases s.len(),
{
    if s.len() == 0 || s[0] == c {
        Seq::empty()
    } else {
        seq![s[0]] + before_char(s.skip(1), c)
    }
}

/// `before_char` is the longest prefix without `c`.
pub proof fn lemma_before_char(s: Seq<char>, c: char, k: int)
    requires
        0 <= k <= s.len(),
        forall|j: int| 0 <= j < k ==> s[j] != c,
        k == s.len() || s[k] == c,
    ensures
        before_char(s, c) == s.take(k),
    decreases s.len(),
{
    if k > 0 {
        assert forall|j: int| 0 <= j < k - 1 implies s.skip(1)[j] != c by {
            assert(s[j + 1] != c);
        }
        lemma_before_char(s.skip(1), c, k - 1);
        assert(seq![s[0]] + s.skip(1).take(k - 1) =~= s.take(k));
    } else {
        assert(s.take(0) =~= Seq::<char>::empty());
    }
}

/// The position of the first `c`, or the length where `c` is absent.
pub fn find_char(s: &str, c: char) -> (r: usize)
    ensures
        r <= s@.len(),
        before_char(s@, c) == s@.take(r as int),
        r < s@.len() ==> s@[r as int] == c,
        s@.contains(c) <==> r < s@.len(),
{
    let cs = chars_of(s);
    let mut i: usize = 0;
    while i < cs.len() && cs[i] != c
        invariant
            cs@ == s@,
            i <= s@.len(),
            forall|j: int| 0 <= j < i ==> s@[j] != c,
        decreases s@.len() - i,
    {
        i = i + 1;
    }
    proof {
        lemma_before_char(s@, c, i as int);
    }
    i
}

/// The part before the first `c`.
pub fn up_to_char<'a>(s: &'a str, c: char) -> (r: &'a str)
    ensures
        r@ == before_char(s@, c),
{
    let k = find_char(s, c);
    assert(s@.subrange(0, k as int) == s@.take(k as int));
    s.substring_char(0, k)
}

/// A line without the carriage return that ended it.
pub open spec fn without_cr(s: Seq<char>) -> Seq<char> {
    if s.len() > 0 && s.last() == '\r' {
        s.drop_last()
    } else {
        s
    }
}

/// The lines of `s`: each ends at a line feed, with an optional carriage return before it, or at
/// the end of the text.
pub open spec fn lines_of(s: Seq<char>) -> Seq<Seq<char>>
    decreases s.len(),
{
    if s.len() == 0 {
        Seq::empty()
    } else {
        let head = before_char(s, '\n');
        if head.len() < s.len() {
            seq![without_cr(head)] + lines_of(s.skip((head.len() + 1) as int))
        } else {
            seq![head]
        }
    }
}

/// The words of `s`: its maximal runs without white space.
pub open spec fn words(s: Seq<char>) -> Seq<Seq<char>>
    decreases s.len(),
{
    if s.len() == 0 {
        Seq::empty()
    } else if white_space(s[0]) {
        words(s.skip(1))
    } else {
        let n = word_len(s);
        proof {
            lemma_word_len(s);
        }
        seq![s.take(n)] + words(s.skip(n))
    }
}

/// How many characters of `s` stand before its first white space.
pub open spec fn word_len(s: Seq<char>) -> int
    decreases s.len(),
{
    if s.len() == 0 || white_space(s[0]) {
        0
    } else {
        1 + word_len(s.skip(1))
    }
}

/// `word_len` stays inside the text, ends at white space, and covers none.
pub proof fn lemma_word_len(s: Seq<char>)
    ensures
        0 <= word_len(s) <= s.len(),
        s.len() > 0 && !white_space(s[0]) ==> word_len(s) > 0,
        word_len(s) < s.len() ==> white_space(s[word_len(s)]),
        forall|j: int| 0 <= j < word_len(s) ==> !white_space(#[trigger] s[j]),
    decreases s.len(),
{
    if s.len() > 0 && !white_space(s[0]) {
        lemma_word_len(s.skip(1));
        assert forall|j: int| 0 <= j < word_len(s) implies !white_space(#[trigger] s[j]) by {
            if j > 0 {
                assert(s[j] == s.skip(1)[j - 1]);
            }
        }
    }
}

/// The first white space fixes `word_len`.
pub proof fn lemma_word_len_unique(s: Seq<char>, k: int)
    requires
        0 <= k <= s.len(),
        forall|j: int| 0 <= j < k ==> !white_space(#[trigger] s[j]),
        k == s.len() || white_space(s[k]),
    ensures
        word_len(s) == k,
{
    lemma_word_len(s);
    let n = word_len(s);
    if n < k {
        assert(!white_space(s[n]));
    } else if k < n {
        assert(!white_space(s[k]));
    }
}

/// An ASCII letter in lower case; other characters unchanged.
pub open spec fn lower_char(c: char) -> char {
    if 'A' <= c && c <= 'Z' {
        ((c as u32 + 32) as u32) as char
    } else {
        c
    }
}

/// `s` with its ASCII letters in lower case.
pub open spec fn lowered(s: Seq<char>) -> Seq<char> {
    s.map_values(|c: char| lower_char(c))
}

/// A character in lower case, where it is an ASCII letter.
pub fn to_lower_char(c: char) -> (r: char)
    ensures
        r == lower_char(c),
{
    if 'A' <= c && c <= 'Z' {
        ((c as u8) + 32) as char
    } else {
        c
    }
}

/// `String::push` appends a character.
pub assume_specification[ String::push ](s: &mut String, c: char)
    ensures
        final(s)@ == old(s)@.push(c),
;

/// `s` with its ASCII letters in lower case.
pub fn to_lower(s: &str) -> (r: String)
    ensures
        r@ == lowered(s@),
{
    let mut out = String::new();
    for c in it: s.chars()
        invariant
            it.seq() == s@,
            out@ == lowered(s@.take(it.index() as int)),
    {
        out.push(to_lower_char(c));
        assert(lowered(s@.take(it.index() + 1)) =~= lowered(s@.take(it.index() as int)).push(
            lower_char(c),
        ));
    }
    assert(s@.take(s@.len() as int) =~= s@);
    out
}

/// Whether `s` in lower case is `lower`.
pub fn lowered_eq(s: &str, lower: &str) -> (r: bool)
    ensures
        r == (lowered(s@) == lower@),
{
    let a = chars_of(s);
    let b = chars_of(lower);
    if a.len() != b.len() {
        return false;
    }
    let mut i: usize = 0;
    while i < a.len()
        invariant
            a@ == s@,
            b@ == lower@,
            a@.len() == b@.len(),
            i <= a@.len(),
            forall|j: int| 0 <= j < i ==> lower_char(#[trigger] s@[j]) == lower@[j],
        decreases a@.len() - i,
    {
        if to_lower_char(a[i]) != b[i] {
            assert(lowered(s@)[i as int] != lower@[i as int]);
            return false;
        }
        i = i + 1;
    }
    assert(lowered(s@) =~= lower@);
    true
}

/// The texts of a list of string slices.
pub open spec fn texts(v: Seq<&str>) -> Seq<Seq<char>> {
    v.map_values(|s: &str| s@)
}

/// Splits at white space.
pub fn split_words<'a>(s: &'a str) -> (r: Vec<&'a str>)
    ensures
        texts(r@) == words(s@),
{
    let cs = chars_of(s);
    let n: usize = cs.len();
    let mut out: Vec<&'a str> = Vec::new();
    let mut i: usize = 0;
    assert(s@.skip(0) == s@);
    while i < n
        invariant
            cs@ == s@,
            n == s@.len(),
            i <= n,
            words(s@) == texts(out@) + words(s@.skip(i as int)),
        decreases n - i,
    {
        let ghost rest = s@.skip(i as int);
        if is_white_space(cs[i]) {
            assert(rest.skip(1) == s@.skip(i + 1));
            i = i + 1;
        } else {
            let start: usize = i;
            while i < n && !is_white_space(cs[i])
                invariant
                    cs@ == s@,
                    n == s@.len(),
                    start <= i <= n,
                    forall|j: int| start <= j < i ==> !white_space(#[trigger] s@[j]),
                decreases n - i,
            {
                i = i + 1;
            }
            let word = s.substring_char(start, i);
            proof {
                let k = i - start;
                assert forall|j: int| 0 <= j < k implies !white_space(#[trigger] rest[j]) by {
                    assert(rest[j] == s@[start + j]);
                }
                lemma_word_len_unique(rest, k);
                assert(rest.take(k) == word@);
                assert(rest.skip(k) == s@.skip(i as int));
                assert(texts(out@.push(word)) =~= texts(out@).push(word@));
                assert(texts(out@).push(word@) + words(s@.skip(i as int)) =~= texts(out@) + (seq![
                    word@,
                ] + words(s@.skip(i as int))));
            }
            out.push(word);
        }
    }
    assert(words(s@.skip(n as int)) == Seq::<Seq<char>>::empty());
    assert(texts(out@) + Seq::<Seq<char>>::empty() =~= texts(out@));
    out
}

/// Splits into lines.
pub fn split_lines<'a>(s: &'a str) -> (r: Vec<&'a str>)
    ensures
        texts(r@) == lines_of(s@),
        r@.len() <= s@.len(),
{
    let cs = chars_of(s);
    let n: usize = cs.len();
    let mut out: Vec<&'a str> = Vec::new();
    let mut i: usize = 0;
    assert(s@.skip(0) == s@);
    while i < n
        invariant
            cs@ == s@,
            n == s@.len(),
            i <= n,
            out@.len() <= i,
            lines_of(s@) == texts(out@) + lines_of(s@.skip(i as int)),
        decreases n - i,
    {
        let ghost rest = s@.skip(i as int);
        let start: usize = i;
        while i < n && cs[i] != '\n'
            invariant
                cs@ == s@,
                n == s@.len(),
                start <= i <= n,
                forall|j: int| start <= j < i ==> #[trigger] s@[j] != '\n',
            decreases n - i,
        {
            i = i + 1;
        }
        proof {
            let k = i - start;
            assert forall|j: int| 0 <= j < k implies rest[j] != '\n' by {
                assert(rest[j] == s@[start + j]);
            }
            lemma_before_char(rest, '\n', k);
            assert(rest.take(k) == s@.subrange(start as int, i as int));
        }
        if i < n {
            let mut end: usize = i;
            if end > start && cs[end - 1] == '\r' {
                end = end - 1;
            }
            let line = s.substring_char(start, end);
            proof {
                assert(line@ == without_cr(rest.take(i - start)));
                assert(rest.skip(i - start + 1) == s@.skip(i + 1));
                assert(texts(out@.push(line)) =~= texts(out@).push(line@));
                assert(texts(out@).push(line@) + lines_of(s@.skip(i + 1)) =~= texts(out@) + (seq![
                    line@,
                ] + lines_of(s@.skip(i + 1))));
            }
            out.push(line);
            i = i + 1;
        } else {
            let line = s.substring_char(start, i);
            proof {
                assert(texts(out@.push(line)) =~= texts(out@).push(line@));
                assert(lines_of(s@.skip(n as int)) == Seq::<Seq<char>>::empty());
                assert(texts(out@).push(line@) + Seq::<Seq<char>>::empty() =~= texts(out@) + seq![
                    line@,
                ]);
            }
            out.push(line);
        }
    }
    assert(lines_of(s@.skip(n as int)) == Seq::<Seq<char>>::empty());
    assert(texts(out@) + Seq::<Seq<char>>::empty() =~= texts(out@));
    out
}

/// The stretches of `s` between its separators.
pub open spec fn pieces(s: Seq<char>, c: char) -> Seq<Seq<char>>
    decreases s.len(),
{
    let head = before_char(s, c);
    if head.len() < s.len() {
        seq![head] + pieces(s.skip((head.len() + 1) as int), c)
    } else {
        seq![head]
    }
}

/// Splits at a separator.
pub fn split_char<'a>(s: &'a str, c: char) -> (r: Vec<&'a str>)
    ensures
        texts(r@) == pieces(s@, c),
        r@.len() > 0,
{
    let mut out: Vec<&'a str> = Vec::new();
    let mut rest: &'a str = s;
    assert(texts(out@) + pieces(rest@, c) =~= pieces(s@, c));
    loop
        invariant
            pieces(s@, c) == texts(out@) + pieces(rest@, c),
        decreases rest@.len(),
    {
        let k = find_char(rest, c);
        let n = rest.unicode_len();
        let head = rest.substring_char(0, k);
        proof {
            assert(rest@.subrange(0, k as int) =~= rest@.take(k as int));
            assert(texts(out@.push(head)) =~= texts(out@).push(head@));
        }
        if k < n {
            let tail = rest.substring_char(k + 1, n);
            proof {
                assert(rest@.subrange(k + 1, n as int) =~= rest@.skip(k + 1));
                assert(texts(out@).push(head@) + pieces(tail@, c) =~= texts(out@) + (seq![
                    head@,
                ] + pieces(tail@, c)));
            }
            out.push(head);
            rest = tail;
        } else {
            assert(texts(out@).push(head@) =~= texts(out@) + seq![head@]);
            out.push(head);
            return out;
        }
    }
}

} // verus!

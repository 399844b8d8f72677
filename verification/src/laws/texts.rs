//! Laws on texts: how they are trimmed, split, searched and lowered.
use crate::text;
use vstd::prelude::*;

verus! {

/// Only white space.
pub open spec fn blank(s: Seq<char>) -> bool {
    forall|i: int| 0 <= i < s.len() ==> text::white_space(#[trigger] s[i])
}

/// No white space at either end.
pub open spec fn bare(s: Seq<char>) -> bool {
    s.len() > 0 ==> !text::white_space(s[0]) && !text::white_space(s.last())
}

/// Only the character `c`.
pub open spec fn run_of(s: Seq<char>, c: char) -> bool {
    forall|i: int| 0 <= i < s.len() ==> #[trigger] s[i] == c
}

/// White space is what Unicode counts as such; among the ASCII characters that is the space, the
/// tab, and the four characters behind the tab.
pub proof fn law_white_space(c: char)
    ensures
        (c as int) < 128 ==> (text::white_space(c) <==> c == ' ' || 9 <= c as int <= 13),
        c as int >= 128 ==> (text::white_space(c) <==> c as int == 133 || c as int == 160 || c as int
            == 5760 || 8192 <= c as int <= 8202 || c as int == 8232 || c as int == 8233 || c as int
            == 8239 || c as int == 8287 || c as int == 12288),
{
}

/// Lowering keeps every character but the ASCII capitals, which become the small letters.
pub proof fn law_lowering(s: Seq<char>, i: int)
    requires
        0 <= i < s.len(),
    ensures
        text::lowered(s).len() == s.len(),
        'A' <= s[i] && s[i] <= 'Z' ==> text::lowered(s)[i] as int == s[i] as int + 32,
        !('A' <= s[i] && s[i] <= 'Z') ==> text::lowered(s)[i] == s[i],
{
}

/// Lowering twice is lowering once, and what is put together is lowered part by part.
pub proof fn law_lowering_parts(a: Seq<char>, b: Seq<char>)
    ensures
        text::lowered(a + b) == text::lowered(a) + text::lowered(b),
        text::lowered(text::lowered(a)) == text::lowered(a),
{
    assert(text::lowered(a + b) =~= text::lowered(a) + text::lowered(b));
    assert(text::lowered(text::lowered(a)) =~= text::lowered(a));
}

/// A text starts with another exactly if it is that one with something behind it.
pub proof fn law_prefix(s: Seq<char>, p: Seq<char>)
    ensures
        text::has_prefix(s, p) <==> exists|rest: Seq<char>| s == #[trigger] (p + rest),
{
    if text::has_prefix(s, p) {
        assert(s =~= p + s.skip(p.len() as int));
    }
    if exists|rest: Seq<char>| s == #[trigger] (p + rest) {
        let rest = choose|rest: Seq<char>| s == #[trigger] (p + rest);
        assert(s.take(p.len() as int) =~= p);
    }
}

/// A text ends with another exactly if it is that one with something before it.
pub proof fn law_suffix(s: Seq<char>, p: Seq<char>)
    ensures
        text::has_suffix(s, p) <==> exists|front: Seq<char>| s == #[trigger] (front + p),
{
    if text::has_suffix(s, p) {
        assert(s =~= s.take(s.len() - p.len()) + p);
    }
    if exists|front: Seq<char>| s == #[trigger] (front + p) {
        let front = choose|front: Seq<char>| s == #[trigger] (front + p);
        assert(s.skip(s.len() - p.len()) =~= p);
    }
}

/// Whatever stands around it, a text is found in one that holds it.
pub proof fn law_infix_is_found(a: Seq<char>, p: Seq<char>, b: Seq<char>)
    ensures
        text::has_infix(a + p + b, p),
{
    let s = a + p + b;
    assert(s.subrange(a.len() as int, a.len() as int + p.len()) =~= p);
    assert(text::infix_at(s, p, a.len() as int));
}

/// A text is found in another only if that one is made of something before it, it, and something
/// behind it.
pub proof fn law_infix_is_there(s: Seq<char>, p: Seq<char>)
    ensures
        text::has_infix(s, p) ==> exists|a: Seq<char>, b: Seq<char>| s == #[trigger] (a + p + b),
{
    if text::has_infix(s, p) {
        let i = choose|i: int| 0 <= i && #[trigger] text::infix_at(s, p, i);
        let a = s.take(i);
        let b = s.skip(i + p.len());
        assert(s =~= a + p + b) by {
            assert forall|j: int| 0 <= j < s.len() implies s[j] == (a + p + b)[j] by {
                if i <= j < i + p.len() {
                    assert(s.subrange(i, i + p.len())[j - i] == p[j - i]);
                }
            }
        }
    }
}

/// Trimming takes off all white space around a text, and nothing of it.
pub proof fn law_trimming(a: Seq<char>, m: Seq<char>, b: Seq<char>)
    requires
        blank(a),
        blank(b),
        bare(m),
    ensures
        text::trimmed(a + m + b) == m,
{
    lemma_start(a, m + b, m);
    assert(a + m + b =~= a + (m + b));
    if m.len() == 0 {
        assert(m + b =~= b);
        lemma_all_start(b);
    } else {
        lemma_end(m, b);
    }
}

proof fn lemma_start(a: Seq<char>, rest: Seq<char>, m: Seq<char>)
    requires
        blank(a),
    ensures
        text::trimmed_start(a + rest) == text::trimmed_start(rest),
        rest.len() > 0 && !text::white_space(rest[0]) ==> text::trimmed_start(rest) == rest,
    decreases a.len(),
{
    if a.len() == 0 {
        assert(a + rest =~= rest);
    } else {
        assert(text::white_space(a[0]));
        assert((a + rest).skip(1) =~= a.skip(1) + rest);
        assert forall|i: int| 0 <= i < a.skip(1).len() implies text::white_space(
            #[trigger] a.skip(1)[i],
        ) by {
            assert(text::white_space(a[i + 1]));
        }
        lemma_start(a.skip(1), rest, m);
    }
}

proof fn lemma_all_start(b: Seq<char>)
    requires
        blank(b),
    ensures
        text::trimmed_start(b) == Seq::<char>::empty(),
    decreases b.len(),
{
    if b.len() > 0 {
        assert(text::white_space(b[0]));
        assert forall|i: int| 0 <= i < b.skip(1).len() implies text::white_space(
            #[trigger] b.skip(1)[i],
        ) by {
            assert(text::white_space(b[i + 1]));
        }
        lemma_all_start(b.skip(1));
    } else {
        assert(b =~= Seq::<char>::empty());
    }
}

proof fn lemma_end(m: Seq<char>, b: Seq<char>)
    requires
        blank(b),
        m.len() > 0 ==> !text::white_space(m.last()),
    ensures
        text::trimmed_end(m + b) == m,
    decreases b.len(),
{
    if b.len() == 0 {
        assert(m + b =~= m);
    } else {
        assert(text::white_space(b[b.len() - 1]));
        assert((m + b).last() == b.last());
        assert((m + b).drop_last() =~= m + b.drop_last());
        assert forall|i: int| 0 <= i < b.drop_last().len() implies text::white_space(
            #[trigger] b.drop_last()[i],
        ) by {
            assert(text::white_space(b[i]));
        }
        lemma_end(m, b.drop_last());
    }
}

/// Of a character at the end, all repetitions are taken off, and nothing else.
pub proof fn law_trimming_a_character_at_the_end(m: Seq<char>, r: Seq<char>, c: char)
    requires
        run_of(r, c),
        m.len() > 0 ==> m.last() != c,
    ensures
        text::trimmed_end_char(m + r, c) == m,
    decreases r.len(),
{
    if r.len() == 0 {
        assert(m + r =~= m);
    } else {
        assert(r[r.len() - 1] == c);
        assert((m + r).last() == r.last());
        assert((m + r).drop_last() =~= m + r.drop_last());
        assert forall|i: int| 0 <= i < r.drop_last().len() implies #[trigger] r.drop_last()[i]
            == c by {
            assert(r[i] == c);
        }
        law_trimming_a_character_at_the_end(m, r.drop_last(), c);
    }
}

proof fn lemma_start_char(a: Seq<char>, rest: Seq<char>, c: char)
    requires
        run_of(a, c),
    ensures
        text::trimmed_start_char(a + rest, c) == text::trimmed_start_char(rest, c),
    decreases a.len(),
{
    if a.len() == 0 {
        assert(a + rest =~= rest);
    } else {
        assert(a[0] == c);
        assert((a + rest).skip(1) =~= a.skip(1) + rest);
        assert forall|i: int| 0 <= i < a.skip(1).len() implies #[trigger] a.skip(1)[i] == c by {
            assert(a[i + 1] == c);
        }
        lemma_start_char(a.skip(1), rest, c);
    }
}

/// Of a character at both ends, all repetitions are taken off, and nothing else.
pub proof fn law_trimming_a_character(a: Seq<char>, m: Seq<char>, b: Seq<char>, c: char)
    requires
        run_of(a, c),
        run_of(b, c),
        m.len() > 0,
        m[0] != c,
        m.last() != c,
    ensures
        text::trimmed_char(a + m + b, c) == m,
{
    lemma_start_char(a, m + b, c);
    assert(a + m + b =~= a + (m + b));
    assert((m + b)[0] == m[0]);
    law_trimming_a_character_at_the_end(m, b, c);
}

/// All repetitions of a text at the front are taken off, one by one, and nothing else.
pub proof fn law_taking_off_prefixes(p: Seq<char>, s: Seq<char>)
    requires
        p.len() > 0,
    ensures
        text::without_prefixes(p + s, p) == text::without_prefixes(s, p),
        (forall|rest: Seq<char>| s != #[trigger] (p + rest)) ==> text::without_prefixes(s, p) == s,
{
    law_prefix(p + s, p);
    law_prefix(s, p);
    assert((p + s).skip(p.len() as int) =~= s);
    assert((p + s).take(p.len() as int) =~= p);
}

/// All repetitions of a text at the end are taken off, one by one, and nothing else.
pub proof fn law_taking_off_suffixes(p: Seq<char>, s: Seq<char>)
    requires
        p.len() > 0,
    ensures
        text::without_suffixes(s + p, p) == text::without_suffixes(s, p),
        (forall|front: Seq<char>| s != #[trigger] (front + p)) ==> text::without_suffixes(s, p)
            == s,
{
    law_suffix(s, p);
    assert((s + p).take(s.len() as int) =~= s);
    assert((s + p).skip(s.len() as int) =~= p);
}

/// The part before a character ends where that character first stands.
pub proof fn law_before_a_character(m: Seq<char>, c: char, rest: Seq<char>)
    requires
        !m.contains(c),
    ensures
        text::before_char(m, c) == m,
        text::before_char(m.push(c) + rest, c) == m,
{
    assert forall|j: int| 0 <= j < m.len() implies m[j] != c by {
        assert(m.contains(m[j]));
    }
    text::lemma_before_char(m, c, m.len() as int);
    assert(m.take(m.len() as int) =~= m);
    let s = m.push(c) + rest;
    assert forall|j: int| 0 <= j < m.len() implies s[j] != c by {
        assert(s[j] == m[j]);
    }
    text::lemma_before_char(s, c, m.len() as int);
    assert(s.take(m.len() as int) =~= m);
}

/// A text is split at every separator, and nowhere else; empty pieces count.
pub proof fn law_splitting(m: Seq<char>, c: char, rest: Seq<char>)
    requires
        !m.contains(c),
    ensures
        text::pieces(m, c) == seq![m],
        text::pieces(m.push(c) + rest, c) == seq![m] + text::pieces(rest, c),
{
    law_before_a_character(m, c, rest);
    let s = m.push(c) + rest;
    assert(s.skip((m.len() + 1) as int) =~= rest);
}

/// A line ends at a line feed, and a carriage return before that is no part of it; the last line
/// needs no end, and there is no empty line behind the last end.
pub proof fn law_lines(m: Seq<char>, rest: Seq<char>)
    requires
        !m.contains('\n'),
    ensures
        text::lines_of(Seq::empty()) == Seq::<Seq<char>>::empty(),
        m.len() > 0 ==> text::lines_of(m) == seq![m],
        text::lines_of(m.push('\r').push('\n') + rest) == seq![m] + text::lines_of(rest),
        !(m.len() > 0 && m.last() == '\r') ==> text::lines_of(m.push('\n') + rest) == seq![m]
            + text::lines_of(rest),
{
    law_before_a_character(m, '\n', rest);
    let r = m.push('\r');
    assert(!r.contains('\n')) by {
        if r.contains('\n') {
            let i = choose|i: int| 0 <= i < r.len() && r[i] == '\n';
            assert(m.contains(m[i]));
        }
    }
    law_before_a_character(r, '\n', rest);
    assert((r.push('\n') + rest).skip((r.len() + 1) as int) =~= rest);
    assert(r.drop_last() =~= m);
    assert((m.push('\n') + rest).skip((m.len() + 1) as int) =~= rest);
}

/// The words of a text are its runs without white space, in their order: white space in front is
/// passed over, and a word ends where white space stands or the text ends.
pub proof fn law_words(a: Seq<char>, w: Seq<char>, rest: Seq<char>)
    requires
        blank(a),
        w.len() > 0,
        forall|i: int| 0 <= i < w.len() ==> !text::white_space(#[trigger] w[i]),
        rest.len() > 0 ==> text::white_space(rest[0]),
    ensures
        text::words(a + w + rest) == seq![w] + text::words(rest),
        text::words(a) == Seq::<Seq<char>>::empty(),
    decreases a.len(),
{
    if a.len() == 0 {
        let s = a + w + rest;
        assert(s =~= w + rest);
        assert forall|j: int| 0 <= j < w.len() implies !text::white_space(#[trigger] s[j]) by {
            assert(s[j] == w[j]);
        }
        text::lemma_word_len_unique(s, w.len() as int);
        assert(s[0] == w[0]);
        assert(s.take(w.len() as int) =~= w);
        assert(s.skip(w.len() as int) =~= rest);
    } else {
        assert(text::white_space(a[0]));
        assert((a + w + rest)[0] == a[0]);
        assert((a + w + rest).skip(1) =~= a.skip(1) + w + rest);
        assert forall|i: int| 0 <= i < a.skip(1).len() implies text::white_space(
            #[trigger] a.skip(1)[i],
        ) by {
            assert(text::white_space(a[i + 1]));
        }
        law_words(a.skip(1), w, rest);
    }
}

} // verus!

//! File paths as text, with `/` between their parts.
use crate::text;
use vstd::prelude::*;
use vstd::string::*;

verus! {

/// `part` below `base`; an absolute `part` stands for itself.
pub open spec fn joined(base: Seq<char>, part: Seq<char>) -> Seq<char> {
    if part.len() > 0 && part[0] == '/' {
        part
    } else if base.len() == 0 || base.last() == '/' {
        base + part
    } else {
        base + seq!['/'] + part
    }
}

/// Appends `part` to `base`.
pub fn join(base: &str, part: &str) -> (r: String)
    ensures
        r@ == joined(base@, part@),
{
    proof {
        reveal_strlit("/");
    }
    assert("/"@ =~= seq!['/']);
    if text::starts_with(part, "/") {
        assert(part@.take(1)[0] == part@[0]);
        String::from_str(part)
    } else {
        assert(part@.len() > 0 ==> part@.take(1) =~= seq![part@[0]]);
        let mut out = String::from_str(base);
        if !base.is_empty() && !text::ends_with(base, "/") {
            assert(base@.skip(base@.len() - 1) =~= seq![base@.last()]);
            out.append("/");
        } else {
            assert(base@.len() > 0 ==> base@.skip(base@.len() - 1)[0] == base@.last());
        }
        out.append(part);
        out
    }
}

/// Whether a path starts at the root.
pub open spec fn has_root(s: Seq<char>) -> bool {
    s.len() > 0 && s[0] == '/'
}

/// The pieces that name something: neither empty nor a dot.
pub open spec fn named(p: Seq<Seq<char>>) -> Seq<Seq<char>>
    decreases p.len(),
{
    if p.len() == 0 {
        Seq::empty()
    } else {
        let rest = named(p.skip(1));
        if p[0].len() == 0 || p[0] == "."@ {
            rest
        } else {
            seq![p[0]] + rest
        }
    }
}

/// The components of a path. A dot counts only in front, where the path does not start at the root.
pub open spec fn components(s: Seq<char>) -> Seq<Seq<char>> {
    let p = text::pieces(s, '/');
    if !has_root(s) && p[0] == "."@ {
        seq!["."@] + named(p)
    } else {
        named(p)
    }
}

/// Two texts name the same path.
pub open spec fn same_path(a: Seq<char>, b: Seq<char>) -> bool {
    has_root(a) == has_root(b) && components(a) == components(b)
}

/// The components of a path.
fn split_components<'a>(s: &'a str) -> (r: Vec<&'a str>)
    ensures
        text::texts(r@) == components(s@),
{
    let p = text::split_char(s, '/');
    let mut out: Vec<&'a str> = Vec::new();
    assert(text::texts(p@)[0] == p@[0]@);
    if !starts_at_root(s) && text::str_eq(p[0], ".") {
        out.push(p[0]);
        assert(text::texts(out@) =~= seq!["."@]);
    } else {
        assert(text::texts(out@) =~= Seq::<Seq<char>>::empty());
    }
    let ghost front = text::texts(out@);
    let mut i: usize = 0;
    assert(text::texts(p@).skip(0) =~= text::texts(p@));
    while i < p.len()
        invariant
            i <= p@.len(),
            front + named(text::texts(p@)) == text::texts(out@) + named(
                text::texts(p@).skip(i as int),
            ),
        decreases p@.len() - i,
    {
        let ghost rest = text::texts(p@).skip(i as int);
        assert(rest[0] == p@[i as int]@);
        assert(rest.skip(1) =~= text::texts(p@).skip(i + 1));
        let piece = p[i];
        if !piece.is_empty() && !text::str_eq(piece, ".") {
            proof {
                assert(text::texts(out@.push(piece)) =~= text::texts(out@).push(piece@));
                assert(text::texts(out@).push(piece@) + named(rest.skip(1)) =~= text::texts(out@)
                    + (seq![piece@] + named(rest.skip(1))));
            }
            out.push(piece);
        }
        i = i + 1;
    }
    assert(named(text::texts(p@).skip(i as int)) =~= Seq::<Seq<char>>::empty());
    assert(text::texts(out@) + Seq::<Seq<char>>::empty() =~= text::texts(out@));
    assert(front + named(text::texts(p@)) =~= components(s@));
    out
}

/// Whether a path starts at the root.
fn starts_at_root(s: &str) -> (r: bool)
    ensures
        r == has_root(s@),
{
    proof {
        reveal_strlit("/");
    }
    assert("/"@ =~= seq!['/']);
    assert(s@.len() > 0 ==> s@.take(1) =~= seq![s@[0]]);
    let r = text::starts_with(s, "/");
    assert(r ==> s@.take(1)[0] == '/');
    r
}

/// Whether two texts name the same path.
pub fn path_eq(a: &str, b: &str) -> (r: bool)
    ensures
        r == same_path(a@, b@),
{
    if starts_at_root(a) != starts_at_root(b) {
        return false;
    }
    let x = split_components(a);
    let y = split_components(b);
    if x.len() != y.len() {
        assert(text::texts(x@).len() != text::texts(y@).len());
        return false;
    }
    let mut i: usize = 0;
    while i < x.len()
        invariant
            x@.len() == y@.len(),
            i <= x@.len(),
            text::texts(x@) == components(a@),
            text::texts(y@) == components(b@),
            forall|j: int| 0 <= j < i ==> text::texts(x@)[j] == text::texts(y@)[j],
        decreases x@.len() - i,
    {
        assert(text::texts(x@)[i as int] == x@[i as int]@);
        assert(text::texts(y@)[i as int] == y@[i as int]@);
        if !text::str_eq(x[i], y[i]) {
            return false;
        }
        i = i + 1;
    }
    assert(text::texts(x@) =~= text::texts(y@));
    true
}

/// The last component of a path, where it names a file.
pub open spec fn file_name(s: Seq<char>) -> Option<Seq<char>> {
    let c = components(s);
    if c.len() == 0 || c.last() == ".."@ || c.last() == "."@ {
        None
    } else {
        Some(c.last())
    }
}

/// What follows the last dot of a file name that does not start with that dot.
pub open spec fn extension(s: Seq<char>) -> Option<Seq<char>> {
    match file_name(s) {
        Some(name) => {
            let k = last_dot(name);
            if k > 0 {
                Some(name.skip(k + 1))
            } else {
                None
            }
        },
        None => None,
    }
}

/// The position of the last dot, or -1 where there is none.
pub open spec fn last_dot(s: Seq<char>) -> int
    decreases s.len(),
{
    if s.len() == 0 {
        -1
    } else if s.last() == '.' {
        s.len() - 1
    } else {
        last_dot(s.drop_last())
    }
}

/// The file name of a path.
pub fn path_file_name<'a>(s: &'a str) -> (r: Option<&'a str>)
    ensures
        match r {
            Some(n) => file_name(s@) == Some(n@),
            None => file_name(s@) is None,
        },
{
    let c = split_components(s);
    let n = c.len();
    assert(text::texts(c@).len() == n);
    if n == 0 {
        return None;
    }
    assert(text::texts(c@).last() == c@[n - 1]@);
    let last = c[n - 1];
    if text::str_eq(last, "..") || text::str_eq(last, ".") {
        None
    } else {
        Some(last)
    }
}

/// Whether a path has the given extension.
pub fn has_extension(s: &str, ext: &str) -> (r: bool)
    ensures
        r == (extension(s@) == Some(ext@)),
{
    match path_file_name(s) {
        Some(name) => {
            let cs = text::chars_of(name);
            let n = cs.len();
            let mut j: usize = n;
            assert(name@.take(n as int) =~= name@);
            while j > 0 && cs[j - 1] != '.'
                invariant
                    cs@ == name@,
                    n == name@.len(),
                    j <= n,
                    last_dot(name@) == last_dot(name@.take(j as int)),
                decreases j,
            {
                assert(name@.take(j as int).drop_last() =~= name@.take(j - 1));
                j = j - 1;
            }
            if j <= 1 {
                false
            } else {
                assert(name@.subrange(j as int, n as int) =~= name@.skip(j as int));
                text::str_eq(name.substring_char(j, n), ext)
            }
        },
        None => false,
    }
}

/// What `before_char` is, character by character.
proof fn lemma_before_slash(s: Seq<char>)
    ensures
        text::before_char(s, '/').len() <= s.len(),
        text::before_char(s, '/') == s.take(text::before_char(s, '/').len() as int),
        forall|j: int| 0 <= j < text::before_char(s, '/').len() ==> s[j] != '/',
        text::before_char(s, '/').len() < s.len() ==> s[text::before_char(s, '/').len() as int]
            == '/',
    decreases s.len(),
{
    let k = text::before_char(s, '/').len() as int;
    if s.len() > 0 && s[0] != '/' {
        lemma_before_slash(s.skip(1));
        assert(seq![s[0]] + s.skip(1).take(k - 1) =~= s.take(k));
        assert forall|j: int| 0 <= j < k implies s[j] != '/' by {
            if j > 0 {
                assert(s.skip(1)[j - 1] != '/');
            }
        }
        if k < s.len() {
            assert(s.skip(1)[k - 1] == '/');
        }
    } else {
        assert(s.take(0) =~= Seq::<char>::empty());
    }
}

/// A text without slashes is one piece.
proof fn lemma_single_piece(s: Seq<char>)
    requires
        forall|j: int| 0 <= j < s.len() ==> s[j] != '/',
    ensures
        text::pieces(s, '/') == seq![s],
{
    text::lemma_before_char(s, '/', s.len() as int);
    assert(s.take(s.len() as int) =~= s);
}

/// A slash separates the pieces on its sides.
proof fn lemma_pieces_around_slash(a: Seq<char>, b: Seq<char>)
    ensures
        text::pieces(a + seq!['/'] + b, '/') == text::pieces(a, '/') + text::pieces(b, '/'),
    decreases a.len(),
{
    let whole = a + seq!['/'] + b;
    let head = text::before_char(a, '/');
    let k = head.len() as int;
    lemma_before_slash(a);
    assert forall|j: int| 0 <= j < k implies whole[j] != '/' by {
        assert(whole[j] == a[j]);
    }
    assert(whole[k] == '/') by {
        if k < a.len() {
            assert(whole[k] == a[k]);
        }
    }
    text::lemma_before_char(whole, '/', k);
    assert(whole.take(k) =~= head);
    if k < a.len() {
        let rest = a.skip(k + 1);
        lemma_pieces_around_slash(rest, b);
        assert(whole.skip(k + 1) =~= rest + seq!['/'] + b);
        let tail = text::pieces(b, '/');
        assert(seq![head] + (text::pieces(rest, '/') + tail) =~= (seq![head] + text::pieces(
            rest,
            '/',
        )) + tail);
    } else {
        assert(whole.skip(k + 1) =~= b);
    }
}

/// A name at the end is the last that is named.
proof fn lemma_named_last(p: Seq<Seq<char>>, name: Seq<char>)
    requires
        name.len() > 0,
        name != "."@,
    ensures
        named(p.push(name)) == named(p).push(name),
    decreases p.len(),
{
    let q = p.push(name);
    if p.len() == 0 {
        reveal_with_fuel(named, 2);
        assert(q.skip(1) =~= Seq::<Seq<char>>::empty());
        assert(q[0] == name);
        assert(named(q) =~= named(p).push(name));
    } else {
        assert(q.skip(1) =~= p.skip(1).push(name));
        lemma_named_last(p.skip(1), name);
        assert(q[0] == p[0]);
        assert(named(q) =~= named(p).push(name));
    }
}

/// A plain name below a directory is the file name of the path.
pub proof fn lemma_joined_file_name(base: Seq<char>, name: Seq<char>)
    requires
        name.len() > 0,
        name != "."@,
        name != ".."@,
        forall|j: int| 0 <= j < name.len() ==> name[j] != '/',
    ensures
        file_name(joined(base, name)) == Some(name),
{
    let whole = joined(base, name);
    lemma_single_piece(name);
    let front = if base.len() == 0 {
        Seq::<Seq<char>>::empty()
    } else if base.last() == '/' {
        text::pieces(base.drop_last(), '/')
    } else {
        text::pieces(base, '/')
    };
    if base.len() == 0 {
        assert(whole =~= name);
        assert(text::pieces(whole, '/') =~= front.push(name));
    } else if base.last() == '/' {
        assert(whole =~= base.drop_last() + seq!['/'] + name);
        lemma_pieces_around_slash(base.drop_last(), name);
        assert(text::pieces(whole, '/') =~= front.push(name));
    } else {
        lemma_pieces_around_slash(base, name);
        assert(text::pieces(whole, '/') =~= front.push(name));
    }
    lemma_named_last(front, name);
    assert(components(whole).last() == name);
}

/// The extension of a file name behind a last dot that is not its first character.
pub proof fn lemma_extension(path: Seq<char>, stem: Seq<char>, ext: Seq<char>)
    requires
        file_name(path) == Some(stem + seq!['.'] + ext),
        stem.len() > 0,
        forall|j: int| 0 <= j < ext.len() ==> ext[j] != '.',
    ensures
        extension(path) == Some(ext),
{
    lemma_last_dot(stem, ext);
    let name = stem + seq!['.'] + ext;
    assert(name.skip((stem.len() + 1) as int) =~= ext);
}

proof fn lemma_last_dot(stem: Seq<char>, ext: Seq<char>)
    requires
        forall|j: int| 0 <= j < ext.len() ==> ext[j] != '.',
    ensures
        last_dot(stem + seq!['.'] + ext) == stem.len(),
    decreases ext.len(),
{
    let name = stem + seq!['.'] + ext;
    if ext.len() > 0 {
        assert(name.last() == ext.last());
        assert(name.drop_last() =~= stem + seq!['.'] + ext.drop_last());
        lemma_last_dot(stem, ext.drop_last());
    }
}

} // verus!

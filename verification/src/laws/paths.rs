//! Laws on paths: how parts are put together, what names a file, and when two texts name one path.
use crate::path;
use crate::text;
use vstd::prelude::*;
use vstd::string::*;

verus! {

/// Joining puts one slash between two parts, none where the first is empty or ends with one, and
/// takes the second part alone where that starts at the root.
pub proof fn law_joining(base: Seq<char>, part: Seq<char>)
    ensures
        path::joined(base, seq!['/'] + part) == seq!['/'] + part,
        part.len() == 0 || part[0] != '/' ==> {
            &&& path::joined(base.push('/'), part) == base.push('/') + part
            &&& path::joined(Seq::empty(), part) == part
            &&& base.len() > 0 && base.last() != '/' ==> path::joined(base, part) == base.push('/')
                + part
        },
{
    assert(Seq::<char>::empty() + part =~= part);
    assert(base + seq!['/'] + part =~= base.push('/') + part);
}

/// What a path names are its pieces between slashes but for empty ones and dots, in their order.
pub proof fn law_named_pieces(p: Seq<Seq<char>>)
    ensures
        path::named(p) == p.filter(|x: Seq<char>| x.len() > 0 && x != "."@),
    decreases p.len(),
{
    reveal(Seq::filter);
    let keep = |x: Seq<char>| x.len() > 0 && x != "."@;
    if p.len() > 0 {
        let front = p.drop_last();
        law_named_pieces(front);
        lemma_named_last(p);
    }
}

proof fn lemma_named_last(p: Seq<Seq<char>>)
    requires
        p.len() > 0,
    ensures
        path::named(p) == path::named(p.drop_last()) + (if p.last().len() > 0 && p.last() != "."@ {
            seq![p.last()]
        } else {
            Seq::empty()
        }),
    decreases p.len(),
{
    if p.len() == 1 {
        assert(p.drop_last() =~= Seq::<Seq<char>>::empty());
        assert(p.skip(1) =~= Seq::<Seq<char>>::empty());
        assert(path::named(p.drop_last()) =~= Seq::<Seq<char>>::empty());
        assert(path::named(p) =~= path::named(p.drop_last()) + (if p.last().len() > 0 && p.last()
            != "."@ {
            seq![p.last()]
        } else {
            Seq::empty()
        }));
    } else {
        lemma_named_last(p.skip(1));
        assert(p.skip(1).drop_last() =~= p.drop_last().skip(1));
        assert(p.skip(1).last() == p.last());
        assert(p.drop_last()[0] == p[0]);
        assert(path::named(p) =~= path::named(p.drop_last()) + (if p.last().len() > 0 && p.last()
            != "."@ {
            seq![p.last()]
        } else {
            Seq::empty()
        }));
    }
}

/// Two texts name the same path exactly if both start at the root or neither does, and what they name
/// on the way is the same; a dot in front of a path that does not start at the root counts too.
pub proof fn law_same_paths(a: Seq<char>, b: Seq<char>)
    ensures
        ({
            let root = |s: Seq<char>| s.len() > 0 && s[0] == '/';
            let dot = |s: Seq<char>| !root(s) && text::pieces(s, '/')[0] == "."@;
            path::same_path(a, b) <==> root(a) == root(b) && dot(a) == dot(b) && path::named(
                text::pieces(a, '/'),
            ) == path::named(text::pieces(b, '/'))
        }),
{
    let p = path::named(text::pieces(a, '/'));
    let q = path::named(text::pieces(b, '/'));
    lemma_no_dots(text::pieces(a, '/'));
    lemma_no_dots(text::pieces(b, '/'));
    let d = seq!["."@];
    assert((d + p)[0] == "."@ && (d + q)[0] == "."@);
    assert((d + p).skip(1) =~= p);
    assert((d + q).skip(1) =~= q);
}

proof fn lemma_no_dots(p: Seq<Seq<char>>)
    ensures
        forall|i: int| 0 <= i < path::named(p).len() ==> #[trigger] path::named(p)[i] != "."@,
    decreases p.len(),
{
    if p.len() > 0 {
        lemma_no_dots(p.skip(1));
        let rest = path::named(p.skip(1));
        assert forall|i: int| 0 <= i < path::named(p).len() implies #[trigger] path::named(p)[i]
            != "."@ by {
            if !(p[0].len() == 0 || p[0] == "."@) && i > 0 {
                assert(path::named(p)[i] == rest[i - 1]);
            }
        }
    }
}

/// Naming the same path is an equivalence.
pub proof fn law_same_paths_are_equivalent(a: Seq<char>, b: Seq<char>, c: Seq<char>)
    ensures
        path::same_path(a, a),
        path::same_path(a, b) ==> path::same_path(b, a),
        path::same_path(a, b) && path::same_path(b, c) ==> path::same_path(a, c),
{
}

/// A name that is joined to a path is its file name, and what stands behind its last dot is its
/// extension, unless it starts with that dot.
pub proof fn law_file_names(base: Seq<char>, stem: Seq<char>, ext: Seq<char>)
    requires
        stem.len() > 0,
        !stem.contains('/'),
        !ext.contains('/'),
        !ext.contains('.'),
        ext.len() > 0,
    ensures
        path::file_name(path::joined(base, stem.push('.') + ext)) == Some(stem.push('.') + ext),
        path::extension(path::joined(base, stem.push('.') + ext)) == Some(ext),
{
    let name = stem.push('.') + ext;
    assert(!name.contains('/')) by {
        if name.contains('/') {
            let i = choose|i: int| 0 <= i < name.len() && name[i] == '/';
            if i < stem.len() {
                assert(stem.contains(stem[i]));
            } else if i > stem.len() {
                assert(ext.contains(ext[i - stem.len() - 1]));
            }
        }
    }
    reveal_strlit(".");
    reveal_strlit("..");
    assert(name.last() == ext.last());
    assert(ext.last() != '.') by {
        assert(ext.contains(ext.last()));
    }
    assert(name != "."@ && name != ".."@) by {
        assert("."@.last() == '.' && ".."@.last() == '.');
    }
    path::lemma_joined_file_name(base, name);
    assert(name =~= stem + seq!['.'] + ext);
    path::lemma_extension(path::joined(base, name), stem, ext);
}

/// The file name of a path is the last that it names, unless that is two dots; a path that names
/// nothing has none.
pub proof fn law_file_names_come_last(s: Seq<char>)
    ensures
        ({
            let p = path::named(text::pieces(s, '/'));
            path::file_name(s) == (if p.len() > 0 && p.last() != ".."@ {
                Some(p.last())
            } else {
                None
            })
        }),
{
    let p = path::named(text::pieces(s, '/'));
    lemma_no_dots(text::pieces(s, '/'));
    if p.len() > 0 {
        assert(p[p.len() - 1] != "."@);
        assert((seq!["."@] + p).last() == p.last());
    } else {
        assert((seq!["."@] + p).last() == "."@);
    }
}

/// A name without a dot has no extension, nor has one whose only dot is its first character.
pub proof fn law_names_without_an_extension(base: Seq<char>, name: Seq<char>)
    requires
        name.len() > 0,
        !name.contains('/'),
        !name.contains('.'),
    ensures
        path::extension(path::joined(base, name)) is None,
        path::extension(path::joined(base, seq!['.'] + name)) is None,
{
    reveal_strlit(".");
    reveal_strlit("..");
    let hidden = seq!['.'] + name;
    assert(name.contains(name[0]));
    assert(hidden[1] == name[0]);
    assert(name != "."@ && name != ".."@ && hidden != "."@ && hidden != ".."@) by {
        assert("."@[0] == '.' && ".."@[0] == '.' && ".."@[1] == '.');
        assert("."@.len() == 1 && hidden.len() >= 2);
    }
    assert forall|j: int| 0 <= j < name.len() implies name[j] != '/' && name[j] != '.' by {
        assert(name.contains(name[j]));
    }
    assert forall|j: int| 0 <= j < hidden.len() implies hidden[j] != '/' by {
        if j > 0 {
            assert(hidden[j] == name[j - 1]);
        }
    }
    path::lemma_joined_file_name(base, name);
    path::lemma_joined_file_name(base, hidden);
    lemma_dot(name, 0);
    lemma_dot(hidden, 1);
}

/// Where no dot stands from a position on, the last dot stands before it.
proof fn lemma_dot(s: Seq<char>, k: int)
    requires
        0 <= k <= s.len(),
        forall|j: int| k <= j < s.len() ==> s[j] != '.',
    ensures
        path::last_dot(s) < k,
    decreases s.len(),
{
    if s.len() > k {
        lemma_dot(s.drop_last(), k);
    } else if s.len() > 0 {
        lemma_dot_bound(s);
    }
}

proof fn lemma_dot_bound(s: Seq<char>)
    ensures
        path::last_dot(s) < s.len(),
    decreases s.len(),
{
    if s.len() > 0 {
        lemma_dot_bound(s.drop_last());
    }
}

} // verus!

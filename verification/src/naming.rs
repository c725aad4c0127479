//! How package directories and patch files are named, and how a patch file's
//! name is read back.
use vstd::prelude::*;
use crate::text::{
    find_first, find_last, first_index_of, last_index_of, lemma_first_index_of,
    lemma_first_index_of_is, lemma_last_index_of, lemma_last_index_of_is, str_eq, substring,
};

verus! {

/// The extension of patch files.
pub const PATCH_EXT: &'static str = "patch";

/// The characters of `PATCH_EXT`.
pub open spec fn patch_ext() -> Seq<char> {
    seq!['p', 'a', 't', 'c', 'h']
}

/// The directory name of a package: its name, a hyphen and its version.
pub open spec fn slug_of(name: Seq<char>, version: Seq<char>) -> Seq<char> {
    name + seq!['-'] + version
}

/// The file name of a package's patch: its name, a plus sign, its version and
/// the patch extension.
pub open spec fn patch_file_name_of(name: Seq<char>, version: Seq<char>) -> Seq<char> {
    name + seq!['+'] + version + seq!['.'] + patch_ext()
}

/// A file name split at its last dot into a stem and an extension. A name
/// without a dot, one whose only dot leads it, and `..` have no extension.
pub open spec fn split_file_at_dot(f: Seq<char>) -> (Seq<char>, Option<Seq<char>>) {
    if f == seq!['.', '.'] {
        (f, None)
    } else {
        match last_index_of(f, '.') {
            None => (f, None),
            Some(i) => if i == 0 {
                (f, None)
            } else {
                (f.take(i), Some(f.skip(i + 1)))
            },
        }
    }
}

/// The stem of a file name.
pub open spec fn file_stem(f: Seq<char>) -> Seq<char> {
    split_file_at_dot(f).0
}

/// The extension of a file name, if it has one.
pub open spec fn file_extension(f: Seq<char>) -> Option<Seq<char>> {
    split_file_at_dot(f).1
}

/// What a file name says when read as a patch file: the crate's name and
/// version, split at the first plus sign of the stem. Files with another
/// extension, or with no plus sign in their stem, say nothing.
pub open spec fn patch_file_parts(f: Seq<char>) -> Option<(Seq<char>, Seq<char>)> {
    if file_extension(f) == Some(patch_ext()) {
        let stem = file_stem(f);
        match first_index_of(stem, '+') {
            Some(i) => Some((stem.take(i), stem.skip(i + 1))),
            None => None,
        }
    } else {
        None
    }
}

/// The directory name of the package `name` at `version`.
pub fn package_slug(name: &str, version: &str) -> (r: String)
    ensures
        r@ == slug_of(name@, version@),
        r@.len() == name@.len() + 1 + version@.len(),
        r@.take(name@.len() as int) == name@,
        r@[name@.len() as int] == '-',
        r@.skip(name@.len() as int + 1) == version@,
{
    let mut r = String::from_str(name);
    r.append("-");
    r.append(version);
    proof {
        reveal_strlit("-");
        lemma_slug_parts(name@, version@);
    }
    r
}

/// The patch file name of the package `name` at `version`.
pub fn patch_file_name(name: &str, version: &str) -> (r: String)
    ensures
        r@ == patch_file_name_of(name@, version@),
        r@ == name@ + seq!['+'] + version@ + seq!['.', 'p', 'a', 't', 'c', 'h'],
        r@.take(name@.len() as int) == name@,
        r@[name@.len() as int] == '+',
{
    let mut r = String::from_str(name);
    r.append("+");
    r.append(version);
    r.append(".");
    r.append(PATCH_EXT);
    proof {
        reveal_strlit("+");
        reveal_strlit(".");
        reveal_strlit("patch");
        assert(r@ =~= patch_file_name_of(name@, version@));
        lemma_patch_file_name_parts(name@, version@);
    }
    r
}

/// Reads a file name as a patch file: `Some((name, version))` exactly when
/// its extension is the patch extension and its stem holds a plus sign.
pub fn parse_patch_file_name(file_name: &str) -> (r: Option<(String, String)>)
    ensures
        match r {
            Some((name, version)) => patch_file_parts(file_name@) == Some((name@, version@)),
            None => patch_file_parts(file_name@) is None,
        },
        r matches Some((name, version)) ==> !name@.contains('+') && file_name@ == name@ + seq![
            '+',
        ] + version@ + seq!['.', 'p', 'a', 't', 'c', 'h'],
        r is None ==> forall|n: Seq<char>, v: Seq<char>|
            #![trigger n + seq!['+'] + v]
            !(!n.contains('+') && file_name@ == n + seq!['+'] + v + seq![
                '.',
                'p',
                'a',
                't',
                'c',
                'h',
            ]),
{
    let r = split_patch_file_name(file_name);
    proof {
        if r is Some {
            let pair = r->0;
            lemma_patch_file_parts_exact(file_name@, pair.0@, pair.1@);
        } else {
            {
                assert forall|n: Seq<char>, v: Seq<char>|
                    #![trigger n + seq!['+'] + v]
                    !(!n.contains('+') && file_name@ == n + seq!['+'] + v + seq![
                        '.',
                        'p',
                        'a',
                        't',
                        'c',
                        'h',
                    ]) by {
                    lemma_patch_file_parts_exact(file_name@, n, v);
                }
            }
        }
    }
    r
}

fn split_patch_file_name(file_name: &str) -> (r: Option<(String, String)>)
    ensures
        match r {
            Some((name, version)) => patch_file_parts(file_name@) == Some((name@, version@)),
            None => patch_file_parts(file_name@) is None,
        },
{
    let n = file_name.unicode_len();
    if n == 2 && file_name.get_char(0) == '.' && file_name.get_char(1) == '.' {
        assert(file_name@ =~= seq!['.', '.']);
        return None;
    }
    assert(file_name@ != seq!['.', '.']) by {
        if file_name@ == seq!['.', '.'] {
            assert(file_name@[0] == '.' && file_name@[1] == '.');
        }
    }
    let dot = find_last(file_name, '.');
    proof {
        lemma_last_index_of(file_name@, '.');
    }
    match dot {
        None => None,
        Some(i) => {
            if i == 0 {
                return None;
            }
            let ext = substring(file_name, i + 1, n);
            proof {
                reveal_strlit("patch");
                assert(PATCH_EXT@ =~= patch_ext());
                assert(file_name@.skip(i + 1) =~= ext@);
            }
            if !str_eq(ext.as_str(), PATCH_EXT) {
                return None;
            }
            let stem = substring(file_name, 0, i);
            assert(stem@ =~= file_name@.take(i as int));
            let plus = find_first(stem.as_str(), '+');
            proof {
                lemma_first_index_of(stem@, '+');
            }
            match plus {
                None => None,
                Some(j) => {
                    let m = stem.unicode_len();
                    let name = substring(stem.as_str(), 0, j);
                    let version = substring(stem.as_str(), j + 1, m);
                    assert(name@ =~= stem@.take(j as int));
                    assert(version@ =~= stem@.skip(j + 1));
                    Some((name, version))
                },
            }
        },
    }
}

/// A package's directory name is its name, unchanged, then a hyphen, then its
/// version, unchanged.
pub proof fn lemma_slug_parts(name: Seq<char>, version: Seq<char>)
    ensures
        slug_of(name, version).len() == name.len() + 1 + version.len(),
        slug_of(name, version).take(name.len() as int) == name,
        slug_of(name, version)[name.len() as int] == '-',
        slug_of(name, version).skip(name.len() as int + 1) == version,
{
    let s = slug_of(name, version);
    assert(s.take(name.len() as int) =~= name);
    assert(s.skip(name.len() as int + 1) =~= version);
}

/// A patch file's name is the package name, unchanged, then a plus sign, then
/// the version, unchanged, then `.patch`.
pub proof fn lemma_patch_file_name_parts(name: Seq<char>, version: Seq<char>)
    ensures
        patch_file_name_of(name, version).len() == name.len() + version.len() + 7,
        patch_file_name_of(name, version).take(name.len() as int) == name,
        patch_file_name_of(name, version)[name.len() as int] == '+',
        patch_file_name_of(name, version).subrange(
            name.len() as int + 1,
            name.len() as int + 1 + version.len(),
        ) == version,
        patch_file_name_of(name, version).skip(name.len() as int + 1 + version.len()) == seq![
            '.',
            'p',
            'a',
            't',
            'c',
            'h',
        ],
{
    let f = patch_file_name_of(name, version);
    assert(f.take(name.len() as int) =~= name);
    assert(f.subrange(name.len() as int + 1, name.len() as int + 1 + version.len()) =~= version);
    assert(f.skip(name.len() as int + 1 + version.len()) =~= seq!['.', 'p', 'a', 't', 'c', 'h']);
}

/// A file name is read as the patch of `n` at `v` exactly when it is `n`
/// (holding no plus sign), a plus sign, `v` and `.patch`: the name and version
/// read back are the file name's own text, unchanged.
pub proof fn lemma_patch_file_parts_exact(f: Seq<char>, n: Seq<char>, v: Seq<char>)
    ensures
        patch_file_parts(f) == Some((n, v)) <==> (!n.contains('+') && f == n + seq!['+'] + v
            + seq!['.', 'p', 'a', 't', 'c', 'h']),
{
    let form = n + seq!['+'] + v + seq!['.', 'p', 'a', 't', 'c', 'h'];
    if !n.contains('+') && f == form {
        assert(form =~= patch_file_name_of(n, v));
        lemma_patch_file_name_round_trip(n, v);
    }
    if patch_file_parts(f) == Some((n, v)) {
        lemma_last_index_of(f, '.');
        let i = last_index_of(f, '.')->0;
        let stem = f.take(i);
        lemma_first_index_of(stem, '+');
        let k = first_index_of(stem, '+')->0;
        assert(stem.take(k) == n);
        assert(stem.skip(k + 1) == v);
        assert(f.skip(i + 1) == patch_ext());
        assert(stem =~= n + seq!['+'] + v);
        assert(f =~= stem + seq!['.'] + f.skip(i + 1));
        assert(f =~= form);
        if n.contains('+') {
            let j = choose|j: int| 0 <= j < n.len() && n[j] == '+';
            assert(stem[j] == '+');
        }
    }
}

/// A patch file's name gives back the package name and version it was made
/// from, for every package name without a plus sign.
pub proof fn lemma_patch_file_name_round_trip(name: Seq<char>, version: Seq<char>)
    requires
        !name.contains('+'),
    ensures
        patch_file_parts(patch_file_name_of(name, version)) == Some((name, version)),
{
    let f = patch_file_name_of(name, version);
    let stem = name + seq!['+'] + version;
    let d = stem.len() as int;
    assert(f =~= stem + seq!['.'] + patch_ext());
    assert(f[d] == '.');
    assert forall|j: int| d < j < f.len() implies f[j] != '.' by {
        assert(f[j] == patch_ext()[j - d - 1]);
    }
    lemma_last_index_of_is(f, '.', d);
    assert(f != seq!['.', '.']) by {
        assert(f.len() >= 7);
    }
    assert(f.take(d) =~= stem);
    assert(f.skip(d + 1) =~= patch_ext());
    assert(stem[name.len() as int] == '+');
    assert forall|j: int| 0 <= j < name.len() implies stem[j] != '+' by {
        assert(stem[j] == name[j]);
        if name[j] == '+' {
            assert(name.contains('+'));
        }
    }
    lemma_first_index_of_is(stem, '+', name.len() as int);
    assert(stem.take(name.len() as int) =~= name);
    assert(stem.skip(name.len() as int + 1) =~= version);
}

} // verus!

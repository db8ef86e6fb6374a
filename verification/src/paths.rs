//! File paths as text, with `/` between components.

use vstd::prelude::*;

verus! {

use crate::text::{
    chars_of, lemma_one_piece, lemma_pieces_append, lemma_pieces_nonempty, pieces, same, split,
    text_of, views,
};

/// The pieces that name something: neither empty nor a single dot.
pub open spec fn naming(parts: Seq<Seq<char>>) -> Seq<Seq<char>>
    decreases parts.len(),
{
    if parts.len() == 0 {
        Seq::empty()
    } else {
        let before = naming(parts.drop_last());
        if parts.last().len() == 0 || parts.last() == seq!['.'] {
            before
        } else {
            before.push(parts.last())
        }
    }
}

pub open spec fn is_absolute_path(path: Seq<char>) -> bool {
    path.len() > 0 && path.first() == '/'
}

/// The components of a path: the root or a leading dot, then every piece that names something.
/// Repeated and trailing separators, and dots further on, leave no trace.
pub open spec fn components(path: Seq<char>) -> Seq<Seq<char>> {
    let parts = pieces(path, '/');
    let lead = if is_absolute_path(path) {
        seq![seq!['/']]
    } else if parts[0] == seq!['.'] {
        seq![seq!['.']]
    } else {
        Seq::empty()
    };
    lead + naming(parts)
}

/// Whether two paths have the same components.
pub open spec fn same_path(a: Seq<char>, b: Seq<char>) -> bool {
    components(a) == components(b)
}

/// Whether the components of `base` are the first components of `path`.
pub open spec fn path_under(path: Seq<char>, base: Seq<char>) -> bool {
    components(base).len() <= components(path).len() && components(path).take(
        components(base).len() as int,
    ) == components(base)
}

/// `path` seen from the directory `base`.
pub open spec fn path_join(base: Seq<char>, path: Seq<char>) -> Seq<char> {
    if is_absolute_path(path) {
        path
    } else if base.len() > 0 && base.last() != '/' {
        base.push('/') + path
    } else {
        base + path
    }
}

/// The last component, where it is a plain name.
pub open spec fn path_file_name(path: Seq<char>) -> Option<Seq<char>> {
    let parts = components(path);
    if parts.len() == 0 || parts.last() == seq!['/'] || parts.last() == seq!['.'] || parts.last()
        == seq!['.', '.'] {
        None
    } else {
        Some(parts.last())
    }
}

/// The index of the last dot of a file name, where it is not the first character.
pub open spec fn dot_index(name: Seq<char>) -> Option<int>
    decreases name.len(),
{
    if name.len() <= 1 {
        None
    } else if name.last() == '.' {
        Some(name.len() - 1)
    } else {
        dot_index(name.drop_last())
    }
}

/// What follows the last dot of the file name, where that dot is not its first character.
pub open spec fn path_extension(path: Seq<char>) -> Option<Seq<char>> {
    match path_file_name(path) {
        None => None,
        Some(name) => match dot_index(name) {
            None => None,
            Some(at) => Some(name.skip(at + 1)),
        },
    }
}

/// The file name without its extension and the dot before it.
pub open spec fn path_file_stem(path: Seq<char>) -> Option<Seq<char>> {
    match path_file_name(path) {
        None => None,
        Some(name) => match dot_index(name) {
            None => Some(name),
            Some(at) => Some(name.take(at)),
        },
    }
}

pub open spec fn has_parent(path: Seq<char>) -> bool {
    components(path).len() > 0 && components(path).last() != seq!['/']
}

/// `parent` is the shortest beginning of `path` that holds all components but the last.
pub open spec fn is_parent_of(parent: Seq<char>, path: Seq<char>) -> bool {
    &&& parent.len() <= path.len()
    &&& parent == path.take(parent.len() as int)
    &&& components(parent) == components(path).drop_last()
    &&& forall|k: int|
        0 <= k < parent.len() ==> components(#[trigger] path.take(k)) != components(
            path,
        ).drop_last()
}

/// The directory of the last component, where there is one.
pub open spec fn path_parent(path: Seq<char>) -> Option<Seq<char>> {
    if has_parent(path) {
        Some(choose|parent: Seq<char>| is_parent_of(parent, path))
    } else {
        None
    }
}

proof fn lemma_parent_unique(a: Seq<char>, b: Seq<char>, path: Seq<char>)
    requires
        is_parent_of(a, path),
        is_parent_of(b, path),
    ensures
        a == b,
{
    if a.len() < b.len() {
        assert(components(path.take(a.len() as int)) == components(path).drop_last());
    } else if b.len() < a.len() {
        assert(components(path.take(b.len() as int)) == components(path).drop_last());
    }
}

proof fn lemma_naming_plain(parts: Seq<Seq<char>>)
    ensures
        forall|i: int|
            0 <= i < naming(parts).len() ==> (#[trigger] naming(parts)[i]).len() > 0 && naming(
                parts,
            )[i] != seq!['.'],
    decreases parts.len(),
{
    if parts.len() > 0 {
        let before = naming(parts.drop_last());
        lemma_naming_plain(parts.drop_last());
        assert forall|i: int| 0 <= i < naming(parts).len() implies (#[trigger] naming(
            parts,
        )[i]).len() > 0 && naming(parts)[i] != seq!['.'] by {
            if i < before.len() {
                assert(naming(parts)[i] == before[i]);
            }
        }
    }
}

/// How one more character changes the components.
proof fn lemma_components_step(path: Seq<char>)
    requires
        path.len() > 0,
        has_parent(path),
    ensures
        ({
            let shorter = path.drop_last();
            ||| components(shorter) == components(path)
            ||| components(shorter) == components(path).drop_last()
            ||| components(shorter).len() > 0 && components(shorter).drop_last() == components(
                path,
            ).drop_last() && components(shorter).last() != seq!['/']
        }),
{
    let shorter = path.drop_last();
    let before = pieces(shorter, '/');
    let after = pieces(path, '/');
    lemma_pieces_nonempty(shorter, '/');
    lemma_naming_plain(before);
    lemma_naming_plain(after);
    let c = path.last();
    if c == '/' {
        assert(after.drop_last() == before);
        assert(naming(after) == naming(before));
        if shorter.len() > 0 {
            assert(is_absolute_path(path) == is_absolute_path(shorter));
            assert(after[0] == before[0]);
            assert(components(shorter) == components(path));
        } else {
            assert(naming(after).len() == 0) by {
                reveal_with_fuel(naming, 3);
            }
            assert(components(path).last() == seq!['/']);
        }
    } else {
        assert(after.drop_last() == before.drop_last());
        assert(after.last() == before.last().push(c));
        if shorter.len() == 0 {
            assert(before == seq![Seq::<char>::empty()]);
            reveal_with_fuel(naming, 3);
            assert(components(shorter).len() == 0);
            assert(components(path).len() <= 1);
            assert(components(path).drop_last() =~= components(shorter));
        } else {
            assert(is_absolute_path(path) == is_absolute_path(shorter));
            let lead_before = components(shorter).take(components(shorter).len() - naming(before).len());
            let lead_after = components(path).take(components(path).len() - naming(after).len());
            if before.len() > 1 {
                assert(after[0] == before[0]);
                if before.last().len() == 0 || before.last() == seq!['.'] {
                    assert(naming(before) == naming(before.drop_last()));
                    if after.last() == seq!['.'] {
                        assert(components(shorter) =~= components(path));
                    } else {
                        assert(naming(after) == naming(before).push(after.last()));
                        assert(components(path).drop_last() =~= components(shorter));
                    }
                } else {
                    assert(after.last().len() >= 2);
                    assert(after.last() != seq!['.']);
                    assert(naming(after).drop_last() =~= naming(before).drop_last());
                    assert(components(path).drop_last() =~= components(shorter).drop_last());
                    assert(components(shorter).last() == before.last());
                    assert(!before.last().contains('/')) by {
                        lemma_piece_without_separator(shorter, '/', before.len() - 1);
                    }
                    assert(seq!['/'].contains('/')) by {
                        assert(seq!['/'][0] == '/');
                    }
                }
            } else {
                assert(before.len() == 1);
                assert(before[0] == shorter) by {
                    lemma_single_piece(shorter, '/');
                }
                assert(!is_absolute_path(shorter)) by {
                    lemma_piece_without_separator(shorter, '/', 0);
                    assert(before[0].contains(shorter[0]));
                }
                reveal_with_fuel(naming, 3);
                assert(after.len() == 1);
                assert(components(shorter).len() == 1);
                assert(components(path).len() == 1);
                assert(components(shorter).drop_last() =~= components(path).drop_last());
                assert(components(shorter).last() == shorter);
                assert(components(shorter).last() != seq!['/']);
            }
        }
    }
}

proof fn lemma_single_piece(s: Seq<char>, separator: char)
    requires
        pieces(s, separator).len() == 1,
    ensures
        pieces(s, separator)[0] == s,
    decreases s.len(),
{
    if s.len() > 0 {
        lemma_pieces_nonempty(s.drop_last(), separator);
        lemma_single_piece(s.drop_last(), separator);
        assert(s == s.drop_last().push(s.last()));
    }
}

pub proof fn lemma_piece_without_separator(s: Seq<char>, separator: char, i: int)
    requires
        0 <= i < pieces(s, separator).len(),
    ensures
        !pieces(s, separator)[i].contains(separator),
    decreases s.len(),
{
    if s.len() > 0 {
        let before = pieces(s.drop_last(), separator);
        lemma_pieces_nonempty(s.drop_last(), separator);
        if i < before.len() {
            lemma_piece_without_separator(s.drop_last(), separator, i);
        }
    }
}

proof fn lemma_parent_exists(path: Seq<char>)
    requires
        has_parent(path),
    ensures
        exists|k: int|
            0 <= k <= path.len() && components(#[trigger] path.take(k)) == components(
                path,
            ).drop_last(),
    decreases path.len(),
{
    if path.len() == 0 {
        reveal_with_fuel(naming, 3);
        assert(components(path).len() == 0);
    } else {
        let shorter = path.drop_last();
        lemma_components_step(path);
        if components(shorter) == components(path).drop_last() {
            assert(path.take(path.len() - 1) == shorter);
        } else {
            lemma_parent_exists(shorter);
            let k = choose|k: int|
                0 <= k <= shorter.len() && components(#[trigger] shorter.take(k)) == components(
                    shorter,
                ).drop_last();
            assert(path.take(k) == shorter.take(k));
        }
    }
}

/// The components of `path`.
pub fn components_of(path: &str) -> (r: Vec<String>)
    ensures
        views(r@) == components(path@),
{
    let parts = split(path, '/');
    proof {
        lemma_pieces_nonempty(path@, '/');
    }
    let mut r: Vec<String> = Vec::new();
    let absolute = is_absolute(path);
    if absolute {
        r.push("/".to_owned());
        proof {
            reveal_strlit("/");
            assert("/"@ =~= seq!['/']);
            assert(views(r@) =~= seq![seq!['/']]);
        }
    } else if same(parts[0].as_str(), ".") {
        proof {
            reveal_strlit(".");
            assert("."@ =~= seq!['.']);
            assert(views(parts@)[0] == parts@[0]@);
        }
        r.push(".".to_owned());
        assert(views(r@) =~= seq![seq!['.']]);
    } else {
        proof {
            reveal_strlit(".");
            assert("."@ =~= seq!['.']);
            assert(views(parts@)[0] == parts@[0]@);
        }
        assert(views(r@) =~= Seq::<Seq<char>>::empty());
    }
    let ghost lead = views(r@);
    let ghost all = views(parts@);
    let mut i: usize = 0;
    assert(lead + naming(all.take(0)) =~= lead);
    while i < parts.len()
        invariant
            i <= parts@.len(),
            all == views(parts@),
            views(r@) == lead + naming(all.take(i as int)),
        decreases parts@.len() - i,
    {
        assert(all.take(i + 1).drop_last() == all.take(i as int));
        let ghost before = r@;
        proof {
            reveal_strlit(".");
            assert("."@ =~= seq!['.']);
        }
        if !parts[i].as_str().is_empty() && !same(parts[i].as_str(), ".") {
            r.push(parts[i].clone());
            assert(views(r@) =~= views(before).push(all[i as int]));
            assert(views(r@) =~= lead + naming(all.take(i + 1)));
        }
        i += 1;
    }
    assert(all.take(i as int) == all);
    r
}

/// Whether the path starts at the root.
pub fn is_absolute(path: &str) -> (r: bool)
    ensures
        r == is_absolute_path(path@),
{
    path.unicode_len() > 0 && path.get_char(0) == '/'
}

/// Whether the first `n` strings of the two lists are the same.
fn same_first(a: &Vec<String>, b: &Vec<String>, n: usize) -> (r: bool)
    requires
        n <= a@.len(),
        n <= b@.len(),
    ensures
        r == (views(a@).take(n as int) == views(b@).take(n as int)),
{
    let mut i: usize = 0;
    while i < n
        invariant
            i <= n <= a@.len(),
            n <= b@.len(),
            forall|j: int| 0 <= j < i ==> #[trigger] views(a@)[j] == views(b@)[j],
        decreases n - i,
    {
        if !same(a[i].as_str(), b[i].as_str()) {
            assert(views(a@).take(n as int)[i as int] != views(b@).take(n as int)[i as int]);
            return false;
        }
        i += 1;
    }
    assert(views(a@).take(n as int) =~= views(b@).take(n as int));
    true
}

pub fn paths_equal(a: &str, b: &str) -> (r: bool)
    ensures
        r == same_path(a@, b@),
{
    let left = components_of(a);
    let right = components_of(b);
    if left.len() != right.len() {
        assert(views(left@).len() != views(right@).len());
        return false;
    }
    assert(views(left@).take(left@.len() as int) == views(left@));
    assert(views(right@).take(right@.len() as int) == views(right@));
    same_first(&left, &right, left.len())
}

pub fn starts_with_path(path: &str, base: &str) -> (r: bool)
    ensures
        r == path_under(path@, base@),
{
    let whole = components_of(path);
    let first = components_of(base);
    if first.len() > whole.len() {
        assert(views(first@).len() > views(whole@).len());
        return false;
    }
    assert(views(first@).take(first@.len() as int) == views(first@));
    same_first(&whole, &first, first.len())
}

pub fn join_path(base: &str, path: &str) -> (r: String)
    ensures
        r@ == path_join(base@, path@),
{
    if is_absolute(path) {
        return path.to_owned();
    }
    let n = base.unicode_len();
    let mut r = base.to_owned();
    if n > 0 && base.get_char(n - 1) != '/' {
        r.push('/');
    }
    r.append(path);
    r
}

pub fn file_name(path: &str) -> (r: Option<String>)
    ensures
        r is Some <==> path_file_name(path@) is Some,
        r matches Some(name) ==> path_file_name(path@) == Some(name@),
{
    let parts = components_of(path);
    if parts.len() == 0 {
        return None;
    }
    let last = parts[parts.len() - 1].as_str();
    proof {
        reveal_strlit("/");
        reveal_strlit(".");
        reveal_strlit("..");
        assert("/"@ =~= seq!['/']);
        assert("."@ =~= seq!['.']);
        assert(".."@ =~= seq!['.', '.']);
        assert(views(parts@).last() == last@);
    }
    if same(last, "/") || same(last, ".") || same(last, "..") {
        None
    } else {
        Some(last.to_owned())
    }
}

fn find_dot(name: &Vec<char>) -> (r: Option<usize>)
    ensures
        r is Some <==> dot_index(name@) is Some,
        r matches Some(at) ==> dot_index(name@) == Some(at as int) && at < name@.len(),
{
    let mut n: usize = name.len();
    assert(name@.take(n as int) == name@);
    while n > 1
        invariant
            n <= name@.len(),
            dot_index(name@) == dot_index(name@.take(n as int)),
        decreases n,
    {
        assert(name@.take(n as int).drop_last() == name@.take(n - 1));
        if name[n - 1] == '.' {
            return Some(n - 1);
        }
        n -= 1;
    }
    None
}

pub fn extension(path: &str) -> (r: Option<String>)
    ensures
        r is Some <==> path_extension(path@) is Some,
        r matches Some(ext) ==> path_extension(path@) == Some(ext@),
{
    match file_name(path) {
        None => None,
        Some(name) => {
            let chars = chars_of(name.as_str());
            match find_dot(&chars) {
                None => None,
                Some(at) => {
                    let end = chars.len();
                    assert(chars@.subrange(at + 1, end as int) == chars@.skip(at + 1));
                    Some(text_of(&chars, at + 1, end))
                },
            }
        },
    }
}

pub fn file_stem(path: &str) -> (r: Option<String>)
    ensures
        r is Some <==> path_file_stem(path@) is Some,
        r matches Some(stem) ==> path_file_stem(path@) == Some(stem@),
{
    match file_name(path) {
        None => None,
        Some(name) => {
            let chars = chars_of(name.as_str());
            match find_dot(&chars) {
                None => Some(name),
                Some(at) => {
                    assert(chars@.subrange(0, at as int) == chars@.take(at as int));
                    Some(text_of(&chars, 0, at))
                },
            }
        },
    }
}

pub fn parent(path: &str) -> (r: Option<String>)
    ensures
        r is Some <==> path_parent(path@) is Some,
        r matches Some(dir) ==> path_parent(path@) == Some(dir@),
{
    let whole = components_of(path);
    let count = whole.len();
    if count == 0 {
        assert(views(whole@).len() == 0);
        return None;
    }
    proof {
        reveal_strlit("/");
        assert("/"@ =~= seq!['/']);
        assert(views(whole@).last() == whole@.last()@);
    }
    if same(whole[count - 1].as_str(), "/") {
        return None;
    }
    let n = path.unicode_len();
    let mut k: usize = 0;
    loop
        invariant
            k <= n,
            n == path@.len(),
            views(whole@) == components(path@),
            whole@.len() == count > 0,
            has_parent(path@),
            forall|j: int|
                0 <= j < k ==> components(#[trigger] path@.take(j)) != components(
                    path@,
                ).drop_last(),
        decreases n - k,
    {
        let prefix = path.substring_char(0, k);
        let found = components_of(prefix);
        assert(prefix@ == path@.take(k as int));
        assert(views(found@).len() == found@.len());
        assert(views(whole@).take(count - 1) == components(path@).drop_last());
        if found.len() == count - 1 {
            assert(views(found@).take(count - 1) == views(found@));
            if same_first(&found, &whole, count - 1) {
                let r = prefix.to_owned();
                proof {
                    assert(is_parent_of(r@, path@));
                    lemma_parent_unique(r@, path_parent(path@)->0, path@);
                }
                return Some(r);
            }
        }
        assert(components(path@.take(k as int)) != components(path@).drop_last());
        if k == n {
            proof {
                lemma_parent_exists(path@);
                let j = choose|j: int|
                    0 <= j <= path@.len() && components(#[trigger] path@.take(j)) == components(
                        path@,
                    ).drop_last();
                assert(components(path@.take(j)) == components(path@).drop_last());
            }
            return None;
        }
        k += 1;
    }
}

// ---------------------------------------------------------------------------------------------
// Laws

/// A name that stands for one file of a directory.
pub open spec fn is_file_name(name: Seq<char>) -> bool {
    &&& name.len() > 0
    &&& !name.contains('/')
    &&& name != seq!['.']
    &&& name != seq!['.', '.']
}

proof fn lemma_first_piece_stays(s: Seq<char>, separator: char, tail: Seq<char>)
    requires
        !tail.contains(separator),
    ensures
        pieces(s.push(separator) + tail, separator)[0] == pieces(s, separator)[0],
{
    lemma_pieces_append(s, separator, tail);
    lemma_pieces_nonempty(s, separator);
}

/// A name seen from a directory is that directory and the name: one more component, the last. It
/// lies in the directory, and is another path.
pub proof fn law_joining_adds_the_name(base: Seq<char>, name: Seq<char>)
    requires
        is_file_name(name),
    ensures
        components(path_join(base, name)) == components(base).push(name),
        path_file_name(path_join(base, name)) == Some(name),
        path_under(path_join(base, name), base),
        !same_path(path_join(base, name), base),
{
    let path = path_join(base, name);
    if is_absolute_path(name) {
        assert(name.contains(name[0]));
    }
    assert(name != seq!['/']) by {
        if name == seq!['/'] {
            assert(name.contains(name[0]));
        }
    }
    if base.len() == 0 {
        assert(path =~= name);
        lemma_one_piece(name, '/');
        reveal_with_fuel(naming, 3);
        assert(pieces(base, '/') =~= seq![Seq::<char>::empty()]);
        assert(components(base) =~= Seq::<Seq<char>>::empty());
        assert(components(path) =~= seq![name]);
        assert(components(path) =~= components(base).push(name));
    } else if base.last() == '/' {
        let shorter = base.drop_last();
        assert(base =~= shorter.push('/') + Seq::<char>::empty());
        lemma_pieces_append(shorter, '/', Seq::empty());
        lemma_pieces_append(shorter, '/', name);
        lemma_first_piece_stays(shorter, '/', Seq::empty());
        lemma_first_piece_stays(shorter, '/', name);
        assert(path =~= shorter.push('/') + name);
        let before = pieces(shorter, '/');
        assert(before.push(Seq::<char>::empty()).drop_last() =~= before);
        assert(before.push(name).drop_last() =~= before);
        assert(naming(pieces(path, '/')) =~= naming(pieces(base, '/')).push(name));
        assert(path[0] == base[0]);
        assert(components(path) =~= components(base).push(name));
    } else {
        lemma_pieces_append(base, '/', name);
        lemma_first_piece_stays(base, '/', name);
        let before = pieces(base, '/');
        assert(before.push(name).drop_last() =~= before);
        assert(naming(pieces(path, '/')) =~= naming(before).push(name));
        assert(path[0] == base[0]);
        assert(components(path) =~= components(base).push(name));
    }
    assert(components(path).take(components(base).len() as int) =~= components(base));
}

proof fn lemma_shortest(path: Seq<char>, k: int)
    requires
        0 <= k <= path.len(),
        components(path.take(k)) == components(path).drop_last(),
    ensures
        exists|parent: Seq<char>| is_parent_of(parent, path),
    decreases k,
{
    if exists|j: int|
        0 <= j < k && components(#[trigger] path.take(j)) == components(path).drop_last() {
        let j = choose|j: int|
            0 <= j < k && components(#[trigger] path.take(j)) == components(path).drop_last();
        lemma_shortest(path, j);
    } else {
        assert(path.take(k).len() == k);
        assert(is_parent_of(path.take(k), path));
    }
}

/// The parent of a path holds all of its components but the last, and a name seen from a directory
/// has that directory for its parent.
pub proof fn law_parent_of_a_joined_name_is_the_directory(base: Seq<char>, name: Seq<char>)
    requires
        is_file_name(name),
    ensures
        path_parent(path_join(base, name)) is Some,
        same_path(path_parent(path_join(base, name))->0, base),
{
    law_joining_adds_the_name(base, name);
    let path = path_join(base, name);
    assert(name != seq!['/']) by {
        if name == seq!['/'] {
            assert(name.contains(name[0]));
        }
    }
    lemma_parent_exists(path);
    let k = choose|k: int|
        0 <= k <= path.len() && components(#[trigger] path.take(k)) == components(path).drop_last();
    lemma_shortest(path, k);
    assert(components(path).drop_last() =~= components(base));
}

proof fn lemma_last_dot(stem: Seq<char>, extension: Seq<char>)
    requires
        stem.len() > 0,
        !extension.contains('.'),
    ensures
        dot_index(stem.push('.') + extension) == Some(stem.len() as int),
    decreases extension.len(),
{
    let name = stem.push('.') + extension;
    if extension.len() == 0 {
        assert(name =~= stem.push('.'));
    } else {
        assert(extension.contains(extension.last()));
        let shorter = extension.drop_last();
        assert forall|i: int| 0 <= i < shorter.len() implies shorter[i] != '.' by {
            assert(extension.contains(extension[i]));
        }
        lemma_last_dot(stem, shorter);
        assert(name.drop_last() =~= stem.push('.') + shorter);
    }
}

proof fn lemma_no_dot(name: Seq<char>)
    requires
        forall|i: int| 1 <= i < name.len() ==> #[trigger] name[i] != '.',
    ensures
        dot_index(name) is None,
    decreases name.len(),
{
    if name.len() > 1 {
        assert(name[name.len() - 1] != '.');
        let shorter = name.drop_last();
        assert forall|i: int| 1 <= i < shorter.len() implies #[trigger] shorter[i] != '.' by {
            assert(shorter[i] == name[i]);
        }
        lemma_no_dot(shorter);
    }
}

/// The extension of a file is what follows the last dot of its name, and the stem what stands
/// before; a name with no dot but perhaps the first character has no extension and is its own stem.
pub proof fn law_extension_follows_the_last_dot(
    base: Seq<char>,
    stem: Seq<char>,
    extension: Seq<char>,
    plain: Seq<char>,
)
    requires
        stem.len() > 0,
        !stem.contains('/'),
        !extension.contains('/'),
        !extension.contains('.'),
        stem.push('.') + extension != seq!['.', '.'],
        is_file_name(plain),
        forall|i: int| 1 <= i < plain.len() ==> #[trigger] plain[i] != '.',
    ensures
        path_extension(path_join(base, stem.push('.') + extension)) == Some(extension),
        path_file_stem(path_join(base, stem.push('.') + extension)) == Some(stem),
        path_extension(path_join(base, plain)) is None,
        path_file_stem(path_join(base, plain)) == Some(plain),
{
    let name = stem.push('.') + extension;
    assert(is_file_name(name)) by {
        assert forall|i: int| 0 <= i < name.len() implies name[i] != '/' by {
            if i < stem.len() {
                assert(stem.contains(stem[i]));
            } else if i > stem.len() {
                assert(extension.contains(extension[i - stem.len() - 1]));
            }
        }
        assert(name.len() >= 2);
        assert(name != seq!['.']);
    }
    law_joining_adds_the_name(base, name);
    lemma_last_dot(stem, extension);
    assert(name.skip(stem.len() as int + 1) =~= extension);
    assert(name.take(stem.len() as int) =~= stem);
    law_joining_adds_the_name(base, plain);
    lemma_no_dot(plain);
}

/// An absolute path is the same from everywhere, and a separator at the end of a directory makes no
/// difference.
pub proof fn law_separators_leave_no_trace(base: Seq<char>, path: Seq<char>)
    requires
        base.len() > 0,
        base.last() != '/',
    ensures
        is_absolute_path(path) ==> path_join(base, path) == path,
        path_join(base.push('/'), path) == path_join(base, path),
        same_path(base.push('/'), base),
{
    assert(base.push('/') + path =~= base.push('/') + path);
    let longer = base.push('/');
    assert(longer =~= base.push('/') + Seq::<char>::empty());
    lemma_pieces_append(base, '/', Seq::empty());
    lemma_first_piece_stays(base, '/', Seq::empty());
    assert(pieces(base, '/').push(Seq::<char>::empty()).drop_last() =~= pieces(base, '/'));
    assert(longer[0] == base[0]);
}

/// Every path lies in itself, and what lies in a directory lies wherever that directory does.
pub proof fn law_lying_under_is_an_order(a: Seq<char>, b: Seq<char>, c: Seq<char>)
    ensures
        path_under(a, a),
        path_under(a, b) && path_under(b, c) ==> path_under(a, c),
        path_under(a, b) && path_under(b, a) ==> same_path(a, b),
{
    assert(components(a).take(components(a).len() as int) =~= components(a));
    if path_under(a, b) && path_under(b, c) {
        let n = components(c).len() as int;
        assert(components(a).take(components(b).len() as int).take(n) =~= components(a).take(n));
    }
    if path_under(a, b) && path_under(b, a) {
        assert(components(b).take(components(b).len() as int) =~= components(b));
    }
}

} // verus!

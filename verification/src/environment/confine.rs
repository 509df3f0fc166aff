//! Holding a path under a root once links are followed.
//!
//! A path need not exist yet, and one that does not cannot be resolved. So its
//! deepest existing ancestor is resolved and the rest appended: a write to a
//! new file is confined by the same check as a read of an existing one.
use vstd::prelude::*;
use crate::environment::path::joined_path;
use crate::text::{
    chars_of, ends_with, join2, join3, last_index, lemma_last_index, rfind, same, starts_with,
    string_of, texts,
};

verus! {

/// A path whose deepest existing ancestor is being looked for: what is still to
/// be resolved, and the names that were taken off it, the last one first.
#[derive(Debug)]
pub struct Unresolved {
    pub existing: String,
    pub trailing: Vec<String>,
}

/// A path without its last name, and that name.
pub open spec fn peeled(path: Seq<char>) -> Option<(Seq<char>, Seq<char>)> {
    let at = last_index(path, '/');
    if at < 0 || path.len() <= 1 {
        None
    } else if at == 0 {
        Some((path.take(1), path.skip(1)))
    } else {
        Some((path.take(at), path.skip(at + 1)))
    }
}

/// A real path with the taken-off names put back, the last taken first.
pub open spec fn rebuilt(base: Seq<char>, trailing: Seq<Seq<char>>) -> Seq<char>
    decreases trailing.len(),
{
    if trailing.len() == 0 {
        base
    } else {
        rebuilt(joined_path(base, trailing.last()), trailing.drop_last())
    }
}

/// Whether a path is a directory or lies in it: the directory's own name is a
/// whole leading part of the path's.
pub open spec fn inside(root: Seq<char>, path: Seq<char>) -> bool {
    path == root || joined_path(root, Seq::empty()).is_prefix_of(path)
}

/// Takes the last name off a path.
pub fn peel(path: &str) -> (r: Option<(String, String)>)
    ensures
        match r {
            Some(halves) => peeled(path@) == Some((halves.0@, halves.1@)),
            None => peeled(path@) is None,
        },
{
    let chars = chars_of(path);
    let len: usize = chars.len();
    proof {
        assert(chars@.skip(0) =~= chars@);
        lemma_last_index(path@, '/');
    }
    if len <= 1 {
        return None;
    }
    match rfind(&chars, 0, '/') {
        None => None,
        Some(at) => {
            let end: usize = if at == 0 {
                1
            } else {
                at
            };
            let parent = string_of(chars.as_slice(), 0, end);
            let name = string_of(chars.as_slice(), at + 1, len);
            assert(parent@ =~= path@.take(end as int));
            assert(name@ =~= path@.skip(at + 1));
            Some((parent, name))
        },
    }
}

fn join(path: &str, name: &str) -> (r: String)
    ensures
        r@ == joined_path(path@, name@),
{
    if ends_with(path, "/") {
        join2(path, name)
    } else {
        join3(path, "/", name)
    }
}

/// Whether a path is a directory or lies in it.
pub fn lies_in(root: &str, path: &str) -> (r: bool)
    ensures
        r == inside(root@, path@),
{
    if same(path, root) {
        return true;
    }
    let prefix = join(root, "");
    proof {
        reveal_strlit("");
        assert(""@ =~= Seq::empty());
    }
    starts_with(path, prefix.as_str())
}

/// A real path with the taken-off names put back.
pub fn rebuild(base: &str, trailing: &Vec<String>) -> (r: String)
    ensures
        r@ == rebuilt(base@, texts(trailing@)),
{
    let ghost all = texts(trailing@);
    let mut full = base.to_owned();
    let mut i: usize = trailing.len();
    assert(all.take(i as int) =~= all);
    while i > 0
        invariant
            i <= trailing@.len(),
            all == texts(trailing@),
            rebuilt(base@, all) == rebuilt(full@, all.take(i as int)),
        decreases i,
    {
        assert(all.take(i as int).drop_last() =~= all.take(i - 1));
        assert(all.take(i as int).last() == trailing@[i - 1]@);
        i -= 1;
        full = join(full.as_str(), trailing[i].as_str());
    }
    full
}

/// Looking for an existing ancestor comes to an end: every path that a name is
/// taken off gets shorter.
pub proof fn peeling_ends(path: Seq<char>)
    ensures
        peeled(path) matches Some(halves) ==> halves.0.len() < path.len(),
{
    lemma_last_index(path, '/');
}

/// Putting a name back where it was taken off gives the path it was taken off,
/// but for a doubled separator.
pub proof fn peeling_loses_nothing(path: Seq<char>)
    requires
        peeled(path) is Some,
        last_index(path, '/') == 0 || path[last_index(path, '/') - 1] != '/',
    ensures
        peeled(path) matches Some((parent, name)) && joined_path(parent, name) == path,
{
    lemma_last_index(path, '/');
    reveal_strlit("/");
    let at = last_index(path, '/');
    let (parent, name) = peeled(path)->0;
    if at == 0 {
        assert("/"@ =~= parent.subrange(0, 1));
        assert(path =~= parent + name);
    } else {
        assert(parent.last() == path[at - 1]);
        assert(parent.subrange(parent.len() - 1, parent.len() as int)[0] != '/');
        assert(path =~= parent + "/"@ + name);
    }
}

/// A directory beside the root is not inside it, even where its name begins
/// with the root's.
pub proof fn a_sibling_is_not_inside(root: Seq<char>, rest: Seq<char>)
    requires
        root.len() > 0,
        root.last() != '/',
        rest.len() > 0,
        rest[0] != '/',
    ensures
        !inside(root, root + rest),
{
    reveal_strlit("/");
    let path = root + rest;
    assert(path.len() > root.len());
    let prefix = joined_path(root, Seq::empty());
    assert(!"/"@.is_suffix_of(root)) by {
        assert(root.subrange(root.len() - 1, root.len() as int)[0] == root.last());
    }
    assert(prefix =~= root + "/"@);
    assert(prefix[root.len() as int] == '/');
    assert(path.subrange(0, prefix.len() as int)[root.len() as int] == rest[0]);
}

/// A directory is inside itself, and so is everything whose path goes on from
/// it by a separator; nothing else is.
pub proof fn only_what_goes_on_from_the_root_is_inside(root: Seq<char>, path: Seq<char>, rest: Seq<char>)
    requires
        root.len() > 0,
        root.last() != '/',
    ensures
        inside(root, root),
        inside(root, root + seq!['/'] + rest),
        inside(root, path) ==> path == root || (path.len() > root.len() && path.take(
            root.len() as int,
        ) == root && path[root.len() as int] == '/'),
        inside(seq!['/'], seq!['/'] + rest),
{
    crate::environment::path::a_joined_name_is_the_last_one(root, Seq::empty());
    crate::environment::path::a_joined_name_is_the_last_one(seq!['/'], Seq::empty());
    let prefix = root.push('/');
    assert(joined_path(root, Seq::empty()) =~= prefix);
    let deep = root + seq!['/'] + rest;
    assert(deep.subrange(0, prefix.len() as int) =~= prefix);
    if path != root && inside(root, path) {
        assert(path.subrange(0, prefix.len() as int) == prefix);
        assert(path.take(root.len() as int) =~= root) by {
            assert forall|k: int| 0 <= k < root.len() implies path[k] == root[k] by {
                assert(path.subrange(0, prefix.len() as int)[k] == prefix[k]);
            }
        }
        assert(path.subrange(0, prefix.len() as int)[root.len() as int] == '/');
    }
    let top = seq!['/'] + rest;
    assert(joined_path(seq!['/'], Seq::empty()) =~= seq!['/']);
    assert(top.subrange(0, 1) =~= seq!['/']);
}

/// Names that were taken off are put back in the order they stood in: the last
/// one taken is the first behind what is left.
pub proof fn names_are_put_back_in_order(base: Seq<char>, trailing: Seq<Seq<char>>, name: Seq<char>)
    ensures
        rebuilt(base, Seq::empty()) == base,
        rebuilt(base, trailing.push(name)) == rebuilt(joined_path(base, name), trailing),
{
    assert(trailing.push(name).drop_last() =~= trailing);
}

/// A name can be taken off every path but the top, and it holds no separator.
pub proof fn a_name_is_taken_off_the_end(dir: Seq<char>, name: Seq<char>)
    requires
        !name.contains('/'),
        name.len() > 0,
    ensures
        dir.len() > 0 ==> peeled(dir + seq!['/'] + name) == Some((dir, name)),
        peeled(seq!['/'] + name) == Some((seq!['/'], name)),
        peeled(seq!['/']) is None,
        peeled(Seq::empty()) is None,
{
    let path = dir + seq!['/'] + name;
    lemma_last_index(path, '/');
    let at = last_index(path, '/');
    assert(path[dir.len() as int] == '/');
    if at > dir.len() {
        assert(path[at] == name[at - dir.len() - 1]);
        assert(name.contains(name[at - dir.len() - 1]));
    }
    assert(path.take(dir.len() as int) =~= dir);
    assert(path.skip(dir.len() as int + 1) =~= name);
    let top = seq!['/'] + name;
    lemma_last_index(top, '/');
    let first = last_index(top, '/');
    assert(top[0] == '/');
    if first > 0 {
        assert(top[first] == name[first - 1]);
        assert(name.contains(name[first - 1]));
    }
    assert(top.take(1) =~= seq!['/']);
    assert(top.skip(1) =~= name);
}

} // verus!

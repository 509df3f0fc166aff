//! Files on the far side, over the SFTP subsystem.
//!
//! SFTP is a subsystem of the SSH server, not a program in the user's path, so
//! reading, writing and listing behave the same whatever the machine has
//! installed. It also resolves links on the far side, which is what catches a
//! link inside the root pointing out of it: the whole difference between a
//! root that is enforced and one that is merely declared.
use vstd::prelude::*;
use crate::environment::confine::{inside, lies_in, peel, peeled, rebuild, rebuilt, Unresolved};
use crate::environment::edit::{count_matches, occurrences};
use crate::environment::local::{escape, escape_fault};
use crate::environment::machine::DirEntry;
use crate::environment::path::RootedPath;
use crate::error::{faulted, Denial, DenialModel, Fault, FaultModel};
use crate::text::{
    chars_of, join3, last_index, lemma_last_index, rfind, same, split_on, split_text, string_of,
    texts,
};

verus! {

/// The far side's filesystem, under a root.
#[derive(Debug)]
pub struct SftpFiles {
    /// The root as the far side resolves it.
    pub real_root: String,
}

impl SftpFiles {
    /// Starts resolving a path: all of it is still to be resolved.
    pub fn begin(path: &RootedPath) -> (r: Unresolved)
        ensures
            r.existing@ == path@,
            r.trailing@.len() == 0,
    {
        Unresolved { existing: path.as_str().to_owned(), trailing: Vec::new() }
    }

    /// Takes the last name off what could not be resolved. Where the top
    /// itself cannot be, there is nothing left to take off.
    pub fn climb(state: Unresolved, path: &RootedPath) -> (r: Result<Unresolved, Fault>)
        ensures
            match peeled(state.existing@) {
                Some(halves) => r matches Ok(next) && next.existing@ == halves.0 && texts(
                    next.trailing@,
                ) == texts(state.trailing@).push(halves.1),
                None => faulted(r) == Some(
                    escape_fault(path@, "resolves outside the target's root via a symlink"@),
                ),
            },
    {
        match peel(state.existing.as_str()) {
            Some((parent, name)) => {
                let mut trailing = state.trailing;
                let ghost before = texts(trailing@);
                trailing.push(name);
                assert(texts(trailing@) =~= before.push(name@));
                Ok(Unresolved { existing: parent, trailing })
            },
            None => Err(escape(path, "resolves outside the target's root via a symlink")),
        }
    }

    /// The real path, once an ancestor was resolved to `ancestor`, and whether all
    /// of it exists. Anything that leaves the root is refused.
    pub fn resolve(&self, state: &Unresolved, ancestor: &str, path: &RootedPath) -> (r: Result<
        (String, bool),
        Fault,
    >)
        ensures
            ({
                let full = rebuilt(ancestor@, texts(state.trailing@));
                if inside(self.real_root@, full) {
                    r matches Ok(found) && found.0@ == full && found.1 == (
                    state.trailing@.len() == 0)
                } else {
                    faulted(r) == Some(
                        escape_fault(path@, "resolves outside the target's root via a symlink"@),
                    )
                }
            }),
    {
        let full = rebuild(ancestor, &state.trailing);
        if lies_in(self.real_root.as_str(), full.as_str()) {
            Ok((full, state.trailing.len() == 0))
        } else {
            Err(escape(path, "resolves outside the target's root via a symlink"))
        }
    }
}

/// A path that could not be read, by what the far side says of it.
pub fn missing(path: &RootedPath, error: String) -> (r: Fault)
    ensures
        r@ == if occurrences(error@, "No such file"@) > 0 || occurrences(error@, "NoSuchFile"@)
            > 0 {
            FaultModel::Denied(DenialModel::NotFound { path: path@ })
        } else {
            FaultModel::Unreachable(error@)
        },
{
    proof {
        reveal_strlit("No such file");
        reveal_strlit("NoSuchFile");
    }
    if count_matches(error.as_str(), "No such file") > 0 || count_matches(
        error.as_str(),
        "NoSuchFile",
    ) > 0 {
        Fault::Denied(Denial::NotFound { path: path.as_str().to_owned() })
    } else {
        Fault::Unreachable(error)
    }
}

/// The directories named by the first `n` pieces of a path, outermost first.
pub open spec fn directories(pieces: Seq<Seq<char>>, n: int) -> Seq<Seq<char>>
    decreases n,
{
    if n <= 0 {
        Seq::empty()
    } else {
        let before = directories(pieces, n - 1);
        if pieces[n - 1].len() == 0 {
            before
        } else {
            before.push(
                (if before.len() == 0 {
                    Seq::empty()
                } else {
                    before.last()
                }) + "/"@ + pieces[n - 1],
            )
        }
    }
}

/// Every directory on the way to a file, outermost first.
pub open spec fn ancestors_of(file: Seq<char>) -> Seq<Seq<char>> {
    let at = last_index(file, '/');
    if at < 0 {
        Seq::empty()
    } else {
        let pieces = split_on(file.take(at), '/');
        directories(pieces, pieces.len() as int)
    }
}

/// Every directory on the way to a file, outermost first. The protocol makes
/// one directory at a time, and one that exists already is not an error.
pub fn ancestors(file: &str) -> (r: Vec<String>)
    ensures
        texts(r@) == ancestors_of(file@),
{
    let chars = chars_of(file);
    proof {
        assert(chars@.skip(0) =~= chars@);
        lemma_last_index(file@, '/');
    }
    let mut made: Vec<String> = Vec::new();
    let at: usize = match rfind(&chars, 0, '/') {
        Some(at) => at,
        None => {
            assert(texts(made@) =~= Seq::empty());
            return made;
        },
    };
    let head = string_of(chars.as_slice(), 0, at);
    assert(head@ =~= file@.take(at as int));
    let pieces = split_text(head.as_str(), '/');
    let ghost all = texts(pieces@);
    let mut so_far = String::new();
    let mut i: usize = 0;
    assert(texts(made@) =~= Seq::empty());
    while i < pieces.len()
        invariant
            i <= pieces@.len(),
            all == texts(pieces@),
            texts(made@) == directories(all, i as int),
            so_far@ == if made@.len() == 0 {
                Seq::empty()
            } else {
                texts(made@).last()
            },
        decreases pieces@.len() - i,
    {
        if !pieces[i].as_str().is_empty() {
            let ghost before = texts(made@);
            so_far = join3(so_far.as_str(), "/", pieces[i].as_str());
            made.push(so_far.clone());
            assert(texts(made@) =~= before.push(so_far@));
        }
        i += 1;
    }
    made
}

/// The entries that are the directory's own.
pub open spec fn own(listing: Seq<DirEntry>) -> Seq<DirEntry>
    decreases listing.len(),
{
    if listing.len() == 0 {
        Seq::empty()
    } else {
        let before = own(listing.drop_last());
        if listing.last().name@ == "."@ || listing.last().name@ == ".."@ {
            before
        } else {
            before.push(listing.last())
        }
    }
}

/// The entries that are the directory's own: `.` and `..` are the protocol's.
pub fn own_entries(listing: Vec<DirEntry>) -> (r: Vec<DirEntry>)
    ensures
        r@ == own(listing@),
{
    let ghost all = listing@;
    let mut rest = listing;
    let mut kept: Vec<DirEntry> = Vec::new();
    let ghost mut done: int = 0;
    assert(all.skip(0) =~= all);
    assert(all.take(0) =~= Seq::empty());
    assert(kept@ =~= own(all.take(0)));
    while rest.len() > 0
        invariant
            0 <= done <= all.len(),
            rest@ == all.skip(done),
            kept@ == own(all.take(done)),
        decreases rest@.len(),
    {
        let ghost before = rest@;
        let entry = rest.remove(0);
        proof {
            assert(rest@ =~= before.drop_first());
            assert(before.drop_first() =~= all.skip(done + 1));
            assert(entry == all[done]);
            assert(all.take(done + 1).drop_last() =~= all.take(done));
            assert(all.take(done + 1).last() == entry);
        }
        if !same(entry.name.as_str(), ".") && !same(entry.name.as_str(), "..") {
            kept.push(entry);
        }
        proof {
            done = done + 1;
        }
    }
    assert(all.take(done) =~= all);
    kept
}

/// The directories on the way to a file are told outermost first, each one name
/// deeper than the one before it: those on the way to its own directory, and
/// then that directory.
pub proof fn directories_are_told_outermost_first(dir: Seq<char>, name: Seq<char>, file: Seq<char>)
    requires
        dir.len() > 0,
        dir[0] == '/',
        name.len() > 0,
        !name.contains('/'),
        !file.contains('/'),
    ensures
        ({
            let deeper = ancestors_of(dir + seq!['/'] + name + seq!['/'] + file);
            let above = ancestors_of(dir + seq!['/'] + name);
            &&& deeper.len() == above.len() + 1
            &&& deeper.drop_last() == above
            &&& deeper.last() == (if above.len() == 0 {
                Seq::empty()
            } else {
                above.last()
            }) + seq!['/'] + name
        }),
        ancestors_of(seq!['/'] + file).len() == 0,
        ancestors_of(file).len() == 0,
{
    reveal_strlit("/");
    assert("/"@ =~= seq!['/']);
    let path = dir + seq!['/'] + name;
    let whole = path + seq!['/'] + file;
    lemma_cut(path, file);
    lemma_cut(dir, name);
    let pieces = split_on(path, '/');
    crate::text::an_unseparated_text_is_one_piece(name, '/');
    crate::text::a_separator_parts_the_pieces(dir, name, '/');
    let before = split_on(dir, '/');
    assert(pieces =~= before.push(name));
    assert(pieces.drop_last() =~= before);
    lemma_directories_of_a_beginning(pieces, before, before.len() as int);
    let above = ancestors_of(dir + seq!['/'] + name);
    let deeper = ancestors_of(whole);
    assert(deeper.drop_last() =~= above);
    lemma_cut(Seq::empty(), file);
    assert(Seq::<char>::empty() + seq!['/'] + file =~= seq!['/'] + file);
    reveal_with_fuel(directories, 2);
    let none = split_on(Seq::<char>::empty(), '/');
    assert(none =~= seq![Seq::<char>::empty()]);
    lemma_last_index(file, '/');
    if last_index(file, '/') >= 0 {
        assert(file.contains(file[last_index(file, '/')]));
    }
}

proof fn lemma_cut(head: Seq<char>, name: Seq<char>)
    requires
        !name.contains('/'),
    ensures
        last_index(head + seq!['/'] + name, '/') == head.len(),
        (head + seq!['/'] + name).take(head.len() as int) == head,
{
    let s = head + seq!['/'] + name;
    lemma_last_index(s, '/');
    let at = last_index(s, '/');
    assert(s[head.len() as int] == '/');
    if at > head.len() {
        assert(s[at] == name[at - head.len() - 1]);
        assert(name.contains(name[at - head.len() - 1]));
    }
    assert(s.take(head.len() as int) =~= head);
}

proof fn lemma_directories_of_a_beginning(a: Seq<Seq<char>>, b: Seq<Seq<char>>, n: int)
    requires
        0 <= n <= a.len(),
        n <= b.len(),
        forall|i: int| 0 <= i < n ==> #[trigger] a[i] == b[i],
    ensures
        directories(a, n) == directories(b, n),
    decreases n,
{
    if n > 0 {
        lemma_directories_of_a_beginning(a, b, n - 1);
        assert(a[n - 1] == b[n - 1]);
    }
}

/// Of a directory's listing everything is kept, in order, but the protocol's
/// own two names.
pub proof fn only_the_protocols_names_are_left_out(listing: Seq<DirEntry>)
    ensures
        own(listing) == listing.filter(
            |entry: DirEntry| entry.name@ != seq!['.'] && entry.name@ != seq!['.', '.'],
        ),
    decreases listing.len(),
{
    reveal(Seq::filter);
    reveal_strlit(".");
    reveal_strlit("..");
    assert("."@ =~= seq!['.']);
    assert(".."@ =~= seq!['.', '.']);
    let kept = |entry: DirEntry| entry.name@ != seq!['.'] && entry.name@ != seq!['.', '.'];
    if listing.len() > 0 {
        only_the_protocols_names_are_left_out(listing.drop_last());
    }
    assert(own(listing) =~= listing.filter(kept));
}

} // verus!

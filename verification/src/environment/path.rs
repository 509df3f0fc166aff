//! Roots, and the paths an agent may name under them.
//!
//! Escape is refused lexically here, before any transport sees the path, so
//! the refusal cannot differ by how a machine is reached.
use vstd::prelude::*;
use crate::error::{Denial, DenialModel};
use crate::text::{
    a_separator_parts_the_pieces, an_unseparated_text_is_one_piece, chars_of, ends_with, join2,
    join3, split_on, starts_with,
};

verus! {

/// Whether one of the path's components is `..`.
pub open spec fn climbs(path: Seq<char>) -> bool {
    exists|i: int| climbs_at(path, i)
}

/// Whether the component that starts at `i` is `..`.
pub open spec fn climbs_at(path: Seq<char>, i: int) -> bool {
    &&& 0 <= i
    &&& i + 2 <= path.len()
    &&& path[i] == '.' && path[i + 1] == '.'
    &&& i == 0 || path[i - 1] == '/'
    &&& i + 2 == path.len() || path[i + 2] == '/'
}

/// Whether a path begins at the top.
pub open spec fn absolute(path: Seq<char>) -> bool {
    path.len() > 0 && path[0] == '/'
}

fn is_absolute(path: &str) -> (r: bool)
    ensures
        r == absolute(path@),
{
    let chars = chars_of(path);
    chars.len() > 0 && chars[0] == '/'
}

fn has_climb(path: &str) -> (r: bool)
    ensures
        r == climbs(path@),
{
    let chars = chars_of(path);
    let mut i: usize = 0;
    while i < chars.len()
        invariant
            i <= chars@.len(),
            chars@ == path@,
            forall|k: int| 0 <= k < i ==> !climbs_at(path@, k),
        decreases chars@.len() - i,
    {
        if chars.len() - i >= 2 && chars[i] == '.' && chars[i + 1] == '.' && (i == 0 || chars[i - 1]
            == '/') && (chars.len() - i == 2 || chars[i + 2] == '/') {
            assert(climbs_at(path@, i as int));
            return true;
        }
        i += 1;
    }
    assert(forall|k: int| !climbs_at(path@, k));
    false
}

/// The directory a target's paths are confined to.
#[derive(Debug)]
pub struct Root {
    text: String,
}

impl View for Root {
    type V = Seq<char>;

    closed spec fn view(&self) -> Seq<char> {
        self.text@
    }
}

/// Why a root is refused.
pub open spec fn root_denial(path: Seq<char>) -> Option<DenialModel> {
    if !absolute(path) {
        Some(DenialModel::Malformed { what: "root"@, reason: "a root is an absolute path"@ })
    } else if climbs(path) {
        Some(DenialModel::Malformed { what: "root"@, reason: "a root does not climb"@ })
    } else {
        None
    }
}

impl Root {
    pub closed spec fn wf(&self) -> bool {
        root_denial(self.text@) is None
    }

    pub fn new(path: &str) -> (r: Result<Root, Denial>)
        ensures
            match r {
                Ok(root) => root_denial(path@) is None && root@ == path@ && root.wf(),
                Err(denial) => root_denial(path@) == Some(denial@),
            },
    {
        if !is_absolute(path) {
            return Err(
                Denial::Malformed {
                    what: "root".to_owned(),
                    reason: "a root is an absolute path".to_owned(),
                },
            );
        }
        if has_climb(path) {
            return Err(
                Denial::Malformed {
                    what: "root".to_owned(),
                    reason: "a root does not climb".to_owned(),
                },
            );
        }
        Ok(Root { text: path.to_owned() })
    }

    pub fn as_str(&self) -> (r: &str)
        ensures
            r@ == self@,
    {
        self.text.as_str()
    }
}

/// A path an agent may name: absolute, and never climbing.
#[derive(Debug)]
pub struct RootedPath {
    text: String,
}

impl View for RootedPath {
    type V = Seq<char>;

    closed spec fn view(&self) -> Seq<char> {
        self.text@
    }
}

/// Why a path is refused: it leans on a home directory, on a working
/// directory, or on the directory above.
pub open spec fn path_denial(path: Seq<char>) -> Option<DenialModel> {
    if "~"@.is_prefix_of(path) {
        Some(DenialModel::PathEscape { path, reason: "names a home directory"@ })
    } else if !absolute(path) {
        Some(DenialModel::PathEscape { path, reason: "is not absolute"@ })
    } else if climbs(path) {
        Some(DenialModel::PathEscape { path, reason: "climbs with `..`"@ })
    } else {
        None
    }
}

/// `path` with one more component.
pub open spec fn joined_path(path: Seq<char>, name: Seq<char>) -> Seq<char> {
    if "/"@.is_suffix_of(path) {
        path + name
    } else {
        path + "/"@ + name
    }
}

impl RootedPath {
    pub closed spec fn wf(&self) -> bool {
        path_denial(self.text@) is None
    }

    pub fn new(path: &str) -> (r: Result<RootedPath, Denial>)
        ensures
            match r {
                Ok(rooted) => path_denial(path@) is None && rooted@ == path@ && rooted.wf(),
                Err(denial) => path_denial(path@) == Some(denial@),
            },
    {
        let reason = if starts_with(path, "~") {
            "names a home directory"
        } else if !is_absolute(path) {
            "is not absolute"
        } else if has_climb(path) {
            "climbs with `..`"
        } else {
            return Ok(RootedPath { text: path.to_owned() });
        };
        Err(Denial::PathEscape { path: path.to_owned(), reason: reason.to_owned() })
    }

    /// The root as a path.
    pub fn root_of(root: &Root) -> (r: RootedPath)
        requires
            root.wf(),
        ensures
            r@ == root@,
            r.wf(),
    {
        proof {
            reveal_strlit("~");
            assert(root@[0] == '/');
            assert("~"@[0] == '~');
        }
        RootedPath { text: root.text.clone() }
    }

    /// The path of an entry under this one.
    pub fn join(&self, name: &str) -> (r: Result<RootedPath, Denial>)
        ensures
            match r {
                Ok(rooted) => path_denial(joined_path(self@, name@)) is None && rooted@
                    == joined_path(self@, name@) && rooted.wf(),
                Err(denial) => path_denial(joined_path(self@, name@)) == Some(denial@),
            },
    {
        let text = if ends_with(self.text.as_str(), "/") {
            join2(self.text.as_str(), name)
        } else {
            join3(self.text.as_str(), "/", name)
        };
        RootedPath::new(text.as_str())
    }

    pub fn as_str(&self) -> (r: &str)
        ensures
            r@ == self@,
    {
        self.text.as_str()
    }

    /// A copy of the path.
    pub fn copy(&self) -> (r: RootedPath)
        ensures
            r@ == self@,
            r.wf() == self.wf(),
    {
        RootedPath { text: self.text.clone() }
    }
}

/// A path that is accepted never climbs and always begins at the top, so it
/// can only be taken from the root down.
pub proof fn an_accepted_path_stays_under_its_root(path: RootedPath)
    requires
        path.wf(),
    ensures
        absolute(path@),
        !climbs(path@),
{
}

/// A path that has `..` for one of its components is refused, wherever it
/// stands, and so is one that does not begin at the top; dots that are part of
/// a name are not in the way.
pub proof fn a_climbing_path_is_refused(path: Seq<char>)
    ensures
        (exists|i: int|
            0 <= i < split_on(path, '/').len() && #[trigger] split_on(path, '/')[i] == seq![
                '.',
                '.',
            ]) <==> climbs(path),
        climbs(path) ==> path_denial(path) is Some && root_denial(path) is Some,
        path.len() == 0 || path[0] != '/' ==> path_denial(path) is Some && root_denial(
            path,
        ) is Some,
        path.len() > 0 && path[0] == '/' && !climbs(path) ==> path_denial(path) is None
            && root_denial(path) is None,
        path_denial(path) matches Some(denial) ==> (denial matches DenialModel::PathEscape {
            path: told,
            ..
        } && told == path),
{
    reveal_strlit("~");
    if path.len() > 0 && path[0] == '/' {
        assert(path.subrange(0, 1)[0] == '/');
    }
    let pieces = split_on(path, '/');
    if climbs(path) {
        let i = choose|i: int| climbs_at(path, i);
        let head = path.take(i);
        let rest = path.skip(i + 2);
        let dots = seq!['.', '.'];
        assert(!dots.contains('/'));
        an_unseparated_text_is_one_piece(dots, '/');
        // Whatever stands behind the dots, they are a piece of their own.
        let tail = dots + rest;
        if rest.len() > 0 {
            let later = rest.drop_first();
            assert(tail =~= dots + seq!['/'] + later);
            a_separator_parts_the_pieces(dots, later, '/');
        } else {
            assert(tail =~= dots);
        }
        assert(split_on(tail, '/')[0] == dots);
        if i > 0 {
            let before = head.drop_last();
            assert(path =~= before + seq!['/'] + tail);
            a_separator_parts_the_pieces(before, tail, '/');
            assert(pieces[split_on(before, '/').len() as int] == dots);
        } else {
            assert(path =~= tail);
            assert(pieces[0] == dots);
        }
    }
    if exists|i: int| 0 <= i < pieces.len() && #[trigger] pieces[i] == seq!['.', '.'] {
        let i = choose|i: int| 0 <= i < pieces.len() && #[trigger] pieces[i] == seq!['.', '.'];
        lemma_piece_stands(path, i);
    }
}

/// A piece that is `..` stands in the path between separators.
proof fn lemma_piece_stands(path: Seq<char>, i: int)
    requires
        0 <= i < split_on(path, '/').len(),
        split_on(path, '/')[i] == seq!['.', '.'],
    ensures
        climbs(path),
    decreases path.len(),
{
    let pieces = split_on(path, '/');
    let at = crate::text::last_index(path, '/');
    crate::text::lemma_last_index(path, '/');
    if at < 0 {
        assert(!path.contains('/')) by {
            if path.contains('/') {
                let k = choose|k: int| 0 <= k < path.len() && path[k] == '/';
                assert(path[k] != '/');
            }
        }
        an_unseparated_text_is_one_piece(path, '/');
        assert(climbs_at(path, 0));
    } else {
        let before = path.take(at);
        let last = path.skip(at + 1);
        assert(path =~= before + seq!['/'] + last);
        assert(!last.contains('/')) by {
            if last.contains('/') {
                let k = choose|k: int| 0 <= k < last.len() && last[k] == '/';
                assert(path[at + 1 + k] != '/');
            }
        }
        an_unseparated_text_is_one_piece(last, '/');
        a_separator_parts_the_pieces(before, last, '/');
        if i == pieces.len() - 1 {
            assert(last == seq!['.', '.']);
            assert(path[at + 1] == last[0] && path[at + 2] == last[1]);
            assert(climbs_at(path, at + 1));
        } else {
            lemma_piece_stands(before, i);
            let k = choose|k: int| climbs_at(before, k);
            assert(climbs_at(path, k));
        }
    }
}

/// A name that is joined to a directory stands behind it, after one separator.
pub proof fn a_joined_name_is_the_last_one(dir: Seq<char>, name: Seq<char>)
    ensures
        dir.len() > 0 && dir.last() == '/' ==> joined_path(dir, name) == dir + name,
        dir.len() == 0 || dir.last() != '/' ==> joined_path(dir, name) == dir.push('/') + name,
{
    reveal_strlit("/");
    if dir.len() > 0 {
        assert(dir.subrange(dir.len() - 1, dir.len() as int)[0] == dir.last());
        if dir.last() == '/' {
            assert(dir.subrange(dir.len() - 1, dir.len() as int) =~= "/"@);
        }
    }
    if dir.len() == 0 || dir.last() != '/' {
        assert(dir + "/"@ + name =~= dir.push('/') + name);
    }
}

} // verus!

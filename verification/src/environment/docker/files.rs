//! Files inside a container, through the daemon rather than through the image.
//!
//! The archive endpoints move a tar in and out of a container without running
//! anything inside it, so reading, writing and listing behave the same
//! whatever the image is. Two operations have no endpoint: removing and
//! renaming run `rm -f` and `mv`. Nothing reads their output; both are
//! answered by an exit code.
use vstd::prelude::*;
use crate::environment::docker::engine::{archive_fault, archive_get, ExecState};
use crate::environment::docker::spawn::{parent, parent_of, strip_trailing};
use crate::environment::machine::{Confined, DirEntry, EntryKind};
use crate::environment::path::RootedPath;
use crate::error::{faulted, Denial, DenialModel, Fault, FaultModel};
use crate::json::{Json, JsonModel};
use crate::text::{
    chars_of, join2, join3, join4, join5, lemma_split_nonempty, split_on, split_text, string_of, texts,
    without_trailing,
};

verus! {

/// The bit of a path's mode that marks a directory.
pub const MODE_DIR: u64 = 0x80000000;

/// The bit of a path's mode that marks a symbolic link.
pub const MODE_SYMLINK: u64 = 0x8000000;

// ---------------------------------------------------------------------------
// Archives
// ---------------------------------------------------------------------------

/// One entry of an archive.
#[derive(Debug)]
pub struct TarEntry {
    pub path: String,
    /// What the entry is, as archives mark it.
    pub flag: u8,
    pub size: Option<u64>,
    pub body: Vec<u8>,
}

/// What a [`TarEntry`] says.
pub struct TarModel {
    pub path: Seq<char>,
    pub flag: u8,
    pub size: Option<u64>,
    pub body: Seq<u8>,
}

impl View for TarEntry {
    type V = TarModel;

    open spec fn view(&self) -> TarModel {
        TarModel { path: self.path@, flag: self.flag, size: self.size, body: self.body@ }
    }
}

/// An archive that is being written: a `tar::Builder` over a buffer.
#[verifier::external_body]
pub struct ArchiveBuilder {
    builder: tar::Builder<Vec<u8>>,
}

/// The entries that were appended to an archive that is being written.
pub uninterp spec fn appended(archive: ArchiveBuilder) -> Seq<TarModel>;

/// What `tar::Archive` reads from some bytes, entry by entry: an entry, or why
/// it cannot be read.
pub uninterp spec fn archive_items(tar: Seq<u8>) -> Seq<Result<TarModel, Seq<char>>>;

/// Why `tar::Builder::append_data` refuses a name, where it does.
pub uninterp spec fn name_refusal(name: Seq<char>) -> Option<Seq<char>>;

/// The components of a name, but for the separator at its end.
pub open spec fn named_parts(name: Seq<char>) -> Seq<Seq<char>> {
    if name.len() > 0 && name.last() == '/' {
        split_on(name.drop_last(), '/')
    } else {
        split_on(name, '/')
    }
}

/// Whether a name is one that an archive keeps as it is: relative, of nonempty
/// components none of which is `.` or `..`, maybe with a separator at its end,
/// and without a null character or a backslash.
pub open spec fn plain_name(name: Seq<char>) -> bool {
    let parts = named_parts(name);
    &&& !name.contains('\0')
    &&& !name.contains('\\')
    &&& forall|i: int|
        0 <= i < parts.len() ==> (#[trigger] parts[i]).len() > 0 && parts[i] != seq!['.']
            && parts[i] != seq!['.', '.']
}

/// An entry as it is appended.
pub open spec fn entry_of(flag: u8, name: Seq<char>, body: Seq<u8>) -> TarModel {
    TarModel { path: name, flag, size: Some(body.len() as u64), body }
}

/// Calls `tar::Builder::new` on an empty buffer.
#[verifier::external_body]
fn new_archive() -> (r: ArchiveBuilder)
    ensures
        appended(r).len() == 0,
{
    ArchiveBuilder { builder: tar::Builder::new(Vec::new()) }
}

/// The flag that marks a regular file in an archive.
pub const REGULAR: u8 = 0x30;

/// The flag that marks a directory in an archive.
pub const DIRECTORY: u8 = 0x35;

/// The flag that marks a symbolic link in an archive.
pub const SYMLINK: u8 = 0x32;

/// The flag that marks a hard link in an archive.
pub const LINK: u8 = 0x31;

/// Calls `tar::Builder::append_data` with a header of the given flag and mode,
/// of the body's size and of no time. Writing into a buffer does not fail, so
/// the name alone decides whether it does, as [`name_refusal`] says. On Unix,
/// where a path is its bytes, a plain name is never refused: one of up to a
/// hundred bytes is kept in the header, and a longer one in an entry of its
/// own.
#[verifier::external_body]
fn append_entry(
    archive: &mut ArchiveBuilder,
    flag: u8,
    mode: u32,
    name: &str,
    body: &[u8],
) -> (r: Result<(), String>)
    requires
        flag == REGULAR || flag == DIRECTORY,
    ensures
        match r {
            Ok(_) => name_refusal(name@) is None,
            Err(error) => name_refusal(name@) == Some(error@),
        },
        plain_name(name@) ==> r is Ok,
        r is Ok ==> appended(*final(archive)) == appended(*old(archive)).push(
            entry_of(flag, name@, body@),
        ),
{
    let mut header = tar::Header::new_gnu();
    header.set_entry_type(tar::EntryType::new(flag));
    header.set_size(body.len() as u64);
    header.set_mode(mode);
    header.set_mtime(0);
    archive.builder.append_data(&mut header, name, body).map_err(|error| error.to_string())
}

/// Calls `tar::Builder::into_inner`, which ends the archive and hands its
/// bytes out. Into a buffer it does not fail, and what is read back from the
/// bytes is what was appended, where the names are plain.
#[verifier::external_body]
fn finish_archive(archive: ArchiveBuilder) -> (r: Result<Vec<u8>, String>)
    ensures
        r is Ok,
        (forall|i: int| 0 <= i < appended(archive).len() ==> plain_name((#[trigger] appended(archive)[i]).path))
            ==> archive_items(r->Ok_0@) == appended(archive).map_values(
            |entry: TarModel| Ok::<TarModel, Seq<char>>(entry),
        ),
{
    archive.builder.into_inner().map_err(|error| error.to_string())
}

/// The items of an archive in their mathematical form.
pub open spec fn item_models(items: Seq<Result<TarEntry, String>>) -> Seq<
    Result<TarModel, Seq<char>>,
> {
    Seq::new(
        items.len(),
        |i: int|
            match items[i] {
                Ok(entry) => Ok(entry@),
                Err(error) => Err(error@),
            },
    )
}

/// Reads an archive with `tar::Archive`, each entry with its path, its flag,
/// the size its header gives and its bytes. [`archive_items`] names the
/// result.
#[verifier::external_body]
fn read_archive(tar: &[u8]) -> (r: Vec<Result<TarEntry, String>>)
    ensures
        item_models(r@) == archive_items(tar@),
{
    let read = |mut entry: tar::Entry<&[u8]>| {
        let path = entry.path()?.to_string_lossy().into_owned();
        let flag = entry.header().entry_type().as_byte();
        let size = entry.header().size().ok();
        let mut body = Vec::new();
        std::io::Read::read_to_end(&mut entry, &mut body)?;
        Ok(TarEntry { path, flag, size, body })
    };
    let mut archive = tar::Archive::new(tar);
    let items = archive.entries().into_iter().flatten();
    items.map(|item| item.and_then(read).map_err(|e: std::io::Error| e.to_string())).collect()
}

/// The bytes of the first regular file among some items, or why there is none.
pub open spec fn first_regular(items: Seq<Result<TarModel, Seq<char>>>) -> Result<
    Seq<u8>,
    Seq<char>,
>
    decreases items.len(),
{
    if items.len() == 0 {
        Err("the archive holds no regular file"@)
    } else {
        match items[0] {
            Err(error) => Err(error),
            Ok(entry) => if entry.flag == REGULAR {
                Ok(entry.body)
            } else {
                first_regular(items.drop_first())
            },
        }
    }
}

/// The bytes of the first regular file among some items.
pub fn regular_file(items: Vec<Result<TarEntry, String>>) -> (r: Result<Vec<u8>, String>)
    ensures
        match first_regular(item_models(items@)) {
            Ok(body) => r matches Ok(bytes) && bytes@ == body,
            Err(error) => r matches Err(text) && text@ == error,
        },
{
    let ghost all = item_models(items@);
    let mut rest = items;
    assert(item_models(rest@) == all);
    while rest.len() > 0
        invariant
            all == item_models(items@),
            first_regular(all) == first_regular(item_models(rest@)),
        decreases rest@.len(),
    {
        let ghost before = item_models(rest@);
        let item = rest.remove(0);
        assert(item_models(rest@) =~= before.drop_first());
        match item {
            Err(error) => {
                return Err(error);
            },
            Ok(entry) => {
                if entry.flag == REGULAR {
                    return Ok(entry.body);
                }
            },
        }
    }
    Err("the archive holds no regular file".to_owned())
}

/// The bytes of the single regular file in a one-entry archive.
pub fn single_file(tar: &[u8]) -> (r: Result<Vec<u8>, String>)
    ensures
        match first_regular(archive_items(tar@)) {
            Ok(body) => r matches Ok(bytes) && bytes@ == body,
            Err(error) => r matches Err(text) && text@ == error,
        },
{
    regular_file(read_archive(tar))
}

/// The directories on the way to a file, among the first `n` characters of its
/// name, outermost first, each with a separator at its end.
pub open spec fn directories_to(relative: Seq<char>, n: int) -> Seq<Seq<char>>
    decreases n,
{
    if n <= 0 {
        Seq::empty()
    } else {
        let before = directories_to(relative, n - 1);
        if relative[n - 1] == '/' {
            before.push(relative.take(n))
        } else {
            before
        }
    }
}

/// The entries of an archive that holds one file, plus the directories it
/// needs on the way.
pub open spec fn one_file_entries(relative: Seq<char>, body: Seq<u8>) -> Seq<TarModel> {
    directories_to(relative, relative.len() as int).map_values(
        |name: Seq<char>| entry_of(DIRECTORY, name, Seq::empty()),
    ).push(entry_of(REGULAR, relative, body))
}

/// Why the first of some names that is refused is refused.
pub open spec fn first_refusal(names: Seq<Seq<char>>) -> Option<Seq<char>>
    decreases names.len(),
{
    if names.len() == 0 {
        None
    } else {
        match first_refusal(names.drop_last()) {
            Some(error) => Some(error),
            None => name_refusal(names.last()),
        }
    }
}

/// Why no archive can be built for a file: the name of a directory on the way,
/// or its own, is refused.
pub open spec fn archive_refusal(relative: Seq<char>) -> Option<Seq<char>> {
    first_refusal(directories_to(relative, relative.len() as int).push(relative))
}

/// Whether a file's name is one that an archive keeps as it is.
pub open spec fn plain_path(relative: Seq<char>) -> bool {
    let parts = split_on(relative, '/');
    &&& !relative.contains('\0')
    &&& !relative.contains('\\')
    &&& forall|i: int|
        0 <= i < parts.len() ==> (#[trigger] parts[i]).len() > 0 && parts[i] != seq!['.']
            && parts[i] != seq!['.', '.']
}

/// The pieces of the beginning of a text are the first pieces of the whole, up
/// to the last one where a piece ends there.
proof fn lemma_split_prefix(s: Seq<char>, k: int)
    requires
        0 <= k <= s.len(),
    ensures
        ({
            let part = split_on(s.take(k), '/');
            let whole = split_on(s, '/');
            &&& 0 < part.len() <= whole.len()
            &&& forall|i: int| 0 <= i < part.len() - 1 ==> #[trigger] part[i] == whole[i]
            &&& (k == s.len() || s[k] == '/') ==> part.last() == whole[part.len() - 1]
            &&& part.last().len() <= whole[part.len() - 1].len()
        }),
    decreases s.len(),
{
    lemma_split_nonempty(s.take(k), '/');
    if k == s.len() {
        assert(s.take(k) =~= s);
    } else {
        let shorter = s.drop_last();
        lemma_split_prefix(shorter, k);
        assert(shorter.take(k) =~= s.take(k));
        let part = split_on(s.take(k), '/');
        let before = split_on(shorter, '/');
        let whole = split_on(s, '/');
        if k < shorter.len() {
            assert(shorter[k] == s[k]);
        }
        if s.last() != '/' {
            if part.len() == before.len() {
                assert(whole[part.len() - 1] == before.last().push(s.last()));
                if k == shorter.len() {
                    assert(s[k] == s.last());
                } else {
                    if s[k] == '/' {
                        lemma_separator_adds(shorter, k);
                    }
                }
            }
        }
    }
}

proof fn lemma_separator_adds(s: Seq<char>, k: int)
    requires
        0 <= k < s.len(),
        s[k] == '/',
    ensures
        split_on(s.take(k), '/').len() < split_on(s, '/').len(),
    decreases s.len(),
{
    lemma_split_nonempty(s.drop_last(), '/');
    if k == s.len() - 1 {
        assert(s.take(k) =~= s.drop_last());
    } else {
        assert(s.drop_last().take(k) =~= s.take(k));
        lemma_separator_adds(s.drop_last(), k);
    }
}

/// A plain path leads through plain directories.
proof fn lemma_plain_directories(relative: Seq<char>, n: int)
    requires
        plain_path(relative),
        0 <= n <= relative.len(),
    ensures
        forall|i: int|
            0 <= i < directories_to(relative, n).len() ==> plain_name(
                #[trigger] directories_to(relative, n)[i],
            ),
    decreases n,
{
    if n > 0 {
        lemma_plain_directories(relative, n - 1);
        if relative[n - 1] == '/' {
            let name = relative.take(n);
            assert(name.last() == '/');
            assert(name.drop_last() =~= relative.take(n - 1));
            lemma_split_prefix(relative, n - 1);
            let parts = split_on(relative.take(n - 1), '/');
            let whole = split_on(relative, '/');
            assert forall|i: int| 0 <= i < parts.len() implies (#[trigger] parts[i]).len() > 0
                && parts[i] != seq!['.'] && parts[i] != seq!['.', '.'] by {
                assert(parts[i] == whole[i]);
            }
            assert forall|i: int| 0 <= i < name.len() implies name[i] != '\0' && name[i]
                != '\\' by {
                assert(name[i] == relative[i]);
                assert(relative.contains(relative[i]));
            }
            assert(plain_name(name));
            let before = directories_to(relative, n - 1);
            let now = before.push(name);
            assert forall|i: int| 0 <= i < now.len() implies plain_name(#[trigger] now[i]) by {
                if i < before.len() {
                    assert(now[i] == before[i]);
                }
            }
        }
    }
}

proof fn lemma_plain_file(relative: Seq<char>)
    requires
        plain_path(relative),
    ensures
        plain_name(relative),
{
    let parts = split_on(relative, '/');
    lemma_split_nonempty(relative, '/');
    if relative.len() > 0 && relative.last() == '/' {
        assert(parts.last().len() == 0);
        assert(parts[parts.len() - 1].len() > 0);
    }
}

/// A directory that is refused on the way is what the whole archive is refused
/// for.
proof fn lemma_refusal_stays(relative: Seq<char>, k: int)
    requires
        0 <= k <= relative.len(),
        first_refusal(directories_to(relative, k)) is Some,
    ensures
        archive_refusal(relative) == first_refusal(directories_to(relative, k)),
    decreases relative.len() - k,
{
    if k < relative.len() {
        lemma_refusal_step(relative, k);
        lemma_refusal_stays(relative, k + 1);
    } else {
        let all = directories_to(relative, k);
        assert(all.push(relative).drop_last() =~= all);
    }
}

proof fn lemma_refusal_step(relative: Seq<char>, k: int)
    requires
        0 <= k < relative.len(),
        first_refusal(directories_to(relative, k)) is Some,
    ensures
        first_refusal(directories_to(relative, k + 1)) == first_refusal(
            directories_to(relative, k),
        ),
{
    if relative[k] == '/' {
        let before = directories_to(relative, k);
        assert(before.push(relative.take(k + 1)).drop_last() =~= before);
    }
}

/// An archive holding one file, plus the directories it needs on the way. Each
/// is named explicitly: what an unpacker does with a missing parent varies.
pub fn one_file_tar(relative: &str, body: &[u8]) -> (r: Result<Vec<u8>, String>)
    ensures
        match r {
            Ok(_) => archive_refusal(relative@) is None,
            Err(error) => archive_refusal(relative@) == Some(error@),
        },
        plain_path(relative@) ==> (r matches Ok(tar) && archive_items(tar@) == one_file_entries(
            relative@,
            body@,
        ).map_values(|entry: TarModel| Ok::<TarModel, Seq<char>>(entry))),
{
    let chars = chars_of(relative);
    let none: Vec<u8> = Vec::new();
    assert(none@ =~= Seq::<u8>::empty());
    let ghost as_directory = |name: Seq<char>| entry_of(
        DIRECTORY,
        name,
        Seq::empty(),
    );
    let mut archive = new_archive();
    let mut i: usize = 0;
    assert(appended(archive) =~= directories_to(relative@, 0).map_values(as_directory));
    while i < chars.len()
        invariant
            i <= chars@.len(),
            chars@ == relative@,
            none@ == Seq::<u8>::empty(),
            as_directory == |name: Seq<char>| entry_of(DIRECTORY, name, Seq::empty()),
            appended(archive) == directories_to(relative@, i as int).map_values(as_directory),
            first_refusal(directories_to(relative@, i as int)) is None,
        decreases chars@.len() - i,
    {
        if chars[i] == '/' {
            let name = string_of(chars.as_slice(), 0, i + 1);
            let ghost before = directories_to(relative@, i as int);
            proof {
                assert(name@ =~= relative@.take(i + 1));
                if plain_path(relative@) {
                    lemma_plain_directories(relative@, i + 1);
                    assert(directories_to(relative@, i + 1)[before.len() as int] == name@);
                }
            }
            if let Err(error) = append_entry(
                &mut archive,
                DIRECTORY,
                0o755,
                name.as_str(),
                none.as_slice(),
            ) {
                proof {
                    assert(directories_to(relative@, i + 1).drop_last() =~= before);
                    lemma_refusal_stays(relative@, i + 1);
                }
                return Err(error);
            }
            assert(directories_to(relative@, i + 1).drop_last() =~= before);
            assert(before.push(name@).map_values(as_directory) =~= before.map_values(
                as_directory,
            ).push(as_directory(name@)));
        }
        i += 1;
    }
    proof {
        if plain_path(relative@) {
            lemma_plain_file(relative@);
        }
    }
    let ghost directories = directories_to(relative@, relative@.len() as int);
    assert(directories.push(relative@).drop_last() =~= directories);
    if let Err(error) = append_entry(&mut archive, REGULAR, 0o644, relative, body) {
        return Err(error);
    }
    proof {
        let entries = appended(archive);
        assert(entries =~= one_file_entries(relative@, body@));
        if plain_path(relative@) {
            lemma_plain_directories(relative@, relative@.len() as int);
            lemma_plain_file(relative@);
            let dirs = directories_to(relative@, relative@.len() as int);
            assert forall|k: int| 0 <= k < entries.len() implies plain_name(
                (#[trigger] entries[k]).path,
            ) by {
                if k < dirs.len() {
                    assert(entries[k].path == dirs[k]);
                }
            }
        }
    }
    finish_archive(archive)
}

/// A file that is put into an archive is what comes out of it.
pub proof fn an_archive_round_trips(relative: Seq<char>, body: Seq<u8>)
    ensures
        first_regular(
            one_file_entries(relative, body).map_values(
                |entry: TarModel| Ok::<TarModel, Seq<char>>(entry),
            ),
        ) == Ok::<Seq<u8>, Seq<char>>(body),
{
    let dirs = directories_to(relative, relative.len() as int).map_values(
        |name: Seq<char>| entry_of(DIRECTORY, name, Seq::empty()),
    );
    lemma_first_regular(dirs, entry_of(REGULAR, relative, body));
}

proof fn lemma_first_regular(dirs: Seq<TarModel>, file: TarModel)
    requires
        file.flag == REGULAR,
        forall|i: int| 0 <= i < dirs.len() ==> (#[trigger] dirs[i]).flag != REGULAR,
    ensures
        first_regular(
            dirs.push(file).map_values(|entry: TarModel| Ok::<TarModel, Seq<char>>(entry)),
        ) == Ok::<Seq<u8>, Seq<char>>(file.body),
    decreases dirs.len(),
{
    let items = dirs.push(file).map_values(|entry: TarModel| Ok::<TarModel, Seq<char>>(entry));
    if dirs.len() > 0 {
        let rest = dirs.drop_first();
        assert forall|i: int| 0 <= i < rest.len() implies (#[trigger] rest[i]).flag
            != REGULAR by {
            assert(dirs[i + 1].flag != REGULAR);
        }
        lemma_first_regular(rest, file);
        assert(items.drop_first() =~= rest.push(file).map_values(
            |entry: TarModel| Ok::<TarModel, Seq<char>>(entry),
        ));
        assert(items[0] == Ok::<TarModel, Seq<char>>(dirs[0]));
    } else {
        assert(items[0] == Ok::<TarModel, Seq<char>>(file));
    }
}

// ---------------------------------------------------------------------------
// Listing
// ---------------------------------------------------------------------------

/// What an archive's entry is, as an entry of a directory.
pub open spec fn entry_kind(flag: u8) -> EntryKind {
    if flag == DIRECTORY {
        EntryKind::Dir
    } else if flag == REGULAR {
        EntryKind::File
    } else if flag == SYMLINK || flag == LINK {
        EntryKind::Symlink
    } else {
        EntryKind::Other
    }
}

/// What a [`DirEntry`] says.
pub struct DirModel {
    pub name: Seq<char>,
    pub kind: EntryKind,
    pub size: Option<u64>,
}

/// What a list of directory entries says.
pub open spec fn dir_models(entries: Seq<DirEntry>) -> Seq<DirModel> {
    Seq::new(
        entries.len(),
        |i: int|
            DirModel { name: entries[i].name@, kind: entries[i].kind, size: entries[i].size },
    )
}

/// The components of an archived path.
pub open spec fn components(path: Seq<char>) -> Seq<Seq<char>> {
    split_on(without_trailing(path, '/'), '/')
}

/// The direct children among some items, or the first error. Every entry is
/// prefixed with the requested directory's own name, so a direct child has
/// exactly two components.
pub open spec fn children(items: Seq<Result<TarModel, Seq<char>>>) -> Result<
    Seq<DirModel>,
    Seq<char>,
>
    decreases items.len(),
{
    if items.len() == 0 {
        Ok(Seq::empty())
    } else {
        match children(items.drop_last()) {
            Err(error) => Err(error),
            Ok(before) => match items.last() {
                Err(error) => Err(error),
                Ok(entry) => {
                    let parts = components(entry.path);
                    if parts.len() == 2 {
                        Ok(
                            before.push(
                                DirModel {
                                    name: parts[1],
                                    kind: entry_kind(entry.flag),
                                    size: entry.size,
                                },
                            ),
                        )
                    } else {
                        Ok(before)
                    }
                },
            },
        }
    }
}

fn kind_of_entry(flag: u8) -> (r: EntryKind)
    ensures
        r == entry_kind(flag),
{
    if flag == DIRECTORY {
        EntryKind::Dir
    } else if flag == REGULAR {
        EntryKind::File
    } else if flag == SYMLINK || flag == LINK {
        EntryKind::Symlink
    } else {
        EntryKind::Other
    }
}

proof fn lemma_children_fail(items: Seq<Result<TarModel, Seq<char>>>, i: int)
    requires
        0 <= i < items.len(),
        children(items.take(i + 1)) is Err,
    ensures
        children(items) == children(items.take(i + 1)),
    decreases items.len(),
{
    if i == items.len() - 1 {
        assert(items.take(i + 1) =~= items);
    } else {
        assert(items.drop_last().take(i + 1) =~= items.take(i + 1));
        lemma_children_fail(items.drop_last(), i);
    }
}

/// One directory's entries, out of the items of its subtree.
pub fn direct_children(items: &Vec<Result<TarEntry, String>>) -> (r: Result<Vec<DirEntry>, Fault>)
    ensures
        match children(item_models(items@)) {
            Ok(found) => r matches Ok(entries) && dir_models(entries@) == found,
            Err(error) => faulted(r) == Some(FaultModel::Unreachable(error)),
        },
{
    let ghost all = item_models(items@);
    let mut found: Vec<DirEntry> = Vec::new();
    let mut i: usize = 0;
    assert(all.take(0) =~= Seq::empty());
    assert(dir_models(found@) =~= Seq::empty());
    while i < items.len()
        invariant
            i <= items@.len(),
            all == item_models(items@),
            children(all.take(i as int)) == Ok::<Seq<DirModel>, Seq<char>>(dir_models(found@)),
        decreases items@.len() - i,
    {
        assert(all.take(i + 1).drop_last() =~= all.take(i as int));
        assert(all.take(i + 1).last() == all[i as int]);
        match &items[i] {
            Err(error) => {
                proof {
                    lemma_children_fail(all, i as int);
                }
                return Err(Fault::Unreachable(error.clone()));
            },
            Ok(entry) => {
                let trimmed = strip_trailing(entry.path.as_str(), '/');
                let parts = split_text(trimmed.as_str(), '/');
                assert(texts(parts@) == components(entry.path@));
                if parts.len() == 2 {
                    let ghost before = dir_models(found@);
                    let child = DirEntry {
                        name: parts[1].clone(),
                        kind: kind_of_entry(entry.flag),
                        size: entry.size,
                    };
                    found.push(child);
                    assert(texts(parts@)[1] == parts@[1]@);
                    assert(dir_models(found@) =~= before.push(
                        DirModel { name: child.name@, kind: child.kind, size: child.size },
                    ));
                }
            },
        }
        i += 1;
    }
    assert(all.take(i as int) =~= all);
    Ok(found)
}

/// One directory's entries, out of the archive of its subtree. The endpoint
/// has no depth control, so this reads more than it needs and keeps the top
/// level: the honest trade for not parsing a listing program's output.
pub fn enumerate(tar: &[u8]) -> (r: Result<Vec<DirEntry>, Fault>)
    ensures
        match children(archive_items(tar@)) {
            Ok(found) => r matches Ok(entries) && dir_models(entries@) == found,
            Err(error) => faulted(r) == Some(FaultModel::Unreachable(error)),
        },
{
    direct_children(&read_archive(tar))
}

// ---------------------------------------------------------------------------
// Stats
// ---------------------------------------------------------------------------

/// The mode that a path's stat carries.
pub open spec fn mode_in(stat: JsonModel) -> u64 {
    match stat.get("mode"@) {
        Some(JsonModel::Int(n)) => if 0 <= n <= u64::MAX {
            n as u64
        } else {
            0
        },
        _ => 0,
    }
}

/// What a path is, by its mode.
pub open spec fn kind_by_mode(mode: u64) -> EntryKind {
    if mode & MODE_DIR != 0 {
        EntryKind::Dir
    } else if mode & MODE_SYMLINK != 0 {
        EntryKind::Symlink
    } else {
        EntryKind::File
    }
}

fn unsigned(value: Option<&Json>) -> (r: u64)
    ensures
        r == match value {
            Some(found) => match found@ {
                JsonModel::Int(n) => if 0 <= n <= u64::MAX {
                    n as u64
                } else {
                    0
                },
                _ => 0,
            },
            None => 0,
        },
{
    match value {
        Some(Json::Int(n)) => if 0 <= *n && *n <= 18446744073709551615i128 {
            *n as u64
        } else {
            0
        },
        _ => 0,
    }
}

/// What a path's stat says it is.
pub fn kind_of(stat: &Json) -> (r: EntryKind)
    ensures
        r == kind_by_mode(mode_in(stat@)),
{
    let mode: u64 = unsigned(stat.get("mode"));
    if mode & MODE_DIR != 0 {
        EntryKind::Dir
    } else if mode & MODE_SYMLINK != 0 {
        EntryKind::Symlink
    } else {
        EntryKind::File
    }
}

/// The size that a path's stat carries.
pub fn size_of(stat: &Option<Json>) -> (r: u64)
    ensures
        r == match *stat {
            Some(value) => match value@.get("size"@) {
                Some(JsonModel::Int(n)) => if 0 <= n <= u64::MAX {
                    n as u64
                } else {
                    0
                },
                _ => 0,
            },
            None => 0,
        },
{
    match stat {
        Some(value) => unsigned(value.get("size")),
        None => 0,
    }
}

// ---------------------------------------------------------------------------
// Paths in a shell
// ---------------------------------------------------------------------------

/// A path that is safe inside single quotes: each quote closes them, stands by
/// itself, and opens them again.
pub open spec fn quoted(path: Seq<char>) -> Seq<char>
    decreases path.len(),
{
    if path.len() == 0 {
        Seq::empty()
    } else if path.last() == '\'' {
        quoted(path.drop_last()) + "'\\''"@
    } else {
        quoted(path.drop_last()).push(path.last())
    }
}

/// Makes a path safe inside single quotes. A filename containing a quote is
/// ordinary, and it should move rather than break.
pub fn quote(path: &str) -> (r: String)
    ensures
        r@ == quoted(path@),
{
    let chars = chars_of(path);
    let mut out = String::new();
    let mut i: usize = 0;
    assert(path@.take(0) =~= Seq::empty());
    while i < chars.len()
        invariant
            i <= chars@.len(),
            chars@ == path@,
            out@ == quoted(path@.take(i as int)),
        decreases chars@.len() - i,
    {
        assert(path@.take(i + 1).drop_last() =~= path@.take(i as int));
        assert(path@.take(i + 1).last() == chars@[i as int]);
        if chars[i] == '\'' {
            out.append("'\\''");
        } else {
            out.push(chars[i]);
        }
        i += 1;
    }
    assert(path@.take(i as int) =~= path@);
    out
}

/// What a shell makes of a word of single-quoted text and escaped characters,
/// from inside quotes or outside them: nothing where the word is not closed,
/// or where something stands outside quotes unescaped.
pub open spec fn shell_word(text: Seq<char>, inside: bool) -> Option<Seq<char>>
    decreases text.len(),
{
    if text.len() == 0 {
        if inside {
            None
        } else {
            Some(Seq::empty())
        }
    } else if text[0] == '\'' {
        shell_word(text.drop_first(), !inside)
    } else if inside {
        match shell_word(text.drop_first(), true) {
            Some(rest) => Some(seq![text[0]] + rest),
            None => None,
        }
    } else if text[0] == '\\' && text.len() > 1 {
        match shell_word(text.skip(2), false) {
            Some(rest) => Some(seq![text[1]] + rest),
            None => None,
        }
    } else {
        None
    }
}

proof fn lemma_quoted_reads(path: Seq<char>, tail: Seq<char>)
    ensures
        shell_word(quoted(path) + tail, true) == match shell_word(tail, true) {
            Some(rest) => Some(path + rest),
            None => None,
        },
    decreases path.len(),
{
    if path.len() == 0 {
        assert(quoted(path) + tail =~= tail);
        if let Some(rest) = shell_word(tail, true) {
            assert(path + rest =~= rest);
        }
    } else {
        let c = path.last();
        let before = path.drop_last();
        if c == '\'' {
            reveal_strlit("'\\''");
            let piece = "'\\''"@;
            lemma_quoted_reads(before, piece + tail);
            assert(quoted(path) + tail =~= quoted(before) + (piece + tail));
            let text = piece + tail;
            assert(text[0] == '\'' && text[1] == '\\' && text[2] == '\'' && text[3] == '\'');
            assert(text.drop_first()[0] == '\\');
            assert(text.drop_first()[1] == '\'');
            assert(text.drop_first().skip(2) =~= seq!['\''] + tail);
            assert((seq!['\''] + tail).drop_first() =~= tail);
            assert(shell_word(seq!['\''] + tail, false) == shell_word(tail, true));
            assert(shell_word(text, true) == shell_word(text.drop_first(), false));
        } else {
            lemma_quoted_reads(before, seq![c] + tail);
            assert(quoted(path) + tail =~= quoted(before) + (seq![c] + tail));
            assert((seq![c] + tail).drop_first() =~= tail);
        }
        if let Some(rest) = shell_word(tail, true) {
            assert(before + (seq![c] + rest) =~= path + rest);
        }
    }
}

/// A shell reads a quoted path, inside single quotes, as the path.
pub proof fn a_quoted_path_survives(path: Seq<char>)
    ensures
        shell_word(seq!['\''] + quoted(path) + seq!['\''], false) == Some(path),
{
    let close = seq!['\''];
    lemma_quoted_reads(path, close);
    let text = seq!['\''] + quoted(path) + close;
    assert(text.drop_first() =~= quoted(path) + close);
    assert(close.drop_first() =~= Seq::empty());
    assert(shell_word(Seq::empty(), false) == Some(Seq::<char>::empty()));
    assert(shell_word(close, true) == Some(Seq::<char>::empty()));
    assert(path + Seq::<char>::empty() =~= path);
}

// ---------------------------------------------------------------------------
// Operations
// ---------------------------------------------------------------------------

/// A container's files.
#[derive(Debug)]
pub struct DockerFiles {
    container: String,
}

/// Whether a command for its exit code alone has ended, and how.
pub fn ran(state: ExecState, about: &RootedPath) -> (r: Option<Result<(), Fault>>)
    ensures
        match r {
            None => state.running,
            Some(outcome) => !state.running && faulted(outcome) == if state.exit_code == Some(
                0i64,
            ) {
                None
            } else {
                Some(FaultModel::Denied(DenialModel::NotFound { path: about@ }))
            },
        },
{
    if state.running {
        return None;
    }
    let succeeded = match state.exit_code {
        Some(code) => code == 0,
        None => false,
    };
    if succeeded {
        Some(Ok(()))
    } else {
        Some(Err(Fault::Denied(Denial::NotFound { path: about.as_str().to_owned() })))
    }
}

impl DockerFiles {
    pub closed spec fn spec_container(&self) -> Seq<char> {
        self.container@
    }

    pub fn new(container: &str) -> (r: DockerFiles)
        ensures
            r.spec_container() == container@,
    {
        DockerFiles { container: container.to_owned() }
    }

    pub fn container(&self) -> (r: &str)
        ensures
            r@ == self.spec_container(),
    {
        self.container.as_str()
    }

    /// Where a path is, and what is there. The container is the boundary, so
    /// lexical refusal is the whole check.
    pub fn confine(path: &RootedPath, stat: &Option<Json>) -> (r: Confined)
        ensures
            r.path@ == path@,
            r.kind == match *stat {
                Some(value) => Some(kind_by_mode(mode_in(value@))),
                None => None,
            },
    {
        Confined {
            path: path.as_str().to_owned(),
            kind: match stat {
                Some(value) => Some(kind_of(value)),
                None => None,
            },
        }
    }

    /// A file's bytes, out of what the daemon answered for its path.
    pub fn fetch(status: u16, payload: Vec<u8>, path: &RootedPath) -> (r: Result<Vec<u8>, Fault>)
        ensures
            match archive_fault(status, payload@, path@) {
                Some(fault) => faulted(r) == Some(fault),
                None => match first_regular(archive_items(payload@)) {
                    Ok(body) => r matches Ok(bytes) && bytes@ == body,
                    Err(_) => faulted(r) == Some(
                        FaultModel::Denied(
                            DenialModel::Malformed {
                                what: "read"@,
                                reason: "`"@ + path@ + "` is not a regular file"@,
                            },
                        ),
                    ),
                },
            },
    {
        let tar = match archive_get(status, payload, path.as_str()) {
            Ok(tar) => tar,
            Err(fault) => {
                return Err(fault);
            },
        };
        match single_file(tar.as_slice()) {
            Ok(bytes) => Ok(bytes),
            Err(_) => Err(
                Fault::Denied(
                    Denial::Malformed {
                        what: "read".to_owned(),
                        reason: join3("`", path.as_str(), "` is not a regular file"),
                    },
                ),
            ),
        }
    }

    /// The archive that writes a file. It carries the path relative to the top
    /// and names the directories it needs, so none has to exist beforehand.
    pub fn store(path: &RootedPath, body: &[u8]) -> (r: Result<Vec<u8>, Fault>)
        ensures
            faulted(r) == match archive_refusal(without_leading(path@, '/')) {
                Some(error) => Some(
                    FaultModel::Unreachable(
                        "could not build an archive for `"@ + path@ + "`: "@ + error,
                    ),
                ),
                None => None,
            },
            plain_path(without_leading(path@, '/')) ==> (r matches Ok(tar) && archive_items(tar@)
                == one_file_entries(without_leading(path@, '/'), body@).map_values(
                |entry: TarModel| Ok::<TarModel, Seq<char>>(entry),
            )),
    {
        let relative = strip_leading(path.as_str(), '/');
        match one_file_tar(relative.as_str(), body) {
            Ok(tar) => Ok(tar),
            Err(error) => Err(
                Fault::Unreachable(
                    join4(
                        "could not build an archive for `",
                        path.as_str(),
                        "`: ",
                        error.as_str(),
                    ),
                ),
            ),
        }
    }

    /// The script that removes a file.
    pub fn remove(path: &RootedPath) -> (r: String)
        ensures
            r@ == "rm -f -- '"@ + quoted(path@) + "'"@,
    {
        join3("rm -f -- '", quote(path.as_str()).as_str(), "'")
    }

    /// The script that renames a file, into a directory that may not exist
    /// yet.
    pub fn rename(from: &RootedPath, to: &RootedPath) -> (r: String)
        ensures
            r@ == "mkdir -p -- '"@ + quoted(parent(to@)) + "' && mv -- '"@ + quoted(from@) + "' '"@
                + (quoted(to@) + "'"@),
    {
        let directory = parent_of(to.as_str());
        let head = join5(
            "mkdir -p -- '",
            quote(directory.as_str()).as_str(),
            "' && mv -- '",
            quote(from.as_str()).as_str(),
            "' '",
        );
        let tail = join2(quote(to.as_str()).as_str(), "'");
        join2(head.as_str(), tail.as_str())
    }
}

/// `s` without its leading `c`s.
pub open spec fn without_leading(s: Seq<char>, c: char) -> Seq<char>
    decreases s.len(),
{
    if s.len() > 0 && s[0] == c {
        without_leading(s.drop_first(), c)
    } else {
        s
    }
}

fn strip_leading(s: &str, c: char) -> (r: String)
    ensures
        r@ == without_leading(s@, c),
{
    let chars = chars_of(s);
    let mut i: usize = 0;
    assert(s@.skip(0) =~= s@);
    while i < chars.len() && chars[i] == c
        invariant
            i <= chars@.len(),
            chars@ == s@,
            without_leading(s@, c) == without_leading(s@.skip(i as int), c),
        decreases chars@.len() - i,
    {
        assert(s@.skip(i as int).drop_first() =~= s@.skip(i + 1));
        i += 1;
    }
    let rest = string_of(chars.as_slice(), i, chars.len());
    assert(rest@ =~= s@.skip(i as int));
    rest
}

// ---------------------------------------------------------------------------
// What is read of an archive
// ---------------------------------------------------------------------------

/// The file that an archive is read for is its first regular entry, whatever
/// stands ahead of it or behind it; an entry that cannot be read ahead of it is
/// reported instead.
pub proof fn the_first_regular_entry_is_read(
    ahead: Seq<TarModel>,
    item: Result<TarModel, Seq<char>>,
    behind: Seq<Result<TarModel, Seq<char>>>,
)
    requires
        forall|i: int| 0 <= i < ahead.len() ==> (#[trigger] ahead[i]).flag != 0x30,
        item matches Ok(entry) ==> entry.flag == 0x30,
    ensures
        ({
            let items = ahead.map_values(|entry: TarModel| Ok::<TarModel, Seq<char>>(entry));
            &&& first_regular(items + seq![item] + behind) == match item {
                Ok(entry) => Ok(entry.body),
                Err(error) => Err(error),
            }
            &&& first_regular(items) is Err
        }),
    decreases ahead.len(),
{
    let items = ahead.map_values(|entry: TarModel| Ok::<TarModel, Seq<char>>(entry));
    let whole = items + seq![item] + behind;
    if ahead.len() == 0 {
        assert(whole[0] == item);
    } else {
        let rest = ahead.drop_first();
        assert(ahead[0].flag != 0x30);
        assert forall|i: int| 0 <= i < rest.len() implies (#[trigger] rest[i]).flag != 0x30 by {
            assert(ahead[i + 1].flag != 0x30);
        }
        the_first_regular_entry_is_read(rest, item, behind);
        let later = rest.map_values(|entry: TarModel| Ok::<TarModel, Seq<char>>(entry));
        assert(whole.drop_first() =~= later + seq![item] + behind);
        assert(items.drop_first() =~= later);
        assert(whole[0] == Ok::<TarModel, Seq<char>>(ahead[0]));
        assert(items[0] == Ok::<TarModel, Seq<char>>(ahead[0]));
    }
}

proof fn lemma_directories_of_a_beginning(a: Seq<char>, rest: Seq<char>, n: int)
    requires
        0 <= n <= a.len(),
    ensures
        directories_to(a + rest, n) == directories_to(a, n),
    decreases n,
{
    if n > 0 {
        lemma_directories_of_a_beginning(a, rest, n - 1);
        assert((a + rest)[n - 1] == a[n - 1]);
        assert((a + rest).take(n) =~= a.take(n));
    }
}

proof fn lemma_no_directory_in_a_name(head: Seq<char>, name: Seq<char>, n: int)
    requires
        !name.contains('/'),
        0 <= n <= name.len(),
    ensures
        directories_to(head + name, head.len() + n) == directories_to(
            head + name,
            head.len() as int,
        ),
    decreases n,
{
    if n > 0 {
        lemma_no_directory_in_a_name(head, name, n - 1);
        assert((head + name)[head.len() + n - 1] == name[n - 1]);
        assert(name.contains(name[n - 1]));
    }
}

/// A file's archive names its directory, with a separator at its end, behind
/// every directory on the way there; and a file at the top names none.
pub proof fn every_directory_on_the_way_is_named(dir: Seq<char>, name: Seq<char>)
    requires
        !name.contains('/'),
    ensures
        ({
            let file = dir + seq!['/'] + name;
            directories_to(file, file.len() as int) == directories_to(dir, dir.len() as int).push(
                dir.push('/'),
            )
        }),
        directories_to(name, name.len() as int).len() == 0,
{
    let head = dir + seq!['/'];
    let file = head + name;
    assert(file =~= dir + seq!['/'] + name);
    lemma_no_directory_in_a_name(head, name, name.len() as int);
    lemma_directories_of_a_beginning(dir, seq!['/'] + name, dir.len() as int);
    assert(file =~= dir + (seq!['/'] + name));
    assert(file[dir.len() as int] == '/');
    assert(file.take(head.len() as int) =~= dir.push('/'));
    lemma_no_directory_in_a_name(Seq::empty(), name, name.len() as int);
    assert(Seq::<char>::empty() + name =~= name);
}

/// A path that was asked for from the top is archived under the same name
/// without the separators in front.
pub proof fn only_leading_separators_are_taken_off(s: Seq<char>, c: char)
    ensures
        without_leading(seq![c] + s, c) == without_leading(s, c),
        s.len() == 0 || s[0] != c ==> without_leading(s, c) == s,
{
    assert((seq![c] + s).drop_first() =~= s);
}

proof fn lemma_components(dir: Seq<char>, name: Seq<char>)
    requires
        !dir.contains('/'),
        !name.contains('/'),
        name.len() > 0,
    ensures
        components(dir + seq!['/'] + name) == seq![dir, name],
        components((dir + seq!['/'] + name).push('/')) == seq![dir, name],
        dir.len() > 0 ==> components(dir) == seq![dir] && components(dir.push('/')) == seq![dir],
{
    let path = dir + seq!['/'] + name;
    assert(path.last() == name.last());
    assert(name.contains(name.last()));
    crate::text::a_trailing_run_is_taken_off(path, '/');
    crate::text::an_unseparated_text_is_one_piece(dir, '/');
    crate::text::an_unseparated_text_is_one_piece(name, '/');
    crate::text::a_separator_parts_the_pieces(dir, name, '/');
    assert(split_on(path, '/') =~= seq![dir, name]);
    crate::text::a_trailing_run_is_taken_off(dir, '/');
    if dir.len() > 0 {
        assert(dir.contains(dir.last()));
    }
}

/// A directory's listing gains exactly the entries that lie right in it, each
/// by its own name, with its kind and its size: not the directory itself, and
/// nothing that lies deeper.
pub proof fn a_listing_gains_what_lies_right_in_it(
    items: Seq<Result<TarModel, Seq<char>>>,
    entry: TarModel,
    dir: Seq<char>,
    name: Seq<char>,
    deeper: Seq<char>,
    slash: bool,
)
    requires
        children(items) is Ok,
        dir.len() > 0,
        name.len() > 0,
        deeper.len() > 0,
        !dir.contains('/'),
        !name.contains('/'),
        !deeper.contains('/'),
    ensures
        ({
            let before = children(items)->Ok_0;
            let with = |path: Seq<char>|
                children(
                    items.push(
                        Ok(
                            TarModel {
                                path: if slash {
                                    path.push('/')
                                } else {
                                    path
                                },
                                ..entry
                            },
                        ),
                    ),
                );
            &&& with(dir + seq!['/'] + name) == Ok::<Seq<DirModel>, Seq<char>>(
                before.push(
                    DirModel { name, kind: entry_kind(entry.flag), size: entry.size },
                ),
            )
            &&& with(dir) == children(items)
            &&& with(dir + seq!['/'] + name + seq!['/'] + deeper) == children(items)
        }),
{
    let child = dir + seq!['/'] + name;
    let grandchild = child + seq!['/'] + deeper;
    lemma_components(dir, name);
    lemma_deeper_components(dir, name, deeper);
    let end = |path: Seq<char>|
        if slash {
            path.push('/')
        } else {
            path
        };
    let item = |path: Seq<char>|
        Ok::<TarModel, Seq<char>>(TarModel { path: end(path), ..entry });
    assert(items.push(item(child)).drop_last() =~= items);
    assert(items.push(item(dir)).drop_last() =~= items);
    assert(items.push(item(grandchild)).drop_last() =~= items);
    assert(components(end(child)) == seq![dir, name]);
}

proof fn lemma_deeper_components(dir: Seq<char>, name: Seq<char>, deeper: Seq<char>)
    requires
        !dir.contains('/'),
        !name.contains('/'),
        !deeper.contains('/'),
        deeper.len() > 0,
    ensures
        components(dir + seq!['/'] + name + seq!['/'] + deeper).len() == 3,
        components((dir + seq!['/'] + name + seq!['/'] + deeper).push('/')).len() == 3,
{
    let child = dir + seq!['/'] + name;
    let path = child + seq!['/'] + deeper;
    assert(path.last() == deeper.last());
    assert(deeper.contains(deeper.last()));
    crate::text::a_trailing_run_is_taken_off(path, '/');
    crate::text::an_unseparated_text_is_one_piece(dir, '/');
    crate::text::an_unseparated_text_is_one_piece(name, '/');
    crate::text::an_unseparated_text_is_one_piece(deeper, '/');
    crate::text::a_separator_parts_the_pieces(dir, name, '/');
    crate::text::a_separator_parts_the_pieces(child, deeper, '/');
}

/// An archive marks what an entry is by a character, and a path's mode by a
/// bit.
pub proof fn a_kind_is_read_from_its_mark(flag: u8, mode: u64, stat: JsonModel)
    ensures
        entry_kind(flag) == EntryKind::File <==> flag == 0x30,
        entry_kind(flag) == EntryKind::Dir <==> flag == 0x35,
        entry_kind(flag) == EntryKind::Symlink <==> flag == 0x31 || flag == 0x32,
        kind_by_mode(mode) == EntryKind::Dir <==> mode & 0x8000_0000 != 0,
        kind_by_mode(mode) == EntryKind::Symlink <==> mode & 0x8000_0000 == 0 && mode & 0x800_0000
            != 0,
        kind_by_mode(mode) != EntryKind::Other,
        stat.get("mode"@) == Some(JsonModel::Int(mode as int)) ==> mode_in(stat) == mode,
{
}

/// An archive is refused for the first of its names that is, whatever stands
/// behind it, and for none where none is.
pub proof fn the_first_refused_name_counts(
    ahead: Seq<Seq<char>>,
    name: Seq<char>,
    behind: Seq<Seq<char>>,
)
    requires
        forall|i: int| 0 <= i < ahead.len() ==> name_refusal(#[trigger] ahead[i]) is None,
        name_refusal(name) is Some,
    ensures
        first_refusal(ahead) is None,
        first_refusal(ahead + seq![name] + behind) == name_refusal(name),
    decreases ahead.len() + behind.len(),
{
    let names = ahead + seq![name] + behind;
    if behind.len() > 0 {
        let fewer = behind.drop_last();
        the_first_refused_name_counts(ahead, name, fewer);
        assert(names.drop_last() =~= ahead + seq![name] + fewer);
    } else {
        lemma_none_refused(ahead);
        assert(names.drop_last() =~= ahead);
        assert(names.last() == name);
    }
}

proof fn lemma_none_refused(names: Seq<Seq<char>>)
    requires
        forall|i: int| 0 <= i < names.len() ==> name_refusal(#[trigger] names[i]) is None,
    ensures
        first_refusal(names) is None,
    decreases names.len(),
{
    if names.len() > 0 {
        let fewer = names.drop_last();
        assert forall|i: int| 0 <= i < fewer.len() implies name_refusal(
            #[trigger] fewer[i],
        ) is None by {
            assert(name_refusal(names[i]) is None);
        }
        lemma_none_refused(fewer);
        assert(name_refusal(names[names.len() - 1]) is None);
    }
}

/// What is read of an archive and of a directory is told entry by entry, each
/// with what it holds.
pub proof fn an_entry_says_what_it_holds(
    items: Seq<Result<TarEntry, String>>,
    entries: Seq<DirEntry>,
    i: int,
)
    ensures
        item_models(items).len() == items.len(),
        dir_models(entries).len() == entries.len(),
        0 <= i < items.len() ==> match items[i] {
            Ok(entry) => item_models(items)[i] == Ok::<TarModel, Seq<char>>(
                TarModel {
                    path: entry.path@,
                    flag: entry.flag,
                    size: entry.size,
                    body: entry.body@,
                },
            ),
            Err(error) => item_models(items)[i] == Err::<TarModel, Seq<char>>(error@),
        },
        0 <= i < entries.len() ==> {
            &&& dir_models(entries)[i].name == entries[i].name@
            &&& dir_models(entries)[i].kind == entries[i].kind
            &&& dir_models(entries)[i].size == entries[i].size
        },
{
}

/// A file that is archived stands last, under its own name and with its own
/// bytes, behind the directories on the way there.
pub proof fn a_file_is_archived_behind_its_directories(dir: Seq<char>, name: Seq<char>, body: Seq<u8>)
    requires
        !name.contains('/'),
        body.len() <= u64::MAX,
    ensures
        ({
            let file = dir + seq!['/'] + name;
            let entries = one_file_entries(file, body);
            &&& entries.last().path == file
            &&& entries.last().body == body
            &&& entries.last().flag == 0x30
            &&& entries.last().size == Some(body.len() as u64)
            &&& entries.len() >= 2
            &&& entries[entries.len() - 2].path == dir.push('/')
            &&& entries[entries.len() - 2].flag == 0x35
            &&& entries[entries.len() - 2].body.len() == 0
        }),
{
    every_directory_on_the_way_is_named(dir, name);
    let file = dir + seq!['/'] + name;
    let dirs = directories_to(file, file.len() as int);
    assert(dirs.last() == dir.push('/'));
}

} // verus!

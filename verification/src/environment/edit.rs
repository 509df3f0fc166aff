//! Reading and changing the text of a file.
use vstd::prelude::*;
use crate::error::{faulted, Denial, DenialModel, Fault, FaultModel};
use crate::text::{
    a_separator_parts_the_pieces, an_unseparated_text_is_one_piece, chars_of, decimal, join2,
    join3, lemma_split_nonempty, separated, separated_pieces_come_apart, split_on, split_text,
    string_of, texts, the_pieces_are_the_text, wide_decimal_of,
};

verus! {

// ---------------------------------------------------------------------------
// Replacing
// ---------------------------------------------------------------------------

/// How often a nonempty pattern stands in a text, not counting overlaps.
pub open spec fn occurrences(text: Seq<char>, pattern: Seq<char>) -> nat
    decreases text.len(),
{
    if text.len() == 0 || pattern.len() == 0 {
        0
    } else if pattern.is_prefix_of(text) {
        1 + occurrences(text.skip(pattern.len() as int), pattern)
    } else {
        occurrences(text.drop_first(), pattern)
    }
}

/// How often a pattern stands in a text. The empty pattern stands before every
/// character and at the end.
pub open spec fn match_count(text: Seq<char>, pattern: Seq<char>) -> nat {
    if pattern.len() == 0 {
        text.len() + 1
    } else {
        occurrences(text, pattern)
    }
}

/// `text` with every occurrence of a nonempty pattern replaced.
pub open spec fn replaced(text: Seq<char>, pattern: Seq<char>, new: Seq<char>) -> Seq<char>
    decreases text.len(),
{
    if text.len() == 0 || pattern.len() == 0 {
        text
    } else if pattern.is_prefix_of(text) {
        new + replaced(text.skip(pattern.len() as int), pattern, new)
    } else {
        seq![text[0]] + replaced(text.drop_first(), pattern, new)
    }
}

/// `text` with the first occurrence of a nonempty pattern replaced.
pub open spec fn replaced_once(text: Seq<char>, pattern: Seq<char>, new: Seq<char>) -> Seq<char>
    decreases text.len(),
{
    if text.len() == 0 || pattern.len() == 0 {
        text
    } else if pattern.is_prefix_of(text) {
        new + text.skip(pattern.len() as int)
    } else {
        seq![text[0]] + replaced_once(text.drop_first(), pattern, new)
    }
}

/// `text` with `new` before every character and at the end.
pub open spec fn interleaved(text: Seq<char>, new: Seq<char>) -> Seq<char>
    decreases text.len(),
{
    if text.len() == 0 {
        new
    } else {
        new + seq![text[0]] + interleaved(text.drop_first(), new)
    }
}

/// `text` after an edit.
pub open spec fn edited(
    text: Seq<char>,
    pattern: Seq<char>,
    new: Seq<char>,
    all: bool,
) -> Seq<char> {
    if pattern.len() == 0 {
        if all {
            interleaved(text, new)
        } else {
            new + text
        }
    } else if all {
        replaced(text, pattern, new)
    } else {
        replaced_once(text, pattern, new)
    }
}

fn stands_at(chars: &Vec<char>, i: usize, pattern: &Vec<char>) -> (r: bool)
    requires
        i <= chars@.len(),
    ensures
        r == pattern@.is_prefix_of(chars@.skip(i as int)),
{
    if pattern.len() > chars.len() - i {
        return false;
    }
    let ghost rest = chars@.skip(i as int);
    let mut k: usize = 0;
    while k < pattern.len()
        invariant
            k <= pattern@.len(),
            i + pattern.len() <= chars.len(),
            rest == chars@.skip(i as int),
            forall|j: int| 0 <= j < k ==> rest[j] == pattern@[j],
        decreases pattern@.len() - k,
    {
        assert(rest[k as int] == chars@[i + k]);
        if chars[i + k] != pattern[k] {
            assert(rest.subrange(0, pattern@.len() as int)[k as int] != pattern@[k as int]);
            return false;
        }
        k += 1;
    }
    assert(pattern@ =~= rest.subrange(0, pattern@.len() as int));
    true
}

/// How often a pattern stands in a text.
pub fn count_matches(text: &str, pattern: &str) -> (r: u128)
    ensures
        r == match_count(text@, pattern@),
{
    let chars = chars_of(text);
    let needle = chars_of(pattern);
    if needle.len() == 0 {
        return chars.len() as u128 + 1;
    }
    let mut count: u128 = 0;
    let mut i: usize = 0;
    assert(text@.skip(0) =~= text@);
    while i < chars.len()
        invariant
            count <= i <= chars@.len(),
            chars@ == text@,
            needle@ == pattern@,
            needle@.len() > 0,
            occurrences(text@, pattern@) == count + occurrences(text@.skip(i as int), pattern@),
        decreases chars@.len() - i,
    {
        if stands_at(&chars, i, &needle) {
            assert(text@.skip(i as int).skip(needle@.len() as int) =~= text@.skip(
                i + needle@.len(),
            ));
            count += 1;
            i += needle.len();
        } else {
            assert(text@.skip(i as int).drop_first() =~= text@.skip(i + 1));
            i += 1;
        }
    }
    count
}

fn replace_all(chars: &Vec<char>, needle: &Vec<char>, new: &str) -> (r: String)
    requires
        needle@.len() > 0,
    ensures
        r@ == replaced(chars@, needle@, new@),
{
    let mut out = String::new();
    let mut i: usize = 0;
    assert(out@ + replaced(chars@.skip(0), needle@, new@) =~= replaced(chars@, needle@, new@)) by {
        assert(chars@.skip(0) =~= chars@);
    }
    while i < chars.len()
        invariant
            i <= chars@.len(),
            needle@.len() > 0,
            replaced(chars@, needle@, new@) == out@ + replaced(
                chars@.skip(i as int),
                needle@,
                new@,
            ),
        decreases chars@.len() - i,
    {
        let ghost before = out@;
        let ghost rest = chars@.skip(i as int);
        if stands_at(chars, i, needle) {
            assert(rest.skip(needle@.len() as int) =~= chars@.skip(i + needle@.len()));
            out.append(new);
            i += needle.len();
            assert(before + (new@ + replaced(chars@.skip(i as int), needle@, new@)) =~= out@
                + replaced(chars@.skip(i as int), needle@, new@));
        } else {
            assert(rest.drop_first() =~= chars@.skip(i + 1));
            assert(rest[0] == chars@[i as int]);
            out.push(chars[i]);
            i += 1;
            assert(before + (seq![rest[0]] + replaced(chars@.skip(i as int), needle@, new@)) =~= out@
                + replaced(chars@.skip(i as int), needle@, new@));
        }
    }
    assert(chars@.skip(i as int) =~= Seq::empty());
    assert(out@ + Seq::<char>::empty() =~= out@);
    out
}

fn replace_once(chars: &Vec<char>, needle: &Vec<char>, new: &str) -> (r: String)
    requires
        needle@.len() > 0,
    ensures
        r@ == replaced_once(chars@, needle@, new@),
{
    let mut out = String::new();
    let mut i: usize = 0;
    assert(out@ + replaced_once(chars@.skip(0), needle@, new@) =~= replaced_once(
        chars@,
        needle@,
        new@,
    )) by {
        assert(chars@.skip(0) =~= chars@);
    }
    while i < chars.len()
        invariant
            i <= chars@.len(),
            needle@.len() > 0,
            replaced_once(chars@, needle@, new@) == out@ + replaced_once(
                chars@.skip(i as int),
                needle@,
                new@,
            ),
        decreases chars@.len() - i,
    {
        let ghost before = out@;
        let ghost rest = chars@.skip(i as int);
        if stands_at(chars, i, needle) {
            let from: usize = i + needle.len();
            assert(rest.skip(needle@.len() as int) =~= chars@.subrange(
                from as int,
                chars@.len() as int,
            ));
            out.append(new);
            let tail = string_of(chars.as_slice(), from, chars.len());
            out.append(tail.as_str());
            assert(out@ =~= before + (new@ + tail@));
            return out;
        }
        assert(rest.drop_first() =~= chars@.skip(i + 1));
        assert(rest[0] == chars@[i as int]);
        out.push(chars[i]);
        i += 1;
        assert(before + (seq![rest[0]] + replaced_once(chars@.skip(i as int), needle@, new@))
            =~= out@ + replaced_once(chars@.skip(i as int), needle@, new@));
    }
    assert(chars@.skip(i as int) =~= Seq::empty());
    assert(out@ + Seq::<char>::empty() =~= out@);
    out
}

fn interleave(chars: &Vec<char>, new: &str) -> (r: String)
    ensures
        r@ == interleaved(chars@, new@),
{
    let mut out = String::new();
    let mut i: usize = 0;
    assert(out@ + interleaved(chars@.skip(0), new@) =~= interleaved(chars@, new@)) by {
        assert(chars@.skip(0) =~= chars@);
    }
    while i < chars.len()
        invariant
            i <= chars@.len(),
            interleaved(chars@, new@) == out@ + interleaved(chars@.skip(i as int), new@),
        decreases chars@.len() - i,
    {
        let ghost before = out@;
        let ghost rest = chars@.skip(i as int);
        assert(rest.drop_first() =~= chars@.skip(i + 1));
        assert(rest[0] == chars@[i as int]);
        out.append(new);
        out.push(chars[i]);
        i += 1;
        assert(before + (new@ + seq![rest[0]] + interleaved(chars@.skip(i as int), new@)) =~= out@
            + interleaved(chars@.skip(i as int), new@));
    }
    out.append(new);
    assert(chars@.skip(i as int) =~= Seq::empty());
    out
}

/// The text after an edit.
pub fn apply(text: &str, pattern: &str, new: &str, all: bool) -> (r: String)
    ensures
        r@ == edited(text@, pattern@, new@, all),
{
    let chars = chars_of(text);
    let needle = chars_of(pattern);
    if needle.len() == 0 {
        if all {
            interleave(&chars, new)
        } else {
            join2(new, text)
        }
    } else if all {
        replace_all(&chars, &needle, new)
    } else {
        replace_once(&chars, &needle, new)
    }
}

/// Replacing the only occurrence and replacing every one are the same edit.
pub proof fn one_occurrence_needs_no_choice(text: Seq<char>, pattern: Seq<char>, new: Seq<char>)
    requires
        pattern.len() > 0,
        match_count(text, pattern) == 1,
    ensures
        edited(text, pattern, new, true) == edited(text, pattern, new, false),
    decreases text.len(),
{
    if text.len() > 0 {
        if pattern.is_prefix_of(text) {
            lemma_nothing_to_replace(text.skip(pattern.len() as int), pattern, new);
        } else {
            one_occurrence_needs_no_choice(text.drop_first(), pattern, new);
        }
    }
}

proof fn lemma_nothing_to_replace(text: Seq<char>, pattern: Seq<char>, new: Seq<char>)
    requires
        pattern.len() > 0,
        occurrences(text, pattern) == 0,
    ensures
        replaced(text, pattern, new) == text,
    decreases text.len(),
{
    if text.len() > 0 {
        lemma_nothing_to_replace(text.drop_first(), pattern, new);
        assert(seq![text[0]] + text.drop_first() =~= text);
    }
}

/// A text in which an anchor does not stand is left alone by any edit of it.
pub proof fn an_absent_anchor_changes_nothing(text: Seq<char>, pattern: Seq<char>, new: Seq<char>)
    requires
        match_count(text, pattern) == 0,
    ensures
        edited(text, pattern, new, true) == text,
{
    lemma_nothing_to_replace(text, pattern, new);
}

/// A change of one anchor text to another.
#[derive(Debug)]
pub struct Replace {
    pub path: String,
    pub old_text: String,
    pub new_text: String,
    /// Whether every occurrence is changed.
    pub all: bool,
}

/// Calls `String::from_utf8`, which accepts just the bytes that are valid
/// UTF-8 and returns the text that encodes to them.
#[verifier::external_body]
fn utf8_text(bytes: Vec<u8>) -> (r: Option<String>)
    ensures
        match r {
            Some(text) => vstd::utf8::encode_utf8(text@) == bytes@,
            None => !vstd::utf8::valid_utf8(bytes@),
        },
        r is Some == vstd::utf8::valid_utf8(bytes@),
{
    String::from_utf8(bytes).ok()
}

/// Why a change is refused, given the text it applies to. The caller must
/// change the request, not retry it.
pub open spec fn replace_fault(text: Option<Seq<char>>, replace: Replace) -> Option<FaultModel> {
    match text {
        None => Some(
            FaultModel::Denied(
                DenialModel::Malformed {
                    what: "edit"@,
                    reason: "`"@ + replace.path@ + "` is not valid utf-8"@,
                },
            ),
        ),
        Some(chars) => {
            let count = match_count(chars, replace.old_text@);
            if count == 0 {
                Some(
                    FaultModel::Denied(
                        DenialModel::EditRefused {
                            path: replace.path@,
                            reason: "the anchor text does not appear in the file"@,
                        },
                    ),
                )
            } else if count > 1 && !replace.all {
                Some(
                    FaultModel::Denied(
                        DenialModel::EditRefused {
                            path: replace.path@,
                            reason: "the anchor text appears "@ + decimal(count)
                                + " times; pass `all` to replace every occurrence"@,
                        },
                    ),
                )
            } else {
                None
            }
        },
    }
}

/// A file's text after a change, once it was read as text.
pub fn replace_text(text: Option<String>, replace: &Replace) -> (r: Result<String, Fault>)
    ensures
        faulted(r) == replace_fault(crate::text::opt(text), *replace),
        r matches Ok(after) ==> text is Some && after@ == edited(
            text->0@,
            replace.old_text@,
            replace.new_text@,
            replace.all,
        ),
{
    let text = match text {
        Some(text) => text,
        None => {
            return Err(
                Fault::Denied(
                    Denial::Malformed {
                        what: "edit".to_owned(),
                        reason: join3("`", replace.path.as_str(), "` is not valid utf-8"),
                    },
                ),
            );
        },
    };
    let count: u128 = count_matches(text.as_str(), replace.old_text.as_str());
    if count == 0 {
        return Err(
            Fault::Denied(
                Denial::EditRefused {
                    path: replace.path.clone(),
                    reason: "the anchor text does not appear in the file".to_owned(),
                },
            ),
        );
    }
    if count > 1 && !replace.all {
        return Err(
            Fault::Denied(
                Denial::EditRefused {
                    path: replace.path.clone(),
                    reason: join3(
                        "the anchor text appears ",
                        wide_decimal_of(count).as_str(),
                        " times; pass `all` to replace every occurrence",
                    ),
                },
            ),
        );
    }
    Ok(
        apply(
            text.as_str(),
            replace.old_text.as_str(),
            replace.new_text.as_str(),
            replace.all,
        ),
    )
}

/// The text that some bytes encode.
pub open spec fn text_of(bytes: Seq<u8>) -> Option<Seq<char>> {
    if vstd::utf8::valid_utf8(bytes) {
        Some(vstd::utf8::decode_utf8(bytes))
    } else {
        None
    }
}

/// A file's bytes after a change.
pub fn apply_replace(bytes: Vec<u8>, replace: &Replace) -> (r: Result<Vec<u8>, Fault>)
    ensures
        faulted(r) == replace_fault(text_of(bytes@), *replace),
        r matches Ok(after) ==> after@ == vstd::utf8::encode_utf8(
            edited(
                text_of(bytes@)->0,
                replace.old_text@,
                replace.new_text@,
                replace.all,
            ),
        ),
{
    let text = utf8_text(bytes);
    proof {
        if let Some(t) = &text {
            vstd::utf8::encode_utf8_decode_utf8(t@);
        }
    }
    match replace_text(text, replace) {
        Ok(after) => Ok(vstd::slice::slice_to_vec(after.as_str().as_bytes())),
        Err(fault) => Err(fault),
    }
}

/// Whether a pattern stands in a text at `i`.
pub open spec fn stands(text: Seq<char>, pattern: Seq<char>, i: int) -> bool {
    0 <= i && i + pattern.len() <= text.len() && text.subrange(i, i + pattern.len()) == pattern
}

/// Whether a pattern first stands in a text behind `head`, with `tail` behind
/// it.
pub open spec fn first_stands(
    text: Seq<char>,
    pattern: Seq<char>,
    head: Seq<char>,
    tail: Seq<char>,
) -> bool {
    &&& text == head + pattern + tail
    &&& forall|i: int| 0 <= i < head.len() ==> !#[trigger] stands(text, pattern, i)
}

proof fn lemma_prefix_stands(text: Seq<char>, pattern: Seq<char>)
    ensures
        pattern.is_prefix_of(text) == stands(text, pattern, 0),
{
    if pattern.is_prefix_of(text) {
        assert(text.subrange(0, pattern.len() as int) =~= pattern);
    }
}

proof fn lemma_stands_later(text: Seq<char>, pattern: Seq<char>, i: int)
    requires
        text.len() > 0,
        0 <= i,
    ensures
        stands(text.drop_first(), pattern, i) == stands(text, pattern, i + 1),
{
    if i + pattern.len() <= text.drop_first().len() {
        assert(text.drop_first().subrange(i, i + pattern.len()) =~= text.subrange(
            i + 1,
            i + 1 + pattern.len(),
        ));
    }
}

/// An edit of a text in which the anchor stands puts the new text in place of
/// the first one and keeps what is ahead of it. What is behind it is kept too,
/// or edited in turn where every occurrence is to be replaced; and the first
/// one is one more than there are behind it.
pub proof fn an_edit_replaces_the_anchor(
    text: Seq<char>,
    pattern: Seq<char>,
    new: Seq<char>,
    head: Seq<char>,
    tail: Seq<char>,
)
    requires
        pattern.len() > 0,
        first_stands(text, pattern, head, tail),
    ensures
        edited(text, pattern, new, false) == head + new + tail,
        edited(text, pattern, new, true) == head + new + edited(tail, pattern, new, true),
        match_count(text, pattern) == 1 + match_count(tail, pattern),
    decreases head.len(),
{
    lemma_prefix_stands(text, pattern);
    if head.len() == 0 {
        assert(text.subrange(0, pattern.len() as int) =~= pattern);
        assert(text.skip(pattern.len() as int) =~= tail);
        assert(head + new + tail =~= new + tail);
        assert(head + new + replaced(tail, pattern, new) =~= new + replaced(tail, pattern, new));
    } else {
        assert(!stands(text, pattern, 0));
        let rest = text.drop_first();
        let shorter = head.drop_first();
        assert(rest =~= shorter + pattern + tail);
        assert forall|i: int| 0 <= i < shorter.len() implies !#[trigger] stands(
            rest,
            pattern,
            i,
        ) by {
            lemma_stands_later(text, pattern, i);
            assert(!stands(text, pattern, i + 1));
        }
        an_edit_replaces_the_anchor(rest, pattern, new, shorter, tail);
        assert(text[0] == head[0]);
        assert(seq![text[0]] + (shorter + new + tail) =~= head + new + tail);
        assert(seq![text[0]] + (shorter + new + replaced(tail, pattern, new)) =~= head + new
            + replaced(tail, pattern, new));
    }
}

/// An anchor is counted as absent just where it stands nowhere, and then no
/// edit changes the text.
pub proof fn an_anchor_that_stands_nowhere(text: Seq<char>, pattern: Seq<char>, new: Seq<char>)
    requires
        pattern.len() > 0,
    ensures
        match_count(text, pattern) == 0 <==> forall|i: int| !#[trigger] stands(text, pattern, i),
        match_count(text, pattern) == 0 ==> edited(text, pattern, new, true) == text && edited(
            text,
            pattern,
            new,
            false,
        ) == text,
    decreases text.len(),
{
    lemma_prefix_stands(text, pattern);
    if text.len() > 0 {
        let rest = text.drop_first();
        an_anchor_that_stands_nowhere(rest, pattern, new);
        if match_count(text, pattern) == 0 {
            assert forall|i: int| !#[trigger] stands(text, pattern, i) by {
                if i > 0 {
                    lemma_stands_later(text, pattern, i - 1);
                    assert(!stands(rest, pattern, i - 1));
                }
            }
            assert(seq![text[0]] + rest =~= text);
        }
        if forall|i: int| !#[trigger] stands(text, pattern, i) {
            assert forall|i: int| !#[trigger] stands(rest, pattern, i) by {
                if i >= 0 {
                    lemma_stands_later(text, pattern, i);
                    assert(!stands(text, pattern, i + 1));
                }
            }
            assert(!stands(text, pattern, 0));
        }
    }
}

/// Putting an anchor in its own place changes nothing.
pub proof fn an_anchor_for_itself_changes_nothing(text: Seq<char>, pattern: Seq<char>, all: bool)
    requires
        pattern.len() > 0,
    ensures
        edited(text, pattern, pattern, all) == text,
    decreases text.len(),
{
    if text.len() > 0 {
        if pattern.is_prefix_of(text) {
            let rest = text.skip(pattern.len() as int);
            an_anchor_for_itself_changes_nothing(rest, pattern, all);
            assert(text.subrange(0, pattern.len() as int) =~= pattern);
            assert(pattern + rest =~= text);
        } else {
            an_anchor_for_itself_changes_nothing(text.drop_first(), pattern, all);
            assert(seq![text[0]] + text.drop_first() =~= text);
        }
    }
}

/// The empty anchor stands once more often than there are characters. An edit
/// of the first one puts the new text at the head; an edit of all of them puts
/// it ahead of every character, each kept in its order, and at the end.
pub proof fn an_empty_anchor_stands_everywhere(text: Seq<char>, new: Seq<char>)
    ensures
        match_count(text, Seq::empty()) == text.len() + 1,
        edited(text, Seq::empty(), new, false) == new + text,
        text.len() == 0 ==> edited(text, Seq::empty(), new, true) == new,
        text.len() > 0 ==> edited(text, Seq::empty(), new, true) == new + seq![text[0]] + edited(
            text.drop_first(),
            Seq::empty(),
            new,
            true,
        ),
{
}

// ---------------------------------------------------------------------------
// Reading lines
// ---------------------------------------------------------------------------

/// A line without the carriage return that was part of its ending.
pub open spec fn without_return(line: Seq<char>) -> Seq<char> {
    if line.len() > 0 && line.last() == '\r' {
        line.drop_last()
    } else {
        line
    }
}

/// The lines of a text. A line ends in a newline, or in a carriage return and
/// a newline; the last one needs no ending.
pub open spec fn lines_of(text: Seq<char>) -> Seq<Seq<char>> {
    let pieces = split_on(text, '\n');
    let ended = pieces.drop_last().map_values(|line: Seq<char>| without_return(line));
    if pieces.last().len() == 0 {
        ended
    } else {
        ended.push(pieces.last())
    }
}

/// The lines of a text.
pub fn lines(text: &str) -> (r: Vec<String>)
    ensures
        texts(r@) == lines_of(text@),
{
    let pieces = split_text(text, '\n');
    let ghost all = texts(pieces@);
    proof {
        lemma_split_nonempty(text@, '\n');
    }
    let last: usize = pieces.len() - 1;
    let mut out: Vec<String> = Vec::new();
    let mut i: usize = 0;
    while i < last
        invariant
            i <= last,
            last == pieces@.len() - 1,
            all == texts(pieces@),
            out@.len() == i,
            forall|k: int| 0 <= k < i ==> (#[trigger] out@[k])@ == without_return(all[k]),
        decreases last - i,
    {
        let chars = chars_of(pieces[i].as_str());
        let len: usize = chars.len();
        let line = if len > 0 && chars[len - 1] == '\r' {
            let kept = string_of(chars.as_slice(), 0, len - 1);
            assert(kept@ =~= all[i as int].drop_last());
            kept
        } else {
            pieces[i].clone()
        };
        out.push(line);
        i += 1;
    }
    let ghost ended = all.drop_last().map_values(|line: Seq<char>| without_return(line));
    assert(texts(out@) =~= ended);
    if !pieces[last].as_str().is_empty() {
        out.push(pieces[last].clone());
        assert(texts(out@) =~= ended.push(all.last()));
    }
    out
}

/// Texts with a newline between them.
pub open spec fn lines_joined(lines: Seq<Seq<char>>) -> Seq<char>
    decreases lines.len(),
{
    if lines.len() == 0 {
        Seq::empty()
    } else if lines.len() == 1 {
        lines[0]
    } else {
        lines_joined(lines.drop_last()) + "\n"@ + lines.last()
    }
}

fn join_lines(lines: &Vec<String>, from: usize, to: usize) -> (r: String)
    requires
        from <= to <= lines@.len(),
    ensures
        r@ == lines_joined(texts(lines@).subrange(from as int, to as int)),
{
    let ghost all = texts(lines@);
    let mut out = String::new();
    let mut i: usize = from;
    assert(all.subrange(from as int, from as int) =~= Seq::empty());
    while i < to
        invariant
            from <= i <= to <= lines@.len(),
            all == texts(lines@),
            out@ == lines_joined(all.subrange(from as int, i as int)),
        decreases to - i,
    {
        let ghost here = all.subrange(from as int, i + 1);
        assert(here.drop_last() =~= all.subrange(from as int, i as int));
        assert(here.last() == lines@[i as int]@);
        if i > from {
            out.append("\n");
        }
        let ghost so_far = out@;
        out.append(lines[i].as_str());
        if i == from {
            assert(out@ =~= lines@[i as int]@);
        }
        i += 1;
    }
    out
}

/// The lines of a file to read: `limit` of them, `offset` from the top.
#[derive(Debug, Clone, Copy, PartialEq, Eq, Structural)]
pub struct Window {
    pub offset: u64,
    pub limit: u64,
}

/// A part of a file.
#[derive(Debug)]
pub struct Excerpt {
    pub bytes: Vec<u8>,
    /// Whether the file goes on behind it.
    pub truncated: bool,
}

/// The text that `String::from_utf8_lossy` reads from some bytes.
pub uninterp spec fn lossy_text(bytes: Seq<u8>) -> Seq<char>;

/// Calls `String::from_utf8_lossy`, whose result [`lossy_text`] names.
#[verifier::external_body]
pub(crate) fn lossy(bytes: &[u8]) -> (r: String)
    ensures
        r@ == lossy_text(bytes@),
{
    String::from_utf8_lossy(bytes).into_owned()
}

/// Where a window ends in a file of `len` lines.
pub open spec fn window_end(window: Window, len: int) -> int {
    if window.offset + window.limit < len {
        window.offset + window.limit
    } else {
        len
    }
}

/// Why a window cannot be read: it starts past the end. That is not the same
/// as an empty file, nor as a missing one.
pub open spec fn window_fault(path: Seq<char>, window: Window, len: int) -> Option<FaultModel> {
    if window.offset > 0 && window.offset >= len {
        Some(
            FaultModel::Denied(
                DenialModel::OutOfRange { path, offset: window.offset, len: len as u64 },
            ),
        )
    } else {
        None
    }
}

/// A window of a file, once its bytes were read as text.
pub fn window_of(text: &str, path: &str, window: Window) -> (r: Result<Excerpt, Fault>)
    ensures
        ({
            let all = lines_of(text@);
            let end = window_end(window, all.len() as int);
            &&& faulted(r) == window_fault(path@, window, all.len() as int)
            &&& r matches Ok(excerpt) ==> {
                &&& window.offset <= end
                &&& excerpt.bytes@ == vstd::utf8::encode_utf8(
                    lines_joined(all.subrange(window.offset as int, end)),
                )
                &&& excerpt.truncated == (end < all.len())
            }
        }),
{
    let all = lines(text);
    let len: u64 = all.len() as u64;
    if window.offset > 0 && window.offset >= len {
        return Err(
            Fault::Denied(
                Denial::OutOfRange { path: path.to_owned(), offset: window.offset, len },
            ),
        );
    }
    let start: usize = window.offset as usize;
    let end: usize = if window.limit < len - window.offset {
        start + window.limit as usize
    } else {
        all.len()
    };
    let selected = join_lines(&all, start, end);
    Ok(
        Excerpt {
            bytes: vstd::slice::slice_to_vec(selected.as_str().as_bytes()),
            truncated: end < all.len(),
        },
    )
}

/// Every character of a shown window stands where the lines put it: what is
/// joined is separated by single newlines, and by nothing else.
proof fn lemma_joined_is_separated(lines: Seq<Seq<char>>)
    ensures
        lines_joined(lines) == separated(lines, '\n'),
    decreases lines.len(),
{
    reveal_strlit("\n");
    if lines.len() > 1 {
        lemma_joined_is_separated(lines.drop_last());
        assert("\n"@ =~= seq!['\n']);
    }
}

/// What is shown of a window splits back into it: the same lines, empty ones
/// among them, at the same numbers.
pub proof fn a_shown_window_splits_back(lines: Seq<Seq<char>>)
    requires
        lines.len() > 0,
        forall|i: int| 0 <= i < lines.len() ==> !(#[trigger] lines[i]).contains('\n'),
    ensures
        split_on(lines_joined(lines), '\n') == lines,
{
    lemma_joined_is_separated(lines);
    separated_pieces_come_apart(lines, '\n');
}

/// How often a character stands in a text.
pub open spec fn tally(text: Seq<char>, c: char) -> nat {
    text.filter(|other: char| other == c).len()
}

proof fn lemma_tally_concat(a: Seq<char>, b: Seq<char>, c: char)
    ensures
        tally(a + b, c) == tally(a, c) + tally(b, c),
    decreases b.len(),
{
    reveal(Seq::filter);
    if b.len() == 0 {
        assert(a + b =~= a);
    } else {
        lemma_tally_concat(a, b.drop_last(), c);
        assert((a + b).drop_last() =~= a + b.drop_last());
    }
}

proof fn lemma_tally_none(s: Seq<char>, c: char)
    requires
        !s.contains(c),
    ensures
        tally(s, c) == 0,
    decreases s.len(),
{
    reveal(Seq::filter);
    if s.len() > 0 {
        let before = s.drop_last();
        assert(s.contains(s[s.len() - 1]));
        assert forall|i: int| 0 <= i < before.len() implies before[i] != c by {
            assert(s.contains(s[i]));
        }
        lemma_tally_none(before, c);
    }
}

/// A window of some lines holds one newline less than lines.
pub proof fn a_shown_window_has_a_newline_between_lines(lines: Seq<Seq<char>>)
    requires
        lines.len() > 0,
        forall|i: int| 0 <= i < lines.len() ==> !(#[trigger] lines[i]).contains('\n'),
    ensures
        tally(lines_joined(lines), '\n') == lines.len() - 1,
    decreases lines.len(),
{
    reveal_strlit("\n");
    assert(!lines[lines.len() - 1].contains('\n'));
    lemma_tally_none(lines.last(), '\n');
    if lines.len() > 1 {
        let before = lines.drop_last();
        assert forall|i: int| 0 <= i < before.len() implies !(#[trigger] before[i]).contains(
            '\n',
        ) by {
            assert(!lines[i].contains('\n'));
        }
        a_shown_window_has_a_newline_between_lines(before);
        lemma_tally_concat(lines_joined(before), "\n"@, '\n');
        lemma_tally_concat(lines_joined(before) + "\n"@, lines.last(), '\n');
        reveal(Seq::filter);
        assert("\n"@.drop_last() =~= Seq::empty());
        assert(tally("\n"@.drop_last(), '\n') == 0);
        assert("\n"@.last() == '\n');
        assert(tally("\n"@, '\n') == 1);
    }
}

/// A text of lines as an editor writes it: each with an ending behind it.
pub open spec fn ended_lines(lines: Seq<Seq<char>>, ending: Seq<char>) -> Seq<char>
    decreases lines.len(),
{
    if lines.len() == 0 {
        Seq::empty()
    } else {
        ended_lines(lines.drop_last(), ending) + lines.last() + ending
    }
}

/// Whether a text can be a line: no newline in it, and no carriage return at
/// its end.
pub open spec fn is_line(line: Seq<char>) -> bool {
    !line.contains('\n') && (line.len() > 0 ==> line.last() != '\r')
}

proof fn lemma_pieces_of_lines(lines: Seq<Seq<char>>, tail: Seq<char>, returned: bool)
    requires
        forall|i: int| 0 <= i < lines.len() ==> is_line(#[trigger] lines[i]),
        !tail.contains('\n'),
    ensures
        split_on(
            ended_lines(
                lines,
                if returned {
                    seq!['\r', '\n']
                } else {
                    seq!['\n']
                },
            ) + tail,
            '\n',
        ) == Seq::new(
            lines.len(),
            |i: int|
                if returned {
                    lines[i].push('\r')
                } else {
                    lines[i]
                },
        ).push(tail),
    decreases lines.len(),
{
    let ending = if returned {
        seq!['\r', '\n']
    } else {
        seq!['\n']
    };
    let shown = |i: int|
        if returned {
            lines[i].push('\r')
        } else {
            lines[i]
        };
    let text = ended_lines(lines, ending) + tail;
    an_unseparated_text_is_one_piece(tail, '\n');
    if lines.len() == 0 {
        assert(text =~= tail);
        assert(Seq::new(lines.len(), shown).push(tail) =~= seq![tail]);
    } else {
        let before = lines.drop_last();
        let last = lines[lines.len() - 1];
        assert(is_line(last));
        let piece = if returned {
            last.push('\r')
        } else {
            last
        };
        assert(!piece.contains('\n')) by {
            if piece.contains('\n') {
                let k = choose|k: int| 0 <= k < piece.len() && piece[k] == '\n';
                assert(last[k] == '\n');
                assert(last.contains('\n'));
            }
        }
        assert forall|i: int| 0 <= i < before.len() implies is_line(#[trigger] before[i]) by {
            assert(is_line(lines[i]));
        }
        lemma_pieces_of_lines(before, piece, returned);
        let head = ended_lines(before, ending) + piece;
        assert(text =~= head + seq!['\n'] + tail);
        a_separator_parts_the_pieces(head, tail, '\n');
        let earlier = Seq::new(
            before.len(),
            |i: int|
                if returned {
                    before[i].push('\r')
                } else {
                    before[i]
                },
        );
        assert(split_on(head, '\n') =~= earlier.push(piece));
        assert(earlier.push(piece) + seq![tail] =~= Seq::new(lines.len(), shown).push(tail));
    }
}

/// A text that was written line by line is read back as its lines, whether
/// they end in newlines or in carriage returns and newlines, and whether or not
/// the last one has an ending.
pub proof fn written_lines_are_read_back(lines: Seq<Seq<char>>, tail: Seq<char>, returned: bool)
    requires
        forall|i: int| 0 <= i < lines.len() ==> is_line(#[trigger] lines[i]),
        !tail.contains('\n'),
    ensures
        lines_of(
            ended_lines(
                lines,
                if returned {
                    seq!['\r', '\n']
                } else {
                    seq!['\n']
                },
            ) + tail,
        ) == if tail.len() == 0 {
            lines
        } else {
            lines.push(tail)
        },
{
    let ending = if returned {
        seq!['\r', '\n']
    } else {
        seq!['\n']
    };
    let text = ended_lines(lines, ending) + tail;
    lemma_pieces_of_lines(lines, tail, returned);
    let pieces = split_on(text, '\n');
    let ended = pieces.drop_last().map_values(|line: Seq<char>| without_return(line));
    assert forall|i: int| 0 <= i < lines.len() implies ended[i] == lines[i] by {
        assert(is_line(lines[i]));
        if returned {
            assert(lines[i].push('\r').drop_last() =~= lines[i]);
        }
    }
    assert(ended =~= lines);
}

/// Reading a whole text of newline-ended lines from the top shows the text
/// without its last newline.
pub proof fn a_whole_text_is_shown(lines: Seq<Seq<char>>)
    requires
        lines.len() > 0,
        forall|i: int| 0 <= i < lines.len() ==> is_line(#[trigger] lines[i]),
    ensures
        ({
            let text = ended_lines(lines, seq!['\n']);
            lines_joined(lines_of(text)).push('\n') == text
        }),
{
    let text = ended_lines(lines, seq!['\n']);
    written_lines_are_read_back(lines, Seq::empty(), false);
    assert(text + Seq::<char>::empty() =~= text);
    lemma_ended_is_joined(lines);
}

proof fn lemma_ended_is_joined(lines: Seq<Seq<char>>)
    requires
        lines.len() > 0,
    ensures
        ended_lines(lines, seq!['\n']) == lines_joined(lines).push('\n'),
    decreases lines.len(),
{
    reveal_strlit("\n");
    reveal_with_fuel(ended_lines, 2);
    if lines.len() > 1 {
        lemma_ended_is_joined(lines.drop_last());
    }
    assert(ended_lines(lines, seq!['\n']) =~= lines_joined(lines).push('\n'));
}

/// Windows that follow each other show what one window over both shows: a
/// reader that goes on where the last window ended misses no line and sees none
/// twice, and is told that there is more just while there is.
pub proof fn windows_follow_each_other(offset: u64, first: u64, second: u64, len: int)
    requires
        offset + first + second <= u64::MAX,
        offset <= len,
    ensures
        ({
            let one = Window { offset, limit: first };
            let two = Window { offset: (offset + first) as u64, limit: second };
            let both = Window { offset, limit: (first + second) as u64 };
            &&& window_end(one, len) <= len
            &&& window_end(one, len) - offset <= first
            &&& window_end(one, len) < len ==> window_end(one, len) - offset == first
                && window_end(one, len) == two.offset && window_end(two, len) == window_end(
                both,
                len,
            )
            &&& window_end(one, len) == len ==> window_end(both, len) == len
        }),
{
}

/// No line of a text holds a newline.
pub(crate) proof fn lemma_lines_hold_no_newline(text: Seq<char>)
    ensures
        forall|i: int|
            0 <= i < lines_of(text).len() ==> !(#[trigger] lines_of(text)[i]).contains('\n'),
{
    let pieces = split_on(text, '\n');
    the_pieces_are_the_text(text, '\n');
    lemma_split_nonempty(text, '\n');
    assert forall|i: int| 0 <= i < lines_of(text).len() implies !(#[trigger] lines_of(
        text,
    )[i]).contains('\n') by {
        let piece = pieces[i];
        assert(!piece.contains('\n'));
        let line = lines_of(text)[i];
        if line.contains('\n') {
            let k = choose|k: int| 0 <= k < line.len() && line[k] == '\n';
            assert(piece[k] == '\n');
            assert(piece.contains('\n'));
        }
    }
}

/// A change is refused just where the file is no text, the anchor stands nowhere
/// in it, or it stands in several places and not all of them were meant; and the
/// refusal names the file.
pub proof fn a_change_is_refused_for_a_reason(text: Option<Seq<char>>, replace: Replace)
    ensures
        replace_fault(text, replace) is None <==> (text matches Some(chars) && (match_count(
            chars,
            replace.old_text@,
        ) == 1 || (replace.all && match_count(chars, replace.old_text@) > 1))),
        text is None ==> (replace_fault(text, replace) matches Some(
            FaultModel::Denied(DenialModel::Malformed { .. }),
        )),
        text is Some && replace_fault(text, replace) is Some ==> (replace_fault(
            text,
            replace,
        ) matches Some(FaultModel::Denied(DenialModel::EditRefused { path, .. })) && path
            == replace.path@),
{
}

/// The bytes of a text are read as that text, and bytes of none are not read.
pub proof fn the_bytes_of_a_text_are_that_text(text: Seq<char>, bytes: Seq<u8>)
    ensures
        text_of(vstd::utf8::encode_utf8(text)) == Some(text),
        text_of(bytes) matches Some(read) ==> vstd::utf8::encode_utf8(read) == bytes,
        text_of(bytes) is None <==> !vstd::utf8::valid_utf8(bytes),
{
    vstd::utf8::encode_utf8_valid_utf8(text);
    vstd::utf8::encode_utf8_decode_utf8(text);
    if vstd::utf8::valid_utf8(bytes) {
        vstd::utf8::decode_utf8_encode_utf8(bytes);
    }
}

} // verus!

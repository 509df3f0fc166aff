//! Matching names in one directory.
//!
//! Evaluated here rather than on the far side: over there it is fast and
//! image-dependent, and image-dependent is the risk.
use vstd::prelude::*;
use crate::error::{faulted, Denial, DenialModel, Fault, FaultModel};
use crate::text::{chars_of, first_index, lemma_first_index};

verus! {

/// Whether a pattern matches a name. `*` stands for any characters, `?` for
/// one, `[..]` for one of a set and `[!..]` for one outside it.
pub open spec fn glob_fits(pattern: Seq<char>, name: Seq<char>) -> bool
    decreases pattern.len(),
{
    if pattern.len() == 0 {
        name.len() == 0
    } else if pattern[0] == '*' {
        exists|split: int|
            0 <= split <= name.len() && glob_fits(pattern.drop_first(), #[trigger] name.skip(split))
    } else if pattern[0] == '?' {
        name.len() > 0 && glob_fits(pattern.drop_first(), name.drop_first())
    } else if pattern[0] == '[' {
        let close = first_index(pattern, ']');
        &&& 0 < close < pattern.len()
        &&& name.len() > 0
        &&& in_set(pattern.subrange(1, close), name[0])
        &&& glob_fits(pattern.skip(close + 1), name.drop_first())
    } else {
        name.len() > 0 && name[0] == pattern[0] && glob_fits(
            pattern.drop_first(),
            name.drop_first(),
        )
    }
}

/// Whether a character is in a set: in the characters listed, or outside them
/// where the set starts with `!`.
pub open spec fn in_set(set: Seq<char>, c: char) -> bool {
    if set.len() > 0 && set[0] == '!' {
        !set.drop_first().contains(c)
    } else {
        set.contains(c)
    }
}

fn holds(chars: &Vec<char>, from: usize, to: usize, c: char) -> (r: bool)
    requires
        from <= to <= chars@.len(),
    ensures
        r == chars@.subrange(from as int, to as int).contains(c),
{
    let ghost set = chars@.subrange(from as int, to as int);
    let mut i: usize = from;
    while i < to
        invariant
            from <= i <= to <= chars@.len(),
            set == chars@.subrange(from as int, to as int),
            forall|k: int| 0 <= k < i - from ==> set[k] != c,
        decreases to - i,
    {
        if chars[i] == c {
            assert(set[i - from] == c);
            return true;
        }
        i += 1;
    }
    false
}

fn find_close(pattern: &Vec<char>, from: usize) -> (r: usize)
    requires
        from <= pattern@.len(),
    ensures
        r - from == first_index(pattern@.skip(from as int), ']'),
        from <= r <= pattern@.len(),
{
    let ghost rest = pattern@.skip(from as int);
    let mut i: usize = from;
    assert(rest.skip(0) =~= rest);
    while i < pattern.len()
        invariant
            from <= i <= pattern@.len(),
            rest == pattern@.skip(from as int),
            first_index(rest, ']') == (i - from) + first_index(rest.skip(i - from), ']'),
        decreases pattern@.len() - i,
    {
        assert(rest.skip(i - from)[0] == pattern@[i as int]);
        if pattern[i] == ']' {
            return i;
        }
        assert(rest.skip(i - from).drop_first() =~= rest.skip(i + 1 - from));
        i += 1;
    }
    i
}

fn matches_from(pattern: &Vec<char>, p: usize, name: &Vec<char>, n: usize) -> (r: bool)
    requires
        p <= pattern@.len(),
        n <= name@.len(),
    ensures
        r == glob_fits(pattern@.skip(p as int), name@.skip(n as int)),
    decreases pattern@.len() - p,
{
    let ghost rest = pattern@.skip(p as int);
    let ghost left = name@.skip(n as int);
    if p == pattern.len() {
        return n == name.len();
    }
    assert(rest[0] == pattern@[p as int]);
    assert(rest.drop_first() =~= pattern@.skip(p + 1));
    if pattern[p] == '*' {
        let mut split: usize = n;
        loop
            invariant
                n <= split <= name@.len(),
                p < pattern.len(),
                rest == pattern@.skip(p as int),
                left == name@.skip(n as int),
                rest.drop_first() == pattern@.skip(p + 1),
                rest.len() > 0 && rest[0] == '*',
                forall|k: int|
                    0 <= k < split - n ==> !glob_fits(rest.drop_first(), #[trigger] left.skip(k)),
            decreases name@.len() - split,
        {
            assert(left.skip(split - n) =~= name@.skip(split as int));
            if matches_from(pattern, p + 1, name, split) {
                assert(glob_fits(rest.drop_first(), left.skip(split - n)));
                return true;
            }
            if split == name.len() {
                assert forall|k: int| 0 <= k <= left.len() implies !glob_fits(
                    rest.drop_first(),
                    #[trigger] left.skip(k),
                ) by {}
                return false;
            }
            split += 1;
        }
    }
    if n < name.len() {
        assert(left[0] == name@[n as int]);
        assert(left.drop_first() =~= name@.skip(n + 1));
    }
    if pattern[p] == '?' {
        return n < name.len() && matches_from(pattern, p + 1, name, n + 1);
    }
    if pattern[p] == '[' {
        let close: usize = find_close(pattern, p);
        proof {
            lemma_first_index(rest, ']');
        }
        if close >= pattern.len() || n >= name.len() {
            return false;
        }
        let ghost set = rest.subrange(1, close - p);
        assert(set =~= pattern@.subrange(p + 1, close as int));
        let negated = close > p + 1 && pattern[p + 1] == '!';
        let inside = if negated {
            assert(set.drop_first() =~= pattern@.subrange(p + 2, close as int));
            !holds(pattern, p + 2, close, name[n])
        } else {
            holds(pattern, p + 1, close, name[n])
        };
        assert(rest.skip(close - p + 1) =~= pattern@.skip(close + 1));
        return inside && matches_from(pattern, close + 1, name, n + 1);
    }
    n < name.len() && name[n] == pattern[p] && matches_from(pattern, p + 1, name, n + 1)
}

/// Whether a pattern matches a name. `*` does not cross a `/`: names come from
/// one directory, so there is nothing to cross.
pub fn glob_matches(pattern: &str, name: &str) -> (r: bool)
    ensures
        r == glob_fits(pattern@, name@),
{
    let p = chars_of(pattern);
    let n = chars_of(name);
    assert(p@.skip(0) =~= p@);
    assert(n@.skip(0) =~= n@);
    matches_from(&p, 0, &n, 0)
}

/// What a bad pattern is told.
pub open spec fn bad_pattern(pattern: Seq<char>, reason: Seq<char>) -> FaultModel {
    FaultModel::Denied(DenialModel::BadPattern { pattern, reason })
}

/// Whether a set is open after the first `n` characters.
pub open spec fn set_open(pattern: Seq<char>, n: int) -> bool
    decreases n,
{
    if n <= 0 {
        false
    } else if pattern[n - 1] == '[' {
        true
    } else if pattern[n - 1] == ']' {
        false
    } else {
        set_open(pattern, n - 1)
    }
}

/// What is wrong with a character of a pattern.
pub open spec fn char_fault(pattern: Seq<char>, i: int) -> Option<Seq<char>> {
    if pattern[i] == '[' && set_open(pattern, i) {
        Some("nested `[`"@)
    } else if pattern[i] == '/' {
        Some("`list` is non-recursive; a glob matches names in one directory"@)
    } else {
        None
    }
}

/// What is wrong with the characters from `i` on, or with there being no more.
pub open spec fn rest_fault(pattern: Seq<char>, i: int) -> Option<Seq<char>>
    decreases pattern.len() - i,
{
    if i >= pattern.len() {
        if set_open(pattern, pattern.len() as int) {
            Some("unterminated `[`"@)
        } else {
            None
        }
    } else {
        match char_fault(pattern, i) {
            Some(reason) => Some(reason),
            None => rest_fault(pattern, i + 1),
        }
    }
}

/// Why a pattern is refused.
pub open spec fn glob_fault(pattern: Seq<char>) -> Option<FaultModel> {
    let reason = if pattern.len() == 0 {
        Some("an empty pattern matches nothing; omit the glob instead"@)
    } else {
        rest_fault(pattern, 0)
    };
    match reason {
        Some(text) => Some(bad_pattern(pattern, text)),
        None => None,
    }
}

fn refuse(pattern: &str, reason: &str) -> (r: Fault)
    ensures
        r@ == bad_pattern(pattern@, reason@),
{
    Fault::Denied(
        Denial::BadPattern { pattern: pattern.to_owned(), reason: reason.to_owned() },
    )
}

pub fn validate_glob(pattern: &str) -> (r: Result<(), Fault>)
    ensures
        faulted(r) == glob_fault(pattern@),
{
    if pattern.is_empty() {
        return Err(refuse(pattern, "an empty pattern matches nothing; omit the glob instead"));
    }
    let chars = chars_of(pattern);
    let mut open = false;
    let mut i: usize = 0;
    while i < chars.len()
        invariant
            i <= chars@.len(),
            chars@ == pattern@,
            pattern@.len() > 0,
            open == set_open(pattern@, i as int),
            rest_fault(pattern@, 0) == rest_fault(pattern@, i as int),
        decreases chars@.len() - i,
    {
        let c = chars[i];
        if c == '[' {
            if open {
                return Err(refuse(pattern, "nested `[`"));
            }
            open = true;
        } else if c == ']' {
            open = false;
        } else if c == '/' {
            return Err(
                refuse(
                    pattern,
                    "`list` is non-recursive; a glob matches names in one directory",
                ),
            );
        }
        i += 1;
    }
    if open {
        return Err(refuse(pattern, "unterminated `[`"));
    }
    Ok(())
}

/// `*` matches every name.
pub proof fn a_star_matches_everything(name: Seq<char>)
    ensures
        glob_fits(seq!['*'], name),
{
    let rest = seq!['*'].drop_first();
    assert(rest =~= Seq::empty());
    assert(name.skip(name.len() as int) =~= Seq::empty());
    assert(glob_fits(rest, name.skip(name.len() as int)));
}

/// A pattern without special characters matches itself and nothing else.
pub proof fn a_literal_matches_itself(pattern: Seq<char>, name: Seq<char>)
    requires
        forall|i: int|
            0 <= i < pattern.len() ==> #[trigger] pattern[i] != '*' && pattern[i] != '?'
                && pattern[i] != '[',
    ensures
        glob_fits(pattern, name) <==> pattern == name,
    decreases pattern.len(),
{
    if pattern.len() == 0 {
        if name.len() == 0 {
            assert(pattern =~= name);
        }
    } else if name.len() > 0 {
        assert(pattern[0] != '*');
        assert forall|i: int| 0 <= i < pattern.drop_first().len() implies
            #[trigger] pattern.drop_first()[i] != '*' && pattern.drop_first()[i] != '?'
            && pattern.drop_first()[i] != '[' by {
            assert(pattern[i + 1] != '*');
        }
        a_literal_matches_itself(pattern.drop_first(), name.drop_first());
        if pattern[0] == name[0] && pattern.drop_first() == name.drop_first() {
            assert(pattern =~= seq![pattern[0]] + pattern.drop_first());
            assert(name =~= seq![name[0]] + name.drop_first());
        }
    }
}

/// A pattern that is accepted names no directory: there is no `/` in it.
pub proof fn an_accepted_glob_stays_in_one_directory(pattern: Seq<char>)
    requires
        glob_fault(pattern) is None,
    ensures
        !pattern.contains('/'),
{
    assert(rest_fault(pattern, 0) is None);
    assert forall|i: int| 0 <= i < pattern.len() implies pattern[i] != '/' by {
        lemma_no_fault(pattern, 0, i);
    }
}

proof fn lemma_no_fault(pattern: Seq<char>, from: int, i: int)
    requires
        0 <= from <= i < pattern.len(),
        rest_fault(pattern, from) is None,
    ensures
        char_fault(pattern, i) is None,
    decreases i - from,
{
    if from < i {
        lemma_no_fault(pattern, from + 1, i);
    }
}

/// `*` stands for any run of characters: what follows it matches some end of
/// the name.
pub proof fn a_star_stands_for_any_run(pattern: Seq<char>, name: Seq<char>, skipped: Seq<char>)
    ensures
        glob_fits(pattern, name) ==> glob_fits(seq!['*'] + pattern, skipped + name),
        glob_fits(seq!['*'] + pattern, name) ==> exists|k: int|
            0 <= k <= name.len() && glob_fits(pattern, #[trigger] name.skip(k)),
{
    let star = seq!['*'] + pattern;
    let whole = skipped + name;
    assert(star.drop_first() =~= pattern);
    assert(star[0] == '*');
    assert(whole.skip(skipped.len() as int) =~= name);
}

/// `?` stands for exactly one character, whichever it is.
pub proof fn a_question_mark_stands_for_one(pattern: Seq<char>, name: Seq<char>, c: char)
    ensures
        glob_fits(seq!['?'] + pattern, seq![c] + name) == glob_fits(pattern, name),
        !glob_fits(seq!['?'] + pattern, Seq::empty()),
{
    let mark = seq!['?'] + pattern;
    assert(mark.drop_first() =~= pattern);
    assert(mark[0] == '?');
    assert((seq![c] + name).drop_first() =~= name);
}

/// A set stands for exactly one character: one of those it lists, or, where a
/// `!` opens it, one of the others.
pub proof fn a_set_stands_for_one_of_its_characters(
    set: Seq<char>,
    pattern: Seq<char>,
    name: Seq<char>,
    c: char,
)
    requires
        !set.contains(']'),
    ensures
        glob_fits(seq!['[', '!'] + set + seq![']'] + pattern, seq![c] + name) == (!set.contains(c)
            && glob_fits(pattern, name)),
        set.len() > 0 && set[0] != '!' ==> glob_fits(
            seq!['['] + set + seq![']'] + pattern,
            seq![c] + name,
        ) == (set.contains(c) && glob_fits(pattern, name)),
        !glob_fits(seq!['[', '!'] + set + seq![']'] + pattern, Seq::empty()),
{
    let text = seq![c] + name;
    assert(text.drop_first() =~= name);
    let negated = seq!['!'] + set;
    assert forall|k: int| 0 <= k < negated.len() implies negated[k] != ']' by {
        if k > 0 {
            assert(set.contains(set[k - 1]));
        }
    }
    lemma_set(negated, pattern, text);
    assert(negated.drop_first() =~= set);
    assert(seq!['['] + negated + seq![']'] + pattern =~= seq!['[', '!'] + set + seq![']']
        + pattern);
    lemma_set(negated, pattern, Seq::empty());
    assert forall|k: int| 0 <= k < set.len() implies set[k] != ']' by {
        assert(set.contains(set[k]));
    }
    lemma_set(set, pattern, text);
}

proof fn lemma_set(set: Seq<char>, pattern: Seq<char>, name: Seq<char>)
    requires
        forall|k: int| 0 <= k < set.len() ==> #[trigger] set[k] != ']',
    ensures
        glob_fits(seq!['['] + set + seq![']'] + pattern, name) == (name.len() > 0 && in_set(
            set,
            name[0],
        ) && glob_fits(pattern, name.drop_first())),
{
    let whole = seq!['['] + set + seq![']'] + pattern;
    let close = first_index(whole, ']');
    crate::text::lemma_first_index(whole, ']');
    let n = set.len() as int + 1;
    assert(whole[n] == ']');
    if close < n {
        if close > 0 {
            assert(whole[close] == set[close - 1]);
        }
    }
    assert(close == n);
    assert(whole.subrange(1, close) =~= set);
    assert(whole.skip(close + 1) =~= pattern);
    assert(whole[0] == '[');
}

/// Characters that are not special stand for themselves, ahead of whatever
/// follows them.
pub proof fn a_literal_beginning_must_stand(literal: Seq<char>, pattern: Seq<char>, name: Seq<char>)
    requires
        forall|i: int|
            0 <= i < literal.len() ==> #[trigger] literal[i] != '*' && literal[i] != '?'
                && literal[i] != '[',
    ensures
        glob_fits(literal + pattern, literal + name) == glob_fits(pattern, name),
        !literal.is_prefix_of(name) ==> !glob_fits(literal + pattern, name),
    decreases literal.len(),
{
    if literal.len() == 0 {
        assert(literal + pattern =~= pattern);
        assert(literal + name =~= name);
        assert(name.subrange(0, 0) =~= literal);
    } else {
        let rest = literal.drop_first();
        assert(literal[0] != '*');
        assert forall|i: int| 0 <= i < rest.len() implies #[trigger] rest[i] != '*' && rest[i]
            != '?' && rest[i] != '[' by {
            assert(literal[i + 1] != '*');
        }
        a_literal_beginning_must_stand(rest, pattern, name);
        assert((literal + pattern).drop_first() =~= rest + pattern);
        assert((literal + name).drop_first() =~= rest + name);
        if name.len() > 0 && name[0] == literal[0] {
            a_literal_beginning_must_stand(rest, pattern, name.drop_first());
            if rest.is_prefix_of(name.drop_first()) {
                assert(name.subrange(0, literal.len() as int) =~= literal) by {
                    assert(rest =~= name.drop_first().subrange(0, rest.len() as int));
                    assert forall|k: int| 0 <= k < literal.len() implies name[k] == literal[k] by {
                        if k > 0 {
                            assert(rest[k - 1] == name.drop_first()[k - 1]);
                        }
                    }
                }
            }
        }
    }
}

/// A pattern that names something in one directory is accepted wherever its
/// sets are closed; one that is empty, names a directory, or leaves a set open
/// is refused, and told so with the pattern.
pub proof fn a_pattern_is_refused_for_a_reason(pattern: Seq<char>)
    ensures
        glob_fault(Seq::empty()) is Some,
        pattern.len() > 0 && !pattern.contains('/') && !pattern.contains('[') ==> glob_fault(
            pattern,
        ) is None,
        pattern.contains('/') ==> glob_fault(pattern) is Some,
        !pattern.contains(']') && pattern.contains('[') ==> glob_fault(pattern) is Some,
        glob_fault(pattern) matches Some(fault) ==> (fault matches FaultModel::Denied(
            DenialModel::BadPattern { pattern: told, .. },
        ) && told == pattern),
{
    if pattern.len() > 0 && !pattern.contains('/') && !pattern.contains('[') {
        lemma_plain_pattern(pattern, 0);
    }
    if glob_fault(pattern) is None {
        if pattern.contains('/') {
            an_accepted_glob_stays_in_one_directory(pattern);
        }
        if !pattern.contains(']') && pattern.contains('[') {
            let k = choose|k: int| 0 <= k < pattern.len() && pattern[k] == '[';
            lemma_set_stays_open(pattern, k, pattern.len() as int);
            lemma_no_open_set(pattern, 0);
        }
    }
}

proof fn lemma_plain_pattern(pattern: Seq<char>, i: int)
    requires
        0 <= i <= pattern.len(),
        !pattern.contains('/'),
        !pattern.contains('['),
    ensures
        rest_fault(pattern, i) is None,
    decreases pattern.len() - i,
{
    if i < pattern.len() {
        assert(pattern.contains(pattern[i]));
        lemma_plain_pattern(pattern, i + 1);
    } else {
        lemma_never_open(pattern, i);
    }
}

proof fn lemma_never_open(pattern: Seq<char>, n: int)
    requires
        0 <= n <= pattern.len(),
        !pattern.contains('['),
    ensures
        !set_open(pattern, n),
    decreases n,
{
    if n > 0 {
        assert(pattern.contains(pattern[n - 1]));
        lemma_never_open(pattern, n - 1);
    }
}

proof fn lemma_set_stays_open(pattern: Seq<char>, k: int, n: int)
    requires
        0 <= k < n <= pattern.len(),
        pattern[k] == '[',
        !pattern.contains(']'),
    ensures
        set_open(pattern, n),
    decreases n,
{
    assert(pattern.contains(pattern[n - 1]));
    if n - 1 > k {
        lemma_set_stays_open(pattern, k, n - 1);
    }
}

proof fn lemma_no_open_set(pattern: Seq<char>, i: int)
    requires
        0 <= i <= pattern.len(),
        rest_fault(pattern, i) is None,
    ensures
        !set_open(pattern, pattern.len() as int),
    decreases pattern.len() - i,
{
    if i < pattern.len() {
        lemma_no_open_set(pattern, i + 1);
    }
}

} // verus!

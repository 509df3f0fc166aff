//! Character-level text helpers.
use vstd::prelude::*;

verus! {

/// The characters of a string.
pub fn chars_of(s: &str) -> (r: Vec<char>)
    ensures
        r@ == s@,
{
    let mut it = s.chars();
    let mut r: Vec<char> = Vec::new();
    loop
        invariant
            r@ + vstd::std_specs::iter::IteratorSpec::remaining(&it) == s@,
            vstd::std_specs::iter::IteratorSpec::obeys_prophetic_iter_laws(&it),
        decreases s@.len() - r@.len(),
    {
        let ghost before = vstd::std_specs::iter::IteratorSpec::remaining(&it);
        match it.next() {
            Some(c) => {
                proof {
                    assert(before =~= seq![c] + before.drop_first());
                    assert(r@ + before =~= r@.push(c) + before.drop_first());
                }
                r.push(c);
            },
            None => {
                assert(r@ =~= s@);
                return r;
            },
        }
    }
}

/// Whether two strings hold the same characters.
pub fn same(a: &str, b: &str) -> (r: bool)
    ensures
        r == (a@ == b@),
{
    let mut x = a.chars();
    let mut y = b.chars();
    let ghost mut i: int = 0;
    loop
        invariant
            0 <= i <= a@.len(),
            i <= b@.len(),
            vstd::std_specs::iter::IteratorSpec::remaining(&x) == a@.skip(i),
            vstd::std_specs::iter::IteratorSpec::remaining(&y) == b@.skip(i),
            a@.take(i) == b@.take(i),
        decreases a@.len() - i,
    {
        match (x.next(), y.next()) {
            (Some(c), Some(d)) => {
                if c != d {
                    assert(a@[i] == c && b@[i] == d);
                    return false;
                }
                proof {
                    assert(a@.take(i + 1) =~= a@.take(i).push(c));
                    assert(b@.take(i + 1) =~= b@.take(i).push(c));
                    assert(a@.skip(i + 1) =~= a@.skip(i).drop_first());
                    assert(b@.skip(i + 1) =~= b@.skip(i).drop_first());
                    i = i + 1;
                }
            },
            (None, None) => {
                assert(a@.take(i) =~= a@ && b@.take(i) =~= b@);
                return true;
            },
            _ => {
                return false;
            },
        }
    }
}

/// `String::push` appends one character.
pub assume_specification[ String::push ](text: &mut String, c: char)
    ensures
        final(text)@ == old(text)@.push(c),
;

/// Whether a character is white space: whether it has Unicode's `White_Space`
/// property.
pub open spec fn is_white(c: char) -> bool {
    let code = c as u32;
    ||| 0x9 <= code <= 0xd
    ||| code == 0x20
    ||| code == 0x85
    ||| code == 0xa0
    ||| code == 0x1680
    ||| 0x2000 <= code <= 0x200a
    ||| 0x2028 <= code <= 0x2029
    ||| code == 0x202f
    ||| code == 0x205f
    ||| code == 0x3000
}

/// Whether `char::is_alphanumeric` holds of a character outside ASCII.
pub uninterp spec fn is_wide_alphanumeric(c: char) -> bool;

/// Whether a character is a letter or a number.
pub open spec fn is_alphanumeric(c: char) -> bool {
    if c as u32 <= 0x7f {
        'A' <= c <= 'Z' || 'a' <= c <= 'z' || '0' <= c <= '9'
    } else {
        is_wide_alphanumeric(c)
    }
}

/// Calls `char::is_whitespace`, which holds of the characters that have the
/// `White_Space` property.
#[verifier::external_body]
pub(crate) fn white(c: char) -> (r: bool)
    ensures
        r == is_white(c),
{
    c.is_whitespace()
}

/// Calls `char::is_alphanumeric`. In ASCII it holds of the letters and the
/// digits; elsewhere [`is_wide_alphanumeric`] names its verdict.
#[verifier::external_body]
pub(crate) fn alphanumeric(c: char) -> (r: bool)
    ensures
        c as u32 <= 0x7f ==> r == ('A' <= c <= 'Z' || 'a' <= c <= 'z' || '0' <= c <= '9'),
        c as u32 > 0x7f ==> r == is_wide_alphanumeric(c),
{
    c.is_alphanumeric()
}

/// The characters `from..to` as a string.
pub fn string_of(chars: &[char], from: usize, to: usize) -> (r: String)
    requires
        from <= to <= chars@.len(),
    ensures
        r@ == chars@.subrange(from as int, to as int),
{
    let mut r = String::new();
    let mut i: usize = from;
    while i < to
        invariant
            from <= i <= to <= chars@.len(),
            r@ == chars@.subrange(from as int, i as int),
        decreases to - i,
    {
        r.push(chars[i]);
        i += 1;
        assert(r@ =~= chars@.subrange(from as int, i as int));
    }
    r
}

/// `a` followed by `b`.
pub fn join2(a: &str, b: &str) -> (r: String)
    ensures
        r@ == a@ + b@,
{
    let mut r = a.to_owned();
    r.append(b);
    r
}

/// `a`, `b` and `c` one after another.
pub fn join3(a: &str, b: &str, c: &str) -> (r: String)
    ensures
        r@ == a@ + b@ + c@,
{
    let mut r = a.to_owned();
    r.append(b);
    r.append(c);
    r
}

/// Four strings one after another.
pub fn join4(a: &str, b: &str, c: &str, d: &str) -> (r: String)
    ensures
        r@ == a@ + b@ + c@ + d@,
{
    let mut r = join3(a, b, c);
    r.append(d);
    r
}

/// Five strings one after another.
pub fn join5(a: &str, b: &str, c: &str, d: &str, e: &str) -> (r: String)
    ensures
        r@ == a@ + b@ + c@ + d@ + e@,
{
    let mut r = join4(a, b, c, d);
    r.append(e);
    r
}

/// `s` without its leading white space.
pub open spec fn trimmed_start(s: Seq<char>) -> Seq<char>
    decreases s.len(),
{
    if s.len() > 0 && is_white(s[0]) {
        trimmed_start(s.drop_first())
    } else {
        s
    }
}

/// `s` without its trailing white space.
pub open spec fn trimmed_end(s: Seq<char>) -> Seq<char>
    decreases s.len(),
{
    if s.len() > 0 && is_white(s.last()) {
        trimmed_end(s.drop_last())
    } else {
        s
    }
}

/// `s` without the white space around it.
pub open spec fn trimmed(s: Seq<char>) -> Seq<char> {
    trimmed_end(trimmed_start(s))
}

/// The string without the white space around it.
pub fn trim<'a>(s: &'a str) -> (r: &'a str)
    ensures
        r@ == trimmed(s@),
{
    let chars = chars_of(s);
    let mut from: usize = 0;
    assert(s@.skip(0) =~= s@);
    while from < chars.len() && white(chars[from])
        invariant
            from <= chars@.len(),
            chars@ == s@,
            trimmed_start(s@) == trimmed_start(s@.skip(from as int)),
        decreases chars@.len() - from,
    {
        assert(s@.skip(from as int).drop_first() =~= s@.skip(from + 1));
        from += 1;
    }
    let ghost rest = s@.skip(from as int);
    let mut to: usize = chars.len();
    assert(s@.subrange(from as int, to as int) =~= rest);
    while to > from && white(chars[to - 1])
        invariant
            from <= to <= chars@.len(),
            chars@ == s@,
            trimmed_end(rest) == trimmed_end(s@.subrange(from as int, to as int)),
        decreases to,
    {
        assert(s@.subrange(from as int, to as int).drop_last() =~= s@.subrange(
            from as int,
            to - 1,
        ));
        to -= 1;
    }
    s.substring_char(from, to)
}

/// Whether `s` begins with `prefix`.
pub fn starts_with(s: &str, prefix: &str) -> (r: bool)
    ensures
        r == prefix@.is_prefix_of(s@),
{
    let a = chars_of(s);
    let b = chars_of(prefix);
    if b.len() > a.len() {
        return false;
    }
    let mut i: usize = 0;
    while i < b.len()
        invariant
            i <= b@.len() <= a@.len(),
            a@ == s@,
            b@ == prefix@,
            forall|k: int| 0 <= k < i ==> a@[k] == b@[k],
        decreases b@.len() - i,
    {
        if a[i] != b[i] {
            assert(s@.subrange(0, b@.len() as int)[i as int] != b@[i as int]);
            return false;
        }
        i += 1;
    }
    assert(prefix@ =~= s@.subrange(0, b@.len() as int));
    true
}

/// Whether `s` ends with `suffix`.
pub fn ends_with(s: &str, suffix: &str) -> (r: bool)
    ensures
        r == suffix@.is_suffix_of(s@),
{
    let a = chars_of(s);
    let b = chars_of(suffix);
    if b.len() > a.len() {
        return false;
    }
    let at: usize = a.len() - b.len();
    let mut i: usize = 0;
    while i < b.len()
        invariant
            i <= b@.len() <= a@.len(),
            at + b.len() == a.len(),
            a@ == s@,
            b@ == suffix@,
            forall|k: int| 0 <= k < i ==> a@[at + k] == b@[k],
        decreases b@.len() - i,
    {
        if a[at + i] != b[i] {
            assert(s@.subrange(at as int, a@.len() as int)[i as int] != b@[i as int]);
            return false;
        }
        i += 1;
    }
    assert(suffix@ =~= s@.subrange(at as int, a@.len() as int));
    true
}

/// The characters behind an optional string.
pub open spec fn opt(o: Option<String>) -> Option<Seq<char>> {
    match o {
        Some(s) => Some(s@),
        None => None,
    }
}

/// The characters behind an optional string slice.
pub open spec fn opt_str(o: Option<&str>) -> Option<Seq<char>> {
    match o {
        Some(s) => Some(s@),
        None => None,
    }
}

/// The characters behind a list of pairs.
pub open spec fn pairs(list: Seq<(String, String)>) -> Seq<(Seq<char>, Seq<char>)> {
    Seq::new(list.len(), |i: int| (list[i].0@, list[i].1@))
}

/// The characters behind a list of strings.
pub open spec fn texts(list: Seq<String>) -> Seq<Seq<char>> {
    Seq::new(list.len(), |i: int| list[i]@)
}

/// Whether one of the strings is `text`.
pub fn lists(list: &Vec<String>, text: &str) -> (r: bool)
    ensures
        r == texts(list@).contains(text@),
{
    let mut i: usize = 0;
    while i < list.len()
        invariant
            i <= list@.len(),
            forall|k: int| 0 <= k < i ==> list@[k]@ != text@,
        decreases list@.len() - i,
    {
        if same(list[i].as_str(), text) {
            assert(texts(list@)[i as int] == text@);
            return true;
        }
        i += 1;
    }
    assert forall|k: int| 0 <= k < list@.len() implies texts(list@)[k] != text@ by {}
    false
}

/// The characters behind a field of a change: absent, cleared, or set.
pub open spec fn change(o: Option<Option<String>>) -> Option<Option<Seq<char>>> {
    match o {
        Some(value) => Some(opt(value)),
        None => None,
    }
}

/// An optional text without the white space around it.
pub open spec fn trimmed_opt(o: Option<Seq<char>>) -> Option<Seq<char>> {
    match o {
        Some(s) => Some(trimmed(s)),
        None => None,
    }
}

/// A field of a change without the white space around its text.
pub open spec fn trimmed_change(o: Option<Option<Seq<char>>>) -> Option<Option<Seq<char>>> {
    match o {
        Some(value) => Some(trimmed_opt(value)),
        None => None,
    }
}

/// An optional string without the white space around it.
pub fn trim_opt(o: &Option<String>) -> (r: Option<String>)
    ensures
        opt(r) == trimmed_opt(opt(*o)),
{
    match o {
        Some(s) => Some(trim(s.as_str()).to_owned()),
        None => None,
    }
}

/// A field of a change without the white space around its text.
pub fn trim_change(o: &Option<Option<String>>) -> (r: Option<Option<String>>)
    ensures
        change(r) == trimmed_change(change(*o)),
{
    match o {
        Some(value) => Some(trim_opt(value)),
        None => None,
    }
}

/// A copy of an optional string.
pub fn copy_opt(o: &Option<String>) -> (r: Option<String>)
    ensures
        opt(r) == opt(*o),
{
    match o {
        Some(s) => Some(s.clone()),
        None => None,
    }
}

/// `s` after every leading repetition of `prefix` is taken off.
pub open spec fn without_prefixes(s: Seq<char>, prefix: Seq<char>) -> Seq<char>
    decreases s.len(),
{
    if prefix.len() > 0 && prefix.is_prefix_of(s) {
        without_prefixes(s.skip(prefix.len() as int), prefix)
    } else {
        s
    }
}

/// The string after every leading repetition of `prefix` is taken off.
pub fn strip_prefixes(s: &str, prefix: &str) -> (r: String)
    requires
        prefix@.len() > 0,
    ensures
        r@ == without_prefixes(s@, prefix@),
    decreases s@.len(),
{
    if starts_with(s, prefix) {
        let n: usize = prefix.unicode_len();
        let len: usize = s.unicode_len();
        let rest = s.substring_char(n, len);
        assert(rest@ =~= s@.skip(prefix@.len() as int));
        strip_prefixes(rest, prefix)
    } else {
        s.to_owned()
    }
}

/// `s` without its trailing `c`s.
pub open spec fn without_trailing(s: Seq<char>, c: char) -> Seq<char>
    decreases s.len(),
{
    if s.len() > 0 && s.last() == c {
        without_trailing(s.drop_last(), c)
    } else {
        s
    }
}

/// The decimal digit `d`.
pub open spec fn digit(d: int) -> char {
    if d == 0 {
        '0'
    } else if d == 1 {
        '1'
    } else if d == 2 {
        '2'
    } else if d == 3 {
        '3'
    } else if d == 4 {
        '4'
    } else if d == 5 {
        '5'
    } else if d == 6 {
        '6'
    } else if d == 7 {
        '7'
    } else if d == 8 {
        '8'
    } else {
        '9'
    }
}

/// `n` in decimal.
pub open spec fn decimal(n: nat) -> Seq<char>
    decreases n,
{
    if n < 10 {
        seq![digit(n as int)]
    } else {
        decimal(n / 10).push(digit(n as int % 10))
    }
}

/// A signed number in decimal.
pub open spec fn signed_decimal(n: int) -> Seq<char> {
    if n < 0 {
        seq!['-'] + decimal((-n) as nat)
    } else {
        decimal(n as nat)
    }
}

fn digit_char(d: u64) -> (r: char)
    requires
        d < 10,
    ensures
        r == digit(d as int),
{
    match d {
        0 => '0',
        1 => '1',
        2 => '2',
        3 => '3',
        4 => '4',
        5 => '5',
        6 => '6',
        7 => '7',
        8 => '8',
        _ => '9',
    }
}

/// The number in decimal.
pub fn decimal_of(n: u64) -> (r: String)
    ensures
        r@ == decimal(n as nat),
    decreases n,
{
    if n < 10 {
        let mut r = String::new();
        r.push(digit_char(n));
        assert(r@ =~= seq![digit(n as int)]);
        r
    } else {
        let mut r = decimal_of(n / 10);
        r.push(digit_char(n % 10));
        r
    }
}

/// The number in decimal.
pub fn wide_decimal_of(n: u128) -> (r: String)
    ensures
        r@ == decimal(n as nat),
    decreases n,
{
    if n < 10 {
        let mut r = String::new();
        r.push(digit_char(n as u64));
        assert(r@ =~= seq![digit(n as int)]);
        r
    } else {
        let mut r = wide_decimal_of(n / 10);
        r.push(digit_char((n % 10) as u64));
        r
    }
}

/// The number in decimal, with its sign where it is negative.
pub fn signed_decimal_of(n: i64) -> (r: String)
    ensures
        r@ == signed_decimal(n as int),
{
    if n < 0 {
        let magnitude: u64 = if n == i64::MIN {
            9223372036854775808u64
        } else {
            (-n) as u64
        };
        let mut r = String::new();
        r.push('-');
        r.append(decimal_of(magnitude).as_str());
        assert(r@ =~= seq!['-'] + decimal(magnitude as nat));
        r
    } else {
        decimal_of(n as u64)
    }
}

/// Where `c` last stands in `s`, or -1.
pub open spec fn last_index(s: Seq<char>, c: char) -> int
    decreases s.len(),
{
    if s.len() == 0 {
        -1
    } else if s.last() == c {
        s.len() - 1
    } else {
        last_index(s.drop_last(), c)
    }
}

/// Where `c` first stands in `s`, or its length.
pub open spec fn first_index(s: Seq<char>, c: char) -> int
    decreases s.len(),
{
    if s.len() == 0 {
        0
    } else if s[0] == c {
        0
    } else {
        1 + first_index(s.drop_first(), c)
    }
}

pub proof fn lemma_last_index(s: Seq<char>, c: char)
    ensures
        -1 <= last_index(s, c) < s.len(),
        last_index(s, c) >= 0 ==> s[last_index(s, c)] == c,
        forall|k: int| last_index(s, c) < k < s.len() ==> #[trigger] s[k] != c,
    decreases s.len(),
{
    if s.len() > 0 && s.last() != c {
        lemma_last_index(s.drop_last(), c);
        assert forall|k: int| last_index(s, c) < k < s.len() implies #[trigger] s[k] != c by {
            if k < s.len() - 1 {
                assert(s.drop_last()[k] == s[k]);
            }
        }
    }
}

pub proof fn lemma_first_index(s: Seq<char>, c: char)
    ensures
        0 <= first_index(s, c) <= s.len(),
        first_index(s, c) < s.len() ==> s[first_index(s, c)] == c,
        forall|k: int| 0 <= k < first_index(s, c) ==> #[trigger] s[k] != c,
    decreases s.len(),
{
    if s.len() > 0 && s[0] != c {
        lemma_first_index(s.drop_first(), c);
        assert forall|k: int| 0 <= k < first_index(s, c) implies #[trigger] s[k] != c by {
            if k > 0 {
                assert(s.drop_first()[k - 1] == s[k]);
            }
        }
    }
}

/// Where `c` last stands among the characters from `from` on.
pub fn rfind(chars: &Vec<char>, from: usize, c: char) -> (r: Option<usize>)
    requires
        from <= chars@.len(),
    ensures
        match r {
            Some(i) => from <= i < chars@.len() && i - from == last_index(
                chars@.skip(from as int),
                c,
            ),
            None => last_index(chars@.skip(from as int), c) == -1,
        },
{
    let ghost rest = chars@.skip(from as int);
    let mut i: usize = chars.len();
    assert(rest.take(i - from) =~= rest);
    while i > from
        invariant
            from <= i <= chars@.len(),
            rest == chars@.skip(from as int),
            last_index(rest, c) == last_index(rest.take(i - from), c),
        decreases i,
    {
        assert(rest.take(i - from).drop_last() =~= rest.take(i - 1 - from));
        assert(rest.take(i - from).last() == chars@[i - 1]);
        i -= 1;
        if chars[i] == c {
            return Some(i);
        }
    }
    None
}

/// Where `c` first stands among the characters, or their number.
pub fn find(chars: &Vec<char>, c: char) -> (r: usize)
    ensures
        r == first_index(chars@, c),
        r <= chars@.len(),
{
    let mut i: usize = 0;
    assert(chars@.skip(0) =~= chars@);
    while i < chars.len()
        invariant
            i <= chars@.len(),
            first_index(chars@, c) == i + first_index(chars@.skip(i as int), c),
        decreases chars@.len() - i,
    {
        if chars[i] == c {
            return i;
        }
        assert(chars@.skip(i as int).drop_first() =~= chars@.skip(i + 1));
        i += 1;
    }
    i
}

/// The pieces of `s` between the `sep`s. There is always one more piece than
/// there are separators.
pub open spec fn split_on<A>(s: Seq<A>, sep: A) -> Seq<Seq<A>>
    decreases s.len(),
{
    if s.len() == 0 {
        seq![Seq::empty()]
    } else {
        let before = split_on(s.drop_last(), sep);
        if s.last() == sep {
            before.push(Seq::empty())
        } else {
            before.drop_last().push(before.last().push(s.last()))
        }
    }
}

pub proof fn lemma_split_nonempty<A>(s: Seq<A>, sep: A)
    ensures
        split_on(s, sep).len() > 0,
    decreases s.len(),
{
    if s.len() > 0 {
        lemma_split_nonempty(s.drop_last(), sep);
    }
}

/// The bytes behind a list of byte strings.
pub open spec fn byte_texts(list: Seq<Vec<u8>>) -> Seq<Seq<u8>> {
    Seq::new(list.len(), |i: int| list[i]@)
}

/// The pieces of some bytes between the `sep`s.
pub fn split_bytes(bytes: &[u8], sep: u8) -> (r: Vec<Vec<u8>>)
    ensures
        byte_texts(r@) == split_on(bytes@, sep),
{
    let mut pieces: Vec<Vec<u8>> = Vec::new();
    let mut piece: Vec<u8> = Vec::new();
    let mut i: usize = 0;
    assert(byte_texts(pieces@).push(piece@) =~= split_on(bytes@.take(0), sep));
    while i < bytes.len()
        invariant
            i <= bytes@.len(),
            byte_texts(pieces@).push(piece@) == split_on(bytes@.take(i as int), sep),
        decreases bytes@.len() - i,
    {
        let ghost before = byte_texts(pieces@);
        let ghost last = piece@;
        let ghost so_far = split_on(bytes@.take(i as int), sep);
        assert(bytes@.take(i + 1).drop_last() =~= bytes@.take(i as int));
        assert(so_far.drop_last() =~= before && so_far.last() == last);
        let b = bytes[i];
        if b == sep {
            pieces.push(piece);
            piece = Vec::new();
            assert(byte_texts(pieces@) =~= before.push(last));
            assert(piece@ =~= Seq::empty());
        } else {
            piece.push(b);
        }
        i += 1;
    }
    assert(bytes@.take(i as int) =~= bytes@);
    let ghost before = byte_texts(pieces@);
    pieces.push(piece);
    assert(byte_texts(pieces@) =~= before.push(piece@));
    pieces
}

/// Whether `a` comes before `b` in the order of text: character by character,
/// a prefix first.
pub open spec fn precedes(a: Seq<char>, b: Seq<char>) -> bool
    decreases a.len(),
{
    if b.len() == 0 {
        false
    } else if a.len() == 0 {
        true
    } else if a[0] != b[0] {
        a[0] < b[0]
    } else {
        precedes(a.drop_first(), b.drop_first())
    }
}

/// Whether `a` comes before `b`.
pub fn is_before(a: &str, b: &str) -> (r: bool)
    ensures
        r == precedes(a@, b@),
{
    let x = chars_of(a);
    let y = chars_of(b);
    let mut i: usize = 0;
    assert(a@.skip(0) =~= a@ && b@.skip(0) =~= b@);
    while i < x.len() && i < y.len()
        invariant
            i <= x@.len(),
            i <= y@.len(),
            x@ == a@,
            y@ == b@,
            precedes(a@, b@) == precedes(a@.skip(i as int), b@.skip(i as int)),
        decreases x@.len() - i,
    {
        assert(a@.skip(i as int)[0] == x@[i as int]);
        assert(b@.skip(i as int)[0] == y@[i as int]);
        if x[i] != y[i] {
            return x[i] < y[i];
        }
        assert(a@.skip(i as int).drop_first() =~= a@.skip(i + 1));
        assert(b@.skip(i as int).drop_first() =~= b@.skip(i + 1));
        i += 1;
    }
    i < y.len()
}

pub proof fn lemma_precedes_transitive(a: Seq<char>, b: Seq<char>, c: Seq<char>)
    requires
        precedes(a, b),
        precedes(b, c),
    ensures
        precedes(a, c),
    decreases a.len(),
{
    if a.len() > 0 && b.len() > 0 && c.len() > 0 && a[0] == b[0] && b[0] == c[0] {
        lemma_precedes_transitive(a.drop_first(), b.drop_first(), c.drop_first());
    }
}

/// No text comes before itself.
pub proof fn no_text_precedes_itself(a: Seq<char>)
    ensures
        !precedes(a, a),
    decreases a.len(),
{
    if a.len() > 0 {
        no_text_precedes_itself(a.drop_first());
    }
}

pub proof fn lemma_precedes_total(a: Seq<char>, b: Seq<char>)
    ensures
        precedes(a, b) || precedes(b, a) || a == b,
    decreases a.len(),
{
    if a.len() == 0 || b.len() == 0 {
        if a.len() == 0 && b.len() == 0 {
            assert(a =~= b);
        }
    } else if a[0] == b[0] {
        lemma_precedes_total(a.drop_first(), b.drop_first());
        if a.drop_first() == b.drop_first() {
            assert forall|i: int| 0 <= i < a.len() implies a[i] == b[i] by {
                if i > 0 {
                    assert(a[i] == a.drop_first()[i - 1]);
                    assert(b[i] == b.drop_first()[i - 1]);
                }
            }
            assert(a.len() == a.drop_first().len() + 1 == b.len());
            assert(a =~= b);
        }
    }
}

/// The decimal value of a text, where it is digits only.
pub open spec fn digits_value(text: Seq<char>) -> Option<nat>
    decreases text.len(),
{
    if text.len() == 0 {
        Some(0)
    } else {
        match digits_value(text.drop_last()) {
            Some(before) => if '0' <= text.last() <= '9' {
                Some((before * 10 + (text.last() as u32 - 48)) as nat)
            } else {
                None
            },
            None => None,
        }
    }
}

/// The number up to `limit` that a text spells: digits, at least one of them,
/// behind an optional plus sign.
pub open spec fn number_value(text: Seq<char>, limit: nat) -> Option<nat> {
    let digits = if text.len() > 0 && text[0] == '+' {
        text.drop_first()
    } else {
        text
    };
    match digits_value(digits) {
        Some(value) => if digits.len() > 0 && value <= limit {
            Some(value)
        } else {
            None
        },
        None => None,
    }
}

/// The number of sixteen bits that a text spells.
pub open spec fn u16_value(text: Seq<char>) -> Option<nat> {
    number_value(text, 65535)
}

proof fn lemma_digits_fail(text: Seq<char>, i: int)
    requires
        0 <= i < text.len(),
        !('0' <= text[i] <= '9'),
    ensures
        digits_value(text) is None,
    decreases text.len(),
{
    if i < text.len() - 1 {
        assert(text.drop_last()[i] == text[i]);
        lemma_digits_fail(text.drop_last(), i);
    }
}

proof fn lemma_digits_grow(text: Seq<char>, n: int)
    requires
        0 <= n <= text.len(),
        digits_value(text) is Some,
    ensures
        digits_value(text.take(n)) is Some,
        digits_value(text.take(n))->0 <= digits_value(text)->0,
    decreases text.len(),
{
    if n < text.len() {
        lemma_digits_grow(text.drop_last(), n);
        assert(text.drop_last().take(n) =~= text.take(n));
    } else {
        assert(text.take(n) =~= text);
    }
}

/// The number up to `limit` that the characters from `from` on spell.
pub fn parse_number(chars: &Vec<char>, from: usize, limit: u32) -> (r: Option<u32>)
    requires
        from <= chars@.len(),
    ensures
        match r {
            Some(value) => number_value(chars@.skip(from as int), limit as nat) == Some(
                value as nat,
            ),
            None => number_value(chars@.skip(from as int), limit as nat) is None,
        },
{
    let ghost text = chars@.skip(from as int);
    let start: usize = if from < chars.len() && chars[from] == '+' {
        from + 1
    } else {
        from
    };
    let ghost digits = chars@.skip(start as int);
    proof {
        if start > from {
            assert(text.drop_first() =~= digits);
        }
    }
    let mut value: u64 = 0;
    let mut i: usize = start;
    assert(digits.take(0) =~= Seq::empty());
    while i < chars.len()
        invariant
            start <= i <= chars@.len(),
            digits == chars@.skip(start as int),
            digits == if text.len() > 0 && text[0] == '+' {
                text.drop_first()
            } else {
                text
            },
            text == chars@.skip(from as int),
            value <= limit,
            digits_value(digits.take(i - start)) == Some(value as nat),
        decreases chars@.len() - i,
    {
        let c = chars[i];
        proof {
            assert(digits[i - start] == c);
            assert(digits.take(i + 1 - start).drop_last() =~= digits.take(i - start));
        }
        if c < '0' || c > '9' {
            proof {
                lemma_digits_fail(digits, i - start);
            }
            return None;
        }
        value = value * 10 + (c as u64 - 48);
        if value > limit as u64 {
            proof {
                if digits_value(digits) is Some {
                    lemma_digits_grow(digits, i + 1 - start);
                }
            }
            return None;
        }
        i += 1;
    }
    assert(digits.take(i - start) =~= digits);
    if start < chars.len() {
        Some(value as u32)
    } else {
        None
    }
}

/// The number of sixteen bits that the characters from `from` on spell.
pub fn parse_u16(chars: &Vec<char>, from: usize) -> (r: Option<u16>)
    requires
        from <= chars@.len(),
    ensures
        match r {
            Some(value) => u16_value(chars@.skip(from as int)) == Some(value as nat),
            None => u16_value(chars@.skip(from as int)) is None,
        },
{
    match parse_number(chars, from, 65535) {
        Some(value) => Some(value as u16),
        None => None,
    }
}

/// The pieces of a text between the `sep`s.
pub fn split_text(s: &str, sep: char) -> (r: Vec<String>)
    ensures
        texts(r@) == split_on(s@, sep),
{
    let chars = chars_of(s);
    let mut pieces: Vec<String> = Vec::new();
    let mut piece = String::new();
    let mut i: usize = 0;
    assert(texts(pieces@).push(piece@) =~= split_on(s@.take(0), sep));
    while i < chars.len()
        invariant
            i <= chars@.len(),
            chars@ == s@,
            texts(pieces@).push(piece@) == split_on(s@.take(i as int), sep),
        decreases chars@.len() - i,
    {
        let ghost before = texts(pieces@);
        let ghost last = piece@;
        let ghost so_far = split_on(s@.take(i as int), sep);
        assert(s@.take(i + 1).drop_last() =~= s@.take(i as int));
        assert(so_far.drop_last() =~= before && so_far.last() == last);
        let c = chars[i];
        if c == sep {
            pieces.push(piece);
            piece = String::new();
            assert(texts(pieces@) =~= before.push(last));
        } else {
            piece.push(c);
        }
        i += 1;
    }
    assert(s@.take(i as int) =~= s@);
    let ghost before = texts(pieces@);
    pieces.push(piece);
    assert(texts(pieces@) =~= before.push(piece@));
    pieces
}

/// The lower-case hexadecimal digit `d`.
pub open spec fn hex_digit(d: int) -> char {
    if d == 10 {
        'a'
    } else if d == 11 {
        'b'
    } else if d == 12 {
        'c'
    } else if d == 13 {
        'd'
    } else if d == 14 {
        'e'
    } else if d == 15 {
        'f'
    } else {
        digit(d)
    }
}

/// `n` in hexadecimal.
pub open spec fn hex(n: nat) -> Seq<char>
    decreases n,
{
    if n < 16 {
        seq![hex_digit(n as int)]
    } else {
        hex(n / 16).push(hex_digit(n as int % 16))
    }
}

fn hex_char(d: u64) -> (r: char)
    requires
        d < 16,
    ensures
        r == hex_digit(d as int),
{
    match d {
        10 => 'a',
        11 => 'b',
        12 => 'c',
        13 => 'd',
        14 => 'e',
        15 => 'f',
        other => digit_char(other),
    }
}

/// The number in hexadecimal.
pub fn hex_of(n: u64) -> (r: String)
    ensures
        r@ == hex(n as nat),
    decreases n,
{
    if n < 16 {
        let mut r = String::new();
        r.push(hex_char(n));
        assert(r@ =~= seq![hex_digit(n as int)]);
        r
    } else {
        let mut r = hex_of(n / 16);
        r.push(hex_char(n % 16));
        r
    }
}

/// Trimming a trimmed text changes nothing.
pub proof fn trimming_is_idempotent(s: Seq<char>)
    ensures
        trimmed(trimmed(s)) == trimmed(s),
{
    lemma_trimmed_start(s);
    let rest = trimmed_start(s);
    lemma_trimmed_end(rest);
    let kept = trimmed_end(rest);
    if kept.len() > 0 {
        assert(kept[0] == rest[0]);
    }
    assert(trimmed_start(kept) == kept);
    lemma_trimmed_end(kept);
    assert(trimmed_end(kept) == kept);
}

proof fn lemma_trimmed_start(s: Seq<char>)
    ensures
        trimmed_start(s).len() > 0 ==> !is_white(trimmed_start(s)[0]),
    decreases s.len(),
{
    if s.len() > 0 && is_white(s[0]) {
        lemma_trimmed_start(s.drop_first());
    }
}

proof fn lemma_trimmed_end(s: Seq<char>)
    ensures
        trimmed_end(s).len() <= s.len(),
        trimmed_end(s) == s.take(trimmed_end(s).len() as int),
        trimmed_end(s).len() > 0 ==> !is_white(trimmed_end(s).last()),
    decreases s.len(),
{
    if s.len() > 0 && is_white(s.last()) {
        lemma_trimmed_end(s.drop_last());
        let n = trimmed_end(s).len() as int;
        assert(s.drop_last().take(n) =~= s.take(n));
    } else {
        assert(s.take(s.len() as int) =~= s);
    }
}

/// A number is read back from its decimal form, which is made of digits.
pub proof fn a_number_reads_back(n: nat)
    ensures
        decimal(n).len() > 0,
        forall|i: int| 0 <= i < decimal(n).len() ==> '0' <= #[trigger] decimal(n)[i] <= '9',
        digits_value(decimal(n)) == Some(n),
    decreases n,
{
    let text = decimal(n);
    if n < 10 {
        assert(text.drop_last() =~= Seq::empty());
        assert(digits_value(Seq::<char>::empty()) == Some(0nat));
        assert(text.last() == digit(n as int));
        assert(digit(n as int) as u32 - 48 == n);
    } else {
        a_number_reads_back(n / 10);
        let before = decimal(n / 10);
        assert(text.drop_last() =~= before);
        assert(digit(n as int % 10) as u32 - 48 == n % 10);
        assert(n / 10 * 10 + n % 10 == n);
        assert forall|i: int| 0 <= i < text.len() implies '0' <= #[trigger] text[i] <= '9' by {
            if i < before.len() {
                assert(text[i] == before[i]);
            }
        }
    }
}

/// A text without a separator is one piece.
pub proof fn an_unseparated_text_is_one_piece<A>(s: Seq<A>, sep: A)
    requires
        !s.contains(sep),
    ensures
        split_on(s, sep) == seq![s],
    decreases s.len(),
{
    if s.len() > 0 {
        let before = s.drop_last();
        assert forall|i: int| 0 <= i < before.len() implies before[i] != sep by {
            assert(s.contains(s[i]));
        }
        assert(s.contains(s[s.len() - 1]));
        an_unseparated_text_is_one_piece(before, sep);
        assert(split_on(s, sep) =~= seq![before.push(s.last())]);
        assert(before.push(s.last()) =~= s);
    } else {
        assert(s =~= Seq::empty());
    }
}

/// A separator between two texts parts their pieces, and nothing else does.
pub proof fn a_separator_parts_the_pieces<A>(a: Seq<A>, b: Seq<A>, sep: A)
    ensures
        split_on(a + seq![sep] + b, sep) == split_on(a, sep) + split_on(b, sep),
    decreases b.len(),
{
    let whole = a + seq![sep] + b;
    if b.len() == 0 {
        assert(whole.drop_last() =~= a);
        assert(split_on(whole, sep) =~= split_on(a, sep) + split_on(b, sep));
    } else {
        assert(whole.drop_last() =~= a + seq![sep] + b.drop_last());
        a_separator_parts_the_pieces(a, b.drop_last(), sep);
        lemma_split_nonempty(b.drop_last(), sep);
        assert(split_on(whole, sep) =~= split_on(a, sep) + split_on(b, sep));
    }
}

/// Pieces with a separator between them.
pub open spec fn separated<A>(pieces: Seq<Seq<A>>, sep: A) -> Seq<A>
    decreases pieces.len(),
{
    if pieces.len() == 0 {
        Seq::empty()
    } else if pieces.len() == 1 {
        pieces[0]
    } else {
        separated(pieces.drop_last(), sep) + seq![sep] + pieces.last()
    }
}

/// Pieces that hold no separator are read back from the text they are joined
/// into, every one of them, empty ones too.
pub proof fn separated_pieces_come_apart<A>(pieces: Seq<Seq<A>>, sep: A)
    requires
        pieces.len() > 0,
        forall|i: int| 0 <= i < pieces.len() ==> !(#[trigger] pieces[i]).contains(sep),
    ensures
        split_on(separated(pieces, sep), sep) == pieces,
    decreases pieces.len(),
{
    if pieces.len() == 1 {
        an_unseparated_text_is_one_piece(pieces[0], sep);
        assert(pieces =~= seq![pieces[0]]);
    } else {
        let before = pieces.drop_last();
        assert forall|i: int| 0 <= i < before.len() implies !(#[trigger] before[i]).contains(
            sep,
        ) by {
            assert(!pieces[i].contains(sep));
        }
        separated_pieces_come_apart(before, sep);
        assert(!pieces[pieces.len() - 1].contains(sep));
        an_unseparated_text_is_one_piece(pieces.last(), sep);
        a_separator_parts_the_pieces(separated(before, sep), pieces.last(), sep);
        assert(before + seq![pieces.last()] =~= pieces);
    }
}

/// The pieces of a text hold no separator, and joined they are the text.
pub proof fn the_pieces_are_the_text<A>(s: Seq<A>, sep: A)
    ensures
        separated(split_on(s, sep), sep) == s,
        forall|i: int|
            0 <= i < split_on(s, sep).len() ==> !(#[trigger] split_on(s, sep)[i]).contains(sep),
    decreases s.len(),
{
    let pieces = split_on(s, sep);
    if s.len() == 0 {
        assert(pieces =~= seq![Seq::<A>::empty()]);
        assert(separated(pieces, sep) =~= s);
    } else {
        let before = split_on(s.drop_last(), sep);
        the_pieces_are_the_text(s.drop_last(), sep);
        lemma_split_nonempty(s.drop_last(), sep);
        if s.last() == sep {
            assert(pieces.drop_last() =~= before);
            assert(separated(pieces, sep) =~= s);
            assert forall|i: int| 0 <= i < pieces.len() implies !(#[trigger] pieces[i]).contains(
                sep,
            ) by {
                if i < before.len() {
                    assert(pieces[i] == before[i]);
                }
            }
        } else {
            assert(pieces.drop_last() =~= before.drop_last());
            assert(pieces.last() == before.last().push(s.last()));
            assert(separated(pieces, sep) =~= separated(before, sep).push(s.last()));
            assert(separated(pieces, sep) =~= s);
            assert forall|i: int| 0 <= i < pieces.len() implies !(#[trigger] pieces[i]).contains(
                sep,
            ) by {
                assert(!before[i].contains(sep));
                if i == pieces.len() - 1 {
                    let was = before.last();
                    let now = was.push(s.last());
                    if now.contains(sep) {
                        let k = choose|k: int| 0 <= k < now.len() && now[k] == sep;
                        assert(was[k] == sep);
                        assert(was.contains(sep));
                    }
                }
            }
        }
    }
}

/// Whether a text is all white space.
pub open spec fn all_white(s: Seq<char>) -> bool {
    forall|i: int| 0 <= i < s.len() ==> is_white(#[trigger] s[i])
}

/// What is left of a text once the white space around it is gone is all that
/// stands between: from the first character that is not white to the last.
pub proof fn trimming_leaves_the_core(before: Seq<char>, core: Seq<char>, after: Seq<char>)
    requires
        all_white(before),
        all_white(after),
        core.len() > 0 ==> !is_white(core[0]) && !is_white(core.last()),
    ensures
        trimmed(before + core + after) == core,
    decreases before.len() + after.len(),
{
    let s = before + core + after;
    if before.len() > 0 {
        let rest = before.drop_first();
        assert(is_white(before[0]));
        assert(s[0] == before[0]);
        assert forall|i: int| 0 <= i < rest.len() implies is_white(#[trigger] rest[i]) by {
            assert(is_white(before[i + 1]));
        }
        assert(s.drop_first() =~= rest + core + after);
        trimming_leaves_the_core(rest, core, after);
    } else if core.len() == 0 {
        assert(s =~= after);
        if after.len() > 0 {
            let rest = after.drop_first();
            assert(is_white(after[0]));
            assert forall|i: int| 0 <= i < rest.len() implies is_white(#[trigger] rest[i]) by {
                assert(is_white(after[i + 1]));
            }
            trimming_leaves_the_core(before, core, rest);
            assert(before + core + rest =~= s.drop_first());
        } else {
            assert(s =~= core);
        }
    } else {
        assert(s =~= core + after);
        assert(s[0] == core[0]);
        lemma_white_end(core, after);
    }
}

proof fn lemma_white_end(core: Seq<char>, after: Seq<char>)
    requires
        all_white(after),
        core.len() > 0,
        !is_white(core.last()),
    ensures
        trimmed_end(core + after) == core,
    decreases after.len(),
{
    if after.len() == 0 {
        assert(core + after =~= core);
    } else {
        let rest = after.drop_last();
        assert(is_white(after[after.len() - 1]));
        assert forall|i: int| 0 <= i < rest.len() implies is_white(#[trigger] rest[i]) by {
            assert(is_white(after[i]));
        }
        assert((core + after).drop_last() =~= core + rest);
        lemma_white_end(core, rest);
    }
}

/// A decimal number is written by its places: ten times as much, and a digit
/// more, is the same digits with that one behind them.
pub proof fn a_digit_more_is_ten_times_as_much(n: nat, d: nat)
    requires
        d <= 9,
    ensures
        decimal(d) == seq![(48 + d) as u8 as char],
        n > 0 ==> decimal(n * 10 + d) == decimal(n) + decimal(d),
{
    if n > 0 {
        let m = n * 10 + d;
        assert(m / 10 == n && m % 10 == d) by (nonlinear_arith)
            requires
                m == n * 10 + d,
                d <= 9,
        ;
        assert(decimal(m) =~= decimal(n) + decimal(d));
    }
    assert(decimal(d) =~= seq![(48 + d) as u8 as char]);
}

/// A hexadecimal number is written by its places, in lower-case digits.
pub proof fn a_hex_digit_more_is_sixteen_times_as_much(n: nat, d: nat)
    requires
        d <= 15,
    ensures
        hex(d) == seq![
            if d <= 9 {
                (48 + d) as u8 as char
            } else {
                (87 + d) as u8 as char
            },
        ],
        n > 0 ==> hex(n * 16 + d) == hex(n) + hex(d),
{
    if n > 0 {
        let m = n * 16 + d;
        assert(m / 16 == n && m % 16 == d) by (nonlinear_arith)
            requires
                m == n * 16 + d,
                d <= 15,
        ;
        assert(hex(m) =~= hex(n) + hex(d));
    }
    assert(hex(d) =~= seq![
        if d <= 9 {
            (48 + d) as u8 as char
        } else {
            (87 + d) as u8 as char
        },
    ]);
}

/// A number that is below a limit is read from its digits, with or without a
/// plus in front, and one above it is not.
pub proof fn a_number_is_read_up_to_its_limit(n: nat, limit: nat)
    ensures
        ({
            let read = if n <= limit {
                Some(n)
            } else {
                None
            };
            &&& number_value(decimal(n), limit) == read
            &&& number_value(seq!['+'] + decimal(n), limit) == read
            &&& number_value(seq!['-'] + decimal(n), limit) is None
            &&& number_value(Seq::empty(), limit) is None
            &&& number_value(seq!['+'], limit) is None
        }),
{
    a_number_reads_back(n);
    let text = decimal(n);
    assert('0' <= text[0] <= '9');
    assert((seq!['+'] + text).drop_first() =~= text);
    assert(seq!['+'].drop_first() =~= Seq::empty());
    let minus = seq!['-'] + text;
    assert(minus[0] == '-');
    lemma_digits_only(minus, 0);
}

proof fn lemma_digits_only(text: Seq<char>, i: int)
    requires
        0 <= i < text.len(),
        !('0' <= text[i] <= '9'),
    ensures
        digits_value(text) is None,
    decreases text.len(),
{
    if i < text.len() - 1 {
        assert(text.drop_last()[i] == text[i]);
        lemma_digits_only(text.drop_last(), i);
    }
}

/// A text with anything but digits in it, a plus in front aside, is no number.
pub proof fn a_number_is_digits(text: Seq<char>, limit: nat, i: int)
    requires
        0 <= i < text.len(),
        !('0' <= text[i] <= '9'),
        i > 0 || text[i] != '+',
    ensures
        number_value(text, limit) is None,
{
    if text[0] == '+' {
        assert(text.drop_first()[i - 1] == text[i]);
        lemma_digits_only(text.drop_first(), i - 1);
    } else {
        lemma_digits_only(text, i);
    }
}

/// Texts are ordered by the first character in which they differ, and a text
/// comes ahead of what it begins.
pub proof fn the_first_difference_decides(
    common: Seq<char>,
    x: char,
    y: char,
    a: Seq<char>,
    b: Seq<char>,
)
    requires
        x < y,
    ensures
        precedes(common + seq![x] + a, common + seq![y] + b),
        !precedes(common + seq![y] + b, common + seq![x] + a),
        precedes(common, common + seq![x] + a),
        !precedes(common + seq![x] + a, common),
        !precedes(common, common),
    decreases common.len(),
{
    let less = common + seq![x] + a;
    let more = common + seq![y] + b;
    if common.len() > 0 {
        let rest = common.drop_first();
        the_first_difference_decides(rest, x, y, a, b);
        assert(less.drop_first() =~= rest + seq![x] + a);
        assert(more.drop_first() =~= rest + seq![y] + b);
        assert(less[0] == common[0] && more[0] == common[0]);
    } else {
        assert(less[0] == x && more[0] == y);
    }
}

/// Taking a character off a text's end takes off every one that stands there,
/// and no other.
pub proof fn a_trailing_run_is_taken_off(s: Seq<char>, c: char)
    ensures
        without_trailing(s.push(c), c) == without_trailing(s, c),
        s.len() == 0 || s.last() != c ==> without_trailing(s, c) == s,
{
    assert(s.push(c).drop_last() =~= s);
}

/// Taking a prefix off takes it off as often as it stands there, and changes
/// nothing else.
pub proof fn a_repeated_prefix_is_taken_off(s: Seq<char>, prefix: Seq<char>)
    requires
        prefix.len() > 0,
    ensures
        without_prefixes(prefix + s, prefix) == without_prefixes(s, prefix),
        !prefix.is_prefix_of(s) ==> without_prefixes(s, prefix) == s,
{
    let whole = prefix + s;
    assert(whole.subrange(0, prefix.len() as int) =~= prefix);
    assert(whole.skip(prefix.len() as int) =~= s);
}

/// What stands behind optional and listed strings is their characters, one by
/// one and in order.
pub proof fn a_string_stands_for_its_characters(
    s: String,
    list: Seq<String>,
    both: Seq<(String, String)>,
    i: int,
)
    ensures
        opt(Some(s)) == Some(s@),
        opt(None) is None,
        change(Some(Some(s))) == Some(Some(s@)),
        change(Some(None)) == Some(None::<Seq<char>>),
        change(None) is None,
        trimmed_opt(Some(s@)) == Some(trimmed(s@)),
        trimmed_opt(None) is None,
        trimmed_change(Some(Some(s@))) == Some(Some(trimmed(s@))),
        trimmed_change(Some(None)) == Some(None::<Seq<char>>),
        trimmed_change(None) is None,
        texts(list).len() == list.len(),
        pairs(both).len() == both.len(),
        0 <= i < list.len() ==> texts(list)[i] == list[i]@,
        0 <= i < both.len() ==> pairs(both)[i] == (both[i].0@, both[i].1@),
{
}

/// A number below zero is written as a minus and its amount, and any other as
/// its amount.
pub proof fn a_signed_number_has_its_sign(n: nat)
    ensures
        signed_decimal(n as int) == decimal(n),
        n > 0 ==> signed_decimal(-(n as int)) == seq!['-'] + decimal(n),
{
}

} // verus!

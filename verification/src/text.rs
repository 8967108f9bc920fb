//! Text primitives over character sequences: splitting and joining, the line
//! structure of a text, trimming, comparison and lengths in bytes.
//!
//! Every function states its result over the characters of its arguments.
//! Two questions are put to the standard library, which answers them from
//! the Unicode tables: what the upper-case form of a text is, and whether a
//! character is white space.

use vstd::prelude::*;

verus! {

/// The character content of each string of a sequence.
pub open spec fn texts(v: Seq<String>) -> Seq<Seq<char>> {
    v.map_values(|s: String| s@)
}

/// The pieces of `s` between separators, where a separator is a character
/// equal to `a` or to `b`. There is always one piece more than there are
/// separators; adjacent separators delimit an empty piece.
pub open spec fn split(s: Seq<char>, a: char, b: char) -> Seq<Seq<char>>
    decreases s.len(),
{
    if s.len() == 0 {
        seq![Seq::<char>::empty()]
    } else {
        let head = split(s.drop_last(), a, b);
        let c = s.last();
        if c == a || c == b {
            head.push(Seq::<char>::empty())
        } else {
            head.drop_last().push(head.last().push(c))
        }
    }
}

/// The parts written one after another with `sep` between neighbours.
pub open spec fn join(parts: Seq<Seq<char>>, sep: Seq<char>) -> Seq<char>
    decreases parts.len(),
{
    if parts.len() == 0 {
        Seq::<char>::empty()
    } else if parts.len() == 1 {
        parts[0]
    } else {
        join(parts.drop_last(), sep) + sep + parts.last()
    }
}

/// Every split has at least one piece.
pub proof fn lemma_split_nonempty(s: Seq<char>, a: char, b: char)
    ensures
        split(s, a, b).len() >= 1,
    decreases s.len(),
{
    if s.len() > 0 {
        lemma_split_nonempty(s.drop_last(), a, b);
    }
}

/// Collects the characters of a string slice.
pub fn chars_of(s: &str) -> (v: Vec<char>)
    ensures
        v@ == s@,
{
    let mut v: Vec<char> = Vec::new();
    for c in it: s.chars()
        invariant
            it.seq() == s@,
            v@ == s@.take(it.index() as int),
    {
        v.push(c);
    }
    assert(s@.take(s@.len() as int) == s@);
    v
}

/// Splits a string at every character equal to `a` or to `b`.
pub fn split_on(s: &str, a: char, b: char) -> (pieces: Vec<String>)
    ensures
        texts(pieces@) == split(s@, a, b),
{
    let chars = chars_of(s);
    let n = chars.len();
    let mut pieces: Vec<String> = Vec::new();
    let mut start: usize = 0;
    let mut i: usize = 0;
    assert(s@.take(0) == Seq::<char>::empty());
    assert(s@.subrange(0, 0) == Seq::<char>::empty());
    assert(texts(pieces@) == Seq::<Seq<char>>::empty());
    while i < n
        invariant
            chars@ == s@,
            n == chars.len(),
            start <= i <= n,
            split(s@.take(i as int), a, b) == texts(pieces@).push(
                s@.subrange(start as int, i as int),
            ),
        decreases n - i,
    {
        let c = chars[i];
        let ghost before = texts(pieces@);
        let ghost current = s@.subrange(start as int, i as int);
        proof {
            assert(s@.take(i + 1).drop_last() == s@.take(i as int));
            assert(s@.take(i + 1).last() == c);
            assert(before.push(current).drop_last() == before);
            assert(before.push(current).last() == current);
        }
        if c == a || c == b {
            let piece = s.substring_char(start, i);
            pieces.push(piece.to_owned());
            start = i + 1;
            proof {
                assert(texts(pieces@) == before.push(current));
                assert(s@.subrange(start as int, i + 1) == Seq::<char>::empty());
            }
        } else {
            proof {
                assert(s@.subrange(start as int, i + 1) == current.push(c));
            }
        }
        i = i + 1;
    }
    let ghost before = texts(pieces@);
    let piece = s.substring_char(start, n);
    pieces.push(piece.to_owned());
    proof {
        assert(s@.take(n as int) == s@);
        assert(texts(pieces@) == before.push(s@.subrange(start as int, n as int)));
    }
    pieces
}

/// Concatenates the parts with `sep` between neighbours.
pub fn join_with(parts: &Vec<String>, sep: &str) -> (joined: String)
    ensures
        joined@ == join(texts(parts@), sep@),
{
    let mut joined = String::new();
    let mut i: usize = 0;
    while i < parts.len()
        invariant
            i <= parts.len(),
            joined@ == join(texts(parts@).take(i as int), sep@),
        decreases parts.len() - i,
    {
        proof {
            assert(texts(parts@).take(i + 1).drop_last() == texts(parts@).take(i as int));
            assert(texts(parts@).take(i + 1).last() == parts@[i as int]@);
        }
        if i > 0 {
            joined.append(sep);
        } else {
            assert(texts(parts@).take(1)[0] == parts@[0]@);
        }
        joined.append(parts[i].as_str());
        i = i + 1;
    }
    assert(texts(parts@).take(parts.len() as int) == texts(parts@));
    joined
}

/// The upper-case form of a string, as `str::to_uppercase` of the standard
/// library gives it.
pub uninterp spec fn uppercase_of(s: Seq<char>) -> Seq<char>;

/// Calls `str::to_uppercase`. The standard library documents the result as the
/// upper-case equivalent of the slice under the Unicode property `Uppercase`,
/// a function of the characters alone; the contract gives that result its name
/// and claims nothing else of it.
#[verifier::external_body]
pub(crate) fn to_uppercase(s: &str) -> (upper: String)
    ensures
        upper@ == uppercase_of(s@),
{
    s.to_uppercase()
}

/// A line without the carriage return that may stand before its line feed.
pub open spec fn strip_carriage_return(line: Seq<char>) -> Seq<char> {
    if line.len() > 0 && line.last() == '\r' {
        line.drop_last()
    } else {
        line
    }
}

/// The lines of a text. A line ends at a line feed, or at a carriage return
/// directly followed by one; neither belongs to the line. The last line needs
/// no line ending, and a text that ends in one has no empty line after it.
pub open spec fn lines_of(s: Seq<char>) -> Seq<Seq<char>> {
    let pieces = split(s, '\n', '\n');
    let ended = pieces.drop_last().map_values(|p: Seq<char>| strip_carriage_return(p));
    if pieces.last().len() == 0 {
        ended
    } else {
        ended.push(pieces.last())
    }
}

/// The number of lines of a text.
pub open spec fn line_count(s: Seq<char>) -> nat {
    lines_of(s).len()
}

/// Counts the lines of a text.
pub fn count_lines(s: &str) -> (n: usize)
    ensures
        n == line_count(s@),
{
    let len = s.unicode_len();
    let mut ended: usize = 0;
    let mut open = false;
    for c in it: s.chars()
        invariant
            it.seq() == s@,
            len == s@.len(),
            ended + (if open { 1int } else { 0int }) <= it.index(),
            ended + 1 == split(s@.take(it.index() as int), '\n', '\n').len(),
            open == (split(s@.take(it.index() as int), '\n', '\n').last().len() > 0),
    {
        proof {
            let i = it.index() as int;
            assert(s@.take(i + 1).drop_last() == s@.take(i));
            assert(s@.take(i + 1).last() == c);
            lemma_split_nonempty(s@.take(i), '\n', '\n');
        }
        if c == '\n' {
            ended = ended + 1;
            open = false;
        } else {
            open = true;
        }
    }
    assert(s@.take(s@.len() as int) == s@);
    if open {
        ended + 1
    } else {
        ended
    }
}

/// Removes the carriage return that may stand at the end of a line.
fn without_carriage_return(line: &str) -> (stripped: String)
    ensures
        stripped@ == strip_carriage_return(line@),
{
    let chars = chars_of(line);
    let n = chars.len();
    if n > 0 && chars[n - 1] == '\r' {
        let stripped = line.substring_char(0, n - 1);
        assert(stripped@ == line@.drop_last());
        stripped.to_owned()
    } else {
        line.to_owned()
    }
}

/// Splits a text into its lines.
pub fn split_lines(s: &str) -> (lines: Vec<String>)
    ensures
        texts(lines@) == lines_of(s@),
{
    let pieces = split_on(s, '\n', '\n');
    proof {
        lemma_split_nonempty(s@, '\n', '\n');
    }
    let ghost all = texts(pieces@);
    let ghost ended = all.drop_last().map_values(|p: Seq<char>| strip_carriage_return(p));
    let last = pieces.len() - 1;
    let mut lines: Vec<String> = Vec::new();
    let mut i: usize = 0;
    while i < last
        invariant
            i <= last,
            last == pieces.len() - 1,
            all == texts(pieces@),
            lines.len() == i,
            forall|k: int| 0 <= k < i ==> (#[trigger] lines@[k])@ == strip_carriage_return(all[k]),
        decreases last - i,
    {
        lines.push(without_carriage_return(pieces[i].as_str()));
        i = i + 1;
    }
    assert(texts(lines@) == ended);
    if pieces[last].as_str().unicode_len() > 0 {
        lines.push(pieces[last].clone());
        assert(texts(lines@) == ended.push(all.last()));
    }
    lines
}

/// The number of bytes that a character takes in UTF-8.
pub open spec fn utf8_width(c: char) -> nat {
    let code = c as u32;
    if code < 0x80 {
        1
    } else if code < 0x800 {
        2
    } else if code < 0x10000 {
        3
    } else {
        4
    }
}

/// The number of bytes that a text takes in UTF-8.
pub open spec fn byte_len(s: Seq<char>) -> nat
    decreases s.len(),
{
    if s.len() == 0 {
        0
    } else {
        utf8_width(s.first()) + byte_len(s.drop_first())
    }
}

/// The number of characters at the start of a text that together take no
/// more than `limit` bytes.
pub open spec fn fitting_chars(s: Seq<char>, limit: nat) -> nat
    decreases s.len(),
{
    if s.len() == 0 || utf8_width(s.first()) > limit {
        0
    } else {
        1 + fitting_chars(s.drop_first(), (limit - utf8_width(s.first())) as nat)
    }
}

/// The characters that fit are a prefix, it takes no more than `limit` bytes,
/// and it is the whole text exactly when the text takes no more than that.
pub proof fn lemma_fitting_chars(s: Seq<char>, limit: nat)
    ensures
        fitting_chars(s, limit) <= s.len(),
        byte_len(s.take(fitting_chars(s, limit) as int)) <= limit,
        fitting_chars(s, limit) == s.len() <==> byte_len(s) <= limit,
        fitting_chars(s, limit) < s.len() ==> byte_len(
            s.take(fitting_chars(s, limit) as int + 1),
        ) > limit,
    decreases s.len(),
{
    if s.len() == 0 || utf8_width(s.first()) > limit {
        assert(byte_len(s.take(0)) == 0);
        if s.len() > 0 {
            assert(s.take(1).first() == s.first());
            assert(byte_len(s.take(1).drop_first()) == 0);
        }
    } else {
        let rest = s.drop_first();
        let left = (limit - utf8_width(s.first())) as nat;
        lemma_fitting_chars(rest, left);
        let k = fitting_chars(rest, left) as int;
        assert(s.take(k + 1).first() == s.first());
        assert(s.take(k + 1).drop_first() == rest.take(k));
        if k < rest.len() {
            assert(s.take(k + 2).first() == s.first());
            assert(s.take(k + 2).drop_first() == rest.take(k + 1));
        }
    }
}

fn utf8_len(c: char) -> (width: usize)
    ensures
        width == utf8_width(c),
{
    let code = c as u32;
    if code < 0x80 {
        1
    } else if code < 0x800 {
        2
    } else if code < 0x10000 {
        3
    } else {
        4
    }
}

/// Counts the characters at the start of a text that together take no more
/// than `limit` bytes.
pub fn count_fitting(s: &str, limit: usize) -> (count: usize)
    ensures
        count == fitting_chars(s@, limit as nat),
{
    let chars = chars_of(s);
    let mut used: usize = 0;
    let mut count: usize = 0;
    assert(s@.skip(0) == s@);
    while count < chars.len() && utf8_len(chars[count]) <= limit - used
        invariant
            chars@ == s@,
            count <= chars.len(),
            used <= limit,
            fitting_chars(s@, limit as nat) == count + fitting_chars(
                s@.skip(count as int),
                (limit - used) as nat,
            ),
        decreases chars.len() - count,
    {
        assert(s@.skip(count as int).drop_first() == s@.skip(count + 1));
        used = used + utf8_len(chars[count]);
        count = count + 1;
    }
    count
}

/// The bytes counted here are those of the UTF-8 encoding of the text.
pub proof fn lemma_byte_len_is_encoded_len(s: Seq<char>)
    ensures
        byte_len(s) == vstd::utf8::encode_utf8(s).len(),
    decreases s.len(),
{
    if s.len() > 0 {
        vstd::utf8::char_is_scalar(s.first());
        lemma_byte_len_is_encoded_len(s.drop_first());
    }
}

/// The number of bytes that a text takes in UTF-8.
pub fn byte_length(s: &str) -> (bytes: usize)
    ensures
        bytes == byte_len(s@),
{
    proof {
        lemma_byte_len_is_encoded_len(s@);
    }
    s.as_bytes().len()
}

/// Whether a character is white space: whether it has the Unicode property
/// `White_Space`. These are the tab, the line feed, the vertical tab, the form
/// feed, the carriage return, the space, the next-line control, the
/// no-break space, the Ogham space mark, the spaces of fixed width from the
/// en quad to the hair space, the line and the paragraph separator, the
/// narrow no-break space, the medium mathematical space and the ideographic
/// space.
pub open spec fn is_white_space(c: char) -> bool {
    let code = c as u32;
    ||| 0x09 <= code <= 0x0D
    ||| code == 0x20
    ||| code == 0x85
    ||| code == 0xA0
    ||| code == 0x1680
    ||| 0x2000 <= code <= 0x200A
    ||| code == 0x2028
    ||| code == 0x2029
    ||| code == 0x202F
    ||| code == 0x205F
    ||| code == 0x3000
}

/// Calls `char::is_whitespace`, which the standard library documents as the
/// test for the Unicode property `White_Space`. The contract says which
/// characters have that property.
#[verifier::external_body]
fn is_whitespace(c: char) -> (white: bool)
    ensures
        white == is_white_space(c),
{
    c.is_whitespace()
}

/// A text without the white space at its start.
pub open spec fn trim_start(s: Seq<char>) -> Seq<char>
    decreases s.len(),
{
    if s.len() > 0 && is_white_space(s.first()) {
        trim_start(s.drop_first())
    } else {
        s
    }
}

/// A text without the white space at its end.
pub open spec fn trim_end(s: Seq<char>) -> Seq<char>
    decreases s.len(),
{
    if s.len() > 0 && is_white_space(s.last()) {
        trim_end(s.drop_last())
    } else {
        s
    }
}

/// A text without the white space at its start and at its end.
pub open spec fn trimmed(s: Seq<char>) -> Seq<char> {
    trim_end(trim_start(s))
}

/// What is left when the white space at the start is taken away is empty or
/// begins with something else.
pub proof fn lemma_trim_start_edge(s: Seq<char>)
    ensures
        trim_start(s).len() == 0 || !is_white_space(trim_start(s).first()),
    decreases s.len(),
{
    if s.len() > 0 && is_white_space(s.first()) {
        lemma_trim_start_edge(s.drop_first());
    }
}

/// What is left when the white space at the end is taken away is a prefix of
/// the text that is empty or ends with something else; it is not empty where
/// the text begins with something else than white space.
pub proof fn lemma_trim_end_edge(s: Seq<char>)
    ensures
        trim_end(s).is_prefix_of(s),
        trim_end(s).len() == 0 || !is_white_space(trim_end(s).last()),
        s.len() > 0 && !is_white_space(s.first()) ==> trim_end(s).len() > 0,
    decreases s.len(),
{
    if s.len() > 0 && is_white_space(s.last()) {
        lemma_trim_end_edge(s.drop_last());
    }
}

/// A trimmed text has no white space at its start or at its end, so trimming
/// it again changes nothing; and a text that begins with something else than
/// white space is not trimmed away.
pub proof fn lemma_trimmed(s: Seq<char>)
    ensures
        trimmed(trimmed(s)) == trimmed(s),
        trimmed(s).len() > 0 ==> !is_white_space(trimmed(s).first()) && !is_white_space(
            trimmed(s).last(),
        ),
        s.len() > 0 && !is_white_space(s.first()) ==> trimmed(s).len() > 0,
{
    let front = trim_start(s);
    let inner = trim_end(front);
    lemma_trim_start_edge(s);
    lemma_trim_end_edge(front);
    if inner.len() > 0 {
        assert(inner.first() == front.first());
    }
    assert(trim_start(inner) == inner);
    assert(trim_end(inner) == inner);
}

/// Removes the white space at the start and at the end of a text.
pub fn trim(s: &str) -> (inner: String)
    ensures
        inner@ == trimmed(s@),
{
    let chars = chars_of(s);
    let n = chars.len();
    let mut start: usize = 0;
    assert(s@.skip(0) == s@);
    while start < n && is_whitespace(chars[start])
        invariant
            chars@ == s@,
            n == chars.len(),
            start <= n,
            trim_start(s@) == trim_start(s@.skip(start as int)),
        decreases n - start,
    {
        assert(s@.skip(start as int).drop_first() == s@.skip(start + 1));
        start = start + 1;
    }
    let ghost rest = s@.skip(start as int);
    assert(trim_start(s@) == rest);
    let mut end: usize = n;
    assert(s@.subrange(start as int, n as int) == rest);
    while end > start && is_whitespace(chars[end - 1])
        invariant
            chars@ == s@,
            n == chars.len(),
            start <= end <= n,
            trim_end(rest) == trim_end(s@.subrange(start as int, end as int)),
        decreases end - start,
    {
        assert(s@.subrange(start as int, end as int).drop_last() == s@.subrange(
            start as int,
            end - 1,
        ));
        end = end - 1;
    }
    s.substring_char(start, end).to_owned()
}

/// The code of a character with the letters `A` to `Z` folded onto `a` to `z`.
pub open spec fn ascii_folded(c: char) -> u32 {
    let code = c as u32;
    if 65 <= code <= 90 {
        (code + 32) as u32
    } else {
        code
    }
}

/// Whether two texts are equal up to the case of their ASCII letters.
pub open spec fn eq_ignoring_ascii_case(a: Seq<char>, b: Seq<char>) -> bool {
    &&& a.len() == b.len()
    &&& forall|i: int| 0 <= i < a.len() ==> ascii_folded(a[i]) == ascii_folded(b[i])
}

fn fold_ascii(c: char) -> (code: u32)
    ensures
        code == ascii_folded(c),
{
    let code = c as u32;
    if 65 <= code && code <= 90 {
        code + 32
    } else {
        code
    }
}

/// Compares two texts without regard to the case of their ASCII letters.
pub fn eq_ignore_ascii_case(a: &str, b: &str) -> (equal: bool)
    ensures
        equal == eq_ignoring_ascii_case(a@, b@),
{
    let left = chars_of(a);
    let right = chars_of(b);
    if left.len() != right.len() {
        return false;
    }
    let mut i: usize = 0;
    while i < left.len()
        invariant
            left@ == a@,
            right@ == b@,
            left.len() == right.len(),
            i <= left.len(),
            forall|k: int| 0 <= k < i ==> ascii_folded(a@[k]) == ascii_folded(b@[k]),
        decreases left.len() - i,
    {
        if fold_ascii(left[i]) != fold_ascii(right[i]) {
            return false;
        }
        i = i + 1;
    }
    true
}

/// Whether `a` comes strictly before `b` in the order of strings: character
/// by character by code point, a proper prefix before its extensions.
pub open spec fn precedes(a: Seq<char>, b: Seq<char>) -> bool
    decreases a.len(),
{
    if b.len() == 0 {
        false
    } else if a.len() == 0 {
        true
    } else if a.first() != b.first() {
        (a.first() as u32) < (b.first() as u32)
    } else {
        precedes(a.drop_first(), b.drop_first())
    }
}

/// Of two texts at most one comes before the other.
pub proof fn lemma_precedes_asymmetric(a: Seq<char>, b: Seq<char>)
    requires
        precedes(a, b),
    ensures
        !precedes(b, a),
    decreases a.len(),
{
    if a.len() > 0 && b.len() > 0 && a.first() == b.first() {
        lemma_precedes_asymmetric(a.drop_first(), b.drop_first());
    }
}

/// What comes before a text comes before any other text too, unless that
/// other text itself comes before the first: no two texts are left unordered
/// against a third.
pub proof fn lemma_precedes_between(a: Seq<char>, b: Seq<char>, c: Seq<char>)
    requires
        precedes(a, c),
    ensures
        precedes(a, b) || precedes(b, c),
    decreases a.len(),
{
    if a.len() > 0 && b.len() > 0 {
        let (x, y, z) = (a.first(), b.first(), c.first());
        vstd::utf8::char_u32_cast(x, x as u32);
        vstd::utf8::char_u32_cast(y, y as u32);
        vstd::utf8::char_u32_cast(z, z as u32);
        if x == y && y == z {
            lemma_precedes_between(a.drop_first(), b.drop_first(), c.drop_first());
        }
    }
}

/// Decides whether `a` comes strictly before `b` in the order of strings.
pub fn comes_before(a: &str, b: &str) -> (before: bool)
    ensures
        before == precedes(a@, b@),
{
    let left = chars_of(a);
    let right = chars_of(b);
    let mut i: usize = 0;
    assert(a@.skip(0) == a@ && b@.skip(0) == b@);
    while i < left.len() && i < right.len()
        invariant
            left@ == a@,
            right@ == b@,
            i <= left.len(),
            i <= right.len(),
            precedes(a@, b@) == precedes(a@.skip(i as int), b@.skip(i as int)),
        decreases left.len() - i,
    {
        if left[i] != right[i] {
            return (left[i] as u32) < (right[i] as u32);
        }
        assert(a@.skip(i as int).drop_first() == a@.skip(i + 1));
        assert(b@.skip(i as int).drop_first() == b@.skip(i + 1));
        i = i + 1;
    }
    i < right.len()
}

} // verus!

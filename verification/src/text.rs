//! Text as sequences of characters: lines, fields, numerals and ordering.

use vstd::prelude::*;

verus! {

/// `String::push`: appends one character to the end of the string.
pub assume_specification[ String::push ](s: &mut String, c: char)
    ensures
        final(s)@ == old(s)@.push(c),
;

/// The character contents of a list of strings.
pub open spec fn texts(list: Seq<String>) -> Seq<Seq<char>> {
    list.map_values(|s: String| s@)
}

/// The text that bytes stand for in UTF-8, with what is not valid replaced.
pub uninterp spec fn utf8_lossy(bytes: Seq<u8>) -> Seq<char>;

/// The bytes were valid UTF-8 and the text is theirs, or they were not.
pub open spec fn decodes(text: Seq<char>, bytes: Seq<u8>) -> bool {
    vstd::utf8::valid_utf8(bytes) ==> text == vstd::utf8::decode_utf8(bytes)
}

/// `String::from_utf8_lossy`: the text that the bytes stand for in UTF-8. What
/// is not valid UTF-8 is replaced; what that gives depends on the bytes alone
/// and has a name here. Of valid UTF-8 it gives the text.
#[verifier::external_body]
pub(crate) fn from_utf8_lossy(bytes: &Vec<u8>) -> (text: String)
    ensures
        text@ == utf8_lossy(bytes@),
        decodes(text@, bytes@),
{
    String::from_utf8_lossy(bytes).into_owned()
}

// ---------------------------------------------------------------------------
// Characters
// ---------------------------------------------------------------------------

/// The Unicode `White_Space` property.
pub open spec fn is_space_spec(c: char) -> bool {
    ||| '\u{9}' <= c <= '\u{d}'
    ||| c == ' '
    ||| c == '\u{85}'
    ||| c == '\u{a0}'
    ||| c == '\u{1680}'
    ||| '\u{2000}' <= c <= '\u{200a}'
    ||| c == '\u{2028}'
    ||| c == '\u{2029}'
    ||| c == '\u{202f}'
    ||| c == '\u{205f}'
    ||| c == '\u{3000}'
}

/// Is this character white space?
#[verifier::when_used_as_spec(is_space_spec)]
pub fn is_space(c: char) -> (yes: bool)
    ensures
        yes == is_space_spec(c),
{
    ('\u{9}' <= c && c <= '\u{d}') || c == ' ' || c == '\u{85}' || c == '\u{a0}' || c == '\u{1680}'
        || ('\u{2000}' <= c && c <= '\u{200a}') || c == '\u{2028}' || c == '\u{2029}' || c
        == '\u{202f}' || c == '\u{205f}' || c == '\u{3000}'
}

/// The characters of a string.
pub fn chars(text: &str) -> (out: Vec<char>)
    ensures
        out@ == text@,
{
    let mut out: Vec<char> = Vec::new();
    for c in it: text.chars()
        invariant
            out@ == it.seq().take(it.index()),
            it.seq() == text@,
    {
        out.push(c);
    }
    proof {
        assert(text@.take(text@.len() as int) =~= text@);
    }
    out
}

/// The string made of these characters.
pub fn string(list: &Vec<char>) -> (out: String)
    ensures
        out@ == list@,
{
    let mut out = String::new();
    let mut i: usize = 0;
    while i < list.len()
        invariant
            i <= list.len(),
            out@ == list@.take(i as int),
        decreases list.len() - i,
    {
        out.push(list[i]);
        i += 1;
        proof {
            assert(list@.take(i as int) =~= list@.take(i - 1).push(list@[i - 1]));
        }
    }
    proof {
        assert(list@.take(list@.len() as int) =~= list@);
    }
    out
}


/// The character contents of a list of character vectors.
pub open spec fn rows(list: Seq<Vec<char>>) -> Seq<Seq<char>> {
    list.map_values(|r: Vec<char>| r@)
}

proof fn rows_push(list: Seq<Vec<char>>, row: Vec<char>)
    ensures
        rows(list.push(row)) == rows(list).push(row@),
{
    assert(rows(list.push(row)) =~= rows(list).push(row@));
}

/// `texts` of a list with one more string.
pub proof fn texts_push(list: Seq<String>, item: String)
    ensures
        texts(list.push(item)) == texts(list).push(item@),
{
    assert(texts(list.push(item)) =~= texts(list).push(item@));
}

/// The characters from `lo` up to, but not including, `hi`.
pub fn part(list: &Vec<char>, lo: usize, hi: usize) -> (out: Vec<char>)
    requires
        lo <= hi <= list.len(),
    ensures
        out@ == list@.subrange(lo as int, hi as int),
{
    let mut out: Vec<char> = Vec::new();
    let mut i: usize = lo;
    while i < hi
        invariant
            lo <= i <= hi <= list.len(),
            out@ == list@.subrange(lo as int, i as int),
        decreases hi - i,
    {
        out.push(list[i]);
        i += 1;
        proof {
            assert(list@.subrange(lo as int, i as int) =~= list@.subrange(lo as int, i - 1).push(
                list@[i - 1],
            ));
        }
    }
    out
}

/// Do two character vectors hold the same text?
pub fn same(a: &Vec<char>, b: &Vec<char>) -> (yes: bool)
    ensures
        yes == (a@ == b@),
{
    if a.len() != b.len() {
        return false;
    }
    let mut i: usize = 0;
    while i < a.len()
        invariant
            i <= a.len() == b.len(),
            forall|k: int| 0 <= k < i ==> a@[k] == b@[k],
        decreases a.len() - i,
    {
        if a[i] != b[i] {
            return false;
        }
        i += 1;
    }
    proof {
        assert(a@ =~= b@);
    }
    true
}

/// Do two strings hold the same text?
pub fn same_text(a: &str, b: &str) -> (yes: bool)
    ensures
        yes == (a@ == b@),
{
    same(&chars(a), &chars(b))
}

// ---------------------------------------------------------------------------
// Searching
// ---------------------------------------------------------------------------

/// Position of the first `c`, or the length of the text where there is none.
pub open spec fn find_spec(s: Seq<char>, c: char) -> int
    decreases s.len(),
{
    if s.len() == 0 || s[0] == c {
        0
    } else {
        1 + find_spec(s.drop_first(), c)
    }
}

/// Position of the last `c`, or -1 where there is none.
pub open spec fn rfind_spec(s: Seq<char>, c: char) -> int
    decreases s.len(),
{
    if s.len() == 0 || s.last() == c {
        s.len() - 1
    } else {
        rfind_spec(s.drop_last(), c)
    }
}

/// Position of the first `a` that `b` follows, or the length of the text
/// where there is none.
pub open spec fn find_pair_spec(s: Seq<char>, a: char, b: char) -> int
    decreases s.len(),
{
    if s.len() == 0 || (s.len() >= 2 && s[0] == a && s[1] == b) {
        0
    } else {
        1 + find_pair_spec(s.drop_first(), a, b)
    }
}

/// Position of the last `a` that `b` follows, or -1 where there is none.
pub open spec fn rfind_pair_spec(s: Seq<char>, a: char, b: char) -> int
    decreases s.len(),
{
    if s.len() < 2 {
        -1
    } else if s[s.len() - 2] == a && s[s.len() - 1] == b {
        s.len() - 2
    } else {
        rfind_pair_spec(s.drop_last(), a, b)
    }
}

/// What `find_spec` finds: every character before it differs from `c`.
pub proof fn find_bounds(s: Seq<char>, c: char)
    ensures
        0 <= find_spec(s, c) <= s.len(),
        forall|k: int| 0 <= k < find_spec(s, c) ==> s[k] != c,
        find_spec(s, c) < s.len() ==> s[find_spec(s, c)] == c,
    decreases s.len(),
{
    if s.len() > 0 && s[0] != c {
        find_bounds(s.drop_first(), c);
        assert forall|k: int| 0 <= k < find_spec(s, c) implies s[k] != c by {
            if k > 0 {
                assert(s.drop_first()[k - 1] == s[k]);
            }
        }
    }
}

/// The first `c` is where the text before it has none.
pub proof fn find_is(s: Seq<char>, c: char, i: int)
    requires
        0 <= i <= s.len(),
        forall|k: int| 0 <= k < i ==> s[k] != c,
        i < s.len() ==> s[i] == c,
    ensures
        find_spec(s, c) == i,
{
    find_bounds(s, c);
    let f = find_spec(s, c);
    if f < i {
        assert(s[f] != c);
    }
    if i < f {
        assert(s[i] != c);
    }
}

/// What `rfind_spec` finds: every character after it differs from `c`.
pub proof fn rfind_bounds(s: Seq<char>, c: char)
    ensures
        -1 <= rfind_spec(s, c) < s.len(),
        forall|k: int| rfind_spec(s, c) < k < s.len() ==> s[k] != c,
        rfind_spec(s, c) >= 0 ==> s[rfind_spec(s, c)] == c,
    decreases s.len(),
{
    if s.len() > 0 && s.last() != c {
        let t = s.drop_last();
        rfind_bounds(t, c);
        assert forall|k: int| rfind_spec(s, c) < k < s.len() implies s[k] != c by {
            if k < t.len() {
                assert(t[k] == s[k]);
            }
        }
    }
}

/// The last `c` is where the text after it has none.
pub proof fn rfind_is(s: Seq<char>, c: char, i: int)
    requires
        -1 <= i < s.len(),
        forall|k: int| i < k < s.len() ==> s[k] != c,
        i >= 0 ==> s[i] == c,
    ensures
        rfind_spec(s, c) == i,
{
    rfind_bounds(s, c);
    let f = rfind_spec(s, c);
    if i < f {
        assert(s[f] != c);
    }
    if f < i {
        assert(s[i] != c);
    }
}

/// What `find_pair_spec` finds: the pair does not occur before it.
pub proof fn find_pair_bounds(s: Seq<char>, a: char, b: char)
    ensures
        0 <= find_pair_spec(s, a, b) <= s.len(),
        find_pair_spec(s, a, b) < s.len() ==> {
            &&& find_pair_spec(s, a, b) + 1 < s.len()
            &&& s[find_pair_spec(s, a, b)] == a
            &&& s[find_pair_spec(s, a, b) + 1] == b
        },
        forall|k: int|
            0 <= k < find_pair_spec(s, a, b) && k + 1 < s.len() ==> !(#[trigger] s[k] == a && s[k
                + 1] == b),
    decreases s.len(),
{
    if s.len() > 0 && !(s.len() >= 2 && s[0] == a && s[1] == b) {
        let t = s.drop_first();
        find_pair_bounds(t, a, b);
        assert forall|k: int|
            0 <= k < find_pair_spec(s, a, b) && k + 1 < s.len() implies !(#[trigger] s[k] == a
            && s[k + 1] == b) by {
            if k > 0 {
                assert(t[k - 1] == s[k] && t[k] == s[k + 1]);
            }
        }
    }
}

/// What `rfind_pair_spec` finds: the pair does not occur after it.
pub proof fn rfind_pair_bounds(s: Seq<char>, a: char, b: char)
    ensures
        -1 <= rfind_pair_spec(s, a, b),
        rfind_pair_spec(s, a, b) + 1 < s.len() || s.len() == 0,
        rfind_pair_spec(s, a, b) >= 0 ==> s[rfind_pair_spec(s, a, b)] == a && s[rfind_pair_spec(
            s,
            a,
            b,
        ) + 1] == b,
        forall|k: int|
            rfind_pair_spec(s, a, b) < k && k + 1 < s.len() && k >= 0 ==> !(#[trigger] s[k] == a
                && s[k + 1] == b),
    decreases s.len(),
{
    if s.len() >= 2 && !(s[s.len() - 2] == a && s[s.len() - 1] == b) {
        rfind_pair_bounds(s.drop_last(), a, b);
        let t = s.drop_last();
        assert forall|k: int|
            rfind_pair_spec(s, a, b) < k && k + 1 < s.len() && k >= 0 implies !(#[trigger] s[k] == a
            && s[k + 1] == b) by {
            if k + 1 < t.len() {
                assert(t[k] == s[k] && t[k + 1] == s[k + 1]);
            }
        }
    }
}

/// Position of the first `c` at or after `from`, or the length of the text.
pub fn find_from(s: &Vec<char>, from: usize, c: char) -> (at: usize)
    requires
        from <= s.len(),
    ensures
        from <= at <= s.len(),
        at == from + find_spec(s@.skip(from as int), c),
{
    let mut i: usize = from;
    while i < s.len() && s[i] != c
        invariant
            from <= i <= s.len(),
            forall|k: int| from <= k < i ==> s@[k] != c,
        decreases s.len() - i,
    {
        i += 1;
    }
    proof {
        find_is(s@.skip(from as int), c, i - from);
    }
    i
}

/// Position of the last `c`.
pub fn rfind(s: &Vec<char>, c: char) -> (at: Option<usize>)
    ensures
        match at {
            Some(i) => i < s.len() && i == rfind_spec(s@, c),
            None => rfind_spec(s@, c) == -1,
        },
{
    let mut i: usize = s.len();
    while i > 0
        invariant
            i <= s.len(),
            forall|k: int| i <= k < s.len() ==> s@[k] != c,
        decreases i,
    {
        if s[i - 1] == c {
            proof {
                rfind_is(s@, c, i - 1);
            }
            return Some(i - 1);
        }
        i -= 1;
    }
    proof {
        rfind_is(s@, c, -1);
    }
    None
}

/// Position of the first `a` that `b` follows, or the length of the text.
pub fn find_pair(s: &Vec<char>, a: char, b: char) -> (at: usize)
    ensures
        at <= s.len(),
        at == find_pair_spec(s@, a, b),
{
    let mut i: usize = 0;
    proof {
        assert(s@.skip(0) =~= s@);
    }
    while i < s.len()
        invariant
            i <= s.len(),
            find_pair_spec(s@, a, b) == i + find_pair_spec(s@.skip(i as int), a, b),
        decreases s.len() - i,
    {
        if s.len() - i >= 2 && s[i] == a && s[i + 1] == b {
            return i;
        }
        proof {
            assert(s@.skip(i as int).drop_first() =~= s@.skip(i + 1));
        }
        i += 1;
    }
    i
}

/// Position of the last `a` that `b` follows.
pub fn rfind_pair(s: &Vec<char>, a: char, b: char) -> (at: Option<usize>)
    ensures
        match at {
            Some(i) => i + 1 < s.len() && i == rfind_pair_spec(s@, a, b),
            None => rfind_pair_spec(s@, a, b) == -1,
        },
{
    let mut n: usize = s.len();
    proof {
        assert(s@.take(n as int) =~= s@);
    }
    while n >= 2
        invariant
            n <= s.len(),
            rfind_pair_spec(s@, a, b) == rfind_pair_spec(s@.take(n as int), a, b),
        decreases n,
    {
        if s[n - 2] == a && s[n - 1] == b {
            return Some(n - 2);
        }
        proof {
            assert(s@.take(n as int).drop_last() =~= s@.take(n - 1));
        }
        n -= 1;
    }
    None
}

/// Does `s` start with `prefix`?
pub open spec fn starts_with_spec(s: Seq<char>, prefix: Seq<char>) -> bool {
    prefix.len() <= s.len() && s.take(prefix.len() as int) == prefix
}

/// Does `s` end with `suffix`?
pub open spec fn ends_with_spec(s: Seq<char>, suffix: Seq<char>) -> bool {
    suffix.len() <= s.len() && s.skip(s.len() - suffix.len()) == suffix
}

/// Does `s` start with `prefix`?
pub fn starts_with(s: &Vec<char>, prefix: &Vec<char>) -> (yes: bool)
    ensures
        yes == starts_with_spec(s@, prefix@),
{
    if s.len() < prefix.len() {
        return false;
    }
    let head = part(s, 0, prefix.len());
    proof {
        assert(head@ =~= s@.take(prefix@.len() as int));
    }
    same(&head, prefix)
}

/// Does `s` end with `suffix`?
pub fn ends_with(s: &Vec<char>, suffix: &Vec<char>) -> (yes: bool)
    ensures
        yes == ends_with_spec(s@, suffix@),
{
    if s.len() < suffix.len() {
        return false;
    }
    let tail = part(s, s.len() - suffix.len(), s.len());
    proof {
        assert(tail@ =~= s@.skip(s@.len() - suffix@.len()));
    }
    same(&tail, suffix)
}

// ---------------------------------------------------------------------------
// Lines and fields
// ---------------------------------------------------------------------------

/// A line without the carriage return of a `\r\n` ending.
pub open spec fn without_cr(line: Seq<char>) -> Seq<char> {
    if line.len() > 0 && line.last() == '\r' {
        line.drop_last()
    } else {
        line
    }
}

/// The lines of a text. A line ends in `\n` or `\r\n`; the ending of the last
/// one is optional.
pub open spec fn lines_spec(s: Seq<char>) -> Seq<Seq<char>>
    decreases s.len(),
{
    let n = find_spec(s, '\n');
    if s.len() == 0 {
        seq![]
    } else if n >= s.len() || n < 0 {
        seq![s]
    } else {
        seq![without_cr(s.take(n))] + lines_spec(s.skip(n + 1))
    }
}

/// The lines of a text.
pub fn lines(s: &Vec<char>) -> (out: Vec<Vec<char>>)
    ensures
        rows(out@) == lines_spec(s@),
{
    let mut out: Vec<Vec<char>> = Vec::new();
    let mut start: usize = 0;
    proof {
        assert(s@.skip(0) =~= s@);
        assert(rows(out@) =~= Seq::<Seq<char>>::empty());
        assert(rows(out@) + lines_spec(s@.skip(0)) =~= lines_spec(s@));
    }
    while start < s.len()
        invariant
            start <= s.len(),
            rows(out@) + lines_spec(s@.skip(start as int)) == lines_spec(s@),
        decreases s.len() - start,
    {
        let end = find_from(s, start, '\n');
        let ghost rest = s@.skip(start as int);
        let ghost before = out@;
        if end == s.len() {
            let line = part(s, start, end);
            proof {
                rows_push(before, line);
                assert(line@ =~= rest);
                assert(lines_spec(rest) == seq![rest]);
                assert(rows(before).push(rest) =~= rows(before) + seq![rest]);
                assert(s@.skip(s@.len() as int) =~= Seq::<char>::empty());
                assert(rows(before.push(line)) + lines_spec(s@.skip(s@.len() as int)) =~= rows(
                    before,
                ) + seq![rest]);
            }
            out.push(line);
            start = end;
        } else {
            let hi: usize = if end > start && s[end - 1] == '\r' {
                end - 1
            } else {
                end
            };
            let line = part(s, start, hi);
            proof {
                rows_push(before, line);
                let n = end - start;
                assert(rest.take(n) =~= s@.subrange(start as int, end as int));
                assert(line@ =~= without_cr(rest.take(n)));
                assert(rest.skip(n + 1) =~= s@.skip(end + 1));
                assert(rows(before).push(line@) + lines_spec(s@.skip(end + 1)) =~= rows(before) + (
                seq![line@] + lines_spec(s@.skip(end + 1))));
            }
            out.push(line);
            start = end + 1;
        }
    }
    proof {
        assert(s@.skip(start as int) =~= Seq::<char>::empty());
        assert(rows(out@) + Seq::<Seq<char>>::empty() =~= rows(out@));
    }
    out
}

/// The lines of a text that is put together at the end of a line are those of
/// its parts.
pub proof fn lines_of_parts(a: Seq<char>, b: Seq<char>)
    requires
        a.len() == 0 || a.last() == '\n',
    ensures
        lines_spec(a + b) == lines_spec(a) + lines_spec(b),
    decreases a.len(),
{
    if a.len() == 0 {
        assert(a + b =~= b);
        assert(lines_spec(a) + lines_spec(b) =~= lines_spec(b));
    } else {
        find_bounds(a, '\n');
        let n = find_spec(a, '\n');
        assert(n < a.len()) by {
            assert(a[a.len() - 1] == '\n');
        }
        find_is(a + b, '\n', n);
        let rest = a.skip(n + 1);
        lines_of_parts(rest, b);
        assert((a + b).take(n) =~= a.take(n));
        assert((a + b).skip(n + 1) =~= rest + b);
        assert(lines_spec(a + b) =~= lines_spec(a) + lines_spec(b));
    }
}

/// A text without a line break is one line, or none where it is empty.
pub proof fn one_line_alone(s: Seq<char>)
    requires
        forall|i: int| 0 <= i < s.len() ==> #[trigger] s[i] != '\n',
    ensures
        lines_spec(s) == if s.len() == 0 {
            Seq::<Seq<char>>::empty()
        } else {
            seq![s]
        },
{
    find_is(s, '\n', s.len() as int);
}

/// Number of leading characters that are not white space.
pub open spec fn word_len(s: Seq<char>) -> int
    decreases s.len(),
{
    if s.len() == 0 || is_space(s[0]) {
        0
    } else {
        1 + word_len(s.drop_first())
    }
}

/// What `word_len` counts.
pub proof fn word_len_bounds(s: Seq<char>)
    ensures
        0 <= word_len(s) <= s.len(),
        s.len() > 0 && !is_space(s[0]) ==> word_len(s) > 0,
        forall|k: int| 0 <= k < word_len(s) ==> !is_space(s[k]),
        word_len(s) < s.len() ==> is_space(s[word_len(s)]),
    decreases s.len(),
{
    if s.len() > 0 && !is_space(s[0]) {
        let t = s.drop_first();
        word_len_bounds(t);
        assert forall|k: int| 0 <= k < word_len(s) implies !is_space(s[k]) by {
            if k > 0 {
                assert(t[k - 1] == s[k]);
            }
        }
    }
}

/// The maximal runs of characters that are not white space.
pub open spec fn fields_spec(s: Seq<char>) -> Seq<Seq<char>>
    decreases s.len(),
{
    let n = word_len(s);
    if s.len() == 0 {
        seq![]
    } else if n <= 0 || n > s.len() {
        fields_spec(s.drop_first())
    } else {
        seq![s.take(n)] + fields_spec(s.skip(n))
    }
}

/// The white-space separated fields of a text.
pub fn fields(s: &Vec<char>) -> (out: Vec<Vec<char>>)
    ensures
        rows(out@) == fields_spec(s@),
{
    let mut out: Vec<Vec<char>> = Vec::new();
    let mut i: usize = 0;
    proof {
        assert(s@.skip(0) =~= s@);
        assert(rows(out@) + fields_spec(s@) =~= fields_spec(s@));
    }
    while i < s.len()
        invariant
            i <= s.len(),
            rows(out@) + fields_spec(s@.skip(i as int)) == fields_spec(s@),
        decreases s.len() - i,
    {
        let ghost rest = s@.skip(i as int);
        proof {
            word_len_bounds(rest);
        }
        if is_space(s[i]) {
            proof {
                assert(rest.drop_first() =~= s@.skip(i + 1));
            }
            i += 1;
        } else {
            let mut j: usize = i;
            while j < s.len() && !is_space(s[j])
                invariant
                    i <= j <= s.len(),
                    forall|k: int| i <= k < j ==> !is_space(s@[k]),
                decreases s.len() - j,
            {
                j += 1;
            }
            let ghost before = out@;
            let word = part(s, i, j);
            proof {
                let n = word_len(rest);
                if n < j - i {
                    assert(is_space(rest[n]));
                    assert(rest[n] == s@[i + n]);
                }
                if n > j - i {
                    assert(!is_space(rest[j - i]));
                    assert(rest[j - i] == s@[j as int]);
                }
                assert(word@ =~= rest.take(n));
                assert(rest.skip(n) =~= s@.skip(j as int));
                rows_push(before, word);
                assert(rows(before).push(word@) + fields_spec(s@.skip(j as int)) =~= rows(before)
                    + (seq![word@] + fields_spec(s@.skip(j as int))));
            }
            out.push(word);
            i = j;
        }
    }
    proof {
        assert(s@.skip(i as int) =~= Seq::<char>::empty());
        assert(rows(out@) + Seq::<Seq<char>>::empty() =~= rows(out@));
    }
    out
}

/// The text without its leading white space.
pub open spec fn trim_start_spec(s: Seq<char>) -> Seq<char>
    decreases s.len(),
{
    if s.len() > 0 && is_space(s[0]) {
        trim_start_spec(s.drop_first())
    } else {
        s
    }
}

/// The text without its trailing white space.
pub open spec fn trim_end_spec(s: Seq<char>) -> Seq<char>
    decreases s.len(),
{
    if s.len() > 0 && is_space(s.last()) {
        trim_end_spec(s.drop_last())
    } else {
        s
    }
}

/// The text without the white space around it.
pub open spec fn trim_spec(s: Seq<char>) -> Seq<char> {
    trim_end_spec(trim_start_spec(s))
}

/// The text without the white space around it.
pub fn trim(s: &Vec<char>) -> (out: Vec<char>)
    ensures
        out@ == trim_spec(s@),
{
    let mut lo: usize = 0;
    proof {
        assert(s@.skip(0) =~= s@);
    }
    while lo < s.len() && is_space(s[lo])
        invariant
            lo <= s.len(),
            trim_start_spec(s@) == trim_start_spec(s@.skip(lo as int)),
        decreases s.len() - lo,
    {
        proof {
            assert(s@.skip(lo as int).drop_first() =~= s@.skip(lo + 1));
        }
        lo += 1;
    }
    let mut hi: usize = s.len();
    proof {
        assert(s@.subrange(lo as int, hi as int) =~= s@.skip(lo as int));
        if lo < s.len() {
            assert(s@.skip(lo as int)[0] == s@[lo as int]);
        }
        assert(trim_start_spec(s@) == s@.subrange(lo as int, hi as int));
    }
    while hi > lo && is_space(s[hi - 1])
        invariant
            lo <= hi <= s.len(),
            trim_spec(s@) == trim_end_spec(s@.subrange(lo as int, hi as int)),
        decreases hi,
    {
        proof {
            assert(s@.subrange(lo as int, hi as int).drop_last() =~= s@.subrange(
                lo as int,
                hi - 1,
            ));
        }
        hi -= 1;
    }
    part(s, lo, hi)
}


// ---------------------------------------------------------------------------
// Numerals
// ---------------------------------------------------------------------------

/// The value of a digit, or -1 for a character that is none.
pub open spec fn digit_value(c: char, hex: bool) -> int {
    if '0' <= c <= '9' {
        c as int - '0' as int
    } else if hex && 'a' <= c <= 'f' {
        c as int - 'a' as int + 10
    } else if hex && 'A' <= c <= 'F' {
        c as int - 'A' as int + 10
    } else {
        -1
    }
}

/// The number that a run of digits writes in base 10, or in base 16.
pub open spec fn digits_value(s: Seq<char>, hex: bool) -> Option<int>
    decreases s.len(),
{
    if s.len() == 0 {
        Some(0int)
    } else if digit_value(s.last(), hex) < 0 {
        None
    } else {
        match digits_value(s.drop_last(), hex) {
            Some(v) => Some((if hex { 16 * v } else { 10 * v }) + digit_value(s.last(), hex)),
            None => None,
        }
    }
}

/// The number that a text writes: an optional `+`, then at least one digit
/// and nothing else.
pub open spec fn numeral(s: Seq<char>, hex: bool) -> Option<int> {
    let digits = if s.len() > 0 && s[0] == '+' { s.drop_first() } else { s };
    if digits.len() == 0 {
        None
    } else {
        digits_value(digits, hex)
    }
}

/// The number that a text writes, where it is at most `max`.
pub open spec fn numeral_upto(s: Seq<char>, hex: bool, max: int) -> Option<int> {
    match numeral(s, hex) {
        Some(n) => if n <= max { Some(n) } else { None },
        None => None,
    }
}

/// A run of digits never writes less than its beginning does.
proof fn digits_grow(s: Seq<char>, hex: bool, k: int)
    requires
        0 <= k <= s.len(),
    ensures
        digits_value(s, hex) is Some ==> {
            &&& digits_value(s.take(k), hex) is Some
            &&& 0 <= digits_value(s.take(k), hex)->0 <= digits_value(s, hex)->0
        },
    decreases s.len(),
{
    if k == s.len() {
        assert(s.take(k) =~= s);
        if s.len() > 0 {
            digits_grow(s.drop_last(), hex, s.len() - 1);
            assert(s.drop_last().take(s.len() - 1) =~= s.drop_last());
        }
    } else {
        digits_grow(s.drop_last(), hex, k);
        assert(s.drop_last().take(k) =~= s.take(k));
    }
}

/// A number is never negative: no sign but `+` is read.
pub proof fn numeral_not_negative(s: Seq<char>, hex: bool)
    ensures
        numeral(s, hex) is Some ==> numeral(s, hex)->0 >= 0,
{
    let digits = if s.len() > 0 && s[0] == '+' { s.drop_first() } else { s };
    digits_grow(digits, hex, 0);
}

/// The number that a text writes in base 10 (or 16), where it is at most
/// `max`.
pub fn parse_number(s: &Vec<char>, hex: bool, max: u64) -> (n: Option<u64>)
    requires
        max <= 0xffff_ffff,
    ensures
        match n {
            Some(v) => numeral_upto(s@, hex, max as int) == Some(v as int),
            None => numeral_upto(s@, hex, max as int) is None,
        },
{
    let start: usize = if s.len() > 0 && s[0] == '+' {
        1
    } else {
        0
    };
    let ghost digits = s@.skip(start as int);
    proof {
        if start == 1 {
            assert(digits =~= s@.drop_first());
        } else {
            assert(digits =~= s@);
        }
    }
    if start == s.len() {
        return None;
    }
    let mut value: u64 = 0;
    let mut i: usize = start;
    proof {
        assert(digits.take(0) =~= Seq::<char>::empty());
    }
    while i < s.len()
        invariant
            start <= i <= s.len(),
            digits == s@.skip(start as int),
            value <= max <= 0xffff_ffff,
            digits_value(digits.take(i - start), hex) == Some(value as int),
            digits.len() > 0,
            numeral(s@, hex) == digits_value(digits, hex),
        decreases s.len() - i,
    {
        let c = s[i];
        let ghost seen = digits.take(i - start + 1);
        proof {
            assert(seen.drop_last() =~= digits.take(i - start));
            assert(seen.last() == c);
            digits_grow(digits, hex, i - start + 1);
        }
        let d: u64 = if '0' <= c && c <= '9' {
            c as u64 - '0' as u64
        } else if hex && 'a' <= c && c <= 'f' {
            c as u64 - 'a' as u64 + 10
        } else if hex && 'A' <= c && c <= 'F' {
            c as u64 - 'A' as u64 + 10
        } else {
            return None;
        };
        value = if hex {
            16 * value + d
        } else {
            10 * value + d
        };
        if value > max {
            return None;
        }
        i += 1;
    }
    proof {
        assert(digits.take(s.len() - start) =~= digits);
    }
    Some(value)
}

/// The decimal digit of a number below ten.
pub open spec fn digit(n: int) -> char {
    (n + '0' as int) as char
}

/// A number in decimal, without leading zeros.
pub open spec fn decimal_spec(n: nat) -> Seq<char>
    decreases n,
{
    if n < 10 {
        seq![digit(n as int)]
    } else {
        decimal_spec(n / 10).push(digit((n % 10) as int))
    }
}

fn digit_char(n: u64) -> (c: char)
    requires
        n < 10,
    ensures
        c == digit(n as int),
{
    (n as u8 + 48u8) as char
}

/// Appends a number in decimal.
pub fn push_decimal(out: &mut String, n: u64)
    ensures
        final(out)@ == old(out)@ + decimal_spec(n as nat),
    decreases n,
{
    if n >= 10 {
        push_decimal(out, n / 10);
    }
    let ghost before = out@;
    let ghost start = old(out)@;
    out.push(digit_char(n % 10));
    proof {
        if n >= 10 {
            assert(before.push(digit(n as int % 10)) =~= start + decimal_spec(n as nat));
        } else {
            assert(start.push(digit(n as int)) =~= start + decimal_spec(n as nat));
        }
    }
}

/// A number in decimal.
pub fn decimal(n: u64) -> (out: String)
    ensures
        out@ == decimal_spec(n as nat),
{
    let mut out = String::new();
    push_decimal(&mut out, n);
    proof {
        assert(Seq::<char>::empty() + decimal_spec(n as nat) =~= decimal_spec(n as nat));
    }
    out
}

proof fn decimal_digits(n: nat)
    ensures
        decimal_spec(n).len() > 0,
        forall|k: int| 0 <= k < decimal_spec(n).len() ==> '0' <= #[trigger] decimal_spec(n)[k] <= '9',
        digits_value(decimal_spec(n), false) == Some(n as int),
    decreases n,
{
    let s = decimal_spec(n);
    if n < 10 {
        assert(s.drop_last() =~= Seq::<char>::empty());
        assert(digits_value(s.drop_last(), false) == Some(0int));
    } else {
        decimal_digits(n / 10);
        assert(s.drop_last() =~= decimal_spec(n / 10));
        assert forall|k: int| 0 <= k < s.len() implies '0' <= #[trigger] s[k] <= '9' by {
            if k < s.len() - 1 {
                assert(s[k] == decimal_spec(n / 10)[k]);
            }
        }
    }
}

/// Reading a number back from its decimal form gives the number, and the form
/// holds nothing but digits.
pub proof fn decimal_reads_back(n: nat)
    ensures
        numeral(decimal_spec(n), false) == Some(n as int),
        forall|k: int| 0 <= k < decimal_spec(n).len() ==> '0' <= #[trigger] decimal_spec(n)[k] <= '9',
{
    decimal_digits(n);
    assert(decimal_spec(n)[0] != '+');
}

} // verus!

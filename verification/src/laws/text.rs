//! What reading a text gives.

use vstd::prelude::*;

verus! {

/// A text starts with another where it is that one with something behind it.
pub proof fn a_prefix_stands_in_front(s: Seq<char>, p: Seq<char>)
    ensures
        crate::text::starts_with_spec(s, p) <==> exists|rest: Seq<char>| s == #[trigger] (p + rest),
{
    if crate::text::starts_with_spec(s, p) {
        assert(s =~= p + s.skip(p.len() as int));
    }
    if exists|rest: Seq<char>| s == #[trigger] (p + rest) {
        let rest = choose|rest: Seq<char>| s == #[trigger] (p + rest);
        assert(s.take(p.len() as int) =~= p);
    }
}

/// A text ends with another where it is that one with something in front.
pub proof fn a_suffix_stands_behind(s: Seq<char>, p: Seq<char>)
    ensures
        crate::text::ends_with_spec(s, p) <==> exists|front: Seq<char>| s == #[trigger] (front + p),
{
    if crate::text::ends_with_spec(s, p) {
        assert(s =~= s.take(s.len() - p.len()) + p);
    }
    if exists|front: Seq<char>| s == #[trigger] (front + p) {
        let front = choose|front: Seq<char>| s == #[trigger] (front + p);
        assert(s.skip(s.len() - p.len()) =~= p);
    }
}

/// A line that is ended is read without its ending, whether that is `\n` or
/// `\r\n`, and what follows is read on its own.
pub proof fn an_ended_line_is_read_without_its_ending(line: Seq<char>, rest: Seq<char>)
    requires
        forall|i: int| 0 <= i < line.len() ==> #[trigger] line[i] != '\n',
    ensures
        (line.len() > 0 ==> line.last() != '\r') ==> crate::text::lines_spec(
            line + seq!['\n'] + rest,
        ) == seq![line] + crate::text::lines_spec(rest),
        crate::text::lines_spec(line + seq!['\r', '\n'] + rest) == seq![line]
            + crate::text::lines_spec(rest),
{
    let a = line + seq!['\n'] + rest;
    let n = line.len() as int;
    crate::text::find_is(a, '\n', n);
    assert(a.take(n) =~= line);
    assert(a.skip(n + 1) =~= rest);
    let b = line + seq!['\r', '\n'] + rest;
    assert forall|k: int| 0 <= k < n + 1 implies b[k] != '\n' by {
        if k < n {
            assert(b[k] == line[k]);
        }
    }
    crate::text::find_is(b, '\n', n + 1);
    assert(b.take(n + 1).drop_last() =~= line);
    assert(b.skip(n + 2) =~= rest);
}

/// A last line needs no ending, and no text has no lines.
pub proof fn a_last_line_needs_no_ending(line: Seq<char>)
    requires
        forall|i: int| 0 <= i < line.len() ==> #[trigger] line[i] != '\n',
        line.len() > 0,
    ensures
        crate::text::lines_spec(line) == seq![line],
        crate::text::lines_spec(Seq::empty()).len() == 0,
{
    crate::text::one_line_alone(line);
}

proof fn word_len_is(word: Seq<char>, rest: Seq<char>)
    requires
        forall|k: int| 0 <= k < word.len() ==> !crate::text::is_space(#[trigger] word[k]),
        rest.len() > 0 ==> crate::text::is_space(rest[0]),
    ensures
        crate::text::word_len(word + rest) == word.len(),
    decreases word.len(),
{
    if word.len() == 0 {
        assert(word + rest =~= rest);
    } else {
        let shorter = word.drop_first();
        assert((word + rest).drop_first() =~= shorter + rest);
        assert(!crate::text::is_space(word[0]));
        assert forall|k: int| 0 <= k < shorter.len() implies !crate::text::is_space(
            #[trigger] shorter[k],
        ) by {
            assert(shorter[k] == word[k + 1]);
        }
        word_len_is(shorter, rest);
    }
}

/// Fields are what stands between white space: a word with white space behind
/// it is one field, a word alone too, and white space in front makes none.
pub proof fn fields_stand_between_white_space(word: Seq<char>, space: char, rest: Seq<char>)
    requires
        word.len() > 0,
        forall|k: int| 0 <= k < word.len() ==> !crate::text::is_space(#[trigger] word[k]),
        crate::text::is_space(space),
    ensures
        crate::text::fields_spec(word + seq![space] + rest) == seq![word]
            + crate::text::fields_spec(rest),
        crate::text::fields_spec(word) == seq![word],
        crate::text::fields_spec(seq![space] + rest) == crate::text::fields_spec(rest),
        crate::text::fields_spec(Seq::empty()).len() == 0,
{
    let tail = seq![space] + rest;
    assert(tail.drop_first() =~= rest);
    assert(word + seq![space] + rest =~= word + tail);
    word_len_is(word, tail);
    assert((word + tail).take(word.len() as int) =~= word);
    assert((word + tail).skip(word.len() as int) =~= tail);
    word_len_is(word, seq![]);
    assert(word + Seq::<char>::empty() =~= word);
    assert(word.take(word.len() as int) =~= word);
    assert(word.skip(word.len() as int) =~= Seq::<char>::empty());
    assert(!crate::text::is_space(word[0]));
    assert((word + tail)[0] == word[0]);
    assert(crate::text::fields_spec(Seq::empty()) =~= Seq::<Seq<char>>::empty());
    assert(seq![word] + Seq::<Seq<char>>::empty() =~= seq![word]);
    reveal_with_fuel(crate::text::fields_spec, 3);
}

proof fn trim_start_drops(a: Seq<char>, s: Seq<char>)
    requires
        forall|k: int| 0 <= k < a.len() ==> crate::text::is_space(#[trigger] a[k]),
        s.len() > 0 ==> !crate::text::is_space(s[0]),
    ensures
        crate::text::trim_start_spec(a + s) == s,
    decreases a.len(),
{
    if a.len() == 0 {
        assert(a + s =~= s);
    } else {
        assert(crate::text::is_space(a[0]));
        assert((a + s).drop_first() =~= a.drop_first() + s);
        assert forall|k: int| 0 <= k < a.drop_first().len() implies crate::text::is_space(
            #[trigger] a.drop_first()[k],
        ) by {
            assert(a.drop_first()[k] == a[k + 1]);
        }
        trim_start_drops(a.drop_first(), s);
    }
}

proof fn trim_end_drops(s: Seq<char>, b: Seq<char>)
    requires
        forall|k: int| 0 <= k < b.len() ==> crate::text::is_space(#[trigger] b[k]),
        s.len() > 0 ==> !crate::text::is_space(s.last()),
    ensures
        crate::text::trim_end_spec(s + b) == s,
    decreases b.len(),
{
    if b.len() == 0 {
        assert(s + b =~= s);
    } else {
        assert(crate::text::is_space(b[b.len() - 1]));
        assert((s + b).drop_last() =~= s + b.drop_last());
        trim_end_drops(s, b.drop_last());
    }
}

/// Trimming takes the white space at both ends, all of it and nothing else.
pub proof fn trimming_takes_the_white_space_around(a: Seq<char>, s: Seq<char>, b: Seq<char>)
    requires
        forall|k: int| 0 <= k < a.len() ==> crate::text::is_space(#[trigger] a[k]),
        forall|k: int| 0 <= k < b.len() ==> crate::text::is_space(#[trigger] b[k]),
        s.len() > 0 ==> !crate::text::is_space(s[0]) && !crate::text::is_space(s.last()),
    ensures
        crate::text::trim_spec(a + s + b) == s,
{
    if s.len() > 0 {
        assert(a + s + b =~= a + (s + b));
        trim_start_drops(a, s + b);
        trim_end_drops(s, b);
    } else {
        let all = a + s + b;
        assert forall|k: int| 0 <= k < all.len() implies crate::text::is_space(
            #[trigger] all[k],
        ) by {
            if k < a.len() {
                assert(all[k] == a[k]);
            } else {
                assert(all[k] == b[k - a.len()]);
            }
        }
        trim_start_drops(all, seq![]);
        assert(all + Seq::<char>::empty() =~= all);
        assert(s =~= Seq::<char>::empty());
    }
}

proof fn digits_have_a_value(s: Seq<char>)
    ensures
        crate::text::digits_value(s, false) is Some <==> forall|i: int|
            0 <= i < s.len() ==> '0' <= #[trigger] s[i] <= '9',
    decreases s.len(),
{
    if s.len() > 0 {
        digits_have_a_value(s.drop_last());
        if crate::text::digits_value(s, false) is Some {
            assert forall|i: int| 0 <= i < s.len() implies '0' <= #[trigger] s[i] <= '9' by {
                if i < s.len() - 1 {
                    assert(s.drop_last()[i] == s[i]);
                }
            }
        }
        if forall|i: int| 0 <= i < s.len() ==> '0' <= #[trigger] s[i] <= '9' {
            assert(s[s.len() - 1] == s.last());
            assert forall|i: int| 0 <= i < s.drop_last().len() implies '0'
                <= #[trigger] s.drop_last()[i] <= '9' by {
                assert(s.drop_last()[i] == s[i]);
            }
        }
    }
}

/// A text is a number where it is digits, at least one of them, behind a `+`
/// that may be left out; anything else in it makes it none.
pub proof fn a_number_is_made_of_digits(s: Seq<char>)
    ensures
        crate::text::numeral(s, false) is Some <==> {
            let from: int = if s.len() > 0 && s[0] == '+' { 1 } else { 0 };
            s.len() > from && forall|i: int| from <= i < s.len() ==> '0' <= #[trigger] s[i] <= '9'
        },
{
    if s.len() > 0 && s[0] == '+' {
        let d = s.drop_first();
        digits_have_a_value(d);
        if forall|i: int| 1 <= i < s.len() ==> '0' <= #[trigger] s[i] <= '9' {
            assert forall|i: int| 0 <= i < d.len() implies '0' <= #[trigger] d[i] <= '9' by {
                assert(d[i] == s[i + 1]);
            }
        }
        if forall|i: int| 0 <= i < d.len() ==> '0' <= #[trigger] d[i] <= '9' {
            assert forall|i: int| 1 <= i < s.len() implies '0' <= #[trigger] s[i] <= '9' by {
                assert(s[i] == d[i - 1]);
            }
        }
    } else {
        digits_have_a_value(s);
    }
}

/// What a number is: a single digit is its own, one more digit behind a number
/// makes it ten times as large and that digit larger, and a `+` in front
/// changes nothing.
pub proof fn a_digit_more_is_ten_times_as_much(s: Seq<char>, c: char)
    requires
        '0' <= c <= '9',
    ensures
        crate::text::numeral(seq![c], false) == Some(c as int - '0' as int),
        crate::text::numeral(s, false) is Some ==> crate::text::numeral(s.push(c), false) == Some(
            10 * crate::text::numeral(s, false)->0 + (c as int - '0' as int),
        ),
        crate::text::numeral(s, false) is Some && s[0] != '+' ==> crate::text::numeral(
            seq!['+'] + s,
            false,
        ) == crate::text::numeral(s, false),
{
    reveal_with_fuel(crate::text::digits_value, 2);
    assert(seq![c].drop_last() =~= Seq::<char>::empty());
    if crate::text::numeral(s, false) is Some {
        let t = s.push(c);
        if s[0] == '+' {
            assert(t.drop_first() =~= s.drop_first().push(c));
            assert(s.drop_first().push(c).drop_last() =~= s.drop_first());
        } else {
            assert(t.drop_last() =~= s);
            assert((seq!['+'] + s).drop_first() =~= s);
        }
    }
}

/// What a hexadecimal number is: one more digit behind it makes it sixteen
/// times as large and that digit larger; `a` to `f` stand for 10 to 15 in
/// either case.
pub proof fn a_hex_digit_more_is_sixteen_times_as_much(s: Seq<char>, c: char, v: int)
    requires
        ('0' <= c <= '9' && v == c as int - '0' as int) || ('a' <= c <= 'f' && v == c as int
            - 'a' as int + 10) || ('A' <= c <= 'F' && v == c as int - 'A' as int + 10),
    ensures
        crate::text::numeral(seq![c], true) == Some(v),
        crate::text::numeral(s, true) is Some ==> crate::text::numeral(s.push(c), true) == Some(
            16 * crate::text::numeral(s, true)->0 + v,
        ),
{
    reveal_with_fuel(crate::text::digits_value, 2);
    assert(seq![c].drop_last() =~= Seq::<char>::empty());
    if crate::text::numeral(s, true) is Some {
        let t = s.push(c);
        if s[0] == '+' {
            assert(t.drop_first() =~= s.drop_first().push(c));
            assert(s.drop_first().push(c).drop_last() =~= s.drop_first());
        } else {
            assert(t.drop_last() =~= s);
        }
    }
}

/// A number counts up to a bound, and not beyond it.
pub proof fn a_bound_cuts_off_what_is_larger(s: Seq<char>, hex: bool, max: int)
    ensures
        crate::text::numeral_upto(s, hex, max) is Some <==> crate::text::numeral(s, hex) is Some
            && crate::text::numeral(s, hex)->0 <= max,
        crate::text::numeral_upto(s, hex, max) is Some ==> crate::text::numeral_upto(s, hex, max)
            == crate::text::numeral(s, hex),
{
}

/// A number is written in digits, without a zero in front of others, so that
/// different numbers are written differently.
pub proof fn a_decimal_has_no_leading_zero(n: nat)
    ensures
        crate::text::decimal_spec(n).len() > 0,
        forall|i: int|
            0 <= i < crate::text::decimal_spec(n).len() ==> '0'
                <= #[trigger] crate::text::decimal_spec(n)[i] <= '9',
        crate::text::decimal_spec(n)[0] == '0' ==> n == 0,
        crate::text::numeral(crate::text::decimal_spec(n), false) == Some(n as int),
    decreases n,
{
    crate::text::decimal_reads_back(n);
    if n >= 10 {
        a_decimal_has_no_leading_zero(n / 10);
        assert(crate::text::decimal_spec(n)[0] == crate::text::decimal_spec(n / 10)[0]);
    }
}

/// The texts of a list are those of its strings, one by one.
pub proof fn texts_are_those_of_the_strings(list: Seq<String>)
    ensures
        crate::text::texts(list).len() == list.len(),
        forall|i: int| 0 <= i < list.len() ==> #[trigger] crate::text::texts(list)[i] == list[i]@,
{
}

/// Bytes that are UTF-8 are read as the text they encode.
pub proof fn bytes_are_read_as_their_text(text: Seq<char>, bytes: Seq<u8>)
    requires
        crate::text::decodes(text, bytes),
        vstd::utf8::valid_utf8(bytes),
    ensures
        text == vstd::utf8::decode_utf8(bytes),
{
}

} // verus!

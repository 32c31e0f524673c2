//! Which signal an argument stands for, and how a signal is shown.

use vstd::prelude::*;

verus! {

// ---------------------------------------------------------------------------
// Reading
// ---------------------------------------------------------------------------

/// White space, and nothing else.
pub open spec fn is_blank(s: Seq<char>) -> bool {
    forall|k: int| 0 <= k < s.len() ==> crate::text::is_space(#[trigger] s[k])
}

/// Dashes, and nothing else.
pub open spec fn is_dashes(s: Seq<char>) -> bool {
    forall|k: int| 0 <= k < s.len() ==> #[trigger] s[k] == '-'
}

/// A word that neither begins with a dash nor has white space at its ends.
pub open spec fn is_bare(s: Seq<char>) -> bool {
    s.len() > 0 && s[0] != '-' && !crate::text::is_space(s[0]) && !crate::text::is_space(s.last())
}

proof fn dashes_go(d: Seq<char>, w: Seq<char>)
    requires
        is_dashes(d),
        w.len() > 0 ==> w[0] != '-',
    ensures
        crate::signal::without_dashes(d + w) == w,
    decreases d.len(),
{
    if d.len() == 0 {
        assert(d + w =~= w);
    } else {
        assert(d[0] == '-');
        assert((d + w).drop_first() =~= d.drop_first() + w);
        assert forall|k: int| 0 <= k < d.drop_first().len() implies #[trigger] d.drop_first()[k]
            == '-' by {
            assert(d[k + 1] == '-');
        }
        dashes_go(d.drop_first(), w);
    }
}

proof fn only_the_word_is_left(a: Seq<char>, d: Seq<char>, w: Seq<char>, b: Seq<char>)
    requires
        is_blank(a),
        is_blank(b),
        is_dashes(d),
        is_bare(w),
    ensures
        crate::signal::without_dashes(crate::text::trim_spec(a + d + w + b)) == w,
{
    let middle = d + w;
    assert(!crate::text::is_space('-'));
    if d.len() > 0 {
        assert(middle[0] == d[0]);
        assert(d[0] == '-');
    } else {
        assert(middle[0] == w[0]);
    }
    assert(middle.last() == w.last());
    assert(a + d + w + b =~= a + middle + b);
    crate::laws::text::trimming_takes_the_white_space_around(a, middle, b);
    dashes_go(d, w);
}

/// Leading dashes and white space around an argument do not count.
pub proof fn dashes_and_white_space_do_not_count(
    n: Seq<i32>,
    a: Seq<char>,
    d: Seq<char>,
    w: Seq<char>,
    b: Seq<char>,
)
    requires
        is_blank(a),
        is_blank(b),
        is_dashes(d),
        is_bare(w),
    ensures
        crate::signal::signal_read(n, a + d + w + b) == crate::signal::signal_read(n, w),
{
    only_the_word_is_left(a, d, w, b);
    only_the_word_is_left(seq![], seq![], w, seq![]);
    assert(Seq::<char>::empty() + Seq::<char>::empty() + w + Seq::<char>::empty() =~= w);
}

/// A number is the signal with this number from 1 to 64, and an error that
/// names it beyond.
pub proof fn a_number_is_its_signal(
    n: Seq<i32>,
    a: Seq<char>,
    d: Seq<char>,
    digits: Seq<char>,
    b: Seq<char>,
    v: int,
)
    requires
        is_blank(a),
        is_blank(b),
        is_dashes(d),
        digits.len() > 0,
        forall|k: int| 0 <= k < digits.len() ==> '0' <= #[trigger] digits[k] <= '9',
        crate::text::numeral(digits, false) == Some(v),
        v <= i32::MAX,
    ensures
        1 <= v <= 64 ==> crate::signal::parse_spec(n, a + d + digits + b) == Ok::<i32, Seq<char>>(
            v as i32,
        ),
        !(1 <= v <= 64) ==> crate::signal::parse_spec(n, a + d + digits + b) == Err::<
            i32,
            Seq<char>,
        >(
            "signal number "@ + crate::text::decimal_spec(v as nat) + " is out of range (1-64)"@,
        ),
{
    assert('0' <= digits[0] <= '9');
    assert('0' <= digits[digits.len() - 1] <= '9');
    only_the_word_is_left(a, d, digits, b);
}

/// Anything that is no number is a signal only where it is a name of the
/// vocabulary, with or without `SIG` in front and in any case, and it is the
/// signal of that name. Otherwise the error quotes the argument.
pub proof fn only_names_are_signals(n: Seq<i32>, w: Seq<char>, i: int)
    requires
        is_bare(w),
        crate::text::numeral(w, false) is None,
    ensures
        match crate::signal::parse_spec(n, w) {
            Ok(sig) => exists|k: int| #[trigger] names_row(w, k) && sig == n[crate::signal::names()[k].1],
            Err(e) => !names_row(w, i) && e == "unknown signal "@ + crate::signal::debug_quoted(w)
                + " (try TERM, HUP, KILL, or a number)"@,
        },
{
    reveal_strlit("SIG");
    only_the_word_is_left(seq![], seq![], w, seq![]);
    assert(Seq::<char>::empty() + Seq::<char>::empty() + w + Seq::<char>::empty() =~= w);
    let big = crate::signal::upper(w);
    let name = crate::signal::without_sig(big);
    crate::signal::place_in_table(crate::signal::names(), name);
    crate::laws::text::a_prefix_stands_in_front(big, "SIG"@);
    if crate::signal::place(name) is Some {
        let k = choose|k: int|
            0 <= k < crate::signal::names().len() && #[trigger] crate::signal::names()[k].0 == name
                && crate::signal::place_from(crate::signal::names(), name) == Some(
                crate::signal::names()[k].1,
            );
        if crate::text::starts_with_spec(big, "SIG"@) {
            assert(big =~= "SIG"@ + name);
        }
        assert(names_row(w, k));
    } else if names_row(w, i) {
        let row = crate::signal::names()[i].0;
        crate::signal::place_of_name(i);
        crate::signal::names_are_plain_and_differ(i, i);
        if big == "SIG"@ + row {
            assert(big.take(3) =~= "SIG"@);
            assert(big.skip(3) =~= row);
        }
    }
}

/// The word is the name in this row of the vocabulary, in any case, with or
/// without `SIG` in front.
pub open spec fn names_row(w: Seq<char>, k: int) -> bool {
    &&& 0 <= k < crate::signal::names().len()
    &&& crate::signal::upper(w) == crate::signal::names()[k].0 || crate::signal::upper(w) == "SIG"@
        + crate::signal::names()[k].0
}

/// In upper case a text is as long as before, its letters `a` to `z` are those
/// 32 places earlier, and every other character is what it was.
pub proof fn upper_case_changes_letters_only(s: Seq<char>, i: int)
    requires
        0 <= i < s.len(),
    ensures
        crate::signal::upper(s).len() == s.len(),
        'a' <= s[i] <= 'z' ==> crate::signal::upper(s)[i] as int == s[i] as int - 32,
        !('a' <= s[i] <= 'z') ==> crate::signal::upper(s)[i] == s[i],
{
}

/// Three names are other names of the signal in the row before them; apart from
/// these every name has a signal of its own, in the order of the rows.
pub proof fn three_names_are_aliases(i: int, j: int)
    requires
        0 <= i < j < crate::signal::names().len(),
    ensures
        crate::signal::names().len() == 32,
        crate::signal::names()[5].0 == "ABRT"@ && crate::signal::names()[6].0 == "IOT"@,
        crate::signal::names()[16].0 == "CHLD"@ && crate::signal::names()[17].0 == "CLD"@,
        crate::signal::names()[29].0 == "IO"@ && crate::signal::names()[30].0 == "POLL"@,
        crate::signal::names()[i].1 == crate::signal::names()[j].1 <==> j == i + 1 && (i == 5 || i
            == 16 || i == 29),
        crate::signal::names()[i].1 <= crate::signal::names()[j].1,
        crate::signal::names()[0].1 == 0,
        crate::signal::names()[31].1 == 28,
{
}

/// Which signal each name stands for, by the place of its number.
#[verifier::spinoff_prover]
pub proof fn each_name_stands_for_its_signal()
    ensures
        crate::signal::place("HUP"@) == Some(0int),
        crate::signal::place("INT"@) == Some(1int),
        crate::signal::place("QUIT"@) == Some(2int),
        crate::signal::place("ILL"@) == Some(3int),
        crate::signal::place("TRAP"@) == Some(4int),
        crate::signal::place("ABRT"@) == Some(5int),
        crate::signal::place("IOT"@) == Some(5int),
        crate::signal::place("BUS"@) == Some(6int),
        crate::signal::place("FPE"@) == Some(7int),
        crate::signal::place("KILL"@) == Some(8int),
        crate::signal::place("USR1"@) == Some(9int),
        crate::signal::place("SEGV"@) == Some(10int),
        crate::signal::place("USR2"@) == Some(11int),
        crate::signal::place("PIPE"@) == Some(12int),
        crate::signal::place("ALRM"@) == Some(13int),
        crate::signal::place("TERM"@) == Some(14int),
        crate::signal::place("CHLD"@) == Some(15int),
        crate::signal::place("CLD"@) == Some(15int),
        crate::signal::place("CONT"@) == Some(16int),
        crate::signal::place("STOP"@) == Some(17int),
        crate::signal::place("TSTP"@) == Some(18int),
        crate::signal::place("TTIN"@) == Some(19int),
        crate::signal::place("TTOU"@) == Some(20int),
        crate::signal::place("URG"@) == Some(21int),
        crate::signal::place("XCPU"@) == Some(22int),
        crate::signal::place("XFSZ"@) == Some(23int),
        crate::signal::place("VTALRM"@) == Some(24int),
        crate::signal::place("PROF"@) == Some(25int),
        crate::signal::place("WINCH"@) == Some(26int),
        crate::signal::place("IO"@) == Some(27int),
        crate::signal::place("POLL"@) == Some(27int),
        crate::signal::place("SYS"@) == Some(28int),
{
    crate::signal::place_of_name(0);
    crate::signal::place_of_name(1);
    crate::signal::place_of_name(2);
    crate::signal::place_of_name(3);
    crate::signal::place_of_name(4);
    crate::signal::place_of_name(5);
    crate::signal::place_of_name(6);
    crate::signal::place_of_name(7);
    crate::signal::place_of_name(8);
    crate::signal::place_of_name(9);
    crate::signal::place_of_name(10);
    crate::signal::place_of_name(11);
    crate::signal::place_of_name(12);
    crate::signal::place_of_name(13);
    crate::signal::place_of_name(14);
    crate::signal::place_of_name(15);
    crate::signal::place_of_name(16);
    crate::signal::place_of_name(17);
    crate::signal::place_of_name(18);
    crate::signal::place_of_name(19);
    crate::signal::place_of_name(20);
    crate::signal::place_of_name(21);
    crate::signal::place_of_name(22);
    crate::signal::place_of_name(23);
    crate::signal::place_of_name(24);
    crate::signal::place_of_name(25);
    crate::signal::place_of_name(26);
    crate::signal::place_of_name(27);
    crate::signal::place_of_name(28);
    crate::signal::place_of_name(29);
    crate::signal::place_of_name(30);
    crate::signal::place_of_name(31);
}

// ---------------------------------------------------------------------------
// Showing
// ---------------------------------------------------------------------------

/// A signal that has a name is shown as `SIG` and the first of its names; any
/// other as `signal` and its number.
pub proof fn a_signal_is_shown_by_its_first_name(n: Seq<i32>, sig: i32, k: int)
    ensures
        0 <= k < crate::signal::names().len() && n[crate::signal::names()[k].1] == sig && (forall|
            i: int,
        | 0 <= i < k ==> n[(#[trigger] crate::signal::names()[i]).1] != sig)
            ==> crate::signal::display_spec(n, sig) == "SIG"@ + crate::signal::names()[k].0,
        (forall|i: int|
            0 <= i < crate::signal::names().len() ==> n[(#[trigger] crate::signal::names()[i]).1]
                != sig) ==> crate::signal::display_spec(n, sig) == "signal "@
            + crate::signal::signed(sig as int),
{
    let rows = crate::signal::names();
    if 0 <= k < rows.len() && n[rows[k].1] == sig && (forall|i: int|
        0 <= i < k ==> n[(#[trigger] rows[i]).1] != sig) {
        crate::signal::first_with_number(rows, n, sig, k);
    }
    if forall|i: int| 0 <= i < rows.len() ==> n[(#[trigger] rows[i]).1] != sig {
        crate::signal::name_in_table(rows, n, sig);
    }
}

/// A number is shown in decimal, with a `-` in front where it is negative.
pub proof fn a_negative_number_is_shown_with_its_sign(v: int)
    ensures
        v >= 0 ==> crate::signal::signed(v) == crate::text::decimal_spec(v as nat),
        v < 0 ==> crate::signal::signed(v) == "-"@ + crate::text::decimal_spec((-v) as nat),
        crate::signal::unnamed(v as i32) == "signal "@ + crate::signal::signed(v as i32 as int),
{
}

/// A result is its value, or the text of its error.
pub proof fn a_result_is_its_value_or_its_error(v: i32, e: String)
    ensures
        crate::signal::outcome(Ok::<i32, String>(v)) == Ok::<i32, Seq<char>>(v),
        crate::signal::outcome(Err::<i32, String>(e)) == Err::<i32, Seq<char>>(e@),
{
}

} // verus!

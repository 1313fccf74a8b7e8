//! Characters and character sequences: white space, trimming, decimal digits.

use vstd::prelude::*;
use vstd::string::*;

verus! {

/// Whether `c` is white space: one of the code points U+0009 to U+000D,
/// U+0020, U+0085, U+00A0, U+1680, U+2000 to U+200A, U+2028, U+2029, U+202F,
/// U+205F and U+3000.
pub open spec fn is_space(c: char) -> bool {
    let u = c as u32;
    ||| 0x09 <= u <= 0x0D
    ||| u == 0x20
    ||| u == 0x85
    ||| u == 0xA0
    ||| u == 0x1680
    ||| 0x2000 <= u <= 0x200A
    ||| u == 0x2028
    ||| u == 0x2029
    ||| u == 0x202F
    ||| u == 0x205F
    ||| u == 0x3000
}

/// `s` without its leading white space.
pub open spec fn trim_start(s: Seq<char>) -> Seq<char>
    decreases s.len(),
{
    if s.len() > 0 && is_space(s.first()) {
        trim_start(s.drop_first())
    } else {
        s
    }
}

/// `s` without its trailing white space.
pub open spec fn trim_end(s: Seq<char>) -> Seq<char>
    decreases s.len(),
{
    if s.len() > 0 && is_space(s.last()) {
        trim_end(s.drop_last())
    } else {
        s
    }
}

/// `s` without its leading and trailing white space.
pub open spec fn trim(s: Seq<char>) -> Seq<char> {
    trim_end(trim_start(s))
}

/// Whether `c` is one of the ten decimal digits `0` to `9`.
pub open spec fn is_digit(c: char) -> bool {
    0x30 <= c as u32 <= 0x39
}

/// The number that the decimal digit `c` stands for.
pub open spec fn digit_value(c: char) -> int
    recommends
        is_digit(c),
{
    c as u32 - 0x30
}

/// The decimal digit that stands for `d`.
pub open spec fn digit_char(d: nat) -> char
    recommends
        d < 10,
{
    if d == 0 {
        '0'
    } else if d == 1 {
        '1'
    } else if d == 2 {
        '2'
    } else if d == 3 {
        '3'
    } else if d == 4 {
        '4'
    } else if d == 5 {
        '5'
    } else if d == 6 {
        '6'
    } else if d == 7 {
        '7'
    } else if d == 8 {
        '8'
    } else {
        '9'
    }
}

/// `n` written in decimal, without leading zeros.
pub open spec fn decimal(n: nat) -> Seq<char>
    decreases n,
{
    if n < 10 {
        seq![digit_char(n)]
    } else {
        decimal(n / 10).push(digit_char(n % 10))
    }
}

/// Decides [`is_space`].
pub fn char_is_space(c: char) -> (b: bool)
    ensures
        b == is_space(c),
{
    let u: u32 = c as u32;
    (0x09 <= u && u <= 0x0D) || u == 0x20 || u == 0x85 || u == 0xA0 || u == 0x1680 || (0x2000 <= u
        && u <= 0x200A) || u == 0x2028 || u == 0x2029 || u == 0x202F || u == 0x205F || u == 0x3000
}

/// The characters of `s`, in order.
pub fn chars_of(s: &str) -> (v: Vec<char>)
    ensures
        v@ == s@,
{
    let mut v: Vec<char> = Vec::new();
    for c in it: s.chars()
        invariant
            it.seq() == s@,
            v@ == s@.take(it.index()),
    {
        v.push(c);
    }
    v
}

/// Trims the part of `chars` between `from` and `to`: the bounds of what is
/// left of it once the white space at both ends is gone.
pub fn trim_bounds(chars: &Vec<char>, from: usize, to: usize) -> (bounds: (usize, usize))
    requires
        from <= to <= chars.len(),
    ensures
        from <= bounds.0 <= bounds.1 <= to,
        chars@.subrange(bounds.0 as int, bounds.1 as int) == trim(
            chars@.subrange(from as int, to as int),
        ),
{
    let mut a: usize = from;
    while a < to && char_is_space(chars[a])
        invariant
            from <= a <= to <= chars.len(),
            trim_start(chars@.subrange(from as int, to as int)) == trim_start(
                chars@.subrange(a as int, to as int),
            ),
        decreases to - a,
    {
        assert(chars@.subrange(a as int, to as int).drop_first() =~= chars@.subrange(
            a + 1,
            to as int,
        ));
        a += 1;
    }
    let mut b: usize = to;
    while a < b && char_is_space(chars[b - 1])
        invariant
            a <= b <= to <= chars.len(),
            trim_end(chars@.subrange(a as int, to as int)) == trim_end(
                chars@.subrange(a as int, b as int),
            ),
        decreases b - a,
    {
        assert(chars@.subrange(a as int, b as int).drop_last() =~= chars@.subrange(
            a as int,
            b - 1,
        ));
        b -= 1;
    }
    (a, b)
}

/// The one-character string of the decimal digit for `d`.
fn digit_str(d: usize) -> (s: &'static str)
    requires
        d < 10,
    ensures
        s@ == seq![digit_char(d as nat)],
{
    proof {
        reveal_strlit("0");
        reveal_strlit("1");
        reveal_strlit("2");
        reveal_strlit("3");
        reveal_strlit("4");
        reveal_strlit("5");
        reveal_strlit("6");
        reveal_strlit("7");
        reveal_strlit("8");
        reveal_strlit("9");
    }
    let s = if d == 0 {
        "0"
    } else if d == 1 {
        "1"
    } else if d == 2 {
        "2"
    } else if d == 3 {
        "3"
    } else if d == 4 {
        "4"
    } else if d == 5 {
        "5"
    } else if d == 6 {
        "6"
    } else if d == 7 {
        "7"
    } else if d == 8 {
        "8"
    } else {
        "9"
    };
    assert(s@ =~= seq![digit_char(d as nat)]);
    s
}

/// Writes `n` in decimal.
pub fn decimal_string(n: usize) -> (s: String)
    ensures
        s@ == decimal(n as nat),
    decreases n,
{
    let last = digit_str(n % 10);
    if n < 10 {
        String::from_str(last)
    } else {
        let mut s = decimal_string(n / 10);
        s.append(last);
        assert(s@ =~= decimal(n as nat));
        s
    }
}

/// Whether `s` holds white space only.
pub open spec fn all_space(s: Seq<char>) -> bool {
    forall|i: int| 0 <= i < s.len() ==> is_space(#[trigger] s[i])
}

/// White space in front of a text is trimmed with that at its start.
proof fn lemma_trim_start_skips(padding: Seq<char>, s: Seq<char>)
    requires
        all_space(padding),
    ensures
        trim_start(padding + s) == trim_start(s),
    decreases padding.len(),
{
    if padding.len() == 0 {
        assert(padding + s =~= s);
    } else {
        assert(is_space(padding[0]));
        assert((padding + s).drop_first() =~= padding.drop_first() + s);
        assert forall|i: int| 0 <= i < padding.drop_first().len() implies is_space(
            #[trigger] padding.drop_first()[i],
        ) by {
            assert(is_space(padding[i + 1]));
        }
        lemma_trim_start_skips(padding.drop_first(), s);
    }
}

/// White space behind a text is trimmed with that at its end.
proof fn lemma_trim_end_skips(s: Seq<char>, padding: Seq<char>)
    requires
        all_space(padding),
    ensures
        trim_end(s + padding) == trim_end(s),
    decreases padding.len(),
{
    if padding.len() == 0 {
        assert(s + padding =~= s);
    } else {
        assert(is_space(padding[padding.len() - 1]));
        assert((s + padding).drop_last() =~= s + padding.drop_last());
        assert forall|i: int| 0 <= i < padding.drop_last().len() implies is_space(
            #[trigger] padding.drop_last()[i],
        ) by {
            assert(is_space(padding[i]));
        }
        lemma_trim_end_skips(s, padding.drop_last());
    }
}

/// What is left of a text without its leading white space is the text
/// itself, or begins with a character that is no white space.
proof fn lemma_trim_start_shape(s: Seq<char>)
    ensures
        all_space(s) ==> trim_start(s).len() == 0,
        !all_space(s) ==> trim_start(s).len() > 0 && !is_space(trim_start(s).first()),
    decreases s.len(),
{
    if s.len() > 0 && is_space(s.first()) {
        lemma_trim_start_shape(s.drop_first());
        if all_space(s) {
            assert forall|i: int| 0 <= i < s.drop_first().len() implies is_space(
                #[trigger] s.drop_first()[i],
            ) by {
                assert(is_space(s[i + 1]));
            }
        } else {
            let i = choose|i: int| 0 <= i < s.len() && !is_space(#[trigger] s[i]);
            assert(i > 0);
            assert(!is_space(s.drop_first()[i - 1]));
        }
    } else if s.len() > 0 {
        assert(!is_space(s[0]));
    }
}

/// White space around a text does not change what is left of it once it
/// is trimmed.
pub proof fn lemma_trim_ignores_padding(before: Seq<char>, s: Seq<char>, after: Seq<char>)
    requires
        all_space(before),
        all_space(after),
    ensures
        trim(before + s + after) == trim(s),
{
    assert(before + s + after =~= before + (s + after));
    lemma_trim_start_skips(before, s + after);
    lemma_trim_start_shape(s);
    if all_space(s) {
        assert(all_space(s + after)) by {
            assert forall|i: int| 0 <= i < (s + after).len() implies is_space(
                #[trigger] (s + after)[i],
            ) by {
                if i < s.len() {
                    assert(is_space(s[i]));
                } else {
                    assert(is_space(after[i - s.len()]));
                }
            }
        }
        lemma_trim_start_shape(s + after);
        assert(trim_start(s + after) =~= trim_start(s));
    } else {
        lemma_trim_start_keeps_tail(s, after);
        lemma_trim_end_skips(trim_start(s), after);
    }
}

/// Where a text is not white space alone, what follows it is not reached
/// when its leading white space is trimmed.
proof fn lemma_trim_start_keeps_tail(s: Seq<char>, tail: Seq<char>)
    requires
        !all_space(s),
    ensures
        trim_start(s + tail) == trim_start(s) + tail,
    decreases s.len(),
{
    let i = choose|i: int| 0 <= i < s.len() && !is_space(#[trigger] s[i]);
    assert((s + tail).first() == s.first());
    if is_space(s.first()) {
        assert(i > 0);
        assert(!is_space(s.drop_first()[i - 1]));
        assert((s + tail).drop_first() =~= s.drop_first() + tail);
        lemma_trim_start_keeps_tail(s.drop_first(), tail);
    }
}

/// Trimming the end of a text that begins with a character that is no
/// white space leaves that character.
proof fn lemma_trim_end_keeps_start(s: Seq<char>)
    requires
        s.len() > 0,
        !is_space(s.first()),
    ensures
        trim_end(s).len() > 0,
    decreases s.len(),
{
    if is_space(s.last()) {
        assert(s.len() > 1);
        assert(s.drop_last().first() == s.first());
        lemma_trim_end_keeps_start(s.drop_last());
    }
}

/// Nothing is left of a text once it is trimmed exactly when it holds white
/// space only.
pub proof fn lemma_trim_empty_iff_all_space(s: Seq<char>)
    ensures
        trim(s).len() == 0 <==> all_space(s),
{
    lemma_trim_start_shape(s);
    if !all_space(s) {
        lemma_trim_end_keeps_start(trim_start(s));
    }
}

} // verus!

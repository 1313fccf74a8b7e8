//! The sum of a list of integers written as text, separated by commas.

use crate::error::AppError;
use crate::number::{parse_i64, parse_i64_between};
use crate::text::{chars_of, decimal, decimal_string, trim, trim_bounds};
use vstd::prelude::*;
use vstd::string::*;

verus! {

/// How many characters of `s` stand before its first comma: the length of
/// `s` where it has none.
pub open spec fn first_comma(s: Seq<char>) -> nat
    decreases s.len(),
{
    if s.len() == 0 || s.first() == ',' {
        0
    } else {
        1 + first_comma(s.drop_first())
    }
}

/// The parts into which the commas of `s` split it, in order. Between two
/// commas that follow each other, before a comma at the front and behind one
/// at the end stands an empty part.
pub open spec fn fields(s: Seq<char>) -> Seq<Seq<char>>
    decreases s.len(),
{
    let k = first_comma(s) as int;
    if k >= s.len() {
        seq![s]
    } else {
        seq![s.take(k)] + fields(s.skip(k + 1))
    }
}

/// The tokens of `s`: the parts between its commas that are not empty.
pub open spec fn tokens(s: Seq<char>) -> Seq<Seq<char>> {
    fields(s).filter(|part: Seq<char>| part.len() > 0)
}

/// Why a list of tokens has no sum.
pub enum SumFault {
    /// The token at `index` is not a signed 64-bit integer once white space
    /// is trimmed from it; `text` is what is left of it.
    Malformed { index: nat, text: Seq<char> },
    /// A partial sum is outside the signed 64-bit range.
    Overflow,
}

/// The sum of `acc` and the tokens `rest`, taken from left to right, where
/// the first of `rest` is the token at `index`. Each token is trimmed and
/// read as a signed 64-bit integer; the first one that is none ends the sum
/// as malformed, and the first partial sum outside the signed 64-bit range
/// ends it as an overflow.
pub open spec fn sum_tokens(rest: Seq<Seq<char>>, index: nat, acc: i64) -> Result<i64, SumFault>
    decreases rest.len(),
{
    if rest.len() == 0 {
        Ok(acc)
    } else {
        match parse_i64(trim(rest.first())) {
            None => Err(SumFault::Malformed { index, text: trim(rest.first()) }),
            Some(value) => if i64::MIN <= acc + value <= i64::MAX {
                sum_tokens(rest.drop_first(), index + 1, (acc + value) as i64)
            } else {
                Err(SumFault::Overflow)
            },
        }
    }
}

/// The sum of the integers that `s` lists.
pub open spec fn parse_sum(s: Seq<char>) -> Result<i64, SumFault> {
    sum_tokens(tokens(s), 0, 0)
}

/// The text of the fault for a token that is no integer: it names the
/// token's index among the tokens and gives the trimmed token as it stands.
pub open spec fn malformed_message(index: nat, text: Seq<char>) -> Seq<char> {
    "nums 第 "@ + decimal(index) + " 项不是有效整数: "@ + text
}

/// The text of the fault for a sum outside the signed 64-bit range.
pub open spec fn overflow_message() -> Seq<char> {
    "nums 求和超出 64 位整数范围"@
}

/// Whether `error` is the fault that the service answers `fault` with: a
/// malformed token is the caller's fault, an overflow the server's.
pub open spec fn reports(error: AppError, fault: SumFault) -> bool {
    match fault {
        SumFault::Malformed { index, text } => error is BadRequest && error.spec_message()
            == malformed_message(index, text),
        SumFault::Overflow => error is Internal && error.spec_message() == overflow_message(),
    }
}

/// Where the first comma of `s` stands.
proof fn lemma_first_comma(s: Seq<char>, k: int)
    requires
        0 <= k <= s.len(),
        forall|j: int| 0 <= j < k ==> s[j] != ',',
        k < s.len() ==> s[k] == ',',
    ensures
        first_comma(s) == k,
    decreases k,
{
    if k > 0 {
        let tail = s.drop_first();
        assert(s[0] != ',');
        assert forall|j: int| 0 <= j < k - 1 implies tail[j] != ',' by {
            assert(tail[j] == s[j + 1]);
        }
        lemma_first_comma(tail, k - 1);
    }
}

/// The tokens of `s` are its part before the first comma, where that is not
/// empty, and then the tokens of what follows that comma.
proof fn lemma_tokens_step(s: Seq<char>, k: int)
    requires
        first_comma(s) == k,
        0 <= k <= s.len(),
    ensures
        ({
            let head = if k > 0 {
                seq![s.take(k)]
            } else {
                Seq::<Seq<char>>::empty()
            };
            &&& k < s.len() ==> tokens(s) == head + tokens(s.skip(k + 1))
            &&& k == s.len() ==> tokens(s) == head
        }),
{
    let nonempty = |part: Seq<char>| part.len() > 0;
    let first = seq![s.take(k)];
    assert(first.filter(nonempty) =~= if k > 0 {
        first
    } else {
        Seq::<Seq<char>>::empty()
    }) by {
        reveal_with_fuel(Seq::filter, 2);
        assert(first.drop_last() =~= Seq::<Seq<char>>::empty());
    }
    if k < s.len() {
        Seq::filter_distributes_over_add(first, fields(s.skip(k + 1)), nonempty);
    } else {
        assert(s.take(k) =~= s);
    }
}

/// Sums the integers that `s` lists between commas. Parts that are empty are
/// passed over; each other part is a token, trimmed of white space and read
/// as a signed 64-bit integer. The first token that is no such integer ends
/// the sum as a fault of the caller, whose text names the token's index
/// among the tokens and the trimmed token. A partial sum outside the signed
/// 64-bit range ends it as a fault of the server.
pub fn parse_sum_input(s: &str) -> (total: Result<i64, AppError>)
    ensures
        match (parse_sum(s@), total) {
            (Ok(sum), Ok(value)) => value == sum,
            (Err(fault), Err(error)) => reports(error, fault),
            _ => false,
        },
{
    let chars = chars_of(s);
    let len: usize = chars.len();
    let mut total: i64 = 0;
    let mut index: usize = 0;
    let mut pos: usize = 0;
    assert(s@.skip(0) =~= s@);
    loop
        invariant_except_break
            chars@ == s@,
            len == chars.len(),
            index <= pos <= len,
            parse_sum(s@) == sum_tokens(tokens(s@.skip(pos as int)), index as nat, total),
        ensures
            parse_sum(s@) == Ok::<i64, SumFault>(total),
        decreases len - pos,
    {
        let ghost rest = s@.skip(pos as int);
        let mut end: usize = pos;
        while end < len && chars[end] != ','
            invariant
                pos <= end <= len,
                len == chars.len(),
                forall|j: int| pos <= j < end ==> chars@[j] != ',',
            decreases len - end,
        {
            end += 1;
        }
        proof {
            lemma_first_comma(rest, end - pos);
            lemma_tokens_step(rest, end - pos);
            assert(rest.take(end - pos) =~= chars@.subrange(pos as int, end as int));
            if end < len {
                assert(rest.skip(end - pos + 1) =~= s@.skip(end + 1));
            }
        }
        let ghost after = if end < len {
            tokens(s@.skip(end + 1))
        } else {
            Seq::<Seq<char>>::empty()
        };
        if end > pos {
            let ghost token = chars@.subrange(pos as int, end as int);
            assert(tokens(rest) =~= seq![token] + after);
            assert((seq![token] + after).first() == token);
            assert((seq![token] + after).drop_first() =~= after);
            let (a, b) = trim_bounds(&chars, pos, end);
            match parse_i64_between(&chars, a, b) {
                None => {
                    let mut message = String::from_str("nums 第 ");
                    message.append(decimal_string(index).as_str());
                    message.append(" 项不是有效整数: ");
                    message.append(s.substring_char(a, b));
                    return Err(AppError::BadRequest(message));
                },
                Some(value) => {
                    match total.checked_add(value) {
                        None => {
                            return Err(
                                AppError::Internal(String::from_str("nums 求和超出 64 位整数范围")),
                            );
                        },
                        Some(sum) => {
                            total = sum;
                        },
                    }
                },
            }
            index += 1;
        } else {
            assert(tokens(rest) =~= after);
        }
        assert(parse_sum(s@) == sum_tokens(after, index as nat, total));
        if end == len {
            break ;
        }
        pos = end + 1;
    }
    Ok(total)
}

/// No comma stands before the first comma of `s`, and where the first comma
/// is not the length of `s`, a comma stands there.
proof fn lemma_first_comma_is_first(s: Seq<char>)
    ensures
        first_comma(s) <= s.len(),
        forall|j: int| 0 <= j < first_comma(s) ==> s[j] != ',',
        first_comma(s) < s.len() ==> s[first_comma(s) as int] == ',',
    decreases s.len(),
{
    if !(s.len() == 0 || s.first() == ',') {
        let tail = s.drop_first();
        lemma_first_comma_is_first(tail);
        assert forall|j: int| 0 <= j < first_comma(s) implies s[j] != ',' by {
            if j > 0 {
                assert(tail[j - 1] == s[j]);
            }
        }
    }
}

/// A comma splits a text into its two sides: the parts of `left`, a comma
/// and `right` are those of `left`, then those of `right`.
pub proof fn lemma_fields_of_joined(left: Seq<char>, right: Seq<char>)
    ensures
        fields(left + seq![','] + right) == fields(left) + fields(right),
    decreases left.len(),
{
    let s = left + seq![','] + right;
    let k = first_comma(left) as int;
    lemma_first_comma_is_first(left);
    assert(s[left.len() as int] == ',');
    lemma_first_comma(s, k);
    assert(s.take(k) =~= left.take(k));
    if k == left.len() {
        assert(left.take(k) =~= left);
        assert(s.skip(k + 1) =~= right);
    } else {
        let rest = left.skip(k + 1);
        assert(s.skip(k + 1) =~= rest + seq![','] + right);
        lemma_fields_of_joined(rest, right);
        assert(seq![left.take(k)] + (fields(rest) + fields(right)) =~= (seq![left.take(k)]
            + fields(rest)) + fields(right));
    }
}

/// The tokens of `left`, a comma and `right` are those of `left`, then those
/// of `right`.
pub proof fn lemma_tokens_of_joined(left: Seq<char>, right: Seq<char>)
    ensures
        tokens(left + seq![','] + right) == tokens(left) + tokens(right),
{
    lemma_fields_of_joined(left, right);
    Seq::filter_distributes_over_add(
        fields(left),
        fields(right),
        |part: Seq<char>| part.len() > 0,
    );
}

/// Empty parts are passed over: commas that follow each other stand for one
/// comma. A text in which two commas follow each other has the tokens, and
/// so the sum, of the text with one comma in their place.
pub proof fn lemma_repeated_comma_is_one(left: Seq<char>, right: Seq<char>)
    ensures
        tokens(left + seq![',', ','] + right) == tokens(left + seq![','] + right),
        parse_sum(left + seq![',', ','] + right) == parse_sum(left + seq![','] + right),
{
    let nothing = Seq::<char>::empty();
    assert(left + seq![',', ','] + right =~= left + seq![','] + (nothing + seq![','] + right));
    lemma_tokens_of_joined(left, nothing + seq![','] + right);
    lemma_tokens_of_joined(nothing, right);
    lemma_tokens_of_joined(left, right);
    lemma_first_comma(nothing, 0);
    lemma_tokens_step(nothing, 0);
    assert(tokens(nothing) + tokens(right) =~= tokens(right));
}

/// The sum does not depend on the white space around the tokens: two lists
/// of tokens that are the same once each token is trimmed have the same sum,
/// or the same fault.
pub proof fn lemma_sum_ignores_padding(
    a: Seq<Seq<char>>,
    b: Seq<Seq<char>>,
    index: nat,
    acc: i64,
)
    requires
        a.len() == b.len(),
        forall|i: int| 0 <= i < a.len() ==> trim(#[trigger] a[i]) == trim(b[i]),
    ensures
        sum_tokens(a, index, acc) == sum_tokens(b, index, acc),
    decreases a.len(),
{
    if a.len() > 0 {
        assert(trim(a[0]) == trim(b[0]));
        match parse_i64(trim(a.first())) {
            None => {},
            Some(value) => {
                if i64::MIN <= acc + value <= i64::MAX {
                    assert forall|i: int| 0 <= i < a.drop_first().len() implies trim(
                        #[trigger] a.drop_first()[i],
                    ) == trim(b.drop_first()[i]) by {
                        assert(trim(a[i + 1]) == trim(b[i + 1]));
                    }
                    lemma_sum_ignores_padding(
                        a.drop_first(),
                        b.drop_first(),
                        index + 1,
                        (acc + value) as i64,
                    );
                }
            },
        }
    }
}

/// The signed 64-bit integer that the token `token` stands for once it is
/// trimmed, if it stands for one.
pub open spec fn token_value(token: Seq<char>) -> Option<i64> {
    parse_i64(trim(token))
}

/// The sum of the first `n` of `toks`, however large. A token that stands
/// for no integer adds nothing.
pub open spec fn partial_sum(toks: Seq<Seq<char>>, n: nat) -> int
    decreases n,
{
    if n == 0 {
        0
    } else {
        partial_sum(toks, (n - 1) as nat) + match token_value(toks[n - 1]) {
            Some(value) => value as int,
            None => 0,
        }
    }
}

/// Whether the first `n` of `toks` can be summed: each of them stands for
/// an integer, and the sum of the first `m` of them is in the signed 64-bit
/// range for every `m` up to `n`.
pub open spec fn summable(toks: Seq<Seq<char>>, n: nat) -> bool {
    &&& forall|i: int| 0 <= i < n ==> (#[trigger] token_value(toks[i])) is Some
    &&& forall|m: nat| m <= n ==> i64::MIN <= #[trigger] partial_sum(toks, m) <= i64::MAX
}

/// What the three outcomes of a sum mean. The sum is a total exactly when
/// all the tokens can be summed, and is then their sum. It is malformed at
/// `index` exactly when the token there is the first that stands for no
/// integer and the tokens before it can be summed; the text is that token,
/// trimmed. It is an overflow exactly when the tokens up to some token can
/// be summed and the sum with that token leaves the signed 64-bit range.
pub proof fn lemma_sum_outcomes(toks: Seq<Seq<char>>)
    ensures
        match sum_tokens(toks, 0, 0) {
            Ok(total) => summable(toks, toks.len()) && total == partial_sum(toks, toks.len()),
            Err(SumFault::Malformed { index, text }) => {
                &&& index < toks.len()
                &&& summable(toks, index)
                &&& token_value(toks[index as int]) is None
                &&& text == trim(toks[index as int])
            },
            Err(SumFault::Overflow) => exists|n: nat|
                {
                    &&& n < toks.len()
                    &&& summable(toks, n)
                    &&& token_value(toks[n as int]) is Some
                    &&& !(i64::MIN <= #[trigger] partial_sum(toks, n + 1) <= i64::MAX)
                },
        },
{
    assert(toks.skip(0) =~= toks);
    lemma_sum_outcomes_from(toks, 0, 0);
}

/// [`lemma_sum_outcomes`], for a sum that has come to the token at `index`.
proof fn lemma_sum_outcomes_from(toks: Seq<Seq<char>>, index: nat, acc: i64)
    requires
        index <= toks.len(),
        summable(toks, index),
        acc == partial_sum(toks, index),
    ensures
        match sum_tokens(toks.skip(index as int), index, acc) {
            Ok(total) => summable(toks, toks.len()) && total == partial_sum(toks, toks.len()),
            Err(SumFault::Malformed { index, text }) => {
                &&& index < toks.len()
                &&& summable(toks, index)
                &&& token_value(toks[index as int]) is None
                &&& text == trim(toks[index as int])
            },
            Err(SumFault::Overflow) => exists|n: nat|
                {
                    &&& n < toks.len()
                    &&& summable(toks, n)
                    &&& token_value(toks[n as int]) is Some
                    &&& !(i64::MIN <= #[trigger] partial_sum(toks, n + 1) <= i64::MAX)
                },
        },
    decreases toks.len() - index,
{
    let rest = toks.skip(index as int);
    if index < toks.len() {
        assert(rest.first() == toks[index as int]);
        assert(rest.drop_first() =~= toks.skip(index as int + 1));
        match token_value(toks[index as int]) {
            None => {},
            Some(value) => {
                assert(partial_sum(toks, index + 1) == acc + value);
                if i64::MIN <= acc + value <= i64::MAX {
                    assert(summable(toks, index + 1)) by {
                        assert forall|m: nat| m <= index + 1 implies i64::MIN
                            <= #[trigger] partial_sum(toks, m) <= i64::MAX by {
                            if m <= index {
                                assert(i64::MIN <= partial_sum(toks, m) <= i64::MAX);
                            }
                        }
                    }
                    lemma_sum_outcomes_from(toks, index + 1, (acc + value) as i64);
                }
            },
        }
    }
}

} // verus!

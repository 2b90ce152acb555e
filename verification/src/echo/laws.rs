//! What holds of the texts that addresses are read from.
use crate::echo::{are_digits, colon_index, decimal, digits_value};
use vstd::prelude::*;

verus! {

/// The first colon of a text is the one with none before it.
pub proof fn law_first_colon(text: Seq<char>, k: int)
    requires
        0 <= k <= text.len(),
        k < text.len() ==> text[k] == ':',
        forall|i: int| 0 <= i < k ==> #[trigger] text[i] != ':',
    ensures
        colon_index(text) == k,
    decreases k,
{
    if k > 0 {
        assert(text[0] != ':');
        assert forall|i: int| 0 <= i < k - 1 implies #[trigger] text.skip(1)[i] != ':' by {
            assert(text[i + 1] != ':');
        }
        law_first_colon(text.skip(1), k - 1);
    }
}

/// A digit behind others counts once, and the others ten times as much.
pub proof fn law_digits_count(digits: Seq<char>, digit: char)
    requires
        '0' <= digit <= '9',
    ensures
        digits_value(Seq::empty()) == 0,
        digits_value(digits.push(digit)) == 10 * digits_value(digits) + (digit as int - 48),
{
    assert(digits.push(digit).drop_last() =~= digits);
}

/// A number is a text of digits, with or without a plus sign in front.
pub proof fn law_numbers(digits: Seq<char>)
    requires
        digits.len() > 0,
        forall|i: int| 0 <= i < digits.len() ==> '0' <= #[trigger] digits[i] <= '9',
    ensures
        decimal(digits) == Some(digits_value(digits)),
        decimal(seq!['+'] + digits) == Some(digits_value(digits)),
{
    assert((seq!['+'] + digits).skip(1) =~= digits);
}

/// No other text is a number: neither one with another character, nor one
/// without a digit.
pub proof fn law_no_numbers(text: Seq<char>, k: int)
    requires
        0 <= k < text.len(),
        !('0' <= text[k] <= '9'),
        k > 0 || text[0] != '+',
    ensures
        decimal(text) is None,
        decimal(Seq::empty()) is None,
        decimal(seq!['+']) is None,
{
    assert(seq!['+'].skip(1) =~= Seq::empty());
    if text[0] == '+' {
        let digits = text.skip(1);
        assert(digits[k - 1] == text[k]);
        assert(!are_digits(digits));
    } else {
        assert(!are_digits(text));
    }
}

} // verus!

//! How a terminal reads what is written to it.

use crate::text::{decimal, digit};
use vstd::prelude::*;

verus! {

pub open spec fn is_digit(c: char) -> bool {
    '0' <= c && c <= '9'
}

/// The number that a row of digits stands for, the last digit counting ones.
pub open spec fn value(digits: Seq<char>) -> nat
    decreases digits.len(),
{
    if digits.len() == 0 {
        0
    } else {
        (10 * value(digits.drop_last()) + (digits.last() as int - '0' as int)) as nat
    }
}

/// The text is a number: digits only, and no zero in front of others.
pub open spec fn is_number(text: Seq<char>) -> bool {
    &&& text.len() > 0
    &&& forall|i: int| 0 <= i < text.len() ==> is_digit(#[trigger] text[i])
    &&& text.len() > 1 ==> text[0] != '0'
}

/// The text is a number, and the number is `n`.
pub open spec fn reads(text: Seq<char>, n: nat) -> bool {
    is_number(text) && value(text) == n
}

/// A number that was written in decimal is read back as it was.
pub proof fn law_decimal_reads_back(n: nat)
    ensures
        reads(decimal(n), n),
        n > 0 ==> decimal(n)[0] != '0',
    decreases n,
{
    if n < 10 {
        assert(decimal(n) =~= seq![digit(n as int)]);
        assert(decimal(n).drop_last() =~= Seq::empty());
        assert(value(Seq::<char>::empty()) == 0);
    } else {
        law_decimal_reads_back(n / 10);
        let front = decimal(n / 10);
        let text = decimal(n);
        assert(text == front.push(digit((n % 10) as int)));
        assert(text.drop_last() =~= front);
        assert forall|i: int| 0 <= i < text.len() implies is_digit(#[trigger] text[i]) by {
            if i < front.len() {
                assert(text[i] == front[i]);
            }
        }
        assert(text[0] == front[0]);
    }
}

/// Where the first comma stands, or the length where there is none.
pub open spec fn first_comma(text: Seq<char>) -> nat
    decreases text.len(),
{
    if text.len() == 0 || text[0] == ',' {
        0
    } else {
        1 + first_comma(text.skip(1))
    }
}

/// What a list of `key=value` items, parted by commas, gives for a key: the
/// value of the first item with that key.
pub open spec fn field(control: Seq<char>, key: char) -> Option<Seq<char>>
    decreases control.len(),
{
    let end = first_comma(control) as int;
    let item = control.take(end);
    if item.len() >= 2 && item[0] == key && item[1] == '=' {
        Some(item.skip(2))
    } else if end < control.len() {
        field(control.skip(end + 1), key)
    } else {
        None
    }
}

/// The list gives the number `n` for the key.
pub open spec fn gives(control: Seq<char>, key: char, n: nat) -> bool {
    field(control, key) matches Some(text) && reads(text, n)
}

pub open spec fn without_comma(text: Seq<char>) -> bool {
    forall|i: int| 0 <= i < text.len() ==> #[trigger] text[i] != ','
}

proof fn lemma_first_comma(front: Seq<char>, rest: Seq<char>)
    requires
        without_comma(front),
        rest.len() == 0 || rest[0] == ',',
    ensures
        first_comma(front + rest) == front.len(),
    decreases front.len(),
{
    let all = front + rest;
    if front.len() > 0 {
        assert(all[0] == front[0]);
        assert(all.skip(1) =~= front.skip(1) + rest);
        lemma_first_comma(front.skip(1), rest);
    }
}

proof fn lemma_first_comma_bound(text: Seq<char>)
    ensures
        first_comma(text) <= text.len(),
        without_comma(text.take(first_comma(text) as int)),
        first_comma(text) < text.len() ==> text[first_comma(text) as int] == ',',
    decreases text.len(),
{
    if text.len() > 0 && text[0] != ',' {
        let rest = text.skip(1);
        lemma_first_comma_bound(rest);
        let n = first_comma(rest) as int;
        let front = text.take(n + 1);
        assert forall|i: int| 0 <= i < front.len() implies #[trigger] front[i] != ',' by {
            if i > 0 {
                assert(front[i] == rest.take(n)[i - 1]);
            }
        }
        if n < rest.len() {
            assert(rest[n] == text[n + 1]);
        }
    }
}

/// An item at the end of a list counts where no item before it has its key.
pub proof fn lemma_field_appended(control: Seq<char>, item: char, text: Seq<char>, key: char)
    requires
        without_comma(text),
        item != ',',
    ensures
        field(control + seq![',', item, '='] + text, key) == match field(control, key) {
            Some(found) => Some(found),
            None => if key == item {
                Some(text)
            } else {
                None
            },
        },
    decreases control.len(),
{
    let tail = seq![',', item, '='] + text;
    let all = control + seq![',', item, '='] + text;
    assert(all =~= control + tail);
    lemma_first_comma_bound(control);
    let end = first_comma(control) as int;
    let front = control.take(end);
    if end < control.len() {
        let rest = control.skip(end);
        assert(all =~= front + (rest + tail));
        assert((rest + tail)[0] == ',');
        lemma_first_comma(front, rest + tail);
        assert(all.take(end) =~= front);
        let next = control.skip(end + 1);
        lemma_field_appended(next, item, text, key);
        assert(all.skip(end + 1) =~= next + seq![',', item, '='] + text);
    } else {
        assert(front =~= control);
        lemma_first_comma(control, tail);
        assert(all.take(end) =~= control);
        let last = seq![item, '='] + text;
        assert(all.skip(end + 1) =~= last);
        lemma_field_alone(item, text, key);
    }
}

/// A list of one item.
pub proof fn lemma_field_alone(item: char, text: Seq<char>, key: char)
    requires
        without_comma(text),
        item != ',',
    ensures
        field(seq![item, '='] + text, key) == if key == item {
            Some(text)
        } else {
            None
        },
{
    let all = seq![item, '='] + text;
    assert(without_comma(all));
    lemma_first_comma(all, Seq::empty());
    assert(all + Seq::<char>::empty() =~= all);
    assert(all.take(all.len() as int) =~= all);
    assert(all.skip(2) =~= text);
}

/// A number holds no comma.
pub proof fn lemma_decimal_without_comma(n: nat)
    ensures
        without_comma(decimal(n)),
{
    law_decimal_reads_back(n);
    let text = decimal(n);
    assert forall|i: int| 0 <= i < text.len() implies #[trigger] text[i] != ',' by {
        assert(is_digit(text[i]));
    }
}

} // verus!

//! When values are equal, and how numbers and texts are written and ordered.

use vstd::prelude::*;

use crate::json::{same_json, Json, Numeral};
use crate::text::{
    before, capitals, decimal, digit, integer, is_plain, joined, padded,
};

verus! {

/// Values of different shapes are never equal, and those of one shape are when what they hold is:
/// texts, truth values and integers themselves, lists item by item, and objects key by key.
pub proof fn equal_values_hold_the_same(a: Json, b: Json)
    ensures
        same_json(a, b) ==> {
            ||| a is Null && b is Null
            ||| a is Bool && b is Bool
            ||| a is Number && b is Number
            ||| a is Text && b is Text
            ||| a is Array && b is Array
            ||| a is Object && b is Object
        },
        same_json(Json::Null, Json::Null),
        a is Bool && b is Bool ==> (same_json(a, b) <==> a == b),
        a is Text && b is Text ==> (same_json(a, b) <==> a == b),
        (a matches Json::Number(Numeral::Int(_))) && (b matches Json::Number(_)) ==> (same_json(a, b)
            <==> a == b),
        a is Array && b is Array ==> (same_json(a, b) <==> a->Array_0.len() == b->Array_0.len()
            && forall|i: int|
            0 <= i < a->Array_0.len() ==> same_json(#[trigger] a->Array_0[i], b->Array_0[i])),
        a is Object && b is Object ==> (same_json(a, b) <==> forall|key: Seq<char>|
            match (#[trigger] a.get(key), b.get(key)) {
                (Some(x), Some(y)) => same_json(x, y),
                (None, None) => true,
                _ => false,
            }),
{
    if a is Object && b is Object {
        let x = a->Object_0;
        let y = b->Object_0;
        if same_json(a, b) {
            assert forall|key: Seq<char>|
                match (#[trigger] a.get(key), b.get(key)) {
                    (Some(x), Some(y)) => same_json(x, y),
                    (None, None) => true,
                    _ => false,
                } by {
                assert(x.dom().contains(key) == y.dom().contains(key));
                if x.contains_key(key) {
                    assert(same_json(x[key], y[key]));
                }
            }
        }
        if forall|key: Seq<char>|
            match (#[trigger] a.get(key), b.get(key)) {
                (Some(x), Some(y)) => same_json(x, y),
                (None, None) => true,
                _ => false,
            } {
            assert forall|key: Seq<char>| x.dom().contains(key) == y.dom().contains(key) by {
                assert(a.get(key) is Some == b.get(key) is Some);
            }
            assert(x.dom() =~= y.dom());
            assert forall|key: Seq<char>| x.contains_key(key) implies same_json(
                #[trigger] x[key],
                y[key],
            ) by {
                assert(a.get(key) == Some(x[key]));
            }
        }
    }
}

/// The number that some digits read as.
pub open spec fn number_read(text: Seq<char>) -> int
    decreases text.len(),
{
    if text.len() == 0 {
        0
    } else {
        10 * number_read(text.drop_last()) + (text.last() as int - '0' as int)
    }
}

proof fn digits_read(n: nat)
    requires
        n < 10,
    ensures
        digit(n).len() == 1,
        digit(n)[0] as int == '0' as int + n,
{
    reveal_strlit("0");
    reveal_strlit("1");
    reveal_strlit("2");
    reveal_strlit("3");
    reveal_strlit("4");
    reveal_strlit("5");
    reveal_strlit("6");
    reveal_strlit("7");
    reveal_strlit("8");
    reveal_strlit("9");
}

/// A number is written in digits that read as the number, without leading zeros, and a negative one
/// with a minus before them.
pub proof fn numbers_are_written_in_digits(n: nat)
    ensures
        decimal(n).len() > 0,
        number_read(decimal(n)) == n,
        forall|i: int| 0 <= i < decimal(n).len() ==> '0' <= #[trigger] decimal(n)[i] <= '9',
        n > 0 ==> decimal(n)[0] != '0',
        n > 0 ==> integer(-(n as int)) == "-"@ + decimal(n),
        integer(n as int) == decimal(n),
    decreases n,
{
    if n < 10 {
        digits_read(n);
        assert(decimal(n).drop_last() =~= Seq::empty());
        assert(decimal(n).last() == decimal(n)[0]);
        assert(number_read(decimal(n).drop_last()) == 0);
    } else {
        numbers_are_written_in_digits(n / 10);
        digits_read(n % 10);
        let front = decimal(n / 10);
        let whole = decimal(n);
        assert(whole.drop_last() =~= front);
        assert(whole.last() == digit(n % 10)[0]);
        assert forall|i: int| 0 <= i < whole.len() implies '0' <= #[trigger] whole[i] <= '9' by {
            if i < front.len() {
                assert(whole[i] == front[i]);
            }
        }
        assert(whole[0] == front[0]);
    }
}

/// Texts are ordered as in a dictionary of code points: by the first character in which they differ,
/// and a text comes before its continuations.
pub proof fn texts_are_ordered_as_in_a_dictionary(
    shared: Seq<char>,
    x: char,
    y: char,
    a: Seq<char>,
    b: Seq<char>,
)
    requires
        x < y,
    ensures
        before(shared + seq![x] + a, shared + seq![y] + b),
        !before(shared + seq![y] + b, shared + seq![x] + a),
        before(shared, shared + seq![x] + a),
        !before(shared + seq![x] + a, shared),
    decreases shared.len(),
{
    let p = shared + seq![x] + a;
    let q = shared + seq![y] + b;
    if shared.len() > 0 {
        let rest = shared.drop_first();
        texts_are_ordered_as_in_a_dictionary(rest, x, y, a, b);
        assert(p.drop_first() =~= rest + seq![x] + a);
        assert(q.drop_first() =~= rest + seq![y] + b);
    } else {
        assert(p[0] == x && q[0] == y);
    }
}

/// Joining puts the separator between texts, and only there: what is joined of two lists together is
/// what is joined of each, with the separator between.
pub proof fn joining_separates(a: Seq<Seq<char>>, b: Seq<Seq<char>>, separator: Seq<char>)
    ensures
        a.len() == 0 ==> joined(a, separator).len() == 0,
        a.len() == 1 ==> joined(a, separator) == a[0],
        a.len() > 0 && b.len() > 0 ==> joined(a + b, separator) == joined(a, separator) + separator
            + joined(b, separator),
    decreases b.len(),
{
    if a.len() > 0 && b.len() > 0 {
        let all = a + b;
        let rest = b.drop_last();
        assert(all.drop_last() =~= a + rest);
        assert(all.last() == b.last());
        if rest.len() > 0 {
            joining_separates(a, rest, separator);
            assert(joined(all, separator) =~= joined(a, separator) + separator + joined(
                b,
                separator,
            ));
        } else {
            assert(all.drop_last() =~= a);
            assert(joined(all, separator) =~= joined(a, separator) + separator + b[0]);
        }
    }
}

/// A padded text is the text and then spaces, as many as it takes to the width.
pub proof fn padding_fills_with_spaces(text: Seq<char>, width: nat)
    ensures
        text.is_prefix_of(padded(text, width)),
        padded(text, width).len() == if text.len() < width {
            width
        } else {
            text.len()
        },
        forall|i: int|
            text.len() <= i < padded(text, width).len() ==> #[trigger] padded(text, width)[i] == ' ',
{
    assert(text =~= padded(text, width).subrange(0, text.len() as int));
}

/// In capitals the small letters of a plain text become large, and all else stays.
pub proof fn capitals_are_large_letters(text: Seq<char>, i: int)
    requires
        is_plain(text),
        0 <= i < text.len(),
    ensures
        capitals(text).len() == text.len(),
        'a' <= text[i] <= 'z' ==> capitals(text)[i] as int == text[i] as int - 'a' as int
            + 'A' as int,
        !('a' <= text[i] <= 'z') ==> capitals(text)[i] == text[i],
{
}

} // verus!

//! Text: the string operations the rest of the library is written in.

use vstd::prelude::*;
use vstd::relations::{sorted_by, total_ordering};

verus! {

/// `a` comes before `b` in code point order: either `a` is a proper prefix of `b`, or at the first
/// place where they differ `a` has the smaller character.
pub open spec fn before(a: Seq<char>, b: Seq<char>) -> bool
    decreases a.len(),
{
    if b.len() == 0 {
        false
    } else if a.len() == 0 {
        true
    } else {
        a[0] < b[0] || (a[0] == b[0] && before(a.drop_first(), b.drop_first()))
    }
}

/// Nothing comes before itself.
pub proof fn before_irreflexive(a: Seq<char>)
    ensures
        !before(a, a),
    decreases a.len(),
{
    if a.len() > 0 {
        before_irreflexive(a.drop_first());
    }
}

/// The order is transitive.
pub proof fn before_transitive(a: Seq<char>, b: Seq<char>, c: Seq<char>)
    requires
        before(a, b),
        before(b, c),
    ensures
        before(a, c),
    decreases a.len(),
{
    if a.len() > 0 && a[0] == b[0] && b[0] == c[0] {
        before_transitive(a.drop_first(), b.drop_first(), c.drop_first());
    }
}

/// Of two different texts one comes before the other.
pub proof fn before_total(a: Seq<char>, b: Seq<char>)
    ensures
        a == b || before(a, b) || before(b, a),
    decreases a.len(),
{
    if a.len() > 0 && b.len() > 0 && a[0] == b[0] {
        before_total(a.drop_first(), b.drop_first());
        if a.drop_first() == b.drop_first() {
            assert(a =~= seq![a[0]] + a.drop_first());
            assert(b =~= seq![b[0]] + b.drop_first());
        }
    } else if a.len() == 0 && b.len() == 0 {
        assert(a =~= b);
    }
}

/// Whether the two texts are the same.
pub(crate) fn same(a: &str, b: &str) -> (r: bool)
    ensures
        r == (a@ == b@),
{
    let mut left = a.chars();
    let mut right = b.chars();
    let ghost mut n: int = 0;
    assert(a@.skip(0) =~= a@);
    assert(b@.skip(0) =~= b@);
    loop
        invariant
            0 <= n <= a@.len(),
            n <= b@.len(),
            vstd::std_specs::iter::IteratorSpec::remaining(&left) == a@.skip(n),
            vstd::std_specs::iter::IteratorSpec::remaining(&right) == b@.skip(n),
            a@.take(n) == b@.take(n),
        decreases a@.len() - n,
    {
        let x = left.next();
        let y = right.next();
        match (x, y) {
            (Some(x), Some(y)) => {
                if x != y {
                    assert(a@[n] != b@[n]);
                    return false;
                }
                proof {
                    assert(a@.take(n + 1) =~= a@.take(n).push(a@[n]));
                    assert(b@.take(n + 1) =~= b@.take(n).push(b@[n]));
                    assert(a@.skip(n).drop_first() =~= a@.skip(n + 1));
                    assert(b@.skip(n).drop_first() =~= b@.skip(n + 1));
                    n = n + 1;
                }
            },
            (None, None) => {
                assert(a@.take(n) =~= a@);
                assert(b@.take(n) =~= b@);
                return true;
            },
            _ => {
                assert(a@.len() != b@.len());
                return false;
            },
        }
    }
}

/// Whether `a` comes before `b`.
pub(crate) fn precedes(a: &str, b: &str) -> (r: bool)
    ensures
        r == before(a@, b@),
{
    let mut left = a.chars();
    let mut right = b.chars();
    let ghost mut n: int = 0;
    assert(a@.skip(0) =~= a@);
    assert(b@.skip(0) =~= b@);
    loop
        invariant
            0 <= n <= a@.len(),
            n <= b@.len(),
            vstd::std_specs::iter::IteratorSpec::remaining(&left) == a@.skip(n),
            vstd::std_specs::iter::IteratorSpec::remaining(&right) == b@.skip(n),
            before(a@, b@) == before(a@.skip(n), b@.skip(n)),
        decreases a@.len() - n,
    {
        let x = left.next();
        let y = right.next();
        match (x, y) {
            (_, None) => return false,
            (None, Some(_)) => return true,
            (Some(x), Some(y)) => {
                if x < y {
                    return true;
                }
                if x != y {
                    return false;
                }
                proof {
                    assert(a@.skip(n).drop_first() =~= a@.skip(n + 1));
                    assert(b@.skip(n).drop_first() =~= b@.skip(n + 1));
                    n = n + 1;
                }
            },
        }
    }
}

/// Whether the two lists have the same texts, in the same order.
pub(crate) fn same_texts(a: &Vec<String>, b: &Vec<String>) -> (r: bool)
    ensures
        r == (texts(a@) == texts(b@)),
{
    if a.len() != b.len() {
        assert(texts(a@).len() != texts(b@).len());
        return false;
    }
    let mut i: usize = 0;
    while i < a.len()
        invariant
            i <= a.len() == b.len(),
            forall|j: int| 0 <= j < i ==> (#[trigger] a[j])@ == b[j]@,
        decreases a.len() - i,
    {
        if !same(a[i].as_str(), b[i].as_str()) {
            assert(texts(a@)[i as int] != texts(b@)[i as int]);
            return false;
        }
        i += 1;
    }
    assert(texts(a@) =~= texts(b@));
    true
}

/// `String::push` (`std`) appends a character.
pub assume_specification[ std::string::String::push ](text: &mut std::string::String, c: char)
    ensures
        final(text)@ == old(text)@.push(c),
;

/// There are only ASCII characters in a text.
pub open spec fn is_plain(text: Seq<char>) -> bool {
    forall|i: int| 0 <= i < text.len() ==> (#[trigger] text[i] as u32) < 128
}

/// An ASCII character in capitals: `a` to `z` become `A` to `Z`, and the others stay.
pub open spec fn capital(c: char) -> char {
    if 'a' <= c <= 'z' {
        (c as u32 - 32) as char
    } else {
        c
    }
}

/// An ASCII text in capitals.
pub open spec fn plain_capitals(text: Seq<char>) -> Seq<char> {
    text.map_values(|c: char| capital(c))
}

/// What `str::to_uppercase` makes of a text that is not all ASCII.
pub uninterp spec fn uppercase(text: Seq<char>) -> Seq<char>;

/// A text in capitals.
pub open spec fn capitals(text: Seq<char>) -> Seq<char> {
    if is_plain(text) {
        plain_capitals(text)
    } else {
        uppercase(text)
    }
}

/// Writes a text in capitals with `str::to_uppercase` (`std`): in ASCII text the letters from `a` to
/// `z` become those from `A` to `Z` and the rest stays; what becomes of other text is left to it, and
/// depends on the text alone.
#[verifier::external_body]
fn write_uppercase(text: &str) -> (r: String)
    ensures
        is_plain(text@) ==> r@ == plain_capitals(text@),
        !is_plain(text@) ==> r@ == uppercase(text@),
{
    text.to_uppercase()
}

/// Writes a text in capitals.
pub fn in_capitals(text: &str) -> (r: String)
    ensures
        r@ == capitals(text@),
{
    write_uppercase(text)
}

/// A text with spaces behind it, so that it has at least `width` characters.
pub open spec fn padded(text: Seq<char>, width: nat) -> Seq<char> {
    if text.len() < width {
        text + Seq::new((width - text.len()) as nat, |i: int| ' ')
    } else {
        text
    }
}

/// Writes a text with spaces behind it.
pub fn pad(text: &str, width: usize) -> (r: String)
    ensures
        r@ == padded(text@, width as nat),
{
    let mut r = text.to_owned();
    let mut count: usize = text.unicode_len();
    assert(r@ =~= text@ + Seq::new((count - text@.len()) as nat, |i: int| ' '));
    while count < width
        invariant
            text@.len() <= count,
            count <= width || count == text@.len(),
            r@ == text@ + Seq::new((count - text@.len()) as nat, |i: int| ' '),
        decreases width - count,
    {
        r.push(' ');
        count += 1;
        assert(r@ =~= text@ + Seq::new((count - text@.len()) as nat, |i: int| ' '));
    }
    assert(r@ =~= padded(text@, width as nat));
    r
}

/// The decimal digit of a number below ten.
pub open spec fn digit(n: nat) -> Seq<char> {
    if n == 0 {
        "0"@
    } else if n == 1 {
        "1"@
    } else if n == 2 {
        "2"@
    } else if n == 3 {
        "3"@
    } else if n == 4 {
        "4"@
    } else if n == 5 {
        "5"@
    } else if n == 6 {
        "6"@
    } else if n == 7 {
        "7"@
    } else if n == 8 {
        "8"@
    } else {
        "9"@
    }
}

/// A natural number in decimal, without leading zeros.
pub open spec fn decimal(n: nat) -> Seq<char>
    decreases n,
{
    if n < 10 {
        digit(n)
    } else {
        decimal(n / 10) + digit(n % 10)
    }
}

/// An integer in decimal, with a leading `-` when it is negative.
pub open spec fn integer(n: int) -> Seq<char> {
    if n < 0 {
        "-"@ + decimal((-n) as nat)
    } else {
        decimal(n as nat)
    }
}

fn digit_text(n: u128) -> (r: &'static str)
    requires
        n < 10,
    ensures
        r@ == digit(n as nat),
{
    if n == 0 {
        "0"
    } else if n == 1 {
        "1"
    } else if n == 2 {
        "2"
    } else if n == 3 {
        "3"
    } else if n == 4 {
        "4"
    } else if n == 5 {
        "5"
    } else if n == 6 {
        "6"
    } else if n == 7 {
        "7"
    } else if n == 8 {
        "8"
    } else {
        "9"
    }
}

/// Writes a natural number in decimal.
pub fn decimal_text(n: u128) -> (r: String)
    ensures
        r@ == decimal(n as nat),
    decreases n,
{
    if n < 10 {
        digit_text(n).to_owned()
    } else {
        let mut r = decimal_text(n / 10);
        r.append(digit_text(n % 10));
        r
    }
}

/// Writes an integer in decimal.
pub fn integer_text(n: i64) -> (r: String)
    ensures
        r@ == integer(n as int),
{
    if n >= 0 {
        decimal_text(n as u128)
    } else {
        let magnitude: u128 = (-(n + 1)) as u128 + 1;
        let mut r = "-".to_owned();
        r.append(decimal_text(magnitude).as_str());
        r
    }
}

/// The texts that a list of strings holds.
pub open spec fn texts(strings: Seq<String>) -> Seq<Seq<char>> {
    strings.map_values(|s: String| s@)
}

/// Copies a list of strings.
pub fn copied_texts(strings: &Vec<String>) -> (r: Vec<String>)
    ensures
        texts(r@) == texts(strings@),
{
    let mut copy: Vec<String> = Vec::new();
    let mut i: usize = 0;
    while i < strings.len()
        invariant
            i <= strings.len(),
            copy.len() == i,
            forall|j: int| 0 <= j < i ==> (#[trigger] copy[j])@ == strings[j]@,
        decreases strings.len() - i,
    {
        copy.push(strings[i].clone());
        i += 1;
    }
    assert(texts(copy@) =~= texts(strings@));
    copy
}

/// `a` does not come after `b`.
pub open spec fn not_after(a: Seq<char>, b: Seq<char>) -> bool {
    !before(b, a)
}

/// Some texts in their order.
pub open spec fn sorted(list: Seq<Seq<char>>) -> Seq<Seq<char>> {
    list.sort_by(|a: Seq<char>, b: Seq<char>| not_after(a, b))
}

/// The order of texts is a total one.
pub proof fn texts_are_totally_ordered()
    ensures
        total_ordering(|a: Seq<char>, b: Seq<char>| not_after(a, b)),
{
    assert forall|a: Seq<char>| #[trigger] not_after(a, a) by {
        before_irreflexive(a);
    }
    assert forall|a: Seq<char>, b: Seq<char>| #[trigger] not_after(a, b) && #[trigger] not_after(
        b,
        a,
    ) implies a == b by {
        before_total(a, b);
    }
    assert forall|a: Seq<char>, b: Seq<char>, c: Seq<char>| #[trigger]
        not_after(a, b) && #[trigger] not_after(b, c) implies not_after(a, c) by {
        not_after_transitive(a, b, c);
    }
    assert forall|a: Seq<char>, b: Seq<char>| #[trigger] not_after(a, b) || #[trigger] not_after(
        b,
        a,
    ) by {
        if before(a, b) && before(b, a) {
            before_transitive(a, b, a);
            before_irreflexive(a);
        }
    }
}

proof fn not_after_transitive(a: Seq<char>, b: Seq<char>, c: Seq<char>)
    requires
        not_after(a, b),
        not_after(b, c),
    ensures
        not_after(a, c),
{
    before_total(a, b);
    before_total(b, c);
    if before(c, a) {
        if a == b || b == c {
        } else {
            before_transitive(a, b, c);
            before_transitive(a, c, a);
            before_irreflexive(a);
        }
    }
}

/// Puts some texts in their order.
pub fn sorted_texts(list: Vec<String>) -> (r: Vec<String>)
    ensures
        texts(r@) == sorted(texts(list@)),
{
    let ghost leq = |a: Seq<char>, b: Seq<char>| not_after(a, b);
    let ghost all = texts(list@);
    let mut r: Vec<String> = Vec::new();
    let mut n: usize = 0;
    assert(texts(r@) =~= Seq::empty());
    assert(all.take(0) =~= Seq::empty());
    while n < list.len()
        invariant
            n <= list.len(),
            all == texts(list@),
            forall|i: int, j: int|
                0 <= i < j < r.len() ==> not_after(
                    #[trigger] texts(r@)[i],
                    #[trigger] texts(r@)[j],
                ),
            texts(r@).to_multiset() == all.take(n as int).to_multiset(),
        decreases list.len() - n,
    {
        let item = list[n].clone();
        let ghost held = texts(r@);
        let mut i: usize = 0;
        while i < r.len() && !precedes(item.as_str(), r[i].as_str())
            invariant
                i <= r.len(),
                held == texts(r@),
                forall|j: int| 0 <= j < i ==> not_after(#[trigger] held[j], item@),
            decreases r.len() - i,
        {
            assert(held[i as int] == r[i as int]@);
            i += 1;
        }
        proof {
            if i < r.len() {
                assert(held[i as int] == r[i as int]@);
                assert forall|j: int| i <= j < held.len() implies not_after(
                    item@,
                    #[trigger] held[j],
                ) by {
                    if before(held[i as int], item@) {
                        before_transitive(item@, held[i as int], item@);
                        before_irreflexive(item@);
                    }
                    if j > i {
                        not_after_transitive(item@, held[i as int], held[j]);
                    }
                }
            }
        }
        let ghost value = item@;
        r.insert(i, item);
        proof {
            assert(texts(r@) =~= held.insert(i as int, value));
            vstd::seq_lib::to_multiset_insert(held, i as int, value);
            assert(all.take(n + 1) =~= all.take(n as int).push(value));
            vstd::seq_lib::to_multiset_build(all.take(n as int), value);
        }
        n += 1;
    }
    proof {
        assert(all.take(n as int) =~= all);
        texts_are_totally_ordered();
        all.lemma_sort_by_ensures(leq);
        assert(sorted_by(texts(r@), leq)) by {
            assert forall|i: int, j: int| 0 <= i < j < texts(r@).len() implies #[trigger] leq(
                texts(r@)[i],
                texts(r@)[j],
            ) by {
                assert(not_after(texts(r@)[i], texts(r@)[j]));
            }
        }
        vstd::seq_lib::lemma_sorted_unique(texts(r@), sorted(all), leq);
    }
    r
}

/// What follows the last `mark` in a text; the whole text when it has none.
pub open spec fn after_last(text: Seq<char>, mark: char) -> Seq<char>
    decreases text.len(),
{
    if text.len() == 0 || text.last() == mark {
        Seq::empty()
    } else {
        after_last(text.drop_last(), mark).push(text.last())
    }
}

/// What follows the last `mark` in a text; the whole text when it has none.
pub fn tail_after(text: &str, mark: char) -> (r: &str)
    ensures
        r@ == after_last(text@, mark),
{
    let end: usize = text.unicode_len();
    let mut start: usize = end;
    assert(text@.take(end as int) =~= text@);
    assert(after_last(text@, mark) =~= after_last(text@, mark) + text@.subrange(
        end as int,
        end as int,
    ));
    while start > 0 && text.get_char(start - 1) != mark
        invariant
            start <= end == text@.len(),
            after_last(text@, mark) == after_last(text@.take(start as int), mark) + text@.subrange(
                start as int,
                end as int,
            ),
        decreases start,
    {
        proof {
            let prefix = text@.take(start as int);
            assert(prefix.drop_last() =~= text@.take(start - 1));
            assert(prefix.last() == text@[start - 1]);
            assert(text@.subrange(start - 1, end as int) =~= seq![text@[start - 1]]
                + text@.subrange(start as int, end as int));
            assert(after_last(prefix, mark) + text@.subrange(start as int, end as int)
                =~= after_last(text@.take(start - 1), mark) + text@.subrange(
                start - 1,
                end as int,
            ));
        }
        start -= 1;
    }
    proof {
        let prefix = text@.take(start as int);
        if start > 0 {
            assert(prefix.last() == text@[start - 1]);
        }
        assert(after_last(prefix, mark) =~= Seq::empty());
        assert(after_last(text@, mark) =~= text@.subrange(start as int, end as int));
    }
    text.substring_char(start, end)
}

/// Some texts one after the other, with `separator` between them.
pub open spec fn joined(list: Seq<Seq<char>>, separator: Seq<char>) -> Seq<char>
    decreases list.len(),
{
    if list.len() == 0 {
        Seq::empty()
    } else if list.len() == 1 {
        list[0]
    } else {
        joined(list.drop_last(), separator) + separator + list.last()
    }
}

/// Joins some texts with `separator` between them.
pub fn joined_text(list: &Vec<String>, separator: &str) -> (r: String)
    ensures
        r@ == joined(texts(list@), separator@),
{
    let mut r = String::new();
    let mut i: usize = 0;
    while i < list.len()
        invariant
            i <= list.len(),
            r@ == joined(texts(list@).take(i as int), separator@),
        decreases list.len() - i,
    {
        proof {
            let next = texts(list@).take(i + 1);
            assert(next.drop_last() =~= texts(list@).take(i as int));
            assert(next.last() == list[i as int]@);
            assert(Seq::<char>::empty() + list[i as int]@ =~= list[i as int]@);
        }
        if i > 0 {
            r.append(separator);
        }
        r.append(list[i].as_str());
        i += 1;
    }
    assert(texts(list@).take(i as int) =~= texts(list@));
    r
}

/// Whether `text` starts with `prefix`.
pub fn starts_with(text: &str, prefix: &str) -> (r: bool)
    ensures
        r == prefix@.is_prefix_of(text@),
{
    let length: usize = prefix.unicode_len();
    if text.unicode_len() < length {
        return false;
    }
    let mut i: usize = 0;
    while i < length
        invariant
            i <= length == prefix@.len(),
            length <= text@.len(),
            prefix@.take(i as int) =~= text@.take(i as int),
        decreases length - i,
    {
        if prefix.get_char(i) != text.get_char(i) {
            assert(prefix@[i as int] != text@.take(length as int)[i as int]);
            return false;
        }
        i += 1;
    }
    assert(prefix@ =~= prefix@.take(length as int));
    true
}

} // verus!

//! Numbers as text, and a few questions about text.

#[allow(unused_imports)]
use crate::places::{first_place, lemma_first_place_is};
use vstd::prelude::*;

verus! {

/// The character of a digit below 16.
pub open spec fn digit(value: nat) -> char {
    if value == 0 {
        '0'
    } else if value == 1 {
        '1'
    } else if value == 2 {
        '2'
    } else if value == 3 {
        '3'
    } else if value == 4 {
        '4'
    } else if value == 5 {
        '5'
    } else if value == 6 {
        '6'
    } else if value == 7 {
        '7'
    } else if value == 8 {
        '8'
    } else if value == 9 {
        '9'
    } else if value == 10 {
        'a'
    } else if value == 11 {
        'b'
    } else if value == 12 {
        'c'
    } else if value == 13 {
        'd'
    } else if value == 14 {
        'e'
    } else {
        'f'
    }
}

/// The digits of a number in a base of 2 to 16, without leading zeros.
pub open spec fn digits(value: nat, base: nat) -> Seq<char>
    decreases value,
{
    if base < 2 || value < base {
        seq![digit(value)]
    } else {
        proof {
            assert(value / base < value) by (nonlinear_arith)
                requires
                    value >= base,
                    base >= 2,
            ;
        }
        digits(value / base, base).push(digit(value % base))
    }
}

/// A number in decimal.
pub open spec fn decimal(value: nat) -> Seq<char> {
    digits(value, 10)
}

/// `count` times the same character.
pub open spec fn repeated(c: char, count: nat) -> Seq<char> {
    Seq::new(count, |i: int| c)
}

/// `text` filled up on the left with `fill` to at least `width` characters.
pub open spec fn padded(text: Seq<char>, width: nat, fill: char) -> Seq<char> {
    if text.len() >= width {
        text
    } else {
        repeated(fill, (width - text.len()) as nat) + text
    }
}

/// One digit as text.
fn digit_text(value: u64) -> (text: &'static str)
    requires
        value < 16,
    ensures
        text@ == seq![digit(value as nat)],
{
    proof {
        reveal_strlit("0");
        reveal_strlit("1");
        reveal_strlit("2");
        reveal_strlit("3");
        reveal_strlit("4");
        reveal_strlit("5");
        reveal_strlit("6");
        reveal_strlit("7");
        reveal_strlit("8");
        reveal_strlit("9");
        reveal_strlit("a");
        reveal_strlit("b");
        reveal_strlit("c");
        reveal_strlit("d");
        reveal_strlit("e");
        reveal_strlit("f");
    }
    if value == 0 {
        "0"
    } else if value == 1 {
        "1"
    } else if value == 2 {
        "2"
    } else if value == 3 {
        "3"
    } else if value == 4 {
        "4"
    } else if value == 5 {
        "5"
    } else if value == 6 {
        "6"
    } else if value == 7 {
        "7"
    } else if value == 8 {
        "8"
    } else if value == 9 {
        "9"
    } else if value == 10 {
        "a"
    } else if value == 11 {
        "b"
    } else if value == 12 {
        "c"
    } else if value == 13 {
        "d"
    } else if value == 14 {
        "e"
    } else {
        "f"
    }
}

/// Appends a number in a base of 2 to 16.
pub fn push_digits(out: &mut String, value: u64, base: u64)
    requires
        2 <= base <= 16,
    ensures
        final(out)@ == old(out)@ + digits(value as nat, base as nat),
    decreases value,
{
    if value < base {
        out.append(digit_text(value));
    } else {
        assert(value / base < value) by (nonlinear_arith)
            requires
                value >= base,
                base >= 2,
        ;
        push_digits(out, value / base, base);
        out.append(digit_text(value % base));
        assert(digits((value as nat) / (base as nat), base as nat).push(
            digit((value as nat) % (base as nat)),
        ) =~= digits((value as nat) / (base as nat), base as nat) + seq![
            digit((value as nat) % (base as nat)),
        ]);
        assert(out@ =~= old(out)@ + digits(value as nat, base as nat));
    }
}

/// Appends a number in decimal.
pub fn push_decimal(out: &mut String, value: u64)
    ensures
        final(out)@ == old(out)@ + decimal(value as nat),
{
    push_digits(out, value, 10);
}

/// A number in decimal.
pub fn decimal_text(value: u64) -> (text: String)
    ensures
        text@ == decimal(value as nat),
{
    let mut text = String::new();
    push_decimal(&mut text, value);
    assert(text@ =~= decimal(value as nat));
    text
}

/// Appends a number in a base of 2 to 16, filled up on the left to `width`
/// characters with `fill`, one character of text.
pub fn push_padded(out: &mut String, value: u64, base: u64, width: usize, fill: &str)
    requires
        2 <= base <= 16,
        fill@.len() == 1,
    ensures
        final(out)@ == old(out)@ + padded(digits(value as nat, base as nat), width as nat, fill@[0]),
{
    let mut number = String::new();
    push_digits(&mut number, value, base);
    assert(number@ =~= digits(value as nat, base as nat));
    let mut length: usize = number.as_str().unicode_len();
    let ghost first = length;
    while length < width
        invariant
            first <= length,
            first < width ==> length <= width,
            length > first ==> length <= width,
            fill@.len() == 1,
            out@ == old(out)@ + repeated(fill@[0], (length - first) as nat),
        decreases width - length,
    {
        out.append(fill);
        length = length + 1;
        assert(out@ =~= old(out)@ + repeated(fill@[0], (length - first) as nat));
    }
    out.append(number.as_str());
    assert(out@ =~= old(out)@ + padded(
        digits(value as nat, base as nat),
        width as nat,
        fill@[0],
    ));
}

/// Every number has at least one digit.
pub proof fn lemma_digits_nonempty(value: nat, base: nat)
    ensures
        digits(value, base).len() >= 1,
    decreases value,
{
    if base >= 2 && value >= base {
        assert(value / base < value) by (nonlinear_arith)
            requires
                value >= base,
                base >= 2,
        ;
        lemma_digits_nonempty(value / base, base);
    }
}

/// The value of a digit character.
pub open spec fn digit_value(c: char) -> nat {
    if '0' <= c <= '9' {
        (c as int - '0' as int) as nat
    } else {
        (c as int - 'a' as int + 10) as nat
    }
}

/// The number that decimal digits write.
pub open spec fn number_of(text: Seq<char>, base: nat) -> nat
    decreases text.len(),
{
    if text.len() == 0 {
        0
    } else {
        number_of(text.drop_last(), base) * base + digit_value(text.last())
    }
}

/// What is written is read back: numbers written in a base of 2 to 16 are the
/// same numbers again.
pub proof fn law_digits_read_back(value: nat, base: nat)
    requires
        2 <= base <= 16,
    ensures
        number_of(digits(value, base), base) == value,
    decreases value,
{
    reveal_with_fuel(number_of, 2);
    if value < base {
        assert(digits(value, base).drop_last() =~= Seq::<char>::empty());
    } else {
        assert(value / base < value && (value / base) * base + value % base == value
            && value % base < base) by (nonlinear_arith)
            requires
                value >= base,
                base >= 2,
        ;
        law_digits_read_back(value / base, base);
        assert(digits(value, base).drop_last() =~= digits(value / base, base));
    }
}

/// White space of Unicode.
pub open spec fn is_space(c: char) -> bool {
    let n = c as int;
    ||| 0x9 <= n <= 0xd
    ||| n == 0x20
    ||| n == 0x85
    ||| n == 0xa0
    ||| n == 0x1680
    ||| 0x2000 <= n <= 0x200a
    ||| n == 0x2028
    ||| n == 0x2029
    ||| n == 0x202f
    ||| n == 0x205f
    ||| n == 0x3000
}

/// A character is white space.
pub fn char_is_space(c: char) -> (space: bool)
    ensures
        space == is_space(c),
{
    let n: u32 = c as u32;
    (0x9 <= n && n <= 0xd) || n == 0x20 || n == 0x85 || n == 0xa0 || n == 0x1680 || (0x2000 <= n
        && n <= 0x200a) || n == 0x2028 || n == 0x2029 || n == 0x202f || n == 0x205f || n == 0x3000
}

/// Text without the white space at both ends.
pub open spec fn trimmed(text: Seq<char>) -> Seq<char>
    decreases text.len(),
{
    if text.len() == 0 {
        text
    } else if is_space(text[0]) {
        trimmed(text.drop_first())
    } else if is_space(text.last()) {
        trimmed(text.drop_last())
    } else {
        text
    }
}

/// Text without the white space at both ends.
pub fn trim(text: &str) -> (inner: &str)
    ensures
        inner@ == trimmed(text@),
{
    let count: usize = text.unicode_len();
    let mut from: usize = 0;
    let mut to: usize = count;
    assert(text@.subrange(0, count as int) =~= text@);
    while from < to && char_is_space(text.get_char(from))
        invariant
            from <= to <= text@.len(),
            trimmed(text@.subrange(from as int, to as int)) == trimmed(text@),
        decreases to - from,
    {
        assert(text@.subrange(from as int, to as int).drop_first() =~= text@.subrange(
            from + 1,
            to as int,
        ));
        from = from + 1;
    }
    while from < to && char_is_space(text.get_char(to - 1))
        invariant
            from <= to <= text@.len(),
            from < to ==> !is_space(text@[from as int]),
            trimmed(text@.subrange(from as int, to as int)) == trimmed(text@),
        decreases to - from,
    {
        assert(text@.subrange(from as int, to as int).drop_last() =~= text@.subrange(
            from as int,
            to - 1,
        ));
        to = to - 1;
    }
    text.substring_char(from, to)
}

/// Nothing but white space.
pub open spec fn blank(text: Seq<char>) -> bool {
    forall|i: int| 0 <= i < text.len() ==> is_space(#[trigger] text[i])
}

/// Nothing but white space.
pub fn is_blank(text: &str) -> (is_blank: bool)
    ensures
        is_blank == blank(text@),
{
    let count: usize = text.unicode_len();
    let mut i: usize = 0;
    while i < count
        invariant
            i <= count == text@.len(),
            forall|j: int| 0 <= j < i ==> is_space(#[trigger] text@[j]),
        decreases count - i,
    {
        if !char_is_space(text.get_char(i)) {
            return false;
        }
        i = i + 1;
    }
    true
}

/// Text that is nothing but white space is the text of which nothing is left.
pub proof fn law_blank_text_trims_to_nothing(text: Seq<char>)
    ensures
        blank(text) <==> trimmed(text).len() == 0,
    decreases text.len(),
{
    if text.len() > 0 {
        if is_space(text[0]) {
            law_blank_text_trims_to_nothing(text.drop_first());
            if blank(text.drop_first()) {
                assert forall|i: int| 0 <= i < text.len() implies is_space(#[trigger] text[i]) by {
                    if i > 0 {
                        assert(text.drop_first()[i - 1] == text[i]);
                    }
                }
            }
            if blank(text) {
                assert forall|i: int| 0 <= i < text.drop_first().len() implies is_space(
                    #[trigger] text.drop_first()[i],
                ) by {
                    assert(is_space(text[i + 1]));
                }
            }
        } else {
            assert(!blank(text));
            if is_space(text.last()) {
                law_blank_text_trims_to_nothing(text.drop_last());
                assert(text.drop_last()[0] == text[0]);
            }
        }
    }
}

/// The name that a service takes: the one its arguments give, or the usual one
/// where they give none.
pub fn service_name(args: &str, usual: &str) -> (name: String)
    ensures
        name@ == (if blank(args@) {
            usual@
        } else {
            trimmed(args@)
        }),
{
    proof {
        law_blank_text_trims_to_nothing(args@);
    }
    let given = trim(args);
    if given.unicode_len() == 0 {
        usual.to_owned()
    } else {
        given.to_owned()
    }
}

/// Whether two texts are the same.
pub fn same_text(first: &str, second: &str) -> (same: bool)
    ensures
        same == (first@ == second@),
{
    first.to_owned() == second.to_owned()
}

/// Whether a character occurs in a text.
pub fn has_char(text: &str, c: char) -> (has: bool)
    ensures
        has == text@.contains(c),
{
    let count: usize = text.unicode_len();
    let mut i: usize = 0;
    while i < count
        invariant
            i <= count == text@.len(),
            forall|k: int| 0 <= k < i ==> text@[k] != c,
        decreases count - i,
    {
        if text.get_char(i) == c {
            return true;
        }
        i += 1;
    }
    false
}

/// A character as a lower-case one, where it is an upper-case letter of ASCII.
pub open spec fn lowered_char(c: char) -> char {
    if 'A' <= c && c <= 'Z' {
        ((c as u32) + 32) as char
    } else {
        c
    }
}

/// Text with the upper-case letters of ASCII made lower-case.
pub open spec fn lowered(text: Seq<char>) -> Seq<char> {
    text.map_values(|c: char| lowered_char(c))
}

/// Text with the upper-case letters of ASCII made lower-case.
pub fn lowercase(text: &str) -> (result: String)
    ensures
        result@ == lowered(text@),
{
    let letters = "abcdefghijklmnopqrstuvwxyz";
    proof {
        reveal_strlit("abcdefghijklmnopqrstuvwxyz");
    }
    let count: usize = text.unicode_len();
    let mut result = String::new();
    let mut i: usize = 0;
    assert(result@ =~= lowered(text@.take(0)));
    while i < count
        invariant
            i <= count == text@.len(),
            letters@.len() == 26,
            forall|k: int| 0 <= k < 26 ==> #[trigger] letters@[k] == (97 + k) as char,
            result@ == lowered(text@.take(i as int)),
        decreases count - i,
    {
        let c = text.get_char(i);
        let ghost before = result@;
        if 'A' <= c && c <= 'Z' {
            let place: usize = c as usize - 65;
            result.append(letters.substring_char(place, place + 1));
            assert(letters@.subrange(place as int, place + 1) =~= seq![letters@[place as int]]);
            assert((c as u32) + 32 == 97 + place);
            assert(letters@[place as int] == lowered_char(c));
        } else {
            result.append(text.substring_char(i, i + 1));
            assert(text@.subrange(i as int, i + 1) =~= seq![c]);
        }
        i += 1;
        assert(text@.take(i as int) =~= text@.take(i - 1).push(c));
        assert(lowered(text@.take(i as int)) =~= before.push(lowered_char(c)));
    }
    assert(text@.take(i as int) =~= text@);
    result
}

/// Whether a text stands before another in the order of its characters' numbers.
pub open spec fn precedes(first: Seq<char>, second: Seq<char>) -> bool
    decreases first.len(),
{
    if second.len() == 0 {
        false
    } else if first.len() == 0 {
        true
    } else if first[0] == second[0] {
        precedes(first.skip(1), second.skip(1))
    } else {
        first[0] < second[0]
    }
}

/// Whether a text stands before another.
pub fn is_before(first: &str, second: &str) -> (before: bool)
    ensures
        before == precedes(first@, second@),
{
    let short: usize = first.unicode_len();
    let long: usize = second.unicode_len();
    let mut i: usize = 0;
    assert(first@.skip(0) =~= first@);
    assert(second@.skip(0) =~= second@);
    while i < short && i < long
        invariant
            i <= short == first@.len(),
            i <= long == second@.len(),
            precedes(first@, second@) == precedes(first@.skip(i as int), second@.skip(i as int)),
        decreases short - i,
    {
        let a: char = first.get_char(i);
        let b: char = second.get_char(i);
        assert(first@.skip(i as int)[0] == a);
        assert(second@.skip(i as int)[0] == b);
        if a != b {
            return a < b;
        }
        assert(first@.skip(i as int).skip(1) =~= first@.skip(i + 1));
        assert(second@.skip(i as int).skip(1) =~= second@.skip(i + 1));
        i += 1;
    }
    i < long
}

/// Of two different texts one stands before the other, and not the other way round.
pub proof fn lemma_one_precedes(first: Seq<char>, second: Seq<char>)
    ensures
        precedes(first, second) ==> !precedes(second, first) && first != second,
        first != second ==> precedes(first, second) || precedes(second, first),
    decreases first.len(),
{
    if first.len() > 0 && second.len() > 0 && first[0] == second[0] {
        lemma_one_precedes(first.skip(1), second.skip(1));
        assert(first =~= seq![first[0]] + first.skip(1));
        assert(second =~= seq![second[0]] + second.skip(1));
    } else if first.len() == 0 && second.len() == 0 {
        assert(first =~= second);
    }
}

/// What stands before something stands before what that stands before.
pub proof fn lemma_precedes_on(first: Seq<char>, second: Seq<char>, third: Seq<char>)
    requires
        precedes(first, second),
        precedes(second, third),
    ensures
        precedes(first, third),
    decreases first.len(),
{
    if first.len() > 0 && second.len() > 0 && third.len() > 0 && first[0] == second[0]
        && second[0] == third[0] {
        lemma_precedes_on(first.skip(1), second.skip(1), third.skip(1));
    }
}

/// What a list of texts says.
pub open spec fn texts(list: Seq<String>) -> Seq<Seq<char>> {
    list.map_values(|t: String| t@)
}

/// Each text stands before those behind it.
pub open spec fn ascending(list: Seq<Seq<char>>) -> bool {
    forall|i: int, j: int|
        0 <= i < j < list.len() ==> precedes(#[trigger] list[i], #[trigger] list[j])
}

/// Puts a text where it belongs in a list of ascending ones.
pub fn insert_text(list: &mut Vec<String>, text: String)
    requires
        ascending(texts(old(list)@)),
        !texts(old(list)@).contains(text@),
    ensures
        ascending(texts(final(list)@)),
        forall|t: Seq<char>|
            texts(final(list)@).contains(t) <==> texts(old(list)@).contains(t) || t == text@,
{
    let ghost before = texts(list@);
    let ghost new = text@;
    let mut i: usize = 0;
    while i < list.len() && !is_before(text.as_str(), list[i].as_str())
        invariant
            i <= list@.len(),
            before == texts(list@),
            new == text@,
            list@ == old(list)@,
            forall|k: int| 0 <= k < i ==> !precedes(new, #[trigger] before[k]),
        decreases list@.len() - i,
    {
        assert(before[i as int] == list@[i as int]@);
        i += 1;
    }
    proof {
        if i < list@.len() {
            assert(before[i as int] == list@[i as int]@);
        }
    }
    list.insert(i, text);
    let ghost after = texts(list@);
    assert(after =~= before.insert(i as int, new));
    assert forall|a: int, b: int| 0 <= a < b < after.len() implies precedes(
        #[trigger] after[a],
        #[trigger] after[b],
    ) by {
        if b == i {
            assert(before[a] == after[a]);
            assert(before.contains(before[a]));
            lemma_one_precedes(before[a], new);
        } else if a == i {
            assert(before[b - 1] == after[b]);
            if b - 1 > i {
                lemma_precedes_on(new, before[i as int], before[b - 1]);
            }
        } else {
            let from = if a < i {
                a
            } else {
                a - 1
            };
            let to = if b < i {
                b
            } else {
                b - 1
            };
            assert(before[from] == after[a]);
            assert(before[to] == after[b]);
        }
    }
    assert forall|t: Seq<char>| after.contains(t) <==> before.contains(t) || t == new by {
        if after.contains(t) {
            let k = choose|k: int| 0 <= k < after.len() && after[k] == t;
            if k < i {
                assert(before[k] == t);
            } else if k > i {
                assert(before[k - 1] == t);
            }
        }
        if before.contains(t) {
            let k = choose|k: int| 0 <= k < before.len() && before[k] == t;
            if k < i {
                assert(after[k] == t);
            } else {
                assert(after[k + 1] == t);
            }
        }
        assert(after[i as int] == new);
    }
}

/// The place of a text in a list, or the length where it is not there.
pub open spec fn text_place(list: Seq<Seq<char>>, text: Seq<char>) -> int {
    first_place(list, |t: Seq<char>| t == text)
}

/// Looks for a text in a list.
pub fn find_text(list: &Vec<String>, text: &str) -> (place: usize)
    ensures
        place == text_place(texts(list@), text@),
        place <= list@.len(),
        place < list@.len() <==> texts(list@).contains(text@),
        place < list@.len() ==> list@[place as int]@ == text@,
{
    let ghost all = texts(list@);
    let ghost holds = |t: Seq<char>| t == text@;
    let mut i: usize = 0;
    while i < list.len() && !same_text(list[i].as_str(), text)
        invariant
            i <= list@.len(),
            all == texts(list@),
            holds == |t: Seq<char>| t == text@,
            forall|k: int| 0 <= k < i ==> !holds(#[trigger] all[k]),
        decreases list@.len() - i,
    {
        assert(all[i as int] == list@[i as int]@);
        i += 1;
    }
    proof {
        if i < list@.len() {
            assert(all[i as int] == list@[i as int]@);
        }
        lemma_first_place_is(all, holds, i as int);
        if i == list@.len() && all.contains(text@) {
            let k = choose|k: int| 0 <= k < all.len() && all[k] == text@;
            assert(!holds(all[k]));
        }
    }
    i
}

} // verus!

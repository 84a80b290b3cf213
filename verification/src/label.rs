//! Ticket identifiers: the concert's number and the ticket's number, both in
//! decimal, separated by a comma and a space.

use vstd::prelude::*;

verus! {

/// The character that stands for a decimal digit.
pub open spec fn digit(d: nat) -> char {
    if d == 0 {
        '0'
    } else if d == 1 {
        '1'
    } else if d == 2 {
        '2'
    } else if d == 3 {
        '3'
    } else if d == 4 {
        '4'
    } else if d == 5 {
        '5'
    } else if d == 6 {
        '6'
    } else if d == 7 {
        '7'
    } else if d == 8 {
        '8'
    } else {
        '9'
    }
}

/// The digit that a character stands for; 0 for any other character.
pub open spec fn digit_value(c: char) -> nat {
    if c == '1' {
        1
    } else if c == '2' {
        2
    } else if c == '3' {
        3
    } else if c == '4' {
        4
    } else if c == '5' {
        5
    } else if c == '6' {
        6
    } else if c == '7' {
        7
    } else if c == '8' {
        8
    } else if c == '9' {
        9
    } else {
        0
    }
}

/// The decimal numeral of `n`, most significant digit first, without
/// leading zeros.
pub open spec fn decimal(n: nat) -> Seq<char>
    decreases n,
{
    if n < 10 {
        seq![digit(n)]
    } else {
        decimal(n / 10).push(digit(n % 10))
    }
}

/// The number that a sequence of digits denotes.
pub open spec fn numeral_value(s: Seq<char>) -> nat
    decreases s.len(),
{
    if s.len() == 0 {
        0
    } else {
        numeral_value(s.drop_last()) * 10 + digit_value(s.last())
    }
}

/// What stands between the two numbers of a ticket identifier.
pub open spec fn separator() -> Seq<char> {
    seq![',', ' ']
}

/// The identifier of the ticket sold for `concert_id` when `number` tickets
/// were left.
pub open spec fn ticket_label(concert_id: nat, number: nat) -> Seq<char> {
    decimal(concert_id) + separator() + decimal(number)
}

/// A numeral is never empty and holds no comma.
pub proof fn lemma_decimal_shape(n: nat)
    ensures
        decimal(n).len() >= 1,
        forall|i: int| 0 <= i < decimal(n).len() ==> decimal(n)[i] != ',',
    decreases n,
{
    if n >= 10 {
        lemma_decimal_shape(n / 10);
    }
}

/// Reading a numeral gives the number back.
pub proof fn lemma_decimal_value(n: nat)
    ensures
        numeral_value(decimal(n)) == n,
    decreases n,
{
    let s = decimal(n);
    if n < 10 {
        assert(s.drop_last() =~= Seq::<char>::empty());
        assert(numeral_value(s.drop_last()) == 0);
    } else {
        lemma_decimal_value(n / 10);
        assert(s.drop_last() =~= decimal(n / 10));
        assert(s.last() == digit(n % 10));
    }
}

/// Two numbers with the same numeral are the same number.
pub proof fn lemma_decimal_injective(a: nat, b: nat)
    requires
        decimal(a) == decimal(b),
    ensures
        a == b,
{
    lemma_decimal_value(a);
    lemma_decimal_value(b);
}

/// Two tickets with the same identifier belong to the same concert and carry
/// the same number.
pub proof fn lemma_ticket_label_injective(c1: nat, k1: nat, c2: nat, k2: nat)
    requires
        ticket_label(c1, k1) == ticket_label(c2, k2),
    ensures
        c1 == c2,
        k1 == k2,
{
    let s = ticket_label(c1, k1);
    let d1 = decimal(c1);
    let d2 = decimal(c2);
    lemma_decimal_shape(c1);
    lemma_decimal_shape(c2);
    lemma_decimal_shape(k1);
    lemma_decimal_shape(k2);
    assert(s == d1 + separator() + decimal(k1));
    assert(s == d2 + separator() + decimal(k2));
    if d1.len() < d2.len() {
        assert((d1 + separator() + decimal(k1))[d1.len() as int] == ',');
        assert((d2 + separator() + decimal(k2))[d1.len() as int] == d2[d1.len() as int]);
        assert(false);
    }
    if d2.len() < d1.len() {
        assert((d2 + separator() + decimal(k2))[d2.len() as int] == ',');
        assert((d1 + separator() + decimal(k1))[d2.len() as int] == d1[d2.len() as int]);
        assert(false);
    }
    let n = d1.len() as int;
    assert(s.subrange(0, n) =~= d1);
    assert(s.subrange(0, n) =~= d2);
    assert(s.subrange(n + 2, s.len() as int) =~= decimal(k1));
    assert(s.subrange(n + 2, s.len() as int) =~= decimal(k2));
    lemma_decimal_injective(c1, c2);
    lemma_decimal_injective(k1, k2);
}

/// The one-character text of a decimal digit.
fn digit_text(d: u32) -> (text: &'static str)
    requires
        d < 10,
    ensures
        text@ == seq![digit(d as nat)],
{
    proof {
        reveal_strlit("0");
        reveal_strlit("1");
        reveal_strlit("2");
        reveal_strlit("3");
        reveal_strlit("4");
        reveal_strlit("5");
        reveal_strlit("6");
        reveal_strlit("7");
        reveal_strlit("8");
        reveal_strlit("9");
    }
    let text = if d == 0 {
        "0"
    } else if d == 1 {
        "1"
    } else if d == 2 {
        "2"
    } else if d == 3 {
        "3"
    } else if d == 4 {
        "4"
    } else if d == 5 {
        "5"
    } else if d == 6 {
        "6"
    } else if d == 7 {
        "7"
    } else if d == 8 {
        "8"
    } else {
        "9"
    };
    assert(text@ =~= seq![digit(d as nat)]);
    text
}

/// Appends the decimal numeral of `n` to `out`.
pub fn push_decimal(out: &mut String, n: u32)
    ensures
        final(out)@ == old(out)@ + decimal(n as nat),
    decreases n,
{
    if n >= 10 {
        push_decimal(out, n / 10);
    }
    out.append(digit_text(n % 10));
    assert(out@ =~= old(out)@ + decimal(n as nat));
}

/// Writes the identifier of the ticket sold for `concert_id` when `number`
/// tickets were left.
pub fn format_ticket_label(concert_id: u32, number: u32) -> (label: String)
    ensures
        label@ == ticket_label(concert_id as nat, number as nat),
{
    let mut label = String::new();
    push_decimal(&mut label, concert_id);
    proof {
        reveal_strlit(", ");
    }
    label.append(", ");
    push_decimal(&mut label, number);
    assert(label@ =~= ticket_label(concert_id as nat, number as nat));
    label
}

} // verus!

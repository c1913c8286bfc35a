//! Record identifiers: a prefix, the time of creation and a sequence number,
//! written in decimal and joined by hyphens.

use vstd::prelude::*;
use vstd::string::*;

verus! {

/// The character that stands for one decimal digit.
pub open spec fn digit_char(d: nat) -> char {
    if d == 0 {
        '0'
    } else if d == 1 {
        '1'
    } else if d == 2 {
        '2'
    } else if d == 3 {
        '3'
    } else if d == 4 {
        '4'
    } else if d == 5 {
        '5'
    } else if d == 6 {
        '6'
    } else if d == 7 {
        '7'
    } else if d == 8 {
        '8'
    } else {
        '9'
    }
}

/// The digit that a character stands for; zero for any other character.
pub open spec fn digit_value(c: char) -> nat {
    if c == '1' {
        1
    } else if c == '2' {
        2
    } else if c == '3' {
        3
    } else if c == '4' {
        4
    } else if c == '5' {
        5
    } else if c == '6' {
        6
    } else if c == '7' {
        7
    } else if c == '8' {
        8
    } else if c == '9' {
        9
    } else {
        0
    }
}

/// A natural number in decimal, without leading zeros.
pub open spec fn decimal(n: nat) -> Seq<char>
    decreases n,
{
    if n < 10 {
        seq![digit_char(n)]
    } else {
        decimal(n / 10).push(digit_char(n % 10))
    }
}

/// An integer in decimal, with a leading minus sign where it is negative.
pub open spec fn signed_decimal(i: int) -> Seq<char> {
    if i < 0 {
        seq!['-'] + decimal((-i) as nat)
    } else {
        decimal(i as nat)
    }
}

/// The number that a run of digits stands for.
pub open spec fn decimal_value(s: Seq<char>) -> nat
    decreases s.len(),
{
    if s.len() == 0 {
        0
    } else {
        decimal_value(s.drop_last()) * 10 + digit_value(s.last())
    }
}

/// The text of an identifier.
pub open spec fn id_text(prefix: Seq<char>, now: int, seq: nat) -> Seq<char> {
    prefix + seq!['-'] + signed_decimal(now) + seq!['-'] + decimal(seq)
}

/// Reading a number back from its decimal text gives the number.
pub proof fn lemma_decimal_value(n: nat)
    ensures
        decimal_value(decimal(n)) == n,
    decreases n,
{
    if n < 10 {
        let s = seq![digit_char(n)];
        assert(s.drop_last() =~= Seq::<char>::empty());
        assert(decimal_value(s.drop_last()) == 0);
        assert(s.last() == digit_char(n));
    } else {
        lemma_decimal_value(n / 10);
        let s = decimal(n / 10).push(digit_char(n % 10));
        assert(s.drop_last() =~= decimal(n / 10));
        assert(s.last() == digit_char(n % 10));
    }
}

/// Two identifiers with the same prefix and time are equal only if their
/// sequence numbers are.
pub proof fn lemma_id_text_injective(prefix: Seq<char>, now: int, a: nat, b: nat)
    requires
        id_text(prefix, now, a) == id_text(prefix, now, b),
    ensures
        a == b,
{
    let head = prefix + seq!['-'] + signed_decimal(now) + seq!['-'];
    let x = head + decimal(a);
    let y = head + decimal(b);
    assert(x.subrange(head.len() as int, x.len() as int) =~= decimal(a));
    assert(y.subrange(head.len() as int, y.len() as int) =~= decimal(b));
    lemma_decimal_value(a);
    lemma_decimal_value(b);
}

fn digit_str(d: u8) -> (r: &'static str)
    requires
        d < 10,
    ensures
        r@ == seq![digit_char(d as nat)],
{
    proof {
        reveal_strlit("0");
        reveal_strlit("1");
        reveal_strlit("2");
        reveal_strlit("3");
        reveal_strlit("4");
        reveal_strlit("5");
        reveal_strlit("6");
        reveal_strlit("7");
        reveal_strlit("8");
        reveal_strlit("9");
    }
    let r = if d == 0 {
        "0"
    } else if d == 1 {
        "1"
    } else if d == 2 {
        "2"
    } else if d == 3 {
        "3"
    } else if d == 4 {
        "4"
    } else if d == 5 {
        "5"
    } else if d == 6 {
        "6"
    } else if d == 7 {
        "7"
    } else if d == 8 {
        "8"
    } else {
        "9"
    };
    assert(r@ =~= seq![digit_char(d as nat)]);
    r
}

/// Appends a natural number in decimal.
pub fn push_decimal(out: &mut String, n: u128)
    ensures
        final(out)@ == old(out)@ + decimal(n as nat),
    decreases n,
{
    if n >= 10 {
        push_decimal(out, n / 10);
    }
    let d: u8 = (n % 10) as u8;
    out.append(digit_str(d));
    assert(out@ =~= old(out)@ + decimal(n as nat));
}

/// Appends an integer in decimal.
pub fn push_signed_decimal(out: &mut String, i: i64)
    ensures
        final(out)@ == old(out)@ + signed_decimal(i as int),
{
    let wide: i128 = i as i128;
    if wide < 0 {
        proof {
            reveal_strlit("-");
        }
        out.append("-");
        push_decimal(out, (-wide) as u128);
        assert(out@ =~= old(out)@ + signed_decimal(i as int));
    } else {
        push_decimal(out, wide as u128);
    }
}

/// Makes the identifier for the next record and advances the sequence
/// number, which starts over after its largest value.
pub fn next_id(prefix: &str, now: i64, seq: &mut u64) -> (id: String)
    ensures
        id@ == id_text(prefix@, now as int, *old(seq) as nat),
        *final(seq) == if *old(seq) == u64::MAX {
            0
        } else {
            (*old(seq) + 1) as u64
        },
{
    proof {
        reveal_strlit("-");
    }
    let mut id = prefix.to_owned();
    id.append("-");
    push_signed_decimal(&mut id, now);
    id.append("-");
    push_decimal(&mut id, *seq as u128);
    *seq = if *seq == u64::MAX {
        0
    } else {
        *seq + 1
    };
    assert(id@ =~= id_text(prefix@, now as int, *old(seq) as nat));
    id
}

} // verus!

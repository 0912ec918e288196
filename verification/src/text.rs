//! Numbers and addresses as text.
use vstd::prelude::*;
use vstd::string::StringExecFns;

verus! {

/// The decimal digit `d` as a character.
pub open spec fn digit(d: nat) -> char {
    ('0' as int + d) as char
}

/// `n` in decimal, without leading zeros.
pub open spec fn decimal(n: nat) -> Seq<char>
    decreases n,
{
    if n < 10 {
        seq![digit(n)]
    } else {
        decimal(n / 10).push(digit(n % 10))
    }
}

/// Appends one decimal digit.
fn push_digit(text: &mut String, d: u32)
    requires
        d < 10,
    ensures
        final(text)@ == old(text)@.push(digit(d as nat)),
{
    let s = match d {
        0 => "0",
        1 => "1",
        2 => "2",
        3 => "3",
        4 => "4",
        5 => "5",
        6 => "6",
        7 => "7",
        8 => "8",
        _ => "9",
    };
    proof {
        reveal_strlit("0");
        reveal_strlit("1");
        reveal_strlit("2");
        reveal_strlit("3");
        reveal_strlit("4");
        reveal_strlit("5");
        reveal_strlit("6");
        reveal_strlit("7");
        reveal_strlit("8");
        reveal_strlit("9");
        assert(s@ =~= seq![digit(d as nat)]);
    }
    text.append(s);
    assert(text@ =~= old(text)@.push(digit(d as nat)));
}

/// Appends `n` in decimal.
pub fn push_decimal(text: &mut String, n: u32)
    ensures
        final(text)@ == old(text)@ + decimal(n as nat),
    decreases n,
{
    if n < 10 {
        push_digit(text, n);
    } else {
        push_decimal(text, n / 10);
        push_digit(text, n % 10);
    }
    assert(text@ =~= old(text)@ + decimal(n as nat));
}

/// The octets `a.b.c.d` with `port`, as an address is written.
pub open spec fn address(a: nat, b: nat, c: nat, d: nat, port: nat) -> Seq<char> {
    decimal(a) + seq!['.'] + decimal(b) + seq!['.'] + decimal(c) + seq!['.'] + decimal(d)
        + seq![':'] + decimal(port)
}

/// Writes an address.
pub fn format_address(a: u32, b: u32, c: u32, d: u32, port: u16) -> (text: String)
    ensures
        text@ == address(a as nat, b as nat, c as nat, d as nat, port as nat),
{
    proof {
        reveal_strlit(".");
        reveal_strlit(":");
        assert("."@ =~= seq!['.']);
        assert(":"@ =~= seq![':']);
    }
    let mut text = String::new();
    push_decimal(&mut text, a);
    text.append(".");
    push_decimal(&mut text, b);
    text.append(".");
    push_decimal(&mut text, c);
    text.append(".");
    push_decimal(&mut text, d);
    text.append(":");
    push_decimal(&mut text, port as u32);
    assert(text@ =~= address(a as nat, b as nat, c as nat, d as nat, port as nat));
    text
}

/// A number in decimal has at least one character, and all of them are digits.
proof fn lemma_decimal_is_digits(n: nat)
    ensures
        decimal(n).len() > 0,
        forall|i: int| 0 <= i < decimal(n).len() ==> '0' <= #[trigger] decimal(n)[i] <= '9',
    decreases n,
{
    if n >= 10 {
        lemma_decimal_is_digits(n / 10);
    }
}

/// The last character is the last digit; a number below 10 has no other, and before it stands a
/// tenth of the number if it is 10 or more.
proof fn lemma_decimal_ends(n: nat)
    ensures
        decimal(n).last() == digit(n % 10),
        n < 10 <==> decimal(n).len() == 1,
        n >= 10 ==> decimal(n).drop_last() == decimal(n / 10),
{
    lemma_decimal_is_digits(n / 10);
    if n >= 10 {
        assert(decimal(n).drop_last() =~= decimal(n / 10));
    }
}

/// Numbers that look the same in decimal are the same.
proof fn lemma_decimal_determines(a: nat, b: nat)
    requires
        decimal(a) == decimal(b),
    ensures
        a == b,
    decreases a,
{
    lemma_decimal_ends(a);
    lemma_decimal_ends(b);
    if a >= 10 && b >= 10 {
        lemma_decimal_determines(a / 10, b / 10);
    }
}

/// Two texts that begin with a number and a sign that is no digit are the same only if the numbers
/// are, and what follows the sign.
proof fn lemma_number_first(a: nat, b: nat, sign: char, x: Seq<char>, y: Seq<char>)
    requires
        sign < '0' || sign > '9',
        decimal(a) + seq![sign] + x == decimal(b) + seq![sign] + y,
    ensures
        a == b,
        x == y,
{
    let s = decimal(a);
    let t = decimal(b);
    let whole = s + seq![sign] + x;
    lemma_decimal_is_digits(a);
    lemma_decimal_is_digits(b);
    assert(whole[s.len() as int] == sign);
    assert(whole[t.len() as int] == sign);
    assert(s.len() == t.len()) by {
        if s.len() < t.len() {
            assert(whole[s.len() as int] == t[s.len() as int]);
        }
        if t.len() < s.len() {
            assert(whole[t.len() as int] == s[t.len() as int]);
        }
    }
    assert(s =~= whole.take(s.len() as int));
    assert(t =~= whole.take(t.len() as int));
    lemma_decimal_determines(a, b);
    assert(x =~= whole.skip(1 + s.len() as int));
    assert(y =~= whole.skip(1 + t.len() as int));
}

/// Addresses that are written the same are the same, octet by octet and in the port.
pub proof fn law_address_determines_its_parts(
    a: (nat, nat, nat, nat, nat),
    b: (nat, nat, nat, nat, nat),
)
    requires
        address(a.0, a.1, a.2, a.3, a.4) == address(b.0, b.1, b.2, b.3, b.4),
    ensures
        a == b,
{
    let dot = seq!['.'];
    let colon = seq![':'];
    let a3 = decimal(a.3) + colon + decimal(a.4);
    let b3 = decimal(b.3) + colon + decimal(b.4);
    let a2 = decimal(a.2) + dot + a3;
    let b2 = decimal(b.2) + dot + b3;
    let a1 = decimal(a.1) + dot + a2;
    let b1 = decimal(b.1) + dot + b2;
    assert(address(a.0, a.1, a.2, a.3, a.4) =~= decimal(a.0) + dot + a1);
    assert(address(b.0, b.1, b.2, b.3, b.4) =~= decimal(b.0) + dot + b1);
    lemma_number_first(a.0, b.0, '.', a1, b1);
    lemma_number_first(a.1, b.1, '.', a2, b2);
    lemma_number_first(a.2, b.2, '.', a3, b3);
    lemma_number_first(a.3, b.3, ':', decimal(a.4), decimal(b.4));
    lemma_decimal_determines(a.4, b.4);
}

/// A number in decimal ends with its last digit. Below 10 there is nothing before it; from 10 on
/// there stands what a tenth of the number, rounded down, is in decimal.
pub proof fn law_decimal_counts_in_tens(n: nat, i: int)
    ensures
        n < 10 ==> decimal(n).len() == 1,
        n >= 10 ==> decimal(n).len() == decimal(n / 10).len() + 1,
        decimal(n).last() as int == '0' as int + n % 10,
        n >= 10 && 0 <= i < decimal(n / 10).len() ==> decimal(n)[i] == decimal(n / 10)[i],
{
    lemma_decimal_ends(n);
    lemma_decimal_is_digits(n / 10);
    if n >= 10 {
        assert(decimal(n) =~= decimal(n / 10).push(digit(n % 10)));
    }
}

/// An address is read off its text from the front: the first number up to the first dot, and so on
/// to the third dot, then the fourth number up to the colon, and then the port.
pub proof fn law_address_is_read_from_the_front(a: nat, b: nat, c: nat, d: nat, port: nat)
    ensures
        ({
            let text = address(a, b, c, d, port);
            let first = decimal(a).len() as int;
            let second = first + 1 + decimal(b).len();
            let third = second + 1 + decimal(c).len();
            let fourth = third + 1 + decimal(d).len();
            &&& text.len() == fourth + 1 + decimal(port).len()
            &&& text.subrange(0, first) == decimal(a)
            &&& text[first] == '.'
            &&& text.subrange(first + 1, second) == decimal(b)
            &&& text[second] == '.'
            &&& text.subrange(second + 1, third) == decimal(c)
            &&& text[third] == '.'
            &&& text.subrange(third + 1, fourth) == decimal(d)
            &&& text[fourth] == ':'
            &&& text.subrange(fourth + 1, text.len() as int) == decimal(port)
        }),
{
}

} // verus!

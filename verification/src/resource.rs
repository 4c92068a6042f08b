//! Resource identifiers: the tokens that name sessions towards clients.
//!
//! An identifier is a number of 128 bits. Its text is that number in
//! thirty-two lower-case hexadecimal digits, which is safe in a URL path.

use vstd::prelude::*;
use vstd::string::{StrSliceExecFns, StringExecFns};

verus! {

/// The number of digits in the text of an identifier.
pub const TEXT_LEN: usize = 32;

/// The token that names one session.
#[derive(Clone, Copy, Debug, PartialEq, Eq, Structural)]
pub struct ResourceId {
    pub token: u128,
}

/// The character of a hexadecimal digit.
pub open spec fn digit_char(digit: int) -> char {
    if digit == 0 {
        '0'
    } else if digit == 1 {
        '1'
    } else if digit == 2 {
        '2'
    } else if digit == 3 {
        '3'
    } else if digit == 4 {
        '4'
    } else if digit == 5 {
        '5'
    } else if digit == 6 {
        '6'
    } else if digit == 7 {
        '7'
    } else if digit == 8 {
        '8'
    } else if digit == 9 {
        '9'
    } else if digit == 10 {
        'a'
    } else if digit == 11 {
        'b'
    } else if digit == 12 {
        'c'
    } else if digit == 13 {
        'd'
    } else if digit == 14 {
        'e'
    } else {
        'f'
    }
}

/// The hexadecimal digit that a character stands for, if it is one.
pub open spec fn digit_of(c: char) -> Option<int> {
    if c == '0' {
        Some(0)
    } else if c == '1' {
        Some(1)
    } else if c == '2' {
        Some(2)
    } else if c == '3' {
        Some(3)
    } else if c == '4' {
        Some(4)
    } else if c == '5' {
        Some(5)
    } else if c == '6' {
        Some(6)
    } else if c == '7' {
        Some(7)
    } else if c == '8' {
        Some(8)
    } else if c == '9' {
        Some(9)
    } else if c == 'a' {
        Some(10)
    } else if c == 'b' {
        Some(11)
    } else if c == 'c' {
        Some(12)
    } else if c == 'd' {
        Some(13)
    } else if c == 'e' {
        Some(14)
    } else if c == 'f' {
        Some(15)
    } else {
        None
    }
}

/// The hexadecimal digit of `value` at `place`, place zero being the lowest.
pub open spec fn nibble(value: nat, place: nat) -> int
    decreases place,
{
    if place == 0 {
        (value % 16) as int
    } else {
        nibble(value / 16, (place - 1) as nat)
    }
}

/// The text of a token: its thirty-two hexadecimal digits, highest first.
pub open spec fn hex_text(token: u128) -> Seq<char> {
    Seq::new(TEXT_LEN as nat, |i: int| digit_char(nibble(token as nat, (TEXT_LEN - 1 - i) as nat)))
}

/// Whether a character may stand in the text of an identifier.
pub open spec fn url_safe(c: char) -> bool {
    digit_of(c) is Some
}

/// `value` with its `places` lowest hexadecimal digits dropped.
pub open spec fn shifted(value: nat, places: nat) -> nat
    decreases places,
{
    if places == 0 {
        value
    } else {
        shifted(value / 16, (places - 1) as nat)
    }
}

/// The digit at a place is the lowest digit once the digits below it are dropped.
pub proof fn lemma_nibble_shifted(value: nat, place: nat)
    ensures
        nibble(value, place) == shifted(value, place) % 16,
        shifted(value, place + 1) == shifted(value, place) / 16,
        0 <= nibble(value, place) < 16,
    decreases place,
{
    assert(shifted(value, place + 1) == shifted(value / 16, place));
    if place > 0 {
        lemma_nibble_shifted(value / 16, (place - 1) as nat);
    } else {
        assert(shifted(value / 16, 0) == value / 16);
    }
}

/// Sixteen to the power of `places`: the number of values that `places`
/// hexadecimal digits can tell apart.
pub open spec fn pow16(places: nat) -> nat
    decreases places,
{
    if places == 0 {
        1
    } else {
        16 * pow16((places - 1) as nat)
    }
}

/// Thirty-two hexadecimal digits tell apart exactly the values of a token.
pub proof fn lemma_pow16_of_text_len()
    ensures
        pow16(31) == 0x1000_0000_0000_0000_0000_0000_0000_0000,
        pow16(32) == 0x1_0000_0000_0000_0000_0000_0000_0000_0000,
{
    assert(pow16(0) == 1);
    assert(pow16(4) == 0x1_0000) by {
        reveal_with_fuel(pow16, 5);
    }
    lemma_pow16_add(4, 4);
    lemma_pow16_add(8, 8);
    lemma_pow16_add(16, 15);
    lemma_pow16_add(16, 16);
    assert(pow16(1) == 16) by {
        reveal_with_fuel(pow16, 2);
    }
    lemma_pow16_add(31, 1);
    assert(pow16(8) == 0x1_0000_0000);
    assert(pow16(16) == 0x1_0000_0000_0000_0000);
    assert(pow16(4) * pow16(4) == 0x1_0000_0000);
    assert(0x1_0000_0000nat * 0x1_0000_0000nat == 0x1_0000_0000_0000_0000nat);
    assert(0x1_0000_0000_0000_0000nat * 0x1_0000_0000_0000_0000nat
        == 0x1_0000_0000_0000_0000_0000_0000_0000_0000nat);
}

/// Powers of sixteen multiply as their exponents add.
pub proof fn lemma_pow16_add(a: nat, b: nat)
    ensures
        pow16(a + b) == pow16(a) * pow16(b),
    decreases b,
{
    if b == 0 {
        assert(pow16(a) * 1 == pow16(a));
    } else {
        lemma_pow16_add(a, (b - 1) as nat);
        assert(pow16(a + b) == 16 * pow16((a + b - 1) as nat));
        assert(pow16(a) * (16 * pow16((b - 1) as nat)) == 16 * (pow16(a) * pow16((b - 1) as nat)))
            by (nonlinear_arith);
    }
}

/// More digits tell more values apart.
pub proof fn lemma_pow16_grows(a: nat, b: nat)
    requires
        a <= b,
    ensures
        0 < pow16(a) <= pow16(b),
    decreases b,
{
    if b == 0 {
    } else if a == b {
        lemma_pow16_grows((b - 1) as nat, (b - 1) as nat);
    } else {
        lemma_pow16_grows(a, (b - 1) as nat);
    }
}

/// Two values that `places` digits can tell apart, and that agree in each
/// of those digits, are the same value.
pub proof fn lemma_digits_determine(a: nat, b: nat, places: nat)
    requires
        a < pow16(places),
        b < pow16(places),
        forall|k: nat| k < places ==> #[trigger] nibble(a, k) == nibble(b, k),
    ensures
        a == b,
    decreases places,
{
    if places > 0 {
        assert forall|k: nat| k < places - 1 implies #[trigger] nibble(a / 16, k) == nibble(
            b / 16,
            k,
        ) by {
            assert(nibble(a, k + 1) == nibble(a / 16, k));
            assert(nibble(b, k + 1) == nibble(b / 16, k));
        }
        lemma_digits_determine(a / 16, b / 16, (places - 1) as nat);
        assert(nibble(a, 0) == nibble(b, 0));
    }
}

/// A digit is found again from its character.
pub proof fn lemma_digit_char_of(digit: int)
    requires
        0 <= digit < 16,
    ensures
        digit_of(digit_char(digit)) == Some(digit),
{
}

/// A character that stands for a digit is the character of that digit.
pub proof fn lemma_digit_of_char(c: char)
    requires
        digit_of(c) is Some,
    ensures
        digit_char(digit_of(c)->0) == c,
        0 <= digit_of(c)->0 < 16,
{
}

/// Two tokens with the same text are the same token.
pub proof fn lemma_hex_text_injective(a: u128, b: u128)
    requires
        hex_text(a) == hex_text(b),
    ensures
        a == b,
{
    lemma_pow16_of_text_len();
    assert forall|k: nat| k < 32 implies #[trigger] nibble(a as nat, k) == nibble(
        b as nat,
        k,
    ) by {
        let i = 31 - k;
        assert((TEXT_LEN - 1 - i) as nat == k);
        assert(hex_text(a)[i] == digit_char(nibble(a as nat, k)));
        assert(hex_text(b)[i] == digit_char(nibble(b as nat, k)));
        lemma_nibble_shifted(a as nat, k);
        lemma_nibble_shifted(b as nat, k);
        lemma_digit_char_of(nibble(a as nat, k));
        lemma_digit_char_of(nibble(b as nat, k));
    }
    lemma_digits_determine(a as nat, b as nat, 32);
}

/// The text of a token holds only characters that are safe in a URL.
pub proof fn lemma_hex_text_url_safe(token: u128)
    ensures
        hex_text(token).len() == TEXT_LEN,
        forall|i: int| 0 <= i < TEXT_LEN ==> url_safe(#[trigger] hex_text(token)[i]),
{
    assert forall|i: int| 0 <= i < TEXT_LEN implies url_safe(#[trigger] hex_text(token)[i]) by {
        lemma_nibble_shifted(token as nat, (TEXT_LEN - 1 - i) as nat);
        lemma_digit_char_of(nibble(token as nat, (TEXT_LEN - 1 - i) as nat));
    }
}

/// The identifier that a text names: the one whose text it is, if any.
pub open spec fn id_of_text(text: Seq<char>) -> Option<ResourceId> {
    if exists|token: u128| #[trigger] hex_text(token) == text {
        Some(ResourceId { token: choose|token: u128| #[trigger] hex_text(token) == text })
    } else {
        None
    }
}

/// The text of an identifier names that identifier and no other.
pub proof fn lemma_text_round_trip(id: ResourceId)
    ensures
        id_of_text(hex_text(id.token)) == Some(id),
{
    let found = choose|token: u128| #[trigger] hex_text(token) == hex_text(id.token);
    lemma_hex_text_injective(found, id.token);
}

/// The one-character text of a hexadecimal digit.
pub fn digit_str(digit: u8) -> (s: &'static str)
    requires
        digit < 16,
    ensures
        s@ == seq![digit_char(digit as int)],
{
    proof {
        reveal_strlit("0");
        reveal_strlit("1");
        reveal_strlit("2");
        reveal_strlit("3");
        reveal_strlit("4");
        reveal_strlit("5");
        reveal_strlit("6");
        reveal_strlit("7");
        reveal_strlit("8");
        reveal_strlit("9");
        reveal_strlit("a");
        reveal_strlit("b");
        reveal_strlit("c");
        reveal_strlit("d");
        reveal_strlit("e");
        reveal_strlit("f");
    }
    let s: &'static str = if digit == 0 {
        "0"
    } else if digit == 1 {
        "1"
    } else if digit == 2 {
        "2"
    } else if digit == 3 {
        "3"
    } else if digit == 4 {
        "4"
    } else if digit == 5 {
        "5"
    } else if digit == 6 {
        "6"
    } else if digit == 7 {
        "7"
    } else if digit == 8 {
        "8"
    } else if digit == 9 {
        "9"
    } else if digit == 10 {
        "a"
    } else if digit == 11 {
        "b"
    } else if digit == 12 {
        "c"
    } else if digit == 13 {
        "d"
    } else if digit == 14 {
        "e"
    } else {
        "f"
    };
    assert(s@ =~= seq![digit_char(digit as int)]);
    s
}

/// The hexadecimal digit that a character stands for, if it is one.
fn digit_value(c: char) -> (digit: Option<u8>)
    ensures
        match digit {
            Some(d) => digit_of(c) == Some(d as int) && d < 16,
            None => digit_of(c) is None,
        },
{
    if c == '0' {
        Some(0)
    } else if c == '1' {
        Some(1)
    } else if c == '2' {
        Some(2)
    } else if c == '3' {
        Some(3)
    } else if c == '4' {
        Some(4)
    } else if c == '5' {
        Some(5)
    } else if c == '6' {
        Some(6)
    } else if c == '7' {
        Some(7)
    } else if c == '8' {
        Some(8)
    } else if c == '9' {
        Some(9)
    } else if c == 'a' {
        Some(10)
    } else if c == 'b' {
        Some(11)
    } else if c == 'c' {
        Some(12)
    } else if c == 'd' {
        Some(13)
    } else if c == 'e' {
        Some(14)
    } else if c == 'f' {
        Some(15)
    } else {
        None
    }
}

impl ResourceId {
    /// Reads an identifier from its text. Only a text of thirty-two
    /// lower-case hexadecimal digits names one.
    pub fn from_text(text: &str) -> (id: Option<ResourceId>)
        ensures
            id == id_of_text(text@),
    {
        if text.unicode_len() != TEXT_LEN {
            assert forall|token: u128| #[trigger] hex_text(token) != text@ by {
                assert(hex_text(token).len() == TEXT_LEN);
            }
            return None;
        }
        let mut acc: u128 = 0;
        let mut i: usize = 0;
        while i < TEXT_LEN
            invariant
                text@.len() == TEXT_LEN,
                0 <= i <= TEXT_LEN,
                acc < pow16(i as nat),
                forall|j: nat|
                    j < i ==> digit_of(text@[i - 1 - j]) == Some(#[trigger] nibble(acc as nat, j)),
            decreases TEXT_LEN - i,
        {
            let c = text.get_char(i);
            match digit_value(c) {
                None => {
                    assert forall|token: u128| #[trigger] hex_text(token) != text@ by {
                        let place = (TEXT_LEN - 1 - i) as nat;
                        lemma_nibble_shifted(token as nat, place);
                        lemma_digit_char_of(nibble(token as nat, place));
                        assert(hex_text(token)[i as int] == digit_char(nibble(token as nat, place)));
                    }
                    return None;
                },
                Some(d) => {
                    proof {
                        lemma_pow16_grows(i as nat, 31);
                        lemma_pow16_of_text_len();
                    }
                    let next: u128 = acc * 16 + d as u128;
                    assert forall|j: nat| j < i + 1 implies digit_of(text@[i + 1 - 1 - j]) == Some(
                        #[trigger] nibble(next as nat, j),
                    ) by {
                        if j > 0 {
                            assert(nibble(next as nat, j) == nibble(acc as nat, (j - 1) as nat));
                        }
                    }
                    acc = next;
                },
            }
            i = i + 1;
        }
        proof {
            assert forall|m: int| 0 <= m < TEXT_LEN implies hex_text(acc)[m] == text@[m] by {
                let place = (TEXT_LEN - 1 - m) as nat;
                assert(digit_of(text@[TEXT_LEN - 1 - place]) == Some(nibble(acc as nat, place)));
                lemma_digit_of_char(text@[m]);
            }
            assert(hex_text(acc) =~= text@);
            let found = choose|token: u128| #[trigger] hex_text(token) == text@;
            lemma_hex_text_injective(found, acc);
        }
        Some(ResourceId { token: acc })
    }


    /// The text of the identifier, as it stands in a URL.
    pub fn to_text(&self) -> (text: String)
        ensures
            text@ == hex_text(self.token),
    {
        let mut digits: Vec<u8> = Vec::new();
        let mut rest: u128 = self.token;
        let mut k: usize = 0;
        while k < TEXT_LEN
            invariant
                0 <= k <= TEXT_LEN,
                digits@.len() == k,
                rest == shifted(self.token as nat, k as nat),
                forall|j: int|
                    0 <= j < k ==> (#[trigger] digits@[j]) as int == nibble(
                        self.token as nat,
                        j as nat,
                    ),
            decreases TEXT_LEN - k,
        {
            proof {
                lemma_nibble_shifted(self.token as nat, k as nat);
            }
            digits.push((rest % 16) as u8);
            rest = rest / 16;
            k = k + 1;
        }
        let mut text = String::new();
        let mut i: usize = 0;
        while i < TEXT_LEN
            invariant
                0 <= i <= TEXT_LEN,
                digits@.len() == TEXT_LEN,
                forall|j: int|
                    0 <= j < TEXT_LEN ==> (#[trigger] digits@[j]) as int == nibble(
                        self.token as nat,
                        j as nat,
                    ),
                text@ == hex_text(self.token).take(i as int),
            decreases TEXT_LEN - i,
        {
            let d: u8 = digits[TEXT_LEN - 1 - i];
            proof {
                lemma_nibble_shifted(self.token as nat, (TEXT_LEN - 1 - i) as nat);
            }
            text.append(digit_str(d));
            assert(text@ == hex_text(self.token).take(i + 1));
            i = i + 1;
        }
        assert(hex_text(self.token).take(TEXT_LEN as int) == hex_text(self.token));
        text
    }
}

} // verus!

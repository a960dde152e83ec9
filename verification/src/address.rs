//! Account addresses and their hexadecimal text.
use vstd::prelude::*;
use vstd::string::{StrSliceExecFns, StringExecFns};
use vstd::utf8::{encode_utf8, is_ascii_chars, is_ascii_chars_encode_utf8};

use crate::error::{agrees, Error, ErrorView};
use crate::text::chars_of;

verus! {

/// The address of an account.
#[derive(Clone, Copy, Debug, PartialEq, Eq, PartialOrd, Ord, Hash)]
pub struct SuiAddress {
    /// The address, most significant byte first.
    pub bytes: [u8; 32],
}

impl View for SuiAddress {
    type V = Seq<u8>;

    open spec fn view(&self) -> Seq<u8> {
        self.bytes@
    }
}

/// The value of a hexadecimal digit, in either case.
pub open spec fn hex_value(c: char) -> Option<int> {
    if '0' <= c <= '9' {
        Some(c as int - '0' as int)
    } else if 'a' <= c <= 'f' {
        Some(c as int - 'a' as int + 10)
    } else if 'A' <= c <= 'F' {
        Some(c as int - 'A' as int + 10)
    } else {
        None
    }
}

/// The lower-case hexadecimal digit for `d`.
pub open spec fn hex_digit(d: int) -> char {
    if d < 10 {
        ('0' as int + d) as char
    } else {
        ('a' as int + d - 10) as char
    }
}

/// Every character of `text` is a hexadecimal digit.
pub open spec fn all_hex(text: Seq<char>) -> bool {
    forall|i: int| 0 <= i < text.len() ==> hex_value(#[trigger] text[i]) is Some
}

/// `bytes` in lower-case hexadecimal, two digits to a byte.
pub open spec fn hex_text(bytes: Seq<u8>) -> Seq<char> {
    Seq::new(
        2 * bytes.len(),
        |i: int|
            hex_digit(
                if i % 2 == 0 {
                    bytes[i / 2] / 16
                } else {
                    bytes[i / 2] % 16
                } as int,
            ),
    )
}

/// The prefix of an address in text.
pub open spec fn hex_prefix() -> Seq<char> {
    seq!['0', 'x']
}

/// An address in text: `0x` and all its digits in lower case.
pub open spec fn address_text(bytes: Seq<u8>) -> Seq<char> {
    hex_prefix() + hex_text(bytes)
}

/// The bytes that an even number of hexadecimal digits write.
pub open spec fn hex_bytes(digits: Seq<char>) -> Seq<u8> {
    Seq::new(
        digits.len() / 2,
        |i: int|
            (16 * hex_value(digits[2 * i])->0 + hex_value(digits[2 * i + 1])->0) as u8,
    )
}

/// The address that `0x` and exactly 64 hexadecimal digits write.
pub open spec fn full_address(text: Seq<char>) -> Option<Seq<u8>> {
    if text.len() == 66 && text.take(2) == hex_prefix() && all_hex(text.skip(2)) {
        Some(hex_bytes(text.skip(2)))
    } else {
        None
    }
}

/// `bytes` with zeros in front, up to 32 bytes.
pub open spec fn widened(bytes: Seq<u8>) -> Seq<u8> {
    Seq::new((32 - bytes.len()) as nat, |i: int| 0u8) + bytes
}

/// `0x` and `digits`, with zeros in front up to 64 characters.
pub open spec fn padded(digits: Seq<char>) -> Seq<char> {
    hex_prefix() + Seq::new((64 - digits.len()) as nat, |i: int| '0') + digits
}

/// The address that `input` names, or how it is refused.
///
/// Without the prefix the whole input is refused. What follows the prefix is refused by itself
/// where it is empty or longer than 64 bytes. Otherwise it is padded to 64 characters, and the
/// padded text is refused where it is no address.
pub open spec fn owner_answer(input: Seq<char>) -> Result<Seq<u8>, ErrorView> {
    if !(input.len() >= 2 && input.take(2) == hex_prefix()) {
        Err(ErrorView::InvalidOwner(input))
    } else {
        let digits = input.skip(2);
        let bytes = encode_utf8(digits).len();
        if digits.len() == 0 || bytes > 64 {
            Err(ErrorView::InvalidOwner(digits))
        } else {
            let text = if bytes == 64 {
                input
            } else {
                padded(digits)
            };
            match full_address(text) {
                Some(address) => Ok(address),
                None => Err(ErrorView::InvalidOwner(text)),
            }
        }
    }
}

/// A text has at least as many bytes as characters.
proof fn lemma_utf8_len(chars: Seq<char>)
    ensures
        chars.len() <= encode_utf8(chars).len(),
    decreases chars.len(),
{
    if chars.len() > 0 {
        lemma_utf8_len(chars.drop_first());
        vstd::utf8::char_is_scalar(chars[0]);
    }
}

fn hex_digit_value(c: char) -> (v: Option<u8>)
    ensures
        match v {
            Some(d) => hex_value(c) == Some(d as int) && d < 16,
            None => hex_value(c) is None,
        },
{
    if '0' <= c && c <= '9' {
        Some((c as u32 - '0' as u32) as u8)
    } else if 'a' <= c && c <= 'f' {
        Some((c as u32 - 'a' as u32) as u8 + 10)
    } else if 'A' <= c && c <= 'F' {
        Some((c as u32 - 'A' as u32) as u8 + 10)
    } else {
        None
    }
}

fn hex_digit_char(d: u8) -> (c: char)
    requires
        d < 16,
    ensures
        c == hex_digit(d as int),
{
    if d < 10 {
        (48 + d) as char
    } else {
        (87 + d) as char
    }
}

impl SuiAddress {
    /// Reads `0x` and exactly 64 hexadecimal digits.
    pub fn from_full_text(text: &str) -> (address: Option<SuiAddress>)
        ensures
            match address {
                Some(a) => full_address(text@) == Some(a@),
                None => full_address(text@) is None,
            },
    {
        let chars: Vec<char> = chars_of(text);
        if chars.len() != 66 || chars[0] != '0' || chars[1] != 'x' {
            assert(chars.len() == 66 && text@.take(2) == hex_prefix() ==> text@.take(2)[0] == '0'
                && text@.take(2)[1] == 'x');
            return None;
        }
        assert(text@.take(2) =~= hex_prefix());
        let mut bytes: [u8; 32] = [0u8; 32];
        let mut i: usize = 0;
        while i < 32
            invariant
                i <= 32,
                chars@ == text@,
                text@.len() == 66,
                forall|j: int| 0 <= j < 2 * i ==> hex_value(#[trigger] text@.skip(2)[j]) is Some,
                forall|j: int| 0 <= j < i ==> #[trigger] bytes@[j] == hex_bytes(text@.skip(2))[j],
            decreases 32 - i,
        {
            let ghost digits = text@.skip(2);
            assert(digits[2 * i] == chars@[2 * i + 2]);
            assert(digits[2 * i + 1] == chars@[2 * i + 3]);
            match (hex_digit_value(chars[2 * i + 2]), hex_digit_value(chars[2 * i + 3])) {
                (Some(high), Some(low)) => {
                    bytes[i] = 16 * high + low;
                },
                _ => {
                    return None;
                },
            }
            i = i + 1;
        }
        assert(bytes@ =~= hex_bytes(text@.skip(2)));
        Some(SuiAddress { bytes })
    }

    /// The address that shorter bytes write as a number: zeros stand in front.
    pub fn widen(bytes: &Vec<u8>) -> (address: SuiAddress)
        requires
            bytes@.len() <= 32,
        ensures
            address@ == widened(bytes@),
    {
        let mut wide: [u8; 32] = [0u8; 32];
        let zeros: usize = 32 - bytes.len();
        let mut i: usize = 0;
        while i < bytes.len()
            invariant
                i <= bytes@.len() <= 32,
                zeros == 32 - bytes@.len(),
                forall|j: int| 0 <= j < zeros + i ==> #[trigger] wide@[j] == widened(bytes@)[j],
            decreases bytes@.len() - i,
        {
            wide[zeros + i] = bytes[i];
            i = i + 1;
        }
        assert(wide@ =~= widened(bytes@));
        SuiAddress { bytes: wide }
    }

    /// The address in text: `0x` and 64 lower-case hexadecimal digits.
    pub fn to_string(&self) -> (text: String)
        ensures
            text@ == address_text(self@),
    {
        let mut text: String = String::new();
        text.push('0');
        text.push('x');
        text.append(self.to_hex().as_str());
        text
    }

    /// The 64 lower-case hexadecimal digits of the address.
    pub fn to_hex(&self) -> (text: String)
        ensures
            text@ == hex_text(self@),
    {
        let mut text: String = String::new();
        let mut i: usize = 0;
        while i < 32
            invariant
                i <= 32,
                text@ == hex_text(self@).take(2 * i),
            decreases 32 - i,
        {
            let byte: u8 = self.bytes[i];
            text.push(hex_digit_char(byte / 16));
            text.push(hex_digit_char(byte % 16));
            assert(hex_text(self@).take(2 * (i + 1)) =~= hex_text(self@).take(2 * i).push(
                hex_digit((byte / 16) as int),
            ).push(hex_digit((byte % 16) as int)));
            i = i + 1;
        }
        assert(hex_text(self@).take(64) =~= hex_text(self@));
        text
    }
}

/// Parses the address of an owner. Addresses start with `0x`, followed by between 1 and 64
/// hexadecimal digits.
pub fn owner(input: &str) -> (address: Result<SuiAddress, Error>)
    ensures
        agrees(address, owner_answer(input@)),
{
    let count: usize = input.unicode_len();
    if count < 2 || input.get_char(0) != '0' || input.get_char(1) != 'x' {
        assert(input@.len() >= 2 && input@.take(2) == hex_prefix() ==> input@.take(2)[0] == '0'
            && input@.take(2)[1] == 'x');
        return Err(Error::InvalidOwner(input.to_owned()));
    }
    assert(input@.take(2) =~= hex_prefix());
    let digits: &str = input.substring_char(2, count);
    assert(digits@ =~= input@.skip(2));
    let bytes: usize = digits.as_bytes().len();
    if digits.is_empty() || bytes > 64 {
        return Err(Error::InvalidOwner(digits.to_owned()));
    }
    let text: String = if bytes != 64 {
        let mut text: String = String::new();
        text.push('0');
        text.push('x');
        proof {
            lemma_utf8_len(digits@);
        }
        let mut missing: usize = 64 - digits.unicode_len();
        while missing > 0
            invariant
                missing <= 64 - digits@.len(),
                text@ == hex_prefix() + Seq::new((64 - digits@.len() - missing) as nat, |i: int| '0'),
            decreases missing,
        {
            text.push('0');
            missing = missing - 1;
        }
        text.append(digits);
        text
    } else {
        input.to_owned()
    };
    match SuiAddress::from_full_text(text.as_str()) {
        Some(address) => Ok(address),
        None => Err(Error::InvalidOwner(text)),
    }
}

/// The number that hexadecimal digits write, most significant digit first.
pub open spec fn hex_number(digits: Seq<char>) -> nat
    decreases digits.len(),
{
    if digits.len() == 0 {
        0
    } else {
        16 * hex_number(digits.drop_last()) + hex_value(digits.last())->0 as nat
    }
}

/// The number that bytes write, most significant byte first.
pub open spec fn byte_number(bytes: Seq<u8>) -> nat
    decreases bytes.len(),
{
    if bytes.len() == 0 {
        0
    } else {
        256 * byte_number(bytes.drop_last()) + bytes.last() as nat
    }
}

/// Two digits to a byte write the same number as the bytes.
proof fn lemma_hex_bytes_number(digits: Seq<char>)
    requires
        digits.len() % 2 == 0,
        all_hex(digits),
    ensures
        byte_number(hex_bytes(digits)) == hex_number(digits),
    decreases digits.len(),
{
    if digits.len() > 0 {
        let n = digits.len() as int;
        let shorter = digits.take(n - 2);
        lemma_hex_bytes_number(shorter);
        assert(digits.drop_last().drop_last() =~= shorter);
        assert(hex_bytes(digits).drop_last() =~= hex_bytes(shorter));
        let high = hex_value(digits[n - 2])->0;
        let low = hex_value(digits[n - 1])->0;
        assert(digits.drop_last().last() == digits[n - 2]);
        assert(hex_bytes(digits).last() == 16 * high + low);
        assert(hex_number(digits.drop_last()) == 16 * hex_number(shorter) + high);
    }
}

/// Leading zeros leave the number as it is.
proof fn lemma_leading_zeros(zeros: nat, digits: Seq<char>)
    ensures
        hex_number(Seq::new(zeros, |i: int| '0') + digits) == hex_number(digits),
    decreases zeros + digits.len(),
{
    let front = Seq::new(zeros, |i: int| '0');
    let all = front + digits;
    if digits.len() > 0 {
        assert(all.drop_last() =~= front + digits.drop_last());
        lemma_leading_zeros(zeros, digits.drop_last());
    } else if zeros > 0 {
        assert(all.drop_last() =~= Seq::new((zeros - 1) as nat, |i: int| '0') + digits);
        lemma_leading_zeros((zeros - 1) as nat, digits);
    }
}

/// Hexadecimal digits take one byte each.
proof fn lemma_hex_utf8(digits: Seq<char>)
    requires
        all_hex(digits),
    ensures
        encode_utf8(digits).len() == digits.len(),
{
    assert(is_ascii_chars(digits)) by {
        assert forall|i: int| 0 <= i < digits.len() implies '\0' <= #[trigger] digits[i]
            <= '\u{7f}' by {
            assert(hex_value(digits[i]) is Some);
        }
    }
    is_ascii_chars_encode_utf8(digits);
}

/// An owner is accepted exactly where it is `0x` followed by between 1 and 64 hexadecimal digits.
pub proof fn law_owner_grammar(input: Seq<char>)
    ensures
        owner_answer(input) is Ok <==> {
            &&& 3 <= input.len() <= 66
            &&& input.take(2) == hex_prefix()
            &&& all_hex(input.skip(2))
        },
{
    if input.len() >= 2 && input.take(2) == hex_prefix() {
        let digits = input.skip(2);
        lemma_utf8_len(digits);
        if all_hex(digits) {
            lemma_hex_utf8(digits);
        }
        if digits.len() <= 64 {
            let text = padded(digits);
            assert(text.take(2) =~= hex_prefix());
            let zeros = (64 - digits.len()) as int;
            assert forall|i: int| 0 <= i < digits.len() implies text.skip(2)[zeros + i]
                == #[trigger] digits[i] by {}
            if all_hex(text.skip(2)) {
                assert forall|i: int| 0 <= i < digits.len() implies hex_value(
                    #[trigger] digits[i],
                ) is Some by {
                    assert(hex_value(text.skip(2)[zeros + i]) is Some);
                }
            }
            if all_hex(digits) {
                assert forall|i: int| 0 <= i < text.skip(2).len() implies hex_value(
                    #[trigger] text.skip(2)[i],
                ) is Some by {
                    if i >= zeros {
                        assert(text.skip(2)[i] == digits[i - zeros]);
                    }
                }
            }
        }
    }
}

/// An accepted owner is the 32-byte number that its digits write.
pub proof fn law_owner_value(input: Seq<char>)
    requires
        owner_answer(input) is Ok,
    ensures
        owner_answer(input)->Ok_0.len() == 32,
        byte_number(owner_answer(input)->Ok_0) == hex_number(input.skip(2)),
{
    law_owner_grammar(input);
    let digits = input.skip(2);
    lemma_hex_utf8(digits);
    let text = if digits.len() == 64 {
        input
    } else {
        padded(digits)
    };
    lemma_hex_bytes_number(text.skip(2));
    if digits.len() != 64 {
        let zeros = (64 - digits.len()) as nat;
        assert(text.skip(2) =~= Seq::new(zeros, |i: int| '0') + digits);
        lemma_leading_zeros(zeros, digits);
    }
}

/// The text of an address names that address.
pub proof fn law_owner_round_trip(address: Seq<u8>)
    requires
        address.len() == 32,
    ensures
        owner_answer(address_text(address)) == Ok::<Seq<u8>, ErrorView>(address),
{
    let text = address_text(address);
    let digits = hex_text(address);
    assert(text.take(2) =~= hex_prefix());
    assert(text.skip(2) =~= digits);
    assert forall|i: int| 0 <= i < digits.len() implies hex_value(#[trigger] digits[i]) == Some(
        if i % 2 == 0 {
            address[i / 2] as int / 16
        } else {
            address[i / 2] as int % 16
        },
    ) by {}
    lemma_hex_utf8(digits);
    assert forall|i: int| 0 <= i < 32 implies #[trigger] hex_bytes(digits)[i] == address[i] by {
        assert((2 * i) / 2 == i && (2 * i + 1) / 2 == i);
        assert(hex_value(digits[2 * i]) == Some(address[i] as int / 16));
        assert(hex_value(digits[2 * i + 1]) == Some(address[i] as int % 16));
    }
    assert(hex_bytes(digits) =~= address);
}

/// A hexadecimal digit has the value of its place among the digits, in either case, and nothing
/// else has a value.
pub proof fn law_hex_value(c: char, d: int)
    requires
        0 <= d < 16,
    ensures
        hex_value(c) == Some(d) <==> c == "0123456789abcdef"@[d] || c == "0123456789ABCDEF"@[d],
        hex_value(c) is Some ==> 0 <= hex_value(c)->0 < 16,
{
    reveal_strlit("0123456789abcdef");
    reveal_strlit("0123456789ABCDEF");
    assert(d == 0 || d == 1 || d == 2 || d == 3 || d == 4 || d == 5 || d == 6 || d == 7 || d == 8
        || d == 9 || d == 10 || d == 11 || d == 12 || d == 13 || d == 14 || d == 15);
}

/// `0x`, followed by between 1 and 64 hexadecimal digits.
pub open spec fn names_address(text: Seq<char>) -> bool {
    &&& 3 <= text.len() <= 66
    &&& text[0] == '0'
    &&& text[1] == 'x'
    &&& forall|i: int| 2 <= i < text.len() ==> hex_value(#[trigger] text[i]) is Some
}

/// An owner is accepted exactly where it names an address, and then it is the 32-byte number that
/// its digits write.
pub proof fn law_owner_is_its_number(input: Seq<char>)
    ensures
        owner_answer(input) is Ok <==> names_address(input),
        owner_answer(input) matches Ok(owner) ==> {
            &&& owner.len() == 32
            &&& byte_number(owner) == hex_number(input.skip(2))
        },
{
    law_owner_grammar(input);
    if owner_answer(input) is Ok {
        law_owner_value(input);
        assert(input.take(2)[0] == '0' && input.take(2)[1] == 'x');
        assert forall|i: int| 2 <= i < input.len() implies hex_value(
            #[trigger] input[i],
        ) is Some by {
            assert(input.skip(2)[i - 2] == input[i]);
        }
    }
    if names_address(input) {
        assert(input.take(2) =~= hex_prefix());
        assert forall|i: int| 0 <= i < input.skip(2).len() implies hex_value(
            #[trigger] input.skip(2)[i],
        ) is Some by {
            assert(input.skip(2)[i] == input[i + 2]);
        }
    }
}

/// A refused owner is named in the refusal: whole where the prefix is missing, what follows the
/// prefix where that is empty or too long, and otherwise `0x` and 64 characters, of which those
/// that were not sent are zeros in front.
pub proof fn law_owner_refused(input: Seq<char>)
    ensures
        ({
            let prefixed = input.len() >= 2 && input[0] == '0' && input[1] == 'x';
            let rest = input.skip(2);
            let bytes = encode_utf8(rest).len();
            &&& !prefixed ==> owner_answer(input) == Err::<Seq<u8>, ErrorView>(
                ErrorView::InvalidOwner(input),
            )
            &&& prefixed && (input.len() == 2 || bytes > 64) ==> owner_answer(input) == Err::<
                Seq<u8>,
                ErrorView,
            >(ErrorView::InvalidOwner(rest))
            &&& prefixed && 0 < bytes <= 64 && owner_answer(input) is Err ==> {
                &&& owner_answer(input)->Err_0 is InvalidOwner
                &&& bytes == 64 ==> owner_answer(input)->Err_0->InvalidOwner_0 == input
                &&& bytes < 64 ==> {
                    let text = owner_answer(input)->Err_0->InvalidOwner_0;
                    &&& text.len() == 66
                    &&& text[0] == '0'
                    &&& text[1] == 'x'
                    &&& forall|i: int| 2 <= i < 66 - rest.len() ==> #[trigger] text[i] == '0'
                    &&& text.skip(66 - rest.len()) == rest
                }
            }
        }),
{
    let rest = input.skip(2);
    lemma_utf8_len(rest);
    if input.len() >= 2 {
        assert(input.take(2)[0] == input[0] && input.take(2)[1] == input[1]);
        if input[0] == '0' && input[1] == 'x' {
            assert(input.take(2) =~= hex_prefix());
            if rest.len() == 0 {
                assert(rest =~= Seq::empty());
            }
            let text = padded(rest);
            if rest.len() <= 64 {
                assert(text.skip(66 - rest.len()) =~= rest);
            }
        }
    }
}

/// The digits of bytes write the same number as the bytes.
proof fn lemma_hex_text_number(bytes: Seq<u8>)
    ensures
        all_hex(hex_text(bytes)),
        hex_number(hex_text(bytes)) == byte_number(bytes),
{
    let digits = hex_text(bytes);
    assert forall|i: int| 0 <= i < digits.len() implies hex_value(#[trigger] digits[i]) == Some(
        if i % 2 == 0 {
            bytes[i / 2] as int / 16
        } else {
            bytes[i / 2] as int % 16
        },
    ) by {}
    assert forall|i: int| 0 <= i < bytes.len() implies #[trigger] hex_bytes(digits)[i]
        == bytes[i] by {
        assert((2 * i) / 2 == i && (2 * i + 1) / 2 == i);
        assert(hex_value(digits[2 * i]) == Some(bytes[i] as int / 16));
        assert(hex_value(digits[2 * i + 1]) == Some(bytes[i] as int % 16));
    }
    assert(hex_bytes(digits) =~= bytes);
    lemma_hex_bytes_number(digits);
}

/// The text of an address is `0x` and two lower-case digits for each byte, in order, which together
/// write the number that the address is.
pub proof fn law_address_text(bytes: Seq<u8>)
    ensures
        ({
            let text = address_text(bytes);
            &&& text.len() == 2 + 2 * bytes.len()
            &&& text[0] == '0'
            &&& text[1] == 'x'
            &&& text.skip(2) == hex_text(bytes)
            &&& hex_number(text.skip(2)) == byte_number(bytes)
            &&& forall|i: int|
                0 <= i < bytes.len() ==> {
                    &&& hex_value(text[2 + 2 * i]) == Some(#[trigger] bytes[i] as int / 16)
                    &&& hex_value(text[3 + 2 * i]) == Some(bytes[i] as int % 16)
                }
            &&& forall|i: int| 2 <= i < text.len() ==> !('A' <= #[trigger] text[i] <= 'F')
        }),
{
    let text = address_text(bytes);
    lemma_hex_text_number(bytes);
    assert(text.skip(2) =~= hex_text(bytes));
    assert forall|i: int| 0 <= i < bytes.len() implies {
        &&& hex_value(text[2 + 2 * i]) == Some(#[trigger] bytes[i] as int / 16)
        &&& hex_value(text[3 + 2 * i]) == Some(bytes[i] as int % 16)
    } by {
        assert((2 * i) / 2 == i && (2 * i + 1) / 2 == i);
        assert(text[2 + 2 * i] == hex_text(bytes)[2 * i]);
        assert(text[3 + 2 * i] == hex_text(bytes)[2 * i + 1]);
    }
    assert forall|i: int| 2 <= i < text.len() implies !('A' <= #[trigger] text[i] <= 'F') by {
        assert(text[i] == hex_text(bytes)[i - 2]);
    }
}

/// Widened bytes are 32 bytes that end with the bytes, after zeros.
pub proof fn law_widened(bytes: Seq<u8>)
    requires
        bytes.len() <= 32,
    ensures
        widened(bytes).len() == 32,
        widened(bytes).skip(32 - bytes.len()) == bytes,
        forall|i: int| 0 <= i < 32 - bytes.len() ==> #[trigger] widened(bytes)[i] == 0,
{
    assert(widened(bytes).skip(32 - bytes.len()) =~= bytes);
}

/// An address shows its bytes.
pub proof fn law_address_shows_its_bytes(address: SuiAddress)
    ensures
        address@ == address.bytes@,
        address@.len() == 32,
{
}

/// A full text is read exactly where it is `0x` and 64 hexadecimal digits, as the 32-byte number that
/// the digits write.
pub proof fn law_full_address(text: Seq<char>)
    ensures
        full_address(text) is Some <==> text.len() == 66 && names_address(text),
        full_address(text) matches Some(address) ==> {
            &&& address.len() == 32
            &&& byte_number(address) == hex_number(text.skip(2))
        },
{
    if text.len() == 66 {
        assert(text.take(2)[0] == text[0] && text.take(2)[1] == text[1]);
        if text[0] == '0' && text[1] == 'x' {
            assert(text.take(2) =~= hex_prefix());
        }
        assert forall|i: int| 0 <= i < 64 implies #[trigger] text.skip(2)[i] == text[i + 2] by {}
        if all_hex(text.skip(2)) {
            assert forall|i: int| 2 <= i < 66 implies hex_value(#[trigger] text[i]) is Some by {
                assert(text.skip(2)[i - 2] == text[i]);
            }
            lemma_hex_bytes_number(text.skip(2));
        }
    }
}

} // verus!

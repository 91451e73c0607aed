//! Lowercase hexadecimal text of bytes.

use vstd::prelude::*;
use crate::utils::text::spec_is_whitespace;

verus! {

/// The sixteen digits, by value.
pub open spec fn hex_digits() -> Seq<char> {
    seq!['0', '1', '2', '3', '4', '5', '6', '7', '8', '9', 'a', 'b', 'c', 'd', 'e', 'f']
}

/// Two lowercase digits for each byte, the high half first.
pub open spec fn hex_string(data: Seq<u8>) -> Seq<char> {
    Seq::new(
        2 * data.len(),
        |i: int|
            hex_digits()[if i % 2 == 0 {
                data[i / 2] as int / 16
            } else {
                data[i / 2] as int % 16
            }],
    )
}

/// The digit of a value is the character with the code that ASCII gives
/// it: a decimal digit up to 9, a lowercase letter from 10 on.
pub proof fn lemma_hex_digit(n: int)
    requires
        0 <= n < 16,
    ensures
        hex_digits()[n] as int == if n < 10 {
            48 + n
        } else {
            87 + n
        },
        !spec_is_whitespace(hex_digits()[n]),
        hex_digits()[n] != '\n',
        hex_digits()[n] != '\r',
{
    let digits = hex_digits();
    assert(digits[0] == '0' && digits[1] == '1' && digits[2] == '2' && digits[3] == '3');
    assert(digits[4] == '4' && digits[5] == '5' && digits[6] == '6' && digits[7] == '7');
    assert(digits[8] == '8' && digits[9] == '9' && digits[10] == 'a' && digits[11] == 'b');
    assert(digits[12] == 'c' && digits[13] == 'd' && digits[14] == 'e' && digits[15] == 'f');
}

/// Hexadecimal text holds neither white space nor line endings.
pub proof fn lemma_hex_string_chars(data: Seq<u8>)
    ensures
        hex_string(data).len() == 2 * data.len(),
        forall|i: int|
            0 <= i < hex_string(data).len() ==> !spec_is_whitespace(#[trigger] hex_string(data)[i])
                && hex_string(data)[i] != '\n' && hex_string(data)[i] != '\r',
{
    assert forall|i: int| 0 <= i < hex_string(data).len() implies !spec_is_whitespace(
        #[trigger] hex_string(data)[i],
    ) && hex_string(data)[i] != '\n' && hex_string(data)[i] != '\r' by {
        lemma_hex_digit(data[i / 2] as int / 16);
        lemma_hex_digit(data[i / 2] as int % 16);
    }
}

/// Different bytes have different hexadecimal text.
pub proof fn lemma_hex_string_injective(a: Seq<u8>, b: Seq<u8>)
    requires
        hex_string(a) == hex_string(b),
    ensures
        a == b,
{
    assert(hex_string(a).len() == 2 * a.len());
    assert(hex_string(b).len() == 2 * b.len());
    assert forall|i: int| 0 <= i < a.len() implies a[i] == b[i] by {
        lemma_hex_digit(a[i] as int / 16);
        lemma_hex_digit(a[i] as int % 16);
        lemma_hex_digit(b[i] as int / 16);
        lemma_hex_digit(b[i] as int % 16);
        assert(hex_string(a)[2 * i] == hex_digits()[a[i] as int / 16]);
        assert(hex_string(a)[2 * i + 1] == hex_digits()[a[i] as int % 16]);
        assert(hex_string(b)[2 * i] == hex_digits()[b[i] as int / 16]);
        assert(hex_string(b)[2 * i + 1] == hex_digits()[b[i] as int % 16]);
    }
    assert(a =~= b);
}

/// Calls `hex::encode`. The result has two lowercase hexadecimal digits for
/// each byte of `data`, in order, the high half of a byte first.
#[verifier::external_body]
pub(crate) fn hex_encode(data: &[u8]) -> (text: String)
    ensures
        text@ == hex_string(data@),
{
    ::hex::encode(data)
}

} // verus!

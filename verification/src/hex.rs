//! Bytes as hexadecimal text: two digits for each byte, the high one first.
//! Text is written with the digits `0` to `9` and `A` to `F`; `a` to `f`
//! are read as well.

use crate::pixel::CodecError;
use vstd::prelude::*;
use vstd::string::StringExecFns;

verus! {

/// The ASCII code of the hexadecimal digit for `n`.
pub open spec fn hex_digit(n: int) -> u8 {
    if n < 10 {
        (48 + n) as u8
    } else {
        (55 + n) as u8
    }
}

/// The hexadecimal text of a byte string, as ASCII codes.
pub open spec fn hex_text(bytes: Seq<u8>) -> Seq<u8> {
    Seq::new(
        2 * bytes.len(),
        |i: int|
            if i % 2 == 0 {
                hex_digit(bytes[i / 2] as int / 16)
            } else {
                hex_digit(bytes[i / 2] as int % 16)
            },
    )
}

/// The hexadecimal text of a byte string, as characters.
pub open spec fn hex_chars(bytes: Seq<u8>) -> Seq<char> {
    Seq::new(2 * bytes.len(), |i: int| hex_text(bytes)[i] as char)
}

/// The number that a hexadecimal digit stands for, if `c` is the ASCII
/// code of one.
pub open spec fn digit_value(c: u8) -> Option<int> {
    if 48 <= c <= 57 {
        Some(c - 48)
    } else if 65 <= c <= 70 {
        Some(c - 55)
    } else if 97 <= c <= 102 {
        Some(c - 87)
    } else {
        None
    }
}

/// Whether every byte of `text` is the ASCII code of a hexadecimal digit.
pub open spec fn all_hex(text: Seq<u8>) -> bool {
    forall|i: int| 0 <= i < text.len() ==> digit_value(#[trigger] text[i]) is Some
}

/// The byte that two hexadecimal digits stand for.
pub open spec fn byte_of(hi: u8, lo: u8) -> u8 {
    (16 * digit_value(hi)->0 + digit_value(lo)->0) as u8
}

/// The byte string that hexadecimal text stands for. Text with anything
/// but hexadecimal digits in it is refused; text that ends in the middle of
/// a byte has ended too early.
pub open spec fn hex_bytes(text: Seq<u8>) -> Result<Seq<u8>, CodecError> {
    if !all_hex(text) {
        Err(CodecError::InvalidHex)
    } else if text.len() % 2 == 1 {
        Err(CodecError::UnexpectedEndOfInput)
    } else {
        Ok(Seq::new((text.len() / 2) as nat, |i: int| byte_of(text[2 * i], text[2 * i + 1])))
    }
}

/// Hexadecimal text is made of hexadecimal digits, and it is read back as
/// the bytes that it was written for.
pub proof fn law_hex_round_trip(bytes: Seq<u8>)
    ensures
        all_hex(hex_text(bytes)),
        hex_bytes(hex_text(bytes)) == Ok::<Seq<u8>, CodecError>(bytes),
{
    let text = hex_text(bytes);
    assert forall|i: int| 0 <= i < text.len() implies digit_value(#[trigger] text[i]) is Some by {
        let b = bytes[i / 2];
        assert(0 <= b as int / 16 < 16 && 0 <= b as int % 16 < 16);
    }
    assert(hex_bytes(text)->Ok_0 =~= bytes) by {
        assert forall|i: int| 0 <= i < bytes.len() implies byte_of(
            text[2 * i],
            text[2 * i + 1],
        ) == bytes[i] by {
            let b = bytes[i];
            assert((2 * i) / 2 == i && (2 * i + 1) / 2 == i);
            assert(0 <= b as int / 16 < 16 && 0 <= b as int % 16 < 16);
        }
    }
}

/// A proper prefix of hexadecimal text stands for a proper prefix of the
/// bytes, or it ends in the middle of a byte.
pub proof fn lemma_hex_prefix(bytes: Seq<u8>, k: int)
    requires
        0 <= k < 2 * bytes.len(),
    ensures
        k % 2 == 1 ==> hex_bytes(hex_text(bytes).take(k)) == Err::<Seq<u8>, CodecError>(
            CodecError::UnexpectedEndOfInput,
        ),
        k % 2 == 0 ==> hex_bytes(hex_text(bytes).take(k)) == Ok::<Seq<u8>, CodecError>(
            bytes.take(k / 2),
        ),
{
    law_hex_round_trip(bytes);
    let text = hex_text(bytes);
    let cut = text.take(k);
    assert forall|i: int| 0 <= i < cut.len() implies digit_value(#[trigger] cut[i]) is Some by {
        assert(cut[i] == text[i]);
    }
    if k % 2 == 0 {
        assert(cut =~= hex_text(bytes.take(k / 2)));
        law_hex_round_trip(bytes.take(k / 2));
    }
}

/// The hexadecimal digit for `n`, as text.
fn digit_str(n: u8) -> (s: &'static str)
    requires
        n < 16,
    ensures
        s@ == seq![hex_digit(n as int) as char],
{
    proof {
        reveal_strlit("0");
        reveal_strlit("1");
        reveal_strlit("2");
        reveal_strlit("3");
        reveal_strlit("4");
        reveal_strlit("5");
        reveal_strlit("6");
        reveal_strlit("7");
        reveal_strlit("8");
        reveal_strlit("9");
        reveal_strlit("A");
        reveal_strlit("B");
        reveal_strlit("C");
        reveal_strlit("D");
        reveal_strlit("E");
        reveal_strlit("F");
    }
    let s = match n {
        0 => "0",
        1 => "1",
        2 => "2",
        3 => "3",
        4 => "4",
        5 => "5",
        6 => "6",
        7 => "7",
        8 => "8",
        9 => "9",
        10 => "A",
        11 => "B",
        12 => "C",
        13 => "D",
        14 => "E",
        _ => "F",
    };
    assert(s@ =~= seq![hex_digit(n as int) as char]);
    s
}

/// Writes bytes as hexadecimal text.
pub fn hex_encode(bytes: &[u8]) -> (text: String)
    ensures
        text@ == hex_chars(bytes@),
{
    let mut text = String::new();
    let mut i: usize = 0;
    assert(hex_chars(bytes@.take(0)) =~= Seq::empty());
    while i < bytes.len()
        invariant
            i <= bytes.len(),
            text@ == hex_chars(bytes@.take(i as int)),
        decreases bytes.len() - i,
    {
        let b: u8 = bytes[i];
        let ghost before = text@;
        text.append(digit_str(b / 16));
        text.append(digit_str(b % 16));
        proof {
            let done = bytes@.take(i as int);
            let next = bytes@.take(i + 1);
            assert(next =~= done.push(b));
            assert(hex_chars(next) =~= before + seq![hex_digit(b as int / 16) as char] + seq![
                hex_digit(b as int % 16) as char,
            ]) by {
                assert forall|k: int| 0 <= k < 2 * i implies hex_chars(next)[k] == before[k] by {
                    assert(next[k / 2] == done[k / 2]);
                }
                assert((2 * i) / 2 == i && (2 * i + 1) / 2 == i);
            }
        }
        i = i + 1;
    }
    assert(bytes@.take(bytes@.len() as int) =~= bytes@);
    text
}

/// The number that the hexadecimal digit with ASCII code `c` stands for.
fn digit_of(c: u8) -> (d: Option<u8>)
    ensures
        match d {
            Some(v) => digit_value(c) == Some(v as int) && v < 16,
            None => digit_value(c) is None,
        },
{
    if 48 <= c && c <= 57 {
        Some(c - 48)
    } else if 65 <= c && c <= 70 {
        Some(c - 55)
    } else if 97 <= c && c <= 102 {
        Some(c - 87)
    } else {
        None
    }
}

/// Reads hexadecimal text, given as ASCII codes.
pub fn hex_decode_bytes(text: &[u8]) -> (res: Result<Vec<u8>, CodecError>)
    ensures
        match res {
            Ok(bytes) => hex_bytes(text@) == Ok::<Seq<u8>, CodecError>(bytes@),
            Err(e) => hex_bytes(text@) == Err::<Seq<u8>, CodecError>(e),
        },
{
    let mut k: usize = 0;
    while k < text.len()
        invariant
            k <= text.len(),
            forall|i: int| 0 <= i < k ==> digit_value(#[trigger] text@[i]) is Some,
        decreases text.len() - k,
    {
        if digit_of(text[k]).is_none() {
            return Err(CodecError::InvalidHex);
        }
        k = k + 1;
    }
    if text.len() % 2 == 1 {
        return Err(CodecError::UnexpectedEndOfInput);
    }
    let count: usize = text.len() / 2;
    let mut bytes: Vec<u8> = Vec::new();
    let mut i: usize = 0;
    while i < count
        invariant
            i <= count,
            count * 2 == text.len(),
            all_hex(text@),
            bytes.len() == i,
            forall|j: int| 0 <= j < i ==> bytes@[j] == byte_of(text@[2 * j], text@[2 * j + 1]),
        decreases count - i,
    {
        let hi: u8 = text[2 * i];
        let lo: u8 = text[2 * i + 1];
        let h: u8 = match digit_of(hi) {
            Some(v) => v,
            None => 0,
        };
        let l: u8 = match digit_of(lo) {
            Some(v) => v,
            None => 0,
        };
        bytes.push(16 * h + l);
        i = i + 1;
    }
    assert(bytes@ =~= hex_bytes(text@)->Ok_0);
    Ok(bytes)
}

/// Reads hexadecimal text.
pub fn hex_decode(text: &str) -> (res: Result<Vec<u8>, CodecError>)
    ensures
        match res {
            Ok(bytes) => hex_bytes(vstd::utf8::encode_utf8(text@)) == Ok::<Seq<u8>, CodecError>(
                bytes@,
            ),
            Err(e) => hex_bytes(vstd::utf8::encode_utf8(text@)) == Err::<Seq<u8>, CodecError>(
                e,
            ),
        },
{
    hex_decode_bytes(text.as_bytes())
}

/// The text that `hex_encode` writes is ASCII, and its bytes as text are
/// the hexadecimal text of the bytes that were written.
pub proof fn lemma_hex_chars_ascii(bytes: Seq<u8>)
    ensures
        vstd::utf8::is_ascii_chars(hex_chars(bytes)),
        vstd::utf8::encode_utf8(hex_chars(bytes)) == hex_text(bytes),
{
    let chars = hex_chars(bytes);
    let text = hex_text(bytes);
    assert forall|i: int| 0 <= i < chars.len() implies '\0' <= #[trigger] chars[i] <= '\u{7f}' by {
        let b = bytes[i / 2];
        assert(0 <= b as int / 16 < 16 && 0 <= b as int % 16 < 16);
        assert(text[i] < 128);
    }
    vstd::utf8::is_ascii_chars_encode_utf8(chars);
    assert forall|i: int| 0 <= i < chars.len() implies vstd::utf8::encode_utf8(chars)[i]
        == text[i] by {
        let b = bytes[i / 2];
        assert(0 <= b as int / 16 < 16 && 0 <= b as int % 16 < 16);
        assert(text[i] < 128);
        assert(chars[i] as u8 == text[i]);
    }
    assert(vstd::utf8::encode_utf8(chars) =~= text);
}

} // verus!

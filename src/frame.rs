use vstd::prelude::*;
use vstd::string::StringSliceAdditionalSpecFns;
use vstd::utf8::encode_utf8;

verus! {

/// Hex characters on a line that carries one frame of samples.
pub const FRAME_HEX_LEN: usize = 1050;

/// Why a line carries no frame.
#[derive(Clone, Copy, Debug, PartialEq, Eq, Structural)]
pub enum FrameError {
    /// The trimmed line does not have the frame's length.
    WrongLength,
    /// The trimmed line has the frame's length but is not hex text.
    InvalidHex,
}

#[verifier::external_type_specification]
#[verifier::external_body]
pub struct ExFromHexError(hex::FromHexError);

/// An ASCII hex digit, in either case.
pub open spec fn is_hex_digit(c: u8) -> bool {
    (48 <= c <= 57) || (65 <= c <= 70) || (97 <= c <= 102)
}

/// The value of an ASCII hex digit.
pub open spec fn hex_digit_value(c: u8) -> int {
    if 48 <= c <= 57 {
        c - 48
    } else if 65 <= c <= 70 {
        c - 55
    } else {
        c - 87
    }
}

/// Text of even length made of hex digits alone.
pub open spec fn is_hex_text(b: Seq<u8>) -> bool {
    &&& b.len() % 2 == 0
    &&& forall|i: int| 0 <= i < b.len() ==> is_hex_digit(#[trigger] b[i])
}

/// The bytes that hex text spells, two digits each, the high digit first.
pub open spec fn hex_bytes(b: Seq<u8>) -> Seq<u8> {
    Seq::new(
        b.len() / 2,
        |i: int| (16 * hex_digit_value(b[2 * i]) + hex_digit_value(b[2 * i + 1])) as u8,
    )
}

/// What `str::trim` leaves of a line.
pub uninterp spec fn trimmed(s: Seq<char>) -> Seq<char>;

/// Relies on `str::trim`: the line without leading and trailing white space,
/// which depends on the line alone.
#[verifier::external_body]
fn trim_line(line: &str) -> (r: &str)
    ensures
        r@ == trimmed(line@),
{
    line.trim()
}

/// Relies on `hex::decode`: it succeeds exactly on text of even length made
/// of hex digits (either case), and then gives one byte for each pair of
/// digits, the high digit first.
#[verifier::external_body]
fn decode_hex(text: &str) -> (r: Result<Vec<u8>, hex::FromHexError>)
    ensures
        r.is_ok() <==> is_hex_text(text.spec_bytes()),
        r matches Ok(v) ==> v@ == hex_bytes(text.spec_bytes()),
{
    hex::decode(text)
}

/// The payload bytes of a frame written as hex text, already trimmed.
pub fn payload_of_trimmed(text: &str) -> (r: Result<Vec<u8>, FrameError>)
    ensures
        text.len() != FRAME_HEX_LEN ==> r == Err::<Vec<u8>, FrameError>(
            FrameError::WrongLength,
        ),
        text.len() == FRAME_HEX_LEN && !is_hex_text(text.spec_bytes()) ==> r == Err::<
            Vec<u8>,
            FrameError,
        >(FrameError::InvalidHex),
        text.len() == FRAME_HEX_LEN && is_hex_text(text.spec_bytes()) ==> (r matches Ok(
            v,
        ) && v@ == hex_bytes(text.spec_bytes())),
{
    if text.len() != FRAME_HEX_LEN {
        return Err(FrameError::WrongLength);
    }
    match decode_hex(text) {
        Ok(bytes) => Ok(bytes),
        Err(_) => Err(FrameError::InvalidHex),
    }
}

/// The payload bytes of the frame that a received line carries: the line
/// is trimmed, must hold exactly `FRAME_HEX_LEN` characters, and must be
/// hex text.
pub fn frame_payload(line: &str) -> (r: Result<Vec<u8>, FrameError>)
    ensures
        ({
            let b = encode_utf8(trimmed(line@));
            &&& b.len() as usize != FRAME_HEX_LEN ==> r == Err::<Vec<u8>, FrameError>(FrameError::WrongLength)
            &&& b.len() as usize == FRAME_HEX_LEN && !is_hex_text(b) ==> r == Err::<Vec<u8>, FrameError>(
                FrameError::InvalidHex,
            )
            &&& b.len() as usize == FRAME_HEX_LEN && is_hex_text(b) ==> (r matches Ok(v) && v@ == hex_bytes(b))
        }),
{
    payload_of_trimmed(trim_line(line))
}

} // verus!

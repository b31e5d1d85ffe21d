use vstd::prelude::*;
use vstd::utf8::*;
use vstd::string::StringSliceAdditionalSpecFns;

verus! {

/// The little-endian number that four bytes spell.
pub open spec fn le_value(b0: u8, b1: u8, b2: u8, b3: u8) -> int {
    b0 + 256 * b1 + 65536 * b2 + 16777216 * b3
}

/// The four little-endian bytes of a 32-bit value.
pub open spec fn le_bytes(v: u32) -> Seq<u8> {
    seq![
        (v % 256) as u8,
        ((v / 256) % 256) as u8,
        ((v / 65536) % 256) as u8,
        (v / 16777216) as u8,
    ]
}

/// What `String::from_utf8_lossy` makes of a byte sequence.
pub uninterp spec fn utf8_lossy(bytes: Seq<u8>) -> Seq<char>;

/// Calls `String::from_utf8_lossy`. Trusted: the result is a function of
/// the bytes alone, and bytes that already are valid UTF-8 come back as the
/// characters they encode (as the std documentation says).
#[verifier::external_body]
fn lossy_string(bytes: &[u8]) -> (s: String)
    ensures
        s@ == utf8_lossy(bytes@),
        valid_utf8(bytes@) ==> s@ == decode_utf8(bytes@),
{
    String::from_utf8_lossy(bytes).into_owned()
}

/// A FourCC pixel-format identifier (V4L2-compatible, stored little-endian).
#[derive(Debug, Clone, Copy, PartialEq, Eq, Hash, Structural)]
pub struct FourCC(u32);

impl View for FourCC {
    type V = u32;

    closed spec fn view(&self) -> u32 {
        self.0
    }
}

impl FourCC {
    /// Motion JPEG ("MJPG").
    pub fn mjpg() -> (f: FourCC)
        ensures
            f@ == le_value(0x4D, 0x4A, 0x50, 0x47),
    {
        FourCC(0x4750_4A4D)
    }

    /// YUV 4:2:2 packed ("YUYV").
    pub fn yuyv() -> (f: FourCC)
        ensures
            f@ == le_value(0x59, 0x55, 0x59, 0x56),
    {
        FourCC(0x5659_5559)
    }

    /// YUV 4:2:0 planar, V4L2 YU12 / rpicam yuv420 ("YU12").
    pub fn yu12() -> (f: FourCC)
        ensures
            f@ == le_value(0x59, 0x55, 0x31, 0x32),
    {
        FourCC(0x3231_5559)
    }

    pub fn from_le_bytes(b: &[u8; 4]) -> (f: FourCC)
        ensures
            f@ == le_value(b[0], b[1], b[2], b[3]),
    {
        FourCC(b[0] as u32 + (b[1] as u32) * 256 + (b[2] as u32) * 65536 + (b[3] as u32) * 16777216)
    }

    /// The code spelled by a string of exactly four bytes (UTF-8 encoded);
    /// `None` for any other length.
    pub fn parse(s: &str) -> (r: Option<FourCC>)
        ensures
            r is Some <==> s.spec_bytes().len() == 4,
            r matches Some(f) ==> f@ == le_value(
                s.spec_bytes()[0],
                s.spec_bytes()[1],
                s.spec_bytes()[2],
                s.spec_bytes()[3],
            ),
    {
        let bytes = s.as_bytes();
        if bytes.len() != 4 {
            return None;
        }
        let arr: [u8; 4] = [bytes[0], bytes[1], bytes[2], bytes[3]];
        Some(FourCC::from_le_bytes(&arr))
    }

    pub fn to_le_bytes(self) -> (b: [u8; 4])
        ensures
            b@ == le_bytes(self@),
            le_value(b[0], b[1], b[2], b[3]) == self@,
    {
        let v = self.0;
        let b = [(v % 256) as u8, ((v / 256) % 256) as u8, ((v / 65536) % 256) as u8, (v / 16777216) as u8];
        assert(b@ =~= le_bytes(v));
        b
    }

    pub fn as_u32(self) -> (v: u32)
        ensures
            v == self@,
    {
        self.0
    }

    /// The four bytes read as UTF-8 (invalid sequences replaced), as the
    /// type's display form.
    pub fn to_string(&self) -> (s: String)
        ensures
            s@ == utf8_lossy(le_bytes(self@)),
            valid_utf8(le_bytes(self@)) ==> s@ == decode_utf8(le_bytes(self@)),
    {
        let b = self.to_le_bytes();
        lossy_string(&b)
    }
}

/// Reading four bytes as a code and writing the code back out gives the same
/// four bytes.
#[verifier::spinoff_prover]
pub proof fn law_le_bytes_roundtrip(b0: u8, b1: u8, b2: u8, b3: u8)
    ensures
        le_bytes(le_value(b0, b1, b2, b3) as u32) == seq![b0, b1, b2, b3],
{
    let v = le_value(b0, b1, b2, b3) as u32;
    assert(le_bytes(v) =~= seq![b0, b1, b2, b3]);
}

/// Two FourCCs with the same code are the same.
pub proof fn lemma_view_injective(a: FourCC, b: FourCC)
    ensures
        a@ == b@ <==> a == b,
{
}

/// A code parsed from a name of four bytes displays as that name again: the
/// code's bytes are the name's UTF-8 bytes, which are valid UTF-8 and decode
/// to the name.
pub proof fn law_parsed_name_displays_back(name: Seq<char>)
    requires
        encode_utf8(name).len() == 4,
    ensures
        ({
            let b = encode_utf8(name);
            let code = le_value(b[0], b[1], b[2], b[3]) as u32;
            valid_utf8(le_bytes(code)) && decode_utf8(le_bytes(code)) == name
        }),
{
    let b = encode_utf8(name);
    law_le_bytes_roundtrip(b[0], b[1], b[2], b[3]);
    assert(b =~= seq![b[0], b[1], b[2], b[3]]);
    encode_utf8_valid_utf8(name);
    encode_utf8_decode_utf8(name);
}

} // verus!

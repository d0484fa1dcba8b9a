use vstd::prelude::*;

verus! {

/// The value of a four-byte big-endian frame.
pub open spec fn frame_value(b: Seq<u8>) -> int
    recommends
        b.len() == 4,
{
    b[0] as int * 16777216 + b[1] as int * 65536 + b[2] as int * 256 + b[3] as int
}

/// The four big-endian bytes of a 32-bit value.
pub open spec fn frame_bytes(n: u32) -> Seq<u8> {
    seq![
        (n as int / 16777216) as u8,
        (n as int / 65536 % 256) as u8,
        (n as int / 256 % 256) as u8,
        (n as int % 256) as u8,
    ]
}

/// Reads a frame as a big-endian unsigned 32-bit integer.
pub fn decode_frame(b: &[u8; 4]) -> (r: u32)
    ensures
        r as int == frame_value(b@),
{
    let b0 = b[0] as u32;
    let b1 = b[1] as u32;
    let b2 = b[2] as u32;
    let b3 = b[3] as u32;
    b0 * 16777216 + b1 * 65536 + b2 * 256 + b3
}

/// Writes a 32-bit value as a four-byte big-endian frame.
pub fn encode_frame(n: u32) -> (r: [u8; 4])
    ensures
        r@ == frame_bytes(n),
        frame_value(r@) == n as int,
{
    let r = [(n / 16777216) as u8, (n / 65536 % 256) as u8, (n / 256 % 256) as u8, (n % 256) as u8];
    proof {
        lemma_frame_value_of_bytes(n);
    }
    assert(r@ =~= frame_bytes(n));
    r
}

/// Encoding a value and reading it back gives the value.
pub proof fn lemma_frame_value_of_bytes(n: u32)
    ensures
        frame_bytes(n).len() == 4,
        frame_value(frame_bytes(n)) == n as int,
{
    let x = n as int;
    assert(x == (x / 16777216) * 16777216 + (x / 65536 % 256) * 65536 + (x / 256 % 256) * 256 + x % 256) by (nonlinear_arith)
        requires 0 <= x < 4294967296;
}

/// Reading a frame and encoding the value gives back the frame.
pub proof fn lemma_frame_bytes_of_value(b: Seq<u8>)
    requires
        b.len() == 4,
    ensures
        0 <= frame_value(b) < 4294967296,
        frame_bytes(frame_value(b) as u32) =~= b,
{
    let (b0, b1, b2, b3) = (b[0] as int, b[1] as int, b[2] as int, b[3] as int);
    let x = frame_value(b);
    assert(x / 16777216 == b0 && x / 65536 % 256 == b1 && x / 256 % 256 == b2 && x % 256 == b3) by (nonlinear_arith)
        requires
            x == b0 * 16777216 + b1 * 65536 + b2 * 256 + b3,
            0 <= b0 < 256, 0 <= b1 < 256, 0 <= b2 < 256, 0 <= b3 < 256;
}

} // verus!

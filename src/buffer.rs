//! Byte buffers, the machine's only memory cells, and their fixed-width
//! numeric encoding: eight bytes, most significant first.
use vstd::prelude::*;

verus! {

/// The number a numeric buffer holds: eight bytes read most significant first.
pub open spec fn u64_from_be(b: Seq<u8>) -> u64
    recommends
        b.len() == 8,
{
    ((b[0] as u64) << 56u64) | ((b[1] as u64) << 48u64) | ((b[2] as u64) << 40u64) | ((
    b[3] as u64) << 32u64) | ((b[4] as u64) << 24u64) | ((b[5] as u64) << 16u64) | ((
    b[6] as u64) << 8u64) | (b[7] as u64)
}

/// The eight bytes of `x`, most significant first.
pub open spec fn u64_to_be(x: u64) -> Seq<u8> {
    seq![
        (x >> 56u64) as u8,
        (x >> 48u64) as u8,
        (x >> 40u64) as u8,
        (x >> 32u64) as u8,
        (x >> 24u64) as u8,
        (x >> 16u64) as u8,
        (x >> 8u64) as u8,
        x as u8,
    ]
}

/// A named, resizable byte sequence.
#[derive(Debug, Clone)]
pub struct Buffer {
    pub contents: Vec<u8>,
}

impl View for Buffer {
    type V = Seq<u8>;

    open spec fn view(&self) -> Seq<u8> {
        self.contents@
    }
}

impl Buffer {
    /// Reads the buffer as a number; only an eight-byte buffer holds one.
    pub fn as_u64(&self) -> (r: Result<u64, &'static str>)
        ensures
            self.contents@.len() == 8 <==> r is Ok,
            r is Ok ==> r->Ok_0 == u64_from_be(self.contents@),
            r is Err ==> r->Err_0@ == "Invalid length"@,
    {
        if self.contents.len() != 8 {
            return Err("Invalid length");
        }
        let c = &self.contents;
        let result: u64 = ((c[0] as u64) << 56u64) | ((c[1] as u64) << 48u64) | ((c[2] as u64)
            << 40u64) | ((c[3] as u64) << 32u64) | ((c[4] as u64) << 24u64) | ((c[5] as u64)
            << 16u64) | ((c[6] as u64) << 8u64) | (c[7] as u64);
        Ok(result)
    }

    /// Replaces the contents with the eight-byte encoding of `x`.
    pub fn load_u64(&mut self, x: u64)
        ensures
            final(self).contents@ == u64_to_be(x),
    {
        let mut contents: Vec<u8> = Vec::new();
        contents.push((x >> 56u64) as u8);
        contents.push((x >> 48u64) as u8);
        contents.push((x >> 40u64) as u8);
        contents.push((x >> 32u64) as u8);
        contents.push((x >> 24u64) as u8);
        contents.push((x >> 16u64) as u8);
        contents.push((x >> 8u64) as u8);
        contents.push(x as u8);
        self.contents = contents;
        assert(self.contents@ =~= u64_to_be(x));
    }
}

/// Encoding a number and reading it back gives the number.
pub proof fn lemma_be_of_u64(x: u64)
    ensures
        u64_to_be(x).len() == 8,
        u64_from_be(u64_to_be(x)) == x,
{
    let b = u64_to_be(x);
    assert(((((x >> 56u64) as u8) as u64) << 56u64) | ((((x >> 48u64) as u8) as u64) << 48u64)
        | ((((x >> 40u64) as u8) as u64) << 40u64) | ((((x >> 32u64) as u8) as u64) << 32u64)
        | ((((x >> 24u64) as u8) as u64) << 24u64) | ((((x >> 16u64) as u8) as u64) << 16u64)
        | ((((x >> 8u64) as u8) as u64) << 8u64) | ((x as u8) as u64) == x) by (bit_vector);
}

/// Reading any eight bytes as a number and encoding that number again gives
/// back the same eight bytes.
pub proof fn lemma_u64_round_trip(b: Seq<u8>)
    requires
        b.len() == 8,
    ensures
        u64_to_be(u64_from_be(b)) == b,
{
    let (b0, b1, b2, b3, b4, b5, b6, b7) = (b[0], b[1], b[2], b[3], b[4], b[5], b[6], b[7]);
    let v = u64_from_be(b);
    assert(v == ((b0 as u64) << 56u64) | ((b1 as u64) << 48u64) | ((b2 as u64) << 40u64) | ((
    b3 as u64) << 32u64) | ((b4 as u64) << 24u64) | ((b5 as u64) << 16u64) | ((b6 as u64)
        << 8u64) | (b7 as u64));
    assert(v == ((b0 as u64) << 56u64) | ((b1 as u64) << 48u64) | ((b2 as u64) << 40u64) | ((
    b3 as u64) << 32u64) | ((b4 as u64) << 24u64) | ((b5 as u64) << 16u64) | ((b6 as u64)
        << 8u64) | (b7 as u64) ==> (v >> 56u64) as u8 == b0 && (v >> 48u64) as u8 == b1 && (v
        >> 40u64) as u8 == b2 && (v >> 32u64) as u8 == b3 && (v >> 24u64) as u8 == b4 && (v
        >> 16u64) as u8 == b5 && (v >> 8u64) as u8 == b6 && v as u8 == b7) by (bit_vector);
    assert(u64_to_be(v) =~= b);
}

} // verus!

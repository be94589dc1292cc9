use vstd::prelude::*;

verus! {

/// Bytes in the length header that leads a framed payload.
pub const HEADER_SIZE: usize = 4;

/// The big-endian value of four bytes.
pub open spec fn be_value(b: Seq<u8>) -> int {
    b[0] as int * 16777216 + b[1] as int * 65536 + b[2] as int * 256 + b[3] as int
}

/// What `unframe` returns for `raw`: the bytes after the header, as many as
/// the header says, or all of them if fewer are there.
pub open spec fn payload_of(raw: Seq<u8>) -> Seq<u8> {
    let avail = raw.len() - 4;
    let n = if be_value(raw) < avail {
        be_value(raw)
    } else {
        avail
    };
    raw.subrange(4, 4 + n)
}

/// The four big-endian bytes of `n`.
fn be_bytes(n: u32) -> (r: [u8; 4])
    ensures
        be_value(r@) == n,
{
    let b0 = (n / 16777216) as u8;
    let b1 = ((n / 65536) % 256) as u8;
    let b2 = ((n / 256) % 256) as u8;
    let b3 = (n % 256) as u8;
    let r = [b0, b1, b2, b3];
    assert(r@[0] == b0 && r@[1] == b1 && r@[2] == b2 && r@[3] == b3);
    assert(b0 as int * 16777216 + b1 as int * 65536 + b2 as int * 256 + b3 as int == n) by (nonlinear_arith)
        requires
            b0 as int == n as int / 16777216,
            b1 as int == (n as int / 65536) % 256,
            b2 as int == (n as int / 256) % 256,
            b3 as int == n as int % 256,
            0 <= n as int <= 0xffff_ffff,
    ;
    r
}

/// Lays `content` out in `total` bytes: its length as a big-endian header,
/// then the content, then zeros.
pub fn frame(content: &Vec<u8>, total: usize) -> (r: Vec<u8>)
    requires
        content@.len() + HEADER_SIZE <= total,
        content@.len() <= u32::MAX,
    ensures
        r@.len() == total,
        be_value(r@) == content@.len(),
        r@.subrange(4, 4 + content@.len() as int) == content@,
        forall|i: int| 4 + content@.len() <= i < total ==> r@[i] == 0,
{
    let header = be_bytes(content.len() as u32);
    let mut r: Vec<u8> = Vec::new();
    let mut i: usize = 0;
    while i < 4
        invariant
            i <= 4,
            r@ == header@.subrange(0, i as int),
        decreases 4 - i,
    {
        r.push(header[i]);
        i = i + 1;
        assert(r@ =~= header@.subrange(0, i as int));
    }
    assert(r@ =~= header@);
    let mut j: usize = 0;
    while j < content.len()
        invariant
            j <= content@.len(),
            r@ == header@ + content@.subrange(0, j as int),
        decreases content@.len() - j,
    {
        r.push(content[j]);
        j = j + 1;
        assert(r@ =~= header@ + content@.subrange(0, j as int));
    }
    assert(content@.subrange(0, j as int) =~= content@);
    let ghost filled = r@;
    while r.len() < total
        invariant
            4 + content@.len() <= total,
            r@.len() <= total,
            r@.len() >= 4 + content@.len(),
            r@.subrange(0, 4 + content@.len() as int) == filled,
            filled == header@ + content@,
            forall|i: int| 4 + content@.len() <= i < r@.len() ==> r@[i] == 0,
        decreases total - r@.len(),
    {
        let ghost before = r@;
        r.push(0);
        assert(r@.subrange(0, 4 + content@.len() as int) =~= before.subrange(0, 4 + content@.len() as int));
    }
    assert(r@.subrange(4, 4 + content@.len() as int) =~= filled.subrange(4, 4 + content@.len() as int));
    assert(filled.subrange(4, 4 + content@.len() as int) =~= content@);
    assert forall|k: int| 0 <= k < 4 implies r@[k] == header@[k] by {
        assert(r@.subrange(0, 4 + content@.len() as int)[k] == r@[k]);
        assert(filled[k] == header@[k]);
    }
    r
}

/// The payload that a framed byte sequence carries.
pub fn unframe(raw: &Vec<u8>) -> (r: Vec<u8>)
    requires
        raw@.len() >= HEADER_SIZE,
    ensures
        r@ == payload_of(raw@),
{
    let len: u64 = raw[0] as u64 * 16777216 + raw[1] as u64 * 65536 + raw[2] as u64 * 256
        + raw[3] as u64;
    let avail: usize = raw.len() - 4;
    let n: usize = if len < avail as u64 {
        len as usize
    } else {
        avail
    };
    let mut r: Vec<u8> = Vec::new();
    let mut i: usize = 0;
    while i < n
        invariant
            n <= avail == raw@.len() - 4,
            4 + n <= raw@.len() <= usize::MAX,
            i <= n,
            r@ == raw@.subrange(4, 4 + i),
        decreases n - i,
    {
        r.push(raw[4 + i]);
        i = i + 1;
        assert(r@ =~= raw@.subrange(4, 4 + i));
    }
    r
}

/// Framing a payload and reading the frame back gives the payload.
pub proof fn lemma_frame_round_trip(content: Seq<u8>, framed: Seq<u8>)
    requires
        framed.len() >= 4 + content.len(),
        be_value(framed) == content.len(),
        framed.subrange(4, 4 + content.len() as int) == content,
    ensures
        payload_of(framed) == content,
{
}

} // verus!

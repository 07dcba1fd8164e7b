//! Content identity of a file: the 128-bit xxh3 of either the whole content
//! (below 40 MiB) or of five fixed 4-MiB windows of it, rendered as 32
//! lowercase hex digits.
//!
//! The hash is a pure function of the bytes, so a renamed or moved file keeps
//! its identity, and hashing a large file reads at most 20 MiB.

use vstd::prelude::*;

verus! {

/// One sampling window, in bytes.
pub const SEGMENT_SIZE: u64 = 4194304;

/// Files of at least this many bytes are sampled instead of hashed whole.
pub const WHOLE_FILE_LIMIT: u64 = 41943040;

/// The 128-bit digest that `xxhash_rust::xxh3::xxh3_128` computes for a byte
/// sequence. The digest depends on the bytes alone.
pub uninterp spec fn xxh3_of(data: Seq<u8>) -> u128;

/// Relies on xxhash_rust::xxh3::xxh3_128: an unseeded digest of the input
/// bytes, the same for the same bytes on every platform.
#[verifier::external_body]
fn xxh3_128_digest(data: &Vec<u8>) -> (r: u128)
    ensures
        r == xxh3_of(data@),
{
    xxhash_rust::xxh3::xxh3_128(data.as_slice())
}

/// One lowercase hexadecimal digit.
pub open spec fn hex_digit(n: int) -> char {
    if n == 0 {
        '0'
    } else if n == 1 {
        '1'
    } else if n == 2 {
        '2'
    } else if n == 3 {
        '3'
    } else if n == 4 {
        '4'
    } else if n == 5 {
        '5'
    } else if n == 6 {
        '6'
    } else if n == 7 {
        '7'
    } else if n == 8 {
        '8'
    } else if n == 9 {
        '9'
    } else if n == 10 {
        'a'
    } else if n == 11 {
        'b'
    } else if n == 12 {
        'c'
    } else if n == 13 {
        'd'
    } else if n == 14 {
        'e'
    } else {
        'f'
    }
}

/// The last `k` hex digits of `n`, most significant first, zero padded.
pub open spec fn hex_seq(n: nat, k: nat) -> Seq<char>
    decreases k,
{
    if k == 0 {
        Seq::empty()
    } else {
        hex_seq(n / 16, (k - 1) as nat).push(hex_digit((n % 16) as int))
    }
}

/// A 128-bit digest as 32 lowercase hex characters, zero padded.
pub open spec fn hex32(n: nat) -> Seq<char> {
    hex_seq(n, 32)
}

fn hex_digit_exec(n: u8) -> (r: char)
    requires
        n < 16,
    ensures
        r == hex_digit(n as int),
{
    if n == 0 {
        '0'
    } else if n == 1 {
        '1'
    } else if n == 2 {
        '2'
    } else if n == 3 {
        '3'
    } else if n == 4 {
        '4'
    } else if n == 5 {
        '5'
    } else if n == 6 {
        '6'
    } else if n == 7 {
        '7'
    } else if n == 8 {
        '8'
    } else if n == 9 {
        '9'
    } else if n == 10 {
        'a'
    } else if n == 11 {
        'b'
    } else if n == 12 {
        'c'
    } else if n == 13 {
        'd'
    } else if n == 14 {
        'e'
    } else {
        'f'
    }
}

fn hex_seq_exec(n: u128, k: u32) -> (r: Vec<char>)
    ensures
        r@ == hex_seq(n as nat, k as nat),
    decreases k,
{
    if k == 0 {
        Vec::new()
    } else {
        let mut r = hex_seq_exec(n / 16, k - 1);
        r.push(hex_digit_exec((n % 16) as u8));
        r
    }
}

/// Render a digest as its 32-character lowercase hex form.
pub fn hex32_string(n: u128) -> (r: String)
    ensures
        r@ == hex32(n as nat),
{
    let v = hex_seq_exec(n, 32);
    crate::text::string_of(&v)
}

/// The bytes that actually go into the digest: the whole content when it is
/// under the limit, else five 4-MiB windows at 0, gap, 2*gap, 3*gap and
/// len - 4 MiB, where gap = (len - 4 MiB) / 4, concatenated in that order.
pub open spec fn sampled_bytes(data: Seq<u8>) -> Seq<u8> {
    if data.len() < WHOLE_FILE_LIMIT {
        data
    } else {
        let seg = SEGMENT_SIZE as int;
        let gap = (data.len() - seg) / 4;
        data.subrange(0, seg) + data.subrange(gap, gap + seg) + data.subrange(
            2 * gap,
            2 * gap + seg,
        ) + data.subrange(3 * gap, 3 * gap + seg) + data.subrange(
            data.len() - seg,
            data.len() as int,
        )
    }
}

/// The hex fingerprint of a byte sequence.
pub open spec fn fast_hash_of(data: Seq<u8>) -> Seq<char> {
    hex32(xxh3_of(sampled_bytes(data)) as nat)
}

/// Whether a file of `size` bytes is hashed whole rather than sampled.
pub fn uses_whole_file(size: u64) -> (r: bool)
    ensures
        r == (size < WHOLE_FILE_LIMIT),
{
    size < WHOLE_FILE_LIMIT
}

/// The five window offsets for a file of `size` bytes, or `None` when the
/// whole file is hashed.
pub fn segment_offsets(size: u64) -> (r: Option<Vec<u64>>)
    ensures
        match r {
            None => size < WHOLE_FILE_LIMIT,
            Some(offs) => {
                &&& size >= WHOLE_FILE_LIMIT
                &&& offs@.len() == 5
                &&& offs@[0] == 0
                &&& offs@[1] == (size - SEGMENT_SIZE) as u64 / 4
                &&& offs@[2] == 2 * ((size - SEGMENT_SIZE) as u64 / 4)
                &&& offs@[3] == 3 * ((size - SEGMENT_SIZE) as u64 / 4)
                &&& offs@[4] == size - SEGMENT_SIZE
            },
        },
{
    if size < WHOLE_FILE_LIMIT {
        return None;
    }
    let gap: u64 = (size - SEGMENT_SIZE) / 4;
    proof {
        assert(gap <= (size - SEGMENT_SIZE) as u64) by (nonlinear_arith)
            requires
                gap == (size - SEGMENT_SIZE) as u64 / 4,
                size >= SEGMENT_SIZE,
        ;
    }
    let mut offs: Vec<u64> = Vec::new();
    offs.push(0);
    offs.push(gap);
    offs.push(2 * gap);
    offs.push(3 * gap);
    offs.push(size - SEGMENT_SIZE);
    Some(offs)
}

/// Below the limit every byte of the content is hashed.
pub proof fn lemma_small_file_hashed_whole(data: Seq<u8>)
    requires
        data.len() < WHOLE_FILE_LIMIT,
    ensures
        sampled_bytes(data) == data,
{
}

/// At or above the limit exactly five windows, 20 MiB in all, are hashed.
pub proof fn lemma_large_file_sampled(data: Seq<u8>)
    requires
        data.len() >= WHOLE_FILE_LIMIT,
    ensures
        sampled_bytes(data).len() == 5 * SEGMENT_SIZE,
{
    let seg = SEGMENT_SIZE as int;
    let gap = (data.len() - seg) / 4;
    assert(0 <= gap && 3 * gap + seg <= data.len()) by (nonlinear_arith)
        requires
            gap == (data.len() - seg) / 4,
            data.len() >= seg,
            seg == SEGMENT_SIZE as int,
    ;
}

fn append_range(out: &mut Vec<u8>, data: &Vec<u8>, from: usize, to: usize) -> (r: ())
    requires
        from <= to <= data@.len(),
    ensures
        final(out)@ == old(out)@ + data@.subrange(from as int, to as int),
{
    let mut i: usize = from;
    while i < to
        invariant
            from <= i <= to <= data@.len(),
            out@ == old(out)@ + data@.subrange(from as int, i as int),
        decreases to - i,
    {
        out.push(data[i]);
        i = i + 1;
        proof {
            assert(out@ =~= old(out)@ + data@.subrange(from as int, i as int));
        }
    }
}

/// The fingerprint of in-memory content: sampling, digest and hex rendering.
pub fn fast_hash_bytes(data: &Vec<u8>) -> (r: String)
    ensures
        r@ == fast_hash_of(data@),
{
    let len: usize = data.len();
    if (len as u64) < WHOLE_FILE_LIMIT {
        let h = xxh3_128_digest(data);
        return hex32_string(h);
    }
    proof {
        lemma_large_file_sampled(data@);
    }
    let seg: usize = SEGMENT_SIZE as usize;
    let gap: usize = (len - seg) / 4;
    proof {
        assert(0 <= gap && 3 * gap + seg <= len) by (nonlinear_arith)
            requires
                gap == (len - seg) / 4,
                len >= seg,
        ;
    }
    let mut sampled: Vec<u8> = Vec::new();
    append_range(&mut sampled, data, 0, seg);
    append_range(&mut sampled, data, gap, gap + seg);
    append_range(&mut sampled, data, 2 * gap, 2 * gap + seg);
    append_range(&mut sampled, data, 3 * gap, 3 * gap + seg);
    append_range(&mut sampled, data, len - seg, len);
    proof {
        assert(sampled@ =~= sampled_bytes(data@));
    }
    let h = xxh3_128_digest(&sampled);
    hex32_string(h)
}

/// The digest-and-render step alone, for callers that have already gathered
/// the bytes to be hashed (a whole small file, or the five windows read from
/// a large one, concatenated in order).
pub fn hash_gathered_bytes(data: &Vec<u8>) -> (r: String)
    ensures
        r@ == hex32(xxh3_of(data@) as nat),
{
    let h = xxh3_128_digest(data);
    hex32_string(h)
}

/// The fingerprint is a function of the bytes alone: the same content
/// gives the same hash wherever the file sits and whatever it is named, so
/// a rename or move never changes a file's identity.
pub proof fn lemma_fingerprint_deterministic(a: Seq<u8>, b: Seq<u8>)
    requires
        a == b,
    ensures
        fast_hash_of(a) == fast_hash_of(b),
{
}

/// The fingerprint is 32 characters long whatever the digest.
pub proof fn lemma_hex32_len(n: nat)
    ensures
        hex32(n).len() == 32,
{
    lemma_hex_seq_len(n, 32);
}

proof fn lemma_hex_seq_len(n: nat, k: nat)
    ensures
        hex_seq(n, k).len() == k,
    decreases k,
{
    if k > 0 {
        lemma_hex_seq_len(n / 16, (k - 1) as nat);
    }
}

} // verus!

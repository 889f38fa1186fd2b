use vstd::prelude::*;

verus! {

/// Byte-for-byte equality of two byte slices.
pub fn bytes_eq(a: &[u8], b: &[u8]) -> (r: bool)
    ensures
        r == (a@ == b@),
{
    if a.len() != b.len() {
        return false;
    }
    let mut i: usize = 0;
    while i < a.len()
        invariant
            i <= a@.len(),
            a@.len() == b@.len(),
            forall|j: int| 0 <= j < i ==> a@[j] == b@[j],
        decreases a@.len() - i,
    {
        if a[i] != b[i] {
            return false;
        }
        i += 1;
    }
    proof {
        assert(a@ =~= b@);
    }
    true
}

/// Appends every byte of `src` to the end of `dst`.
pub fn push_all(dst: &mut Vec<u8>, src: &[u8])
    ensures
        final(dst)@ == old(dst)@ + src@,
{
    let mut i: usize = 0;
    while i < src.len()
        invariant
            i <= src@.len(),
            dst@ == old(dst)@ + src@.subrange(0, i as int),
        decreases src@.len() - i,
    {
        dst.push(src[i]);
        i += 1;
        proof {
            assert(dst@ =~= old(dst)@ + src@.subrange(0, i as int));
        }
    }
    proof {
        assert(src@.subrange(0, src@.len() as int) =~= src@);
    }
}

/// A fresh copy of a byte vector.
pub fn copy_bytes(src: &Vec<u8>) -> (r: Vec<u8>)
    ensures
        r@ == src@,
{
    let mut out: Vec<u8> = Vec::new();
    push_all(&mut out, src.as_slice());
    proof {
        assert(out@ =~= src@);
    }
    out
}

/// ASCII upper-case letters mapped to lower case; every other byte unchanged.
pub open spec fn ascii_lower(c: u8) -> u8 {
    if 0x41 <= c <= 0x5a {
        (c + 0x20) as u8
    } else {
        c
    }
}

/// The byte sequence with every ASCII letter lowered.
pub open spec fn seq_lower(s: Seq<u8>) -> Seq<u8> {
    s.map_values(|c: u8| ascii_lower(c))
}

/// Lower-cases one ASCII byte.
pub fn ascii_lower_byte(c: u8) -> (r: u8)
    ensures
        r == ascii_lower(c),
{
    if 0x41 <= c && c <= 0x5a {
        c + 0x20
    } else {
        c
    }
}

/// Case-insensitive (ASCII) equality of a byte slice against a reference name.
pub fn eq_ignore_ascii_case(a: &[u8], b: &[u8]) -> (r: bool)
    ensures
        r == (seq_lower(a@) == seq_lower(b@)),
{
    if a.len() != b.len() {
        proof {
            assert(seq_lower(a@).len() == a@.len());
            assert(seq_lower(b@).len() == b@.len());
        }
        return false;
    }
    let mut i: usize = 0;
    while i < a.len()
        invariant
            i <= a@.len(),
            a@.len() == b@.len(),
            forall|j: int| 0 <= j < i ==> ascii_lower(a@[j]) == ascii_lower(b@[j]),
        decreases a@.len() - i,
    {
        if ascii_lower_byte(a[i]) != ascii_lower_byte(b[i]) {
            proof {
                assert(seq_lower(a@)[i as int] != seq_lower(b@)[i as int]);
            }
            return false;
        }
        i += 1;
    }
    proof {
        assert(seq_lower(a@) =~= seq_lower(b@));
    }
    true
}

} // verus!

//! Identities: hashes that tell builds, shaders and devices apart.

use crate::device::DeviceReport;
use crate::words::{law_long_word_is_its_halves, long_bytes, long_to_bytes, word_at};
use vstd::prelude::*;
use vstd::string::*;

verus! {

/// The hash of nothing.
pub const FNV_OFFSET: u64 = 0xcbf2_9ce4_8422_2325;

/// What each step multiplies by.
pub const FNV_PRIME: u64 = 0x0000_0100_0000_01b3;

/// Embedded modules that the shader identity covers.
pub const SHADER_MODULES: usize = 19;

/// The hash after one more byte.
pub open spec fn fnv_step(h: u64, b: u8) -> u64 {
    ((h ^ (b as u64)) * FNV_PRIME % 0x1_0000_0000_0000_0000) as u64
}

/// The hash of a sequence of bytes, from `h` on.
pub open spec fn fnv(h: u64, bytes: Seq<u8>) -> u64
    decreases bytes.len(),
{
    if bytes.len() == 0 {
        h
    } else {
        fnv_step(fnv(h, bytes.drop_last()), bytes.last())
    }
}

/// The bytes of the parts, one part after another.
pub open spec fn joined(parts: Seq<&[u8]>) -> Seq<u8>
    decreases parts.len(),
{
    if parts.len() == 0 {
        Seq::empty()
    } else {
        joined(parts.drop_last()) + parts.last()@
    }
}

/// The FNV-1a hash of the parts' bytes: where one part ends and the next
/// begins makes no difference.
pub fn fnv1a(parts: &[&[u8]]) -> (r: u64)
    ensures
        r == fnv(FNV_OFFSET, joined(parts@)),
{
    let mut h: u64 = FNV_OFFSET;
    let mut i: usize = 0;
    proof {
        assert(joined(parts@.take(0)) =~= Seq::<u8>::empty());
    }
    while i < parts.len()
        invariant
            i <= parts.len(),
            h == fnv(FNV_OFFSET, joined(parts@.take(i as int))),
        decreases parts.len() - i,
    {
        let part: &[u8] = parts[i];
        let ghost before = joined(parts@.take(i as int));
        proof {
            assert(parts@.take(i + 1).drop_last() =~= parts@.take(i as int));
            assert(joined(parts@.take(i + 1)) == before + part@);
            assert(before + part@.take(0) =~= before);
        }
        let mut j: usize = 0;
        while j < part.len()
            invariant
                j <= part.len(),
                h == fnv(FNV_OFFSET, before + part@.take(j as int)),
            decreases part.len() - j,
        {
            proof {
                let next = before + part@.take(j + 1);
                assert(next.drop_last() =~= before + part@.take(j as int));
                assert(next.last() == part@[j as int]);
            }
            h = (h ^ (part[j] as u64)).wrapping_mul(FNV_PRIME);
            j += 1;
        }
        proof {
            assert(part@.take(j as int) =~= part@);
        }
        i += 1;
    }
    proof {
        assert(parts@.take(i as int) =~= parts@);
    }
    h
}

/// The shader identity of a library: over its embedded modules, in the order
/// NN, NT, TN, TT, the four edge variants, the two casts, the two FP32
/// products, pointwise, the two reductions, rowwise, loss, embedding and vq.
pub fn shader_identity(modules: &[&[u8]; SHADER_MODULES]) -> (r: u64)
    ensures
        r == fnv(FNV_OFFSET, joined(modules@)),
{
    fnv1a(modules)
}

/// Which build a library is, from its version and its shaders.
pub open spec fn build_hash(version: Seq<u8>, shaders: u64) -> u64 {
    fnv(FNV_OFFSET, version + long_bytes(shaders))
}

/// Which build this is: the crate version and the shader identity.
pub fn build_identity(version: &str, shaders: u64) -> (r: u64)
    ensures
        r == build_hash(version.spec_bytes(), shaders),
{
    let tail = long_to_bytes(shaders);
    two_parts(version.as_bytes(), tail.as_slice())
}

/// The identity of a device from its report and the shaders alone.
pub fn device_identity(report: &DeviceReport, shaders: u64) -> (r: u64)
    ensures
        r == fnv(FNV_OFFSET, report.identity() + long_bytes(shaders)),
{
    let head = report.identity_bytes();
    let tail = long_to_bytes(shaders);
    two_parts(head.as_slice(), tail.as_slice())
}

/// The hash of two parts.
pub(crate) fn two_parts(a: &[u8], b: &[u8]) -> (r: u64)
    ensures
        r == fnv(FNV_OFFSET, a@ + b@),
{
    let parts: [&[u8]; 2] = [a, b];
    proof {
        assert(parts@.drop_last() =~= seq![a]);
        assert(seq![a].drop_last() =~= Seq::<&[u8]>::empty());
        assert(joined(Seq::<&[u8]>::empty()) =~= Seq::<u8>::empty());
        assert(joined(seq![a]) =~= a@);
        assert(joined(parts@) =~= a@ + b@);
    }
    fnv1a(&parts)
}

/// The prime is odd, so that a step can be undone.
proof fn lemma_multiple_is_invertible(x: u64, y: u64)
    requires
        x * FNV_PRIME % 0x1_0000_0000_0000_0000 == y * FNV_PRIME % 0x1_0000_0000_0000_0000,
    ensures
        x == y,
{
    let d = x - y;
    let e = x * FNV_PRIME / 0x1_0000_0000_0000_0000 - y * FNV_PRIME / 0x1_0000_0000_0000_0000;
    assert(d * 0x0000_0100_0000_01b3 == e * 0x1_0000_0000_0000_0000);
    lemma_inverse(d, e);
    let t = e * 0xce96_5057_aff6_957b - d * 887285111055;
    assert(d == t * 0x1_0000_0000_0000_0000);
    assert(t == 0);
}

/// The prime times its inverse is one more than a multiple of the modulus.
proof fn lemma_inverse(d: int, e: int)
    requires
        d * 0x0000_0100_0000_01b3 == e * 0x1_0000_0000_0000_0000,
    ensures
        d == (e * 0xce96_5057_aff6_957b - d * 887285111055) * 0x1_0000_0000_0000_0000,
{
    assert(0x0000_0100_0000_01b3 * 0xce96_5057_aff6_957b == 1 + 887285111055
        * 0x1_0000_0000_0000_0000);
    assert((d * 0x0000_0100_0000_01b3) * 0xce96_5057_aff6_957b == (e * 0x1_0000_0000_0000_0000)
        * 0xce96_5057_aff6_957b);
}

proof fn lemma_step_tells_apart(h: u64, k: u64, b: u8, c: u8)
    ensures
        fnv_step(h, b) == fnv_step(k, b) ==> h == k,
        fnv_step(h, b) == fnv_step(h, c) ==> b == c,
{
    if fnv_step(h, b) == fnv_step(k, b) {
        lemma_multiple_is_invertible(h ^ (b as u64), k ^ (b as u64));
        assert(h ^ (b as u64) == k ^ (b as u64) ==> h == k) by (bit_vector);
    }
    if fnv_step(h, b) == fnv_step(h, c) {
        lemma_multiple_is_invertible(h ^ (b as u64), h ^ (c as u64));
        assert(h ^ (b as u64) == h ^ (c as u64) ==> b == c) by (bit_vector);
    }
}

/// A change of any one byte that an identity covers changes the identity.
pub proof fn law_one_byte_changes_the_identity(h: u64, bytes: Seq<u8>, i: int, v: u8)
    requires
        0 <= i < bytes.len(),
        v != bytes[i],
    ensures
        fnv(h, bytes.update(i, v)) != fnv(h, bytes),
    decreases bytes.len(),
{
    let changed = bytes.update(i, v);
    let head = bytes.drop_last();
    if i == bytes.len() - 1 {
        assert(changed.drop_last() =~= head);
        lemma_step_tells_apart(fnv(h, head), fnv(h, head), v, bytes.last());
    } else {
        assert(changed.drop_last() =~= head.update(i, v));
        law_one_byte_changes_the_identity(h, head, i, v);
        lemma_step_tells_apart(fnv(h, changed.drop_last()), fnv(h, head), bytes.last(), 0);
    }
}

/// The hash is FNV-1a: it starts at the offset, and each byte is mixed in by an
/// exclusive or and a multiplication by the prime, modulo 2^64.
pub proof fn law_each_byte_is_mixed_in(h: u64, bytes: Seq<u8>, b: u8)
    ensures
        fnv(h, Seq::<u8>::empty()) == h,
        fnv(h, bytes.push(b)) == ((fnv(h, bytes) ^ (b as u64)) * 1099511628211)
            % 0x1_0000_0000_0000_0000,
        FNV_OFFSET == 14695981039346656037,
{
    assert(bytes.push(b).drop_last() =~= bytes);
}

/// Hashing goes on where it stopped: the hash of two runs of bytes is the second's
/// from the first's.
pub proof fn law_hashes_continue(h: u64, a: Seq<u8>, b: Seq<u8>)
    ensures
        fnv(h, a + b) == fnv(fnv(h, a), b),
    decreases b.len(),
{
    if b.len() == 0 {
        assert(a + b =~= a);
    } else {
        law_hashes_continue(h, a, b.drop_last());
        assert((a + b).drop_last() =~= a + b.drop_last());
    }
}

/// Parts are joined in order.
pub proof fn law_parts_are_joined_in_order(parts: Seq<&[u8]>, last: &[u8])
    ensures
        joined(Seq::<&[u8]>::empty()) == Seq::<u8>::empty(),
        joined(parts.push(last)) == joined(parts) + last@,
{
    assert(parts.push(last).drop_last() =~= parts);
}

/// A build is told by its version's bytes, then the eight bytes of its shaders'
/// identity, lowest first.
pub proof fn law_build_is_version_then_shaders(version: Seq<u8>, shaders: u64)
    ensures
        build_hash(version, shaders) == fnv(fnv(FNV_OFFSET, version), long_bytes(shaders)),
        long_bytes(shaders).len() == 8,
        word_at(long_bytes(shaders), 0) == shaders % 0x1_0000_0000,
        word_at(long_bytes(shaders), 1) == shaders / 0x1_0000_0000,
{
    law_hashes_continue(FNV_OFFSET, version, long_bytes(shaders));
    law_long_word_is_its_halves(shaders);
}

} // verus!

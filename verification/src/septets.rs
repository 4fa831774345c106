//! GSM 7-bit packing (3GPP TS 23.038): septets are laid end to end, least
//! significant bit first, and the resulting bit stream is cut into octets.

use vstd::prelude::*;

verus! {

/// Element `i` of `d`, or 0 past its end.
pub open spec fn at_or_zero(d: Seq<u8>, i: int) -> u8 {
    if 0 <= i < d.len() {
        d[i]
    } else {
        0
    }
}

/// Octet `j` of the packed stream of the septets `d` (the low 7 bits of each
/// element): bits `8j .. 8j+7` of the stream, which straddle septets
/// `8j / 7` and `8j / 7 + 1`.
pub open spec fn octet_at(d: Seq<u8>, j: int) -> u8 {
    let k = (8 * j) / 7;
    let r = ((8 * j) % 7) as u8;
    ((at_or_zero(d, k) & 0x7F) >> r) | (((at_or_zero(d, k + 1) & 0x7F) << ((7 - r) as u8)) as u8)
}

/// Septet `k` of the bit stream formed by the octets `p`: bits `7k .. 7k+6`,
/// which straddle octets `7k / 8` and `7k / 8 + 1`.
pub open spec fn septet_at(p: Seq<u8>, k: int) -> u8 {
    let j = (7 * k) / 8;
    let s = ((7 * k) % 8) as u8;
    let lo: u8 = at_or_zero(p, j) >> s;
    let hi: u8 = if s > 0 {
        (at_or_zero(p, j + 1) << ((8 - s) as u8)) as u8
    } else {
        0
    };
    (lo | hi) & 0x7F
}

/// Number of octets needed for `n` septets: `ceil(7n / 8)`.
pub open spec fn packed_len(n: nat) -> nat {
    (7 * n + 7) / 8
}

/// Number of septets an octet stream of `m` octets is read as: `ceil(8m / 7)`.
pub open spec fn unpacked_len(m: nat) -> nat {
    (8 * m + 6) / 7
}

/// The packed octets of the septets `d`.
pub open spec fn pack_spec(d: Seq<u8>) -> Seq<u8> {
    Seq::new(packed_len(d.len()), |j: int| octet_at(d, j))
}

/// Every septet of the octet stream `p`, the last one zero-filled.
pub open spec fn unpack_spec(p: Seq<u8>) -> Seq<u8> {
    Seq::new(unpacked_len(p.len()), |k: int| septet_at(p, k))
}

/// At most `udl` septets of the octet stream `p`.
pub open spec fn unpack_limited_spec(p: Seq<u8>, udl: nat) -> Seq<u8> {
    let n = if udl < unpacked_len(p.len()) {
        udl
    } else {
        unpacked_len(p.len())
    };
    Seq::new(n, |k: int| septet_at(p, k))
}

/// Packs the low 7 bits of every byte into octets (GSM 7-bit packing).
pub fn pack_7bit(data: &[u8]) -> (result: Vec<u8>)
    ensures
        result@ == pack_spec(data@),
{
    let n = data.len();
    let out_len: usize = n / 8 * 7 + (7 * (n % 8) + 7) / 8;
    assert(out_len == packed_len(n as nat));
    let mut result: Vec<u8> = Vec::new();
    let mut j: usize = 0;
    while j < out_len
        invariant
            n == data.len(),
            out_len == packed_len(n as nat),
            0 <= j <= out_len,
            result@.len() == j,
            forall|t: int| 0 <= t < j ==> result@[t] == octet_at(data@, t),
        decreases out_len - j,
    {
        let k: usize = j + j / 7;
        let r: u8 = (j % 7) as u8;
        assert(k == (8 * j) / 7 && r == (8 * j) % 7);
        let a: u8 = if k < n {
            (data[k] & 0x7F) >> r
        } else {
            0
        };
        let b: u8 = if k + 1 < n {
            ((data[k + 1] & 0x7F) << (7 - r)) as u8
        } else {
            0
        };
        assert(a == (at_or_zero(data@, k as int) & 0x7F) >> r) by {
            if k >= n {
                assert(((0u8 & 0x7F) >> r) == 0u8) by (bit_vector);
            }
        }
        assert(b == (((at_or_zero(data@, k + 1) & 0x7F) << ((7 - r) as u8)) as u8)) by {
            if k + 1 >= n {
                assert((((0u8 & 0x7F) << ((7 - r) as u8)) as u8) == 0u8) by (bit_vector);
            }
        }
        result.push(a | b);
        j = j + 1;
    }
    assert(result@ =~= pack_spec(data@));
    result
}

/// Reads every septet of an octet stream, the last one zero-filled
/// (GSM 7-bit unpacking).
pub fn gsm_7bit_unpack(data: &[u8]) -> (result: Vec<u8>)
    requires
        unpacked_len(data.len() as nat) <= usize::MAX,
    ensures
        result@ == unpack_spec(data@),
{
    let m = data.len();
    let n: usize = m / 7 * 8 + (8 * (m % 7) + 6) / 7;
    assert(n == unpacked_len(m as nat));
    unpack_first(data, n)
}

/// Reads the first `n` septets of an octet stream.
fn unpack_first(data: &[u8], n: usize) -> (result: Vec<u8>)
    requires
        n <= unpacked_len(data.len() as nat),
    ensures
        result@ == Seq::new(n as nat, |k: int| septet_at(data@, k)),
{
    let m = data.len();
    let mut result: Vec<u8> = Vec::new();
    let mut k: usize = 0;
    let mut j: usize = 0;
    let mut s: u8 = 0;
    while k < n
        invariant
            m == data.len(),
            n <= unpacked_len(m as nat),
            0 <= k <= n,
            j == (7 * k) / 8,
            s == (7 * k) % 8,
            result@.len() == k,
            forall|t: int| 0 <= t < k ==> result@[t] == septet_at(data@, t),
        decreases n - k,
    {
        let lo: u8 = if j < m {
            data[j] >> s
        } else {
            0
        };
        let hi: u8 = if s > 0 && j + 1 < m {
            (data[j + 1] << (8 - s)) as u8
        } else {
            0
        };
        assert(lo == at_or_zero(data@, j as int) >> s) by {
            if j >= m {
                assert((0u8 >> s) == 0u8) by (bit_vector);
            }
        }
        assert(hi == (if s > 0 {
            (at_or_zero(data@, j + 1) << ((8 - s) as u8)) as u8
        } else {
            0
        })) by {
            if s > 0 && j + 1 >= m {
                assert(((0u8 << ((8 - s) as u8)) as u8) == 0u8) by (bit_vector);
            }
        }
        result.push((lo | hi) & 0x7F);
        if s == 0 {
            s = 7;
        } else {
            s = s - 1;
            j = j + 1;
        }
        k = k + 1;
    }
    assert(result@ =~= Seq::new(n as nat, |k: int| septet_at(data@, k)));
    result
}

/// Reads at most `udl` septets of an octet stream (the 7-bit user data of an
/// SMS, whose length field counts septets).
pub fn decode_7bit_septets(data: &[u8], udl: usize) -> (result: Vec<u8>)
    requires
        data.len() == 0 || 8 * (data.len() - 1) < 7 * udl + 64,
    ensures
        result@ == unpack_limited_spec(data@, udl as nat),
{
    let m = data.len();
    let full: u128 = (m as u128) / 7 * 8 + (8 * ((m as u128) % 7) + 6) / 7;
    assert(full == unpacked_len(m as nat));
    let n: usize = if (udl as u128) < full {
        udl
    } else {
        full as usize
    };
    let r = unpack_first(data, n);
    assert(r@ =~= unpack_limited_spec(data@, udl as nat));
    r
}

/// Bit-level core of the round trip: the septet read back at a position is
/// the septet that was packed there.
proof fn lemma_septet_of_octets(x: u8, y: u8, z: u8, s: u8)
    requires
        2 <= s <= 7,
    ensures
        ({
            let pj = ((x & 0x7F) >> ((7 - s) as u8)) | (((y & 0x7F) << s) as u8);
            let pj1 = ((y & 0x7F) >> ((8 - s) as u8)) | (((z & 0x7F) << ((s - 1) as u8)) as u8);
            ((pj >> s) | ((pj1 << ((8 - s) as u8)) as u8)) & 0x7F == y & 0x7F
        }),
{
    assert({
        let pj = ((x & 0x7F) >> ((7 - s) as u8)) | (((y & 0x7F) << s) as u8);
        let pj1 = ((y & 0x7F) >> ((8 - s) as u8)) | (((z & 0x7F) << ((s - 1) as u8)) as u8);
        ((pj >> s) | ((pj1 << ((8 - s) as u8)) as u8)) & 0x7F == y & 0x7F
    }) by (bit_vector)
        requires
            2 <= s <= 7,
    ;
}

/// Octets past the packed length are zero: the stream holds no bits there.
proof fn lemma_octet_past_end(d: Seq<u8>, j: int)
    requires
        j >= packed_len(d.len()),
    ensures
        octet_at(d, j) == 0,
{
    let k = (8 * j) / 7;
    let r = ((8 * j) % 7) as u8;
    assert(k >= d.len());
    assert(((0u8 & 0x7F) >> r) | ((((0u8 & 0x7F) << ((7 - r) as u8)) as u8)) == 0u8)
        by (bit_vector);
}

/// Reading the packed stream back gives every septet (low 7 bits) at its
/// position, and zero past the end.
pub proof fn lemma_septet_at_pack(d: Seq<u8>, k: int)
    requires
        0 <= k,
    ensures
        septet_at(pack_spec(d), k) == at_or_zero(d, k) & 0x7F,
{
    let p = pack_spec(d);
    let j = (7 * k) / 8;
    let s = ((7 * k) % 8) as u8;
    assert(at_or_zero(p, j) == octet_at(d, j)) by {
        if j >= p.len() {
            lemma_octet_past_end(d, j);
        }
    }
    assert(at_or_zero(p, j + 1) == octet_at(d, j + 1)) by {
        if j + 1 >= p.len() {
            lemma_octet_past_end(d, j + 1);
        }
    }
    let y = at_or_zero(d, k);
    let z = at_or_zero(d, k + 1);
    if s == 0 {
        assert((8 * j) / 7 == k && (8 * j) % 7 == 0);
        let pj = octet_at(d, j);
        assert(pj == ((y & 0x7F) >> 0u8) | ((((z & 0x7F) << 7u8) as u8)));
        assert(((((y & 0x7F) >> 0u8) | ((((z & 0x7F) << 7u8) as u8))) >> 0u8) & 0x7F == y & 0x7F)
            by (bit_vector);
        assert(septet_at(p, k) == ((pj >> 0u8) | 0u8) & 0x7F);
        assert(((pj >> 0u8) | 0u8) & 0x7F == (pj >> 0u8) & 0x7F) by (bit_vector);
    } else if s == 1 {
        let x = at_or_zero(d, k - 1);
        assert((8 * j) / 7 == k - 1 && (8 * j) % 7 == 6);
        assert(octet_at(d, j) == ((x & 0x7F) >> 6u8) | ((((y & 0x7F) << 1u8) as u8)));
        assert(((((x & 0x7F) >> 6u8) | ((((y & 0x7F) << 1u8) as u8))) >> 1u8) & 0x7F == y & 0x7F)
            by (bit_vector);
        let q = at_or_zero(p, j + 1);
        let hi = (q << 7u8) as u8;
        let lo = at_or_zero(p, j) >> 1u8;
        assert(lo & 0x7F == y & 0x7F);
        assert((lo | hi) & 0x7F == lo & 0x7F) by (bit_vector)
            requires
                hi == (q << 7u8) as u8,
        ;
    } else {
        let x = at_or_zero(d, k - 1);
        assert((8 * j) / 7 == k - 1 && (8 * j) % 7 == 7 - s);
        assert((8 * (j + 1)) / 7 == k && (8 * (j + 1)) % 7 == 8 - s);
        assert(octet_at(d, j) == ((x & 0x7F) >> ((7 - s) as u8)) | (((y & 0x7F) << s) as u8));
        assert(octet_at(d, j + 1) == ((y & 0x7F) >> ((8 - s) as u8)) | (((z & 0x7F) << ((s
            - 1) as u8)) as u8));
        lemma_septet_of_octets(x, y, z, s);
    }
}

/// Packing then reading back returns every septet; the bits that pad the
/// last octet are read back as one more, zero, septet: `unpack(pack(d))` is
/// the low 7 bits of `d`, followed by a zero septet when `d.len() % 8 != 0`.
pub proof fn lemma_pack_unpack_roundtrip(d: Seq<u8>)
    ensures
        unpack_spec(pack_spec(d)).len() == if d.len() % 8 == 0 {
            d.len() + 0
        } else {
            d.len() + 1
        },
        forall|k: int|
            0 <= k < d.len() ==> #[trigger] unpack_spec(pack_spec(d))[k] == d[k] & 0x7F,
        d.len() % 8 != 0 ==> unpack_spec(pack_spec(d))[d.len() as int] == 0,
{
    let n = d.len();
    let a = n / 8;
    let b = n % 8;
    assert(n == 8 * a + b);
    assert((7 * n + 7) / 8 == 7 * a + b);
    assert((8 * (7 * a + b) + 6) / 7 == 8 * a + b + if b == 0 {
        0int
    } else {
        1int
    });
    let u = unpack_spec(pack_spec(d));
    assert forall|k: int| 0 <= k < d.len() implies #[trigger] u[k] == d[k] & 0x7F by {
        lemma_septet_at_pack(d, k);
    }
    if d.len() % 8 != 0 {
        lemma_septet_at_pack(d, d.len() as int);
        assert((0u8 & 0x7F) == 0u8) by (bit_vector);
    }
}

} // verus!

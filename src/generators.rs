//! The bases of the commitments: the Pedersen pair and the party- and bit-indexed vectors.
use crate::point::{
    all_decompress, basepoint, decompresses, hash_to_point, hash_to_point_of, msm_of,
    multiscalar_mul, CompressedPoint,
};
use crate::scalar::Scalar;
use crate::transcript::u64_le_bytes;
use vstd::prelude::*;
use vstd::string::StringSliceAdditionalSpecFns;

verus! {

/// The bases `B` and `B_blinding` of Pedersen commitments `v B + r B_blinding`.
#[derive(Clone, Copy, Debug)]
pub struct PedersenGens {
    pub B: CompressedPoint,
    pub B_blinding: CompressedPoint,
}

/// The encoding of the commitment `value B + blinding B_blinding`.
pub open spec fn commit_spec(B: Seq<u8>, B_blinding: Seq<u8>, value: int, blinding: int) -> Seq<u8> {
    msm_of(seq![value, blinding], seq![B, B_blinding])
}

impl PedersenGens {
    /// Whether both bases are group elements.
    pub open spec fn wf(&self) -> bool {
        decompresses(self.B@) && decompresses(self.B_blinding@)
    }

    /// Whether both bases are group elements, which committing and deriving generators ask
    /// for.
    pub fn is_valid(&self) -> (r: bool)
        ensures
            r == self.wf(),
    {
        self.B.is_valid() && self.B_blinding.is_valid()
    }

    /// The Pedersen commitment `value B + blinding B_blinding`.
    pub fn commit(&self, value: &Scalar, blinding: &Scalar) -> (r: CompressedPoint)
        requires
            self.wf(),
        ensures
            r@ == commit_spec(self.B@, self.B_blinding@, value@, blinding@),
            decompresses(r@),
    {
        let s = vec![*value, *blinding];
        let p = vec![self.B, self.B_blinding];
        assert(crate::scalar::scalar_values(s@) =~= seq![value@, blinding@]);
        assert(crate::point::point_values(p@) =~= seq![self.B@, self.B_blinding@]);
        assert(all_decompress(p@));
        multiscalar_mul(s.as_slice(), p.as_slice()).unwrap()
    }
}

impl Default for PedersenGens {
    /// The Ristretto base point as `B`, and as `B_blinding` the hash of its encoding.
    fn default() -> (r: PedersenGens)
        ensures
            r.wf(),
            r.B_blinding@ == hash_to_point_of(r.B@),
    {
        let B = basepoint();
        let B_blinding = hash_to_point(&B.bytes);
        PedersenGens { B, B_blinding }
    }
}

/// The bytes that the `i`-th base of party `j` in the vector labelled `label` is hashed from.
pub open spec fn generator_input(label: Seq<u8>, j: u64, i: u64) -> Seq<u8> {
    label + u64_le_bytes(j) + u64_le_bytes(i)
}

/// The `i`-th `G` base of party `j`.
pub open spec fn g_base(j: int, i: int) -> Seq<u8> {
    hash_to_point_of(generator_input("G".spec_bytes(), j as u64, i as u64))
}

/// The `i`-th `H` base of party `j`.
pub open spec fn h_base(j: int, i: int) -> Seq<u8> {
    hash_to_point_of(generator_input("H".spec_bytes(), j as u64, i as u64))
}

/// The 8-byte little-endian encoding of `x`.
fn le_bytes(x: u64) -> (r: [u8; 8])
    ensures
        r@ == u64_le_bytes(x),
{
    let r = [
        (x & 0xff) as u8,
        ((x >> 8u64) & 0xff) as u8,
        ((x >> 16u64) & 0xff) as u8,
        ((x >> 24u64) & 0xff) as u8,
        ((x >> 32u64) & 0xff) as u8,
        ((x >> 40u64) & 0xff) as u8,
        ((x >> 48u64) & 0xff) as u8,
        ((x >> 56u64) & 0xff) as u8,
    ];
    proof {
        assert((x & 0xffu64) == (x / 1u64) % 256u64) by (bit_vector);
        assert(((x >> 8u64) & 0xffu64) == (x / 0x100u64) % 256u64) by (bit_vector);
        assert(((x >> 16u64) & 0xffu64) == (x / 0x10000u64) % 256u64) by (bit_vector);
        assert(((x >> 24u64) & 0xffu64) == (x / 0x1000000u64) % 256u64) by (bit_vector);
        assert(((x >> 32u64) & 0xffu64) == (x / 0x100000000u64) % 256u64) by (bit_vector);
        assert(((x >> 40u64) & 0xffu64) == (x / 0x10000000000u64) % 256u64) by (bit_vector);
        assert(((x >> 48u64) & 0xffu64) == (x / 0x1000000000000u64) % 256u64) by (bit_vector);
        assert(((x >> 56u64) & 0xffu64) == (x / 0x100000000000000u64) % 256u64) by (bit_vector);
        reveal_with_fuel(crate::transcript::pow256, 9);
        assert(r@ =~= u64_le_bytes(x));
    }
    r
}

/// Hashes the input of one base onto the group.
fn derive_base(label: &str, j: u64, i: u64) -> (r: CompressedPoint)
    ensures
        r@ == hash_to_point_of(generator_input(label.spec_bytes(), j, i)),
        decompresses(r@),
{
    let mut input: Vec<u8> = Vec::new();
    let lb = label.as_bytes();
    let mut k: usize = 0;
    while k < lb.len()
        invariant
            0 <= k <= lb@.len(),
            input@ == lb@.subrange(0, k as int),
        decreases lb@.len() - k,
    {
        input.push(lb[k]);
        k = k + 1;
    }
    let jb = le_bytes(j);
    let ib = le_bytes(i);
    k = 0;
    while k < 8
        invariant
            0 <= k <= 8,
            input@ == lb@ + jb@.subrange(0, k as int),
        decreases 8 - k,
    {
        input.push(jb[k]);
        k = k + 1;
    }
    assert(jb@.subrange(0, 8) =~= jb@);
    k = 0;
    while k < 8
        invariant
            0 <= k <= 8,
            input@ == lb@ + jb@ + ib@.subrange(0, k as int),
        decreases 8 - k,
    {
        input.push(ib[k]);
        k = k + 1;
    }
    assert(ib@.subrange(0, 8) =~= ib@);
    assert(lb@.subrange(0, lb@.len() as int) =~= lb@);
    hash_to_point(input.as_slice())
}

/// The first `n` bases of each of the first `m` parties, party after party.
pub open spec fn flatten_prefix(v: Seq<Seq<CompressedPoint>>, n: nat, m: nat) -> Seq<CompressedPoint>
    decreases m,
{
    if m == 0 {
        Seq::empty()
    } else {
        flatten_prefix(v, n, (m - 1) as nat) + v[m - 1].subrange(0, n as int)
    }
}

/// For each of `party_capacity` parties, `gens_capacity` bases `G` and as many `H`.
pub struct Generators {
    pub pedersen_gens: PedersenGens,
    pub gens_capacity: usize,
    pub party_capacity: usize,
    pub G_vec: Vec<Vec<CompressedPoint>>,
    pub H_vec: Vec<Vec<CompressedPoint>>,
}

impl Generators {
    /// The `G` bases, by party.
    pub open spec fn g_vec(&self) -> Seq<Seq<CompressedPoint>> {
        self.G_vec@.map_values(|v: Vec<CompressedPoint>| v@)
    }

    /// The `H` bases, by party.
    pub open spec fn h_vec(&self) -> Seq<Seq<CompressedPoint>> {
        self.H_vec@.map_values(|v: Vec<CompressedPoint>| v@)
    }

    /// Every base is the hash of its label, party and index, and a group element.
    pub open spec fn wf(&self) -> bool {
        &&& self.pedersen_gens.wf()
        &&& self.gens_capacity * self.party_capacity <= usize::MAX
        &&& self.g_vec().len() == self.party_capacity
        &&& self.h_vec().len() == self.party_capacity
        &&& forall|j: int|
            0 <= j < self.party_capacity ==> (#[trigger] self.g_vec()[j]).len() == self.gens_capacity
        &&& forall|j: int|
            0 <= j < self.party_capacity ==> (#[trigger] self.h_vec()[j]).len() == self.gens_capacity
        &&& forall|j: int, i: int|
            0 <= j < self.party_capacity && 0 <= i < self.gens_capacity ==> (
            #[trigger] self.g_vec()[j][i])@ == g_base(j, i) && decompresses(self.g_vec()[j][i]@)
        &&& forall|j: int, i: int|
            0 <= j < self.party_capacity && 0 <= i < self.gens_capacity ==> (
            #[trigger] self.h_vec()[j][i])@ == h_base(j, i) && decompresses(self.h_vec()[j][i]@)
    }

    /// Derives `gens_capacity` bases `G` and `H` for each of `party_capacity` parties.
    pub fn new(pedersen_gens: PedersenGens, gens_capacity: usize, party_capacity: usize) -> (r: Generators)
        requires
            pedersen_gens.wf(),
            gens_capacity * party_capacity <= usize::MAX,
        ensures
            r.wf(),
            r.pedersen_gens == pedersen_gens,
            r.gens_capacity == gens_capacity,
            r.party_capacity == party_capacity,
    {
        let mut G_vec: Vec<Vec<CompressedPoint>> = Vec::new();
        let mut H_vec: Vec<Vec<CompressedPoint>> = Vec::new();
        let mut j: usize = 0;
        while j < party_capacity
            invariant
                0 <= j <= party_capacity,
                G_vec@.len() == j,
                H_vec@.len() == j,
                forall|jj: int| 0 <= jj < j ==> (#[trigger] G_vec@[jj])@.len() == gens_capacity,
                forall|jj: int| 0 <= jj < j ==> (#[trigger] H_vec@[jj])@.len() == gens_capacity,
                forall|jj: int, i: int|
                    0 <= jj < j && 0 <= i < gens_capacity ==> (#[trigger] G_vec@[jj]@[i])@ == g_base(jj, i)
                        && decompresses(G_vec@[jj]@[i]@),
                forall|jj: int, i: int|
                    0 <= jj < j && 0 <= i < gens_capacity ==> (#[trigger] H_vec@[jj]@[i])@ == h_base(jj, i)
                        && decompresses(H_vec@[jj]@[i]@),
            decreases party_capacity - j,
        {
            let mut g: Vec<CompressedPoint> = Vec::new();
            let mut h: Vec<CompressedPoint> = Vec::new();
            let mut i: usize = 0;
            while i < gens_capacity
                invariant
                    0 <= i <= gens_capacity,
                    j < party_capacity,
                    g@.len() == i,
                    h@.len() == i,
                    forall|k: int| 0 <= k < i ==> (#[trigger] g@[k])@ == g_base(j as int, k)
                        && decompresses(g@[k]@),
                    forall|k: int| 0 <= k < i ==> (#[trigger] h@[k])@ == h_base(j as int, k)
                        && decompresses(h@[k]@),
                decreases gens_capacity - i,
            {
                let pg = derive_base("G", j as u64, i as u64);
                let ph = derive_base("H", j as u64, i as u64);
                g.push(pg);
                h.push(ph);
                i = i + 1;
            }
            G_vec.push(g);
            H_vec.push(h);
            j = j + 1;
        }
        let r = Generators { pedersen_gens, gens_capacity, party_capacity, G_vec, H_vec };
        assert forall|jj: int, i: int|
            0 <= jj < party_capacity && 0 <= i < gens_capacity implies (
            #[trigger] r.g_vec()[jj][i])@ == g_base(jj, i) && decompresses(r.g_vec()[jj][i]@) by {
            assert(r.g_vec()[jj] == r.G_vec@[jj]@);
            assert(r.G_vec@[jj]@[i]@ == g_base(jj, i));
        }
        assert forall|jj: int, i: int|
            0 <= jj < party_capacity && 0 <= i < gens_capacity implies (
            #[trigger] r.h_vec()[jj][i])@ == h_base(jj, i) && decompresses(r.h_vec()[jj][i]@) by {
            assert(r.h_vec()[jj] == r.H_vec@[jj]@);
            assert(r.H_vec@[jj]@[i]@ == h_base(jj, i));
        }
        assert forall|jj: int| 0 <= jj < party_capacity implies (#[trigger] r.g_vec()[jj]).len()
            == gens_capacity && r.h_vec()[jj].len() == gens_capacity by {
            assert(r.g_vec()[jj] == r.G_vec@[jj]@);
            assert(r.h_vec()[jj] == r.H_vec@[jj]@);
        }
        r
    }

    /// The first `n` bases `G` of party `j`.
    pub fn party_G(&self, j: usize, n: usize) -> (r: Vec<CompressedPoint>)
        requires
            self.wf(),
            j < self.party_capacity,
            n <= self.gens_capacity,
        ensures
            r@ == self.g_vec()[j as int].subrange(0, n as int),
    {
        let v = &self.G_vec[j];
        assert(self.g_vec()[j as int].len() == self.gens_capacity);
        let mut out: Vec<CompressedPoint> = Vec::new();
        let mut i: usize = 0;
        while i < n
            invariant
                0 <= i <= n,
                n <= v@.len(),
                j < self.g_vec().len(),
                v@ == self.g_vec()[j as int],
                out@ == v@.subrange(0, i as int),
            decreases n - i,
        {
            out.push(v[i]);
            i = i + 1;
        }
        out
    }

    /// The first `n` bases `H` of party `j`.
    pub fn party_H(&self, j: usize, n: usize) -> (r: Vec<CompressedPoint>)
        requires
            self.wf(),
            j < self.party_capacity,
            n <= self.gens_capacity,
        ensures
            r@ == self.h_vec()[j as int].subrange(0, n as int),
    {
        let v = &self.H_vec[j];
        assert(self.h_vec()[j as int].len() == self.gens_capacity);
        let mut out: Vec<CompressedPoint> = Vec::new();
        let mut i: usize = 0;
        while i < n
            invariant
                0 <= i <= n,
                n <= v@.len(),
                j < self.h_vec().len(),
                v@ == self.h_vec()[j as int],
                out@ == v@.subrange(0, i as int),
            decreases n - i,
        {
            out.push(v[i]);
            i = i + 1;
        }
        out
    }

    /// The first `n` bases `G` of each of the first `m` parties, party after party.
    pub fn G(&self, n: usize, m: usize) -> (r: Vec<CompressedPoint>)
        requires
            self.wf(),
            n <= self.gens_capacity,
            m <= self.party_capacity,
        ensures
            r@ == flatten_prefix(self.g_vec(), n as nat, m as nat),
            all_decompress(r@),
            r@.len() == n * m,
    {
        let mut out: Vec<CompressedPoint> = Vec::new();
        let mut j: usize = 0;
        while j < m
            invariant
                j <= m,
                m <= self.party_capacity,
                n <= self.gens_capacity,
                self.wf(),
                out@ == flatten_prefix(self.g_vec(), n as nat, j as nat),
                all_decompress(out@),
                out@.len() == n * j,
            decreases m - j,
        {
            let part = self.party_G(j, n);
            proof {
                assert(self.g_vec()[j as int].len() == self.gens_capacity);
                assert forall|i: int| 0 <= i < part@.len() implies decompresses(
                    #[trigger] part@[i]@,
                ) by {
                    assert(part@[i] == self.g_vec()[j as int][i]);
                }
            }
            let ghost before = out@;
            crate::util::extend(&mut out, part.as_slice());
            proof {
                assert forall|i: int| 0 <= i < out@.len() implies decompresses(
                    #[trigger] out@[i]@,
                ) by {
                    if i >= before.len() {
                        assert(out@[i] == part@[i - before.len()]);
                    } else {
                        assert(out@[i] == before[i]);
                    }
                }
                assert(n * (j + 1) == n * j + n) by (nonlinear_arith);
            }
            j = j + 1;
        }
        out
    }

    /// The first `n` bases `H` of each of the first `m` parties, party after party.
    pub fn H(&self, n: usize, m: usize) -> (r: Vec<CompressedPoint>)
        requires
            self.wf(),
            n <= self.gens_capacity,
            m <= self.party_capacity,
        ensures
            r@ == flatten_prefix(self.h_vec(), n as nat, m as nat),
            all_decompress(r@),
            r@.len() == n * m,
    {
        let mut out: Vec<CompressedPoint> = Vec::new();
        let mut j: usize = 0;
        while j < m
            invariant
                j <= m,
                m <= self.party_capacity,
                n <= self.gens_capacity,
                self.wf(),
                out@ == flatten_prefix(self.h_vec(), n as nat, j as nat),
                all_decompress(out@),
                out@.len() == n * j,
            decreases m - j,
        {
            let part = self.party_H(j, n);
            proof {
                assert(self.h_vec()[j as int].len() == self.gens_capacity);
                assert forall|i: int| 0 <= i < part@.len() implies decompresses(
                    #[trigger] part@[i]@,
                ) by {
                    assert(part@[i] == self.h_vec()[j as int][i]);
                }
            }
            let ghost before = out@;
            crate::util::extend(&mut out, part.as_slice());
            proof {
                assert forall|i: int| 0 <= i < out@.len() implies decompresses(
                    #[trigger] out@[i]@,
                ) by {
                    if i >= before.len() {
                        assert(out@[i] == part@[i - before.len()]);
                    } else {
                        assert(out@[i] == before[i]);
                    }
                }
                assert(n * (j + 1) == n * j + n) by (nonlinear_arith);
            }
            j = j + 1;
        }
        out
    }
}

/// The bases do not depend on the capacities: two well-formed sets of generators agree on
/// every base that both hold, so growing either capacity only extends the bases.
pub proof fn lemma_generators_prefix(g1: Generators, g2: Generators, j: int, i: int)
    requires
        g1.wf(),
        g2.wf(),
        0 <= j < g1.party_capacity,
        0 <= j < g2.party_capacity,
        0 <= i < g1.gens_capacity,
        0 <= i < g2.gens_capacity,
    ensures
        g1.g_vec()[j][i]@ == g2.g_vec()[j][i]@,
        g1.h_vec()[j][i]@ == g2.h_vec()[j][i]@,
{
}

} // verus!

use vstd::prelude::*;
use vstd::seq_lib::{to_multiset_contains, to_multiset_len};
use rand::seq::SliceRandom;

verus! {

/// Side of the repeating noise lattice, and the length of each table.
pub const LATTICE_SIZE: usize = 256;

/// The lattice coordinates `0..256` in increasing order.
pub open spec fn lattice_identity() -> Seq<usize> {
    Seq::new(256, |i: int| i as usize)
}

/// `p` holds each lattice coordinate `0..256` exactly once, in some order.
pub open spec fn is_lattice_permutation(p: Seq<usize>) -> bool {
    p.to_multiset() == lattice_identity().to_multiset()
}

/// A lattice coordinate folded into the table range, as `(a & 255)` does on
/// two's complement integers.
pub open spec fn wrap(a: int) -> int {
    a % 256
}

/// Relies on rand's `SliceRandom::shuffle` with the thread-local generator: it
/// only swaps elements of the slice, so the same elements come out, each as
/// often as it went in.
#[verifier::external_body]
fn shuffle(values: &mut Vec<usize>)
    ensures
        final(values)@.to_multiset() == old(values)@.to_multiset(),
{
    values.shuffle(&mut rand::thread_rng());
}

/// A random arrangement of the lattice coordinates `0..256`.
pub fn perlin_generate_perm() -> (r: Vec<usize>)
    ensures
        is_lattice_permutation(r@),
{
    let mut p: Vec<usize> = Vec::new();
    let mut i: usize = 0;
    while i < LATTICE_SIZE
        invariant
            i <= 256,
            p@ =~= lattice_identity().take(i as int),
        decreases 256 - i,
    {
        p.push(i);
        i += 1;
    }
    assert(p@ =~= lattice_identity());
    shuffle(&mut p);
    p
}

proof fn lemma_permutation_entry(p: Seq<usize>, idx: int)
    requires
        is_lattice_permutation(p),
        0 <= idx < 256,
    ensures
        p.len() == 256,
        p[idx] < 256,
{
    broadcast use to_multiset_len, to_multiset_contains;

    assert(lattice_identity().len() == 256);
    assert(p.to_multiset().len() == lattice_identity().to_multiset().len());
    assert(p.len() == 256);
    assert(p.contains(p[idx]));
    assert(p.to_multiset().count(p[idx]) > 0);
    assert(lattice_identity().to_multiset().count(p[idx]) > 0);
    assert(lattice_identity().contains(p[idx]));
}

proof fn lemma_low_byte(x: i64)
    ensures
        (x & 255) as int == wrap(x as int),
        0 <= x & 255 < 256,
{
    assert((x & 255) == x % 256) by (bit_vector);
    assert(0 <= x % 256 < 256) by (bit_vector);
    assert(0 <= x & 255 < 256) by (bit_vector);
}

/// The three per-axis permutation tables of the noise generator. They are
/// built once, before any noise is evaluated, and only read afterwards.
#[derive(Debug, Clone)]
pub struct Permutations {
    pub x: Vec<usize>,
    pub y: Vec<usize>,
    pub z: Vec<usize>,
}

impl Permutations {
    pub open spec fn wf(&self) -> bool {
        &&& is_lattice_permutation(self.x@)
        &&& is_lattice_permutation(self.y@)
        &&& is_lattice_permutation(self.z@)
    }

    /// Index of the gradient vector at lattice point `(i, j, k)`: the XOR of
    /// the three tables' entries at the wrapped coordinates.
    pub open spec fn spec_hash(&self, i: int, j: int, k: int) -> usize {
        self.x@[wrap(i)] ^ self.y@[wrap(j)] ^ self.z@[wrap(k)]
    }

    /// Three independent random permutations of `0..256`.
    pub fn new() -> (r: Self)
        ensures
            r.wf(),
    {
        let x = perlin_generate_perm();
        let y = perlin_generate_perm();
        let z = perlin_generate_perm();
        Permutations { x, y, z }
    }

    /// Gradient index of lattice point `(i, j, k)`; always a valid index into
    /// a table of 256 gradients.
    pub fn lattice_hash(&self, i: i64, j: i64, k: i64) -> (r: usize)
        requires
            self.wf(),
        ensures
            r == self.spec_hash(i as int, j as int, k as int),
            r < 256,
    {
        proof {
            lemma_low_byte(i);
            lemma_low_byte(j);
            lemma_low_byte(k);
            lemma_permutation_entry(self.x@, wrap(i as int));
            lemma_permutation_entry(self.y@, wrap(j as int));
            lemma_permutation_entry(self.z@, wrap(k as int));
        }
        let a = self.x[(i & 255) as usize];
        let b = self.y[(j & 255) as usize];
        let c = self.z[(k & 255) as usize];
        proof {
            assert(a ^ b ^ c < 256) by (bit_vector)
                requires
                    a < 256,
                    b < 256,
                    c < 256,
            ;
        }
        a ^ b ^ c
    }

    /// Gradient indices of the eight corners of the lattice cell whose lowest
    /// corner is `(i, j, k)`. Corner `c` lies at offset `(c / 4, c / 2 % 2,
    /// c % 2)` from that corner.
    pub fn corner_indices(&self, i: i32, j: i32, k: i32) -> (r: Vec<usize>)
        requires
            self.wf(),
        ensures
            r@.len() == 8,
            forall|c: int|
                0 <= c < 8 ==> {
                    &&& #[trigger] r@[c] == self.spec_hash(i + c / 4, j + c / 2 % 2, k + c % 2)
                    &&& r@[c] < 256
                },
    {
        let (i, j, k) = (i as i64, j as i64, k as i64);
        let mut r: Vec<usize> = Vec::new();
        r.push(self.lattice_hash(i, j, k));
        r.push(self.lattice_hash(i, j, k + 1));
        r.push(self.lattice_hash(i, j + 1, k));
        r.push(self.lattice_hash(i, j + 1, k + 1));
        r.push(self.lattice_hash(i + 1, j, k));
        r.push(self.lattice_hash(i + 1, j, k + 1));
        r.push(self.lattice_hash(i + 1, j + 1, k));
        r.push(self.lattice_hash(i + 1, j + 1, k + 1));
        assert forall|c: int| 0 <= c < 8 implies {
            &&& #[trigger] r@[c] == self.spec_hash(i + c / 4, j + c / 2 % 2, k + c % 2)
            &&& r@[c] < 256
        } by {
            if c == 0 {
            } else if c == 1 {
            } else if c == 2 {
            } else if c == 3 {
            } else if c == 4 {
            } else if c == 5 {
            } else if c == 6 {
            } else {
            }
        }
        r
    }
}

} // verus!

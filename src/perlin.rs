use vstd::prelude::*;
use vstd::seq_lib::to_multiset_update;

verus! {

/// The number of lattice points along each axis of the noise tables.
pub const POINT_COUNT: usize = 256;

/// The lattice tables of Perlin noise: one permutation of `0..POINT_COUNT`
/// per axis, which hash a lattice point to the index of its gradient.
pub struct Perlin {
    pub perm_x: Vec<i32>,
    pub perm_y: Vec<i32>,
    pub perm_z: Vec<i32>,
}

/// `0, 1, ..., n - 1`.
pub open spec fn identity(n: nat) -> Seq<i32> {
    Seq::new(n, |i: int| i as i32)
}

/// `s` holds each of `0..POINT_COUNT` exactly once.
pub open spec fn is_table(s: Seq<i32>) -> bool {
    s.to_multiset() == identity(POINT_COUNT as nat).to_multiset()
}

/// `s` with the entries at `i` and `j` exchanged.
pub open spec fn swapped(s: Seq<i32>, i: int, j: int) -> Seq<i32> {
    s.update(i, s[j]).update(j, s[i])
}

/// The Fisher-Yates shuffle of `s` driven by `targets`: for `i` from the
/// last position down to `k`, the entry at `i` is exchanged with the entry
/// at `targets[i]`.
pub open spec fn shuffled(s: Seq<i32>, targets: Seq<usize>, k: int) -> Seq<i32>
    decreases s.len() - k,
{
    if k >= s.len() || k < 0 {
        s
    } else {
        swapped(shuffled(s, targets, k + 1), k, targets[k] as int)
    }
}

/// Relies on rand's `Rng::gen_range` over `thread_rng()`: a value drawn from
/// `0..bound`, which panics on an empty range.
#[verifier::external_body]
fn random_index(bound: usize) -> (r: usize)
    requires
        bound > 0,
    ensures
        r < bound,
{
    rand::Rng::gen_range(&mut rand::thread_rng(), 0..bound)
}

/// Exchanging two entries keeps the multiset of entries.
proof fn lemma_swap_keeps_contents(s: Seq<i32>, i: int, j: int)
    requires
        0 <= i < s.len(),
        0 <= j < s.len(),
    ensures
        swapped(s, i, j).to_multiset() == s.to_multiset(),
        swapped(s, i, j).len() == s.len(),
{
    broadcast use vstd::multiset::group_multiset_axioms;

    let t = s.update(i, s[j]);
    to_multiset_update(s, i, s[j]);
    to_multiset_update(t, j, s[i]);
    assert(t[j] == s[j]);
    vstd::seq_lib::to_multiset_contains(s, s[i]);
    assert(s.contains(s[i]));
    assert(swapped(s, i, j).to_multiset() =~= s.to_multiset());
}

impl Perlin {
    /// Shuffles `p[0..n]` with the given swap targets, from position `n - 1`
    /// down to 0: a Fisher-Yates shuffle when `targets[i]` is uniform in
    /// `0..=i`.
    pub fn permute_with(p: &mut Vec<i32>, targets: &Vec<usize>)
        requires
            targets@.len() == old(p)@.len(),
            forall|i: int| 0 <= i < targets@.len() ==> #[trigger] targets@[i] <= i,
        ensures
            final(p)@ == shuffled(old(p)@, targets@, 0),
            final(p)@.to_multiset() == old(p)@.to_multiset(),
    {
        let n = p.len();
        let mut i: usize = n;
        while i > 0
            invariant
                0 <= i <= n,
                n == old(p)@.len(),
                p@.len() == n,
                targets@.len() == n,
                forall|k: int| 0 <= k < targets@.len() ==> #[trigger] targets@[k] <= k,
                p@ == shuffled(old(p)@, targets@, i as int),
                p@.to_multiset() == old(p)@.to_multiset(),
            decreases i,
        {
            i = i - 1;
            let target = targets[i];
            let ghost before = p@;
            let a = p[i];
            let b = p[target];
            p.set(i, b);
            p.set(target, a);
            proof {
                lemma_swap_keeps_contents(before, i as int, target as int);
                assert(p@ =~= swapped(before, i as int, target as int));
            }
        }
        proof {
            assert(shuffled(old(p)@, targets@, 0) == p@);
        }
    }

    /// Shuffles `p[0..n]` with targets drawn uniformly at random.
    pub fn permute(p: &mut Vec<i32>, n: i32)
        requires
            n as int == old(p)@.len(),
        ensures
            final(p)@.to_multiset() == old(p)@.to_multiset(),
            final(p)@.len() == old(p)@.len(),
    {
        let mut targets: Vec<usize> = Vec::new();
        let mut i: usize = 0;
        while i < p.len()
            invariant
                0 <= i <= p@.len(),
                targets@.len() == i,
                forall|k: int| 0 <= k < targets@.len() ==> #[trigger] targets@[k] <= k,
            decreases p@.len() - i,
        {
            let t = random_index(i + 1);
            targets.push(t);
            i = i + 1;
        }
        Perlin::permute_with(p, &targets);
        proof {
            vstd::seq_lib::to_multiset_len(p@);
            vstd::seq_lib::to_multiset_len(old(p)@);
        }
    }

    /// A random permutation of `0..POINT_COUNT`.
    pub fn perlin_generate_perm() -> (p: Vec<i32>)
        ensures
            p@.len() == POINT_COUNT,
            is_table(p@),
    {
        let mut p: Vec<i32> = Vec::new();
        let mut i: usize = 0;
        while i < POINT_COUNT
            invariant
                0 <= i <= POINT_COUNT,
                p@ == identity(i as nat),
            decreases POINT_COUNT - i,
        {
            p.push(i as i32);
            proof {
                assert(p@ =~= identity(i as nat + 1));
            }
            i = i + 1;
        }
        Perlin::permute(&mut p, POINT_COUNT as i32);
        proof {
            vstd::seq_lib::to_multiset_len(p@);
            vstd::seq_lib::to_multiset_len(identity(POINT_COUNT as nat));
        }
        p
    }

    pub open spec fn wf(&self) -> bool {
        &&& is_table(self.perm_x@)
        &&& is_table(self.perm_y@)
        &&& is_table(self.perm_z@)
        &&& self.perm_x@.len() == POINT_COUNT
        &&& self.perm_y@.len() == POINT_COUNT
        &&& self.perm_z@.len() == POINT_COUNT
    }

    /// Every entry of a table lies in `0..POINT_COUNT`.
    proof fn lemma_table_entries(s: Seq<i32>, k: int)
        requires
            is_table(s),
            0 <= k < s.len(),
        ensures
            0 <= s[k] < POINT_COUNT,
    {
        vstd::seq_lib::to_multiset_contains(s, s[k]);
        vstd::seq_lib::to_multiset_contains(identity(POINT_COUNT as nat), s[k]);
        assert(s.contains(s[k]));
        let m = choose|m: int| 0 <= m < POINT_COUNT && identity(POINT_COUNT as nat)[m] == s[k];
    }

    /// The gradient index of the lattice point `(i, j, k)`: the three table
    /// entries at the coordinates modulo 256, combined by exclusive or.
    pub fn lattice(&self, i: i32, j: i32, k: i32) -> (r: usize)
        requires
            self.wf(),
        ensures
            r < POINT_COUNT,
            r == (self.perm_x@[(i & 255) as int] ^ self.perm_y@[(j & 255) as int] ^ self.perm_z@[(k & 255) as int]) as usize,
    {
        assert((i & 255) >= 0 && (i & 255) < 256) by (bit_vector);
        assert((j & 255) >= 0 && (j & 255) < 256) by (bit_vector);
        assert((k & 255) >= 0 && (k & 255) < 256) by (bit_vector);
        let a = self.perm_x[(i & 255) as usize];
        let b = self.perm_y[(j & 255) as usize];
        let c = self.perm_z[(k & 255) as usize];
        proof {
            Perlin::lemma_table_entries(self.perm_x@, (i & 255) as int);
            Perlin::lemma_table_entries(self.perm_y@, (j & 255) as int);
            Perlin::lemma_table_entries(self.perm_z@, (k & 255) as int);
        }
        assert(0 <= (a ^ b ^ c) < 256) by (bit_vector)
            requires
                0 <= a < 256,
                0 <= b < 256,
                0 <= c < 256,
        ;
        (a ^ b ^ c) as usize
    }

    /// Three independent random permutation tables.
    pub fn new() -> (r: Perlin)
        ensures
            r.wf(),
    {
        let perm_x = Perlin::perlin_generate_perm();
        let perm_y = Perlin::perlin_generate_perm();
        let perm_z = Perlin::perlin_generate_perm();
        Perlin { perm_x, perm_y, perm_z }
    }
}

} // verus!

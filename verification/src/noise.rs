//! Gradient noise: the shuffled tables, and the lookup of the gradient at a
//! lattice point.
use crate::hit::random_int;
use crate::vector::Vec3;
use vstd::prelude::*;
use vstd::seq_lib::to_multiset_update;

verus! {

/// The number of gradients, and of entries in each table.
pub const POINT_COUNT: usize = 256;

/// The numbers `0..256` in order.
pub open spec fn counting() -> Seq<u8> {
    Seq::new(256, |i: int| i as u8)
}

/// Whether `table` holds each of the numbers `0..256` exactly once.
pub open spec fn is_shuffle(table: Seq<u8>) -> bool {
    table.to_multiset() == counting().to_multiset()
}

/// Gradient noise over the lattice of whole-numbered points: 256 gradients
/// and, for each axis, a table that holds the numbers `0..256` in some order.
pub struct Perlin {
    pub ranvec: Vec<Vec3>,
    pub perm_x: Vec<u8>,
    pub perm_y: Vec<u8>,
    pub perm_z: Vec<u8>,
}

/// The low eight bits of a lattice coordinate moved by `step`.
pub open spec fn wrap(i: i16, step: u8) -> int {
    (i + step) % 256
}

fn wrapped(i: i16, step: u8) -> (w: usize)
    requires
        step <= 1,
    ensures
        w == wrap(i, step),
        w < 256,
{
    let moved: i32 = i as i32 + step as i32 + 32768;
    (moved % 256) as usize
}

/// The table `s` with the entries at `i` and `j` in each other's place.
pub open spec fn exchanged(s: Seq<u8>, i: int, j: int) -> Seq<u8> {
    s.update(i, s[j]).update(j, s[i])
}

/// The table `s` after each of the entries from `n - 1` down to `from` has
/// changed places, in that order, with the entry that `draws` names for it.
pub open spec fn shuffled(s: Seq<u8>, n: int, from: int, draws: Seq<int>) -> Seq<u8>
    decreases n - from,
{
    if from >= n {
        s
    } else {
        exchanged(shuffled(s, n, from + 1, draws), from, draws[from])
    }
}

/// Whether `draws` names, for each of the first `n` entries, an entry up to it.
pub open spec fn draws_in_range(draws: Seq<int>, n: int) -> bool {
    &&& draws.len() == n
    &&& forall|k: int| 0 <= k < n ==> 0 <= #[trigger] draws[k] <= k
}

/// Two entries that change places leave the contents of the table as they were.
proof fn lemma_exchanged_contents(s: Seq<u8>, i: int, j: int)
    requires
        0 <= i < s.len(),
        0 <= j < s.len(),
    ensures
        exchanged(s, i, j).len() == s.len(),
        exchanged(s, i, j).to_multiset() == s.to_multiset(),
{
    broadcast use vstd::multiset::group_multiset_axioms;
    broadcast use vstd::seq_lib::group_to_multiset_ensures;

    to_multiset_update(s, i, s[j]);
    to_multiset_update(s.update(i, s[j]), j, s[i]);
    assert(s.contains(s[i]));
    assert(s.contains(s[j]));
    assert(s.update(i, s[j])[j] == s[j]);
    assert(exchanged(s, i, j).to_multiset() =~= s.to_multiset());
}

/// What the entries from `from` on do to the table depends on the draws for
/// those entries alone.
proof fn lemma_shuffled_later_draws(s: Seq<u8>, n: int, from: int, a: Seq<int>, b: Seq<int>)
    requires
        0 <= from,
        forall|k: int| from <= k < n ==> a[k] == b[k],
    ensures
        shuffled(s, n, from, a) == shuffled(s, n, from, b),
    decreases n - from,
{
    if from < n {
        lemma_shuffled_later_draws(s, n, from + 1, a, b);
    }
}

impl Perlin {
    /// Whether the noise has its 256 gradients and its three tables.
    pub open spec fn wf(&self) -> bool {
        &&& self.ranvec@.len() == 256
        &&& self.perm_x@.len() == 256
        &&& self.perm_y@.len() == 256
        &&& self.perm_z@.len() == 256
        &&& is_shuffle(self.perm_x@)
        &&& is_shuffle(self.perm_y@)
        &&& is_shuffle(self.perm_z@)
    }

    /// Noise with the gradients `ranvec` and three freshly shuffled tables;
    /// nothing unless there are exactly 256 gradients.
    pub fn new(ranvec: Vec<Vec3>) -> (noise: Option<Perlin>)
        ensures
            ranvec@.len() == 256 <==> noise is Some,
            noise matches Some(n) ==> n.wf() && n.ranvec@ == ranvec@,
    {
        if ranvec.len() != POINT_COUNT {
            return None;
        }
        let perm_x = Perlin::perlin_generate_perm();
        let perm_y = Perlin::perlin_generate_perm();
        let perm_z = Perlin::perlin_generate_perm();
        Some(Perlin { ranvec, perm_x, perm_y, perm_z })
    }

    /// Which gradient belongs to the lattice point `(i, j, k)` moved by the
    /// steps `(di, dj, dk)`: the three table entries at the wrapped
    /// coordinates, combined bit by bit with exclusive or.
    pub open spec fn gradient_index(&self, i: i16, j: i16, k: i16, di: u8, dj: u8, dk: u8) -> u8 {
        self.perm_x@[wrap(i, di)] ^ self.perm_y@[wrap(j, dj)] ^ self.perm_z@[wrap(k, dk)]
    }

    /// The gradient at the lattice point `(i, j, k)` moved by one step or
    /// none along each axis.
    pub fn gradient(&self, i: i16, j: i16, k: i16, di: u8, dj: u8, dk: u8) -> (g: Vec3)
        requires
            self.wf(),
            di <= 1 && dj <= 1 && dk <= 1,
        ensures
            g == self.ranvec@[self.gradient_index(i, j, k, di, dj, dk) as int],
    {
        let x: u8 = self.perm_x[wrapped(i, di)];
        let y: u8 = self.perm_y[wrapped(j, dj)];
        let z: u8 = self.perm_z[wrapped(k, dk)];
        let at: u8 = x ^ y ^ z;
        self.ranvec[at as usize]
    }

    /// The gradients at the eight corners of the lattice cell of `(i, j, k)`,
    /// with the step along z changing fastest and the step along x slowest.
    pub fn corners(&self, i: i16, j: i16, k: i16) -> (c: Vec<Vec3>)
        requires
            self.wf(),
        ensures
            c@.len() == 8,
            forall|di: u8, dj: u8, dk: u8|
                di <= 1 && dj <= 1 && dk <= 1 ==> c@[4 * di + 2 * dj + dk] == self.ranvec@[(#[trigger] self.gradient_index(
                    i,
                    j,
                    k,
                    di,
                    dj,
                    dk,
                )) as int],
    {
        let mut c: Vec<Vec3> = Vec::new();
        c.push(self.gradient(i, j, k, 0, 0, 0));
        c.push(self.gradient(i, j, k, 0, 0, 1));
        c.push(self.gradient(i, j, k, 0, 1, 0));
        c.push(self.gradient(i, j, k, 0, 1, 1));
        c.push(self.gradient(i, j, k, 1, 0, 0));
        c.push(self.gradient(i, j, k, 1, 0, 1));
        c.push(self.gradient(i, j, k, 1, 1, 0));
        c.push(self.gradient(i, j, k, 1, 1, 1));
        c
    }

    /// Lets the entries at `i` and `target` change places.
    pub fn exchange(p: &mut Vec<u8>, i: usize, target: usize)
        requires
            i < old(p)@.len(),
            target < old(p)@.len(),
        ensures
            final(p)@ == exchanged(old(p)@, i as int, target as int),
    {
        let here = p[i];
        let there = p[target];
        p.set(i, there);
        p.set(target, here);
    }

    /// Shuffles the first `n` entries of `p`: from the last one down, each
    /// entry changes places with one drawn at random from those up to it.
    /// The other entries stay where they are.
    fn permute(p: &mut Vec<u8>, n: usize)
        requires
            n <= old(p)@.len(),
            n <= u32::MAX,
        ensures
            final(p)@.len() == old(p)@.len(),
            final(p)@.to_multiset() == old(p)@.to_multiset(),
            forall|k: int| n <= k < old(p)@.len() ==> #[trigger] final(p)@[k] == old(p)@[k],
            exists|draws: Seq<int>|
                draws_in_range(draws, n as int) && final(p)@ == #[trigger] shuffled(old(p)@, n as int, 0, draws),
    {
        let ghost mut draws: Seq<int> = Seq::new(n as nat, |k: int| 0int);
        let mut i: usize = n;
        while i > 0
            invariant
                i <= n <= p@.len(),
                n <= u32::MAX,
                p@.len() == old(p)@.len(),
                p@.to_multiset() == old(p)@.to_multiset(),
                forall|k: int| n <= k < old(p)@.len() ==> #[trigger] p@[k] == old(p)@[k],
                draws_in_range(draws, n as int),
                p@ == shuffled(old(p)@, n as int, i as int, draws),
            decreases i,
        {
            i -= 1;
            let target = random_int(0, i as u32) as usize;
            let ghost before = p@;
            let ghost earlier = draws;
            Perlin::exchange(p, i, target);
            proof {
                draws = draws.update(i as int, target as int);
                lemma_exchanged_contents(before, i as int, target as int);
                lemma_shuffled_later_draws(old(p)@, n as int, i + 1, earlier, draws);
            }
        }
    }

    /// A table that holds the numbers `0..256` in a random order.
    fn perlin_generate_perm() -> (p: Vec<u8>)
        ensures
            p@.len() == 256,
            is_shuffle(p@),
    {
        let mut p: Vec<u8> = Vec::new();
        let mut i: usize = 0;
        while i < POINT_COUNT
            invariant
                i <= 256,
                p@.len() == i,
                forall|k: int| 0 <= k < i ==> p@[k] == k as u8,
            decreases 256 - i,
        {
            p.push(i as u8);
            i += 1;
        }
        assert(p@ =~= counting());
        Perlin::permute(&mut p, POINT_COUNT);
        p
    }
}

} // verus!

//! Mount identities: the root-to-node path of a mounted node, packed one byte
//! per level into an integer, least significant byte first.
use vstd::prelude::*;

verus! {

/// A node's packed path; `0` is the root.
pub type MountId = u64;

/// The deepest path an identity can hold: one level per byte of `MountId`.
pub const MAX_DEPTH: u32 = 8;

pub open spec fn pow256(k: nat) -> nat
    decreases k,
{
    if k == 0 {
        1
    } else {
        256 * pow256((k - 1) as nat)
    }
}

/// The bytes of an identity from the lowest up to its highest non-zero byte.
pub open spec fn path_of(id: nat) -> Seq<u8>
    decreases id,
{
    if id == 0 {
        Seq::empty()
    } else {
        seq![(id % 256) as u8] + path_of(id / 256)
    }
}

pub open spec fn depth_of(id: nat) -> nat {
    path_of(id).len()
}

/// The identity `push(index)` makes: `index` placed in the byte just above the
/// identity's highest non-zero byte.
pub open spec fn pushed(id: nat, index: nat) -> nat {
    id + index * pow256(depth_of(id))
}

/// The identity built by pushing each index of `s` in turn, starting at the root.
pub open spec fn chain(s: Seq<u8>) -> nat
    decreases s.len(),
{
    if s.len() == 0 {
        0
    } else {
        pushed(chain(s.drop_last()), s.last() as nat)
    }
}

/// The indices read by `k` rounds of `peek` then `next`.
pub open spec fn replay(id: nat, k: nat) -> Seq<u8>
    decreases k,
{
    if k == 0 {
        Seq::empty()
    } else {
        seq![(id % 256) as u8] + replay(id / 256, (k - 1) as nat)
    }
}

proof fn lemma_pow256_values()
    ensures
        pow256(7) == 72057594037927936,
        pow256(8) == 18446744073709551616,
{
    assert(pow256(0) == 1);
    assert(pow256(1) == 256);
    assert(pow256(2) == 65536);
    assert(pow256(3) == 16777216);
    assert(pow256(4) == 4294967296);
    assert(pow256(5) == 1099511627776);
    assert(pow256(6) == 281474976710656);
    assert(pow256(7) == 72057594037927936);
    assert(pow256(8) == 18446744073709551616);
}

proof fn lemma_pow256_positive(k: nat)
    ensures
        pow256(k) >= 1,
    decreases k,
{
    if k > 0 {
        lemma_pow256_positive((k - 1) as nat);
    }
}

proof fn lemma_split_byte(v: nat)
    ensures
        v == 256 * (v / 256) + v % 256,
        v % 256 < 256,
{
    vstd::arithmetic::div_mod::lemma_fundamental_div_mod(v as int, 256);
}

/// An identity lies below `256` to the power of its depth, and at or above the
/// power just under it.
proof fn lemma_path_bounds(id: nat)
    ensures
        id < pow256(depth_of(id)),
        id > 0 ==> pow256((depth_of(id) - 1) as nat) <= id,
    decreases id,
{
    if id > 0 {
        lemma_path_bounds(id / 256);
        lemma_split_byte(id);
        let d = depth_of(id / 256);
        assert(depth_of(id) == d + 1);
        assert(id < 256 * pow256(d)) by (nonlinear_arith)
            requires
                id == 256 * (id / 256) + id % 256,
                id % 256 < 256,
                id / 256 < pow256(d),
        ;
        if id / 256 > 0 {
            assert(pow256((d - 1) as nat) <= id / 256);
            assert(256 * pow256((d - 1) as nat) <= id) by (nonlinear_arith)
                requires
                    id == 256 * (id / 256) + id % 256,
                    pow256((d - 1) as nat) <= id / 256,
            ;
        } else {
            assert(d == 0);
        }
    }
}

proof fn lemma_depth_at_most_eight(id: u64)
    ensures
        depth_of(id as nat) <= 8,
{
    lemma_path_bounds(id as nat);
    if depth_of(id as nat) > 8 {
        lemma_pow_monotone(8, (depth_of(id as nat) - 1) as nat);
        lemma_pow256_values();
    }
}

proof fn lemma_pow_monotone(a: nat, b: nat)
    requires
        a <= b,
    ensures
        pow256(a) <= pow256(b),
    decreases b,
{
    if a < b {
        lemma_pow_monotone(a, (b - 1) as nat);
        lemma_pow256_positive((b - 1) as nat);
    }
}

/// Pushing a non-zero byte above an identity's path extends the path by it.
pub proof fn lemma_push_extends(id: nat, x: nat)
    requires
        1 <= x < 256,
    ensures
        path_of(pushed(id, x)) == path_of(id).push(x as u8),
    decreases id,
{
    let k = depth_of(id);
    let v = pushed(id, x);
    if id == 0 {
        assert(path_of(id) == Seq::<u8>::empty());
        assert(depth_of(id) == 0);
        assert(pow256(depth_of(id)) == 1);
        assert(x * 1 == x);
        assert(v == x);
        assert(x / 256 == 0 && x % 256 == x);
        assert(path_of(x) =~= seq![x as u8]);
    } else {
        let rest = id / 256;
        lemma_split_byte(id);
        assert(k == depth_of(rest) + 1);
        let m = x * pow256((k - 1) as nat);
        assert(v == 256 * (rest + m) + id % 256) by (nonlinear_arith)
            requires
                v == id + x * pow256(k),
                pow256(k) == 256 * pow256((k - 1) as nat),
                m == x * pow256((k - 1) as nat),
                id == 256 * rest + id % 256,
        ;
        vstd::arithmetic::div_mod::lemma_fundamental_div_mod_converse(
            v as int,
            256,
            (rest + m) as int,
            (id % 256) as int,
        );
        lemma_push_extends(rest, x);
        assert(pushed(rest, x) == rest + m);
        assert(path_of(v) =~= path_of(id).push(x as u8));
    }
}

/// Pushing a byte above a non-root identity leaves its lowest level in place,
/// and dropping that level leaves the byte pushed above the rest.
pub proof fn lemma_push_low_level(x: nat, s: nat)
    requires
        x > 0,
    ensures
        pushed(x, s) % 256 == x % 256,
        pushed(x, s) / 256 == pushed(x / 256, s),
        depth_of(x / 256) + 1 == depth_of(x),
{
    let k = depth_of(x);
    let rest = x / 256;
    lemma_split_byte(x);
    assert(k == depth_of(rest) + 1);
    let m = s * pow256((k - 1) as nat);
    assert(pushed(x, s) == 256 * (rest + m) + x % 256) by (nonlinear_arith)
        requires
            pushed(x, s) == x + s * pow256(k),
            pow256(k) == 256 * pow256((k - 1) as nat),
            m == s * pow256((k - 1) as nat),
            x == 256 * rest + x % 256,
    ;
    vstd::arithmetic::div_mod::lemma_fundamental_div_mod_converse(
        pushed(x, s) as int,
        256,
        (rest + m) as int,
        (x % 256) as int,
    );
}

proof fn lemma_replay_path(id: nat)
    ensures
        replay(id, depth_of(id)) == path_of(id),
    decreases id,
{
    if id > 0 {
        lemma_replay_path(id / 256);
    }
}

proof fn lemma_replay_len(id: nat, n: nat)
    ensures
        replay(id, n).len() == n,
    decreases n,
{
    if n > 0 {
        lemma_replay_len(id / 256, (n - 1) as nat);
    }
}

/// Level `k` of `replay` is what `peek` reads after `k` calls of `next`,
/// which leave the identity divided by `256` to the `k`.
proof fn lemma_replay_levels(id: nat, n: nat, k: int)
    requires
        0 <= k < n,
    ensures
        replay(id, n)[k] == ((id / pow256(k as nat)) % 256) as u8,
    decreases k,
{
    let rest = replay(id / 256, (n - 1) as nat);
    lemma_replay_len(id / 256, (n - 1) as nat);
    assert(replay(id, n) == seq![(id % 256) as u8] + rest);
    if k > 0 {
        lemma_replay_levels(id / 256, (n - 1) as nat, k - 1);
        lemma_pow256_positive((k - 1) as nat);
        vstd::arithmetic::div_mod::lemma_div_denominator(id as int, 256, pow256((k - 1) as nat) as int);
        assert(pow256(k as nat) == 256 * pow256((k - 1) as nat));
        assert(replay(id, n)[k] == rest[k - 1]);
    } else {
        assert(pow256(0) == 1);
        assert(id / 1 == id);
    }
}

/// An identity built by pushing up to eight non-zero indices has one level per
/// push, and reading it back with `peek` and `next` yields the same indices in
/// the order they were pushed: after `k` calls of `next` (each divides the
/// identity by `256`) `peek` reads the `k`-th index, and after all of them the
/// identity is the root's.
pub proof fn lemma_push_chain_round_trip(s: Seq<u8>)
    requires
        s.len() <= MAX_DEPTH,
        forall|i: int| 0 <= i < s.len() ==> s[i] != 0,
    ensures
        path_of(chain(s)) == s,
        depth_of(chain(s)) == s.len(),
        chain(s) < pow256(s.len()),
        replay(chain(s), s.len()) == s,
        forall|k: int| 0 <= k < s.len() ==> (chain(s) / #[trigger] pow256(k as nat)) % 256 == s[k],
        chain(s) / pow256(s.len()) == 0,
    decreases s.len(),
{
    if s.len() > 0 {
        lemma_push_chain_round_trip(s.drop_last());
        lemma_push_extends(chain(s.drop_last()), s.last() as nat);
        assert(s.drop_last().push(s.last()) =~= s);
    }
    lemma_path_bounds(chain(s));
    lemma_replay_path(chain(s));
    assert forall|k: int| 0 <= k < s.len() implies (chain(s) / #[trigger] pow256(k as nat)) % 256 == s[k] by {
        lemma_replay_levels(chain(s), s.len(), k);
    }
    lemma_pow256_positive(s.len());
    vstd::arithmetic::div_mod::lemma_basic_div(chain(s) as int, pow256(s.len()) as int);
}

/// A cursor over an identity's path: `peek` reads the next level, `next` drops it.
#[derive(Debug, Clone, Copy)]
pub struct MountFinder {
    id: MountId,
}

impl View for MountFinder {
    type V = MountId;

    closed spec fn view(&self) -> MountId {
        self.id
    }
}

impl MountFinder {
    pub fn new(id: MountId) -> (r: MountFinder)
        ensures
            r@ == id,
    {
        MountFinder { id }
    }

    /// The identity the cursor holds.
    pub fn id(&self) -> (r: MountId)
        ensures
            r == self@,
    {
        self.id
    }

    /// The next level: `0` for "here", `i + 1` for "the child at index `i`".
    pub fn peek(&self) -> (r: u8)
        ensures
            r == self@ % 256,
    {
        (self.id % 256) as u8
    }

    /// The cursor one level further down.
    pub fn next(self) -> (r: MountFinder)
        ensures
            r@ == self@ / 256,
    {
        MountFinder { id: self.id / 256 }
    }

    /// The identity one level deeper, whose new level is `index`.
    pub fn push(self, index: u8) -> (r: MountFinder)
        requires
            depth_of(self@ as nat) < MAX_DEPTH,
        ensures
            r@ == pushed(self@ as nat, index as nat),
    {
        let d = self.depth();
        proof {
            lemma_path_bounds(self.id as nat);
        }
        let mut unit: u64 = 1;
        let mut k: u32 = 0;
        while k < d
            invariant
                k <= d,
                d == depth_of(self.id as nat),
                d < 8,
                unit == pow256(k as nat),
            decreases d - k,
        {
            proof {
                lemma_pow_monotone((k + 1) as nat, 7);
                lemma_pow256_values();
            }
            unit = unit * 256;
            k = k + 1;
        }
        proof {
            lemma_pow_monotone((d + 1) as nat, 8);
            lemma_pow256_values();
            assert(self.id + index * unit < 256 * unit) by (nonlinear_arith)
                requires
                    self.id < unit,
                    index < 256,
            ;
        }
        MountFinder { id: self.id + (index as u64) * unit }
    }

    /// Number of levels in the path: the position of the highest non-zero byte.
    pub fn depth(&self) -> (r: u32)
        ensures
            r == depth_of(self@ as nat),
            r <= MAX_DEPTH,
    {
        proof {
            lemma_depth_at_most_eight(self.id);
        }
        let mut rest: u64 = self.id;
        let mut d: u32 = 0;
        while rest != 0
            invariant
                depth_of(self.id as nat) == d + depth_of(rest as nat),
                depth_of(self.id as nat) <= 8,
            decreases rest,
        {
            rest = rest / 256;
            d = d + 1;
        }
        d
    }
}

/// A node's identity and the number of children it has minted identities for.
#[derive(Debug, Clone, Copy, PartialEq, Eq, Structural, Default)]
pub struct Mount {
    pub id: MountId,
    pub children: u8,
}

impl Mount {
    /// Mints the identity of a new child: the next child count pushed onto this
    /// node's identity.
    pub fn fork(&mut self) -> (r: Mount)
        requires
            old(self).children < 255,
            depth_of(old(self).id as nat) < MAX_DEPTH,
        ensures
            final(self).id == old(self).id,
            final(self).children == old(self).children + 1,
            r.id == pushed(old(self).id as nat, final(self).children as nat),
            r.children == 0,
    {
        self.children = self.children + 1;
        Mount { id: MountFinder::new(self.id).push(self.children).id(), children: 0 }
    }
}

} // verus!

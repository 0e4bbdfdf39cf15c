//! Chunk subscriptions of the clients.
//!
//! Each client is subscribed to the chunks near its player. It receives a
//! chunk whole when the chunk enters its radius, then only its changes; when
//! the chunk leaves a slightly wider radius, the client is told to forget it
//! and the server stops telling it about the chunk.

use bevy::platform::collections::HashSet;
use vstd::prelude::*;

use crate::collections::{
    u64_set_contains, u64_set_elements, u64_set_insert, u64_set_len, u64_set_new,
    u64_set_remove, u64_set_to_vec,
};
use crate::terrain::tile::{
    lemma_chunk_key_bijection, spec_chunk_key, spec_chunk_of_key, ChunkCoord,
};

verus! {

/// Subscription radius, in chunks (Chebyshev distance): the client receives
/// the 3 × 3 chunks around its own.
pub const SUBSCRIBE_RADIUS: u32 = 1;

/// Beyond this radius, a chunk is forgotten by the client.
///
/// Wider than [`SUBSCRIBE_RADIUS`]: a player walking along the border of a
/// chunk does not get it sent and withdrawn over and over.
pub const UNSUBSCRIBE_RADIUS: u32 = 2;

/// Most chunks sent to one client in one tick.
pub const MAX_SNAPSHOTS_PER_TICK: usize = 4;

/// Chunks a client is subscribed to. Carried by its link entity.
pub struct ChunkSubscriptions {
    chunks: HashSet<u64>,
}

impl View for ChunkSubscriptions {
    type V = Set<u64>;

    /// The keys of the subscribed chunks.
    closed spec fn view(&self) -> Set<u64> {
        u64_set_elements(self.chunks)
    }
}

impl ChunkSubscriptions {
    /// Is the client subscribed to this chunk?
    pub open spec fn spec_contains(&self, chunk: ChunkCoord) -> bool {
        self@.contains(spec_chunk_key(chunk))
    }

    /// No subscription.
    pub fn new() -> (r: ChunkSubscriptions)
        ensures
            r@ == Set::<u64>::empty(),
    {
        ChunkSubscriptions { chunks: u64_set_new() }
    }

    pub fn contains(&self, chunk: ChunkCoord) -> (r: bool)
        ensures
            r == self.spec_contains(chunk),
    {
        u64_set_contains(&self.chunks, chunk.key())
    }

    /// Subscribes to a chunk; `true` when the client was not yet subscribed.
    pub fn insert(&mut self, chunk: ChunkCoord) -> (r: bool)
        ensures
            final(self)@ == old(self)@.insert(spec_chunk_key(chunk)),
            r == !old(self).spec_contains(chunk),
    {
        u64_set_insert(&mut self.chunks, chunk.key())
    }

    /// Unsubscribes from a chunk; `true` when the client was subscribed.
    pub fn remove(&mut self, chunk: ChunkCoord) -> (r: bool)
        ensures
            final(self)@ == old(self)@.remove(spec_chunk_key(chunk)),
            r == old(self).spec_contains(chunk),
    {
        u64_set_remove(&mut self.chunks, chunk.key())
    }

    pub fn len(&self) -> (r: usize)
        ensures
            r == self@.len(),
    {
        u64_set_len(&self.chunks)
    }

    /// Every subscribed chunk, each once, in no particular order.
    pub fn chunks(&self) -> (r: Vec<ChunkCoord>)
        ensures
            r@.no_duplicates(),
            forall|c: ChunkCoord| r@.contains(c) <==> self.spec_contains(c),
            r@.len() == self@.len(),
    {
        let keys = u64_set_to_vec(&self.chunks);
        let mut out: Vec<ChunkCoord> = Vec::new();
        let mut i: usize = 0;
        while i < keys.len()
            invariant
                i <= keys@.len(),
                keys@.no_duplicates(),
                out@ == keys@.take(i as int).map_values(|k: u64| spec_chunk_of_key(k)),
            decreases keys@.len() - i,
        {
            out.push(ChunkCoord::from_key(keys[i]));
            proof {
                assert(keys@.take(i + 1).map_values(|k: u64| spec_chunk_of_key(k)) =~= keys@.take(
                    i as int,
                ).map_values(|k: u64| spec_chunk_of_key(k)).push(spec_chunk_of_key(keys@[i as int])));
            }
            i = i + 1;
        }
        proof {
            assert(keys@.take(keys@.len() as int) =~= keys@);
            lemma_keys_to_chunks(keys@);
            keys@.unique_seq_to_set();
        }
        out
    }

    /// Forgets every subscription and returns them, each once.
    pub fn take_all(&mut self) -> (r: Vec<ChunkCoord>)
        ensures
            final(self)@ == Set::<u64>::empty(),
            r@.no_duplicates(),
            forall|c: ChunkCoord| r@.contains(c) <==> old(self).spec_contains(c),
    {
        let all = self.chunks();
        self.chunks = u64_set_new();
        all
    }
}

/// Mapping distinct keys to chunks keeps them distinct, and a chunk is in
/// the result exactly when its key is in the keys.
proof fn lemma_keys_to_chunks(keys: Seq<u64>)
    requires
        keys.no_duplicates(),
    ensures
        keys.map_values(|k: u64| spec_chunk_of_key(k)).no_duplicates(),
        forall|c: ChunkCoord|
            keys.map_values(|k: u64| spec_chunk_of_key(k)).contains(c) <==> keys.contains(
                spec_chunk_key(c),
            ),
{
    let out = keys.map_values(|k: u64| spec_chunk_of_key(k));
    assert forall|i: int, j: int| 0 <= i < out.len() && 0 <= j < out.len() && i != j implies out[i]
        != out[j] by {
        lemma_chunk_key_bijection(out[i], keys[i]);
        lemma_chunk_key_bijection(out[j], keys[j]);
    }
    assert forall|c: ChunkCoord| out.contains(c) <==> keys.contains(spec_chunk_key(c)) by {
        if out.contains(c) {
            let i = choose|i: int| 0 <= i < out.len() && out[i] == c;
            lemma_chunk_key_bijection(c, keys[i]);
            assert(keys[i] == spec_chunk_key(c));
        }
        if keys.contains(spec_chunk_key(c)) {
            let i = choose|i: int| 0 <= i < keys.len() && keys[i] == spec_chunk_key(c);
            lemma_chunk_key_bijection(c, keys[i]);
            assert(out[i] == c);
        }
    }
}

/// Number of clients subscribed to a chunk.
#[derive(Debug, Default)]
pub struct ChunkSubscribers(pub u32);

impl ChunkSubscribers {
    /// One more subscriber.
    pub fn subscribe(&mut self)
        requires
            old(self).0 < u32::MAX,
        ensures
            final(self).0 == old(self).0 + 1,
    {
        self.0 = self.0 + 1;
    }

    /// May the server forget the chunk: nobody is subscribed to it any
    /// more, and no edit made it differ from what the seed gives again?
    pub fn can_forget(&self, modified: bool) -> (r: bool)
        ensures
            r == (self.0 == 0 && !modified),
    {
        self.0 == 0 && !modified
    }

    /// One subscriber fewer, never below zero.
    pub fn unsubscribe(&mut self)
        ensures
            final(self).0 == if old(self).0 == 0 {
                0
            } else {
                old(self).0 - 1
            },
    {
        self.0 = self.0.saturating_sub(1);
    }
}

/// Number of clients, among the subscriptions of each, that hold `key`.
pub open spec fn holders(clients: Seq<Set<u64>>, key: u64) -> nat
    decreases clients.len(),
{
    if clients.len() == 0 {
        0
    } else {
        holders(clients.drop_last(), key) + if clients.last().contains(key) {
            1nat
        } else {
            0nat
        }
    }
}

/// The subscriber count of a chunk follows its clients: a client that
/// subscribes to a chunk it did not hold adds one holder of that chunk, a
/// client that unsubscribes from a chunk it held removes one, and no other
/// chunk's holders change. So a count that goes up by one exactly when
/// [`ChunkSubscriptions::insert`] returns `true`, and down by one exactly
/// when [`ChunkSubscriptions::remove`] does, is the number of clients
/// subscribed to the chunk.
pub proof fn lemma_holders_follow_subscriptions(
    clients: Seq<Set<u64>>,
    c: int,
    key: u64,
    other: u64,
)
    requires
        0 <= c < clients.len(),
        other != key,
    ensures
        !clients[c].contains(key) ==> holders(clients.update(c, clients[c].insert(key)), key)
            == holders(clients, key) + 1,
        clients[c].contains(key) ==> holders(clients.update(c, clients[c].remove(key)), key) + 1
            == holders(clients, key),
        holders(clients.update(c, clients[c].insert(key)), other) == holders(clients, other),
        holders(clients.update(c, clients[c].remove(key)), other) == holders(clients, other),
    decreases clients.len(),
{
    let added = clients.update(c, clients[c].insert(key));
    let removed = clients.update(c, clients[c].remove(key));
    if c == clients.len() - 1 {
        assert(added.drop_last() =~= clients.drop_last());
        assert(removed.drop_last() =~= clients.drop_last());
    } else {
        lemma_holders_follow_subscriptions(clients.drop_last(), c, key, other);
        assert(added.drop_last() =~= clients.drop_last().update(c, clients[c].insert(key)));
        assert(removed.drop_last() =~= clients.drop_last().update(c, clients[c].remove(key)));
        assert(added.last() == clients.last());
        assert(removed.last() == clients.last());
    }
}

/// Squared Euclidean distance between two chunks, in chunks.
pub open spec fn dist2(a: ChunkCoord, b: ChunkCoord) -> int {
    (a.x - b.x) * (a.x - b.x) + (a.y - b.y) * (a.y - b.y)
}

/// Side of the square of chunks within `radius` of a chunk.
pub open spec fn side(radius: int) -> int {
    2 * radius + 1
}

/// The chunks within Chebyshev distance `radius` of `center`, column by
/// column (x outer, y inner), from the lowest coordinates up.
pub open spec fn square_around(center: ChunkCoord, radius: int) -> Seq<ChunkCoord> {
    Seq::new(
        (side(radius) * side(radius)) as nat,
        |k: int|
            ChunkCoord {
                x: (center.x + k / side(radius) - radius) as i32,
                y: (center.y + k % side(radius) - radius) as i32,
            },
    )
}

/// The chunks of `s` at squared distance `d` from `center`, in order.
pub open spec fn at_dist2(s: Seq<ChunkCoord>, center: ChunkCoord, d: int) -> Seq<ChunkCoord>
    decreases s.len(),
{
    if s.len() == 0 {
        Seq::empty()
    } else if dist2(s.last(), center) == d {
        at_dist2(s.drop_last(), center, d).push(s.last())
    } else {
        at_dist2(s.drop_last(), center, d)
    }
}

/// The chunks of `s` at squared distance at most `d` from `center`, nearest
/// first; equally near chunks keep their order in `s`.
pub open spec fn nearest_first(s: Seq<ChunkCoord>, center: ChunkCoord, d: int) -> Seq<ChunkCoord>
    decreases d + 1,
{
    if d < 0 {
        Seq::empty()
    } else {
        nearest_first(s, center, d - 1) + at_dist2(s, center, d)
    }
}

/// What [`chunks_around`] gives: the square around `center`, stably sorted
/// by distance.
pub open spec fn spec_chunks_around(center: ChunkCoord, radius: int) -> Seq<ChunkCoord> {
    nearest_first(square_around(center, radius), center, 2 * radius * radius)
}

/// The square around `center` stays inside the `i32` range, and its squared
/// distances inside `i32` too.
pub open spec fn around_fits(center: ChunkCoord, radius: u32) -> bool {
    &&& 2 * radius * radius <= i32::MAX
    &&& i32::MIN <= center.x - radius
    &&& center.x + radius <= i32::MAX
    &&& i32::MIN <= center.y - radius
    &&& center.y + radius <= i32::MAX
}

/// Chunks within distance `radius` of `center`, nearest first: the
/// player's own chunk, then its direct neighbours, then the diagonals.
pub fn chunks_around(center: ChunkCoord, radius: u32) -> (r: Vec<ChunkCoord>)
    requires
        around_fits(center, radius),
    ensures
        r@ == spec_chunks_around(center, radius as int),
{
    let r = radius as i64;
    proof {
        assert(r <= 32768) by (nonlinear_arith)
            requires 2 * r * r <= 2147483647, r >= 0;
    }
    let side_len = 2 * r + 1;
    proof {
        assert(side_len * side_len <= 65537 * 65537) by (nonlinear_arith)
            requires 0 < side_len <= 65537;
    }
    let count = side_len * side_len;
    let max_d = 2 * r * r;
    let ghost square = square_around(center, radius as int);
    let mut out: Vec<ChunkCoord> = Vec::new();
    let mut d: i64 = 0;
    proof {
        assert(out@ =~= nearest_first(square, center, -1));
    }
    while d <= max_d
        invariant
            0 <= d <= max_d + 1,
            r == radius,
            0 <= r <= 32768,
            2 * r * r <= i32::MAX,
            side_len == side(r as int),
            count == side_len * side_len,
            max_d == 2 * r * r,
            around_fits(center, radius),
            square == square_around(center, radius as int),
            out@ == nearest_first(square, center, d - 1),
        decreases max_d + 1 - d,
    {
        let ghost before = out@;
        let mut k: i64 = 0;
        while k < count
            invariant
                0 <= k <= count,
                r == radius,
                0 <= r <= 32768,
                2 * r * r <= i32::MAX,
                0 <= d <= max_d,
                side_len == side(r as int),
                count == side_len * side_len,
                max_d == 2 * r * r,
                around_fits(center, radius),
                square == square_around(center, radius as int),
                square.len() == count,
                out@ == before + at_dist2(square.take(k as int), center, d as int),
            decreases count - k,
        {
            let dx = k / side_len - r;
            let dy = k % side_len - r;
            proof {
                assert(0 <= k / side_len < side_len) by (nonlinear_arith)
                    requires 0 <= k < side_len * side_len, side_len > 0;
                assert(0 <= k % side_len < side_len) by (nonlinear_arith)
                    requires side_len > 0;
                assert(-r <= dx <= r && -r <= dy <= r);
                assert(0 <= dx * dx <= 1073741824 && 0 <= dy * dy <= 1073741824) by (nonlinear_arith)
                    requires -32768 <= dx <= 32768, -32768 <= dy <= 32768;
                assert(square.take(k + 1).drop_last() =~= square.take(k as int));
                assert(square.take(k + 1).last() == square[k as int]);
            }
            let chunk = ChunkCoord { x: (center.x as i64 + dx) as i32, y: (center.y as i64 + dy) as i32 };
            proof {
                assert(chunk == square[k as int]);
                assert(dist2(chunk, center) == dx * dx + dy * dy);
            }
            if dx * dx + dy * dy == d {
                out.push(chunk);
            }
            k = k + 1;
        }
        proof {
            assert(square.take(count as int) =~= square);
        }
        d = d + 1;
    }
    out
}

/// Every chunk that [`at_dist2`] keeps is at that squared distance, and is
/// a chunk of `s`; every chunk of `s` at that distance is kept.
proof fn lemma_at_dist2_members(s: Seq<ChunkCoord>, center: ChunkCoord, d: int)
    ensures
        forall|i: int|
            0 <= i < at_dist2(s, center, d).len() ==> dist2(#[trigger] at_dist2(s, center, d)[i], center)
                == d && s.contains(at_dist2(s, center, d)[i]),
        forall|k: int|
            0 <= k < s.len() && dist2(s[k], center) == d ==> at_dist2(s, center, d).contains(
                #[trigger] s[k],
            ),
        at_dist2(s, center, d).len() <= s.len(),
    decreases s.len(),
{
    if s.len() > 0 {
        let front = s.drop_last();
        lemma_at_dist2_members(front, center, d);
        let prev = at_dist2(front, center, d);
        let now = at_dist2(s, center, d);
        assert forall|i: int| 0 <= i < now.len() implies dist2(#[trigger] now[i], center) == d
            && s.contains(now[i]) by {
            if i < prev.len() {
                assert(now[i] == prev[i]);
                let j = choose|j: int| 0 <= j < front.len() && front[j] == prev[i];
                assert(s[j] == front[j]);
            } else {
                assert(now[i] == s.last());
                assert(s[s.len() - 1] == s.last());
            }
        }
        assert forall|k: int| 0 <= k < s.len() && dist2(s[k], center) == d implies now.contains(
            #[trigger] s[k],
        ) by {
            if k < front.len() {
                assert(front[k] == s[k]);
                assert(prev.contains(front[k]));
                let j = choose|j: int| 0 <= j < prev.len() && prev[j] == front[k];
                assert(now[j] == prev[j]);
            } else {
                assert(now[now.len() - 1] == s.last());
            }
        }
    }
}

/// What [`nearest_first`] gives: chunks of `s`, each at squared distance at
/// most `d`, in non-decreasing order of distance; every chunk of `s` within
/// that distance is among them.
pub proof fn lemma_nearest_first(s: Seq<ChunkCoord>, center: ChunkCoord, d: int)
    ensures
        forall|i: int|
            0 <= i < nearest_first(s, center, d).len() ==> dist2(
                #[trigger] nearest_first(s, center, d)[i],
                center,
            ) <= d && s.contains(nearest_first(s, center, d)[i]),
        forall|i: int, j: int|
            0 <= i < j < nearest_first(s, center, d).len() ==> dist2(
                #[trigger] nearest_first(s, center, d)[i],
                center,
            ) <= dist2(#[trigger] nearest_first(s, center, d)[j], center),
        forall|k: int|
            0 <= k < s.len() && 0 <= dist2(s[k], center) <= d ==> nearest_first(
                s,
                center,
                d,
            ).contains(#[trigger] s[k]),
    decreases d + 1,
{
    if d >= 0 {
        lemma_nearest_first(s, center, d - 1);
        lemma_at_dist2_members(s, center, d);
        let a = nearest_first(s, center, d - 1);
        let b = at_dist2(s, center, d);
        let all = nearest_first(s, center, d);
        assert(all == a + b);
        assert forall|i: int| 0 <= i < all.len() implies dist2(#[trigger] all[i], center) <= d
            && s.contains(all[i]) by {
            if i < a.len() {
                assert(all[i] == a[i]);
            } else {
                assert(all[i] == b[i - a.len()]);
            }
        }
        assert forall|i: int, j: int| 0 <= i < j < all.len() implies dist2(#[trigger] all[i], center)
            <= dist2(#[trigger] all[j], center) by {
            if j < a.len() {
                assert(all[i] == a[i] && all[j] == a[j]);
            } else if i < a.len() {
                assert(all[i] == a[i] && all[j] == b[j - a.len()]);
            } else {
                assert(all[i] == b[i - a.len()] && all[j] == b[j - a.len()]);
            }
        }
        assert forall|k: int| 0 <= k < s.len() && 0 <= dist2(s[k], center) <= d implies all.contains(
            #[trigger] s[k],
        ) by {
            if dist2(s[k], center) < d {
                let j = choose|j: int| 0 <= j < a.len() && a[j] == s[k];
                assert(all[j] == a[j]);
            } else {
                let j = choose|j: int| 0 <= j < b.len() && b[j] == s[k];
                assert(all[a.len() + j] == b[j]);
            }
        }
    }
}

/// The chunk `k` of the square around `center` is `dx` columns and `dy`
/// rows away from it, both within `radius`.
proof fn lemma_square_offsets(center: ChunkCoord, radius: int, k: int)
    requires
        0 <= radius,
        0 <= k < side(radius) * side(radius),
        i32::MIN <= center.x - radius,
        center.x + radius <= i32::MAX,
        i32::MIN <= center.y - radius,
        center.y + radius <= i32::MAX,
    ensures
        -radius <= k / side(radius) - radius <= radius,
        -radius <= k % side(radius) - radius <= radius,
        square_around(center, radius)[k].x == center.x + k / side(radius) - radius,
        square_around(center, radius)[k].y == center.y + k % side(radius) - radius,
{
    let n = side(radius);
    assert(0 <= k / n < n) by (nonlinear_arith)
        requires 0 <= k < n * n, n > 0;
    assert(0 <= k % n < n) by (nonlinear_arith)
        requires n > 0;
}

/// [`chunks_around`] lists the chunks within Chebyshev distance `radius`
/// of `center`: each of them once, and nothing else, nearest first, so
/// `center` itself comes first.
pub proof fn lemma_chunks_around(center: ChunkCoord, radius: u32)
    requires
        around_fits(center, radius),
    ensures
        spec_chunks_around(center, radius as int).no_duplicates(),
        spec_chunks_around(center, radius as int).len() == side(radius as int) * side(
            radius as int,
        ),
        spec_chunks_around(center, radius as int)[0] == center,
        forall|i: int|
            0 <= i < spec_chunks_around(center, radius as int).len() ==> (
            #[trigger] spec_chunks_around(center, radius as int)[i]).spec_distance(center)
                <= radius,
        forall|i: int, j: int|
            0 <= i < j < spec_chunks_around(center, radius as int).len() ==> dist2(
                #[trigger] spec_chunks_around(center, radius as int)[i],
                center,
            ) <= dist2(#[trigger] spec_chunks_around(center, radius as int)[j], center),
        forall|c: ChunkCoord|
            c.spec_distance(center) <= radius ==> #[trigger] spec_chunks_around(
                center,
                radius as int,
            ).contains(c),
{
    let r = radius as int;
    let n = side(r);
    let square = square_around(center, r);
    let max_d = 2 * r * r;
    lemma_nearest_first(square, center, max_d);
    let all = spec_chunks_around(center, radius as int);
    assert forall|i: int| 0 <= i < all.len() implies (#[trigger] all[i]).spec_distance(center)
        <= radius by {
        let k = choose|k: int| 0 <= k < square.len() && square[k] == all[i];
        lemma_square_offsets(center, r, k);
    }
    assert forall|c: ChunkCoord| c.spec_distance(center) <= radius implies #[trigger] all.contains(
        c,
    ) by {
        let dx = c.x - center.x;
        let dy = c.y - center.y;
        let k = (dx + r) * n + (dy + r);
        assert(-r <= dx <= r && -r <= dy <= r);
        assert(0 <= k < n * n) by (nonlinear_arith)
            requires 0 <= dx + r < n, 0 <= dy + r < n, k == (dx + r) * n + (dy + r);
        assert(k / n == dx + r && k % n == dy + r) by (nonlinear_arith)
            requires 0 <= dy + r < n, k == (dx + r) * n + (dy + r), n > 0;
        lemma_square_offsets(center, r, k);
        assert(square[k] == c);
        assert(0 <= dist2(c, center) <= max_d) by (nonlinear_arith)
            requires -r <= dx <= r, -r <= dy <= r, dist2(c, center) == dx * dx + dy * dy, max_d == 2
                * r * r;
    }
    lemma_square_no_duplicates(center, radius);
    lemma_nearest_first_no_duplicates(square, center, max_d);
    // The chunks listed are those of the square, each once: as many.
    assert(all.to_set() =~= square.to_set()) by {
        assert forall|c: ChunkCoord| square.to_set().contains(c) implies all.to_set().contains(c) by {
            let k = choose|k: int| 0 <= k < square.len() && square[k] == c;
            lemma_square_offsets(center, r, k);
            assert(c.spec_distance(center) <= radius);
        }
    }
    all.unique_seq_to_set();
    square.unique_seq_to_set();
    assert(square.len() == n * n) by (nonlinear_arith)
        requires square.len() == (n * n) as nat, n >= 1;
    // The centre is in the square, hence among the chunks at distance zero,
    // which are all the centre and come first.
    assert(center.spec_distance(center) <= radius);
    assert(all.contains(center));
    let i0 = choose|i: int| 0 <= i < all.len() && all[i] == center;
    let k0 = choose|k: int| 0 <= k < square.len() && square[k] == all[i0];
    lemma_at_dist2_members(square, center, 0);
    assert(square[k0] == center);
    assert(dist2(square[k0], center) == 0);
    let zero = at_dist2(square, center, 0);
    assert(zero.contains(square[k0]));
    assert(zero.len() > 0);
    assert(dist2(zero[0], center) == 0);
    lemma_dist2_zero(zero[0], center);
    assert(nearest_first(square, center, -1) == Seq::<ChunkCoord>::empty());
    assert(nearest_first(square, center, 0) == nearest_first(square, center, -1) + zero);
    assert(nearest_first(square, center, 0) =~= zero);
    lemma_nearest_first_prefix(square, center, max_d);
    assert(all[0] == nearest_first(square, center, 0)[0]);
}

/// Pushing a chunk that a sequence without duplicates does not hold keeps
/// it without duplicates.
proof fn lemma_push_fresh(t: Seq<ChunkCoord>, x: ChunkCoord)
    requires
        t.no_duplicates(),
        !t.contains(x),
    ensures
        t.push(x).no_duplicates(),
{
    let u = t.push(x);
    assert forall|i: int, j: int| 0 <= i < u.len() && 0 <= j < u.len() && i != j implies u[i]
        != u[j] by {
        if i < t.len() && j < t.len() {
            assert(u[i] == t[i] && u[j] == t[j]);
        } else if i < t.len() {
            assert(u[i] == t[i]);
            assert(t.contains(t[i]));
        } else {
            assert(u[j] == t[j]);
            assert(t.contains(t[j]));
        }
    }
}

/// A sequence without duplicates does not hold its last chunk before the
/// end, and its front has no duplicates either.
proof fn lemma_drop_last_fresh(s: Seq<ChunkCoord>)
    requires
        s.len() > 0,
        s.no_duplicates(),
    ensures
        s.drop_last().no_duplicates(),
        !s.drop_last().contains(s.last()),
{
    let front = s.drop_last();
    assert forall|i: int, j: int|
        0 <= i < front.len() && 0 <= j < front.len() && i != j implies front[i] != front[j] by {
        assert(front[i] == s[i] && front[j] == s[j]);
    }
    if front.contains(s.last()) {
        let j = choose|j: int| 0 <= j < front.len() && front[j] == s.last();
        assert(s[j] == s[s.len() - 1]);
    }
}

/// Keeping the chunks at one distance keeps them distinct.
proof fn lemma_at_dist2_no_duplicates(s: Seq<ChunkCoord>, center: ChunkCoord, d: int)
    requires
        s.no_duplicates(),
    ensures
        at_dist2(s, center, d).no_duplicates(),
    decreases s.len(),
{
    if s.len() > 0 {
        let front = s.drop_last();
        lemma_drop_last_fresh(s);
        lemma_at_dist2_no_duplicates(front, center, d);
        if dist2(s.last(), center) == d {
            lemma_at_dist2_members(front, center, d);
            let prev = at_dist2(front, center, d);
            if prev.contains(s.last()) {
                let i = choose|i: int| 0 <= i < prev.len() && prev[i] == s.last();
                assert(front.contains(prev[i]));
            }
            lemma_push_fresh(prev, s.last());
        }
    }
}

/// Sorting by distance keeps the chunks distinct.
proof fn lemma_nearest_first_no_duplicates(s: Seq<ChunkCoord>, center: ChunkCoord, d: int)
    requires
        s.no_duplicates(),
    ensures
        nearest_first(s, center, d).no_duplicates(),
    decreases d + 1,
{
    if d >= 0 {
        lemma_nearest_first_no_duplicates(s, center, d - 1);
        lemma_nearest_first(s, center, d - 1);
        lemma_at_dist2_no_duplicates(s, center, d);
        lemma_at_dist2_members(s, center, d);
        let a = nearest_first(s, center, d - 1);
        let b = at_dist2(s, center, d);
        let all = a + b;
        assert forall|i: int, j: int|
            0 <= i < all.len() && 0 <= j < all.len() && i != j implies all[i] != all[j] by {
            if i < a.len() && j < a.len() {
                assert(all[i] == a[i] && all[j] == a[j]);
            } else if i >= a.len() && j >= a.len() {
                assert(all[i] == b[i - a.len()] && all[j] == b[j - a.len()]);
            } else if i < a.len() {
                assert(all[i] == a[i] && all[j] == b[j - a.len()]);
                assert(dist2(a[i], center) <= d - 1);
            } else {
                assert(all[j] == a[j] && all[i] == b[i - a.len()]);
                assert(dist2(a[j], center) <= d - 1);
            }
        }
    }
}

/// Two chunks at squared distance zero are the same chunk.
proof fn lemma_dist2_zero(a: ChunkCoord, b: ChunkCoord)
    requires
        dist2(a, b) == 0,
    ensures
        a == b,
{
    let dx = a.x - b.x;
    let dy = a.y - b.y;
    assert(dx == 0 && dy == 0) by (nonlinear_arith)
        requires dx * dx + dy * dy == 0;
}

/// Sorting by distance up to `d` starts with what sorting up to `0` gives.
proof fn lemma_nearest_first_prefix(s: Seq<ChunkCoord>, center: ChunkCoord, d: int)
    requires
        d >= 0,
    ensures
        nearest_first(s, center, 0).len() <= nearest_first(s, center, d).len(),
        forall|i: int|
            0 <= i < nearest_first(s, center, 0).len() ==> #[trigger] nearest_first(s, center, d)[i]
                == nearest_first(s, center, 0)[i],
    decreases d,
{
    if d > 0 {
        lemma_nearest_first_prefix(s, center, d - 1);
        let a = nearest_first(s, center, d - 1);
        assert forall|i: int| 0 <= i < nearest_first(s, center, 0).len() implies #[trigger] nearest_first(
            s,
            center,
            d,
        )[i] == nearest_first(s, center, 0)[i] by {
            assert(nearest_first(s, center, d)[i] == a[i]);
        }
    }
}

/// The square around `center` holds each chunk once.
proof fn lemma_square_no_duplicates(center: ChunkCoord, radius: u32)
    requires
        around_fits(center, radius),
    ensures
        square_around(center, radius as int).no_duplicates(),
{
    let r = radius as int;
    let n = side(r);
    let square = square_around(center, r);
    assert forall|i: int, j: int|
        0 <= i < square.len() && 0 <= j < square.len() && i != j implies square[i] != square[j] by {
        lemma_square_offsets(center, r, i);
        lemma_square_offsets(center, r, j);
        if square[i] == square[j] {
            assert(i / n == j / n && i % n == j % n);
            assert(i == (i / n) * n + i % n && j == (j / n) * n + j % n) by (nonlinear_arith)
                requires n > 0;
        }
    }
}

/// The chunks of `s` the client is not subscribed to, in order.
pub open spec fn not_subscribed(s: Seq<ChunkCoord>, subscribed: Set<u64>) -> Seq<ChunkCoord>
    decreases s.len(),
{
    if s.len() == 0 {
        Seq::empty()
    } else if subscribed.contains(spec_chunk_key(s.last())) {
        not_subscribed(s.drop_last(), subscribed)
    } else {
        not_subscribed(s.drop_last(), subscribed).push(s.last())
    }
}

/// The chunks to send: the nearest ones within [`SUBSCRIBE_RADIUS`] that
/// the client is not subscribed to, at most [`MAX_SNAPSHOTS_PER_TICK`].
pub open spec fn spec_entering(center: ChunkCoord, subscribed: Set<u64>) -> Seq<ChunkCoord> {
    let candidates = not_subscribed(spec_chunks_around(center, SUBSCRIBE_RADIUS as int), subscribed);
    if candidates.len() <= MAX_SNAPSHOTS_PER_TICK {
        candidates
    } else {
        candidates.take(MAX_SNAPSHOTS_PER_TICK as int)
    }
}

/// What [`not_subscribed`] keeps: the chunks of `s` the client is not
/// subscribed to, all of them, in the order of `s`; each once when `s` has
/// each once; starting with the first chunk of `s` when that one is kept.
proof fn lemma_not_subscribed_members(s: Seq<ChunkCoord>, subscribed: Set<u64>, center: ChunkCoord)
    ensures
        forall|i: int|
            0 <= i < not_subscribed(s, subscribed).len() ==> s.contains(
                #[trigger] not_subscribed(s, subscribed)[i],
            ) && !subscribed.contains(spec_chunk_key(not_subscribed(s, subscribed)[i])),
        forall|k: int|
            0 <= k < s.len() && !subscribed.contains(spec_chunk_key(s[k])) ==> not_subscribed(
                s,
                subscribed,
            ).contains(#[trigger] s[k]),
        not_subscribed(s, subscribed).len() <= s.len(),
        s.no_duplicates() ==> not_subscribed(s, subscribed).no_duplicates(),
        (forall|i: int, j: int|
            0 <= i < j < s.len() ==> dist2(#[trigger] s[i], center) <= dist2(#[trigger] s[j], center))
            ==> (forall|i: int, j: int|
            0 <= i < j < not_subscribed(s, subscribed).len() ==> dist2(
                #[trigger] not_subscribed(s, subscribed)[i],
                center,
            ) <= dist2(#[trigger] not_subscribed(s, subscribed)[j], center)),
        s.len() > 0 && !subscribed.contains(spec_chunk_key(s[0])) ==> not_subscribed(
            s,
            subscribed,
        ).len() > 0 && not_subscribed(s, subscribed)[0] == s[0],
    decreases s.len(),
{
    if s.len() > 0 {
        let front = s.drop_last();
        let last = s.last();
        lemma_not_subscribed_members(front, subscribed, center);
        let prev = not_subscribed(front, subscribed);
        let now = not_subscribed(s, subscribed);
        assert forall|i: int| 0 <= i < now.len() implies s.contains(#[trigger] now[i])
            && !subscribed.contains(spec_chunk_key(now[i])) by {
            if i < prev.len() {
                assert(now[i] == prev[i]);
                let j = choose|j: int| 0 <= j < front.len() && front[j] == prev[i];
                assert(s[j] == front[j]);
            } else {
                assert(now[i] == last);
                assert(s[s.len() - 1] == last);
            }
        }
        assert forall|k: int|
            0 <= k < s.len() && !subscribed.contains(spec_chunk_key(s[k])) implies now.contains(
            #[trigger] s[k],
        ) by {
            if k < front.len() {
                assert(front[k] == s[k]);
                assert(prev.contains(front[k]));
                let j = choose|j: int| 0 <= j < prev.len() && prev[j] == front[k];
                assert(now[j] == prev[j]);
            } else {
                assert(now[now.len() - 1] == last);
            }
        }
        if s.no_duplicates() {
            lemma_drop_last_fresh(s);
            if !subscribed.contains(spec_chunk_key(last)) {
                if prev.contains(last) {
                    let i = choose|i: int| 0 <= i < prev.len() && prev[i] == last;
                    assert(front.contains(prev[i]));
                }
                lemma_push_fresh(prev, last);
            }
        }
        if forall|i: int, j: int|
            0 <= i < j < s.len() ==> dist2(#[trigger] s[i], center) <= dist2(#[trigger] s[j], center) {
            assert forall|i: int, j: int|
                0 <= i < j < front.len() implies dist2(#[trigger] front[i], center) <= dist2(
                #[trigger] front[j],
                center,
            ) by {
                assert(front[i] == s[i] && front[j] == s[j]);
            }
            assert forall|i: int, j: int| 0 <= i < j < now.len() implies dist2(#[trigger] now[i], center)
                <= dist2(#[trigger] now[j], center) by {
                if j < prev.len() {
                    assert(now[i] == prev[i] && now[j] == prev[j]);
                } else {
                    assert(now[i] == prev[i] && now[j] == last);
                    let a = choose|a: int| 0 <= a < front.len() && front[a] == prev[i];
                    assert(s[a] == front[a]);
                    assert(s[s.len() - 1] == last);
                }
            }
        }
        if !subscribed.contains(spec_chunk_key(s[0])) {
            if s.len() == 1 {
                assert(front.len() == 0);
                assert(prev.len() == 0);
                assert(last == s[0]);
            } else {
                assert(front[0] == s[0]);
                assert(now[0] == prev[0]);
            }
        }
    }
}

/// The chunks sent to a client centred on `center` are within
/// [`SUBSCRIBE_RADIUS`] of it and not yet subscribed, each once, nearest
/// first, at most [`MAX_SNAPSHOTS_PER_TICK`], the client's own chunk first
/// when it is missing. Fewer than the cap are sent only when they are all
/// the missing ones, and none only when nothing within the radius is
/// missing: ticks that subscribe what is sent end with every chunk within
/// the radius subscribed.
pub proof fn lemma_entering(center: ChunkCoord, subscribed: Set<u64>)
    requires
        around_fits(center, SUBSCRIBE_RADIUS),
    ensures
        spec_entering(center, subscribed).len() <= MAX_SNAPSHOTS_PER_TICK,
        spec_entering(center, subscribed).no_duplicates(),
        forall|i: int|
            0 <= i < spec_entering(center, subscribed).len() ==> (#[trigger] spec_entering(
                center,
                subscribed,
            )[i]).spec_distance(center) <= SUBSCRIBE_RADIUS && !subscribed.contains(
                spec_chunk_key(spec_entering(center, subscribed)[i]),
            ),
        forall|i: int, j: int|
            0 <= i < j < spec_entering(center, subscribed).len() ==> dist2(
                #[trigger] spec_entering(center, subscribed)[i],
                center,
            ) <= dist2(#[trigger] spec_entering(center, subscribed)[j], center),
        !subscribed.contains(spec_chunk_key(center)) ==> spec_entering(center, subscribed).len() > 0
            && spec_entering(center, subscribed)[0] == center,
        spec_entering(center, subscribed).len() < MAX_SNAPSHOTS_PER_TICK ==> forall|c: ChunkCoord|
            c.spec_distance(center) <= SUBSCRIBE_RADIUS && !subscribed.contains(spec_chunk_key(c))
                ==> #[trigger] spec_entering(center, subscribed).contains(c),
        spec_entering(center, subscribed).len() == 0 <==> forall|c: ChunkCoord|
            c.spec_distance(center) <= SUBSCRIBE_RADIUS ==> subscribed.contains(
                #[trigger] spec_chunk_key(c),
            ),
{
    let around = spec_chunks_around(center, SUBSCRIBE_RADIUS as int);
    lemma_chunks_around(center, SUBSCRIBE_RADIUS);
    lemma_not_subscribed_members(around, subscribed, center);
    let candidates = not_subscribed(around, subscribed);
    let e = spec_entering(center, subscribed);
    let cap = MAX_SNAPSHOTS_PER_TICK as int;
    assert(forall|i: int| 0 <= i < e.len() ==> #[trigger] e[i] == candidates[i]);
    assert forall|i: int| 0 <= i < e.len() implies (#[trigger] e[i]).spec_distance(center)
        <= SUBSCRIBE_RADIUS && !subscribed.contains(spec_chunk_key(e[i])) by {
        assert(e[i] == candidates[i]);
        let k = choose|k: int| 0 <= k < around.len() && around[k] == candidates[i];
    }
    assert forall|i: int, j: int| 0 <= i < j < e.len() implies dist2(#[trigger] e[i], center)
        <= dist2(#[trigger] e[j], center) by {
        assert(e[i] == candidates[i] && e[j] == candidates[j]);
    }
    assert forall|i: int, j: int| 0 <= i < e.len() && 0 <= j < e.len() && i != j implies e[i]
        != e[j] by {
        assert(e[i] == candidates[i] && e[j] == candidates[j]);
    }
    if !subscribed.contains(spec_chunk_key(center)) {
        assert(e[0] == candidates[0]);
    }
    // A missing chunk within the radius is among the candidates; when fewer
    // than the cap are sent, the candidates are all sent.
    assert forall|c: ChunkCoord|
        c.spec_distance(center) <= SUBSCRIBE_RADIUS && !subscribed.contains(spec_chunk_key(c))
            implies #[trigger] candidates.contains(c) by {
        assert(around.contains(c));
        let k = choose|k: int| 0 <= k < around.len() && around[k] == c;
        assert(candidates.contains(around[k]));
    }
    if e.len() < cap {
        assert(e =~= candidates);
    }
    if e.len() == 0 {
        assert forall|c: ChunkCoord| c.spec_distance(center) <= SUBSCRIBE_RADIUS implies subscribed.contains(
            #[trigger] spec_chunk_key(c),
        ) by {
            if !subscribed.contains(spec_chunk_key(c)) {
                assert(candidates.contains(c));
            }
        }
    } else {
        let c = e[0];
        assert(c.spec_distance(center) <= SUBSCRIBE_RADIUS && !subscribed.contains(spec_chunk_key(c)));
    }
}

/// The keys a client is subscribed to after one tick at `center`: those of
/// chunks farther than [`UNSUBSCRIBE_RADIUS`] forgotten, those of the
/// entering chunks added.
pub open spec fn spec_after_tick(center: ChunkCoord, subscribed: Set<u64>) -> Set<u64> {
    subscribed.filter(
        |k: u64| spec_chunk_of_key(k).spec_distance(center) <= UNSUBSCRIBE_RADIUS,
    ).union(spec_entering(center, subscribed).map_values(|c: ChunkCoord| spec_chunk_key(c)).to_set())
}

/// Number of chunks within [`SUBSCRIBE_RADIUS`] of `center` the client is
/// not subscribed to.
pub open spec fn spec_missing(center: ChunkCoord, subscribed: Set<u64>) -> nat {
    not_subscribed(spec_chunks_around(center, SUBSCRIBE_RADIUS as int), subscribed).len()
}

/// Nine chunks lie within [`SUBSCRIBE_RADIUS`] of a chunk.
proof fn lemma_around_len(center: ChunkCoord)
    requires
        around_fits(center, SUBSCRIBE_RADIUS),
    ensures
        spec_chunks_around(center, SUBSCRIBE_RADIUS as int).len() == 9,
{
    lemma_chunks_around(center, SUBSCRIBE_RADIUS);
    let n = side(SUBSCRIBE_RADIUS as int);
    assert(n * n == 9) by (nonlinear_arith)
        requires n == 3;
}

/// One tick sends `min(missing, cap)` chunks, and leaves at least that many
/// fewer missing.
proof fn lemma_tick_progress(center: ChunkCoord, subscribed: Set<u64>)
    requires
        around_fits(center, SUBSCRIBE_RADIUS),
    ensures
        spec_entering(center, subscribed).len() == if spec_missing(center, subscribed)
            <= MAX_SNAPSHOTS_PER_TICK {
            spec_missing(center, subscribed)
        } else {
            MAX_SNAPSHOTS_PER_TICK as nat
        },
        spec_missing(center, spec_after_tick(center, subscribed)) + spec_entering(
            center,
            subscribed,
        ).len() <= spec_missing(center, subscribed),
{
    broadcast use vstd::seq_lib::seq_to_set_is_finite;

    let around = spec_chunks_around(center, SUBSCRIBE_RADIUS as int);
    let after = spec_after_tick(center, subscribed);
    lemma_chunks_around(center, SUBSCRIBE_RADIUS);
    lemma_not_subscribed_members(around, subscribed, center);
    lemma_not_subscribed_members(around, after, center);
    lemma_entering(center, subscribed);
    let candidates = not_subscribed(around, subscribed);
    let entering = spec_entering(center, subscribed);
    let still = not_subscribed(around, after);
    let keys = entering.map_values(|c: ChunkCoord| spec_chunk_key(c));
    assert(forall|i: int| 0 <= i < entering.len() ==> #[trigger] entering[i] == candidates[i]);
    let cs = candidates.to_set();
    let es = entering.to_set();
    let ns = still.to_set();
    assert(es.subset_of(cs)) by {
        assert forall|x: ChunkCoord| es.contains(x) implies cs.contains(x) by {
            let i = choose|i: int| 0 <= i < entering.len() && entering[i] == x;
            assert(candidates[i] == x);
        }
    }
    assert(ns.subset_of(cs.difference(es))) by {
        assert forall|x: ChunkCoord| ns.contains(x) implies cs.difference(es).contains(x) by {
            let i = choose|i: int| 0 <= i < still.len() && still[i] == x;
            assert(around.contains(still[i]));
            let j = choose|j: int| 0 <= j < around.len() && around[j] == x;
            assert(x.spec_distance(center) <= SUBSCRIBE_RADIUS);
            lemma_chunk_key_bijection(x, spec_chunk_key(x));
            assert(!after.contains(spec_chunk_key(x)));
            if subscribed.contains(spec_chunk_key(x)) {
                assert(spec_chunk_of_key(spec_chunk_key(x)) == x);
                assert(after.contains(spec_chunk_key(x)));
            }
            assert(candidates.contains(around[j]));
            if es.contains(x) {
                let m = choose|m: int| 0 <= m < entering.len() && entering[m] == x;
                assert(keys[m] == spec_chunk_key(x));
                assert(keys.to_set().contains(spec_chunk_key(x)));
                assert(after.contains(spec_chunk_key(x)));
            }
        }
    }
    candidates.unique_seq_to_set();
    entering.unique_seq_to_set();
    still.unique_seq_to_set();
    vstd::set::axiom_set_difference_finite(cs, es);
    vstd::set_lib::lemma_len_subset(ns, cs.difference(es));
    assert(es.disjoint(cs.difference(es)));
    vstd::set_lib::lemma_set_disjoint_lens(es, cs.difference(es));
    assert(es + cs.difference(es) =~= cs);
}

/// A client that stays in its chunk is subscribed to every chunk within
/// [`SUBSCRIBE_RADIUS`] after at most three ticks, whatever it was
/// subscribed to before, and nothing is sent at the fourth: the nine chunks
/// around a newcomer arrive over three ticks.
pub proof fn lemma_three_ticks_subscribe_all(center: ChunkCoord, subscribed: Set<u64>)
    requires
        around_fits(center, SUBSCRIBE_RADIUS),
    ensures
        forall|c: ChunkCoord|
            c.spec_distance(center) <= SUBSCRIBE_RADIUS ==> spec_after_tick(
                center,
                spec_after_tick(center, spec_after_tick(center, subscribed)),
            ).contains(#[trigger] spec_chunk_key(c)),
        spec_entering(
            center,
            spec_after_tick(center, spec_after_tick(center, spec_after_tick(center, subscribed))),
        ).len() == 0,
{
    let s1 = spec_after_tick(center, subscribed);
    let s2 = spec_after_tick(center, s1);
    let s3 = spec_after_tick(center, s2);
    lemma_around_len(center);
    lemma_not_subscribed_members(spec_chunks_around(center, SUBSCRIBE_RADIUS as int), subscribed, center);
    assert(spec_missing(center, subscribed) <= 9);
    lemma_tick_progress(center, subscribed);
    assert(spec_missing(center, s1) <= 5);
    lemma_tick_progress(center, s1);
    assert(spec_missing(center, s2) <= 1);
    lemma_tick_progress(center, s2);
    assert(spec_missing(center, s3) == 0);
    lemma_tick_progress(center, s3);
    lemma_entering(center, s3);
}

/// Hysteresis: a chunk within [`SUBSCRIBE_RADIUS`] of the player's chunk
/// stays within [`UNSUBSCRIBE_RADIUS`] of it when the player steps into a
/// neighbouring chunk, so a player walking along the border of a chunk never
/// gets chunks sent and withdrawn over and over.
pub proof fn lemma_hysteresis(chunk: ChunkCoord, from: ChunkCoord, to: ChunkCoord)
    requires
        chunk.spec_distance(from) <= SUBSCRIBE_RADIUS,
        to.spec_distance(from) <= 1,
    ensures
        chunk.spec_distance(to) <= UNSUBSCRIBE_RADIUS,
{
}

/// Every subscribed chunk is close enough to `center` for their distance to
/// be computed inside `i32`.
pub open spec fn distances_fit(subscribed: Set<u64>, center: ChunkCoord) -> bool {
    forall|k: u64| subscribed.contains(k) ==> (#[trigger] spec_chunk_of_key(k)).distance_fits(center)
}

/// Chunks to forget and chunks to send for a client centred on `center`.
///
/// The chunks to forget are exactly the subscribed ones farther than
/// [`UNSUBSCRIBE_RADIUS`], each once, in no particular order. The chunks to
/// send are sorted nearest first and capped at [`MAX_SNAPSHOTS_PER_TICK`].
pub fn subscription_changes(subscribed: &ChunkSubscriptions, center: ChunkCoord) -> (r: (
    Vec<ChunkCoord>,
    Vec<ChunkCoord>,
))
    requires
        distances_fit(subscribed@, center),
        around_fits(center, SUBSCRIBE_RADIUS),
    ensures
        r.0@.no_duplicates(),
        forall|c: ChunkCoord|
            r.0@.contains(c) <==> subscribed.spec_contains(c) && c.spec_distance(center)
                > UNSUBSCRIBE_RADIUS,
        r.1@ == spec_entering(center, subscribed@),
{
    let all = subscribed.chunks();
    let mut leaving: Vec<ChunkCoord> = Vec::new();
    let mut i: usize = 0;
    while i < all.len()
        invariant
            i <= all@.len(),
            all@.no_duplicates(),
            forall|c: ChunkCoord| all@.contains(c) <==> subscribed.spec_contains(c),
            distances_fit(subscribed@, center),
            leaving@.no_duplicates(),
            forall|c: ChunkCoord|
                leaving@.contains(c) <==> all@.take(i as int).contains(c) && c.spec_distance(center)
                    > UNSUBSCRIBE_RADIUS,
        decreases all@.len() - i,
    {
        let chunk = all[i];
        let ghost before = leaving@;
        proof {
            assert(all@.contains(chunk));
            assert(subscribed.spec_contains(chunk));
            lemma_chunk_key_bijection(chunk, 0);
            assert(spec_chunk_of_key(spec_chunk_key(chunk)) == chunk);
            assert(all@.take(i + 1) =~= all@.take(i as int).push(chunk));
            assert(!all@.take(i as int).contains(chunk)) by {
                if all@.take(i as int).contains(chunk) {
                    let prefix = all@.take(i as int);
                    let j = choose|j: int| 0 <= j < prefix.len() && #[trigger] prefix[j] == chunk;
                    assert(all@[j] == all@[i as int]);
                }
            }
            assert(!before.contains(chunk));
        }
        if chunk.distance(center) > UNSUBSCRIBE_RADIUS {
            leaving.push(chunk);
            proof {
                assert forall|a: int, b: int|
                    0 <= a < leaving@.len() && 0 <= b < leaving@.len() && a != b implies leaving@[a]
                    != leaving@[b] by {
                    if a < before.len() && b < before.len() {
                        assert(before[a] != before[b]);
                    } else if a < before.len() {
                        assert(before.contains(before[a]));
                    } else {
                        assert(before.contains(before[b]));
                    }
                }
            }
        }
        proof {
            assert forall|c: ChunkCoord|
                leaving@.contains(c) <==> all@.take(i + 1).contains(c) && c.spec_distance(center)
                    > UNSUBSCRIBE_RADIUS by {
                if c == chunk {
                    assert(all@.take(i + 1)[i as int] == chunk);
                    if chunk.spec_distance(center) > UNSUBSCRIBE_RADIUS {
                        assert(leaving@[leaving@.len() - 1] == chunk);
                    } else {
                        assert(leaving@ == before);
                    }
                } else {
                    if all@.take(i + 1).contains(c) {
                        let prefix = all@.take(i + 1);
                        let j = choose|j: int| 0 <= j < prefix.len() && #[trigger] prefix[j] == c;
                        assert(all@.take(i as int)[j] == c);
                    }
                    if leaving@.contains(c) {
                        let j = choose|j: int| 0 <= j < leaving@.len() && leaving@[j] == c;
                        if j < before.len() {
                            assert(before[j] == c);
                        }
                    }
                    if before.contains(c) {
                        let j = choose|j: int| 0 <= j < before.len() && before[j] == c;
                        assert(leaving@[j] == c);
                    }
                }
            }
        }
        i = i + 1;
    }
    proof {
        assert(all@.take(all@.len() as int) =~= all@);
    }
    let around = chunks_around(center, SUBSCRIBE_RADIUS);
    let mut entering: Vec<ChunkCoord> = Vec::new();
    let mut j: usize = 0;
    while j < around.len() && entering.len() < MAX_SNAPSHOTS_PER_TICK
        invariant
            j <= around@.len(),
            around@ == spec_chunks_around(center, SUBSCRIBE_RADIUS as int),
            entering@ == not_subscribed(around@.take(j as int), subscribed@),
            entering@.len() <= MAX_SNAPSHOTS_PER_TICK,
        decreases around@.len() - j,
    {
        let chunk = around[j];
        proof {
            assert(around@.take(j + 1).drop_last() =~= around@.take(j as int));
            assert(around@.take(j + 1).last() == chunk);
        }
        if !subscribed.contains(chunk) {
            entering.push(chunk);
        }
        j = j + 1;
    }
    proof {
        lemma_not_subscribed_prefix(around@, subscribed@, j as int);
        if j == around@.len() {
            assert(around@.take(j as int) =~= around@);
        }
    }
    (leaving, entering)
}

/// Dropping subscribed chunks from a prefix gives a prefix of what dropping
/// them from the whole gives; once the prefix yields `n` chunks, so does
/// every longer one, the first `n` being the same.
proof fn lemma_not_subscribed_prefix(s: Seq<ChunkCoord>, subscribed: Set<u64>, j: int)
    requires
        0 <= j <= s.len(),
    ensures
        not_subscribed(s.take(j), subscribed).len() <= not_subscribed(s, subscribed).len(),
        not_subscribed(s.take(j), subscribed) == not_subscribed(s, subscribed).take(
            not_subscribed(s.take(j), subscribed).len() as int,
        ),
    decreases s.len() - j,
{
    if j == s.len() {
        assert(s.take(j) =~= s);
        assert(not_subscribed(s, subscribed).take(not_subscribed(s, subscribed).len() as int)
            =~= not_subscribed(s, subscribed));
    } else {
        lemma_not_subscribed_prefix(s, subscribed, j + 1);
        let shorter = not_subscribed(s.take(j), subscribed);
        let longer = not_subscribed(s.take(j + 1), subscribed);
        assert(s.take(j + 1).drop_last() =~= s.take(j));
        let whole = not_subscribed(s, subscribed);
        if subscribed.contains(spec_chunk_key(s[j])) {
            assert(longer == shorter);
        } else {
            assert(longer == shorter.push(s[j]));
            assert(longer.take(shorter.len() as int) =~= shorter);
            assert(whole.take(longer.len() as int).take(shorter.len() as int) =~= whole.take(
                shorter.len() as int,
            ));
        }
    }
}

} // verus!

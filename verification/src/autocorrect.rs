//! Suggestions for mistyped words: the distance between two keys of a
//! keyboard, a weighted edit distance between two words, and the closest of
//! a set of candidates.

use crate::text::{ascii_lower, chars_of, is_ascii_letter, is_letter, to_lower};
use vstd::prelude::*;

verus! {

/// A layout as text: for each key, in the order of the characters, the keys
/// next to it.
pub open spec fn layout_view<const N: usize, const P: usize>(layout: &[[char; P]; N]) -> Seq<
    Seq<char>,
> {
    Seq::new(N as nat, |i: int| layout@[i]@)
}

/// The first key of a layout: the least of its characters, and `z` where
/// all of them come after it.
pub open spec fn is_first_key(g: Seq<Seq<char>>, first: u32) -> bool {
    &&& first <= 'z' as u32
    &&& forall|i: int, j: int|
        0 <= i < g.len() && 0 <= j < g[i].len() ==> first <= (#[trigger] g[i][j]) as u32
    &&& first == 'z' as u32 || exists|i: int, j: int|
        0 <= i < g.len() && 0 <= j < g[i].len() && first == (#[trigger] g[i][j]) as u32
}

/// The place of a character's key, counted from the first key.
pub open spec fn key_index(first: u32, c: char) -> int {
    (c as u32) as int - first as int
}

/// Key `b` is next to key `a`: the layout names it among the neighbours of
/// `a`. Keys are counted from the first key.
pub open spec fn edge(g: Seq<Seq<char>>, first: u32, a: int, b: int) -> bool {
    &&& 0 <= a < g.len()
    &&& 0 <= b < g.len()
    &&& exists|j: int| 0 <= j < g[a].len() && key_index(first, #[trigger] g[a][j]) == b
}

/// Key `b` is at most `k` steps from key `a`, each step from a key to one
/// next to it.
pub open spec fn reach(g: Seq<Seq<char>>, first: u32, a: int, b: int, k: nat) -> bool
    decreases k,
{
    if k == 0 {
        a == b
    } else {
        reach(g, first, a, b, (k - 1) as nat) || exists|m: int|
            reach(g, first, a, m, (k - 1) as nat) && #[trigger] edge(g, first, m, b)
    }
}

/// `d` is the distance from key `a` to key `b`: the least number of steps
/// that lead from `a` to `b`, and the largest number there is where no
/// steps lead there.
pub open spec fn is_distance(g: Seq<Seq<char>>, first: u32, a: int, b: int, d: usize) -> bool {
    if d == usize::MAX {
        forall|k: nat| !reach(g, first, a, b, k)
    } else {
        reach(g, first, a, b, d as nat) && (d == 0 || !reach(g, first, a, b, (d - 1) as nat))
    }
}

/// What is within some steps is within more steps.
pub proof fn reach_grows(g: Seq<Seq<char>>, first: u32, a: int, b: int, k: nat, more: nat)
    requires
        reach(g, first, a, b, k),
        k <= more,
    ensures
        reach(g, first, a, b, more),
    decreases more,
{
    if k < more {
        reach_grows(g, first, a, b, k, (more - 1) as nat);
    }
}

/// One step more leads to the keys next to what is within reach.
pub proof fn reach_step(g: Seq<Seq<char>>, first: u32, a: int, m: int, b: int, k: nat)
    requires
        reach(g, first, a, m, k),
        edge(g, first, m, b),
    ensures
        reach(g, first, a, b, k + 1),
{
    let next: nat = (k + 1) as nat;
    assert((next - 1) as nat == k);
    assert(reach(g, first, a, m, (next - 1) as nat) && edge(g, first, m, b));
    assert(reach(g, first, a, b, next));
}

/// What is within `k + 1` steps is within `k` steps, or next to a key that
/// is.
pub proof fn reach_last_step(g: Seq<Seq<char>>, first: u32, a: int, b: int, k: nat) -> (m: int)
    requires
        reach(g, first, a, b, k + 1),
        !reach(g, first, a, b, k),
    ensures
        reach(g, first, a, m, k),
        edge(g, first, m, b),
{
    let next: nat = (k + 1) as nat;
    assert((next - 1) as nat == k);
    assert(reach(g, first, a, b, next));
    choose|m: int| reach(g, first, a, m, (next - 1) as nat) && #[trigger] edge(g, first, m, b)
}

/// The distances from one key, as far as they are known after some rounds:
/// each is the least number of steps, and none is above `bound`.
spec fn exact(g: Seq<Seq<char>>, first: u32, s: int, dist: Seq<usize>, bound: nat) -> bool {
    forall|v: int|
        0 <= v < dist.len() && #[trigger] dist[v] != usize::MAX ==> dist[v] <= bound && reach(
            g,
            first,
            s,
            v,
            dist[v] as nat,
        ) && (dist[v] == 0 || !reach(g, first, s, v, (dist[v] - 1) as nat))
}

/// Every key within `k` steps has its distance.
spec fn complete(g: Seq<Seq<char>>, first: u32, s: int, dist: Seq<usize>, k: nat) -> bool {
    forall|v: int| 0 <= v < dist.len() && #[trigger] reach(g, first, s, v, k) ==> dist[v] != usize::MAX
}

/// The number of keys without a distance.
spec fn unvisited(dist: Seq<usize>) -> nat
    decreases dist.len(),
{
    if dist.len() == 0 {
        0
    } else {
        unvisited(dist.drop_last()) + if dist.last() == usize::MAX {
            1nat
        } else {
            0nat
        }
    }
}

proof fn unvisited_all(dist: Seq<usize>)
    requires
        forall|i: int| 0 <= i < dist.len() ==> dist[i] == usize::MAX,
    ensures
        unvisited(dist) == dist.len(),
    decreases dist.len(),
{
    if dist.len() > 0 {
        unvisited_all(dist.drop_last());
    }
}

proof fn unvisited_some(dist: Seq<usize>, w: int)
    requires
        0 <= w < dist.len(),
        dist[w] == usize::MAX,
    ensures
        unvisited(dist) >= 1,
    decreases dist.len(),
{
    if w < dist.len() - 1 {
        unvisited_some(dist.drop_last(), w);
    }
}

proof fn unvisited_less(dist: Seq<usize>, w: int, d: usize)
    requires
        0 <= w < dist.len(),
        dist[w] == usize::MAX,
        d != usize::MAX,
    ensures
        unvisited(dist) >= 1,
        unvisited(dist.update(w, d)) == unvisited(dist) - 1,
    decreases dist.len(),
{
    if w == dist.len() - 1 {
        assert(dist.update(w, d).drop_last() == dist.drop_last());
    } else {
        unvisited_less(dist.drop_last(), w, d);
        assert(dist.update(w, d).drop_last() == dist.drop_last().update(w, d));
    }
}

/// Once a round finds no new key, no number of steps leads to a key
/// without a distance.
proof fn closed_under_steps(
    g: Seq<Seq<char>>,
    first: u32,
    s: int,
    dist: Seq<usize>,
    k: nat,
    j: nat,
)
    requires
        exact(g, first, s, dist, k),
        complete(g, first, s, dist, k + 1),
        dist.len() == g.len(),
        0 <= s < g.len(),
    ensures
        complete(g, first, s, dist, j),
    decreases j,
{
    if j <= k + 1 {
        assert forall|v: int| 0 <= v < dist.len() && #[trigger] reach(g, first, s, v, j) implies dist[v]
            != usize::MAX by {
            reach_grows(g, first, s, v, j, k + 1);
        }
    } else {
        closed_under_steps(g, first, s, dist, k, (j - 1) as nat);
        assert forall|v: int| 0 <= v < dist.len() && #[trigger] reach(g, first, s, v, j) implies dist[v]
            != usize::MAX by {
            if !reach(g, first, s, v, (j - 1) as nat) {
                let m = reach_last_step(g, first, s, v, (j - 1) as nat);
                assert(dist[m] != usize::MAX);
                reach_grows(g, first, s, m, dist[m] as nat, k);
                reach_step(g, first, s, m, v, k);
            }
        }
    }
}

/// The least character of a layout, and `z` where all come after it.
fn first_key<const N: usize, const P: usize>(layout: &[[char; P]; N]) -> (first: u32)
    ensures
        is_first_key(layout_view(layout), first),
{
    let ghost g = layout_view(layout);
    let mut smallest: u32 = 'z' as u32;
    let mut i: usize = 0;
    while i < N
        invariant
            i <= N,
            g == layout_view(layout),
            smallest <= 'z' as u32,
            forall|a: int, b: int|
                0 <= a < i && 0 <= b < g[a].len() ==> smallest <= (#[trigger] g[a][b]) as u32,
            smallest == 'z' as u32 || exists|a: int, b: int|
                0 <= a < g.len() && 0 <= b < g[a].len() && smallest == (#[trigger] g[a][b]) as u32,
        decreases N - i,
    {
        let mut j: usize = 0;
        while j < P
            invariant
                i < N,
                j <= P,
                g == layout_view(layout),
                smallest <= 'z' as u32,
                forall|a: int, b: int|
                    0 <= a < i && 0 <= b < g[a].len() ==> smallest <= (#[trigger] g[a][b]) as u32,
                forall|b: int| 0 <= b < j ==> smallest <= (#[trigger] g[i as int][b]) as u32,
                smallest == 'z' as u32 || exists|a: int, b: int|
                    0 <= a < g.len() && 0 <= b < g[a].len() && smallest == (#[trigger] g[a][b]) as u32,
            decreases P - j,
        {
            let c = layout[i][j];
            assert(g[i as int][j as int] == c);
            assert(g[i as int].len() == P);
            if (c as u32) < smallest {
                smallest = c as u32;
            }
            j += 1;
        }
        i += 1;
    }
    smallest
}

/// The distances from one key to every key.
fn distances_from<const N: usize, const P: usize>(
    layout: &[[char; P]; N],
    first: u32,
    start: usize,
) -> (dist: Vec<usize>)
    requires
        start < N,
        is_first_key(layout_view(layout), first),
    ensures
        dist@.len() == N,
        forall|v: int|
            0 <= v < N ==> is_distance(layout_view(layout), first, start as int, v, #[trigger] dist@[v]),
{
    let ghost g = layout_view(layout);
    let ghost s = start as int;
    let mut dist: Vec<usize> = Vec::new();
    let mut i: usize = 0;
    while i < N
        invariant
            i <= N,
            dist@.len() == i,
            forall|v: int| 0 <= v < i ==> dist@[v] == usize::MAX,
        decreases N - i,
    {
        dist.push(usize::MAX);
        i += 1;
    }
    proof {
        unvisited_all(dist@);
        unvisited_less(dist@, s, 0);
    }
    dist.set(start, 0);
    let mut left: usize = N - 1;
    let mut k: usize = 0;
    loop
        invariant_except_break
            k + left < N,
        invariant
            start < N,
            s == start as int,
            g == layout_view(layout),
            is_first_key(g, first),
            dist@.len() == N,
            left == unvisited(dist@),
            exact(g, first, s, dist@, k as nat),
            complete(g, first, s, dist@, k as nat),
        ensures
            complete(g, first, s, dist@, (k + 1) as nat),
        decreases left,
    {
        let ghost before = dist@;
        let ghost left_before = left;
        let mut changed = false;
        let mut u: usize = 0;
        while u < N
            invariant
                u <= N,
                start < N,
                s == start as int,
                g == layout_view(layout),
                is_first_key(g, first),
                dist@.len() == N,
                before.len() == N,
                left == unvisited(dist@),
                left <= left_before,
                k + left_before < N,
                changed ==> left < left_before,
                !changed ==> dist@ == before,
                exact(g, first, s, before, k as nat),
                complete(g, first, s, before, k as nat),
                exact(g, first, s, dist@, (k + 1) as nat),
                forall|v: int| 0 <= v < N && before[v] != usize::MAX ==> #[trigger] dist@[v] == before[v],
                forall|v: int|
                    0 <= v < N && before[v] == usize::MAX ==> #[trigger] dist@[v] == usize::MAX
                        || dist@[v] == k + 1,
                forall|a: int, w: int|
                    0 <= a < u && before[a] == k && #[trigger] edge(g, first, a, w) ==> dist@[w]
                        != usize::MAX,
            decreases N - u,
        {
            if dist[u] == k {
                assert(before[u as int] == k);
                let mut j: usize = 0;
                while j < P
                    invariant
                        u < N,
                        j <= P,
                        start < N,
                        s == start as int,
                        g == layout_view(layout),
                        is_first_key(g, first),
                        dist@.len() == N,
                        before.len() == N,
                        before[u as int] == k,
                        left == unvisited(dist@),
                        left <= left_before,
                        k + left_before < N,
                        changed ==> left < left_before,
                        !changed ==> dist@ == before,
                        exact(g, first, s, before, k as nat),
                        complete(g, first, s, before, k as nat),
                        exact(g, first, s, dist@, (k + 1) as nat),
                        forall|v: int|
                            0 <= v < N && before[v] != usize::MAX ==> #[trigger] dist@[v] == before[v],
                        forall|v: int|
                            0 <= v < N && before[v] == usize::MAX ==> #[trigger] dist@[v]
                                == usize::MAX || dist@[v] == k + 1,
                        forall|a: int, w: int|
                            0 <= a < u && before[a] == k && #[trigger] edge(g, first, a, w)
                                ==> dist@[w] != usize::MAX,
                        forall|b: int|
                            0 <= b < j && 0 <= key_index(first, #[trigger] g[u as int][b]) < N
                                ==> dist@[key_index(first, g[u as int][b])] != usize::MAX,
                    decreases P - j,
                {
                    let c = layout[u][j];
                    assert(g[u as int][j as int] == c);
                    assert(g[u as int].len() == P);
                    let at: u32 = c as u32 - first;
                    if (at as usize) < N {
                        let w: usize = at as usize;
                        if dist[w] == usize::MAX {
                            proof {
                                unvisited_some(dist@, w as int);
                                unvisited_less(dist@, w as int, (k + 1) as usize);
                                assert(key_index(first, g[u as int][j as int]) == w);
                                assert(edge(g, first, u as int, w as int));
                                assert(reach(g, first, s, u as int, k as nat));
                                reach_step(g, first, s, u as int, w as int, k as nat);
                                assert(before[w as int] == usize::MAX);
                                assert(!reach(g, first, s, w as int, k as nat));
                            }
                            dist.set(w, k + 1);
                            left = left - 1;
                            changed = true;
                        }
                    }
                    j += 1;
                }
                assert forall|w: int| #[trigger] edge(g, first, u as int, w) implies dist@[w]
                    != usize::MAX by {
                    let b = choose|b: int|
                        0 <= b < g[u as int].len() && key_index(first, #[trigger] g[u as int][b])
                            == w;
                    assert(0 <= key_index(first, g[u as int][b]) < N);
                }
            }
            u += 1;
        }
        assert(complete(g, first, s, dist@, (k + 1) as nat)) by {
            assert forall|v: int| 0 <= v < N && #[trigger] reach(g, first, s, v, (k + 1) as nat) implies dist@[v]
                != usize::MAX by {
                if reach(g, first, s, v, k as nat) {
                    assert(before[v] != usize::MAX);
                } else {
                    let m = reach_last_step(g, first, s, v, k as nat);
                    assert(before[m] != usize::MAX);
                    if before[m] < k {
                        reach_step(g, first, s, m, v, before[m] as nat);
                        reach_grows(g, first, s, v, (before[m] + 1) as nat, k as nat);
                    }
                }
            }
        }
        if !changed {
            break;
        }
        k = k + 1;
    }
    proof {
        assert forall|v: int| 0 <= v < N implies is_distance(g, first, s, v, #[trigger] dist@[v]) by {
            if dist@[v] == usize::MAX {
                assert forall|j: nat| !reach(g, first, s, v, j) by {
                    closed_under_steps(g, first, s, dist@, k as nat, j);
                }
            }
        }
    }
    dist
}

/// The distances between the keys of a keyboard.
pub struct KeyBoard<const N: usize, const P: usize> {
    distance_map: Vec<Vec<usize>>,
    first_char: u32,
}

impl<const N: usize, const P: usize> KeyBoard<N, P> {
    #[verifier::type_invariant]
    closed spec fn sized(&self) -> bool {
        &&& self.distance_map@.len() == N
        &&& forall|i: int| 0 <= i < N ==> (#[trigger] self.distance_map@[i])@.len() == N
    }

    /// The character of the first key.
    pub closed spec fn first(&self) -> u32 {
        self.first_char
    }

    /// The distance from one key to another, the keys counted from the
    /// first.
    pub closed spec fn distance(&self, a: int, b: int) -> usize {
        self.distance_map@[a]@[b]
    }

    /// The key of a character: that of its small letter, where the
    /// character is an ASCII letter and the keyboard has that key.
    pub open spec fn key_of(&self, c: char) -> Option<int> {
        let at = key_index(self.first(), ascii_lower(c));
        if is_ascii_letter(c) && 0 <= at < N {
            Some(at)
        } else {
            None
        }
    }

    /// The distance between the keys of two characters, where both have a
    /// key; what is too large for the result counts as the largest number.
    pub open spec fn looked_up(&self, a: char, b: char) -> Option<u32> {
        match (self.key_of(a), self.key_of(b)) {
            (Some(x), Some(y)) => Some(
                if self.distance(x, y) > u32::MAX {
                    u32::MAX
                } else {
                    self.distance(x, y) as u32
                },
            ),
            _ => None,
        }
    }

    /// The distance between the keys of two characters.
    pub fn lookup(&self, a: char, b: char) -> (r: Option<u32>)
        ensures
            r == self.looked_up(a, b),
    {
        proof {
            use_type_invariant(self);
        }
        if !is_letter(a) || !is_letter(b) {
            return None;
        }
        let x = to_lower(a) as u32;
        let y = to_lower(b) as u32;
        if x < self.first_char || y < self.first_char {
            return None;
        }
        let x = x - self.first_char;
        let y = y - self.first_char;
        if x as usize >= N || y as usize >= N {
            return None;
        }
        let d = self.distance_map[x as usize][y as usize];
        if d > u32::MAX as usize {
            Some(u32::MAX)
        } else {
            Some(d as u32)
        }
    }

    /// The keyboard of a layout, which names for each key, in the order of
    /// the characters, the keys next to it. The first key is that of the
    /// least character; a neighbour beyond the last key is passed over.
    /// The distance from a key to a key is the least number of steps from
    /// neighbour to neighbour that lead from the one to the other.
    pub fn new(layout: &[[char; P]; N]) -> (kb: Self)
        ensures
            is_first_key(layout_view(layout), kb.first()),
            forall|a: int, b: int|
                0 <= a < N && 0 <= b < N ==> is_distance(
                    layout_view(layout),
                    kb.first(),
                    a,
                    b,
                    #[trigger] kb.distance(a, b),
                ),
    {
        let first = first_key(layout);
        let mut distances: Vec<Vec<usize>> = Vec::new();
        let mut start: usize = 0;
        while start < N
            invariant
                start <= N,
                is_first_key(layout_view(layout), first),
                distances@.len() == start,
                forall|a: int| 0 <= a < start ==> (#[trigger] distances@[a])@.len() == N,
                forall|a: int, b: int|
                    0 <= a < start && 0 <= b < N ==> is_distance(
                        layout_view(layout),
                        first,
                        a,
                        b,
                        #[trigger] distances@[a]@[b],
                    ),
            decreases N - start,
        {
            let row = distances_from(layout, first, start);
            distances.push(row);
            start += 1;
        }
        KeyBoard { distance_map: distances, first_char: first }
    }
}

/// A usual keyboard: for each letter from `a` to `z`, six keys next to it.
pub open spec fn qwerty_keys() -> Seq<Seq<char>> {
    seq![
        seq!['q', 'w', 's', 'z', 'x', 'x'],
        seq!['g', 'h', 'v', 'n', 'n', 'n'],
        seq!['x', 'd', 'f', 'v', 'v', 'v'],
        seq!['s', 'e', 'r', 'f', 'c', 'x'],
        seq!['r', 'w', 's', 'd', 'f', 'f'],
        seq!['r', 'd', 'g', 't', 'c', 'v'],
        seq!['t', 'y', 'h', 'b', 'v', 'f'],
        seq!['g', 'y', 'u', 'j', 'n', 'b'],
        seq!['u', 'j', 'k', 'l', 'o', 'o'],
        seq!['h', 'u', 'i', 'k', 'm', 'n'],
        seq!['j', 'i', 'o', 'l', 'm', 'm'],
        seq!['p', 'o', 'k', 'm', 'm', 'm'],
        seq!['n', 'j', 'k', 'l', 'l', 'l'],
        seq!['b', 'h', 'j', 'k', 'm', 'm'],
        seq!['i', 'p', 'k', 'l', 'l', 'l'],
        seq!['o', 'l', 'l', 'l', 'l', 'l'],
        seq!['a', 'a', 'a', 'a', 's', 'w'],
        seq!['e', 'd', 'f', 'g', 't', 't'],
        seq!['a', 'w', 'e', 'd', 'x', 'z'],
        seq!['f', 'g', 'h', 'y', 'r', 'r'],
        seq!['y', 'h', 'j', 'k', 'i', 'i'],
        seq!['c', 'f', 'g', 'b', 'b', 'b'],
        seq!['q', 'a', 's', 'd', 'e', 'e'],
        seq!['z', 's', 'd', 'c', 'c', 'c'],
        seq!['t', 'g', 'h', 'j', 'u', 'u'],
        seq!['a', 's', 'x', 'x', 'x', 'x'],
    ]
}

/// The layout of the usual keyboard.
pub fn qwerty() -> (layout: [[char; 6]; 26])
    ensures
        layout_view(&layout) == qwerty_keys(),
{
    let layout = [
        ['q', 'w', 's', 'z', 'x', 'x'],
        ['g', 'h', 'v', 'n', 'n', 'n'],
        ['x', 'd', 'f', 'v', 'v', 'v'],
        ['s', 'e', 'r', 'f', 'c', 'x'],
        ['r', 'w', 's', 'd', 'f', 'f'],
        ['r', 'd', 'g', 't', 'c', 'v'],
        ['t', 'y', 'h', 'b', 'v', 'f'],
        ['g', 'y', 'u', 'j', 'n', 'b'],
        ['u', 'j', 'k', 'l', 'o', 'o'],
        ['h', 'u', 'i', 'k', 'm', 'n'],
        ['j', 'i', 'o', 'l', 'm', 'm'],
        ['p', 'o', 'k', 'm', 'm', 'm'],
        ['n', 'j', 'k', 'l', 'l', 'l'],
        ['b', 'h', 'j', 'k', 'm', 'm'],
        ['i', 'p', 'k', 'l', 'l', 'l'],
        ['o', 'l', 'l', 'l', 'l', 'l'],
        ['a', 'a', 'a', 'a', 's', 'w'],
        ['e', 'd', 'f', 'g', 't', 't'],
        ['a', 'w', 'e', 'd', 'x', 'z'],
        ['f', 'g', 'h', 'y', 'r', 'r'],
        ['y', 'h', 'j', 'k', 'i', 'i'],
        ['c', 'f', 'g', 'b', 'b', 'b'],
        ['q', 'a', 's', 'd', 'e', 'e'],
        ['z', 's', 'd', 'c', 'c', 'c'],
        ['t', 'g', 'h', 'j', 'u', 'u'],
        ['a', 's', 'x', 'x', 'x', 'x'],
    ];
    proof {
        let g = layout_view(&layout);
        assert(g.len() == qwerty_keys().len());
        assert forall|i: int| 0 <= i < 26 implies g[i] == qwerty_keys()[i] by {
            assert(g[i] =~= qwerty_keys()[i]);
        }
        assert(g =~= qwerty_keys());
    }
    layout
}

/// The distances between the keys of the usual keyboard, whose first key is
/// `a`.
pub fn build_keyboard_distances() -> (kb: KeyBoard<26, 6>)
    ensures
        kb.first() == 'a' as u32,
        forall|a: int, b: int|
            0 <= a < 26 && 0 <= b < 26 ==> is_distance(
                qwerty_keys(),
                kb.first(),
                a,
                b,
                #[trigger] kb.distance(a, b),
            ),
{
    let keyboard = qwerty();
    let kb = KeyBoard::new(&keyboard);
    proof {
        let g = qwerty_keys();
        assert(g[16][0] == 'a');
        assert(kb.first() <= g[16][0] as u32);
        assert forall|i: int, j: int| 0 <= i < g.len() && 0 <= j < g[i].len() implies 'a' as u32
            <= (#[trigger] g[i][j]) as u32 by {
            assert(g[i].len() == 6);
        }
    }
    kb
}

/// What a step between the keys of two letters costs: their distance, and
/// nothing where a letter has no key.
pub open spec fn key_cost<const N: usize, const P: usize>(
    kb: &KeyBoard<N, P>,
    a: char,
    b: char,
) -> nat {
    match kb.looked_up(a, b) {
        Some(d) => d as nat,
        None => 0,
    }
}

/// The least of three numbers.
pub open spec fn least(a: nat, b: nat, c: nat) -> nat {
    if a <= b && a <= c {
        a
    } else if b <= c {
        b
    } else {
        c
    }
}

/// What it costs to change `key` into `candidate`. Where one of them has
/// ended, each character that is left costs 8. Equal first characters cost
/// nothing. A first character that is no ASCII letter is passed over, that
/// of `key` before that of `candidate`. Else it is the least of: leaving out
/// the first character of `key`, for 8; putting in the first character of
/// `candidate`, for 8; and changing the one into the other, for the distance
/// between their keys.
pub open spec fn closeness<const N: usize, const P: usize>(
    kb: &KeyBoard<N, P>,
    key: Seq<char>,
    candidate: Seq<char>,
) -> nat
    decreases key.len() + candidate.len(),
{
    if key.len() == 0 || candidate.len() == 0 {
        8 * (key.len() + candidate.len())
    } else if key[0] == candidate[0] {
        closeness(kb, key.skip(1), candidate.skip(1))
    } else if !is_ascii_letter(key[0]) {
        closeness(kb, key.skip(1), candidate)
    } else if !is_ascii_letter(candidate[0]) {
        closeness(kb, key, candidate.skip(1))
    } else {
        least(
            closeness(kb, key.skip(1), candidate) + 8,
            closeness(kb, key, candidate.skip(1)) + 8,
            closeness(kb, key.skip(1), candidate.skip(1)) + key_cost(kb, key[0], candidate[0]),
        )
    }
}

/// The cost is never more than that of leaving out all of the one and
/// putting in all of the other.
pub proof fn closeness_bound<const N: usize, const P: usize>(
    kb: &KeyBoard<N, P>,
    key: Seq<char>,
    candidate: Seq<char>,
)
    ensures
        closeness(kb, key, candidate) <= 8 * (key.len() + candidate.len()),
    decreases key.len() + candidate.len(),
{
    if key.len() > 0 && candidate.len() > 0 {
        closeness_bound(kb, key.skip(1), candidate.skip(1));
        closeness_bound(kb, key.skip(1), candidate);
        closeness_bound(kb, key, candidate.skip(1));
    }
}

/// To change a word into itself costs nothing, and to change nothing into a
/// word costs 8 for each of its characters.
pub proof fn closeness_of_equal_and_empty<const N: usize, const P: usize>(
    kb: &KeyBoard<N, P>,
    s: Seq<char>,
)
    ensures
        closeness(kb, s, s) == 0,
        closeness(kb, Seq::empty(), s) == 8 * s.len(),
    decreases s.len(),
{
    if s.len() > 0 {
        closeness_of_equal_and_empty(kb, s.skip(1));
    }
}

/// The words that are short enough for the cost between them to be counted.
pub open spec fn countable(key: Seq<char>, candidate: Seq<char>) -> bool {
    8 * (key.len() + candidate.len()) <= u32::MAX
}

fn closeness_from<const N: usize, const P: usize>(
    kb: &KeyBoard<N, P>,
    key: &Vec<char>,
    i: usize,
    candidate: &Vec<char>,
    j: usize,
) -> (r: u32)
    requires
        i <= key.len(),
        j <= candidate.len(),
        countable(key@, candidate@),
    ensures
        r == closeness(kb, key@.skip(i as int), candidate@.skip(j as int)),
    decreases key.len() - i + candidate.len() - j,
{
    let ghost k = key@.skip(i as int);
    let ghost c = candidate@.skip(j as int);
    proof {
        closeness_bound(kb, k, c);
    }
    if i == key.len() || j == candidate.len() {
        return (8 * ((key.len() - i) + (candidate.len() - j))) as u32;
    }
    assert(k.skip(1) == key@.skip(i + 1));
    assert(c.skip(1) == candidate@.skip(j + 1));
    let key_c = key[i];
    let match_c = candidate[j];
    if key_c == match_c {
        return closeness_from(kb, key, i + 1, candidate, j + 1);
    }
    if !is_letter(key_c) {
        return closeness_from(kb, key, i + 1, candidate, j);
    }
    if !is_letter(match_c) {
        return closeness_from(kb, key, i, candidate, j + 1);
    }
    proof {
        closeness_bound(kb, k.skip(1), c);
        closeness_bound(kb, k, c.skip(1));
        closeness_bound(kb, k.skip(1), c.skip(1));
    }
    let delete_cost: u32 = closeness_from(kb, key, i + 1, candidate, j) + 8;
    let insert_cost: u32 = closeness_from(kb, key, i, candidate, j + 1) + 8;
    let step: u32 = match kb.lookup(key_c, match_c) {
        Some(d) => d,
        None => 0,
    };
    let replace_cost: u64 = closeness_from(kb, key, i + 1, candidate, j + 1) as u64 + step as u64;
    if delete_cost <= insert_cost && delete_cost as u64 <= replace_cost {
        delete_cost
    } else if insert_cost as u64 <= replace_cost {
        insert_cost
    } else {
        replace_cost as u32
    }
}

/// What it costs to change `key` into `matcher`: the less, the closer.
pub fn degree_of_closeness<const N: usize, const P: usize>(
    kb: &KeyBoard<N, P>,
    key: &str,
    matcher: &str,
) -> (r: u32)
    requires
        countable(key@, matcher@),
    ensures
        r == closeness(kb, key@, matcher@),
{
    let k = chars_of(key);
    let m = chars_of(matcher);
    assert(k@.skip(0) == k@);
    assert(m@.skip(0) == m@);
    closeness_from(kb, &k, 0, &m, 0)
}

/// The longest word whose cost to any word as long can be counted.
pub const LONGEST: usize = 0x0FFF_FFFF;

/// The sets of words that a suggestion is taken from.
pub enum Token<'a> {
    /// The operators.
    Operator,
    /// The words that start a modifier.
    Modifier,
    /// The modifiers.
    DataModifier,
    /// The names of the tables, in the order in which they were created.
    Table(&'a Vec<String>),
}

/// The texts that strings hold.
pub open spec fn texts(v: Seq<String>) -> Seq<Seq<char>> {
    v.map_values(|s: String| s@)
}

/// The words of each set, in their order.
pub open spec fn candidates(token_type: Token) -> Seq<Seq<char>> {
    match token_type {
        Token::Operator => seq!["create"@, "add_row"@, "headers"@, "apply"@, "view"@],
        Token::Modifier => seq!["with"@, "and"@],
        Token::DataModifier => seq!["title"@],
        Token::Table(names) => texts(names@),
    }
}

/// The candidate at `at` is the closest to a word, and the first of those
/// that are as close.
pub open spec fn is_closest<const N: usize, const P: usize>(
    kb: &KeyBoard<N, P>,
    words: Seq<Seq<char>>,
    token: Seq<char>,
    at: int,
) -> bool {
    &&& 0 <= at < words.len()
    &&& forall|k: int|
        0 <= k < words.len() ==> closeness(kb, words[at], token) <= closeness(kb, #[trigger] words[k], token)
    &&& forall|k: int|
        0 <= k < at ==> closeness(kb, words[at], token) < closeness(kb, #[trigger] words[k], token)
}

/// The candidate that is closest to a word, and the first of those that are
/// as close. There is none where there are no candidates, or where the word
/// or a candidate is longer than `LONGEST`.
pub fn closest<const N: usize, const P: usize>(
    kb: &KeyBoard<N, P>,
    token: &str,
    words: &Vec<String>,
) -> (r: Option<usize>)
    ensures
        match r {
            Some(at) => is_closest(kb, texts(words@), token@, at as int),
            None => words@.len() == 0 || token@.len() > LONGEST || exists|k: int|
                0 <= k < words@.len() && (#[trigger] words@[k])@.len() > LONGEST,
        },
        r is None <==> (words@.len() == 0 || token@.len() > LONGEST || exists|k: int|
            0 <= k < words@.len() && (#[trigger] words@[k])@.len() > LONGEST),
{
    if words.len() == 0 || token.unicode_len() > LONGEST {
        return None;
    }
    let ghost all = texts(words@);
    let mut best: usize = 0;
    let mut best_cost: u32 = 0;
    let mut i: usize = 0;
    while i < words.len()
        invariant
            i <= words.len(),
            words@.len() > 0,
            token@.len() <= LONGEST,
            all == texts(words@),
            forall|k: int| 0 <= k < i ==> (#[trigger] words@[k])@.len() <= LONGEST,
            i > 0 ==> best < i && best_cost == closeness(kb, all[best as int], token@),
            i > 0 ==> forall|k: int|
                0 <= k < i ==> best_cost <= closeness(kb, #[trigger] all[k], token@),
            i > 0 ==> forall|k: int|
                0 <= k < best ==> best_cost < closeness(kb, #[trigger] all[k], token@),
        decreases words.len() - i,
    {
        if words[i].as_str().unicode_len() > LONGEST {
            return None;
        }
        assert(all[i as int] == words@[i as int]@);
        let cost = degree_of_closeness(kb, words[i].as_str(), token);
        if i == 0 || cost < best_cost {
            best = i;
            best_cost = cost;
        }
        i += 1;
    }
    Some(best)
}

fn word_list(token_type: &Token) -> (words: Vec<String>)
    ensures
        texts(words@) == candidates(*token_type),
{
    let mut words: Vec<String> = Vec::new();
    match token_type {
        Token::Operator => {
            words.push("create".to_owned());
            words.push("add_row".to_owned());
            words.push("headers".to_owned());
            words.push("apply".to_owned());
            words.push("view".to_owned());
        },
        Token::Modifier => {
            words.push("with".to_owned());
            words.push("and".to_owned());
        },
        Token::DataModifier => {
            words.push("title".to_owned());
        },
        Token::Table(names) => {
            let mut i: usize = 0;
            while i < names.len()
                invariant
                    i <= names.len(),
                    texts(words@) == texts(names@).take(i as int),
                decreases names.len() - i,
            {
                let ghost before = words@;
                let name = names[i].clone();
                words.push(name);
                assert(texts(words@) =~= texts(before).push(name@));
                assert(texts(names@).take(i + 1) =~= texts(names@).take(i as int).push(names@[i as int]@));
                i += 1;
            }
            assert(texts(names@).take(i as int) == texts(names@));
        },
    }
    assert(texts(words@) =~= candidates(*token_type));
    words
}

/// Only one candidate is the closest and the first of those that are as
/// close.
pub proof fn closest_is_unique<const N: usize, const P: usize>(
    kb: &KeyBoard<N, P>,
    words: Seq<Seq<char>>,
    token: Seq<char>,
    a: int,
    b: int,
)
    requires
        is_closest(kb, words, token, a),
        is_closest(kb, words, token, b),
    ensures
        a == b,
{
    if a < b {
        assert(closeness(kb, words[b], token) < closeness(kb, words[a], token));
    } else if b < a {
        assert(closeness(kb, words[a], token) < closeness(kb, words[b], token));
    }
}

/// The word that is suggested for a token: of the candidates, the closest
/// to it, and the first of those that are as close. Nothing is suggested
/// where there are no candidates, or where the token or a candidate is
/// longer than `LONGEST`.
pub open spec fn suggestion<const N: usize, const P: usize>(
    kb: &KeyBoard<N, P>,
    words: Seq<Seq<char>>,
    token: Seq<char>,
) -> Option<Seq<char>> {
    if words.len() == 0 || token.len() > LONGEST || exists|k: int|
        0 <= k < words.len() && (#[trigger] words[k]).len() > LONGEST {
        None
    } else {
        Some(words[choose|at: int| is_closest(kb, words, token, at)])
    }
}

/// The word of a set that is closest to a token, and the first of those that
/// are as close: what a mistyped token may have been meant to be. It is only
/// ever a suggestion.
pub fn keyboard_distance_matcher<'a, const N: usize, const P: usize>(
    kb: &KeyBoard<N, P>,
    token: &str,
    token_type: Token<'a>,
) -> (r: Option<String>)
    ensures
        match r {
            Some(word) => suggestion(kb, candidates(token_type), token@) == Some(word@)
                && exists|at: int|
                is_closest(kb, candidates(token_type), token@, at) && word@ == candidates(
                    token_type,
                )[at],
            None => suggestion(kb, candidates(token_type), token@) is None,
        },
{
    let words = word_list(&token_type);
    let ghost all = candidates(token_type);
    assert forall|k: int| 0 <= k < words@.len() implies (#[trigger] words@[k])@ == all[k] by {}
    match closest(kb, token, &words) {
        Some(at) => {
            let word = words[at].clone();
            proof {
                assert(is_closest(kb, all, token@, at as int) && word@ == all[at as int]);
                if exists|k: int| 0 <= k < all.len() && (#[trigger] all[k]).len() > LONGEST {
                    let k = choose|k: int| 0 <= k < all.len() && (#[trigger] all[k]).len() > LONGEST;
                    assert(words@[k]@.len() > LONGEST);
                }
                let chosen = choose|c: int| is_closest(kb, all, token@, c);
                closest_is_unique(kb, all, token@, at as int, chosen);
            }
            Some(word)
        },
        None => {
            proof {
                if exists|k: int| 0 <= k < words@.len() && (#[trigger] words@[k])@.len() > LONGEST {
                    let k = choose|k: int|
                        0 <= k < words@.len() && (#[trigger] words@[k])@.len() > LONGEST;
                    assert(all[k].len() > LONGEST);
                }
            }
            None
        },
    }
}

} // verus!

//! Planning the snapshot operations of one host: the next snapshot, and which
//! old snapshots to retire.
use vstd::prelude::*;

use std::collections::HashMap;

use crate::catalog::{sets_view, DataSet, DataSetView};
use crate::command::CommandLine;
use crate::config::Host;
use crate::naming::{
    format_suffix, index_or_zero, max_index_sets, max_index_snaps, next_index, parse_index,
    snap_index, snap_suffix,
};
use crate::sudo::Sudoer;

verus! {

/// A run of the tool: the host's settings, and whether to change nothing.
pub struct RBack {
    pub host: Host,
    pub dry_run: bool,
}

/// The snapshot operations of the host that `back` describes.
pub struct ZFS<'a> {
    back: &'a RBack,
}

/// Some snapshot of some dataset has an index.
pub open spec fn some_index(prefix: Seq<char>, sets: Seq<DataSetView>) -> bool {
    exists|i: int, j: int|
        0 <= i < sets.len() && 0 <= j < sets[i].snaps.len() && (#[trigger] snap_index(
            prefix,
            sets[i].snaps[j],
        )) is Some
}

proof fn lemma_max_index_snaps(prefix: Seq<char>, s: Seq<Seq<char>>)
    ensures
        max_index_snaps(prefix, s) >= 0,
        forall|j: int|
            0 <= j < s.len() && (#[trigger] snap_index(prefix, s[j])) is Some ==> snap_index(
                prefix,
                s[j],
            )->0 <= max_index_snaps(prefix, s),
        (exists|j: int| 0 <= j < s.len() && (#[trigger] snap_index(prefix, s[j])) is Some) ==> (
        exists|j: int|
            0 <= j < s.len() && #[trigger] snap_index(prefix, s[j]) == Some(
                max_index_snaps(prefix, s) as u32,
            )),
        !(exists|j: int| 0 <= j < s.len() && (#[trigger] snap_index(prefix, s[j])) is Some)
            ==> max_index_snaps(prefix, s) == 0,
    decreases s.len(),
{
    if s.len() > 0 {
        let d = s.drop_last();
        lemma_max_index_snaps(prefix, d);
        let last = s.len() - 1;
        assert forall|j: int| 0 <= j < last implies s[j] == d[j] by {}
        if exists|j: int| 0 <= j < s.len() && (#[trigger] snap_index(prefix, s[j])) is Some {
            let j0 = choose|j: int| 0 <= j < s.len() && (#[trigger] snap_index(prefix, s[j])) is Some;
            if snap_index(prefix, s[last]) is Some && max_index_snaps(prefix, s) == index_or_zero(
                prefix,
                s[last],
            ) {
            } else if j0 < last {
                assert(snap_index(prefix, d[j0]) is Some);
                let j1 = choose|j: int|
                    0 <= j < d.len() && #[trigger] snap_index(prefix, d[j]) == Some(
                        max_index_snaps(prefix, d) as u32,
                    );
                assert(s[j1] == d[j1]);
            } else {
                assert(snap_index(prefix, s[last]) is Some);
                if exists|j: int| 0 <= j < d.len() && (#[trigger] snap_index(prefix, d[j])) is Some {
                    let j1 = choose|j: int|
                        0 <= j < d.len() && #[trigger] snap_index(prefix, d[j]) == Some(
                            max_index_snaps(prefix, d) as u32,
                        );
                    assert(s[j1] == d[j1]);
                }
            }
        } else {
            assert forall|j: int| 0 <= j < d.len() implies !(#[trigger] snap_index(
                prefix,
                d[j],
            ) is Some) by {
                assert(s[j] == d[j]);
            }
            assert(!(snap_index(prefix, s[last]) is Some));
        }
    }
}

/// The next snapshot index is one past the highest index that any snapshot of
/// the datasets carries, and 1 when none carries one: `max_index_sets` bounds
/// every parsed index, is reached by one of them when there is one, and is
/// zero when there is none.
pub proof fn lemma_next_index_is_max(prefix: Seq<char>, sets: Seq<DataSetView>)
    ensures
        forall|i: int, j: int|
            0 <= i < sets.len() && 0 <= j < sets[i].snaps.len() && (#[trigger] snap_index(
                prefix,
                sets[i].snaps[j],
            )) is Some ==> snap_index(prefix, sets[i].snaps[j])->0 <= max_index_sets(prefix, sets),
        some_index(prefix, sets) ==> exists|i: int, j: int|
            0 <= i < sets.len() && 0 <= j < sets[i].snaps.len() && #[trigger] snap_index(
                prefix,
                sets[i].snaps[j],
            ) == Some(max_index_sets(prefix, sets) as u32),
        !some_index(prefix, sets) ==> max_index_sets(prefix, sets) == 0,
        !some_index(prefix, sets) ==> next_index(prefix, sets) == Some(1u32),
        max_index_sets(prefix, sets) < u32::MAX ==> next_index(prefix, sets) == Some(
            (max_index_sets(prefix, sets) + 1) as u32,
        ),
    decreases sets.len(),
{
    if sets.len() > 0 {
        let d = sets.drop_last();
        let last = sets.len() - 1;
        let ls = sets[last].snaps;
        lemma_next_index_is_max(prefix, d);
        lemma_max_index_snaps(prefix, ls);
        assert forall|i: int| 0 <= i < last implies sets[i] == d[i] by {}
        if some_index(prefix, sets) {
            let (i0, j0) = choose|i: int, j: int|
                0 <= i < sets.len() && 0 <= j < sets[i].snaps.len() && (#[trigger] snap_index(
                    prefix,
                    sets[i].snaps[j],
                )) is Some;
            let in_last = exists|j: int|
                0 <= j < ls.len() && (#[trigger] snap_index(prefix, ls[j])) is Some;
            if in_last && max_index_sets(prefix, sets) == max_index_snaps(prefix, ls) {
                let j1 = choose|j: int|
                    0 <= j < ls.len() && #[trigger] snap_index(prefix, ls[j]) == Some(
                        max_index_snaps(prefix, ls) as u32,
                    );
                assert(snap_index(prefix, sets[last].snaps[j1]) == Some(
                    max_index_sets(prefix, sets) as u32,
                ));
            } else if i0 < last {
                assert(snap_index(prefix, d[i0].snaps[j0]) is Some);
                assert(some_index(prefix, d));
                let (i1, j1) = choose|i: int, j: int|
                    0 <= i < d.len() && 0 <= j < d[i].snaps.len() && #[trigger] snap_index(
                        prefix,
                        d[i].snaps[j],
                    ) == Some(max_index_sets(prefix, d) as u32);
                assert(sets[i1] == d[i1]);
                assert(snap_index(prefix, sets[i1].snaps[j1]) == Some(
                    max_index_sets(prefix, sets) as u32,
                ));
            } else {
                assert(snap_index(prefix, ls[j0]) is Some);
                if some_index(prefix, d) {
                    let (i1, j1) = choose|i: int, j: int|
                        0 <= i < d.len() && 0 <= j < d[i].snaps.len() && #[trigger] snap_index(
                            prefix,
                            d[i].snaps[j],
                        ) == Some(max_index_sets(prefix, d) as u32);
                    assert(sets[i1] == d[i1]);
                    assert(snap_index(prefix, sets[i1].snaps[j1]) == Some(
                        max_index_sets(prefix, sets) as u32,
                    ));
                }
            }
        } else {
            assert forall|i: int, j: int|
                0 <= i < d.len() && 0 <= j < d[i].snaps.len() implies !(#[trigger] snap_index(
                prefix,
                d[i].snaps[j],
            ) is Some) by {
                assert(sets[i] == d[i]);
            }
            assert forall|j: int| 0 <= j < ls.len() implies !(#[trigger] snap_index(
                prefix,
                ls[j],
            ) is Some) by {
                assert(sets[last].snaps[j] == ls[j]);
            }
        }
        assert forall|i: int, j: int|
            0 <= i < sets.len() && 0 <= j < sets[i].snaps.len() && (#[trigger] snap_index(
                prefix,
                sets[i].snaps[j],
            )) is Some implies snap_index(prefix, sets[i].snaps[j])->0 <= max_index_sets(
            prefix,
            sets,
        ) by {
            if i < last {
                assert(sets[i] == d[i]);
            }
        }
    }
}

/// How many of the superseded snapshots are always kept back from destruction.
pub const PRUNE_KEEP: usize = 10;

/// The number of set bits of `n`.
pub open spec fn popcount(n: nat) -> nat
    decreases n,
{
    if n == 0 {
        0
    } else {
        popcount(n / 2) + n % 2
    }
}

pub proof fn lemma_popcount_le(n: nat)
    ensures
        popcount(n) <= n,
    decreases n,
{
    if n > 0 {
        lemma_popcount_le(n / 2);
    }
}

/// Counts the set bits of `n`.
pub fn count_ones(n: u32) -> (r: u32)
    ensures
        r == popcount(n as nat),
{
    let mut x: u32 = n;
    let mut c: u32 = 0;
    proof {
        lemma_popcount_le(n as nat);
    }
    while x > 0
        invariant
            c + popcount(x as nat) == popcount(n as nat),
            popcount(n as nat) <= n,
        decreases x,
    {
        assert(popcount(x as nat) == popcount((x / 2) as nat) + (x % 2) as nat);
        c = c + x % 2;
        x = x / 2;
    }
    c
}

/// A snapshot superseded by a later one: its index and its name.
#[derive(Debug)]
pub struct PruneInfo {
    pub num: u32,
    pub name: String,
}

pub open spec fn infos(v: Seq<PruneInfo>) -> Seq<(u32, Seq<char>)> {
    v.map_values(|p: PruneInfo| (p.num, p.name@))
}

/// The state of the retention sweep: the live snapshots by index, and the
/// superseded ones in the order they were found.
pub type PruneState = (Map<u32, Seq<char>>, Seq<(u32, Seq<char>)>);

/// Takes out of `live`, in increasing order, every index in `[i, n)` whose
/// bit count is `p`, and appends each to the superseded list.
pub open spec fn sweep(st: PruneState, p: nat, i: int, n: int) -> PruneState
    decreases n - i,
{
    if i >= n {
        st
    } else {
        let next = if popcount(i as nat) == p && st.0.contains_key(i as u32) {
            (st.0.remove(i as u32), st.1.push((i as u32, st.0[i as u32])))
        } else {
            st
        };
        sweep(next, p, i + 1, n)
    }
}

/// One snapshot in the sweep: an indexed one becomes live and supersedes every
/// live one of a lower index with the same bit count; others are passed over.
pub open spec fn prune_step(prefix: Seq<char>, st: PruneState, name: Seq<char>) -> PruneState {
    match snap_index(prefix, name) {
        None => st,
        Some(n) => sweep((st.0.insert(n, name), st.1), popcount(n as nat), 1, n as int),
    }
}

pub open spec fn prune_from(prefix: Seq<char>, st: PruneState, snaps: Seq<Seq<char>>) -> PruneState
    decreases snaps.len(),
{
    if snaps.len() == 0 {
        st
    } else {
        prune_from(prefix, prune_step(prefix, st, snaps[0]), snaps.skip(1))
    }
}

/// The state after the sweep over a dataset's snapshots, in their order.
pub open spec fn prune_result(prefix: Seq<char>, snaps: Seq<Seq<char>>) -> PruneState {
    prune_from(prefix, (Map::empty(), Seq::empty()), snaps)
}

/// The superseded snapshots that are destroyed: all but the last `PRUNE_KEEP`.
pub open spec fn kept_back(c: Seq<(u32, Seq<char>)>) -> Seq<(u32, Seq<char>)> {
    if c.len() > PRUNE_KEEP {
        c.take(c.len() - PRUNE_KEEP)
    } else {
        Seq::empty()
    }
}

/// The indices of the snapshots in `snaps`, in their order, that are live in
/// `live` under their own index.
pub open spec fn kept_indices(prefix: Seq<char>, snaps: Seq<Seq<char>>, live: Map<u32, Seq<char>>) -> Seq<
    u32,
>
    decreases snaps.len(),
{
    if snaps.len() == 0 {
        Seq::empty()
    } else {
        let before = kept_indices(prefix, snaps.drop_last(), live);
        match snap_index(prefix, snaps.last()) {
            Some(n) => if live.contains_key(n) && live[n] == snaps.last() {
                before.push(n)
            } else {
                before
            },
            None => before,
        }
    }
}

/// The retention decision for one dataset.
#[derive(Debug)]
pub struct RetentionPlan {
    /// The indices of the snapshots that stay live, in snapshot order.
    pub keep: Vec<u32>,
    /// Every superseded snapshot, in the order the sweep found them.
    pub candidates: Vec<PruneInfo>,
    /// The snapshots to destroy: the candidates but the last `PRUNE_KEEP`.
    pub destroy: Vec<PruneInfo>,
}

pub open spec fn map_rel(m: Map<u32, String>, l: Map<u32, Seq<char>>) -> bool {
    &&& m.dom() == l.dom()
    &&& forall|k: u32| #[trigger] m.contains_key(k) ==> m[k]@ == l[k]
}

/// The snapshot `c` (an index and a name) stands in `h` with that index, and a
/// later snapshot of `h` has a higher index with as many set bits.
pub open spec fn superseded(prefix: Seq<char>, h: Seq<Seq<char>>, c: (u32, Seq<char>)) -> bool {
    exists|k: int, j: int|
        #![trigger h[k], h[j]]
        0 <= k < j < h.len() && h[k] == c.1 && snap_index(prefix, h[k]) == Some(c.0)
            && supersedes(prefix, h[j], c.0)
}

/// The snapshot `name` has an index higher than `i` with as many set bits.
pub open spec fn supersedes(prefix: Seq<char>, name: Seq<char>, i: u32) -> bool {
    match snap_index(prefix, name) {
        Some(n) => n > i && popcount(n as nat) == popcount(i as nat),
        None => false,
    }
}

/// Every live entry is a snapshot of `h` that carries its key as index.
pub open spec fn live_in(prefix: Seq<char>, h: Seq<Seq<char>>, live: Map<u32, Seq<char>>) -> bool {
    forall|key: u32|
        #[trigger] live.contains_key(key) ==> exists|k: int|
            0 <= k < h.len() && h[k] == live[key] && snap_index(prefix, h[k]) == Some(key)
}

pub open spec fn all_superseded(
    prefix: Seq<char>,
    h: Seq<Seq<char>>,
    cands: Seq<(u32, Seq<char>)>,
) -> bool {
    forall|t: int| 0 <= t < cands.len() ==> superseded(prefix, h, #[trigger] cands[t])
}

proof fn lemma_superseded_grow(
    prefix: Seq<char>,
    h: Seq<Seq<char>>,
    x: Seq<char>,
    cands: Seq<(u32, Seq<char>)>,
)
    requires
        all_superseded(prefix, h, cands),
    ensures
        all_superseded(prefix, h.push(x), cands),
{
    assert forall|t: int| 0 <= t < cands.len() implies superseded(
        prefix,
        h.push(x),
        #[trigger] cands[t],
    ) by {
        let c = cands[t];
        let (k, j) = choose|k: int, j: int|
            #![trigger h[k], h[j]]
            0 <= k < j < h.len() && h[k] == c.1 && snap_index(prefix, h[k]) == Some(c.0)
                && supersedes(prefix, h[j], c.0);
        assert(h.push(x)[k] == h[k] && h.push(x)[j] == h[j]);
    }
}

/// The sweep for the snapshot at position `j` of `h`, with index `n`, keeps
/// every live entry a snapshot of `h`, and every superseded one superseded.
proof fn lemma_sweep_sound(
    prefix: Seq<char>,
    h: Seq<Seq<char>>,
    j: int,
    n: u32,
    st: PruneState,
    i: int,
)
    requires
        0 <= j < h.len(),
        snap_index(prefix, h[j]) == Some(n),
        1 <= i,
        forall|key: u32|
            #[trigger] st.0.contains_key(key) && key != n ==> exists|k: int|
                0 <= k < j && h[k] == st.0[key] && snap_index(prefix, h[k]) == Some(key),
        live_in(prefix, h, st.0),
        all_superseded(prefix, h, st.1),
    ensures
        live_in(prefix, h, sweep(st, popcount(n as nat), i, n as int).0),
        all_superseded(prefix, h, sweep(st, popcount(n as nat), i, n as int).1),
    decreases n - i,
{
    if i < n {
        let p = popcount(n as nat);
        let key = i as u32;
        if popcount(i as nat) == p && st.0.contains_key(key) {
            let next = (st.0.remove(key), st.1.push((key, st.0[key])));
            let k = choose|k: int|
                0 <= k < j && h[k] == st.0[key] && snap_index(prefix, h[k]) == Some(key);
            assert(superseded(prefix, h, (key, st.0[key]))) by {
                assert(supersedes(prefix, h[j], key));
                assert(h[k] == st.0[key]);
            }
            assert forall|t: int| 0 <= t < next.1.len() implies superseded(
                prefix,
                h,
                #[trigger] next.1[t],
            ) by {
                if t < st.1.len() {
                    assert(next.1[t] == st.1[t]);
                }
            }
            assert forall|kk: u32| #[trigger] next.0.contains_key(kk) implies exists|k: int|
                0 <= k < h.len() && h[k] == next.0[kk] && snap_index(prefix, h[k]) == Some(kk) by {
                assert(st.0.contains_key(kk));
            }
            lemma_sweep_sound(prefix, h, j, n, next, i + 1);
        } else {
            lemma_sweep_sound(prefix, h, j, n, st, i + 1);
        }
    }
}

proof fn lemma_prune_from_sound(
    prefix: Seq<char>,
    st: PruneState,
    done: Seq<Seq<char>>,
    rest: Seq<Seq<char>>,
)
    requires
        live_in(prefix, done, st.0),
        all_superseded(prefix, done, st.1),
    ensures
        all_superseded(prefix, done + rest, prune_from(prefix, st, rest).1),
    decreases rest.len(),
{
    if rest.len() == 0 {
        assert(done + rest =~= done);
    } else {
        let x = rest[0];
        let h = done.push(x);
        let j = done.len() as int;
        lemma_superseded_grow(prefix, done, x, st.1);
        assert forall|key: u32| #[trigger] st.0.contains_key(key) implies exists|k: int|
            0 <= k < h.len() && h[k] == st.0[key] && snap_index(prefix, h[k]) == Some(key) by {
            let k = choose|k: int|
                0 <= k < done.len() && done[k] == st.0[key] && snap_index(prefix, done[k]) == Some(
                    key,
                );
            assert(h[k] == done[k]);
        }
        let st2 = prune_step(prefix, st, x);
        match snap_index(prefix, x) {
            None => {},
            Some(n) => {
                let live = st.0.insert(n, x);
                assert(h[j] == x);
                assert forall|key: u32| #[trigger] live.contains_key(key) && key != n implies exists|
                    k: int,
                | 0 <= k < j && h[k] == live[key] && snap_index(prefix, h[k]) == Some(key) by {
                    let k = choose|k: int|
                        0 <= k < done.len() && done[k] == st.0[key] && snap_index(prefix, done[k])
                            == Some(key);
                    assert(h[k] == done[k]);
                }
                assert forall|key: u32| #[trigger] live.contains_key(key) implies exists|k: int|
                    0 <= k < h.len() && h[k] == live[key] && snap_index(prefix, h[k]) == Some(
                        key,
                    ) by {
                    if key == n {
                        assert(h[j] == live[key]);
                    }
                }
                lemma_sweep_sound(prefix, h, j, n, (live, st.1), 1);
            },
        }
        assert(done + rest =~= h + rest.skip(1));
        lemma_prune_from_sound(prefix, st2, h, rest.skip(1));
    }
}

/// Every snapshot that the retention sweep supersedes is a snapshot of the
/// dataset with the index it is listed under, and a later snapshot of the
/// dataset has a higher index with the same number of set bits.
pub proof fn lemma_candidates_superseded(prefix: Seq<char>, snaps: Seq<Seq<char>>)
    ensures
        all_superseded(prefix, snaps, prune_result(prefix, snaps).1),
{
    assert(Seq::<Seq<char>>::empty() + snaps =~= snaps);
    lemma_prune_from_sound(prefix, (Map::empty(), Seq::empty()), Seq::empty(), snaps);
}

/// No two snapshots of `h` carry the same index.
pub open spec fn distinct_indices(prefix: Seq<char>, h: Seq<Seq<char>>) -> bool {
    forall|a: int, b: int|
        #![trigger h[a], h[b]]
        0 <= a < b < h.len() && snap_index(prefix, h[a]) is Some ==> snap_index(prefix, h[a])
            != snap_index(prefix, h[b])
}

/// Each indexed snapshot of `h` is live under its index, or superseded.
pub open spec fn accounted(prefix: Seq<char>, h: Seq<Seq<char>>, st: PruneState) -> bool {
    forall|k: int|
        0 <= k < h.len() && (#[trigger] snap_index(prefix, h[k])) is Some ==> {
            let i = snap_index(prefix, h[k])->0;
            (st.0.contains_key(i) && st.0[i] == h[k]) || st.1.contains((i, h[k]))
        }
}

/// Each indexed snapshot of `h` that a later one supersedes is a candidate.
pub open spec fn complete(prefix: Seq<char>, h: Seq<Seq<char>>, cands: Seq<(u32, Seq<char>)>) -> bool {
    forall|k: int, j: int|
        #![trigger h[k], h[j]]
        0 <= k < j < h.len() && snap_index(prefix, h[k]) is Some && supersedes(
            prefix,
            h[j],
            snap_index(prefix, h[k])->0,
        ) ==> cands.contains((snap_index(prefix, h[k])->0, h[k]))
}

proof fn lemma_popcount_pos(n: nat)
    requires
        n > 0,
    ensures
        popcount(n) >= 1,
    decreases n,
{
    if n / 2 > 0 {
        lemma_popcount_pos(n / 2);
    }
}

proof fn lemma_sweep_effect(st: PruneState, p: nat, i: int, n: int)
    requires
        1 <= i,
        n <= u32::MAX,
    ensures
        ({
            let r = sweep(st, p, i, n);
            &&& forall|key: u32| #[trigger]
                r.0.contains_key(key) ==> st.0.contains_key(key) && r.0[key] == st.0[key]
            &&& forall|key: u32|
                #[trigger] st.0.contains_key(key) && !r.0.contains_key(key) ==> r.1.contains(
                    (key, st.0[key]),
                )
            &&& forall|key: u32|
                i <= key < n && popcount(key as nat) == p ==> !(#[trigger] r.0.contains_key(key))
            &&& forall|key: u32|
                #[trigger] st.0.contains_key(key) && !(i <= key < n && popcount(key as nat) == p)
                    ==> r.0.contains_key(key)
            &&& forall|c: (u32, Seq<char>)| #[trigger] st.1.contains(c) ==> r.1.contains(c)
        }),
    decreases n - i,
{
    if i < n {
        let key = i as u32;
        let next = if popcount(i as nat) == p && st.0.contains_key(key) {
            (st.0.remove(key), st.1.push((key, st.0[key])))
        } else {
            st
        };
        lemma_sweep_effect(next, p, i + 1, n);
        let r = sweep(st, p, i, n);
        assert(r == sweep(next, p, i + 1, n));
        if popcount(i as nat) == p && st.0.contains_key(key) {
            assert(next.1[next.1.len() - 1] == (key, st.0[key]));
            assert(next.1.contains((key, st.0[key])));
            assert forall|c: (u32, Seq<char>)| #[trigger] st.1.contains(c) implies r.1.contains(
                c,
            ) by {
                let t = choose|t: int| 0 <= t < st.1.len() && st.1[t] == c;
                assert(next.1[t] == c);
                assert(next.1.contains(c));
            }
        }
    }
}

proof fn lemma_prune_from_complete(
    prefix: Seq<char>,
    st: PruneState,
    done: Seq<Seq<char>>,
    rest: Seq<Seq<char>>,
)
    requires
        distinct_indices(prefix, done + rest),
        accounted(prefix, done, st),
        complete(prefix, done, st.1),
    ensures
        complete(prefix, done + rest, prune_from(prefix, st, rest).1),
    decreases rest.len(),
{
    if rest.len() == 0 {
        assert(done + rest =~= done);
    } else {
        let x = rest[0];
        let h = done.push(x);
        let j = done.len() as int;
        let st2 = prune_step(prefix, st, x);
        assert(done + rest =~= h + rest.skip(1));
        assert forall|k: int| 0 <= k < done.len() implies #[trigger] h[k] == done[k] by {}
        assert(h[j] == x);
        match snap_index(prefix, x) {
            None => {
                assert forall|k: int|
                    0 <= k < h.len() && (#[trigger] snap_index(prefix, h[k])) is Some implies {
                    let i = snap_index(prefix, h[k])->0;
                    (st2.0.contains_key(i) && st2.0[i] == h[k]) || st2.1.contains((i, h[k]))
                } by {
                    assert(k < j);
                }
                assert forall|k: int, jj: int|
                    #![trigger h[k], h[jj]]
                    0 <= k < jj < h.len() && snap_index(prefix, h[k]) is Some && supersedes(
                        prefix,
                        h[jj],
                        snap_index(prefix, h[k])->0,
                    ) implies st2.1.contains((snap_index(prefix, h[k])->0, h[k])) by {
                    assert(jj < j);
                }
            },
            Some(n) => {
                let p = popcount(n as nat);
                let live = st.0.insert(n, x);
                lemma_sweep_effect((live, st.1), p, 1, n as int);
                assert(st2 == sweep((live, st.1), p, 1, n as int));
                assert forall|k: int|
                    0 <= k < h.len() && (#[trigger] snap_index(prefix, h[k])) is Some implies {
                    let i = snap_index(prefix, h[k])->0;
                    (st2.0.contains_key(i) && st2.0[i] == h[k]) || st2.1.contains((i, h[k]))
                } by {
                    let i = snap_index(prefix, h[k])->0;
                    if k == j {
                        assert(live.contains_key(n) && live[n] == x);
                        assert(st2.0.contains_key(n));
                    } else {
                        assert((done + rest)[k] == h[k] && (done + rest)[j] == h[j]);
                        assert(i != n);
                        if st.0.contains_key(i) && st.0[i] == h[k] {
                            assert(live.contains_key(i) && live[i] == h[k]);
                        } else {
                            assert(st.1.contains((i, h[k])));
                        }
                    }
                }
                assert forall|k: int, jj: int|
                    #![trigger h[k], h[jj]]
                    0 <= k < jj < h.len() && snap_index(prefix, h[k]) is Some && supersedes(
                        prefix,
                        h[jj],
                        snap_index(prefix, h[k])->0,
                    ) implies st2.1.contains((snap_index(prefix, h[k])->0, h[k])) by {
                    let i = snap_index(prefix, h[k])->0;
                    if jj < j {
                        assert(st.1.contains((i, h[k])));
                    } else {
                        assert(jj == j);
                        lemma_popcount_pos(n as nat);
                        if i == 0 {
                            assert(popcount(0) == 0);
                        }
                        assert(1 <= i < n && popcount(i as nat) == p);
                        assert(!st2.0.contains_key(i));
                        assert((done + rest)[k] == h[k] && (done + rest)[j] == h[j]);
                        if st.0.contains_key(i) && st.0[i] == h[k] {
                            assert(live.contains_key(i) && live[i] == h[k]);
                        } else {
                            assert(st.1.contains((i, h[k])));
                        }
                    }
                }
            },
        }
        lemma_prune_from_complete(prefix, st2, h, rest.skip(1));
    }
}

/// Where no two snapshots carry the same index, the candidates hold every
/// indexed snapshot that a later snapshot supersedes (one with a higher index
/// and as many set bits).
pub proof fn lemma_superseded_are_candidates(prefix: Seq<char>, snaps: Seq<Seq<char>>)
    requires
        distinct_indices(prefix, snaps),
    ensures
        complete(prefix, snaps, prune_result(prefix, snaps).1),
{
    assert(Seq::<Seq<char>>::empty() + snaps =~= snaps);
    lemma_prune_from_complete(prefix, (Map::empty(), Seq::empty()), Seq::empty(), snaps);
}

impl<'a> ZFS<'a> {
    pub fn new(back: &'a RBack) -> (r: ZFS<'a>)
        ensures
            r.prefix() == back.host.snap_prefix@,
            r.base() == back.host.base@,
    {
        ZFS { back }
    }

    /// The prefix of the managed snapshots.
    pub closed spec fn prefix(&self) -> Seq<char> {
        self.back.host.snap_prefix@
    }

    /// The dataset under which the host's volumes live.
    pub closed spec fn base(&self) -> Seq<char> {
        self.back.host.base@
    }

    /// The index for the next snapshot: one past the highest index among the
    /// datasets' snapshots (1 when none has one); `None` when the highest is
    /// already `u32::MAX`.
    pub fn next_snap(&self, sets: &[DataSet]) -> (r: Option<u32>)
        ensures
            r == next_index(self.prefix(), sets_view(sets@)),
    {
        let prefix = self.back.host.snap_prefix.as_str();
        let ghost sv = sets_view(sets@);
        let mut best: u32 = 0;
        let mut i: usize = 0;
        while i < sets.len()
            invariant
                i <= sets@.len(),
                sv == sets_view(sets@),
                prefix@ == self.prefix(),
                best as int == max_index_sets(prefix@, sv.take(i as int)),
            decreases sets@.len() - i,
        {
            let ds = &sets[i];
            let ghost sn = ds@.snaps;
            let mut bs: u32 = 0;
            let mut j: usize = 0;
            while j < ds.snaps.len()
                invariant
                    j <= ds.snaps@.len(),
                    sn == ds@.snaps,
                    bs as int == max_index_snaps(prefix@, sn.take(j as int)),
                decreases ds.snaps@.len() - j,
            {
                let got = parse_index(prefix, ds.snaps[j].as_str());
                proof {
                    assert(sn.take(j as int + 1).drop_last() =~= sn.take(j as int));
                    assert(sn[j as int] == ds.snaps@[j as int]@);
                }
                match got {
                    Some(n) => {
                        if n > bs {
                            bs = n;
                        }
                    },
                    None => {},
                }
                j = j + 1;
            }
            proof {
                assert(sn.take(sn.len() as int) =~= sn);
                assert(sv.take(i as int + 1).drop_last() =~= sv.take(i as int));
                assert(sv[i as int] == ds@);
            }
            if bs > best {
                best = bs;
            }
            i = i + 1;
        }
        proof {
            assert(sv.take(sv.len() as int) =~= sv);
        }
        if best < u32::MAX {
            Some(best + 1)
        } else {
            None
        }
    }

    /// The command line `zfs snapshot -r <base>@<suffix>` for the next snapshot,
    /// dated `month`-`day`, run with privilege; `None` when no next index fits.
    pub fn take_snapshot_command<S: Sudoer>(
        &self,
        sudo: &S,
        sets: &[DataSet],
        month: u32,
        day: u32,
    ) -> (r: Option<CommandLine>)
        ensures
            match next_index(self.prefix(), sets_view(sets@)) {
                None => r is None,
                Some(n) => r is Some && r->0@ == sudo.cmd_words("zfs"@) + seq![
                    "snapshot"@,
                    "-r"@,
                    self.base() + seq!['@'] + snap_suffix(
                        self.prefix(),
                        n as nat,
                        month as nat,
                        day as nat,
                    ),
                ],
            },
    {
        match self.next_snap(sets) {
            None => None,
            Some(num) => {
                let suffix = format_suffix(self.back.host.snap_prefix.as_str(), num, month, day);
                let mut name = self.back.host.base.clone();
                name.append("@");
                name.append(suffix.as_str());
                let mut cmd = sudo.cmd("zfs");
                cmd.arg("snapshot");
                cmd.arg("-r");
                cmd.arg(name.as_str());
                proof {
                    reveal_strlit("@");
                }
                assert(name@ =~= self.base() + seq!['@'] + suffix@);
                Some(cmd)
            },
        }
    }

    /// Decides which of a dataset's snapshots to retire.
    pub fn plan_prune(&self, ds: &DataSet) -> (r: RetentionPlan)
        ensures
            infos(r.candidates@) == prune_result(self.prefix(), ds@.snaps).1,
            infos(r.destroy@) == kept_back(infos(r.candidates@)),
            r.keep@ == kept_indices(self.prefix(), ds@.snaps, prune_result(self.prefix(), ds@.snaps).0),
    {
        broadcast use vstd::std_specs::hash::group_hash_axioms;

        let prefix = self.back.host.snap_prefix.as_str();
        let ghost sn = ds@.snaps;
        let mut seen: HashMap<u32, String> = HashMap::new();
        let ghost mut live: Map<u32, Seq<char>> = Map::empty();
        let mut prunes: Vec<PruneInfo> = Vec::new();
        let mut j: usize = 0;
        assert(sn.skip(0) =~= sn);
        assert(infos(prunes@) =~= Seq::<(u32, Seq<char>)>::empty());
        assert(seen@.dom() =~= live.dom());
        while j < ds.snaps.len()
            invariant
                j <= ds.snaps@.len(),
                sn == ds@.snaps,
                prefix@ == self.prefix(),
                map_rel(seen@, live),
                prune_from(prefix@, (live, infos(prunes@)), sn.skip(j as int)) == prune_result(
                    prefix@,
                    sn,
                ),
            decreases ds.snaps@.len() - j,
        {
            let name = &ds.snaps[j];
            proof {
                assert(sn[j as int] == name@);
                assert(sn.skip(j as int).skip(1) =~= sn.skip(j as int + 1));
            }
            match parse_index(prefix, name.as_str()) {
                None => {},
                Some(num) => {
                    seen.insert(num, name.clone());
                    proof {
                        live = live.insert(num, name@);
                        assert(seen@.dom() =~= live.dom());
                    }
                    let mypop = count_ones(num);
                    let ghost start: PruneState = (live, infos(prunes@));
                    let mut i: u32 = 1;
                    while i < num
                        invariant
                            1 <= i,
                            num >= 1 ==> i <= num,
                            map_rel(seen@, live),
                            mypop == popcount(num as nat),
                            sweep((live, infos(prunes@)), popcount(num as nat), i as int, num as int)
                                == sweep(start, popcount(num as nat), 1, num as int),
                        decreases num - i,
                    {
                        if count_ones(i) == mypop {
                            let ghost before = prunes@;
                            match seen.remove(&i) {
                                Some(v) => {
                                    let ghost vv = v@;
                                    prunes.push(PruneInfo { num: i, name: v });
                                    proof {
                                        assert(live.contains_key(i) && live[i] == vv);
                                        let ghost old_live = live;
                                        live = live.remove(i);
                                        assert(seen@.dom() =~= live.dom());
                                        assert forall|k: u32| #[trigger] seen@.contains_key(k)
                                            implies seen@[k]@ == live[k] by {
                                            assert(old_live.contains_key(k));
                                        }
                                        assert(infos(prunes@) =~= infos(before).push((i, vv)));
                                    }
                                },
                                None => {
                                    assert(!live.contains_key(i));
                                    assert(seen@.dom() =~= live.dom());
                                },
                            }
                        }
                        i = i + 1;
                    }
                },
            }
            j = j + 1;
        }
        assert(sn.skip(j as int) =~= Seq::<Seq<char>>::empty());
        let n = prunes.len();
        let mut destroy: Vec<PruneInfo> = Vec::new();
        if n > PRUNE_KEEP {
            let mut k: usize = 0;
            while k < n - PRUNE_KEEP
                invariant
                    n == prunes@.len(),
                    n > PRUNE_KEEP,
                    k <= n - PRUNE_KEEP,
                    infos(destroy@) == infos(prunes@).take(k as int),
                decreases n - PRUNE_KEEP - k,
            {
                let p = &prunes[k];
                let ghost before = destroy@;
                destroy.push(PruneInfo { num: p.num, name: p.name.clone() });
                assert(infos(destroy@) =~= infos(before).push((p.num, p.name@)));
                k = k + 1;
                assert(infos(destroy@) =~= infos(prunes@).take(k as int));
            }
        } else {
            assert(infos(destroy@) =~= Seq::<(u32, Seq<char>)>::empty());
        }
        let ghost final_live = live;
        assert(final_live == prune_result(prefix@, sn).0);
        let mut keep: Vec<u32> = Vec::new();
        let mut k: usize = 0;
        while k < ds.snaps.len()
            invariant
                k <= ds.snaps@.len(),
                sn == ds@.snaps,
                prefix@ == self.prefix(),
                map_rel(seen@, final_live),
                keep@ == kept_indices(prefix@, sn.take(k as int), final_live),
            decreases ds.snaps@.len() - k,
        {
            let name = &ds.snaps[k];
            proof {
                assert(sn.take(k as int + 1).drop_last() =~= sn.take(k as int));
                assert(sn.take(k as int + 1).last() == name@);
            }
            match parse_index(prefix, name.as_str()) {
                None => {},
                Some(n) => {
                    match seen.get(&n) {
                        Some(v) => {
                            if *v == *name {
                                keep.push(n);
                            }
                        },
                        None => {},
                    }
                },
            }
            k = k + 1;
        }
        assert(sn.take(sn.len() as int) =~= sn);
        RetentionPlan { keep, candidates: prunes, destroy }
    }

    /// The command line `zfs destroy <dataset>@<snapshot>`, run with privilege.
    pub fn destroy_command<S: Sudoer>(&self, sudo: &S, ds: &DataSet, prune: &PruneInfo) -> (r:
        CommandLine)
        ensures
            r@ == sudo.cmd_words("zfs"@) + seq!["destroy"@, ds.name@ + seq!['@'] + prune.name@],
    {
        let mut name = ds.name.clone();
        name.append("@");
        name.append(prune.name.as_str());
        let mut cmd = sudo.cmd("zfs");
        cmd.arg("destroy");
        cmd.arg(name.as_str());
        proof {
            reveal_strlit("@");
        }
        assert(name@ =~= ds.name@ + seq!['@'] + prune.name@);
        assert(cmd@ =~= sudo.cmd_words("zfs"@) + seq!["destroy"@, ds.name@ + seq!['@'] + prune.name@]);
        cmd
    }
}

} // verus!

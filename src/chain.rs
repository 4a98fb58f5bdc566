use crate::models::{has_node, is_group_kind, node_of, NodeView, ProxiesResponse, Snapshot};
use vstd::prelude::*;

verus! {

/// Why no chain could be built.
#[derive(Debug, PartialEq, Eq, Structural)]
pub enum ChainError {
    /// The root name is not in the snapshot.
    RootNotFound,
    /// The walk took more hops than the snapshot has nodes: the active
    /// pointers go round in a cycle.
    CycleDetected,
}

/// The texts of a sequence of strings.
pub open spec fn names_of(v: Seq<String>) -> Seq<Seq<char>> {
    v.map_values(|x: String| x@)
}

/// The names that the walk appends after `cur`, with at most `fuel` more
/// appends; `None` where the fuel runs out before the walk stops.
/// The walk follows `active`, stops at an empty selection, and stops after
/// appending a name that is missing or that is not a group.
pub open spec fn walk(s: Snapshot, cur: NodeView, fuel: nat) -> Option<Seq<Seq<char>>>
    decreases fuel,
{
    if cur.active.len() == 0 {
        Some(Seq::empty())
    } else if fuel == 0 {
        None
    } else if has_node(s, cur.active) && is_group_kind(node_of(s, cur.active).kind) {
        match walk(s, node_of(s, cur.active), (fuel - 1) as nat) {
            Some(rest) => Some(seq![cur.active] + rest),
            None => None,
        }
    } else {
        Some(seq![cur.active])
    }
}

/// Prepends `pre` to the result of a walk.
pub open spec fn after(pre: Seq<Seq<char>>, w: Option<Seq<Seq<char>>>) -> Option<Seq<Seq<char>>> {
    match w {
        Some(rest) => Some(pre + rest),
        None => None,
    }
}

/// The active chain from `root`: the root, then what the walk appends,
/// with one append allowed per node of the snapshot.
pub open spec fn chain_of(s: Snapshot, root: Seq<char>) -> Result<Seq<Seq<char>>, ChainError> {
    if !has_node(s, root) {
        Err(ChainError::RootNotFound)
    } else {
        match walk(s, node_of(s, root), s.len()) {
            Some(rest) => Ok(seq![root] + rest),
            None => Err(ChainError::CycleDetected),
        }
    }
}

/// Follows the `now` pointers from `root` and returns the names passed, the
/// root first; fails where the root is missing or the pointers form a cycle.
pub fn resolve(snapshot: &ProxiesResponse, root: &str) -> (r: Result<Vec<String>, ChainError>)
    ensures
        match r {
            Ok(c) => chain_of(snapshot@, root@) == Ok::<Seq<Seq<char>>, ChainError>(names_of(c@)),
            Err(e) => chain_of(snapshot@, root@) == Err::<Seq<Seq<char>>, ChainError>(e),
        },
{
    let ghost s = snapshot@;
    let start = match snapshot.position(root) {
        Some(i) => i,
        None => {
            return Err(ChainError::RootNotFound);
        },
    };
    let n = snapshot.proxies.len();
    let mut chain: Vec<String> = Vec::new();
    chain.push(root.to_owned());
    let mut cur: usize = start;
    let mut fuel: usize = n;
    proof {
        assert(names_of(chain@).drop_first() =~= Seq::<Seq<char>>::empty());
        assert(after(Seq::empty(), walk(s, s[cur as int].1, fuel as nat)) == walk(s, node_of(s, root@), n as nat));
    }
    loop
        invariant
            s == snapshot@,
            n == s.len(),
            cur < n,
            fuel <= n,
            chain@.len() == 1 + (n - fuel),
            names_of(chain@)[0] == root@,
            has_node(s, root@),
            walk(s, node_of(s, root@), n as nat) == after(
                names_of(chain@).drop_first(),
                walk(s, s[cur as int].1, fuel as nat),
            ),
        decreases fuel,
    {
        let info = &snapshot.proxies[cur].1;
        assert(s[cur as int].1 == info@);
        if info.now.as_str().is_empty() {
            proof {
                assert(names_of(chain@).drop_first() + Seq::empty() =~= names_of(chain@).drop_first());
                assert(seq![root@] + names_of(chain@).drop_first() =~= names_of(chain@));
            }
            return Ok(chain);
        }
        if fuel == 0 {
            return Err(ChainError::CycleDetected);
        }
        let next = info.now.clone();
        let ghost before = names_of(chain@);
        chain.push(next.clone());
        proof {
            assert(names_of(chain@) =~= before.push(next@));
            assert(before.push(next@).drop_first() =~= before.drop_first() + seq![next@]);
        }
        match snapshot.position(next.as_str()) {
            Some(j) => {
                if snapshot.proxies[j].1.is_group() {
                    assert(s[j as int].1 == snapshot.proxies@[j as int].1@);
                    proof {
                        let w = walk(s, s[j as int].1, (fuel - 1) as nat);
                        if w is Some {
                            assert(before.drop_first() + (seq![next@] + w->0) =~= before.drop_first()
                                + seq![next@] + w->0);
                        }
                    }
                    cur = j;
                    fuel = fuel - 1;
                } else {
                    assert(s[j as int].1 == snapshot.proxies@[j as int].1@);
                    proof {
                        assert(seq![root@] + names_of(chain@).drop_first() =~= names_of(chain@));
                    }
                    return Ok(chain);
                }
            },
            None => {
                proof {
                    assert(seq![root@] + names_of(chain@).drop_first() =~= names_of(chain@));
                }
                return Ok(chain);
            },
        }
    }
}

/// A walk never appends more names than its fuel.
proof fn lemma_walk_len(s: Snapshot, cur: NodeView, fuel: nat)
    ensures
        walk(s, cur, fuel) matches Some(rest) ==> rest.len() <= fuel,
    decreases fuel,
{
    if cur.active.len() != 0 && fuel > 0 {
        lemma_walk_len(s, node_of(s, cur.active), (fuel - 1) as nat);
    }
}

/// A resolved chain starts with its root.
pub proof fn lemma_chain_starts_at_root(s: Snapshot, root: Seq<char>)
    ensures
        chain_of(s, root) matches Ok(c) ==> c.len() >= 1 && c[0] == root,
{
}

/// A resolved chain holds at most one name more than the snapshot has nodes.
pub proof fn lemma_chain_len_bound(s: Snapshot, root: Seq<char>)
    ensures
        chain_of(s, root) matches Ok(c) ==> c.len() <= s.len() + 1,
{
    if has_node(s, root) {
        lemma_walk_len(s, node_of(s, root), s.len());
    }
}

/// A node whose selection is empty ends the walk: nothing more is looked up
/// or appended.
pub proof fn lemma_empty_selection_ends_walk(s: Snapshot, cur: NodeView, fuel: nat)
    requires
        cur.active.len() == 0,
    ensures
        walk(s, cur, fuel) == Some(Seq::<Seq<char>>::empty()),
{
}

/// A root whose selection is empty is a chain of itself alone.
pub proof fn lemma_empty_selection_ends_chain(s: Snapshot, root: Seq<char>)
    requires
        has_node(s, root),
        node_of(s, root).active.len() == 0,
    ensures
        chain_of(s, root) == Ok::<Seq<Seq<char>>, ChainError>(seq![root]),
{
    assert(seq![root] + Seq::<Seq<char>>::empty() =~= seq![root]);
}

proof fn lemma_two_cycle_walk(s: Snapshot, a: Seq<char>, b: Seq<char>, fuel: nat)
    requires
        a.len() > 0,
        b.len() > 0,
        has_node(s, a),
        has_node(s, b),
        is_group_kind(node_of(s, a).kind),
        is_group_kind(node_of(s, b).kind),
        node_of(s, a).active == b,
        node_of(s, b).active == a,
    ensures
        walk(s, node_of(s, a), fuel) is None,
        walk(s, node_of(s, b), fuel) is None,
    decreases fuel,
{
    if fuel > 0 {
        lemma_two_cycle_walk(s, a, b, (fuel - 1) as nat);
    }
}

/// Two groups that select each other make the walk from either of them
/// fail with a detected cycle, whatever else the snapshot holds.
pub proof fn lemma_two_cycle_detected(s: Snapshot, a: Seq<char>, b: Seq<char>)
    requires
        a.len() > 0,
        b.len() > 0,
        has_node(s, a),
        has_node(s, b),
        is_group_kind(node_of(s, a).kind),
        is_group_kind(node_of(s, b).kind),
        node_of(s, a).active == b,
        node_of(s, b).active == a,
    ensures
        chain_of(s, a) == Err::<Seq<Seq<char>>, ChainError>(ChainError::CycleDetected),
{
    lemma_two_cycle_walk(s, a, b, s.len());
}

/// One hop of the walk: the group that the selection of `x` names, if the
/// walk goes on there.
pub open spec fn hop(s: Snapshot, x: Seq<char>) -> Option<Seq<char>> {
    let a = node_of(s, x).active;
    if has_node(s, x) && a.len() > 0 && has_node(s, a) && is_group_kind(node_of(s, a).kind) {
        Some(a)
    } else {
        None
    }
}

/// Where `k` hops from `x` lead.
pub open spec fn hops(s: Snapshot, x: Seq<char>, k: nat) -> Option<Seq<char>>
    decreases k,
{
    if k == 0 {
        if has_node(s, x) {
            Some(x)
        } else {
            None
        }
    } else {
        match hop(s, x) {
            Some(y) => hops(s, y, (k - 1) as nat),
            None => None,
        }
    }
}

/// The selections from `root` lead to an end: with enough fuel the walk
/// stops (no cycle is met on the way).
pub open spec fn walk_ends(s: Snapshot, root: Seq<char>) -> bool {
    exists|f: nat| (#[trigger] walk(s, node_of(s, root), f)) is Some
}

proof fn lemma_hops_split(s: Snapshot, x: Seq<char>, i: nat, j: nat)
    ensures
        hops(s, x, i + j) == (match hops(s, x, i) {
            Some(y) => hops(s, y, j),
            None => None,
        }),
    decreases i,
{
    if i > 0 {
        if let Some(z) = hop(s, x) {
            lemma_hops_split(s, z, (i - 1) as nat, j);
            assert((i - 1) as nat + j == (i + j - 1) as nat);
        }
    } else {
        if j > 0 && has_node(s, x) {
            assert(hops(s, x, j) == hops(s, x, i + j));
        }
    }
}

proof fn lemma_hops_found(s: Snapshot, x: Seq<char>, k: nat)
    ensures
        hops(s, x, k) matches Some(y) ==> has_node(s, y),
    decreases k,
{
    if k > 0 {
        if let Some(z) = hop(s, x) {
            lemma_hops_found(s, z, (k - 1) as nat);
        }
    }
}

/// A walk that ends passes each of its hops with the fuel it has left.
proof fn lemma_walk_through_hops(s: Snapshot, x: Seq<char>, k: nat, f: nat)
    requires
        walk(s, node_of(s, x), f) is Some,
        hops(s, x, k) is Some,
    ensures
        k <= f,
        walk(s, node_of(s, hops(s, x, k)->0), (f - k) as nat) is Some,
    decreases k,
{
    if k > 0 {
        let z = hop(s, x)->0;
        lemma_walk_through_hops(s, z, (k - 1) as nat, (f - 1) as nat);
    }
}

/// Hops that come back to where they started are a cycle: the walk from
/// there never ends.
proof fn lemma_cycle_never_ends(s: Snapshot, x: Seq<char>, k: nat, f: nat)
    requires
        k >= 1,
        hops(s, x, k) == Some(x),
    ensures
        walk(s, node_of(s, x), f) is None,
    decreases f,
{
    if walk(s, node_of(s, x), f) is Some {
        lemma_walk_through_hops(s, x, k, f);
        lemma_cycle_never_ends(s, x, k, (f - k) as nat);
    }
}

/// A walk that ends reaches a name from which no hop leads on.
proof fn lemma_reach_last(s: Snapshot, x: Seq<char>, f: nat) -> (k: nat)
    requires
        has_node(s, x),
        walk(s, node_of(s, x), f) is Some,
    ensures
        k <= f,
        hops(s, x, k) is Some,
        hop(s, hops(s, x, k)->0) is None,
    decreases f,
{
    match hop(s, x) {
        None => 0,
        Some(z) => {
            let k = lemma_reach_last(s, z, (f - 1) as nat);
            k + 1
        },
    }
}

/// From a name `k` hops before the last one, the walk ends with `k + 1` fuel or more.
proof fn lemma_walk_ends_after(s: Snapshot, x: Seq<char>, k: nat, f: nat)
    requires
        hops(s, x, k) is Some,
        hop(s, hops(s, x, k)->0) is None,
        f >= k + 1,
    ensures
        walk(s, node_of(s, x), f) is Some,
    decreases k,
{
    if k > 0 {
        let z = hop(s, x)->0;
        lemma_walk_ends_after(s, z, (k - 1) as nat, (f - 1) as nat);
    }
}

/// Where the selections from the root lead to an end, the hop bound never
/// cuts the walk short: the chain resolves, and it holds at most one name
/// more than the snapshot has nodes.
pub proof fn lemma_acyclic_chain_resolves(s: Snapshot, root: Seq<char>)
    requires
        has_node(s, root),
        walk_ends(s, root),
    ensures
        chain_of(s, root) matches Ok(c) && c.len() <= s.len() + 1,
{
    let f = choose|f: nat| (#[trigger] walk(s, node_of(s, root), f)) is Some;
    let k = lemma_reach_last(s, root, f);
    let q = Seq::new(k + 1, |i: int| hops(s, root, i as nat)->0);
    assert forall|i: int| 0 <= i <= k implies #[trigger] hops(s, root, i as nat) is Some && has_node(
        s,
        q[i],
    ) by {
        lemma_hops_split(s, root, i as nat, (k - i) as nat);
        assert(i as nat + (k - i) as nat == k);
        lemma_hops_found(s, root, i as nat);
    }
    assert(q.no_duplicates()) by {
        assert forall|i: int, j: int| 0 <= i < q.len() && 0 <= j < q.len() && i != j implies q[i]
            != q[j] by {
            if q[i] == q[j] {
                let (a, b) = if i < j {
                    (i, j)
                } else {
                    (j, i)
                };
                let y = q[a];
                lemma_hops_split(s, root, a as nat, (b - a) as nat);
                assert(a as nat + (b - a) as nat == b as nat);
                assert(hops(s, root, a as nat) is Some);
                assert(hops(s, root, b as nat) is Some);
                assert(hops(s, y, (b - a) as nat) == Some(y));
                lemma_walk_through_hops(s, root, a as nat, f);
                lemma_cycle_never_ends(s, y, (b - a) as nat, (f - a) as nat);
            }
        }
    }
    let names = s.map_values(|e: (Seq<char>, NodeView)| e.0);
    assert(q.to_set().subset_of(names.to_set())) by {
        assert forall|y: Seq<char>| q.to_set().contains(y) implies names.to_set().contains(y) by {
            assert(q.contains(y));
            let i = choose|i: int| 0 <= i < q.len() && q[i] == y;
            assert(has_node(s, q[i]));
            let w = choose|w: int| 0 <= w < s.len() && s[w].0 == y;
            assert(names[w] == y);
        }
    }
    q.unique_seq_to_set();
    names.lemma_cardinality_of_set();
    vstd::seq_lib::seq_to_set_is_finite(names);
    vstd::set_lib::lemma_len_subset(q.to_set(), names.to_set());
    lemma_walk_ends_after(s, root, k, s.len());
    lemma_chain_len_bound(s, root);
}

} // verus!

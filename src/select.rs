use crate::chain::names_of;
use crate::models::{is_first_named, is_group_kind, selector_kind, ProxiesResponse, Snapshot};
use crate::text::{
    decimal_of, lemma_name_lt_irreflexive, lemma_name_lt_transitive, lower_of, lowercase, name_less,
    name_lt, parse_decimal, starts_with,
};
use vstd::prelude::*;

verus! {

/// Entry `i` is listed: it is the first entry of its name, and a group
/// (only a selector where `selectors_only`).
pub open spec fn listed(s: Snapshot, i: int, selectors_only: bool) -> bool {
    &&& is_first_named(s, s[i].0, i)
    &&& if selectors_only {
        s[i].1.kind == selector_kind()
    } else {
        is_group_kind(s[i].1.kind)
    }
}

/// Names of the listed entries among the first `len`, in snapshot order.
pub open spec fn listed_names(s: Snapshot, len: nat, selectors_only: bool) -> Seq<Seq<char>>
    decreases len,
{
    if len == 0 {
        Seq::empty()
    } else {
        let prev = listed_names(s, (len - 1) as nat, selectors_only);
        if listed(s, len - 1, selectors_only) {
            prev.push(s[len - 1].0)
        } else {
            prev
        }
    }
}

/// `x` put into `v` before the first name that it precedes.
pub open spec fn insert_sorted(v: Seq<Seq<char>>, x: Seq<char>) -> Seq<Seq<char>>
    decreases v.len(),
{
    if v.len() == 0 {
        seq![x]
    } else if name_lt(x, v[0]) {
        seq![x] + v
    } else {
        seq![v[0]] + insert_sorted(v.drop_first(), x)
    }
}

/// The names in name order.
pub open spec fn sort_names(v: Seq<Seq<char>>) -> Seq<Seq<char>>
    decreases v.len(),
{
    if v.len() == 0 {
        v
    } else {
        insert_sorted(sort_names(v.drop_last()), v.last())
    }
}

/// The groups of a snapshot (only the selectors where `selectors_only`), by name.
pub open spec fn sorted_listing(s: Snapshot, selectors_only: bool) -> Seq<Seq<char>> {
    sort_names(listed_names(s, s.len(), selectors_only))
}

proof fn lemma_insert_at(v: Seq<Seq<char>>, x: Seq<char>, p: int)
    requires
        0 <= p <= v.len(),
        forall|k: int| 0 <= k < p ==> !name_lt(x, v[k]),
        p == v.len() || name_lt(x, v[p]),
    ensures
        insert_sorted(v, x) == v.subrange(0, p) + seq![x] + v.subrange(p, v.len() as int),
    decreases p,
{
    if p == 0 {
        assert(v.subrange(0, 0) + seq![x] + v.subrange(0, v.len() as int) =~= seq![x] + v);
    } else {
        let t = v.drop_first();
        assert forall|k: int| 0 <= k < p - 1 implies !name_lt(x, t[k]) by {
            assert(t[k] == v[k + 1]);
        }
        lemma_insert_at(t, x, p - 1);
        assert(seq![v[0]] + (t.subrange(0, p - 1) + seq![x] + t.subrange(p - 1, t.len() as int))
            =~= v.subrange(0, p) + seq![x] + v.subrange(p, v.len() as int));
    }
}

/// Puts `x` into the ordered list `out` at its place in name order.
fn insert_by_name(out: &mut Vec<String>, x: String)
    ensures
        names_of(final(out)@) == insert_sorted(names_of(old(out)@), x@),
{
    let mut p: usize = 0;
    while p < out.len() && !name_less(x.as_str(), out[p].as_str())
        invariant
            p <= out@.len(),
            forall|k: int| 0 <= k < p ==> !name_lt(x@, out@[k]@),
        decreases out@.len() - p,
    {
        p = p + 1;
    }
    let ghost before = names_of(out@);
    proof {
        lemma_insert_at(before, x@, p as int);
    }
    out.insert(p, x);
    assert(names_of(out@) =~= before.subrange(0, p as int) + seq![x@] + before.subrange(
        p as int,
        before.len() as int,
    ));
}

impl ProxiesResponse {
    fn listing(&self, selectors_only: bool) -> (r: Vec<String>)
        ensures
            names_of(r@) == sorted_listing(self@, selectors_only),
    {
        let ghost s = self@;
        let mut out: Vec<String> = Vec::new();
        let mut i: usize = 0;
        while i < self.proxies.len()
            invariant
                s == self@,
                i <= s.len(),
                names_of(out@) == sort_names(listed_names(s, i as nat, selectors_only)),
            decreases s.len() - i,
        {
            let ghost prev = listed_names(s, i as nat, selectors_only);
            let name = &self.proxies[i].0;
            let info = &self.proxies[i].1;
            assert(s[i as int] == (name@, info@));
            let first = match self.position(name.as_str()) {
                Some(j) => j == i,
                None => false,
            };
            let kind_ok = if selectors_only {
                info.is_selector()
            } else {
                info.is_group()
            };
            if first && kind_ok {
                assert(listed(s, i as int, selectors_only));
                assert(prev.push(name@).drop_last() =~= prev);
                insert_by_name(&mut out, name.clone());
            } else {
                proof {
                    if is_first_named(s, s[i as int].0, i as int) {
                        crate::models::lemma_node_index(s, name@);
                        crate::models::lemma_first_named_unique(
                            s,
                            name@,
                            i as int,
                            crate::models::node_index(s, name@),
                        );
                    }
                }
                assert(!listed(s, i as int, selectors_only));
            }
            i = i + 1;
        }
        out
    }

    /// Names of the groups (selectors and URL tests), in name order.
    pub fn group_names(&self) -> (r: Vec<String>)
        ensures
            names_of(r@) == sorted_listing(self@, false),
    {
        self.listing(false)
    }

    /// Names of the selector groups, in name order.
    pub fn selector_names(&self) -> (r: Vec<String>)
        ensures
            names_of(r@) == sorted_listing(self@, true),
    {
        self.listing(true)
    }
}

/// Why a token picks no group.
#[derive(Debug)]
pub enum SelectError {
    /// A number that is not the position of a group (positions start at 1).
    IndexOutOfRange,
    /// No group name matches.
    NoMatch,
    /// Several group names match, all of them given in name order.
    AmbiguousMatch(Vec<String>),
}

/// What a token picks among group names.
pub enum Selection {
    Picked(Seq<char>),
    OutOfRange,
    NoneMatched,
    Ambiguous(Seq<Seq<char>>),
}

/// The names among the first `n` of `groups` whose key in `keys` starts
/// with `key`, in order.
pub open spec fn prefix_matches(
    groups: Seq<Seq<char>>,
    keys: Seq<Seq<char>>,
    key: Seq<char>,
    n: nat,
) -> Seq<Seq<char>>
    decreases n,
{
    if n == 0 {
        Seq::empty()
    } else {
        let prev = prefix_matches(groups, keys, key, (n - 1) as nat);
        if key.is_prefix_of(keys[n - 1]) {
            prev.push(groups[n - 1])
        } else {
            prev
        }
    }
}

/// One candidate is picked, several are ambiguous, none leave the choice
/// to `otherwise`.
pub open spec fn among(candidates: Seq<Seq<char>>, otherwise: Selection) -> Selection {
    if candidates.len() == 1 {
        Selection::Picked(candidates[0])
    } else if candidates.len() > 1 {
        Selection::Ambiguous(candidates)
    } else {
        otherwise
    }
}

/// What `token` picks among `groups` (in name order), with `folded` the
/// lower case of each group name and `folded_token` that of the token:
/// a number is a position counted from 1; otherwise an equal name wins,
/// then the names that start with the token, then those that do so in
/// lower case.
pub open spec fn selection_with(
    groups: Seq<Seq<char>>,
    folded: Seq<Seq<char>>,
    token: Seq<char>,
    folded_token: Seq<char>,
) -> Selection {
    match decimal_of(token) {
        Some(i) => if 1 <= i <= groups.len() {
            Selection::Picked(groups[i - 1])
        } else {
            Selection::OutOfRange
        },
        None => if groups.contains(token) {
            Selection::Picked(token)
        } else {
            among(
                prefix_matches(groups, groups, token, groups.len()),
                among(
                    prefix_matches(groups, folded, folded_token, groups.len()),
                    Selection::NoneMatched,
                ),
            )
        },
    }
}

/// What `token` picks among the groups of a snapshot.
pub open spec fn selection_of(s: Snapshot, token: Seq<char>) -> Selection {
    let groups = sorted_listing(s, false);
    selection_with(groups, groups.map_values(|g: Seq<char>| lower_of(g)), token, lower_of(token))
}

/// The outcome that a result reports.
pub open spec fn outcome(r: Result<String, SelectError>) -> Selection {
    match r {
        Ok(g) => Selection::Picked(g@),
        Err(SelectError::IndexOutOfRange) => Selection::OutOfRange,
        Err(SelectError::NoMatch) => Selection::NoneMatched,
        Err(SelectError::AmbiguousMatch(c)) => Selection::Ambiguous(names_of(c@)),
    }
}

fn collect_matches(groups: &Vec<String>, keys: &Vec<String>, key: &str) -> (r: Vec<String>)
    requires
        keys@.len() == groups@.len(),
    ensures
        names_of(r@) == prefix_matches(names_of(groups@), names_of(keys@), key@, groups@.len()),
{
    let mut out: Vec<String> = Vec::new();
    let mut i: usize = 0;
    while i < groups.len()
        invariant
            keys@.len() == groups@.len(),
            i <= groups@.len(),
            names_of(out@) == prefix_matches(names_of(groups@), names_of(keys@), key@, i as nat),
        decreases groups@.len() - i,
    {
        if starts_with(keys[i].as_str(), key) {
            let ghost before = names_of(out@);
            out.push(groups[i].clone());
            assert(names_of(out@) =~= before.push(groups@[i as int]@));
        }
        i = i + 1;
    }
    out
}

fn decide(candidates: Vec<String>) -> (r: Option<Result<String, SelectError>>)
    ensures
        match r {
            Some(res) => among(names_of(candidates@), Selection::NoneMatched) == outcome(res)
                && candidates@.len() > 0,
            None => candidates@.len() == 0,
        },
{
    if candidates.len() == 1 {
        Some(Ok(candidates[0].clone()))
    } else if candidates.len() > 1 {
        Some(Err(SelectError::AmbiguousMatch(candidates)))
    } else {
        None
    }
}

/// Picks one of `groups` (names in name order) by `token`, given the lower
/// case of each name in `folded` and that of the token in `folded_token`.
pub fn pick_group(groups: &Vec<String>, folded: &Vec<String>, token: &str, folded_token: &str) -> (r:
    Result<String, SelectError>)
    requires
        folded@.len() == groups@.len(),
    ensures
        outcome(r) == selection_with(names_of(groups@), names_of(folded@), token@, folded_token@),
{
    let ghost g = names_of(groups@);
    match parse_decimal(token) {
        Some(i) => {
            if 1 <= i && i <= groups.len() {
                return Ok(groups[i - 1].clone());
            } else {
                return Err(SelectError::IndexOutOfRange);
            }
        },
        None => {},
    }
    let key = token.to_owned();
    let mut k: usize = 0;
    while k < groups.len()
        invariant
            g == names_of(groups@),
            key@ == token@,
            decimal_of(token@) is None,
            k <= groups@.len(),
            forall|j: int| 0 <= j < k ==> g[j] != token@,
        decreases groups@.len() - k,
    {
        if groups[k] == key {
            assert(g[k as int] == token@);
            return Ok(groups[k].clone());
        }
        k = k + 1;
    }
    assert(!g.contains(token@));
    let exact = collect_matches(groups, groups, token);
    match decide(exact) {
        Some(res) => {
            return res;
        },
        None => {},
    }
    let loose = collect_matches(groups, folded, folded_token);
    match decide(loose) {
        Some(res) => res,
        None => Err(SelectError::NoMatch),
    }
}

/// Picks one group of the snapshot by `token`: a position in name order
/// counted from 1, or a name, or the start of exactly one name (taken as
/// written, or else in lower case).
pub fn select_group(snapshot: &ProxiesResponse, token: &str) -> (r: Result<String, SelectError>)
    ensures
        outcome(r) == selection_of(snapshot@, token@),
{
    let groups = snapshot.group_names();
    let mut folded: Vec<String> = Vec::new();
    let mut i: usize = 0;
    while i < groups.len()
        invariant
            i <= groups@.len(),
            folded@.len() == i,
            forall|j: int| 0 <= j < i ==> folded@[j]@ == lower_of(groups@[j]@),
        decreases groups@.len() - i,
    {
        folded.push(lowercase(groups[i].as_str()));
        i = i + 1;
    }
    let folded_token = lowercase(token);
    assert(names_of(folded@) =~= names_of(groups@).map_values(|g: Seq<char>| lower_of(g)));
    pick_group(&groups, &folded, token, folded_token.as_str())
}

proof fn lemma_insert_sorted(v: Seq<Seq<char>>, x: Seq<char>)
    ensures
        insert_sorted(v, x).len() == v.len() + 1,
        forall|y: Seq<char>| #[trigger]
            insert_sorted(v, x).contains(y) <==> (v.contains(y) || y == x),
        (v.len() == 0 || forall|y: Seq<char>| v.contains(y) ==> !name_lt(y, v[0])) ==> forall|
            y: Seq<char>,
        | insert_sorted(v, x).contains(y) ==> !name_lt(y, insert_sorted(v, x)[0]),
    decreases v.len(),
{
    let ins = insert_sorted(v, x);
    lemma_name_lt_irreflexive(x);
    if v.len() == 0 {
        assert forall|y: Seq<char>| ins.contains(y) <==> (v.contains(y) || y == x) by {
            if ins.contains(y) {
                assert(ins[0] == x);
            }
            if y == x {
                assert(ins[0] == y);
            }
        }
    } else if name_lt(x, v[0]) {
        assert forall|y: Seq<char>| ins.contains(y) <==> (v.contains(y) || y == x) by {
            if ins.contains(y) {
                let k = choose|k: int| 0 <= k < ins.len() && ins[k] == y;
                if k > 0 {
                    assert(v[k - 1] == y);
                }
            }
            if v.contains(y) {
                let k = choose|k: int| 0 <= k < v.len() && v[k] == y;
                assert(ins[k + 1] == y);
            }
            if y == x {
                assert(ins[0] == y);
            }
        }
        if forall|y: Seq<char>| v.contains(y) ==> !name_lt(y, v[0]) {
            assert forall|y: Seq<char>| ins.contains(y) implies !name_lt(y, ins[0]) by {
                if y != x && name_lt(y, x) {
                    lemma_name_lt_transitive(y, x, v[0]);
                }
            }
        }
    } else {
        let t = v.drop_first();
        lemma_insert_sorted(t, x);
        let rest = insert_sorted(t, x);
        assert(ins == seq![v[0]] + rest);
        assert forall|y: Seq<char>| ins.contains(y) <==> (v.contains(y) || y == x) by {
            if ins.contains(y) {
                let k = choose|k: int| 0 <= k < ins.len() && ins[k] == y;
                if k > 0 {
                    assert(rest[k - 1] == y);
                    assert(rest.contains(y));
                    if t.contains(y) {
                        let j = choose|j: int| 0 <= j < t.len() && t[j] == y;
                        assert(v[j + 1] == y);
                    }
                } else {
                    assert(v[0] == y);
                }
            }
            if v.contains(y) {
                let k = choose|k: int| 0 <= k < v.len() && v[k] == y;
                if k > 0 {
                    assert(t[k - 1] == y);
                    assert(rest.contains(y));
                    let j = choose|j: int| 0 <= j < rest.len() && rest[j] == y;
                    assert(ins[j + 1] == y);
                } else {
                    assert(ins[0] == y);
                }
            }
            if y == x {
                assert(rest.contains(y));
                let j = choose|j: int| 0 <= j < rest.len() && rest[j] == y;
                assert(ins[j + 1] == y);
            }
        }
        if forall|y: Seq<char>| v.contains(y) ==> !name_lt(y, v[0]) {
            assert forall|y: Seq<char>| ins.contains(y) implies !name_lt(y, ins[0]) by {
                assert(ins[0] == v[0]);
            }
        }
    }
}

proof fn lemma_sort_names(v: Seq<Seq<char>>)
    ensures
        sort_names(v).len() == v.len(),
        forall|y: Seq<char>| #[trigger] sort_names(v).contains(y) <==> v.contains(y),
        v.len() > 0 ==> forall|y: Seq<char>|
            sort_names(v).contains(y) ==> !name_lt(y, sort_names(v)[0]),
    decreases v.len(),
{
    if v.len() > 0 {
        let d = v.drop_last();
        lemma_sort_names(d);
        lemma_insert_sorted(sort_names(d), v.last());
        assert forall|y: Seq<char>| v.contains(y) <==> (d.contains(y) || y == v.last()) by {
            if v.contains(y) {
                let k = choose|k: int| 0 <= k < v.len() && v[k] == y;
                if k < v.len() - 1 {
                    assert(d[k] == y);
                }
            }
            if d.contains(y) {
                let k = choose|k: int| 0 <= k < d.len() && d[k] == y;
                assert(v[k] == y);
            }
        }
    }
}

/// A number that is not the position of a group (0, or past the last
/// group) picks nothing.
pub proof fn lemma_position_out_of_range(s: Snapshot, token: Seq<char>)
    requires
        decimal_of(token) matches Some(i) && (i == 0 || i > sorted_listing(s, false).len()),
    ensures
        selection_of(s, token) is OutOfRange,
{
}

/// Position 1 picks the group whose name comes first in name order.
pub proof fn lemma_first_position_is_least(s: Snapshot, token: Seq<char>)
    requires
        decimal_of(token) == Some(1nat),
        listed_names(s, s.len(), false).len() > 0,
    ensures
        selection_of(s, token) matches Selection::Picked(g) && listed_names(
            s,
            s.len(),
            false,
        ).contains(g) && forall|h: Seq<char>| #[trigger]
            listed_names(s, s.len(), false).contains(h) ==> !name_lt(h, g),
{
    let v = listed_names(s, s.len(), false);
    lemma_sort_names(v);
    let g = sort_names(v)[0];
    assert(sort_names(v).contains(g));
    assert forall|h: Seq<char>| #[trigger] v.contains(h) implies !name_lt(h, g) by {
        assert(sort_names(v).contains(h));
    }
}

/// A token that is not a number and equals a group's name picks that
/// group, however many other names it starts.
pub proof fn lemma_exact_name_wins(s: Snapshot, token: Seq<char>)
    requires
        decimal_of(token) is None,
        listed_names(s, s.len(), false).contains(token),
    ensures
        selection_of(s, token) == Selection::Picked(token),
{
    lemma_sort_names(listed_names(s, s.len(), false));
}

} // verus!

use vstd::prelude::*;

verus! {

/// What the controller reports of itself.
pub struct Version {
    pub meta: bool,
    pub version: String,
}

/// The part of the controller's configuration that this client reads.
pub struct Config {
    pub mode: String,
}

/// One latency sample of a proxy.
pub struct HistoryItem {
    pub time: String,
    pub delay: u32,
}

/// One proxy or proxy group as the controller reports it.
pub struct ProxyInfo {
    pub proxy_type: String,
    pub all: Vec<String>,
    pub now: String,
    pub history: Vec<HistoryItem>,
}

/// Body of a request that selects `name` in a group.
pub struct SwitchRequest {
    pub name: String,
}

/// Body of a request that sets the traffic mode.
pub struct ModeRequest {
    pub mode: String,
}

/// A full snapshot of the controller's proxies, as (name, node) pairs.
/// Where a name occurs twice, its first entry counts.
pub struct ProxiesResponse {
    pub proxies: Vec<(String, ProxyInfo)>,
}

/// What the logic reads of a node.
pub struct NodeView {
    pub kind: Seq<char>,
    pub members: Seq<Seq<char>>,
    pub active: Seq<char>,
}

impl View for ProxyInfo {
    type V = NodeView;

    open spec fn view(&self) -> NodeView {
        NodeView {
            kind: self.proxy_type@,
            members: self.all@.map_values(|m: String| m@),
            active: self.now@,
        }
    }
}

/// A snapshot seen as a sequence of (name, node) pairs.
pub type Snapshot = Seq<(Seq<char>, NodeView)>;

impl View for ProxiesResponse {
    type V = Snapshot;

    open spec fn view(&self) -> Snapshot {
        self.proxies@.map_values(|e: (String, ProxyInfo)| (e.0@, e.1@))
    }
}

pub open spec fn selector_kind() -> Seq<char> {
    "Selector"@
}

pub open spec fn url_test_kind() -> Seq<char> {
    "URLTest"@
}

/// Groups are the nodes that point at a member: selectors and URL tests.
pub open spec fn is_group_kind(kind: Seq<char>) -> bool {
    kind == selector_kind() || kind == url_test_kind()
}

/// `i` is the first entry of the snapshot named `name`.
pub open spec fn is_first_named(s: Snapshot, name: Seq<char>, i: int) -> bool {
    &&& 0 <= i < s.len()
    &&& s[i].0 == name
    &&& forall|k: int| 0 <= k < i ==> s[k].0 != name
}

pub open spec fn has_node(s: Snapshot, name: Seq<char>) -> bool {
    exists|i: int| 0 <= i < s.len() && s[i].0 == name
}

pub open spec fn node_index(s: Snapshot, name: Seq<char>) -> int {
    choose|i: int| is_first_named(s, name, i)
}

/// The node that a name stands for (meaningful where `has_node`).
pub open spec fn node_of(s: Snapshot, name: Seq<char>) -> NodeView {
    s[node_index(s, name)].1
}

/// Where some entry is named `name`, the first one is found by `node_index`.
pub proof fn lemma_node_index(s: Snapshot, name: Seq<char>)
    requires
        has_node(s, name),
    ensures
        is_first_named(s, name, node_index(s, name)),
{
    let w = choose|i: int| 0 <= i < s.len() && s[i].0 == name;
    lemma_first_named_exists(s, name, w);
}

proof fn lemma_first_named_exists(s: Snapshot, name: Seq<char>, w: int)
    requires
        0 <= w < s.len(),
        s[w].0 == name,
    ensures
        exists|i: int| is_first_named(s, name, i),
    decreases w,
{
    if exists|k: int| 0 <= k < w && s[k].0 == name {
        let k = choose|k: int| 0 <= k < w && s[k].0 == name;
        lemma_first_named_exists(s, name, k);
    } else {
        assert(is_first_named(s, name, w));
    }
}

/// Only one entry can be the first of its name.
pub proof fn lemma_first_named_unique(s: Snapshot, name: Seq<char>, i: int, j: int)
    requires
        is_first_named(s, name, i),
        is_first_named(s, name, j),
    ensures
        i == j,
{
}

impl ProxyInfo {
    /// Whether this node is a group (a selector or a URL test).
    pub fn is_group(&self) -> (r: bool)
        ensures
            r == is_group_kind(self@.kind),
    {
        let sel = "Selector".to_owned();
        let url = "URLTest".to_owned();
        self.proxy_type == sel || self.proxy_type == url
    }

    /// Whether this node is a selector, the one group kind that can be switched.
    pub fn is_selector(&self) -> (r: bool)
        ensures
            r == (self@.kind == selector_kind()),
    {
        let sel = "Selector".to_owned();
        self.proxy_type == sel
    }
}

impl ProxiesResponse {
    /// Position of the node named `name`; `None` where no node has that name.
    pub fn position(&self, name: &str) -> (r: Option<usize>)
        ensures
            r.is_none() == !has_node(self@, name@),
            r matches Some(i) ==> is_first_named(self@, name@, i as int) && i as int == node_index(
                self@,
                name@,
            ),
    {
        let key = name.to_owned();
        let mut i: usize = 0;
        while i < self.proxies.len()
            invariant
                i <= self.proxies@.len(),
                key@ == name@,
                forall|k: int| 0 <= k < i ==> self@[k].0 != name@,
            decreases self.proxies@.len() - i,
        {
            assert(self@[i as int].0 == self.proxies@[i as int].0@);
            if self.proxies[i].0 == key {
                proof {
                    assert(is_first_named(self@, name@, i as int));
                    lemma_node_index(self@, name@);
                    lemma_first_named_unique(self@, name@, i as int, node_index(self@, name@));
                }
                return Some(i);
            }
            i = i + 1;
        }
        None
    }
}

} // verus!

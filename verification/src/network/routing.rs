//! Routing by node id, Pastry style: a message for an id goes to the
//! known node whose id is nearest to it.
use vstd::prelude::*;
use crate::network::p2p::NodeInfo;
use crate::text::{parse_unsigned, parse_unsigned_spec, digit_value, contains_string, views};

verus! {

/// An id read as a hexadecimal number, 0 when it is not one.
pub open spec fn hex_value(id: Seq<char>) -> u64 {
    match parse_unsigned_spec(id, 16, u64::MAX as int) {
        Ok(v) => v as u64,
        Err(_) => 0,
    }
}

/// The distance of two ids: their values XOR-ed.
pub open spec fn distance(id1: Seq<char>, id2: Seq<char>) -> u64 {
    hex_value(id1) ^ hex_value(id2)
}

/// The distance is the XOR metric: an id is at distance 0 from itself and
/// only from ids of the same value; it is symmetric; an id of value 0 is at
/// its own value from every id; and distances compose by XOR, so that
/// `distance(a, c)` is `distance(a, b) ^ distance(b, c)` for any `b`.
pub proof fn lemma_distance_is_xor(a: Seq<char>, b: Seq<char>, c: Seq<char>)
    ensures
        distance(a, a) == 0,
        distance(a, b) == 0 <==> hex_value(a) == hex_value(b),
        distance(a, b) == distance(b, a),
        hex_value(b) == 0 ==> distance(a, b) == hex_value(a),
        distance(a, c) == distance(a, b) ^ distance(b, c),
{
    let x = hex_value(a);
    let y = hex_value(b);
    let z = hex_value(c);
    assert(x ^ x == 0u64) by (bit_vector);
    assert((x ^ y == 0u64) <==> x == y) by (bit_vector);
    assert(x ^ y == y ^ x) by (bit_vector);
    assert(y == 0u64 ==> x ^ y == x) by (bit_vector);
    assert(x ^ z == (x ^ y) ^ (y ^ z)) by (bit_vector);
}

pub fn calculate_distance(id1: &str, id2: &str) -> (d: u64)
    ensures
        d == distance(id1@, id2@),
{
    let n1 = match parse_unsigned(id1, 16, u64::MAX) {
        Ok(v) => v,
        Err(_) => 0,
    };
    let n2 = match parse_unsigned(id2, 16, u64::MAX) {
        Ok(v) => v,
        Err(_) => 0,
    };
    n1 ^ n2
}

/// The number of hexadecimal digits at the start of `s`.
pub open spec fn leading_hex_digits(s: Seq<char>) -> nat
    decreases s.len(),
{
    if s.len() == 0 || digit_value(s[0], 16) is None {
        0
    } else {
        1 + leading_hex_digits(s.drop_first())
    }
}

pub fn calculate_shared_prefix(id: &str) -> (n: usize)
    ensures
        n == leading_hex_digits(id@),
{
    let len = id.unicode_len();
    let mut i: usize = 0;
    assert(id@.skip(0) =~= id@);
    while i < len
        invariant
            len == id@.len(),
            i <= len,
            forall|j: int| 0 <= j < i ==> digit_value(#[trigger] id@[j], 16) is Some,
            leading_hex_digits(id@) == i + leading_hex_digits(id@.skip(i as int)),
        decreases len - i,
    {
        let c = id.get_char(i);
        let hex = ('0' <= c && c <= '9') || ('a' <= c && c <= 'f') || ('A' <= c && c <= 'F');
        assert(id@.skip(i as int)[0] == c);
        if !hex {
            assert(digit_value(id@.skip(i as int)[0], 16) is None);
            return i;
        }
        assert(id@.skip(i as int).drop_first() =~= id@.skip(i + 1));
        i = i + 1;
    }
    assert(id@.skip(i as int).len() == 0);
    i
}

/// The nodes of a table, by id.
pub uninterp spec fn node_table(m: dashmap::DashMap<String, NodeInfo>) -> Map<Seq<char>, NodeInfo>;

/// `DashMap::new` for a node table.
#[verifier::external_body]
pub(crate) fn new_node_table() -> (m: dashmap::DashMap<String, NodeInfo>)
    ensures
        node_table(m).dom() == Set::<Seq<char>>::empty(),
{
    dashmap::DashMap::new()
}

/// The entries of a node table, as `DashMap::iter` walks them: each id
/// once with its node, in an order that the map does not promise.
#[verifier::external_body]
fn node_entries(m: &dashmap::DashMap<String, NodeInfo>) -> (r: Vec<(String, NodeInfo)>)
    ensures
        r@.map_values(|e: (String, NodeInfo)| e.0@).no_duplicates(),
        r@.map_values(|e: (String, NodeInfo)| e.0@).to_set() == node_table(*m).dom(),
        forall|i: int| 0 <= i < r@.len() ==> node_table(*m)[(#[trigger] r@[i]).0@] == r@[i].1,
{
    m.iter().map(|entry| (entry.key().clone(), entry.value().copy())).collect()
}

/// The node of `table` whose id is nearest to `target`, when the table
/// has one.
pub open spec fn nearest_in(table: Map<Seq<char>, NodeInfo>, target: Seq<char>, n: NodeInfo) -> bool {
    exists|k: Seq<char>| #[trigger] table.contains_key(k) && table[k] == n
        && forall|k2: Seq<char>| #[trigger] table.contains_key(k2) ==> distance(k, target) <= distance(k2, target)
}

/// The node nearest to `target` in a table; the first of the nearest as the
/// table is walked.
fn nearest(m: &dashmap::DashMap<String, NodeInfo>, target: &str) -> (r: Option<NodeInfo>)
    ensures
        match r {
            Some(n) => nearest_in(node_table(*m), target@, n),
            None => node_table(*m).dom() == Set::<Seq<char>>::empty(),
        },
{
    let entries = node_entries(m);
    let ghost keys = entries@.map_values(|e: (String, NodeInfo)| e.0@);
    if entries.len() == 0 {
        assert(keys.to_set() =~= Set::<Seq<char>>::empty());
        return None;
    }
    let mut best: usize = 0;
    let mut best_d = calculate_distance(entries[0].0.as_str(), target);
    let mut i: usize = 1;
    while i < entries.len()
        invariant
            1 <= i <= entries@.len(),
            best < i,
            best_d == distance(entries@[best as int].0@, target@),
            forall|j: int| 0 <= j < i ==> best_d <= distance((#[trigger] entries@[j]).0@, target@),
        decreases entries@.len() - i,
    {
        let d = calculate_distance(entries[i].0.as_str(), target);
        if d < best_d {
            best = i;
            best_d = d;
        }
        i = i + 1;
    }
    proof {
        let k = entries@[best as int].0@;
        assert(keys[best as int] == k);
        assert(node_table(*m).contains_key(k));
        assert forall|k2: Seq<char>| #[trigger] node_table(*m).contains_key(k2) implies distance(k, target@) <= distance(k2, target@) by {
            assert(keys.to_set().contains(k2));
            let j = choose|j: int| 0 <= j < keys.len() && keys[j] == k2;
            assert(entries@[j].0@ == k2);
        }
    }
    Some(entries[best].1.copy())
}

/// The ids of a list of nodes.
pub open spec fn node_ids(v: Seq<NodeInfo>) -> Seq<Seq<char>> {
    v.map_values(|n: NodeInfo| n.id@)
}

/// The node of `table` nearest to `target` among those whose id is not in
/// `skip`.
pub open spec fn nearest_outside(table: Map<Seq<char>, NodeInfo>, target: Seq<char>, skip: Seq<Seq<char>>, n: NodeInfo) -> bool {
    exists|k: Seq<char>| #[trigger] table.contains_key(k) && table[k] == n && !skip.contains(n.id@)
        && forall|k2: Seq<char>| #[trigger] table.contains_key(k2) && !skip.contains(table[k2].id@)
            ==> distance(k, target) <= distance(k2, target)
}

/// Whether every node of `table` has its id in `skip`.
pub open spec fn all_skipped(table: Map<Seq<char>, NodeInfo>, skip: Seq<Seq<char>>) -> bool {
    forall|k: Seq<char>| #[trigger] table.contains_key(k) ==> skip.contains(table[k].id@)
}

/// The node nearest to `target` in a table among those whose id is not in
/// `skip`; the first of the nearest as the table is walked.
fn nearest_skipping(m: &dashmap::DashMap<String, NodeInfo>, target: &str, skip: &Vec<String>) -> (r: Option<NodeInfo>)
    ensures
        match r {
            Some(n) => nearest_outside(node_table(*m), target@, views(skip@), n),
            None => all_skipped(node_table(*m), views(skip@)),
        },
{
    let entries = node_entries(m);
    let ghost keys = entries@.map_values(|e: (String, NodeInfo)| e.0@);
    let mut best: Option<usize> = None;
    let mut best_d: u64 = 0;
    let mut i: usize = 0;
    while i < entries.len()
        invariant
            i <= entries@.len(),
            match best {
                Some(b) => {
                    &&& b < i
                    &&& best_d == distance(entries@[b as int].0@, target@)
                    &&& !views(skip@).contains(entries@[b as int].1.id@)
                    &&& forall|j: int| 0 <= j < i && !views(skip@).contains((#[trigger] entries@[j]).1.id@)
                        ==> best_d <= distance(entries@[j].0@, target@)
                },
                None => forall|j: int| 0 <= j < i ==> views(skip@).contains((#[trigger] entries@[j]).1.id@),
            },
        decreases entries@.len() - i,
    {
        let skipped = contains_string(skip, &entries[i].1.id);
        if !skipped {
            let d = calculate_distance(entries[i].0.as_str(), target);
            match best {
                None => {
                    best = Some(i);
                    best_d = d;
                },
                Some(_) => {
                    if d < best_d {
                        best = Some(i);
                        best_d = d;
                    }
                },
            }
        }
        i = i + 1;
    }
    match best {
        None => {
            proof {
                assert forall|k: Seq<char>| #[trigger] node_table(*m).contains_key(k) implies views(skip@).contains(node_table(*m)[k].id@) by {
                    assert(keys.to_set().contains(k));
                    let j = choose|j: int| 0 <= j < keys.len() && keys[j] == k;
                    assert(entries@[j].0@ == k);
                }
            }
            None
        },
        Some(b) => {
            proof {
                let k = entries@[b as int].0@;
                assert(keys[b as int] == k);
                assert(node_table(*m).contains_key(k));
                assert forall|k2: Seq<char>| #[trigger] node_table(*m).contains_key(k2) && !views(skip@).contains(node_table(*m)[k2].id@)
                    implies distance(k, target@) <= distance(k2, target@) by {
                    assert(keys.to_set().contains(k2));
                    let j = choose|j: int| 0 <= j < keys.len() && keys[j] == k2;
                    assert(entries@[j].0@ == k2);
                }
            }
            Some(entries[b].1.copy())
        },
    }
}

pub struct RoutingTable {
    pub rows: Vec<dashmap::DashMap<String, NodeInfo>>,
    pub leaf_set: dashmap::DashMap<String, NodeInfo>,
    pub neighborhood_set: dashmap::DashMap<String, NodeInfo>,
}

impl RoutingTable {
    /// What `route` may give for `target`: the nearest node of the leaf set
    /// when it has any, else the nearest node of the row named by the number
    /// of hexadecimal digits that `target` starts with (none when that row
    /// is empty or missing).
    pub open spec fn route_result(&self, target: Seq<char>, r: Option<NodeInfo>) -> bool {
        &&& node_table(self.leaf_set).dom() != Set::<Seq<char>>::empty() ==> (r matches Some(n) && nearest_in(node_table(self.leaf_set), target, n))
        &&& node_table(self.leaf_set).dom() == Set::<Seq<char>>::empty() ==> {
            let row = leading_hex_digits(target);
            if row < self.rows@.len() {
                match r {
                    Some(n) => nearest_in(node_table(self.rows@[row as int]), target, n),
                    None => node_table(self.rows@[row as int]).dom() == Set::<Seq<char>>::empty(),
                }
            } else {
                r is None
            }
        }
    }

    /// What `next_closest` may give for `target` past the ids in `skip`:
    /// as `route_result`, among the nodes whose id is not in `skip`.
    pub open spec fn next_closest_result(&self, target: Seq<char>, skip: Seq<Seq<char>>, r: Option<NodeInfo>) -> bool {
        &&& !all_skipped(node_table(self.leaf_set), skip) ==> (r matches Some(n) && nearest_outside(node_table(self.leaf_set), target, skip, n))
        &&& all_skipped(node_table(self.leaf_set), skip) ==> {
            let row = leading_hex_digits(target);
            if row < self.rows@.len() {
                match r {
                    Some(n) => nearest_outside(node_table(self.rows@[row as int]), target, skip, n),
                    None => all_skipped(node_table(self.rows@[row as int]), skip),
                }
            } else {
                r is None
            }
        }
    }

    /// A table of `b` empty rows, with an empty leaf set and neighbourhood.
    pub fn new(node_id: &str, b: u8) -> (t: RoutingTable)
        ensures
            t.rows@.len() == b,
            forall|i: int| 0 <= i < b ==> node_table(#[trigger] t.rows@[i]).dom() == Set::<Seq<char>>::empty(),
            node_table(t.leaf_set).dom() == Set::<Seq<char>>::empty(),
            node_table(t.neighborhood_set).dom() == Set::<Seq<char>>::empty(),
    {
        let mut rows: Vec<dashmap::DashMap<String, NodeInfo>> = Vec::new();
        let mut i: u8 = 0;
        while i < b
            invariant
                i <= b,
                rows@.len() == i,
                forall|j: int| 0 <= j < i ==> node_table(#[trigger] rows@[j]).dom() == Set::<Seq<char>>::empty(),
            decreases b - i,
        {
            rows.push(new_node_table());
            i = i + 1;
        }
        RoutingTable { rows, leaf_set: new_node_table(), neighborhood_set: new_node_table() }
    }

    /// The node for `target`: the nearest in the leaf set when it has any,
    /// else the nearest in the row named by the number of hexadecimal
    /// digits that `target` starts with, when there is such a row.
    pub fn route(&self, target: &str) -> (r: Option<NodeInfo>)
        ensures
            self.route_result(target@, r),
    {
        match nearest(&self.leaf_set, target) {
            Some(n) => Some(n),
            None => {
                let row = calculate_shared_prefix(target);
                if row < self.rows.len() {
                    nearest(&self.rows[row], target)
                } else {
                    None
                }
            },
        }
    }

    /// The node nearest to `target` whose id is not in `skip`: from the
    /// leaf set while it has such a node, else from the row that `route`
    /// uses.
    pub fn next_closest(&self, target: &str, skip: &Vec<String>) -> (r: Option<NodeInfo>)
        ensures
            self.next_closest_result(target@, views(skip@), r),
    {
        match nearest_skipping(&self.leaf_set, target, skip) {
            Some(n) => Some(n),
            None => {
                let row = calculate_shared_prefix(target);
                if row < self.rows.len() {
                    nearest_skipping(&self.rows[row], target, skip)
                } else {
                    None
                }
            },
        }
    }
}

} // verus!

//! Rebuilding the accessibility tree from the flat node list that the
//! accessibility domain reports for a page.
//!
//! Every node names its children by id, and ids are looked up the way a map
//! filled in list order finds them: the last node with an id wins. Ignored
//! nodes are left out together with everything below them. The roots are the
//! nodes, in list order, that are not ignored and whose parent is absent or
//! unknown.

use vstd::prelude::*;

verus! {

broadcast use vstd::seq_lib::group_seq_properties;

/// One node of the flat accessibility list, with the parts the tree needs.
#[derive(Debug)]
pub struct AxNodeRecord {
    pub node_id: String,
    pub parent_id: Option<String>,
    pub ignored: bool,
    /// The role, where the node gives it as a string.
    pub role: Option<String>,
    /// The accessible name, where the node gives it as a string.
    pub name: Option<String>,
    pub backend_dom_node_id: Option<i64>,
    pub child_ids: Vec<String>,
}

/// A node of the rebuilt accessibility tree.
#[derive(Debug)]
pub struct AXNode {
    pub backend_node_id: u64,
    pub role: String,
    pub name: String,
    pub children: Vec<AXNode>,
}

/// The mathematical form of an accessibility tree.
pub struct AxTree {
    pub backend_node_id: u64,
    pub role: Seq<char>,
    pub name: Seq<char>,
    pub children: Seq<AxTree>,
}

/// The tree an `AXNode` holds.
pub open spec fn tree_of(node: AXNode) -> AxTree
    decreases node,
{
    AxTree {
        backend_node_id: node.backend_node_id,
        role: node.role@,
        name: node.name@,
        children: trees_of(node.children@),
    }
}

/// The trees a sequence of `AXNode`s holds.
pub open spec fn trees_of(nodes: Seq<AXNode>) -> Seq<AxTree>
    decreases nodes,
{
    if nodes.len() == 0 {
        seq![]
    } else {
        trees_of(nodes.drop_last()).push(tree_of(nodes.last()))
    }
}

/// The position of the last record before `k` whose id is `id`.
pub open spec fn last_with_id_before(nodes: Seq<AxNodeRecord>, id: Seq<char>, k: int) -> Option<int>
    decreases k,
{
    if k <= 0 {
        None
    } else if nodes[k - 1].node_id@ == id {
        Some(k - 1)
    } else {
        last_with_id_before(nodes, id, k - 1)
    }
}

/// The record an id stands for: the last one with that id.
pub open spec fn lookup(nodes: Seq<AxNodeRecord>, id: Seq<char>) -> Option<int> {
    last_with_id_before(nodes, id, nodes.len() as int)
}

/// The role shown for a node: its role, or `unknown`.
pub open spec fn role_text(role: Option<String>) -> Seq<char> {
    match role {
        Some(r) => r@,
        None => "unknown"@,
    }
}

/// The name shown for a node: its name, or nothing.
pub open spec fn name_text(name: Option<String>) -> Seq<char> {
    match name {
        Some(n) => n@,
        None => seq![],
    }
}

/// The backend DOM node id shown for a node, or 0.
pub open spec fn backend_id(id: Option<i64>) -> u64 {
    match id {
        Some(v) => v as u64,
        None => 0,
    }
}

/// The tree below the node with id `id`, built with at most `fuel` levels.
pub open spec fn built(nodes: Seq<AxNodeRecord>, id: Seq<char>, fuel: nat) -> Option<AxTree>
    decreases fuel, 0nat,
{
    match lookup(nodes, id) {
        None => None,
        Some(j) => if nodes[j].ignored || fuel == 0 {
            None
        } else {
            Some(
                AxTree {
                    backend_node_id: backend_id(nodes[j].backend_dom_node_id),
                    role: role_text(nodes[j].role),
                    name: name_text(nodes[j].name),
                    children: built_children(nodes, nodes[j].child_ids@, (fuel - 1) as nat),
                },
            )
        },
    }
}

/// The trees below the given children, in order, skipping those that give none.
pub open spec fn built_children(nodes: Seq<AxNodeRecord>, ids: Seq<String>, fuel: nat) -> Seq<AxTree>
    decreases fuel, ids.len() + 1,
{
    if ids.len() == 0 {
        seq![]
    } else {
        let prev = built_children(nodes, ids.drop_last(), fuel);
        match built(nodes, ids.last()@, fuel) {
            Some(t) => prev.push(t),
            None => prev,
        }
    }
}

/// Building the tree below `id` ends within `fuel` levels. When it does not
/// end within as many levels as there are records, the child links run in a
/// cycle and the expansion never ends.
pub open spec fn finishes(nodes: Seq<AxNodeRecord>, id: Seq<char>, fuel: nat) -> bool
    decreases fuel, 0nat,
{
    match lookup(nodes, id) {
        None => true,
        Some(j) => nodes[j].ignored || (fuel > 0 && children_finish(
            nodes,
            nodes[j].child_ids@,
            (fuel - 1) as nat,
        )),
    }
}

/// Building the trees below each of the children ends within `fuel` levels.
pub open spec fn children_finish(nodes: Seq<AxNodeRecord>, ids: Seq<String>, fuel: nat) -> bool
    decreases fuel, ids.len() + 1,
{
    if ids.len() == 0 {
        true
    } else {
        children_finish(nodes, ids.drop_last(), fuel) && finishes(nodes, ids.last()@, fuel)
    }
}

/// Record `j` starts a tree: it is not ignored, and its parent is absent or unknown.
pub open spec fn is_root(nodes: Seq<AxNodeRecord>, j: int) -> bool {
    !nodes[j].ignored && match nodes[j].parent_id {
        None => true,
        Some(p) => lookup(nodes, p@) is None,
    }
}

/// The trees of the roots among the first `k` records, in list order.
pub open spec fn forest_upto(nodes: Seq<AxNodeRecord>, k: int, fuel: nat) -> Seq<AxTree>
    decreases k,
{
    if k <= 0 {
        seq![]
    } else {
        let prev = forest_upto(nodes, k - 1, fuel);
        if is_root(nodes, k - 1) {
            match built(nodes, nodes[k - 1].node_id@, fuel) {
                Some(t) => prev.push(t),
                None => prev,
            }
        } else {
            prev
        }
    }
}

/// The accessibility forest of a page: one tree for each root, in list order.
pub open spec fn ax_forest(nodes: Seq<AxNodeRecord>) -> Seq<AxTree> {
    forest_upto(nodes, nodes.len() as int, nodes.len())
}

/// Building the tree of every root ends.
pub open spec fn forest_finishes(nodes: Seq<AxNodeRecord>) -> bool {
    forall|j: int| 0 <= j < nodes.len() && is_root(nodes, j) ==> finishes(nodes, #[trigger] nodes[j].node_id@, nodes.len())
}

/// When building the trees below a list of children ends, it ends for each of them.
proof fn lemma_children_finish(nodes: Seq<AxNodeRecord>, ids: Seq<String>, fuel: nat, i: int)
    requires
        children_finish(nodes, ids, fuel),
        0 <= i < ids.len(),
    ensures
        finishes(nodes, ids[i]@, fuel),
    decreases ids.len(),
{
    if i < ids.len() - 1 {
        lemma_children_finish(nodes, ids.drop_last(), fuel, i);
    }
}

/// How many of the child ids name a known record that is not ignored.
pub open spec fn shown_children(nodes: Seq<AxNodeRecord>, ids: Seq<String>) -> nat
    decreases ids.len(),
{
    if ids.len() == 0 {
        0
    } else {
        shown_children(nodes, ids.drop_last()) + if (lookup(nodes, ids.last()@) matches Some(j)
            && !nodes[j].ignored) {
            1nat
        } else {
            0nat
        }
    }
}

/// A child id that is unknown or names an ignored record gives no tree; one
/// that names a record kept in the tree gives its tree, when building it ends.
proof fn lemma_built_child(nodes: Seq<AxNodeRecord>, id: Seq<char>, fuel: nat)
    requires
        finishes(nodes, id, fuel),
    ensures
        built(nodes, id, fuel) is Some <==> (lookup(nodes, id) matches Some(j) && !nodes[j].ignored),
{
}

/// The children built below a list of child ids are one tree per id that
/// names a known record that is not ignored.
proof fn lemma_built_children_count(nodes: Seq<AxNodeRecord>, ids: Seq<String>, fuel: nat)
    requires
        children_finish(nodes, ids, fuel),
    ensures
        built_children(nodes, ids, fuel).len() == shown_children(nodes, ids),
    decreases ids.len(),
{
    if ids.len() > 0 {
        lemma_built_children_count(nodes, ids.drop_last(), fuel);
        lemma_built_child(nodes, ids.last()@, fuel);
    }
}

/// When every child id names a known record that is not ignored, the
/// children are one tree per id, in the order of the ids.
proof fn lemma_built_children_all(nodes: Seq<AxNodeRecord>, ids: Seq<String>, fuel: nat)
    requires
        children_finish(nodes, ids, fuel),
        forall|k: int| 0 <= k < ids.len() ==> (lookup(nodes, (#[trigger] ids[k])@) matches Some(j)
            && !nodes[j].ignored),
    ensures
        built_children(nodes, ids, fuel).len() == ids.len(),
        forall|k: int| 0 <= k < ids.len() ==> built(nodes, (#[trigger] ids[k])@, fuel) == Some(
            built_children(nodes, ids, fuel)[k],
        ),
    decreases ids.len(),
{
    if ids.len() > 0 {
        let init = ids.drop_last();
        assert forall|k: int| 0 <= k < init.len() implies (lookup(nodes, (#[trigger] init[k])@) matches Some(j)
            && !nodes[j].ignored) by {
            assert(init[k] == ids[k]);
        }
        lemma_built_children_all(nodes, init, fuel);
        let last = ids.last();
        assert(lookup(nodes, ids[ids.len() - 1]@) matches Some(j) && !nodes[j].ignored);
        lemma_built_child(nodes, last@, fuel);
        assert forall|k: int| 0 <= k < ids.len() implies built(nodes, (#[trigger] ids[k])@, fuel) == Some(
            built_children(nodes, ids, fuel)[k],
        ) by {
            if k < ids.len() - 1 {
                assert(ids[k] == init[k]);
            }
        }
    }
}

/// A rebuilt node keeps every child: it has one child tree for each child
/// id that names a known record that is not ignored, and no other; when
/// every child id names such a record, it has exactly as many children as
/// child ids, the `k`-th being the tree of the `k`-th child id.
pub proof fn lemma_rebuilt_node_keeps_its_children(nodes: Seq<AxNodeRecord>, id: Seq<char>, fuel: nat)
    requires
        finishes(nodes, id, fuel),
        lookup(nodes, id) matches Some(j) && !nodes[j].ignored,
    ensures
        ({
            let j = lookup(nodes, id)->0;
            let ids = nodes[j].child_ids@;
            &&& built(nodes, id, fuel) matches Some(t)
            &&& t.children.len() == shown_children(nodes, ids)
            &&& (forall|k: int| 0 <= k < ids.len() ==> (lookup(nodes, (#[trigger] ids[k])@) matches Some(c)
                && !nodes[c].ignored)) ==> {
                &&& t.children.len() == ids.len()
                &&& forall|k: int| 0 <= k < ids.len() ==> built(nodes, (#[trigger] ids[k])@, (fuel - 1) as nat) == Some(
                    t.children[k],
                )
            }
        }),
{
    let j = lookup(nodes, id)->0;
    let ids = nodes[j].child_ids@;
    let f = (fuel - 1) as nat;
    lemma_built_children_count(nodes, ids, f);
    if forall|k: int| 0 <= k < ids.len() ==> (lookup(nodes, (#[trigger] ids[k])@) matches Some(c)
        && !nodes[c].ignored) {
        lemma_built_children_all(nodes, ids, f);
    }
}

/// Finds the last record with the given id.
fn find_record(nodes: &Vec<AxNodeRecord>, id: &String) -> (r: Option<usize>)
    ensures
        r matches Some(j) ==> lookup(nodes@, id@) == Some(j as int) && j < nodes@.len(),
        r is None ==> lookup(nodes@, id@) is None,
{
    let mut k = nodes.len();
    while k > 0
        invariant
            k <= nodes@.len(),
            lookup(nodes@, id@) == last_with_id_before(nodes@, id@, k as int),
        decreases k,
    {
        if nodes[k - 1].node_id == *id {
            return Some(k - 1);
        }
        k = k - 1;
    }
    None
}

/// Builds the tree below the node with id `id`.
fn build_node(nodes: &Vec<AxNodeRecord>, id: &String, fuel: usize) -> (r: Option<AXNode>)
    requires
        finishes(nodes@, id@, fuel as nat),
    ensures
        match r {
            Some(n) => built(nodes@, id@, fuel as nat) == Some(tree_of(n)),
            None => built(nodes@, id@, fuel as nat) is None,
        },
    decreases fuel,
{
    let j = match find_record(nodes, id) {
        Some(j) => j,
        None => {
            return None;
        },
    };
    let rec = &nodes[j];
    if rec.ignored {
        return None;
    }
    let below = fuel - 1;
    let ids = &rec.child_ids;
    let count = ids.len();
    let mut children: Vec<AXNode> = Vec::new();
    let mut k: usize = 0;
    while k < count
        invariant
            count == ids@.len(),
            k <= count,
            below + 1 == fuel,
            children_finish(nodes@, ids@, below as nat),
            trees_of(children@) == built_children(nodes@, ids@.take(k as int), below as nat),
        decreases count - k,
    {
        proof {
            lemma_children_finish(nodes@, ids@, below as nat, k as int);
            assert(ids@.take(k + 1).drop_last() =~= ids@.take(k as int));
            assert(ids@.take(k + 1).last() == ids@[k as int]);
        }
        let ghost before = children@;
        match build_node(nodes, &ids[k], below) {
            Some(c) => {
                children.push(c);
                assert(children@.drop_last() =~= before);
            },
            None => {},
        }
        k = k + 1;
    }
    assert(ids@.take(count as int) =~= ids@);
    let role = match &rec.role {
        Some(r) => r.clone(),
        None => String::from_str("unknown"),
    };
    let name = match &rec.name {
        Some(n) => n.clone(),
        None => String::new(),
    };
    let backend_node_id: u64 = match rec.backend_dom_node_id {
        Some(v) => v as u64,
        None => 0,
    };
    Some(AXNode { backend_node_id, role, name, children })
}

/// Whether building the tree below `id` ends within `fuel` levels.
fn node_finishes(nodes: &Vec<AxNodeRecord>, id: &String, fuel: usize) -> (r: bool)
    ensures
        r == finishes(nodes@, id@, fuel as nat),
    decreases fuel,
{
    let j = match find_record(nodes, id) {
        Some(j) => j,
        None => {
            return true;
        },
    };
    let rec = &nodes[j];
    if rec.ignored {
        return true;
    }
    if fuel == 0 {
        return false;
    }
    let below = fuel - 1;
    let ids = &rec.child_ids;
    let count = ids.len();
    assert(ids@.take(0) =~= Seq::<String>::empty());
    let mut k: usize = 0;
    while k < count
        invariant
            count == ids@.len(),
            k <= count,
            below + 1 == fuel,
            finishes(nodes@, id@, fuel as nat) == children_finish(nodes@, ids@, below as nat),
            children_finish(nodes@, ids@.take(k as int), below as nat),
        decreases count - k,
    {
        proof {
            assert(ids@.take(k + 1).drop_last() =~= ids@.take(k as int));
            assert(ids@.take(k + 1).last() == ids@[k as int]);
        }
        if !node_finishes(nodes, &ids[k], below) {
            proof {
                if children_finish(nodes@, ids@, below as nat) {
                    lemma_children_finish(nodes@, ids@, below as nat, k as int);
                }
            }
            return false;
        }
        k = k + 1;
    }
    assert(ids@.take(count as int) =~= ids@);
    true
}

/// Whether rebuilding the accessibility tree ends, that is, whether no
/// root reaches a cycle of child links.
pub fn ax_forest_finishes(nodes: &Vec<AxNodeRecord>) -> (r: bool)
    ensures
        r == forest_finishes(nodes@),
{
    let n = nodes.len();
    let mut j: usize = 0;
    while j < n
        invariant
            n == nodes@.len(),
            j <= n,
            forall|i: int| 0 <= i < j && is_root(nodes@, i) ==> finishes(nodes@, #[trigger] nodes@[i].node_id@, n as nat),
        decreases n - j,
    {
        let rec = &nodes[j];
        let root = !rec.ignored && match &rec.parent_id {
            None => true,
            Some(p) => find_record(nodes, p).is_none(),
        };
        if root && !node_finishes(nodes, &rec.node_id, n) {
            return false;
        }
        j = j + 1;
    }
    true
}

/// Rebuilds the accessibility forest from the flat node list: one tree for
/// each root, in list order.
pub fn build_ax_forest(nodes: &Vec<AxNodeRecord>) -> (r: Vec<AXNode>)
    requires
        forest_finishes(nodes@),
    ensures
        trees_of(r@) == ax_forest(nodes@),
{
    let n = nodes.len();
    let mut out: Vec<AXNode> = Vec::new();
    let mut j: usize = 0;
    while j < n
        invariant
            n == nodes@.len(),
            j <= n,
            forest_finishes(nodes@),
            trees_of(out@) == forest_upto(nodes@, j as int, n as nat),
        decreases n - j,
    {
        let rec = &nodes[j];
        let root = !rec.ignored && match &rec.parent_id {
            None => true,
            Some(p) => find_record(nodes, p).is_none(),
        };
        if root {
            assert(is_root(nodes@, j as int));
            assert(finishes(nodes@, nodes@[j as int].node_id@, n as nat));
            let ghost before = out@;
            match build_node(nodes, &rec.node_id, n) {
                Some(t) => {
                    out.push(t);
                    assert(out@.drop_last() =~= before);
                },
                None => {},
            }
        }
        j = j + 1;
    }
    out
}

} // verus!

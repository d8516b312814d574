//! The hierarchical index: one node per distinct path prefix of the
//! identifiers, with the identifiers themselves marked as leaves.
use vstd::prelude::*;
use vstd::string::*;

use crate::search::views;
use crate::text::{join_with, lemma_split, split_at_char, split_on};

verus! {

broadcast use vstd::seq_lib::group_seq_properties, vstd::string::group_string_axioms;

/// One segment of the hierarchy. Sibling names are distinct; `full_path`
/// names the identifier when `is_leaf` holds.
pub struct SecretNode {
    pub name: String,
    pub full_path: String,
    pub is_leaf: bool,
    pub children: Vec<SecretNode>,
    pub expanded: bool,
}

/// The segments of an identifier, split at every `/`.
pub open spec fn segments(s: Seq<char>) -> Seq<Seq<char>> {
    split_on(s, '/')
}

/// Segments put back together with `/` between them.
pub open spec fn join(segs: Seq<Seq<char>>) -> Seq<char> {
    join_with(segs, '/')
}

pub open spec fn slash_free(s: Seq<char>) -> bool {
    !s.contains('/')
}

/// Splitting yields at least one segment, none of them holding `/`, and
/// joining them gives the identifier back.
pub proof fn lemma_segments(s: Seq<char>)
    ensures
        segments(s).len() >= 1,
        forall|i: int| 0 <= i < segments(s).len() ==> slash_free(#[trigger] segments(s)[i]),
        join(segments(s)) == s,
{
    lemma_split(s, '/');
}

/// The segments of `s`, split at every `/`.
pub(crate) fn split_segments(s: &str) -> (r: Vec<String>)
    ensures
        views(r@) == segments(s@),
{
    split_at_char(s, '/')
}

impl SecretNode {
    pub fn new(name: String, full_path: String, is_leaf: bool) -> (r: SecretNode)
        ensures
            r.name == name,
            r.full_path == full_path,
            r.is_leaf == is_leaf,
            r.children@.len() == 0,
            !r.expanded,
    {
        SecretNode { name, full_path, is_leaf, children: Vec::new(), expanded: false }
    }
}

/// `n` has a child called `name`.
pub open spec fn has_child(n: SecretNode, name: Seq<char>) -> bool {
    exists|i: int| 0 <= i < n.children@.len() && (#[trigger] n.children@[i]).name@ == name
}

/// The child of `n` called `name`, where there is one.
pub open spec fn child(n: SecretNode, name: Seq<char>) -> SecretNode {
    n.children@[choose|i: int| 0 <= i < n.children@.len() && (#[trigger] n.children@[i]).name@ == name]
}

/// The node reached from `n` by following the children named by `path`.
pub open spec fn node_at(n: SecretNode, path: Seq<Seq<char>>) -> Option<SecretNode>
    decreases path.len(),
{
    if path.len() == 0 {
        Some(n)
    } else if has_child(n, path[0]) {
        node_at(child(n, path[0]), path.drop_first())
    } else {
        None
    }
}

/// The node reached by `path` is a leaf.
pub open spec fn leaf_at(n: SecretNode, path: Seq<Seq<char>>) -> bool {
    match node_at(n, path) {
        Some(m) => m.is_leaf,
        None => false,
    }
}

pub open spec fn names_distinct(n: SecretNode) -> bool {
    forall|i: int, j: int|
        0 <= i < j < n.children@.len() ==> (#[trigger] n.children@[i]).name@ != (
        #[trigger] n.children@[j]).name@
}

/// What holds of a node reached by `path` from the root: distinct sibling
/// names free of `/`, its own name last on the path, and, on a leaf, the
/// path joined as its full path.
pub open spec fn node_ok(m: SecretNode, path: Seq<Seq<char>>) -> bool {
    &&& names_distinct(m)
    &&& forall|i: int| 0 <= i < m.children@.len() ==> slash_free((#[trigger] m.children@[i]).name@)
    &&& path.len() > 0 ==> m.name@ == path.last()
    &&& m.is_leaf ==> m.full_path@ == join(path)
}

/// Every node below `n`, which stands at `path`, is as `node_ok` says.
pub open spec fn subtree_ok(n: SecretNode, path: Seq<Seq<char>>) -> bool {
    forall|p: Seq<Seq<char>>| #[trigger]
        node_at(n, p) is Some ==> node_ok(node_at(n, p)->0, path + p)
}

/// `root` indexes `ids`: it is well formed, the paths with a node are the
/// prefixes of the identifiers' segment lists, and the paths with a leaf
/// are those segment lists.
pub open spec fn indexes(root: SecretNode, ids: Seq<Seq<char>>) -> bool {
    &&& subtree_ok(root, Seq::empty())
    &&& !root.is_leaf
    &&& forall|p: Seq<Seq<char>>| #[trigger]
        node_at(root, p) is Some <==> (p.len() == 0 || exists|k: int|
            0 <= k < ids.len() && p.is_prefix_of(#[trigger] segments(ids[k])))
    &&& forall|p: Seq<Seq<char>>| #[trigger]
        leaf_at(root, p) <==> exists|k: int| 0 <= k < ids.len() && p == #[trigger] segments(ids[k])
}

proof fn lemma_child_unique(n: SecretNode, i: int)
    requires
        names_distinct(n),
        0 <= i < n.children@.len(),
    ensures
        has_child(n, n.children@[i].name@),
        child(n, n.children@[i].name@) == n.children@[i],
{
    let name = n.children@[i].name@;
    assert(has_child(n, name));
    let j = choose|j: int| 0 <= j < n.children@.len() && (#[trigger] n.children@[j]).name@ == name;
    if j != i {
        if j < i {
            assert(n.children@[j].name@ != n.children@[i].name@);
        } else {
            assert(n.children@[i].name@ != n.children@[j].name@);
        }
    }
}

proof fn lemma_node_at_step(n: SecretNode, a: Seq<char>, rest: Seq<Seq<char>>)
    ensures
        node_at(n, seq![a] + rest) == (if has_child(n, a) {
            node_at(child(n, a), rest)
        } else {
            None
        }),
{
    let p = seq![a] + rest;
    assert(p[0] == a);
    assert(p.drop_first() =~= rest);
}

/// Two nodes with the same children reach the same nodes below them.
proof fn lemma_same_children(n: SecretNode, m: SecretNode, p: Seq<Seq<char>>)
    requires
        n.children == m.children,
        p.len() > 0,
    ensures
        node_at(n, p) == node_at(m, p),
{
    assert(has_child(n, p[0]) == has_child(m, p[0]));
}

/// A node without children reaches nothing below itself.
proof fn lemma_no_children(n: SecretNode, p: Seq<Seq<char>>)
    requires
        n.children@.len() == 0,
    ensures
        node_at(n, p) == (if p.len() == 0 {
            Some(n)
        } else {
            None::<SecretNode>
        }),
{
}

/// `after` holds what `before` held and, in addition, the path `s` and the
/// paths leading to it, with a leaf at `s`.
pub open spec fn grown(before: SecretNode, after: SecretNode, s: Seq<Seq<char>>) -> bool {
    &&& forall|p: Seq<Seq<char>>| #[trigger]
        node_at(after, p) is Some <==> (node_at(before, p) is Some || p.is_prefix_of(s))
    &&& forall|p: Seq<Seq<char>>| #[trigger] leaf_at(after, p) <==> (leaf_at(before, p) || p == s)
}

proof fn lemma_replace_child(n: SecretNode, n2: SecretNode, i: int, c: SecretNode)
    requires
        names_distinct(n),
        0 <= i < n.children@.len(),
        n2.children@ == n.children@.update(i, c),
        c.name@ == n.children@[i].name@,
    ensures
        names_distinct(n2),
        has_child(n2, c.name@),
        child(n2, c.name@) == c,
        forall|a: Seq<char>|
            a != c.name@ ==> #[trigger] has_child(n2, a) == has_child(n, a) && (has_child(n, a)
                ==> child(n2, a) == child(n, a)),
{
    assert(names_distinct(n2)) by {
        assert forall|x: int, y: int| 0 <= x < y < n2.children@.len() implies (
        #[trigger] n2.children@[x]).name@ != (#[trigger] n2.children@[y]).name@ by {
            assert(n.children@[x].name@ != n.children@[y].name@);
        }
    }
    lemma_child_unique(n2, i);
    assert forall|a: Seq<char>| a != c.name@ implies #[trigger] has_child(n2, a) == has_child(n, a)
        && (has_child(n, a) ==> child(n2, a) == child(n, a)) by {
        if has_child(n, a) {
            let j = choose|j: int| 0 <= j < n.children@.len() && (#[trigger] n.children@[j]).name@ == a;
            assert(n2.children@[j] == n.children@[j]);
            lemma_child_unique(n, j);
            lemma_child_unique(n2, j);
        }
        if has_child(n2, a) {
            let j = choose|j: int| 0 <= j < n2.children@.len() && (#[trigger] n2.children@[j]).name@ == a;
            assert(n2.children@[j] == n.children@[j]);
        }
    }
}

proof fn lemma_push_child(n: SecretNode, n2: SecretNode, c: SecretNode)
    requires
        names_distinct(n),
        n2.children@ == n.children@.push(c),
        !has_child(n, c.name@),
    ensures
        names_distinct(n2),
        has_child(n2, c.name@),
        child(n2, c.name@) == c,
        forall|a: Seq<char>|
            a != c.name@ ==> #[trigger] has_child(n2, a) == has_child(n, a) && (has_child(n, a)
                ==> child(n2, a) == child(n, a)),
{
    let last = n.children@.len() as int;
    assert(names_distinct(n2)) by {
        assert forall|x: int, y: int| 0 <= x < y < n2.children@.len() implies (
        #[trigger] n2.children@[x]).name@ != (#[trigger] n2.children@[y]).name@ by {
            if y == last {
                assert(n.children@[x] == n2.children@[x]);
            } else {
                assert(n.children@[x].name@ != n.children@[y].name@);
            }
        }
    }
    lemma_child_unique(n2, last);
    assert forall|a: Seq<char>| a != c.name@ implies #[trigger] has_child(n2, a) == has_child(n, a)
        && (has_child(n, a) ==> child(n2, a) == child(n, a)) by {
        if has_child(n, a) {
            let j = choose|j: int| 0 <= j < n.children@.len() && (#[trigger] n.children@[j]).name@ == a;
            assert(n2.children@[j] == n.children@[j]);
            lemma_child_unique(n, j);
            lemma_child_unique(n2, j);
        }
        if has_child(n2, a) {
            let j = choose|j: int| 0 <= j < n2.children@.len() && (#[trigger] n2.children@[j]).name@ == a;
            assert(j != last);
            assert(n2.children@[j] == n.children@[j]);
        }
    }
}

/// The subtree below a child stands one step further down.
proof fn lemma_subtree_of_child(n: SecretNode, q: Seq<Seq<char>>, a: Seq<char>)
    requires
        subtree_ok(n, q),
        has_child(n, a),
    ensures
        subtree_ok(child(n, a), q.push(a)),
{
    let c = child(n, a);
    assert forall|p: Seq<Seq<char>>| #[trigger] node_at(c, p) is Some implies node_ok(
        node_at(c, p)->0,
        q.push(a) + p,
    ) by {
        lemma_node_at_step(n, a, p);
        assert(node_at(n, seq![a] + p) is Some);
        assert(q + (seq![a] + p) =~= q.push(a) + p);
    }
}

/// Growing one child of `n0` by `s` grows `n0` by the same path one step
/// longer.
#[verifier::spinoff_prover]
proof fn lemma_lift(
    n0: SecretNode,
    n1: SecretNode,
    c0: SecretNode,
    c1: SecretNode,
    cur: Seq<char>,
    found: bool,
    s: Seq<Seq<char>>,
    q: Seq<Seq<char>>,
)
    requires
        found ==> has_child(n0, cur) && child(n0, cur) == c0,
        !found ==> !has_child(n0, cur) && c0.children@.len() == 0 && !c0.is_leaf,
        has_child(n1, cur),
        child(n1, cur) == c1,
        forall|a: Seq<char>|
            a != cur ==> #[trigger] has_child(n1, a) == has_child(n0, a) && (has_child(n0, a)
                ==> child(n1, a) == child(n0, a)),
        n1.is_leaf == n0.is_leaf,
        grown(c0, c1, s),
        subtree_ok(n0, q),
        subtree_ok(c1, q.push(cur)),
        node_ok(n1, q),
    ensures
        grown(n0, n1, seq![cur] + s),
        subtree_ok(n1, q),
{
    let full = seq![cur] + s;
    assert forall|p: Seq<Seq<char>>| #![trigger node_at(n1, p)] #![trigger leaf_at(n1, p)]
        (node_at(n1, p) is Some <==> (node_at(n0, p) is Some || p.is_prefix_of(full)))
        && (leaf_at(n1, p) <==> (leaf_at(n0, p) || p == full))
        && (node_at(n1, p) is Some ==> node_ok(node_at(n1, p)->0, q + p)) by {
        if p.len() == 0 {
            assert(q + p =~= q);
            assert(p != full);
            assert(node_at(n1, p) == Some(n1));
            assert(node_at(n0, p) == Some(n0));
        } else {
            let a = p[0];
            let rest = p.drop_first();
            assert(p =~= seq![a] + rest);
            lemma_node_at_step(n1, a, rest);
            lemma_node_at_step(n0, a, rest);
            if a != cur {
                assert(!p.is_prefix_of(full)) by {
                    if p.is_prefix_of(full) {
                        assert(p[0] == full[0]);
                    }
                }
                assert(p != full) by {
                    if p == full {
                        assert(p[0] == full[0]);
                    }
                }
                assert(node_at(n1, p) == node_at(n0, p));
                assert(node_at(n1, p) is Some ==> node_ok(node_at(n1, p)->0, q + p));
            } else {
                assert(q.push(cur) + rest =~= q + p);
                assert(p.is_prefix_of(full) <==> rest.is_prefix_of(s)) by {
                    if p.is_prefix_of(full) {
                        assert forall|j: int| 0 <= j < rest.len() implies rest[j] == s[j] by {
                            assert(rest[j] == p[j + 1] && full[j + 1] == s[j]);
                        }
                    }
                    if rest.is_prefix_of(s) {
                        assert forall|j: int| 0 <= j < p.len() implies p[j] == full[j] by {
                            if j > 0 {
                                assert(p[j] == rest[j - 1] && full[j] == s[j - 1]);
                            }
                        }
                    }
                }
                assert(p == full <==> rest == s) by {
                    if rest == s {
                        assert(p =~= full);
                    }
                    if p == full {
                        assert(rest =~= s);
                    }
                }
                assert(node_at(c1, rest) is Some ==> node_ok(node_at(c1, rest)->0, q.push(cur) + rest));
                if !found {
                    lemma_no_children(c0, rest);
                    assert(rest.len() == 0 ==> rest.is_prefix_of(s));
                }
                assert(node_at(n1, p) == node_at(c1, rest));
                if found {
                    assert(node_at(n0, p) == node_at(c0, rest));
                } else {
                    assert(node_at(n0, p) is None);
                    assert(!leaf_at(c0, rest));
                }
                assert(leaf_at(n1, p) <==> leaf_at(c1, rest));
                assert(node_at(c1, rest) is Some <==> (node_at(c0, rest) is Some || rest.is_prefix_of(s)));
                assert(leaf_at(c1, rest) <==> (leaf_at(c0, rest) || rest == s));
            }
        }
    }
}

/// The index of the child of `children` called `name`, if there is one.
fn find_child(children: &Vec<SecretNode>, name: &String) -> (r: Option<usize>)
    ensures
        r matches Some(i) ==> i < children@.len() && children@[i as int].name@ == name@,
        r is None ==> forall|i: int| 0 <= i < children@.len() ==> (#[trigger] children@[i]).name@ != name@,
{
    let mut i: usize = 0;
    while i < children.len()
        invariant
            i <= children@.len(),
            forall|j: int| 0 <= j < i ==> (#[trigger] children@[j]).name@ != name@,
        decreases children.len() - i,
    {
        if children[i].name == *name {
            return Some(i);
        }
        i += 1;
    }
    None
}

/// A node without children, leaf or not, stands well at `q`.
proof fn lemma_fresh_ok(c: SecretNode, q: Seq<Seq<char>>)
    requires
        c.children@.len() == 0,
        q.len() > 0 ==> c.name@ == q.last(),
        c.is_leaf ==> c.full_path@ == join(q),
    ensures
        subtree_ok(c, q),
{
    assert forall|p: Seq<Seq<char>>| #[trigger] node_at(c, p) is Some implies node_ok(
        node_at(c, p)->0,
        q + p,
    ) by {
        lemma_no_children(c, p);
        assert(q + p =~= q);
    }
}

/// Every node below `n`, `n` included, is collapsed.
pub open spec fn collapsed(n: SecretNode) -> bool {
    forall|p: Seq<Seq<char>>| #[trigger] node_at(n, p) is Some ==> !node_at(n, p)->0.expanded
}

/// The children of `after` other than the one called `name` are those of
/// `before`.
pub open spec fn other_children_kept(before: SecretNode, after: SecretNode, name: Seq<char>) -> bool {
    forall|a: Seq<char>|
        a != name ==> #[trigger] has_child(after, a) == has_child(before, a) && (has_child(before, a)
            ==> child(after, a) == child(before, a))
}

proof fn lemma_collapsed_child(n: SecretNode, a: Seq<char>)
    requires
        collapsed(n),
        has_child(n, a),
    ensures
        collapsed(child(n, a)),
{
    assert forall|p: Seq<Seq<char>>| #[trigger] node_at(child(n, a), p) is Some implies !node_at(
        child(n, a),
        p,
    )->0.expanded by {
        lemma_node_at_step(n, a, p);
        assert(node_at(n, seq![a] + p) is Some);
    }
}

proof fn lemma_lift_collapsed(n0: SecretNode, n1: SecretNode, c1: SecretNode, cur: Seq<char>)
    requires
        collapsed(n0),
        collapsed(c1),
        n1.expanded == n0.expanded,
        has_child(n1, cur),
        child(n1, cur) == c1,
        other_children_kept(n0, n1, cur),
    ensures
        collapsed(n1),
{
    assert(node_at(n0, Seq::empty()) is Some);
    assert forall|p: Seq<Seq<char>>| #[trigger] node_at(n1, p) is Some implies !node_at(n1, p)->0.expanded by {
        if p.len() > 0 {
            let a = p[0];
            let rest = p.drop_first();
            assert(p =~= seq![a] + rest);
            lemma_node_at_step(n1, a, rest);
            lemma_node_at_step(n0, a, rest);
        }
    }
}

/// A node reaches every prefix of a path it reaches.
proof fn lemma_prefix_reached(n: SecretNode, s: Seq<Seq<char>>, p: Seq<Seq<char>>)
    requires
        node_at(n, s) is Some,
        p.is_prefix_of(s),
    ensures
        node_at(n, p) is Some,
    decreases p.len(),
{
    if p.len() > 0 {
        assert(p[0] == s[0]);
        lemma_prefix_reached(child(n, s[0]), s.drop_first(), p.drop_first());
    }
}

/// Whether the segments `parts[k..]` lead from `node`, which stands at `q`,
/// to a leaf.
fn has_leaf(node: &SecretNode, parts: &Vec<String>, k: usize, Ghost(q): Ghost<Seq<Seq<char>>>) -> (r: bool)
    requires
        k <= parts@.len(),
        subtree_ok(*node, q),
    ensures
        r == leaf_at(*node, views(parts@).skip(k as int)),
    decreases parts@.len() - k,
{
    let ghost s = views(parts@).skip(k as int);
    proof {
        assert(node_at(*node, Seq::empty()) is Some);
        assert(q + Seq::<Seq<char>>::empty() =~= q);
    }
    if k == parts.len() {
        assert(s =~= Seq::<Seq<char>>::empty());
        return node.is_leaf;
    }
    let ghost a = parts@[k as int]@;
    assert(s =~= seq![a] + views(parts@).skip(k + 1));
    proof {
        lemma_node_at_step(*node, a, views(parts@).skip(k + 1));
    }
    match find_child(&node.children, &parts[k]) {
        None => {
            assert(!has_child(*node, a));
            false
        },
        Some(i) => {
            proof {
                lemma_child_unique(*node, i as int);
                lemma_subtree_of_child(*node, q, a);
            }
            has_leaf(&node.children[i], parts, k + 1, Ghost(q.push(a)))
        },
    }
}

/// Marking a node as a leaf, with the full path of where it stands, grows
/// it by the empty path.
proof fn lemma_mark_leaf(c0: SecretNode, c: SecretNode, q: Seq<Seq<char>>)
    requires
        c.children == c0.children,
        c.name == c0.name,
        c.is_leaf,
        c.full_path@ == join(q),
        subtree_ok(c0, q),
    ensures
        grown(c0, c, Seq::empty()),
        subtree_ok(c, q),
{
    assert(node_at(c0, Seq::empty()) is Some);
    assert(q + Seq::<Seq<char>>::empty() =~= q);
    assert(node_ok(c0, q));
    assert forall|p: Seq<Seq<char>>| #![trigger node_at(c, p)] #![trigger leaf_at(c, p)]
        (node_at(c, p) is Some <==> (node_at(c0, p) is Some || p.is_prefix_of(Seq::empty()))) && (
        leaf_at(c, p) <==> (leaf_at(c0, p) || p == Seq::<Seq<char>>::empty())) && (node_at(
            c,
            p,
        ) is Some ==> node_ok(node_at(c, p)->0, q + p)) by {
        if p.len() == 0 {
            assert(p =~= Seq::<Seq<char>>::empty());
            assert(q + p =~= q);
        } else {
            lemma_same_children(c, c0, p);
            assert(!p.is_prefix_of(Seq::empty()));
        }
    }
}

/// Adds the segments `parts[k..]` below `node`, which stands at
/// `parts[..k]`, and marks the node they lead to as the leaf for
/// `full_path`.
#[verifier::spinoff_prover]
#[verifier::rlimit(30)]
fn insert_path(
    node: &mut SecretNode,
    parts: &Vec<String>,
    k: usize,
    full_path: &String,
    Ghost(q): Ghost<Seq<Seq<char>>>,
)
    requires
        k < parts@.len(),
        views(parts@) == segments(full_path@),
        q == views(parts@).take(k as int),
        subtree_ok(*old(node), q),
    ensures
        final(node).name == old(node).name,
        final(node).is_leaf == old(node).is_leaf,
        final(node).full_path == old(node).full_path,
        final(node).expanded == old(node).expanded,
        subtree_ok(*final(node), q),
        grown(*old(node), *final(node), views(parts@).skip(k as int)),
        other_children_kept(*old(node), *final(node), parts@[k as int]@),
        collapsed(*old(node)) ==> collapsed(*final(node)),
        leaf_at(*old(node), views(parts@).skip(k as int)) ==> *final(node) == *old(node),
    decreases parts@.len() - k,
{
    let ghost n0 = *node;
    let ghost segs = views(parts@);
    if has_leaf(node, parts, k, Ghost(q)) {
        proof {
            assert forall|p: Seq<Seq<char>>| p.is_prefix_of(segs.skip(k as int)) implies #[trigger]
                node_at(n0, p) is Some by {
                lemma_prefix_reached(n0, segs.skip(k as int), p);
            }
            assert(other_children_kept(n0, n0, parts@[k as int]@));
        }
        return;
    }
    proof {
        lemma_segments(full_path@);
        assert(node_at(n0, Seq::empty()) is Some);
        assert(q + Seq::<Seq<char>>::empty() =~= q);
        assert(node_ok(n0, q));
    }
    let current = &parts[k];
    let ghost cur = current@;
    assert(cur == segs[k as int]);
    assert(slash_free(cur));
    let last = k == parts.len() - 1;
    let found = find_child(&node.children, current);
    let mut c = match found {
        Some(i) => node.children.remove(i),
        None => SecretNode::new(current.clone(), full_path.clone(), false),
    };
    let ghost c0 = c;
    assert(q.push(cur) =~= segs.take(k + 1));
    proof {
        match found {
            Some(i) => {
                assert(c0 == n0.children@[i as int]);
                lemma_child_unique(n0, i as int);
                lemma_subtree_of_child(n0, q, cur);
            },
            None => {
                lemma_fresh_ok(c0, q.push(cur));
                assert(!has_child(n0, cur));
            },
        }
    }
    if last {
        c.is_leaf = true;
        c.full_path = full_path.clone();
        proof {
            assert(segs.take(k + 1) =~= segs);
            assert(segs.skip(k + 1) =~= Seq::<Seq<char>>::empty());
            lemma_mark_leaf(c0, c, q.push(cur));
            if collapsed(c0) {
                assert forall|p: Seq<Seq<char>>| #[trigger] node_at(c, p) is Some implies !node_at(
                    c,
                    p,
                )->0.expanded by {
                    if p.len() > 0 {
                        lemma_same_children(c, c0, p);
                    } else {
                        assert(node_at(c0, p) is Some);
                    }
                }
            }
        }
    } else {
        insert_path(&mut c, parts, k + 1, full_path, Ghost(q.push(cur)));
    }
    let ghost c1 = c;
    assert(c1.name@ == cur);
    match found {
        Some(i) => {
            node.children.insert(i, c);
        },
        None => {
            node.children.push(c);
        },
    }
    proof {
        match found {
            Some(i) => {
                assert(node.children@ =~= n0.children@.update(i as int, c1));
                assert(c1.name@ == n0.children@[i as int].name@);
                lemma_replace_child(n0, *node, i as int, c1);
            },
            None => {
                assert(!has_child(n0, c1.name@));
                lemma_push_child(n0, *node, c1);
            },
        }
        assert(node_ok(*node, q)) by {
            assert forall|j: int| 0 <= j < node.children@.len() implies slash_free(
                (#[trigger] node.children@[j]).name@,
            ) by {
                match found {
                    Some(i) => {
                        if j != i {
                            assert(node.children@[j] == n0.children@[j]);
                        }
                    },
                    None => {
                        if j < n0.children@.len() {
                            assert(node.children@[j] == n0.children@[j]);
                        }
                    },
                }
            }
        }
        assert(segs.skip(k as int) =~= seq![cur] + segs.skip(k + 1));
        lemma_lift(n0, *node, c0, c1, cur, found is Some, segs.skip(k + 1), q);
        if collapsed(n0) {
            match found {
                Some(i) => {
                    lemma_collapsed_child(n0, cur);
                },
                None => {
                    assert forall|p: Seq<Seq<char>>| #[trigger] node_at(c0, p) is Some implies !node_at(
                        c0,
                        p,
                    )->0.expanded by {
                        lemma_no_children(c0, p);
                    }
                },
            }
            assert(collapsed(c0));
            assert(collapsed(c1));
            lemma_lift_collapsed(n0, *node, c1, cur);
        }
    }
}

proof fn lemma_index_step(r0: SecretNode, r1: SecretNode, ids: Seq<Seq<char>>, i: int)
    requires
        0 <= i < ids.len(),
        indexes(r0, ids.take(i)),
        grown(r0, r1, segments(ids[i])),
        subtree_ok(r1, Seq::empty()),
        !r1.is_leaf,
    ensures
        indexes(r1, ids.take(i + 1)),
{
    let before = ids.take(i);
    let after = ids.take(i + 1);
    assert forall|p: Seq<Seq<char>>| #[trigger]
        node_at(r1, p) is Some <==> (p.len() == 0 || exists|k: int|
            0 <= k < after.len() && p.is_prefix_of(#[trigger] segments(after[k]))) by {
        if node_at(r1, p) is Some && p.len() > 0 {
            if node_at(r0, p) is Some {
                let k = choose|k: int| 0 <= k < before.len() && p.is_prefix_of(#[trigger] segments(before[k]));
                assert(after[k] == before[k]);
            } else {
                assert(after[i] == ids[i]);
            }
        }
        if p.len() > 0 && exists|k: int| 0 <= k < after.len() && p.is_prefix_of(#[trigger] segments(after[k])) {
            let k = choose|k: int| 0 <= k < after.len() && p.is_prefix_of(#[trigger] segments(after[k]));
            if k < i {
                assert(before[k] == after[k]);
            }
        }
    }
    assert forall|p: Seq<Seq<char>>| #[trigger]
        leaf_at(r1, p) <==> exists|k: int| 0 <= k < after.len() && p == #[trigger] segments(after[k]) by {
        if leaf_at(r1, p) {
            if leaf_at(r0, p) {
                let k = choose|k: int| 0 <= k < before.len() && p == #[trigger] segments(before[k]);
                assert(after[k] == before[k]);
            } else {
                assert(after[i] == ids[i]);
            }
        }
        if exists|k: int| 0 <= k < after.len() && p == #[trigger] segments(after[k]) {
            let k = choose|k: int| 0 <= k < after.len() && p == #[trigger] segments(after[k]);
            if k < i {
                assert(before[k] == after[k]);
            }
        }
    }
}

/// The index of `secret_names`: one node per distinct path prefix, a leaf
/// for each identifier (once, however often it is listed), under a root
/// called `root` that is no leaf.
#[verifier::spinoff_prover]
pub fn build_tree(secret_names: &[String]) -> (root: SecretNode)
    ensures
        root.name@ == "root"@,
        root.full_path@.len() == 0,
        indexes(root, views(secret_names@)),
        collapsed(root),
{
    let mut root = SecretNode::new(String::from_str("root"), String::new(), false);
    let ghost ids = views(secret_names@);
    proof {
        lemma_fresh_ok(root, Seq::empty());
        assert forall|p: Seq<Seq<char>>| #[trigger] node_at(root, p) is Some implies !node_at(
            root,
            p,
        )->0.expanded by {
            lemma_no_children(root, p);
        }
        assert forall|p: Seq<Seq<char>>| #[trigger] node_at(root, p) is Some <==> (p.len() == 0
            || exists|k: int| 0 <= k < ids.take(0).len() && p.is_prefix_of(
            #[trigger] segments(ids.take(0)[k]),
        )) by {
            lemma_no_children(root, p);
        }
        assert forall|p: Seq<Seq<char>>| #[trigger] leaf_at(root, p) <==> exists|k: int|
            0 <= k < ids.take(0).len() && p == #[trigger] segments(ids.take(0)[k]) by {
            lemma_no_children(root, p);
        }
    }
    let mut i: usize = 0;
    while i < secret_names.len()
        invariant
            i <= secret_names@.len(),
            ids == views(secret_names@),
            indexes(root, ids.take(i as int)),
            root.name@ == "root"@,
            root.full_path@.len() == 0,
            collapsed(root),
        decreases secret_names.len() - i,
    {
        let name = &secret_names[i];
        let parts = split_segments(name.as_str());
        let ghost r0 = root;
        proof {
            lemma_segments(name@);
            assert(views(parts@).take(0) =~= Seq::<Seq<char>>::empty());
            assert(views(parts@).skip(0) =~= views(parts@));
        }
        insert_path(&mut root, &parts, 0, name, Ghost(Seq::empty()));
        proof {
            lemma_index_step(r0, root, ids, i as int);
        }
        i += 1;
    }
    assert(ids.take(secret_names@.len() as int) =~= ids);
    root
}

/// Walking the index down to its leaves gives back every identifier, each
/// from exactly one leaf, and nothing else: the leaf for an identifier
/// holds it as its full path, and two leaves never hold the same one.
pub proof fn lemma_index_reconstructs(root: SecretNode, ids: Seq<Seq<char>>)
    requires
        indexes(root, ids),
    ensures
        forall|k: int|
            0 <= k < ids.len() ==> leaf_at(root, #[trigger] segments(ids[k])) && node_at(
                root,
                segments(ids[k]),
            )->0.full_path@ == ids[k],
        forall|p: Seq<Seq<char>>| #[trigger]
            leaf_at(root, p) ==> ids.contains(node_at(root, p)->0.full_path@),
        forall|p1: Seq<Seq<char>>, p2: Seq<Seq<char>>|
            #![trigger leaf_at(root, p1), leaf_at(root, p2)]
            leaf_at(root, p1) && leaf_at(root, p2) && node_at(root, p1)->0.full_path == node_at(
                root,
                p2,
            )->0.full_path ==> p1 == p2,
{
    assert forall|p: Seq<Seq<char>>| #[trigger] leaf_at(root, p) implies exists|k: int|
        0 <= k < ids.len() && p == segments(ids[k]) && node_at(root, p)->0.full_path@ == ids[k] by {
        let k = choose|k: int| 0 <= k < ids.len() && p == #[trigger] segments(ids[k]);
        lemma_segments(ids[k]);
        assert(Seq::<Seq<char>>::empty() + p =~= p);
    }
    assert forall|k: int| 0 <= k < ids.len() implies leaf_at(root, #[trigger] segments(ids[k]))
        && node_at(root, segments(ids[k]))->0.full_path@ == ids[k] by {
        assert(leaf_at(root, segments(ids[k])));
        lemma_segments(ids[k]);
        assert(Seq::<Seq<char>>::empty() + segments(ids[k]) =~= segments(ids[k]));
    }
}

/// The index depends on the set of identifiers alone: lists with the same
/// members, in any order and with any repetition, give indexes with the
/// same nodes and the same leaves.
pub proof fn lemma_index_order_independent(
    r1: SecretNode,
    ids1: Seq<Seq<char>>,
    r2: SecretNode,
    ids2: Seq<Seq<char>>,
)
    requires
        indexes(r1, ids1),
        indexes(r2, ids2),
        ids1.to_set() == ids2.to_set(),
    ensures
        forall|p: Seq<Seq<char>>| #[trigger]
            node_at(r1, p) is Some <==> node_at(r2, p) is Some,
        forall|p: Seq<Seq<char>>| #[trigger] leaf_at(r1, p) <==> leaf_at(r2, p),
{
    assert forall|k: int| 0 <= k < ids1.len() implies ids2.contains(#[trigger] ids1[k]) by {
        assert(ids1.to_set().contains(ids1[k]));
        assert(ids2.to_set().contains(ids1[k]));
    }
    assert forall|k: int| 0 <= k < ids2.len() implies ids1.contains(#[trigger] ids2[k]) by {
        assert(ids2.to_set().contains(ids2[k]));
        assert(ids1.to_set().contains(ids2[k]));
    }
    assert forall|p: Seq<Seq<char>>| #[trigger] node_at(r1, p) is Some <==> node_at(r2, p) is Some by {
        if p.len() > 0 {
            if node_at(r1, p) is Some {
                let k = choose|k: int| 0 <= k < ids1.len() && p.is_prefix_of(#[trigger] segments(ids1[k]));
                let j = choose|j: int| 0 <= j < ids2.len() && ids2[j] == ids1[k];
                assert(p.is_prefix_of(segments(ids2[j])));
            }
            if node_at(r2, p) is Some {
                let k = choose|k: int| 0 <= k < ids2.len() && p.is_prefix_of(#[trigger] segments(ids2[k]));
                let j = choose|j: int| 0 <= j < ids1.len() && ids1[j] == ids2[k];
                assert(p.is_prefix_of(segments(ids1[j])));
            }
        }
    }
    assert forall|p: Seq<Seq<char>>| #[trigger] leaf_at(r1, p) <==> leaf_at(r2, p) by {
        if leaf_at(r1, p) {
            let k = choose|k: int| 0 <= k < ids1.len() && p == #[trigger] segments(ids1[k]);
            let j = choose|j: int| 0 <= j < ids2.len() && ids2[j] == ids1[k];
            assert(p == segments(ids2[j]));
        }
        if leaf_at(r2, p) {
            let k = choose|k: int| 0 <= k < ids2.len() && p == #[trigger] segments(ids2[k]);
            let j = choose|j: int| 0 <= j < ids1.len() && ids1[j] == ids2[k];
            assert(p == segments(ids1[j]));
        }
    }
}

} // verus!

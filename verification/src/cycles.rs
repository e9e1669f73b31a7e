//! Detection of the cycles of classes that refer to one another.
//!
//! Class `A` refers to class `B` when the type of a field of `A` names `B`,
//! directly or inside an optional, a list, a map, a union, a tuple or a
//! constrained type. A cycle set holds the classes of one strongly connected
//! component of that relation which contains a cycle: a class that refers to
//! itself, or two or more that reach one another.
use vstd::prelude::*;
use indexmap::IndexSet;
use crate::collections::new_set;
use crate::collections::set_insert;
use crate::collections::set_members;
use crate::collections::with_member;
use crate::graph::cycle_components;
use crate::graph::edge;
use crate::graph::find_components;
use crate::graph::lemma_component_is_whole;
use crate::graph::lemma_edge_reaches;
use crate::graph::lemma_last_edge;
use crate::graph::lemma_reaches_then_edge;
use crate::graph::lemma_component_members;
use crate::graph::lemma_on_cycle_in_one_component;
use crate::graph::lemma_reaches_in_range;
use crate::graph::mutual;
use crate::graph::node_lists;
use crate::graph::reaches;
use crate::graph::rows;
use crate::node::Node;
use crate::node::NodeView;
use crate::repr::Class;
use crate::repr::ClassView;
use crate::seqs::views;
use crate::types::FieldType;
use crate::types::FieldTypeView;

verus! {

/// The type names the class, directly or inside a container or a constrained
/// type.
pub open spec fn mentions_class(t: FieldTypeView, name: Seq<char>) -> bool
    decreases t,
{
    match t {
        FieldTypeView::Class(n) => n == name,
        FieldTypeView::Optional(inner) => mentions_class(*inner, name),
        FieldTypeView::List(inner) => mentions_class(*inner, name),
        FieldTypeView::Mapping(k, v) => mentions_class(*k, name) || mentions_class(*v, name),
        FieldTypeView::Union(ts) => exists|i: int|
            0 <= i < ts.len() && mentions_class(#[trigger] ts[i], name),
        FieldTypeView::Tuple(ts) => exists|i: int|
            0 <= i < ts.len() && mentions_class(#[trigger] ts[i], name),
        FieldTypeView::Constrained { base, .. } => mentions_class(*base, name),
        _ => false,
    }
}

/// The type of some field of the class names the class `name`.
pub open spec fn class_refers(c: ClassView, name: Seq<char>) -> bool {
    exists|f: int|
        0 <= f < c.static_fields.len() && mentions_class(
            (#[trigger] c.static_fields[f]).elem.field_type.elem,
            name,
        )
}

/// The graph of references between classes: there is an edge from class `u` to
/// class `v` when `u` refers to the name of `v`.
pub open spec fn class_graph(classes: Seq<NodeView<ClassView>>) -> Seq<Seq<bool>> {
    Seq::new(
        classes.len(),
        |u: int|
            Seq::new(classes.len(), |v: int| class_refers(classes[u].elem, classes[v].elem.name)),
    )
}

/// The names of the classes of a component, each once, in the order of the
/// component.
pub open spec fn member_names(classes: Seq<NodeView<ClassView>>, nodes: Seq<int>) -> Seq<
    Seq<char>,
>
    decreases nodes.len(),
{
    if nodes.len() == 0 {
        Seq::empty()
    } else {
        with_member(member_names(classes, nodes.drop_last()), classes[nodes.last()].elem.name)
    }
}

/// The cycle sets of a list of classes: the names of the classes of each
/// component of the graph of references that holds a cycle.
pub open spec fn named_cycles(classes: Seq<NodeView<ClassView>>) -> Seq<Seq<Seq<char>>> {
    Seq::new(
        cycle_components(class_graph(classes)).len(),
        |k: int| member_names(classes, cycle_components(class_graph(classes))[k]),
    )
}

/// The members of each of a list of ordered sets.
pub open spec fn cycle_sets(sets: Seq<IndexSet<String>>) -> Seq<Seq<Seq<char>>> {
    Seq::new(sets.len(), |k: int| set_members(sets[k]))
}

/// Whether the type names the class.
pub fn type_mentions(t: &FieldType, name: &String) -> (r: bool)
    ensures
        r == mentions_class(t@, name@),
    decreases t,
{
    match t {
        FieldType::Class(n) => *n == *name,
        FieldType::Optional(inner) => type_mentions(inner, name),
        FieldType::List(inner) => type_mentions(inner, name),
        FieldType::Mapping(k, v) => type_mentions(k, name) || type_mentions(v, name),
        FieldType::Union(ts) => {
            let mut i: usize = 0;
            while i < ts.len()
                invariant
                    i <= ts.len(),
                    t@ is Union,
                    t@->Union_0.len() == ts@.len(),
                    forall|j: int| 0 <= j < ts@.len() ==> (#[trigger] t@->Union_0[j]) == ts@[j]@,
                    forall|j: int| 0 <= j < ts@.len() ==> decreases_to!(t => ts@[j]),
                    forall|j: int| 0 <= j < i ==> !mentions_class(#[trigger] t@->Union_0[j], name@),
                decreases ts.len() - i,
            {
                if type_mentions(&ts[i], name) {
                    assert(mentions_class(t@->Union_0[i as int], name@));
                    return true;
                }
                i += 1;
            }
            false
        },
        FieldType::Tuple(ts) => {
            let mut i: usize = 0;
            while i < ts.len()
                invariant
                    i <= ts.len(),
                    t@ is Tuple,
                    t@->Tuple_0.len() == ts@.len(),
                    forall|j: int| 0 <= j < ts@.len() ==> (#[trigger] t@->Tuple_0[j]) == ts@[j]@,
                    forall|j: int| 0 <= j < ts@.len() ==> decreases_to!(t => ts@[j]),
                    forall|j: int| 0 <= j < i ==> !mentions_class(#[trigger] t@->Tuple_0[j], name@),
                decreases ts.len() - i,
            {
                if type_mentions(&ts[i], name) {
                    assert(mentions_class(t@->Tuple_0[i as int], name@));
                    return true;
                }
                i += 1;
            }
            false
        },
        FieldType::Constrained { base, .. } => type_mentions(base, name),
        _ => false,
    }
}

/// Whether the type of some field of the class names the class `name`.
pub fn refers_to(c: &Class, name: &String) -> (r: bool)
    ensures
        r == class_refers(c@, name@),
{
    let mut f: usize = 0;
    while f < c.static_fields.len()
        invariant
            f <= c.static_fields.len(),
            c@.static_fields.len() == c.static_fields@.len(),
            forall|j: int|
                0 <= j < c.static_fields@.len() ==> (#[trigger] c@.static_fields[j])
                    == c.static_fields@[j]@,
            forall|j: int|
                0 <= j < f ==> !mentions_class(
                    (#[trigger] c@.static_fields[j]).elem.field_type.elem,
                    name@,
                ),
        decreases c.static_fields.len() - f,
    {
        if type_mentions(&c.static_fields[f].elem.field_type.elem, name) {
            assert(mentions_class(c@.static_fields[f as int].elem.field_type.elem, name@));
            return true;
        }
        f += 1;
    }
    false
}

/// The graph of references between the classes, as an adjacency matrix.
pub fn build_class_graph(classes: &Vec<Node<Class>>) -> (g: Vec<Vec<bool>>)
    ensures
        rows(g@) == class_graph(views(classes@)),
{
    let n = classes.len();
    let ghost cs = views(classes@);
    let mut g: Vec<Vec<bool>> = Vec::new();
    let mut u: usize = 0;
    while u < n
        invariant
            n == classes@.len(),
            cs == views(classes@),
            u <= n,
            g@.len() == u,
            forall|a: int| 0 <= a < u ==> (#[trigger] g@[a])@ == class_graph(cs)[a],
        decreases n - u,
    {
        let mut row: Vec<bool> = Vec::new();
        let mut v: usize = 0;
        while v < n
            invariant
                n == classes@.len(),
                cs == views(classes@),
                u < n,
                v <= n,
                row@.len() == v,
                forall|b: int|
                    0 <= b < v ==> (#[trigger] row@[b]) == class_refers(cs[u as int].elem, cs[b].elem.name),
            decreases n - v,
        {
            let r = refers_to(&classes[u].elem, &classes[v].elem.name);
            row.push(r);
            v += 1;
        }
        assert(row@ =~= class_graph(cs)[u as int]);
        let ghost before = g@;
        g.push(row);
        assert(forall|a: int| 0 <= a < u ==> g@[a] == before[a]);
        u += 1;
    }
    assert(rows(g@) =~= class_graph(cs));
    g
}

/// Finds the cycles among the classes.
///
/// Each set of the result holds the names of the classes of one component of
/// the graph of references that contains a cycle. The sets come in the order
/// of their first classes, the names within a set in the order of the classes.
pub fn find_cycles(classes: &Vec<Node<Class>>) -> (r: Vec<IndexSet<String>>)
    ensures
        cycle_sets(r@) == named_cycles(views(classes@)),
{
    let g = build_class_graph(classes);
    let ghost cs = views(classes@);
    let ghost cc = cycle_components(class_graph(cs));
    let components = find_components(&g);
    proof {
        assert forall|c: int, x: int| 0 <= c < cc.len() && #[trigger] cc[c].contains(x) implies 0
            <= x < classes@.len() by {
            lemma_component_members(class_graph(cs), c);
        }
    }
    let mut out: Vec<IndexSet<String>> = Vec::new();
    let mut k: usize = 0;
    while k < components.len()
        invariant
            k <= components.len(),
            cs == views(classes@),
            cc == cycle_components(class_graph(cs)),
            node_lists(components@) == cc,
            forall|c: int, x: int|
                0 <= c < cc.len() && #[trigger] cc[c].contains(x) ==> 0 <= x < classes@.len(),
            out@.len() == k,
            forall|c: int| 0 <= c < k ==> set_members(#[trigger] out@[c]) == member_names(cs, cc[c]),
        decreases components.len() - k,
    {
        let nodes = &components[k];
        let ghost listed = cc[k as int];
        assert(listed == node_lists(components@)[k as int]);
        assert(listed.len() == nodes@.len());
        let mut set = new_set();
        let mut i: usize = 0;
        assert(listed.take(0) =~= Seq::empty());
        while i < nodes.len()
            invariant
                i <= nodes.len(),
                cs == views(classes@),
                listed.len() == nodes@.len(),
                forall|j: int| 0 <= j < nodes@.len() ==> (#[trigger] nodes@[j]) as int == listed[j],
                forall|x: int| #[trigger] listed.contains(x) ==> 0 <= x < classes@.len(),
                set_members(set) == member_names(cs, listed.take(i as int)),
            decreases nodes.len() - i,
        {
            let x = nodes[i];
            assert(listed[i as int] == x as int);
            assert(listed.contains(x as int));
            proof {
                assert(listed.take(i + 1).drop_last() =~= listed.take(i as int));
                assert(listed.take(i + 1).last() == x as int);
            }
            set_insert(&mut set, classes[x].elem.name.clone());
            i += 1;
        }
        assert(listed.take(nodes.len() as int) =~= listed);
        let ghost before = out@;
        out.push(set);
        assert(forall|c: int| 0 <= c < k ==> out@[c] == before[c]);
        k += 1;
    }
    assert(cycle_sets(out@) =~= named_cycles(cs));
    out
}

/// No two classes share a name.
pub open spec fn distinct_names(classes: Seq<NodeView<ClassView>>) -> bool {
    forall|i: int, j: int|
        0 <= i < j < classes.len() ==> (#[trigger] classes[i]).elem.name != (
        #[trigger] classes[j]).elem.name
}

/// A name is among the names of a component exactly when it is the name of one
/// of its classes.
pub proof fn lemma_member_names(classes: Seq<NodeView<ClassView>>, nodes: Seq<int>, name: Seq<char>)
    ensures
        member_names(classes, nodes).contains(name) <==> exists|i: int|
            0 <= i < nodes.len() && classes[#[trigger] nodes[i]].elem.name == name,
    decreases nodes.len(),
{
    if nodes.len() > 0 {
        let rest = member_names(classes, nodes.drop_last());
        let last = classes[nodes.last()].elem.name;
        lemma_member_names(classes, nodes.drop_last(), name);
        let all = member_names(classes, nodes);
        if all.contains(name) {
            let p = choose|p: int| 0 <= p < all.len() && all[p] == name;
            if rest.contains(last) || p < rest.len() {
                assert(rest.contains(name)) by {
                    if !rest.contains(last) {
                        assert(rest[p] == name);
                    }
                }
                let i = choose|i: int|
                    0 <= i < nodes.drop_last().len() && classes[#[trigger] nodes.drop_last()[i]].elem.name
                        == name;
                assert(nodes[i] == nodes.drop_last()[i]);
            } else {
                assert(name == last);
                assert(nodes[nodes.len() - 1] == nodes.last());
            }
        }
        if exists|i: int| 0 <= i < nodes.len() && classes[#[trigger] nodes[i]].elem.name == name {
            let i = choose|i: int|
                0 <= i < nodes.len() && classes[#[trigger] nodes[i]].elem.name == name;
            if i < nodes.len() - 1 {
                assert(nodes.drop_last()[i] == nodes[i]);
                assert(rest.contains(name));
                let p = choose|p: int| 0 <= p < rest.len() && rest[p] == name;
                if !rest.contains(last) {
                    assert(all[p] == name);
                }
            } else {
                if !rest.contains(last) {
                    assert(all[rest.len() as int] == name);
                }
            }
        }
    }
}

/// Among classes of distinct names, a cycle set holds the name of a class
/// exactly when its component holds the class.
pub proof fn lemma_named_cycle_holds(classes: Seq<NodeView<ClassView>>, k: int, a: int)
    requires
        distinct_names(classes),
        0 <= k < named_cycles(classes).len(),
        0 <= a < classes.len(),
    ensures
        named_cycles(classes)[k].contains(classes[a].elem.name) <==> cycle_components(
            class_graph(classes),
        )[k].contains(a),
{
    let g = class_graph(classes);
    let nodes = cycle_components(g)[k];
    let name = classes[a].elem.name;
    lemma_member_names(classes, nodes, name);
    lemma_component_members(g, k);
    if named_cycles(classes)[k].contains(name) {
        let i = choose|i: int| 0 <= i < nodes.len() && classes[#[trigger] nodes[i]].elem.name == name;
        assert(nodes.contains(nodes[i]));
        let x = nodes[i];
        if x < a {
            assert(classes[x].elem.name != classes[a].elem.name);
        } else if a < x {
            assert(classes[a].elem.name != classes[x].elem.name);
        }
    }
    if nodes.contains(a) {
        let i = choose|i: int| 0 <= i < nodes.len() && nodes[i] == a;
        assert(classes[nodes[i]].elem.name == name);
    }
}

/// Two classes of one name that both lie on cycles lie on a cycle together:
/// references go by name, so whatever refers to the one refers to the other.
pub proof fn lemma_same_name_same_cycle(classes: Seq<NodeView<ClassView>>, a: int, x: int)
    requires
        0 <= a < classes.len(),
        0 <= x < classes.len(),
        classes[a].elem.name == classes[x].elem.name,
        reaches(class_graph(classes), a, a),
        reaches(class_graph(classes), x, x),
    ensures
        mutual(class_graph(classes), a, x),
{
    let g = class_graph(classes);
    let u = lemma_last_edge(g, a, a);
    assert(g[u][a] == g[u][x]);
    assert(edge(g, u, x));
    if u == a {
        lemma_edge_reaches(g, a, x);
    } else {
        lemma_reaches_then_edge(g, a, u, x);
    }
    let w = lemma_last_edge(g, x, x);
    assert(g[w][x] == g[w][a]);
    assert(edge(g, w, a));
    if w == x {
        lemma_edge_reaches(g, x, a);
    } else {
        lemma_reaches_then_edge(g, x, w, a);
    }
}

/// A class that refers to itself, directly or through other classes, is in
/// exactly one cycle set, and every class that it reaches and that reaches it
/// is in that same set.
pub proof fn lemma_class_on_cycle(classes: Seq<NodeView<ClassView>>, a: int) -> (k: int)
    requires
        reaches(class_graph(classes), a, a),
    ensures
        0 <= k < named_cycles(classes).len(),
        named_cycles(classes)[k].contains(classes[a].elem.name),
        forall|other: int|
            0 <= other < named_cycles(classes).len() && (#[trigger] named_cycles(
                classes,
            )[other]).contains(classes[a].elem.name) ==> other == k,
        forall|b: int|
            0 <= b < classes.len() && #[trigger] mutual(class_graph(classes), a, b)
                ==> named_cycles(classes)[k].contains(classes[b].elem.name),
{
    let g = class_graph(classes);
    let cc = cycle_components(g);
    lemma_reaches_in_range(g, a, a);
    let k = lemma_on_cycle_in_one_component(g, a);
    lemma_member_names(classes, cc[k], classes[a].elem.name);
    let at = choose|i: int| 0 <= i < cc[k].len() && cc[k][i] == a;
    assert(classes[cc[k][at]].elem.name == classes[a].elem.name);
    assert forall|other: int|
        0 <= other < named_cycles(classes).len() && (#[trigger] named_cycles(
            classes,
        )[other]).contains(classes[a].elem.name) implies other == k by {
        lemma_member_names(classes, cc[other], classes[a].elem.name);
        let i = choose|i: int|
            0 <= i < cc[other].len() && classes[#[trigger] cc[other][i]].elem.name
                == classes[a].elem.name;
        let x = cc[other][i];
        assert(cc[other].contains(x));
        lemma_component_members(g, other);
        lemma_same_name_same_cycle(classes, a, x);
        lemma_component_is_whole(g, k, a, x);
        assert(cc[k].contains(x));
        let kx = lemma_on_cycle_in_one_component(g, x);
        assert(k == kx);
        assert(other == kx);
    }
    assert forall|b: int|
        0 <= b < classes.len() && #[trigger] mutual(g, a, b) implies named_cycles(
            classes,
        )[k].contains(classes[b].elem.name) by {
        lemma_component_is_whole(g, k, a, b);
        lemma_member_names(classes, cc[k], classes[b].elem.name);
        let j = choose|j: int| 0 <= j < cc[k].len() && cc[k][j] == b;
        assert(classes[cc[k][j]].elem.name == classes[b].elem.name);
    }
    k
}

/// A class whose name is in a cycle set refers to itself, directly or through
/// other classes.
pub proof fn lemma_cycle_member_on_cycle(classes: Seq<NodeView<ClassView>>, k: int, a: int)
    requires
        distinct_names(classes),
        0 <= k < named_cycles(classes).len(),
        0 <= a < classes.len(),
        named_cycles(classes)[k].contains(classes[a].elem.name),
    ensures
        reaches(class_graph(classes), a, a),
{
    lemma_named_cycle_holds(classes, k, a);
    lemma_component_members(class_graph(classes), k);
}

} // verus!

//! What holds of the trees that number the leaf columns of a schema.
use vstd::prelude::*;

use crate::schema_tree::forest;
use crate::schema_tree::forest_ids;
use crate::schema_tree::leaf_sum;
use crate::schema_tree::SchemaShape;
use crate::schema_tree::SchemaTree;

verus! {

/// The `n` consecutive ids from `first` on.
pub open spec fn id_run(first: int, n: nat) -> Seq<int> {
    Seq::new(n, |i: int| first + i)
}

/// Numbering is dense and in order: the leaves of the tree of a schema, from left to
/// right, carry the consecutive ids from the first one on, one for each primitive
/// type.
pub proof fn law_leaves_numbered_in_order(shape: SchemaShape, first: int)
    ensures
        shape.tree(first).ids() == id_run(first, shape.leaves()),
    decreases shape,
{
    match shape {
        SchemaShape::Primitive => {
            assert(seq![first] =~= id_run(first, 1));
        },
        SchemaShape::Group(fields) => {
            lemma_forest_ids(fields, first);
        },
    }
}

proof fn lemma_forest_ids(fields: Seq<SchemaShape>, first: int)
    ensures
        forest_ids(forest(fields, first)) == id_run(first, leaf_sum(fields)),
    decreases fields,
{
    if fields.len() == 0 {
        assert(forest_ids(forest(fields, first)) =~= id_run(first, 0));
    } else {
        let start = first + leaf_sum(fields.drop_last());
        lemma_forest_ids(fields.drop_last(), first);
        law_leaves_numbered_in_order(fields.last(), start);
        assert(forest(fields, first).drop_last() =~= forest(fields.drop_last(), first));
        assert(id_run(first, leaf_sum(fields.drop_last())) + id_run(start, fields.last().leaves())
            =~= id_run(first, leaf_sum(fields)));
    }
}

/// The tree of the `i`th field starts behind the leaves of the fields before it.
proof fn lemma_forest_index(fields: Seq<SchemaShape>, first: int, i: int)
    requires
        0 <= i < fields.len(),
    ensures
        forest(fields, first).len() == fields.len(),
        forest(fields, first)[i] == fields[i].tree(first + leaf_sum(fields.take(i))),
        leaf_sum(fields.take(i)) + fields[i].leaves() <= leaf_sum(fields),
    decreases fields.len(),
{
    lemma_forest_len(fields, first);
    if i == fields.len() - 1 {
        assert(fields.take(i) =~= fields.drop_last());
        lemma_forest_len(fields.drop_last(), first);
    } else {
        lemma_forest_index(fields.drop_last(), first, i);
        assert(fields.drop_last().take(i) =~= fields.take(i));
    }
}

proof fn lemma_forest_len(fields: Seq<SchemaShape>, first: int)
    ensures
        forest(fields, first).len() == fields.len(),
    decreases fields.len(),
{
    if fields.len() > 0 {
        lemma_forest_len(fields.drop_last(), first);
    }
}

/// The shape of the part of a schema that `path` leads to, and the id of its first
/// leaf.
pub open spec fn sub_schema(shape: SchemaShape, first: int, path: Seq<usize>) -> (SchemaShape, int)
    decreases path.len(),
{
    match shape {
        SchemaShape::Primitive => (shape, first),
        SchemaShape::Group(fields) => if path.len() == 0 {
            (shape, first)
        } else {
            sub_schema(
                fields[path[0] as int],
                first + leaf_sum(fields.take(path[0] as int)),
                path.drop_first(),
            )
        },
    }
}

/// A path selects a run of columns: what it leads to is the tree of a part of the
/// schema, numbered in the same way, so that the ids below it are consecutive and
/// lie among those of the whole schema.
pub proof fn law_path_selects_consecutive_columns(
    shape: SchemaShape,
    first: int,
    path: Seq<usize>,
)
    requires
        shape.tree(first).has_path(path),
    ensures
        ({
            let (part, start) = sub_schema(shape, first, path);
            &&& shape.tree(first).descend(path) == part.tree(start)
            &&& shape.tree(first).descend(path).ids() == id_run(start, part.leaves())
            &&& first <= start
            &&& start + part.leaves() <= first + shape.leaves()
        }),
    decreases path.len(),
{
    let (part, start) = sub_schema(shape, first, path);
    match shape {
        SchemaShape::Primitive => {},
        SchemaShape::Group(fields) => {
            if path.len() > 0 {
                let i = path[0] as int;
                lemma_forest_len(fields, first);
                lemma_forest_index(fields, first, i);
                law_path_selects_consecutive_columns(
                    fields[i],
                    first + leaf_sum(fields.take(i)),
                    path.drop_first(),
                );
            }
        },
    }
    law_leaves_numbered_in_order(part, start);
}

/// Following a path and then another one is following the two put together.
pub proof fn law_paths_compose(tree: SchemaTree, path: Seq<usize>, rest: Seq<usize>)
    requires
        tree.has_path(path),
        tree.descend(path).has_path(rest),
    ensures
        tree.has_path(path + rest),
        tree.descend(path + rest) == tree.descend(path).descend(rest),
    decreases path.len(),
{
    match tree {
        SchemaTree::Leaf(_) => {},
        SchemaTree::Inner(children) => {
            if path.len() == 0 {
                assert(path + rest =~= rest);
            } else {
                law_paths_compose(children[path[0] as int], path.drop_first(), rest);
                assert((path + rest).drop_first() =~= path.drop_first() + rest);
            }
        },
    }
}

/// A path of one step leads to a child.
proof fn lemma_one_step(tree: SchemaTree, path: Seq<usize>, i: usize)
    requires
        tree.has_path(path),
        tree.descend(path) is Inner,
        i < tree.descend(path)->Inner_0.len(),
    ensures
        tree.has_path(path.push(i)),
        tree.descend(path.push(i)) == tree.descend(path)->Inner_0[i as int],
{
    let step = seq![i];
    let child = tree.descend(path)->Inner_0[i as int];
    assert(step.drop_first().len() == 0);
    assert(child.has_path(step.drop_first()));
    assert(child.descend(step.drop_first()) == child);
    assert(tree.descend(path).has_path(step));
    law_paths_compose(tree, path, step);
    assert(path + step =~= path.push(i));
}

/// Selecting a group is selecting each of its fields in turn.
pub proof fn law_group_is_its_fields(tree: SchemaTree, path: Seq<usize>, n: nat)
    requires
        tree.has_path(path),
        tree.descend(path) matches SchemaTree::Inner(children) && children.len() == n,
        n <= usize::MAX,
    ensures
        forall|i: usize| i < n ==> #[trigger] tree.has_path(path.push(i)),
        tree.descend(path).ids() == forest_ids(
            Seq::new(n, |i: int| tree.descend(path.push(i as usize))),
        ),
{
    let children = tree.descend(path)->Inner_0;
    assert forall|i: usize| i < n implies #[trigger] tree.has_path(path.push(i)) by {
        lemma_one_step(tree, path, i);
    }
    let selected = Seq::new(n, |i: int| tree.descend(path.push(i as usize)));
    assert forall|i: int| 0 <= i < n implies #[trigger] selected[i] == children[i] by {
        lemma_one_step(tree, path, i as usize);
    }
    assert(selected =~= children);
}

/// Two fields of one group never share a column: every id below the one that stands
/// first is smaller than every id below the other.
pub proof fn law_sibling_columns_are_disjoint(
    shape: SchemaShape,
    first: int,
    path: Seq<usize>,
    i: usize,
    j: usize,
)
    requires
        shape.tree(first).has_path(path),
        shape.tree(first).descend(path) is Inner,
        i < j < shape.tree(first).descend(path)->Inner_0.len(),
    ensures
        forall|a: int, b: int|
            shape.tree(first).descend(path.push(i)).ids().contains(a) && shape.tree(first).descend(
                path.push(j),
            ).ids().contains(b) ==> a < b,
{
    let tree = shape.tree(first);
    let (part, start) = sub_schema(shape, first, path);
    law_path_selects_consecutive_columns(shape, first, path);
    let fields = part->Group_0;
    lemma_forest_len(fields, start);
    lemma_forest_index(fields, start, i as int);
    lemma_forest_index(fields, start, j as int);
    lemma_forest_index(fields.take(j as int), start, i as int);
    assert(fields.take(j as int).take(i as int) =~= fields.take(i as int));
    lemma_one_step(tree, path, i);
    lemma_one_step(tree, path, j);
    law_leaves_numbered_in_order(fields[i as int], start + leaf_sum(fields.take(i as int)));
    law_leaves_numbered_in_order(fields[j as int], start + leaf_sum(fields.take(j as int)));
}

/// The tree of a schema has the shape of the schema: a primitive type gives a leaf, and a
/// group gives an inner node with one child for each field, the `i`th of which is the tree
/// of the `i`th field, numbered behind the leaves of the fields before it.
pub proof fn law_tree_has_the_shape_of_the_schema(
    fields: Seq<SchemaShape>,
    first: int,
    i: int,
)
    ensures
        SchemaShape::Primitive.tree(first) == SchemaTree::Leaf(first),
        SchemaShape::Group(fields).tree(first) is Inner,
        SchemaShape::Group(fields).tree(first)->Inner_0.len() == fields.len(),
        0 <= i < fields.len() ==> SchemaShape::Group(fields).tree(first)->Inner_0[i]
            == fields[i].tree(first + SchemaShape::Group(fields.take(i)).leaves()),
{
    lemma_forest_len(fields, first);
    if 0 <= i < fields.len() {
        lemma_forest_index(fields, first, i);
    }
}

/// A primitive type is one leaf. A group has as many leaves as all its fields together,
/// whatever they are: one more field adds its leaves, and no field at all gives none.
pub proof fn law_group_has_the_leaves_of_its_fields(
    fields: Seq<SchemaShape>,
    field: SchemaShape,
)
    ensures
        SchemaShape::Primitive.leaves() == 1,
        SchemaShape::Group(Seq::<SchemaShape>::empty()).leaves() == 0,
        SchemaShape::Group(seq![field]).leaves() == field.leaves(),
        SchemaShape::Group(fields.push(field)).leaves() == SchemaShape::Group(fields).leaves()
            + field.leaves(),
{
    assert(fields.push(field).drop_last() =~= fields);
    assert(seq![field].drop_last() =~= seq![]);
    assert(leaf_sum(seq![field].drop_last()) == 0);
}

/// The first leaf of a schema has the first id, the last the one before the next schema
/// starts, and each leaf the id behind that of the leaf to its left.
pub proof fn law_ids_count_up_by_one(shape: SchemaShape, first: int, k: int)
    requires
        0 <= k < shape.leaves(),
    ensures
        shape.tree(first).ids().len() == shape.leaves(),
        shape.tree(first).ids()[k] == first + k,
{
    law_leaves_numbered_in_order(shape, first);
}

/// The ids below a node are those below its children, from left to right. A leaf has just
/// its own.
pub proof fn law_ids_of_a_node_are_those_of_its_children(
    children: Seq<SchemaTree>,
    child: SchemaTree,
    id: int,
)
    ensures
        SchemaTree::Leaf(id).ids() == seq![id],
        SchemaTree::Inner(Seq::<SchemaTree>::empty()).ids() == Seq::<int>::empty(),
        SchemaTree::Inner(children.push(child)).ids() == SchemaTree::Inner(children).ids()
            + child.ids(),
{
    assert(children.push(child).drop_last() =~= children);
}

/// A path is followed child by child. The empty path leads to the node itself, and so does
/// any path from a leaf. A step from an inner node leads to the child of that number, if
/// there is one, and on from there.
pub proof fn law_path_is_followed_child_by_child(
    children: Seq<SchemaTree>,
    id: int,
    step: usize,
    rest: Seq<usize>,
)
    ensures
        SchemaTree::Leaf(id).has_path(rest),
        SchemaTree::Leaf(id).descend(rest) == SchemaTree::Leaf(id),
        SchemaTree::Inner(children).has_path(Seq::<usize>::empty()),
        SchemaTree::Inner(children).descend(Seq::<usize>::empty()) == SchemaTree::Inner(children),
        SchemaTree::Inner(children).has_path(seq![step] + rest) <==> step < children.len()
            && children[step as int].has_path(rest),
        step < children.len() ==> SchemaTree::Inner(children).descend(seq![step] + rest)
            == children[step as int].descend(rest),
{
    assert((seq![step] + rest).drop_first() =~= rest);
    assert((seq![step] + rest)[0] == step);
}

} // verus!

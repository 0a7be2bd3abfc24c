//! Numbering and selecting the leaf columns of a Parquet schema.
use std::sync::Arc;

use parquet::schema::types::Type;
use vstd::prelude::*;
use vstd::slice::slice_subrange;

verus! {

/// What a schema type looks like once names and physical types are forgotten.
pub enum SchemaShape {
    Primitive,
    Group(Seq<SchemaShape>),
}

/// The mathematical counterpart of [`ParquetSchemaTreeNode`].
pub enum SchemaTree {
    Leaf(int),
    Inner(Seq<SchemaTree>),
}

impl SchemaShape {
    /// The number of primitive types in the shape.
    pub open spec fn leaves(self) -> nat
        decreases self,
    {
        match self {
            SchemaShape::Primitive => 1,
            SchemaShape::Group(fields) => leaf_sum(fields),
        }
    }

    /// The tree of the shape whose leaves are numbered in order from `first` on.
    pub open spec fn tree(self, first: int) -> SchemaTree
        decreases self,
    {
        match self {
            SchemaShape::Primitive => SchemaTree::Leaf(first),
            SchemaShape::Group(fields) => SchemaTree::Inner(forest(fields, first)),
        }
    }
}

/// The number of primitive types in all of `fields`.
pub open spec fn leaf_sum(fields: Seq<SchemaShape>) -> nat
    decreases fields,
{
    if fields.len() == 0 {
        0
    } else {
        leaf_sum(fields.drop_last()) + fields.last().leaves()
    }
}

/// The trees of `fields`, numbered one after the other from `first` on.
pub open spec fn forest(fields: Seq<SchemaShape>, first: int) -> Seq<SchemaTree>
    decreases fields,
{
    if fields.len() == 0 {
        seq![]
    } else {
        forest(fields.drop_last(), first).push(
            fields.last().tree(first + leaf_sum(fields.drop_last())),
        )
    }
}

impl SchemaTree {
    /// The ids of all leaves, from left to right.
    pub open spec fn ids(self) -> Seq<int>
        decreases self,
    {
        match self {
            SchemaTree::Leaf(id) => seq![id],
            SchemaTree::Inner(children) => forest_ids(children),
        }
    }

    /// Whether `path` names a child at every inner node that it reaches. What is
    /// left of a path at a leaf is ignored.
    pub open spec fn has_path(self, path: Seq<usize>) -> bool
        decreases path.len(),
    {
        match self {
            SchemaTree::Leaf(_) => true,
            SchemaTree::Inner(children) => path.len() == 0 || (path[0] < children.len()
                && children[path[0] as int].has_path(path.drop_first())),
        }
    }

    /// The node that `path` leads to.
    pub open spec fn descend(self, path: Seq<usize>) -> SchemaTree
        decreases path.len(),
    {
        match self {
            SchemaTree::Leaf(_) => self,
            SchemaTree::Inner(children) => if path.len() == 0 {
                self
            } else {
                children[path[0] as int].descend(path.drop_first())
            },
        }
    }
}

/// The ids of the leaves of all of `children`, from left to right.
pub open spec fn forest_ids(children: Seq<SchemaTree>) -> Seq<int>
    decreases children,
{
    if children.len() == 0 {
        seq![]
    } else {
        forest_ids(children.drop_last()) + children.last().ids()
    }
}

/// A Parquet schema type, reduced to its nesting.
pub enum SchemaType {
    PrimitiveType,
    GroupType { fields: Vec<SchemaType> },
}

impl SchemaType {
    pub open spec fn shape(self) -> SchemaShape
        decreases self,
    {
        match self {
            SchemaType::PrimitiveType => SchemaShape::Primitive,
            SchemaType::GroupType { fields } => SchemaShape::Group(shapes(fields@)),
        }
    }
}

pub open spec fn shapes(fields: Seq<SchemaType>) -> Seq<SchemaShape>
    decreases fields,
{
    if fields.len() == 0 {
        seq![]
    } else {
        shapes(fields.drop_last()).push(fields.last().shape())
    }
}

impl View for SchemaType {
    type V = SchemaShape;

    open spec fn view(&self) -> SchemaShape {
        self.shape()
    }
}

/// A node of the tree of leaf columns of a Parquet schema.
#[derive(Debug, PartialEq, Eq)]
pub enum ParquetSchemaTreeNode {
    Leaf(usize),
    Inner(Vec<ParquetSchemaTreeNode>),
}

impl ParquetSchemaTreeNode {
    pub open spec fn tree(self) -> SchemaTree
        decreases self,
    {
        match self {
            ParquetSchemaTreeNode::Leaf(id) => SchemaTree::Leaf(id as int),
            ParquetSchemaTreeNode::Inner(children) => SchemaTree::Inner(trees(children@)),
        }
    }
}

pub open spec fn trees(children: Seq<ParquetSchemaTreeNode>) -> Seq<SchemaTree>
    decreases children,
{
    if children.len() == 0 {
        seq![]
    } else {
        trees(children.drop_last()).push(children.last().tree())
    }
}

impl View for ParquetSchemaTreeNode {
    type V = SchemaTree;

    open spec fn view(&self) -> SchemaTree {
        self.tree()
    }
}

/// The shape of a schema type of the `parquet` crate: an enum with a variant for
/// primitive types and one for groups, whose fields are schema types again.
pub uninterp spec fn parquet_shape(ty: Type) -> SchemaShape;

/// A schema type of the `parquet` crate.
#[verifier::external_type_specification]
#[verifier::external_body]
pub struct ExType(parquet::schema::types::Type);

/// Tells the two variants of `parquet::schema::types::Type` apart. Trusted: a
/// `PrimitiveType` has the primitive shape and gives `None`; a `GroupType` gives
/// its fields, in order, and its shape is the group of their shapes.
#[verifier::external_body]
fn group_fields(ty: &Type) -> (fields: Option<&Vec<Arc<Type>>>)
    ensures
        match fields {
            None => parquet_shape(*ty) == SchemaShape::Primitive,
            Some(fields) => parquet_shape(*ty) == SchemaShape::Group(
                fields@.map_values(|field: Arc<Type>| parquet_shape(*field)),
            ),
        },
{
    match ty {
        Type::PrimitiveType { .. } => None,
        Type::GroupType { fields, .. } => Some(fields),
    }
}

impl SchemaType {
    /// Reads the nesting of a schema type of the `parquet` crate.
    pub fn from_parquet(ty: &Type) -> (out: SchemaType)
        ensures
            out@ == parquet_shape(*ty),
        decreases parquet_shape(*ty),
    {
        match group_fields(ty) {
            None => SchemaType::PrimitiveType,
            Some(fields) => {
                let ghost inner = parquet_shape(*ty)->Group_0;
                let mut out: Vec<SchemaType> = Vec::with_capacity(fields.len());
                let mut i: usize = 0;
                while i < fields.len()
                    invariant
                        i <= fields@.len(),
                        parquet_shape(*ty) == SchemaShape::Group(inner),
                        inner == fields@.map_values(|field: Arc<Type>| parquet_shape(*field)),
                        shapes(out@) == inner.take(i as int),
                    decreases fields@.len() - i,
                {
                    assert(decreases_to!(parquet_shape(*ty) => parquet_shape(*ty)->Group_0));
                    assert(decreases_to!(inner => inner[i as int]));
                    let ghost before = out@;
                    let field = SchemaType::from_parquet(&fields[i]);
                    out.push(field);
                    assert(out@.drop_last() =~= before);
                    i += 1;
                }
                assert(inner.take(i as int) =~= inner);
                SchemaType::GroupType { fields: out }
            },
        }
    }

    /// The number of primitive types, or `None` where a `usize` cannot hold it.
    pub fn leaf_count(&self) -> (count: Option<usize>)
        ensures
            match count {
                Some(n) => n == self@.leaves(),
                None => self@.leaves() > usize::MAX,
            },
        decreases self,
    {
        match self {
            SchemaType::PrimitiveType => Some(1),
            SchemaType::GroupType { fields } => {
                let mut count: usize = 0;
                let mut i: usize = 0;
                while i < fields.len()
                    invariant
                        i <= fields@.len(),
                        *self == (SchemaType::GroupType { fields: *fields }),
                        count == leaf_sum(shapes(fields@.take(i as int))),
                    decreases fields@.len() - i,
                {
                    proof {
                        lemma_shapes_take(fields@, i as int);
                        lemma_shapes_take(fields@, i + 1);
                        lemma_leaf_sum_take(shapes(fields@), i as int);
                        lemma_leaf_sum_monotone(shapes(fields@), i + 1);
                        assert(decreases_to!(*self => self->fields));
                    }
                    match fields[i].leaf_count() {
                        None => {
                            return None;
                        },
                        Some(n) => match count.checked_add(n) {
                            None => {
                                return None;
                            },
                            Some(sum) => {
                                count = sum;
                            },
                        },
                    }
                    i += 1;
                }
                assert(fields@.take(i as int) =~= fields@);
                Some(count)
            },
        }
    }
}

/// Convert a schema type to a tree whose leaves are numbered from `leave_id` on,
/// and move `leave_id` behind the last of them.
pub fn build_parquet_schema_tree(ty: &SchemaType, leave_id: &mut usize) -> (node:
    ParquetSchemaTreeNode)
    requires
        *old(leave_id) + ty@.leaves() <= usize::MAX,
    ensures
        node@ == ty@.tree(*old(leave_id) as int),
        *final(leave_id) == *old(leave_id) + ty@.leaves(),
        ty is PrimitiveType ==> node == ParquetSchemaTreeNode::Leaf(*old(leave_id))
            && *final(leave_id) == *old(leave_id) + 1,
        ty matches SchemaType::GroupType { fields } ==> (
        node matches ParquetSchemaTreeNode::Inner(children) && children@.len() == fields@.len()
            && forall|i: int|
            0 <= i < fields@.len() ==> (#[trigger] children@[i] is Leaf
                <==> fields@[i] is PrimitiveType)),
    decreases ty,
{
    match ty {
        SchemaType::PrimitiveType => {
            let res = ParquetSchemaTreeNode::Leaf(*leave_id);
            *leave_id += 1;
            res
        },
        SchemaType::GroupType { fields } => {
            let ghost first = *leave_id as int;
            let mut children: Vec<ParquetSchemaTreeNode> = Vec::with_capacity(fields.len());
            let mut i: usize = 0;
            while i < fields.len()
                invariant
                    i <= fields@.len(),
                    *ty == (SchemaType::GroupType { fields: *fields }),
                    first + ty@.leaves() <= usize::MAX,
                    *leave_id == first + leaf_sum(shapes(fields@.take(i as int))),
                    trees(children@) == forest(shapes(fields@.take(i as int)), first),
                    children@.len() == i,
                    forall|j: int|
                        0 <= j < i ==> (#[trigger] children@[j] is Leaf
                            <==> fields@[j] is PrimitiveType),
                decreases fields@.len() - i,
            {
                let ghost before = children@;
                proof {
                    lemma_shapes_take(fields@, i as int);
                    lemma_shapes_take(fields@, i + 1);
                    lemma_leaf_sum_monotone(shapes(fields@), i + 1);
                    assert(shapes(fields@).take(i + 1).drop_last() =~= shapes(fields@).take(
                        i as int,
                    ));
                }
                let child = build_parquet_schema_tree(&fields[i], leave_id);
                children.push(child);
                assert(children@.drop_last() =~= before);
                i += 1;
            }
            assert(fields@.take(i as int) =~= fields@);
            ParquetSchemaTreeNode::Inner(children)
        },
    }
}

/// Convert a schema type of the `parquet` crate to a tree, as
/// [`build_parquet_schema_tree`] does. Where a `usize` cannot number the leaves, there
/// is no tree, and `leave_id` stays as it is.
pub fn try_build_parquet_schema_tree(ty: &Type, leave_id: &mut usize) -> (node: Option<
    ParquetSchemaTreeNode,
>)
    ensures
        match node {
            Some(node) => node@ == parquet_shape(*ty).tree(*old(leave_id) as int)
                && *final(leave_id) == *old(leave_id) + parquet_shape(*ty).leaves(),
            None => *old(leave_id) + parquet_shape(*ty).leaves() > usize::MAX
                && *final(leave_id) == *old(leave_id),
        },
{
    let ty = SchemaType::from_parquet(ty);
    match ty.leaf_count() {
        None => None,
        Some(leaves) => match leave_id.checked_add(leaves) {
            None => None,
            Some(_) => Some(build_parquet_schema_tree(&ty, leave_id)),
        },
    }
}

/// The ids as mathematical integers.
pub open spec fn as_ints(ids: Seq<usize>) -> Seq<int> {
    ids.map_values(|id: usize| id as int)
}

/// Traverse the schema tree by `path` to collect the leaves' ids: every leaf below
/// the node that `path` leads to, from left to right.
pub fn traverse_parquet_schema_tree(
    node: &ParquetSchemaTreeNode,
    path: &[usize],
    leaves: &mut Vec<usize>,
)
    requires
        node@.has_path(path@),
    ensures
        as_ints(final(leaves)@) == as_ints(old(leaves)@) + node@.descend(path@).ids(),
        final(leaves)@.len() == old(leaves)@.len() + node@.descend(path@).ids().len(),
        forall|i: int|
            0 <= i < old(leaves)@.len() ==> #[trigger] final(leaves)@[i] == old(leaves)@[i],
        forall|i: int|
            old(leaves)@.len() <= i < final(leaves)@.len() ==> #[trigger] final(leaves)@[i]
                == node@.descend(path@).ids()[i - old(leaves)@.len()],
        node matches ParquetSchemaTreeNode::Leaf(id) ==> final(leaves)@ == old(leaves)@.push(*id),
    decreases node,
{
    let ghost given = leaves@;
    match node {
        ParquetSchemaTreeNode::Leaf(id) => {
            leaves.push(*id);
        },
        ParquetSchemaTreeNode::Inner(children) => {
            if path.len() == 0 {
                // All children should be included.
                let ghost before = leaves@;
                let mut i: usize = 0;
                while i < children.len()
                    invariant
                        i <= children@.len(),
                        path@.len() == 0,
                        *node == ParquetSchemaTreeNode::Inner(*children),
                        as_ints(leaves@) == as_ints(before) + forest_ids(
                            trees(children@.take(i as int)),
                        ),
                    decreases children@.len() - i,
                {
                    proof {
                        assert(decreases_to!(*node => node->Inner_0));
                        assert(children@.take(i + 1).drop_last() =~= children@.take(i as int));
                        let next = trees(children@.take(i + 1));
                        assert(next.drop_last() =~= trees(children@.take(i as int)));
                        assert(as_ints(before) + forest_ids(next) =~= as_ints(before)
                            + forest_ids(next.drop_last()) + next.last().ids());
                    }
                    traverse_parquet_schema_tree(&children[i], path, leaves);
                    i += 1;
                }
                assert(children@.take(i as int) =~= children@);
            } else {
                let child = path[0];
                proof {
                    lemma_trees(children@);
                }
                let rest = slice_subrange(path, 1, path.len());
                traverse_parquet_schema_tree(&children[child], rest, leaves);
            }
        },
    }
    proof {
        assert(as_ints(leaves@) =~= as_ints(given) + node@.descend(path@).ids());
        lemma_as_ints(leaves@, given, node@.descend(path@).ids());
    }
}

/// Ids as mathematical integers are the same ids, one by one.
proof fn lemma_as_ints(after: Seq<usize>, before: Seq<usize>, added: Seq<int>)
    requires
        as_ints(after) == as_ints(before) + added,
    ensures
        after.len() == before.len() + added.len(),
        forall|i: int| 0 <= i < before.len() ==> #[trigger] after[i] == before[i],
        forall|i: int|
            before.len() <= i < after.len() ==> #[trigger] after[i] == added[i - before.len()],
{
    assert(as_ints(after).len() == after.len());
    assert forall|i: int| 0 <= i < before.len() implies #[trigger] after[i] == before[i] by {
        assert(as_ints(after)[i] == as_ints(before)[i]);
    }
    assert forall|i: int| before.len() <= i < after.len() implies #[trigger] after[i] == added[i
        - before.len()] by {
        assert(as_ints(after)[i] == added[i - before.len()]);
    }
}

/// Whether `path` names a child at every inner node that it reaches.
fn has_path(node: &ParquetSchemaTreeNode, path: &[usize]) -> (has: bool)
    ensures
        has == node@.has_path(path@),
    decreases path@.len(),
{
    match node {
        ParquetSchemaTreeNode::Leaf(_) => true,
        ParquetSchemaTreeNode::Inner(children) => {
            if path.len() == 0 {
                return true;
            }
            let child = path[0];
            proof {
                lemma_trees(children@);
            }
            if child < children.len() {
                let rest = slice_subrange(path, 1, path.len());
                assert(rest@ =~= path@.drop_first());
                has_path(&children[child], rest)
            } else {
                false
            }
        },
    }
}

/// Traverse the schema tree as [`traverse_parquet_schema_tree`] does, where `path` names
/// a child at every inner node that it reaches. Where it does not, `leaves` stays as it
/// is, and the answer is `false`.
pub fn try_traverse_parquet_schema_tree(
    node: &ParquetSchemaTreeNode,
    path: &[usize],
    leaves: &mut Vec<usize>,
) -> (found: bool)
    ensures
        found == node@.has_path(path@),
        found ==> as_ints(final(leaves)@) == as_ints(old(leaves)@) + node@.descend(path@).ids(),
        found ==> final(leaves)@.len() == old(leaves)@.len() + node@.descend(path@).ids().len(),
        forall|i: int|
            0 <= i < old(leaves)@.len() ==> #[trigger] final(leaves)@[i] == old(leaves)@[i],
        found ==> forall|i: int|
            old(leaves)@.len() <= i < final(leaves)@.len() ==> #[trigger] final(leaves)@[i]
                == node@.descend(path@).ids()[i - old(leaves)@.len()],
        !found ==> *final(leaves) == *old(leaves),
{
    if has_path(node, path) {
        traverse_parquet_schema_tree(node, path, leaves);
        true
    } else {
        false
    }
}

proof fn lemma_shapes(fields: Seq<SchemaType>)
    ensures
        shapes(fields).len() == fields.len(),
        forall|i: int| 0 <= i < fields.len() ==> #[trigger] shapes(fields)[i] == fields[i]@,
    decreases fields.len(),
{
    if fields.len() > 0 {
        lemma_shapes(fields.drop_last());
    }
}

proof fn lemma_shapes_take(fields: Seq<SchemaType>, n: int)
    requires
        0 <= n <= fields.len(),
    ensures
        shapes(fields).len() == fields.len(),
        shapes(fields.take(n)) == shapes(fields).take(n),
        n < fields.len() ==> shapes(fields)[n] == fields[n]@,
{
    lemma_shapes(fields);
    lemma_shapes(fields.take(n));
}

proof fn lemma_trees(children: Seq<ParquetSchemaTreeNode>)
    ensures
        trees(children).len() == children.len(),
        forall|i: int|
            0 <= i < children.len() ==> #[trigger] trees(children)[i] == children[i]@,
    decreases children.len(),
{
    if children.len() > 0 {
        lemma_trees(children.drop_last());
    }
}

/// One more field adds its leaves to the sum.
proof fn lemma_leaf_sum_take(fields: Seq<SchemaShape>, i: int)
    requires
        0 <= i < fields.len(),
    ensures
        leaf_sum(fields.take(i + 1)) == leaf_sum(fields.take(i)) + fields[i].leaves(),
{
    assert(fields.take(i + 1).drop_last() =~= fields.take(i));
}

/// The first fields have no more leaves than all of them.
proof fn lemma_leaf_sum_monotone(fields: Seq<SchemaShape>, n: int)
    requires
        0 <= n <= fields.len(),
    ensures
        leaf_sum(fields.take(n)) <= leaf_sum(fields),
    decreases fields.len() - n,
{
    if n < fields.len() {
        lemma_leaf_sum_take(fields, n);
        lemma_leaf_sum_monotone(fields, n + 1);
    } else {
        assert(fields.take(n) =~= fields);
    }
}

/// A schema type and a node of a tree are seen as they are: a group as a group of just its
/// fields, an inner node as one with just its children, in order, and a leaf with its id.
pub proof fn law_views_keep_the_nesting(
    ty: SchemaType,
    fields: Vec<SchemaType>,
    node: ParquetSchemaTreeNode,
    children: Vec<ParquetSchemaTreeNode>,
    i: int,
)
    requires
        ty == (SchemaType::GroupType { fields }),
        node == ParquetSchemaTreeNode::Inner(children),
    ensures
        SchemaType::PrimitiveType@ == SchemaShape::Primitive,
        ty@ is Group,
        ty@->Group_0.len() == fields@.len(),
        0 <= i < fields@.len() ==> ty@->Group_0[i] == fields@[i]@,
        forall|id: usize| #[trigger]
            ParquetSchemaTreeNode::Leaf(id).view() == SchemaTree::Leaf(id as int),
        node@ is Inner,
        node@->Inner_0.len() == children@.len(),
        0 <= i < children@.len() ==> node@->Inner_0[i] == children@[i]@,
{
    lemma_shapes(fields@);
    lemma_trees(children@);
}

} // verus!

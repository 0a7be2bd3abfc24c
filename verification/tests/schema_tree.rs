use arrow_schema::DataType;
use arrow_schema::Field;
use arrow_schema::Fields;
use arrow_schema::Schema;
use databend_core::schema_tree::build_parquet_schema_tree;
use databend_core::schema_tree::traverse_parquet_schema_tree;
use databend_core::schema_tree::try_build_parquet_schema_tree;
use databend_core::schema_tree::try_traverse_parquet_schema_tree;
use databend_core::schema_tree::ParquetSchemaTreeNode;
use databend_core::schema_tree::SchemaType;
use parquet::arrow::ArrowSchemaConverter;
use parquet::schema::types::SchemaDescriptor;

fn tuple(name: &str, fields: Vec<Field>) -> Field {
    Field::new(name, DataType::Struct(Fields::from(fields)), false)
}

fn int32(name: &str) -> Field {
    Field::new(name, DataType::Int32, false)
}

fn string(name: &str) -> Field {
    Field::new(name, DataType::LargeBinary, false)
}

/// Six physical columns:
/// a: Int32,            (leave id: 0, path: [0])
/// b: Tuple (
///    c: Int32,         (leave id: 1, path: [1, 0])
///    d: Tuple (
///        e: Int32,     (leave id: 2, path: [1, 1, 0])
///        f: String,    (leave id: 3, path: [1, 1, 1])
///    ),
///    g: String,        (leave id: 4, path: [1, 2])
/// )
/// h: String,           (leave id: 5, path: [2])
fn six_column_schema() -> SchemaDescriptor {
    let arrow_schema = Schema::new(vec![
        int32("a"),
        tuple("b", vec![
            int32("c"),
            tuple("d", vec![int32("e"), string("f")]),
            string("g"),
        ]),
        string("h"),
    ]);
    let schema_desc = ArrowSchemaConverter::new().convert(&arrow_schema).unwrap();
    assert_eq!(schema_desc.num_columns(), 6);
    schema_desc
}

fn six_columns() -> SchemaType {
    SchemaType::from_parquet(six_column_schema().root_schema())
}

fn select(path: &[usize]) -> Vec<usize> {
    let mut leave_id = 0;
    let tree = build_parquet_schema_tree(&six_columns(), &mut leave_id);
    let mut leaves = vec![];
    traverse_parquet_schema_tree(&tree, path, &mut leaves);
    leaves
}

#[test]
fn test_build_parquet_schema_tree() {
    let schema = six_columns();
    let mut leave_id = 0;
    let tree = build_parquet_schema_tree(&schema, &mut leave_id);
    assert_eq!(leave_id, 6);
    let expected_tree = ParquetSchemaTreeNode::Inner(vec![
        ParquetSchemaTreeNode::Leaf(0),
        ParquetSchemaTreeNode::Inner(vec![
            ParquetSchemaTreeNode::Leaf(1),
            ParquetSchemaTreeNode::Inner(vec![
                ParquetSchemaTreeNode::Leaf(2),
                ParquetSchemaTreeNode::Leaf(3),
            ]),
            ParquetSchemaTreeNode::Leaf(4),
        ]),
        ParquetSchemaTreeNode::Leaf(5),
    ]);
    assert_eq!(tree, expected_tree);
}

#[test]
fn builds_a_tree_from_a_parquet_type() {
    let schema_desc = six_column_schema();
    let mut leave_id = 0;
    let tree = try_build_parquet_schema_tree(schema_desc.root_schema(), &mut leave_id).unwrap();
    assert_eq!(leave_id, 6);
    let mut other_id = 0;
    assert_eq!(tree, build_parquet_schema_tree(&six_columns(), &mut other_id));
}

#[test]
fn leaf_ids_do_not_overflow() {
    let schema_desc = six_column_schema();
    let mut leave_id = usize::MAX - 5;
    assert!(try_build_parquet_schema_tree(schema_desc.root_schema(), &mut leave_id).is_none());
    assert_eq!(leave_id, usize::MAX - 5);
    leave_id -= 1;
    assert!(try_build_parquet_schema_tree(schema_desc.root_schema(), &mut leave_id).is_some());
    assert_eq!(leave_id, usize::MAX);
}

#[test]
fn reads_the_nesting_of_a_parquet_type() {
    match six_columns() {
        SchemaType::GroupType { fields } => {
            assert_eq!(fields.len(), 3);
            assert!(matches!(fields[0], SchemaType::PrimitiveType));
            assert!(matches!(&fields[1], SchemaType::GroupType { fields } if fields.len() == 3));
            assert!(matches!(fields[2], SchemaType::PrimitiveType));
        }
        SchemaType::PrimitiveType => panic!("the root of a schema is a group"),
    }
}

#[test]
fn counts_leaves() {
    assert_eq!(six_columns().leaf_count(), Some(6));
    assert_eq!(SchemaType::PrimitiveType.leaf_count(), Some(1));
    assert_eq!(SchemaType::GroupType { fields: vec![] }.leaf_count(), Some(0));
}

#[test]
fn numbering_goes_on_from_the_given_id() {
    let mut leave_id = 10;
    let ty = SchemaType::GroupType {
        fields: vec![SchemaType::PrimitiveType, SchemaType::PrimitiveType],
    };
    let tree = build_parquet_schema_tree(&ty, &mut leave_id);
    assert_eq!(leave_id, 12);
    assert_eq!(
        tree,
        ParquetSchemaTreeNode::Inner(vec![
            ParquetSchemaTreeNode::Leaf(10),
            ParquetSchemaTreeNode::Leaf(11),
        ])
    );
    let last = build_parquet_schema_tree(&SchemaType::PrimitiveType, &mut leave_id);
    assert_eq!(last, ParquetSchemaTreeNode::Leaf(12));
    assert_eq!(leave_id, 13);
}

#[test]
fn each_path_selects_its_column() {
    assert_eq!(select(&[0]), vec![0]);
    assert_eq!(select(&[1, 0]), vec![1]);
    assert_eq!(select(&[1, 1, 0]), vec![2]);
    assert_eq!(select(&[1, 1, 1]), vec![3]);
    assert_eq!(select(&[1, 2]), vec![4]);
    assert_eq!(select(&[2]), vec![5]);
}

#[test]
fn a_group_selects_all_its_columns() {
    assert_eq!(select(&[]), vec![0, 1, 2, 3, 4, 5]);
    assert_eq!(select(&[1]), vec![1, 2, 3, 4]);
    assert_eq!(select(&[1, 1]), vec![2, 3]);
}

#[test]
fn a_path_may_go_on_behind_a_leaf() {
    assert_eq!(select(&[0, 7, 7]), vec![0]);
}

#[test]
fn siblings_share_no_column() {
    let left = select(&[1, 1]);
    let right = select(&[1, 2]);
    assert!(left.iter().all(|a| right.iter().all(|b| a < b)));
}

#[test]
fn traversal_appends() {
    let mut leave_id = 0;
    let tree = build_parquet_schema_tree(&six_columns(), &mut leave_id);
    let mut leaves = vec![99];
    traverse_parquet_schema_tree(&tree, &[2], &mut leaves);
    traverse_parquet_schema_tree(&tree, &[1, 1], &mut leaves);
    assert_eq!(leaves, vec![99, 5, 2, 3]);
}

#[test]
fn paths_compose() {
    let mut leave_id = 0;
    let tree = build_parquet_schema_tree(&six_columns(), &mut leave_id);
    if let ParquetSchemaTreeNode::Inner(children) = &tree {
        let mut leaves = vec![];
        traverse_parquet_schema_tree(&children[1], &[1], &mut leaves);
        assert_eq!(leaves, select(&[1, 1]));
    } else {
        panic!("the root is an inner node");
    }
}

#[test]
fn a_path_is_tested_before_it_is_followed() {
    let mut leave_id = 0;
    let tree = build_parquet_schema_tree(&six_columns(), &mut leave_id);
    let mut leaves = vec![9];
    assert!(try_traverse_parquet_schema_tree(&tree, &[1, 1], &mut leaves));
    assert_eq!(leaves, vec![9, 2, 3]);
    assert!(!try_traverse_parquet_schema_tree(&tree, &[3], &mut leaves));
    assert!(!try_traverse_parquet_schema_tree(&tree, &[1, 1, 2], &mut leaves));
    assert_eq!(leaves, vec![9, 2, 3]);
    // What is left of a path at a leaf is ignored.
    assert!(try_traverse_parquet_schema_tree(&tree, &[0, 7], &mut leaves));
    assert_eq!(leaves, vec![9, 2, 3, 0]);
}

//! From the schema of a Parquet file to an Arrow schema.
//!
//! The conversion itself is that of the `parquet` crate. It does not return on every
//! schema: some malformed ones make it panic. [`is_convertible`] tells them apart, and
//! [`infer_schema_with_extension`] answers an error there.
use std::sync::Arc;

use arrow_ipc::Field;
use arrow_ipc::Type as IpcType;
use arrow_schema::Schema;
use base64::Engine;
use parquet::basic::ConvertedType;
use parquet::basic::Repetition;
use parquet::file::metadata::ParquetMetaData;
use parquet::schema::types::Type;
use vstd::prelude::*;
use vstd::slice::slice_subrange;

use crate::error::is_outcome;
use crate::error::map_parquet_error;
use crate::error::ErrorCode;

verus! {

/// Decoded metadata of a Parquet file.
#[verifier::external_type_specification]
#[verifier::external_body]
pub struct ExParquetMetaData(parquet::file::metadata::ParquetMetaData);

/// An Arrow schema.
#[verifier::external_type_specification]
#[verifier::external_body]
pub struct ExSchema(arrow_schema::Schema);

/// A field of a serialised Arrow schema.
#[verifier::external_type_specification]
#[verifier::external_body]
pub struct ExIpcField<'a>(arrow_ipc::Field<'a>);

/// How often a Parquet schema type occurs, where it says so.
#[derive(Clone, Copy, PartialEq, Eq, Structural)]
pub enum Occurrence {
    Unstated,
    Required,
    Optional,
    Repeated,
}

impl Occurrence {
    /// How many levels a type adds to those of the group that it is in.
    pub open spec fn levels(self) -> int {
        if self == Occurrence::Optional || self == Occurrence::Repeated {
            1
        } else {
            0
        }
    }

    fn adds(&self) -> (levels: u16)
        ensures
            levels == self.levels(),
    {
        match self {
            Occurrence::Optional | Occurrence::Repeated => 1,
            Occurrence::Unstated | Occurrence::Required => 0,
        }
    }
}

/// What a group of a Parquet schema stands for, as far as the conversion treats it in
/// a way of its own.
#[derive(Clone, Copy, PartialEq, Eq, Structural)]
pub enum Annotation {
    AsList,
    AsMap,
    Plain,
}

/// A Parquet schema type, as far as the conversion looks at it before it knows whether
/// there is an Arrow type.
pub enum TypeShape {
    Primitive(Occurrence),
    Group(Occurrence, Annotation, Seq<TypeShape>),
}

/// The largest level that the conversion can count to: `i16::MAX`.
pub const LEVELS: u16 = 32767;

impl TypeShape {
    pub open spec fn occurrence(self) -> Occurrence {
        match self {
            TypeShape::Primitive(occurrence) => occurrence,
            TypeShape::Group(occurrence, _, _) => occurrence,
        }
    }

    /// Whether the conversion of a type below a level returns. It may report an error.
    pub open spec fn fits(self, level: int) -> bool
        decreases self, 0nat,
    {
        match self {
            TypeShape::Primitive(occurrence) => level + occurrence.levels() <= LEVELS,
            TypeShape::Group(occurrence, annotation, fields) => match annotation {
                Annotation::AsList => list_fits(occurrence, fields, level),
                Annotation::AsMap => map_fits(occurrence, fields, level),
                Annotation::Plain => {
                    &&& level + occurrence.levels() <= LEVELS
                    &&& forall|i: int|
                        0 <= i < fields.len() ==> (#[trigger] fields[i]).fits(
                            level + occurrence.levels(),
                        )
                },
            },
        }
    }

    /// Whether the conversion, if it reports no error, gives an Arrow type. It gives none
    /// for a type without leaves, and none for a map whose keys or values have none.
    pub open spec fn gives(self) -> bool
        decreases self,
    {
        match self {
            TypeShape::Primitive(_) => true,
            TypeShape::Group(_, Annotation::Plain, fields) => exists|i: int|
                0 <= i < fields.len() && (#[trigger] fields[i]).gives(),
            TypeShape::Group(_, annotation, fields) => fields.len() == 1 && match fields[0] {
                TypeShape::Primitive(_) => true,
                TypeShape::Group(_, _, inner) => if annotation == Annotation::AsMap && inner.len()
                    == 2 {
                    inner[0].gives() && inner[1].gives()
                } else {
                    exists|i: int| 0 <= i < inner.len() && (#[trigger] inner[i]).gives()
                },
            },
        }
    }
}

/// Whether converting a list below a level returns. The conversion looks past the
/// repeated field of the list, whatever its annotation. It reports an error where there
/// is no such field, and where the list is repeated itself. It asks how often the list
/// occurs, which must be stated.
pub open spec fn list_fits(occurrence: Occurrence, fields: Seq<TypeShape>, level: int) -> bool
    decreases fields, 0nat,
{
    if fields.len() != 1 || fields[0].occurrence() != Occurrence::Repeated {
        true
    } else if occurrence == Occurrence::Unstated || occurrence == Occurrence::Repeated {
        occurrence == Occurrence::Repeated
    } else {
        let below = level + occurrence.levels() + 1;
        below <= LEVELS && match fields[0] {
            TypeShape::Primitive(_) => true,
            TypeShape::Group(_, _, inner) => forall|i: int|
                0 <= i < inner.len() ==> (#[trigger] inner[i]).fits(below),
        }
    }
}

/// Whether converting a map below a level returns. The conversion counts a level for the
/// entries before it looks at them. It then asks the repeated field of the map for its
/// fields, which a primitive type does not have. A map without values it takes for a list
/// of its keys. Other maps that are not made of keys and values it reports as errors.
pub open spec fn map_fits(occurrence: Occurrence, fields: Seq<TypeShape>, level: int) -> bool
    decreases fields, 1nat,
{
    let below = level + 1 + if occurrence == Occurrence::Optional {
        1int
    } else {
        0int
    };
    below <= LEVELS && if occurrence == Occurrence::Repeated || fields.len() != 1 {
        true
    } else if fields[0].occurrence() != Occurrence::Repeated {
        fields[0].occurrence() != Occurrence::Unstated
    } else {
        match fields[0] {
            TypeShape::Primitive(_) => false,
            TypeShape::Group(_, _, inner) => if inner.len() == 1 {
                list_fits(occurrence, fields, level)
            } else if inner.len() == 2 {
                let (key, value) = (inner[0].occurrence(), inner[1].occurrence());
                if key == Occurrence::Unstated || key == Occurrence::Repeated {
                    key == Occurrence::Repeated
                } else if value == Occurrence::Unstated || value == Occurrence::Repeated {
                    value == Occurrence::Repeated
                } else {
                    inner[0].fits(below) && inner[1].fits(below)
                }
            } else {
                true
            },
        }
    }
}

/// Whether the conversion of the outermost type of a schema returns. It must come to a
/// struct, to nothing, or to an error. With an embedded Arrow schema, which is that of a
/// struct, a type that is none is an error.
pub open spec fn root_fits(root: TypeShape, embedded: bool) -> bool {
    root.fits(0) && match root {
        TypeShape::Primitive(_) => false,
        TypeShape::Group(occurrence, Annotation::Plain, _) => occurrence != Occurrence::Repeated
            || embedded || !root.gives(),
        TypeShape::Group(occurrence, annotation, fields) => occurrence == Occurrence::Repeated
            || embedded || fields.len() != 1 || fields[0].occurrence() != Occurrence::Repeated
            || is_no_map(annotation, fields[0]) || !root.gives(),
    }
}

/// Whether a map with these entries is reported as an error: they have neither keys
/// alone nor keys and values, or one of these is repeated.
pub open spec fn is_no_map(annotation: Annotation, entries: TypeShape) -> bool {
    annotation == Annotation::AsMap && match entries {
        TypeShape::Primitive(_) => false,
        TypeShape::Group(_, _, inner) => inner.len() != 1 && !(inner.len() == 2
            && inner[0].occurrence() != Occurrence::Repeated && inner[1].occurrence()
            != Occurrence::Repeated),
    }
}

/// Whether a schema type says how often it occurs.
pub uninterp spec fn has_repetition(ty: Type) -> bool;

/// `parquet::schema::types::BasicTypeInfo::has_repetition`. Trusted: the answer is a
/// function of the type.
#[verifier::external_body]
fn type_has_repetition(ty: &Type) -> (known: bool)
    ensures
        known == has_repetition(*ty),
{
    ty.get_basic_info().has_repetition()
}

/// How often a schema type that says so occurs.
pub uninterp spec fn repetition_of(ty: Type) -> Occurrence;

/// `parquet::schema::types::BasicTypeInfo::repetition`, which panics where there is
/// none. Trusted: the answer is a function of the type.
#[verifier::external_body]
fn type_repetition(ty: &Type) -> (occurrence: Occurrence)
    requires
        has_repetition(*ty),
    ensures
        occurrence == repetition_of(*ty),
{
    match ty.get_basic_info().repetition() {
        Repetition::REQUIRED => Occurrence::Required,
        Repetition::OPTIONAL => Occurrence::Optional,
        Repetition::REPEATED => Occurrence::Repeated,
    }
}

/// How often a schema type occurs, where it says so.
pub open spec fn occurrence_of(ty: Type) -> Occurrence {
    if has_repetition(ty) {
        repetition_of(ty)
    } else {
        Occurrence::Unstated
    }
}

/// The shape of a schema type of the `parquet` crate.
pub uninterp spec fn type_shape(ty: Type) -> TypeShape;

/// The shapes of schema types.
pub open spec fn type_shapes(types: Seq<Arc<Type>>) -> Seq<TypeShape> {
    types.map_values(|ty: Arc<Type>| type_shape(*ty))
}

/// `parquet::schema::types::Type`, with `BasicTypeInfo::converted_type` of a group.
/// Trusted: a `PrimitiveType` has a primitive shape and gives `None`; a `GroupType`
/// gives its annotation, by its converted type, and its fields in order. The shape is
/// made of just these, and of how often the type occurs. Both ways of marking a map count
/// as one.
#[verifier::external_body]
fn annotated_fields(ty: &Type) -> (group: Option<(Annotation, &Vec<Arc<Type>>)>)
    ensures
        match group {
            None => type_shape(*ty) == TypeShape::Primitive(occurrence_of(*ty)),
            Some((annotation, fields)) => type_shape(*ty) == TypeShape::Group(
                occurrence_of(*ty),
                annotation,
                type_shapes(fields@),
            ),
        },
{
    match ty {
        Type::PrimitiveType { .. } => None,
        Type::GroupType { basic_info, fields } => match basic_info.converted_type() {
            ConvertedType::LIST => Some((Annotation::AsList, fields)),
            ConvertedType::MAP | ConvertedType::MAP_KEY_VALUE => Some((Annotation::AsMap, fields)),
            _ => Some((Annotation::Plain, fields)),
        },
    }
}

fn type_occurrence(ty: &Type) -> (occurrence: Occurrence)
    ensures
        occurrence == occurrence_of(*ty),
        occurrence == type_shape(*ty).occurrence(),
{
    // Either way the shape of the type says how often it occurs.
    let _ = annotated_fields(ty);
    if type_has_repetition(ty) {
        type_repetition(ty)
    } else {
        Occurrence::Unstated
    }
}

/// The outermost type of the schema of a file.
pub uninterp spec fn root_of(meta: ParquetMetaData) -> Type;

/// `parquet::schema::types::SchemaDescriptor::root_schema` of the schema of a file.
/// Trusted: the type is a function of the file's metadata.
#[verifier::external_body]
fn schema_root(meta: &ParquetMetaData) -> (root: &Type)
    ensures
        *root == root_of(*meta),
{
    meta.file_metadata().schema_descr().root_schema()
}

/// A key and its value, if it has any.
pub type KeyValue = (String, Option<String>);

/// The texts of a key and its value.
pub open spec fn key_value_text(pair: KeyValue) -> (Seq<char>, Option<Seq<char>>) {
    (
        pair.0@,
        match pair.1 {
            Some(value) => Some(value@),
            None => None,
        },
    )
}

/// The keys and values that a file's metadata holds, in order.
pub uninterp spec fn key_values_of(meta: ParquetMetaData) -> Seq<(Seq<char>, Option<Seq<char>>)>;

/// `parquet::file::metadata::FileMetaData::key_value_metadata`. Trusted: the keys and
/// values are a function of the file's metadata. There are none where the call gives
/// `None`.
#[verifier::external_body]
fn key_values(meta: &ParquetMetaData) -> (pairs: Vec<KeyValue>)
    ensures
        pairs@.map_values(|pair: KeyValue| key_value_text(pair)) == key_values_of(*meta),
{
    match meta.file_metadata().key_value_metadata() {
        None => Vec::new(),
        Some(pairs) => pairs.iter().map(|pair| (pair.key.clone(), pair.value.clone())).collect(),
    }
}

/// The bytes that a text stands for in the standard Base64 alphabet, with padding.
pub uninterp spec fn base64_bytes(text: Seq<char>) -> Option<Seq<u8>>;

/// `decode` of `base64::prelude::BASE64_STANDARD`. Trusted: the bytes, or that there
/// are none, are a function of the text.
#[verifier::external_body]
fn decode_base64(text: &str) -> (bytes: Option<Vec<u8>>)
    ensures
        match bytes {
            Some(bytes) => base64_bytes(text@) == Some(bytes@),
            None => base64_bytes(text@) is None,
        },
{
    base64::prelude::BASE64_STANDARD.decode(text).ok()
}

/// What a field of a serialised Arrow schema declares itself to be, as far as its own
/// fields are read.
#[derive(Clone, Copy, PartialEq, Eq, Structural)]
pub enum IpcKind {
    /// It has no fields, or they are not read.
    Leaf,
    /// It must have one field.
    Single,
    /// It must have two fields.
    Double,
    /// It can have any number of fields.
    Struct,
    /// The same, and they have type ids.
    NumberedUnion,
    /// The same, and they have no type ids.
    Union,
}

/// A field of a serialised Arrow schema, with its own fields.
pub enum IpcShape {
    Field(IpcKind, Seq<IpcShape>),
}

/// How many fields of a union can be numbered.
pub const UNION_FIELDS: usize = 128;

/// Whether so many fields of a field of this kind are read. Where not, there is an error,
/// or they do not matter.
pub open spec fn reads_fields(kind: IpcKind, count: int) -> bool {
    match kind {
        IpcKind::Leaf => false,
        IpcKind::Single => count == 1,
        IpcKind::Double => count == 2,
        IpcKind::Struct | IpcKind::NumberedUnion | IpcKind::Union => true,
    }
}

impl IpcShape {
    /// Whether reading a field returns. It panics at a union without type ids that has
    /// more fields than can be numbered.
    pub open spec fn fits(self) -> bool
        decreases self,
    {
        match self {
            IpcShape::Field(kind, fields) => reads_fields(kind, fields.len() as int) ==> {
                &&& kind == IpcKind::Union ==> fields.len() <= UNION_FIELDS
                &&& forall|i: int| 0 <= i < fields.len() ==> (#[trigger] fields[i]).fits()
            },
        }
    }
}

/// The shape of a field of a serialised Arrow schema.
pub uninterp spec fn ipc_shape(field: Field<'_>) -> IpcShape;

/// What the type tag of a field of a serialised Arrow schema says, and for a union
/// whether it has type ids.
pub uninterp spec fn ipc_kind_of(field: Field<'_>) -> IpcKind;

/// `type_type` of `arrow_ipc::Field`, with `type_as_union` and `typeIds` of a union.
/// Trusted: the kind is a function of the field. A union without its table, which is an
/// error, counts as numbered.
#[verifier::external_body]
fn ipc_kind(field: &Field<'_>) -> (kind: IpcKind)
    ensures
        kind == ipc_kind_of(*field),
{
    match field.type_type() {
        IpcType::List | IpcType::LargeList | IpcType::FixedSizeList => IpcKind::Single,
        IpcType::ListView | IpcType::LargeListView | IpcType::Map => IpcKind::Single,
        IpcType::RunEndEncoded => IpcKind::Double,
        IpcType::Struct_ => IpcKind::Struct,
        IpcType::Union => match field.type_as_union().map(|union| union.typeIds()) {
            Some(None) => IpcKind::Union,
            _ => IpcKind::NumberedUnion,
        },
        _ => IpcKind::Leaf,
    }
}

/// `children` of `arrow_ipc::Field`. Trusted: the fields of a field come in order, none
/// where the call gives `None`, and the shape of the field is made of its kind and of
/// just these.
#[verifier::external_body]
fn ipc_children<'a>(field: &Field<'a>) -> (children: Vec<Field<'a>>)
    ensures
        ipc_shape(*field) == IpcShape::Field(ipc_kind_of(*field), ipc_shapes(children@)),
{
    match field.children() {
        Some(children) => children.iter().collect(),
        None => Vec::new(),
    }
}

/// The shapes of fields of a serialised Arrow schema.
pub open spec fn ipc_shapes(fields: Seq<Field<'_>>) -> Seq<IpcShape> {
    fields.map_values(|field: Field<'_>| ipc_shape(field))
}

/// The fields of the Arrow schema that a serialised message holds, if it holds one.
pub uninterp spec fn ipc_fields_of(message: Seq<u8>) -> Option<Seq<IpcShape>>;

/// `arrow_ipc::root_as_message`, then `header_as_schema` and `fields` of what it
/// gives. Trusted: the fields, or that there are none, are a function of the bytes.
#[verifier::external_body]
fn ipc_fields(message: &[u8]) -> (fields: Option<Vec<Field<'_>>>)
    ensures
        match fields {
            Some(fields) => ipc_fields_of(message@) == Some(ipc_shapes(fields@)),
            None => ipc_fields_of(message@) is None,
        },
{
    let schema = arrow_ipc::root_as_message(message).ok()?.header_as_schema()?;
    Some(schema.fields()?.iter().collect())
}

/// The message in the bytes of an embedded Arrow schema, which may come with a mark of
/// four bytes and its length in front.
pub open spec fn message_of(bytes: Seq<u8>) -> Seq<u8> {
    if bytes.len() > 8 && bytes[0] == 0xff && bytes[1] == 0xff && bytes[2] == 0xff && bytes[3]
        == 0xff {
        bytes.skip(8)
    } else {
        bytes
    }
}

/// The fields of an embedded Arrow schema. Where there are none, the conversion reports
/// an error before it looks at the Parquet schema.
pub open spec fn embedded_fields(text: Seq<char>) -> Option<Seq<IpcShape>> {
    match base64_bytes(text) {
        Some(bytes) => ipc_fields_of(message_of(bytes)),
        None => None,
    }
}

/// Whether reading every one of `fields` returns.
pub open spec fn fields_fit(fields: Seq<IpcShape>) -> bool {
    forall|i: int| 0 <= i < fields.len() ==> (#[trigger] fields[i]).fits()
}

/// The text of the embedded Arrow schema, if there is one: the last value of its key.
pub open spec fn embedded_text(pairs: Seq<(Seq<char>, Option<Seq<char>>)>) -> Option<Seq<char>>
    decreases pairs.len(),
{
    if pairs.len() == 0 {
        None
    } else if pairs.last().0 == "ARROW:schema"@ && pairs.last().1 is Some {
        pairs.last().1
    } else {
        embedded_text(pairs.drop_last())
    }
}

/// Whether the conversion of the schema of a file returns.
pub open spec fn convertible(meta: ParquetMetaData) -> bool {
    let root = type_shape(root_of(meta));
    match embedded_text(key_values_of(meta)) {
        Some(text) => match embedded_fields(text) {
            Some(fields) => fields_fit(fields) && root_fits(root, true),
            None => true,
        },
        None => root_fits(root, false),
    }
}

/// The Arrow schema of a file, from its Parquet schema and its key-value metadata, or
/// the text of the error.
pub uninterp spec fn arrow_schema_of(meta: ParquetMetaData) -> Result<Schema, Seq<char>>;

/// `parquet::arrow::parquet_to_arrow_schema` on the schema and the key-value metadata
/// of a file, with the `Display` text of its error. Trusted: the outcome is a function
/// of the file's metadata.
#[verifier::external_body]
fn parquet_to_arrow_schema(meta: &ParquetMetaData) -> (schema: Result<Schema, String>)
    requires
        convertible(*meta),
    ensures
        match schema {
            Ok(schema) => arrow_schema_of(*meta) == Ok::<Schema, Seq<char>>(schema),
            Err(text) => arrow_schema_of(*meta) == Err::<Schema, Seq<char>>(text@),
        },
{
    let meta = meta.file_metadata();
    parquet::arrow::parquet_to_arrow_schema(meta.schema_descr(), meta.key_value_metadata())
        .map_err(|error| error.to_string())
}

fn all_fit(types: &Vec<Arc<Type>>, level: u16) -> (fit: bool)
    requires
        level <= LEVELS,
    ensures
        fit == (forall|i: int|
            0 <= i < types@.len() ==> (#[trigger] type_shapes(types@)[i]).fits(level as int)),
    decreases type_shapes(types@), 0nat,
{
    let ghost shapes = type_shapes(types@);
    let mut i: usize = 0;
    while i < types.len()
        invariant
            i <= types@.len(),
            shapes == type_shapes(types@),
            level <= LEVELS,
            forall|j: int| 0 <= j < i ==> (#[trigger] shapes[j]).fits(level as int),
        decreases types@.len() - i,
    {
        assert(decreases_to!(shapes => shapes[i as int]));
        assert(shapes[i as int] == type_shape(*types@[i as int]));
        if !type_fits(&types[i], level) {
            assert(!type_shapes(types@)[i as int].fits(level as int));
            return false;
        }
        i += 1;
    }
    true
}

fn type_fits(ty: &Type, level: u16) -> (fit: bool)
    requires
        level <= LEVELS,
    ensures
        fit == type_shape(*ty).fits(level as int),
    decreases type_shape(*ty), 0nat,
{
    let occurrence = type_occurrence(ty);
    match annotated_fields(ty) {
        None => level + occurrence.adds() <= LEVELS,
        Some((annotation, fields)) => {
            assert(decreases_to!(type_shape(*ty) => type_shape(*ty)->Group_2));
            match annotation {
                Annotation::AsList => is_list_fit(occurrence, fields, level),
                Annotation::AsMap => is_map_fit(occurrence, fields, level),
                Annotation::Plain => {
                    let below: u16 = level + occurrence.adds();
                    below <= LEVELS && all_fit(fields, below)
                },
            }
        },
    }
}

fn is_list_fit(occurrence: Occurrence, fields: &Vec<Arc<Type>>, level: u16) -> (fit: bool)
    requires
        level <= LEVELS,
    ensures
        fit == list_fits(occurrence, type_shapes(fields@), level as int),
    decreases type_shapes(fields@), 0nat,
{
    let ghost shapes = type_shapes(fields@);
    if fields.len() != 1 {
        return true;
    }
    assert(shapes[0] == type_shape(*fields@[0]));
    let parts = annotated_fields(&fields[0]);
    if type_occurrence(&fields[0]) != Occurrence::Repeated {
        return true;
    }
    if occurrence == Occurrence::Unstated || occurrence == Occurrence::Repeated {
        return occurrence == Occurrence::Repeated;
    }
    let below: u16 = level + occurrence.adds() + 1;
    if below > LEVELS {
        return false;
    }
    match parts {
        None => true,
        Some((_, inner)) => {
            assert(decreases_to!(shapes => shapes[0]));
            assert(decreases_to!(shapes[0] => shapes[0]->Group_2));
            all_fit(inner, below)
        },
    }
}

fn is_map_fit(occurrence: Occurrence, fields: &Vec<Arc<Type>>, level: u16) -> (fit: bool)
    requires
        level <= LEVELS,
    ensures
        fit == map_fits(occurrence, type_shapes(fields@), level as int),
    decreases type_shapes(fields@), 1nat,
{
    let ghost shapes = type_shapes(fields@);
    let below: u16 = if occurrence == Occurrence::Optional {
        level + 2
    } else {
        level + 1
    };
    if below > LEVELS {
        return false;
    }
    if occurrence == Occurrence::Repeated || fields.len() != 1 {
        return true;
    }
    assert(shapes[0] == type_shape(*fields@[0]));
    let parts = annotated_fields(&fields[0]);
    let entries = type_occurrence(&fields[0]);
    if entries != Occurrence::Repeated {
        return entries != Occurrence::Unstated;
    }
    match parts {
        None => false,
        Some((_, inner)) => {
            assert(decreases_to!(shapes => shapes[0]));
            assert(decreases_to!(shapes[0] => shapes[0]->Group_2));
            let ghost inner_shapes = type_shapes(inner@);
            if inner.len() == 1 {
                is_list_fit(occurrence, fields, level)
            } else if inner.len() == 2 {
                assert(inner_shapes[0] == type_shape(*inner@[0]));
                assert(inner_shapes[1] == type_shape(*inner@[1]));
                let key = type_occurrence(&inner[0]);
                let value = type_occurrence(&inner[1]);
                if key == Occurrence::Unstated || key == Occurrence::Repeated {
                    key == Occurrence::Repeated
                } else if value == Occurrence::Unstated || value == Occurrence::Repeated {
                    value == Occurrence::Repeated
                } else {
                    assert(decreases_to!(inner_shapes => inner_shapes[0]));
                    assert(decreases_to!(inner_shapes => inner_shapes[1]));
                    type_fits(&inner[0], below) && type_fits(&inner[1], below)
                }
            } else {
                true
            }
        },
    }
}

fn any_gives(types: &Vec<Arc<Type>>) -> (gives: bool)
    ensures
        gives == (exists|i: int|
            0 <= i < types@.len() && (#[trigger] type_shapes(types@)[i]).gives()),
    decreases type_shapes(types@),
{
    let ghost shapes = type_shapes(types@);
    let mut i: usize = 0;
    while i < types.len()
        invariant
            i <= types@.len(),
            shapes == type_shapes(types@),
            forall|j: int| 0 <= j < i ==> !(#[trigger] shapes[j]).gives(),
        decreases types@.len() - i,
    {
        assert(decreases_to!(shapes => shapes[i as int]));
        assert(shapes[i as int] == type_shape(*types@[i as int]));
        if type_gives(&types[i]) {
            assert(type_shapes(types@)[i as int].gives());
            return true;
        }
        i += 1;
    }
    false
}

fn type_gives(ty: &Type) -> (gives: bool)
    ensures
        gives == type_shape(*ty).gives(),
    decreases type_shape(*ty),
{
    match annotated_fields(ty) {
        None => true,
        Some((annotation, fields)) => {
            assert(decreases_to!(type_shape(*ty) => type_shape(*ty)->Group_2));
            let ghost shapes = type_shapes(fields@);
            if annotation == Annotation::Plain {
                return any_gives(fields);
            }
            if fields.len() != 1 {
                return false;
            }
            assert(shapes[0] == type_shape(*fields@[0]));
            match annotated_fields(&fields[0]) {
                None => true,
                Some((_, inner)) => {
                    assert(decreases_to!(shapes => shapes[0]));
                    assert(decreases_to!(shapes[0] => shapes[0]->Group_2));
                    let ghost inner_shapes = type_shapes(inner@);
                    if annotation == Annotation::AsMap && inner.len() == 2 {
                        assert(inner_shapes[0] == type_shape(*inner@[0]));
                        assert(inner_shapes[1] == type_shape(*inner@[1]));
                        assert(decreases_to!(inner_shapes => inner_shapes[0]));
                        assert(decreases_to!(inner_shapes => inner_shapes[1]));
                        type_gives(&inner[0]) && type_gives(&inner[1])
                    } else {
                        any_gives(inner)
                    }
                },
            }
        },
    }
}

fn is_root_fit(root: &Type, embedded: bool) -> (fit: bool)
    ensures
        fit == root_fits(type_shape(*root), embedded),
{
    if !type_fits(root, 0) {
        return false;
    }
    let occurrence = type_occurrence(root);
    match annotated_fields(root) {
        None => false,
        Some((Annotation::Plain, _)) => occurrence != Occurrence::Repeated || embedded
            || !type_gives(root),
        Some((annotation, fields)) => {
            if occurrence == Occurrence::Repeated || embedded || fields.len() != 1 {
                return true;
            }
            assert(type_shapes(fields@)[0] == type_shape(*fields@[0]));
            let parts = annotated_fields(&fields[0]);
            if type_occurrence(&fields[0]) != Occurrence::Repeated {
                return true;
            }
            let no_map = match parts {
                Some((_, inner)) => annotation == Annotation::AsMap && is_no_entry(inner),
                None => false,
            };
            no_map || !type_gives(root)
        },
    }
}

fn is_no_entry(inner: &Vec<Arc<Type>>) -> (no_entry: bool)
    ensures
        no_entry == (inner@.len() != 1 && !(inner@.len() == 2 && type_shapes(
            inner@,
        )[0].occurrence() != Occurrence::Repeated && type_shapes(inner@)[1].occurrence()
            != Occurrence::Repeated)),
{
    if inner.len() == 1 {
        return false;
    }
    if inner.len() != 2 {
        return true;
    }
    assert(type_shapes(inner@)[0] == type_shape(*inner@[0]));
    assert(type_shapes(inner@)[1] == type_shape(*inner@[1]));
    type_occurrence(&inner[0]) == Occurrence::Repeated || type_occurrence(&inner[1])
        == Occurrence::Repeated
}

fn are_fields_read(kind: IpcKind, count: usize) -> (read: bool)
    ensures
        read == reads_fields(kind, count as int),
{
    match kind {
        IpcKind::Leaf => false,
        IpcKind::Single => count == 1,
        IpcKind::Double => count == 2,
        IpcKind::Struct | IpcKind::NumberedUnion | IpcKind::Union => true,
    }
}

fn ipc_field_fits(field: &Field<'_>) -> (fit: bool)
    ensures
        fit == ipc_shape(*field).fits(),
    decreases ipc_shape(*field),
{
    let kind = ipc_kind(field);
    let children = ipc_children(field);
    assert(decreases_to!(ipc_shape(*field) => ipc_shape(*field)->Field_1));
    if !are_fields_read(kind, children.len()) {
        return true;
    }
    if kind == IpcKind::Union && children.len() > UNION_FIELDS {
        return false;
    }
    ipc_fields_fit(&children)
}

fn ipc_fields_fit(fields: &Vec<Field<'_>>) -> (fit: bool)
    ensures
        fit == fields_fit(ipc_shapes(fields@)),
    decreases ipc_shapes(fields@),
{
    let ghost shapes = ipc_shapes(fields@);
    let mut i: usize = 0;
    while i < fields.len()
        invariant
            i <= fields@.len(),
            shapes == ipc_shapes(fields@),
            forall|j: int| 0 <= j < i ==> (#[trigger] shapes[j]).fits(),
        decreases fields@.len() - i,
    {
        assert(decreases_to!(shapes => shapes[i as int]));
        assert(shapes[i as int] == ipc_shape(fields@[i as int]));
        if !ipc_field_fits(&fields[i]) {
            assert(!shapes[i as int].fits());
            return false;
        }
        i += 1;
    }
    true
}

/// The embedded Arrow schema and the Parquet schema, once the text of the former is
/// known.
fn are_schemas_fit(text: &str, root: &Type) -> (fit: bool)
    ensures
        fit == match embedded_fields(text@) {
            Some(fields) => fields_fit(fields) && root_fits(type_shape(*root), true),
            None => true,
        },
{
    match decode_base64(text) {
        None => true,
        Some(bytes) => {
            let message = if bytes.len() > 8 && bytes[0] == 0xff && bytes[1] == 0xff && bytes[2]
                == 0xff && bytes[3] == 0xff {
                slice_subrange(bytes.as_slice(), 8, bytes.len())
            } else {
                bytes.as_slice()
            };
            assert(message@ =~= message_of(bytes@));
            match ipc_fields(message) {
                None => true,
                Some(fields) => ipc_fields_fit(&fields) && is_root_fit(root, true),
            }
        },
    }
}

/// Whether the conversion of the schema of a file returns.
pub fn is_convertible(meta: &ParquetMetaData) -> (fit: bool)
    ensures
        fit == convertible(*meta),
{
    let root = schema_root(meta);
    let key = String::from_str("ARROW:schema");
    let pairs = key_values(meta);
    let ghost texts = key_values_of(*meta);
    let mut i: usize = pairs.len();
    assert(texts.take(i as int) =~= texts);
    while i > 0
        invariant
            i <= pairs@.len(),
            key@ == "ARROW:schema"@,
            *root == root_of(*meta),
            texts == key_values_of(*meta),
            texts == pairs@.map_values(|pair: KeyValue| key_value_text(pair)),
            embedded_text(texts) == embedded_text(texts.take(i as int)),
        decreases i,
    {
        i -= 1;
        assert(texts.take(i + 1).last() == key_value_text(pairs@[i as int]));
        assert(texts.take(i + 1).drop_last() =~= texts.take(i as int));
        if pairs[i].0 == key {
            match &pairs[i].1 {
                None => {},
                Some(text) => {
                    return are_schemas_fit(text.as_str(), root);
                },
            }
        }
    }
    is_root_fit(root, false)
}

/// The error of a file whose schema cannot be handed to the conversion.
pub open spec fn is_not_convertible(error: ErrorCode) -> bool {
    error matches ErrorCode::BadBytes(text) && text@
        == "Invalid Parquet file. Schema cannot be converted to an Arrow schema."@
}

/// What inferring the Arrow schema of a file comes to.
pub open spec fn is_inferred(schema: Result<Schema, ErrorCode>, meta: ParquetMetaData) -> bool {
    if convertible(meta) {
        is_outcome(schema, arrow_schema_of(meta))
    } else {
        schema matches Err(error) && is_not_convertible(error)
    }
}

/// The Arrow schema of a Parquet file.
pub fn infer_schema_with_extension(meta: &ParquetMetaData) -> (schema: Result<Schema, ErrorCode>)
    ensures
        is_inferred(schema, *meta),
        schema is Ok ==> arrow_schema_of(*meta) is Ok && schema->Ok_0 == arrow_schema_of(
            *meta,
        )->Ok_0,
        convertible(*meta) && arrow_schema_of(*meta) is Ok ==> schema is Ok,
        convertible(*meta) && arrow_schema_of(*meta) is Err ==> (schema matches Err(
            ErrorCode::Parquet(text),
        ) && text@ == arrow_schema_of(*meta)->Err_0),
{
    if is_convertible(meta) {
        map_parquet_error(parquet_to_arrow_schema(meta))
    } else {
        Err(
            ErrorCode::BadBytes(
                String::from_str(
                    "Invalid Parquet file. Schema cannot be converted to an Arrow schema.",
                ),
            ),
        )
    }
}

/// A schema that can be converted comes to what the conversion gives, and to nothing else:
/// the Arrow schema, or an error with the text of the conversion.
pub proof fn law_convertible_schema_is_converted(
    schema: Result<Schema, ErrorCode>,
    meta: ParquetMetaData,
)
    requires
        is_inferred(schema, meta),
    ensures
        schema is Ok ==> arrow_schema_of(meta) is Ok && schema->Ok_0 == arrow_schema_of(
            meta,
        )->Ok_0,
        convertible(meta) && arrow_schema_of(meta) is Ok ==> schema is Ok,
        convertible(meta) && arrow_schema_of(meta) is Err ==> (schema matches Err(
            ErrorCode::Parquet(text),
        ) && text@ == arrow_schema_of(meta)->Err_0),
        !convertible(meta) ==> (schema matches Err(ErrorCode::BadBytes(text)) && text@
            == "Invalid Parquet file. Schema cannot be converted to an Arrow schema."@),
{
}

/// Optional and repeated types add a level, others none.
pub proof fn law_optional_and_repeated_types_add_a_level()
    ensures
        Occurrence::Unstated.levels() == 0,
        Occurrence::Required.levels() == 0,
        Occurrence::Optional.levels() == 1,
        Occurrence::Repeated.levels() == 1,
{
}

/// A plain type is refused for its depth only: a primitive type fits wherever its level is
/// 32,767 at most, and a plain group wherever its own level is and all its fields fit below
/// it.
pub proof fn law_plain_types_are_refused_for_their_depth_only(
    occurrence: Occurrence,
    fields: Seq<TypeShape>,
    level: int,
    own: int,
)
    requires
        own == level + (if occurrence is Optional || occurrence is Repeated {
            1int
        } else {
            0int
        }),
    ensures
        TypeShape::Primitive(occurrence).fits(level) <==> own <= 32767,
        TypeShape::Group(occurrence, Annotation::Plain, fields).fits(level) <==> own <= 32767
            && forall|i: int| 0 <= i < fields.len() ==> (#[trigger] fields[i]).fits(own),
{
    let group = TypeShape::Group(occurrence, Annotation::Plain, fields);
    let held = group->Group_2;
    assert(held == fields);
    assert(occurrence.levels() == own - level);
    assert forall|i: int| group.fits(level) && 0 <= i < fields.len() implies (
    #[trigger] fields[i]).fits(own) by {
        assert(held[i].fits(own));
    }
    if own <= 32767 && forall|i: int| 0 <= i < fields.len() ==> (#[trigger] fields[i]).fits(own) {
        assert forall|i: int| 0 <= i < held.len() implies (#[trigger] held[i]).fits(own) by {
            assert(fields[i].fits(own));
        }
        assert(group.fits(level));
    }
}

/// A list of a repeated primitive type fits wherever its depth does, and so does a list of a
/// repeated group whose fields fit, whatever the annotation of that group. Anything else
/// that is marked as a list is left to the conversion to report.
pub proof fn law_lists_fit_where_their_items_do(
    occurrence: Occurrence,
    fields: Seq<TypeShape>,
    annotation: Annotation,
    inner: Seq<TypeShape>,
    level: int,
    below: int,
)
    requires
        below == level + 1 + (if occurrence is Optional {
            1int
        } else {
            0int
        }),
    ensures
        fields.len() != 1 ==> TypeShape::Group(occurrence, Annotation::AsList, fields).fits(level),
        fields.len() == 1 && !(fields[0].occurrence() is Repeated) ==> TypeShape::Group(
            occurrence,
            Annotation::AsList,
            fields,
        ).fits(level),
        occurrence is Repeated ==> TypeShape::Group(occurrence, Annotation::AsList, fields).fits(
            level,
        ),
        (occurrence is Required || occurrence is Optional) && fields.len() == 1 && fields[0]
            == TypeShape::Primitive(Occurrence::Repeated) ==> (TypeShape::Group(
            occurrence,
            Annotation::AsList,
            fields,
        ).fits(level) <==> below <= 32767),
        (occurrence is Required || occurrence is Optional) && fields.len() == 1 && fields[0]
            == TypeShape::Group(Occurrence::Repeated, annotation, inner) ==> (TypeShape::Group(
            occurrence,
            Annotation::AsList,
            fields,
        ).fits(level) <==> below <= 32767 && forall|i: int|
            0 <= i < inner.len() ==> (#[trigger] inner[i]).fits(below)),
        occurrence is Unstated && fields.len() == 1 && fields[0].occurrence() is Repeated
            ==> !TypeShape::Group(occurrence, Annotation::AsList, fields).fits(level),
{
    let list = TypeShape::Group(occurrence, Annotation::AsList, fields);
    assert(list.fits(level) == list_fits(occurrence, fields, level));
    if fields.len() == 1 && fields[0] == TypeShape::Group(Occurrence::Repeated, annotation, inner)
        && (occurrence is Required || occurrence is Optional) {
        let held = fields[0]->Group_2;
        assert(held == inner);
        assert forall|i: int| list.fits(level) && 0 <= i < inner.len() implies (
        #[trigger] inner[i]).fits(below) by {
            assert(held[i].fits(below));
        }
        if below <= 32767 && forall|i: int|
            0 <= i < inner.len() ==> (#[trigger] inner[i]).fits(below) {
            assert forall|i: int| 0 <= i < held.len() implies (#[trigger] held[i]).fits(below) by {
                assert(inner[i].fits(below));
            }
            assert(list_fits(occurrence, fields, level));
        }
    }
}

/// A map of keys and values fits wherever its depth does and both of them fit, and a map of
/// keys alone wherever a list of them would. A map of a lone repeated primitive type does
/// not. Of a map that is repeated, or that has other than one field, nothing but the depth
/// matters.
pub proof fn law_maps_fit_where_keys_and_values_do(
    occurrence: Occurrence,
    fields: Seq<TypeShape>,
    annotation: Annotation,
    inner: Seq<TypeShape>,
    level: int,
    below: int,
)
    requires
        below == level + 1 + (if occurrence is Optional {
            1int
        } else {
            0int
        }),
    ensures
        below > 32767 ==> !TypeShape::Group(occurrence, Annotation::AsMap, fields).fits(level),
        below <= 32767 && (occurrence is Repeated || fields.len() != 1) ==> TypeShape::Group(
            occurrence,
            Annotation::AsMap,
            fields,
        ).fits(level),
        below <= 32767 && fields.len() == 1 && (fields[0].occurrence() is Required
            || fields[0].occurrence() is Optional) ==> TypeShape::Group(
            occurrence,
            Annotation::AsMap,
            fields,
        ).fits(level),
        !(occurrence is Repeated) && fields.len() == 1 && fields[0] == TypeShape::Primitive(
            Occurrence::Repeated,
        ) ==> !TypeShape::Group(occurrence, Annotation::AsMap, fields).fits(level),
        below <= 32767 && !(occurrence is Repeated) && fields.len() == 1 && fields[0]
            == TypeShape::Group(Occurrence::Repeated, annotation, inner) ==> {
            let map = TypeShape::Group(occurrence, Annotation::AsMap, fields);
            let list = TypeShape::Group(occurrence, Annotation::AsList, fields);
            &&& inner.len() == 1 ==> (map.fits(level) <==> list.fits(level))
            &&& inner.len() == 2 && (inner[0].occurrence() is Required
                || inner[0].occurrence() is Optional) && (inner[1].occurrence() is Required
                || inner[1].occurrence() is Optional) ==> (map.fits(level) <==> inner[0].fits(
                below,
            ) && inner[1].fits(below))
            &&& inner.len() == 2 && inner[0].occurrence() is Repeated ==> map.fits(level)
            &&& inner.len() != 1 && inner.len() != 2 ==> map.fits(level)
        },
{
    let map = TypeShape::Group(occurrence, Annotation::AsMap, fields);
    let list = TypeShape::Group(occurrence, Annotation::AsList, fields);
    assert(map.fits(level) == map_fits(occurrence, fields, level));
    assert(list.fits(level) == list_fits(occurrence, fields, level));
}

/// The outermost type of a schema, if it is a plain group that is not repeated, is asked for
/// nothing but that it fits. With an embedded Arrow schema no other group is.
pub proof fn law_ordinary_roots_are_refused_for_what_they_hold_only(
    occurrence: Occurrence,
    annotation: Annotation,
    fields: Seq<TypeShape>,
    embedded: bool,
)
    ensures
        !(occurrence is Repeated) ==> (root_fits(
            TypeShape::Group(occurrence, Annotation::Plain, fields),
            embedded,
        ) <==> TypeShape::Group(occurrence, Annotation::Plain, fields).fits(0)),
        root_fits(TypeShape::Group(occurrence, annotation, fields), true) <==> TypeShape::Group(
            occurrence,
            annotation,
            fields,
        ).fits(0),
        root_fits(TypeShape::Group(occurrence, annotation, fields), embedded) ==> TypeShape::Group(
            occurrence,
            annotation,
            fields,
        ).fits(0),
        fields.len() != 1 && !(annotation is Plain) ==> (root_fits(
            TypeShape::Group(occurrence, annotation, fields),
            embedded,
        ) <==> TypeShape::Group(occurrence, annotation, fields).fits(0)),
{
}

/// Without an embedded Arrow schema an outermost type that comes to something other than a
/// struct is refused: one that is repeated, and one that is a list of a primitive type.
pub proof fn law_roots_that_are_no_struct_are_refused(
    occurrence: Occurrence,
    fields: Seq<TypeShape>,
    i: int,
)
    requires
        0 <= i < fields.len(),
        fields[i] is Primitive,
    ensures
        !root_fits(TypeShape::Group(Occurrence::Repeated, Annotation::Plain, fields), false),
        fields.len() == 1 && fields[0].occurrence() is Repeated && !(occurrence is Repeated)
            ==> !root_fits(TypeShape::Group(occurrence, Annotation::AsList, fields), false),
        fields.len() == 1 && fields[0].occurrence() is Repeated && !(occurrence is Repeated)
            ==> !root_fits(TypeShape::Group(occurrence, Annotation::AsMap, fields), false),
{
    assert(fields[i].gives());
    assert(TypeShape::Group(Occurrence::Repeated, Annotation::Plain, fields).gives());
}

/// A field of a serialised Arrow schema is refused only for a union without type ids that
/// has more than 128 fields, its own or one below it that is read.
pub proof fn law_embedded_fields_are_refused_for_wide_unions_only(fields: Seq<IpcShape>)
    ensures
        IpcShape::Field(IpcKind::Leaf, fields).fits(),
        fields.len() != 1 ==> IpcShape::Field(IpcKind::Single, fields).fits(),
        fields.len() == 1 ==> (IpcShape::Field(IpcKind::Single, fields).fits()
            <==> fields[0].fits()),
        fields.len() != 2 ==> IpcShape::Field(IpcKind::Double, fields).fits(),
        fields.len() == 2 ==> (IpcShape::Field(IpcKind::Double, fields).fits()
            <==> fields[0].fits() && fields[1].fits()),
        IpcShape::Field(IpcKind::Struct, fields).fits() <==> forall|i: int|
            0 <= i < fields.len() ==> (#[trigger] fields[i]).fits(),
        IpcShape::Field(IpcKind::NumberedUnion, fields).fits() <==> forall|i: int|
            0 <= i < fields.len() ==> (#[trigger] fields[i]).fits(),
        IpcShape::Field(IpcKind::Union, fields).fits() <==> fields.len() <= 128 && forall|i: int|
            0 <= i < fields.len() ==> (#[trigger] fields[i]).fits(),
        fields_fit(fields) <==> forall|i: int|
            0 <= i < fields.len() ==> (#[trigger] fields[i]).fits(),
{
    lemma_ipc_field(IpcKind::Single, fields);
    lemma_ipc_field(IpcKind::Double, fields);
    lemma_ipc_field(IpcKind::Struct, fields);
    lemma_ipc_field(IpcKind::NumberedUnion, fields);
    lemma_ipc_field(IpcKind::Union, fields);
    if fields.len() == 1 && fields[0].fits() {
        assert(fields_fit(fields));
    }
    if fields.len() == 2 && fields[0].fits() && fields[1].fits() {
        assert(fields_fit(fields));
    }
}

proof fn lemma_ipc_field(kind: IpcKind, fields: Seq<IpcShape>)
    ensures
        reads_fields(kind, fields.len() as int) ==> (IpcShape::Field(kind, fields).fits() <==> (
        kind == IpcKind::Union ==> fields.len() <= 128) && fields_fit(fields)),
        !reads_fields(kind, fields.len() as int) ==> IpcShape::Field(kind, fields).fits(),
{
    let field = IpcShape::Field(kind, fields);
    let held = field->Field_1;
    assert(held == fields);
    if reads_fields(kind, fields.len() as int) {
        if field.fits() {
            assert forall|i: int| 0 <= i < fields.len() implies (#[trigger] fields[i]).fits() by {
                assert(held[i].fits());
            }
        }
        if fields_fit(fields) {
            assert forall|i: int| 0 <= i < held.len() implies (#[trigger] held[i]).fits() by {
                assert(fields[i].fits());
            }
        }
    }
}

/// The last pair with the key of an embedded schema and a value decides. Any other pair
/// changes nothing.
pub proof fn law_last_embedded_schema_counts(
    pairs: Seq<(Seq<char>, Option<Seq<char>>)>,
    key: Seq<char>,
    value: Option<Seq<char>>,
)
    ensures
        embedded_text(Seq::<(Seq<char>, Option<Seq<char>>)>::empty()) is None,
        key == "ARROW:schema"@ && value is Some ==> embedded_text(pairs.push((key, value)))
            == value,
        key != "ARROW:schema"@ || value is None ==> embedded_text(pairs.push((key, value)))
            == embedded_text(pairs),
{
    assert(pairs.push((key, value)).drop_last() =~= pairs);
}

/// A message that comes with the mark of four bytes of 0xff starts behind the mark and the
/// four bytes of its length. Other bytes are the message themselves.
pub proof fn law_message_starts_behind_its_mark(bytes: Seq<u8>, i: int)
    requires
        0 <= i,
        bytes.len() > 8,
    ensures
        bytes[0] == 0xff && bytes[1] == 0xff && bytes[2] == 0xff && bytes[3] == 0xff
            ==> message_of(bytes).len() == bytes.len() - 8 && (i + 8 < bytes.len()
            ==> message_of(bytes)[i] == bytes[i + 8]),
        bytes[0] != 0xff || bytes[1] != 0xff || bytes[2] != 0xff || bytes[3] != 0xff
            ==> message_of(bytes) == bytes,
        forall|short: Seq<u8>| short.len() <= 8 ==> #[trigger] message_of(short) == short,
{
}

/// Without an embedded schema only the Parquet schema matters. With one that can be read,
/// both do. With one that cannot, the conversion is left to report it.
pub proof fn law_schemas_decide_whether_to_convert(
    meta: ParquetMetaData,
    text: Seq<char>,
    bytes: Seq<u8>,
    fields: Seq<IpcShape>,
)
    ensures
        embedded_text(key_values_of(meta)) is None ==> (convertible(meta) <==> root_fits(
            type_shape(root_of(meta)),
            false,
        )),
        embedded_text(key_values_of(meta)) == Some(text) && base64_bytes(text) is None
            ==> convertible(meta),
        embedded_text(key_values_of(meta)) == Some(text) && base64_bytes(text) == Some(bytes)
            && ipc_fields_of(message_of(bytes)) is None ==> convertible(meta),
        embedded_text(key_values_of(meta)) == Some(text) && base64_bytes(text) == Some(bytes)
            && ipc_fields_of(message_of(bytes)) == Some(fields) ==> (convertible(meta)
            <==> fields_fit(fields) && root_fits(type_shape(root_of(meta)), true)),
{
}

/// A schema type gives an Arrow type where it has a leaf: a primitive type always, a plain
/// group where one of its fields does. A map of keys and values gives one where both do.
pub proof fn law_types_with_leaves_give_arrow_types(
    occurrence: Occurrence,
    fields: Seq<TypeShape>,
    inner: Seq<TypeShape>,
    annotation: Annotation,
    entries: Occurrence,
)
    ensures
        TypeShape::Primitive(occurrence).gives(),
        TypeShape::Group(occurrence, Annotation::Plain, fields).gives() <==> exists|i: int|
            0 <= i < fields.len() && (#[trigger] fields[i]).gives(),
        fields.len() == 1 && fields[0] is Primitive ==> TypeShape::Group(
            occurrence,
            Annotation::AsList,
            fields,
        ).gives(),
        fields.len() == 1 && fields[0] == TypeShape::Group(entries, annotation, inner)
            && inner.len() == 2 ==> (TypeShape::Group(
            occurrence,
            Annotation::AsMap,
            fields,
        ).gives() <==> inner[0].gives() && inner[1].gives()),
        fields.len() == 1 && fields[0] == TypeShape::Group(entries, annotation, inner)
            && inner.len() == 1 ==> (TypeShape::Group(
            occurrence,
            Annotation::AsList,
            fields,
        ).gives() <==> inner[0].gives()) && (TypeShape::Group(
            occurrence,
            Annotation::AsMap,
            fields,
        ).gives() <==> inner[0].gives()),
{
    let group = TypeShape::Group(occurrence, Annotation::Plain, fields);
    let held = group->Group_2;
    assert(held == fields);
    if group.gives() {
        let i = choose|i: int| 0 <= i < held.len() && (#[trigger] held[i]).gives();
        assert(fields[i].gives());
    }
    if exists|i: int| 0 <= i < fields.len() && (#[trigger] fields[i]).gives() {
        let i = choose|i: int| 0 <= i < fields.len() && (#[trigger] fields[i]).gives();
        assert(held[i].gives());
    }
    if fields.len() == 1 && fields[0] == TypeShape::Group(entries, annotation, inner)
        && inner.len() == 1 {
        let held = fields[0]->Group_2;
        assert(held == inner);
        assert(inner[0].gives() ==> held[0].gives());
    }
}

/// Without an embedded Arrow schema, an outermost list or map that would come to an Arrow
/// type is refused, and one that the conversion reports is not: one that is repeated, whose
/// field is not, or a map of other than keys alone or keys and values.
pub proof fn law_outermost_lists_and_maps_come_to_nothing(
    occurrence: Occurrence,
    fields: Seq<TypeShape>,
    annotation: Annotation,
    inner: Seq<TypeShape>,
)
    requires
        fields.len() == 1,
        fields[0] == TypeShape::Group(Occurrence::Repeated, annotation, inner),
        !(occurrence is Repeated),
    ensures
        ({
            let list = TypeShape::Group(occurrence, Annotation::AsList, fields);
            let map = TypeShape::Group(occurrence, Annotation::AsMap, fields);
            &&& root_fits(list, false) <==> list.fits(0) && !list.gives()
            &&& inner.len() == 1 ==> (root_fits(map, false) <==> map.fits(0) && !map.gives())
            &&& inner.len() == 2 && !(inner[0].occurrence() is Repeated)
                && !(inner[1].occurrence() is Repeated) ==> (root_fits(map, false) <==> map.fits(0)
                && !map.gives())
            &&& inner.len() == 2 && (inner[0].occurrence() is Repeated
                || inner[1].occurrence() is Repeated) ==> (root_fits(map, false) <==> map.fits(0))
            &&& inner.len() != 1 && inner.len() != 2 ==> (root_fits(map, false) <==> map.fits(0))
        }),
{
}

/// A type occurs as it says, and shapes and texts stand for types, fields and pairs one by
/// one.
pub proof fn law_views_of_schemas_are_taken_one_by_one(
    ty: Type,
    types: Seq<Arc<Type>>,
    pair: KeyValue,
    i: int,
)
    ensures
        has_repetition(ty) ==> occurrence_of(ty) == repetition_of(ty),
        !has_repetition(ty) ==> occurrence_of(ty) is Unstated,
        type_shapes(types).len() == types.len(),
        0 <= i < types.len() ==> type_shapes(types)[i] == type_shape(*types[i]),
        key_value_text(pair).0 == pair.0@,
        pair.1 is None ==> key_value_text(pair).1 is None,
        pair.1 matches Some(value) ==> key_value_text(pair).1 == Some(value@),
{
}

} // verus!

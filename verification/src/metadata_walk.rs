//! Walking over the metadata of a Parquet file before it is decoded.
//!
//! Metadata is a record in the compact protocol of Thrift. Two things in it make the
//! decoder of the `parquet` crate overflow an integer, and panic where overflow is
//! checked: a number of [`ENDLESS`] bytes or more, whose bits it counts in a `u32`, and a
//! schema in which more than [`DEEPEST`] optional and repeated fields are nested, whose
//! levels it counts in an `i16`. [`is_decodable`] tells such metadata apart.
//!
//! The walk goes where the decoder goes, as long as the decoder reports no error. Of a
//! field that the decoder knows by its id, it reads what the decoder expects there,
//! whatever the bytes declare; any other field it skips by what they declare.
use vstd::prelude::*;

verus! {

/// How many bytes of 0x80 and above at its front make a number too long for the decoder.
/// The decoder counts seven bits for each of them but the first, and for the byte that
/// follows.
pub const ENDLESS: usize = 613_566_757;

/// How deep optional and repeated fields of a schema can be nested: `i16::MAX`.
pub const DEEPEST: u32 = 32767;

/// How deep the decoder follows what it skips.
pub const SKIP_DEPTH: u8 = 64;

/// The largest number of items that a list can have: `i32::MAX`.
pub const MOST_ITEMS: u64 = 0x7fff_ffff;

/// Where a step of the walk ends, with positions in `P`.
pub enum Step<P> {
    /// At this position.
    At(P),
    /// The bytes are at an end, or the decoder reports an error.
    Short,
    /// In a number that is too long.
    Endless,
}

/// What stands in front of a field.
pub enum Head<P> {
    /// There is no further field. The record ends at this position.
    End(P),
    /// A field that declares itself to be of the kind `declared`, and whose value starts
    /// at `at`.
    Field { id: i16, declared: u8, at: P },
    /// The bytes are at an end, or the decoder reports an error.
    Short,
    /// The id is a number that is too long.
    Endless,
}

/// What stands in front of the items of a list.
pub enum ListHead<P> {
    /// `count` items that declare themselves to be of the kind `declared`, of which the
    /// first starts at `at`.
    Items { count: u64, declared: u8, at: P },
    /// The bytes are at an end, or the decoder reports an error.
    Short,
    /// The count is a number that is too long.
    Endless,
}

/// A record that the decoder knows, or one that it skips.
#[derive(Clone, Copy, PartialEq, Eq, Structural)]
pub enum Record {
    /// The metadata, before its schema was read.
    File,
    /// The metadata, after its schema was read. Another schema is skipped.
    FileWithSchema,
    /// An element of a schema.
    Element,
    LogicalType,
    Decimal,
    Time,
    /// One of several things that hold nothing.
    Choice,
    Integer,
    Variant,
    Geometry,
    Geography,
    KeyValue,
    RowGroup,
    SortingColumn,
    ColumnChunk,
    ColumnMeta,
    Statistics,
    PageEncoding,
    SizeStatistics,
    GeoStatistics,
    BoundingBox,
    /// A record that is skipped, and how deep what it holds is followed.
    Unknown(u8),
}

/// How a value is read.
#[derive(Clone, Copy, PartialEq, Eq, Structural)]
pub enum Kind {
    /// The head of the field holds it all.
    Flag,
    OneByte,
    Number,
    Double,
    /// A length, and as many bytes.
    Text,
    One(Record),
    Records(Record),
    Numbers,
    /// Skipped as what it declares itself to be, and followed to a depth.
    Declared(u8, u8),
    /// A key and a value, both skipped.
    Pair(u8, u8, u8),
}

/// What an element of a schema says of the nesting.
#[derive(Clone, Copy)]
pub struct Element {
    pub repetition: Option<i32>,
    pub children: Option<i32>,
}

/// A group of a schema some of whose fields are still to come.
#[derive(Clone, Copy)]
pub struct OpenGroup {
    pub left: i32,
    pub level: u32,
}

/// The step with its position as a mathematical integer.
pub open spec fn step_int(step: Step<usize>) -> Step<int> {
    match step {
        Step::At(at) => Step::At(at as int),
        Step::Short => Step::Short,
        Step::Endless => Step::Endless,
    }
}

/// The head with its position as a mathematical integer.
pub open spec fn head_int(head: Head<usize>) -> Head<int> {
    match head {
        Head::End(at) => Head::End(at as int),
        Head::Field { id, declared, at } => Head::Field { id, declared, at: at as int },
        Head::Short => Head::Short,
        Head::Endless => Head::Endless,
    }
}

/// The head with its position as a mathematical integer.
pub open spec fn list_head_int(head: ListHead<usize>) -> ListHead<int> {
    match head {
        ListHead::Items { count, declared, at } => ListHead::Items { count, declared, at: at as int },
        ListHead::Short => ListHead::Short,
        ListHead::Endless => ListHead::Endless,
    }
}

/// How the value of a field is read.
pub open spec fn field_kind(record: Record, id: i16, declared: u8) -> Kind {
    match record {
        Record::File => match id {
            1 | 3 => Kind::Number,
            2 => Kind::Records(Record::Element),
            4 => Kind::Records(Record::RowGroup),
            5 => Kind::Records(Record::KeyValue),
            6 => Kind::Text,
            7 => Kind::Records(Record::Choice),
            _ => Kind::Declared(declared, SKIP_DEPTH),
        },
        Record::FileWithSchema => match id {
            1 | 3 => Kind::Number,
            4 => Kind::Records(Record::RowGroup),
            5 => Kind::Records(Record::KeyValue),
            6 => Kind::Text,
            7 => Kind::Records(Record::Choice),
            _ => Kind::Declared(declared, SKIP_DEPTH),
        },
        Record::Element => match id {
            1 | 2 | 3 | 5 | 6 | 7 | 8 | 9 => Kind::Number,
            4 => Kind::Text,
            10 => Kind::One(Record::LogicalType),
            _ => Kind::Declared(declared, SKIP_DEPTH),
        },
        Record::LogicalType => match id {
            1 | 2 | 3 | 4 | 6 | 11 | 12 | 13 | 14 | 15 | 19 => Kind::OneByte,
            5 => Kind::One(Record::Decimal),
            7 | 8 => Kind::One(Record::Time),
            10 => Kind::One(Record::Integer),
            16 => Kind::One(Record::Variant),
            17 => Kind::One(Record::Geometry),
            18 => Kind::One(Record::Geography),
            _ => Kind::Declared(declared, SKIP_DEPTH),
        },
        Record::Decimal => match id {
            1 | 2 => Kind::Number,
            _ => Kind::Declared(declared, SKIP_DEPTH),
        },
        Record::Time => match id {
            1 => Kind::Flag,
            2 => Kind::One(Record::Choice),
            _ => Kind::Declared(declared, SKIP_DEPTH),
        },
        Record::Choice => match id {
            1 | 2 | 3 => Kind::OneByte,
            _ => Kind::Declared(declared, SKIP_DEPTH),
        },
        Record::Integer => match id {
            1 => Kind::OneByte,
            2 => Kind::Flag,
            _ => Kind::Declared(declared, SKIP_DEPTH),
        },
        Record::Variant => match id {
            1 => Kind::OneByte,
            _ => Kind::Declared(declared, SKIP_DEPTH),
        },
        Record::Geometry => match id {
            1 => Kind::Text,
            _ => Kind::Declared(declared, SKIP_DEPTH),
        },
        Record::Geography => match id {
            1 => Kind::Text,
            2 => Kind::Number,
            _ => Kind::Declared(declared, SKIP_DEPTH),
        },
        Record::KeyValue => match id {
            1 | 2 => Kind::Text,
            _ => Kind::Declared(declared, SKIP_DEPTH),
        },
        Record::RowGroup => match id {
            1 => Kind::Records(Record::ColumnChunk),
            2 | 3 | 5 | 7 => Kind::Number,
            4 => Kind::Records(Record::SortingColumn),
            _ => Kind::Declared(declared, SKIP_DEPTH),
        },
        Record::SortingColumn => match id {
            1 => Kind::Number,
            2 | 3 => Kind::Flag,
            _ => Kind::Declared(declared, SKIP_DEPTH),
        },
        Record::ColumnChunk => match id {
            1 => Kind::Text,
            2 | 4 | 5 | 6 | 7 => Kind::Number,
            3 => Kind::One(Record::ColumnMeta),
            _ => Kind::Declared(declared, SKIP_DEPTH),
        },
        Record::ColumnMeta => match id {
            1 | 4 | 5 | 6 | 7 | 9 | 10 | 11 | 14 | 15 => Kind::Number,
            2 => Kind::Numbers,
            12 => Kind::One(Record::Statistics),
            13 => Kind::Records(Record::PageEncoding),
            16 => Kind::One(Record::SizeStatistics),
            17 => Kind::One(Record::GeoStatistics),
            _ => Kind::Declared(declared, SKIP_DEPTH),
        },
        Record::Statistics => match id {
            1 | 2 | 5 | 6 => Kind::Text,
            3 | 4 | 9 => Kind::Number,
            7 | 8 => Kind::Flag,
            _ => Kind::Declared(declared, SKIP_DEPTH),
        },
        Record::PageEncoding => match id {
            1 | 2 | 3 => Kind::Number,
            _ => Kind::Declared(declared, SKIP_DEPTH),
        },
        Record::SizeStatistics => match id {
            1 => Kind::Number,
            2 | 3 => Kind::Numbers,
            _ => Kind::Declared(declared, SKIP_DEPTH),
        },
        Record::GeoStatistics => match id {
            1 => Kind::One(Record::BoundingBox),
            2 => Kind::Numbers,
            _ => Kind::Declared(declared, SKIP_DEPTH),
        },
        Record::BoundingBox => match id {
            1 | 2 | 3 | 4 | 5 | 6 | 7 | 8 => Kind::Double,
            _ => Kind::Declared(declared, SKIP_DEPTH),
        },
        Record::Unknown(depth) => Kind::Declared(declared, (depth - 1) as u8),
    }
}

/// The record that the fields after `id` belong to.
pub open spec fn next_record(record: Record, id: i16) -> Record {
    if record == Record::File && id == 2 {
        Record::FileWithSchema
    } else {
        record
    }
}

/// The id that the next field of a record counts from.
pub open spec fn next_last(record: Record, id: i16) -> i16 {
    match record {
        Record::Unknown(_) => 0,
        _ => id,
    }
}

/// Whether the `n` bytes from `start` on are all 0x80 or above.
pub open spec fn are_high_bytes(bytes: Seq<u8>, start: int, n: int) -> bool {
    &&& 0 <= start
    &&& start + n <= bytes.len()
    &&& forall|i: int| start <= i < start + n ==> #[trigger] bytes[i] >= 0x80
}

/// The end of a number, whose last byte is the first one below 0x80.
pub open spec fn number_end(bytes: Seq<u8>, pos: int) -> Step<int>
    decreases bytes.len() - pos,
{
    if pos < 0 || pos >= bytes.len() {
        Step::Short
    } else if bytes[pos] < 0x80 {
        Step::At(pos + 1)
    } else {
        number_end(bytes, pos + 1)
    }
}

/// Reading a number.
pub open spec fn read_number(bytes: Seq<u8>, pos: int) -> Step<int> {
    if are_high_bytes(bytes, pos, ENDLESS as int) {
        Step::Endless
    } else {
        number_end(bytes, pos)
    }
}

/// By how many bits the bits of byte `i` of a number are moved up.
pub open spec fn shift_of(i: int) -> u64 {
    ((7 * i) % 64) as u64
}

/// The value of a number of `n` bytes: seven bits of each, the lowest first. The bits of
/// a number that is longer than a `u64` come round to the front.
pub open spec fn number_value(bytes: Seq<u8>, pos: int, n: nat) -> u64
    decreases n,
{
    if n == 0 {
        0
    } else {
        number_value(bytes, pos, (n - 1) as nat) | (((bytes[pos + n - 1] & 0x7f) as u64)
            << shift_of(n - 1))
    }
}

/// The signed number that an unsigned one stands for: even ones for the numbers from zero
/// up, odd ones for those below.
pub open spec fn zigzag(value: u64) -> i64 {
    if value % 2 == 0 {
        (value / 2) as i64
    } else {
        (-1 - value / 2) as i64
    }
}

/// Reading `n` bytes.
pub open spec fn read_bytes(bytes: Seq<u8>, pos: int, n: int) -> Step<int> {
    if pos + n <= bytes.len() {
        Step::At(pos + n)
    } else {
        Step::Short
    }
}

/// Reading a length, and as many bytes.
pub open spec fn read_text(bytes: Seq<u8>, pos: int) -> Step<int> {
    match read_number(bytes, pos) {
        Step::At(at) => read_bytes(
            bytes,
            at,
            number_value(bytes, pos, (at - pos) as nat) as usize as int,
        ),
        step => step,
    }
}

/// Reading what stands in front of a field. Its id is counted from the one before it, or
/// given as a number.
pub open spec fn read_head(bytes: Seq<u8>, pos: int, last: i16) -> Head<int> {
    if pos < 0 || pos >= bytes.len() {
        Head::Short
    } else if bytes[pos] % 16 == 0 {
        Head::End(pos + 1)
    } else if bytes[pos] % 16 > 13 {
        Head::Short
    } else if bytes[pos] / 16 != 0 {
        if last + bytes[pos] / 16 > i16::MAX {
            Head::Short
        } else {
            Head::Field {
                id: (last + bytes[pos] / 16) as i16,
                declared: bytes[pos] % 16,
                at: pos + 1,
            }
        }
    } else {
        match read_number(bytes, pos + 1) {
            Step::At(at) => Head::Field {
                id: zigzag(number_value(bytes, pos + 1, (at - pos - 1) as nat)) as i16,
                declared: bytes[pos] % 16,
                at,
            },
            Step::Short => Head::Short,
            Step::Endless => Head::Endless,
        }
    }
}

/// Reading what stands in front of the items of a list.
pub open spec fn read_list_head(bytes: Seq<u8>, pos: int) -> ListHead<int> {
    if pos < 0 || pos >= bytes.len() {
        ListHead::Short
    } else if bytes[pos] == 0 {
        ListHead::Items { count: 0, declared: 3, at: pos + 1 }
    } else if bytes[pos] % 16 == 0 || bytes[pos] % 16 > 13 {
        ListHead::Short
    } else if bytes[pos] / 16 != 15 {
        ListHead::Items {
            count: (bytes[pos] / 16) as u64,
            declared: bytes[pos] % 16,
            at: pos + 1,
        }
    } else {
        match read_number(bytes, pos + 1) {
            Step::At(at) => if number_value(bytes, pos + 1, (at - pos - 1) as nat) > MOST_ITEMS {
                ListHead::Short
            } else {
                ListHead::Items {
                    count: number_value(bytes, pos + 1, (at - pos - 1) as nat),
                    declared: bytes[pos] % 16,
                    at,
                }
            },
            Step::Short => ListHead::Short,
            Step::Endless => ListHead::Endless,
        }
    }
}

/// What is known of an element once a field of it was read, from `at` to `end`.
pub open spec fn noted(
    bytes: Seq<u8>,
    element: Element,
    record: Record,
    id: i16,
    at: int,
    end: int,
) -> Element {
    let value = zigzag(number_value(bytes, at, (end - at) as nat)) as i32;
    if record == Record::Element && id == 3 {
        Element { repetition: Some(value), ..element }
    } else if record == Record::Element && id == 5 {
        Element { children: Some(value), ..element }
    } else {
        element
    }
}

/// The elements of the schema, once a record has come to its end.
pub open spec fn with_element(seen: Seq<Element>, record: Record, element: Element) -> Seq<Element> {
    if record == Record::Element {
        seen.push(element)
    } else {
        seen
    }
}

/// An element of which nothing is known.
pub open spec fn no_element() -> Element {
    Element { repetition: None, children: None }
}

pub open spec fn rank(kind: Kind) -> nat {
    match kind {
        Kind::Pair(_, _, _) => 3,
        _ => 2,
    }
}

/// Walking over a value: where it ends, and the elements of the schema so far.
pub open spec fn walk_value(bytes: Seq<u8>, pos: int, kind: Kind, seen: Seq<Element>) -> (
    Step<int>,
    Seq<Element>,
)
    decreases bytes.len() - pos, rank(kind),
{
    if pos < 0 || pos > bytes.len() {
        (Step::Short, seen)
    } else {
        match kind {
            Kind::Flag => (Step::At(pos), seen),
            Kind::OneByte => (read_bytes(bytes, pos, 1), seen),
            Kind::Number => (read_number(bytes, pos), seen),
            Kind::Double => (read_bytes(bytes, pos, 8), seen),
            Kind::Text => (read_text(bytes, pos), seen),
            Kind::One(record) => walk_fields(bytes, pos, record, 0, no_element(), seen),
            Kind::Records(record) => match read_list_head(bytes, pos) {
                ListHead::Items { count, declared, at } => if pos < at <= bytes.len() {
                    walk_items(bytes, at, Kind::One(record), count, seen)
                } else {
                    (Step::Short, seen)
                },
                ListHead::Short => (Step::Short, seen),
                ListHead::Endless => (Step::Endless, seen),
            },
            Kind::Numbers => match read_list_head(bytes, pos) {
                ListHead::Items { count, declared, at } => if pos < at <= bytes.len() {
                    walk_items(bytes, at, Kind::Number, count, seen)
                } else {
                    (Step::Short, seen)
                },
                ListHead::Short => (Step::Short, seen),
                ListHead::Endless => (Step::Endless, seen),
            },
            Kind::Pair(key, value, depth) => match walk_value(
                bytes,
                pos,
                Kind::Declared(key, depth),
                seen,
            ) {
                (Step::At(at), seen) => if pos <= at <= bytes.len() {
                    walk_value(bytes, at, Kind::Declared(value, depth), seen)
                } else {
                    (Step::Short, seen)
                },
                other => other,
            },
            Kind::Declared(declared, depth) => if depth == 0 {
                (Step::Short, seen)
            } else {
                match declared {
                    1 | 2 => (Step::At(pos), seen),
                    3 => (read_bytes(bytes, pos, 1), seen),
                    4 | 5 | 6 => (number_end(bytes, pos), seen),
                    7 => (read_bytes(bytes, pos, 8), seen),
                    8 => (read_text(bytes, pos), seen),
                    9 | 10 => match read_list_head(bytes, pos) {
                        ListHead::Items { count, declared, at } => if pos < at <= bytes.len() {
                            walk_items(
                                bytes,
                                at,
                                Kind::Declared(declared, (depth - 1) as u8),
                                count,
                                seen,
                            )
                        } else {
                            (Step::Short, seen)
                        },
                        ListHead::Short => (Step::Short, seen),
                        ListHead::Endless => (Step::Endless, seen),
                    },
                    11 => match read_number(bytes, pos) {
                        Step::At(at) => {
                            let count = number_value(bytes, pos, (at - pos) as nat);
                            if count > MOST_ITEMS {
                                (Step::Short, seen)
                            } else if count == 0 {
                                (Step::At(at), seen)
                            } else if !(pos < at < bytes.len()) || !is_item(bytes[at] / 16)
                                || !is_item(bytes[at] % 16) {
                                (Step::Short, seen)
                            } else {
                                walk_items(
                                    bytes,
                                    at + 1,
                                    Kind::Pair(
                                        bytes[at] / 16,
                                        bytes[at] % 16,
                                        (depth - 1) as u8,
                                    ),
                                    count,
                                    seen,
                                )
                            }
                        },
                        step => (step, seen),
                    },
                    12 => walk_fields(bytes, pos, Record::Unknown(depth), 0, no_element(), seen),
                    13 => (read_bytes(bytes, pos, 16), seen),
                    _ => (Step::Short, seen),
                }
            },
        }
    }
}

/// Whether items of a list or a map can declare themselves to be of this kind.
pub open spec fn is_item(declared: u8) -> bool {
    1 <= declared <= 13
}

/// Walking over `count` items of a list or a map. Items that take no bytes are not
/// counted off.
pub open spec fn walk_items(
    bytes: Seq<u8>,
    pos: int,
    kind: Kind,
    count: u64,
    seen: Seq<Element>,
) -> (Step<int>, Seq<Element>)
    decreases bytes.len() - pos, 4nat,
{
    if count == 0 {
        (Step::At(pos), seen)
    } else {
        match walk_value(bytes, pos, kind, seen) {
            (Step::At(at), seen) => if pos < at <= bytes.len() {
                walk_items(bytes, at, kind, (count - 1) as u64, seen)
            } else {
                (Step::At(pos), seen)
            },
            other => other,
        }
    }
}

/// Walking over the fields of a record from the one at `pos` on. `last` is the id that
/// it counts from, and `element` what is known of the element that the record is.
pub open spec fn walk_fields(
    bytes: Seq<u8>,
    pos: int,
    record: Record,
    last: i16,
    element: Element,
    seen: Seq<Element>,
) -> (Step<int>, Seq<Element>)
    decreases bytes.len() - pos, 1nat,
{
    match read_head(bytes, pos, last) {
        Head::End(at) => (Step::At(at), with_element(seen, record, element)),
        Head::Short => (Step::Short, seen),
        Head::Endless => (Step::Endless, seen),
        Head::Field { id, declared, at } => if pos < at <= bytes.len() {
            match walk_value(bytes, at, field_kind(record, id, declared), seen) {
                (Step::At(end), seen) => if pos < end <= bytes.len() {
                    walk_fields(
                        bytes,
                        end,
                        next_record(record, id),
                        next_last(record, id),
                        noted(bytes, element, record, id, at, end),
                        seen,
                    )
                } else {
                    (Step::Short, seen)
                },
                other => other,
            }
        } else {
            (Step::Short, seen)
        },
    }
}

/// Whether an element adds a level: whether it is optional or repeated.
pub open spec fn adds_level(element: Element) -> bool {
    element.repetition == Some(1i32) || element.repetition == Some(2i32)
}

/// The open groups without those at the end that have no fields to come.
pub open spec fn closed_up(open: Seq<OpenGroup>) -> Seq<OpenGroup>
    decreases open.len(),
{
    if open.len() > 0 && open.last().left <= 0 {
        closed_up(open.drop_last())
    } else {
        open
    }
}

/// The level of an element below the open groups. The outermost one has none.
pub open spec fn level_below(open: Seq<OpenGroup>, element: Element) -> int {
    if open.len() == 0 {
        0
    } else if adds_level(element) {
        open.last().level + 1
    } else {
        open.last().level as int
    }
}

/// The open groups after an element of this level.
pub open spec fn open_after(open: Seq<OpenGroup>, element: Element, level: int) -> Seq<OpenGroup> {
    let outer = if open.len() == 0 {
        open
    } else {
        open.drop_last().push(
            OpenGroup { left: (open.last().left - 1) as i32, level: open.last().level },
        )
    };
    match element.children {
        Some(children) => closed_up(
            if children > 0 {
                outer.push(OpenGroup { left: children, level: level as u32 })
            } else {
                outer
            },
        ),
        None => closed_up(outer),
    }
}

/// Whether no element of a schema lies too deep. The elements come depth first, each
/// with the number of its children.
pub open spec fn levels_fit(elements: Seq<Element>, open: Seq<OpenGroup>) -> bool
    decreases elements.len(),
{
    if elements.len() == 0 {
        true
    } else {
        let level = level_below(open, elements[0]);
        level <= DEEPEST && levels_fit(
            elements.drop_first(),
            open_after(open, elements[0], level),
        )
    }
}

/// Whether metadata can be handed to the decoder.
pub open spec fn decodable(bytes: Seq<u8>) -> bool {
    let (step, elements) = walk_fields(bytes, 0, Record::File, 0, no_element(), seq![]);
    !(step is Endless) && levels_fit(elements, seq![])
}

fn kind_of_field(record: Record, id: i16, declared: u8) -> (kind: Kind)
    requires
        record matches Record::Unknown(depth) ==> depth > 0,
    ensures
        kind == field_kind(record, id, declared),
{
    match record {
        Record::File => match id {
            1 | 3 => Kind::Number,
            2 => Kind::Records(Record::Element),
            4 => Kind::Records(Record::RowGroup),
            5 => Kind::Records(Record::KeyValue),
            6 => Kind::Text,
            7 => Kind::Records(Record::Choice),
            _ => Kind::Declared(declared, SKIP_DEPTH),
        },
        Record::FileWithSchema => match id {
            1 | 3 => Kind::Number,
            4 => Kind::Records(Record::RowGroup),
            5 => Kind::Records(Record::KeyValue),
            6 => Kind::Text,
            7 => Kind::Records(Record::Choice),
            _ => Kind::Declared(declared, SKIP_DEPTH),
        },
        Record::Element => match id {
            1 | 2 | 3 | 5 | 6 | 7 | 8 | 9 => Kind::Number,
            4 => Kind::Text,
            10 => Kind::One(Record::LogicalType),
            _ => Kind::Declared(declared, SKIP_DEPTH),
        },
        Record::LogicalType => match id {
            1 | 2 | 3 | 4 | 6 | 11 | 12 | 13 | 14 | 15 | 19 => Kind::OneByte,
            5 => Kind::One(Record::Decimal),
            7 | 8 => Kind::One(Record::Time),
            10 => Kind::One(Record::Integer),
            16 => Kind::One(Record::Variant),
            17 => Kind::One(Record::Geometry),
            18 => Kind::One(Record::Geography),
            _ => Kind::Declared(declared, SKIP_DEPTH),
        },
        Record::Decimal => match id {
            1 | 2 => Kind::Number,
            _ => Kind::Declared(declared, SKIP_DEPTH),
        },
        Record::Time => match id {
            1 => Kind::Flag,
            2 => Kind::One(Record::Choice),
            _ => Kind::Declared(declared, SKIP_DEPTH),
        },
        Record::Choice => match id {
            1 | 2 | 3 => Kind::OneByte,
            _ => Kind::Declared(declared, SKIP_DEPTH),
        },
        Record::Integer => match id {
            1 => Kind::OneByte,
            2 => Kind::Flag,
            _ => Kind::Declared(declared, SKIP_DEPTH),
        },
        Record::Variant => match id {
            1 => Kind::OneByte,
            _ => Kind::Declared(declared, SKIP_DEPTH),
        },
        Record::Geometry => match id {
            1 => Kind::Text,
            _ => Kind::Declared(declared, SKIP_DEPTH),
        },
        Record::Geography => match id {
            1 => Kind::Text,
            2 => Kind::Number,
            _ => Kind::Declared(declared, SKIP_DEPTH),
        },
        Record::KeyValue => match id {
            1 | 2 => Kind::Text,
            _ => Kind::Declared(declared, SKIP_DEPTH),
        },
        Record::RowGroup => match id {
            1 => Kind::Records(Record::ColumnChunk),
            2 | 3 | 5 | 7 => Kind::Number,
            4 => Kind::Records(Record::SortingColumn),
            _ => Kind::Declared(declared, SKIP_DEPTH),
        },
        Record::SortingColumn => match id {
            1 => Kind::Number,
            2 | 3 => Kind::Flag,
            _ => Kind::Declared(declared, SKIP_DEPTH),
        },
        Record::ColumnChunk => match id {
            1 => Kind::Text,
            2 | 4 | 5 | 6 | 7 => Kind::Number,
            3 => Kind::One(Record::ColumnMeta),
            _ => Kind::Declared(declared, SKIP_DEPTH),
        },
        Record::ColumnMeta => match id {
            1 | 4 | 5 | 6 | 7 | 9 | 10 | 11 | 14 | 15 => Kind::Number,
            2 => Kind::Numbers,
            12 => Kind::One(Record::Statistics),
            13 => Kind::Records(Record::PageEncoding),
            16 => Kind::One(Record::SizeStatistics),
            17 => Kind::One(Record::GeoStatistics),
            _ => Kind::Declared(declared, SKIP_DEPTH),
        },
        Record::Statistics => match id {
            1 | 2 | 5 | 6 => Kind::Text,
            3 | 4 | 9 => Kind::Number,
            7 | 8 => Kind::Flag,
            _ => Kind::Declared(declared, SKIP_DEPTH),
        },
        Record::PageEncoding => match id {
            1 | 2 | 3 => Kind::Number,
            _ => Kind::Declared(declared, SKIP_DEPTH),
        },
        Record::SizeStatistics => match id {
            1 => Kind::Number,
            2 | 3 => Kind::Numbers,
            _ => Kind::Declared(declared, SKIP_DEPTH),
        },
        Record::GeoStatistics => match id {
            1 => Kind::One(Record::BoundingBox),
            2 => Kind::Numbers,
            _ => Kind::Declared(declared, SKIP_DEPTH),
        },
        Record::BoundingBox => match id {
            1 | 2 | 3 | 4 | 5 | 6 | 7 | 8 => Kind::Double,
            _ => Kind::Declared(declared, SKIP_DEPTH),
        },
        Record::Unknown(depth) => Kind::Declared(declared, depth - 1),
    }
}

proof fn lemma_shift(i: int)
    requires
        0 <= i,
    ensures
        shift_of(i) < 64,
        shift_of(i + 1) == (shift_of(i) + 7) % 64,
{
}

fn scan_number(bytes: &[u8], pos: usize) -> (number: (Step<usize>, u64))
    requires
        pos <= bytes@.len(),
    ensures
        step_int(number.0) == read_number(bytes@, pos as int),
        number.0 matches Step::At(at) ==> pos < at <= bytes@.len() && number.1 == number_value(
            bytes@,
            pos as int,
            (at - pos) as nat,
        ),
{
    let mut value: u64 = 0;
    let mut shift: u64 = 0;
    let mut i: usize = pos;
    while i < bytes.len()
        invariant
            pos <= i <= bytes@.len(),
            i - pos < ENDLESS,
            forall|j: int| pos <= j < i ==> #[trigger] bytes@[j] >= 0x80,
            number_end(bytes@, pos as int) == number_end(bytes@, i as int),
            shift == shift_of(i - pos),
            value == number_value(bytes@, pos as int, (i - pos) as nat),
        decreases bytes@.len() - i,
    {
        let byte: u8 = bytes[i];
        let ghost n = (i - pos) as nat;
        proof {
            lemma_shift(n as int);
            assert(bytes@[pos + (n + 1) - 1] == byte);
            assert(number_value(bytes@, pos as int, n + 1) == value | (((byte & 0x7f) as u64)
                << shift));
        }
        value = value | (((byte & 0x7f) as u64) << shift);
        shift = (shift + 7) % 64;
        i += 1;
        if byte < 0x80 {
            assert(!are_high_bytes(bytes@, pos as int, ENDLESS as int)) by {
                assert(bytes@[i - 1] < 0x80);
            }
            return (Step::At(i), value);
        }
        if i - pos == ENDLESS {
            return (Step::Endless, 0);
        }
    }
    (Step::Short, 0)
}

fn skip_number(bytes: &[u8], pos: usize) -> (step: Step<usize>)
    requires
        pos <= bytes@.len(),
    ensures
        step_int(step) == number_end(bytes@, pos as int),
        step matches Step::At(at) ==> pos < at <= bytes@.len(),
{
    let mut i: usize = pos;
    while i < bytes.len()
        invariant
            pos <= i <= bytes@.len(),
            number_end(bytes@, pos as int) == number_end(bytes@, i as int),
        decreases bytes@.len() - i,
    {
        i += 1;
        if bytes[i - 1] < 0x80 {
            return Step::At(i);
        }
    }
    Step::Short
}

fn signed(value: u64) -> (signed: i64)
    ensures
        signed == zigzag(value),
{
    if value % 2 == 0 {
        (value / 2) as i64
    } else {
        -1 - (value / 2) as i64
    }
}

fn skip_bytes(bytes: &[u8], pos: usize, n: usize) -> (step: Step<usize>)
    requires
        pos <= bytes@.len(),
    ensures
        step_int(step) == read_bytes(bytes@, pos as int, n as int),
        step matches Step::At(at) ==> at == pos + n && at <= bytes@.len(),
{
    if n <= bytes.len() - pos {
        Step::At(pos + n)
    } else {
        Step::Short
    }
}

fn skip_text(bytes: &[u8], pos: usize) -> (step: Step<usize>)
    requires
        pos <= bytes@.len(),
    ensures
        step_int(step) == read_text(bytes@, pos as int),
        step matches Step::At(at) ==> pos < at <= bytes@.len(),
{
    let (step, value) = scan_number(bytes, pos);
    match step {
        Step::At(at) => skip_bytes(bytes, at, value as usize),
        Step::Short => Step::Short,
        Step::Endless => Step::Endless,
    }
}

fn head_of_field(bytes: &[u8], pos: usize, last: i16) -> (head: Head<usize>)
    requires
        pos <= bytes@.len(),
    ensures
        head_int(head) == read_head(bytes@, pos as int, last),
        head matches Head::End(at) ==> pos < at <= bytes@.len(),
        head matches Head::Field { id, declared, at } ==> pos < at <= bytes@.len(),
{
    if pos >= bytes.len() {
        return Head::Short;
    }
    let byte: u8 = bytes[pos];
    let declared: u8 = byte % 16;
    let delta: i16 = (byte / 16) as i16;
    if declared == 0 {
        Head::End(pos + 1)
    } else if declared > 13 {
        Head::Short
    } else if delta != 0 {
        match last.checked_add(delta) {
            Some(id) => Head::Field { id, declared, at: pos + 1 },
            None => Head::Short,
        }
    } else {
        let (step, value) = scan_number(bytes, pos + 1);
        match step {
            Step::At(at) => Head::Field { id: signed(value) as i16, declared, at },
            Step::Short => Head::Short,
            Step::Endless => Head::Endless,
        }
    }
}

fn head_of_list(bytes: &[u8], pos: usize) -> (head: ListHead<usize>)
    requires
        pos <= bytes@.len(),
    ensures
        list_head_int(head) == read_list_head(bytes@, pos as int),
        head matches ListHead::Items { count, declared, at } ==> pos < at <= bytes@.len(),
{
    if pos >= bytes.len() {
        return ListHead::Short;
    }
    let byte: u8 = bytes[pos];
    let declared: u8 = byte % 16;
    if byte == 0 {
        ListHead::Items { count: 0, declared: 3, at: pos + 1 }
    } else if declared == 0 || declared > 13 {
        ListHead::Short
    } else if byte / 16 != 15 {
        ListHead::Items { count: (byte / 16) as u64, declared, at: pos + 1 }
    } else {
        let (step, value) = scan_number(bytes, pos + 1);
        match step {
            Step::At(at) => if value > MOST_ITEMS {
                ListHead::Short
            } else {
                ListHead::Items { count: value, declared, at }
            },
            Step::Short => ListHead::Short,
            Step::Endless => ListHead::Endless,
        }
    }
}

fn skip_value(bytes: &[u8], pos: usize, kind: Kind, seen: &mut Vec<Element>) -> (step: Step<usize>)
    requires
        pos <= bytes@.len(),
        kind matches Kind::One(Record::Unknown(depth)) ==> depth > 0,
        kind matches Kind::Records(record) ==> !(record is Unknown),
    ensures
        (step_int(step), final(seen)@) == walk_value(bytes@, pos as int, kind, old(seen)@),
        step matches Step::At(at) ==> pos <= at <= bytes@.len(),
    decreases bytes@.len() - pos, rank(kind),
{
    match kind {
        Kind::Flag => Step::At(pos),
        Kind::OneByte => skip_bytes(bytes, pos, 1),
        Kind::Number => scan_number(bytes, pos).0,
        Kind::Double => skip_bytes(bytes, pos, 8),
        Kind::Text => skip_text(bytes, pos),
        Kind::One(record) => skip_fields(bytes, pos, record, seen),
        Kind::Records(record) => match head_of_list(bytes, pos) {
            ListHead::Items { count, declared: _, at } => skip_items(
                bytes,
                at,
                Kind::One(record),
                count,
                seen,
            ),
            ListHead::Short => Step::Short,
            ListHead::Endless => Step::Endless,
        },
        Kind::Numbers => match head_of_list(bytes, pos) {
            ListHead::Items { count, declared: _, at } => skip_items(
                bytes,
                at,
                Kind::Number,
                count,
                seen,
            ),
            ListHead::Short => Step::Short,
            ListHead::Endless => Step::Endless,
        },
        Kind::Pair(key, value, depth) => match skip_value(
            bytes,
            pos,
            Kind::Declared(key, depth),
            seen,
        ) {
            Step::At(at) => skip_value(bytes, at, Kind::Declared(value, depth), seen),
            Step::Short => Step::Short,
            Step::Endless => Step::Endless,
        },
        Kind::Declared(declared, depth) => if depth == 0 {
            Step::Short
        } else {
            match declared {
                1 | 2 => Step::At(pos),
                3 => skip_bytes(bytes, pos, 1),
                4 | 5 | 6 => skip_number(bytes, pos),
                7 => skip_bytes(bytes, pos, 8),
                8 => skip_text(bytes, pos),
                9 | 10 => match head_of_list(bytes, pos) {
                    ListHead::Items { count, declared, at } => skip_items(
                        bytes,
                        at,
                        Kind::Declared(declared, depth - 1),
                        count,
                        seen,
                    ),
                    ListHead::Short => Step::Short,
                    ListHead::Endless => Step::Endless,
                },
                11 => skip_map(bytes, pos, depth, seen),
                12 => skip_fields(bytes, pos, Record::Unknown(depth), seen),
                13 => skip_bytes(bytes, pos, 16),
                _ => Step::Short,
            }
        },
    }
}

fn skip_map(bytes: &[u8], pos: usize, depth: u8, seen: &mut Vec<Element>) -> (step: Step<usize>)
    requires
        pos <= bytes@.len(),
        depth > 0,
    ensures
        (step_int(step), final(seen)@) == walk_value(
            bytes@,
            pos as int,
            Kind::Declared(11, depth),
            old(seen)@,
        ),
        step matches Step::At(at) ==> pos <= at <= bytes@.len(),
    decreases bytes@.len() - pos, 1nat,
{
    let (step, count) = scan_number(bytes, pos);
    match step {
        Step::At(at) => {
            if count > MOST_ITEMS {
                return Step::Short;
            }
            if count == 0 {
                return Step::At(at);
            }
            if at >= bytes.len() {
                return Step::Short;
            }
            let key: u8 = bytes[at] / 16;
            let value: u8 = bytes[at] % 16;
            if key == 0 || key > 13 || value == 0 || value > 13 {
                return Step::Short;
            }
            skip_items(bytes, at + 1, Kind::Pair(key, value, depth - 1), count, seen)
        },
        Step::Short => Step::Short,
        Step::Endless => Step::Endless,
    }
}

fn skip_items(
    bytes: &[u8],
    pos: usize,
    kind: Kind,
    count: u64,
    seen: &mut Vec<Element>,
) -> (step: Step<usize>)
    requires
        pos <= bytes@.len(),
        kind matches Kind::One(Record::Unknown(depth)) ==> depth > 0,
        kind matches Kind::Records(record) ==> !(record is Unknown),
    ensures
        (step_int(step), final(seen)@) == walk_items(bytes@, pos as int, kind, count, old(seen)@),
        step matches Step::At(at) ==> pos <= at <= bytes@.len(),
    decreases bytes@.len() - pos, 4nat,
{
    let ghost start = seen@;
    let mut at: usize = pos;
    let mut left: u64 = count;
    while left > 0
        invariant
            start == old(seen)@,
            pos <= at <= bytes@.len(),
            kind matches Kind::One(Record::Unknown(depth)) ==> depth > 0,
            kind matches Kind::Records(record) ==> !(record is Unknown),
            walk_items(bytes@, pos as int, kind, count, start) == walk_items(
                bytes@,
                at as int,
                kind,
                left,
                seen@,
            ),
        decreases left,
    {
        match skip_value(bytes, at, kind, seen) {
            Step::At(end) => {
                if end == at {
                    return Step::At(at);
                }
                at = end;
                left -= 1;
            },
            Step::Short => {
                return Step::Short;
            },
            Step::Endless => {
                return Step::Endless;
            },
        }
    }
    Step::At(at)
}

fn skip_fields(bytes: &[u8], pos: usize, record: Record, seen: &mut Vec<Element>) -> (step: Step<
    usize,
>)
    requires
        pos <= bytes@.len(),
        record matches Record::Unknown(depth) ==> depth > 0,
    ensures
        (step_int(step), final(seen)@) == walk_fields(
            bytes@,
            pos as int,
            record,
            0,
            no_element(),
            old(seen)@,
        ),
        step matches Step::At(at) ==> pos < at <= bytes@.len(),
    decreases bytes@.len() - pos, 1nat,
{
    let ghost start = seen@;
    let mut at: usize = pos;
    let mut within: Record = record;
    let mut last: i16 = 0;
    let mut element: Element = Element { repetition: None, children: None };
    loop
        invariant
            start == old(seen)@,
            pos <= at <= bytes@.len(),
            within matches Record::Unknown(depth) ==> depth > 0,
            walk_fields(bytes@, pos as int, record, 0, no_element(), start) == walk_fields(
                bytes@,
                at as int,
                within,
                last,
                element,
                seen@,
            ),
        decreases bytes@.len() - at,
    {
        match head_of_field(bytes, at, last) {
            Head::End(end) => {
                if within == Record::Element {
                    seen.push(element);
                }
                return Step::At(end);
            },
            Head::Short => {
                return Step::Short;
            },
            Head::Endless => {
                return Step::Endless;
            },
            Head::Field { id, declared, at: value } => {
                let kind = kind_of_field(within, id, declared);
                match skip_value(bytes, value, kind, seen) {
                    Step::At(end) => {
                        if within == Record::Element && (id == 3 || id == 5) {
                            let number: i32 = signed(scan_number(bytes, value).1) as i32;
                            if id == 3 {
                                element.repetition = Some(number);
                            } else {
                                element.children = Some(number);
                            }
                        }
                        if within == Record::File && id == 2 {
                            within = Record::FileWithSchema;
                        }
                        last = match within {
                            Record::Unknown(_) => 0,
                            _ => id,
                        };
                        at = end;
                    },
                    Step::Short => {
                        return Step::Short;
                    },
                    Step::Endless => {
                        return Step::Endless;
                    },
                }
            },
        }
    }
}

fn elements_fit(elements: &Vec<Element>) -> (fit: bool)
    ensures
        fit == levels_fit(elements@, seq![]),
{
    let mut open: Vec<OpenGroup> = Vec::new();
    let mut i: usize = 0;
    assert(elements@.skip(0) =~= elements@);
    assert(open@ =~= seq![]);
    while i < elements.len()
        invariant
            i <= elements@.len(),
            levels_fit(elements@, seq![]) == levels_fit(elements@.skip(i as int), open@),
            open@.len() > 0 ==> open@.last().left > 0,
            forall|j: int| 0 <= j < open@.len() ==> (#[trigger] open@[j]).level <= DEEPEST,
        decreases elements@.len() - i,
    {
        let element: Element = elements[i];
        assert(elements@.skip(i as int)[0] == element);
        assert(elements@.skip(i as int).drop_first() =~= elements@.skip(i + 1));
        let ghost before = open@;
        let mut level: u32 = 0;
        match open.pop() {
            None => {},
            Some(group) => {
                let adds = match element.repetition {
                    Some(repetition) => repetition == 1 || repetition == 2,
                    None => false,
                };
                level = if adds {
                    group.level + 1
                } else {
                    group.level
                };
                open.push(OpenGroup { left: group.left - 1, level: group.level });
                assert(open@ =~= before.drop_last().push(
                    OpenGroup { left: (group.left - 1) as i32, level: group.level },
                ));
            },
        }
        assert(level == level_below(before, element));
        if level > DEEPEST {
            return false;
        }
        match element.children {
            Some(children) => if children > 0 {
                open.push(OpenGroup { left: children, level });
            },
            None => {},
        }
        let ghost unclosed = open@;
        while open.len() > 0 && open[open.len() - 1].left <= 0
            invariant
                closed_up(unclosed) == closed_up(open@),
                forall|j: int| 0 <= j < open@.len() ==> (#[trigger] open@[j]).level <= DEEPEST,
            decreases open@.len(),
        {
            let ghost longer = open@;
            open.pop();
            assert(open@ =~= longer.drop_last());
        }
        assert(open@ == open_after(before, element, level as int));
        i += 1;
    }
    true
}

/// Whether metadata can be handed to the decoder.
pub fn is_decodable(bytes: &[u8]) -> (fit: bool)
    ensures
        fit == decodable(bytes@),
{
    let mut elements: Vec<Element> = Vec::new();
    match skip_fields(bytes, 0, Record::File, &mut elements) {
        Step::Endless => false,
        _ => elements_fit(&elements),
    }
}

} // verus!

//! What holds of the walk over the metadata of a Parquet file.
use vstd::prelude::*;

use crate::metadata_walk::are_high_bytes;
use crate::metadata_walk::closed_up;
use crate::metadata_walk::decodable;
use crate::metadata_walk::field_kind;
use crate::metadata_walk::level_below;
use crate::metadata_walk::levels_fit;
use crate::metadata_walk::no_element;
use crate::metadata_walk::noted;
use crate::metadata_walk::number_end;
use crate::metadata_walk::number_value;
use crate::metadata_walk::open_after;
use crate::metadata_walk::rank;
use crate::metadata_walk::read_head;
use crate::metadata_walk::read_list_head;
use crate::metadata_walk::read_number;
use crate::metadata_walk::read_text;
use crate::metadata_walk::walk_fields;
use crate::metadata_walk::walk_items;
use crate::metadata_walk::walk_value;
use crate::metadata_walk::zigzag;
use crate::metadata_walk::Element;
use crate::metadata_walk::Head;
use crate::metadata_walk::Kind;
use crate::metadata_walk::ListHead;
use crate::metadata_walk::OpenGroup;
use crate::metadata_walk::Record;
use crate::metadata_walk::Step;

verus! {

/// A number ends behind its first byte below 0x80. It is too long just where 613,566,757
/// bytes of 0x80 and above stand at its front.
pub proof fn law_number_ends_at_its_first_low_byte(bytes: Seq<u8>, pos: int, end: int)
    requires
        0 <= pos <= end < bytes.len(),
        forall|i: int| pos <= i < end ==> #[trigger] bytes[i] >= 0x80,
        bytes[end] < 0x80,
    ensures
        number_end(bytes, pos) == Step::At(end + 1),
        end - pos < 613_566_757 ==> read_number(bytes, pos) == Step::At(end + 1),
        end - pos >= 613_566_757 ==> read_number(bytes, pos) is Endless,
    decreases end - pos,
{
    if pos < end {
        assert(bytes[pos] >= 0x80);
        lemma_number_end(bytes, pos, end);
    }
}

proof fn lemma_number_end(bytes: Seq<u8>, pos: int, end: int)
    requires
        0 <= pos <= end < bytes.len(),
        forall|i: int| pos <= i < end ==> #[trigger] bytes[i] >= 0x80,
        bytes[end] < 0x80,
    ensures
        number_end(bytes, pos) == Step::At(end + 1),
    decreases end - pos,
{
    if pos < end {
        assert(bytes[pos] >= 0x80);
        lemma_number_end(bytes, pos + 1, end);
    }
}

/// Bytes that run out before a number has ended give none.
pub proof fn law_number_without_end_is_none(bytes: Seq<u8>, pos: int)
    requires
        0 <= pos <= bytes.len(),
        forall|i: int| pos <= i < bytes.len() ==> #[trigger] bytes[i] >= 0x80,
    ensures
        number_end(bytes, pos) is Short,
        bytes.len() - pos < 613_566_757 ==> read_number(bytes, pos) is Short,
        bytes.len() - pos >= 613_566_757 ==> read_number(bytes, pos) is Endless,
    decreases bytes.len() - pos,
{
    if pos < bytes.len() {
        assert(bytes[pos] >= 0x80);
        lemma_number_without_end(bytes, pos);
    }
}

proof fn lemma_number_without_end(bytes: Seq<u8>, pos: int)
    requires
        0 <= pos <= bytes.len(),
        forall|i: int| pos <= i < bytes.len() ==> #[trigger] bytes[i] >= 0x80,
    ensures
        number_end(bytes, pos) is Short,
    decreases bytes.len() - pos,
{
    if pos < bytes.len() {
        assert(bytes[pos] >= 0x80);
        lemma_number_without_end(bytes, pos + 1);
    }
}

/// A number of one byte is that byte, and one of two bytes counts the second 128 times.
/// Even numbers stand for the numbers from zero up, odd ones for those below.
pub proof fn law_numbers_have_seven_bits_a_byte(bytes: Seq<u8>, pos: int, n: u64)
    requires
        0 <= pos,
        pos + 1 < bytes.len(),
        n <= 0x7fff_ffff_ffff_ffff,
    ensures
        bytes[pos] < 0x80 ==> number_value(bytes, pos, 1) == bytes[pos],
        bytes[pos] >= 0x80 && bytes[pos + 1] < 0x80 ==> number_value(bytes, pos, 2) == bytes[pos]
            - 0x80 + 0x80 * bytes[pos + 1],
        zigzag((2 * n) as u64) == n,
        zigzag((2 * n + 1) as u64) == -1 - n,
{
    let a = bytes[pos];
    let b = bytes[pos + 1];
    reveal_with_fuel(number_value, 3);
    assert(a < 0x80 ==> (0u64 | (((a & 0x7f) as u64) << 0u64)) == a) by (bit_vector);
    assert(a >= 0x80 && b < 0x80 ==> ((0u64 | (((a & 0x7f) as u64) << 0u64)) | (((b & 0x7f) as u64)
        << 7u64)) == a - 0x80 + 0x80 * b) by (bit_vector);
}

/// A field counts its id from the one before it, or gives it as a number. A byte whose
/// lower half is zero ends the record.
pub proof fn law_field_counts_from_the_one_before(bytes: Seq<u8>, pos: int, last: i16, delta: u8, declared: u8)
    requires
        0 <= pos < bytes.len(),
        bytes[pos] == 16 * delta + declared,
        declared < 16,
    ensures
        declared == 0 ==> read_head(bytes, pos, last) == Head::End(pos + 1),
        declared > 13 ==> read_head(bytes, pos, last) is Short,
        1 <= declared <= 13 && delta > 0 && last + delta <= i16::MAX ==> read_head(
            bytes,
            pos,
            last,
        ) == (Head::Field { id: (last + delta) as i16, declared, at: pos + 1 }),
{
    assert(bytes[pos] / 16 == delta);
    assert(bytes[pos] % 16 == declared);
}

/// A list of fewer than 15 items tells their number and kind in one byte.
pub proof fn law_short_list_tells_its_length(bytes: Seq<u8>, pos: int, count: u8, declared: u8)
    requires
        0 <= pos < bytes.len(),
        count < 15,
        1 <= declared <= 13,
        bytes[pos] == 16 * count + declared,
    ensures
        read_list_head(bytes, pos) == (ListHead::Items {
            count: count as u64,
            declared,
            at: pos + 1,
        }),
{
    assert(bytes[pos] / 16 == count);
    assert(bytes[pos] % 16 == declared);
}

/// A text of fewer than 128 bytes takes a byte for its length, and then its bytes,
/// whatever they are.
pub proof fn law_text_is_as_long_as_it_says(bytes: Seq<u8>, pos: int)
    requires
        0 <= pos < bytes.len(),
        bytes[pos] < 0x80,
    ensures
        pos + 1 + bytes[pos] <= bytes.len() ==> read_text(bytes, pos) == Step::At(
            pos + 1 + bytes[pos],
        ),
        pos + 1 + bytes[pos] > bytes.len() ==> read_text(bytes, pos) is Short,
{
    let a = bytes[pos];
    reveal_with_fuel(number_value, 2);
    assert(a < 0x80 ==> (0u64 | (((a & 0x7f) as u64) << 0u64)) == a) by (bit_vector);
    assert(number_value(bytes, pos, 1) == a);
}

/// Only two fields of an element of a schema are noted: how often it occurs, and how many
/// children it has.
pub proof fn law_element_is_noted_by_two_fields(
    bytes: Seq<u8>,
    element: Element,
    record: Record,
    id: i16,
    at: int,
    end: int,
)
    ensures
        record is Element && id == 3 ==> noted(bytes, element, record, id, at, end) == (Element {
            repetition: Some(zigzag(number_value(bytes, at, (end - at) as nat)) as i32),
            children: element.children,
        }),
        record is Element && id == 5 ==> noted(bytes, element, record, id, at, end) == (Element {
            repetition: element.repetition,
            children: Some(zigzag(number_value(bytes, at, (end - at) as nat)) as i32),
        }),
        !(record is Element) || (id != 3 && id != 5) ==> noted(
            bytes,
            element,
            record,
            id,
            at,
            end,
        ) == element,
{
}

/// A number that is too long stops the walk wherever it is read: in the fields of a record
/// and in the items of a list.
pub proof fn law_endless_number_stops_the_walk(
    bytes: Seq<u8>,
    pos: int,
    record: Record,
    last: i16,
    element: Element,
    seen: Seq<Element>,
    kind: Kind,
    count: u64,
)
    requires
        0 <= pos <= bytes.len(),
        count > 0,
    ensures
        read_number(bytes, pos) is Endless ==> walk_value(bytes, pos, Kind::Number, seen).0
            is Endless,
        read_number(bytes, pos) is Endless ==> walk_value(bytes, pos, Kind::Text, seen).0
            is Endless,
        walk_value(bytes, pos, kind, seen).0 is Endless ==> walk_items(
            bytes,
            pos,
            kind,
            count,
            seen,
        ).0 is Endless,
        read_head(bytes, pos, last) matches Head::Field { id, declared, at } ==> pos < at
            <= bytes.len() && walk_value(bytes, at, field_kind(record, id, declared), seen).0
            is Endless ==> walk_fields(bytes, pos, record, last, element, seen).0 is Endless,
        walk_fields(bytes, 0, Record::File, 0, no_element(), Seq::empty()).0 is Endless
            ==> !decodable(bytes),
{
}

/// Whether no number can be too long.
spec fn has_no_run(bytes: Seq<u8>) -> bool {
    forall|start: int| !#[trigger] are_high_bytes(bytes, start, 613_566_757)
}

/// The lemma for values, with those for items and fields: without a run of high bytes no
/// walk is endless, and each byte of the walk notes one element at most.
proof fn lemma_value(bytes: Seq<u8>, pos: int, kind: Kind, seen: Seq<Element>)
    requires
        0 <= pos <= bytes.len(),
        has_no_run(bytes),
    ensures
        !(walk_value(bytes, pos, kind, seen).0 is Endless),
        walk_value(bytes, pos, kind, seen).1.len() <= seen.len() + bytes.len() - pos,
        walk_value(bytes, pos, kind, seen).0 matches Step::At(end) ==> pos <= end <= bytes.len()
            && walk_value(bytes, pos, kind, seen).1.len() <= seen.len() + end - pos,
    decreases bytes.len() - pos, rank(kind),
{
    lemma_numbers_end(bytes, pos);
    lemma_list_head(bytes, pos);
    match kind {
        Kind::One(record) => {
            lemma_fields(bytes, pos, record, 0, no_element(), seen);
        },
        Kind::Records(record) => {
            if let ListHead::Items { count, declared, at } = read_list_head(bytes, pos) {
                lemma_items(bytes, at, Kind::One(record), count, seen);
            }
        },
        Kind::Numbers => {
            if let ListHead::Items { count, declared, at } = read_list_head(bytes, pos) {
                lemma_items(bytes, at, Kind::Number, count, seen);
            }
        },
        Kind::Pair(key, value, depth) => {
            let first = Kind::Declared(key, depth);
            lemma_value(bytes, pos, first, seen);
            let (step, then) = walk_value(bytes, pos, first, seen);
            if let Step::At(at) = step {
                lemma_value(bytes, at, Kind::Declared(value, depth), then);
            }
        },
        Kind::Declared(declared, depth) => {
            if depth > 0 {
                if declared == 9 || declared == 10 {
                    if let ListHead::Items { count, declared, at } = read_list_head(bytes, pos) {
                        lemma_items(
                            bytes,
                            at,
                            Kind::Declared(declared, (depth - 1) as u8),
                            count,
                            seen,
                        );
                    }
                } else if declared == 11 {
                    if let Step::At(at) = read_number(bytes, pos) {
                        if at < bytes.len() {
                            let count = number_value(bytes, pos, (at - pos) as nat);
                            lemma_items(
                                bytes,
                                at + 1,
                                Kind::Pair(bytes[at] / 16, bytes[at] % 16, (depth - 1) as u8),
                                count,
                                seen,
                            );
                        }
                    }
                } else if declared == 12 {
                    lemma_fields(bytes, pos, Record::Unknown(depth), 0, no_element(), seen);
                }
            }
        },
        _ => {},
    }
}

proof fn lemma_items(bytes: Seq<u8>, pos: int, kind: Kind, count: u64, seen: Seq<Element>)
    requires
        0 <= pos <= bytes.len(),
        has_no_run(bytes),
    ensures
        !(walk_items(bytes, pos, kind, count, seen).0 is Endless),
        walk_items(bytes, pos, kind, count, seen).1.len() <= seen.len() + bytes.len() - pos,
        walk_items(bytes, pos, kind, count, seen).0 matches Step::At(end) ==> pos <= end
            <= bytes.len() && walk_items(bytes, pos, kind, count, seen).1.len() <= seen.len() + end
            - pos,
    decreases bytes.len() - pos, 4nat,
{
    if count > 0 {
        lemma_value(bytes, pos, kind, seen);
        let (step, then) = walk_value(bytes, pos, kind, seen);
        if let Step::At(at) = step {
            if pos < at {
                lemma_items(bytes, at, kind, (count - 1) as u64, then);
            }
        }
    }
}

proof fn lemma_fields(
    bytes: Seq<u8>,
    pos: int,
    record: Record,
    last: i16,
    element: Element,
    seen: Seq<Element>,
)
    requires
        0 <= pos <= bytes.len(),
        has_no_run(bytes),
    ensures
        !(walk_fields(bytes, pos, record, last, element, seen).0 is Endless),
        walk_fields(bytes, pos, record, last, element, seen).1.len() <= seen.len() + bytes.len()
            - pos,
        walk_fields(bytes, pos, record, last, element, seen).0 matches Step::At(end) ==> pos <= end
            <= bytes.len() && walk_fields(bytes, pos, record, last, element, seen).1.len()
            <= seen.len() + end - pos,
    decreases bytes.len() - pos, 1nat,
{
    if pos < bytes.len() {
        lemma_numbers_end(bytes, pos + 1);
    }
    if let Head::Field { id, declared, at } = read_head(bytes, pos, last) {
        if pos < at <= bytes.len() {
            let kind = field_kind(record, id, declared);
            lemma_value(bytes, at, kind, seen);
            let (step, then) = walk_value(bytes, at, kind, seen);
            if let Step::At(end) = step {
                lemma_fields(
                    bytes,
                    end,
                    crate::metadata_walk::next_record(record, id),
                    crate::metadata_walk::next_last(record, id),
                    noted(bytes, element, record, id, at, end),
                    then,
                );
            }
        }
    }
}

/// A number that is read ends within the bytes, and is not endless without a run.
proof fn lemma_numbers_end(bytes: Seq<u8>, pos: int)
    requires
        0 <= pos <= bytes.len(),
        has_no_run(bytes),
    ensures
        !(read_number(bytes, pos) is Endless),
        read_number(bytes, pos) matches Step::At(end) ==> pos < end <= bytes.len(),
        !(number_end(bytes, pos) is Endless),
        number_end(bytes, pos) matches Step::At(end) ==> pos < end <= bytes.len(),
{
    lemma_end_of_number(bytes, pos);
    assert(!are_high_bytes(bytes, pos, 613_566_757));
}

proof fn lemma_end_of_number(bytes: Seq<u8>, pos: int)
    requires
        0 <= pos <= bytes.len(),
    ensures
        !(number_end(bytes, pos) is Endless),
        number_end(bytes, pos) matches Step::At(end) ==> pos < end <= bytes.len(),
    decreases bytes.len() - pos,
{
    if pos < bytes.len() && bytes[pos] >= 0x80 {
        lemma_end_of_number(bytes, pos + 1);
    }
}

proof fn lemma_list_head(bytes: Seq<u8>, pos: int)
    requires
        0 <= pos <= bytes.len(),
        has_no_run(bytes),
    ensures
        !(read_list_head(bytes, pos) is Endless),
        read_list_head(bytes, pos) matches ListHead::Items { count, declared, at } ==> pos < at
            <= bytes.len(),
{
    if pos < bytes.len() {
        lemma_numbers_end(bytes, pos + 1);
    }
}

proof fn lemma_closed_up(open: Seq<OpenGroup>, most: int)
    requires
        forall|j: int| 0 <= j < open.len() ==> (#[trigger] open[j]).level <= most,
    ensures
        forall|j: int| 0 <= j < closed_up(open).len() ==> (#[trigger] closed_up(open)[j]).level
            <= most,
    decreases open.len(),
{
    if open.len() > 0 && open.last().left <= 0 {
        assert forall|j: int| 0 <= j < open.drop_last().len() implies (
        #[trigger] open.drop_last()[j]).level <= most by {
            assert(open[j].level <= most);
        }
        lemma_closed_up(open.drop_last(), most);
        assert(closed_up(open) == closed_up(open.drop_last()));
    } else {
        assert(closed_up(open) == open);
    }
}

proof fn lemma_levels(elements: Seq<Element>, open: Seq<OpenGroup>)
    requires
        elements.len() <= 32767,
        forall|j: int|
            0 <= j < open.len() ==> (#[trigger] open[j]).level + elements.len() <= 32767,
    ensures
        levels_fit(elements, open),
    decreases elements.len(),
{
    if elements.len() > 0 {
        let element = elements[0];
        let level = level_below(open, element);
        let most = 32767 - elements.len() + 1;
        let outer = if open.len() == 0 {
            open
        } else {
            open.drop_last().push(
                OpenGroup { left: (open.last().left - 1) as i32, level: open.last().level },
            )
        };
        assert(open.len() > 0 ==> open[open.len() - 1].level + elements.len() <= 32767);
        assert(level <= most);
        assert forall|j: int| 0 <= j < outer.len() implies (#[trigger] outer[j]).level <= most by {
            assert(open[j].level + elements.len() <= 32767);
        }
        lemma_closed_up(outer, most);
        let pushed = outer.push(
            OpenGroup { left: element.children.unwrap_or(0), level: level as u32 },
        );
        lemma_closed_up(pushed, most);
        let after = open_after(open, element, level);
        lemma_levels(elements.drop_first(), after);
    }
}

/// Metadata is refused for two faults only. It can be decoded wherever no 613,566,757
/// bytes in a row are 0x80 or above, and no more than 32,767 elements of a schema are
/// found.
pub proof fn law_metadata_is_refused_for_two_faults_only(bytes: Seq<u8>)
    requires
        forall|start: int|
            #![trigger bytes[start]]
            0 <= start <= bytes.len() - 613_566_757 ==> exists|i: int|
                start <= i < start + 613_566_757 && #[trigger] bytes[i] < 0x80,
        walk_fields(bytes, 0, Record::File, 0, no_element(), Seq::empty()).1.len() <= 32767,
    ensures
        decodable(bytes),
{
    assert forall|start: int| !#[trigger] are_high_bytes(bytes, start, 613_566_757) by {
        if are_high_bytes(bytes, start, 613_566_757) {
            assert(bytes[start] >= 0x80);
            let i = choose|i: int|
                start <= i < start + 613_566_757 && #[trigger] bytes[i] < 0x80;
            assert(bytes[i] >= 0x80);
        }
    }
    lemma_fields(bytes, 0, Record::File, 0, no_element(), seq![]);
    lemma_levels(walk_fields(bytes, 0, Record::File, 0, no_element(), seq![]).1, seq![]);
}

/// Where no 613,566,757 bytes in a row are 0x80 or above, the schema alone decides, however
/// many elements it has.
pub proof fn law_schema_decides_without_endless_numbers(bytes: Seq<u8>, elements: Seq<Element>)
    requires
        forall|start: int|
            #![trigger bytes[start]]
            0 <= start <= bytes.len() - 613_566_757 ==> exists|i: int|
                start <= i < start + 613_566_757 && #[trigger] bytes[i] < 0x80,
        elements == walk_fields(bytes, 0, Record::File, 0, no_element(), Seq::empty()).1,
    ensures
        decodable(bytes) <==> levels_fit(elements, Seq::empty()),
        elements.len() <= bytes.len(),
{
    assert forall|start: int| !#[trigger] are_high_bytes(bytes, start, 613_566_757) by {
        if are_high_bytes(bytes, start, 613_566_757) {
            assert(bytes[start] >= 0x80);
            let i = choose|i: int|
                start <= i < start + 613_566_757 && #[trigger] bytes[i] < 0x80;
            assert(bytes[i] >= 0x80);
        }
    }
    lemma_fields(bytes, 0, Record::File, 0, no_element(), seq![]);
}

/// Metadata of fewer than 613,566,757 bytes is refused for its schema only.
pub proof fn law_metadata_is_refused_for_its_schema_only(bytes: Seq<u8>)
    requires
        bytes.len() < 613_566_757,
        walk_fields(bytes, 0, Record::File, 0, no_element(), Seq::empty()).1.len() <= 32767,
    ensures
        decodable(bytes),
{
    lemma_fields(bytes, 0, Record::File, 0, no_element(), seq![]);
    lemma_levels(walk_fields(bytes, 0, Record::File, 0, no_element(), seq![]).1, seq![]);
}

/// Metadata of no more than 32,767 bytes can always be decoded, whatever the bytes are.
pub proof fn law_short_metadata_is_never_refused(bytes: Seq<u8>)
    requires
        bytes.len() <= 32767,
    ensures
        decodable(bytes),
{
    lemma_fields(bytes, 0, Record::File, 0, no_element(), seq![]);
    law_metadata_is_refused_for_two_faults_only(bytes);
}

/// The outermost element of a schema has level zero. Below a group an element has the level
/// of the group, and one more where it is optional or repeated. No level goes beyond
/// 32,767.
pub proof fn law_optional_and_repeated_elements_add_a_level(
    open: Seq<OpenGroup>,
    element: Element,
    rest: Seq<Element>,
)
    ensures
        level_below(Seq::<OpenGroup>::empty(), element) == 0,
        open.len() > 0 && (element.repetition == Some(1i32) || element.repetition == Some(2i32))
            ==> level_below(open, element) == open.last().level + 1,
        open.len() > 0 && element.repetition != Some(1i32) && element.repetition != Some(2i32)
            ==> level_below(open, element) == open.last().level,
        levels_fit(Seq::<Element>::empty(), open),
        levels_fit(seq![element] + rest, open) <==> level_below(open, element) <= 32767
            && levels_fit(rest, open_after(open, element, level_below(open, element))),
{
    assert((seq![element] + rest).drop_first() =~= rest);
    assert((seq![element] + rest)[0] == element);
}

/// An element without children takes one from those that its group waits for, and changes
/// no level. An element with children opens a group at its own level. A group that waits
/// for no more is closed.
pub proof fn law_groups_open_and_close(
    open: Seq<OpenGroup>,
    group: OpenGroup,
    element: Element,
    level: u32,
    children: i32,
)
    requires
        group.left > 0,
        open.len() > 0 ==> open.last().left > 0,
        children > 0,
    ensures
        !(element.children matches Some(n) && n > 0) && group.left > 1 ==> open_after(
            open.push(group),
            element,
            level as int,
        ) == open.push(OpenGroup { left: (group.left - 1) as i32, level: group.level }),
        !(element.children matches Some(n) && n > 0) && group.left == 1 ==> open_after(
            open.push(group),
            element,
            level as int,
        ) == open,
        element.children == Some(children) ==> open_after(open.push(group), element, level as int)
            == open.push(OpenGroup { left: (group.left - 1) as i32, level: group.level }).push(
            OpenGroup { left: children, level },
        ),
        element.children == Some(children) ==> open_after(
            Seq::<OpenGroup>::empty(),
            element,
            level as int,
        ) == seq![OpenGroup { left: children, level }],
{
    let waiting = OpenGroup { left: (group.left - 1) as i32, level: group.level };
    assert(open.push(group).drop_last() =~= open);
    assert(open.push(waiting).drop_last() =~= open);
    assert(closed_up(open) == open);
    assert(closed_up(open.push(waiting)) == if group.left == 1 {
        open
    } else {
        open.push(waiting)
    });
}

/// A chain of optional and repeated groups that is too deep is refused: where each of more
/// than 32,768 elements has one child, and all but the first add a level.
pub proof fn law_chain_that_is_too_deep_is_refused(elements: Seq<Element>)
    requires
        elements.len() > 32768,
        forall|i: int|
            0 <= i < elements.len() ==> (#[trigger] elements[i]).children == Some(1i32),
        forall|i: int|
            0 < i < elements.len() ==> (#[trigger] elements[i]).repetition == Some(1i32)
                || elements[i].repetition == Some(2i32),
    ensures
        !levels_fit(elements, Seq::empty()),
{
    let root = elements[0];
    let rest = elements.drop_first();
    let open = open_after(seq![], root, 0);
    assert(open =~= seq![OpenGroup { left: 1, level: 0 }]);
    assert forall|i: int| 0 <= i < rest.len() implies (#[trigger] rest[i]).children == Some(1i32)
        && (rest[i].repetition == Some(1i32) || rest[i].repetition == Some(2i32)) by {
        assert(elements[i + 1].children == Some(1i32));
    }
    lemma_chain(rest, open);
}

proof fn lemma_chain(elements: Seq<Element>, open: Seq<OpenGroup>)
    requires
        open.len() > 0,
        open.last().left == 1,
        open.last().level + elements.len() > 32767,
        forall|i: int|
            0 <= i < elements.len() ==> (#[trigger] elements[i]).children == Some(1i32) && (
            elements[i].repetition == Some(1i32) || elements[i].repetition == Some(2i32)),
        open.last().level <= 32767,
    ensures
        !levels_fit(elements, open),
    decreases elements.len(),
{
    let element = elements[0];
    assert(element.children == Some(1i32));
    let level = level_below(open, element);
    if level <= 32767 {
        let after = open_after(open, element, level);
        assert(after.last() == OpenGroup { left: 1, level: level as u32 });
        assert forall|i: int| 0 <= i < elements.drop_first().len() implies (
        #[trigger] elements.drop_first()[i]).children == Some(1i32) && (
        elements.drop_first()[i].repetition == Some(1i32) || elements.drop_first()[i].repetition
            == Some(2i32)) by {
            assert(elements[i + 1].children == Some(1i32));
        }
        lemma_chain(elements.drop_first(), after);
    }
}

/// Whether a value holds no schema.
spec fn is_apart(kind: Kind) -> bool {
    match kind {
        Kind::One(record) => !(record is File) && !(record is Element),
        Kind::Records(record) => !(record is File) && !(record is Element),
        _ => true,
    }
}

proof fn lemma_apart_value(bytes: Seq<u8>, pos: int, kind: Kind, seen: Seq<Element>)
    requires
        is_apart(kind),
    ensures
        walk_value(bytes, pos, kind, seen).1 == seen,
    decreases bytes.len() - pos, rank(kind),
{
    if 0 <= pos <= bytes.len() {
        match kind {
            Kind::One(record) => {
                lemma_apart_fields(bytes, pos, record, 0, no_element(), seen);
            },
            Kind::Records(record) => {
                if let ListHead::Items { count, declared, at } = read_list_head(bytes, pos) {
                    if pos < at <= bytes.len() {
                        lemma_apart_items(bytes, at, Kind::One(record), count, seen);
                    }
                }
            },
            Kind::Numbers => {
                if let ListHead::Items { count, declared, at } = read_list_head(bytes, pos) {
                    if pos < at <= bytes.len() {
                        lemma_apart_items(bytes, at, Kind::Number, count, seen);
                    }
                }
            },
            Kind::Pair(key, value, depth) => {
                let first = Kind::Declared(key, depth);
                lemma_apart_value(bytes, pos, first, seen);
                if let Step::At(at) = walk_value(bytes, pos, first, seen).0 {
                    if pos <= at <= bytes.len() {
                        lemma_apart_value(bytes, at, Kind::Declared(value, depth), seen);
                    }
                }
            },
            Kind::Declared(declared, depth) => {
                if depth > 0 {
                    if declared == 9 || declared == 10 {
                        if let ListHead::Items { count, declared, at } = read_list_head(
                            bytes,
                            pos,
                        ) {
                            if pos < at <= bytes.len() {
                                lemma_apart_items(
                                    bytes,
                                    at,
                                    Kind::Declared(declared, (depth - 1) as u8),
                                    count,
                                    seen,
                                );
                            }
                        }
                    } else if declared == 11 {
                        if let Step::At(at) = read_number(bytes, pos) {
                            if pos < at < bytes.len() {
                                let count = number_value(bytes, pos, (at - pos) as nat);
                                lemma_apart_items(
                                    bytes,
                                    at + 1,
                                    Kind::Pair(bytes[at] / 16, bytes[at] % 16, (depth - 1) as u8),
                                    count,
                                    seen,
                                );
                            }
                        }
                    } else if declared == 12 {
                        lemma_apart_fields(
                            bytes,
                            pos,
                            Record::Unknown(depth),
                            0,
                            no_element(),
                            seen,
                        );
                    }
                }
            },
            _ => {},
        }
    }
}

proof fn lemma_apart_items(bytes: Seq<u8>, pos: int, kind: Kind, count: u64, seen: Seq<Element>)
    requires
        is_apart(kind),
    ensures
        walk_items(bytes, pos, kind, count, seen).1 == seen,
    decreases bytes.len() - pos, 4nat,
{
    if count > 0 {
        lemma_apart_value(bytes, pos, kind, seen);
        if let Step::At(at) = walk_value(bytes, pos, kind, seen).0 {
            if pos < at <= bytes.len() {
                lemma_apart_items(bytes, at, kind, (count - 1) as u64, seen);
            }
        }
    }
}

proof fn lemma_apart_fields(
    bytes: Seq<u8>,
    pos: int,
    record: Record,
    last: i16,
    element: Element,
    seen: Seq<Element>,
)
    requires
        !(record is File),
    ensures
        !(record is Element) ==> walk_fields(bytes, pos, record, last, element, seen).1 == seen,
        record is Element ==> walk_fields(bytes, pos, record, last, element, seen).1 == seen || (
        walk_fields(bytes, pos, record, last, element, seen).0 is At && walk_fields(
            bytes,
            pos,
            record,
            last,
            element,
            seen,
        ).1.drop_last() == seen && walk_fields(bytes, pos, record, last, element, seen).1.len()
            == seen.len() + 1),
    decreases bytes.len() - pos, 1nat,
{
    match read_head(bytes, pos, last) {
        Head::Field { id, declared, at } => {
            if pos < at <= bytes.len() {
                let kind = field_kind(record, id, declared);
                assert(is_apart(kind));
                lemma_apart_value(bytes, at, kind, seen);
                if let Step::At(end) = walk_value(bytes, at, kind, seen).0 {
                    if pos < end <= bytes.len() {
                        lemma_apart_fields(
                            bytes,
                            end,
                            crate::metadata_walk::next_record(record, id),
                            crate::metadata_walk::next_last(record, id),
                            noted(bytes, element, record, id, at, end),
                            seen,
                        );
                    }
                }
            }
        },
        _ => {
            assert(seen.push(element).drop_last() =~= seen);
        },
    }
}

/// Elements are noted of a schema only: a row group, statistics or any other record adds
/// none. An element of a schema adds one, itself, and a schema of `count` elements no more
/// than `count`.
pub proof fn law_only_elements_of_a_schema_are_noted(
    bytes: Seq<u8>,
    pos: int,
    record: Record,
    last: i16,
    element: Element,
    seen: Seq<Element>,
    count: u64,
)
    requires
        !(record is File),
        !(record is Element),
    ensures
        walk_fields(bytes, pos, record, last, element, seen).1 == seen,
        walk_fields(bytes, pos, Record::Element, last, element, seen).1.len() <= seen.len() + 1,
        walk_items(bytes, pos, Kind::One(Record::Element), count, seen).1.len() <= seen.len()
            + count,
    decreases bytes.len() - pos,
{
    lemma_apart_fields(bytes, pos, record, last, element, seen);
    lemma_apart_fields(bytes, pos, Record::Element, last, element, seen);
    lemma_apart_fields(bytes, pos, Record::Element, 0, no_element(), seen);
    if count > 0 {
        let (step, then) = walk_value(bytes, pos, Kind::One(Record::Element), seen);
        if let Step::At(at) = step {
            if pos < at <= bytes.len() {
                law_only_elements_of_a_schema_are_noted(
                    bytes,
                    at,
                    record,
                    last,
                    element,
                    then,
                    (count - 1) as u64,
                );
            }
        }
    }
}

/// The walk goes from field to field. Behind a field whose value has an end it goes on
/// there, with the id of that field to count from, and with what the field says of an
/// element. Within metadata, what follows the schema is read as metadata that has one.
pub proof fn law_walk_goes_on_behind_each_field(
    bytes: Seq<u8>,
    pos: int,
    record: Record,
    last: i16,
    element: Element,
    seen: Seq<Element>,
    id: i16,
    declared: u8,
    at: int,
    end: int,
    then: Seq<Element>,
)
    requires
        0 <= pos < at <= end <= bytes.len(),
        read_head(bytes, pos, last) == (Head::Field { id, declared, at }),
        walk_value(bytes, at, field_kind(record, id, declared), seen) == (
            Step::<int>::At(end),
            then,
        ),
    ensures
        !(record is Unknown) && !(record is File) ==> walk_fields(
            bytes,
            pos,
            record,
            last,
            element,
            seen,
        ) == walk_fields(
            bytes,
            end,
            record,
            id,
            noted(bytes, element, record, id, at, end),
            then,
        ),
        record is Unknown ==> walk_fields(bytes, pos, record, last, element, seen) == walk_fields(
            bytes,
            end,
            record,
            0,
            element,
            then,
        ),
        record is File && id != 2 ==> walk_fields(bytes, pos, record, last, element, seen)
            == walk_fields(bytes, end, Record::File, id, element, then),
        record is File && id == 2 ==> walk_fields(bytes, pos, record, last, element, seen)
            == walk_fields(bytes, end, Record::FileWithSchema, id, element, then),
{
}

/// A record ends where a field would have no kind. An element of a schema is then noted,
/// behind those before it.
pub proof fn law_element_is_noted_at_its_end(
    bytes: Seq<u8>,
    pos: int,
    record: Record,
    last: i16,
    element: Element,
    seen: Seq<Element>,
)
    requires
        0 <= pos < bytes.len(),
        bytes[pos] == 0,
    ensures
        walk_fields(bytes, pos, Record::Element, last, element, seen) == (
            Step::<int>::At(pos + 1),
            seen.push(element),
        ),
        !(record is Element) ==> walk_fields(bytes, pos, record, last, element, seen) == (
            Step::<int>::At(pos + 1),
            seen,
        ),
{
}

/// The items of a list are walked over one after the other.
pub proof fn law_walk_goes_on_behind_each_item(
    bytes: Seq<u8>,
    pos: int,
    kind: Kind,
    count: u64,
    seen: Seq<Element>,
    end: int,
    then: Seq<Element>,
)
    requires
        0 <= pos < end <= bytes.len(),
        count > 0,
        walk_value(bytes, pos, kind, seen) == (Step::<int>::At(end), then),
    ensures
        walk_items(bytes, pos, kind, count, seen) == walk_items(
            bytes,
            end,
            kind,
            (count - 1) as u64,
            then,
        ),
        walk_items(bytes, pos, kind, 0, seen) == (Step::<int>::At(pos), seen),
{
}

/// A list of records is walked over record by record behind its head, a list of numbers
/// number by number, and a record field by field.
pub proof fn law_values_are_walked_over_by_their_kind(
    bytes: Seq<u8>,
    pos: int,
    record: Record,
    seen: Seq<Element>,
    count: u64,
    declared: u8,
    at: int,
)
    requires
        0 <= pos < at <= bytes.len(),
        read_list_head(bytes, pos) == (ListHead::Items { count, declared, at }),
    ensures
        walk_value(bytes, pos, Kind::Records(record), seen) == walk_items(
            bytes,
            at,
            Kind::One(record),
            count,
            seen,
        ),
        walk_value(bytes, pos, Kind::Numbers, seen) == walk_items(
            bytes,
            at,
            Kind::Number,
            count,
            seen,
        ),
        walk_value(bytes, pos, Kind::One(record), seen) == walk_fields(
            bytes,
            pos,
            record,
            0,
            Element { repetition: None, children: None },
            seen,
        ),
        walk_value(bytes, pos, Kind::Flag, seen) == (Step::<int>::At(pos), seen),
        walk_value(bytes, pos, Kind::OneByte, seen) == (Step::<int>::At(pos + 1), seen),
        walk_value(bytes, pos, Kind::Number, seen) == (read_number(bytes, pos), seen),
        walk_value(bytes, pos, Kind::Text, seen) == (read_text(bytes, pos), seen),
        pos + 8 <= bytes.len() ==> walk_value(bytes, pos, Kind::Double, seen) == (
            Step::<int>::At(pos + 8),
            seen,
        ),
{
}

/// Where the schema stands in metadata, and where its elements say how they are nested.
/// Fields that are not known are skipped as what they declare themselves to be.
pub proof fn law_schema_is_the_second_field_of_metadata(id: i16, declared: u8)
    ensures
        field_kind(Record::File, 1, declared) == Kind::Number,
        field_kind(Record::File, 2, declared) == Kind::Records(Record::Element),
        field_kind(Record::File, 3, declared) == Kind::Number,
        field_kind(Record::File, 4, declared) == Kind::Records(Record::RowGroup),
        field_kind(Record::File, 5, declared) == Kind::Records(Record::KeyValue),
        field_kind(Record::File, 6, declared) == Kind::Text,
        id != 2 ==> field_kind(Record::FileWithSchema, id, declared) == field_kind(
            Record::File,
            id,
            declared,
        ),
        field_kind(Record::FileWithSchema, 2, declared) == Kind::Declared(declared, 64),
        field_kind(Record::Element, 3, declared) == Kind::Number,
        field_kind(Record::Element, 4, declared) == Kind::Text,
        field_kind(Record::Element, 5, declared) == Kind::Number,
        field_kind(Record::RowGroup, 1, declared) == Kind::Records(Record::ColumnChunk),
        field_kind(Record::ColumnChunk, 3, declared) == Kind::One(Record::ColumnMeta),
        field_kind(Record::ColumnMeta, 12, declared) == Kind::One(Record::Statistics),
        id < 1 || id > 19 ==> field_kind(Record::File, id, declared) == Kind::Declared(
            declared,
            64,
        ) && field_kind(Record::Element, id, declared) == Kind::Declared(declared, 64)
            && field_kind(Record::ColumnMeta, id, declared) == Kind::Declared(declared, 64),
{
}

/// Each further byte of a number adds its seven lower bits above those before it, and bits
/// that go beyond 64 come round to the front.
pub proof fn law_each_byte_adds_seven_bits(bytes: Seq<u8>, pos: int, n: nat)
    requires
        0 <= pos,
        pos + n < bytes.len(),
    ensures
        number_value(bytes, pos, 0) == 0,
        number_value(bytes, pos, n + 1) == number_value(bytes, pos, n) | (((bytes[pos + n]
            & 0x7f) as u64) << (((7 * n) % 64) as u64)),
{
}

/// What is skipped is skipped as what it declares itself to be: flags take no bytes, numbers
/// end at their first low byte, texts are as long as they say, and a record is followed
/// field by field. At depth zero nothing is.
pub proof fn law_skipped_values_are_what_they_declare(
    bytes: Seq<u8>,
    pos: int,
    depth: u8,
    seen: Seq<Element>,
)
    requires
        0 <= pos,
        pos + 16 <= bytes.len(),
        depth > 0,
    ensures
        walk_value(bytes, pos, Kind::Declared(1, depth), seen) == (Step::<int>::At(pos), seen),
        walk_value(bytes, pos, Kind::Declared(2, depth), seen) == (Step::<int>::At(pos), seen),
        walk_value(bytes, pos, Kind::Declared(3, depth), seen) == (Step::<int>::At(pos + 1), seen),
        walk_value(bytes, pos, Kind::Declared(4, depth), seen) == (number_end(bytes, pos), seen),
        walk_value(bytes, pos, Kind::Declared(5, depth), seen) == (number_end(bytes, pos), seen),
        walk_value(bytes, pos, Kind::Declared(6, depth), seen) == (number_end(bytes, pos), seen),
        walk_value(bytes, pos, Kind::Declared(7, depth), seen) == (Step::<int>::At(pos + 8), seen),
        walk_value(bytes, pos, Kind::Declared(8, depth), seen) == (read_text(bytes, pos), seen),
        walk_value(bytes, pos, Kind::Declared(12, depth), seen) == walk_fields(
            bytes,
            pos,
            Record::Unknown(depth),
            0,
            no_element(),
            seen,
        ),
        walk_value(bytes, pos, Kind::Declared(13, depth), seen) == (
            Step::<int>::At(pos + 16),
            seen,
        ),
        walk_value(bytes, pos, Kind::Declared(12, 0), seen) == (Step::<int>::Short, seen),
        read_list_head(bytes, pos) matches ListHead::Items { count, declared, at } ==> pos < at
            <= bytes.len() ==> walk_value(bytes, pos, Kind::Declared(9, depth), seen) == walk_items(
            bytes,
            at,
            Kind::Declared(declared, (depth - 1) as u8),
            count,
            seen,
        ) && walk_value(bytes, pos, Kind::Declared(10, depth), seen) == walk_value(
            bytes,
            pos,
            Kind::Declared(9, depth),
            seen,
        ),
        forall|id: i16, declared: u8| #[trigger]
            field_kind(Record::Unknown(depth), id, declared) == Kind::Declared(
                declared,
                (depth - 1) as u8,
            ),
{
}

/// A field that does not count from the one before it gives its id as a number, and a list
/// of 15 items or more gives their number.
pub proof fn law_ids_and_counts_can_be_numbers(
    bytes: Seq<u8>,
    pos: int,
    last: i16,
    declared: u8,
    end: int,
)
    requires
        0 <= pos < end <= bytes.len(),
        1 <= declared <= 13,
        read_number(bytes, pos + 1) == Step::At(end),
    ensures
        bytes[pos] == declared ==> read_head(bytes, pos, last) == (Head::Field {
            id: zigzag(number_value(bytes, pos + 1, (end - pos - 1) as nat)) as i16,
            declared,
            at: end,
        }),
        bytes[pos] == 240 + declared && number_value(bytes, pos + 1, (end - pos - 1) as nat)
            <= 0x7fff_ffff ==> read_list_head(bytes, pos) == (ListHead::Items {
            count: number_value(bytes, pos + 1, (end - pos - 1) as nat),
            declared,
            at: end,
        }),
{
}

} // verus!

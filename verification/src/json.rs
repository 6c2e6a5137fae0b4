//! JSON documents, and the check-in list that the service sends as one.
use crate::models::{views, RawRow, RowView};
use crate::text::{copy_of, same_text};
use crate::order::{ascends, given_in_order};
use vstd::prelude::*;

verus! {

/// A JSON document. A number is held in its decimal notation; the entries of an object stand in
/// their order.
pub enum Json {
    Null,
    Bool(bool),
    Number(String),
    Text(String),
    Array(Vec<Json>),
    Object(Vec<(String, Json)>),
}

/// The value of the first entry with a name.
pub open spec fn entry_named(entries: Seq<(String, Json)>, name: Seq<char>) -> Option<Json>
    decreases entries.len(),
{
    if entries.len() == 0 {
        None
    } else if entries[0].0@ == name {
        Some(entries[0].1)
    } else {
        entry_named(entries.drop_first(), name)
    }
}

/// The value of the first entry with a name, where the document is an object.
pub open spec fn field(json: Json, name: Seq<char>) -> Option<Json> {
    match json {
        Json::Object(entries) => entry_named(entries@, name),
        _ => None,
    }
}

/// The text that a value is, where it is one.
pub open spec fn text_in(value: Option<Json>) -> Option<Seq<char>> {
    match value {
        Some(Json::Text(text)) => Some(text@),
        _ => None,
    }
}

/// The value of the first entry with a name.
pub fn find_entry<'a>(entries: &'a Vec<(String, Json)>, name: &str) -> (r: Option<&'a Json>)
    ensures
        match r {
            Some(value) => entry_named(entries@, name@) == Some(*value),
            None => entry_named(entries@, name@) is None,
        },
{
    let mut i: usize = 0;
    assert(entries@.skip(0) =~= entries@);
    while i < entries.len()
        invariant
            i <= entries@.len(),
            entry_named(entries@, name@) == entry_named(entries@.skip(i as int), name@),
        decreases entries@.len() - i,
    {
        assert(entries@.skip(i as int).drop_first() =~= entries@.skip(i + 1));
        if same_text(entries[i].0.as_str(), name) {
            return Some(&entries[i].1);
        }
        i = i + 1;
    }
    None
}

impl Json {
    /// The value of the first entry with a name, where the document is an object.
    pub fn get(&self, name: &str) -> (r: Option<&Json>)
        ensures
            match r {
                Some(value) => field(*self, name@) == Some(*value),
                None => field(*self, name@) is None,
            },
    {
        match self {
            Json::Object(entries) => find_entry(entries, name),
            _ => None,
        }
    }

    /// The text under a name, where there is one.
    pub fn get_text(&self, name: &str) -> (r: Option<String>)
        ensures
            match r {
                Some(text) => text_in(field(*self, name@)) == Some(text@),
                None => text_in(field(*self, name@)) is None,
            },
    {
        match self.get(name) {
            Some(Json::Text(text)) => Some(copy_of(text.as_str())),
            _ => None,
        }
    }

    /// Whether the document is an object that has an entry with a name.
    pub fn has(&self, name: &str) -> (r: bool)
        ensures
            r == (field(*self, name@) is Some),
    {
        self.get(name).is_some()
    }
}

// ---------------------------------------------------------------------------------------
// Fields with a default

/// The text that a field holds: nothing at all stands for the empty text, and anything but a
/// text for none.
pub open spec fn text_or_empty(value: Option<Json>) -> Option<Seq<char>> {
    match value {
        None => Some(Seq::empty()),
        Some(Json::Text(text)) => Some(text@),
        Some(_) => None,
    }
}

/// The text that a field holds, where it can hold one.
pub fn read_text(value: Option<&Json>) -> (r: Option<String>)
    ensures
        match r {
            Some(text) => text_or_empty(deref(value)) == Some(text@),
            None => text_or_empty(deref(value)) is None,
        },
{
    match value {
        None => {
            let empty = String::new();
            assert(empty@ =~= Seq::empty());
            Some(empty)
        },
        Some(Json::Text(text)) => Some(copy_of(text.as_str())),
        Some(_) => None,
    }
}

/// What a reference refers to.
pub open spec fn deref(value: Option<&Json>) -> Option<Json> {
    match value {
        Some(inner) => Some(*inner),
        None => None,
    }
}

/// The value that stands for a field: the first of its name in an object, the one at its place
/// in an array.
pub open spec fn member(json: Json, name: Seq<char>, place: int) -> Option<Json> {
    match json {
        Json::Object(entries) => entry_named(entries@, name),
        Json::Array(items) => if place < items@.len() {
            Some(items@[place])
        } else {
            None
        },
        _ => None,
    }
}

/// The value that stands for a field.
pub fn find_member<'a>(json: &'a Json, name: &str, place: usize) -> (r: Option<&'a Json>)
    ensures
        deref(r) == member(*json, name@, place as int),
{
    match json {
        Json::Object(entries) => find_entry(entries, name),
        Json::Array(items) => if place < items.len() {
            Some(&items[place])
        } else {
            None
        },
        _ => None,
    }
}

/// A record of so many fields can be read from a document: it is an object, or an array of no
/// more values.
pub open spec fn is_record(json: Json, fields: int) -> bool {
    match json {
        Json::Object(_) => true,
        Json::Array(items) => items@.len() <= fields,
        _ => false,
    }
}

/// Whether a record of so many fields can be read from a document.
pub fn record(json: &Json, fields: usize) -> (r: bool)
    ensures
        r == is_record(*json, fields as int),
{
    match json {
        Json::Object(_) => true,
        Json::Array(items) => items.len() <= fields,
        _ => false,
    }
}

// ---------------------------------------------------------------------------------------
// The check-in list

/// The text of a field of a row.
pub open spec fn row_text(json: Json, name: Seq<char>, place: int) -> Option<Seq<char>> {
    text_or_empty(member(json, name, place))
}

/// The row that a document describes: every field that is there must be a text, and a field that
/// is not there is empty.
pub open spec fn row_in(json: Json) -> Option<RowView> {
    if !is_record(json, 13) {
        None
    } else {
        match (
            row_text(json, "ID"@, 0),
            row_text(json, "CheckInType"@, 1),
            row_text(json, "CheckInCode"@, 2),
            row_text(json, "CheckInStatus"@, 3),
            row_text(json, "CheckInDate"@, 4),
            row_text(json, "StudentID"@, 5),
            row_text(json, "StatusID"@, 6),
            row_text(json, "StatusName"@, 7),
            row_text(json, "CanApply"@, 8),
            row_text(json, "ApplyLimitDate"@, 9),
            row_text(json, "CreaterDate"@, 10),
            row_text(json, "Longitude"@, 11),
        ) {
            (
                Some(id),
                Some(checkin_type),
                Some(checkin_code),
                Some(checkin_status),
                Some(checkin_date),
                Some(student_id),
                Some(status_id),
                Some(status_name),
                Some(can_apply),
                Some(apply_limit),
                Some(creater_at),
                Some(longitude),
            ) => match row_text(json, "Latitude"@, 12) {
                Some(latitude) => Some(
                    RowView {
                        id,
                        checkin_type,
                        checkin_code,
                        checkin_status,
                        checkin_date,
                        student_id,
                        status_id,
                        status_name,
                        can_apply,
                        apply_limit,
                        creater_at,
                        longitude,
                        latitude,
                    },
                ),
                None => None,
            },
            _ => None,
        }
    }
}

/// The text of a field of a row.
fn read_row_text(json: &Json, name: &str, place: usize) -> (r: Option<String>)
    ensures
        match r {
            Some(text) => row_text(*json, name@, place as int) == Some(text@),
            None => row_text(*json, name@, place as int) is None,
        },
{
    read_text(find_member(json, name, place))
}

impl RawRow {
    /// The row that a document describes.
    pub fn from_json(json: &Json) -> (r: Option<RawRow>)
        ensures
            match r {
                Some(row) => row_in(*json) == Some(row@),
                None => row_in(*json) is None,
            },
    {
        if !record(json, 13) {
            return None;
        }
        let id: String = read_row_text(json, "ID", 0)?;
        let checkin_type: String = read_row_text(json, "CheckInType", 1)?;
        let checkin_code: String = read_row_text(json, "CheckInCode", 2)?;
        let checkin_status: String = read_row_text(json, "CheckInStatus", 3)?;
        let checkin_date: String = read_row_text(json, "CheckInDate", 4)?;
        let student_id: String = read_row_text(json, "StudentID", 5)?;
        let status_id: String = read_row_text(json, "StatusID", 6)?;
        let status_name: String = read_row_text(json, "StatusName", 7)?;
        let can_apply: String = read_row_text(json, "CanApply", 8)?;
        let apply_limit: String = read_row_text(json, "ApplyLimitDate", 9)?;
        let creater_at: String = read_row_text(json, "CreaterDate", 10)?;
        let longitude: String = read_row_text(json, "Longitude", 11)?;
        let latitude: String = read_row_text(json, "Latitude", 12)?;
        Some(
            RawRow {
                id,
                checkin_type,
                checkin_code,
                checkin_status,
                checkin_date,
                student_id,
                status_id,
                status_name,
                can_apply,
                apply_limit,
                creater_at,
                longitude,
                latitude,
            },
        )
    }
}

/// The rows of a check-in list, in their order: what does not describe a row is left out, and
/// there are none where the document has no list.
pub open spec fn rows_in(json: Json) -> Seq<RowView> {
    match field(json, "rows"@) {
        Some(Json::Array(items)) => items@.filter_map(|item: Json| row_in(item)),
        _ => Seq::empty(),
    }
}

/// The rows of a check-in list.
pub fn rows_from_json(json: &Json) -> (r: Vec<RawRow>)
    ensures
        views(r@) == rows_in(*json),
{
    let mut rows: Vec<RawRow> = Vec::new();
    match json.get("rows") {
        Some(Json::Array(items)) => {
            let ghost read = |item: Json| row_in(item);
            let mut i: usize = 0;
            assert(items@.take(0) =~= Seq::empty());
            assert(views(rows@) =~= items@.take(0).filter_map(read));
            while i < items.len()
                invariant
                    i <= items@.len(),
                    read == (|item: Json| row_in(item)),
                    views(rows@) == items@.take(i as int).filter_map(read),
                decreases items@.len() - i,
            {
                let ghost before = rows@;
                assert(items@.take(i + 1).drop_last() =~= items@.take(i as int));
                assert(items@.take(i + 1).last() == items@[i as int]);
                if let Some(row) = RawRow::from_json(&items[i]) {
                    rows.push(row);
                    assert(views(rows@) =~= views(before) + seq![row@]);
                }
                i = i + 1;
            }
            assert(items@.take(items@.len() as int) =~= items@);
        },
        _ => {
            assert(views(rows@) =~= Seq::empty());
        },
    }
    rows
}

/// The value of a field is that of the first entry with its name, and there is none exactly where
/// no entry has it or the document is no object.
pub proof fn field_is_first_entry(json: Json, name: Seq<char>)
    ensures
        json matches Json::Object(entries) ==> match field(json, name) {
            Some(value) => exists|i: int|
                0 <= i < entries@.len() && (#[trigger] entries@[i]).0@ == name && value
                    == entries@[i].1 && forall|j: int|
                    0 <= j < i ==> (#[trigger] entries@[j]).0@ != name,
            None => forall|i: int| 0 <= i < entries@.len() ==> (#[trigger] entries@[i]).0@ != name,
        },
        !(json is Object) ==> field(json, name) is None,
{
    if let Json::Object(entries) = json {
        entry_is_first(entries@, name);
    }
}

proof fn entry_is_first(entries: Seq<(String, Json)>, name: Seq<char>)
    ensures
        match entry_named(entries, name) {
            Some(value) => exists|i: int|
                0 <= i < entries.len() && (#[trigger] entries[i]).0@ == name && value
                    == entries[i].1 && forall|j: int|
                    0 <= j < i ==> (#[trigger] entries[j]).0@ != name,
            None => forall|i: int| 0 <= i < entries.len() ==> (#[trigger] entries[i]).0@ != name,
        },
    decreases entries.len(),
{
    if entries.len() > 0 && entries[0].0@ != name {
        let rest = entries.drop_first();
        entry_is_first(rest, name);
        match entry_named(rest, name) {
            Some(value) => {
                let i = choose|i: int|
                    0 <= i < rest.len() && (#[trigger] rest[i]).0@ == name && value == rest[i].1
                        && forall|j: int| 0 <= j < i ==> (#[trigger] rest[j]).0@ != name;
                assert(entries[i + 1] == rest[i]);
                assert forall|j: int| 0 <= j < i + 1 implies (#[trigger] entries[j]).0@
                    != name by {
                    if j > 0 {
                        assert(entries[j] == rest[j - 1]);
                    }
                }
            },
            None => {
                assert forall|i: int| 0 <= i < entries.len() implies (#[trigger] entries[i]).0@
                    != name by {
                    if i > 0 {
                        assert(entries[i] == rest[i - 1]);
                    }
                }
            },
        }
    }
}

/// A field of a row holds a text: it is the text under the field's name, or empty where there is
/// nothing under it.
pub open spec fn holds_text(json: Json, name: Seq<char>, text: Seq<char>) -> bool {
    match field(json, name) {
        None => text.len() == 0,
        Some(Json::Text(inner)) => inner@ == text,
        Some(_) => false,
    }
}

/// Every field of a row that is given as an object holds the text under its own name.
pub proof fn row_holds_its_fields(json: Json)
    requires
        json is Object,
    ensures
        row_in(json) matches Some(row) ==> {
            &&& holds_text(json, "ID"@, row.id)
            &&& holds_text(json, "CheckInType"@, row.checkin_type)
            &&& holds_text(json, "CheckInCode"@, row.checkin_code)
            &&& holds_text(json, "CheckInStatus"@, row.checkin_status)
            &&& holds_text(json, "CheckInDate"@, row.checkin_date)
            &&& holds_text(json, "StudentID"@, row.student_id)
            &&& holds_text(json, "StatusID"@, row.status_id)
            &&& holds_text(json, "StatusName"@, row.status_name)
            &&& holds_text(json, "CanApply"@, row.can_apply)
            &&& holds_text(json, "ApplyLimitDate"@, row.apply_limit)
            &&& holds_text(json, "CreaterDate"@, row.creater_at)
            &&& holds_text(json, "Longitude"@, row.longitude)
            &&& holds_text(json, "Latitude"@, row.latitude)
        },
{
}

/// A field can be that of a row: there is nothing under its name, or a text.
pub open spec fn can_hold_text(json: Json, name: Seq<char>) -> bool {
    match field(json, name) {
        None => true,
        Some(value) => value is Text,
    }
}

/// An object is a row exactly where none of a row's fields holds anything but a text; what else it
/// holds does not matter.
pub proof fn row_needs_texts(json: Json)
    requires
        json is Object,
    ensures
        row_in(json) is Some == (can_hold_text(json, "ID"@) && can_hold_text(json, "CheckInType"@)
            && can_hold_text(json, "CheckInCode"@) && can_hold_text(json, "CheckInStatus"@)
            && can_hold_text(json, "CheckInDate"@) && can_hold_text(json, "StudentID"@)
            && can_hold_text(json, "StatusID"@) && can_hold_text(json, "StatusName"@)
            && can_hold_text(json, "CanApply"@) && can_hold_text(json, "ApplyLimitDate"@)
            && can_hold_text(json, "CreaterDate"@) && can_hold_text(json, "Longitude"@)
            && can_hold_text(json, "Latitude"@)),
{
}

/// The rows of an answer are those of the list in it that can be read, in their order; an answer
/// without such a list has none.
pub proof fn rows_are_those_of_the_list(json: Json, i: int)
    ensures
        field(json, "rows"@) matches Some(Json::Array(items)) ==> {
            &&& rows_in(json).len() <= items@.len()
            &&& 0 <= i < items@.len() && row_in(items@[i]) is Some ==> rows_in(json).contains(
                row_in(items@[i])->0,
            )
        },
        !(field(json, "rows"@) matches Some(Json::Array(_))) ==> rows_in(json).len() == 0,
{
    if let Some(Json::Array(items)) = field(json, "rows"@) {
        read_rows_stand(items@, i);
    }
}

proof fn read_rows_stand(items: Seq<Json>, i: int)
    ensures
        items.filter_map(|item: Json| row_in(item)).len() <= items.len(),
        0 <= i < items.len() && row_in(items[i]) is Some ==> items.filter_map(
            |item: Json| row_in(item),
        ).contains(row_in(items[i])->0),
    decreases items.len(),
{
    reveal(Seq::filter_map);
    let read = |item: Json| row_in(item);
    if items.len() > 0 {
        let rest = items.drop_last();
        read_rows_stand(rest, i);
        let rows = items.filter_map(read);
        let earlier = rest.filter_map(read);
        if 0 <= i < items.len() && row_in(items[i]) is Some {
            let row = row_in(items[i])->0;
            if i < rest.len() {
                assert(rest[i] == items[i]);
                let k = choose|k: int| 0 <= k < earlier.len() && earlier[k] == row;
                assert(rows[k] == row);
            } else {
                assert(rows[rows.len() - 1] == row);
            }
        }
    }
}

/// The rows of a list come in its order, each from an item that can be read as one, and none that
/// can is left out.
pub proof fn rows_come_in_order(json: Json, items: Vec<Json>) -> (at: Seq<int>)
    requires
        field(json, "rows"@) == Some(Json::Array(items)),
    ensures
        at.len() == rows_in(json).len(),
        ascends(at),
        forall|k: int|
            0 <= k < at.len() ==> 0 <= #[trigger] at[k] < items@.len() && row_in(items@[at[k]])
                == Some(rows_in(json)[k]),
        forall|i: int|
            0 <= i < items@.len() && row_in(#[trigger] items@[i]) is Some ==> at.contains(i),
{
    let read = |item: Json| row_in(item);
    let at = given_in_order(items@, read);
    assert forall|i: int|
        0 <= i < items@.len() && row_in(#[trigger] items@[i]) is Some implies at.contains(i) by {
        assert(read(items@[i]) is Some);
    }
    assert forall|k: int| 0 <= k < at.len() implies 0 <= #[trigger] at[k] < items@.len() && row_in(
        items@[at[k]],
    ) == Some(rows_in(json)[k]) by {
        assert(read(items@[at[k]]) == Some(items@.filter_map(read)[k]));
    }
    at
}

} // verus!

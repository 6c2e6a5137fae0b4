//! What the service speaks of: courses, the rows of its check-in list, and the check-in
//! activities that the library makes of them.
use crate::number::{float_text, is_float_text};
use crate::text::{copy_of, is_empty, same_text};
use vstd::prelude::*;

verus! {

/// The views of a list's items, in order.
pub open spec fn views<T: View>(items: Seq<T>) -> Seq<T::V> {
    items.map_values(|item: T| item@)
}

/// The view of what may be there.
pub open spec fn opt_view<T: View>(item: Option<T>) -> Option<T::V> {
    match item {
        Some(value) => Some(value@),
        None => None,
    }
}

/// A copy of a text that may be there.
pub fn copy_of_opt(text: &Option<String>) -> (copy: Option<String>)
    ensures
        opt_view(copy) == opt_view(*text),
{
    match text {
        Some(value) => Some(copy_of(value.as_str())),
        None => None,
    }
}

// ---------------------------------------------------------------------------------------
// Courses

/// A course as the student's course list names it.
#[derive(Debug)]
pub struct Course {
    pub class_id: String,
    pub tclass_id: String,
    pub name: String,
}

/// The texts of a course.
#[verifier::ext_equal]
pub ghost struct CourseView {
    pub class_id: Seq<char>,
    pub tclass_id: Seq<char>,
    pub name: Seq<char>,
}

impl View for Course {
    type V = CourseView;

    open spec fn view(&self) -> CourseView {
        CourseView {
            class_id: self.class_id@,
            tclass_id: self.tclass_id@,
            name: self.name@,
        }
    }
}

impl Clone for Course {
    fn clone(&self) -> (r: Self)
        ensures
            r@ == self@,
    {
        Course {
            class_id: copy_of(self.class_id.as_str()),
            tclass_id: copy_of(self.tclass_id.as_str()),
            name: copy_of(self.name.as_str()),
        }
    }
}

// ---------------------------------------------------------------------------------------
// Coordinates

/// A place on the map: the decimal notations of its longitude and its latitude, in degrees.
#[derive(Debug)]
pub struct Coordinates {
    pub longitude: String,
    pub latitude: String,
}

/// The texts of a place.
#[verifier::ext_equal]
pub ghost struct CoordinatesView {
    pub longitude: Seq<char>,
    pub latitude: Seq<char>,
}

impl View for Coordinates {
    type V = CoordinatesView;

    open spec fn view(&self) -> CoordinatesView {
        CoordinatesView { longitude: self.longitude@, latitude: self.latitude@ }
    }
}

impl Clone for Coordinates {
    fn clone(&self) -> (r: Self)
        ensures
            r@ == self@,
    {
        Coordinates {
            longitude: copy_of(self.longitude.as_str()),
            latitude: copy_of(self.latitude.as_str()),
        }
    }
}

/// A copy of a place that may be there.
pub fn copy_of_place(place: &Option<Coordinates>) -> (copy: Option<Coordinates>)
    ensures
        opt_view(copy) == opt_view(*place),
{
    match place {
        Some(value) => Some(value.clone()),
        None => None,
    }
}

/// The place that two texts name: there is one exactly where both stand for numbers.
pub open spec fn coordinate_of(longitude: Seq<char>, latitude: Seq<char>) -> Option<
    CoordinatesView,
> {
    if is_float_text(longitude) && is_float_text(latitude) {
        Some(CoordinatesView { longitude, latitude })
    } else {
        None
    }
}

/// The place that two texts name.
pub fn parse_coordinate(longitude: &str, latitude: &str) -> (r: Option<Coordinates>)
    ensures
        opt_view(r) == coordinate_of(longitude@, latitude@),
{
    if float_text(longitude) && float_text(latitude) {
        Some(Coordinates { longitude: copy_of(longitude), latitude: copy_of(latitude) })
    } else {
        None
    }
}

// ---------------------------------------------------------------------------------------
// Kinds of check-in

/// How a check-in is made: with a code, by scanning, or by being at a place.
#[derive(Debug, Clone, Copy, PartialEq, Eq, Structural)]
pub enum SignType {
    Code,
    Qr,
    Locate,
    Unknown,
}

/// The kind that the service writes as a digit.
pub open spec fn sign_type_of(text: Seq<char>) -> SignType {
    if text == "1"@ {
        SignType::Code
    } else if text == "2"@ {
        SignType::Qr
    } else if text == "3"@ {
        SignType::Locate
    } else {
        SignType::Unknown
    }
}

impl SignType {
    /// The kind that the service writes as a digit.
    pub fn parse(s: &str) -> (r: SignType)
        ensures
            r == sign_type_of(s@),
    {
        if same_text(s, "1") {
            SignType::Code
        } else if same_text(s, "2") {
            SignType::Qr
        } else if same_text(s, "3") {
            SignType::Locate
        } else {
            SignType::Unknown
        }
    }
}

/// The name of a kind of check-in.
pub open spec fn kind_name(kind: SignType) -> Seq<char> {
    match kind {
        SignType::Code => "数字码"@,
        SignType::Qr => "二维码"@,
        SignType::Locate => "定位"@,
        SignType::Unknown => "未知"@,
    }
}

/// The name of a kind of check-in.
pub fn kind_label(kind: SignType) -> (r: &'static str)
    ensures
        r@ == kind_name(kind),
{
    match kind {
        SignType::Code => "数字码",
        SignType::Qr => "二维码",
        SignType::Locate => "定位",
        SignType::Unknown => "未知",
    }
}

// ---------------------------------------------------------------------------------------
// Rows and activities

/// A row of the check-in list, with the service's own texts.
pub struct RawRow {
    pub id: String,
    pub checkin_type: String,
    pub checkin_code: String,
    pub checkin_status: String,
    pub checkin_date: String,
    pub student_id: String,
    pub status_id: String,
    pub status_name: String,
    pub can_apply: String,
    pub apply_limit: String,
    pub creater_at: String,
    pub longitude: String,
    pub latitude: String,
}

/// The texts of a row.
#[verifier::ext_equal]
pub ghost struct RowView {
    pub id: Seq<char>,
    pub checkin_type: Seq<char>,
    pub checkin_code: Seq<char>,
    pub checkin_status: Seq<char>,
    pub checkin_date: Seq<char>,
    pub student_id: Seq<char>,
    pub status_id: Seq<char>,
    pub status_name: Seq<char>,
    pub can_apply: Seq<char>,
    pub apply_limit: Seq<char>,
    pub creater_at: Seq<char>,
    pub longitude: Seq<char>,
    pub latitude: Seq<char>,
}

impl View for RawRow {
    type V = RowView;

    open spec fn view(&self) -> RowView {
        RowView {
            id: self.id@,
            checkin_type: self.checkin_type@,
            checkin_code: self.checkin_code@,
            checkin_status: self.checkin_status@,
            checkin_date: self.checkin_date@,
            student_id: self.student_id@,
            status_id: self.status_id@,
            status_name: self.status_name@,
            can_apply: self.can_apply@,
            apply_limit: self.apply_limit@,
            creater_at: self.creater_at@,
            longitude: self.longitude@,
            latitude: self.latitude@,
        }
    }
}

impl Clone for RawRow {
    fn clone(&self) -> (r: Self)
        ensures
            r@ == self@,
    {
        RawRow {
            id: copy_of(self.id.as_str()),
            checkin_type: copy_of(self.checkin_type.as_str()),
            checkin_code: copy_of(self.checkin_code.as_str()),
            checkin_status: copy_of(self.checkin_status.as_str()),
            checkin_date: copy_of(self.checkin_date.as_str()),
            student_id: copy_of(self.student_id.as_str()),
            status_id: copy_of(self.status_id.as_str()),
            status_name: copy_of(self.status_name.as_str()),
            can_apply: copy_of(self.can_apply.as_str()),
            apply_limit: copy_of(self.apply_limit.as_str()),
            creater_at: copy_of(self.creater_at.as_str()),
            longitude: copy_of(self.longitude.as_str()),
            latitude: copy_of(self.latitude.as_str()),
        }
    }
}

/// A check-in that is open: its number, its kind, and what it takes to check in.
#[derive(Debug)]
pub struct SignActivity {
    pub id: String,
    pub kind: SignType,
    pub code: Option<String>,
    pub coordinate: Option<Coordinates>,
}

/// What an activity holds.
#[verifier::ext_equal]
pub ghost struct ActivityView {
    pub id: Seq<char>,
    pub kind: SignType,
    pub code: Option<Seq<char>>,
    pub coordinate: Option<CoordinatesView>,
}

impl View for SignActivity {
    type V = ActivityView;

    open spec fn view(&self) -> ActivityView {
        ActivityView {
            id: self.id@,
            kind: self.kind,
            code: opt_view(self.code),
            coordinate: opt_view(self.coordinate),
        }
    }
}

impl Clone for SignActivity {
    fn clone(&self) -> (r: Self)
        ensures
            r@ == self@,
    {
        SignActivity {
            id: copy_of(self.id.as_str()),
            kind: self.kind,
            code: copy_of_opt(&self.code),
            coordinate: copy_of_place(&self.coordinate),
        }
    }
}

/// A text, or nothing where it is empty.
pub open spec fn unless_empty(text: Seq<char>) -> Option<Seq<char>> {
    if text.len() == 0 {
        None
    } else {
        Some(text)
    }
}

/// The activity that a row of the check-in list describes.
pub open spec fn activity_of(row: RowView) -> ActivityView {
    ActivityView {
        id: row.id,
        kind: sign_type_of(row.checkin_type),
        code: unless_empty(row.checkin_code),
        coordinate: coordinate_of(row.longitude, row.latitude),
    }
}

/// A text, or nothing where it is empty.
pub fn text_unless_empty(text: &str) -> (r: Option<String>)
    ensures
        opt_view(r) == unless_empty(text@),
{
    if is_empty(text) {
        None
    } else {
        Some(copy_of(text))
    }
}

impl SignActivity {
    /// The activity that a row of the check-in list describes.
    pub fn from_raw(raw: &RawRow) -> (r: SignActivity)
        ensures
            r@ == activity_of(raw@),
    {
        SignActivity {
            id: copy_of(raw.id.as_str()),
            kind: SignType::parse(raw.checkin_type.as_str()),
            code: text_unless_empty(raw.checkin_code.as_str()),
            coordinate: parse_coordinate(raw.longitude.as_str(), raw.latitude.as_str()),
        }
    }
}

/// The kind of an activity is told by its number: one is by code, two by scan, three by place, and
/// everything else is unknown.
pub proof fn kind_is_told_by_number(text: Seq<char>)
    ensures
        sign_type_of(text) is Code == (text == seq!['1']),
        sign_type_of(text) is Qr == (text == seq!['2']),
        sign_type_of(text) is Locate == (text == seq!['3']),
{
    reveal_strlit("1");
    reveal_strlit("2");
    reveal_strlit("3");
    assert("1"@ =~= seq!['1']);
    assert("2"@ =~= seq!['2']);
    assert("3"@ =~= seq!['3']);
    assert(seq!['1'][0] != seq!['2'][0]);
    assert(seq!['1'][0] != seq!['3'][0]);
    assert(seq!['2'][0] != seq!['3'][0]);
}

/// Kinds are told apart by their names, and each row is spoken of by the name of its kind.
pub proof fn kind_is_named(row: RowView)
    ensures
        row.checkin_type == "1"@ ==> kind_name(activity_of(row).kind) == "数字码"@,
        row.checkin_type == "2"@ ==> kind_name(activity_of(row).kind) == "二维码"@,
        row.checkin_type == "3"@ ==> kind_name(activity_of(row).kind) == "定位"@,
        row.checkin_type != "1"@ && row.checkin_type != "2"@ && row.checkin_type != "3"@
            ==> kind_name(activity_of(row).kind) == "未知"@,
{
    reveal_strlit("1");
    reveal_strlit("2");
    reveal_strlit("3");
    assert("1"@[0] == '1');
    assert("2"@[0] == '2');
    assert("3"@[0] == '3');
}

/// An activity keeps its row's number; its code is the row's, where the row has one; and its place
/// is the row's longitude and latitude, each in its own part, where both are numbers.
pub proof fn activity_keeps_its_row(row: RowView)
    ensures
        activity_of(row).id == row.id,
        activity_of(row).code is Some == (row.checkin_code.len() > 0),
        activity_of(row).code matches Some(code) ==> code == row.checkin_code,
        activity_of(row).coordinate is Some == (is_float_text(row.longitude) && is_float_text(
            row.latitude,
        )),
        activity_of(row).coordinate matches Some(place) ==> place.longitude == row.longitude
            && place.latitude == row.latitude,
{
}

} // verus!

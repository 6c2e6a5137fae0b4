//! The course list: which of its entries are courses, and which of these are of the current
//! term.
use crate::api::{ApiErr, ErrView};
use crate::json::{field, find_entry, Json};
use crate::models::{opt_view, views, Course, CourseView};
use crate::number::{integer_within, read_integer};
use crate::round::courses_reply;
use crate::text::{copy_of, is_empty, same_text, split_at_char, split_once, trim, trimmed};
use crate::order::{ascends, given_in_order, picked_in_order};
use vstd::prelude::*;

verus! {

/// A term: a year, and whether it is the year's autumn or its spring.
#[derive(Clone, Copy, Debug, PartialEq, Eq, Structural)]
pub struct CourseTerm {
    pub year: i32,
    pub is_autumn: bool,
}

/// One term comes before another: it is of an earlier year, or of the spring of the same year
/// while the other is of its autumn.
pub open spec fn term_before(a: CourseTerm, b: CourseTerm) -> bool {
    a.year < b.year || (a.year == b.year && !a.is_autumn && b.is_autumn)
}

/// Whether one term comes before another.
pub fn is_earlier(a: CourseTerm, b: CourseTerm) -> (r: bool)
    ensures
        r == term_before(a, b),
{
    a.year < b.year || (a.year == b.year && !a.is_autumn && b.is_autumn)
}

/// The term that a text names: a year, the word for year, and a season.
pub open spec fn term_in(text: Seq<char>) -> Option<CourseTerm> {
    match split_once(text, '年') {
        None => None,
        Some((year_text, season)) => match integer_within(
            trim(year_text),
            true,
            i32::MIN as int,
            i32::MAX as int,
        ) {
            None => None,
            Some(year) => if trim(season) == "秋"@ {
                Some(CourseTerm { year: year as i32, is_autumn: true })
            } else if trim(season) == "春"@ {
                Some(CourseTerm { year: year as i32, is_autumn: false })
            } else {
                None
            },
        },
    }
}

/// The term that a text names.
pub fn course_term(term_name: &str) -> (r: Option<CourseTerm>)
    ensures
        r == term_in(term_name@),
{
    match split_at_char(term_name, '年') {
        None => None,
        Some((year_text, season)) => {
            let year_text: String = trimmed(year_text.as_str());
            match read_integer(year_text.as_str(), true, i32::MIN as i128, i32::MAX as i128) {
                None => None,
                Some(year) => {
                    let season: String = trimmed(season.as_str());
                    if same_text(season.as_str(), "秋") {
                        Some(CourseTerm { year: year as i32, is_autumn: true })
                    } else if same_text(season.as_str(), "春") {
                        Some(CourseTerm { year: year as i32, is_autumn: false })
                    } else {
                        None
                    }
                },
            }
        },
    }
}

/// The text of a field: a text as it is, a number in decimal notation, and anything else, or
/// nothing, as the empty text.
pub open spec fn plain_text(value: Option<Json>) -> Seq<char> {
    match value {
        Some(Json::Text(text)) => text@,
        Some(Json::Number(number)) => number@,
        _ => Seq::empty(),
    }
}

/// A course of the list together with its term.
pub struct Listed {
    pub course: Course,
    pub term: Option<CourseTerm>,
}

/// What a course of the list holds.
#[verifier::ext_equal]
pub ghost struct ListedView {
    pub course: CourseView,
    pub term: Option<CourseTerm>,
}

impl View for Listed {
    type V = ListedView;

    open spec fn view(&self) -> ListedView {
        ListedView { course: self.course@, term: self.term }
    }
}

/// The course that an entry of the list describes: an object that has at least a class or a
/// name.
pub open spec fn listed_in(item: Json) -> Option<ListedView> {
    let course = CourseView {
        class_id: plain_text(field(item, "CourseID"@)),
        tclass_id: plain_text(field(item, "TClassID"@)),
        name: plain_text(field(item, "CourseName"@)),
    };
    if !(item is Object) || (course.tclass_id.len() == 0 && course.name.len() == 0) {
        None
    } else {
        Some(ListedView { course, term: term_in(plain_text(field(item, "TermName"@))) })
    }
}

fn read_plain(entries: &Vec<(String, Json)>, name: &str) -> (r: String)
    ensures
        r@ == plain_text(crate::json::entry_named(entries@, name@)),
{
    match find_entry(entries, name) {
        Some(Json::Text(text)) => copy_of(text.as_str()),
        Some(Json::Number(number)) => copy_of(number.as_str()),
        _ => {
            let empty = String::new();
            assert(empty@ =~= Seq::empty());
            empty
        },
    }
}

fn read_listed(item: &Json) -> (r: Option<Listed>)
    ensures
        opt_view(r) == listed_in(*item),
{
    match item {
        Json::Object(entries) => {
            let course = Course {
                class_id: read_plain(entries, "CourseID"),
                tclass_id: read_plain(entries, "TClassID"),
                name: read_plain(entries, "CourseName"),
            };
            if is_empty(course.tclass_id.as_str()) && is_empty(course.name.as_str()) {
                return None;
            }
            let term: Option<CourseTerm> = course_term(read_plain(entries, "TermName").as_str());
            Some(Listed { course, term })
        },
        _ => None,
    }
}

/// The latest term of a list of courses.
pub open spec fn latest_term(list: Seq<ListedView>) -> Option<CourseTerm>
    decreases list.len(),
{
    if list.len() == 0 {
        None
    } else {
        let earlier = latest_term(list.drop_last());
        match (earlier, list.last().term) {
            (Some(latest), Some(term)) => if term_before(latest, term) {
                Some(term)
            } else {
                Some(latest)
            },
            (None, term) => term,
            (latest, None) => latest,
        }
    }
}

/// No course of a list has a term later than the latest, and the latest is the term of one.
pub proof fn latest_is_latest(list: Seq<ListedView>)
    ensures
        match latest_term(list) {
            Some(latest) => {
                &&& exists|i: int| 0 <= i < list.len() && (#[trigger] list[i]).term == Some(latest)
                &&& forall|i: int|
                    0 <= i < list.len() ==> ((#[trigger] list[i]).term matches Some(term)
                        ==> !term_before(latest, term))
            },
            None => forall|i: int| 0 <= i < list.len() ==> (#[trigger] list[i]).term is None,
        },
    decreases list.len(),
{
    if list.len() > 0 {
        let rest = list.drop_last();
        latest_is_latest(rest);
        if latest_term(rest) is Some {
            let i = choose|i: int|
                0 <= i < rest.len() && (#[trigger] rest[i]).term == latest_term(rest);
            assert(list[i] == rest[i]);
        }
        assert(list[list.len() - 1] == list.last());
        assert forall|i: int| 0 <= i < list.len() implies ((#[trigger] list[i]).term matches Some(
            term,
        ) ==> latest_term(list) is Some && !term_before(latest_term(list)->0, term)) by {
            if i < rest.len() {
                assert(rest[i] == list[i]);
            }
        }
    }
}

/// A course is kept: it has no term, or the latest.
pub open spec fn is_kept(listed: ListedView, latest: Option<CourseTerm>) -> bool {
    listed.term is None || listed.term == latest
}

/// The courses that a list of entries describes, in their order: those of the latest term, and
/// those without a term.
pub open spec fn courses_in(items: Seq<Json>) -> Seq<CourseView> {
    let list = items.filter_map(|item: Json| listed_in(item));
    let latest = latest_term(list);
    list.filter(|listed: ListedView| is_kept(listed, latest)).map_values(
        |listed: ListedView| listed.course,
    )
}

fn read_list(items: &Vec<Json>) -> (r: Vec<Listed>)
    ensures
        views(r@) == items@.filter_map(|item: Json| listed_in(item)),
{
    let mut list: Vec<Listed> = Vec::new();
    let ghost read = |item: Json| listed_in(item);
    let mut i: usize = 0;
    assert(items@.take(0) =~= Seq::empty());
    assert(views(list@) =~= items@.take(0).filter_map(read));
    while i < items.len()
        invariant
            i <= items@.len(),
            read == (|item: Json| listed_in(item)),
            views(list@) == items@.take(i as int).filter_map(read),
        decreases items@.len() - i,
    {
        let ghost before = list@;
        assert(items@.take(i + 1).drop_last() =~= items@.take(i as int));
        assert(items@.take(i + 1).last() == items@[i as int]);
        if let Some(listed) = read_listed(&items[i]) {
            list.push(listed);
            assert(views(list@) =~= views(before) + seq![listed@]);
        }
        i = i + 1;
    }
    assert(items@.take(items@.len() as int) =~= items@);
    list
}

fn find_latest(list: &Vec<Listed>) -> (r: Option<CourseTerm>)
    ensures
        r == latest_term(views(list@)),
{
    let ghost all = views(list@);
    let mut latest: Option<CourseTerm> = None;
    let mut i: usize = 0;
    assert(all.take(0) =~= Seq::empty());
    while i < list.len()
        invariant
            i <= list@.len(),
            all == views(list@),
            latest == latest_term(all.take(i as int)),
        decreases list@.len() - i,
    {
        assert(all.take(i + 1).drop_last() =~= all.take(i as int));
        assert(all.take(i + 1).last() == list@[i as int]@);
        latest = match (latest, list[i].term) {
            (Some(latest), Some(term)) => if is_earlier(latest, term) {
                Some(term)
            } else {
                Some(latest)
            },
            (None, term) => term,
            (latest, None) => latest,
        };
        i = i + 1;
    }
    assert(all.take(all.len() as int) =~= all);
    latest
}

/// The courses that a list of entries describes.
pub fn parse_courses(items: &Vec<Json>) -> (r: Vec<Course>)
    ensures
        views(r@) == courses_in(items@),
{
    let list: Vec<Listed> = read_list(items);
    let latest: Option<CourseTerm> = find_latest(&list);
    let ghost all = views(list@);
    let ghost keep = |listed: ListedView| is_kept(listed, latest);
    let ghost pick = |listed: ListedView| listed.course;
    let mut courses: Vec<Course> = Vec::new();
    let mut i: usize = 0;
    proof {
        reveal(Seq::filter);
        assert(all.take(0) =~= Seq::empty());
        assert(views(courses@) =~= all.take(0).filter(keep).map_values(pick));
    }
    while i < list.len()
        invariant
            i <= list@.len(),
            all == views(list@),
            keep == (|listed: ListedView| is_kept(listed, latest)),
            pick == (|listed: ListedView| listed.course),
            views(courses@) == all.take(i as int).filter(keep).map_values(pick),
        decreases list@.len() - i,
    {
        let ghost before = courses@;
        proof {
            reveal(Seq::filter);
            assert(all.take(i + 1).drop_last() =~= all.take(i as int));
            assert(all.take(i + 1).last() == list@[i as int]@);
        }
        let kept: bool = match (list[i].term, latest) {
            (None, _) => true,
            (Some(term), Some(latest)) => term == latest,
            (Some(_), None) => false,
        };
        if kept {
            courses.push(list[i].course.clone());
            assert(views(courses@) =~= views(before).push(list@[i as int]@.course));
            assert(all.take(i + 1).filter(keep).map_values(pick) =~= all.take(i as int).filter(
                keep,
            ).map_values(pick).push(list@[i as int]@.course));
        }
        i = i + 1;
    }
    assert(all.take(all.len() as int) =~= all);
    courses
}

/// The entries of a list, where a value is one.
pub open spec fn array_in(value: Option<Json>) -> Option<Seq<Json>> {
    match value {
        Some(Json::Array(items)) => Some(items@),
        _ => None,
    }
}

/// The entries of the course list in a reply: the reply itself, or the first of four fields that
/// is a list.
pub open spec fn course_items(json: Json) -> Option<Seq<Json>> {
    if array_in(Some(json)) is Some {
        array_in(Some(json))
    } else if array_in(field(json, "data"@)) is Some {
        array_in(field(json, "data"@))
    } else if array_in(field(json, "list"@)) is Some {
        array_in(field(json, "list"@))
    } else if array_in(field(json, "courses"@)) is Some {
        array_in(field(json, "courses"@))
    } else {
        array_in(field(json, "items"@))
    }
}

/// The courses in a reply, or that it is not built like a course list.
pub open spec fn course_list(json: Json) -> Result<Seq<CourseView>, ErrView> {
    match course_items(json) {
        Some(items) => Ok(courses_in(items)),
        None => Err(ErrView::Parse("课程列表结构不符"@)),
    }
}

/// The courses in a reply.
pub fn courses_from_json(json: &Json) -> (r: Result<Vec<Course>, ApiErr>)
    ensures
        courses_reply(r) == course_list(*json),
{
    if let Json::Array(items) = json {
        return Ok(parse_courses(items));
    }
    if let Some(Json::Array(items)) = json.get("data") {
        return Ok(parse_courses(items));
    }
    if let Some(Json::Array(items)) = json.get("list") {
        return Ok(parse_courses(items));
    }
    if let Some(Json::Array(items)) = json.get("courses") {
        return Ok(parse_courses(items));
    }
    if let Some(Json::Array(items)) = json.get("items") {
        return Ok(parse_courses(items));
    }
    Err(ApiErr::Parse(copy_of("课程列表结构不符")))
}

/// A course without a term is always kept.
pub proof fn termless_is_kept(list: Seq<ListedView>, listed: ListedView)
    requires
        list.contains(listed),
        listed.term is None,
    ensures
        list.filter(|other: ListedView| is_kept(other, latest_term(list))).contains(listed),
{
    let keep = |other: ListedView| is_kept(other, latest_term(list));
    let i = choose|i: int| 0 <= i < list.len() && list[i] == listed;
    assert(keep(list[i]));
    list.lemma_filter_contains(keep, i);
}

/// Of the courses with a term only those of the latest are kept.
pub proof fn earlier_terms_are_dropped(list: Seq<ListedView>, i: int)
    requires
        0 <= i < list.filter(|other: ListedView| is_kept(other, latest_term(list))).len(),
    ensures
        list.filter(|other: ListedView| is_kept(other, latest_term(list)))[i].term is None
            || list.filter(|other: ListedView| is_kept(other, latest_term(list)))[i].term
            == latest_term(list),
{
    let keep = |other: ListedView| is_kept(other, latest_term(list));
    list.lemma_filter_pred(keep, i);
}

/// The term that counts as the latest has the greatest year of all terms in the list, and of those
/// with that year it is the autumn where there is one.
pub proof fn latest_term_is_current(list: Seq<ListedView>, i: int)
    requires
        0 <= i < list.len(),
        list[i].term is Some,
    ensures
        latest_term(list) is Some,
        list[i].term->0.year <= latest_term(list)->0.year,
        list[i].term->0.year == latest_term(list)->0.year && list[i].term->0.is_autumn
            ==> latest_term(list)->0.is_autumn,
{
    latest_is_latest(list);
}

/// A course with a term is kept exactly where no course of the list is of a later year, or of the
/// autumn of the year whose spring is its own.
pub proof fn kept_course_is_current(list: Seq<ListedView>, i: int)
    requires
        0 <= i < list.len(),
        list[i].term is Some,
    ensures
        is_kept(list[i], latest_term(list)) == forall|j: int|
            0 <= j < list.len() && (#[trigger] list[j]).term is Some ==> list[j].term->0.year
                < list[i].term->0.year || (list[j].term->0.year == list[i].term->0.year && (
            list[i].term->0.is_autumn || !list[j].term->0.is_autumn)),
{
    latest_is_latest(list);
    let latest = latest_term(list)->0;
    let k = choose|k: int| 0 <= k < list.len() && (#[trigger] list[k]).term == Some(latest);
    let term = list[i].term->0;
    if forall|j: int|
        0 <= j < list.len() && (#[trigger] list[j]).term is Some ==> list[j].term->0.year
            < term.year || (list[j].term->0.year == term.year && (term.is_autumn
            || !list[j].term->0.is_autumn)) {
        assert(list[k].term->0.year <= term.year);
        assert(!term_before(latest, term));
        latest_term_is_current(list, i);
        assert(latest == term);
    }
    if is_kept(list[i], latest_term(list)) {
        assert forall|j: int| 0 <= j < list.len() && (#[trigger] list[j]).term is Some implies
            list[j].term->0.year < term.year || (list[j].term->0.year == term.year && (
        term.is_autumn || !list[j].term->0.is_autumn)) by {
            latest_term_is_current(list, j);
        }
    }
}

/// A term is a year, the sign for years, and a season: autumn or spring. White space round the
/// year and the season does not matter. Nothing else is a term.
pub proof fn term_is_year_and_season(text: Seq<char>)
    ensures
        match split_once(text, '年') {
            None => term_in(text) is None,
            Some((year, season)) => {
                let number = integer_within(trim(year), true, -0x8000_0000, 0x7fff_ffff);
                &&& term_in(text) is Some == (number is Some && (trim(season) == seq!['秋']
                    || trim(season) == seq!['春']))
                &&& term_in(text) matches Some(term) ==> term.year == number->0
                    && term.is_autumn == (trim(season) == seq!['秋'])
            },
        },
{
    reveal_strlit("秋");
    reveal_strlit("春");
    assert("秋"@ =~= seq!['秋']);
    assert("春"@ =~= seq!['春']);
    assert(seq!['秋'][0] != seq!['春'][0]);
}

/// A field of a course holds a text: it is the text or the number under the field's name, and
/// empty where there is neither.
pub open spec fn holds_plain(item: Json, name: Seq<char>, text: Seq<char>) -> bool {
    match field(item, name) {
        Some(Json::Text(inner)) => inner@ == text,
        Some(Json::Number(inner)) => inner@ == text,
        _ => text.len() == 0,
    }
}

/// A course takes its number, the number of its class and its name each from its own field. An
/// item is no course exactly where it is no object, or has neither a class nor a name.
pub proof fn course_holds_its_fields(item: Json, class: Seq<char>, name: Seq<char>)
    requires
        holds_plain(item, "TClassID"@, class),
        holds_plain(item, "CourseName"@, name),
    ensures
        listed_in(item) is Some == (item is Object && (class.len() > 0 || name.len() > 0)),
        listed_in(item) matches Some(listed) ==> {
            &&& holds_plain(item, "CourseID"@, listed.course.class_id)
            &&& listed.course.tclass_id == class
            &&& listed.course.name == name
        },
{
    assert(plain_text(field(item, "TClassID"@)) =~= class);
    assert(plain_text(field(item, "CourseName"@)) =~= name);
}

/// The term of a course is that in its own field.
pub proof fn course_has_its_term(item: Json, term_name: Seq<char>)
    requires
        holds_plain(item, "TermName"@, term_name),
    ensures
        listed_in(item) matches Some(listed) ==> listed.term == term_in(term_name),
{
    assert(plain_text(field(item, "TermName"@)) =~= term_name);
}

/// A document holds a list of these items under a name.
pub open spec fn holds_list(json: Json, name: Seq<char>, items: Seq<Json>) -> bool {
    field(json, name) matches Some(Json::Array(list)) && list@ == items
}

/// A document holds no list under a name.
pub open spec fn holds_no_list(json: Json, name: Seq<char>) -> bool {
    !(field(json, name) is Some) || !(field(json, name)->0 is Array)
}

/// The list of courses is the answer itself where it is a list; otherwise it stands under the
/// first of four names that holds a list. Where none does the answer is refused.
pub proof fn course_list_is_found(json: Json, items: Seq<Json>)
    ensures
        json matches Json::Array(list) ==> course_list(json) == Ok::<Seq<CourseView>, ErrView>(
            courses_in(list@),
        ),
        !(json is Array) && (holds_list(json, "data"@, items) || (holds_no_list(json, "data"@) && (
        holds_list(json, "list"@, items) || (holds_no_list(json, "list"@) && (holds_list(
            json,
            "courses"@,
            items,
        ) || (holds_no_list(json, "courses"@) && holds_list(json, "items"@, items)))))))
            ==> course_list(json) == Ok::<Seq<CourseView>, ErrView>(courses_in(items)),
        !(json is Array) && holds_no_list(json, "data"@) && holds_no_list(json, "list"@)
            && holds_no_list(json, "courses"@) && holds_no_list(json, "items"@) ==> course_list(
            json,
        ) == Err::<Seq<CourseView>, ErrView>(ErrView::Parse("课程列表结构不符"@)),
{
}

/// The term of an item, where it has one, is as late as that of any other item.
pub open spec fn is_current(items: Seq<Json>, i: int) -> bool {
    listed_in(items[i]) matches Some(own) ==> own.term matches Some(term) ==> forall|j: int|
        0 <= j < items.len() ==> (listed_in(#[trigger] items[j]) matches Some(other)
            ==> other.term matches Some(theirs) ==> theirs.year < term.year || (theirs.year
            == term.year && (term.is_autumn || !theirs.is_autumn)))
}

/// The courses are those of the items that can be read and are of the current term or of none, in
/// the order of the list, none left out and none twice.
pub proof fn current_courses_are_kept_in_order(items: Seq<Json>) -> (at: Seq<int>)
    ensures
        at.len() == courses_in(items).len(),
        ascends(at),
        forall|k: int|
            0 <= k < at.len() ==> 0 <= #[trigger] at[k] < items.len() && listed_in(items[at[k]])
                is Some && courses_in(items)[k] == listed_in(items[at[k]])->0.course && is_current(
                items,
                at[k],
            ),
        forall|i: int|
            0 <= i < items.len() && listed_in(#[trigger] items[i]) is Some && is_current(items, i)
                ==> at.contains(i),
{
    let read = |item: Json| listed_in(item);
    let list = items.filter_map(read);
    let latest = latest_term(list);
    let kept = |listed: ListedView| is_kept(listed, latest);
    let from = given_in_order(items, read);
    let chosen = picked_in_order(list, kept);
    let at = Seq::new(chosen.len(), |k: int| from[chosen[k]]);
    assert forall|n: int| 0 <= n < list.len() implies is_current(items, from[n]) == kept(
        #[trigger] list[n],
    ) by {
        current_in_list(items, list, from, n);
    }
    assert(ascends(at)) by {
        assert forall|k: int, m: int| 0 <= k < m < at.len() implies (#[trigger] at[k]) < (
        #[trigger] at[m]) by {
            assert(chosen[k] < chosen[m]);
            assert(from[chosen[k]] < from[chosen[m]]);
        }
    }
    assert forall|k: int| 0 <= k < at.len() implies 0 <= #[trigger] at[k] < items.len()
        && listed_in(items[at[k]]) is Some && courses_in(items)[k] == listed_in(
        items[at[k]],
    )->0.course && is_current(items, at[k]) by {
        let n = chosen[k];
        assert(from[n] == at[k]);
        assert(read(items[from[n]]) == Some(list[n]));
    }
    assert forall|i: int|
        0 <= i < items.len() && listed_in(#[trigger] items[i]) is Some && is_current(
            items,
            i,
        ) implies at.contains(i) by {
        assert(read(items[i]) is Some);
        let n = choose|n: int| 0 <= n < from.len() && from[n] == i;
        assert(kept(list[n]));
        let k = choose|k: int| 0 <= k < chosen.len() && chosen[k] == n;
        assert(at[k] == i);
    }
    at
}

proof fn current_in_list(items: Seq<Json>, list: Seq<ListedView>, from: Seq<int>, n: int)
    requires
        from.len() == list.len(),
        0 <= n < list.len(),
        forall|k: int|
            0 <= k < from.len() ==> 0 <= #[trigger] from[k] < items.len() && listed_in(
                items[from[k]],
            ) == Some(list[k]),
        forall|i: int|
            0 <= i < items.len() && listed_in(#[trigger] items[i]) is Some ==> from.contains(i),
    ensures
        is_current(items, from[n]) == is_kept(list[n], latest_term(list)),
{
    if list[n].term is Some {
        let term = list[n].term->0;
        kept_course_is_current(list, n);
        assert(listed_in(items[from[n]]) == Some(list[n]));
        if is_current(items, from[n]) {
            assert forall|j: int|
                0 <= j < list.len() && (#[trigger] list[j]).term is Some implies list[j].term->0.year
                < term.year || (list[j].term->0.year == term.year && (term.is_autumn
                || !list[j].term->0.is_autumn)) by {
                assert(listed_in(items[from[j]]) == Some(list[j]));
            }
        }
        if is_kept(list[n], latest_term(list)) {
            assert forall|j: int| 0 <= j < items.len() implies (listed_in(
                #[trigger] items[j],
            ) matches Some(other) ==> other.term matches Some(theirs) ==> theirs.year < term.year
                || (theirs.year == term.year && (term.is_autumn || !theirs.is_autumn))) by {
                if listed_in(items[j]) is Some {
                    let m = choose|m: int| 0 <= m < from.len() && from[m] == j;
                    assert(listed_in(items[from[m]]) == Some(list[m]));
                    assert(list[m].term is Some ==> list[m].term->0.year < term.year || (
                    list[m].term->0.year == term.year && (term.is_autumn
                        || !list[m].term->0.is_autumn)));
                }
            }
        }
    }
}

} // verus!

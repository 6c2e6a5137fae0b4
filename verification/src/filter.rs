//! Which rows of a check-in list are worth checking in to.
use crate::clock::{moment_in, read_moment, Moment};
use crate::models::{views, RawRow, RowView};
use crate::text::{is_empty, same_text};
use vstd::hash_set::StringHashSet;
use vstd::prelude::*;

verus! {

/// How old an activity may be, in nanoseconds: ten minutes.
pub const MAX_ACTIVITY_AGE: i128 = 600000000000;

/// The numbers of the activities that were met before.
pub struct IdSet {
    ids: StringHashSet,
}

impl View for IdSet {
    type V = Set<Seq<char>>;

    closed spec fn view(&self) -> Set<Seq<char>> {
        self.ids@
    }
}

impl IdSet {
    /// A set without members.
    pub fn new() -> (r: IdSet)
        ensures
            r@ == Set::<Seq<char>>::empty(),
    {
        IdSet { ids: StringHashSet::new() }
    }

    /// Puts a number into the set, and says whether it is new there.
    pub fn insert(&mut self, id: String) -> (r: bool)
        ensures
            final(self)@ == old(self)@.insert(id@),
            r == !old(self)@.contains(id@),
    {
        self.ids.insert(id)
    }

    /// Whether a number is in the set.
    pub fn contains(&self, id: &str) -> (r: bool)
        ensures
            r == self@.contains(id@),
    {
        self.ids.contains(id)
    }
}

/// The point in time that the service writes in a row, where it writes one.
pub open spec fn time_in(text: Seq<char>) -> Option<Moment> {
    if text.len() == 0 {
        None
    } else {
        moment_in(text, "%Y/%m/%d %H:%M:%S"@)
    }
}

/// Reads the point in time that the service writes in a row.
pub fn parse_time(text: &str) -> (r: Option<Moment>)
    ensures
        r == time_in(text@),
        r matches Some(moment) ==> moment.in_range(),
{
    if is_empty(text) {
        return None;
    }
    read_moment(text, "%Y/%m/%d %H:%M:%S")
}

/// A row is worth checking in to, where its last and its first moment are as given: it was not
/// met before, nothing says that the student is checked in already, it can be applied for, its
/// last moment has not passed, and it is not older than ten minutes. A moment that is not known
/// is no hindrance.
pub open spec fn is_qualified_at(
    row: RowView,
    seen: Set<Seq<char>>,
    limit: Option<Moment>,
    created: Option<Moment>,
    now: Moment,
) -> bool {
    &&& !seen.contains(row.id)
    &&& row.checkin_status.len() == 0
    &&& row.checkin_date.len() == 0
    &&& row.student_id.len() == 0
    &&& row.status_id != "1"@
    &&& row.status_name != "出勤"@
    &&& row.can_apply == "1"@
    &&& limit matches Some(last) ==> now.no_later(last)
    &&& created matches Some(first) ==> now.since(first) <= MAX_ACTIVITY_AGE
}

/// A row is worth checking in to.
pub open spec fn is_qualified(row: RowView, seen: Set<Seq<char>>, now: Moment) -> bool {
    is_qualified_at(row, seen, time_in(row.apply_limit), time_in(row.creater_at), now)
}

/// Whether a row is worth checking in to, where its last and its first moment are as given.
pub fn qualified_at(
    activity: &RawRow,
    seen: &IdSet,
    limit: Option<Moment>,
    created: Option<Moment>,
    now: Moment,
) -> (r: bool)
    requires
        now.in_range(),
        created matches Some(first) ==> first.in_range(),
    ensures
        r == is_qualified_at(activity@, seen@, limit, created, now),
{
    if seen.contains(activity.id.as_str()) {
        return false;
    }
    if !is_empty(activity.checkin_status.as_str()) || !is_empty(activity.checkin_date.as_str())
        || !is_empty(activity.student_id.as_str()) {
        return false;
    }
    if same_text(activity.status_id.as_str(), "1") || same_text(
        activity.status_name.as_str(),
        "出勤",
    ) {
        return false;
    }
    if !same_text(activity.can_apply.as_str(), "1") {
        return false;
    }
    if let Some(last) = limit {
        if last.is_before(&now) {
            return false;
        }
    }
    if let Some(first) = created {
        if now.nanos_since(&first) > MAX_ACTIVITY_AGE {
            return false;
        }
    }
    true
}

/// Whether a row is worth checking in to.
pub fn qualified(activity: &RawRow, seen: &IdSet, now: Moment) -> (r: bool)
    requires
        now.in_range(),
    ensures
        r == is_qualified(activity@, seen@, now),
{
    let limit: Option<Moment> = parse_time(activity.apply_limit.as_str());
    let created: Option<Moment> = parse_time(activity.creater_at.as_str());
    qualified_at(activity, seen, limit, created, now)
}

/// The rows that are worth checking in to, in their order.
pub open spec fn qualified_rows(rows: Seq<RowView>, seen: Set<Seq<char>>, now: Moment) -> Seq<
    RowView,
> {
    rows.filter(|row: RowView| is_qualified(row, seen, now))
}

/// The rows that are worth checking in to, in their order.
pub fn qualified_activities<'a>(rows: &'a Vec<RawRow>, seen: &IdSet, now: Moment) -> (r: Vec<
    &'a RawRow,
>)
    requires
        now.in_range(),
    ensures
        views(r@) == qualified_rows(views(rows@), seen@, now),
{
    let mut picked: Vec<&'a RawRow> = Vec::new();
    let ghost all = views(rows@);
    let ghost worth = |row: RowView| is_qualified(row, seen@, now);
    let mut i: usize = 0;
    proof {
        assert(all.take(0) =~= Seq::empty());
        reveal(Seq::filter);
        assert(views(picked@) =~= all.take(0).filter(worth));
    }
    while i < rows.len()
        invariant
            i <= rows@.len(),
            now.in_range(),
            all == views(rows@),
            worth == (|row: RowView| is_qualified(row, seen@, now)),
            views(picked@) == all.take(i as int).filter(worth),
        decreases rows@.len() - i,
    {
        let ghost before = picked@;
        proof {
            reveal(Seq::filter);
            assert(all.take(i + 1).drop_last() =~= all.take(i as int));
            assert(all.take(i + 1).last() == rows@[i as int]@);
        }
        if qualified(&rows[i], seen, now) {
            picked.push(&rows[i]);
            assert(views(picked@) =~= views(before).push(rows@[i as int]@));
        }
        i = i + 1;
    }
    assert(all.take(rows@.len() as int) =~= all);
    picked
}

/// An activity that was met before is never picked again.
pub proof fn seen_is_never_qualified(row: RowView, seen: Set<Seq<char>>, now: Moment)
    requires
        seen.contains(row.id),
    ensures
        !is_qualified(row, seen, now),
{
}

/// The age of what was made at a time does not come out smaller later on. A leap second can upset
/// this: what was made in one is a second older before midnight than after, and a time in one is
/// counted past the second that follows it. It is upset neither where no leap second is near, nor
/// where the later time is of the day on which the thing was made and the earlier one lies in no
/// leap second.
pub open spec fn ages_steadily(first: Moment, now: Moment, later: Moment) -> bool {
    ||| now.is_plain() && later.is_plain() && first.is_plain()
    ||| now.is_plain() && first.day() == later.day()
    ||| now.seconds == later.seconds && now.is_plain() == later.is_plain()
    ||| later.seconds - now.seconds >= 3
}

/// As time passes and more activities are met a row can cease to be worth checking in to, but
/// never becomes so again. Left out are the times beside a leap second between which the age of
/// the row can come out smaller later on.
pub proof fn qualified_shrinks(
    row: RowView,
    seen: Set<Seq<char>>,
    more: Set<Seq<char>>,
    now: Moment,
    later: Moment,
)
    requires
        seen.subset_of(more),
        now.in_range(),
        later.in_range(),
        now.no_later(later),
        time_in(row.creater_at) matches Some(first) ==> first.nanos < 2000000000 && ages_steadily(
            first,
            now,
            later,
        ),
        is_qualified(row, more, later),
    ensures
        is_qualified(row, seen, now),
{
}

/// A row that was made in the future is worth checking in to as if it did not say when it was
/// made.
pub proof fn future_is_no_hindrance(
    row: RowView,
    seen: Set<Seq<char>>,
    limit: Option<Moment>,
    first: Moment,
    now: Moment,
)
    requires
        now.no_later(first),
        now.in_range(),
        first.in_range(),
    ensures
        is_qualified_at(row, seen, limit, Some(first), now) == is_qualified_at(
            row,
            seen,
            limit,
            None,
            now,
        ),
{
}

/// A row that tells of a check-in, of its date or of the student, that has status one, or that
/// counts the student as present, is never picked: whoever is checked in already is not checked in
/// again, even where the row can be applied for.
pub proof fn signed_row_is_passed_over(
    row: RowView,
    seen: Set<Seq<char>>,
    limit: Option<Moment>,
    created: Option<Moment>,
    now: Moment,
)
    requires
        row.checkin_status.len() > 0 || row.checkin_date.len() > 0 || row.student_id.len() > 0
            || row.status_id == "1"@ || row.status_name == "出勤"@,
    ensures
        !is_qualified_at(row, seen, limit, created, now),
        !is_qualified(row, seen, now),
{
}

/// A row that cannot be applied for, or whose last moment has passed, is never picked; the last
/// moment itself is in time.
pub proof fn closed_row_is_passed_over(
    row: RowView,
    seen: Set<Seq<char>>,
    limit: Option<Moment>,
    created: Option<Moment>,
    now: Moment,
)
    ensures
        row.can_apply != "1"@ ==> !is_qualified_at(row, seen, limit, created, now),
        limit matches Some(last) ==> (last.seconds < now.seconds || (last.seconds == now.seconds
            && last.nanos < now.nanos)) ==> !is_qualified_at(row, seen, limit, created, now),
        limit == Some(now) ==> is_qualified_at(row, seen, limit, created, now) == is_qualified_at(
            row,
            seen,
            None,
            created,
            now,
        ),
{
}

/// Outside leap seconds a row is too old exactly where it was made more than ten minutes ago, to
/// the nanosecond.
pub proof fn old_row_is_passed_over(
    row: RowView,
    seen: Set<Seq<char>>,
    limit: Option<Moment>,
    first: Moment,
    now: Moment,
)
    requires
        first.nanos < 1000000000,
        now.nanos < 1000000000,
    ensures
        is_qualified_at(row, seen, limit, Some(first), now) == (is_qualified_at(
            row,
            seen,
            limit,
            None,
            now,
        ) && (now.seconds - first.seconds < 600 || (now.seconds - first.seconds == 600
            && now.nanos <= first.nanos))),
{
}

/// A row that was not met, tells of no check-in, can be applied for and is neither over nor older
/// than ten minutes is picked, whatever kind it is of and whatever else it says.
pub proof fn open_row_is_picked(row: RowView, seen: Set<Seq<char>>, now: Moment)
    requires
        !seen.contains(row.id),
        row.checkin_status.len() == 0,
        row.checkin_date.len() == 0,
        row.student_id.len() == 0,
        row.status_id != "1"@,
        row.status_name != "出勤"@,
        row.can_apply == "1"@,
        row.apply_limit.len() == 0 || (moment_in(row.apply_limit, "%Y/%m/%d %H:%M:%S"@)
            matches Some(last) ==> now.seconds < last.seconds),
        row.creater_at.len() == 0 || (moment_in(row.creater_at, "%Y/%m/%d %H:%M:%S"@)
            matches Some(first) ==> first.nanos < 1000000000 && now.nanos < 1000000000
            && now.seconds - first.seconds < 600),
    ensures
        is_qualified(row, seen, now),
{
}

/// The last moment of a row stands in one field and the moment at which it was made in another: a
/// row whose last moment lies before now is passed over, and so is one that was made more than ten
/// minutes ago.
pub proof fn times_are_read_from_their_fields(row: RowView, seen: Set<Seq<char>>, now: Moment)
    ensures
        row.apply_limit.len() > 0 && (moment_in(row.apply_limit, "%Y/%m/%d %H:%M:%S"@)
            matches Some(last) && last.seconds < now.seconds) ==> !is_qualified(row, seen, now),
        row.creater_at.len() > 0 && (moment_in(row.creater_at, "%Y/%m/%d %H:%M:%S"@)
            matches Some(first) && first.nanos < 1000000000 && now.nanos < 1000000000
            && now.seconds - first.seconds > 600) ==> !is_qualified(row, seen, now),
{
}

/// What is picked from a list are rows of it, each worth checking in to, and every row of it that
/// is so is picked.
pub proof fn picked_rows_are_the_open_ones(
    rows: Seq<RowView>,
    seen: Set<Seq<char>>,
    now: Moment,
    row: RowView,
)
    ensures
        qualified_rows(rows, seen, now).contains(row) == (rows.contains(row) && is_qualified(
            row,
            seen,
            now,
        )),
{
    let keeps = |row: RowView| is_qualified(row, seen, now);
    let picked = qualified_rows(rows, seen, now);
    if picked.contains(row) {
        let i = choose|i: int| 0 <= i < picked.len() && picked[i] == row;
        rows.lemma_filter_contains_rev(keeps, row);
        rows.lemma_filter_pred(keeps, i);
    }
    if rows.contains(row) && is_qualified(row, seen, now) {
        let i = choose|i: int| 0 <= i < rows.len() && rows[i] == row;
        assert(keeps(rows[i]));
        rows.lemma_filter_contains(keeps, i);
    }
}

/// Rows are picked in their order: what is picked from one list and then another is what is picked
/// from both put together.
pub proof fn rows_are_picked_in_order(
    rows: Seq<RowView>,
    more: Seq<RowView>,
    seen: Set<Seq<char>>,
    now: Moment,
)
    ensures
        qualified_rows(rows + more, seen, now) == qualified_rows(rows, seen, now) + qualified_rows(
            more,
            seen,
            now,
        ),
{
    Seq::filter_distributes_over_add(rows, more, |row: RowView| is_qualified(row, seen, now));
}

} // verus!

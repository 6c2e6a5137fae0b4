//! What the monitor window counts of its activities.
use crate::models::views;
use crate::monitor::{kind_or_unknown, ActivityRow, ActivityRowView, ActivityStatus};
use crate::text::{
    comes_before, copy_of, order_is_irreflexive, order_is_total, order_is_transitive, same_text,
    text_before, texts,
};
use vstd::prelude::*;

verus! {

/// How often a name occurs in a list.
pub open spec fn times(names: Seq<Seq<char>>, name: Seq<char>) -> int
    decreases names.len(),
{
    if names.len() == 0 {
        0
    } else {
        times(names.drop_last(), name) + if names.last() == name {
            1int
        } else {
            0int
        }
    }
}

/// A name with its count.
pub type CountView = (Seq<char>, int);

/// What a list of counts holds.
pub open spec fn counts_of(list: Seq<(String, usize)>) -> Seq<CountView> {
    list.map_values(|entry: (String, usize)| (entry.0@, entry.1 as int))
}

/// Each name comes before those behind it.
pub open spec fn counts_ascend(counts: Seq<CountView>) -> bool {
    forall|i: int, j: int|
        0 <= i < j < counts.len() ==> text_before(
            (#[trigger] counts[i]).0,
            (#[trigger] counts[j]).0,
        )
}

/// A name is among counts.
pub open spec fn is_counted(counts: Seq<CountView>, name: Seq<char>) -> bool {
    exists|k: int| 0 <= k < counts.len() && (#[trigger] counts[k]).0 == name
}

/// The counts of a list of names: every name of the list once, in the order of the names, with
/// how often it occurs.
pub open spec fn is_tally(counts: Seq<CountView>, names: Seq<Seq<char>>) -> bool {
    &&& counts_ascend(counts)
    &&& forall|k: int|
        0 <= k < counts.len() ==> (#[trigger] counts[k]).1 == times(names, counts[k].0)
            && counts[k].1 >= 1
    &&& forall|i: int| 0 <= i < names.len() ==> is_counted(counts, #[trigger] names[i])
}

proof fn times_is_bounded(names: Seq<Seq<char>>, name: Seq<char>)
    ensures
        0 <= times(names, name) <= names.len(),
        (forall|i: int| 0 <= i < names.len() ==> names[i] != name) ==> times(names, name) == 0,
    decreases names.len(),
{
    if names.len() > 0 {
        let rest = names.drop_last();
        times_is_bounded(rest, name);
        if forall|i: int| 0 <= i < names.len() ==> names[i] != name {
            assert forall|i: int| 0 <= i < rest.len() implies rest[i] != name by {
                assert(rest[i] == names[i]);
            }
            assert(names[names.len() - 1] != name);
        }
    }
}

/// Counts one name more.
fn count_one(counts: &mut Vec<(String, usize)>, name: &str, names: Ghost<Seq<Seq<char>>>)
    requires
        is_tally(counts_of(old(counts)@), names@),
        names@.len() < usize::MAX,
    ensures
        is_tally(counts_of(final(counts)@), names@.push(name@)),
{
    let ghost start = counts_of(counts@);
    let ghost all = names@.push(name@);
    let mut i: usize = 0;
    while i < counts.len() && comes_before(counts[i].0.as_str(), name)
        invariant
            i <= counts@.len(),
            start == counts_of(counts@),
            forall|k: int| 0 <= k < i ==> text_before((#[trigger] start[k]).0, name@),
        decreases counts@.len() - i,
    {
        assert(start[i as int].0 == counts@[i as int].0@);
        i = i + 1;
    }
    let ghost at = i as int;
    proof {
        assert(all.drop_last() =~= names@);
        assert forall|k: int| 0 <= k < start.len() && (#[trigger] start[k]).0
            != name@ implies start[k].1 == times(all, start[k].0) by {}
    }
    if i < counts.len() && same_text(counts[i].0.as_str(), name) {
        assert(start[at].0 == name@);
        proof {
            times_is_bounded(names@, name@);
            assert(start[at].1 == times(names@, name@));
        }
        let count: usize = counts[i].1 + 1;
        counts.set(i, (copy_of(name), count));
        proof {
            let end = counts_of(counts@);
            assert(end =~= start.update(at, (name@, count as int)));
            assert forall|k: int| 0 <= k < end.len() implies (#[trigger] end[k]).0
                == start[k].0 by {}
            assert(counts_ascend(end)) by {
                assert forall|a: int, b: int| 0 <= a < b < end.len() implies text_before(
                    (#[trigger] end[a]).0,
                    (#[trigger] end[b]).0,
                ) by {
                    assert(text_before(start[a].0, start[b].0));
                }
            }
            assert forall|k: int| 0 <= k < end.len() implies (#[trigger] end[k]).1 == times(
                all,
                end[k].0,
            ) && end[k].1 >= 1 by {
                if k != at {
                    assert(start[k].0 != name@) by {
                        order_is_irreflexive(name@);
                        if k < at {
                            assert(text_before(start[k].0, start[at].0));
                        } else {
                            assert(text_before(start[at].0, start[k].0));
                        }
                    }
                }
            }
            assert forall|n: int| 0 <= n < all.len() implies is_counted(
                end,
                #[trigger] all[n],
            ) by {
                if n < names@.len() {
                    assert(is_counted(start, names@[n]));
                    let k = choose|k: int|
                        0 <= k < start.len() && (#[trigger] start[k]).0 == names@[n];
                    assert(end[k].0 == all[n]);
                } else {
                    assert(end[at].0 == name@);
                }
            }
        }
    } else {
        counts.insert(i, (copy_of(name), 1));
        proof {
            let end = counts_of(counts@);
            assert(end =~= start.insert(at, (name@, 1int)));
            assert forall|k: int| at <= k < start.len() implies text_before(
                name@,
                (#[trigger] start[k]).0,
            ) by {
                order_is_total(start[at].0, name@);
                if k > at {
                    assert(text_before(start[at].0, start[k].0));
                    order_is_transitive(name@, start[at].0, start[k].0);
                }
            }
            assert forall|k: int| 0 <= k < start.len() implies (#[trigger] start[k]).0
                != name@ by {
                order_is_irreflexive(name@);
            }
            assert(counts_ascend(end)) by {
                assert forall|a: int, b: int| 0 <= a < b < end.len() implies text_before(
                    (#[trigger] end[a]).0,
                    (#[trigger] end[b]).0,
                ) by {
                    let x = if a < at {
                        a
                    } else {
                        a - 1
                    };
                    let y = if b < at {
                        b
                    } else {
                        b - 1
                    };
                    if a != at && b != at {
                        assert(text_before(start[x].0, start[y].0));
                        assert(end[a] == start[x] && end[b] == start[y]);
                    } else if a == at {
                        assert(end[b] == start[y]);
                    } else {
                        assert(end[a] == start[x]);
                    }
                }
            }
            assert(times(names@, name@) == 0) by {
                times_is_bounded(names@, name@);
                assert forall|n: int| 0 <= n < names@.len() implies names@[n] != name@ by {
                    assert(is_counted(start, names@[n]));
                }
            }
            assert forall|k: int| 0 <= k < end.len() implies (#[trigger] end[k]).1 == times(
                all,
                end[k].0,
            ) && end[k].1 >= 1 by {
                if k < at {
                    assert(end[k] == start[k]);
                } else if k > at {
                    assert(end[k] == start[k - 1]);
                }
            }
            assert forall|n: int| 0 <= n < all.len() implies is_counted(
                end,
                #[trigger] all[n],
            ) by {
                if n < names@.len() {
                    assert(is_counted(start, names@[n]));
                    let k = choose|k: int|
                        0 <= k < start.len() && (#[trigger] start[k]).0 == names@[n];
                    let m = if k < at {
                        k
                    } else {
                        k + 1
                    };
                    assert(end[m].0 == all[n]);
                } else {
                    assert(end[at].0 == name@);
                }
            }
        }
    }
}

/// Counts the names of a list.
pub fn tally(names: &Vec<String>) -> (r: Vec<(String, usize)>)
    ensures
        is_tally(counts_of(r@), texts(names@)),
{
    let mut counts: Vec<(String, usize)> = Vec::new();
    let ghost all = texts(names@);
    let mut i: usize = 0;
    assert(all.take(0) =~= Seq::empty());
    assert(counts_of(counts@) =~= Seq::empty());
    while i < names.len()
        invariant
            i <= names.len(),
            names@.len() == names.len(),
            all == texts(names@),
            is_tally(counts_of(counts@), all.take(i as int)),
        decreases names@.len() - i,
    {
        assert(all.take(i + 1) =~= all.take(i as int).push(names@[i as int]@));
        count_one(&mut counts, names[i].as_str(), Ghost(all.take(i as int)));
        i = i + 1;
    }
    assert(all.take(all.len() as int) =~= all);
    counts
}

/// A list has one tally: two tallies of it are the same, entry by entry.
pub proof fn tally_is_unique(a: Seq<CountView>, b: Seq<CountView>, names: Seq<Seq<char>>)
    requires
        is_tally(a, names),
        is_tally(b, names),
    ensures
        a == b,
{
    counted_is_there(a, names);
    counted_is_there(b, names);
    assert forall|name: Seq<char>| is_counted(a, name) == is_counted(b, name) by {
        if is_counted(a, name) {
            let i = choose|i: int| 0 <= i < names.len() && names[i] == name;
            assert(is_counted(b, names[i]));
        }
        if is_counted(b, name) {
            let i = choose|i: int| 0 <= i < names.len() && names[i] == name;
            assert(is_counted(a, names[i]));
        }
    }
    ascending_is_unique(a, b, names);
}

/// No name behind the last one: the last name of counts is the only one that does not come
/// before it.
proof fn last_is_greatest(counts: Seq<CountView>, name: Seq<char>)
    requires
        counts_ascend(counts),
        counts.len() > 0,
        is_counted(counts, name),
    ensures
        name == counts.last().0 || text_before(name, counts.last().0),
        is_counted(counts.drop_last(), name) == (name != counts.last().0),
{
    let rest = counts.drop_last();
    let last = counts.last();
    let k = choose|k: int| 0 <= k < counts.len() && (#[trigger] counts[k]).0 == name;
    order_is_irreflexive(last.0);
    if k < rest.len() {
        assert(text_before(counts[k].0, counts[counts.len() - 1].0));
        assert(rest[k].0 == name);
    } else if is_counted(rest, name) {
        let m = choose|m: int| 0 <= m < rest.len() && (#[trigger] rest[m]).0 == name;
        assert(text_before(counts[m].0, counts[counts.len() - 1].0));
    }
}

proof fn ascending_is_unique(a: Seq<CountView>, b: Seq<CountView>, names: Seq<Seq<char>>)
    requires
        counts_ascend(a),
        counts_ascend(b),
        forall|k: int| 0 <= k < a.len() ==> (#[trigger] a[k]).1 == times(names, a[k].0),
        forall|k: int| 0 <= k < b.len() ==> (#[trigger] b[k]).1 == times(names, b[k].0),
        forall|name: Seq<char>| #[trigger] is_counted(a, name) == is_counted(b, name),
    ensures
        a == b,
    decreases a.len(),
{
    if a.len() == 0 {
        if b.len() > 0 {
            assert(b[0].0 == b[0].0);
            assert(is_counted(b, b[0].0));
            assert(is_counted(a, b[0].0));
        }
        assert(a =~= b);
    } else {
        assert(a[a.len() - 1].0 == a.last().0);
        assert(is_counted(a, a.last().0));
        assert(is_counted(b, a.last().0));
        assert(b.len() > 0);
        assert(b[b.len() - 1].0 == b.last().0);
        assert(is_counted(b, b.last().0));
        assert(is_counted(a, b.last().0));
        last_is_greatest(b, a.last().0);
        last_is_greatest(a, b.last().0);
        if a.last().0 != b.last().0 {
            order_is_transitive(a.last().0, b.last().0, a.last().0);
            order_is_irreflexive(a.last().0);
        }
        assert(a[a.len() - 1].1 == b[b.len() - 1].1);
        let (x, y) = (a.drop_last(), b.drop_last());
        assert(counts_ascend(x)) by {
            assert forall|i: int, j: int| 0 <= i < j < x.len() implies text_before(
                (#[trigger] x[i]).0,
                (#[trigger] x[j]).0,
            ) by {
                assert(x[i] == a[i] && x[j] == a[j]);
            }
        }
        assert(counts_ascend(y)) by {
            assert forall|i: int, j: int| 0 <= i < j < y.len() implies text_before(
                (#[trigger] y[i]).0,
                (#[trigger] y[j]).0,
            ) by {
                assert(y[i] == b[i] && y[j] == b[j]);
            }
        }
        assert forall|name: Seq<char>| #[trigger] is_counted(x, name) == is_counted(y, name) by {
            if is_counted(x, name) {
                let k = choose|k: int| 0 <= k < x.len() && (#[trigger] x[k]).0 == name;
                assert(a[k].0 == name);
                assert(is_counted(a, name));
                last_is_greatest(a, name);
                last_is_greatest(b, name);
            }
            if is_counted(y, name) {
                let k = choose|k: int| 0 <= k < y.len() && (#[trigger] y[k]).0 == name;
                assert(b[k].0 == name);
                assert(is_counted(b, name));
                last_is_greatest(a, name);
                last_is_greatest(b, name);
            }
        }
        ascending_is_unique(x, y, names);
        assert(a =~= x.push(a.last()));
        assert(b =~= y.push(b.last()));
    }
}

proof fn counted_is_there(counts: Seq<CountView>, names: Seq<Seq<char>>)
    requires
        is_tally(counts, names),
    ensures
        forall|name: Seq<char>|
            is_counted(counts, name) ==> exists|i: int| 0 <= i < names.len() && names[i] == name,
{
    assert forall|name: Seq<char>| is_counted(counts, name) implies exists|i: int|
        0 <= i < names.len() && names[i] == name by {
        let k = choose|k: int| 0 <= k < counts.len() && (#[trigger] counts[k]).0 == name;
        times_is_bounded(names, name);
        assert(counts[k].1 == times(names, name));
    }
}

// ---------------------------------------------------------------------------------------
// Activities

/// The tone in which a kind of activity is drawn.
#[derive(Clone, Copy, Debug, PartialEq, Eq, Structural)]
pub enum Tone {
    Info,
    Success,
    Warning,
    Muted,
}

/// The tone of a kind of activity.
pub open spec fn tone_of(kind: Seq<char>) -> Tone {
    if kind == "数字码"@ {
        Tone::Info
    } else if kind == "二维码"@ {
        Tone::Success
    } else if kind == "定位"@ {
        Tone::Warning
    } else {
        Tone::Muted
    }
}

/// The tone of a kind of activity.
pub fn kind_tone(kind: &str) -> (r: Tone)
    ensures
        r == tone_of(kind@),
{
    if same_text(kind, "数字码") {
        Tone::Info
    } else if same_text(kind, "二维码") {
        Tone::Success
    } else if same_text(kind, "定位") {
        Tone::Warning
    } else {
        Tone::Muted
    }
}

/// The word for the result of an activity, where it has one.
pub open spec fn result_word(status: ActivityStatus) -> Option<Seq<char>> {
    match status {
        ActivityStatus::Success => Some("成功"@),
        ActivityStatus::Failed => Some("失败"@),
        ActivityStatus::Gone => Some("失败"@),
        ActivityStatus::Detected => None,
    }
}

/// The courses of activities.
pub open spec fn courses_of(rows: Seq<ActivityRowView>) -> Seq<Seq<char>> {
    rows.map_values(|row: ActivityRowView| row.course)
}

/// The kinds of activities.
pub open spec fn kinds_of(rows: Seq<ActivityRowView>) -> Seq<Seq<char>> {
    rows.map_values(|row: ActivityRowView| kind_or_unknown(row.kind))
}

/// The results of those activities that have one.
pub open spec fn results_of(rows: Seq<ActivityRowView>) -> Seq<Seq<char>> {
    rows.filter_map(|row: ActivityRowView| result_word(row.status))
}

/// How many activities each course has.
pub fn count_courses(rows: &Vec<ActivityRow>) -> (r: Vec<(String, usize)>)
    ensures
        is_tally(counts_of(r@), courses_of(views(rows@))),
{
    let mut names: Vec<String> = Vec::new();
    let ghost all = courses_of(views(rows@));
    let mut i: usize = 0;
    assert(texts(names@) =~= all.take(0));
    while i < rows.len()
        invariant
            i <= rows@.len(),
            all == courses_of(views(rows@)),
            texts(names@) == all.take(i as int),
        decreases rows@.len() - i,
    {
        let ghost before = names@;
        names.push(copy_of(rows[i].course.as_str()));
        assert(all[i as int] == rows@[i as int]@.course);
        assert(texts(names@) =~= texts(before).push(all[i as int]));
        assert(all.take(i + 1) =~= all.take(i as int).push(all[i as int]));
        i = i + 1;
    }
    assert(all.take(all.len() as int) =~= all);
    tally(&names)
}

/// How many activities there are of each kind.
pub fn count_kinds(rows: &Vec<ActivityRow>) -> (r: Vec<(String, usize)>)
    ensures
        is_tally(counts_of(r@), kinds_of(views(rows@))),
{
    let mut names: Vec<String> = Vec::new();
    let ghost all = kinds_of(views(rows@));
    let mut i: usize = 0;
    assert(texts(names@) =~= all.take(0));
    while i < rows.len()
        invariant
            i <= rows@.len(),
            all == kinds_of(views(rows@)),
            texts(names@) == all.take(i as int),
        decreases rows@.len() - i,
    {
        let ghost before = names@;
        names.push(rows[i].kind_label());
        assert(all[i as int] == kind_or_unknown(rows@[i as int]@.kind));
        assert(texts(names@) =~= texts(before).push(all[i as int]));
        assert(all.take(i + 1) =~= all.take(i as int).push(all[i as int]));
        i = i + 1;
    }
    assert(all.take(all.len() as int) =~= all);
    tally(&names)
}

/// How many activities there are of each result.
pub fn count_results(rows: &Vec<ActivityRow>) -> (r: Vec<(String, usize)>)
    ensures
        is_tally(counts_of(r@), results_of(views(rows@))),
{
    let mut names: Vec<String> = Vec::new();
    let ghost all = views(rows@);
    let ghost word = |row: ActivityRowView| result_word(row.status);
    let mut i: usize = 0;
    assert(all.take(0) =~= Seq::empty());
    assert(texts(names@) =~= all.take(0).filter_map(word));
    while i < rows.len()
        invariant
            i <= rows@.len(),
            all == views(rows@),
            word == (|row: ActivityRowView| result_word(row.status)),
            texts(names@) == all.take(i as int).filter_map(word),
        decreases rows@.len() - i,
    {
        let ghost before = names@;
        assert(all.take(i + 1).drop_last() =~= all.take(i as int));
        assert(all.take(i + 1).last() == rows@[i as int]@);
        match rows[i].status {
            ActivityStatus::Success => {
                names.push(copy_of("成功"));
                assert(texts(names@) =~= texts(before) + seq!["成功"@]);
            },
            ActivityStatus::Failed => {
                names.push(copy_of("失败"));
                assert(texts(names@) =~= texts(before) + seq!["失败"@]);
            },
            ActivityStatus::Gone => {
                names.push(copy_of("失败"));
                assert(texts(names@) =~= texts(before) + seq!["失败"@]);
            },
            ActivityStatus::Detected => {},
        }
        i = i + 1;
    }
    assert(all.take(all.len() as int) =~= all);
    tally(&names)
}

/// How often a name occurs adds up over the parts of a list, and is the number of its places.
pub proof fn times_add_up(a: Seq<Seq<char>>, b: Seq<Seq<char>>, name: Seq<char>)
    ensures
        times(a + b, name) == times(a, name) + times(b, name),
        times(seq![name], name) == 1,
        0 <= times(a, name) <= a.len(),
        (times(a, name) > 0) == a.contains(name),
    decreases a.len() + b.len(),
{
    reveal_with_fuel(times, 2);
    assert(seq![name].drop_last() =~= Seq::empty());
    if b.len() > 0 {
        times_add_up(a, b.drop_last(), name);
        assert((a + b).drop_last() =~= a + b.drop_last());
    } else {
        assert(a + b =~= a);
        if a.len() > 0 {
            let rest = a.drop_last();
            times_add_up(rest, b, name);
            if rest.contains(name) {
                let i = choose|i: int| 0 <= i < rest.len() && rest[i] == name;
                assert(a[i] == name);
            }
            if a.contains(name) && a.last() != name {
                let i = choose|i: int| 0 <= i < a.len() && a[i] == name;
                assert(rest[i] == name);
            }
            if a.last() == name {
                assert(a[a.len() - 1] == name);
            }
        }
    }
}

/// Each kind of activity has its own tone, and every other kind a muted one.
pub proof fn tone_tells_kind(kind: Seq<char>)
    ensures
        (tone_of(kind) == Tone::Info) == (kind == "数字码"@),
        (tone_of(kind) == Tone::Success) == (kind == "二维码"@),
        (tone_of(kind) == Tone::Warning) == (kind == "定位"@),
        (tone_of(kind) == Tone::Muted) == (kind != "数字码"@ && kind != "二维码"@ && kind
            != "定位"@),
{
    reveal_strlit("数字码");
    reveal_strlit("二维码");
    reveal_strlit("定位");
    assert("数字码"@[0] != "二维码"@[0]);
    assert("数字码"@[0] != "定位"@[0]);
    assert("二维码"@[0] != "定位"@[0]);
}

/// An activity counts among the results once it is over: as a success where it was one, and else
/// as a failure. One that is still waited for counts nowhere.
pub proof fn only_ended_activities_count(rows: Seq<ActivityRowView>, row: ActivityRowView)
    ensures
        courses_of(rows.push(row)) == courses_of(rows).push(row.course),
        row.kind.len() > 0 ==> kinds_of(rows.push(row)) == kinds_of(rows).push(row.kind),
        row.kind.len() == 0 ==> kinds_of(rows.push(row)) == kinds_of(rows).push("未知"@),
        row.status == ActivityStatus::Detected ==> results_of(rows.push(row)) == results_of(rows),
        row.status == ActivityStatus::Success ==> results_of(rows.push(row)) == results_of(
            rows,
        ).push("成功"@),
        row.status == ActivityStatus::Failed || row.status == ActivityStatus::Gone ==> results_of(
            rows.push(row),
        ) == results_of(rows).push("失败"@),
        courses_of(Seq::empty()).len() == 0,
        kinds_of(Seq::empty()).len() == 0,
        results_of(Seq::empty()).len() == 0,
{
    reveal(Seq::filter_map);
    assert(rows.push(row).drop_last() =~= rows);
    assert(courses_of(rows.push(row)) =~= courses_of(rows).push(row.course));
    assert(kinds_of(rows.push(row)) =~= kinds_of(rows).push(kind_or_unknown(row.kind)));
    let word = |row: ActivityRowView| result_word(row.status);
    if row.status != ActivityStatus::Detected {
        assert(results_of(rows.push(row)) =~= results_of(rows).push(result_word(row.status)->0));
    }
}

} // verus!

//! Finding a room by its distances: three points are tried round a base, the place that their
//! distances name is tried next, and becomes the base of another turn where it is not near
//! enough.
use crate::api::{CheckInResult, ResultView};
use crate::html::{distance_in, parse_distance_meters};
use crate::text::{concat2, copy_of, texts};
use vstd::prelude::*;

verus! {

/// How many turns are taken.
pub const MAX_TURNS: u32 = 3;

/// How long to wait after a point was tried, in milliseconds.
pub const PROBE_PAUSE_MILLIS: u64 = 300;

/// Which place a success teaches: none, the point that was tried, or the computed place.
#[derive(Clone, Copy, Debug, PartialEq, Eq, Structural)]
pub enum Learned {
    Nothing,
    Probe,
    Center,
}

/// What comes next: the next point round the base is tried, the place is tried that the three
/// distances name, or it is over.
pub enum Action {
    Probe,
    Center,
    Finish { result: CheckInResult, learned: Learned },
}

/// What an action holds.
#[verifier::ext_equal]
pub ghost enum ActionView {
    Probe,
    Center,
    Finish { result: ResultView, learned: Learned },
}

impl View for Action {
    type V = ActionView;

    open spec fn view(&self) -> ActionView {
        match *self {
            Action::Probe => ActionView::Probe,
            Action::Center => ActionView::Center,
            Action::Finish { result, learned } => ActionView::Finish { result: result@, learned },
        }
    }
}

/// A search under way: how many turns were taken, and the distances of this turn in decimal
/// notation.
pub struct Triangulation {
    turns: u32,
    distances: Vec<String>,
}

/// What a search under way holds.
#[verifier::ext_equal]
pub ghost struct SearchView {
    pub turns: int,
    pub distances: Seq<Seq<char>>,
}

impl View for Triangulation {
    type V = SearchView;

    closed spec fn view(&self) -> SearchView {
        SearchView { turns: self.turns as int, distances: texts(self.distances@) }
    }
}

/// A search before anything was tried.
pub open spec fn search_begun() -> SearchView {
    SearchView { turns: 0, distances: Seq::empty() }
}

/// That a refusal without a distance ends the search.
pub open spec fn hopeless(message: Seq<char>) -> ActionView {
    ActionView::Finish {
        result: ResultView::Failed("三角定位失败: "@ + message),
        learned: Learned::Nothing,
    }
}

/// What the result of a point leads to. A success or an end is passed on, and a success teaches
/// the point; a refusal gives a distance, and after the third the place is tried.
pub open spec fn after_probe(search: SearchView, result: ResultView) -> (SearchView, ActionView) {
    match result {
        ResultView::Success(_) => (
            search,
            ActionView::Finish { result, learned: Learned::Probe },
        ),
        ResultView::Gone(_) => (
            search,
            ActionView::Finish { result, learned: Learned::Nothing },
        ),
        ResultView::Failed(message) => match distance_in(message) {
            None => (search, hopeless(message)),
            Some(distance) => {
                let next = SearchView { distances: search.distances.push(distance), ..search };
                (
                    next,
                    if next.distances.len() < 3 {
                        ActionView::Probe
                    } else {
                        ActionView::Center
                    },
                )
            },
        },
    }
}

/// What the result of the computed place leads to. A success teaches the place; a refusal from
/// near by is passed on; one from afar has another turn taken from there, but no more than three
/// in all.
pub open spec fn after_center(
    search: SearchView,
    result: ResultView,
    near: bool,
) -> (SearchView, ActionView) {
    match result {
        ResultView::Success(_) => (
            search,
            ActionView::Finish { result, learned: Learned::Center },
        ),
        ResultView::Gone(_) => (
            search,
            ActionView::Finish { result, learned: Learned::Nothing },
        ),
        ResultView::Failed(message) => if distance_in(message) is None {
            (search, hopeless(message))
        } else if near {
            (search, ActionView::Finish { result, learned: Learned::Nothing })
        } else {
            let next = SearchView { turns: search.turns + 1, distances: Seq::empty() };
            (
                next,
                if next.turns < MAX_TURNS {
                    ActionView::Probe
                } else {
                    ActionView::Finish {
                        result: ResultView::Failed("多次三角定位未成功"@),
                        learned: Learned::Nothing,
                    }
                },
            )
        },
    }
}

/// How many more attempts a search can take.
pub open spec fn attempts_left(search: SearchView) -> int {
    (MAX_TURNS - search.turns) * 4 - search.distances.len()
}

fn failed_search(message: &str) -> (r: Action)
    ensures
        r@ == hopeless(message@),
{
    Action::Finish {
        result: CheckInResult::Failed(concat2("三角定位失败: ", message)),
        learned: Learned::Nothing,
    }
}

impl Triangulation {
    /// A point can be tried.
    pub open spec fn can_probe(&self) -> bool {
        0 <= self@.turns < MAX_TURNS && self@.distances.len() < 3
    }

    /// The place can be tried.
    pub open spec fn can_center(&self) -> bool {
        0 <= self@.turns < MAX_TURNS && self@.distances.len() == 3
    }

    /// A search before anything was tried. A point is tried first.
    pub fn new() -> (r: Triangulation)
        ensures
            r@ == search_begun(),
            r.can_probe(),
    {
        let r = Triangulation { turns: 0, distances: Vec::new() };
        assert(r@.distances =~= Seq::empty());
        r
    }

    /// Which of the three points round the base is tried next.
    pub fn probe_index(&self) -> (r: usize)
        ensures
            r == self@.distances.len(),
    {
        self.distances.len()
    }

    /// The distances of this turn, in decimal notation.
    pub fn distances(&self) -> (r: &Vec<String>)
        ensures
            texts(r@) == self@.distances,
    {
        &self.distances
    }

    /// Takes in the result of a point.
    pub fn on_probe(&mut self, result: CheckInResult) -> (r: Action)
        requires
            old(self).can_probe(),
        ensures
            (final(self)@, r@) == after_probe(old(self)@, result@),
            r is Probe ==> final(self).can_probe(),
            r is Center ==> final(self).can_center(),
    {
        match &result {
            CheckInResult::Success(_) => Action::Finish { result, learned: Learned::Probe },
            CheckInResult::Gone(_) => Action::Finish { result, learned: Learned::Nothing },
            CheckInResult::Failed(message) => match parse_distance_meters(message.as_str()) {
                None => failed_search(message.as_str()),
                Some(distance) => {
                    let ghost before = self.distances@;
                    self.distances.push(distance);
                    assert(texts(self.distances@) =~= texts(before).push(distance@));
                    if self.distances.len() < 3 {
                        Action::Probe
                    } else {
                        Action::Center
                    }
                },
            },
        }
    }

    /// Takes in the result of the computed place; `near` tells whether the distance that a
    /// refusal names is below two metres.
    pub fn on_center(&mut self, result: CheckInResult, near: bool) -> (r: Action)
        requires
            old(self).can_center(),
        ensures
            (final(self)@, r@) == after_center(old(self)@, result@, near),
            r is Probe ==> final(self).can_probe(),
            !(r is Center),
    {
        match &result {
            CheckInResult::Success(_) => Action::Finish { result, learned: Learned::Center },
            CheckInResult::Gone(_) => Action::Finish { result, learned: Learned::Nothing },
            CheckInResult::Failed(message) => match parse_distance_meters(message.as_str()) {
                None => failed_search(message.as_str()),
                Some(_) => {
                    if near {
                        return Action::Finish { result, learned: Learned::Nothing };
                    }
                    self.turns = self.turns + 1;
                    self.distances = Vec::new();
                    assert(texts(self.distances@) =~= Seq::empty());
                    if self.turns < MAX_TURNS {
                        Action::Probe
                    } else {
                        Action::Finish {
                            result: CheckInResult::Failed(copy_of("多次三角定位未成功")),
                            learned: Learned::Nothing,
                        }
                    }
                },
            },
        }
    }
}

/// Every result that does not end a search uses up one of the attempts that are left, so that a
/// search makes at most twelve.
pub proof fn search_ends(search: SearchView, result: ResultView, near: bool)
    requires
        0 <= search.turns < MAX_TURNS,
        search.distances.len() <= 3,
    ensures
        search.distances.len() < 3 && !(after_probe(search, result).1 is Finish) ==> attempts_left(
            after_probe(search, result).0,
        ) == attempts_left(search) - 1,
        search.distances.len() == 3 && !(after_center(search, result, near).1 is Finish)
            ==> attempts_left(after_center(search, result, near).0) == attempts_left(search) - 1,
        attempts_left(search) >= 1,
        attempts_left(search_begun()) == 12,
{
}

/// A place is learned only from a success.
pub proof fn only_success_teaches(search: SearchView, result: ResultView, near: bool)
    ensures
        after_probe(search, result).1 matches ActionView::Finish { result: last, learned }
            ==> learned != Learned::Nothing ==> last is Success,
        after_center(search, result, near).1 matches ActionView::Finish { result: last, learned }
            ==> learned != Learned::Nothing ==> last is Success,
{
}

/// A success ends a search and teaches what was tried; what is over ends it too and teaches
/// nothing. Both are passed on as they came.
pub proof fn success_ends_search(
    search: SearchView,
    message: Seq<char>,
    near: bool,
)
    ensures
        after_probe(search, ResultView::Success(message)).1 == (ActionView::Finish {
            result: ResultView::Success(message),
            learned: Learned::Probe,
        }),
        after_center(search, ResultView::Success(message), near).1 == (ActionView::Finish {
            result: ResultView::Success(message),
            learned: Learned::Center,
        }),
        after_probe(search, ResultView::Gone(message)).1 == (ActionView::Finish {
            result: ResultView::Gone(message),
            learned: Learned::Nothing,
        }),
        after_center(search, ResultView::Gone(message), near).1 == (ActionView::Finish {
            result: ResultView::Gone(message),
            learned: Learned::Nothing,
        }),
{
}

/// A refusal that names no distance ends a search, and what was said is told.
pub proof fn no_distance_ends_search(search: SearchView, message: Seq<char>, near: bool)
    requires
        distance_in(message) is None,
    ensures
        after_probe(search, ResultView::Failed(message)).1 == (ActionView::Finish {
            result: ResultView::Failed("三角定位失败: "@ + message),
            learned: Learned::Nothing,
        }),
        after_center(search, ResultView::Failed(message), near).1 == (ActionView::Finish {
            result: ResultView::Failed("三角定位失败: "@ + message),
            learned: Learned::Nothing,
        }),
{
}

/// A refusal that names a distance is kept in the order of the points. The third one has the
/// place tried that the three name, the others the next point.
pub proof fn third_distance_names_place(search: SearchView, message: Seq<char>)
    requires
        distance_in(message) is Some,
        search.distances.len() < 3,
    ensures
        ({
            let (next, action) = after_probe(search, ResultView::Failed(message));
            &&& next.turns == search.turns
            &&& next.distances.len() == search.distances.len() + 1
            &&& next.distances.drop_last() == search.distances
            &&& next.distances.last() == distance_in(message)->0
            &&& (action is Center) == (search.distances.len() == 2)
            &&& (action is Probe) == (search.distances.len() < 2)
        }),
{
    let (next, action) = after_probe(search, ResultView::Failed(message));
    assert(next.distances.drop_last() =~= search.distances);
}

/// A refusal of the place from near by is passed on. From afar another turn begins without
/// distances, and after the third turn the search has failed.
pub proof fn far_place_begins_anew(search: SearchView, message: Seq<char>)
    requires
        distance_in(message) is Some,
        0 <= search.turns < 3,
    ensures
        after_center(search, ResultView::Failed(message), true) == (
            search,
            ActionView::Finish {
                result: ResultView::Failed(message),
                learned: Learned::Nothing,
            },
        ),
        ({
            let (next, action) = after_center(search, ResultView::Failed(message), false);
            &&& next.turns == search.turns + 1
            &&& next.distances.len() == 0
            &&& (action is Probe) == (search.turns < 2)
            &&& search.turns == 2 ==> action == (ActionView::Finish {
                result: ResultView::Failed("多次三角定位未成功"@),
                learned: Learned::Nothing,
            })
        }),
{
}

} // verus!

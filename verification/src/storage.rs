//! The settings that outlive a run: the session's cookies, the places of courses, and the place
//! that was learned last.
use crate::engine::CoordinateTable;
use crate::json::{
    deref, entry_named, field, find_member, is_record, member, read_text, record, text_or_empty,
    Json,
};
use crate::models::{coordinate_of, opt_view, parse_coordinate, Coordinates, CoordinatesView};
use crate::number::is_float_text;
use crate::text::{
    comes_before, copy_of, order_is_irreflexive, order_is_total, order_is_transitive, same_text,
    text_before,
};
use vstd::prelude::*;

verus! {

// ---------------------------------------------------------------------------------------
// Places of courses

/// The place of a course, in the words in which it was given.
#[derive(Debug)]
pub struct CourseLocation {
    pub longitude: String,
    pub latitude: String,
}

impl View for CourseLocation {
    type V = CoordinatesView;

    open spec fn view(&self) -> CoordinatesView {
        CoordinatesView { longitude: self.longitude@, latitude: self.latitude@ }
    }
}

impl Clone for CourseLocation {
    fn clone(&self) -> (r: Self)
        ensures
            r@ == self@,
    {
        CourseLocation {
            longitude: copy_of(self.longitude.as_str()),
            latitude: copy_of(self.latitude.as_str()),
        }
    }
}

impl Default for CourseLocation {
    fn default() -> (r: Self)
        ensures
            r.longitude@.len() == 0,
            r.latitude@.len() == 0,
    {
        CourseLocation { longitude: String::new(), latitude: String::new() }
    }
}

/// The place that a list of places has under a name.
pub open spec fn location_named(
    entries: Seq<(String, CourseLocation)>,
    name: Seq<char>,
) -> Option<CoordinatesView>
    decreases entries.len(),
{
    if entries.len() == 0 {
        None
    } else if entries[0].0@ == name {
        Some(entries[0].1@)
    } else {
        location_named(entries.drop_first(), name)
    }
}

/// Each name comes before those behind it.
pub open spec fn names_ascend(entries: Seq<(String, CourseLocation)>) -> bool {
    forall|i: int, j: int|
        0 <= i < j < entries.len() ==> text_before(
            (#[trigger] entries[i]).0@,
            (#[trigger] entries[j]).0@,
        )
}

/// What a list of places says of each name.
pub open spec fn location_map(entries: Seq<(String, CourseLocation)>) -> Map<
    Seq<char>,
    CoordinatesView,
> {
    Map::new(
        |name: Seq<char>| location_named(entries, name) is Some,
        |name: Seq<char>| location_named(entries, name)->0,
    )
}

proof fn named_is_there(entries: Seq<(String, CourseLocation)>, name: Seq<char>)
    ensures
        location_named(entries, name) is Some ==> exists|i: int|
            0 <= i < entries.len() && (#[trigger] entries[i]).0@ == name && location_named(
                entries,
                name,
            ) == Some(entries[i].1@),
        (forall|i: int| 0 <= i < entries.len() ==> (#[trigger] entries[i]).0@ != name)
            ==> location_named(entries, name) is None,
    decreases entries.len(),
{
    if entries.len() > 0 {
        let rest = entries.drop_first();
        named_is_there(rest, name);
        if entries[0].0@ == name {
        } else {
            if location_named(rest, name) is Some {
                let i = choose|i: int|
                    0 <= i < rest.len() && (#[trigger] rest[i]).0@ == name && location_named(
                        rest,
                        name,
                    ) == Some(rest[i].1@);
                assert(entries[i + 1].0@ == name);
            }
            if forall|i: int| 0 <= i < entries.len() ==> (#[trigger] entries[i]).0@ != name {
                assert forall|i: int| 0 <= i < rest.len() implies (#[trigger] rest[i]).0@
                    != name by {
                    assert(rest[i] == entries[i + 1]);
                }
            }
        }
    }
}

proof fn named_in_push(
    entries: Seq<(String, CourseLocation)>,
    last: (String, CourseLocation),
    name: Seq<char>,
)
    ensures
        location_named(entries.push(last), name) == match location_named(entries, name) {
            Some(place) => Some(place),
            None => if last.0@ == name {
                Some(last.1@)
            } else {
                None
            },
        },
    decreases entries.len(),
{
    let more = entries.push(last);
    if entries.len() == 0 {
        assert(more.drop_first() =~= Seq::empty());
        assert(location_named(more.drop_first(), name) is None);
    } else {
        assert(more.drop_first() =~= entries.drop_first().push(last));
        named_in_push(entries.drop_first(), last, name);
    }
}

/// The places of courses, in the order of the courses' names. No name is there twice.
#[derive(Debug)]
pub struct Locations {
    entries: Vec<(String, CourseLocation)>,
}

impl View for Locations {
    type V = Map<Seq<char>, CoordinatesView>;

    closed spec fn view(&self) -> Map<Seq<char>, CoordinatesView> {
        location_map(self.entries@)
    }
}

impl Locations {
    #[verifier::type_invariant]
    spec fn ordered(self) -> bool {
        names_ascend(self.entries@)
    }

    /// A table without places.
    pub fn new() -> (r: Locations)
        ensures
            r@ == Map::<Seq<char>, CoordinatesView>::empty(),
    {
        let r = Locations { entries: Vec::new() };
        assert(r@ =~= Map::<Seq<char>, CoordinatesView>::empty());
        r
    }

    /// All places with their names, in the order of the names.
    pub fn entries(&self) -> (r: &Vec<(String, CourseLocation)>)
        ensures
            names_ascend(r@),
            location_map(r@) == self@,
    {
        proof {
            use_type_invariant(self);
        }
        &self.entries
    }

    /// The place under a name, where there is one.
    pub fn get(&self, name: &str) -> (r: Option<CourseLocation>)
        ensures
            match r {
                Some(place) => self@.contains_key(name@) && self@[name@] == place@,
                None => !self@.contains_key(name@),
            },
    {
        let mut i: usize = 0;
        assert(self.entries@.skip(0) =~= self.entries@);
        while i < self.entries.len()
            invariant
                i <= self.entries@.len(),
                location_named(self.entries@, name@) == location_named(
                    self.entries@.skip(i as int),
                    name@,
                ),
            decreases self.entries@.len() - i,
        {
            assert(self.entries@.skip(i as int).drop_first() =~= self.entries@.skip(i + 1));
            if same_text(self.entries[i].0.as_str(), name) {
                return Some(self.entries[i].1.clone());
            }
            i = i + 1;
        }
        None
    }

    /// Puts a place under a name, in place of the one that was there.
    pub fn insert(&mut self, name: &str, place: CourseLocation)
        ensures
            final(self)@ == old(self)@.insert(name@, place@),
    {
        proof {
            use_type_invariant(&*self);
        }
        let ghost start = self.entries@;
        let ghost value = place@;
        let mut entries: Vec<(String, CourseLocation)> = Vec::new();
        let mut i: usize = 0;
        while i < self.entries.len() && comes_before(self.entries[i].0.as_str(), name)
            invariant
                i <= self.entries@.len(),
                self.entries@ == start,
                names_ascend(start),
                names_ascend(entries@),
                entries@.len() == i,
                forall|k: int|
                    0 <= k < i ==> (#[trigger] entries@[k]).0@ == start[k].0@ && entries@[k].1@
                        == start[k].1@ && text_before(start[k].0@, name@),
            decreases self.entries@.len() - i,
        {
            entries.push((copy_of(self.entries[i].0.as_str()), self.entries[i].1.clone()));
            i = i + 1;
        }
        let ghost at = i as int;
        if i < self.entries.len() && same_text(self.entries[i].0.as_str(), name) {
            i = i + 1;
        }
        let ghost next = i as int;
        proof {
            assert forall|k: int| next <= k < start.len() implies text_before(
                name@,
                (#[trigger] start[k]).0@,
            ) by {
                if at < start.len() && start[at].0@ != name@ {
                    order_is_total(start[at].0@, name@);
                }
                if at < k {
                    if start[at].0@ != name@ {
                        order_is_transitive(name@, start[at].0@, start[k].0@);
                    }
                }
            }
        }
        entries.push((copy_of(name), place));
        assert(names_ascend(entries@));
        while i < self.entries.len()
            invariant
                0 <= at <= next <= i <= self.entries@.len(),
                self.entries@ == start,
                names_ascend(start),
                names_ascend(entries@),
                entries@.len() == at + 1 + (i - next),
                forall|k: int|
                    0 <= k < at ==> (#[trigger] entries@[k]).0@ == start[k].0@ && entries@[k].1@
                        == start[k].1@ && text_before(start[k].0@, name@),
                entries@[at].0@ == name@,
                entries@[at].1@ == value,
                forall|k: int|
                    at < k < entries@.len() ==> (#[trigger] entries@[k]).0@ == start[next + k - at
                        - 1].0@ && entries@[k].1@ == start[next + k - at - 1].1@,
                forall|k: int|
                    next <= k < start.len() ==> text_before(name@, (#[trigger] start[k]).0@),
            decreases self.entries@.len() - i,
        {
            proof {
                let new = start[i as int];
                assert forall|k: int| 0 <= k < entries@.len() implies text_before(
                    (#[trigger] entries@[k]).0@,
                    new.0@,
                ) by {
                    assert(text_before(name@, new.0@));
                    if k < at {
                        assert(entries@[k].0@ == start[k].0@);
                        order_is_transitive(start[k].0@, name@, new.0@);
                    } else if k > at {
                        assert(text_before(start[next + k - at - 1].0@, start[i as int].0@));
                    }
                }
            }
            entries.push((copy_of(self.entries[i].0.as_str()), self.entries[i].1.clone()));
            i = i + 1;
        }
        proof {
            inserted_map(start, entries@, name@, value, at, next);
        }
        self.entries = entries;
    }
}

/// A list in which one place was put in says of each name what it should.
proof fn inserted_map(
    start: Seq<(String, CourseLocation)>,
    end: Seq<(String, CourseLocation)>,
    name: Seq<char>,
    value: CoordinatesView,
    at: int,
    next: int,
)
    requires
        names_ascend(start),
        names_ascend(end),
        0 <= at <= next <= start.len(),
        next <= at + 1,
        next == at + 1 ==> start[at].0@ == name,
        end.len() == at + 1 + (start.len() - next),
        forall|k: int|
            0 <= k < at ==> (#[trigger] end[k]).0@ == start[k].0@ && end[k].1@ == start[k].1@,
        end[at].0@ == name,
        end[at].1@ == value,
        forall|k: int|
            at < k < end.len() ==> (#[trigger] end[k]).0@ == start[next + k - at - 1].0@
                && end[k].1@ == start[next + k - at - 1].1@,
    ensures
        location_map(end) == location_map(start).insert(name, value),
{
    assert forall|other: Seq<char>| #[trigger] location_named(end, other) == (if other == name {
        Some(value)
    } else {
        location_named(start, other)
    }) by {
        named_is_there(end, other);
        named_is_there(start, other);
        if other == name {
            unique_name(end, at);
        } else if location_named(start, other) is Some {
            let i = choose|i: int|
                0 <= i < start.len() && (#[trigger] start[i]).0@ == other && location_named(
                    start,
                    other,
                ) == Some(start[i].1@);
            if i < at {
                assert(end[i].0@ == other);
                unique_name(end, i);
            } else {
                let k = i - next + at + 1;
                assert(end[k].0@ == start[next + k - at - 1].0@);
                unique_name(end, k);
            }
        } else {
            if location_named(end, other) is Some {
                let k = choose|k: int|
                    0 <= k < end.len() && (#[trigger] end[k]).0@ == other && location_named(
                        end,
                        other,
                    ) == Some(end[k].1@);
                let i = if k < at {
                    k
                } else {
                    next + k - at - 1
                };
                assert(start[i].0@ == other);
                unique_name(start, i);
            }
        }
    }
    assert(location_map(end) =~= location_map(start).insert(name, value));
}

/// In an ascending list a name stands for the place beside it.
proof fn unique_name(entries: Seq<(String, CourseLocation)>, i: int)
    requires
        names_ascend(entries),
        0 <= i < entries.len(),
    ensures
        location_named(entries, entries[i].0@) == Some(entries[i].1@),
    decreases i,
{
    let rest = entries.drop_first();
    if i > 0 {
        assert(text_before(entries[0].0@, entries[i].0@));
        order_is_irreflexive(entries[i].0@);
        assert(names_ascend(rest)) by {
            assert forall|a: int, b: int| 0 <= a < b < rest.len() implies text_before(
                (#[trigger] rest[a]).0@,
                (#[trigger] rest[b]).0@,
            ) by {
                assert(rest[a] == entries[a + 1] && rest[b] == entries[b + 1]);
            }
        }
        unique_name(rest, i - 1);
        assert(rest[i - 1] == entries[i]);
    }
}

// ---------------------------------------------------------------------------------------
// The settings

/// The settings: the session's cookies, the places of courses, and the place that was learned
/// last (in decimal notation).
#[derive(Debug)]
pub struct AppConfig {
    pub cookie: String,
    pub locations: Locations,
    pub learned_center: Option<Coordinates>,
}

/// What settings hold.
#[verifier::ext_equal]
pub ghost struct ConfigView {
    pub cookie: Seq<char>,
    pub locations: Map<Seq<char>, CoordinatesView>,
    pub learned_center: Option<CoordinatesView>,
}

impl View for AppConfig {
    type V = ConfigView;

    open spec fn view(&self) -> ConfigView {
        ConfigView {
            cookie: self.cookie@,
            locations: self.locations@,
            learned_center: opt_view(self.learned_center),
        }
    }
}

/// The settings before anything was set.
pub open spec fn no_settings() -> ConfigView {
    ConfigView { cookie: Seq::empty(), locations: Map::empty(), learned_center: None }
}

impl Default for AppConfig {
    fn default() -> (r: Self)
        ensures
            r@ == no_settings(),
    {
        let r = AppConfig {
            cookie: String::new(),
            locations: Locations::new(),
            learned_center: None,
        };
        assert(r.cookie@ =~= Seq::empty());
        r
    }
}

/// Where the settings are stored: at a path that was given, in a folder of the place that the
/// system has for settings, or beside the program.
#[derive(Debug)]
pub enum ConfigPlace {
    Given(String),
    ConfigDir { folder: String, file: String },
    Beside(String),
}

/// Where the settings are stored: a path that was given counts before the system's place, and
/// that before the program's own.
pub fn config_place(given: Option<String>, has_config_dir: bool) -> (r: ConfigPlace)
    ensures
        match given {
            Some(path) => r matches ConfigPlace::Given(at) && at@ == path@,
            None => if has_config_dir {
                r matches ConfigPlace::ConfigDir { folder, file } && folder@ == "duifene"@
                    && file@ == "config.json"@
            } else {
                r matches ConfigPlace::Beside(file) && file@ == "duifene-config.json"@
            },
        },
{
    match given {
        Some(path) => ConfigPlace::Given(path),
        None => if has_config_dir {
            ConfigPlace::ConfigDir { folder: copy_of("duifene"), file: copy_of("config.json") }
        } else {
            ConfigPlace::Beside(copy_of("duifene-config.json"))
        },
    }
}

/// The settings that were stored, or, where they could not be read, those before anything was
/// set.
pub open spec fn stored_or_none(stored: Option<Json>) -> ConfigView {
    match stored {
        Some(json) => match config_in(json) {
            Some(config) => config,
            None => no_settings(),
        },
        None => no_settings(),
    }
}

/// The settings that were stored: `stored` is the document that was read, where one was.
pub fn load_config(stored: Option<Json>) -> (r: AppConfig)
    ensures
        r@ == stored_or_none(stored),
{
    match stored {
        Some(json) => match AppConfig::from_json(&json) {
            Some(config) => config,
            None => AppConfig::default(),
        },
        None => AppConfig::default(),
    }
}

/// The place that was learned last, by the stored settings.
pub fn load_learned_center(stored: Option<Json>) -> (r: Option<Coordinates>)
    ensures
        opt_view(r) == stored_or_none(stored).learned_center,
{
    load_config(stored).learned_center
}

/// The settings to store when a place was learned.
pub fn save_learned_center(stored: Option<Json>, center: Coordinates) -> (r: AppConfig)
    ensures
        r@ == (ConfigView { learned_center: Some(center@), ..stored_or_none(stored) }),
{
    let mut config: AppConfig = load_config(stored);
    config.learned_center = Some(center);
    config
}

/// The settings to store when the session's cookies are kept.
pub fn save_cookie(stored: Option<Json>, cookie_string: &str) -> (r: AppConfig)
    ensures
        r@ == (ConfigView { cookie: cookie_string@, ..stored_or_none(stored) }),
{
    let mut config: AppConfig = load_config(stored);
    config.cookie = copy_of(cookie_string);
    config
}

/// The settings to store when the place of a course is set.
pub fn save_course_location(
    stored: Option<Json>,
    name: &str,
    longitude: &str,
    latitude: &str,
) -> (r: AppConfig)
    ensures
        r@ == (ConfigView {
            locations: stored_or_none(stored).locations.insert(
                name@,
                CoordinatesView { longitude: longitude@, latitude: latitude@ },
            ),
            ..stored_or_none(stored)
        }),
{
    let mut config: AppConfig = load_config(stored);
    let mut locations: Locations = Locations::new();
    std::mem::swap(&mut locations, &mut config.locations);
    locations.insert(
        name,
        CourseLocation { longitude: copy_of(longitude), latitude: copy_of(latitude) },
    );
    config.locations = locations;
    config
}

/// The places that settings give: those whose texts stand for numbers.
pub open spec fn usable_places(locations: Map<Seq<char>, CoordinatesView>) -> Map<
    Seq<char>,
    CoordinatesView,
> {
    Map::new(
        |name: Seq<char>|
            locations.contains_key(name) && coordinate_of(
                locations[name].longitude,
                locations[name].latitude,
            ) is Some,
        |name: Seq<char>| locations[name],
    )
}

/// The places that settings give.
pub fn course_coordinates(config: &AppConfig) -> (r: CoordinateTable)
    ensures
        r@ == usable_places(config@.locations),
{
    let mut table: CoordinateTable = CoordinateTable::new();
    let entries: &Vec<(String, CourseLocation)> = config.locations.entries();
    let ghost all = entries@;
    let mut i: usize = 0;
    assert(all.take(0) =~= Seq::empty());
    assert(table@ =~= usable_places(location_map(all.take(0))));
    while i < entries.len()
        invariant
            i <= entries@.len(),
            all == entries@,
            names_ascend(all),
            table@ == usable_places(location_map(all.take(i as int))),
        decreases entries@.len() - i,
    {
        let (name, location) = &entries[i];
        proof {
            let so_far = all.take(i as int);
            assert(all.take(i + 1) =~= so_far.push(all[i as int]));
            assert forall|other: Seq<char>| #[trigger]
                location_named(all.take(i + 1), other) == (match location_named(so_far, other) {
                Some(place) => Some(place),
                None => if name@ == other {
                    Some(location@)
                } else {
                    None
                },
            }) by {
                named_in_push(so_far, all[i as int], other);
            }
            assert(location_named(so_far, name@) is None) by {
                named_is_there(so_far, name@);
                assert forall|k: int| 0 <= k < so_far.len() implies (#[trigger] so_far[k]).0@
                    != name@ by {
                    assert(text_before(all[k].0@, all[i as int].0@));
                    order_is_irreflexive(name@);
                }
            }
        }
        let ghost before = table@;
        match parse_coordinate(location.longitude.as_str(), location.latitude.as_str()) {
            Some(place) => {
                table.insert(copy_of(name.as_str()), place);
                assert(table@ =~= usable_places(location_map(all.take(i + 1))));
            },
            None => {
                assert(table@ =~= usable_places(location_map(all.take(i + 1))));
            },
        }
        i = i + 1;
    }
    assert(all.take(all.len() as int) =~= all);
    table
}

// ---------------------------------------------------------------------------------------
// The settings as a document

/// How many entries have a name.
pub open spec fn count_named(entries: Seq<(String, Json)>, name: Seq<char>) -> int
    decreases entries.len(),
{
    if entries.len() == 0 {
        0
    } else {
        count_named(entries.drop_last(), name) + if entries.last().0@ == name {
            1int
        } else {
            0int
        }
    }
}

/// No field of a record is given twice by this name.
pub open spec fn given_once(json: Json, name: Seq<char>) -> bool {
    match json {
        Json::Object(entries) => count_named(entries@, name) <= 1,
        _ => true,
    }
}

/// The place that a document describes: every field that is there must be a text, and none may
/// be there twice.
pub open spec fn location_in(json: Json) -> Option<CoordinatesView> {
    if !is_record(json, 2) || !given_once(json, "longitude"@) || !given_once(json, "latitude"@) {
        None
    } else {
        match (
            text_or_empty(member(json, "longitude"@, 0)),
            text_or_empty(member(json, "latitude"@, 1)),
        ) {
            (Some(longitude), Some(latitude)) => Some(CoordinatesView { longitude, latitude }),
            _ => None,
        }
    }
}

/// The places that the first `n` entries describe; of two entries with one name the latter
/// counts.
pub open spec fn locations_in_entries(entries: Seq<(String, Json)>, n: int) -> Option<
    Map<Seq<char>, CoordinatesView>,
>
    decreases n,
{
    if n <= 0 {
        Some(Map::empty())
    } else {
        match (locations_in_entries(entries, n - 1), location_in(entries[n - 1].1)) {
            (Some(earlier), Some(place)) => Some(earlier.insert(entries[n - 1].0@, place)),
            _ => None,
        }
    }
}

/// The places that a field describes.
pub open spec fn locations_in(value: Option<Json>) -> Option<Map<Seq<char>, CoordinatesView>> {
    match value {
        None => Some(Map::empty()),
        Some(Json::Object(entries)) => locations_in_entries(entries@, entries@.len() as int),
        Some(_) => None,
    }
}

/// The learned place that a field describes: none, or two numbers.
pub open spec fn center_in(value: Option<Json>) -> Option<Option<CoordinatesView>> {
    match value {
        None => Some(None),
        Some(Json::Null) => Some(None),
        Some(Json::Array(items)) => if items@.len() != 2 {
            None
        } else {
            match (items@[0], items@[1]) {
                (Json::Number(longitude), Json::Number(latitude)) => Some(
                    Some(CoordinatesView { longitude: longitude@, latitude: latitude@ }),
                ),
                _ => None,
            }
        },
        Some(_) => None,
    }
}

/// The settings that a document describes. A field that is not there has its first value; what
/// the settings do not know is passed over; a field of another kind, or one that is there twice,
/// spoils the whole.
pub open spec fn config_in(json: Json) -> Option<ConfigView> {
    if !is_record(json, 3) || !given_once(json, "cookie"@) || !given_once(json, "locations"@)
        || !given_once(json, "learned_center"@) {
        None
    } else {
        match (
            text_or_empty(member(json, "cookie"@, 0)),
            locations_in(member(json, "locations"@, 1)),
            center_in(member(json, "learned_center"@, 2)),
        ) {
            (Some(cookie), Some(locations), Some(learned_center)) => Some(
                ConfigView { cookie, locations, learned_center },
            ),
            _ => None,
        }
    }
}

/// Whether no field of a record is given twice by this name.
fn once(json: &Json, name: &str) -> (r: bool)
    ensures
        r == given_once(*json, name@),
{
    match json {
        Json::Object(entries) => {
            let mut met: bool = false;
            let mut i: usize = 0;
            while i < entries.len()
                invariant
                    i <= entries@.len(),
                    *json == Json::Object(*entries),
                    count_named(entries@.take(i as int), name@) == if met {
                        1int
                    } else {
                        0int
                    },
                decreases entries@.len() - i,
            {
                assert(entries@.take(i + 1).drop_last() =~= entries@.take(i as int));
                assert(entries@.take(i + 1).last() == entries@[i as int]);
                if same_text(entries[i].0.as_str(), name) {
                    if met {
                        proof {
                            count_grows(entries@, name@, i + 1);
                        }
                        return false;
                    }
                    met = true;
                }
                i = i + 1;
            }
            assert(entries@.take(entries@.len() as int) =~= entries@);
            true
        },
        _ => true,
    }
}

proof fn count_grows(entries: Seq<(String, Json)>, name: Seq<char>, n: int)
    requires
        0 <= n <= entries.len(),
    ensures
        count_named(entries.take(n), name) <= count_named(entries, name),
    decreases entries.len() - n,
{
    if n < entries.len() {
        count_grows(entries, name, n + 1);
        assert(entries.take(n + 1).drop_last() =~= entries.take(n));
    } else {
        assert(entries.take(n) =~= entries);
    }
}

impl CourseLocation {
    /// The place that a document describes.
    pub fn from_json(json: &Json) -> (r: Option<CourseLocation>)
        ensures
            match r {
                Some(place) => location_in(*json) == Some(place@),
                None => location_in(*json) is None,
            },
    {
        if !record(json, 2) || !once(json, "longitude") || !once(json, "latitude") {
            return None;
        }
        let longitude: String = read_text(find_member(json, "longitude", 0))?;
        let latitude: String = read_text(find_member(json, "latitude", 1))?;
        Some(CourseLocation { longitude, latitude })
    }
}

/// The places that a field describes.
fn read_locations(value: Option<&Json>) -> (r: Option<Locations>)
    ensures
        match r {
            Some(places) => locations_in(deref(value)) == Some(places@),
            None => locations_in(deref(value)) is None,
        },
{
    match value {
        None => Some(Locations::new()),
        Some(Json::Object(entries)) => {
            let mut places: Locations = Locations::new();
            let mut i: usize = 0;
            while i < entries.len()
                invariant
                    i <= entries@.len(),
                    deref(value) == Some(Json::Object(*entries)),
                    locations_in_entries(entries@, i as int) == Some(places@),
                decreases entries@.len() - i,
            {
                match CourseLocation::from_json(&entries[i].1) {
                    Some(place) => {
                        places.insert(entries[i].0.as_str(), place);
                    },
                    None => {
                        proof {
                            spoiled_stays(entries@, i + 1, entries@.len() as int);
                        }
                        return None;
                    },
                }
                i = i + 1;
            }
            Some(places)
        },
        Some(_) => None,
    }
}

proof fn spoiled_stays(entries: Seq<(String, Json)>, m: int, n: int)
    requires
        m <= n,
        locations_in_entries(entries, m) is None,
    ensures
        locations_in_entries(entries, n) is None,
    decreases n - m,
{
    if m < n {
        spoiled_stays(entries, m, n - 1);
    }
}

/// The learned place that a field describes.
fn read_center(value: Option<&Json>) -> (r: Option<Option<Coordinates>>)
    ensures
        match r {
            Some(center) => center_in(deref(value)) == Some(opt_view(center)),
            None => center_in(deref(value)) is None,
        },
{
    match value {
        None => Some(None),
        Some(Json::Null) => Some(None),
        Some(Json::Array(items)) => {
            if items.len() != 2 {
                return None;
            }
            match (&items[0], &items[1]) {
                (Json::Number(longitude), Json::Number(latitude)) => Some(
                    Some(
                        Coordinates {
                            longitude: copy_of(longitude.as_str()),
                            latitude: copy_of(latitude.as_str()),
                        },
                    ),
                ),
                _ => None,
            }
        },
        Some(_) => None,
    }
}

impl AppConfig {
    /// The settings that a document describes.
    pub fn from_json(json: &Json) -> (r: Option<AppConfig>)
        ensures
            match r {
                Some(config) => config_in(*json) == Some(config@),
                None => config_in(*json) is None,
            },
    {
        if !record(json, 3) || !once(json, "cookie") || !once(json, "locations") || !once(
            json,
            "learned_center",
        ) {
            return None;
        }
        let cookie: String = read_text(find_member(json, "cookie", 0))?;
        let locations: Locations = read_locations(find_member(json, "locations", 1))?;
        let learned_center: Option<Coordinates> = read_center(
            find_member(json, "learned_center", 2),
        )?;
        Some(AppConfig { cookie, locations, learned_center })
    }
}

// ---------------------------------------------------------------------------------------
// Writing the settings

/// A document is this text.
pub open spec fn is_text(json: Json, text: Seq<char>) -> bool {
    json matches Json::Text(inner) && inner@ == text
}

/// A document is this number.
pub open spec fn is_number(json: Json, text: Seq<char>) -> bool {
    json matches Json::Number(inner) && inner@ == text
}

/// A document is an object with a longitude and a latitude, in this order.
pub open spec fn is_written_location(json: Json, place: CoordinatesView) -> bool {
    json matches Json::Object(entries) && {
        &&& entries@.len() == 2
        &&& entries@[0].0@ == "longitude"@
        &&& is_text(entries@[0].1, place.longitude)
        &&& entries@[1].0@ == "latitude"@
        &&& is_text(entries@[1].1, place.latitude)
    }
}

/// A document is an object with these places under their names, in this order.
pub open spec fn are_written_locations(
    json: Json,
    places: Seq<(String, CourseLocation)>,
) -> bool {
    json matches Json::Object(entries) && {
        &&& entries@.len() == places.len()
        &&& forall|i: int|
            0 <= i < places.len() ==> (#[trigger] entries@[i]).0@ == places[i].0@
                && is_written_location(entries@[i].1, places[i].1@)
    }
}

/// A document is nothing, or an array of a longitude and a latitude.
pub open spec fn is_written_center(json: Json, center: Option<CoordinatesView>) -> bool {
    match center {
        None => json is Null,
        Some(place) => json matches Json::Array(items) && items@.len() == 2 && is_number(
            items@[0],
            place.longitude,
        ) && is_number(items@[1], place.latitude),
    }
}

/// A document is an object with the cookies, the places in the order of their names, and the
/// learned place, in this order.
pub open spec fn is_written_config(json: Json, config: ConfigView) -> bool {
    json matches Json::Object(entries) && {
        &&& entries@.len() == 3
        &&& entries@[0].0@ == "cookie"@
        &&& is_text(entries@[0].1, config.cookie)
        &&& entries@[1].0@ == "locations"@
        &&& exists|places: Seq<(String, CourseLocation)>| #[trigger]
            names_ascend(places) && location_map(places) == config.locations
                && are_written_locations(entries@[1].1, places)
        &&& entries@[2].0@ == "learned_center"@
        &&& is_written_center(entries@[2].1, config.learned_center)
    }
}

/// A text as a document.
fn text_json(text: &str) -> (r: Json)
    ensures
        is_text(r, text@),
{
    Json::Text(copy_of(text))
}

impl CourseLocation {
    /// The place as a document.
    pub fn to_json(&self) -> (r: Json)
        ensures
            is_written_location(r, self@),
    {
        let mut entries: Vec<(String, Json)> = Vec::new();
        entries.push((copy_of("longitude"), text_json(self.longitude.as_str())));
        entries.push((copy_of("latitude"), text_json(self.latitude.as_str())));
        Json::Object(entries)
    }
}

impl AppConfig {
    /// The settings as a document.
    pub fn to_json(&self) -> (r: Json)
        ensures
            is_written_config(r, self@),
    {
        let places: &Vec<(String, CourseLocation)> = self.locations.entries();
        let mut written: Vec<(String, Json)> = Vec::new();
        let mut i: usize = 0;
        while i < places.len()
            invariant
                i <= places@.len(),
                written@.len() == i,
                forall|k: int|
                    0 <= k < i ==> (#[trigger] written@[k]).0@ == places@[k].0@
                        && is_written_location(written@[k].1, places@[k].1@),
            decreases places@.len() - i,
        {
            written.push((copy_of(places[i].0.as_str()), places[i].1.to_json()));
            i = i + 1;
        }
        let center: Json = match &self.learned_center {
            None => Json::Null,
            Some(place) => {
                let mut items: Vec<Json> = Vec::new();
                items.push(Json::Number(copy_of(place.longitude.as_str())));
                items.push(Json::Number(copy_of(place.latitude.as_str())));
                Json::Array(items)
            },
        };
        let mut entries: Vec<(String, Json)> = Vec::new();
        entries.push((copy_of("cookie"), text_json(self.cookie.as_str())));
        entries.push((copy_of("locations"), Json::Object(written)));
        entries.push((copy_of("learned_center"), center));
        proof {
            assert(are_written_locations(entries@[1].1, places@));
            assert(names_ascend(places@));
        }
        Json::Object(entries)
    }
}

proof fn locations_read_back(
    entries: Seq<(String, Json)>,
    places: Seq<(String, CourseLocation)>,
    n: int,
)
    requires
        names_ascend(places),
        entries.len() == places.len(),
        forall|i: int|
            0 <= i < places.len() ==> (#[trigger] entries[i]).0@ == places[i].0@
                && is_written_location(entries[i].1, places[i].1@),
        0 <= n <= places.len(),
    ensures
        locations_in_entries(entries, n) == Some(location_map(places.take(n))),
    decreases n,
{
    if n == 0 {
        assert(location_map(places.take(0)) =~= Map::empty());
    } else {
        locations_read_back(entries, places, n - 1);
        location_reads_back(entries[n - 1].1, places[n - 1].1@);
        let so_far = places.take(n - 1);
        let last = places[n - 1];
        assert(places.take(n) =~= so_far.push(last));
        assert forall|name: Seq<char>| #[trigger] location_named(places.take(n), name) == (if name
            == last.0@ {
            Some(last.1@)
        } else {
            location_named(so_far, name)
        }) by {
            named_in_push(so_far, last, name);
            if name == last.0@ {
                named_is_there(so_far, name);
                assert forall|k: int| 0 <= k < so_far.len() implies (#[trigger] so_far[k]).0@
                    != name by {
                    assert(text_before(places[k].0@, places[n - 1].0@));
                    order_is_irreflexive(name);
                }
            }
        }
        assert(location_map(places.take(n)) =~= location_map(so_far).insert(last.0@, last.1@));
    }
}

proof fn location_reads_back(json: Json, place: CoordinatesView)
    requires
        is_written_location(json, place),
    ensures
        location_in(json) == Some(place),
{
    reveal_strlit("longitude");
    reveal_strlit("latitude");
    let entries = json->Object_0@;
    assert("longitude"@.len() != "latitude"@.len());
    reveal_with_fuel(count_named, 3);
    reveal_with_fuel(entry_named, 3);
    assert(entries.drop_first()[0] == entries[1]);
    assert(entries.drop_last().last() == entries[0]);
}

/// Settings that are written and read again are the same.
pub proof fn settings_read_back(json: Json, config: ConfigView)
    requires
        is_written_config(json, config),
    ensures
        config_in(json) == Some(config),
{
    reveal_strlit("cookie");
    reveal_strlit("locations");
    reveal_strlit("learned_center");
    let entries = json->Object_0@;
    assert("cookie"@.len() == 6 && "locations"@.len() == 9 && "learned_center"@.len() == 14);
    reveal_with_fuel(count_named, 4);
    reveal_with_fuel(entry_named, 4);
    assert(entries.drop_first()[0] == entries[1]);
    assert(entries.drop_first().drop_first()[0] == entries[2]);
    assert(entries.drop_last().last() == entries[1]);
    assert(entries.drop_last().drop_last().last() == entries[0]);
    let places = choose|places: Seq<(String, CourseLocation)>| #[trigger]
        names_ascend(places) && location_map(places) == config.locations && are_written_locations(
            entries[1].1,
            places,
        );
    let written = entries[1].1->Object_0@;
    locations_read_back(written, places, places.len() as int);
    assert(places.take(places.len() as int) =~= places);
}

/// What is stored with new cookies is read back with them, and with all else as it was.
pub proof fn saved_cookie_is_loaded(stored: Option<Json>, cookie: Seq<char>, written: Json)
    requires
        is_written_config(written, ConfigView { cookie, ..stored_or_none(stored) }),
    ensures
        stored_or_none(Some(written)).cookie == cookie,
        stored_or_none(Some(written)).locations == stored_or_none(stored).locations,
        stored_or_none(Some(written)).learned_center == stored_or_none(stored).learned_center,
{
    settings_read_back(written, ConfigView { cookie, ..stored_or_none(stored) });
}

/// What is stored with a course's place is read back with it, and with all else as it was.
pub proof fn saved_location_is_loaded(
    stored: Option<Json>,
    name: Seq<char>,
    place: CoordinatesView,
    written: Json,
)
    requires
        is_written_config(
            written,
            ConfigView {
                locations: stored_or_none(stored).locations.insert(name, place),
                ..stored_or_none(stored)
            },
        ),
    ensures
        stored_or_none(Some(written)).locations[name] == place,
        stored_or_none(Some(written)).locations.remove(name) == stored_or_none(
            stored,
        ).locations.remove(name),
        stored_or_none(Some(written)).cookie == stored_or_none(stored).cookie,
        stored_or_none(Some(written)).learned_center == stored_or_none(stored).learned_center,
{
    let config = ConfigView {
        locations: stored_or_none(stored).locations.insert(name, place),
        ..stored_or_none(stored)
    };
    settings_read_back(written, config);
    assert(config.locations.remove(name) =~= stored_or_none(stored).locations.remove(name));
}

/// What is stored with a learned place is read back with it, and with all else as it was.
pub proof fn saved_center_is_loaded(stored: Option<Json>, center: CoordinatesView, written: Json)
    requires
        is_written_config(
            written,
            ConfigView { learned_center: Some(center), ..stored_or_none(stored) },
        ),
    ensures
        stored_or_none(Some(written)).learned_center == Some(center),
        stored_or_none(Some(written)).cookie == stored_or_none(stored).cookie,
        stored_or_none(Some(written)).locations == stored_or_none(stored).locations,
{
    settings_read_back(
        written,
        ConfigView { learned_center: Some(center), ..stored_or_none(stored) },
    );
}

// ---------------------------------------------------------------------------------------
// What settings are read from

/// Settings hold the cookie, the places and the centre from the fields of these names; what is
/// left out is empty, and what cannot be read in one field makes the whole unreadable.
pub proof fn settings_hold_their_fields(json: Json)
    requires
        json is Object,
    ensures
        config_in(json) matches Some(config) ==> {
            &&& field(json, "cookie"@) is None ==> config.cookie.len() == 0
            &&& field(json, "cookie"@) matches Some(value) ==> is_text(value, config.cookie)
            &&& field(json, "locations"@) is None ==> config.locations == Map::<
                Seq<char>,
                CoordinatesView,
            >::empty()
            &&& field(json, "locations"@) matches Some(value) ==> value is Object
            &&& field(json, "learned_center"@) is None ==> config.learned_center is None
            &&& field(json, "learned_center"@) matches Some(value) ==> is_written_center(
                value,
                config.learned_center,
            )
        },
{
}

/// A list in place of a record gives the fields in this order.
pub proof fn settings_may_be_a_list(items: Vec<Json>)
    ensures
        items@.len() > 3 ==> config_in(Json::Array(items)) is None,
        items@.len() == 0 ==> config_in(Json::Array(items)) == Some(no_settings()),
        config_in(Json::Array(items)) matches Some(config) ==> {
            &&& items@.len() > 0 ==> is_text(items@[0], config.cookie)
            &&& items@.len() > 1 ==> items@[1] is Object
            &&& items@.len() > 2 ==> is_written_center(items@[2], config.learned_center)
        },
{
}

/// Nothing but a record or a list holds settings or a place.
pub proof fn plain_values_hold_nothing(json: Json)
    requires
        !(json is Object),
        !(json is Array),
    ensures
        config_in(json) is None,
        location_in(json) is None,
{
}

/// A place holds the longitude and the latitude from the fields of these names.
pub proof fn place_holds_its_fields(json: Json)
    requires
        json is Object,
    ensures
        location_in(json) matches Some(place) ==> {
            &&& field(json, "longitude"@) is None ==> place.longitude.len() == 0
            &&& field(json, "longitude"@) matches Some(value) ==> is_text(value, place.longitude)
            &&& field(json, "latitude"@) is None ==> place.latitude.len() == 0
            &&& field(json, "latitude"@) matches Some(value) ==> is_text(value, place.latitude)
        },
        field(json, "longitude"@) matches Some(value) ==> !(value is Text) ==> location_in(json)
            is None,
        field(json, "latitude"@) matches Some(value) ==> !(value is Text) ==> location_in(json)
            is None,
        !given_once(json, "longitude"@) || !given_once(json, "latitude"@) ==> location_in(json)
            is None,
{
}

/// A place in a list of two texts is the longitude and then the latitude.
pub proof fn place_may_be_a_list(items: Vec<Json>, longitude: Seq<char>, latitude: Seq<char>)
    requires
        items@.len() == 2,
        is_text(items@[0], longitude),
        is_text(items@[1], latitude),
    ensures
        location_in(Json::Array(items)) == Some(CoordinatesView { longitude, latitude }),
{
}

/// The places are those of the entries by their names, a later entry instead of an earlier one of
/// the same name; one entry that is no place makes all unreadable.
pub proof fn places_are_by_name(entries: Seq<(String, Json)>, n: int, i: int)
    requires
        0 <= i < n <= entries.len(),
    ensures
        location_in(entries[i].1) is None ==> locations_in_entries(entries, n) is None,
        locations_in_entries(entries, n) matches Some(places) ==> {
            &&& places.contains_key(entries[i].0@)
            &&& (forall|k: int| i < k < n ==> (#[trigger] entries[k]).0@ != entries[i].0@)
                ==> places[entries[i].0@] == location_in(entries[i].1)->0
        },
    decreases n,
{
    if i < n - 1 {
        places_are_by_name(entries, n - 1, i);
        assert(entries[n - 1].0@ == entries[n - 1].0@);
    }
}

/// The centre is nothing, or a list of two numbers, the longitude and then the latitude.
pub proof fn center_is_two_numbers(value: Json)
    ensures
        center_in(None) == Some(None::<CoordinatesView>),
        center_in(Some(Json::Null)) == Some(None::<CoordinatesView>),
        !(value is Null) && !(value is Array) ==> center_in(Some(value)) is None,
        value matches Json::Array(items) ==> {
            &&& (center_in(Some(value)) is Some) == (items@.len() == 2 && items@[0] is Number
                && items@[1] is Number)
            &&& center_in(Some(value)) matches Some(center) ==> {
                &&& center is Some
                &&& is_number(items@[0], center->0.longitude)
                &&& is_number(items@[1], center->0.latitude)
            }
        },
{
}

/// Places whose texts are both numbers can be used, as they stand, and no others.
pub proof fn only_numbers_are_usable(places: Map<Seq<char>, CoordinatesView>, name: Seq<char>)
    ensures
        usable_places(places).contains_key(name) == (places.contains_key(name) && is_float_text(
            places[name].longitude,
        ) && is_float_text(places[name].latitude)),
        usable_places(places).contains_key(name) ==> usable_places(places)[name] == places[name],
{
}

/// Where nothing was stored, or nothing that can be read, there are no settings.
pub proof fn unreadable_is_no_settings(json: Json)
    ensures
        stored_or_none(None).cookie.len() == 0,
        stored_or_none(None).learned_center is None,
        forall|name: Seq<char>| !(#[trigger] stored_or_none(None).locations.contains_key(name)),
        config_in(json) is None ==> stored_or_none(Some(json)) == stored_or_none(None),
        config_in(json) matches Some(config) ==> stored_or_none(Some(json)) == config,
{
}

/// A place is found under its name exactly where an entry has the name.
pub proof fn place_is_found_by_name(entries: Seq<(String, CourseLocation)>, i: int)
    requires
        0 <= i < entries.len(),
        names_ascend(entries),
    ensures
        location_map(entries).contains_key(entries[i].0@),
        location_map(entries)[entries[i].0@] == entries[i].1@,
{
    name_finds_entry(entries, i);
}

proof fn name_finds_entry(entries: Seq<(String, CourseLocation)>, i: int)
    requires
        0 <= i < entries.len(),
        names_ascend(entries),
    ensures
        location_named(entries, entries[i].0@) == Some(entries[i].1@),
    decreases entries.len(),
{
    if i > 0 {
        let rest = entries.drop_first();
        assert(names_ascend(rest)) by {
            assert forall|a: int, b: int| 0 <= a < b < rest.len() implies text_before(
                (#[trigger] rest[a]).0@,
                (#[trigger] rest[b]).0@,
            ) by {
                assert(rest[a] == entries[a + 1] && rest[b] == entries[b + 1]);
            }
        }
        name_finds_entry(rest, i - 1);
        assert(rest[i - 1] == entries[i]);
        assert(text_before(entries[0].0@, entries[i].0@));
        crate::text::order_is_irreflexive(entries[i].0@);
    }
}

/// A record that names one of its fields twice cannot be read.
pub proof fn field_named_twice_is_refused(
    entries: Vec<(String, Json)>,
    i: int,
    j: int,
    name: Seq<char>,
)
    requires
        0 <= i < j < entries@.len(),
        entries@[i].0@ == name,
        entries@[j].0@ == name,
    ensures
        name == "cookie"@ || name == "locations"@ || name == "learned_center"@ ==> config_in(
            Json::Object(entries),
        ) is None,
        name == "longitude"@ || name == "latitude"@ ==> location_in(Json::Object(entries)) is None,
{
    both_are_counted(entries@, i, j, name);
}

proof fn both_are_counted(entries: Seq<(String, Json)>, i: int, j: int, name: Seq<char>)
    requires
        0 <= i < j < entries.len(),
        entries[i].0@ == name,
        entries[j].0@ == name,
    ensures
        count_named(entries, name) >= 2,
    decreases entries.len(),
{
    let rest = entries.drop_last();
    if j < entries.len() - 1 {
        assert(rest[i] == entries[i] && rest[j] == entries[j]);
        both_are_counted(rest, i, j, name);
    } else {
        assert(rest[i] == entries[i]);
        one_is_counted(rest, i, name);
    }
}

proof fn one_is_counted(entries: Seq<(String, Json)>, i: int, name: Seq<char>)
    requires
        0 <= i < entries.len(),
        entries[i].0@ == name,
    ensures
        count_named(entries, name) >= 1,
    decreases entries.len(),
{
    let rest = entries.drop_last();
    if i < entries.len() - 1 {
        assert(rest[i] == entries[i]);
        one_is_counted(rest, i, name);
    } else {
        none_is_owed(rest, name);
    }
}

proof fn none_is_owed(entries: Seq<(String, Json)>, name: Seq<char>)
    ensures
        count_named(entries, name) >= 0,
    decreases entries.len(),
{
    if entries.len() > 0 {
        none_is_owed(entries.drop_last(), name);
    }
}

/// A record that names a field once or not at all, and holds in it what the field can hold, is
/// read.
pub proof fn good_settings_are_read(json: Json, cookie: Seq<char>)
    requires
        json is Object,
        given_once(json, "cookie"@),
        given_once(json, "locations"@),
        given_once(json, "learned_center"@),
        field(json, "cookie"@) is Some,
        is_text(field(json, "cookie"@)->0, cookie),
        field(json, "locations"@) is None,
        field(json, "learned_center"@) is None,
    ensures
        config_in(json) == Some(
            ConfigView { cookie, locations: Map::empty(), learned_center: None },
        ),
{
}

} // verus!

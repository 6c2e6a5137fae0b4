//! The command line: what its words ask for, and how the answers read.
use crate::api::{error_text, ApiErr, CheckInResult, ErrView, ResultView};
use crate::engine::{Event, EventView};
use crate::models::{
    activity_of, opt_view, text_unless_empty, views, ActivityView, Course, CourseView, RawRow,
    RowView, SignActivity, SignType,
};
use crate::number::{decimal, decimal_text, integer_within, read_integer};
use crate::round::rows_reply;
use crate::storage::{names_ascend, AppConfig, CourseLocation};
use crate::text::{concat2, concat3, copy_of, same_text, texts};
use vstd::prelude::*;

verus! {

// ---------------------------------------------------------------------------------------
// Commands

/// What the command line asks for.
#[derive(Debug)]
pub enum Command {
    Usage,
    Login { link: String },
    Courses,
    Probe,
    ListCoords,
    SetCoords { name: String, longitude: String, latitude: String },
    Watch { delay_seconds: i64, max_seconds: Option<u64> },
}

/// What a command holds.
#[verifier::ext_equal]
pub ghost enum CommandView {
    Usage,
    Login { link: Seq<char> },
    Courses,
    Probe,
    ListCoords,
    SetCoords { name: Seq<char>, longitude: Seq<char>, latitude: Seq<char> },
    Watch { delay_seconds: int, max_seconds: Option<int> },
}

/// A number that may be there.
pub open spec fn opt_int(number: Option<u64>) -> Option<int> {
    match number {
        Some(value) => Some(value as int),
        None => None,
    }
}

impl View for Command {
    type V = CommandView;

    open spec fn view(&self) -> CommandView {
        match *self {
            Command::Usage => CommandView::Usage,
            Command::Login { link } => CommandView::Login { link: link@ },
            Command::Courses => CommandView::Courses,
            Command::Probe => CommandView::Probe,
            Command::ListCoords => CommandView::ListCoords,
            Command::SetCoords { name, longitude, latitude } => CommandView::SetCoords {
                name: name@,
                longitude: longitude@,
                latitude: latitude@,
            },
            Command::Watch { delay_seconds, max_seconds } => CommandView::Watch {
                delay_seconds: delay_seconds as int,
                max_seconds: opt_int(max_seconds),
            },
        }
    }
}

/// The options of a watch: how long it waits before it checks in, and how long it goes on.
#[verifier::ext_equal]
pub ghost struct WatchView {
    pub delay_seconds: int,
    pub max_seconds: Option<int>,
}

/// The options of a watch that the words from `from` on set, over those that are set already. An
/// option takes the word behind it; a delay that is no number is none, and so is a limit; other
/// words are passed over.
pub open spec fn watch_options(words: Seq<Seq<char>>, from: int, options: WatchView) -> WatchView
    decreases words.len() - from,
{
    if from < 0 || from >= words.len() {
        options
    } else if words[from] == "--delay"@ && from + 1 < words.len() {
        watch_options(
            words,
            from + 2,
            WatchView {
                delay_seconds: match integer_within(
                    words[from + 1],
                    true,
                    i64::MIN as int,
                    i64::MAX as int,
                ) {
                    Some(seconds) => seconds,
                    None => 0,
                },
                ..options
            },
        )
    } else if words[from] == "--seconds"@ && from + 1 < words.len() {
        watch_options(
            words,
            from + 2,
            WatchView {
                max_seconds: integer_within(words[from + 1], false, 0, u64::MAX as int),
                ..options
            },
        )
    } else {
        watch_options(words, from + 1, options)
    }
}

/// What the words of a command line ask for; the first is the program's name.
pub open spec fn command_of(words: Seq<Seq<char>>) -> CommandView {
    if words.len() < 2 {
        CommandView::Usage
    } else if words[1] == "login"@ {
        if words.len() < 3 {
            CommandView::Usage
        } else {
            CommandView::Login { link: words[2] }
        }
    } else if words[1] == "courses"@ {
        CommandView::Courses
    } else if words[1] == "watch"@ {
        let options = watch_options(
            words,
            2,
            WatchView { delay_seconds: 0, max_seconds: None },
        );
        CommandView::Watch {
            delay_seconds: options.delay_seconds,
            max_seconds: options.max_seconds,
        }
    } else if words[1] == "probe"@ {
        CommandView::Probe
    } else if words[1] == "coords"@ {
        if words.len() >= 3 && words[2] == "list"@ {
            CommandView::ListCoords
        } else if words.len() >= 6 && words[2] == "set"@ {
            CommandView::SetCoords { name: words[3], longitude: words[4], latitude: words[5] }
        } else {
            CommandView::Usage
        }
    } else {
        CommandView::Usage
    }
}

fn read_watch(words: &Vec<String>) -> (r: Command)
    requires
        words@.len() >= 2,
    ensures
        ({
            let options = watch_options(
                texts(words@),
                2,
                WatchView { delay_seconds: 0, max_seconds: None },
            );
            r@ == (CommandView::Watch {
                delay_seconds: options.delay_seconds,
                max_seconds: options.max_seconds,
            })
        }),
{
    let ghost all = texts(words@);
    let ghost begun = WatchView { delay_seconds: 0, max_seconds: None };
    let mut delay_seconds: i64 = 0;
    let mut max_seconds: Option<u64> = None;
    let mut index: usize = 2;
    while index < words.len()
        invariant
            2 <= index <= words@.len() || index == 2,
            words@.len() >= 2,
            all == texts(words@),
            watch_options(all, 2, begun) == watch_options(
                all,
                index as int,
                WatchView {
                    delay_seconds: delay_seconds as int,
                    max_seconds: opt_int(max_seconds),
                },
            ),
        decreases words@.len() - index,
    {
        assert(all[index as int] == words@[index as int]@);
        let takes_word: bool = words.len() - index > 1;
        if takes_word && same_text(words[index].as_str(), "--delay") {
            assert(all[index + 1] == words@[index + 1]@);
            delay_seconds = match read_integer(
                words[index + 1].as_str(),
                true,
                i64::MIN as i128,
                i64::MAX as i128,
            ) {
                Some(seconds) => seconds as i64,
                None => 0,
            };
            index = index + 2;
        } else if takes_word && same_text(words[index].as_str(), "--seconds") {
            assert(all[index + 1] == words@[index + 1]@);
            max_seconds = match read_integer(
                words[index + 1].as_str(),
                false,
                0,
                u64::MAX as i128,
            ) {
                Some(seconds) => Some(seconds as u64),
                None => None,
            };
            index = index + 2;
        } else {
            index = index + 1;
        }
    }
    Command::Watch { delay_seconds, max_seconds }
}

/// What the words of a command line ask for.
pub fn parse_command(words: &Vec<String>) -> (r: Command)
    ensures
        r@ == command_of(texts(words@)),
{
    let ghost all = texts(words@);
    if words.len() < 2 {
        return Command::Usage;
    }
    assert(all[1] == words@[1]@);
    if same_text(words[1].as_str(), "login") {
        if words.len() < 3 {
            return Command::Usage;
        }
        assert(all[2] == words@[2]@);
        return Command::Login { link: copy_of(words[2].as_str()) };
    }
    if same_text(words[1].as_str(), "courses") {
        return Command::Courses;
    }
    if same_text(words[1].as_str(), "watch") {
        return read_watch(words);
    }
    if same_text(words[1].as_str(), "probe") {
        return Command::Probe;
    }
    if same_text(words[1].as_str(), "coords") && words.len() >= 3 {
        assert(all[2] == words@[2]@);
        if same_text(words[2].as_str(), "list") {
            return Command::ListCoords;
        }
        if words.len() >= 6 && same_text(words[2].as_str(), "set") {
            assert(all[3] == words@[3]@ && all[4] == words@[4]@ && all[5] == words@[5]@);
            return Command::SetCoords {
                name: copy_of(words[3].as_str()),
                longitude: copy_of(words[4].as_str()),
                latitude: copy_of(words[5].as_str()),
            };
        }
    }
    Command::Usage
}

// ---------------------------------------------------------------------------------------
// Events

/// An event as a line, at a time of day; an activity that is gone is not spoken of.
pub open spec fn event_line(event: EventView, time: Seq<char>) -> Option<Seq<char>> {
    match event {
        EventView::Info(message) => Some("["@ + time + "] [INFO] "@ + message),
        EventView::Warn(message) => Some("["@ + time + "] [WARN] "@ + message),
        EventView::Found { course_name, activity_id, kind, code } => Some(
            "["@ + time + "] [INFO] 发现待签到! ["@ + course_name + "] ID:"@ + activity_id
                + " 类型:"@ + kind + match code {
                Some(code) => " 码:"@ + code,
                None => Seq::empty(),
            },
        ),
        EventView::Signed { course_name, activity_id, result } => match result {
            ResultView::Success(message) => Some(
                "["@ + time + "] [OK] 签到成功 ["@ + course_name + "] ID:"@ + activity_id + ": "@
                    + message,
            ),
            ResultView::Gone(_) => None,
            ResultView::Failed(message) => Some(
                "["@ + time + "] [ERROR] 签到失败 ["@ + course_name + "] ID:"@ + activity_id
                    + ": "@ + message,
            ),
        },
    }
}

fn signed_line(time: &str, word: &str, course_name: &str, activity_id: &str, message: &str) -> (r:
    String)
    ensures
        r@ == "["@ + time@ + word@ + course_name@ + "] ID:"@ + activity_id@ + ": "@ + message@,
{
    let mut line: String = concat3("[", time, word);
    line.append(course_name);
    line.append("] ID:");
    line.append(activity_id);
    line.append(": ");
    line.append(message);
    line
}

/// An event as a line, at a time of day.
pub fn render_event(event: &Event, time: &str) -> (r: Option<String>)
    ensures
        opt_view(r) == event_line(event@, time@),
{
    match event {
        Event::Info(message) => {
            let mut line: String = concat3("[", time, "] [INFO] ");
            line.append(message.as_str());
            Some(line)
        },
        Event::Warn(message) => {
            let mut line: String = concat3("[", time, "] [WARN] ");
            line.append(message.as_str());
            Some(line)
        },
        Event::Found { course_name, activity_id, kind, code } => {
            let mut line: String = concat3("[", time, "] [INFO] 发现待签到! [");
            line.append(course_name.as_str());
            line.append("] ID:");
            line.append(activity_id.as_str());
            line.append(" 类型:");
            line.append(kind.as_str());
            let ghost so_far = line@;
            match code {
                Some(code) => {
                    line.append(concat2(" 码:", code.as_str()).as_str());
                },
                None => {
                    assert(so_far + Seq::<char>::empty() =~= so_far);
                },
            }
            Some(line)
        },
        Event::Signed { course_name, activity_id, result } => match result {
            CheckInResult::Success(message) => Some(
                signed_line(
                    time,
                    "] [OK] 签到成功 [",
                    course_name.as_str(),
                    activity_id.as_str(),
                    message.as_str(),
                ),
            ),
            CheckInResult::Gone(_) => None,
            CheckInResult::Failed(message) => Some(
                signed_line(
                    time,
                    "] [ERROR] 签到失败 [",
                    course_name.as_str(),
                    activity_id.as_str(),
                    message.as_str(),
                ),
            ),
        },
    }
}

// ---------------------------------------------------------------------------------------
// Lists

/// A course as a line of the course list.
pub open spec fn course_line(number: nat, course: CourseView) -> Seq<char> {
    decimal_text(number) + ". "@ + course.name + " (课堂ID: "@ + course.tclass_id + ")"@
}

/// The course list in lines.
pub open spec fn course_lines(courses: Seq<CourseView>) -> Seq<Seq<char>> {
    if courses.len() == 0 {
        seq!["未获取到课程"@]
    } else {
        Seq::new(courses.len(), |i: int| course_line((i + 1) as nat, courses[i]))
    }
}

/// The course list in lines.
pub fn render_courses(courses: &Vec<Course>) -> (r: Vec<String>)
    ensures
        texts(r@) == course_lines(views(courses@)),
{
    let mut lines: Vec<String> = Vec::new();
    if courses.len() == 0 {
        lines.push(copy_of("未获取到课程"));
        assert(texts(lines@) =~= seq!["未获取到课程"@]);
        return lines;
    }
    let ghost all = course_lines(views(courses@));
    let mut i: usize = 0;
    while i < courses.len()
        invariant
            i <= courses@.len(),
            courses@.len() > 0,
            all == course_lines(views(courses@)),
            texts(lines@) == all.take(i as int),
        decreases courses@.len() - i,
    {
        let ghost before = lines@;
        let mut line: String = decimal(i as u64 + 1);
        line.append(". ");
        line.append(courses[i].name.as_str());
        line.append(" (课堂ID: ");
        line.append(courses[i].tclass_id.as_str());
        line.append(")");
        assert(line@ == all[i as int]);
        lines.push(line);
        assert(texts(lines@) =~= texts(before).push(line@));
        assert(all.take(i + 1) =~= all.take(i as int).push(all[i as int]));
        i = i + 1;
    }
    assert(all.take(all.len() as int) =~= all);
    lines
}

/// The place of a course as a line.
pub open spec fn place_line(entry: (String, CourseLocation)) -> Seq<char> {
    entry.0@ + ": "@ + entry.1@.longitude + " "@ + entry.1@.latitude
}

/// The places of courses in lines, in the order of their names.
pub open spec fn place_lines(places: Seq<(String, CourseLocation)>) -> Seq<Seq<char>> {
    if places.len() == 0 {
        seq!["暂无课程坐标配置,定位签到会自动探测位置"@]
    } else {
        places.map_values(|entry: (String, CourseLocation)| place_line(entry))
    }
}

/// The places of courses in lines.
pub fn render_places(config: &AppConfig) -> (r: Vec<String>)
    ensures
        exists|places: Seq<(String, CourseLocation)>| #[trigger]
            names_ascend(places) && crate::storage::location_map(places) == config@.locations
                && texts(r@) == place_lines(places),
{
    let places: &Vec<(String, CourseLocation)> = config.locations.entries();
    let mut lines: Vec<String> = Vec::new();
    if places.len() == 0 {
        lines.push(copy_of("暂无课程坐标配置,定位签到会自动探测位置"));
        assert(texts(lines@) =~= place_lines(places@));
        assert(names_ascend(places@));
        return lines;
    }
    let ghost all = place_lines(places@);
    let mut i: usize = 0;
    while i < places.len()
        invariant
            i <= places@.len(),
            places@.len() > 0,
            all == place_lines(places@),
            texts(lines@) == all.take(i as int),
        decreases places@.len() - i,
    {
        let ghost before = lines@;
        let mut line: String = concat3(
            places[i].0.as_str(),
            ": ",
            places[i].1.longitude.as_str(),
        );
        line.append(" ");
        line.append(places[i].1.latitude.as_str());
        assert(line@ == all[i as int]);
        lines.push(line);
        assert(texts(lines@) =~= texts(before).push(line@));
        assert(all.take(i + 1) =~= all.take(i as int).push(all[i as int]));
        i = i + 1;
    }
    assert(all.take(all.len() as int) =~= all);
    assert(names_ascend(places@));
    lines
}

// ---------------------------------------------------------------------------------------
// Probing

/// What came of fetching a course's check-in list, as a line.
pub open spec fn fetch_line(course_name: Seq<char>, rows: Result<Seq<RowView>, ErrView>) -> Seq<
    char,
> {
    match rows {
        Ok(rows) => "[OK] "@ + course_name + ": "@ + decimal_text(rows.len()) + " 行"@,
        Err(error) => "[ERR] "@ + course_name + ": "@ + error_text(error),
    }
}

/// What came of fetching a course's check-in list, as a line.
pub fn render_fetch(course: &Course, rows: &Result<Vec<RawRow>, ApiErr>) -> (r: String)
    ensures
        r@ == fetch_line(course@.name, rows_reply(*rows)),
{
    match rows {
        Ok(rows) => {
            let mut line: String = concat3("[OK] ", course.name.as_str(), ": ");
            line.append(decimal(rows.len() as u64).as_str());
            line.append(" 行");
            line
        },
        Err(error) => {
            let mut line: String = concat3("[ERR] ", course.name.as_str(), ": ");
            line.append(error.message().as_str());
            line
        },
    }
}

/// A row with all that it says of itself, as a line.
pub open spec fn row_line(row: RowView) -> Seq<char> {
    "     首行: ID="@ + row.id + " 类型="@ + row.checkin_type + " 码="@ + row.checkin_code
        + " CanApply="@ + row.can_apply + " StatusID="@ + row.status_id + " 状态名="@
        + row.status_name + " 已签="@ + row.checkin_status + " 截止="@ + row.apply_limit
        + " 发起="@ + row.creater_at
}

/// A row with all that it says of itself, as a line.
pub fn render_row(row: &RawRow) -> (r: String)
    ensures
        r@ == row_line(row@),
{
    let mut line: String = concat2("     首行: ID=", row.id.as_str());
    line.append(" 类型=");
    line.append(row.checkin_type.as_str());
    line.append(" 码=");
    line.append(row.checkin_code.as_str());
    line.append(" CanApply=");
    line.append(row.can_apply.as_str());
    line.append(" StatusID=");
    line.append(row.status_id.as_str());
    line.append(" 状态名=");
    line.append(row.status_name.as_str());
    line.append(" 已签=");
    line.append(row.checkin_status.as_str());
    line.append(" 截止=");
    line.append(row.apply_limit.as_str());
    line.append(" 发起=");
    line.append(row.creater_at.as_str());
    line
}

/// The activity of a row without the place that the row names, so that the service is asked for
/// the place.
pub fn probe_activity(row: &RawRow) -> (r: SignActivity)
    ensures
        r@ == (ActivityView { coordinate: None, ..activity_of(row@) }),
{
    SignActivity {
        id: copy_of(row.id.as_str()),
        kind: SignType::parse(row.checkin_type.as_str()),
        code: text_unless_empty(row.checkin_code.as_str()),
        coordinate: None,
    }
}

/// An activity that is gone is the only thing that is not spoken of.
pub proof fn only_gone_is_silent(event: EventView, time: Seq<char>)
    ensures
        event_line(event, time) is None == (event matches EventView::Signed { result, .. }
            && result is Gone),
{
}

/// The first word behind the program's name tells the command, and no other word gives one.
pub proof fn first_word_tells_command(words: Seq<Seq<char>>)
    ensures
        words.len() < 2 ==> command_of(words) is Usage,
        words.len() >= 2 ==> {
            let word = words[1];
            let command = command_of(words);
            &&& (command is Courses) == (word == "courses"@)
            &&& (command is Probe) == (word == "probe"@)
            &&& (command is Watch) == (word == "watch"@)
            &&& (command is Login) == (word == "login"@ && words.len() >= 3)
            &&& (command is ListCoords) == (word == "coords"@ && words.len() >= 3 && words[2]
                == "list"@)
            &&& (command is SetCoords) == (word == "coords"@ && words.len() >= 6 && words[2]
                == "set"@)
        },
{
    reveal_strlit("login");
    reveal_strlit("courses");
    reveal_strlit("watch");
    reveal_strlit("probe");
    reveal_strlit("coords");
    reveal_strlit("list");
    reveal_strlit("set");
    assert("login"@[0] != "courses"@[0] && "login"@[0] != "watch"@[0] && "login"@[0] != "probe"@[0]
        && "login"@[0] != "coords"@[0]);
    assert("courses"@[0] != "watch"@[0] && "courses"@[0] != "probe"@[0]);
    assert("courses"@[2] == 'u' && "coords"@[2] == 'o');
    assert("watch"@[0] != "probe"@[0] && "watch"@[0] != "coords"@[0]);
    assert("probe"@[0] != "coords"@[0]);
    assert("list"@[0] != "set"@[0]);
}

/// A login takes its link, and a place is set by the course's name, the longitude and the
/// latitude, in this order.
pub proof fn words_are_taken_in_order(
    program: Seq<char>,
    link: Seq<char>,
    name: Seq<char>,
    longitude: Seq<char>,
    latitude: Seq<char>,
)
    ensures
        command_of(seq![program, "login"@, link]) == (CommandView::Login { link }),
        command_of(seq![program, "coords"@, "set"@, name, longitude, latitude])
            == (CommandView::SetCoords { name, longitude, latitude }),
{
    reveal_strlit("login");
    reveal_strlit("courses");
    reveal_strlit("watch");
    reveal_strlit("probe");
    reveal_strlit("coords");
    reveal_strlit("list");
    reveal_strlit("set");
    assert("login"@[0] != "coords"@[0]);
    assert("courses"@[2] == 'u' && "coords"@[2] == 'o');
    assert("watch"@[0] != "coords"@[0]);
    assert("probe"@[0] != "coords"@[0]);
    assert("list"@[0] != "set"@[0]);
}

/// A watch waits for no time and goes on for ever, unless it is told a delay or a duration;
/// either may come first. A number that cannot be read counts as no delay and as no end.
pub proof fn watch_reads_its_options(
    program: Seq<char>,
    delay: Seq<char>,
    duration: Seq<char>,
)
    ensures
        ({
            let seconds = match integer_within(
                delay,
                true,
                -0x8000_0000_0000_0000,
                0x7fff_ffff_ffff_ffff,
            ) {
                Some(number) => number,
                None => 0,
            };
            let most = integer_within(duration, false, 0, 0xffff_ffff_ffff_ffff);
            &&& command_of(seq![program, "watch"@]) == (CommandView::Watch {
                delay_seconds: 0,
                max_seconds: None,
            })
            &&& command_of(seq![program, "watch"@, "--delay"@, delay]) == (CommandView::Watch {
                delay_seconds: seconds,
                max_seconds: None,
            })
            &&& command_of(seq![program, "watch"@, "--seconds"@, duration]) == (
            CommandView::Watch { delay_seconds: 0, max_seconds: most })
            &&& command_of(
                seq![program, "watch"@, "--delay"@, delay, "--seconds"@, duration],
            ) == (CommandView::Watch { delay_seconds: seconds, max_seconds: most })
            &&& command_of(
                seq![program, "watch"@, "--seconds"@, duration, "--delay"@, delay],
            ) == (CommandView::Watch { delay_seconds: seconds, max_seconds: most })
        }),
{
    options_differ();
    reveal_strlit("login");
    reveal_strlit("courses");
    reveal_strlit("watch");
    assert("login"@[0] != "watch"@[0] && "courses"@[0] != "watch"@[0]);
    reveal_with_fuel(watch_options, 4);
}

proof fn options_differ()
    ensures
        "--delay"@ != "--seconds"@,
{
    reveal_strlit("--delay");
    reveal_strlit("--seconds");
    assert("--delay"@[2] != "--seconds"@[2]);
}

/// A word that is no option is passed over, and so is an option at the end that has no number
/// behind it.
pub proof fn other_words_are_passed_over(words: Seq<Seq<char>>, from: int, options: WatchView)
    requires
        0 <= from < words.len(),
    ensures
        words[from] != "--delay"@ && words[from] != "--seconds"@ ==> watch_options(
            words,
            from,
            options,
        ) == watch_options(words, from + 1, options),
        from + 1 == words.len() ==> watch_options(words, from, options) == options,
{
    reveal_with_fuel(watch_options, 2);
}

/// The last delay and the last duration count: one that comes earlier is replaced.
pub proof fn last_option_counts(
    words: Seq<Seq<char>>,
    from: int,
    options: WatchView,
    other: WatchView,
)
    requires
        0 <= from,
        from + 1 < words.len(),
    ensures
        words[from] == "--delay"@ && options.max_seconds == other.max_seconds ==> watch_options(
            words,
            from,
            options,
        ) == watch_options(words, from, other),
        words[from] == "--seconds"@ && options.delay_seconds == other.delay_seconds
            ==> watch_options(words, from, options) == watch_options(words, from, other),
{
    options_differ();
}

/// What is told of an event begins with the time and how grave it is, and ends with what was said.
pub proof fn line_tells_time_and_message(
    time: Seq<char>,
    course: Seq<char>,
    id: Seq<char>,
    kind: Seq<char>,
    code: Seq<char>,
    message: Seq<char>,
)
    ensures
        event_line(EventView::Info(message), time) == Some(
            "["@ + time + "] [INFO] "@ + message,
        ),
        event_line(EventView::Warn(message), time) == Some(
            "["@ + time + "] [WARN] "@ + message,
        ),
        event_line(
            EventView::Signed {
                course_name: course,
                activity_id: id,
                result: ResultView::Success(message),
            },
            time,
        ) == Some(
            "["@ + time + "] [OK] 签到成功 ["@ + course + "] ID:"@ + id + ": "@ + message,
        ),
        event_line(
            EventView::Signed {
                course_name: course,
                activity_id: id,
                result: ResultView::Failed(message),
            },
            time,
        ) == Some(
            "["@ + time + "] [ERROR] 签到失败 ["@ + course + "] ID:"@ + id + ": "@ + message,
        ),
        event_line(
            EventView::Found { course_name: course, activity_id: id, kind, code: Some(code) },
            time,
        ) == Some(
            "["@ + time + "] [INFO] 发现待签到! ["@ + course + "] ID:"@ + id + " 类型:"@ + kind
                + (" 码:"@ + code),
        ),
        event_line(
            EventView::Found { course_name: course, activity_id: id, kind, code: None },
            time,
        ) == Some(
            "["@ + time + "] [INFO] 发现待签到! ["@ + course + "] ID:"@ + id + " 类型:"@ + kind,
        ),
{
    let found = "["@ + time + "] [INFO] 发现待签到! ["@ + course + "] ID:"@ + id + " 类型:"@ + kind;
    assert(found + Seq::<char>::empty() =~= found);
}

/// Courses are listed one to a line in their order, numbered from one, by name and class; places
/// by name, longitude and latitude. Where there is nothing to list one line says so.
pub proof fn lists_have_a_line_each(
    courses: Seq<CourseView>,
    places: Seq<(String, CourseLocation)>,
    i: int,
)
    ensures
        courses.len() == 0 ==> course_lines(courses) == seq!["未获取到课程"@],
        courses.len() > 0 ==> course_lines(courses).len() == courses.len(),
        0 <= i < courses.len() ==> course_lines(courses)[i] == decimal_text((i + 1) as nat) + ". "@
            + courses[i].name + " (课堂ID: "@ + courses[i].tclass_id + ")"@,
        places.len() == 0 ==> place_lines(places) == seq![
            "暂无课程坐标配置,定位签到会自动探测位置"@,
        ],
        places.len() > 0 ==> place_lines(places).len() == places.len(),
        0 <= i < places.len() ==> place_lines(places)[i] == places[i].0@ + ": "@
            + places[i].1@.longitude + " "@ + places[i].1@.latitude,
{
}

/// A list that came is told by its length, one that did not by the reason.
pub proof fn fetch_is_told(name: Seq<char>, rows: Seq<RowView>, error: ErrView)
    ensures
        fetch_line(name, Ok(rows)) == "[OK] "@ + name + ": "@ + decimal_text(rows.len()) + " 行"@,
        fetch_line(name, Err(error)) == "[ERR] "@ + name + ": "@ + error_text(error),
{
}

/// A row is told field by field, each behind its name.
pub proof fn row_is_told_field_by_field(row: RowView)
    ensures
        row_line(row) == "     首行: ID="@ + row.id + " 类型="@ + row.checkin_type + " 码="@
            + row.checkin_code + " CanApply="@ + row.can_apply + " StatusID="@ + row.status_id
            + " 状态名="@ + row.status_name + " 已签="@ + row.checkin_status + " 截止="@
            + row.apply_limit + " 发起="@ + row.creater_at,
{
}

} // verus!

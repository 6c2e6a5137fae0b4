//! The cookies of a session.
use crate::models::opt_view;
use crate::text::{
    chars_of, concat3, copy_of, find_char, is_empty, is_white_space, join, joined, same_text,
    segment_end, segment_end_bounds, segments, split_at_char, split_once, text_between, texts,
    trim, trim_end, trim_start, trimmed,
};
use vstd::prelude::*;

verus! {

/// A cookie: its name and its value.
pub type CookieView = (Seq<char>, Seq<char>);

/// The cookie that a text gives: what stands before the first semicolon, parted at its first
/// equals sign, without the white space round the two parts. There is none without an equals
/// sign or without a name.
pub open spec fn cookie_in(text: Seq<char>) -> Option<CookieView> {
    match split_once(trim(text.take(segment_end(text, ';'))), '=') {
        None => None,
        Some((name, value)) => if trim(name).len() == 0 {
            None
        } else {
            Some((trim(name), trim(value)))
        },
    }
}

/// The cookie that a text gives.
pub fn parse_cookie_pair(text: &str) -> (r: Option<(String, String)>)
    ensures
        match r {
            Some((name, value)) => cookie_in(text@) == Some((name@, value@)),
            None => cookie_in(text@) is None,
        },
{
    let chars: Vec<char> = chars_of(text);
    assert(text@.skip(0) =~= text@);
    let end: usize = find_char(&chars, ';', 0);
    let segment: String = text_between(&chars, 0, end);
    assert(segment@ =~= text@.take(end as int));
    match split_at_char(trimmed(segment.as_str()).as_str(), '=') {
        None => None,
        Some((name, value)) => {
            let name: String = trimmed(name.as_str());
            if is_empty(name.as_str()) {
                None
            } else {
                Some((name, trimmed(value.as_str())))
            }
        },
    }
}

/// A text has no white space at its ends.
pub open spec fn is_trimmed(text: Seq<char>) -> bool {
    text.len() == 0 || (!is_white_space(text[0]) && !is_white_space(text.last()))
}

/// A character does not occur in a text.
pub open spec fn lacks(text: Seq<char>, c: char) -> bool {
    forall|i: int| 0 <= i < text.len() ==> text[i] != c
}

/// A cookie that a text can give: it has a name, neither part has white space at its ends or
/// holds a semicolon, and the name holds no equals sign.
pub open spec fn is_clean(cookie: CookieView) -> bool {
    &&& cookie.0.len() > 0
    &&& is_trimmed(cookie.0)
    &&& is_trimmed(cookie.1)
    &&& lacks(cookie.0, ';')
    &&& lacks(cookie.0, '=')
    &&& lacks(cookie.1, ';')
}

/// No name is there twice.
pub open spec fn names_differ(cookies: Seq<CookieView>) -> bool {
    forall|i: int, j: int|
        0 <= i < j < cookies.len() ==> (#[trigger] cookies[i]).0 != (#[trigger] cookies[j]).0
}

/// The position of the cookie with a name.
pub open spec fn position_of(cookies: Seq<CookieView>, name: Seq<char>) -> Option<int>
    decreases cookies.len(),
{
    if cookies.len() == 0 {
        None
    } else if cookies.last().0 == name {
        Some(cookies.len() - 1)
    } else {
        position_of(cookies.drop_last(), name)
    }
}

/// A cookie's position is where its name stands, and there is none where the name does not.
pub proof fn position_is_right(cookies: Seq<CookieView>, name: Seq<char>)
    ensures
        match position_of(cookies, name) {
            Some(i) => 0 <= i < cookies.len() && cookies[i].0 == name,
            None => forall|i: int| 0 <= i < cookies.len() ==> (#[trigger] cookies[i]).0 != name,
        },
    decreases cookies.len(),
{
    if cookies.len() > 0 && cookies.last().0 != name {
        let rest = cookies.drop_last();
        position_is_right(rest, name);
        if position_of(rest, name) is None {
            assert forall|i: int| 0 <= i < cookies.len() implies (#[trigger] cookies[i]).0
                != name by {
                if i < rest.len() {
                    assert(rest[i] == cookies[i]);
                }
            }
        }
    }
}

/// The cookies with one more: it takes the place of the one with its name, or else comes last.
pub open spec fn with_cookie(cookies: Seq<CookieView>, cookie: CookieView) -> Seq<CookieView> {
    match position_of(cookies, cookie.0) {
        Some(i) => cookies.update(i, cookie),
        None => cookies.push(cookie),
    }
}

/// The cookies with those that the first `n` texts give.
pub open spec fn with_cookies(cookies: Seq<CookieView>, given: Seq<Seq<char>>, n: int) -> Seq<
    CookieView,
>
    decreases n,
{
    if n <= 0 {
        cookies
    } else {
        let earlier = with_cookies(cookies, given, n - 1);
        match cookie_in(given[n - 1]) {
            Some(cookie) => with_cookie(earlier, cookie),
            None => earlier,
        }
    }
}

/// A cookie as a request carries it.
pub open spec fn cookie_text(cookie: CookieView) -> Seq<char> {
    cookie.0 + "="@ + cookie.1
}

/// All cookies as a request carries them.
pub open spec fn header_of(cookies: Seq<CookieView>) -> Seq<char> {
    joined(cookies.map_values(|cookie: CookieView| cookie_text(cookie)), "; "@)
}

/// The names of all cookies.
pub open spec fn names_of(cookies: Seq<CookieView>) -> Seq<Seq<char>> {
    cookies.map_values(|cookie: CookieView| cookie.0)
}

/// The cookies of a session, in the order in which their names were first met.
pub struct CookieStore {
    entries: Vec<(String, String)>,
}

/// What a list of cookies holds.
pub open spec fn cookies_of(entries: Seq<(String, String)>) -> Seq<CookieView> {
    entries.map_values(|entry: (String, String)| (entry.0@, entry.1@))
}

impl View for CookieStore {
    type V = Seq<CookieView>;

    closed spec fn view(&self) -> Seq<CookieView> {
        cookies_of(self.entries@)
    }
}

impl CookieStore {
    /// No name is there twice, and every cookie is one that a text can give.
    pub open spec fn wf(&self) -> bool {
        &&& names_differ(self@)
        &&& forall|i: int| 0 <= i < self@.len() ==> is_clean(#[trigger] self@[i])
    }

    /// A session without cookies.
    pub fn new() -> (r: CookieStore)
        ensures
            r.wf(),
            r@ == Seq::<CookieView>::empty(),
    {
        let r = CookieStore { entries: Vec::new() };
        assert(r@ =~= Seq::<CookieView>::empty());
        r
    }

    /// Puts a cookie into the session.
    pub fn insert_pair(&mut self, name: String, value: String)
        ensures
            final(self)@ == with_cookie(old(self)@, (name@, value@)),
            old(self).wf() && is_clean((name@, value@)) ==> final(self).wf(),
    {
        let ghost cookie = (name@, value@);
        let mut i: usize = self.entries.len();
        assert(self@.take(self@.len() as int) =~= self@);
        proof {
            position_is_right(self@, name@);
        }
        while i > 0
            invariant
                i <= self.entries@.len(),
                cookie == (name@, value@),
                self@ == old(self)@,
                self@ == cookies_of(self.entries@),
                position_of(self@, name@) == position_of(self@.take(i as int), name@),
            decreases i,
        {
            assert(self@.take(i as int).drop_last() =~= self@.take(i - 1));
            assert(self@.take(i as int).last() == self@[i - 1]);
            if same_text(self.entries[i - 1].0.as_str(), name.as_str()) {
                let at: usize = i - 1;
                self.entries.set(at, (name, value));
                assert(self@ =~= old(self)@.update(at as int, cookie));
                return;
            }
            i = i - 1;
        }
        assert(self@.take(0) =~= Seq::empty());
        self.entries.push((name, value));
        assert(self@ =~= old(self)@.push(cookie));
    }

    /// Puts the cookies into the session that texts give.
    pub fn insert_all(&mut self, given: &Vec<String>)
        requires
            old(self).wf(),
        ensures
            final(self).wf(),
            final(self)@ == with_cookies(old(self)@, texts(given@), given@.len() as int),
    {
        let mut i: usize = 0;
        while i < given.len()
            invariant
                i <= given@.len(),
                self.wf(),
                self@ == with_cookies(old(self)@, texts(given@), i as int),
            decreases given@.len() - i,
        {
            assert(texts(given@)[i as int] == given@[i as int]@);
            if let Some((name, value)) = parse_cookie_pair(given[i].as_str()) {
                proof {
                    given_is_clean(given@[i as int]@);
                }
                self.insert_pair(name, value);
            }
            i = i + 1;
        }
    }

    /// Puts the cookies into the session that one text gives between its semicolons.
    pub fn seed(&mut self, cookie_string: &str)
        requires
            old(self).wf(),
        ensures
            final(self).wf(),
            final(self)@ == with_cookies(
                old(self)@,
                segments(cookie_string@, ';'),
                segments(cookie_string@, ';').len() as int,
            ),
    {
        let given: Vec<String> = split_segments(cookie_string, ';');
        self.insert_all(&given);
    }

    /// Takes all cookies out of the session.
    pub fn clear(&mut self)
        ensures
            final(self).wf(),
            final(self)@ == Seq::<CookieView>::empty(),
    {
        self.entries = Vec::new();
        assert(self@ =~= Seq::<CookieView>::empty());
    }

    /// Takes in the cookies that a response sets.
    pub fn apply_response(&mut self, set_cookies: &Vec<String>)
        requires
            old(self).wf(),
        ensures
            final(self).wf(),
            final(self)@ == with_cookies(
                old(self)@,
                texts(set_cookies@),
                set_cookies@.len() as int,
            ),
    {
        self.insert_all(set_cookies);
    }

    /// All cookies as a request carries them; nothing where there are none.
    pub fn header_value(&self) -> (r: Option<String>)
        ensures
            opt_view(r) == if self@.len() == 0 {
                None
            } else {
                Some(header_of(self@))
            },
    {
        if self.entries.len() == 0 {
            return None;
        }
        let mut parts: Vec<String> = Vec::new();
        let ghost lines = self@.map_values(|cookie: CookieView| cookie_text(cookie));
        let mut i: usize = 0;
        while i < self.entries.len()
            invariant
                i <= self.entries@.len(),
                self@ == cookies_of(self.entries@),
                lines == self@.map_values(|cookie: CookieView| cookie_text(cookie)),
                texts(parts@) == lines.take(i as int),
            decreases self.entries@.len() - i,
        {
            let ghost before = parts@;
            let part: String = concat3(
                self.entries[i].0.as_str(),
                "=",
                self.entries[i].1.as_str(),
            );
            assert(self@[i as int] == (self.entries@[i as int].0@, self.entries@[i as int].1@));
            assert(part@ == lines[i as int]);
            parts.push(part);
            assert(texts(parts@) =~= texts(before).push(part@));
            assert(lines.take(i + 1) =~= lines.take(i as int).push(lines[i as int]));
            i = i + 1;
        }
        assert(lines.take(lines.len() as int) =~= lines);
        Some(join(&parts, "; "))
    }

    /// All cookies in one text.
    pub fn snapshot(&self) -> (r: String)
        ensures
            r@ == header_of(self@),
    {
        match self.header_value() {
            Some(text) => text,
            None => {
                let empty = String::new();
                assert(empty@ =~= header_of(self@));
                empty
            },
        }
    }

    /// The names of all cookies in one text, or a word where there are none.
    pub fn summary(&self) -> (r: String)
        ensures
            r@ == if self@.len() == 0 {
                "无"@
            } else {
                joined(names_of(self@), ","@)
            },
    {
        if self.entries.len() == 0 {
            return copy_of("无");
        }
        let mut names: Vec<String> = Vec::new();
        let mut i: usize = 0;
        while i < self.entries.len()
            invariant
                i <= self.entries@.len(),
                self@ == cookies_of(self.entries@),
                texts(names@) == names_of(self@).take(i as int),
            decreases self.entries@.len() - i,
        {
            let ghost before = names@;
            let name: String = copy_of(self.entries[i].0.as_str());
            names.push(name);
            assert(self@[i as int].0 == name@);
            assert(texts(names@) =~= texts(before).push(name@));
            assert(names_of(self@).take(i + 1) =~= names_of(self@).take(i as int).push(name@));
            i = i + 1;
        }
        assert(names_of(self@).take(self@.len() as int) =~= names_of(self@));
        join(&names, ",")
    }
}

/// The segments of a text that stand between its separators.
pub fn split_segments(text: &str, separator: char) -> (r: Vec<String>)
    ensures
        texts(r@) == segments(text@, separator),
{
    let chars: Vec<char> = chars_of(text);
    let mut list: Vec<String> = Vec::new();
    let mut from: usize = 0;
    assert(text@.skip(0) =~= text@);
    assert(texts(list@) + segments(text@, separator) =~= segments(text@, separator));
    loop
        invariant
            from <= chars@.len(),
            chars@ == text@,
            segments(text@, separator) == texts(list@) + segments(
                text@.skip(from as int),
                separator,
            ),
        decreases chars@.len() - from,
    {
        let end: usize = find_char(&chars, separator, from);
        let segment: String = text_between(&chars, from, end);
        let ghost before = list@;
        let ghost rest = text@.skip(from as int);
        assert(segment@ =~= rest.take(end - from));
        list.push(segment);
        assert(texts(list@) =~= texts(before).push(segment@));
        if end >= chars.len() {
            assert(rest.take(end - from) =~= rest);
            assert(texts(list@) =~= texts(before) + seq![rest]);
            return list;
        }
        assert(rest.skip(end - from + 1) =~= text@.skip(end + 1));
        assert(texts(list@) + segments(text@.skip(end + 1), separator) =~= texts(before) + (seq![
            rest.take(end - from),
        ] + segments(rest.skip(end - from + 1), separator)));
        from = end + 1;
    }
}

// ---------------------------------------------------------------------------------------
// What is given is clean

proof fn trim_start_is_part(text: Seq<char>) -> (from: int)
    ensures
        0 <= from <= text.len(),
        trim_start(text) == text.skip(from),
        trim_start(text).len() > 0 ==> !is_white_space(trim_start(text)[0]),
    decreases text.len(),
{
    if text.len() > 0 && is_white_space(text[0]) {
        let from = trim_start_is_part(text.drop_first());
        assert(text.drop_first().skip(from) =~= text.skip(from + 1));
        from + 1
    } else {
        assert(text.skip(0) =~= text);
        0
    }
}

proof fn trim_end_is_part(text: Seq<char>) -> (to: int)
    ensures
        0 <= to <= text.len(),
        trim_end(text) == text.take(to),
        trim_end(text).len() > 0 ==> !is_white_space(trim_end(text).last()),
    decreases text.len(),
{
    if text.len() > 0 && is_white_space(text.last()) {
        let to = trim_end_is_part(text.drop_last());
        assert(text.drop_last().take(to) =~= text.take(to));
        to
    } else {
        assert(text.take(text.len() as int) =~= text);
        text.len() as int
    }
}

/// What is trimmed is a part of the text, and has no white space at its ends.
pub proof fn trim_is_part(text: Seq<char>) -> (r: (int, int))
    ensures
        0 <= r.0 <= r.1 <= text.len(),
        trim(text) == text.subrange(r.0, r.1),
        is_trimmed(trim(text)),
{
    let from = trim_start_is_part(text);
    let rest = trim_start(text);
    let to = trim_end_is_part(rest);
    assert(rest.take(to) =~= text.subrange(from, from + to));
    (from, from + to)
}

/// Trimming leaves a text without white space at its ends as it is.
pub proof fn trimmed_stays(text: Seq<char>)
    requires
        is_trimmed(text),
    ensures
        trim(text) == text,
{
}

/// Every cookie that a text gives is clean.
pub proof fn given_is_clean(text: Seq<char>)
    ensures
        cookie_in(text) matches Some(cookie) ==> is_clean(cookie),
{
    if let Some(cookie) = cookie_in(text) {
        let end = segment_end(text, ';');
        segment_end_bounds(text, ';');
        let head = text.take(end);
        let segment = trim(head);
        let (a, b) = trim_is_part(head);
        assert(lacks(segment, ';'));
        let cut = segment_end(segment, '=');
        segment_end_bounds(segment, '=');
        let name = segment.take(cut);
        let value = segment.skip(cut + 1);
        let (c, d) = trim_is_part(name);
        let (e, f) = trim_is_part(value);
        assert(lacks(name, ';') && lacks(name, '='));
        assert forall|i: int| 0 <= i < value.len() implies value[i] != ';' by {
            assert(value[i] == segment[cut + 1 + i]);
        }
        assert forall|i: int| 0 <= i < cookie.0.len() implies cookie.0[i] != ';' && cookie.0[i]
            != '=' by {
            assert(cookie.0[i] == name[c + i]);
        }
        assert forall|i: int| 0 <= i < cookie.1.len() implies cookie.1[i] != ';' by {
            assert(cookie.1[i] == value[e + i]);
        }
    }
}

// ---------------------------------------------------------------------------------------
// What is kept can be given again

/// The first segment of a text ends where its first separator stands.
pub proof fn segment_ends_there(a: Seq<char>, separator: char, b: Seq<char>)
    requires
        lacks(a, separator),
    ensures
        segment_end(a + seq![separator] + b, separator) == a.len(),
        segment_end(a, separator) == a.len(),
    decreases a.len(),
{
    let whole = a + seq![separator] + b;
    if a.len() > 0 {
        assert(whole.drop_first() =~= a.drop_first() + seq![separator] + b);
        assert(whole[0] == a[0]);
        segment_ends_there(a.drop_first(), separator, b);
    }
}

/// A text without the separator is one segment, and what follows a separator is parted by
/// itself.
pub proof fn segments_of_sum(a: Seq<char>, separator: char, b: Seq<char>)
    requires
        lacks(a, separator),
    ensures
        segments(a + seq![separator] + b, separator) == seq![a] + segments(b, separator),
        segments(a, separator) == seq![a],
{
    let whole = a + seq![separator] + b;
    segment_ends_there(a, separator, b);
    assert(whole.take(a.len() as int) =~= a);
    assert(whole.skip(a.len() as int + 1) =~= b);
}

/// The segments of a header, where `prefix` stands before it.
spec fn header_segments(prefix: Seq<char>, lines: Seq<Seq<char>>) -> Seq<Seq<char>> {
    Seq::new(
        lines.len(),
        |i: int|
            if i == 0 {
                prefix + lines[0]
            } else {
                seq![' '] + lines[i]
            },
    )
}

proof fn header_parts(prefix: Seq<char>, lines: Seq<Seq<char>>)
    requires
        lines.len() > 0,
        lacks(prefix, ';'),
        forall|i: int| 0 <= i < lines.len() ==> lacks(#[trigger] lines[i], ';'),
    ensures
        segments(prefix + joined(lines, "; "@), ';') == header_segments(prefix, lines),
    decreases lines.len(),
{
    reveal_strlit("; ");
    let head = prefix + lines[0];
    assert(lacks(head, ';')) by {
        assert(lacks(lines[0], ';'));
    }
    if lines.len() == 1 {
        segments_of_sum(head, ';', Seq::empty());
        assert(header_segments(prefix, lines) =~= seq![head]);
    } else {
        let rest = lines.drop_first();
        let tail = seq![' '] + joined(rest, "; "@);
        assert("; "@ =~= seq![';', ' ']);
        assert(prefix + joined(lines, "; "@) =~= head + seq![';'] + tail);
        segments_of_sum(head, ';', tail);
        assert forall|i: int| 0 <= i < rest.len() implies lacks(#[trigger] rest[i], ';') by {
            assert(rest[i] == lines[i + 1]);
        }
        header_parts(seq![' '], rest);
        assert(header_segments(prefix, lines) =~= seq![head] + header_segments(seq![' '], rest));
    }
}

proof fn line_gives_cookie(prefix: Seq<char>, cookie: CookieView)
    requires
        is_clean(cookie),
        prefix == Seq::<char>::empty() || prefix == seq![' '],
    ensures
        cookie_in(prefix + cookie_text(cookie)) == Some(cookie),
        lacks(cookie_text(cookie), ';'),
{
    reveal_strlit("=");
    let line = cookie_text(cookie);
    let text = prefix + line;
    assert(line =~= cookie.0 + seq!['='] + cookie.1);
    assert forall|i: int| 0 <= i < line.len() implies line[i] != ';' by {
        if i < cookie.0.len() {
            assert(line[i] == cookie.0[i]);
        } else if i > cookie.0.len() {
            assert(line[i] == cookie.1[i - cookie.0.len() - 1]);
        }
    }
    assert(lacks(text, ';'));
    segment_ends_there(text, ';', Seq::empty());
    assert(text.take(text.len() as int) =~= text);
    assert(is_trimmed(line)) by {
        assert(line[0] == cookie.0[0]);
        if cookie.1.len() > 0 {
            assert(line.last() == cookie.1.last());
        }
    }
    trimmed_stays(line);
    assert(trim_start(text) == line) by {
        if prefix.len() == 0 {
            assert(text =~= line);
        } else {
            assert(text.drop_first() =~= line);
            reveal_with_fuel(trim_start, 3);
        }
    }
    assert(trim(text) == line);
    segment_ends_there(cookie.0, '=', cookie.1);
    assert(line.take(cookie.0.len() as int) =~= cookie.0);
    assert(line.skip(cookie.0.len() as int + 1) =~= cookie.1);
    trimmed_stays(cookie.0);
    trimmed_stays(cookie.1);
}

proof fn given_in_turn(cookies: Seq<CookieView>, given: Seq<Seq<char>>, n: int)
    requires
        names_differ(cookies),
        given.len() == cookies.len(),
        forall|i: int| 0 <= i < given.len() ==> cookie_in(#[trigger] given[i]) == Some(cookies[i]),
        0 <= n <= cookies.len(),
    ensures
        with_cookies(Seq::empty(), given, n) == cookies.take(n),
    decreases n,
{
    if n > 0 {
        given_in_turn(cookies, given, n - 1);
        let earlier = cookies.take(n - 1);
        position_is_right(earlier, cookies[n - 1].0);
        assert(position_of(earlier, cookies[n - 1].0) is None) by {
            if position_of(earlier, cookies[n - 1].0) is Some {
                let i = position_of(earlier, cookies[n - 1].0)->0;
                assert(earlier[i] == cookies[i]);
            }
        }
        assert(cookies.take(n) =~= earlier.push(cookies[n - 1]));
    }
}

/// A session that is kept as one text and seeded with it again has the same cookies in the same
/// order.
pub proof fn kept_session_is_restored(cookies: Seq<CookieView>)
    requires
        names_differ(cookies),
        forall|i: int| 0 <= i < cookies.len() ==> is_clean(#[trigger] cookies[i]),
    ensures
        with_cookies(
            Seq::empty(),
            segments(header_of(cookies), ';'),
            segments(header_of(cookies), ';').len() as int,
        ) == cookies,
{
    let lines = cookies.map_values(|cookie: CookieView| cookie_text(cookie));
    let given = segments(header_of(cookies), ';');
    if cookies.len() == 0 {
        let empty = Seq::<char>::empty();
        segments_of_sum(empty, ';', empty);
        assert(given =~= seq![empty]);
        segment_ends_there(empty, ';', empty);
        assert(empty.take(0) =~= empty);
        assert(cookie_in(empty) is None);
        reveal_with_fuel(with_cookies, 2);
        assert(cookies =~= Seq::empty());
    } else {
        let empty = Seq::<char>::empty();
        assert forall|i: int| 0 <= i < lines.len() implies lacks(#[trigger] lines[i], ';') by {
            line_gives_cookie(empty, cookies[i]);
        }
        header_parts(empty, lines);
        assert(empty + joined(lines, "; "@) =~= joined(lines, "; "@));
        assert forall|i: int| 0 <= i < given.len() implies cookie_in(#[trigger] given[i]) == Some(
            cookies[i],
        ) by {
            if i == 0 {
                line_gives_cookie(empty, cookies[0]);
            } else {
                line_gives_cookie(seq![' '], cookies[i]);
            }
        }
        given_in_turn(cookies, given, cookies.len() as int);
        assert(cookies.take(cookies.len() as int) =~= cookies);
    }
}

/// Putting a cookie in again changes nothing more.
pub proof fn same_cookie_twice(cookies: Seq<CookieView>, cookie: CookieView)
    ensures
        with_cookie(with_cookie(cookies, cookie), cookie) == with_cookie(cookies, cookie),
{
    let once = with_cookie(cookies, cookie);
    position_is_right(cookies, cookie.0);
    position_is_right(once, cookie.0);
    match position_of(cookies, cookie.0) {
        Some(i) => {
            same_position(cookies, cookie, i);
            assert(once.update(i, cookie) =~= once);
        },
        None => {
            assert(once.last().0 == cookie.0);
            assert(once.update(once.len() - 1, cookie) =~= once);
        },
    }
}

proof fn same_position(cookies: Seq<CookieView>, cookie: CookieView, i: int)
    requires
        position_of(cookies, cookie.0) == Some(i),
    ensures
        position_of(cookies.update(i, cookie), cookie.0) == Some(i),
    decreases cookies.len(),
{
    position_is_right(cookies, cookie.0);
    let updated = cookies.update(i, cookie);
    if i < cookies.len() - 1 {
        assert(updated.drop_last() =~= cookies.drop_last().update(i, cookie));
        same_position(cookies.drop_last(), cookie, i);
    }
}

/// A name is among cookies.
pub open spec fn is_named(cookies: Seq<CookieView>, name: Seq<char>) -> bool {
    exists|i: int| 0 <= i < cookies.len() && (#[trigger] cookies[i]).0 == name
}

/// The value that the last of the first `n` texts gives for a name, where one does.
pub open spec fn last_given(given: Seq<Seq<char>>, n: int, name: Seq<char>) -> Option<Seq<char>>
    decreases n,
{
    if n <= 0 {
        None
    } else {
        match cookie_in(given[n - 1]) {
            Some(cookie) if cookie.0 == name => Some(cookie.1),
            _ => last_given(given, n - 1, name),
        }
    }
}

/// What the first texts make of cookies: those that were there keep their places, every name that
/// was given is there, and each has the value that was given last, or for want of one its own.
/// Where every name was there before, nothing is added.
proof fn given_cookies_stand(cookies: Seq<CookieView>, given: Seq<Seq<char>>, n: int)
    requires
        names_differ(cookies),
    ensures
        ({
            let after = with_cookies(cookies, given, n);
            &&& names_differ(after)
            &&& cookies.len() <= after.len()
            &&& forall|i: int|
                0 <= i < cookies.len() ==> (#[trigger] after[i]).0 == cookies[i].0
            &&& forall|i: int|
                0 <= i < after.len() ==> match last_given(given, n, (#[trigger] after[i]).0) {
                    Some(value) => after[i].1 == value,
                    None => i < cookies.len() && after[i].1 == cookies[i].1,
                }
            &&& forall|name: Seq<char>|
                last_given(given, n, name) is Some ==> #[trigger] is_named(after, name)
            &&& (forall|name: Seq<char>|
                last_given(given, n, name) is Some ==> #[trigger] is_named(cookies, name))
                ==> after.len() == cookies.len()
        }),
    decreases n,
{
    if n > 0 {
        given_cookies_stand(cookies, given, n - 1);
        let before = with_cookies(cookies, given, n - 1);
        let after = with_cookies(cookies, given, n);
        if let Some(cookie) = cookie_in(given[n - 1]) {
            position_is_right(before, cookie.0);
            let at = match position_of(before, cookie.0) {
                Some(i) => i,
                None => before.len() as int,
            };
            assert(after[at] == cookie);
            assert forall|i: int| 0 <= i < before.len() implies (#[trigger] after[i]).0
                == before[i].0 by {}
            assert forall|i: int, j: int| 0 <= i < j < after.len() implies (#[trigger] after[i]).0
                != (#[trigger] after[j]).0 by {
                if j < before.len() {
                    assert(before[i].0 != before[j].0);
                } else {
                    assert(before[i].0 != cookie.0);
                }
            }
            assert forall|i: int| 0 <= i < after.len() implies match last_given(
                given,
                n,
                (#[trigger] after[i]).0,
            ) {
                Some(value) => after[i].1 == value,
                None => i < cookies.len() && after[i].1 == cookies[i].1,
            } by {
                if i != at {
                    assert(after[i] == before[i]);
                    assert(after[i].0 != cookie.0);
                }
            }
            assert forall|name: Seq<char>| last_given(given, n, name) is Some implies #[trigger]
                is_named(after, name) by {
                if name == cookie.0 {
                    assert(after[at].0 == name);
                } else {
                    assert(is_named(before, name));
                    let k = choose|k: int|
                        0 <= k < before.len() && (#[trigger] before[k]).0 == name;
                    assert(after[k].0 == name);
                }
            }
            if forall|name: Seq<char>|
                last_given(given, n, name) is Some ==> #[trigger] is_named(cookies, name) {
                assert forall|name: Seq<char>|
                    last_given(given, n - 1, name) is Some implies #[trigger] is_named(
                    cookies,
                    name,
                ) by {
                    assert(last_given(given, n, name) is Some);
                }
                assert(last_given(given, n, cookie.0) is Some);
                assert(is_named(cookies, cookie.0));
                let k = choose|k: int|
                    0 <= k < cookies.len() && (#[trigger] cookies[k]).0 == cookie.0;
                assert(before[k].0 == cookie.0);
            }
        } else {
            assert forall|name: Seq<char>|
                last_given(given, n, name) == last_given(given, n - 1, name) by {}
        }
    }
}

/// Texts that are given twice leave the cookies that they leave when given once.
pub proof fn same_cookies_twice(cookies: Seq<CookieView>, given: Seq<Seq<char>>)
    requires
        names_differ(cookies),
    ensures
        with_cookies(
            with_cookies(cookies, given, given.len() as int),
            given,
            given.len() as int,
        ) == with_cookies(cookies, given, given.len() as int),
{
    let n = given.len() as int;
    let once = with_cookies(cookies, given, n);
    let twice = with_cookies(once, given, n);
    given_cookies_stand(cookies, given, n);
    given_cookies_stand(once, given, n);
    assert forall|i: int| 0 <= i < once.len() implies twice[i] == once[i] by {
        assert(twice[i].0 == once[i].0);
    }
    assert(twice =~= once);
}

/// A session that is seeded with the same text twice has the cookies that it has after the first
/// time.
pub proof fn same_session_twice(cookies: Seq<CookieView>, text: Seq<char>)
    requires
        names_differ(cookies),
    ensures
        ({
            let given = segments(text, ';');
            let once = with_cookies(cookies, given, given.len() as int);
            with_cookies(once, given, given.len() as int) == once
        }),
{
    same_cookies_twice(cookies, segments(text, ';'));
}

/// A cookie that is given is kept: its value is found under its name, no other changes, and only
/// a new name makes the store longer, at its end.
pub proof fn given_cookie_is_kept(cookies: Seq<CookieView>, cookie: CookieView)
    requires
        names_differ(cookies),
    ensures
        with_cookie(cookies, cookie).contains(cookie),
        names_differ(with_cookie(cookies, cookie)),
        is_named(cookies, cookie.0) ==> with_cookie(cookies, cookie).len() == cookies.len(),
        !is_named(cookies, cookie.0) ==> with_cookie(cookies, cookie) == cookies.push(cookie),
        forall|i: int|
            0 <= i < cookies.len() ==> (#[trigger] with_cookie(cookies, cookie)[i]).0
                == cookies[i].0,
        forall|i: int|
            0 <= i < cookies.len() && (#[trigger] cookies[i]).0 != cookie.0 ==> with_cookie(
                cookies,
                cookie,
            )[i] == cookies[i],
{
    position_is_right(cookies, cookie.0);
    let after = with_cookie(cookies, cookie);
    match position_of(cookies, cookie.0) {
        Some(i) => {
            assert(after[i] == cookie);
            assert(cookies[i].0 == cookie.0);
        },
        None => {
            assert(after[cookies.len() as int] == cookie);
        },
    }
}

/// What a cookie is read from: the name before the first equals sign and the value after it, up
/// to the first semicolon, both without white space round them.
pub proof fn cookie_is_name_and_value(name: Seq<char>, value: Seq<char>, attributes: Seq<char>)
    requires
        is_clean((name, value)),
    ensures
        cookie_in(name + "="@ + value) == Some((name, value)),
        cookie_in(name + "="@ + value + ";"@ + attributes) == Some((name, value)),
{
    reveal_strlit(";");
    let cookie = (name, value);
    line_gives_cookie(Seq::empty(), cookie);
    let line = cookie_text(cookie);
    assert(Seq::<char>::empty() + line =~= line);
    let whole = name + "="@ + value + ";"@ + attributes;
    assert(whole =~= line + seq![';'] + attributes);
    segment_ends_there(line, ';', attributes);
    assert(whole.take(line.len() as int) =~= line);
    assert(line.take(line.len() as int) =~= line);
}

/// A text without an equals sign before its first semicolon is no cookie, and neither is one that
/// has nothing before it.
pub proof fn nameless_is_no_cookie(text: Seq<char>, rest: Seq<char>)
    requires
        lacks(text, '='),
        lacks(text, ';'),
    ensures
        cookie_in(text) is None,
        cookie_in(text + seq![';'] + rest) is None,
{
    segment_ends_there(text, ';', rest);
    let whole = text + seq![';'] + rest;
    assert(whole.take(text.len() as int) =~= text);
    assert(text.take(text.len() as int) =~= text);
    let (a, b) = trim_is_part(text);
    let part = trim(text);
    assert(lacks(part, '=')) by {
        assert forall|i: int| 0 <= i < part.len() implies part[i] != '=' by {
            assert(part[i] == text[a + i]);
        }
    }
    segment_ends_there(part, '=', Seq::empty());
}

/// The header lists every cookie as name and value, in the order of the store, parted by
/// semicolons.
pub proof fn header_lists_cookies(cookies: Seq<CookieView>, cookie: CookieView)
    ensures
        header_of(Seq::empty()).len() == 0,
        header_of(seq![cookie]) == cookie.0 + "="@ + cookie.1,
        cookies.len() > 0 ==> header_of(cookies.push(cookie)) == header_of(cookies) + "; "@
            + cookie.0 + "="@ + cookie.1,
{
    let text = |c: CookieView| cookie_text(c);
    crate::text::joined_push(cookies.map_values(text), "; "@, cookie_text(cookie));
    assert(cookies.push(cookie).map_values(text) =~= cookies.map_values(text).push(
        cookie_text(cookie),
    ));
    assert(seq![cookie].map_values(text) =~= seq![cookie_text(cookie)]);
    assert(Seq::<CookieView>::empty().map_values(text) =~= Seq::empty());
    if cookies.len() > 0 {
        assert(header_of(cookies.push(cookie)) =~= header_of(cookies) + "; "@ + cookie.0 + "="@
            + cookie.1);
    }
}

} // verus!

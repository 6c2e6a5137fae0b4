//! Looking things up in the service's pages and messages.
use crate::models::{coordinate_of, opt_view, parse_coordinate, Coordinates, CoordinatesView};
use crate::number::{float_text, is_float_text};
use crate::text::{
    alphanumeric, char_width, chars_of, contains_text, digit, find_char, find_from, first_at,
    first_at_is_least, has_text, is_alphanumeric, is_digit, is_white_space, join, joined,
    lower_case, occurs_at, segment_end, skip_white_space, stands_at, text_between, texts,
    to_lower_case, trim, trim_start, trimmed, white_space, width, width_of_char,
};
use vstd::prelude::*;

verus! {

/// What a page says of a value: it has none, it has this one, or there is no telling, because
/// the stretch of the page to look through begins or ends inside a character.
pub enum Lookup {
    Cut,
    Missing,
    Found(String),
}

/// What a page says of a value.
#[verifier::ext_equal]
pub ghost enum LookupView {
    Cut,
    Missing,
    Found(Seq<char>),
}

impl View for Lookup {
    type V = LookupView;

    open spec fn view(&self) -> LookupView {
        match *self {
            Lookup::Cut => LookupView::Cut,
            Lookup::Missing => LookupView::Missing,
            Lookup::Found(text) => LookupView::Found(text@),
        }
    }
}

impl LookupView {
    /// The second, where the first has nothing.
    pub open spec fn or(self, other: LookupView) -> LookupView {
        if self is Missing {
            other
        } else {
            self
        }
    }

    /// The value, where there is one.
    pub open spec fn value(self) -> Option<Seq<char>> {
        match self {
            LookupView::Found(text) => Some(text),
            _ => None,
        }
    }
}

/// How far a value may stand from the place where it is looked for, in bytes.
pub const REACH: usize = 300;

// ---------------------------------------------------------------------------------------
// Runs of characters

/// The first position from `from` on whose character `stop` holds of, or the end of the text.
pub open spec fn run_end(text: Seq<char>, from: int, stop: spec_fn(char) -> bool) -> int
    decreases text.len() - from,
{
    if from < 0 || from >= text.len() || stop(text[from]) {
        from
    } else {
        run_end(text, from + 1, stop)
    }
}

proof fn run_end_bounds(text: Seq<char>, from: int, stop: spec_fn(char) -> bool)
    requires
        0 <= from <= text.len(),
    ensures
        from <= run_end(text, from, stop) <= text.len(),
    decreases text.len() - from,
{
    if from < text.len() && !stop(text[from]) {
        run_end_bounds(text, from + 1, stop);
    }
}

/// White space ends a word.
pub open spec fn ends_word() -> spec_fn(char) -> bool {
    |c: char| is_white_space(c)
}

/// White space and the end of a tag end a bare value.
pub open spec fn ends_value() -> spec_fn(char) -> bool {
    |c: char| is_white_space(c) || c == '>'
}

/// Whatever is no letter and no digit ends a code.
pub open spec fn ends_code() -> spec_fn(char) -> bool {
    |c: char| !is_alphanumeric(c)
}

/// A digit begins a number.
pub open spec fn begins_number() -> spec_fn(char) -> bool {
    |c: char| is_digit(c)
}

/// Whatever is no digit and no point ends a number.
pub open spec fn ends_number() -> spec_fn(char) -> bool {
    |c: char| !is_digit(c) && c != '.'
}

fn word_end(text: &Vec<char>, from: usize) -> (r: usize)
    requires
        from <= text@.len(),
    ensures
        r == run_end(text@, from as int, ends_word()),
        from <= r <= text@.len(),
{
    let mut i: usize = from;
    while i < text.len() && !white_space(text[i])
        invariant
            from <= i <= text@.len(),
            run_end(text@, from as int, ends_word()) == run_end(text@, i as int, ends_word()),
        decreases text@.len() - i,
    {
        i = i + 1;
    }
    i
}

fn value_end(text: &Vec<char>, from: usize) -> (r: usize)
    requires
        from <= text@.len(),
    ensures
        r == run_end(text@, from as int, ends_value()),
        from <= r <= text@.len(),
{
    let mut i: usize = from;
    while i < text.len() && !white_space(text[i]) && text[i] != '>'
        invariant
            from <= i <= text@.len(),
            run_end(text@, from as int, ends_value()) == run_end(text@, i as int, ends_value()),
        decreases text@.len() - i,
    {
        i = i + 1;
    }
    i
}

fn code_end(text: &Vec<char>, from: usize) -> (r: usize)
    requires
        from <= text@.len(),
    ensures
        r == run_end(text@, from as int, ends_code()),
        from <= r <= text@.len(),
{
    let mut i: usize = from;
    while i < text.len() && alphanumeric(text[i])
        invariant
            from <= i <= text@.len(),
            run_end(text@, from as int, ends_code()) == run_end(text@, i as int, ends_code()),
        decreases text@.len() - i,
    {
        i = i + 1;
    }
    i
}

fn number_start(text: &Vec<char>, from: usize) -> (r: usize)
    requires
        from <= text@.len(),
    ensures
        r == run_end(text@, from as int, begins_number()),
        from <= r <= text@.len(),
{
    let mut i: usize = from;
    while i < text.len() && !digit(text[i])
        invariant
            from <= i <= text@.len(),
            run_end(text@, from as int, begins_number()) == run_end(
                text@,
                i as int,
                begins_number(),
            ),
        decreases text@.len() - i,
    {
        i = i + 1;
    }
    i
}

fn number_end(text: &Vec<char>, from: usize) -> (r: usize)
    requires
        from <= text@.len(),
    ensures
        r == run_end(text@, from as int, ends_number()),
        from <= r <= text@.len(),
{
    let mut i: usize = from;
    while i < text.len() && (digit(text[i]) || text[i] == '.')
        invariant
            from <= i <= text@.len(),
            run_end(text@, from as int, ends_number()) == run_end(text@, i as int, ends_number()),
        decreases text@.len() - i,
    {
        i = i + 1;
    }
    i
}

// ---------------------------------------------------------------------------------------
// Values in tags

/// The value that stands at a position: after white space, what is between two quotes of one
/// kind, or, without a quote, what comes before white space or the end of the tag. There is none
/// at the end of the page, or where the quote is not closed.
pub open spec fn value_at(html: Seq<char>, at: int) -> Option<Seq<char>> {
    let after = trim_start(html.skip(at));
    if after.len() == 0 {
        None
    } else if after[0] == '"' || after[0] == '\'' {
        let body = after.drop_first();
        let end = segment_end(body, after[0]);
        if end < body.len() {
            Some(body.take(end))
        } else {
            None
        }
    } else {
        Some(after.take(run_end(after, 0, ends_value())))
    }
}

/// The value that stands at a position.
pub fn extract_value(html: &Vec<char>, at: usize) -> (r: Option<String>)
    requires
        at <= html@.len(),
    ensures
        opt_view(r) == value_at(html@, at as int),
{
    let start: usize = skip_white_space(html, at);
    let ghost after = html@.skip(start as int);
    if start >= html.len() {
        return None;
    }
    let first: char = html[start];
    if first == '"' || first == '\'' {
        let close: usize = find_char(html, first, start + 1);
        assert(after.drop_first() =~= html@.skip(start + 1));
        if close >= html.len() {
            return None;
        }
        let value: String = text_between(html, start + 1, close);
        assert(value@ =~= after.drop_first().take(close - (start + 1)));
        return Some(value);
    }
    let end: usize = value_end(html, start);
    proof {
        run_in_suffix(html@, start as int, 0, ends_value());
        assert(html@.subrange(start as int, end as int) =~= after.take(end - start));
    }
    Some(text_between(html, start, end))
}

/// A run in the rest of a text is the run in the text, counted from where the rest begins.
proof fn run_in_suffix(text: Seq<char>, start: int, from: int, stop: spec_fn(char) -> bool)
    requires
        0 <= start <= text.len(),
        0 <= from <= text.len() - start,
    ensures
        run_end(text.skip(start), from, stop) == run_end(text, start + from, stop) - start,
    decreases text.len() - start - from,
{
    if from < text.len() - start && !stop(text[start + from]) {
        run_in_suffix(text, start, from + 1, stop);
    }
}

/// The end of a stretch of so many bytes from `from` on, or the end of the page; `None` where
/// the stretch ends inside a character.
pub open spec fn reach_forward(html: Seq<char>, from: int, bytes: int) -> Option<int>
    decreases html.len() - from,
{
    if from < 0 || from >= html.len() || bytes == 0 {
        Some(from)
    } else if char_width(html[from]) > bytes {
        None
    } else {
        reach_forward(html, from + 1, bytes - char_width(html[from]))
    }
}

/// The start of a stretch of so many bytes up to `to`, or the start of the page; `None` where
/// the stretch begins inside a character.
pub open spec fn reach_backward(html: Seq<char>, to: int, bytes: int) -> Option<int>
    decreases to,
{
    if to <= 0 || to > html.len() || bytes == 0 {
        Some(to)
    } else if char_width(html[to - 1]) > bytes {
        None
    } else {
        reach_backward(html, to - 1, bytes - char_width(html[to - 1]))
    }
}

/// A stretch forward holds exactly so many bytes, or reaches the end of the page.
pub proof fn reach_forward_is_exact(html: Seq<char>, from: int, bytes: int)
    requires
        0 <= from <= html.len(),
        0 <= bytes,
    ensures
        match reach_forward(html, from, bytes) {
            Some(end) => {
                &&& from <= end <= html.len()
                &&& width(html.subrange(from, end)) <= bytes
                &&& end < html.len() ==> width(html.subrange(from, end)) == bytes
            },
            None => forall|end: int|
                from <= end <= html.len() ==> width(#[trigger] html.subrange(from, end)) != bytes,
        },
    decreases html.len() - from,
{
    assert(html.subrange(from, from) =~= Seq::empty());
    if from < html.len() && bytes > 0 {
        let w = char_width(html[from]);
        if w <= bytes {
            reach_forward_is_exact(html, from + 1, bytes - w);
            assert forall|end: int| from < end <= html.len() implies width(
                #[trigger] html.subrange(from, end),
            ) == w + width(html.subrange(from + 1, end)) by {
                assert(html.subrange(from, end).drop_first() =~= html.subrange(from + 1, end));
            }
            match reach_forward(html, from, bytes) {
                Some(end) => {},
                None => {
                    assert forall|end: int| from <= end <= html.len() implies width(
                        #[trigger] html.subrange(from, end),
                    ) != bytes by {
                        if end > from {
                            assert(width(html.subrange(from + 1, end)) != bytes - w);
                        }
                    }
                },
            }
        } else {
            assert forall|end: int| from <= end <= html.len() implies width(
                #[trigger] html.subrange(from, end),
            ) != bytes by {
                if end > from {
                    assert(html.subrange(from, end)[0] == html[from]);
                }
            }
        }
    }
}

fn window_end(html: &Vec<char>, from: usize, bytes: usize) -> (r: Option<usize>)
    requires
        from <= html@.len(),
    ensures
        match r {
            Some(end) => reach_forward(html@, from as int, bytes as int) == Some(end as int)
                && from <= end <= html@.len(),
            None => reach_forward(html@, from as int, bytes as int) is None,
        },
{
    let mut i: usize = from;
    let mut left: usize = bytes;
    while i < html.len() && left > 0
        invariant
            from <= i <= html@.len(),
            reach_forward(html@, from as int, bytes as int) == reach_forward(
                html@,
                i as int,
                left as int,
            ),
        decreases html@.len() - i,
    {
        let w: usize = width_of_char(html[i]);
        if w > left {
            return None;
        }
        left = left - w;
        i = i + 1;
    }
    Some(i)
}

fn window_start(html: &Vec<char>, to: usize, bytes: usize) -> (r: Option<usize>)
    requires
        to <= html@.len(),
    ensures
        match r {
            Some(start) => reach_backward(html@, to as int, bytes as int) == Some(start as int)
                && start <= to,
            None => reach_backward(html@, to as int, bytes as int) is None,
        },
{
    let mut i: usize = to;
    let mut left: usize = bytes;
    while i > 0 && left > 0
        invariant
            i <= to <= html@.len(),
            reach_backward(html@, to as int, bytes as int) == reach_backward(
                html@,
                i as int,
                left as int,
            ),
        decreases i,
    {
        let w: usize = width_of_char(html[i - 1]);
        if w > left {
            return None;
        }
        left = left - w;
        i = i - 1;
    }
    Some(i)
}

/// The last position from `from` on at which `pattern` stands and ends no later than `to`.
pub open spec fn last_at(text: Seq<char>, pattern: Seq<char>, from: int, to: int) -> Option<int>
    decreases to,
{
    if from < 0 || to > text.len() || to < from + pattern.len() {
        None
    } else if occurs_at(text, pattern, to - pattern.len()) {
        Some(to - pattern.len())
    } else if to == 0 {
        None
    } else {
        last_at(text, pattern, from, to - 1)
    }
}

/// `last_at` is the greatest such position, and there is none exactly where it is `None`.
pub proof fn last_at_is_greatest(text: Seq<char>, pattern: Seq<char>, from: int, to: int)
    requires
        0 <= from,
        to <= text.len(),
    ensures
        match last_at(text, pattern, from, to) {
            Some(at) => from <= at && at + pattern.len() <= to && occurs_at(text, pattern, at)
                && forall|i: int| at < i <= to - pattern.len() ==> !occurs_at(text, pattern, i),
            None => forall|i: int| from <= i <= to - pattern.len() ==> !occurs_at(text, pattern, i),
        },
    decreases to,
{
    if to >= from + pattern.len() && !occurs_at(text, pattern, to - pattern.len()) && to > 0 {
        last_at_is_greatest(text, pattern, from, to - 1);
    }
}

fn find_last(text: &Vec<char>, pattern: &Vec<char>, from: usize, to: usize) -> (r: Option<usize>)
    requires
        from <= to <= text@.len(),
        pattern@.len() > 0,
    ensures
        match r {
            Some(at) => last_at(text@, pattern@, from as int, to as int) == Some(at as int) && at
                + pattern@.len() <= to,
            None => last_at(text@, pattern@, from as int, to as int) is None,
        },
{
    let mut end: usize = to;
    while end >= from && pattern.len() <= end - from
        invariant
            from <= to <= text@.len(),
            end <= to,
            pattern@.len() > 0,
            last_at(text@, pattern@, from as int, to as int) == last_at(
                text@,
                pattern@,
                from as int,
                end as int,
            ),
        decreases end,
    {
        let at: usize = end - pattern.len();
        if stands_at(text, pattern, at) {
            return Some(at);
        }
        end = end - 1;
    }
    None
}

/// A value that may be there, as what a page says.
pub open spec fn as_lookup(value: Option<Seq<char>>) -> LookupView {
    match value {
        Some(text) => LookupView::Found(text),
        None => LookupView::Missing,
    }
}

fn to_lookup(value: Option<String>) -> (r: Lookup)
    ensures
        r@ == as_lookup(opt_view(value)),
{
    match value {
        Some(text) => Lookup::Found(text),
        None => Lookup::Missing,
    }
}

/// The value behind the first `value=` in the reach behind a position.
pub open spec fn value_forward(html: Seq<char>, from: int) -> LookupView {
    match reach_forward(html, from, REACH as int) {
        None => LookupView::Cut,
        Some(end) => match first_at(html.take(end), "value="@, from) {
            None => LookupView::Missing,
            Some(at) => as_lookup(value_at(html, at + 6)),
        },
    }
}

/// The value behind the last `value=` in the reach before a position.
pub open spec fn value_backward(html: Seq<char>, to: int) -> LookupView {
    match reach_backward(html, to, REACH as int) {
        None => LookupView::Cut,
        Some(start) => match last_at(html, "value="@, start, to) {
            None => LookupView::Missing,
            Some(at) => as_lookup(value_at(html, at + 6)),
        },
    }
}

/// The value behind the first `value=` in the reach behind a position.
pub fn find_value_forward(html: &Vec<char>, from: usize) -> (r: Lookup)
    requires
        from <= html@.len(),
    ensures
        r@ == value_forward(html@, from as int),
{
    let pattern: Vec<char> = chars_of("value=");
    proof {
        reveal_strlit("value=");
    }
    match window_end(html, from, REACH) {
        None => Lookup::Cut,
        Some(end) => match find_before(html, &pattern, from, end) {
            None => Lookup::Missing,
            Some(at) => to_lookup(extract_value(html, at + 6)),
        },
    }
}

/// The first position at or after `from` at which `pattern` stands and ends no later than `to`.
fn find_before(text: &Vec<char>, pattern: &Vec<char>, from: usize, to: usize) -> (r: Option<
    usize,
>)
    requires
        from <= to <= text@.len(),
        pattern@.len() > 0,
    ensures
        match r {
            Some(at) => first_at(text@.take(to as int), pattern@, from as int) == Some(at as int)
                && at + pattern@.len() <= to,
            None => first_at(text@.take(to as int), pattern@, from as int) is None,
        },
{
    let ghost part = text@.take(to as int);
    let mut at: usize = from;
    while at <= to && pattern.len() <= to - at
        invariant
            from <= at,
            from <= to <= text@.len(),
            at <= to + 1,
            pattern@.len() > 0,
            part == text@.take(to as int),
            first_at(part, pattern@, from as int) == first_at(part, pattern@, at as int),
        decreases to + 1 - at,
    {
        assert(part.subrange(at as int, at + pattern@.len()) =~= text@.subrange(
            at as int,
            at + pattern@.len(),
        ));
        if stands_at(text, pattern, at) {
            return Some(at);
        }
        at = at + 1;
    }
    None
}

/// The value behind the last `value=` in the reach before a position.
pub fn find_value_backward(html: &Vec<char>, to: usize) -> (r: Lookup)
    requires
        to <= html@.len(),
    ensures
        r@ == value_backward(html@, to as int),
{
    let pattern: Vec<char> = chars_of("value=");
    proof {
        reveal_strlit("value=");
    }
    match window_start(html, to, REACH) {
        None => Lookup::Cut,
        Some(start) => match find_last(html, &pattern, start, to) {
            None => Lookup::Missing,
            Some(at) => to_lookup(extract_value(html, at + 6)),
        },
    }
}

// ---------------------------------------------------------------------------------------
// Input fields

/// The attribute that gives a tag this identity, between quotes of this kind.
pub open spec fn id_attribute(id: Seq<char>, quote: char) -> Seq<char> {
    "id="@ + seq![quote] + id + seq![quote]
}

/// The value of the first tag from `from` on that has the attribute and a value in reach, behind
/// the attribute or else before it.
pub open spec fn value_of_tag(html: Seq<char>, attribute: Seq<char>, from: int) -> LookupView
    decreases html.len() + 1 - from,
    via tags_go_on
{
    match first_at(html, attribute, from) {
        None => LookupView::Missing,
        Some(at) => {
            let behind = at + attribute.len();
            let found = value_forward(html, behind).or(value_backward(html, at));
            if attribute.len() == 0 {
                found
            } else {
                found.or(value_of_tag(html, attribute, behind))
            }
        },
    }
}

#[via_fn]
proof fn tags_go_on(html: Seq<char>, attribute: Seq<char>, from: int) {
    if 0 <= from {
        first_at_is_least(html, attribute, from);
    }
}

/// The value of the tag with one of these identities: the identities are tried in their order,
/// each first with double and then with single quotes.
pub open spec fn value_of_input(html: Seq<char>, ids: Seq<Seq<char>>) -> LookupView
    decreases ids.len(),
{
    if ids.len() == 0 {
        LookupView::Missing
    } else {
        value_of_tag(html, id_attribute(ids[0], '"'), 0).or(
            value_of_tag(html, id_attribute(ids[0], '\''), 0),
        ).or(value_of_input(html, ids.drop_first()))
    }
}

/// The texts of a list of literals.
pub open spec fn literals(list: Seq<&str>) -> Seq<Seq<char>> {
    list.map_values(|text: &str| text@)
}

fn make_attribute(id: &str, quote: char) -> (r: Vec<char>)
    ensures
        r@ == id_attribute(id@, quote),
        r@.len() > 0,
{
    let mut text: Vec<char> = chars_of("id=");
    text.push(quote);
    let name: Vec<char> = chars_of(id);
    let mut i: usize = 0;
    while i < name.len()
        invariant
            i <= name@.len(),
            name@ == id@,
            text@ == "id="@ + seq![quote] + id@.take(i as int),
        decreases name@.len() - i,
    {
        text.push(name[i]);
        assert("id="@ + seq![quote] + id@.take(i + 1) =~= ("id="@ + seq![quote] + id@.take(
            i as int,
        )).push(id@[i as int]));
        i = i + 1;
    }
    assert(id@.take(id@.len() as int) =~= id@);
    text.push(quote);
    assert(text@ =~= id_attribute(id@, quote));
    text
}

fn find_tag_value(html: &Vec<char>, attribute: &Vec<char>) -> (r: Lookup)
    requires
        attribute@.len() > 0,
    ensures
        r@ == value_of_tag(html@, attribute@, 0),
{
    let mut from: usize = 0;
    loop
        invariant
            from <= html@.len(),
            attribute@.len() > 0,
            value_of_tag(html@, attribute@, 0) == value_of_tag(html@, attribute@, from as int),
        decreases html@.len() - from,
    {
        match find_from(html, attribute, from) {
            None => {
                return Lookup::Missing;
            },
            Some(at) => {
                assert(at + attribute@.len() <= html.len());
                let behind: usize = at + attribute.len();
                match find_value_forward(html, behind) {
                    Lookup::Missing => {},
                    other => {
                        return other;
                    },
                }
                match find_value_backward(html, at) {
                    Lookup::Missing => {},
                    other => {
                        return other;
                    },
                }
                from = behind;
            },
        }
    }
}

/// What a page says of the value of the tag with one of these identities.
pub fn look_up_input(html: &str, ids: &[&str]) -> (r: Lookup)
    ensures
        r@ == value_of_input(html@, literals(ids@)),
{
    let page: Vec<char> = chars_of(html);
    let ghost all = literals(ids@);
    let mut i: usize = 0;
    assert(all.skip(0) =~= all);
    while i < ids.len()
        invariant
            i <= ids@.len(),
            page@ == html@,
            all == literals(ids@),
            value_of_input(html@, all) == value_of_input(html@, all.skip(i as int)),
        decreases ids@.len() - i,
    {
        assert(all.skip(i as int).drop_first() =~= all.skip(i + 1));
        assert(all.skip(i as int)[0] == ids@[i as int]@);
        match find_tag_value(&page, &make_attribute(ids[i], '"')) {
            Lookup::Missing => {},
            other => {
                return other;
            },
        }
        match find_tag_value(&page, &make_attribute(ids[i], '\'')) {
            Lookup::Missing => {},
            other => {
                return other;
            },
        }
        i = i + 1;
    }
    Lookup::Missing
}

/// The value of the tag with one of these identities. `look_up_input` also answers where a
/// stretch of the page would be cut inside a character.
pub fn find_input_value(html: &str, ids: &[&str]) -> (r: Option<String>)
    requires
        !(value_of_input(html@, literals(ids@)) is Cut),
    ensures
        opt_view(r) == value_of_input(html@, literals(ids@)).value(),
{
    match look_up_input(html, ids) {
        Lookup::Found(text) => Some(text),
        _ => None,
    }
}

/// One of the keywords stands in a text.
pub open spec fn has_keyword(text: Seq<char>, keywords: Seq<Seq<char>>) -> bool {
    exists|i: int| 0 <= i < keywords.len() && contains_text(text, #[trigger] keywords[i])
}

/// The value that follows the first tag from `from` on whose name holds a keyword, in whatever
/// case, and that has a value in reach. A name is read from one character behind the equals sign
/// on: that character is the name's opening quote.
pub open spec fn value_by_name(html: Seq<char>, keywords: Seq<Seq<char>>, from: int) -> LookupView
    decreases html.len() + 1 - from,
    via names_go_on
{
    match first_at(html, "name="@, from) {
        None => LookupView::Missing,
        Some(at) => if at + 5 >= html.len() || char_width(html[at + 5]) != 1 {
            LookupView::Cut
        } else {
            match value_at(html, at + 6) {
                Some(name) if has_keyword(lower_case(name), keywords) => value_forward(
                    html,
                    at,
                ).or(value_by_name(html, keywords, at + 5)),
                _ => value_by_name(html, keywords, at + 5),
            }
        },
    }
}

#[via_fn]
proof fn names_go_on(html: Seq<char>, keywords: Seq<Seq<char>>, from: int) {
    reveal_strlit("name=");
    if 0 <= from {
        first_at_is_least(html, "name="@, from);
    }
}

fn any_keyword(text: &str, keywords: &[&str]) -> (r: bool)
    ensures
        r == has_keyword(text@, literals(keywords@)),
{
    let ghost all = literals(keywords@);
    let mut i: usize = 0;
    while i < keywords.len()
        invariant
            i <= keywords@.len(),
            all == literals(keywords@),
            forall|k: int| 0 <= k < i ==> !contains_text(text@, #[trigger] all[k]),
        decreases keywords@.len() - i,
    {
        assert(all[i as int] == keywords@[i as int]@);
        if has_text(text, keywords[i]) {
            return true;
        }
        i = i + 1;
    }
    false
}

/// What a page says of the value that follows a tag whose name holds a keyword.
pub fn look_up_by_keyword(html: &str, keywords: &[&str]) -> (r: Lookup)
    ensures
        r@ == value_by_name(html@, literals(keywords@), 0),
{
    let page: Vec<char> = chars_of(html);
    let pattern: Vec<char> = chars_of("name=");
    proof {
        reveal_strlit("name=");
    }
    let ghost all = literals(keywords@);
    let mut from: usize = 0;
    loop
        invariant
            from <= page@.len(),
            page@ == html@,
            pattern@ == "name="@,
            pattern@.len() == 5,
            all == literals(keywords@),
            value_by_name(html@, all, 0) == value_by_name(html@, all, from as int),
        decreases page@.len() - from,
    {
        match find_from(&page, &pattern, from) {
            None => {
                return Lookup::Missing;
            },
            Some(at) => {
                if at + 5 >= page.len() || width_of_char(page[at + 5]) != 1 {
                    return Lookup::Cut;
                }
                if let Some(name) = extract_value(&page, at + 6) {
                    if any_keyword(to_lower_case(name.as_str()).as_str(), keywords) {
                        match find_value_forward(&page, at) {
                            Lookup::Missing => {},
                            other => {
                                return other;
                            },
                        }
                    }
                }
                from = at + 5;
            },
        }
    }
}

/// The value that follows a tag whose name holds a keyword. `look_up_by_keyword` also answers
/// where a stretch of the page would be cut inside a character.
pub fn find_input_value_by_keyword(html: &str, keywords: &[&str]) -> (r: Option<String>)
    requires
        !(value_by_name(html@, literals(keywords@), 0) is Cut),
    ensures
        opt_view(r) == value_by_name(html@, literals(keywords@), 0).value(),
{
    match look_up_by_keyword(html, keywords) {
        Lookup::Found(text) => Some(text),
        _ => None,
    }
}

/// The value that follows a tag whose name holds a keyword, or nothing at all where a stretch of
/// the page would be cut inside a character.
pub fn input_value_by_keyword(html: &str, keywords: &[&str]) -> (r: Option<Option<String>>)
    ensures
        match r {
            Some(value) => {
                &&& !(value_by_name(html@, literals(keywords@), 0) is Cut)
                &&& opt_view(value) == value_by_name(html@, literals(keywords@), 0).value()
            },
            None => value_by_name(html@, literals(keywords@), 0) is Cut,
        },
{
    match look_up_by_keyword(html, keywords) {
        Lookup::Cut => None,
        _ => Some(find_input_value_by_keyword(html, keywords)),
    }
}

// ---------------------------------------------------------------------------------------
// Places, names, codes

/// What a page says of a place.
#[verifier::ext_equal]
pub ghost enum PlaceView {
    Cut,
    Missing,
    Found(CoordinatesView),
}

/// The identities of the field with the longitude of the room.
pub open spec fn longitude_ids() -> Seq<Seq<char>> {
    seq!["HFRoomLongitude"@, "hfroomlongitude"@]
}

/// The identities of the field with the latitude of the room.
pub open spec fn latitude_ids() -> Seq<Seq<char>> {
    seq!["HFRoomLatitude"@, "hfroomlatitude"@]
}

/// The place of the room that a page gives: both fields must be there and stand for numbers.
pub open spec fn room_in(html: Seq<char>) -> PlaceView {
    match value_of_input(html, longitude_ids()) {
        LookupView::Cut => PlaceView::Cut,
        LookupView::Missing => PlaceView::Missing,
        LookupView::Found(longitude) => match value_of_input(html, latitude_ids()) {
            LookupView::Cut => PlaceView::Cut,
            LookupView::Missing => PlaceView::Missing,
            LookupView::Found(latitude) => match coordinate_of(longitude, latitude) {
                Some(place) => PlaceView::Found(place),
                None => PlaceView::Missing,
            },
        },
    }
}

/// What a page says of a place.
pub enum PlaceLookup {
    Cut,
    Missing,
    Found(Coordinates),
}

impl View for PlaceLookup {
    type V = PlaceView;

    open spec fn view(&self) -> PlaceView {
        match *self {
            PlaceLookup::Cut => PlaceView::Cut,
            PlaceLookup::Missing => PlaceView::Missing,
            PlaceLookup::Found(place) => PlaceView::Found(place@),
        }
    }
}

/// What a page says of the place of the room.
pub fn look_up_room(html: &str) -> (r: PlaceLookup)
    ensures
        r@ == room_in(html@),
{
    let longitude_fields: [&str; 2] = ["HFRoomLongitude", "hfroomlongitude"];
    let latitude_fields: [&str; 2] = ["HFRoomLatitude", "hfroomlatitude"];
    assert(literals(longitude_fields@) =~= longitude_ids());
    assert(literals(latitude_fields@) =~= latitude_ids());
    match look_up_input(html, longitude_fields.as_slice()) {
        Lookup::Cut => PlaceLookup::Cut,
        Lookup::Missing => PlaceLookup::Missing,
        Lookup::Found(longitude) => match look_up_input(html, latitude_fields.as_slice()) {
            Lookup::Cut => PlaceLookup::Cut,
            Lookup::Missing => PlaceLookup::Missing,
            Lookup::Found(latitude) => match parse_coordinate(
                longitude.as_str(),
                latitude.as_str(),
            ) {
                Some(place) => PlaceLookup::Found(place),
                None => PlaceLookup::Missing,
            },
        },
    }
}

/// The place of the room that a page gives. `look_up_room` also answers where a stretch of the
/// page would be cut inside a character.
pub fn page_coordinates(html: &str) -> (r: Option<Coordinates>)
    requires
        !(room_in(html@) is Cut),
    ensures
        match r {
            Some(place) => room_in(html@) == PlaceView::Found(place@),
            None => room_in(html@) is Missing,
        },
{
    match look_up_room(html) {
        PlaceLookup::Found(place) => Some(place),
        _ => None,
    }
}

/// The login name that a page of personal details gives: what stands in the link with the
/// identity of the login name, unless it is empty.
pub open spec fn login_name_in(html: Seq<char>) -> Option<Seq<char>> {
    match first_at(html, "id=\"aLoginName\""@, 0) {
        None => None,
        Some(at) => {
            let after = html.skip(at + 15);
            let open = segment_end(after, '>');
            if open >= after.len() {
                None
            } else {
                let body = after.skip(open + 1);
                let close = match first_at(body, "</a>"@, 0) {
                    Some(end) => Some(end),
                    None => first_at(body, "</A>"@, 0),
                };
                match close {
                    None => None,
                    Some(end) => {
                        let name = trim(body.take(end));
                        if name.len() == 0 {
                            None
                        } else {
                            Some(name)
                        }
                    },
                }
            }
        },
    }
}

/// The login name that a page of personal details gives.
pub fn extract_login_name(html: &str) -> (r: Option<String>)
    ensures
        opt_view(r) == login_name_in(html@),
{
    proof {
        reveal_strlit("id=\"aLoginName\"");
    }
    let page: Vec<char> = chars_of(html);
    let marker: Vec<char> = chars_of("id=\"aLoginName\"");
    let at: usize = match find_from(&page, &marker, 0) {
        None => {
            return None;
        },
        Some(at) => at,
    };
    assert(at + 15 <= page.len());
    let ghost after = html@.skip(at + 15);
    let open: usize = find_char(&page, '>', at + 15);
    if open >= page.len() {
        return None;
    }
    let body: Vec<char> = rest_of(&page, open + 1);
    assert(body@ =~= after.skip(open - (at + 15) + 1));
    let close: Option<usize> = match find_from(&body, &chars_of("</a>"), 0) {
        Some(end) => Some(end),
        None => find_from(&body, &chars_of("</A>"), 0),
    };
    match close {
        None => None,
        Some(end) => {
            let inner: String = text_between(&body, 0, end);
            assert(inner@ =~= body@.take(end as int));
            let name: String = trimmed(inner.as_str());
            if crate::text::is_empty(name.as_str()) {
                None
            } else {
                Some(name)
            }
        },
    }
}

/// The characters from a position on.
fn rest_of(text: &Vec<char>, from: usize) -> (r: Vec<char>)
    requires
        from <= text@.len(),
    ensures
        r@ == text@.skip(from as int),
{
    let mut rest: Vec<char> = Vec::new();
    let mut i: usize = from;
    while i < text.len()
        invariant
            from <= i <= text@.len(),
            rest@ == text@.subrange(from as int, i as int),
        decreases text@.len() - i,
    {
        rest.push(text[i]);
        assert(text@.subrange(from as int, i + 1) =~= text@.subrange(
            from as int,
            i as int,
        ).push(text@[i as int]));
        i = i + 1;
    }
    assert(text@.subrange(from as int, text@.len() as int) =~= text@.skip(from as int));
    rest
}

/// The authorisation code in a link: the letters and digits behind the first `code=`, where
/// there are exactly thirty-two.
pub open spec fn code_in(link: Seq<char>) -> Option<Seq<char>> {
    match first_at(link, "code="@, 0) {
        None => None,
        Some(at) => {
            let end = run_end(link, at + 5, ends_code());
            if end - (at + 5) == 32 {
                Some(link.subrange(at + 5, end))
            } else {
                None
            }
        },
    }
}

/// The authorisation code in a link.
pub fn extract_wechat_code(link: &str) -> (r: Option<String>)
    ensures
        opt_view(r) == code_in(link@),
{
    proof {
        reveal_strlit("code=");
    }
    let chars: Vec<char> = chars_of(link);
    match find_from(&chars, &chars_of("code="), 0) {
        None => None,
        Some(at) => {
            assert(at + 5 <= chars.len());
            let end: usize = code_end(&chars, at + 5);
            if end - (at + 5) == 32 {
                Some(text_between(&chars, at + 5, end))
            } else {
                None
            }
        },
    }
}

/// The distance in metres that a refusal names: the first number behind the word for distance,
/// in decimal notation.
pub open spec fn distance_in(message: Seq<char>) -> Option<Seq<char>> {
    match first_at(message, "距离"@, 0) {
        None => None,
        Some(at) => {
            let start = run_end(message, at, begins_number());
            let end = run_end(message, start, ends_number());
            let number = message.subrange(start, end);
            if start < message.len() && is_float_text(number) {
                Some(number)
            } else {
                None
            }
        },
    }
}

/// The distance in metres that a refusal names, in decimal notation.
pub fn parse_distance_meters(message: &str) -> (r: Option<String>)
    ensures
        opt_view(r) == distance_in(message@),
{
    let chars: Vec<char> = chars_of(message);
    match find_from(&chars, &chars_of("距离"), 0) {
        None => None,
        Some(at) => {
            let start: usize = number_start(&chars, at);
            if start >= chars.len() {
                return None;
            }
            let end: usize = number_end(&chars, start);
            let number: String = text_between(&chars, start, end);
            if float_text(number.as_str()) {
                Some(number)
            } else {
                None
            }
        },
    }
}

// ---------------------------------------------------------------------------------------
// Snippets

/// The words of a text: what stands between its white space.
pub open spec fn words(text: Seq<char>) -> Seq<Seq<char>>
    decreases text.len(),
    via words_go_on
{
    let rest = trim_start(text);
    if rest.len() == 0 {
        Seq::empty()
    } else {
        let end = run_end(rest, 0, ends_word());
        seq![rest.take(end)] + words(rest.skip(end))
    }
}

#[via_fn]
proof fn words_go_on(text: Seq<char>) {
    trimmed_is_suffix(text);
    let rest = trim_start(text);
    if rest.len() > 0 {
        run_end_bounds(rest, 0, ends_word());
        reveal_with_fuel(run_end, 2);
        run_end_bounds(rest, 1, ends_word());
    }
}

proof fn trimmed_is_suffix(text: Seq<char>)
    ensures
        trim_start(text).len() <= text.len(),
        trim_start(text).len() > 0 ==> !is_white_space(trim_start(text)[0]),
    decreases text.len(),
{
    if text.len() > 0 && is_white_space(text[0]) {
        trimmed_is_suffix(text.drop_first());
    }
}

/// The beginning of a page in one line: its words with one space between, cut after sixty
/// characters.
pub open spec fn snippet_of(html: Seq<char>) -> Seq<char> {
    let line = joined(words(html), " "@);
    if line.len() <= 60 {
        line
    } else {
        line.take(60)
    }
}

fn split_words(text: &Vec<char>) -> (r: Vec<String>)
    ensures
        texts(r@) == words(text@),
{
    let mut list: Vec<String> = Vec::new();
    let mut i: usize = skip_white_space(text, 0);
    assert(text@.skip(0) =~= text@);
    assert(texts(list@) =~= Seq::empty());
    proof {
        trimmed_is_suffix(text@);
        trim_start_twice(text@);
        assert(words(text@) == words(text@.skip(i as int)));
    }
    while i < text.len()
        invariant
            i <= text@.len(),
            i < text@.len() ==> !is_white_space(text@[i as int]),
            words(text@) == texts(list@) + words(text@.skip(i as int)),
        decreases text@.len() - i,
    {
        let end: usize = word_end(text, i);
        let ghost rest = text@.skip(i as int);
        let ghost before = list@;
        proof {
            assert(trim_start(rest) == rest);
            run_in_suffix(text@, i as int, 0, ends_word());
            reveal_with_fuel(run_end, 2);
            assert(rest[0] == text@[i as int]);
        }
        let word: String = text_between(text, i, end);
        assert(word@ =~= rest.take(end - i));
        assert(rest.skip(end - i) =~= text@.skip(end as int));
        list.push(word);
        assert(texts(list@) =~= texts(before).push(word@));
        let next: usize = skip_white_space(text, end);
        proof {
            trimmed_is_suffix(text@.skip(end as int));
            trim_start_twice(text@.skip(end as int));
            assert(words(text@.skip(end as int)) == words(text@.skip(next as int)));
            assert(words(text@) =~= texts(list@) + words(text@.skip(next as int)));
            assert(end > i) by {
                run_end_bounds(text@, i + 1, ends_word());
            }
        }
        i = next;
    }
    assert(text@.skip(text@.len() as int) =~= Seq::empty());
    assert(words(text@) =~= texts(list@));
    list
}

proof fn trim_start_twice(text: Seq<char>)
    ensures
        trim_start(trim_start(text)) == trim_start(text),
    decreases text.len(),
{
    if text.len() > 0 && is_white_space(text[0]) {
        trim_start_twice(text.drop_first());
    }
}

/// The beginning of a page in one line.
pub fn first_text_snippet(html: &str) -> (r: String)
    ensures
        r@ == snippet_of(html@),
{
    let list: Vec<String> = split_words(&chars_of(html));
    let line: String = join(&list, " ");
    let chars: Vec<char> = chars_of(line.as_str());
    if chars.len() <= 60 {
        line
    } else {
        let cut: String = text_between(&chars, 0, 60);
        assert(cut@ =~= line@.take(60));
        cut
    }
}

} // verus!

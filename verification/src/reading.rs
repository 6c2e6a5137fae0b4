//! What holds of reading pages: where the values come from that are read off them.
use crate::cookies::{lacks, segment_ends_there};
use crate::html::{
    code_in, distance_in, ends_code, ends_number, ends_value, ends_word, begins_number,
    has_keyword, id_attribute, last_at_is_greatest, login_name_in, reach_backward, reach_forward,
    reach_forward_is_exact, run_end, snippet_of, value_at, value_backward, value_by_name,
    value_forward, value_of_input, value_of_tag, words, LookupView,
};
use crate::number::is_float_text;
use crate::text::{
    char_width, first_at, first_at_is_least, is_alphanumeric, is_digit, is_white_space, joined,
    lower_case, occurs_at, trim, trim_start, width,
};
use vstd::prelude::*;

verus! {

/// A run goes on to the first character that ends it, or to the end of the text.
pub proof fn run_ends_at_first(text: Seq<char>, from: int, stop: spec_fn(char) -> bool)
    requires
        0 <= from <= text.len(),
    ensures
        from <= run_end(text, from, stop) <= text.len(),
        forall|i: int| from <= i < run_end(text, from, stop) ==> !stop(#[trigger] text[i]),
        run_end(text, from, stop) < text.len() ==> stop(text[run_end(text, from, stop)]),
    decreases text.len() - from,
{
    if from < text.len() && !stop(text[from]) {
        run_ends_at_first(text, from + 1, stop);
    }
}

// ---------------------------------------------------------------------------------------
// Values

/// A value in quotes is what stands between them, whichever quotes they are and whatever comes
/// behind; without the second quote there is no value.
pub proof fn quoted_value_is_between_quotes(
    html: Seq<char>,
    at: int,
    quote: char,
    value: Seq<char>,
    rest: Seq<char>,
)
    requires
        0 <= at <= html.len(),
        quote == '"' || quote == '\'',
        lacks(value, quote),
    ensures
        html.skip(at) == seq![quote] + value + seq![quote] + rest ==> value_at(html, at) == Some(
            value,
        ),
        html.skip(at) == seq![quote] + value ==> value_at(html, at) is None,
{
    let after = html.skip(at);
    segment_ends_there(value, quote, rest);
    if after == seq![quote] + value + seq![quote] + rest {
        assert(after[0] == quote);
        assert(after.drop_first() =~= value + seq![quote] + rest);
        assert((value + seq![quote] + rest).take(value.len() as int) =~= value);
    }
    if after == seq![quote] + value {
        assert(after[0] == quote);
        assert(after.drop_first() =~= value);
    }
}

/// A value without quotes goes on to white space, to the end of the tag, or to the end of the
/// page. White space before a value is passed over.
pub proof fn bare_value_ends_at_space(html: Seq<char>, at: int, value: Seq<char>, rest: Seq<char>)
    requires
        0 <= at <= html.len(),
        value.len() > 0,
        value[0] != '"' && value[0] != '\'',
        forall|i: int|
            0 <= i < value.len() ==> !is_white_space(#[trigger] value[i]) && value[i] != '>',
        rest.len() == 0 || is_white_space(rest[0]) || rest[0] == '>',
        html.skip(at) == value + rest,
    ensures
        value_at(html, at) == Some(value),
{
    let after = html.skip(at);
    assert(after[0] == value[0]);
    run_ends_at_first(after, 0, ends_value());
    let end = run_end(after, 0, ends_value());
    if end < value.len() {
        assert(after[end] == value[end]);
    } else if end > value.len() {
        assert(after[value.len() as int] == rest[0]);
    }
    assert(after.take(end) =~= value);
}

/// White space before a value is passed over, and at the end of a page there is no value.
pub proof fn space_before_value_is_passed_over(html: Seq<char>, at: int)
    requires
        0 <= at <= html.len(),
    ensures
        at < html.len() && is_white_space(html[at]) ==> value_at(html, at) == value_at(
            html,
            at + 1,
        ),
        at == html.len() ==> value_at(html, at) is None,
{
    if at < html.len() {
        assert(html.skip(at).drop_first() =~= html.skip(at + 1));
    }
}

/// A stretch backward holds exactly so many bytes, or reaches the beginning of the page; it is cut
/// where no stretch holds so many.
pub proof fn reach_backward_is_exact(html: Seq<char>, to: int, bytes: int)
    requires
        0 <= to <= html.len(),
        0 <= bytes,
    ensures
        match reach_backward(html, to, bytes) {
            Some(start) => {
                &&& 0 <= start <= to
                &&& width(html.subrange(start, to)) <= bytes
                &&& 0 < start ==> width(html.subrange(start, to)) == bytes
            },
            None => forall|start: int|
                0 <= start <= to ==> width(#[trigger] html.subrange(start, to)) != bytes,
        },
    decreases to,
{
    assert(html.subrange(to, to) =~= Seq::empty());
    if to > 0 && bytes > 0 {
        let w = char_width(html[to - 1]);
        assert forall|start: int| 0 <= start < to implies width(
            #[trigger] html.subrange(start, to),
        ) == width(html.subrange(start, to - 1)) + w by {
            let less = html.subrange(start, to - 1);
            let one = seq![html[to - 1]];
            crate::text::width_of_sum(less, one);
            assert(one.drop_first() =~= Seq::empty());
            reveal_with_fuel(width, 2);
            assert(html.subrange(start, to) =~= less + one);
        }
        if w <= bytes {
            reach_backward_is_exact(html, to - 1, bytes - w);
            if reach_backward(html, to, bytes) is None {
                assert forall|start: int| 0 <= start <= to implies width(
                    #[trigger] html.subrange(start, to),
                ) != bytes by {
                    if start < to {
                        assert(width(html.subrange(start, to - 1)) != bytes - w);
                    }
                }
            }
        }
    }
}

/// What is read forward is the value of the first `value=` at or behind a place, and that stands
/// wholly within three hundred bytes.
pub proof fn forward_value_is_near(html: Seq<char>, from: int)
    requires
        0 <= from <= html.len(),
        value_forward(html, from) is Found,
    ensures
        exists|at: int|
            {
                &&& from <= at && #[trigger] occurs_at(html, "value="@, at)
                &&& width(html.subrange(from, at + 6)) <= 300
                &&& forall|i: int| from <= i < at ==> !occurs_at(html, "value="@, i)
                &&& value_at(html, at + 6) == Some(value_forward(html, from)->Found_0)
            },
{
    reveal_strlit("value=");
    reach_forward_is_exact(html, from, 300);
    let end = reach_forward(html, from, 300)->0;
    let page = html.take(end);
    first_at_is_least(page, "value="@, from);
    let at = first_at(page, "value="@, from)->0;
    assert(page.subrange(at, at + 6) =~= html.subrange(at, at + 6));
    assert(occurs_at(html, "value="@, at));
    assert forall|i: int| from <= i < at implies !occurs_at(html, "value="@, i) by {
        if occurs_at(html, "value="@, i) {
            assert(page.subrange(i, i + 6) =~= html.subrange(i, i + 6));
            assert(occurs_at(page, "value="@, i));
        }
    }
    let near = html.subrange(from, at + 6);
    crate::text::width_of_sum(near, html.subrange(at + 6, end));
    assert(html.subrange(from, end) =~= near + html.subrange(at + 6, end));
}

/// What is read backward is the value of the last `value=` that stands wholly before a place and
/// within three hundred bytes.
pub proof fn backward_value_is_near(html: Seq<char>, to: int)
    requires
        0 <= to <= html.len(),
        value_backward(html, to) is Found,
    ensures
        exists|at: int|
            {
                &&& 0 <= at && at + 6 <= to && #[trigger] occurs_at(html, "value="@, at)
                &&& width(html.subrange(at, to)) <= 300
                &&& forall|i: int| at < i <= to - 6 ==> !occurs_at(html, "value="@, i)
                &&& value_at(html, at + 6) == Some(value_backward(html, to)->Found_0)
            },
{
    reveal_strlit("value=");
    reach_backward_is_exact(html, to, 300);
    let start = reach_backward(html, to, 300)->0;
    last_at_is_greatest(html, "value="@, start, to);
    let at = crate::html::last_at(html, "value="@, start, to)->0;
    assert(occurs_at(html, "value="@, at));
    let near = html.subrange(at, to);
    crate::text::width_of_sum(html.subrange(start, at), near);
    assert(html.subrange(start, to) =~= html.subrange(start, at) + near);
}

/// The value of a tag is read beside the tag's attribute: behind it, and for want of one there
/// before it.
pub proof fn tag_value_is_beside_attribute(html: Seq<char>, attribute: Seq<char>, from: int)
    requires
        attribute.len() > 0,
        0 <= from,
        value_of_tag(html, attribute, from) is Found,
    ensures
        exists|at: int|
            {
                &&& from <= at && #[trigger] occurs_at(html, attribute, at)
                &&& value_of_tag(html, attribute, from) == value_forward(
                    html,
                    at + attribute.len(),
                ) || (value_forward(html, at + attribute.len()) is Missing && value_of_tag(
                    html,
                    attribute,
                    from,
                ) == value_backward(html, at))
            },
    decreases html.len() + 1 - from,
{
    first_at_is_least(html, attribute, from);
    let at = first_at(html, attribute, from)->0;
    assert(occurs_at(html, attribute, at));
    let behind = at + attribute.len();
    if value_forward(html, behind) is Missing && value_backward(html, at) is Missing {
        tag_value_is_beside_attribute(html, attribute, behind);
    }
}

/// The first tag with the attribute counts: where a value stands behind it that is its value, and
/// where none does but one before it, that is. A tag with neither is passed over.
pub proof fn first_tag_counts(html: Seq<char>, attribute: Seq<char>, at: int)
    requires
        attribute.len() > 0,
        0 <= at,
        occurs_at(html, attribute, at),
        forall|i: int| 0 <= i < at ==> !occurs_at(html, attribute, i),
    ensures
        !(value_forward(html, at + attribute.len()) is Missing) ==> value_of_tag(html, attribute, 0)
            == value_forward(html, at + attribute.len()),
        value_forward(html, at + attribute.len()) is Missing && !(value_backward(html, at)
            is Missing) ==> value_of_tag(html, attribute, 0) == value_backward(html, at),
        value_forward(html, at + attribute.len()) is Missing && value_backward(html, at) is Missing
            ==> value_of_tag(html, attribute, 0) == value_of_tag(
            html,
            attribute,
            at + attribute.len(),
        ),
{
    first_at_is_least(html, attribute, 0);
    assert(first_at(html, attribute, 0) == Some(at));
}

/// A page without the attribute has no such tag, and no value of it.
pub proof fn no_tag_no_value(html: Seq<char>, attribute: Seq<char>)
    requires
        forall|i: int| 0 <= i ==> !occurs_at(html, attribute, i),
    ensures
        value_of_tag(html, attribute, 0) is Missing,
{
    first_at_is_least(html, attribute, 0);
}

/// The value of an input is that of the tag with the first of the identities for which the page has
/// one, in double quotes before single ones.
pub proof fn first_identity_counts(html: Seq<char>, ids: Seq<Seq<char>>, k: int)
    requires
        0 <= k < ids.len(),
        forall|i: int|
            0 <= i < k ==> value_of_tag(html, "id=\""@ + (#[trigger] ids[i]) + "\""@, 0) is Missing
                && value_of_tag(html, "id='"@ + ids[i] + "'"@, 0) is Missing,
    ensures
        !(value_of_tag(html, "id=\""@ + ids[k] + "\""@, 0) is Missing) ==> value_of_input(html, ids)
            == value_of_tag(html, "id=\""@ + ids[k] + "\""@, 0),
        value_of_tag(html, "id=\""@ + ids[k] + "\""@, 0) is Missing && !(value_of_tag(
            html,
            "id='"@ + ids[k] + "'"@,
            0,
        ) is Missing) ==> value_of_input(html, ids) == value_of_tag(html, "id='"@ + ids[k] + "'"@, 0),
    decreases k,
{
    attribute_is_quoted(ids[0]);
    if k > 0 {
        let rest = ids.drop_first();
        assert forall|i: int| 0 <= i < k - 1 implies value_of_tag(
            html,
            "id=\""@ + (#[trigger] rest[i]) + "\""@,
            0,
        ) is Missing && value_of_tag(html, "id='"@ + rest[i] + "'"@, 0) is Missing by {
            assert(rest[i] == ids[i + 1]);
        }
        first_identity_counts(html, rest, k - 1);
        assert(value_of_tag(html, "id=\""@ + ids[0] + "\""@, 0) is Missing);
    }
}

proof fn attribute_is_quoted(id: Seq<char>)
    ensures
        id_attribute(id, '"') == "id=\""@ + id + "\""@,
        id_attribute(id, '\'') == "id='"@ + id + "'"@,
{
    reveal_strlit("id=");
    reveal_strlit("id=\"");
    reveal_strlit("id='");
    reveal_strlit("\"");
    reveal_strlit("'");
    assert(id_attribute(id, '"') =~= "id=\""@ + id + "\""@);
    assert(id_attribute(id, '\'') =~= "id='"@ + id + "'"@);
}

/// Where no identity has a tag the page has no value.
pub proof fn no_identity_no_value(html: Seq<char>, ids: Seq<Seq<char>>)
    requires
        forall|i: int|
            0 <= i < ids.len() ==> value_of_tag(html, "id=\""@ + (#[trigger] ids[i]) + "\""@, 0)
                is Missing && value_of_tag(html, "id='"@ + ids[i] + "'"@, 0) is Missing,
    ensures
        value_of_input(html, ids) is Missing,
    decreases ids.len(),
{
    if ids.len() > 0 {
        attribute_is_quoted(ids[0]);
        let rest = ids.drop_first();
        assert forall|i: int| 0 <= i < rest.len() implies value_of_tag(
            html,
            "id=\""@ + (#[trigger] rest[i]) + "\""@,
            0,
        ) is Missing && value_of_tag(html, "id='"@ + rest[i] + "'"@, 0) is Missing by {
            assert(rest[i] == ids[i + 1]);
        }
        no_identity_no_value(html, rest);
        assert(value_of_tag(html, "id=\""@ + ids[0] + "\""@, 0) is Missing);
    }
}

/// A value that is found by the name of its tag stands behind a name that holds one of the
/// keywords in small letters.
pub proof fn named_value_has_keyword(html: Seq<char>, keywords: Seq<Seq<char>>, from: int)
    requires
        0 <= from,
        value_by_name(html, keywords, from) is Found,
    ensures
        exists|at: int|
            {
                &&& from <= at && #[trigger] occurs_at(html, "name="@, at)
                &&& value_at(html, at + 6) matches Some(name) && has_keyword(
                    lower_case(name),
                    keywords,
                )
                &&& value_by_name(html, keywords, from) == value_forward(html, at)
            },
    decreases html.len() + 1 - from,
{
    reveal_strlit("name=");
    first_at_is_least(html, "name="@, from);
    let at = first_at(html, "name="@, from)->0;
    assert(occurs_at(html, "name="@, at));
    let here = match value_at(html, at + 6) {
        Some(name) => has_keyword(lower_case(name), keywords) && !(value_forward(html, at)
            is Missing),
        None => false,
    };
    if !here {
        named_value_has_keyword(html, keywords, at + 5);
    }
}

// ---------------------------------------------------------------------------------------
// Names, codes and distances

/// The login name is the text of the link that is marked as such, from the end of its tag to its
/// closing tag, without white space round it.
pub proof fn login_name_is_text_of_link(
    before: Seq<char>,
    tag: Seq<char>,
    body: Seq<char>,
    rest: Seq<char>,
)
    requires
        forall|i: int|
            0 <= i < before.len() ==> !occurs_at(
                before + "id=\"aLoginName\""@ + tag + seq!['>'] + body + "</a>"@ + rest,
                "id=\"aLoginName\""@,
                i,
            ),
        lacks(tag, '>'),
        forall|i: int| 0 <= i < body.len() ==> !occurs_at(body + "</a>"@ + rest, "</a>"@, i),
    ensures
        login_name_in(before + "id=\"aLoginName\""@ + tag + seq!['>'] + body + "</a>"@ + rest)
            == if trim(body).len() == 0 {
            None
        } else {
            Some(trim(body))
        },
{
    reveal_strlit("id=\"aLoginName\"");
    reveal_strlit("</a>");
    let marker = "id=\"aLoginName\""@;
    let html = before + marker + tag + seq!['>'] + body + "</a>"@ + rest;
    let at = before.len() as int;
    assert(html.subrange(at, at + 15) =~= marker);
    assert(occurs_at(html, marker, at));
    first_at_is_least(html, marker, 0);
    assert(first_at(html, marker, 0) == Some(at));
    let after = html.skip(at + 15);
    let inner = body + "</a>"@ + rest;
    assert(after =~= tag + seq!['>'] + inner);
    segment_ends_there(tag, '>', inner);
    assert(after.skip(tag.len() as int + 1) =~= inner);
    let end = body.len() as int;
    assert(inner.subrange(end, end + 4) =~= "</a>"@);
    assert(occurs_at(inner, "</a>"@, end));
    first_at_is_least(inner, "</a>"@, 0);
    assert(first_at(inner, "</a>"@, 0) == Some(end));
    assert(inner.take(end) =~= body);
}

/// A page without the marked link tells no login name.
pub proof fn unmarked_page_has_no_login_name(html: Seq<char>)
    requires
        forall|i: int| 0 <= i ==> !occurs_at(html, "id=\"aLoginName\""@, i),
    ensures
        login_name_in(html) is None,
{
    first_at_is_least(html, "id=\"aLoginName\""@, 0);
}

/// The code of a link is the run of letters and digits behind its first `code=`, where that is
/// thirty-two characters long; a longer or a shorter one is no code.
pub proof fn code_is_thirty_two_long(before: Seq<char>, code: Seq<char>, rest: Seq<char>)
    requires
        forall|i: int|
            0 <= i < before.len() ==> !occurs_at(before + "code="@ + code + rest, "code="@, i),
        forall|i: int| 0 <= i < code.len() ==> is_alphanumeric(#[trigger] code[i]),
        rest.len() == 0 || !is_alphanumeric(rest[0]),
    ensures
        code_in(before + "code="@ + code + rest) == if code.len() == 32 {
            Some(code)
        } else {
            None
        },
{
    reveal_strlit("code=");
    let link = before + "code="@ + code + rest;
    let at = before.len() as int;
    assert(link.subrange(at, at + 5) =~= "code="@);
    assert(occurs_at(link, "code="@, at));
    first_at_is_least(link, "code="@, 0);
    assert(first_at(link, "code="@, 0) == Some(at));
    run_ends_at_first(link, at + 5, ends_code());
    let end = run_end(link, at + 5, ends_code());
    let behind = at + 5 + code.len();
    if end < behind {
        assert(link[end] == code[end - at - 5]);
    } else if end > behind {
        assert(link[behind] == rest[0]);
    }
    assert(link.subrange(at + 5, end) =~= code);
}

/// A link without `code=` has no code.
pub proof fn unmarked_link_has_no_code(link: Seq<char>)
    requires
        forall|i: int| 0 <= i ==> !occurs_at(link, "code="@, i),
    ensures
        code_in(link) is None,
{
    first_at_is_least(link, "code="@, 0);
}

/// The distance in a message is the first number behind the first word for distance: what stands
/// between the two holds no digit, and the number goes on as long as digits and points come.
pub proof fn distance_is_first_number(
    before: Seq<char>,
    between: Seq<char>,
    number: Seq<char>,
    rest: Seq<char>,
)
    requires
        forall|i: int|
            0 <= i < before.len() ==> !occurs_at(
                before + "距离"@ + between + number + rest,
                "距离"@,
                i,
            ),
        forall|i: int| 0 <= i < between.len() ==> !is_digit(#[trigger] between[i]),
        number.len() > 0,
        is_digit(number[0]),
        forall|i: int|
            0 <= i < number.len() ==> is_digit(#[trigger] number[i]) || number[i] == '.',
        rest.len() == 0 || (!is_digit(rest[0]) && rest[0] != '.'),
    ensures
        distance_in(before + "距离"@ + between + number + rest) == if is_float_text(number) {
            Some(number)
        } else {
            None
        },
{
    reveal_strlit("距离");
    let message = before + "距离"@ + between + number + rest;
    let at = before.len() as int;
    assert(message.subrange(at, at + 2) =~= "距离"@);
    assert(occurs_at(message, "距离"@, at));
    first_at_is_least(message, "距离"@, 0);
    assert(first_at(message, "距离"@, 0) == Some(at));
    run_ends_at_first(message, at, begins_number());
    let start = run_end(message, at, begins_number());
    let first = at + 2 + between.len();
    assert(message[first] == number[0]);
    if start < first {
        if start < at + 2 {
            assert(message[start] == "距离"@[start - at]);
        } else {
            assert(message[start] == between[start - at - 2]);
        }
    }
    assert(start == first);
    run_ends_at_first(message, start, ends_number());
    let end = run_end(message, start, ends_number());
    let behind = first + number.len();
    if end < behind {
        assert(message[end] == number[end - first]);
    } else if end > behind {
        assert(message[behind] == rest[0]);
    }
    assert(message.subrange(start, end) =~= number);
}

/// A message without the word for distance names none, and neither does one without a digit.
pub proof fn no_distance_without_word(message: Seq<char>)
    requires
        (forall|i: int| 0 <= i ==> !occurs_at(message, "距离"@, i)) || (forall|i: int|
            0 <= i < message.len() ==> !is_digit(#[trigger] message[i])),
    ensures
        distance_in(message) is None,
{
    first_at_is_least(message, "距离"@, 0);
    if let Some(at) = first_at(message, "距离"@, 0) {
        run_ends_at_first(message, at, begins_number());
    }
}

// ---------------------------------------------------------------------------------------
// Beginnings of pages

/// The characters of a text that are no white space.
pub open spec fn without_space(text: Seq<char>) -> Seq<char> {
    text.filter(|c: char| !is_white_space(c))
}

/// The words of a text are the runs of characters between white space: none is empty or holds white
/// space, and put together they are the text without it.
pub proof fn words_are_all_but_space(text: Seq<char>)
    ensures
        joined(words(text), Seq::empty()) == without_space(text),
        forall|i: int|
            0 <= i < words(text).len() ==> (#[trigger] words(text)[i]).len() > 0 && forall|k: int|
                0 <= k < words(text)[i].len() ==> !is_white_space(#[trigger] words(text)[i][k]),
    decreases text.len(),
{
    reveal(Seq::filter);
    let keeps = |c: char| !is_white_space(c);
    let rest = trim_start(text);
    start_is_dropped(text);
    if rest.len() > 0 {
        run_ends_at_first(rest, 0, ends_word());
        let end = run_end(rest, 0, ends_word());
        let word = rest.take(end);
        let others = rest.skip(end);
        if end == 0 {
            assert(is_white_space(rest[0]));
        }
        words_are_all_but_space(others);
        assert(rest =~= word + others);
        Seq::filter_distributes_over_add(word, others, keeps);
        all_is_kept(word);
        let all = words(text);
        assert(all =~= seq![word] + words(others));
        assert(all.drop_first() =~= words(others));
        assert(joined(all, Seq::empty()) =~= word + joined(words(others), Seq::empty()));
        assert forall|i: int| 0 <= i < all.len() implies (#[trigger] all[i]).len() > 0
            && forall|k: int| 0 <= k < all[i].len() ==> !is_white_space(#[trigger] all[i][k]) by {
            if i == 0 {
                assert forall|k: int| 0 <= k < word.len() implies !is_white_space(
                    #[trigger] word[k],
                ) by {
                    assert(word[k] == rest[k]);
                }
            } else {
                assert(all[i] == words(others)[i - 1]);
            }
        }
    }
}

proof fn all_is_kept(text: Seq<char>)
    requires
        forall|i: int| 0 <= i < text.len() ==> !is_white_space(#[trigger] text[i]),
    ensures
        without_space(text) == text,
    decreases text.len(),
{
    reveal(Seq::filter);
    if text.len() > 0 {
        let rest = text.drop_last();
        assert forall|i: int| 0 <= i < rest.len() implies !is_white_space(#[trigger] rest[i]) by {
            assert(rest[i] == text[i]);
        }
        all_is_kept(rest);
        assert(text =~= rest.push(text.last()));
    } else {
        assert(without_space(text) =~= text);
    }
}

proof fn start_is_dropped(text: Seq<char>)
    ensures
        without_space(trim_start(text)) == without_space(text),
        trim_start(text).len() <= text.len(),
        trim_start(text).len() > 0 ==> !is_white_space(trim_start(text)[0]),
    decreases text.len(),
{
    if text.len() > 0 && is_white_space(text[0]) {
        let rest = text.drop_first();
        start_is_dropped(rest);
        let one = seq![text[0]];
        assert(text =~= one + rest);
        Seq::filter_distributes_over_add(one, rest, |c: char| !is_white_space(c));
        assert(without_space(one) =~= Seq::empty()) by {
            reveal(Seq::filter);
            assert(one.drop_last().len() == 0);
            assert(without_space(one.drop_last()) =~= Seq::empty());
            assert(one.last() == text[0]);
        }
        assert(without_space(text) =~= without_space(rest));
    }
}

/// A page is spoken of by its words with one space between them, or by the first sixty characters
/// of that.
pub proof fn snippet_is_beginning_of_words(html: Seq<char>)
    ensures
        snippet_of(html).len() <= 60,
        snippet_of(html).is_prefix_of(joined(words(html), " "@)),
        joined(words(html), " "@).len() <= 60 ==> snippet_of(html) == joined(words(html), " "@),
        joined(words(html), " "@).len() > 60 ==> snippet_of(html).len() == 60,
{
    let line = joined(words(html), " "@);
    assert(line.subrange(0, line.len() as int) =~= line);
    if line.len() > 60 {
        assert(line.take(60) =~= line.subrange(0, 60));
    }
}

// ---------------------------------------------------------------------------------------
// What is in reach is read

proof fn some_text_has_width(text: Seq<char>)
    requires
        text.len() > 0,
    ensures
        width(text) > 0,
{
}

/// The first `value=` behind a place, where it stands wholly within three hundred bytes, gives the
/// value; where no value stands behind it there is none.
pub proof fn near_value_is_read_forward(html: Seq<char>, from: int, at: int)
    requires
        0 <= from <= at,
        occurs_at(html, "value="@, at),
        forall|i: int| from <= i < at ==> !occurs_at(html, "value="@, i),
        width(html.subrange(from, at + 6)) <= 300,
        !(value_forward(html, from) is Cut),
    ensures
        value_at(html, at + 6) matches Some(value) ==> value_forward(html, from)
            == LookupView::Found(value),
        value_at(html, at + 6) is None ==> value_forward(html, from) is Missing,
{
    reveal_strlit("value=");
    reach_forward_is_exact(html, from, 300);
    let end = reach_forward(html, from, 300)->0;
    if end < at + 6 {
        let near = html.subrange(from, end);
        let rest = html.subrange(end, at + 6);
        crate::text::width_of_sum(near, rest);
        assert(html.subrange(from, at + 6) =~= near + rest);
        some_text_has_width(rest);
    }
    let page = html.take(end);
    first_at_is_least(page, "value="@, from);
    assert(page.subrange(at, at + 6) =~= html.subrange(at, at + 6));
    assert(occurs_at(page, "value="@, at));
    assert forall|i: int| from <= i < at implies !occurs_at(page, "value="@, i) by {
        if occurs_at(page, "value="@, i) {
            assert(page.subrange(i, i + 6) =~= html.subrange(i, i + 6));
            assert(occurs_at(html, "value="@, i));
        }
    }
    assert(first_at(page, "value="@, from) == Some(at));
}

/// The last `value=` before a place, where it stands wholly within three hundred bytes, gives the
/// value; where no value stands behind it there is none.
pub proof fn near_value_is_read_backward(html: Seq<char>, to: int, at: int)
    requires
        0 <= at,
        at + 6 <= to <= html.len(),
        occurs_at(html, "value="@, at),
        forall|i: int| at < i <= to - 6 ==> !occurs_at(html, "value="@, i),
        width(html.subrange(at, to)) <= 300,
        !(value_backward(html, to) is Cut),
    ensures
        value_at(html, at + 6) matches Some(value) ==> value_backward(html, to)
            == LookupView::Found(value),
        value_at(html, at + 6) is None ==> value_backward(html, to) is Missing,
{
    reveal_strlit("value=");
    reach_backward_is_exact(html, to, 300);
    let start = reach_backward(html, to, 300)->0;
    if at < start {
        let near = html.subrange(start, to);
        let rest = html.subrange(at, start);
        crate::text::width_of_sum(rest, near);
        assert(html.subrange(at, to) =~= rest + near);
        some_text_has_width(rest);
    }
    last_at_is_greatest(html, "value="@, start, to);
    let found = crate::html::last_at(html, "value="@, start, to);
    assert(found is Some);
    assert(found == Some(at));
}

/// The reach is cut only where its three hundredth byte lies within a character.
pub proof fn reach_is_cut_within_a_character(html: Seq<char>, from: int, end: int)
    requires
        0 <= from <= end <= html.len(),
        width(html.subrange(from, end)) == 300,
    ensures
        !(value_forward(html, from) is Cut),
        !(value_backward(html, end) is Cut),
{
    reach_forward_is_exact(html, from, 300);
    reach_backward_is_exact(html, end, 300);
    assert(width(html.subrange(from, end)) == 300);
}

/// A text holds one of some keywords where it holds the last or one of the others; it holds none of
/// no keywords.
pub proof fn keywords_count_each(text: Seq<char>, keywords: Seq<Seq<char>>, keyword: Seq<char>)
    ensures
        has_keyword(text, keywords.push(keyword)) == (has_keyword(text, keywords)
            || crate::text::contains_text(text, keyword)),
        !has_keyword(text, Seq::empty()),
{
    let more = keywords.push(keyword);
    if has_keyword(text, keywords) {
        let i = choose|i: int|
            0 <= i < keywords.len() && crate::text::contains_text(text, #[trigger] keywords[i]);
        assert(crate::text::contains_text(text, more[i]));
    }
    if crate::text::contains_text(text, keyword) {
        assert(crate::text::contains_text(text, more[keywords.len() as int]));
    }
    if has_keyword(text, more) {
        let i = choose|i: int|
            0 <= i < more.len() && crate::text::contains_text(text, #[trigger] more[i]);
        if i < keywords.len() {
            assert(crate::text::contains_text(text, keywords[i]));
        }
    }
}

/// The first name in a page decides: where it holds a keyword, in whatever case, and a value is in
/// reach, that is the value; else the search goes on behind it. A page without names has no value.
pub proof fn first_name_decides(html: Seq<char>, keywords: Seq<Seq<char>>, from: int, at: int)
    requires
        0 <= from <= at,
        occurs_at(html, "name="@, at),
        forall|i: int| from <= i < at ==> !occurs_at(html, "name="@, i),
        at + 5 < html.len(),
        char_width(html[at + 5]) == 1,
    ensures
        ({
            let named = value_at(html, at + 6) matches Some(name) && has_keyword(
                lower_case(name),
                keywords,
            );
            &&& named && !(value_forward(html, at) is Missing) ==> value_by_name(
                html,
                keywords,
                from,
            ) == value_forward(html, at)
            &&& !named || value_forward(html, at) is Missing ==> value_by_name(html, keywords, from)
                == value_by_name(html, keywords, at + 5)
        }),
{
    first_at_is_least(html, "name="@, from);
    assert(first_at(html, "name="@, from) == Some(at));
}

/// A page without names tells no value by name.
pub proof fn no_name_no_value(html: Seq<char>, keywords: Seq<Seq<char>>, from: int)
    requires
        0 <= from,
        forall|i: int| from <= i ==> !occurs_at(html, "name="@, i),
    ensures
        value_by_name(html, keywords, from) is Missing,
{
    first_at_is_least(html, "name="@, from);
}

/// A word goes on to the next white space, and white space before a word is passed over.
pub proof fn word_ends_at_white_space(word: Seq<char>, space: char, rest: Seq<char>)
    requires
        word.len() > 0,
        forall|i: int| 0 <= i < word.len() ==> !is_white_space(#[trigger] word[i]),
        is_white_space(space),
    ensures
        words(word) == seq![word],
        words(word + seq![space] + rest) == seq![word] + words(rest),
        words(seq![space] + rest) == words(rest),
        words(Seq::empty()).len() == 0,
{
    let whole = word + seq![space] + rest;
    let spaced = seq![space] + rest;
    assert(spaced.drop_first() =~= rest);
    assert(trim_start(spaced) == trim_start(rest)) by {
        reveal_with_fuel(trim_start, 2);
    }
    assert(words(spaced) == words(rest));
    assert(whole[0] == word[0]);
    assert(trim_start(whole) == whole);
    assert(trim_start(word) == word);
    run_ends_at_first(whole, 0, ends_word());
    let end = run_end(whole, 0, ends_word());
    if end < word.len() {
        assert(whole[end] == word[end]);
    } else if end > word.len() {
        assert(whole[word.len() as int] == space);
    }
    assert(whole.take(end) =~= word);
    assert(whole.skip(end) =~= spaced);
    assert(words(whole) =~= seq![word] + words(rest));
    run_ends_at_first(word, 0, ends_word());
    let last = run_end(word, 0, ends_word());
    if last < word.len() {
        assert(!is_white_space(word[last]));
    }
    assert(word.take(last) =~= word);
    assert(word.skip(last) =~= Seq::empty());
    assert(words(Seq::empty()) =~= Seq::empty());
    assert(words(word) =~= seq![word]);
}

/// Where the link is not closed in small letters, it may be closed in large ones. One that is not
/// closed at all tells no login name.
pub proof fn link_may_be_closed_in_capitals(
    before: Seq<char>,
    tag: Seq<char>,
    body: Seq<char>,
    rest: Seq<char>,
)
    requires
        lacks(tag, '>'),
        forall|i: int|
            0 <= i < before.len() ==> !occurs_at(
                before + "id=\"aLoginName\""@ + tag + seq!['>'] + body + rest,
                "id=\"aLoginName\""@,
                i,
            ),
        forall|i: int| 0 <= i ==> !occurs_at(body + rest, "</a>"@, i),
        forall|i: int| 0 <= i < body.len() ==> !occurs_at(body + rest, "</A>"@, i),
    ensures
        ({
            let name = login_name_in(
                before + "id=\"aLoginName\""@ + tag + seq!['>'] + body + rest,
            );
            &&& occurs_at(body + rest, "</A>"@, body.len() as int) ==> name == if trim(body).len()
                == 0 {
                None
            } else {
                Some(trim(body))
            }
            &&& rest.len() == 0 ==> name is None
        }),
{
    reveal_strlit("id=\"aLoginName\"");
    reveal_strlit("</a>");
    reveal_strlit("</A>");
    let marker = "id=\"aLoginName\""@;
    let inner = body + rest;
    let html = before + marker + tag + seq!['>'] + body + rest;
    let at = before.len() as int;
    assert(html.subrange(at, at + 15) =~= marker);
    assert(occurs_at(html, marker, at));
    first_at_is_least(html, marker, 0);
    assert(first_at(html, marker, 0) == Some(at));
    let after = html.skip(at + 15);
    assert(after =~= tag + seq!['>'] + inner);
    segment_ends_there(tag, '>', inner);
    assert(after.skip(tag.len() as int + 1) =~= inner);
    first_at_is_least(inner, "</a>"@, 0);
    first_at_is_least(inner, "</A>"@, 0);
    let end = body.len() as int;
    if occurs_at(inner, "</A>"@, end) {
        assert(first_at(inner, "</A>"@, 0) == Some(end));
        assert(inner.take(end) =~= body);
    }
    if rest.len() == 0 {
        if let Some(found) = first_at(inner, "</A>"@, 0) {
            assert(found + 4 <= inner.len());
        }
    }
}

/// A link whose tag does not end tells no login name.
pub proof fn open_tag_tells_no_login_name(before: Seq<char>, tag: Seq<char>)
    requires
        lacks(tag, '>'),
        forall|i: int|
            0 <= i < before.len() ==> !occurs_at(
                before + "id=\"aLoginName\""@ + tag,
                "id=\"aLoginName\""@,
                i,
            ),
    ensures
        login_name_in(before + "id=\"aLoginName\""@ + tag) is None,
{
    reveal_strlit("id=\"aLoginName\"");
    let marker = "id=\"aLoginName\""@;
    let html = before + marker + tag;
    let at = before.len() as int;
    assert(html.subrange(at, at + 15) =~= marker);
    assert(occurs_at(html, marker, at));
    first_at_is_least(html, marker, 0);
    assert(first_at(html, marker, 0) == Some(at));
    assert(html.skip(at + 15) =~= tag);
    segment_ends_there(tag, '>', Seq::empty());
}

} // verus!

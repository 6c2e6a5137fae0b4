//! Text as a sequence of characters: searching, trimming, splitting, joining and comparing.
use vstd::prelude::*;

verus! {

/// `String::push` appends the given character to the end of the string, and changes nothing
/// else in it.
pub assume_specification[ String::push ](text: &mut String, c: char)
    ensures
        final(text)@ == old(text)@.push(c),
;

/// The lower-case form of a text, as `str::to_lowercase` gives it.
pub uninterp spec fn lower_case(text: Seq<char>) -> Seq<char>;

/// Calls `str::to_lowercase`. Its result depends on the text alone: the Unicode lower-case
/// mapping, which is named here and not written out.
#[verifier::external_body]
pub(crate) fn to_lower_case(text: &str) -> (lower: String)
    ensures
        lower@ == lower_case(text@),
{
    text.to_lowercase()
}

// ---------------------------------------------------------------------------------------
// Characters

/// The characters with the Unicode property White_Space.
pub open spec fn is_white_space(c: char) -> bool {
    ||| 0x09 <= c as u32 <= 0x0d
    ||| c as u32 == 0x20
    ||| c as u32 == 0x85
    ||| c as u32 == 0xa0
    ||| c as u32 == 0x1680
    ||| 0x2000 <= c as u32 <= 0x200a
    ||| c as u32 == 0x2028
    ||| c as u32 == 0x2029
    ||| c as u32 == 0x202f
    ||| c as u32 == 0x205f
    ||| c as u32 == 0x3000
}

/// Whether a character has the Unicode property White_Space.
pub fn white_space(c: char) -> (r: bool)
    ensures
        r == is_white_space(c),
{
    let code: u32 = c as u32;
    (0x09 <= code && code <= 0x0d) || code == 0x20 || code == 0x85 || code == 0xa0 || code
        == 0x1680 || (0x2000 <= code && code <= 0x200a) || code == 0x2028 || code == 0x2029 || code
        == 0x202f || code == 0x205f || code == 0x3000
}

/// The ASCII digits.
pub open spec fn is_digit(c: char) -> bool {
    '0' <= c && c <= '9'
}

/// The ASCII letters and digits.
pub open spec fn is_alphanumeric(c: char) -> bool {
    is_digit(c) || ('a' <= c && c <= 'z') || ('A' <= c && c <= 'Z')
}

/// Whether a character is an ASCII digit.
pub fn digit(c: char) -> (r: bool)
    ensures
        r == is_digit(c),
{
    '0' <= c && c <= '9'
}

/// Whether a character is an ASCII letter or digit.
pub fn alphanumeric(c: char) -> (r: bool)
    ensures
        r == is_alphanumeric(c),
{
    digit(c) || ('a' <= c && c <= 'z') || ('A' <= c && c <= 'Z')
}

/// The number of bytes that UTF-8 takes for a character.
pub open spec fn char_width(c: char) -> nat {
    if (c as u32) < 0x80 {
        1
    } else if (c as u32) < 0x800 {
        2
    } else if (c as u32) < 0x10000 {
        3
    } else {
        4
    }
}

/// The number of bytes that UTF-8 takes for a text.
pub open spec fn width(text: Seq<char>) -> nat
    decreases text.len(),
{
    if text.len() == 0 {
        0
    } else {
        char_width(text[0]) + width(text.drop_first())
    }
}

/// The number of bytes that UTF-8 takes for a character.
pub fn width_of_char(c: char) -> (w: usize)
    ensures
        w == char_width(c),
        1 <= w <= 4,
{
    let code: u32 = c as u32;
    if code < 0x80 {
        1
    } else if code < 0x800 {
        2
    } else if code < 0x10000 {
        3
    } else {
        4
    }
}

/// `width` counts the bytes of the UTF-8 encoding.
pub proof fn width_is_encoded_length(text: Seq<char>)
    ensures
        width(text) == vstd::utf8::encode_utf8(text).len(),
    decreases text.len(),
{
    reveal_with_fuel(vstd::utf8::encode_utf8, 2);
    if text.len() > 0 {
        width_is_encoded_length(text.drop_first());
        let c: char = text[0];
        vstd::utf8::char_is_scalar(c);
        let head = vstd::utf8::encode_scalar(c as u32);
        assert(vstd::utf8::encode_utf8(text) =~= head + vstd::utf8::encode_utf8(text.drop_first()));
        assert(head.len() == char_width(c));
    }
}

/// The width of two texts put together is the sum of their widths.
pub proof fn width_of_sum(a: Seq<char>, b: Seq<char>)
    ensures
        width(a + b) == width(a) + width(b),
    decreases a.len(),
{
    if a.len() == 0 {
        assert(a + b =~= b);
    } else {
        assert((a + b).drop_first() =~= a.drop_first() + b);
        width_of_sum(a.drop_first(), b);
    }
}

// ---------------------------------------------------------------------------------------
// Conversion and comparison

/// The characters of a text, in order.
pub fn chars_of(text: &str) -> (chars: Vec<char>)
    ensures
        chars@ == text@,
{
    let mut chars: Vec<char> = Vec::new();
    for c in it: text.chars()
        invariant
            it.seq() == text@,
            chars@ == text@.take(it.index() as int),
    {
        assert(text@.take(it.index() + 1) =~= text@.take(it.index() as int).push(c));
        chars.push(c);
    }
    assert(text@.take(text@.len() as int) =~= text@);
    chars
}

/// The text made of the characters from `from` up to, and without, `to`.
pub fn text_between(chars: &Vec<char>, from: usize, to: usize) -> (text: String)
    requires
        from <= to <= chars@.len(),
    ensures
        text@ == chars@.subrange(from as int, to as int),
{
    let mut text = String::new();
    let mut i: usize = from;
    while i < to
        invariant
            from <= i <= to <= chars@.len(),
            text@ == chars@.subrange(from as int, i as int),
        decreases to - i,
    {
        assert(chars@.subrange(from as int, i + 1) =~= chars@.subrange(from as int, i as int).push(
            chars@[i as int],
        ));
        text.push(chars[i]);
        i = i + 1;
    }
    text
}

/// A copy of a text.
pub fn copy_of(text: &str) -> (copy: String)
    ensures
        copy@ == text@,
{
    let mut copy = String::new();
    copy.append(text);
    assert(copy@ =~= text@);
    copy
}

/// Whether two texts hold the same characters.
pub fn same_text(a: &str, b: &str) -> (r: bool)
    ensures
        r == (a@ == b@),
{
    copy_of(a) == copy_of(b)
}

/// Whether a text is empty.
pub fn is_empty(text: &str) -> (r: bool)
    ensures
        r == (text@.len() == 0),
{
    proof {
        reveal_strlit("");
        assert(text@.len() == 0 ==> text@ =~= ""@);
    }
    same_text(text, "")
}

/// The order of texts: by the first character in which they differ; a text comes before those
/// that it begins.
pub open spec fn text_before(a: Seq<char>, b: Seq<char>) -> bool
    decreases a.len(),
{
    if b.len() == 0 {
        false
    } else if a.len() == 0 {
        true
    } else if a[0] != b[0] {
        a[0] < b[0]
    } else {
        text_before(a.drop_first(), b.drop_first())
    }
}

/// Whether `a` comes before `b` in the order of texts.
pub fn comes_before(a: &str, b: &str) -> (r: bool)
    ensures
        r == text_before(a@, b@),
{
    let x: Vec<char> = chars_of(a);
    let y: Vec<char> = chars_of(b);
    let mut i: usize = 0;
    assert(a@.skip(0) =~= a@ && b@.skip(0) =~= b@);
    while i < x.len() && i < y.len() && x[i] == y[i]
        invariant
            i <= x@.len(),
            i <= y@.len(),
            x@ == a@,
            y@ == b@,
            text_before(a@, b@) == text_before(x@.skip(i as int), y@.skip(i as int)),
        decreases x@.len() - i,
    {
        assert(x@.skip(i as int).drop_first() =~= x@.skip(i + 1));
        assert(y@.skip(i as int).drop_first() =~= y@.skip(i + 1));
        i = i + 1;
    }
    if i >= y.len() {
        false
    } else if i >= x.len() {
        true
    } else {
        x[i] < y[i]
    }
}

/// No text comes before itself.
pub proof fn order_is_irreflexive(a: Seq<char>)
    ensures
        !text_before(a, a),
    decreases a.len(),
{
    if a.len() > 0 {
        order_is_irreflexive(a.drop_first());
    }
}

/// The order of texts is transitive.
pub proof fn order_is_transitive(a: Seq<char>, b: Seq<char>, c: Seq<char>)
    requires
        text_before(a, b),
        text_before(b, c),
    ensures
        text_before(a, c),
    decreases a.len(),
{
    if a.len() > 0 && b.len() > 0 && c.len() > 0 && a[0] == b[0] && b[0] == c[0] {
        order_is_transitive(a.drop_first(), b.drop_first(), c.drop_first());
    }
}

/// Of two different texts one comes before the other.
pub proof fn order_is_total(a: Seq<char>, b: Seq<char>)
    requires
        a != b,
    ensures
        text_before(a, b) || text_before(b, a),
    decreases a.len(),
{
    if a.len() > 0 && b.len() > 0 && a[0] == b[0] {
        if a.drop_first() == b.drop_first() {
            assert(a =~= seq![a[0]] + a.drop_first());
            assert(b =~= seq![b[0]] + b.drop_first());
        }
        order_is_total(a.drop_first(), b.drop_first());
    } else if a.len() == 0 && b.len() == 0 {
        assert(a =~= b);
    }
}

// ---------------------------------------------------------------------------------------
// Searching

/// `pattern` stands in `text` at position `at`.
pub open spec fn occurs_at(text: Seq<char>, pattern: Seq<char>, at: int) -> bool {
    0 <= at && at + pattern.len() <= text.len() && text.subrange(at, at + pattern.len()) == pattern
}

/// `pattern` stands somewhere in `text`.
pub open spec fn contains_text(text: Seq<char>, pattern: Seq<char>) -> bool {
    exists|at: int| occurs_at(text, pattern, at)
}

/// The first position at or after `from` at which `pattern` stands in `text`.
pub open spec fn first_at(text: Seq<char>, pattern: Seq<char>, from: int) -> Option<int>
    decreases text.len() + 1 - from,
{
    if from < 0 || from + pattern.len() > text.len() {
        None
    } else if occurs_at(text, pattern, from) {
        Some(from)
    } else {
        first_at(text, pattern, from + 1)
    }
}

/// `first_at` is the least position from `from` on at which the pattern stands, and there is
/// none exactly where it is `None`.
pub proof fn first_at_is_least(text: Seq<char>, pattern: Seq<char>, from: int)
    requires
        0 <= from,
    ensures
        match first_at(text, pattern, from) {
            Some(at) => from <= at && occurs_at(text, pattern, at) && forall|i: int|
                from <= i < at ==> !occurs_at(text, pattern, i),
            None => forall|i: int| from <= i ==> !occurs_at(text, pattern, i),
        },
    decreases text.len() + 1 - from,
{
    if from + pattern.len() <= text.len() && !occurs_at(text, pattern, from) {
        first_at_is_least(text, pattern, from + 1);
    }
}

/// A text contains a pattern exactly when there is a first position of it.
pub proof fn contains_has_first(text: Seq<char>, pattern: Seq<char>)
    ensures
        contains_text(text, pattern) == (first_at(text, pattern, 0) is Some),
{
    first_at_is_least(text, pattern, 0);
}

/// Whether `pattern` stands in `text` at position `at`.
pub fn stands_at(text: &Vec<char>, pattern: &Vec<char>, at: usize) -> (r: bool)
    ensures
        r == occurs_at(text@, pattern@, at as int),
{
    if at > text.len() || pattern.len() > text.len() - at {
        return false;
    }
    let mut i: usize = 0;
    while i < pattern.len()
        invariant
            i <= pattern@.len(),
            at + pattern@.len() <= text.len(),
            forall|k: int| 0 <= k < i ==> text@[at + k] == pattern@[k],
        decreases pattern@.len() - i,
    {
        if text[at + i] != pattern[i] {
            assert(text@.subrange(at as int, at + pattern@.len())[i as int] != pattern@[i as int]);
            return false;
        }
        i = i + 1;
    }
    assert(text@.subrange(at as int, at + pattern@.len()) =~= pattern@);
    true
}

/// The first position at or after `from` at which `pattern` stands in `text`.
pub fn find_from(text: &Vec<char>, pattern: &Vec<char>, from: usize) -> (r: Option<usize>)
    ensures
        match r {
            Some(at) => first_at(text@, pattern@, from as int) == Some(at as int) && at
                + pattern@.len() <= text@.len() && from <= at,
            None => first_at(text@, pattern@, from as int) is None,
        },
{
    let mut at: usize = from;
    while at <= text.len() && pattern.len() <= text.len() - at
        invariant
            from <= at,
            at <= text@.len() || at == from,
            first_at(text@, pattern@, from as int) == first_at(text@, pattern@, at as int),
        decreases text@.len() + 1 - at,
    {
        if stands_at(text, pattern, at) {
            return Some(at);
        }
        proof {
            if pattern@.len() == 0 {
                assert(text@.subrange(at as int, at as int) =~= pattern@);
            }
        }
        at = at + 1;
    }
    None
}

/// Whether `pattern` stands somewhere in `text`.
pub fn has_text(text: &str, pattern: &str) -> (r: bool)
    ensures
        r == contains_text(text@, pattern@),
{
    proof {
        contains_has_first(text@, pattern@);
    }
    find_from(&chars_of(text), &chars_of(pattern), 0).is_some()
}

/// `text` begins with `prefix`.
pub open spec fn begins_with(text: Seq<char>, prefix: Seq<char>) -> bool {
    occurs_at(text, prefix, 0)
}

/// Whether `text` begins with `prefix`.
pub fn has_prefix(text: &str, prefix: &str) -> (r: bool)
    ensures
        r == begins_with(text@, prefix@),
{
    stands_at(&chars_of(text), &chars_of(prefix), 0)
}

// ---------------------------------------------------------------------------------------
// Trimming

/// `text` without the white space at its start.
pub open spec fn trim_start(text: Seq<char>) -> Seq<char>
    decreases text.len(),
{
    if text.len() > 0 && is_white_space(text[0]) {
        trim_start(text.drop_first())
    } else {
        text
    }
}

/// `text` without the white space at its end.
pub open spec fn trim_end(text: Seq<char>) -> Seq<char>
    decreases text.len(),
{
    if text.len() > 0 && is_white_space(text.last()) {
        trim_end(text.drop_last())
    } else {
        text
    }
}

/// `text` without the white space at both its ends.
pub open spec fn trim(text: Seq<char>) -> Seq<char> {
    trim_end(trim_start(text))
}

/// The first position from `from` on that holds no white space, or the end of the text.
pub fn skip_white_space(text: &Vec<char>, from: usize) -> (r: usize)
    requires
        from <= text@.len(),
    ensures
        from <= r <= text@.len(),
        trim_start(text@.skip(from as int)) == text@.skip(r as int),
{
    let mut i: usize = from;
    while i < text.len() && white_space(text[i])
        invariant
            from <= i <= text@.len(),
            trim_start(text@.skip(from as int)) == trim_start(text@.skip(i as int)),
        decreases text@.len() - i,
    {
        assert(text@.skip(i as int).drop_first() =~= text@.skip(i + 1));
        i = i + 1;
    }
    i
}

/// The text without the white space at both its ends.
pub fn trimmed(text: &str) -> (r: String)
    ensures
        r@ == trim(text@),
{
    let chars: Vec<char> = chars_of(text);
    assert(text@.skip(0) =~= text@);
    let from: usize = skip_white_space(&chars, 0);
    let mut to: usize = chars.len();
    assert(chars@.skip(from as int) =~= chars@.subrange(from as int, to as int));
    while to > from && white_space(chars[to - 1])
        invariant
            from <= to <= chars@.len(),
            trim(text@) == trim_end(chars@.subrange(from as int, to as int)),
        decreases to,
    {
        assert(chars@.subrange(from as int, to as int).drop_last() =~= chars@.subrange(
            from as int,
            to - 1,
        ));
        to = to - 1;
    }
    text_between(&chars, from, to)
}

// ---------------------------------------------------------------------------------------
// Splitting and joining

/// The position of the first `separator` in `text`, or the length of `text`.
pub open spec fn segment_end(text: Seq<char>, separator: char) -> int
    decreases text.len(),
{
    if text.len() == 0 || text[0] == separator {
        0
    } else {
        1 + segment_end(text.drop_first(), separator)
    }
}

/// The segment end lies in the text, holds the separator unless it is the end of the text, and
/// no position before it does.
pub proof fn segment_end_bounds(text: Seq<char>, separator: char)
    ensures
        0 <= segment_end(text, separator) <= text.len(),
        segment_end(text, separator) < text.len() ==> text[segment_end(text, separator)]
            == separator,
        forall|i: int| 0 <= i < segment_end(text, separator) ==> text[i] != separator,
    decreases text.len(),
{
    if text.len() > 0 && text[0] != separator {
        let rest = text.drop_first();
        segment_end_bounds(rest, separator);
        assert forall|i: int| 0 <= i < segment_end(text, separator) implies text[i]
            != separator by {
            if i > 0 {
                assert(text[i] == rest[i - 1]);
            }
        }
    }
}

/// The segments of `text` that stand between its separators: one more than there are
/// separators.
pub open spec fn segments(text: Seq<char>, separator: char) -> Seq<Seq<char>>
    decreases text.len(),
    via segments_shrink
{
    let end = segment_end(text, separator);
    if end >= text.len() {
        seq![text]
    } else {
        seq![text.take(end)] + segments(text.skip(end + 1), separator)
    }
}

#[via_fn]
proof fn segments_shrink(text: Seq<char>, separator: char) {
    segment_end_bounds(text, separator);
}

/// The end of the segment that begins at `from`: the first position from `from` on that holds
/// `separator`, or the end of the text.
pub fn find_char(text: &Vec<char>, separator: char, from: usize) -> (r: usize)
    requires
        from <= text@.len(),
    ensures
        from <= r <= text@.len(),
        r - from == segment_end(text@.skip(from as int), separator),
        r < text@.len() ==> text@[r as int] == separator,
        forall|i: int| from <= i < r ==> text@[i] != separator,
{
    let mut i: usize = from;
    while i < text.len() && text[i] != separator
        invariant
            from <= i <= text@.len(),
            segment_end(text@.skip(from as int), separator) == (i - from) + segment_end(
                text@.skip(i as int),
                separator,
            ),
            forall|k: int| from <= k < i ==> text@[k] != separator,
        decreases text@.len() - i,
    {
        assert(text@.skip(i as int).drop_first() =~= text@.skip(i + 1));
        i = i + 1;
    }
    i
}

/// The part of `text` before the first `separator` and the part after it, where there is one.
pub open spec fn split_once(text: Seq<char>, separator: char) -> Option<(Seq<char>, Seq<char>)> {
    let end = segment_end(text, separator);
    if end >= text.len() {
        None
    } else {
        Some((text.take(end), text.skip(end + 1)))
    }
}

/// The part of a text before the first `separator` and the part after it, where there is one.
pub fn split_at_char(text: &str, separator: char) -> (r: Option<(String, String)>)
    ensures
        match r {
            Some((head, tail)) => split_once(text@, separator) == Some((head@, tail@)),
            None => split_once(text@, separator) is None,
        },
{
    let chars: Vec<char> = chars_of(text);
    assert(text@.skip(0) =~= text@);
    let end: usize = find_char(&chars, separator, 0);
    if end >= chars.len() {
        return None;
    }
    let head: String = text_between(&chars, 0, end);
    let tail: String = text_between(&chars, end + 1, chars.len());
    assert(head@ =~= text@.take(end as int));
    assert(tail@ =~= text@.skip(end + 1));
    Some((head, tail))
}

/// The texts of a list, one after another, with `separator` between each two.
pub open spec fn joined(parts: Seq<Seq<char>>, separator: Seq<char>) -> Seq<char>
    decreases parts.len(),
{
    if parts.len() == 0 {
        Seq::empty()
    } else if parts.len() == 1 {
        parts[0]
    } else {
        parts[0] + separator + joined(parts.drop_first(), separator)
    }
}

/// Joining one text more puts the separator and that text behind.
pub proof fn joined_push(parts: Seq<Seq<char>>, separator: Seq<char>, last: Seq<char>)
    ensures
        joined(parts.push(last), separator) == if parts.len() == 0 {
            last
        } else {
            joined(parts, separator) + separator + last
        },
    decreases parts.len(),
{
    let more = parts.push(last);
    if parts.len() == 0 {
        assert(more[0] == last);
    } else {
        let rest = parts.drop_first();
        assert(more.drop_first() =~= rest.push(last));
        joined_push(rest, separator, last);
        if parts.len() == 1 {
            assert(joined(more, separator) =~= parts[0] + separator + last);
        } else {
            assert(joined(more, separator) =~= joined(parts, separator) + separator + last);
        }
    }
}

/// The characters of each text in a list.
pub open spec fn texts(list: Seq<String>) -> Seq<Seq<char>> {
    list.map_values(|text: String| text@)
}

/// The texts of a list, one after another, with `separator` between each two.
pub fn join(parts: &Vec<String>, separator: &str) -> (r: String)
    ensures
        r@ == joined(texts(parts@), separator@),
{
    let mut r = String::new();
    let mut i: usize = 0;
    assert(texts(parts@).take(0) =~= Seq::empty());
    while i < parts.len()
        invariant
            i <= parts@.len(),
            r@ == joined(texts(parts@).take(i as int), separator@),
        decreases parts@.len() - i,
    {
        proof {
            joined_push(texts(parts@).take(i as int), separator@, parts@[i as int]@);
            assert(texts(parts@).take(i + 1) =~= texts(parts@).take(i as int).push(
                parts@[i as int]@,
            ));
        }
        if i > 0 {
            r.append(separator);
        }
        r.append(parts[i].as_str());
        assert(r@ =~= joined(texts(parts@).take(i + 1), separator@));
        i = i + 1;
    }
    assert(texts(parts@).take(parts@.len() as int) =~= texts(parts@));
    r
}

/// Two texts, one after the other.
pub fn concat2(a: &str, b: &str) -> (r: String)
    ensures
        r@ == a@ + b@,
{
    let mut r: String = copy_of(a);
    r.append(b);
    r
}

/// Three texts, one after the other.
pub fn concat3(a: &str, b: &str, c: &str) -> (r: String)
    ensures
        r@ == a@ + b@ + c@,
{
    let mut r: String = concat2(a, b);
    r.append(c);
    r
}

/// A text contains a pattern exactly where it is the pattern with something before and behind it.
pub proof fn contained_is_between(text: Seq<char>, pattern: Seq<char>)
    ensures
        contains_text(text, pattern) == exists|before: Seq<char>, behind: Seq<char>|
            text == #[trigger] (before + pattern + behind),
{
    if contains_text(text, pattern) {
        let at = choose|at: int| occurs_at(text, pattern, at);
        let before = text.take(at);
        let behind = text.skip(at + pattern.len());
        assert(text =~= before + pattern + behind);
    }
    if exists|before: Seq<char>, behind: Seq<char>| text == #[trigger] (before + pattern + behind) {
        let (before, behind) = choose|before: Seq<char>, behind: Seq<char>|
            text == #[trigger] (before + pattern + behind);
        assert(text.subrange(before.len() as int, (before.len() + pattern.len()) as int)
            =~= pattern);
        assert(occurs_at(text, pattern, before.len() as int));
    }
}

/// A text begins with a prefix exactly where it is the prefix with something behind it.
pub proof fn prefix_comes_first(text: Seq<char>, prefix: Seq<char>)
    ensures
        begins_with(text, prefix) == exists|behind: Seq<char>| text == #[trigger] (prefix + behind),
{
    if begins_with(text, prefix) {
        let behind = text.skip(prefix.len() as int);
        assert(text =~= prefix + behind);
    }
    if exists|behind: Seq<char>| text == #[trigger] (prefix + behind) {
        let behind = choose|behind: Seq<char>| text == #[trigger] (prefix + behind);
        assert(text.subrange(0, prefix.len() as int) =~= prefix);
    }
}

/// A text that is parted at a separator is its two parts with the separator between them, and the
/// first part holds no separator; where it cannot be parted it holds none at all.
pub proof fn parting_is_at_the_first(text: Seq<char>, separator: char)
    ensures
        match split_once(text, separator) {
            Some((before, behind)) => text == before + seq![separator] + behind
                && !before.contains(separator),
            None => !text.contains(separator),
        },
{
    segment_end_bounds(text, separator);
    let end = segment_end(text, separator);
    if end < text.len() {
        assert(text =~= text.take(end) + seq![separator] + text.skip(end + 1));
    }
}

/// The segments of a text hold no separator, and joined by it they give the text back.
pub proof fn segments_give_back(text: Seq<char>, separator: char)
    ensures
        segments(text, separator).len() > 0,
        joined(segments(text, separator), seq![separator]) == text,
        forall|i: int|
            0 <= i < segments(text, separator).len() ==> !(#[trigger] segments(text, separator)[i])
                .contains(separator),
    decreases text.len(),
{
    segment_end_bounds(text, separator);
    let end = segment_end(text, separator);
    let all = segments(text, separator);
    if end < text.len() {
        let rest = text.skip(end + 1);
        segments_give_back(rest, separator);
        let others = segments(rest, separator);
        assert(all.drop_first() =~= others);
        assert(text =~= text.take(end) + seq![separator] + rest);
        assert forall|i: int| 0 <= i < all.len() implies !(#[trigger] all[i]).contains(
            separator,
        ) by {
            if i > 0 {
                assert(all[i] == others[i - 1]);
            }
        }
    } else {
        assert(all =~= seq![text]);
    }
}

/// What is trimmed off at either end is white space, and what stays has none at its ends.
pub proof fn only_white_space_is_trimmed(text: Seq<char>)
    ensures
        exists|before: Seq<char>, behind: Seq<char>|
            {
                &&& text == #[trigger] (before + trim(text) + behind)
                &&& forall|i: int| 0 <= i < before.len() ==> is_white_space(#[trigger] before[i])
                &&& forall|i: int| 0 <= i < behind.len() ==> is_white_space(#[trigger] behind[i])
            },
        trim(text).len() > 0 ==> !is_white_space(trim(text)[0]) && !is_white_space(
            trim(text).last(),
        ),
{
    let before = start_is_white_space(text);
    let rest = trim_start(text);
    let behind = end_is_white_space(rest);
    assert(text =~= before + trim(text) + behind);
}

proof fn start_is_white_space(text: Seq<char>) -> (before: Seq<char>)
    ensures
        text == before + trim_start(text),
        forall|i: int| 0 <= i < before.len() ==> is_white_space(#[trigger] before[i]),
        trim_start(text).len() > 0 ==> !is_white_space(trim_start(text)[0]),
    decreases text.len(),
{
    if text.len() > 0 && is_white_space(text[0]) {
        let rest = start_is_white_space(text.drop_first());
        let before = seq![text[0]] + rest;
        let tail = text.drop_first();
        assert(tail == rest + trim_start(text));
        assert(text =~= seq![text[0]] + tail);
        assert(text =~= before + trim_start(text));
        before
    } else {
        assert(text =~= Seq::<char>::empty() + text);
        Seq::empty()
    }
}

proof fn end_is_white_space(text: Seq<char>) -> (behind: Seq<char>)
    ensures
        text == trim_end(text) + behind,
        forall|i: int| 0 <= i < behind.len() ==> is_white_space(#[trigger] behind[i]),
        trim_end(text).len() > 0 ==> !is_white_space(trim_end(text).last()),
        text.len() > 0 && trim_end(text).len() > 0 ==> trim_end(text)[0] == text[0],
    decreases text.len(),
{
    if text.len() > 0 && is_white_space(text.last()) {
        let rest = end_is_white_space(text.drop_last());
        let behind = rest.push(text.last());
        let head = text.drop_last();
        assert(head == trim_end(text) + rest);
        assert(text =~= head.push(text.last()));
        assert(text =~= trim_end(text) + behind);
        behind
    } else {
        assert(text =~= text + Seq::<char>::empty());
        Seq::empty()
    }
}

/// Of two texts that differ first in one character the one with the smaller character comes before
/// the other; and a text comes before every longer one that it begins.
pub proof fn order_is_by_first_difference(
    common: Seq<char>,
    a: char,
    a_rest: Seq<char>,
    b: char,
    b_rest: Seq<char>,
)
    requires
        a < b,
    ensures
        text_before(common + seq![a] + a_rest, common + seq![b] + b_rest),
        text_before(common, common + seq![b] + b_rest),
    decreases common.len(),
{
    let x = common + seq![a] + a_rest;
    let y = common + seq![b] + b_rest;
    if common.len() > 0 {
        let rest = common.drop_first();
        order_is_by_first_difference(rest, a, a_rest, b, b_rest);
        assert(x.drop_first() =~= rest + seq![a] + a_rest);
        assert(y.drop_first() =~= rest + seq![b] + b_rest);
        assert(x[0] == common[0] && y[0] == common[0]);
    }
}

/// The digits are the ten of the decimal system, and the letters that count beside them are those
/// of the small and of the large alphabet.
pub proof fn characters_are_told_apart(c: char)
    ensures
        is_digit(c) == "0123456789"@.contains(c),
        is_alphanumeric(c) == ("0123456789"@.contains(c)
            || "abcdefghijklmnopqrstuvwxyz"@.contains(c)
            || "ABCDEFGHIJKLMNOPQRSTUVWXYZ"@.contains(c)),
        c as u32 <= 0x7f ==> is_white_space(c) == (c == ' ' || c == '\t' || c == '\n' || c == '\r'
            || c as u32 == 0x0b || c as u32 == 0x0c),
        c as u32 == 0x3000 || c as u32 == 0xa0 ==> is_white_space(c),
        is_alphanumeric(c) ==> !is_white_space(c),
{
    reveal_strlit("0123456789");
    reveal_strlit("abcdefghijklmnopqrstuvwxyz");
    reveal_strlit("ABCDEFGHIJKLMNOPQRSTUVWXYZ");
    let digits = "0123456789"@;
    let small = "abcdefghijklmnopqrstuvwxyz"@;
    let large = "ABCDEFGHIJKLMNOPQRSTUVWXYZ"@;
    if '0' <= c && c <= '9' {
        assert(digits[c as u32 - '0' as u32] == c);
    }
    if 'a' <= c && c <= 'z' {
        assert(small[c as u32 - 'a' as u32] == c);
    }
    if 'A' <= c && c <= 'Z' {
        assert(large[c as u32 - 'A' as u32] == c);
    }
}

} // verus!

//! A small scanner: the value of a string field in a JSON text.
use vstd::prelude::*;
use vstd::slice::slice_subrange;
use vstd::string::*;

use crate::text;

verus! {

broadcast use vstd::seq_lib::group_seq_properties;

/// A key between double quotes.
pub open spec fn quoted(key: Seq<char>) -> Seq<char> {
    seq!['"'] + key + seq!['"']
}

/// White space of a JSON text.
pub open spec fn is_json_space(c: char) -> bool {
    c == ' ' || c == '\t' || c == '\n' || c == '\r'
}

/// `s` without its leading JSON white space.
pub open spec fn skip_json_space(s: Seq<char>) -> Seq<char>
    decreases s.len(),
{
    if s.len() > 0 && is_json_space(s[0]) {
        skip_json_space(s.skip(1))
    } else {
        s
    }
}

/// `s` goes on with a colon, and what stands after that colon and the white space
/// behind it.
pub open spec fn after_colon(s: Seq<char>) -> Option<Seq<char>> {
    let at = skip_json_space(s);
    if at.len() > 0 && at[0] == ':' {
        Some(skip_json_space(at.skip(1)))
    } else {
        None
    }
}

/// The string that `s` starts with: what stands between a double quote at its start
/// and the next one.
pub open spec fn string_at(s: Seq<char>) -> Option<Seq<char>> {
    if s.len() > 0 && s[0] == '"' {
        match text::find(s.skip(1), seq!['"']) {
            Some(end) => Some(s.skip(1).take(end)),
            None => None,
        }
    } else {
        None
    }
}

/// The value of the string field `key`. The field is the first quoted `key` that a
/// colon follows; a quoted `key` without a colon is a value and is passed over.
/// There is none where the value of the field is no string.
pub open spec fn json_field(s: Seq<char>, key: Seq<char>) -> Option<Seq<char>>
    decreases s.len(),
{
    proof {
        text::lemma_find_is_first(s, quoted(key));
    }
    match text::after_first(s, quoted(key)) {
        Some(rest) => match after_colon(rest) {
            Some(value) => string_at(value),
            None => json_field(rest, key),
        },
        None => None,
    }
}

/// What follows the first `pat` in the text from `from` on, by its position.
fn after_pattern(text: &Vec<char>, pat: &Vec<char>, from: usize) -> (r: Option<usize>)
    requires
        from <= text@.len(),
    ensures
        match r {
            Some(at) => from <= at <= text@.len() && text::after_first(
                text@.skip(from as int),
                pat@,
            ) == Some(text@.skip(at as int)),
            None => text::after_first(text@.skip(from as int), pat@) is None,
        },
{
    let n: usize = text.len();
    let rest = slice_subrange(text.as_slice(), from, n);
    assert(rest@ =~= text@.skip(from as int));
    proof {
        text::lemma_find_is_first(rest@, pat@);
    }
    match text::find_chars(rest, pat.as_slice()) {
        Some(at) => {
            let after: usize = from + at + pat.len();
            assert(rest@.skip(at + pat@.len()) =~= text@.skip(after as int));
            Some(after)
        },
        None => None,
    }
}

/// The position after the JSON white space that starts at `from`.
fn after_space(text: &Vec<char>, from: usize, to: usize) -> (r: usize)
    requires
        from <= to <= text@.len(),
    ensures
        from <= r <= to,
        skip_json_space(text@.subrange(from as int, to as int)) == text@.subrange(r as int, to as int),
{
    let mut i: usize = from;
    while i < to && (text[i] == ' ' || text[i] == '\t' || text[i] == '\n' || text[i] == '\r')
        invariant
            from <= i <= to <= text@.len(),
            skip_json_space(text@.subrange(from as int, to as int)) == skip_json_space(
                text@.subrange(i as int, to as int),
            ),
        decreases to - i,
    {
        assert(text@.subrange(i as int, to as int).skip(1) =~= text@.subrange(i + 1, to as int));
        i += 1;
    }
    i
}

/// The position of what stands after a colon that `text` goes on with at `from`.
pub(crate) fn after_colon_at(text: &Vec<char>, from: usize, to: usize) -> (r: Option<usize>)
    requires
        from <= to <= text@.len(),
    ensures
        match r {
            Some(at) => from <= at <= to && after_colon(text@.subrange(from as int, to as int))
                == Some(text@.subrange(at as int, to as int)),
            None => after_colon(text@.subrange(from as int, to as int)) is None,
        },
{
    let colon: usize = after_space(text, from, to);
    if colon == to || text[colon] != ':' {
        return None;
    }
    assert(text@.subrange(colon as int, to as int).skip(1) =~= text@.subrange(
        colon + 1,
        to as int,
    ));
    Some(after_space(text, colon + 1, to))
}

/// Extract the value of a JSON string field.
pub fn extract_json_field(s: &str, key: &str) -> (r: Option<String>)
    ensures
        r.deep_view() == json_field(s@, key@),
{
    let text: Vec<char> = text::chars_of(s);
    let n: usize = text.len();
    let quote: Vec<char> = vec!['"'];
    proof {
        reveal_strlit("\"");
        assert("\""@ =~= seq!['"']);
    }
    let wanted = "\"".to_owned().concat(key).concat("\"");
    let name: Vec<char> = text::chars_of(wanted.as_str());
    let mut from: usize = 0;
    assert(text@.skip(0) =~= text@);
    loop
        invariant
            n == text@.len(),
            text@ == s@,
            name@ == quoted(key@),
            quote@ == seq!['"'],
            from <= n,
            json_field(s@, key@) == json_field(text@.skip(from as int), key@),
        decreases n - from,
    {
        proof {
            text::lemma_find_is_first(text@.skip(from as int), name@);
        }
        let rest: usize = match after_pattern(&text, &name, from) {
            Some(rest) => rest,
            None => {
                return None;
            },
        };
        assert(text@.subrange(rest as int, n as int) =~= text@.skip(rest as int));
        match after_colon_at(&text, rest, n) {
            Some(at) => {
                let ghost value = text@.subrange(at as int, n as int);
                if at == n || text[at] != '"' {
                    return None;
                }
                let start: usize = at + 1;
                let inner = slice_subrange(text.as_slice(), start, n);
                assert(inner@ =~= value.skip(1));
                proof {
                    text::lemma_find_is_first(inner@, quote@);
                }
                return match text::find_chars(inner, quote.as_slice()) {
                    Some(end) => {
                        let found = s.substring_char(start, start + end).to_owned();
                        assert(found@ =~= inner@.take(end as int));
                        Some(found)
                    },
                    None => None,
                };
            },
            None => {
                from = rest;
            },
        }
    }
}

/// The value that a field is read as holds no double quote.
pub proof fn lemma_json_field_has_no_quote(s: Seq<char>, key: Seq<char>)
    ensures
        json_field(s, key) matches Some(value) ==> !value.contains('"'),
    decreases s.len(),
{
    text::lemma_find_is_first(s, quoted(key));
    if let Some(rest) = text::after_first(s, quoted(key)) {
        match after_colon(rest) {
            Some(value) => {
                let inner = value.skip(1);
                text::lemma_find_is_first(inner, seq!['"']);
                if let Some(end) = text::find(inner, seq!['"']) {
                    assert forall|j: int| 0 <= j < end implies inner.take(end)[j] != '"' by {
                        if inner[j] == '"' {
                            assert(inner.subrange(j, j + 1) =~= seq!['"']);
                            assert(text::occurs_at(inner, seq!['"'], j));
                        }
                    }
                }
            },
            None => {
                lemma_json_field_has_no_quote(rest, key);
            },
        }
    }
}

/// The first place of a character that stands nowhere before it.
pub proof fn lemma_find_char(before: Seq<char>, c: char, after: Seq<char>)
    requires
        !before.contains(c),
    ensures
        text::find(before + seq![c] + after, seq![c]) == Some(before.len() as int),
        text::after_first(before + seq![c] + after, seq![c]) == Some(after),
{
    let whole = before + seq![c] + after;
    let at = before.len() as int;
    assert(whole.subrange(at, at + 1) =~= seq![c]);
    assert forall|j: int| 0 <= j < at implies !text::occurs_at(whole, seq![c], j) by {
        assert(whole.subrange(j, j + 1)[0] == before[j]);
    }
    text::lemma_find_unique(whole, seq![c], at);
    assert(whole.skip(at + 1) =~= after);
}

/// Every character of `s` is JSON white space.
pub open spec fn json_blank(s: Seq<char>) -> bool {
    forall|i: int| 0 <= i < s.len() ==> is_json_space(#[trigger] s[i])
}

/// White space before a text is skipped, and nothing else.
pub proof fn lemma_skip_json_blank(gap: Seq<char>, rest: Seq<char>)
    requires
        json_blank(gap),
        rest.len() > 0 ==> !is_json_space(rest[0]),
    ensures
        skip_json_space(gap + rest) == rest,
    decreases gap.len(),
{
    if gap.len() > 0 {
        assert((gap + rest)[0] == gap[0]);
        assert((gap + rest).skip(1) =~= gap.skip(1) + rest);
        lemma_skip_json_blank(gap.skip(1), rest);
    } else {
        assert(gap + rest =~= rest);
    }
}

/// The first quoted `key` of a text stands behind `before`.
pub open spec fn first_key_after(before: Seq<char>, key: Seq<char>, rest: Seq<char>) -> bool {
    forall|j: int|
        0 <= j < before.len() ==> !text::occurs_at(before + quoted(key) + rest, quoted(key), j)
}

proof fn lemma_after_first_key(before: Seq<char>, key: Seq<char>, rest: Seq<char>)
    requires
        first_key_after(before, key, rest),
    ensures
        text::after_first(before + quoted(key) + rest, quoted(key)) == Some(rest),
{
    let whole = before + quoted(key) + rest;
    let at = before.len() as int;
    assert(whole.subrange(at, at + quoted(key).len()) =~= quoted(key));
    text::lemma_find_unique(whole, quoted(key), at);
    assert(whole.skip(at + quoted(key).len()) =~= rest);
}

/// A string field that is written out is read back: with no quoted key before it,
/// only white space round its colon, and no double quote in the value.
pub proof fn lemma_json_field_reads_back(
    before: Seq<char>,
    key: Seq<char>,
    gap: Seq<char>,
    lead: Seq<char>,
    value: Seq<char>,
    after: Seq<char>,
)
    requires
        json_blank(gap),
        json_blank(lead),
        !value.contains('"'),
        first_key_after(before, key, gap + seq![':'] + lead + quoted(value) + after),
    ensures
        json_field(
            before + quoted(key) + (gap + seq![':'] + lead + quoted(value) + after),
            key,
        ) == Some(value),
{
    let rest = gap + seq![':'] + lead + quoted(value) + after;
    let from_value = value + seq!['"'] + after;
    let from_quote = seq!['"'] + from_value;
    let from_colon = seq![':'] + (lead + from_quote);
    lemma_after_first_key(before, key, rest);
    assert(rest =~= gap + from_colon);
    lemma_skip_json_blank(gap, from_colon);
    assert(from_colon.skip(1) =~= lead + from_quote);
    lemma_skip_json_blank(lead, from_quote);
    assert(from_quote.skip(1) =~= from_value);
    lemma_find_char(value, '"', after);
    assert(from_value.take(value.len() as int) =~= value);
}

/// A quoted text that equals the key is no field where no colon follows it: the
/// field is looked for behind it.
pub proof fn lemma_json_field_passes_over_values(
    before: Seq<char>,
    key: Seq<char>,
    rest: Seq<char>,
)
    requires
        first_key_after(before, key, rest),
        after_colon(rest) is None,
    ensures
        json_field(before + quoted(key) + rest, key) == json_field(rest, key),
{
    lemma_after_first_key(before, key, rest);
}

/// A field whose value does not start with a double quote is no string field.
pub proof fn lemma_json_field_needs_a_string(before: Seq<char>, key: Seq<char>, rest: Seq<char>)
    requires
        first_key_after(before, key, rest),
        after_colon(rest) matches Some(value) && (value.len() > 0 ==> value[0] != '"'),
    ensures
        json_field(before + quoted(key) + rest, key) is None,
{
    lemma_after_first_key(before, key, rest);
}

/// A quoted key is the key between two double quotes, and the white space of JSON is
/// the space, the tab, the line feed and the carriage return.
pub proof fn lemma_json_signs(key: Seq<char>, c: char)
    ensures
        quoted(key).len() == key.len() + 2,
        quoted(key)[0] == '"',
        quoted(key).last() == '"',
        quoted(key).subrange(1, key.len() as int + 1) == key,
        is_json_space(c) <==> (c == ' ' || c == '\t' || c == '\n' || c == '\r'),
{
    assert(quoted(key).subrange(1, key.len() as int + 1) =~= key);
}

/// A text goes on with a colon exactly where the first character that is no white space
/// is one; its value starts at the next such character.
pub proof fn lemma_colon_after_white_space(gap: Seq<char>, lead: Seq<char>, rest: Seq<char>)
    requires
        json_blank(gap),
        json_blank(lead),
        rest.len() > 0 ==> !is_json_space(rest[0]),
    ensures
        after_colon(gap + (seq![':'] + (lead + rest))) == Some(rest),
        rest.len() == 0 || rest[0] != ':' ==> after_colon(gap + rest) is None,
{
    let from_colon = seq![':'] + (lead + rest);
    lemma_skip_json_blank(gap, from_colon);
    assert(from_colon.skip(1) =~= lead + rest);
    lemma_skip_json_blank(lead, rest);
    lemma_skip_json_blank(gap, rest);
}

/// A string is what stands between a double quote at the start and the next one; a text
/// that does not start with one, or does not hold a second one, starts with no string.
pub proof fn lemma_string_between_quotes(value: Seq<char>, rest: Seq<char>)
    requires
        !value.contains('"'),
    ensures
        string_at(seq!['"'] + (value + seq!['"'] + rest)) == Some(value),
        string_at(seq!['"'] + value) is None,
        value.len() > 0 ==> string_at(value + rest) is None,
{
    let inner = value + seq!['"'] + rest;
    assert((seq!['"'] + inner).skip(1) =~= inner);
    lemma_find_char(value, '"', rest);
    assert(inner.take(value.len() as int) =~= value);
    assert((seq!['"'] + value).skip(1) =~= value);
    text::lemma_find_is_first(value, seq!['"']);
    if let Some(at) = text::find(value, seq!['"']) {
        assert(value.subrange(at, at + 1)[0] == value[at]);
        assert(value.contains(value[at]));
    }
    if value.len() > 0 {
        assert((value + rest)[0] == value[0]);
        assert(value.contains(value[0]));
    }
}

/// A field is what its colon leads to: the string that follows, if one does. Where no
/// quoted key stands in the text there is no field.
pub proof fn lemma_json_field_is_its_string(
    before: Seq<char>,
    key: Seq<char>,
    rest: Seq<char>,
    value: Seq<char>,
    other: Seq<char>,
)
    requires
        first_key_after(before, key, rest),
        after_colon(rest) == Some(value),
        forall|j: int| !#[trigger] text::occurs_at(other, quoted(key), j),
    ensures
        json_field(before + quoted(key) + rest, key) == string_at(value),
        json_field(other, key) is None,
{
    lemma_after_first_key(before, key, rest);
    text::lemma_find_is_first(other, quoted(key));
}

} // verus!

//! The release index of nodejs.org: the first long-term-support version in it.
use vstd::prelude::*;
use vstd::slice::slice_subrange;
use vstd::string::*;

use crate::nesting::{Lex, Nesting};
use crate::{nesting, scan, text};

verus! {

/// `s` goes on with a colon and the JSON value `false`.
pub open spec fn false_follows(s: Seq<char>) -> bool {
    match scan::after_colon(s) {
        Some(value) => text::occurs_at(value, "false"@, 0),
        None => false,
    }
}

/// What stands before the number of a version in the release index.
pub open spec fn version_marker() -> Seq<char> {
    "\"version\":\"v"@
}

/// The name of the field that tells a long-term-support release.
pub open spec fn lts_key() -> Seq<char> {
    "\"lts\""@
}

/// A version stands at `i` in the release index: its marker, then its number.
pub open spec fn version_at(s: Seq<char>, i: int) -> bool {
    text::occurs_at(s, version_marker(), i)
}

/// The object that holds the version at `j` also holds the one at `i`, in an object
/// within it.
pub open spec fn encloses(s: Seq<char>, j: int, i: int) -> bool {
    &&& version_at(s, j)
    &&& 1 <= nesting::level(s, j) < nesting::level(s, i)
    &&& forall|k: int|
        (j <= k <= i || i <= k <= j) ==> #[trigger] nesting::level(s, k) >= nesting::level(s, j)
}

/// The version at `i` is that of an entry: it does not lie in an object within
/// another entry.
pub open spec fn entry_at(s: Seq<char>, i: int) -> bool {
    version_at(s, i) && forall|j: int| !#[trigger] encloses(s, j, i)
}

/// The positions `i` and `at` lie in the same object, and not in one within it.
pub open spec fn same_object(s: Seq<char>, i: int, at: int) -> bool {
    &&& 0 <= at < s.len()
    &&& nesting::level(s, at) == nesting::level(s, i)
    &&& forall|k: int|
        (i <= k <= at || at <= k <= i) ==> #[trigger] nesting::level(s, k) >= nesting::level(s, i)
}

/// No version stands before the one at `i` in its object.
pub open spec fn first_of_object(s: Seq<char>, i: int) -> bool {
    forall|k: int| #[trigger] version_at(s, k) && k < i ==> !same_object(s, i, k)
}

/// A field at `at` belongs to the entry whose version stands at `i`: it stands in the
/// same object, behind the version and before any further one, or before the first
/// version of the object.
pub open spec fn own_field_at(s: Seq<char>, i: int, at: int) -> bool {
    &&& at != i
    &&& same_object(s, i, at)
    &&& if at > i {
        forall|k: int|
            i < k < at && #[trigger] version_at(s, k) ==> nesting::level(s, k) != nesting::level(
                s,
                i,
            )
    } else {
        nesting::level(s, i) >= 1 && first_of_object(s, i)
    }
}

/// A field `lts` at `at` that is `false`.
pub open spec fn false_lts_at(s: Seq<char>, at: int) -> bool {
    &&& nesting::plain_at(s, at)
    &&& text::occurs_at(s, lts_key(), at)
    &&& false_follows(s.skip(at + lts_key().len()))
}

/// The entry whose version stands at `i` has a field `lts` of its own, and that is
/// `false`.
pub open spec fn lts_is_false(s: Seq<char>, i: int) -> bool {
    exists|at: int| #[trigger] own_field_at(s, i, at) && false_lts_at(s, at)
}

/// The version at `i` is that of an entry whose `lts` is not `false`.
pub open spec fn preferred_at(s: Seq<char>, i: int) -> bool {
    entry_at(s, i) && !lts_is_false(s, i)
}

/// The first position, from `from` on, of the version of an entry whose `lts` is not
/// `false`.
pub open spec fn preferred_from(s: Seq<char>, from: int) -> Option<int>
    decreases s.len() - from,
{
    if from < 0 || from >= s.len() {
        None
    } else if preferred_at(s, from) {
        Some(from)
    } else {
        preferred_from(s, from + 1)
    }
}

/// The number of the version at `i`, up to its double quote.
pub open spec fn version_number(s: Seq<char>, i: int) -> Option<Seq<char>> {
    let after = s.skip(i + version_marker().len());
    match text::find(after, seq!['"']) {
        Some(end) => Some(after.take(end)),
        None => None,
    }
}

/// The first version in the release index whose entry does not say that its `lts` is
/// `false`.
pub open spec fn first_lts(index: Seq<char>) -> Option<Seq<char>> {
    match preferred_from(index, 0) {
        Some(i) => version_number(index, i),
        None => None,
    }
}

fn false_follows_at(text: &Vec<char>, from: usize, to: usize) -> (r: bool)
    requires
        from <= to <= text@.len(),
    ensures
        r == false_follows(text@.subrange(from as int, to as int)),
{
    match scan::after_colon_at(text, from, to) {
        Some(value) => {
            let word: Vec<char> = text::chars_of("false");
            text::starts_with_chars(slice_subrange(text.as_slice(), value, to), word.as_slice())
        },
        None => false,
    }
}

/// Whether `pat` stands in the text at `at`.
fn stands_at(text: &Vec<char>, pat: &Vec<char>, at: usize) -> (r: bool)
    requires
        at <= text@.len(),
    ensures
        r == text::occurs_at(text@, pat@, at as int),
{
    let n: usize = text.len();
    let rest = slice_subrange(text.as_slice(), at, n);
    let r = text::starts_with_chars(rest, pat.as_slice());
    assert(at + pat@.len() <= n ==> rest@.subrange(0, pat@.len() as int) =~= text@.subrange(
        at as int,
        at + pat@.len(),
    ));
    r
}

/// Whether an entry before the version at `i` holds it in an object within.
fn enclosed_before(text: &Vec<char>, marker: &Vec<char>, nest: &Nesting, i: usize) -> (r: bool)
    requires
        marker@ == version_marker(),
        nesting::nesting_of(*nest, text@),
        i < text@.len(),
    ensures
        r == exists|j: int| 0 <= j < i && #[trigger] encloses(text@, j, i as int),
{
    let own: i128 = nest.levels[i];
    let mut low: i128 = own;
    let ghost mut lowest: int = i as int;
    let mut j: usize = i;
    while j > 0
        invariant
            j <= i < text@.len(),
            marker@ == version_marker(),
            nesting::nesting_of(*nest, text@),
            own == nesting::level(text@, i as int),
            j <= lowest <= i,
            low == nesting::level(text@, lowest),
            forall|k: int| j <= k <= i ==> #[trigger] nesting::level(text@, k) >= low,
            forall|m: int| j <= m < i ==> !#[trigger] encloses(text@, m, i as int),
        decreases j,
    {
        if low < 1 {
            assert forall|m: int| 0 <= m < i implies !#[trigger] encloses(text@, m, i as int) by {
                if m < j && encloses(text@, m, i as int) {
                    assert(nesting::level(text@, lowest) >= nesting::level(text@, m));
                }
            }
            return false;
        }
        j -= 1;
        let here: i128 = nest.levels[j];
        if here <= low {
            low = here;
            proof {
                lowest = j as int;
            }
            if here >= 1 && here < own && stands_at(text, marker, j) {
                assert(encloses(text@, j as int, i as int));
                return true;
            }
        } else {
            assert(!encloses(text@, j as int, i as int)) by {
                if encloses(text@, j as int, i as int) {
                    assert(nesting::level(text@, lowest) >= nesting::level(text@, j as int));
                }
            }
        }
    }
    false
}

/// Whether an entry whose version comes after the one at `i` holds that in an object
/// within.
fn enclosed_behind(text: &Vec<char>, marker: &Vec<char>, nest: &Nesting, i: usize) -> (r: bool)
    requires
        marker@ == version_marker(),
        nesting::nesting_of(*nest, text@),
        i < text@.len(),
    ensures
        r == exists|j: int| i < j && #[trigger] encloses(text@, j, i as int),
{
    let n: usize = text.len();
    let own: i128 = nest.levels[i];
    let mut low: i128 = own;
    let ghost mut lowest: int = i as int;
    let mut j: usize = i + 1;
    proof {
        reveal_strlit("\"version\":\"v");
    }
    while j < n
        invariant
            i < j <= n,
            n == text@.len(),
            marker@ == version_marker(),
            marker@.len() == 12,
            nesting::nesting_of(*nest, text@),
            own == nesting::level(text@, i as int),
            i <= lowest < j,
            low == nesting::level(text@, lowest),
            forall|k: int| i <= k < j ==> #[trigger] nesting::level(text@, k) >= low,
            forall|m: int| i < m < j ==> !#[trigger] encloses(text@, m, i as int),
        decreases n - j,
    {
        if low < 1 {
            assert forall|m: int| i < m implies !#[trigger] encloses(text@, m, i as int) by {
                if m >= j && encloses(text@, m, i as int) {
                    assert(nesting::level(text@, lowest) >= nesting::level(text@, m));
                }
            }
            return false;
        }
        let here: i128 = nest.levels[j];
        if here <= low {
            low = here;
            proof {
                lowest = j as int;
            }
            if here >= 1 && here < own && stands_at(text, marker, j) {
                assert(encloses(text@, j as int, i as int));
                return true;
            }
        } else {
            assert(!encloses(text@, j as int, i as int)) by {
                if encloses(text@, j as int, i as int) {
                    assert(nesting::level(text@, lowest) >= nesting::level(text@, j as int));
                }
            }
        }
        j += 1;
    }
    assert forall|m: int| i < m implies !#[trigger] encloses(text@, m, i as int) by {
        if m >= n {
            assert(!version_at(text@, m));
        }
    }
    false
}

/// Whether a field `lts` that is `false` stands at `at`.
fn false_lts(text: &Vec<char>, key: &Vec<char>, nest: &Nesting, at: usize) -> (r: bool)
    requires
        key@ == lts_key(),
        nesting::nesting_of(*nest, text@),
        at < text@.len(),
    ensures
        r == false_lts_at(text@, at as int),
{
    let n: usize = text.len();
    proof {
        lemma_patterns_have_no_brace();
    }
    if nest.plain[at] && stands_at(text, key, at) {
        assert(text@.skip(at + 5) =~= text@.subrange(at + 5, n as int));
        false_follows_at(text, at + 5, n)
    } else {
        false
    }
}

/// Whether a field `lts` that is `false` belongs to the version at `i` and stands
/// behind it.
fn false_lts_behind(
    text: &Vec<char>,
    marker: &Vec<char>,
    key: &Vec<char>,
    nest: &Nesting,
    i: usize,
) -> (r: bool)
    requires
        marker@ == version_marker(),
        key@ == lts_key(),
        nesting::nesting_of(*nest, text@),
        i < text@.len(),
    ensures
        r == exists|at: int|
            i < at && #[trigger] own_field_at(text@, i as int, at) && false_lts_at(text@, at),
{
    let n: usize = text.len();
    let own: i128 = nest.levels[i];
    let mut at: usize = i + 1;
    while at < n
        invariant
            i < at <= n,
            n == text@.len(),
            marker@ == version_marker(),
            key@ == lts_key(),
            nesting::nesting_of(*nest, text@),
            own == nesting::level(text@, i as int),
            forall|k: int| i <= k < at ==> #[trigger] nesting::level(text@, k) >= own,
            forall|k: int|
                i < k < at && #[trigger] version_at(text@, k) ==> nesting::level(text@, k) != own,
            forall|k: int|
                i < k < at ==> !(#[trigger] own_field_at(text@, i as int, k) && false_lts_at(
                    text@,
                    k,
                )),
        decreases n - at,
    {
        let here: i128 = nest.levels[at];
        if here < own {
            assert forall|k: int| i < k && #[trigger] own_field_at(
                text@,
                i as int,
                k,
            ) implies !false_lts_at(text@, k) by {
                if k >= at {
                    assert(nesting::level(text@, at as int) >= nesting::level(text@, i as int));
                }
            }
            return false;
        }
        if here == own {
            if false_lts(text, key, nest, at) {
                assert(own_field_at(text@, i as int, at as int));
                return true;
            }
            if stands_at(text, marker, at) {
                assert forall|k: int| i < k && #[trigger] own_field_at(
                    text@,
                    i as int,
                    k,
                ) implies !false_lts_at(text@, k) by {
                    if k > at {
                        assert(version_at(text@, at as int));
                    }
                }
                return false;
            }
        }
        at += 1;
    }
    false
}

/// Whether a field `lts` that is `false` belongs to the version at `i` and stands
/// before it.
fn false_lts_before(
    text: &Vec<char>,
    marker: &Vec<char>,
    key: &Vec<char>,
    nest: &Nesting,
    i: usize,
) -> (r: bool)
    requires
        marker@ == version_marker(),
        key@ == lts_key(),
        nesting::nesting_of(*nest, text@),
        i < text@.len(),
    ensures
        r == exists|at: int|
            at < i && #[trigger] own_field_at(text@, i as int, at) && false_lts_at(text@, at),
{
    let own: i128 = nest.levels[i];
    if own < 1 {
        return false;
    }
    let mut found = false;
    let ghost mut place: int = 0;
    let mut at: usize = i;
    while at > 0
        invariant
            at <= i < text@.len(),
            own >= 1,
            marker@ == version_marker(),
            key@ == lts_key(),
            nesting::nesting_of(*nest, text@),
            own == nesting::level(text@, i as int),
            forall|k: int| at <= k <= i ==> #[trigger] nesting::level(text@, k) >= own,
            forall|k: int|
                at <= k < i && #[trigger] version_at(text@, k) ==> !same_object(text@, i as int, k),
            found ==> at <= place < i && same_object(text@, i as int, place) && false_lts_at(
                text@,
                place,
            ),
            !found ==> forall|k: int|
                at <= k < i ==> !(#[trigger] same_object(text@, i as int, k) && false_lts_at(
                    text@,
                    k,
                )),
        decreases at,
    {
        at -= 1;
        let here: i128 = nest.levels[at];
        if here < own {
            assert forall|k: int| k <= at implies !#[trigger] same_object(text@, i as int, k) by {
                if same_object(text@, i as int, k) {
                    assert(nesting::level(text@, at as int) >= nesting::level(text@, i as int));
                }
            }
            if found {
                assert(own_field_at(text@, i as int, place));
            } else {
                assert forall|k: int| k < i && #[trigger] own_field_at(
                    text@,
                    i as int,
                    k,
                ) implies !false_lts_at(text@, k) by {
                    assert(same_object(text@, i as int, k));
                }
            }
            return found;
        }
        if here == own {
            assert(same_object(text@, i as int, at as int));
            if stands_at(text, marker, at) {
                assert(version_at(text@, at as int));
                assert(!first_of_object(text@, i as int));
                return false;
            }
            if false_lts(text, key, nest, at) {
                found = true;
                proof {
                    place = at as int;
                }
            }
        }
    }
    if found {
        assert(first_of_object(text@, i as int)) by {
            assert forall|k: int| #[trigger] version_at(text@, k) && k < i implies !same_object(
                text@,
                i as int,
                k,
            ) by {}
        }
        assert(own_field_at(text@, i as int, place));
    } else {
        assert forall|k: int| k < i && #[trigger] own_field_at(
            text@,
            i as int,
            k,
        ) implies !false_lts_at(text@, k) by {
            assert(same_object(text@, i as int, k));
        }
    }
    found
}

/// Whether the entry whose version stands at `i` says that its `lts` is `false`.
fn lts_is_false_in(text: &Vec<char>, marker: &Vec<char>, nest: &Nesting, i: usize) -> (r: bool)
    requires
        marker@ == version_marker(),
        nesting::nesting_of(*nest, text@),
        i < text@.len(),
    ensures
        r == lts_is_false(text@, i as int),
{
    let key: Vec<char> = text::chars_of("\"lts\"");
    false_lts_behind(text, marker, &key, nest, i) || false_lts_before(text, marker, &key, nest, i)
}

/// Prefer the latest long-term-support release: scan the entries and take the first
/// version whose `lts` field is not `false`.
pub fn first_lts_version_in_node_index(s: &str) -> (r: Option<String>)
    ensures
        r.deep_view() == first_lts(s@),
{
    let text: Vec<char> = text::chars_of(s);
    let n: usize = text.len();
    let marker: Vec<char> = text::chars_of("\"version\":\"v");
    let quote: Vec<char> = vec!['"'];
    let nest = nesting::measure(&text);
    proof {
        reveal_strlit("\"version\":\"v");
    }
    let mut i: usize = 0;
    while i < n
        invariant
            i <= n,
            n == text@.len(),
            text@ == s@,
            marker@ == version_marker(),
            marker@.len() == 12,
            quote@ == seq!['"'],
            nesting::nesting_of(nest, text@),
            preferred_from(s@, 0) == preferred_from(s@, i as int),
        decreases n - i,
    {
        if stands_at(&text, &marker, i) && !enclosed_before(&text, &marker, &nest, i)
            && !enclosed_behind(&text, &marker, &nest, i) && !lts_is_false_in(
            &text,
            &marker,
            &nest,
            i,
        ) {
            assert forall|j: int| !#[trigger] encloses(s@, j, i as int) by {
                if j < 0 {
                    assert(!version_at(s@, j));
                }
            }
            assert(preferred_at(s@, i as int));
            let start: usize = i + 12;
            let after = slice_subrange(text.as_slice(), start, n);
            assert(after@ =~= s@.skip(start as int));
            proof {
                text::lemma_find_is_first(after@, quote@);
            }
            return match text::find_chars(after, quote.as_slice()) {
                Some(end) => {
                    let version = s.substring_char(start, start + end).to_owned();
                    assert(version@ =~= after@.take(end as int));
                    Some(version)
                },
                None => None,
            };
        }
        i += 1;
    }
    None
}

/// The version that is preferred is the first of an entry whose `lts` is not `false`.
pub proof fn lemma_preferred_is_first(s: Seq<char>, from: int)
    requires
        0 <= from,
    ensures
        match preferred_from(s, from) {
            Some(i) => from <= i < s.len() && preferred_at(s, i) && forall|j: int|
                from <= j < i ==> !#[trigger] preferred_at(s, j),
            None => forall|j: int| from <= j < s.len() ==> !#[trigger] preferred_at(s, j),
        },
    decreases s.len() - from,
{
    if from < s.len() && !preferred_at(s, from) {
        lemma_preferred_is_first(s, from + 1);
    }
}

proof fn lemma_preferred_skips(s: Seq<char>, from: int, to: int)
    requires
        0 <= from <= to <= s.len(),
        forall|k: int| from <= k < to ==> !#[trigger] preferred_at(s, k),
    ensures
        preferred_from(s, from) == preferred_from(s, to),
    decreases to - from,
{
    if from < to {
        assert(!preferred_at(s, from));
        lemma_preferred_skips(s, from + 1, to);
    }
}

/// The field `lts` of an entry: where it stands in the object, the white space before
/// and after its colon, and its value with all that follows in the object.
pub struct LtsField {
    pub at: int,
    pub gap: Seq<char>,
    pub lead: Seq<char>,
    pub value: Seq<char>,
}

/// An entry of the release index: what it says before its version, the version, what
/// it says after it, its field `lts` if it has one, before or after the version, and
/// what stands between the entry and the next one.
pub struct IndexEntry {
    pub before: Seq<char>,
    pub lts: Option<LtsField>,
    pub version: Seq<char>,
    pub body: Seq<char>,
    pub gap: Seq<char>,
}

/// The object of an entry.
pub open spec fn entry_object(entry: IndexEntry) -> Seq<char> {
    seq!['{'] + entry.before + "\"version\":\"v"@ + entry.version + seq!['"'] + entry.body + seq![
        '}',
    ]
}

/// Where the version of an entry stands in its object.
pub open spec fn version_place(entry: IndexEntry) -> int {
    1 + entry.before.len() as int
}

/// Entries as they stand in the index, one after the other.
pub open spec fn index_text(entries: Seq<IndexEntry>) -> Seq<char>
    decreases entries.len(),
{
    if entries.len() == 0 {
        Seq::empty()
    } else {
        entry_object(entries[0]) + (entries[0].gap + index_text(entries.skip(1)))
    }
}

/// A text outside objects and strings.
pub open spec fn is_gap(s: Seq<char>) -> bool {
    forall|i: int|
        0 <= i < s.len() ==> #[trigger] s[i] != '"' && s[i] != '{' && s[i] != '}'
}

/// An object that its last brace closes, and none before, with one version of its
/// own, at `v`. Objects within it may hold versions of theirs.
pub open spec fn is_entry_object(obj: Seq<char>, v: int) -> bool {
    &&& 0 < v < obj.len()
    &&& obj[0] == '{'
    &&& obj.last() == '}'
    &&& nesting::lex_of(obj) == Lex::Plain
    &&& nesting::depth_of(obj) == 0
    &&& forall|k: int| 0 < k < obj.len() ==> #[trigger] nesting::level(obj, k) >= 1
    &&& nesting::level(obj, v) == 1
    &&& text::occurs_at(obj, "\"version\":\"v"@, v)
    &&& forall|k: int|
        #[trigger] text::occurs_at(obj, "\"version\":\"v"@, k) && k != v ==> nesting::level(obj, k)
            > 1
}

/// A quoted `lts` stands at `k` in an object, outside its strings, and not in an object
/// within it.
pub open spec fn lts_stands_at(obj: Seq<char>, k: int) -> bool {
    &&& 0 <= k < obj.len()
    &&& text::occurs_at(obj, "\"lts\""@, k)
    &&& nesting::level(obj, k) == 1
    &&& nesting::plain_at(obj, k)
}

/// The field stands where it says, with a colon and a value, and there is no other.
/// Where there is none, nothing in the object looks like one.
pub open spec fn is_lts_field(obj: Seq<char>, field: Option<LtsField>) -> bool {
    match field {
        Some(lts) => {
            &&& lts_stands_at(obj, lts.at)
            &&& forall|k: int| #[trigger] lts_stands_at(obj, k) ==> k == lts.at
            &&& scan::json_blank(lts.gap)
            &&& scan::json_blank(lts.lead)
            &&& lts.value.len() > 0
            &&& !scan::is_json_space(lts.value[0])
            &&& obj.skip(lts.at + 5) == lts.gap + (seq![':'] + (lts.lead + lts.value))
        },
        None => forall|k: int| !#[trigger] lts_stands_at(obj, k),
    }
}

/// The field `lts` is there, and its value starts with the letters of `false`.
pub open spec fn says_false(field: Option<LtsField>) -> bool {
    field matches Some(lts) && lts.value.len() >= 5 && lts.value[0] == 'f' && lts.value[1] == 'a'
        && lts.value[2] == 'l' && lts.value[3] == 's' && lts.value[4] == 'e'
}

/// The version ends at its double quote, the entry is one object, and nothing that
/// matters stands between it and the next.
pub open spec fn is_whole_entry(entry: IndexEntry) -> bool {
    &&& !entry.version.contains('"')
    &&& is_entry_object(entry_object(entry), version_place(entry))
    &&& is_gap(entry.gap)
}

/// An entry that is whole and has the field `lts` that it says, or none.
pub open spec fn is_entry(entry: IndexEntry) -> bool {
    is_whole_entry(entry) && is_lts_field(entry_object(entry), entry.lts)
}

/// The version of the first entry that, taken alone, is not passed over.
pub open spec fn first_passing(entries: Seq<IndexEntry>) -> Option<Seq<char>>
    decreases entries.len(),
{
    if entries.len() == 0 {
        None
    } else if !lts_is_false(entry_object(entries[0]), version_place(entries[0])) {
        Some(entries[0].version)
    } else {
        first_passing(entries.skip(1))
    }
}

/// The version of the first entry that does not say `false` of `lts`.
pub open spec fn first_not_false(entries: Seq<IndexEntry>) -> Option<Seq<char>>
    decreases entries.len(),
{
    if entries.len() == 0 {
        None
    } else if !says_false(entries[0].lts) {
        Some(entries[0].version)
    } else {
        first_not_false(entries.skip(1))
    }
}

proof fn lemma_gap_nests_nothing(gap: Seq<char>)
    requires
        is_gap(gap),
    ensures
        nesting::lex_of(gap) == Lex::Plain,
        nesting::depth_of(gap) == 0,
    decreases gap.len(),
{
    if gap.len() > 0 {
        assert(is_gap(gap.drop_last())) by {
            assert forall|i: int| 0 <= i < gap.len() - 1 implies #[trigger] gap.drop_last()[i] != '"'
                && gap.drop_last()[i] != '{' && gap.drop_last()[i] != '}' by {
                assert(gap[i] != '"');
            }
        }
        lemma_gap_nests_nothing(gap.drop_last());
        assert(gap[gap.len() - 1] != '"');
    }
}

/// A pattern without a closing brace that starts in an object ends in it.
proof fn lemma_pattern_in_object(
    pre: Seq<char>,
    obj: Seq<char>,
    rest: Seq<char>,
    pat: Seq<char>,
    k: int,
)
    requires
        0 <= k < obj.len(),
        obj.last() == '}',
        pat.len() > 0,
        !pat.contains('}'),
    ensures
        text::occurs_at(pre + (obj + rest), pat, pre.len() + k) == text::occurs_at(obj, pat, k),
        text::occurs_at(obj, pat, k) ==> k + pat.len() < obj.len(),
{
    let s = pre + (obj + rest);
    let p = pre.len() as int;
    if k + pat.len() >= obj.len() {
        let j = obj.len() - 1 - k;
        if text::occurs_at(s, pat, p + k) {
            assert(s.subrange(p + k, p + k + pat.len())[j] == pat[j]);
            assert(s[p + k + j] == obj[k + j]);
            assert(pat.contains(pat[j]));
        }
        if text::occurs_at(obj, pat, k) {
            assert(obj.subrange(k, k + pat.len())[j] == pat[j]);
            assert(pat.contains(pat[j]));
        }
    } else {
        assert(s.subrange(p + k, p + k + pat.len()) =~= obj.subrange(k, k + pat.len()));
    }
}

proof fn lemma_skip_space_up_to_brace(x: Seq<char>, rest: Seq<char>)
    requires
        x.len() > 0,
        x.last() == '}',
    ensures
        scan::skip_json_space(x + rest) == scan::skip_json_space(x) + rest,
        scan::skip_json_space(x).len() > 0,
        scan::skip_json_space(x).last() == '}',
    decreases x.len(),
{
    assert((x + rest)[0] == x[0]);
    if scan::is_json_space(x[0]) {
        assert(x.len() > 1);
        assert((x + rest).skip(1) =~= x.skip(1) + rest);
        assert(x.skip(1).last() == x.last());
        lemma_skip_space_up_to_brace(x.skip(1), rest);
    }
}

proof fn lemma_false_up_to_brace(x: Seq<char>, rest: Seq<char>)
    requires
        x.len() > 0,
        x.last() == '}',
    ensures
        false_follows(x + rest) == false_follows(x),
{
    let at = scan::skip_json_space(x);
    lemma_skip_space_up_to_brace(x, rest);
    assert((at + rest)[0] == at[0]);
    if at[0] == ':' {
        assert(at.len() > 1);
        assert((at + rest).skip(1) =~= at.skip(1) + rest);
        assert(at.skip(1).last() == at.last());
        lemma_skip_space_up_to_brace(at.skip(1), rest);
        let value = scan::skip_json_space(at.skip(1));
        reveal_strlit("false");
        let none = Seq::<char>::empty();
        assert(none + (value + rest) =~= value + rest);
        lemma_pattern_in_object(none, value, rest, "false"@, 0);
    }
}

/// The level of a position of the whole text, by that in the object.
proof fn lemma_level_in_object(pre: Seq<char>, obj: Seq<char>, rest: Seq<char>, q: int)
    requires
        nesting::lex_of(pre) == Lex::Plain,
        nesting::depth_of(pre) == 0,
        pre.len() <= q <= pre.len() + obj.len(),
    ensures
        nesting::level(pre + (obj + rest), q) == nesting::level(obj, q - pre.len()),
        nesting::plain_at(pre + (obj + rest), q) == nesting::plain_at(obj, q - pre.len()),
{
    nesting::lemma_level_behind(pre, obj + rest, q - pre.len());
    nesting::lemma_level_before(obj, rest, q - pre.len());
}

proof fn lemma_patterns_have_no_brace()
    ensures
        !version_marker().contains('}'),
        version_marker().len() == 12,
        version_marker()[0] == '"',
        !lts_key().contains('}'),
        lts_key().len() == 5,
{
    reveal_strlit("\"version\":\"v");
    reveal_strlit("\"lts\"");
}

proof fn lemma_same_object_in_object(
    pre: Seq<char>,
    obj: Seq<char>,
    rest: Seq<char>,
    v: int,
    q: int,
)
    requires
        nesting::lex_of(pre) == Lex::Plain,
        nesting::depth_of(pre) == 0,
        is_entry_object(obj, v),
    ensures
        same_object(pre + (obj + rest), pre.len() + v, q) == same_object(obj, v, q - pre.len()),
{
    let s = pre + (obj + rest);
    let p = pre.len() as int;
    let end = p + obj.len();
    lemma_level_in_object(pre, obj, rest, p + v);
    lemma_level_in_object(pre, obj, rest, p);
    lemma_level_in_object(pre, obj, rest, end);
    assert(obj.take(obj.len() as int) =~= obj);
    assert(obj.take(0) =~= Seq::<char>::empty());
    if same_object(s, p + v, q) {
        if q < p {
            assert(nesting::level(s, p) >= nesting::level(s, p + v));
        }
        if q >= end {
            assert(nesting::level(s, end) >= nesting::level(s, p + v));
        }
        lemma_level_in_object(pre, obj, rest, q);
        assert forall|k: int| (v <= k <= q - p || q - p <= k <= v) implies #[trigger] nesting::level(
            obj,
            k,
        ) >= nesting::level(obj, v) by {
            lemma_level_in_object(pre, obj, rest, p + k);
            assert(nesting::level(s, p + k) >= nesting::level(s, p + v));
        }
    }
    if same_object(obj, v, q - p) {
        lemma_level_in_object(pre, obj, rest, q);
        assert forall|k: int| (p + v <= k <= q || q <= k <= p + v) implies #[trigger] nesting::level(
            s,
            k,
        ) >= nesting::level(s, p + v) by {
            lemma_level_in_object(pre, obj, rest, k);
            assert(nesting::level(obj, k - p) >= nesting::level(obj, v));
        }
    }
}

/// An entry has but one version at the level of its own fields.
proof fn lemma_one_version_in_object(
    pre: Seq<char>,
    obj: Seq<char>,
    rest: Seq<char>,
    v: int,
    q: int,
)
    requires
        nesting::lex_of(pre) == Lex::Plain,
        nesting::depth_of(pre) == 0,
        is_entry_object(obj, v),
        pre.len() <= q < pre.len() + obj.len(),
        q != pre.len() + v,
        version_at(pre + (obj + rest), q),
    ensures
        version_at(obj, q - pre.len()),
        nesting::level(pre + (obj + rest), q) > 1,
{
    lemma_patterns_have_no_brace();
    lemma_level_in_object(pre, obj, rest, q);
    lemma_pattern_in_object(pre, obj, rest, version_marker(), q - pre.len());
    assert(version_at(obj, q - pre.len()));
}

proof fn lemma_own_field_in_object(
    pre: Seq<char>,
    obj: Seq<char>,
    rest: Seq<char>,
    v: int,
    q: int,
)
    requires
        nesting::lex_of(pre) == Lex::Plain,
        nesting::depth_of(pre) == 0,
        is_entry_object(obj, v),
    ensures
        own_field_at(pre + (obj + rest), pre.len() + v, q) == own_field_at(obj, v, q - pre.len()),
{
    let s = pre + (obj + rest);
    let p = pre.len() as int;
    lemma_same_object_in_object(pre, obj, rest, v, q);
    lemma_level_in_object(pre, obj, rest, p + v);
    if same_object(obj, v, q - p) && q != p + v {
        assert forall|k: int| p <= k < p + obj.len() && k != p + v && #[trigger] version_at(
            s,
            k,
        ) implies nesting::level(s, k) != nesting::level(s, p + v) by {
            lemma_one_version_in_object(pre, obj, rest, v, k);
        }
        assert(first_of_object(obj, v)) by {
            assert forall|k: int| #[trigger] version_at(obj, k) && k < v implies !same_object(
                obj,
                v,
                k,
            ) by {}
        }
        assert(first_of_object(s, p + v)) by {
            assert forall|k: int| #[trigger] version_at(s, k) && k < p + v implies !same_object(
                s,
                p + v,
                k,
            ) by {
                lemma_same_object_in_object(pre, obj, rest, v, k);
            }
        }
    }
}

/// What an entry says of `lts` does not depend on what stands round it.
proof fn lemma_lts_in_object(pre: Seq<char>, obj: Seq<char>, rest: Seq<char>, v: int)
    requires
        nesting::lex_of(pre) == Lex::Plain,
        nesting::depth_of(pre) == 0,
        is_entry_object(obj, v),
    ensures
        lts_is_false(pre + (obj + rest), pre.len() + v) == lts_is_false(obj, v),
{
    let s = pre + (obj + rest);
    let p = pre.len() as int;
    if lts_is_false(obj, v) {
        let at = choose|at: int| #[trigger] own_field_at(obj, v, at) && false_lts_at(obj, at);
        lemma_own_field_in_object(pre, obj, rest, v, p + at);
        lemma_false_lts_in_object(pre, obj, rest, at);
        assert(own_field_at(s, p + v, p + at) && false_lts_at(s, p + at));
    }
    if lts_is_false(s, p + v) {
        let q = choose|q: int| #[trigger] own_field_at(s, p + v, q) && false_lts_at(s, q);
        lemma_own_field_in_object(pre, obj, rest, v, q);
        lemma_false_lts_in_object(pre, obj, rest, q - p);
        assert(own_field_at(obj, v, q - p) && false_lts_at(obj, q - p));
    }
}

proof fn lemma_false_lts_in_object(pre: Seq<char>, obj: Seq<char>, rest: Seq<char>, at: int)
    requires
        nesting::lex_of(pre) == Lex::Plain,
        nesting::depth_of(pre) == 0,
        0 <= at < obj.len(),
        obj.last() == '}',
    ensures
        false_lts_at(pre + (obj + rest), pre.len() + at) == false_lts_at(obj, at),
{
    let s = pre + (obj + rest);
    let p = pre.len() as int;
    lemma_patterns_have_no_brace();
    lemma_level_in_object(pre, obj, rest, p + at);
    lemma_pattern_in_object(pre, obj, rest, lts_key(), at);
    if text::occurs_at(obj, lts_key(), at) {
        let x = obj.skip(at + 5);
        assert(s.skip(p + at + 5) =~= x + rest);
        lemma_false_up_to_brace(x, rest);
    }
}

/// In an entry, its own version is the only one that can be preferred.
proof fn lemma_preferred_in_object(
    pre: Seq<char>,
    obj: Seq<char>,
    rest: Seq<char>,
    v: int,
    k: int,
)
    requires
        nesting::lex_of(pre) == Lex::Plain,
        nesting::depth_of(pre) == 0,
        is_entry_object(obj, v),
        0 <= k < obj.len(),
    ensures
        preferred_at(pre + (obj + rest), pre.len() + k) <==> k == v && !lts_is_false(obj, v),
{
    let s = pre + (obj + rest);
    let p = pre.len() as int;
    lemma_patterns_have_no_brace();
    lemma_pattern_in_object(pre, obj, rest, version_marker(), v);
    lemma_level_in_object(pre, obj, rest, p + v);
    assert(version_at(s, p + v));
    if k == v {
        lemma_lts_in_object(pre, obj, rest, v);
        assert forall|j: int| !#[trigger] encloses(s, j, p + v) by {}
    } else if version_at(s, p + k) {
        lemma_one_version_in_object(pre, obj, rest, v, p + k);
        assert(obj.take(0) =~= Seq::<char>::empty());
        lemma_level_in_object(pre, obj, rest, p + k);
        assert forall|q: int|
            (p + v <= q <= p + k || p + k <= q <= p + v) implies #[trigger] nesting::level(s, q)
            >= nesting::level(s, p + v) by {
            lemma_level_in_object(pre, obj, rest, q);
            assert(nesting::level(obj, q - p) >= 1);
        }
        assert(encloses(s, p + v, p + k));
    }
}

/// What the scan finds an entry to say of `lts` is what its field says.
proof fn lemma_lts_by_its_value(entry: IndexEntry)
    requires
        is_entry(entry),
    ensures
        lts_is_false(entry_object(entry), version_place(entry)) == says_false(entry.lts),
{
    let obj = entry_object(entry);
    let v = version_place(entry);
    reveal_strlit("\"lts\"");
    assert forall|at: int| own_field_at(obj, v, at) && false_lts_at(obj, at) implies lts_stands_at(
        obj,
        at,
    ) by {}
    if let Some(lts) = entry.lts {
        let rest = obj.skip(lts.at + 5);
        lemma_false_by_its_letters(lts.gap, lts.lead, lts.value);
        assert(false_follows(rest) == says_false(entry.lts));
        assert(lts.at != v) by {
            reveal_strlit("\"version\":\"v");
            assert(obj.subrange(v, v + 12)[1] == "\"version\":\"v"@[1]);
            assert(obj.subrange(lts.at, lts.at + 5)[1] == "\"lts\""@[1]);
        }
        assert(obj.take(0) =~= Seq::<char>::empty());
        assert(lts.at > 0);
        lemma_field_of_object(obj, v, lts.at);
        if says_false(entry.lts) {
            assert(own_field_at(obj, v, lts.at) && false_lts_at(obj, lts.at));
        }
    }
}

/// A field of an entry that is not in an object within it is the entry's own.
proof fn lemma_field_of_object(obj: Seq<char>, v: int, at: int)
    requires
        is_entry_object(obj, v),
        0 < at < obj.len(),
        at != v,
        nesting::level(obj, at) == 1,
    ensures
        own_field_at(obj, v, at),
{
    assert forall|k: int| (v <= k <= at || at <= k <= v) implies #[trigger] nesting::level(obj, k)
        >= nesting::level(obj, v) by {}
    assert(same_object(obj, v, at));
    assert(first_of_object(obj, v)) by {
        assert forall|k: int| #[trigger] version_at(obj, k) && k < v implies !same_object(
            obj,
            v,
            k,
        ) by {
            assert(text::occurs_at(obj, "\"version\":\"v"@, k));
        }
    }
    assert forall|k: int| v < k < at && #[trigger] version_at(obj, k) implies nesting::level(obj, k)
        != nesting::level(obj, v) by {
        assert(text::occurs_at(obj, "\"version\":\"v"@, k));
    }
}

/// The version that the scan finds behind entries that are passed over.
proof fn lemma_first_lts_behind(pre: Seq<char>, entries: Seq<IndexEntry>)
    requires
        nesting::lex_of(pre) == Lex::Plain,
        nesting::depth_of(pre) == 0,
        forall|i: int| 0 <= i < entries.len() ==> is_whole_entry(#[trigger] entries[i]),
    ensures
        match preferred_from(pre + index_text(entries), pre.len() as int) {
            Some(i) => version_number(pre + index_text(entries), i) == first_passing(entries)
                && first_passing(entries) is Some,
            None => first_passing(entries) is None,
        },
    decreases entries.len(),
{
    let s = pre + index_text(entries);
    let p = pre.len() as int;
    if entries.len() == 0 {
        assert(s =~= pre);
    } else {
        let entry = entries[0];
        let obj = entry_object(entry);
        let v = version_place(entry);
        let others = entries.skip(1);
        let rest = entry.gap + index_text(others);
        assert(is_whole_entry(entry));
        assert(s == pre + (obj + rest));
        if !lts_is_false(obj, v) {
            assert forall|q: int| p <= q < p + v implies !#[trigger] preferred_at(s, q) by {
                lemma_preferred_in_object(pre, obj, rest, v, q - p);
            }
            lemma_preferred_in_object(pre, obj, rest, v, v);
            lemma_preferred_skips(s, p, p + v);
            lemma_patterns_have_no_brace();
            assert(s.skip(p + v + 12) =~= entry.version + seq!['"'] + (entry.body + seq!['}']
                + rest));
            scan::lemma_find_char(entry.version, '"', entry.body + seq!['}'] + rest);
            assert(s.skip(p + v + 12).take(entry.version.len() as int) =~= entry.version);
        } else {
            let next = pre + obj + entry.gap;
            let to = next.len() as int;
            assert(s =~= next + index_text(others));
            assert forall|q: int| p <= q < to implies !#[trigger] preferred_at(s, q) by {
                if q < p + obj.len() {
                    lemma_preferred_in_object(pre, obj, rest, v, q - p);
                } else {
                    lemma_patterns_have_no_brace();
                    assert(s[q] == entry.gap[q - p - obj.len()]);
                    if version_at(s, q) {
                        assert(s.subrange(q, q + 12)[0] == version_marker()[0]);
                    }
                }
            }
            lemma_preferred_skips(s, p, to);
            nesting::lemma_nesting_of_concat(pre, obj);
            lemma_gap_nests_nothing(entry.gap);
            nesting::lemma_nesting_of_concat(pre + obj, entry.gap);
            assert forall|i: int| 0 <= i < others.len() implies is_whole_entry(#[trigger] others[i]) by {
                assert(is_whole_entry(entries[i + 1]));
            }
            lemma_first_lts_behind(next, others);
        }
    }
}

/// Of an index that lists entries, the scan gives the version of the first entry that
/// it does not pass over when it stands alone: entries do not bear on each other.
pub proof fn lemma_first_lts_of_objects(head: Seq<char>, entries: Seq<IndexEntry>)
    requires
        is_gap(head),
        forall|i: int| 0 <= i < entries.len() ==> is_whole_entry(#[trigger] entries[i]),
    ensures
        first_lts(head + index_text(entries)) == first_passing(entries),
{
    let s = head + index_text(entries);
    lemma_gap_nests_nothing(head);
    assert forall|q: int| 0 <= q < head.len() implies !#[trigger] preferred_at(s, q) by {
        lemma_patterns_have_no_brace();
        assert(s[q] == head[q]);
        if version_at(s, q) {
            assert(s.subrange(q, q + 12)[0] == version_marker()[0]);
        }
    }
    lemma_preferred_skips(s, 0, head.len() as int);
    lemma_first_lts_behind(head, entries);
}

proof fn lemma_passing_by_value(entries: Seq<IndexEntry>)
    requires
        forall|i: int| 0 <= i < entries.len() ==> is_entry(#[trigger] entries[i]),
    ensures
        first_passing(entries) == first_not_false(entries),
    decreases entries.len(),
{
    if entries.len() > 0 {
        let others = entries.skip(1);
        assert(is_entry(entries[0]));
        lemma_lts_by_its_value(entries[0]);
        assert forall|i: int| 0 <= i < others.len() implies is_entry(#[trigger] others[i]) by {
            assert(is_entry(entries[i + 1]));
        }
        lemma_passing_by_value(others);
    }
}

/// Of an index that lists entries, the scan gives the version of the first entry
/// that has no `lts` of its own or one whose value does not start with `false`: a
/// string is never passed over, whatever it is. There is none where every entry says
/// `false`. What objects within an entry say does not matter.
pub proof fn lemma_first_lts_of_entries(head: Seq<char>, entries: Seq<IndexEntry>)
    requires
        is_gap(head),
        forall|i: int| 0 <= i < entries.len() ==> is_entry(#[trigger] entries[i]),
    ensures
        first_lts(head + index_text(entries)) == first_not_false(entries),
{
    assert forall|i: int| 0 <= i < entries.len() implies is_whole_entry(#[trigger] entries[i]) by {
        assert(is_entry(entries[i]));
    }
    lemma_first_lts_of_objects(head, entries);
    lemma_passing_by_value(entries);
}

/// What the scan looks for, and that it gives what stands behind the marker of the
/// version that it prefers, up to the next double quote.
pub proof fn lemma_version_behind_its_marker(
    before: Seq<char>,
    version: Seq<char>,
    rest: Seq<char>,
)
    requires
        !version.contains('"'),
    ensures
        version_marker() == "\"version\":\"v"@,
        lts_key() == "\"lts\""@,
        version_number(
            before + "\"version\":\"v"@ + (version + seq!['"'] + rest),
            before.len() as int,
        ) == Some(version),
{
    let marker = "\"version\":\"v"@;
    let after = version + seq!['"'] + rest;
    let s = before + marker + after;
    assert(s.skip(before.len() as int + marker.len()) =~= after);
    scan::lemma_find_char(version, '"', rest);
    assert(after.take(version.len() as int) =~= version);
}

/// A value is `false` by the letters that follow the colon.
pub proof fn lemma_false_by_its_letters(gap: Seq<char>, lead: Seq<char>, value: Seq<char>)
    requires
        scan::json_blank(gap),
        scan::json_blank(lead),
        value.len() > 0,
        !scan::is_json_space(value[0]),
    ensures
        false_follows(gap + (seq![':'] + (lead + value))) <==> (value.len() >= 5 && value[0] == 'f'
            && value[1] == 'a' && value[2] == 'l' && value[3] == 's' && value[4] == 'e'),
        value[0] != ':' ==> !false_follows(gap + value),
{
    scan::lemma_colon_after_white_space(gap, lead, value);
    text::lemma_occurs_by_characters(value, "false"@, 0);
    reveal_strlit("false");
    if text::occurs_at(value, "false"@, 0) {
        assert("false"@[0] == value[0]);
        assert("false"@[1] == value[1]);
        assert("false"@[2] == value[2]);
        assert("false"@[3] == value[3]);
        assert("false"@[4] == value[4]);
    }
}

} // verus!

//! Versions of npm packages, and which of two is newer.
use vstd::prelude::*;
use vstd::string::*;

use crate::text;

verus! {

/// How one thing stands to another in an order.
#[derive(Debug, Clone, Copy, PartialEq, Eq, Structural)]
pub enum Rank {
    /// It comes before the other.
    Older,
    /// Neither comes before the other.
    Same,
    /// It comes after the other.
    Newer,
}

/// How the other thing stands to the first.
pub open spec fn flipped(rank: Rank) -> Rank {
    match rank {
        Rank::Older => Rank::Newer,
        Rank::Same => Rank::Same,
        Rank::Newer => Rank::Older,
    }
}

/// The pieces of a text between its full stops.
pub open spec fn dotted(s: Seq<char>) -> Seq<Seq<char>>
    decreases s.len(),
{
    if s.len() == 0 {
        seq![Seq::empty()]
    } else {
        let parts = dotted(s.drop_last());
        if s.last() == '.' {
            parts.push(Seq::empty())
        } else {
            parts.drop_last().push(parts.last().push(s.last()))
        }
    }
}

/// One or more decimal digits.
pub open spec fn is_number(s: Seq<char>) -> bool {
    s.len() > 0 && text::all_digits(s)
}

/// A letter, a digit or a hyphen.
pub open spec fn is_identifier_char(c: char) -> bool {
    let u = c as u32;
    text::is_digit(c) || 0x41 <= u <= 0x5A || 0x61 <= u <= 0x7A || c == '-'
}

/// One or more letters, digits and hyphens.
pub open spec fn is_identifier(s: Seq<char>) -> bool {
    s.len() > 0 && forall|i: int| 0 <= i < s.len() ==> is_identifier_char(#[trigger] s[i])
}

/// A version: its numbers, and the identifiers of a pre-release, if it is one.
#[verifier::ext_equal]
pub struct VersionView {
    pub numbers: Seq<Seq<char>>,
    pub pre: Option<Seq<Seq<char>>>,
}

/// The numbers are numbers and the identifiers are identifiers.
pub open spec fn is_version(v: VersionView) -> bool {
    &&& forall|i: int| 0 <= i < v.numbers.len() ==> is_number(#[trigger] v.numbers[i])
    &&& v.pre matches Some(ids) ==> forall|i: int|
        0 <= i < ids.len() ==> is_identifier(#[trigger] ids[i])
}

/// A text taken apart: numbers between full stops, then, after a hyphen, the
/// identifiers of a pre-release between full stops. What follows a plus sign only
/// names the build and is left out.
pub open spec fn taken_apart(s: Seq<char>) -> VersionView {
    let named = text::up_to(s, seq!['+']);
    VersionView {
        numbers: dotted(text::up_to(named, seq!['-'])),
        pre: match text::after_first(named, seq!['-']) {
            Some(ids) => Some(dotted(ids)),
            None => None,
        },
    }
}

/// The version that a text stands for, if it stands for one.
pub open spec fn version_of(s: Seq<char>) -> Option<VersionView> {
    if is_version(taken_apart(s)) {
        Some(taken_apart(s))
    } else {
        None
    }
}

/// How one number stands to another.
pub open spec fn number_rank(a: int, b: int) -> Rank {
    if a < b {
        Rank::Older
    } else if a > b {
        Rank::Newer
    } else {
        Rank::Same
    }
}

/// The number at a position; one that is not there counts as zero.
pub open spec fn number_at(numbers: Seq<Seq<char>>, i: int) -> int {
    if 0 <= i < numbers.len() {
        text::digits_value(numbers[i])
    } else {
        0
    }
}

/// The order of numbers, from the `i`th on: the first that differ decide.
pub open spec fn numbers_rank(a: Seq<Seq<char>>, b: Seq<Seq<char>>, i: int) -> Rank
    decreases a.len() + b.len() - i,
{
    if i >= a.len() && i >= b.len() {
        Rank::Same
    } else if number_at(a, i) != number_at(b, i) {
        number_rank(number_at(a, i), number_at(b, i))
    } else {
        numbers_rank(a, b, i + 1)
    }
}

/// The order of texts, from the `i`th character on: the first characters that
/// differ decide, and a text comes after its own start.
pub open spec fn text_rank(a: Seq<char>, b: Seq<char>, i: int) -> Rank
    decreases a.len() - i,
{
    if i >= a.len() || i >= b.len() {
        number_rank(a.len() as int, b.len() as int)
    } else if a[i] != b[i] {
        number_rank(a[i] as int, b[i] as int)
    } else {
        text_rank(a, b, i + 1)
    }
}

/// The order of identifiers: numbers by their value and before all others, which
/// are in the order of texts.
pub open spec fn identifier_rank(a: Seq<char>, b: Seq<char>) -> Rank {
    if is_number(a) && is_number(b) {
        number_rank(text::digits_value(a), text::digits_value(b))
    } else if is_number(a) {
        Rank::Older
    } else if is_number(b) {
        Rank::Newer
    } else {
        text_rank(a, b, 0)
    }
}

/// The order of lists of identifiers, from the `i`th on: the first that differ
/// decide, and a list comes after its own start.
pub open spec fn identifiers_rank(a: Seq<Seq<char>>, b: Seq<Seq<char>>, i: int) -> Rank
    decreases a.len() - i,
{
    if i >= a.len() || i >= b.len() {
        number_rank(a.len() as int, b.len() as int)
    } else if identifier_rank(a[i], b[i]) != Rank::Same {
        identifier_rank(a[i], b[i])
    } else {
        identifiers_rank(a, b, i + 1)
    }
}

/// The order of pre-releases, which come before the release itself.
pub open spec fn pre_rank(a: Option<Seq<Seq<char>>>, b: Option<Seq<Seq<char>>>) -> Rank {
    match (a, b) {
        (Some(p), Some(q)) => identifiers_rank(p, q, 0),
        (Some(_), None) => Rank::Older,
        (None, Some(_)) => Rank::Newer,
        (None, None) => Rank::Same,
    }
}

/// The order of versions: by their numbers, then by their pre-releases.
pub open spec fn version_rank(a: VersionView, b: VersionView) -> Rank {
    if numbers_rank(a.numbers, b.numbers, 0) != Rank::Same {
        numbers_rank(a.numbers, b.numbers, 0)
    } else {
        pre_rank(a.pre, b.pre)
    }
}

/// The latest version is newer than the installed one. Their dotted numbers decide,
/// by value; where these are the same, a release is newer than its pre-releases.
/// Where one of the two texts is no version, they cannot be put in order, and every
/// text other than the installed one counts as newer.
pub open spec fn newer_version(latest: Seq<char>, installed: Seq<char>) -> bool {
    match (version_of(latest), version_of(installed)) {
        (Some(a), Some(b)) => version_rank(a, b) == Rank::Newer,
        _ => latest != installed,
    }
}

fn rank_of_lengths(a: usize, b: usize) -> (r: Rank)
    ensures
        r == number_rank(a as int, b as int),
{
    if a < b {
        Rank::Older
    } else if a > b {
        Rank::Newer
    } else {
        Rank::Same
    }
}

fn rank_of_chars(a: char, b: char) -> (r: Rank)
    ensures
        r == number_rank(a as int, b as int),
{
    let x: u32 = a as u32;
    let y: u32 = b as u32;
    if x < y {
        Rank::Older
    } else if x > y {
        Rank::Newer
    } else {
        Rank::Same
    }
}

proof fn lemma_char_code(c: char)
    ensures
        c as u32 == c as int,
{
}

proof fn lemma_digits_split(s: Seq<char>)
    requires
        text::all_digits(s),
        s.len() > 0,
    ensures
        text::all_digits(s.drop_last()),
        0 <= s.last() as u32 - 0x30 <= 9,
        text::digits_value(s.drop_last()) >= 0,
    decreases s.len(),
{
    assert(text::is_digit(s[s.len() - 1]));
    assert forall|i: int| 0 <= i < s.len() - 1 implies text::is_digit(
        #[trigger] s.drop_last()[i],
    ) by {
        assert(text::is_digit(s[i]));
    }
    if s.len() > 1 {
        lemma_digits_split(s.drop_last());
    }
}

/// A zero before a number does not change its value.
proof fn lemma_leading_zero(s: Seq<char>)
    requires
        s.len() > 0,
        s[0] == '0',
    ensures
        text::digits_value(s.skip(1)) == text::digits_value(s),
    decreases s.len(),
{
    if s.len() == 1 {
        assert(s.skip(1) =~= Seq::<char>::empty());
        assert(s.drop_last() =~= Seq::<char>::empty());
        assert(text::digits_value(Seq::<char>::empty()) == 0);
    } else {
        assert(s.skip(1).drop_last() =~= s.drop_last().skip(1));
        lemma_leading_zero(s.drop_last());
    }
}

/// Of two numbers without leading zeros, the longer one is greater.
proof fn lemma_longer_is_greater(a: Seq<char>, b: Seq<char>)
    requires
        text::all_digits(a),
        text::all_digits(b),
        a.len() > b.len(),
        a[0] != '0',
    ensures
        text::digits_value(a) > text::digits_value(b),
    decreases a.len(),
{
    lemma_digits_split(a);
    if a.len() == 1 {
        lemma_char_code(a[0]);
        assert(text::is_digit(a[0]));
        assert(b =~= Seq::<char>::empty());
        assert(a.drop_last() =~= Seq::<char>::empty());
        assert(text::digits_value(Seq::<char>::empty()) == 0);
    } else if b.len() == 0 {
        lemma_longer_is_greater(a.drop_last(), b);
    } else {
        lemma_digits_split(b);
        lemma_longer_is_greater(a.drop_last(), b.drop_last());
    }
}

/// Of two numbers of the same length, the first digits that differ decide.
proof fn lemma_first_difference_decides(a: Seq<char>, b: Seq<char>, k: int)
    requires
        text::all_digits(a),
        text::all_digits(b),
        a.len() == b.len(),
        0 <= k < a.len(),
        a.take(k) == b.take(k),
        (a[k] as u32) < (b[k] as u32),
    ensures
        text::digits_value(a) < text::digits_value(b),
    decreases a.len(),
{
    lemma_digits_split(a);
    lemma_digits_split(b);
    if k == a.len() - 1 {
        assert(a.drop_last() =~= a.take(k));
        assert(b.drop_last() =~= b.take(k));
    } else {
        assert(a.drop_last().take(k) =~= a.take(k));
        assert(b.drop_last().take(k) =~= b.take(k));
        lemma_first_difference_decides(a.drop_last(), b.drop_last(), k);
    }
}

/// The position of the first digit that is no zero.
fn after_zeros(s: &Vec<char>) -> (r: usize)
    requires
        text::all_digits(s@),
    ensures
        r <= s@.len(),
        text::all_digits(s@.skip(r as int)),
        text::digits_value(s@.skip(r as int)) == text::digits_value(s@),
        r < s@.len() ==> s@[r as int] != '0',
{
    let mut i: usize = 0;
    assert(s@.skip(0) =~= s@);
    while i < s.len() && s[i] == '0'
        invariant
            i <= s@.len(),
            text::digits_value(s@.skip(i as int)) == text::digits_value(s@),
        decreases s@.len() - i,
    {
        proof {
            lemma_leading_zero(s@.skip(i as int));
        }
        assert(s@.skip(i as int).skip(1) =~= s@.skip(i + 1));
        i += 1;
    }
    assert forall|j: int| 0 <= j < s@.len() - i implies text::is_digit(
        #[trigger] s@.skip(i as int)[j],
    ) by {
        assert(text::is_digit(s@[i + j]));
    }
    i
}

/// How the values of decimal digits stand to each other, however many there are.
fn rank_of_digits(a: &str, b: &str) -> (r: Rank)
    requires
        text::all_digits(a@),
        text::all_digits(b@),
    ensures
        r == number_rank(text::digits_value(a@), text::digits_value(b@)),
{
    let x: Vec<char> = text::chars_of(a);
    let y: Vec<char> = text::chars_of(b);
    let i: usize = after_zeros(&x);
    let j: usize = after_zeros(&y);
    let ghost p = x@.skip(i as int);
    let ghost q = y@.skip(j as int);
    let x_len: usize = x.len();
    let y_len: usize = y.len();
    let n: usize = x_len - i;
    let m: usize = y_len - j;
    if n > m {
        proof {
            lemma_longer_is_greater(p, q);
        }
        return Rank::Newer;
    }
    if n < m {
        proof {
            lemma_longer_is_greater(q, p);
        }
        return Rank::Older;
    }
    let mut k: usize = 0;
    while k < n
        invariant
            k <= n,
            n == m,
            n == x_len - i,
            m == y_len - j,
            i <= x_len == x@.len(),
            j <= y_len == y@.len(),
            p == x@.skip(i as int),
            q == y@.skip(j as int),
            text::all_digits(p),
            text::all_digits(q),
            text::digits_value(p) == text::digits_value(a@),
            text::digits_value(q) == text::digits_value(b@),
            p.take(k as int) =~= q.take(k as int),
        decreases n - k,
    {
        let c: char = x[i + k];
        let d: char = y[j + k];
        assert(p[k as int] == c && q[k as int] == d);
        if c != d {
            let r = rank_of_chars(c, d);
            proof {
                lemma_char_code(c);
                lemma_char_code(d);
                if (c as u32) < (d as u32) {
                    lemma_first_difference_decides(p, q, k as int);
                } else {
                    lemma_first_difference_decides(q, p, k as int);
                }
            }
            return r;
        }
        assert(p.take(k + 1) =~= p.take(k as int).push(c));
        assert(q.take(k + 1) =~= q.take(k as int).push(d));
        k += 1;
    }
    assert(p.take(n as int) =~= p);
    assert(q.take(n as int) =~= q);
    Rank::Same
}

/// The pieces of a text between its full stops.
fn split_dots(s: &str) -> (r: Vec<String>)
    ensures
        r.deep_view() == dotted(s@),
{
    let chars: Vec<char> = text::chars_of(s);
    let n: usize = chars.len();
    let mut out: Vec<String> = Vec::new();
    let mut start: usize = 0;
    let mut i: usize = 0;
    assert(s@.take(0) =~= Seq::<char>::empty());
    assert(dotted(s@.take(0)).drop_last() =~= out.deep_view());
    assert(s@.subrange(0, 0) =~= Seq::<char>::empty());
    while i < n
        invariant
            start <= i <= n,
            n == s@.len(),
            chars@ == s@,
            dotted(s@.take(i as int)).len() > 0,
            out.deep_view() == dotted(s@.take(i as int)).drop_last(),
            s@.subrange(start as int, i as int) == dotted(s@.take(i as int)).last(),
        decreases n - i,
    {
        let ghost parts = dotted(s@.take(i as int));
        let ghost before = out.deep_view();
        assert(s@.take(i + 1).drop_last() =~= s@.take(i as int));
        if chars[i] == '.' {
            let piece = s.substring_char(start, i).to_owned();
            out.push(piece);
            assert(out.deep_view() =~= before.push(piece@));
            assert(parts.push(Seq::empty()).drop_last() =~= before.push(piece@));
            start = i + 1;
            assert(s@.subrange(start as int, i + 1) =~= Seq::<char>::empty());
        } else {
            assert(s@.subrange(start as int, i + 1) =~= s@.subrange(start as int, i as int).push(
                s@[i as int],
            ));
            assert(parts.drop_last().push(parts.last().push(s@[i as int])).drop_last()
                =~= parts.drop_last());
        }
        i += 1;
    }
    assert(s@.take(n as int) =~= s@);
    let ghost before = out.deep_view();
    let piece = s.substring_char(start, n).to_owned();
    out.push(piece);
    assert(out.deep_view() =~= before.push(piece@));
    assert(dotted(s@) =~= before.push(piece@));
    out
}

fn number(s: &str) -> (r: bool)
    ensures
        r == is_number(s@),
{
    let chars: Vec<char> = text::chars_of(s);
    let mut i: usize = 0;
    while i < chars.len()
        invariant
            i <= chars@.len(),
            chars@ == s@,
            forall|j: int| 0 <= j < i ==> text::is_digit(#[trigger] s@[j]),
        decreases chars@.len() - i,
    {
        let u: u32 = chars[i] as u32;
        if u < 0x30 || u > 0x39 {
            assert(!text::is_digit(s@[i as int]));
            return false;
        }
        i += 1;
    }
    chars.len() > 0
}

fn identifier(s: &str) -> (r: bool)
    ensures
        r == is_identifier(s@),
{
    let chars: Vec<char> = text::chars_of(s);
    let mut i: usize = 0;
    while i < chars.len()
        invariant
            i <= chars@.len(),
            chars@ == s@,
            forall|j: int| 0 <= j < i ==> is_identifier_char(#[trigger] s@[j]),
        decreases chars@.len() - i,
    {
        let u: u32 = chars[i] as u32;
        let known = (0x30 <= u && u <= 0x39) || (0x41 <= u && u <= 0x5A) || (0x61 <= u && u
            <= 0x7A) || chars[i] == '-';
        if !known {
            assert(!is_identifier_char(s@[i as int]));
            return false;
        }
        i += 1;
    }
    chars.len() > 0
}

/// A version taken apart.
struct Version {
    numbers: Vec<String>,
    pre: Option<Vec<String>>,
}

spec fn view_of(v: Version) -> VersionView {
    VersionView { numbers: v.numbers.deep_view(), pre: v.pre.deep_view() }
}

fn all_numbers(parts: &Vec<String>) -> (r: bool)
    ensures
        r == forall|i: int| 0 <= i < parts.deep_view().len() ==> is_number(#[trigger] parts.deep_view()[i]),
{
    let ghost all = parts.deep_view();
    let mut i: usize = 0;
    while i < parts.len()
        invariant
            i <= parts@.len(),
            all == parts.deep_view(),
            forall|j: int| 0 <= j < i ==> is_number(#[trigger] all[j]),
        decreases parts@.len() - i,
    {
        assert(all[i as int] == parts@[i as int]@);
        if !number(parts[i].as_str()) {
            return false;
        }
        i += 1;
    }
    true
}

fn all_identifiers(parts: &Vec<String>) -> (r: bool)
    ensures
        r == forall|i: int|
            0 <= i < parts.deep_view().len() ==> is_identifier(#[trigger] parts.deep_view()[i]),
{
    let ghost all = parts.deep_view();
    let mut i: usize = 0;
    while i < parts.len()
        invariant
            i <= parts@.len(),
            all == parts.deep_view(),
            forall|j: int| 0 <= j < i ==> is_identifier(#[trigger] all[j]),
        decreases parts@.len() - i,
    {
        assert(all[i as int] == parts@[i as int]@);
        if !identifier(parts[i].as_str()) {
            return false;
        }
        i += 1;
    }
    true
}

/// The version that a text stands for, if it stands for one.
fn read_version(s: &str) -> (r: Option<Version>)
    ensures
        match r {
            Some(v) => version_of(s@) == Some(view_of(v)),
            None => version_of(s@) is None,
        },
{
    let plus: Vec<char> = vec!['+'];
    let hyphen: Vec<char> = vec!['-'];
    let chars: Vec<char> = text::chars_of(s);
    let end: usize = match text::find_chars(chars.as_slice(), plus.as_slice()) {
        Some(at) => at,
        None => chars.len(),
    };
    proof {
        assert(plus@ =~= seq!['+']);
        assert(hyphen@ =~= seq!['-']);
        text::lemma_find_is_first(chars@, plus@);
    }
    let named = s.substring_char(0, end);
    assert(named@ =~= text::up_to(s@, seq!['+']));
    let inner: Vec<char> = text::chars_of(named);
    proof {
        text::lemma_find_is_first(inner@, hyphen@);
    }
    let (numbers, pre): (Vec<String>, Option<Vec<String>>) = match text::find_chars(
        inner.as_slice(),
        hyphen.as_slice(),
    ) {
        Some(at) => {
            let core = named.substring_char(0, at);
            let ids = named.substring_char(at + 1, inner.len());
            assert(core@ =~= text::up_to(named@, seq!['-']));
            assert(ids@ =~= named@.skip(at + 1));
            (split_dots(core), Some(split_dots(ids)))
        },
        None => (split_dots(named), None),
    };
    let v = Version { numbers, pre };
    assert(view_of(v) =~= taken_apart(s@));
    let good_pre = match &v.pre {
        Some(ids) => all_identifiers(ids),
        None => true,
    };
    if all_numbers(&v.numbers) && good_pre {
        Some(v)
    } else {
        None
    }
}

fn rank_of_numbers(a: &Vec<String>, b: &Vec<String>) -> (r: Rank)
    requires
        forall|i: int| 0 <= i < a.deep_view().len() ==> is_number(#[trigger] a.deep_view()[i]),
        forall|i: int| 0 <= i < b.deep_view().len() ==> is_number(#[trigger] b.deep_view()[i]),
    ensures
        r == numbers_rank(a.deep_view(), b.deep_view(), 0),
{
    let ghost p = a.deep_view();
    let ghost q = b.deep_view();
    let mut i: usize = 0;
    assert(text::digits_value(Seq::<char>::empty()) == 0);
    while i < a.len() || i < b.len()
        invariant
            i <= a@.len() || i <= b@.len(),
            p == a.deep_view(),
            q == b.deep_view(),
            text::digits_value(Seq::<char>::empty()) == 0,
            forall|j: int| 0 <= j < p.len() ==> is_number(#[trigger] p[j]),
            forall|j: int| 0 <= j < q.len() ==> is_number(#[trigger] q[j]),
            numbers_rank(p, q, 0) == numbers_rank(p, q, i as int),
        decreases a@.len() + b@.len() - i,
    {
        proof {
            reveal_strlit("");
            assert(""@ =~= Seq::<char>::empty());
        }
        let x: &str = if i < a.len() {
            a[i].as_str()
        } else {
            ""
        };
        let y: &str = if i < b.len() {
            b[i].as_str()
        } else {
            ""
        };
        assert(i < p.len() ==> p[i as int] == x@);
        assert(i < q.len() ==> q[i as int] == y@);
        let rank = rank_of_digits(x, y);
        if rank != Rank::Same {
            return rank;
        }
        i += 1;
    }
    Rank::Same
}

fn rank_of_texts(a: &str, b: &str) -> (r: Rank)
    ensures
        r == text_rank(a@, b@, 0),
{
    let x: Vec<char> = text::chars_of(a);
    let y: Vec<char> = text::chars_of(b);
    let mut i: usize = 0;
    while i < x.len() && i < y.len()
        invariant
            i <= x@.len(),
            i <= y@.len(),
            x@ == a@,
            y@ == b@,
            text_rank(a@, b@, 0) == text_rank(a@, b@, i as int),
        decreases x@.len() - i,
    {
        if x[i] != y[i] {
            return rank_of_chars(x[i], y[i]);
        }
        i += 1;
    }
    rank_of_lengths(x.len(), y.len())
}

fn rank_of_identifier(a: &str, b: &str) -> (r: Rank)
    ensures
        r == identifier_rank(a@, b@),
{
    let x = number(a);
    let y = number(b);
    if x && y {
        rank_of_digits(a, b)
    } else if x {
        Rank::Older
    } else if y {
        Rank::Newer
    } else {
        rank_of_texts(a, b)
    }
}

fn rank_of_identifiers(a: &Vec<String>, b: &Vec<String>) -> (r: Rank)
    ensures
        r == identifiers_rank(a.deep_view(), b.deep_view(), 0),
{
    let ghost p = a.deep_view();
    let ghost q = b.deep_view();
    let mut i: usize = 0;
    while i < a.len() && i < b.len()
        invariant
            i <= a@.len(),
            i <= b@.len(),
            p == a.deep_view(),
            q == b.deep_view(),
            identifiers_rank(p, q, 0) == identifiers_rank(p, q, i as int),
        decreases a@.len() - i,
    {
        assert(p[i as int] == a@[i as int]@ && q[i as int] == b@[i as int]@);
        let rank = rank_of_identifier(a[i].as_str(), b[i].as_str());
        if rank != Rank::Same {
            return rank;
        }
        i += 1;
    }
    rank_of_lengths(a.len(), b.len())
}

/// Whether the latest version is newer than the installed one.
pub fn is_newer(latest: &str, installed: &str) -> (r: bool)
    ensures
        r == newer_version(latest@, installed@),
{
    match (read_version(latest), read_version(installed)) {
        (Some(a), Some(b)) => {
            assert(is_version(view_of(a)) && is_version(view_of(b)));
            let numbers = rank_of_numbers(&a.numbers, &b.numbers);
            let rank = if numbers != Rank::Same {
                numbers
            } else {
                match (&a.pre, &b.pre) {
                    (Some(p), Some(q)) => rank_of_identifiers(p, q),
                    (Some(_), None) => Rank::Older,
                    (None, Some(_)) => Rank::Newer,
                    (None, None) => Rank::Same,
                }
            };
            rank == Rank::Newer
        },
        _ => !text::same_text(latest, installed),
    }
}

/// Where one thing does not come before a second, nor that before a third, the first
/// comes after the third if it comes after the second or the second after the third.
pub open spec fn chains(ab: Rank, bc: Rank, ac: Rank) -> bool {
    ab != Rank::Older && bc != Rank::Older ==> ac == if ab == Rank::Same {
        bc
    } else {
        Rank::Newer
    }
}

proof fn lemma_numbers_order(a: Seq<Seq<char>>, b: Seq<Seq<char>>, c: Seq<Seq<char>>, i: int)
    requires
        0 <= i,
    ensures
        numbers_rank(b, a, i) == flipped(numbers_rank(a, b, i)),
        chains(numbers_rank(a, b, i), numbers_rank(b, c, i), numbers_rank(a, c, i)),
    decreases a.len() + b.len() + c.len() - i,
{
    if i < a.len() || i < b.len() || i < c.len() {
        lemma_numbers_order(a, b, c, i + 1);
        assert(numbers_rank(a, b, i) == if number_at(a, i) != number_at(b, i) {
            number_rank(number_at(a, i), number_at(b, i))
        } else {
            numbers_rank(a, b, i + 1)
        });
        assert(numbers_rank(b, a, i) == if number_at(b, i) != number_at(a, i) {
            number_rank(number_at(b, i), number_at(a, i))
        } else {
            numbers_rank(b, a, i + 1)
        });
        assert(numbers_rank(b, c, i) == if number_at(b, i) != number_at(c, i) {
            number_rank(number_at(b, i), number_at(c, i))
        } else {
            numbers_rank(b, c, i + 1)
        });
        assert(numbers_rank(a, c, i) == if number_at(a, i) != number_at(c, i) {
            number_rank(number_at(a, i), number_at(c, i))
        } else {
            numbers_rank(a, c, i + 1)
        });
    }
}

proof fn lemma_text_order(a: Seq<char>, b: Seq<char>, c: Seq<char>, i: int)
    requires
        0 <= i <= a.len(),
        i <= b.len(),
        i <= c.len(),
    ensures
        text_rank(b, a, i) == flipped(text_rank(a, b, i)),
        chains(text_rank(a, b, i), text_rank(b, c, i), text_rank(a, c, i)),
    decreases a.len() + b.len() + c.len() - i,
{
    if i < a.len() && i < b.len() {
        if i < c.len() {
            lemma_text_order(a, b, c, i + 1);
        } else {
            lemma_text_flips(a, b, i);
        }
    }
}

proof fn lemma_text_flips(a: Seq<char>, b: Seq<char>, i: int)
    requires
        0 <= i <= a.len(),
        i <= b.len(),
    ensures
        text_rank(b, a, i) == flipped(text_rank(a, b, i)),
    decreases a.len() - i,
{
    if i < a.len() && i < b.len() {
        lemma_text_flips(a, b, i + 1);
    }
}

proof fn lemma_identifier_order(a: Seq<char>, b: Seq<char>, c: Seq<char>)
    ensures
        identifier_rank(b, a) == flipped(identifier_rank(a, b)),
        chains(identifier_rank(a, b), identifier_rank(b, c), identifier_rank(a, c)),
{
    lemma_text_order(a, b, c, 0);
}

proof fn lemma_identifiers_flip(a: Seq<Seq<char>>, b: Seq<Seq<char>>, i: int)
    requires
        0 <= i <= a.len(),
        i <= b.len(),
    ensures
        identifiers_rank(b, a, i) == flipped(identifiers_rank(a, b, i)),
    decreases a.len() - i,
{
    if i < a.len() && i < b.len() {
        lemma_identifier_order(a[i], b[i], b[i]);
        lemma_identifiers_flip(a, b, i + 1);
    }
}

proof fn lemma_identifiers_order(
    a: Seq<Seq<char>>,
    b: Seq<Seq<char>>,
    c: Seq<Seq<char>>,
    i: int,
)
    requires
        0 <= i <= a.len(),
        i <= b.len(),
        i <= c.len(),
    ensures
        identifiers_rank(b, a, i) == flipped(identifiers_rank(a, b, i)),
        chains(identifiers_rank(a, b, i), identifiers_rank(b, c, i), identifiers_rank(a, c, i)),
    decreases a.len() + b.len() + c.len() - i,
{
    lemma_identifiers_flip(a, b, i);
    if i < a.len() && i < b.len() && i < c.len() {
        lemma_identifier_order(a[i], b[i], c[i]);
        lemma_identifier_order(b[i], c[i], a[i]);
        lemma_identifier_order(c[i], a[i], b[i]);
        lemma_identifiers_order(a, b, c, i + 1);
    }
}

proof fn lemma_version_order(a: VersionView, b: VersionView, c: VersionView)
    ensures
        version_rank(b, a) == flipped(version_rank(a, b)),
        chains(version_rank(a, b), version_rank(b, c), version_rank(a, c)),
{
    lemma_numbers_order(a.numbers, b.numbers, c.numbers, 0);
    lemma_numbers_order(b.numbers, c.numbers, a.numbers, 0);
    lemma_numbers_order(c.numbers, a.numbers, b.numbers, 0);
    if let (Some(p), Some(q)) = (a.pre, b.pre) {
        lemma_identifiers_flip(p, q, 0);
        if let Some(r) = c.pre {
            lemma_identifiers_order(p, q, r, 0);
        }
    }
}

proof fn lemma_equal_numbers_pass(a: Seq<Seq<char>>, b: Seq<Seq<char>>, from: int, at: int)
    requires
        0 <= from <= at,
        number_at(a, at) != number_at(b, at),
        forall|j: int| 0 <= j < at ==> number_at(a, j) == number_at(b, j),
    ensures
        numbers_rank(a, b, from) == number_rank(number_at(a, at), number_at(b, at)),
    decreases at - from,
{
    if from < at {
        lemma_equal_numbers_pass(a, b, from + 1, at);
    }
}

/// Of two versions, the one with the greater number is newer, at the first place
/// where their dotted numbers differ.
pub proof fn lemma_first_number_decides(latest: Seq<char>, installed: Seq<char>, at: int)
    requires
        version_of(latest) is Some,
        version_of(installed) is Some,
        0 <= at,
        number_at(taken_apart(latest).numbers, at) != number_at(taken_apart(installed).numbers, at),
        forall|j: int|
            0 <= j < at ==> number_at(taken_apart(latest).numbers, j) == number_at(
                taken_apart(installed).numbers,
                j,
            ),
    ensures
        newer_version(latest, installed) <==> number_at(taken_apart(latest).numbers, at)
            > number_at(taken_apart(installed).numbers, at),
{
    lemma_equal_numbers_pass(
        taken_apart(latest).numbers,
        taken_apart(installed).numbers,
        0,
        at,
    );
}

/// To be newer is an order of versions: of two versions at most one is newer than the
/// other, and what is newer than a newer version is newer.
pub proof fn lemma_newer_is_an_order(a: Seq<char>, b: Seq<char>, c: Seq<char>)
    requires
        version_of(a) is Some,
        version_of(b) is Some,
        version_of(c) is Some,
    ensures
        newer_version(a, b) ==> !newer_version(b, a),
        newer_version(a, b) && newer_version(b, c) ==> newer_version(a, c),
{
    lemma_version_order(taken_apart(a), taken_apart(b), taken_apart(c));
}

/// Nothing is newer than itself.
pub proof fn lemma_not_newer_than_itself(a: Seq<char>)
    ensures
        !newer_version(a, a),
{
    if version_of(a) is Some {
        lemma_version_order(taken_apart(a), taken_apart(a), taken_apart(a));
    }
}

/// The pieces of a text lie between its full stops.
pub proof fn lemma_pieces_between_full_stops(piece: Seq<char>, rest: Seq<char>)
    requires
        !piece.contains('.'),
    ensures
        dotted(piece) == seq![piece],
        dotted(piece + seq!['.'] + rest) == seq![piece] + dotted(rest),
    decreases piece.len() + rest.len(),
{
    let all = piece + seq!['.'] + rest;
    if piece.len() > 0 {
        assert(piece.contains(piece.last()));
        assert(!piece.drop_last().contains('.')) by {
            if piece.drop_last().contains('.') {
                let i = choose|i: int| 0 <= i < piece.len() - 1 && piece.drop_last()[i] == '.';
                assert(piece[i] == '.');
            }
        }
        lemma_pieces_between_full_stops(piece.drop_last(), Seq::empty());
        assert(piece.drop_last().push(piece.last()) =~= piece);
        assert(dotted(piece) =~= seq![piece]);
    } else {
        assert(piece =~= Seq::<char>::empty());
    }
    if rest.len() == 0 {
        assert(all.drop_last() =~= piece);
        assert(rest =~= Seq::<char>::empty());
        assert(dotted(all) =~= seq![piece] + dotted(rest));
    } else {
        assert(all.drop_last() =~= piece + seq!['.'] + rest.drop_last());
        lemma_pieces_between_full_stops(piece, rest.drop_last());
        lemma_some_piece(rest.drop_last());
        assert(dotted(all) =~= seq![piece] + dotted(rest));
    }
}

proof fn lemma_some_piece(s: Seq<char>)
    ensures
        dotted(s).len() > 0,
    decreases s.len(),
{
    if s.len() > 0 {
        lemma_some_piece(s.drop_last());
    }
}

proof fn lemma_first_sign(before: Seq<char>, sign: char, after: Seq<char>)
    requires
        !before.contains(sign),
    ensures
        text::up_to(before, seq![sign]) == before,
        text::after_first(before, seq![sign]) is None,
        text::up_to(before + seq![sign] + after, seq![sign]) == before,
        text::after_first(before + seq![sign] + after, seq![sign]) == Some(after),
{
    let pat = seq![sign];
    let whole = before + pat + after;
    let at = before.len() as int;
    text::lemma_find_is_first(before, pat);
    if let Some(j) = text::find(before, pat) {
        assert(before.subrange(j, j + 1)[0] == before[j]);
        assert(before.contains(before[j]));
    }
    assert(whole.subrange(at, at + 1) =~= pat);
    assert forall|j: int| 0 <= j < at implies !text::occurs_at(whole, pat, j) by {
        assert(whole.subrange(j, j + 1)[0] == before[j]);
        assert(before.contains(before[j]));
    }
    text::lemma_find_unique(whole, pat, at);
    assert(whole.take(at) =~= before);
    assert(whole.skip(at + 1) =~= after);
}

/// A version is its numbers, then after a hyphen the identifiers of a pre-release; what
/// follows a plus sign does not count.
pub proof fn lemma_parts_of_a_version(numbers: Seq<char>, ids: Seq<char>, build: Seq<char>)
    requires
        !numbers.contains('-'),
        !numbers.contains('+'),
        !ids.contains('+'),
    ensures
        taken_apart(numbers).numbers == dotted(numbers),
        taken_apart(numbers).pre is None,
        taken_apart(numbers + seq!['-'] + ids).numbers == dotted(numbers),
        taken_apart(numbers + seq!['-'] + ids).pre == Some(dotted(ids)),
        taken_apart(numbers + seq!['+'] + build) == taken_apart(numbers),
        taken_apart(numbers + seq!['-'] + ids + seq!['+'] + build) == taken_apart(
            numbers + seq!['-'] + ids,
        ),
{
    let pre = numbers + seq!['-'] + ids;
    assert(!pre.contains('+')) by {
        if pre.contains('+') {
            let i = choose|i: int| 0 <= i < pre.len() && pre[i] == '+';
            if i < numbers.len() {
                assert(numbers[i] == '+');
            } else if i > numbers.len() {
                assert(ids[i - numbers.len() - 1] == '+');
            }
        }
    }
    lemma_first_sign(numbers, '+', build);
    lemma_first_sign(pre, '+', build);
    lemma_first_sign(numbers, '-', ids);
}

/// A text is a version exactly where its numbers are decimal digits and its identifiers
/// are letters, digits and hyphens, and none of them is empty.
pub proof fn lemma_what_is_a_version(s: Seq<char>, part: Seq<char>)
    ensures
        is_number(part) <==> part.len() > 0 && forall|i: int|
            0 <= i < part.len() ==> '0' <= #[trigger] part[i] <= '9',
        is_identifier(part) <==> part.len() > 0 && forall|i: int|
            0 <= i < part.len() ==> ('0' <= #[trigger] part[i] <= '9' || 'A' <= part[i] <= 'Z'
                || 'a' <= part[i] <= 'z' || part[i] == '-'),
        version_of(s) is Some <==> {
            &&& forall|i: int|
                0 <= i < taken_apart(s).numbers.len() ==> is_number(
                    #[trigger] taken_apart(s).numbers[i],
                )
            &&& taken_apart(s).pre matches Some(ids) ==> forall|i: int|
                0 <= i < ids.len() ==> is_identifier(#[trigger] ids[i])
        },
        version_of(s) matches Some(v) ==> v == taken_apart(s),
{
    assert forall|i: int| 0 <= i < part.len() implies (text::is_digit(#[trigger] part[i]) <==> '0'
        <= part[i] <= '9') by {
        lemma_char_code(part[i]);
    }
    assert forall|i: int| 0 <= i < part.len() implies (is_identifier_char(#[trigger] part[i]) <==> (
    '0' <= part[i] <= '9' || 'A' <= part[i] <= 'Z' || 'a' <= part[i] <= 'z' || part[i] == '-')) by {
        lemma_char_code(part[i]);
    }
    if is_number(part) {
        assert forall|i: int| 0 <= i < part.len() implies '0' <= #[trigger] part[i] <= '9' by {
            assert(text::is_digit(part[i]));
        }
    }
    if is_identifier(part) {
        assert forall|i: int| 0 <= i < part.len() implies ('0' <= #[trigger] part[i] <= '9' || 'A'
            <= part[i] <= 'Z' || 'a' <= part[i] <= 'z' || part[i] == '-') by {
            assert(is_identifier_char(part[i]));
        }
    }
}

/// A number counts by its value, and one that is not there counts as zero.
pub proof fn lemma_numbers_by_value(numbers: Seq<Seq<char>>, i: int)
    ensures
        0 <= i < numbers.len() ==> number_at(numbers, i) == text::digits_value(numbers[i]),
        i >= numbers.len() ==> number_at(numbers, i) == 0,
{
}

proof fn lemma_equal_numbers_rank(a: Seq<Seq<char>>, b: Seq<Seq<char>>, from: int)
    requires
        0 <= from,
        forall|j: int| 0 <= j ==> number_at(a, j) == number_at(b, j),
    ensures
        numbers_rank(a, b, from) == Rank::Same,
    decreases a.len() + b.len() - from,
{
    if from < a.len() || from < b.len() {
        lemma_equal_numbers_rank(a, b, from + 1);
    }
}

/// Of versions with the same numbers, a release is newer than its pre-releases, and a
/// version is not newer than one that differs in nothing else.
pub proof fn lemma_release_after_its_pre_releases(latest: Seq<char>, installed: Seq<char>)
    requires
        version_of(latest) is Some,
        version_of(installed) is Some,
        forall|j: int|
            0 <= j ==> number_at(taken_apart(latest).numbers, j) == number_at(
                taken_apart(installed).numbers,
                j,
            ),
    ensures
        taken_apart(latest).pre is None ==> (newer_version(latest, installed) <==> taken_apart(
            installed,
        ).pre is Some),
        taken_apart(latest).pre is Some && taken_apart(installed).pre is None ==> !newer_version(
            latest,
            installed,
        ),
{
    lemma_equal_numbers_rank(taken_apart(latest).numbers, taken_apart(installed).numbers, 0);
}

proof fn lemma_same_identifiers_pass(a: Seq<Seq<char>>, b: Seq<Seq<char>>, from: int, at: int)
    requires
        0 <= from <= at <= a.len(),
        at <= b.len(),
        forall|j: int| 0 <= j < at ==> identifier_rank(#[trigger] a[j], b[j]) == Rank::Same,
    ensures
        identifiers_rank(a, b, from) == identifiers_rank(a, b, at),
    decreases at - from,
{
    if from < at {
        assert(identifier_rank(a[from], b[from]) == Rank::Same);
        lemma_same_identifiers_pass(a, b, from + 1, at);
    }
}

/// Of two pre-releases with the same numbers, the first identifiers that differ decide;
/// where one ends before they differ, the longer one is newer.
pub proof fn lemma_first_identifier_decides(
    latest: Seq<char>,
    installed: Seq<char>,
    p: Seq<Seq<char>>,
    q: Seq<Seq<char>>,
    at: int,
)
    requires
        version_of(latest) is Some,
        version_of(installed) is Some,
        taken_apart(latest).pre == Some(p),
        taken_apart(installed).pre == Some(q),
        forall|j: int|
            0 <= j ==> number_at(taken_apart(latest).numbers, j) == number_at(
                taken_apart(installed).numbers,
                j,
            ),
        0 <= at <= p.len(),
        at <= q.len(),
        forall|j: int| 0 <= j < at ==> identifier_rank(#[trigger] p[j], q[j]) == Rank::Same,
    ensures
        at < p.len() && at < q.len() && identifier_rank(p[at], q[at]) != Rank::Same ==> (
        newer_version(latest, installed) <==> identifier_rank(p[at], q[at]) == Rank::Newer),
        at == p.len() || at == q.len() ==> (newer_version(latest, installed) <==> p.len()
            > q.len()),
{
    lemma_equal_numbers_rank(taken_apart(latest).numbers, taken_apart(installed).numbers, 0);
    lemma_same_identifiers_pass(p, q, 0, at);
}

proof fn lemma_same_characters_pass(a: Seq<char>, b: Seq<char>, from: int, at: int)
    requires
        0 <= from <= at <= a.len(),
        at <= b.len(),
        forall|j: int| 0 <= j < at ==> #[trigger] a[j] == b[j],
    ensures
        text_rank(a, b, from) == text_rank(a, b, at),
    decreases at - from,
{
    if from < at {
        assert(a[from] == b[from]);
        lemma_same_characters_pass(a, b, from + 1, at);
    }
}

/// Identifiers of digits are in the order of their values and before all others; others
/// are in the order of their first characters that differ, a start before the whole.
pub proof fn lemma_order_of_identifiers(a: Seq<char>, b: Seq<char>, at: int)
    ensures
        is_number(a) && is_number(b) ==> {
            &&& identifier_rank(a, b) == Rank::Newer <==> text::digits_value(a)
                > text::digits_value(b)
            &&& identifier_rank(a, b) == Rank::Same <==> text::digits_value(a)
                == text::digits_value(b)
        },
        is_number(a) && !is_number(b) ==> identifier_rank(a, b) == Rank::Older && identifier_rank(
            b,
            a,
        ) == Rank::Newer,
        !is_number(a) && !is_number(b) && 0 <= at <= a.len() && at <= b.len() && (forall|j: int|
            0 <= j < at ==> #[trigger] a[j] == b[j]) ==> {
            &&& at < a.len() && at < b.len() && a[at] > b[at] ==> identifier_rank(a, b)
                == Rank::Newer
            &&& at < a.len() && at < b.len() && a[at] < b[at] ==> identifier_rank(a, b)
                == Rank::Older
            &&& at == b.len() && at < a.len() ==> identifier_rank(a, b) == Rank::Newer
            &&& at == a.len() && at < b.len() ==> identifier_rank(a, b) == Rank::Older
            &&& at == a.len() && at == b.len() ==> identifier_rank(a, b) == Rank::Same
        },
{
    if 0 <= at <= a.len() && at <= b.len() && (forall|j: int|
        0 <= j < at ==> #[trigger] a[j] == b[j]) {
        lemma_same_characters_pass(a, b, 0, at);
    }
}

/// Texts that cannot be put in order are told apart: every other text counts as newer.
pub proof fn lemma_texts_without_order(latest: Seq<char>, installed: Seq<char>)
    requires
        version_of(latest) is None || version_of(installed) is None,
    ensures
        newer_version(latest, installed) <==> latest != installed,
{
}

} // verus!

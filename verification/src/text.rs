//! Text as a sequence of characters: searching, trimming, splitting into lines,
//! and decimal numbers.
use vstd::prelude::*;
use vstd::slice::slice_subrange;
use vstd::string::*;

verus! {

/// `pat` stands in `text` at position `at`.
pub open spec fn occurs_at(text: Seq<char>, pat: Seq<char>, at: int) -> bool {
    &&& 0 <= at
    &&& at + pat.len() <= text.len()
    &&& text.subrange(at, at + pat.len()) == pat
}

/// The first position, from `from` on, at which `pat` stands in `text`.
pub open spec fn find_from(text: Seq<char>, pat: Seq<char>, from: int) -> Option<int>
    decreases text.len() - from,
{
    if from < 0 || from + pat.len() > text.len() {
        None
    } else if occurs_at(text, pat, from) {
        Some(from)
    } else if from < text.len() {
        find_from(text, pat, from + 1)
    } else {
        None
    }
}

/// The first position at which `pat` stands in `text`.
pub open spec fn find(text: Seq<char>, pat: Seq<char>) -> Option<int> {
    find_from(text, pat, 0)
}

/// What follows the first `pat` in `text`.
pub open spec fn after_first(text: Seq<char>, pat: Seq<char>) -> Option<Seq<char>> {
    match find(text, pat) {
        Some(at) => Some(text.skip(at + pat.len())),
        None => None,
    }
}

/// What precedes the first `pat` in `text`; all of `text` where there is none.
pub open spec fn up_to(text: Seq<char>, pat: Seq<char>) -> Seq<char> {
    match find(text, pat) {
        Some(at) => text.take(at),
        None => text,
    }
}

proof fn lemma_find_from_first(text: Seq<char>, pat: Seq<char>, from: int)
    requires
        0 <= from,
    ensures
        match find_from(text, pat, from) {
            Some(at) => from <= at && occurs_at(text, pat, at) && forall|j: int|
                from <= j < at ==> !occurs_at(text, pat, j),
            None => forall|j: int| from <= j ==> !occurs_at(text, pat, j),
        },
    decreases text.len() - from,
{
    if from + pat.len() > text.len() {
    } else if occurs_at(text, pat, from) {
    } else if from < text.len() {
        lemma_find_from_first(text, pat, from + 1);
    }
}

/// `find` gives the least position at which the pattern stands, and `None` only
/// where it stands nowhere.
pub proof fn lemma_find_is_first(text: Seq<char>, pat: Seq<char>)
    ensures
        match find(text, pat) {
            Some(at) => occurs_at(text, pat, at) && forall|j: int|
                0 <= j < at ==> !occurs_at(text, pat, j),
            None => forall|j: int| !occurs_at(text, pat, j),
        },
{
    lemma_find_from_first(text, pat, 0);
}

/// A position that is the first occurrence is the one that `find` gives.
pub proof fn lemma_find_unique(text: Seq<char>, pat: Seq<char>, at: int)
    requires
        occurs_at(text, pat, at),
        forall|j: int| 0 <= j < at ==> !occurs_at(text, pat, j),
    ensures
        find(text, pat) == Some(at),
{
    lemma_find_is_first(text, pat);
}

/// The characters of `s`.
pub fn chars_of(s: &str) -> (r: Vec<char>)
    ensures
        r@ == s@,
{
    let mut out: Vec<char> = Vec::new();
    for c in it: s.chars()
        invariant
            out@ == it.seq().take(it.index() as int),
            it.seq() == s@,
    {
        out.push(c);
        assert(out@ == it.seq().take(it.index() + 1));
    }
    assert(s@.take(s@.len() as int) == s@);
    out
}

fn matches_at(text: &[char], pat: &[char], at: usize) -> (r: bool)
    requires
        at + pat@.len() <= text@.len(),
    ensures
        r == occurs_at(text@, pat@, at as int),
{
    let n: usize = text.len();
    let mut k: usize = 0;
    while k < pat.len()
        invariant
            k <= pat@.len(),
            at + pat@.len() <= text@.len(),
            n == text@.len(),
            forall|j: int| 0 <= j < k ==> text@[at + j] == pat@[j],
        decreases pat@.len() - k,
    {
        if text[at + k] != pat[k] {
            assert(text@.subrange(at as int, at + pat@.len())[k as int] != pat@[k as int]);
            return false;
        }
        k += 1;
    }
    assert(text@.subrange(at as int, at + pat@.len()) =~= pat@);
    true
}

/// Whether `text` starts with `pat`.
pub fn starts_with_chars(text: &[char], pat: &[char]) -> (r: bool)
    ensures
        r == occurs_at(text@, pat@, 0),
{
    pat.len() <= text.len() && matches_at(text, pat, 0)
}

/// The first position at which `pat` stands in `text`.
pub fn find_chars(text: &[char], pat: &[char]) -> (r: Option<usize>)
    ensures
        match r {
            Some(at) => find(text@, pat@) == Some(at as int),
            None => find(text@, pat@) is None,
        },
{
    if pat.len() > text.len() {
        return None;
    }
    let last: usize = text.len() - pat.len();
    let mut at: usize = 0;
    loop
        invariant
            at <= last,
            last + pat@.len() == text@.len(),
            find(text@, pat@) == find_from(text@, pat@, at as int),
        decreases last - at,
    {
        if matches_at(text, pat, at) {
            return Some(at);
        }
        if at == last {
            assert(find_from(text@, pat@, at + 1) is None);
            return None;
        }
        at += 1;
    }
}

/// The characters with the Unicode property `White_Space`.
pub open spec fn is_white_space(c: char) -> bool {
    let u = c as u32;
    ||| 0x09 <= u <= 0x0D
    ||| u == 0x20
    ||| u == 0x85
    ||| u == 0xA0
    ||| u == 0x1680
    ||| 0x2000 <= u <= 0x200A
    ||| u == 0x2028
    ||| u == 0x2029
    ||| u == 0x202F
    ||| u == 0x205F
    ||| u == 0x3000
}

/// Whether `c` has the Unicode property `White_Space`.
pub fn white_space(c: char) -> (r: bool)
    ensures
        r == is_white_space(c),
{
    let u: u32 = c as u32;
    (0x09 <= u && u <= 0x0D) || u == 0x20 || u == 0x85 || u == 0xA0 || u == 0x1680 || (0x2000 <= u
        && u <= 0x200A) || u == 0x2028 || u == 0x2029 || u == 0x202F || u == 0x205F || u == 0x3000
}

/// `s` without its leading white space.
pub open spec fn trim_start(s: Seq<char>) -> Seq<char>
    decreases s.len(),
{
    if s.len() > 0 && is_white_space(s[0]) {
        trim_start(s.skip(1))
    } else {
        s
    }
}

/// `s` without its trailing white space.
pub open spec fn trim_end(s: Seq<char>) -> Seq<char>
    decreases s.len(),
{
    if s.len() > 0 && is_white_space(s.last()) {
        trim_end(s.drop_last())
    } else {
        s
    }
}

/// `s` without its leading and its trailing white space.
pub open spec fn trim(s: Seq<char>) -> Seq<char> {
    trim_end(trim_start(s))
}

/// Every character of `s` is white space.
pub open spec fn blank(s: Seq<char>) -> bool {
    forall|i: int| 0 <= i < s.len() ==> is_white_space(#[trigger] s[i])
}

/// No white space stands at either end of `s`.
pub open spec fn trimmed(s: Seq<char>) -> bool {
    s.len() > 0 ==> !is_white_space(s[0]) && !is_white_space(s.last())
}

proof fn lemma_trim_start(s: Seq<char>) -> (left: Seq<char>)
    ensures
        s == left + trim_start(s),
        blank(left),
        trim_start(s).len() > 0 ==> !is_white_space(trim_start(s)[0]),
    decreases s.len(),
{
    if s.len() > 0 && is_white_space(s[0]) {
        let rest = lemma_trim_start(s.skip(1));
        let left = seq![s[0]] + rest;
        assert(s =~= seq![s[0]] + s.skip(1));
        assert(s =~= left + trim_start(s));
        assert(blank(left)) by {
            assert forall|i: int| 0 <= i < left.len() implies is_white_space(#[trigger] left[i]) by {
                if i > 0 {
                    assert(left[i] == rest[i - 1]);
                }
            }
        }
        left
    } else {
        assert(s =~= Seq::<char>::empty() + s);
        Seq::empty()
    }
}

proof fn lemma_trim_end(s: Seq<char>) -> (right: Seq<char>)
    ensures
        s == trim_end(s) + right,
        blank(right),
        trim_end(s).len() > 0 ==> !is_white_space(trim_end(s).last()),
    decreases s.len(),
{
    if s.len() > 0 && is_white_space(s.last()) {
        let rest = lemma_trim_end(s.drop_last());
        let right = rest.push(s.last());
        assert(s =~= s.drop_last().push(s.last()));
        assert(s =~= trim_end(s) + right);
        right
    } else {
        assert(s =~= s + Seq::<char>::empty());
        Seq::empty()
    }
}

/// `trim` takes white space, and nothing else, from the two ends of a text, and
/// leaves none there.
pub proof fn lemma_trim_splits(s: Seq<char>)
    ensures
        trimmed(trim(s)),
        exists|left: Seq<char>, right: Seq<char>|
            #![trigger blank(left), blank(right)]
            s == left + trim(s) + right && blank(left) && blank(right),
{
    let left = lemma_trim_start(s);
    let right = lemma_trim_end(trim_start(s));
    assert(s =~= left + trim(s) + right);
    if trim(s).len() > 0 {
        assert(trim(s)[0] == trim_start(s)[0]);
    }
    assert(blank(left) && blank(right));
}

/// White space put round a text that has none at its ends is what `trim` takes
/// away.
pub proof fn lemma_trim_of_padded(left: Seq<char>, s: Seq<char>, right: Seq<char>)
    requires
        blank(left),
        blank(right),
        trimmed(s),
        s.len() > 0,
    ensures
        trim(left + s + right) == s,
    decreases left.len() + right.len(),
{
    if left.len() > 0 {
        assert((left + s + right).skip(1) =~= left.skip(1) + s + right);
        assert((left + s + right)[0] == left[0]);
        lemma_trim_of_padded(left.skip(1), s, right);
    } else {
        assert(left + s + right =~= s + right);
        assert((s + right)[0] == s[0]);
        lemma_trim_end_of_padded(s, right);
    }
}

proof fn lemma_trim_end_of_padded(s: Seq<char>, right: Seq<char>)
    requires
        blank(right),
        s.len() > 0,
        !is_white_space(s.last()),
    ensures
        trim_end(s + right) == s,
    decreases right.len(),
{
    if right.len() > 0 {
        assert((s + right).drop_last() =~= s + right.drop_last());
        assert((s + right).last() == right[right.len() - 1]);
        lemma_trim_end_of_padded(s, right.drop_last());
    } else {
        assert(s + right =~= s);
    }
}

/// `s` without its leading and its trailing white space.
pub fn trim_text(s: &str) -> (r: String)
    ensures
        r@ == trim(s@),
{
    let chars: Vec<char> = chars_of(s);
    let mut from: usize = 0;
    assert(chars@.skip(0) =~= chars@);
    while from < chars.len() && white_space(chars[from])
        invariant
            from <= chars@.len(),
            trim_start(s@) == trim_start(chars@.skip(from as int)),
        decreases chars@.len() - from,
    {
        assert(chars@.skip(from as int).skip(1) =~= chars@.skip(from + 1));
        from += 1;
    }
    let mut to: usize = chars.len();
    assert(chars@.skip(from as int) =~= chars@.subrange(from as int, to as int));
    while to > from && white_space(chars[to - 1])
        invariant
            from <= to <= chars@.len(),
            trim(s@) == trim_end(chars@.subrange(from as int, to as int)),
        decreases to,
    {
        assert(chars@.subrange(from as int, to as int).drop_last() =~= chars@.subrange(
            from as int,
            to - 1,
        ));
        to -= 1;
    }
    s.substring_char(from, to).to_owned()
}

/// A line without the carriage return that ends it, if one does.
pub open spec fn without_cr(line: Seq<char>) -> Seq<char> {
    if line.len() > 0 && line.last() == '\r' {
        line.drop_last()
    } else {
        line
    }
}

/// The lines of a text. A line ends at a line feed, which may follow a carriage
/// return; the last line needs no ending.
pub open spec fn lines(s: Seq<char>) -> Seq<Seq<char>>
    decreases s.len(),
{
    match find(s, seq!['\n']) {
        Some(at) => if 0 <= at < s.len() {
            seq![without_cr(s.take(at))] + lines(s.skip(at + 1))
        } else {
            Seq::empty()
        },
        None => if s.len() == 0 {
            Seq::empty()
        } else {
            seq![s]
        },
    }
}

/// The parts in order, with `sep` between each two.
pub open spec fn join_with(parts: Seq<Seq<char>>, sep: Seq<char>) -> Seq<char>
    decreases parts.len(),
{
    if parts.len() == 0 {
        Seq::empty()
    } else if parts.len() == 1 {
        parts[0]
    } else {
        join_with(parts.drop_last(), sep) + sep + parts.last()
    }
}

/// The last `n` of the parts, or all of them where there are fewer.
pub open spec fn last_of(parts: Seq<Seq<char>>, n: int) -> Seq<Seq<char>> {
    if 0 <= n <= parts.len() {
        parts.skip(parts.len() - n)
    } else {
        parts
    }
}

/// The lines of a text.
pub fn lines_of(s: &str) -> (r: Vec<String>)
    ensures
        r.deep_view() == lines(s@),
{
    let chars: Vec<char> = chars_of(s);
    let n: usize = chars.len();
    let feed: Vec<char> = vec!['\n'];
    let mut out: Vec<String> = Vec::new();
    let mut from: usize = 0;
    assert(chars@.skip(0) =~= chars@);
    assert(out.deep_view() + lines(s@) =~= lines(s@));
    loop
        invariant
            n == chars@.len(),
            chars@ == s@,
            feed@ == seq!['\n'],
            from <= n,
            out.deep_view() + lines(chars@.skip(from as int)) == lines(s@),
        decreases n - from,
    {
        let rest = slice_subrange(chars.as_slice(), from, n);
        let ghost before = out.deep_view();
        assert(rest@ =~= chars@.skip(from as int));
        proof {
            lemma_find_is_first(rest@, feed@);
        }
        match find_chars(rest, feed.as_slice()) {
            Some(at) => {
                let to: usize = if at > 0 && rest[at - 1] == '\r' {
                    from + at - 1
                } else {
                    from + at
                };
                let line = s.substring_char(from, to).to_owned();
                assert(line@ =~= without_cr(rest@.take(at as int)));
                out.push(line);
                assert(out.deep_view() =~= before.push(line@));
                assert(rest@.skip(at + 1) =~= chars@.skip(from + at + 1));
                assert(out.deep_view() + lines(chars@.skip(from + at + 1)) =~= before + lines(rest@));
                from = from + at + 1;
            },
            None => {
                if from < n {
                    let line = s.substring_char(from, n).to_owned();
                    out.push(line);
                    assert(line@ =~= rest@);
                    assert(out.deep_view() =~= before + seq![rest@]);
                } else {
                    assert(before + Seq::<Seq<char>>::empty() =~= before);
                }
                return out;
            },
        }
    }
}

/// The last `n` of the parts, with `sep` between each two.
pub fn join_last(parts: &Vec<String>, n: usize, sep: &str) -> (r: String)
    ensures
        r@ == join_with(last_of(parts.deep_view(), n as int), sep@),
{
    let len: usize = parts.len();
    let start: usize = if n <= len {
        len - n
    } else {
        0
    };
    let ghost chosen = last_of(parts.deep_view(), n as int);
    assert(chosen =~= parts.deep_view().skip(start as int));
    let mut out = String::new();
    let mut i: usize = start;
    assert(chosen.take(0) =~= Seq::<Seq<char>>::empty());
    while i < len
        invariant
            start <= i <= len,
            len == parts@.len(),
            chosen == parts.deep_view().skip(start as int),
            out@ == join_with(chosen.take(i - start), sep@),
        decreases len - i,
    {
        assert(chosen.take(i - start + 1).drop_last() =~= chosen.take(i - start));
        assert(chosen.take(i - start + 1).last() == parts@[i as int]@);
        if i > start {
            out.append(sep);
        } else {
            assert(Seq::<char>::empty() + parts@[i as int]@ =~= parts@[i as int]@);
        }
        out.append(parts[i].as_str());
        i += 1;
    }
    assert(chosen.take(len - start) =~= chosen);
    out
}

/// The character of a decimal digit.
pub open spec fn digit_char(d: int) -> char {
    (d + 0x30) as char
}

/// A number in decimal digits, without leading zeros.
pub open spec fn decimal(n: nat) -> Seq<char>
    decreases n,
{
    if n < 10 {
        seq![digit_char(n as int)]
    } else {
        decimal(n / 10).push(digit_char((n % 10) as int))
    }
}

/// A signed number in decimal digits.
pub open spec fn signed_decimal(n: int) -> Seq<char> {
    if n < 0 {
        seq!['-'] + decimal((-n) as nat)
    } else {
        decimal(n as nat)
    }
}

fn digit_text(d: u64) -> (r: &'static str)
    requires
        d < 10,
    ensures
        r@ == seq![digit_char(d as int)],
{
    proof {
        reveal_strlit("0");
        reveal_strlit("1");
        reveal_strlit("2");
        reveal_strlit("3");
        reveal_strlit("4");
        reveal_strlit("5");
        reveal_strlit("6");
        reveal_strlit("7");
        reveal_strlit("8");
        reveal_strlit("9");
    }
    let r: &'static str = match d {
        0 => "0",
        1 => "1",
        2 => "2",
        3 => "3",
        4 => "4",
        5 => "5",
        6 => "6",
        7 => "7",
        8 => "8",
        _ => "9",
    };
    assert(r@ =~= seq![digit_char(d as int)]);
    r
}

/// A number in decimal digits.
pub fn decimal_text(n: u64) -> (r: String)
    ensures
        r@ == decimal(n as nat),
    decreases n,
{
    if n < 10 {
        digit_text(n).to_owned()
    } else {
        let mut out = decimal_text(n / 10);
        let ghost head = out@;
        out.append(digit_text(n % 10));
        assert(out@ =~= head.push(digit_char((n % 10) as int)));
        out
    }
}

/// A signed number in decimal digits.
pub fn signed_decimal_text(n: i32) -> (r: String)
    ensures
        r@ == signed_decimal(n as int),
{
    if n < 0 {
        proof {
            reveal_strlit("-");
        }
        let magnitude: i64 = -(n as i64);
        let mut out = "-".to_owned();
        assert(out@ =~= seq!['-']);
        out.append(decimal_text(magnitude as u64).as_str());
        out
    } else {
        decimal_text(n as u64)
    }
}

/// An optional exit code: `None`, or `Some(..)` round the code.
pub open spec fn shown_code(code: Option<i32>) -> Seq<char> {
    match code {
        Some(c) => "Some("@ + signed_decimal(c as int) + ")"@,
        None => "None"@,
    }
}

/// An optional exit code: `None`, or `Some(..)` round the code.
pub fn shown_code_text(code: Option<i32>) -> (r: String)
    ensures
        r@ == shown_code(code),
{
    match code {
        Some(c) => "Some(".to_owned().concat(signed_decimal_text(c).as_str()).concat(")"),
        None => "None".to_owned(),
    }
}

/// `c` is one of the decimal digits.
pub open spec fn is_digit(c: char) -> bool {
    0x30 <= c as u32 <= 0x39
}

/// `s` holds decimal digits and nothing else.
pub open spec fn all_digits(s: Seq<char>) -> bool {
    forall|i: int| 0 <= i < s.len() ==> is_digit(#[trigger] s[i])
}

/// The number that decimal digits stand for.
pub open spec fn digits_value(s: Seq<char>) -> int
    decreases s.len(),
{
    if s.len() == 0 {
        0
    } else {
        digits_value(s.drop_last()) * 10 + (s.last() as u32 - 0x30)
    }
}

/// A text without the plus sign that it may start with.
pub open spec fn without_plus(s: Seq<char>) -> Seq<char> {
    if s.len() > 0 && s[0] == '+' {
        s.skip(1)
    } else {
        s
    }
}

/// The number that a text stands for: an optional plus sign, then one or more
/// decimal digits, of a value that fits.
pub open spec fn parsed_u32(s: Seq<char>) -> Option<u32> {
    let digits = without_plus(s);
    if digits.len() > 0 && all_digits(digits) && digits_value(digits) <= u32::MAX {
        Some(digits_value(digits) as u32)
    } else {
        None
    }
}

proof fn lemma_value_grows(s: Seq<char>, k: int)
    requires
        all_digits(s),
        0 <= k <= s.len(),
    ensures
        0 <= digits_value(s.take(k)) <= digits_value(s),
    decreases s.len(),
{
    if k < s.len() {
        assert(s.drop_last().take(k) =~= s.take(k));
        assert(is_digit(s.last()));
        assert(all_digits(s.drop_last())) by {
            assert forall|i: int| 0 <= i < s.len() - 1 implies is_digit(#[trigger] s.drop_last()[i]) by {
                assert(is_digit(s[i]));
            }
        }
        lemma_value_grows(s.drop_last(), k);
    } else {
        assert(s.take(k) =~= s);
        if s.len() > 0 {
            assert(is_digit(s.last()));
            assert(all_digits(s.drop_last())) by {
                assert forall|i: int| 0 <= i < s.len() - 1 implies is_digit(
                    #[trigger] s.drop_last()[i],
                ) by {
                    assert(is_digit(s[i]));
                }
            }
            lemma_value_grows(s.drop_last(), s.len() - 1);
            assert(s.drop_last().take(s.len() - 1) =~= s.drop_last());
        }
    }
}

/// The number that a text stands for, if it stands for one.
pub fn parse_u32(s: &str) -> (r: Option<u32>)
    ensures
        r == parsed_u32(s@),
{
    let chars: Vec<char> = chars_of(s);
    let n: usize = chars.len();
    let start: usize = if n > 0 && chars[0] == '+' {
        1
    } else {
        0
    };
    let ghost digits = without_plus(s@);
    assert(digits =~= chars@.skip(start as int));
    if start == n {
        return None;
    }
    let mut value: u64 = 0;
    let mut i: usize = start;
    assert(digits.take(0) =~= Seq::<char>::empty());
    while i < n
        invariant
            start <= i <= n,
            n == chars@.len(),
            digits == chars@.skip(start as int),
            digits == without_plus(s@),
            value <= u32::MAX,
            value == digits_value(digits.take(i - start)),
            forall|j: int| 0 <= j < i - start ==> is_digit(#[trigger] digits[j]),
        decreases n - i,
    {
        let c: char = chars[i];
        assert(digits[i - start] == c);
        let u: u32 = c as u32;
        if u < 0x30 || u > 0x39 {
            assert(!is_digit(digits[i - start]));
            return None;
        }
        assert(digits.take(i - start + 1).drop_last() =~= digits.take(i - start));
        value = value * 10 + (u - 0x30) as u64;
        i += 1;
        if value > 0xFFFF_FFFF {
            proof {
                if all_digits(digits) {
                    lemma_value_grows(digits, i - start);
                }
            }
            return None;
        }
    }
    assert(digits.take(n - start) =~= digits);
    Some(value as u32)
}

/// The decimal digits of a number stand for that number.
pub proof fn lemma_decimal_value(n: nat)
    ensures
        decimal(n).len() > 0,
        all_digits(decimal(n)),
        digits_value(decimal(n)) == n,
    decreases n,
{
    if n < 10 {
        assert(decimal(n).drop_last() =~= Seq::<char>::empty());
        assert(digits_value(Seq::<char>::empty()) == 0);
    } else {
        lemma_decimal_value(n / 10);
        let head = decimal(n / 10);
        let last = digit_char((n % 10) as int);
        assert(decimal(n).drop_last() =~= head);
        assert(decimal(n).last() == last);
        assert forall|i: int| 0 <= i < decimal(n).len() implies is_digit(
            #[trigger] decimal(n)[i],
        ) by {
            if i < head.len() {
                assert(decimal(n)[i] == head[i]);
            }
        }
    }
}

/// A number written in decimal, on a line of its own, is read back as that
/// number.
pub proof fn lemma_number_line_reads_back(n: u32)
    ensures
        parsed_u32(trim(decimal(n as nat) + seq!['\n'])) == Some(n),
{
    let d = decimal(n as nat);
    lemma_decimal_value(n as nat);
    assert(is_digit(d[0]) && is_digit(d.last()));
    assert(blank(seq!['\n']));
    assert(blank(Seq::<char>::empty()));
    lemma_trim_of_padded(Seq::empty(), d, seq!['\n']);
    assert(Seq::<char>::empty() + d + seq!['\n'] =~= d + seq!['\n']);
    assert(d[0] != '+');
}

/// A result whose value and error are texts, with the texts as sequences.
pub open spec fn text_result(r: Result<String, String>) -> Result<Seq<char>, Seq<char>> {
    match r {
        Ok(s) => Ok(s@),
        Err(e) => Err(e@),
    }
}

/// A result whose error is a text, with the text as a sequence.
pub open spec fn unit_result(r: Result<(), String>) -> Result<(), Seq<char>> {
    match r {
        Ok(_) => Ok(()),
        Err(e) => Err(e@),
    }
}

/// Whether two texts are the same.
pub fn same_text(a: &str, b: &str) -> (r: bool)
    ensures
        r == (a@ == b@),
{
    a.to_owned() == b.to_owned()
}

/// A pattern stands at a position exactly where each of its characters does.
pub proof fn lemma_occurs_by_characters(text: Seq<char>, pat: Seq<char>, at: int)
    ensures
        occurs_at(text, pat, at) <==> 0 <= at && at + pat.len() <= text.len() && forall|i: int|
            0 <= i < pat.len() ==> #[trigger] pat[i] == text[at + i],
{
    if 0 <= at && at + pat.len() <= text.len() {
        let piece = text.subrange(at, at + pat.len());
        if forall|i: int| 0 <= i < pat.len() ==> #[trigger] pat[i] == text[at + i] {
            assert(piece =~= pat);
        }
        if piece == pat {
            assert forall|i: int| 0 <= i < pat.len() implies #[trigger] pat[i] == text[at + i] by {
                assert(piece[i] == text[at + i]);
            }
        }
    }
}

/// The first place of a pattern parts a text: what precedes it, the pattern, and what
/// follows it make up the text. Where the pattern stands nowhere, all of the text
/// precedes it.
pub proof fn lemma_first_place_parts(text: Seq<char>, pat: Seq<char>)
    ensures
        match after_first(text, pat) {
            Some(rest) => text == up_to(text, pat) + pat + rest && forall|j: int|
                0 <= j < up_to(text, pat).len() ==> !#[trigger] occurs_at(text, pat, j),
            None => up_to(text, pat) == text && forall|j: int| !#[trigger] occurs_at(text, pat, j),
        },
{
    lemma_find_is_first(text, pat);
    if let Some(at) = find(text, pat) {
        assert(text =~= text.take(at) + pat + text.skip(at + pat.len()));
    }
}

/// Of white space alone nothing is left.
pub proof fn lemma_trim_of_blank(s: Seq<char>)
    requires
        blank(s),
    ensures
        trim(s) == Seq::<char>::empty(),
    decreases s.len(),
{
    if s.len() > 0 {
        assert forall|i: int| 0 <= i < s.skip(1).len() implies is_white_space(
            #[trigger] s.skip(1)[i],
        ) by {
            assert(is_white_space(s[i + 1]));
        }
        lemma_trim_of_blank(s.skip(1));
    } else {
        assert(s =~= Seq::<char>::empty());
    }
}

/// A line feed ends a line, with the carriage return before it if there is one, and
/// the lines of the rest follow. A text without a line feed is one line, unless it is
/// empty.
pub proof fn lemma_lines_by_line_feeds(line: Seq<char>, rest: Seq<char>)
    requires
        !line.contains('\n'),
    ensures
        line.len() == 0 ==> lines(line).len() == 0,
        line.len() > 0 ==> lines(line) == seq![line],
        line.len() > 0 && line.last() == '\r' ==> lines(line + seq!['\n'] + rest) == seq![
            line.drop_last(),
        ] + lines(rest),
        line.len() == 0 || line.last() != '\r' ==> lines(line + seq!['\n'] + rest) == seq![line]
            + lines(rest),
{
    let feed = seq!['\n'];
    let whole = line + feed + rest;
    let at = line.len() as int;
    assert forall|j: int| !occurs_at(line, feed, j) by {
        lemma_occurs_by_characters(line, feed, j);
        if occurs_at(line, feed, j) {
            assert(feed[0] == line[j + 0]);
            assert(line.contains(line[j]));
        }
    }
    lemma_find_is_first(line, feed);
    assert(whole.subrange(at, at + 1) =~= feed);
    assert forall|j: int| 0 <= j < at implies !occurs_at(whole, feed, j) by {
        assert(whole.subrange(j, j + 1)[0] == line[j]);
        assert(line.contains(line[j]));
    }
    lemma_find_unique(whole, feed, at);
    assert(whole.take(at) =~= line);
    assert(whole.skip(at + 1) =~= rest);
}

/// Lines written one after the other.
pub open spec fn written_lines(ls: Seq<Seq<char>>) -> Seq<char>
    decreases ls.len(),
{
    if ls.len() == 0 {
        Seq::empty()
    } else {
        ls[0] + seq!['\n'] + written_lines(ls.skip(1))
    }
}

/// Lines that are written are the lines that are read.
pub proof fn lemma_lines_read_back(ls: Seq<Seq<char>>)
    requires
        forall|i: int|
            0 <= i < ls.len() ==> !(#[trigger] ls[i]).contains('\n') && !ls[i].contains('\r'),
    ensures
        lines(written_lines(ls)) == ls,
    decreases ls.len(),
{
    if ls.len() == 0 {
        lemma_lines_by_line_feeds(Seq::empty(), Seq::empty());
        assert(lines(written_lines(ls)) =~= ls);
    } else {
        let line = ls[0];
        assert(line.len() > 0 ==> line.contains(line.last()));
        lemma_lines_by_line_feeds(line, written_lines(ls.skip(1)));
        lemma_lines_read_back(ls.skip(1));
        assert(ls =~= seq![ls[0]] + ls.skip(1));
    }
}

/// Parts that are joined stand in order with the separator between each two: one part
/// is itself, and two lists of parts join as their two texts do.
pub proof fn lemma_join_of_concat(a: Seq<Seq<char>>, b: Seq<Seq<char>>, sep: Seq<char>)
    ensures
        a.len() == 0 ==> join_with(a, sep).len() == 0,
        a.len() == 1 ==> join_with(a, sep) == a[0],
        a.len() > 0 && b.len() > 0 ==> join_with(a + b, sep) == join_with(a, sep) + sep + join_with(
            b,
            sep,
        ),
    decreases b.len(),
{
    if a.len() > 0 && b.len() > 0 {
        assert((a + b).drop_last() =~= a + b.drop_last());
        assert((a + b).last() == b.last());
        if b.len() == 1 {
            assert(a + b.drop_last() =~= a);
            assert(join_with(b, sep) == b[0]);
        } else {
            lemma_join_of_concat(a, b.drop_last(), sep);
            assert(join_with(a + b, sep) =~= join_with(a, sep) + sep + join_with(b, sep));
        }
    }
}

/// The last parts end the list, and there are as many as were asked for, or all.
pub proof fn lemma_last_parts(parts: Seq<Seq<char>>, n: int)
    requires
        0 <= n,
    ensures
        last_of(parts, n).len() == if n <= parts.len() {
            n
        } else {
            parts.len() as int
        },
        forall|i: int|
            0 <= i < last_of(parts, n).len() ==> #[trigger] last_of(parts, n)[i] == parts[parts.len()
                - last_of(parts, n).len() + i],
{
}

/// The digits are those from zero to nine, and digits stand for a number in the
/// decimal system.
pub proof fn lemma_decimal_system(s: Seq<char>, c: char)
    ensures
        is_digit(c) <==> (c == '0' || c == '1' || c == '2' || c == '3' || c == '4' || c == '5' || c
            == '6' || c == '7' || c == '8' || c == '9'),
        digits_value(Seq::<char>::empty()) == 0,
        digits_value(s.push(c)) == digits_value(s) * 10 + (c as u32 - '0' as u32),
        all_digits(s.push(c)) <==> all_digits(s) && is_digit(c),
{
    assert(s.push(c).drop_last() =~= s);
    if all_digits(s.push(c)) {
        assert forall|i: int| 0 <= i < s.len() implies is_digit(#[trigger] s[i]) by {
            assert(s.push(c)[i] == s[i]);
        }
        assert(is_digit(s.push(c)[s.len() as int]));
    }
    if all_digits(s) && is_digit(c) {
        assert forall|i: int| 0 <= i < s.push(c).len() implies is_digit(#[trigger] s.push(c)[i]) by {
            if i < s.len() {
                assert(s.push(c)[i] == s[i]);
            }
        }
    }
}

/// A number is written without leading zeros.
pub proof fn lemma_decimal_has_no_leading_zero(n: nat)
    ensures
        decimal(n).len() > 0,
        n > 0 ==> decimal(n)[0] != '0',
        n == 0 ==> decimal(n) == seq!['0'],
    decreases n,
{
    if n >= 10 {
        lemma_decimal_has_no_leading_zero(n / 10);
        assert(decimal(n)[0] == decimal(n / 10)[0]);
    }
}

/// A negative number has a minus sign before its digits, and an exit code is shown as
/// an option.
pub proof fn lemma_shown_numbers(n: i32)
    ensures
        n < 0 ==> signed_decimal(n as int) == seq!['-'] + decimal((0 - n) as nat),
        n >= 0 ==> signed_decimal(n as int) == decimal(n as nat),
        shown_code(None) == "None"@,
        shown_code(Some(n)) == "Some("@ + signed_decimal(n as int) + ")"@,
{
}

/// A text is read as a number exactly where it holds digits of a value that fits, and
/// one plus sign before them at most.
pub proof fn lemma_numbers_that_are_read(s: Seq<char>)
    ensures
        s.len() > 0 && all_digits(s) && digits_value(s) <= u32::MAX ==> parsed_u32(s) == Some(
            digits_value(s) as u32,
        ) && parsed_u32(seq!['+'] + s) == Some(digits_value(s) as u32),
        s.len() == 0 || digits_value(s) > u32::MAX ==> (all_digits(s) ==> parsed_u32(s) is None
            && parsed_u32(seq!['+'] + s) is None),
        !all_digits(s) ==> parsed_u32(seq!['+'] + s) is None,
        !all_digits(s) && s[0] != '+' ==> parsed_u32(s) is None,
{
    assert((seq!['+'] + s).skip(1) =~= s);
    if s.len() > 0 && all_digits(s) {
        assert(is_digit(s[0]));
    }
}

/// A result keeps its value and its error.
pub proof fn lemma_results_keep_their_texts(text: String)
    ensures
        text_result(Ok(text)) == Ok::<Seq<char>, Seq<char>>(text@),
        text_result(Err(text)) == Err::<Seq<char>, Seq<char>>(text@),
        unit_result(Ok(())) is Ok,
        unit_result(Err(text)) == Err::<(), Seq<char>>(text@),
{
}

} // verus!

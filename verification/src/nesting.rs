//! How deep a position of a JSON text lies in objects, and whether it lies in a
//! string.
use vstd::prelude::*;

verus! {

/// Where a JSON text has got to.
#[derive(Debug, Clone, Copy, PartialEq, Eq, Structural)]
pub enum Lex {
    /// Outside strings.
    Plain,
    /// In a string.
    Quoted,
    /// In a string, behind a backslash.
    Escaped,
}

/// Where a text has got to after one more character.
pub open spec fn lex_step(lex: Lex, c: char) -> Lex {
    match lex {
        Lex::Plain => if c == '"' {
            Lex::Quoted
        } else {
            Lex::Plain
        },
        Lex::Quoted => if c == '"' {
            Lex::Plain
        } else if c == '\\' {
            Lex::Escaped
        } else {
            Lex::Quoted
        },
        Lex::Escaped => Lex::Quoted,
    }
}

/// Where a text has got to at its end.
pub open spec fn lex_of(s: Seq<char>) -> Lex
    decreases s.len(),
{
    if s.len() == 0 {
        Lex::Plain
    } else {
        lex_step(lex_of(s.drop_last()), s.last())
    }
}

/// What a character adds to the depth: a brace outside strings opens or closes an
/// object.
pub open spec fn brace(lex: Lex, c: char) -> int {
    if lex == Lex::Plain && c == '{' {
        1
    } else if lex == Lex::Plain && c == '}' {
        -1
    } else {
        0
    }
}

/// The objects that a text opens, less those that it closes.
pub open spec fn depth_of(s: Seq<char>) -> int
    decreases s.len(),
{
    if s.len() == 0 {
        0
    } else {
        depth_of(s.drop_last()) + brace(lex_of(s.drop_last()), s.last())
    }
}

/// How deep the position `k` lies in objects.
pub open spec fn level(s: Seq<char>, k: int) -> int {
    depth_of(s.take(k))
}

/// The position `k` lies outside strings.
pub open spec fn plain_at(s: Seq<char>, k: int) -> bool {
    lex_of(s.take(k)) == Lex::Plain
}

/// The level of each position of a text, and whether it lies outside strings.
pub struct Nesting {
    pub levels: Vec<i128>,
    pub plain: Vec<bool>,
}

/// The levels and the places outside strings are those of the text.
pub open spec fn nesting_of(nesting: Nesting, s: Seq<char>) -> bool {
    &&& nesting.levels@.len() == s.len() + 1
    &&& nesting.plain@.len() == s.len() + 1
    &&& forall|k: int| 0 <= k <= s.len() ==> #[trigger] nesting.levels@[k] == level(s, k)
    &&& forall|k: int| 0 <= k <= s.len() ==> #[trigger] nesting.plain@[k] == plain_at(s, k)
}

/// The level of each position of a text, and whether it lies outside strings.
pub fn measure(text: &Vec<char>) -> (r: Nesting)
    ensures
        nesting_of(r, text@),
{
    let n: usize = text.len();
    let mut levels: Vec<i128> = Vec::new();
    let mut plain: Vec<bool> = Vec::new();
    let mut depth: i128 = 0;
    let mut lex = Lex::Plain;
    let mut i: usize = 0;
    levels.push(0);
    plain.push(true);
    assert(text@.take(0) =~= Seq::<char>::empty());
    while i < n
        invariant
            i <= n,
            n == text@.len(),
            depth == level(text@, i as int),
            lex == lex_of(text@.take(i as int)),
            -i <= depth <= i,
            levels@.len() == i + 1,
            plain@.len() == i + 1,
            forall|k: int| 0 <= k <= i ==> #[trigger] levels@[k] == level(text@, k),
            forall|k: int| 0 <= k <= i ==> #[trigger] plain@[k] == plain_at(text@, k),
        decreases n - i,
    {
        let c: char = text[i];
        assert(text@.take(i + 1).drop_last() =~= text@.take(i as int));
        assert(text@.take(i + 1).last() == c);
        match lex {
            Lex::Plain => {
                if c == '{' {
                    depth = depth + 1;
                } else if c == '}' {
                    depth = depth - 1;
                } else if c == '"' {
                    lex = Lex::Quoted;
                }
            },
            Lex::Quoted => {
                if c == '"' {
                    lex = Lex::Plain;
                } else if c == '\\' {
                    lex = Lex::Escaped;
                }
            },
            Lex::Escaped => {
                lex = Lex::Quoted;
            },
        }
        i += 1;
        levels.push(depth);
        plain.push(lex == Lex::Plain);
    }
    Nesting { levels, plain }
}

/// Behind a text that ends outside strings, a text means what it means alone.
pub proof fn lemma_nesting_of_concat(a: Seq<char>, b: Seq<char>)
    requires
        lex_of(a) == Lex::Plain,
    ensures
        lex_of(a + b) == lex_of(b),
        depth_of(a + b) == depth_of(a) + depth_of(b),
    decreases b.len(),
{
    if b.len() == 0 {
        assert(a + b =~= a);
    } else {
        assert((a + b).drop_last() =~= a + b.drop_last());
        assert((a + b).last() == b.last());
        lemma_nesting_of_concat(a, b.drop_last());
    }
}

/// Behind a text that ends outside strings and closes what it opens, each position
/// lies as deep as it does alone.
pub proof fn lemma_level_behind(a: Seq<char>, b: Seq<char>, k: int)
    requires
        lex_of(a) == Lex::Plain,
        depth_of(a) == 0,
        0 <= k <= b.len(),
    ensures
        level(a + b, a.len() + k) == level(b, k),
        plain_at(a + b, a.len() + k) == plain_at(b, k),
{
    assert((a + b).take(a.len() + k) =~= a + b.take(k));
    lemma_nesting_of_concat(a, b.take(k));
}

/// What follows a position does not change how deep it lies.
pub proof fn lemma_level_before(a: Seq<char>, b: Seq<char>, k: int)
    requires
        0 <= k <= a.len(),
    ensures
        level(a + b, k) == level(a, k),
        plain_at(a + b, k) == plain_at(a, k),
{
    assert((a + b).take(k) =~= a.take(k));
}

/// Outside strings a double quote starts a string, and braces open and close objects;
/// every other character leaves things as they are.
pub proof fn lemma_outside_strings(s: Seq<char>, c: char)
    requires
        lex_of(s) == Lex::Plain,
    ensures
        lex_of(s.push(c)) == if c == '"' {
            Lex::Quoted
        } else {
            Lex::Plain
        },
        c == '{' ==> depth_of(s.push(c)) == depth_of(s) + 1,
        c == '}' ==> depth_of(s.push(c)) == depth_of(s) - 1,
        c != '{' && c != '}' ==> depth_of(s.push(c)) == depth_of(s),
{
    assert(s.push(c).drop_last() =~= s);
}

/// In a string, braces mean nothing, and the string ends at the first double quote
/// that no backslash precedes.
pub proof fn lemma_inside_strings(s: Seq<char>, c: char, d: char)
    requires
        lex_of(s) == Lex::Quoted,
    ensures
        depth_of(s.push(c)) == depth_of(s),
        c == '"' ==> lex_of(s.push(c)) == Lex::Plain,
        c != '"' && c != '\\' ==> lex_of(s.push(c)) == Lex::Quoted,
        c == '\\' ==> lex_of(s.push(c)) != Lex::Plain && lex_of(s.push(c).push(d)) == Lex::Quoted
            && depth_of(s.push(c).push(d)) == depth_of(s),
{
    assert(s.push(c).drop_last() =~= s);
    assert(s.push(c).push(d).drop_last() =~= s.push(c));
    assert(lex_of(s.push(c)) == lex_step(lex_of(s), c));
    assert(depth_of(s.push(c)) == depth_of(s) + brace(lex_of(s), c));
}

/// A text starts outside strings and objects, and the level of a position is what the
/// text before it opens and does not close.
pub proof fn lemma_start_of_text(s: Seq<char>, k: int)
    ensures
        lex_of(Seq::<char>::empty()) == Lex::Plain,
        depth_of(Seq::<char>::empty()) == 0,
        level(s, k) == depth_of(s.take(k)),
        plain_at(s, k) <==> lex_of(s.take(k)) == Lex::Plain,
{
}

} // verus!

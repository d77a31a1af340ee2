//! Texts of the operating system: paths, arguments and environment values are
//! bytes, which need not be valid UTF-8.
use vstd::prelude::*;
use vstd::slice::{slice_subrange, slice_to_vec};
use vstd::string::*;
use vstd::utf8::*;

verus! {

/// The byte that separates the names of a path.
pub const SLASH: u8 = 0x2F;

/// The byte of a full stop.
pub const DOT: u8 = 0x2E;

/// The byte that separates the directories of a search path.
pub const COLON: u8 = 0x3A;

/// A path, an argument or an environment value, by its bytes.
#[derive(Debug, PartialEq, Eq)]
pub struct OsText {
    pub bytes: Vec<u8>,
}

impl View for OsText {
    type V = Seq<u8>;

    open spec fn view(&self) -> Seq<u8> {
        self.bytes@
    }
}

impl DeepView for OsText {
    type V = Seq<u8>;

    open spec fn deep_view(&self) -> Seq<u8> {
        self.bytes@
    }
}

impl Clone for OsText {
    fn clone(&self) -> (r: Self)
        ensures
            r@ == self@,
    {
        OsText { bytes: slice_to_vec(self.bytes.as_slice()) }
    }
}

/// A path put after another: an absolute one replaces it, and a slash comes
/// between them where the first is not empty and does not end in one.
pub open spec fn joined(base: Seq<u8>, part: Seq<u8>) -> Seq<u8> {
    if part.len() > 0 && part[0] == SLASH {
        part
    } else if base.len() == 0 || base.last() == SLASH {
        base + part
    } else {
        base + seq![SLASH] + part
    }
}

/// The bytes of a text in UTF-8.
pub open spec fn utf8(s: Seq<char>) -> Seq<u8> {
    encode_utf8(s)
}

/// How many bytes of a path come before its first name: the slash of an absolute
/// path, or the full stop of one that starts with the current directory.
pub open spec fn body_start(p: Seq<u8>) -> int {
    if p.len() > 0 && p[0] == SLASH {
        1
    } else if p.len() > 0 && p[0] == DOT && (p.len() == 1 || p[1] == SLASH) {
        1
    } else {
        0
    }
}

/// Where the name that ends at `to` starts, not before `from`.
pub open spec fn name_start(p: Seq<u8>, from: int, to: int) -> int
    decreases to - from,
{
    if to <= from || p[to - 1] == SLASH {
        to
    } else {
        name_start(p, from, to - 1)
    }
}

/// Where the last name of a path starts.
pub open spec fn last_name(p: Seq<u8>) -> int {
    name_start(p, body_start(p), p.len() as int)
}

/// A path without its last name and the slash before that name.
pub open spec fn without_last(p: Seq<u8>) -> Seq<u8> {
    if last_name(p) > body_start(p) {
        p.take(last_name(p) - 1)
    } else {
        p.take(body_start(p))
    }
}

/// A name that leads nowhere: an empty one, or the current directory.
pub open spec fn is_idle_name(name: Seq<u8>) -> bool {
    name.len() == 0 || name == seq![DOT]
}

/// The start of a name lies in the range that is searched, after a slash or at the
/// start of the range.
pub proof fn lemma_name_start_bounds(p: Seq<u8>, from: int, to: int)
    requires
        0 <= from <= to <= p.len(),
    ensures
        from <= name_start(p, from, to) <= to,
        name_start(p, from, to) > from ==> p[name_start(p, from, to) - 1] == SLASH,
    decreases to - from,
{
    if to <= from || p[to - 1] == SLASH {
    } else {
        lemma_name_start_bounds(p, from, to - 1);
    }
}

/// A path without the idle names at its end.
pub open spec fn without_idle_end(p: Seq<u8>) -> Seq<u8>
    decreases p.len(),
{
    if p.len() > body_start(p) && is_idle_name(p.skip(last_name(p))) {
        proof {
            lemma_name_start_bounds(p, body_start(p), p.len() as int);
        }
        without_idle_end(without_last(p))
    } else {
        p
    }
}

/// The path of the directory that holds what a path names. The root and the
/// empty path have none.
pub open spec fn parent_of(p: Seq<u8>) -> Option<Seq<u8>> {
    let named = without_idle_end(p);
    if named.len() > body_start(named) {
        Some(without_idle_end(without_last(named)))
    } else if named == seq![DOT] {
        Some(Seq::empty())
    } else {
        None
    }
}

impl OsText {
    /// The bytes of `s`.
    pub fn of(s: &str) -> (r: OsText)
        ensures
            r@ == utf8(s@),
    {
        OsText { bytes: slice_to_vec(s.as_bytes()) }
    }

    /// The path of `part` below this one.
    pub fn join(&self, part: &OsText) -> (r: OsText)
        ensures
            r@ == joined(self@, part@),
    {
        let n: usize = self.bytes.len();
        if part.bytes.len() > 0 && part.bytes[0] == SLASH {
            return part.clone();
        }
        let mut out: Vec<u8> = slice_to_vec(self.bytes.as_slice());
        if n > 0 && self.bytes[n - 1] != SLASH {
            out.push(SLASH);
            assert(out@ =~= self@ + seq![SLASH]);
        }
        let mut tail: Vec<u8> = slice_to_vec(part.bytes.as_slice());
        out.append(&mut tail);
        OsText { bytes: out }
    }

    /// The path of the name `part` below this one.
    pub fn join_str(&self, part: &str) -> (r: OsText)
        ensures
            r@ == joined(self@, utf8(part@)),
    {
        self.join(&OsText::of(part))
    }

    fn body_start_at(&self, len: usize) -> (r: usize)
        requires
            len <= self@.len(),
        ensures
            r == body_start(self@.take(len as int)),
            r <= len,
    {
        if len > 0 && self.bytes[0] == SLASH {
            1
        } else if len > 0 && self.bytes[0] == DOT && (len == 1 || self.bytes[1] == SLASH) {
            1
        } else {
            0
        }
    }

    /// Where the last name of the first `len` bytes starts, and how many bytes
    /// are left without it.
    fn last_name_at(&self, len: usize) -> (r: (usize, usize))
        requires
            len <= self@.len(),
            len > body_start(self@.take(len as int)),
        ensures
            r.0 == last_name(self@.take(len as int)),
            r.0 <= len,
            r.1 < len,
            self@.take(r.1 as int) == without_last(self@.take(len as int)),
    {
        let ghost p = self@.take(len as int);
        let start: usize = self.body_start_at(len);
        let mut at: usize = len;
        while at > start && self.bytes[at - 1] != SLASH
            invariant
                start <= at <= len <= self@.len(),
                p == self@.take(len as int),
                last_name(p) == name_start(p, start as int, at as int),
                start == body_start(p),
            decreases at,
        {
            assert(p[at - 1] == self@[at - 1]);
            at -= 1;
        }
        assert(at > start ==> p[at - 1] == SLASH);
        let left: usize = if at > start {
            at - 1
        } else {
            start
        };
        assert(self@.take(left as int) =~= without_last(p));
        (at, left)
    }

    /// How many of the first `len` bytes are left without the idle names at
    /// their end.
    fn without_idle_end_at(&self, len: usize) -> (r: usize)
        requires
            len <= self@.len(),
        ensures
            r <= len,
            self@.take(r as int) == without_idle_end(self@.take(len as int)),
    {
        let mut n: usize = len;
        loop
            invariant
                n <= len <= self@.len(),
                without_idle_end(self@.take(n as int)) == without_idle_end(self@.take(len as int)),
            decreases n,
        {
            let ghost p = self@.take(n as int);
            if n == self.body_start_at(n) {
                return n;
            }
            let (at, left) = self.last_name_at(n);
            let name = slice_subrange(self.bytes.as_slice(), at, n);
            assert(name@ =~= p.skip(last_name(p)));
            let idle = name.len() == 0 || (name.len() == 1 && name[0] == DOT);
            assert(idle == is_idle_name(name@)) by {
                if name@.len() == 1 && name@[0] == DOT {
                    assert(name@ =~= seq![DOT]);
                }
            }
            if !idle {
                return n;
            }
            n = left;
        }
    }

    /// The path of the directory that holds what this path names.
    pub fn parent(&self) -> (r: Option<OsText>)
        ensures
            r.deep_view() == parent_of(self@),
    {
        let all: usize = self.bytes.len();
        assert(self@.take(all as int) =~= self@);
        let n: usize = self.without_idle_end_at(all);
        let ghost named = self@.take(n as int);
        if n > self.body_start_at(n) {
            let (_at, left) = self.last_name_at(n);
            let m: usize = self.without_idle_end_at(left);
            let dir = slice_subrange(self.bytes.as_slice(), 0, m);
            assert(dir@ =~= self@.take(m as int));
            Some(OsText { bytes: slice_to_vec(dir) })
        } else if n == 1 && self.bytes[0] == DOT {
            assert(named =~= seq![DOT]);
            let none: Vec<u8> = Vec::new();
            assert(none@ =~= Seq::<u8>::empty());
            Some(OsText { bytes: none })
        } else {
            assert(named != seq![DOT]) by {
                if named == seq![DOT] {
                    assert(named[0] == DOT);
                    assert(named.len() == 1);
                }
            }
            None
        }
    }
}

/// The path of a path below another, with the parts put together first or last.
pub proof fn lemma_joined_assoc(base: Seq<u8>, middle: Seq<u8>, part: Seq<u8>)
    requires
        middle.len() > 0,
    ensures
        joined(joined(base, middle), part) == joined(base, joined(middle, part)),
{
    assert(joined(joined(base, middle), part) =~= joined(base, joined(middle, part)));
}

proof fn lemma_name_start_after_slash(p: Seq<u8>, from: int, at: int, to: int)
    requires
        0 <= from < at <= to <= p.len(),
        p[at - 1] == SLASH,
        forall|i: int| at <= i < to ==> p[i] != SLASH,
    ensures
        name_start(p, from, to) == at,
    decreases to - at,
{
    if at < to {
        lemma_name_start_after_slash(p, from, at, to - 1);
    }
}

/// A plain name: not empty, without a slash, and not the current directory.
pub open spec fn is_name(name: Seq<u8>) -> bool {
    name.len() > 0 && !name.contains(SLASH) && name != seq![DOT]
}

/// A path that ends in a plain name after a slash ends in nothing idle, and is that
/// name put after the rest.
pub proof fn lemma_last_name_of_joined(dir: Seq<u8>, name: Seq<u8>)
    requires
        dir.len() > 0,
        dir.last() != SLASH,
        is_name(name),
    ensures
        without_idle_end(joined(dir, name)) == joined(dir, name),
        without_last(joined(dir, name)) == dir,
        joined(dir, name).len() > body_start(joined(dir, name)),
{
    let p = joined(dir, name);
    let at = dir.len() + 1;
    assert forall|i: int| 0 <= i < name.len() implies name[i] != SLASH by {
        assert(name.contains(name[i]));
    }
    assert(name[0] != SLASH);
    assert(p == dir + seq![SLASH] + name);
    lemma_name_start_after_slash(p, body_start(p), at as int, p.len() as int);
    assert(p.skip(last_name(p)) =~= name);
    assert(without_last(p) =~= dir);
}

/// What lies below a directory that ends in a plain name has that directory as its
/// parent.
pub proof fn lemma_parent_of_joined(base: Seq<u8>, dir: Seq<u8>, name: Seq<u8>)
    requires
        base.len() > 0,
        base.last() != SLASH,
        is_name(dir),
        is_name(name),
    ensures
        parent_of(joined(joined(base, dir), name)) == Some(joined(base, dir)),
{
    lemma_last_name_of_joined(base, dir);
    assert(dir.contains(dir[0]) && dir.contains(dir.last()));
    lemma_last_name_of_joined(joined(base, dir), name);
}

/// The directories of a search path: the pieces between its colons.
pub open spec fn split_dirs(s: Seq<u8>) -> Seq<Seq<u8>>
    decreases s.len(),
{
    if s.len() == 0 {
        seq![Seq::empty()]
    } else {
        let dirs = split_dirs(s.drop_last());
        if s.last() == COLON {
            dirs.push(Seq::empty())
        } else {
            dirs.drop_last().push(dirs.last().push(s.last()))
        }
    }
}

/// The pieces in order, with a colon between each two.
pub open spec fn with_colons(dirs: Seq<Seq<u8>>) -> Seq<u8>
    decreases dirs.len(),
{
    if dirs.len() == 0 {
        Seq::empty()
    } else if dirs.len() == 1 {
        dirs[0]
    } else {
        with_colons(dirs.drop_last()) + seq![COLON] + dirs.last()
    }
}

/// No piece holds a colon.
pub open spec fn colon_free(dirs: Seq<Seq<u8>>) -> bool {
    forall|i: int| 0 <= i < dirs.len() ==> !(#[trigger] dirs[i]).contains(COLON)
}

/// The search path of directories. There is none where one of them holds a colon.
pub open spec fn join_dirs(dirs: Seq<Seq<u8>>) -> Option<Seq<u8>> {
    if colon_free(dirs) {
        Some(with_colons(dirs))
    } else {
        None
    }
}

/// The directories of a search path.
pub fn split_search_path(s: &OsText) -> (r: Vec<OsText>)
    ensures
        r.deep_view() == split_dirs(s@),
{
    let n: usize = s.bytes.len();
    let mut out: Vec<OsText> = Vec::new();
    let mut piece: Vec<u8> = Vec::new();
    let mut i: usize = 0;
    assert(s@.take(0) =~= Seq::<u8>::empty());
    assert(split_dirs(s@.take(0)).drop_last() =~= out.deep_view());
    while i < n
        invariant
            i <= n,
            n == s@.len(),
            split_dirs(s@.take(i as int)).len() > 0,
            out.deep_view() == split_dirs(s@.take(i as int)).drop_last(),
            piece@ == split_dirs(s@.take(i as int)).last(),
        decreases n - i,
    {
        let b: u8 = s.bytes[i];
        let ghost dirs = split_dirs(s@.take(i as int));
        assert(s@.take(i + 1).drop_last() =~= s@.take(i as int));
        if b == COLON {
            let ghost before = out.deep_view();
            let ghost last = piece@;
            out.push(OsText { bytes: piece });
            assert(out.deep_view() =~= before.push(last));
            assert(dirs.push(Seq::empty()).drop_last() =~= before.push(last));
            piece = Vec::new();
            assert(piece@ =~= Seq::<u8>::empty());
        } else {
            piece.push(b);
            assert(dirs.drop_last().push(piece@).drop_last() =~= dirs.drop_last());
        }
        i += 1;
    }
    assert(s@.take(n as int) =~= s@);
    let ghost before = out.deep_view();
    let ghost last = piece@;
    out.push(OsText { bytes: piece });
    assert(out.deep_view() =~= before.push(last));
    assert(split_dirs(s@) =~= before.push(last));
    out
}

fn has_colon(s: &OsText) -> (r: bool)
    ensures
        r == s@.contains(COLON),
{
    let mut i: usize = 0;
    while i < s.bytes.len()
        invariant
            i <= s@.len(),
            forall|j: int| 0 <= j < i ==> s@[j] != COLON,
        decreases s@.len() - i,
    {
        if s.bytes[i] == COLON {
            return true;
        }
        i += 1;
    }
    false
}

/// The search path of directories, unless one of them holds a colon.
pub fn join_search_path(dirs: &Vec<OsText>) -> (r: Option<OsText>)
    ensures
        r.deep_view() == join_dirs(dirs.deep_view()),
{
    let ghost all = dirs.deep_view();
    let mut out: Vec<u8> = Vec::new();
    let mut i: usize = 0;
    assert(all.take(0) =~= Seq::<Seq<u8>>::empty());
    while i < dirs.len()
        invariant
            i <= dirs@.len(),
            all == dirs.deep_view(),
            out@ == with_colons(all.take(i as int)),
            forall|j: int| 0 <= j < i ==> !(#[trigger] all[j]).contains(COLON),
        decreases dirs@.len() - i,
    {
        assert(all[i as int] == dirs@[i as int]@);
        assert(all.take(i + 1).drop_last() =~= all.take(i as int));
        assert(all.take(i + 1).last() == all[i as int]);
        if has_colon(&dirs[i]) {
            return None;
        }
        let ghost before = out@;
        if i > 0 {
            out.push(COLON);
            assert(out@ =~= before + seq![COLON]);
        } else {
            assert(before + all[0] =~= all[0]);
        }
        let mut tail: Vec<u8> = slice_to_vec(dirs[i].bytes.as_slice());
        out.append(&mut tail);
        i += 1;
    }
    assert(all.take(dirs@.len() as int) =~= all);
    Some(OsText { bytes: out })
}

proof fn lemma_with_colons_prepend(d: Seq<u8>, dirs: Seq<Seq<u8>>)
    requires
        dirs.len() > 0,
    ensures
        with_colons(seq![d] + dirs) == d + seq![COLON] + with_colons(dirs),
    decreases dirs.len(),
{
    let all = seq![d] + dirs;
    assert(all.drop_last() =~= seq![d] + dirs.drop_last());
    assert(all.last() == dirs.last());
    if dirs.len() == 1 {
        assert(all.drop_last() =~= seq![d]);
        assert(with_colons(seq![d]) == d);
    } else {
        lemma_with_colons_prepend(d, dirs.drop_last());
        assert(with_colons(all) =~= d + seq![COLON] + with_colons(dirs));
    }
}

/// A search path taken apart and put together again is the same search path, and
/// none of its directories holds a colon.
pub proof fn lemma_split_then_join(s: Seq<u8>)
    ensures
        split_dirs(s).len() > 0,
        colon_free(split_dirs(s)),
        join_dirs(split_dirs(s)) == Some(s),
    decreases s.len(),
{
    if s.len() > 0 {
        let dirs = split_dirs(s.drop_last());
        let all = split_dirs(s);
        lemma_split_then_join(s.drop_last());
        assert(s =~= s.drop_last().push(s.last()));
        if s.last() == COLON {
            assert(all.drop_last() =~= dirs);
            assert forall|i: int| 0 <= i < all.len() implies !(#[trigger] all[i]).contains(COLON) by {
                if i < dirs.len() {
                    assert(all[i] == dirs[i]);
                }
            }
            assert(with_colons(all) =~= s);
        } else {
            let last = dirs.last().push(s.last());
            assert(all.drop_last() =~= dirs.drop_last());
            assert(!dirs[dirs.len() - 1].contains(COLON));
            assert forall|i: int| 0 <= i < all.len() implies !(#[trigger] all[i]).contains(COLON) by {
                if i < dirs.len() - 1 {
                    assert(all[i] == dirs[i]);
                } else {
                    assert forall|j: int| 0 <= j < last.len() implies last[j] != COLON by {
                        if j < dirs.last().len() {
                            assert(last[j] == dirs.last()[j]);
                            assert(dirs.last().contains(dirs.last()[j]));
                        }
                    }
                }
            }
            assert(with_colons(all) =~= s) by {
                if dirs.len() == 1 {
                    assert(all.len() == 1);
                } else {
                    assert(with_colons(all) == with_colons(dirs.drop_last()) + seq![COLON] + last);
                    assert(with_colons(dirs) == with_colons(dirs.drop_last()) + seq![COLON]
                        + dirs.last());
                }
            }
        }
    } else {
        assert(s =~= Seq::<u8>::empty());
    }
}

/// A directory put before those of a search path gives that directory, a colon
/// and the search path; there is no such search path where the directory holds a
/// colon.
pub proof fn lemma_prepend_dir(d: Seq<u8>, s: Seq<u8>)
    ensures
        join_dirs(seq![d] + split_dirs(s)) == if d.contains(COLON) {
            None
        } else {
            Some(d + seq![COLON] + s)
        },
{
    let all = seq![d] + split_dirs(s);
    lemma_split_then_join(s);
    lemma_with_colons_prepend(d, split_dirs(s));
    assert(all[0] == d);
    if !d.contains(COLON) {
        assert forall|i: int| 0 <= i < all.len() implies !(#[trigger] all[i]).contains(COLON) by {
            if i > 0 {
                assert(all[i] == split_dirs(s)[i - 1]);
            }
        }
    }
}

proof fn lemma_split_colon_free(d: Seq<u8>)
    requires
        !d.contains(COLON),
    ensures
        split_dirs(d) == seq![d],
    decreases d.len(),
{
    if d.len() > 0 {
        assert(d.contains(d.last()));
        assert(!d.drop_last().contains(COLON)) by {
            if d.drop_last().contains(COLON) {
                let i = choose|i: int| 0 <= i < d.len() - 1 && d.drop_last()[i] == COLON;
                assert(d[i] == COLON);
            }
        }
        lemma_split_colon_free(d.drop_last());
        assert(d.drop_last().push(d.last()) =~= d);
        assert(split_dirs(d) =~= seq![d]);
    } else {
        assert(d =~= Seq::<u8>::empty());
    }
}

/// A directory that stands before a search path is its first directory.
pub proof fn lemma_split_of_prepended(d: Seq<u8>, s: Seq<u8>)
    requires
        !d.contains(COLON),
    ensures
        split_dirs(d + seq![COLON] + s) == seq![d] + split_dirs(s),
    decreases s.len(),
{
    let all = d + seq![COLON] + s;
    if s.len() == 0 {
        assert(all.drop_last() =~= d);
        lemma_split_colon_free(d);
        assert(s =~= Seq::<u8>::empty());
        assert(split_dirs(all) =~= seq![d] + split_dirs(s));
    } else {
        assert(all.drop_last() =~= d + seq![COLON] + s.drop_last());
        lemma_split_of_prepended(d, s.drop_last());
        lemma_split_then_join(s.drop_last());
        assert(split_dirs(all) =~= seq![d] + split_dirs(s));
    }
}

/// The text that bytes stand for when what is not valid UTF-8 in them is replaced.
pub uninterp spec fn utf8_lossy(bytes: Seq<u8>) -> Seq<char>;

/// The text of `bytes`, from `String::from_utf8_lossy`. Trusted: the text depends
/// on the bytes alone, and bytes that are valid UTF-8 give exactly the text that
/// they encode. What replaces the rest is not said.
#[verifier::external_body]
pub(crate) fn text_lossy(bytes: &Vec<u8>) -> (r: String)
    ensures
        r@ == utf8_lossy(bytes@),
        valid_utf8(bytes@) ==> r@ == decode_utf8(bytes@),
{
    String::from_utf8_lossy(bytes).to_string()
}

/// The home directory of the user, from `dirs::home_dir`. Trusted: on Unix, where
/// there is one, its path is not empty. Which path it is depends on the environment
/// and on the user database, and is not said.
#[verifier::external_body]
pub(crate) fn home_dir() -> (r: Option<OsText>)
    ensures
        r matches Some(home) ==> home@.len() > 0,
{
    dirs::home_dir().map(|p| OsText { bytes: p.into_os_string().into_encoded_bytes() })
}

/// The bytes that part names, directories and endings.
pub proof fn lemma_separators()
    ensures
        SLASH == 0x2F,
        DOT == 0x2E,
        COLON == 0x3A,
{
}

/// A text is its UTF-8 bytes, and a path, an argument or a value is its bytes.
pub proof fn lemma_os_text_view(path: OsText, s: Seq<char>)
    ensures
        path@ == path.bytes@,
        path.deep_view() == path.bytes@,
        utf8(s) == encode_utf8(s),
{
}

/// A relative path goes behind the other, with exactly one slash between them, or none
/// where the other is empty; an absolute path stands alone.
pub proof fn lemma_joined_by_cases(base: Seq<u8>, part: Seq<u8>)
    ensures
        part.len() > 0 && part[0] == 0x2F ==> joined(base, part) == part,
        part.len() == 0 || part[0] != 0x2F ==> {
            &&& base.len() == 0 ==> joined(base, part) == part
            &&& base.len() > 0 && base.last() == 0x2F ==> joined(base, part) == base + part
            &&& base.len() > 0 && base.last() != 0x2F ==> joined(base, part) == base + seq![0x2Fu8]
                + part
        },
{
    if base.len() == 0 {
        assert(base + part =~= part);
    }
}

/// Slashes at the end of a path, and names of the current directory there, do not
/// change its parent.
pub proof fn lemma_parent_ignores_idle_end(p: Seq<u8>)
    requires
        p.len() > 0,
    ensures
        parent_of(p + seq![0x2Fu8]) == parent_of(p),
        p.last() != 0x2F ==> parent_of(p + seq![0x2Fu8, 0x2Eu8]) == parent_of(p),
{
    let q = p + seq![SLASH];
    assert(body_start(q) <= 1 < q.len());
    assert(last_name(q) == q.len());
    assert(q.skip(last_name(q)) =~= Seq::<u8>::empty());
    assert(without_last(q) =~= p);
    assert(without_idle_end(q) == without_idle_end(p));
    if p.last() != SLASH {
        let r = p + seq![SLASH, DOT];
        let at = p.len() + 1;
        assert(r[at - 1] == SLASH);
        assert(r[at as int] == DOT);
        lemma_name_start_after_slash(r, body_start(r), at as int, r.len() as int);
        assert(last_name(r) == at);
        assert(r.skip(at as int) =~= seq![DOT]);
        assert(without_last(r) =~= p);
        assert(without_idle_end(r) == without_idle_end(p));
    }
}

/// The root and the empty path have no parent; a plain name lies in the empty path, and
/// one behind a slash in the root.
pub proof fn lemma_parent_of_short_paths(name: Seq<u8>)
    requires
        is_name(name),
    ensures
        parent_of(Seq::empty()) is None,
        parent_of(seq![0x2Fu8]) is None,
        parent_of(name) == Some(Seq::<u8>::empty()),
        parent_of(seq![0x2Fu8] + name) == Some(seq![0x2Fu8]),
{
    let none = Seq::<u8>::empty();
    let root = seq![SLASH];
    let p = root + name;
    assert(without_idle_end(none) == none);
    assert(without_idle_end(root) == root);
    assert(root != seq![DOT]) by {
        assert(root[0] != seq![DOT][0]);
    }
    assert(none != seq![DOT]) by {
        assert(none.len() != seq![DOT].len());
    }
    assert forall|i: int| 0 <= i < name.len() implies name[i] != SLASH by {
        assert(name.contains(name[i]));
    }
    assert(body_start(name) == 0) by {
        if name.len() == 1 && name[0] == DOT {
            assert(name =~= seq![DOT]);
        }
    }
    lemma_name_without_slash(name, 0, name.len() as int);
    assert(name.skip(0) =~= name);
    assert(name.take(0) =~= none);
    assert(body_start(p) == 1);
    lemma_name_without_slash(p, 1, p.len() as int);
    assert(p.skip(1) =~= name);
    assert(p.take(1) =~= root);
}

proof fn lemma_name_without_slash(p: Seq<u8>, from: int, to: int)
    requires
        0 <= from <= to <= p.len(),
        forall|i: int| from <= i < to ==> p[i] != SLASH,
    ensures
        name_start(p, from, to) == from,
    decreases to - from,
{
    if from < to {
        lemma_name_without_slash(p, from, to - 1);
    }
}

/// A search path of one directory is that directory, and another is put behind it after
/// a colon. There is none exactly where a directory holds a colon.
pub proof fn lemma_search_path_by_directories(dirs: Seq<Seq<u8>>, d: Seq<u8>)
    requires
        forall|i: int| 0 <= i < dirs.len() ==> !(#[trigger] dirs[i]).contains(0x3Au8),
    ensures
        join_dirs(Seq::empty()) == Some(Seq::<u8>::empty()),
        join_dirs(dirs) is Some,
        d.contains(0x3Au8) ==> join_dirs(dirs.push(d)) is None,
        !d.contains(0x3Au8) && dirs.len() == 0 ==> join_dirs(dirs.push(d)) == Some(d),
        !d.contains(0x3Au8) && dirs.len() > 0 ==> join_dirs(dirs.push(d)) == Some(
            join_dirs(dirs)->0 + seq![0x3Au8] + d,
        ),
        split_dirs(Seq::empty()) == seq![Seq::<u8>::empty()],
        !d.contains(0x3Au8) ==> split_dirs(d) == seq![d],
{
    let all = dirs.push(d);
    assert(all.drop_last() =~= dirs);
    assert(all[dirs.len() as int] == d);
    if !d.contains(COLON) {
        assert forall|i: int| 0 <= i < all.len() implies !(#[trigger] all[i]).contains(COLON) by {
            if i < dirs.len() {
                assert(all[i] == dirs[i]);
            }
        }
        lemma_split_colon_free(d);
    }
}

proof fn lemma_name_behind_slash(dir: Seq<u8>, name: Seq<u8>)
    requires
        dir.len() > 0,
        is_name(name),
    ensures
        parent_of(dir + seq![SLASH] + name) == Some(without_idle_end(dir)),
{
    let p = dir + seq![SLASH] + name;
    let at = dir.len() + 1;
    assert forall|i: int| 0 <= i < name.len() implies name[i] != SLASH by {
        assert(name.contains(name[i]));
    }
    lemma_name_start_after_slash(p, body_start(p), at as int, p.len() as int);
    assert(p.skip(last_name(p)) =~= name);
    assert(without_last(p) =~= dir);
}

/// What a path names lies in the directory before its last name, whatever leads to that
/// directory; one slash more, or a name of the current directory, between the two makes
/// no difference.
pub proof fn lemma_parent_is_the_directory(lead: Seq<u8>, dir: Seq<u8>, name: Seq<u8>)
    requires
        lead.len() == 0 || lead.last() == 0x2F,
        is_name(dir),
        is_name(name),
    ensures
        parent_of(lead + dir + seq![0x2Fu8] + name) == Some(lead + dir),
        parent_of(lead + dir + seq![0x2Fu8, 0x2Fu8] + name) == Some(lead + dir),
        parent_of(lead + dir + seq![0x2Fu8, 0x2Eu8, 0x2Fu8] + name) == Some(lead + dir),
        parent_of(seq![0x2Eu8]) == Some(Seq::<u8>::empty()),
        parent_of(seq![0x2Eu8, 0x2Fu8] + name) == Some(seq![0x2Eu8]),
{
    let path = lead + dir;
    let slash = seq![SLASH];
    let dot = seq![DOT];
    assert forall|i: int| 0 <= i < dir.len() implies dir[i] != SLASH by {
        assert(dir.contains(dir[i]));
    }
    assert(dir[0] != SLASH && dir.last() != SLASH);
    assert(without_idle_end(path) == path) by {
        let from = body_start(path);
        let at = lead.len() as int;
        assert forall|i: int| at <= i < path.len() implies path[i] != SLASH by {
            assert(path[i] == dir[i - at]);
        }
        if at > from {
            lemma_name_start_after_slash(path, from, at, path.len() as int);
        } else {
            if at == 0 {
                assert(path =~= dir);
                if dir.len() == 1 && dir[0] == DOT {
                    assert(dir =~= dot);
                }
                assert(dir.len() > 1 ==> dir[1] != SLASH);
            }
            assert(from == at);
            lemma_name_without_slash(path, from, path.len() as int);
        }
        assert(path.skip(at) =~= dir);
    }
    lemma_name_behind_slash(path, name);
    lemma_parent_ignores_idle_end(path);
    let longer = path + slash;
    assert(without_idle_end(longer) == path) by {
        assert(last_name(longer) == longer.len());
        assert(longer.skip(last_name(longer)) =~= Seq::<u8>::empty());
        assert(without_last(longer) =~= path);
    }
    lemma_name_behind_slash(longer, name);
    assert(path + seq![SLASH, SLASH] + name =~= longer + slash + name);
    let dotted = path + seq![SLASH, DOT];
    assert(without_idle_end(dotted) == path) by {
        let at = path.len() + 1;
        assert(dotted[at - 1] == SLASH);
        assert(dotted[at as int] == DOT);
        lemma_name_start_after_slash(dotted, body_start(dotted), at as int, dotted.len() as int);
        assert(dotted.skip(at as int) =~= dot);
        assert(without_last(dotted) =~= path);
    }
    lemma_name_behind_slash(dotted, name);
    assert(path + seq![SLASH, DOT, SLASH] + name =~= dotted + slash + name);
    assert(without_idle_end(dot) == dot);
    lemma_name_behind_slash(dot, name);
    assert(seq![DOT, SLASH] + name =~= dot + slash + name);
}

} // verus!

//! Paths in the Unix notation, kept as text.
//!
//! A path is a sequence of characters in which `/` separates the components.  There are two
//! ways of putting something behind a path: a string is pushed as it stands, a path is pushed
//! component by component.
use vstd::prelude::*;
use vstd::std_specs::convert::FromSpecImpl;
use vstd::std_specs::ops::DivSpecImpl;

use crate::text::split;

verus! {

/// The directory, below the initial root, that becomes the root of the container.
pub const NEW_ROOT_DIR: &'static str = "new-root";

/// The directory, below the initial root, to which the root of the host is moved.
pub const OLD_ROOT_DIR: &'static str = "old-root";

/// Where the initial root is mounted.
pub const ROOT_INIT_PATH: &'static str = "/tmp";

/// Whether a path starts at the root directory.
pub open spec fn is_absolute(path: Seq<char>) -> bool {
    path.len() > 0 && path[0] == '/'
}

/// The text that results from pushing `rhs` behind `base`: an absolute path replaces what was
/// there, anything else follows a single separator.
pub open spec fn pushed(base: Seq<char>, rhs: Seq<char>) -> Seq<char> {
    if is_absolute(rhs) {
        rhs
    } else if base.len() > 0 && base.last() != '/' {
        base.push('/') + rhs
    } else {
        base + rhs
    }
}

/// The text that results from pushing every part in turn.
pub open spec fn extended(base: Seq<char>, parts: Seq<Seq<char>>) -> Seq<char>
    decreases parts.len(),
{
    if parts.len() == 0 {
        base
    } else {
        pushed(extended(base, parts.drop_last()), parts.last())
    }
}

/// The pieces of a text between its separators; there is one more of them than separators.
pub open spec fn segments(path: Seq<char>) -> Seq<Seq<char>>
    decreases path.len(),
{
    if path.len() == 0 {
        seq![path]
    } else {
        let before = segments(path.drop_last());
        if path.last() == '/' {
            before.push(Seq::empty())
        } else {
            before.drop_last().push(before.last().push(path.last()))
        }
    }
}

/// Whether a segment names something: neither empty nor the current directory.
pub open spec fn is_name(segment: Seq<char>) -> bool {
    segment.len() > 0 && segment != seq!['.']
}

/// The segments that name something, in order.
pub open spec fn names(segments: Seq<Seq<char>>) -> Seq<Seq<char>> {
    segments.filter(|s: Seq<char>| is_name(s))
}

/// The component with which a path opens besides its names: the root of an absolute path, or
/// the current directory where a relative path is spelled with it.
pub open spec fn lead(path: Seq<char>) -> Seq<Seq<char>> {
    if is_absolute(path) {
        seq![seq!['/']]
    } else if segments(path)[0] == seq!['.'] {
        seq![seq!['.']]
    } else {
        seq![]
    }
}

/// The components of a path: repeated separators, separators at the end and any `.` but a
/// leading one are left out.
pub open spec fn components(path: Seq<char>) -> Seq<Seq<char>> {
    lead(path) + names(segments(path))
}

/// The components of a path without the root directory.
pub open spec fn relative_components(path: Seq<char>) -> Seq<Seq<char>> {
    if is_absolute(path) {
        names(segments(path))
    } else {
        components(path)
    }
}

/// The text that results from putting the path `rhs` behind `base`.
pub open spec fn joined(base: Seq<char>, rhs: Seq<char>) -> Seq<char> {
    extended(base, components(rhs))
}

/// The text that results from putting `path` below `root`, whether it is absolute or not.
pub open spec fn rebased(root: Seq<char>, path: Seq<char>) -> Seq<char> {
    extended(root, relative_components(path))
}

/// A path without separators and `.` at its end; the root directory stays.
pub open spec fn trimmed(path: Seq<char>) -> Seq<char>
    decreases path.len(),
{
    if path.len() > 1 && (path.last() == '/' || (path.last() == '.' && path[path.len() - 2]
        == '/')) {
        trimmed(path.drop_last())
    } else {
        path
    }
}

/// A path up to and with its last separator.
pub open spec fn without_last(path: Seq<char>) -> Seq<char>
    decreases path.len(),
{
    if path.len() > 0 && path.last() != '/' {
        without_last(path.drop_last())
    } else {
        path
    }
}

/// The path of the directory that holds what a path names.  The root directory and the empty
/// path are in none.
pub open spec fn parent(path: Seq<char>) -> Option<Seq<char>> {
    let t = trimmed(path);
    if t.len() == 0 || t == seq!['/'] {
        None
    } else {
        Some(trimmed(without_last(t)))
    }
}

/// The texts of a list of strings.
pub open spec fn texts(parts: Seq<String>) -> Seq<Seq<char>> {
    parts.map_values(|s: String| s@)
}

/// The texts of a list of string slices.
pub open spec fn slice_texts(parts: Seq<&str>) -> Seq<Seq<char>> {
    parts.map_values(|s: &str| s@)
}

/// What the debug format of `std::path::Path` makes of a path with this text.
pub uninterp spec fn quoted_path(text: Seq<char>) -> Seq<char>;

/// `Debug` of `std::path::Path`, by way of `format!`; claims that the result depends on the text
/// alone.  The text is put in quotes, with escapes for characters that do not print; which
/// characters are escaped, and how, is left unsaid.
#[verifier::external_body]
fn path_debug(text: &str) -> (r: String)
    ensures
        r@ == quoted_path(text@),
{
    format!("{:?}", std::path::Path::new(text))
}

/// A path.
#[derive(Debug)]
pub struct _Path {
    inner: String,
}

impl View for _Path {
    type V = Seq<char>;

    closed spec fn view(&self) -> Seq<char> {
        self.inner@
    }
}

impl _Path {
    /// The text of the path.
    pub fn as_path(&self) -> (text: &str)
        ensures
            text@ == self@,
    {
        self.inner.as_str()
    }

    /// The path that results from pushing every part in turn, from nothing.
    pub fn from_iter(parts: &Vec<&str>) -> (path: _Path)
        ensures
            path@ == extended(seq![], slice_texts(parts@)),
    {
        let mut path = _Path { inner: String::new() };
        let mut i: usize = 0;
        while i < parts.len()
            invariant
                i <= parts.len(),
                path@ == extended(seq![], slice_texts(parts@).take(i as int)),
            decreases parts.len() - i,
        {
            path.push(parts[i]);
            proof {
                lemma_extended_step(seq![], slice_texts(parts@), i as int);
            }
            i = i + 1;
        }
        proof {
            assert(slice_texts(parts@).take(i as int) =~= slice_texts(parts@));
        }
        path
    }

    /// The path as it is shown in messages, in quotes.
    pub fn display(&self) -> (r: String)
        ensures
            r@ == quoted_path(self@),
    {
        path_debug(self.inner.as_str())
    }

    /// Another path with the same text.
    pub fn copy(&self) -> (path: _Path)
        ensures
            path@ == self@,
    {
        _Path { inner: self.inner.clone() }
    }

    fn push(&mut self, rhs: &str)
        ensures
            final(self)@ == pushed(old(self)@, rhs@),
    {
        let n = self.inner.as_str().unicode_len();
        if rhs.unicode_len() > 0 && rhs.get_char(0) == '/' {
            self.inner = rhs.to_owned();
        } else {
            if n > 0 && self.inner.as_str().get_char(n - 1) != '/' {
                proof {
                    reveal_strlit("/");
                    assert(self.inner@ + "/"@ =~= self.inner@.push('/'));
                }
                self.inner.append("/");
            }
            self.inner.append(rhs);
        }
    }

    fn extend(&mut self, parts: &Vec<String>)
        ensures
            final(self)@ == extended(old(self)@, texts(parts@)),
    {
        let ghost base = self@;
        let mut i: usize = 0;
        while i < parts.len()
            invariant
                i <= parts.len(),
                self@ == extended(base, texts(parts@).take(i as int)),
            decreases parts.len() - i,
        {
            self.push(parts[i].as_str());
            proof {
                lemma_extended_step(base, texts(parts@), i as int);
            }
            i = i + 1;
        }
        proof {
            assert(texts(parts@).take(i as int) =~= texts(parts@));
        }
    }

    /// This path with `rhs` pushed as it stands.
    pub fn with(&self, rhs: &str) -> (path: _Path)
        ensures
            path@ == pushed(self@, rhs@),
    {
        let mut path = self.copy();
        path.push(rhs);
        path
    }

    /// This path with the components of `rhs` pushed one by one.
    pub fn join(&self, rhs: &_Path) -> (path: _Path)
        ensures
            path@ == joined(self@, rhs@),
    {
        let mut path = self.copy();
        path.extend(&split_components(rhs.as_path(), true));
        path
    }

    /// `path` put below this one; the root of an absolute path is left out.
    pub fn rebase(&self, path: &str) -> (r: _Path)
        ensures
            r@ == rebased(self@, path@),
    {
        let mut r = self.copy();
        r.extend(&split_components(path, false));
        r
    }
}

/// The names in a path, behind its leading component.  The root counts as a leading component
/// only `with_root`.
fn split_components(path: &str, with_root: bool) -> (parts: Vec<String>)
    ensures
        texts(parts@) == if with_root {
            components(path@)
        } else {
            relative_components(path@)
        },
{
    let n = path.unicode_len();
    let mut parts: Vec<String> = Vec::new();
    let absolute = n > 0 && path.get_char(0) == '/';
    proof {
        reveal_strlit("/");
        reveal_strlit(".");
        assert("/"@ =~= seq!['/']);
        assert("."@ =~= seq!['.']);
    }
    if absolute {
        if with_root {
            parts.push("/".to_owned());
        }
    } else if n > 0 && path.get_char(0) == '.' && (n == 1 || path.get_char(1) == '/') {
        parts.push(".".to_owned());
    }
    let ghost head = texts(parts@);
    proof {
        lemma_lead(path@);
        assert(head =~= if with_root || !is_absolute(path@) {
            lead(path@)
        } else {
            seq![]
        });
    }
    let mut start: usize = 0;
    let mut i: usize = 0;
    proof {
        assert(path@.take(0) =~= Seq::<char>::empty());
        assert(path@.subrange(0, 0) =~= Seq::<char>::empty());
        assert(segments(path@.take(0)).drop_last() =~= Seq::<Seq<char>>::empty());
        lemma_names_empty();
        assert(texts(parts@) =~= head + names(Seq::<Seq<char>>::empty()));
    }
    while i < n
        invariant
            n == path@.len(),
            start <= i <= n,
            segments(path@.take(i as int)).len() > 0,
            segments(path@.take(i as int)).last() == path@.subrange(start as int, i as int),
            texts(parts@) == head + names(segments(path@.take(i as int)).drop_last()),
        decreases n - i,
    {
        let ghost before = segments(path@.take(i as int));
        proof {
            assert(path@.take(i + 1).drop_last() =~= path@.take(i as int));
            assert(path@.take(i + 1).last() == path@[i as int]);
        }
        if path.get_char(i) == '/' {
            push_name(&mut parts, path, start, i);
            proof {
                lemma_names_push(before.drop_last(), before.last());
                assert(before.drop_last().push(before.last()) =~= before);
                assert(segments(path@.take(i + 1)).drop_last() =~= before);
                assert(path@.subrange(i + 1, i + 1) =~= Seq::<char>::empty());
                assert(texts(parts@) =~= head + names(before));
            }
            start = i + 1;
        } else {
            proof {
                assert(path@.subrange(start as int, i + 1) =~= path@.subrange(
                    start as int,
                    i as int,
                ).push(path@[i as int]));
                assert(segments(path@.take(i + 1)).drop_last() =~= before.drop_last());
            }
        }
        i = i + 1;
    }
    proof {
        assert(path@.take(n as int) =~= path@);
    }
    let ghost all = segments(path@);
    push_name(&mut parts, path, start, n);
    proof {
        lemma_names_push(all.drop_last(), all.last());
        assert(all.drop_last().push(all.last()) =~= all);
        assert(texts(parts@) =~= head + names(all));
        assert(texts(parts@) =~= if with_root {
            components(path@)
        } else {
            relative_components(path@)
        });
    }
    parts
}

/// Appends the segment of `path` between two positions, if it names something.
fn push_name(parts: &mut Vec<String>, path: &str, from: usize, to: usize)
    requires
        from <= to <= path@.len(),
    ensures
        texts(final(parts)@) == if is_name(path@.subrange(from as int, to as int)) {
            texts(old(parts)@).push(path@.subrange(from as int, to as int))
        } else {
            texts(old(parts)@)
        },
{
    let ghost segment = path@.subrange(from as int, to as int);
    let is_dot = to - from == 1 && path.get_char(from) == '.';
    proof {
        if is_dot {
            assert(segment =~= seq!['.']);
        } else if segment == seq!['.'] {
            assert(segment.len() == 1 && segment[0] == '.');
        }
    }
    if from < to && !is_dot {
        parts.push(path.substring_char(from, to).to_owned());
        proof {
            assert(texts(parts@) =~= texts(old(parts)@).push(segment));
        }
    }
}

/// How many characters of the first `len` of a path stay when it is trimmed.
fn trim(path: &str, len: usize) -> (n: usize)
    requires
        len <= path@.len(),
    ensures
        n <= len,
        path@.take(n as int) == trimmed(path@.take(len as int)),
{
    let mut n = len;
    while n > 1 && (path.get_char(n - 1) == '/' || (path.get_char(n - 1) == '.' && path.get_char(
        n - 2,
    ) == '/'))
        invariant
            n <= len <= path@.len(),
            trimmed(path@.take(n as int)) == trimmed(path@.take(len as int)),
        decreases n,
    {
        proof {
            assert(path@.take(n as int).drop_last() =~= path@.take(n - 1));
        }
        n = n - 1;
    }
    n
}

/// The path of the directory that holds what a path names.
pub fn parent_of(path: &str) -> (r: Option<String>)
    ensures
        crate::text::opt_string_text(r) == parent(path@),
{
    let len = path.unicode_len();
    proof {
        assert(path@.take(len as int) =~= path@);
    }
    let mut n = trim(path, len);
    let ghost t = path@.take(n as int);
    if n == 0 {
        return None;
    }
    if n == 1 && path.get_char(0) == '/' {
        assert(t =~= seq!['/']);
        return None;
    }
    proof {
        if t == seq!['/'] {
            assert(t.len() == 1 && t[0] == '/');
        }
    }
    while n > 0 && path.get_char(n - 1) != '/'
        invariant
            n <= path@.len(),
            without_last(path@.take(n as int)) == without_last(t),
        decreases n,
    {
        proof {
            assert(path@.take(n as int).drop_last() =~= path@.take(n - 1));
        }
        n = n - 1;
    }
    let k = trim(path, n);
    proof {
        assert(path@.subrange(0, k as int) =~= path@.take(k as int));
    }
    Some(path.substring_char(0, k).to_owned())
}

impl FromSpecImpl<&str> for _Path {
    open spec fn obeys_from_spec() -> bool {
        false
    }

    open spec fn from_spec(v: &str) -> Self {
        vstd::pervasive::arbitrary()
    }
}

impl From<&str> for _Path {
    fn from(path: &str) -> (r: Self)
        ensures
            r@ == path@,
    {
        _Path { inner: path.to_owned() }
    }
}

impl<'x> FromSpecImpl<&'x _Path> for &'x str {
    open spec fn obeys_from_spec() -> bool {
        false
    }

    open spec fn from_spec(v: &'x _Path) -> Self {
        vstd::pervasive::arbitrary()
    }
}

impl<'x> From<&'x _Path> for &'x str {
    fn from(path: &'x _Path) -> (r: Self)
        ensures
            r@ == path@,
    {
        path.as_path()
    }
}

impl DivSpecImpl<&str> for _Path {
    open spec fn obeys_div_spec() -> bool {
        false
    }

    open spec fn div_req(self, rhs: &str) -> bool {
        true
    }

    open spec fn div_spec(self, rhs: &str) -> _Path {
        vstd::pervasive::arbitrary()
    }
}

impl core::ops::Div<&str> for _Path {
    type Output = _Path;

    fn div(self, rhs: &str) -> (r: _Path)
        ensures
            r@ == pushed(self@, rhs@),
    {
        let mut path = self;
        path.push(rhs);
        path
    }
}

impl DivSpecImpl<&str> for &_Path {
    open spec fn obeys_div_spec() -> bool {
        false
    }

    open spec fn div_req(self, rhs: &str) -> bool {
        true
    }

    open spec fn div_spec(self, rhs: &str) -> _Path {
        vstd::pervasive::arbitrary()
    }
}

impl core::ops::Div<&str> for &_Path {
    type Output = _Path;

    fn div(self, rhs: &str) -> (r: _Path)
        ensures
            r@ == pushed(self@, rhs@),
    {
        self.with(rhs)
    }
}

impl DivSpecImpl<&_Path> for _Path {
    open spec fn obeys_div_spec() -> bool {
        false
    }

    open spec fn div_req(self, rhs: &_Path) -> bool {
        true
    }

    open spec fn div_spec(self, rhs: &_Path) -> _Path {
        vstd::pervasive::arbitrary()
    }
}

impl core::ops::Div<&_Path> for _Path {
    type Output = _Path;

    fn div(self, rhs: &_Path) -> (r: _Path)
        ensures
            r@ == joined(self@, rhs@),
    {
        let mut path = self;
        path.extend(&split_components(rhs.as_path(), true));
        path
    }
}

impl DivSpecImpl<&_Path> for &_Path {
    open spec fn obeys_div_spec() -> bool {
        false
    }

    open spec fn div_req(self, rhs: &_Path) -> bool {
        true
    }

    open spec fn div_spec(self, rhs: &_Path) -> _Path {
        vstd::pervasive::arbitrary()
    }
}

impl core::ops::Div<&_Path> for &_Path {
    type Output = _Path;

    fn div(self, rhs: &_Path) -> (r: _Path)
        ensures
            r@ == joined(self@, rhs@),
    {
        self.join(rhs)
    }
}

proof fn lemma_extended_step(base: Seq<char>, parts: Seq<Seq<char>>, i: int)
    requires
        0 <= i < parts.len(),
    ensures
        extended(base, parts.take(i + 1)) == pushed(extended(base, parts.take(i)), parts[i]),
{
    assert(parts.take(i + 1).drop_last() =~= parts.take(i));
}

proof fn lemma_names_empty()
    ensures
        names(Seq::<Seq<char>>::empty()) == Seq::<Seq<char>>::empty(),
{
    reveal(Seq::filter);
}

proof fn lemma_names_push(segments: Seq<Seq<char>>, segment: Seq<char>)
    ensures
        names(segments.push(segment)) == if is_name(segment) {
            names(segments).push(segment)
        } else {
            names(segments)
        },
{
    reveal(Seq::filter);
    assert(segments.push(segment).drop_last() =~= segments);
}

/// What the first two characters of a path tell of its first segment.
proof fn lemma_first_segment(path: Seq<char>)
    ensures
        segments(path).len() > 0,
        path.len() == 0 ==> segments(path)[0].len() == 0,
        path.len() > 0 && path[0] == '/' ==> segments(path)[0].len() == 0 && segments(path).len()
            > 1,
        path.len() > 0 && path[0] != '/' ==> segments(path)[0].len() > 0 && segments(path)[0][0]
            == path[0],
        path.len() > 0 && path[0] != '/' && (path.len() == 1 || path[1] == '/') ==> segments(
            path,
        )[0].len() == 1,
        path.len() > 1 && path[0] != '/' && path[1] != '/' ==> segments(path)[0].len() > 1,
        path.len() > 1 && path[0] != '/' && path[1] == '/' ==> segments(path).len() > 1,
    decreases path.len(),
{
    reveal_with_fuel(segments, 3);
    if path.len() > 2 {
        lemma_first_segment(path.drop_last());
    }
}

proof fn lemma_lead(path: Seq<char>)
    ensures
        !is_absolute(path) ==> (segments(path)[0] == seq!['.'] <==> path.len() > 0 && path[0] == '.'
            && (path.len() == 1 || path[1] == '/')),
{
    lemma_first_segment(path);
    if path.len() > 0 && path[0] == '.' && (path.len() == 1 || path[1] == '/') {
        assert(segments(path)[0] =~= seq!['.']);
    }
}

/// No segment holds a separator.
proof fn lemma_segments_plain(path: Seq<char>)
    ensures
        forall|i: int, j: int|
            0 <= i < segments(path).len() && 0 <= j < segments(path)[i].len() ==> segments(
                path,
            )[i][j] != '/',
    decreases path.len(),
{
    lemma_first_segment(path);
    if path.len() > 0 {
        lemma_segments_plain(path.drop_last());
        lemma_first_segment(path.drop_last());
    }
}

/// Text without a separator continues the last segment.
proof fn lemma_segments_append(base: Seq<char>, text: Seq<char>)
    requires
        forall|j: int| 0 <= j < text.len() ==> text[j] != '/',
    ensures
        segments(base + text) == segments(base).drop_last().push(segments(base).last() + text),
    decreases text.len(),
{
    lemma_first_segment(base);
    if text.len() == 0 {
        assert(base + text =~= base);
        assert(segments(base).last() + text =~= segments(base).last());
        assert(segments(base).drop_last().push(segments(base).last()) =~= segments(base));
    } else {
        let shorter = text.drop_last();
        lemma_segments_append(base, shorter);
        assert((base + text).drop_last() =~= base + shorter);
        assert((base + text).last() == text.last());
        let before = segments(base + shorter);
        assert(before.drop_last() =~= segments(base).drop_last());
        assert((segments(base).last() + shorter).push(text.last()) =~= segments(base).last() + text);
    }
}

/// A separator at the end of a path starts one more segment.
proof fn lemma_segments_separator(base: Seq<char>)
    ensures
        segments(base.push('/')) == segments(base).push(Seq::empty()),
{
    assert(base.push('/').drop_last() =~= base);
}

/// The segments of a path behind which a part without separators was pushed.
proof fn lemma_segments_pushed(base: Seq<char>, part: Seq<char>)
    requires
        part.len() > 0,
        forall|j: int| 0 <= j < part.len() ==> part[j] != '/',
        base.len() > 0,
    ensures
        segments(pushed(base, part)).last() == part,
        names(segments(pushed(base, part)).drop_last()) == names(segments(base)),
        is_absolute(pushed(base, part)) == is_absolute(base),
        segments(pushed(base, part))[0] == segments(base)[0],
{
    lemma_first_segment(base);
    let open = if base.last() == '/' {
        base
    } else {
        base.push('/')
    };
    assert(pushed(base, part) =~= open + part);
    lemma_segments_append(open, part);
    if base.last() == '/' {
        let before = segments(base.drop_last());
        lemma_first_segment(base.drop_last());
        assert(segments(base) =~= before.push(Seq::empty()));
        assert(segments(base).drop_last() =~= before);
        lemma_names_push(before, Seq::empty());
    } else {
        lemma_segments_separator(base);
        assert(segments(open).drop_last() =~= segments(base));
    }
    assert(segments(open).last() =~= Seq::<char>::empty());
    assert(segments(open).last() + part =~= part);
    assert(segments(open).drop_last().push(part).drop_last() =~= segments(open).drop_last());
}

/// Pushing a name behind a path adds that name to its components and changes nothing else.
pub proof fn law_pushed_name(base: Seq<char>, name: Seq<char>)
    requires
        is_name(name),
        !name.contains('/'),
    ensures
        components(pushed(base, name)) == components(base).push(name),
{
    assert forall|j: int| 0 <= j < name.len() implies name[j] != '/' by {
        assert(name.contains(name[j]));
    }
    if base.len() == 0 {
        assert(pushed(base, name) =~= base + name);
        lemma_segments_append(base, name);
        assert(segments(base) =~= seq![base]);
        assert(segments(base).drop_last() =~= Seq::<Seq<char>>::empty());
        assert(base + name =~= name);
        lemma_names_empty();
        lemma_names_push(seq![], base);
        lemma_names_push(seq![], name);
        assert(seq![base] =~= Seq::<Seq<char>>::empty().push(base));
        assert(components(base) =~= Seq::<Seq<char>>::empty()) by {
            lemma_lead(base);
        }
        assert(segments(name)[0] == name);
        assert(components(name) =~= seq![name]);
        assert(components(base).push(name) =~= seq![name]);
    } else {
        let all = segments(pushed(base, name));
        lemma_segments_pushed(base, name);
        lemma_first_segment(pushed(base, name));
        lemma_names_push(all.drop_last(), all.last());
        assert(all.drop_last().push(all.last()) =~= all);
        assert(components(pushed(base, name)) =~= components(base).push(name));
    }
}

/// Whether a part can be a component other than the root.
spec fn is_plain(part: Seq<char>) -> bool {
    part.len() > 0 && forall|j: int| 0 <= j < part.len() ==> part[j] != '/'
}

proof fn lemma_extended_components(base: Seq<char>, parts: Seq<Seq<char>>)
    requires
        base.len() > 0,
        forall|i: int| 0 <= i < parts.len() ==> is_plain(#[trigger] parts[i]),
    ensures
        extended(base, parts).len() > 0,
        components(extended(base, parts)) == components(base) + names(parts),
    decreases parts.len(),
{
    if parts.len() == 0 {
        lemma_names_empty();
        assert(parts =~= Seq::empty());
        assert(components(base) + names(parts) =~= components(base));
    } else {
        let shorter = extended(base, parts.drop_last());
        let part = parts.last();
        assert forall|i: int| 0 <= i < parts.drop_last().len() implies is_plain(
            #[trigger] parts.drop_last()[i],
        ) by {
            assert(is_plain(parts[i]));
        }
        lemma_extended_components(base, parts.drop_last());
        assert(is_plain(part));
        lemma_segments_pushed(shorter, part);
        let all = segments(pushed(shorter, part));
        lemma_first_segment(pushed(shorter, part));
        lemma_names_push(all.drop_last(), all.last());
        assert(all.drop_last().push(all.last()) =~= all);
        lemma_names_push(parts.drop_last(), part);
        assert(parts.drop_last().push(part) =~= parts);
        let grown = pushed(shorter, part);
        assert(lead(grown) == lead(shorter));
        if is_name(part) {
            assert(components(grown) =~= components(shorter).push(part));
            assert(components(grown) =~= components(base) + names(parts));
        } else {
            assert(components(grown) =~= components(shorter));
        }
    }
}

/// The components of a path that can stand behind another one.
proof fn lemma_relative_components_plain(path: Seq<char>)
    ensures
        forall|i: int|
            0 <= i < relative_components(path).len() ==> is_plain(
                #[trigger] relative_components(path)[i],
            ),
        names(relative_components(path)) == names(segments(path)),
{
    let parts = relative_components(path);
    let found = names(segments(path));
    let keep = |s: Seq<char>| is_name(s);
    lemma_segments_plain(path);
    assert forall|i: int| 0 <= i < found.len() implies is_plain(#[trigger] found[i]) && is_name(
        found[i],
    ) by {
        segments(path).lemma_filter_pred(keep, i);
        assert(keep(found[i]));
        assert(found.contains(found[i]));
        segments(path).lemma_filter_contains_rev(keep, found[i]);
        let k = choose|k: int| 0 <= k < segments(path).len() && segments(path)[k] == found[i];
        assert(segments(path)[k] == found[i]);
    }
    lemma_names_idempotent(found);
    if !is_absolute(path) && segments(path)[0] == seq!['.'] {
        found.lemma_filter_prepend(seq!['.'], keep);
        assert(parts =~= seq![seq!['.']] + found);
        assert forall|i: int| 0 <= i < parts.len() implies is_plain(#[trigger] parts[i]) by {
            if i > 0 {
                assert(parts[i] == found[i - 1]);
            }
        }
    } else {
        assert(parts =~= found);
    }
}

proof fn lemma_names_idempotent(parts: Seq<Seq<char>>)
    requires
        forall|i: int| 0 <= i < parts.len() ==> is_name(#[trigger] parts[i]),
    ensures
        names(parts) == parts,
    decreases parts.len(),
{
    if parts.len() == 0 {
        lemma_names_empty();
        assert(parts =~= Seq::empty());
    } else {
        let before = parts.drop_last();
        assert forall|i: int| 0 <= i < before.len() implies is_name(#[trigger] before[i]) by {
            assert(is_name(parts[i]));
        }
        lemma_names_idempotent(before);
        lemma_names_push(before, parts.last());
        assert(before.push(parts.last()) =~= parts);
    }
}

/// Names that are pushed behind any path are added to its components.
proof fn lemma_extended_names(base: Seq<char>, parts: Seq<Seq<char>>)
    requires
        forall|i: int| 0 <= i < parts.len() ==> is_plain(#[trigger] parts[i]) && is_name(parts[i]),
    ensures
        components(extended(base, parts)) == components(base) + parts,
        is_absolute(extended(base, parts)) == is_absolute(base),
    decreases parts.len(),
{
    if parts.len() == 0 {
        assert(components(base) + parts =~= components(base));
    } else {
        let before = parts.drop_last();
        let name = parts.last();
        assert forall|i: int| 0 <= i < before.len() implies is_plain(#[trigger] before[i])
            && is_name(before[i]) by {
            assert(is_plain(parts[i]));
        }
        lemma_extended_names(base, before);
        assert(is_plain(parts[parts.len() - 1]));
        assert(!name.contains('/'));
        law_pushed_name(extended(base, before), name);
        assert(components(base) + parts =~= (components(base) + before).push(name));
    }
}

/// Whatever path is put below a root, the components of the root stay in front: the result is
/// the root followed by the names in the path.  This leaves out the empty root where the path
/// opens with the current directory, which then opens the result.
pub proof fn law_rebased_stays_below(root: Seq<char>, path: Seq<char>)
    requires
        root.len() > 0 || lead(path) != seq![seq!['.']],
    ensures
        components(rebased(root, path)) == components(root) + names(segments(path)),
        is_absolute(rebased(root, path)) == is_absolute(root),
{
    lemma_relative_components_plain(path);
    if root.len() > 0 {
        lemma_extended_components(root, relative_components(path));
        lemma_extended_absolute(root, relative_components(path));
    } else {
        let found = names(segments(path));
        let keep = |s: Seq<char>| is_name(s);
        assert(relative_components(path) =~= found);
        assert forall|i: int| 0 <= i < found.len() implies is_plain(#[trigger] found[i]) && is_name(
            found[i],
        ) by {
            assert(is_plain(relative_components(path)[i]));
            segments(path).lemma_filter_pred(keep, i);
            assert(keep(found[i]));
        }
        lemma_extended_names(root, found);
    }
}

proof fn lemma_extended_absolute(base: Seq<char>, parts: Seq<Seq<char>>)
    requires
        base.len() > 0,
        forall|i: int| 0 <= i < parts.len() ==> is_plain(#[trigger] parts[i]),
    ensures
        extended(base, parts).len() > 0,
        is_absolute(extended(base, parts)) == is_absolute(base),
    decreases parts.len(),
{
    if parts.len() > 0 {
        assert forall|i: int| 0 <= i < parts.drop_last().len() implies is_plain(
            #[trigger] parts.drop_last()[i],
        ) by {
            assert(is_plain(parts[i]));
        }
        lemma_extended_absolute(base, parts.drop_last());
        assert(is_plain(parts.last()));
    }
}

/// Putting a relative path below a root and joining it are the same.
pub proof fn law_joined_relative(root: Seq<char>, path: Seq<char>)
    requires
        !is_absolute(path),
    ensures
        joined(root, path) == rebased(root, path),
{
}

/// Joining an absolute path forgets what was in front of it.
pub proof fn law_joined_absolute(base: Seq<char>, path: Seq<char>)
    requires
        is_absolute(path),
    ensures
        joined(base, path) == rebased(seq!['/'], path),
{
    let rest = names(segments(path));
    lemma_extended_root(base, rest);
    assert(components(path) =~= seq![seq!['/']] + rest);
}

proof fn lemma_extended_root(base: Seq<char>, rest: Seq<Seq<char>>)
    ensures
        extended(base, seq![seq!['/']] + rest) == extended(seq!['/'], rest),
    decreases rest.len(),
{
    let all = seq![seq!['/']] + rest;
    if rest.len() == 0 {
        assert(all.drop_last() =~= Seq::empty());
        assert(all.last() == seq!['/']);
    } else {
        lemma_extended_root(base, rest.drop_last());
        assert(all.drop_last() =~= seq![seq!['/']] + rest.drop_last());
        assert(all.last() == rest.last());
    }
}

/// Strings can be pushed one after the other or first onto each other.
pub proof fn law_pushed_associative(a: Seq<char>, b: Seq<char>, c: Seq<char>)
    ensures
        pushed(pushed(a, b), c) == pushed(a, pushed(b, c)),
{
    if b.len() > 0 {
        assert(pushed(a, b).last() == b.last());
    }
    assert(pushed(pushed(a, b), c) =~= pushed(a, pushed(b, c)));
}

proof fn lemma_trimmed_names(path: Seq<char>)
    ensures
        names(segments(trimmed(path))) == names(segments(path)),
        trimmed(path).len() > 1 ==> trimmed(path).last() != '/' && !(trimmed(path).last() == '.'
            && trimmed(path)[trimmed(path).len() - 2] == '/'),
    decreases path.len(),
{
    if path.len() > 1 && (path.last() == '/' || (path.last() == '.' && path[path.len() - 2]
        == '/')) {
        let shorter = path.drop_last();
        lemma_trimmed_names(shorter);
        lemma_first_segment(shorter);
        let before = segments(shorter);
        if path.last() == '/' {
            lemma_names_push(before, Seq::empty());
        } else {
            let ahead = segments(shorter.drop_last());
            assert(before =~= ahead.push(Seq::empty()));
            assert(before.drop_last() =~= ahead);
            lemma_names_push(ahead, Seq::empty());
            assert(Seq::<char>::empty().push('.') =~= seq!['.']);
            lemma_names_push(ahead, seq!['.']);
        }
    }
}

proof fn lemma_without_last(path: Seq<char>)
    requires
        path.len() > 0,
        path.last() != '/',
    ensures
        segments(path).len() > 0,
        segments(path).last().len() > 0,
        without_last(path).len() + segments(path).last().len() == path.len(),
        path == without_last(path) + segments(path).last(),
        segments(without_last(path)).len() == segments(path).len(),
        segments(without_last(path)).drop_last() == segments(path).drop_last(),
        segments(without_last(path)).last().len() == 0,
    decreases path.len(),
{
    let shorter = path.drop_last();
    lemma_first_segment(shorter);
    lemma_first_segment(path);
    let before = segments(shorter);
    assert(segments(path).drop_last() =~= before.drop_last());
    if shorter.len() > 0 && shorter.last() != '/' {
        lemma_without_last(shorter);
        let w = without_last(shorter);
        assert(segments(path).last() == before.last().push(path.last()));
        assert(path =~= (w + before.last()).push(path.last()));
        assert(path =~= w + before.last().push(path.last()));
    } else {
        assert(without_last(path) == shorter);
        assert(before.last().len() == 0);
        assert(path =~= shorter + segments(path).last());
    }
}

/// A path that names something is in a directory, whose names are those of the path but the
/// last.
pub proof fn law_parent(path: Seq<char>)
    requires
        names(segments(path)).len() > 0,
    ensures
        parent(path) is Some,
        names(segments(parent(path)->0)) == names(segments(path)).drop_last(),
{
    let t = trimmed(path);
    lemma_trimmed_names(path);
    reveal_with_fuel(segments, 3);
    lemma_names_empty();
    let none = Seq::<Seq<char>>::empty();
    lemma_names_push(none, seq![]);
    lemma_names_push(none.push(seq![]), seq![]);
    lemma_names_push(none, seq!['.']);
    if t.len() == 0 {
        assert(segments(t) =~= none.push(t));
        assert(t =~= seq![]);
    } else if t.len() == 1 && t[0] == '/' {
        assert(t.drop_last() =~= seq![]);
        assert(segments(t) =~= none.push(seq![]).push(seq![]));
    } else {
        assert(t != seq!['/']) by {
            if t == seq!['/'] {
                assert(t.len() == 1 && t[0] == '/');
            }
        }
        lemma_without_last(t);
        let w = without_last(t);
        let name = segments(t).last();
        assert(is_name(name)) by {
            if name == seq!['.'] {
                assert(t == w + name);
                assert(name.len() == 1 && name[0] == '.');
                assert(t.last() == '.');
                if t.len() == 1 {
                    assert(t =~= seq!['.']);
                    assert(t.drop_last() =~= seq![]);
                    assert(segments(t) =~= none.push(seq!['.']));
                } else {
                    lemma_without_last_ends(t);
                    assert(t[t.len() - 2] == w.last());
                }
            }
        }
        assert(segments(t).drop_last().push(name) =~= segments(t));
        lemma_names_push(segments(t).drop_last(), name);
        let last = segments(w).last();
        assert(segments(w).drop_last().push(last) =~= segments(w));
        lemma_names_push(segments(w).drop_last(), last);
        lemma_trimmed_names(w);
        assert(names(segments(t)).drop_last() =~= names(segments(w)));
    }
}

proof fn lemma_without_last_ends(path: Seq<char>)
    ensures
        without_last(path).len() > 0 ==> without_last(path).last() == '/',
    decreases path.len(),
{
    if path.len() > 0 && path.last() != '/' {
        lemma_without_last_ends(path.drop_last());
    }
}

/// A string that starts with a separator replaces the path.  Any other comes at its end, behind the
/// path as it was, with one separator between them where the path has none at its end.
pub proof fn law_pushed_text(base: Seq<char>, rhs: Seq<char>)
    ensures
        rhs.len() > 0 && rhs[0] == '/' ==> pushed(base, rhs) == rhs,
        !(rhs.len() > 0 && rhs[0] == '/') ==> {
            let all = pushed(base, rhs);
            let between = if base.len() > 0 && base.last() != '/' {
                1int
            } else {
                0int
            };
            &&& all.len() == base.len() + between + rhs.len()
            &&& all.take(base.len() as int) == base
            &&& all.skip(base.len() + between) == rhs
            &&& between == 1 ==> all[base.len() as int] == '/'
        },
{
    if !(rhs.len() > 0 && rhs[0] == '/') {
        let all = pushed(base, rhs);
        assert(all.take(base.len() as int) =~= base);
        let between = if base.len() > 0 && base.last() != '/' {
            1int
        } else {
            0int
        };
        assert(all.skip(base.len() + between) =~= rhs);
    }
}

/// Parts are pushed one after the other.
pub proof fn law_extended(base: Seq<char>, parts: Seq<Seq<char>>, part: Seq<char>)
    ensures
        extended(base, Seq::<Seq<char>>::empty()) == base,
        extended(base, parts.push(part)) == pushed(extended(base, parts), part),
{
    assert(parts.push(part).drop_last() =~= parts);
}

/// The segments of a path are its parts between separators.
pub proof fn law_segments_are_parts(path: Seq<char>)
    ensures
        segments(path) == split(path, '/'),
    decreases path.len(),
{
    if path.len() > 0 {
        law_segments_are_parts(path.drop_last());
    }
}

/// The names among some segments are those that are neither empty nor a single dot, each as often
/// as it occurs and in order.
pub proof fn law_names(segments: Seq<Seq<char>>, segment: Seq<char>)
    ensures
        names(Seq::<Seq<char>>::empty()) == Seq::<Seq<char>>::empty(),
        names(segments.push(segment)) == if segment.len() > 0 && segment != seq!['.'] {
            names(segments).push(segment)
        } else {
            names(segments)
        },
{
    lemma_names_empty();
    lemma_names_push(segments, segment);
}

/// The components of a path are its names, behind the root where it starts with a separator, and
/// behind a dot where it starts with one that stands alone.
pub proof fn law_components(path: Seq<char>)
    ensures
        components(path) == (if path.len() > 0 && path[0] == '/' {
            seq![seq!['/']]
        } else if path.len() > 0 && path[0] == '.' && (path.len() == 1 || path[1] == '/') {
            seq![seq!['.']]
        } else {
            Seq::<Seq<char>>::empty()
        }) + names(split(path, '/')),
        path.len() > 0 && path[0] == '/' ==> relative_components(path) == names(split(path, '/')),
        !(path.len() > 0 && path[0] == '/') ==> relative_components(path) == components(path),
{
    law_segments_are_parts(path);
    lemma_lead(path);
}

/// The directory that holds what a path names is told by the front of the path, and is absolute
/// where the path is.  There is none exactly for the empty path and for the root, however spelled.
pub proof fn law_parent_text(path: Seq<char>)
    ensures
        parent(path) matches Some(above) ==> above.len() <= path.len() && above == path.take(
            above.len() as int,
        ),
        parent(path) is Some && names(segments(path)).len() > 0 ==> is_absolute(parent(path)->0)
            == is_absolute(path),
        parent(path) is None <==> path.len() == 0 || (path[0] == '/' && names(
            segments(path),
        ).len() == 0),
{
    let t = trimmed(path);
    lemma_trimmed_front(path);
    if names(segments(path)).len() > 0 {
        law_parent(path);
    }
    if t.len() > 0 {
        lemma_without_last_front(t);
        lemma_trimmed_front(without_last(t));
        let w = without_last(t);
        let above = trimmed(w);
        assert(above =~= path.take(above.len() as int)) by {
            assert(above == w.take(above.len() as int));
            assert(w == t.take(w.len() as int));
            assert(t == path.take(t.len() as int));
            assert forall|i: int| 0 <= i < above.len() implies above[i] == path[i] by {
                assert(w[i] == above[i]);
                assert(t[i] == w[i]);
                assert(path[i] == t[i]);
            }
        }
        if path[0] == '/' {
            assert(t[0] == '/');
            assert(w.len() > 0) by {
                lemma_without_last_keeps_root(t);
            }
            assert(w[0] == t[0]);
        } else {
            assert(t[0] != '/');
            if above.len() > 0 {
                assert(above[0] == path[0]);
            }
        }
        if path[0] == '/' && names(segments(path)).len() == 0 {
            lemma_no_names(path);
        }
        if t == seq!['/'] {
            assert(t[0] == '/');
        }
    }
}

proof fn lemma_trimmed_front(path: Seq<char>)
    ensures
        trimmed(path).len() <= path.len(),
        trimmed(path) == path.take(trimmed(path).len() as int),
        path.len() > 0 ==> trimmed(path).len() > 0 && trimmed(path)[0] == path[0],
    decreases path.len(),
{
    if path.len() > 1 && (path.last() == '/' || (path.last() == '.' && path[path.len() - 2]
        == '/')) {
        lemma_trimmed_front(path.drop_last());
        let n = trimmed(path).len() as int;
        assert(path.drop_last().take(n) =~= path.take(n));
    } else {
        assert(path.take(path.len() as int) =~= path);
    }
}

proof fn lemma_without_last_front(path: Seq<char>)
    ensures
        without_last(path).len() <= path.len(),
        without_last(path) == path.take(without_last(path).len() as int),
    decreases path.len(),
{
    if path.len() > 0 && path.last() != '/' {
        lemma_without_last_front(path.drop_last());
        let n = without_last(path).len() as int;
        assert(path.drop_last().take(n) =~= path.take(n));
    } else {
        assert(path.take(path.len() as int) =~= path);
    }
}

proof fn lemma_without_last_keeps_root(path: Seq<char>)
    requires
        path.len() > 0,
        path[0] == '/',
    ensures
        without_last(path).len() > 0,
    decreases path.len(),
{
    if path.last() != '/' {
        lemma_without_last_keeps_root(path.drop_last());
    }
}

/// Without its needless end, an absolute path without names is the root.
proof fn lemma_no_names(path: Seq<char>)
    requires
        path.len() > 0,
        path[0] == '/',
        names(segments(path)).len() == 0,
    ensures
        trimmed(path) == seq!['/'],
{
    let t = trimmed(path);
    lemma_trimmed_front(path);
    lemma_trimmed_names(path);
    lemma_trimmed_ends(path);
    if t.len() > 1 {
        lemma_without_last(t);
        lemma_without_last_ends(t);
        lemma_without_last_keeps_root(t);
        lemma_first_segment(t);
        let name = segments(t).last();
        let w = without_last(t);
        assert(is_name(name)) by {
            if name == seq!['.'] {
                assert(name.len() == 1 && name[0] == '.');
                assert(t == w + name);
                assert(t.last() == '.');
                assert(t[t.len() - 2] == w.last());
            }
            if name.len() == 0 {
                assert(t =~= w);
            }
        }
        assert(segments(t).drop_last().push(name) =~= segments(t));
        lemma_names_push(segments(t).drop_last(), name);
    }
    assert(t =~= seq!['/']);
}

proof fn lemma_trimmed_ends(path: Seq<char>)
    ensures
        ({
            let t = trimmed(path);
            t.len() > 1 ==> t.last() != '/' && !(t.last() == '.' && t[t.len() - 2] == '/')
        }),
    decreases path.len(),
{
    if path.len() > 1 && (path.last() == '/' || (path.last() == '.' && path[path.len() - 2]
        == '/')) {
        lemma_trimmed_ends(path.drop_last());
    }
}

/// The texts of some strings are theirs, in order.
pub proof fn law_texts(strings: Seq<String>, slices: Seq<&str>)
    ensures
        texts(strings).len() == strings.len(),
        forall|i: int| 0 <= i < strings.len() ==> #[trigger] texts(strings)[i] == strings[i]@,
        slice_texts(slices).len() == slices.len(),
        forall|i: int| 0 <= i < slices.len() ==> #[trigger] slice_texts(slices)[i] == slices[i]@,
{
}

/// Nothing below a root is the root itself.  What is named below a path comes behind the place of
/// that path below the root, whether the path is absolute or not, and the same holds where paths
/// are joined.  Only the components of a path tell its place.
pub proof fn law_placed_by_components(
    root: Seq<char>,
    path: Seq<char>,
    other: Seq<char>,
    name: Seq<char>,
)
    requires
        is_name(name),
        !name.contains('/'),
    ensures
        rebased(root, "/"@) == root,
        rebased(root, ""@) == root,
        joined(root, ""@) == root,
        joined(root, "/"@) == "/"@,
        rebased(root, pushed(path, name)) == pushed(rebased(root, path), name),
        joined(root, pushed(path, name)) == pushed(joined(root, path), name),
        components(path) == components(other) ==> joined(root, path) == joined(root, other),
        relative_components(path) == relative_components(other) ==> rebased(root, path) == rebased(
            root,
            other,
        ),
{
    reveal_strlit("/");
    reveal_strlit("");
    law_components("/"@);
    law_components(""@);
    law_pushed_name(path, name);
    law_components(path);
    law_components(other);
    law_components(pushed(path, name));
    law_pushed_text(path, name);
    let longer = pushed(path, name);
    assert(name[0] != '/') by {
        assert(name.contains(name[0]));
    }
    assert(is_absolute(longer) == is_absolute(path)) by {
        if path.len() > 0 {
            assert(longer.take(path.len() as int)[0] == path[0]);
        }
    }
    if is_absolute(path) {
        let top = seq![seq!['/']];
        assert(names(segments(longer)) =~= (top + names(segments(longer))).skip(1));
        assert(names(segments(path)).push(name) =~= (top + names(segments(path))).push(name).skip(
            1,
        ));
    }
    assert(relative_components(longer) =~= relative_components(path).push(name));
    law_extended(root, relative_components(path), name);
    law_extended(root, components(path), name);
    let none = Seq::<Seq<char>>::empty();
    assert("/"@ =~= seq!['/']);
    assert(""@ =~= Seq::<char>::empty());
    reveal_with_fuel(segments, 3);
    reveal_with_fuel(extended, 2);
    let gap = Seq::<char>::empty();
    law_names(none, gap);
    law_names(seq![gap], gap);
    assert(segments(""@) =~= none.push(gap));
    assert("/"@.drop_last() =~= gap);
    assert(segments("/"@) =~= seq![gap].push(gap));
    assert(none.push(gap) =~= seq![gap]);
    assert(extended(root, none) == root);
    assert(components("/"@) =~= seq![seq!['/']]);
}

} // verus!

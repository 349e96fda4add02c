//! Paths, as texts with slashes between their components.

use crate::text::{
    begins, cat, cat3, chars_of, ends, ends_with, starts_with, str_eq, string_of, text_opt, texts,
};
use vstd::prelude::*;
use vstd::string::*;

verus! {

// ---------------------------------------------------------------------------
// Components
// ---------------------------------------------------------------------------

/// Where the last name of a path begins: behind its last slash.
pub open spec fn name_start(path: Seq<char>) -> int
    decreases path.len(),
{
    if path.len() == 0 || path.last() == '/' {
        path.len() as int
    } else {
        name_start(path.drop_last())
    }
}

/// The last name of a path begins inside it, unless a slash ends the path.
pub proof fn lemma_name_start(path: Seq<char>)
    ensures
        0 <= name_start(path) <= path.len(),
        path.len() > 0 && path.last() != '/' ==> name_start(path) < path.len(),
        name_start(path) > 0 ==> path[name_start(path) - 1] == '/',
        forall|i: int| name_start(path) <= i < path.len() ==> path[i] != '/',
    decreases path.len(),
{
    if path.len() > 0 && path.last() != '/' {
        let head = path.drop_last();
        lemma_name_start(head);
        assert forall|i: int| name_start(path) <= i < path.len() implies path[i] != '/' by {
            if i < head.len() {
                assert(head[i] == path[i]);
            }
        }
    }
}

/// The components of a path, each with the place at which it begins. Slashes only part them, but
/// for one at the beginning, which is the root; a dot counts at the beginning alone.
pub open spec fn components(path: Seq<char>) -> Seq<(int, Seq<char>)>
    decreases path.len(),
{
    if path.len() == 0 {
        Seq::empty()
    } else if path.last() == '/' {
        if path.len() == 1 {
            seq![(0, path)]
        } else {
            components(path.drop_last())
        }
    } else {
        proof {
            lemma_name_start(path);
        }
        let at = name_start(path);
        if at > 0 && path.skip(at) == seq!['.'] {
            components(path.take(at))
        } else {
            components(path.take(at)).push((at, path.skip(at)))
        }
    }
}

/// The components of a path without their places.
pub open spec fn names(path: Seq<char>) -> Seq<Seq<char>> {
    Seq::new(components(path).len(), |i: int| components(path)[i].1)
}

/// Whether two texts are the same path: they have the same components.
pub open spec fn same_path(a: Seq<char>, b: Seq<char>) -> bool {
    names(a) == names(b)
}

/// Whether a path is one of some others.
pub open spec fn path_among(path: Seq<char>, others: Seq<Seq<char>>) -> bool {
    exists|i: int| 0 <= i < others.len() && same_path(path, #[trigger] others[i])
}

/// A component of a path, and the place at which it begins.
#[derive(Debug, PartialEq, Eq)]
pub struct Component {
    pub at: usize,
    pub name: String,
}

impl Component {
    pub open spec fn view(&self) -> (int, Seq<char>) {
        (self.at as int, self.name@)
    }
}

pub open spec fn component_models(v: Seq<Component>) -> Seq<(int, Seq<char>)> {
    Seq::new(v.len(), |i: int| v[i]@)
}

fn find_name(v: &Vec<char>, n: usize) -> (at: usize)
    requires
        n <= v@.len(),
    ensures
        at == name_start(v@.take(n as int)),
{
    let mut at: usize = n;
    while at > 0 && v[at - 1] != '/'
        invariant
            at <= n,
            n <= v@.len(),
            name_start(v@.take(n as int)) == name_start(v@.take(at as int)),
        decreases at,
    {
        assert(v@.take(at as int).last() == v@[at - 1]);
        assert(v@.take(at as int).drop_last() =~= v@.take(at - 1));
        at = at - 1;
    }
    if at > 0 {
        assert(v@.take(at as int).last() == v@[at - 1]);
    }
    at
}

/// The components of a path.
pub fn components_of(path: &str) -> (r: Vec<Component>)
    ensures
        component_models(r@) == components(path@),
{
    let v = chars_of(path);
    let mut out: Vec<Component> = Vec::new();
    let mut n: usize = v.len();
    assert(v@.take(n as int) =~= path@);
    assert(components(path@) + component_models(out@) =~= components(path@));
    while n > 0
        invariant
            v@ == path@,
            n <= v@.len(),
            components(v@.take(n as int)) + component_models(out@) == components(path@),
        decreases n,
    {
        let ghost now = v@.take(n as int);
        let ghost had = component_models(out@);
        assert(now.last() == v@[n - 1]);
        assert(now.drop_last() =~= v@.take(n - 1));
        if v[n - 1] == '/' {
            if n == 1 {
                let root = string_of(&v, 0, 1);
                assert(root@ =~= now);
                let ghost piece = (0int, now);
                out.insert(0, Component { at: 0, name: root });
                assert(component_models(out@) =~= seq![piece] + had);
                assert(v@.take(0) =~= Seq::empty());
                assert(components(v@.take(0)) + component_models(out@) =~= components(now) + had);
            }
            n = n - 1;
        } else {
            proof {
                lemma_name_start(now);
            }
            let at = find_name(&v, n);
            assert(now.take(at as int) =~= v@.take(at as int));
            let dot = at > 0 && n - at == 1 && v[at] == '.';
            assert(dot == (at > 0 && now.skip(at as int) =~= seq!['.'])) by {
                if n - at == 1 {
                    assert(now.skip(at as int)[0] == v@[at as int]);
                }
            }
            if !dot {
                let name = string_of(&v, at, n);
                assert(name@ =~= now.skip(at as int));
                let ghost piece = (at as int, name@);
                out.insert(0, Component { at, name });
                assert(component_models(out@) =~= seq![piece] + had);
                assert(components(v@.take(at as int)) + component_models(out@) =~= components(now)
                    + had);
            }
            n = at;
        }
    }
    assert(v@.take(0) =~= Seq::empty());
    assert(component_models(out@) =~= components(path@));
    out
}

/// Whether two texts are the same path.
pub fn is_same_path(a: &str, b: &str) -> (r: bool)
    ensures
        r == same_path(a@, b@),
{
    let x = components_of(a);
    let y = components_of(b);
    if x.len() != y.len() {
        assert(names(a@).len() != names(b@).len()) by {
            assert(component_models(x@).len() == x@.len());
            assert(component_models(y@).len() == y@.len());
        }
        return false;
    }
    let r = begins_with(&x, &y);
    proof {
        lemma_names(a@, x@);
        lemma_names(b@, y@);
        assert(name_models(x@) =~= names(a@));
        assert(name_models(y@) =~= names(b@));
        assert(names(a@).take(x@.len() as int) =~= names(a@));
    }
    r
}

proof fn lemma_names(path: Seq<char>, v: Seq<Component>)
    requires
        component_models(v) == components(path),
    ensures
        names(path).len() == v.len(),
        forall|i: int| 0 <= i < v.len() ==> (#[trigger] v[i]).name@ == names(path)[i],
        forall|i: int| 0 <= i < v.len() ==> (#[trigger] v[i])@ == components(path)[i],
{
    assert(component_models(v).len() == v.len());
    assert forall|i: int| 0 <= i < v.len() implies (#[trigger] v[i])@ == components(path)[i] by {
        assert(component_models(v)[i] == v[i]@);
    }
}

pub open spec fn name_models(v: Seq<Component>) -> Seq<Seq<char>> {
    Seq::new(v.len(), |i: int| v[i].name@)
}

fn begins_with(x: &Vec<Component>, y: &Vec<Component>) -> (r: bool)
    ensures
        r == (y@.len() <= x@.len() && name_models(x@).take(y@.len() as int) == name_models(y@)),
{
    if y.len() > x.len() {
        return false;
    }
    let mut i: usize = 0;
    while i < y.len()
        invariant
            i <= y@.len() <= x@.len(),
            forall|j: int| 0 <= j < i ==> (#[trigger] x@[j]).name@ == y@[j].name@,
        decreases y@.len() - i,
    {
        if !str_eq(x[i].name.as_str(), y[i].name.as_str()) {
            assert(name_models(x@).take(y@.len() as int)[i as int] != name_models(y@)[i as int]);
            return false;
        }
        i = i + 1;
    }
    assert(name_models(x@).take(y@.len() as int) =~= name_models(y@));
    true
}

/// Whether a path is one of some others.
pub fn is_path_among(path: &str, others: &Vec<String>) -> (r: bool)
    ensures
        r == path_among(path@, texts(others@)),
{
    let mut i: usize = 0;
    while i < others.len()
        invariant
            i <= others@.len(),
            forall|j: int| 0 <= j < i ==> !same_path(path@, #[trigger] texts(others@)[j]),
        decreases others@.len() - i,
    {
        assert(texts(others@)[i as int] == others@[i as int]@);
        if is_same_path(path, others[i].as_str()) {
            return true;
        }
        i = i + 1;
    }
    false
}

// ---------------------------------------------------------------------------
// Joining
// ---------------------------------------------------------------------------

/// A path seen from a directory: below it, or as it is where it begins at the root.
pub open spec fn below(dir: Seq<char>, path: Seq<char>) -> Seq<char> {
    if dir.len() == 0 || begins(path, "/"@) {
        path
    } else if ends(dir, "/"@) {
        dir + path
    } else {
        dir + "/"@ + path
    }
}

/// A path seen from a directory.
pub fn join_path(dir: &str, path: &str) -> (r: String)
    ensures
        r@ == below(dir@, path@),
{
    if dir.is_empty() || starts_with(path, "/") {
        path.to_owned()
    } else if ends_with(dir, "/") {
        cat(dir, path)
    } else {
        cat3(dir, "/", path)
    }
}

// ---------------------------------------------------------------------------
// Names of files
// ---------------------------------------------------------------------------

/// The name of the file that a path ends in, and where it begins; nothing where the path ends in
/// the root or in dots.
pub open spec fn file_at(path: Seq<char>) -> Option<(int, Seq<char>)> {
    let c = components(path);
    if c.len() > 0 && c.last().1 != seq!['/'] && c.last().1 != seq!['.'] && c.last().1 != seq![
        '.',
        '.',
    ] {
        Some(c.last())
    } else {
        None
    }
}

/// The name of the file that a path ends in.
pub fn file_name(path: &str) -> (r: Option<Component>)
    ensures
        match file_at(path@) {
            Some(f) => r matches Some(c) && c@ == f,
            None => r is None,
        },
{
    let mut c = components_of(path);
    proof {
        lemma_names(path@, c@);
        reveal_strlit("/");
        reveal_strlit(".");
        reveal_strlit("..");
        assert("/"@ =~= seq!['/']);
        assert("."@ =~= seq!['.']);
        assert(".."@ =~= seq!['.', '.']);
    }
    match c.pop() {
        Some(last) => {
            assert(last@ == components(path@).last());
            if str_eq(last.name.as_str(), "/") || str_eq(last.name.as_str(), ".") || str_eq(
                last.name.as_str(),
                "..",
            ) {
                None
            } else {
                Some(last)
            }
        },
        None => None,
    }
}

/// A component stands in its path, at its place, and holds no slash unless it is the root.
pub proof fn lemma_component(path: Seq<char>, i: int)
    requires
        0 <= i < components(path).len(),
    ensures
        ({
            let c = components(path)[i];
            &&& 0 <= c.0
            &&& c.1.len() > 0
            &&& c.0 + c.1.len() <= path.len()
            &&& path.subrange(c.0, c.0 + c.1.len()) == c.1
        }),
        forall|j: int|
            i < j < components(path).len() ==> components(path)[i].0 + components(path)[i].1.len()
                <= (#[trigger] components(path)[j]).0,
    decreases path.len(),
{
    if path.last() == '/' {
        if path.len() == 1 {
            assert(path.subrange(0, 1) =~= path);
        } else {
            lemma_component(path.drop_last(), i);
            let c = components(path)[i];
            assert(path.drop_last().subrange(c.0, c.0 + c.1.len()) =~= path.subrange(
                c.0,
                c.0 + c.1.len(),
            ));
        }
    } else {
        lemma_name_start(path);
        let at = name_start(path);
        let head = path.take(at);
        let c = components(path)[i];
        if i < components(head).len() {
            lemma_component(head, i);
            assert(head.subrange(c.0, c.0 + c.1.len()) =~= path.subrange(c.0, c.0 + c.1.len()));
        } else {
            assert(path.subrange(at, path.len() as int) =~= path.skip(at));
        }
    }
}

/// The place of the last dot in a name; none where there is no dot.
pub open spec fn last_dot(name: Seq<char>) -> int
    decreases name.len(),
{
    if name.len() == 0 {
        -1
    } else if name.last() == '.' {
        name.len() - 1
    } else {
        last_dot(name.drop_last())
    }
}

/// The last dot of a name stands in it.
pub proof fn lemma_dot_is_inside(name: Seq<char>)
    ensures
        -1 <= last_dot(name) < name.len(),
    decreases name.len(),
{
    if name.len() > 0 && name.last() != '.' {
        lemma_dot_is_inside(name.drop_last());
    }
}

/// The extension of a file: what follows the last dot of its name, unless the name begins with
/// that dot.
pub open spec fn extension_of(path: Seq<char>) -> Option<Seq<char>> {
    match file_at(path) {
        Some((_, name)) => if last_dot(name) > 0 {
            Some(name.skip(last_dot(name) + 1))
        } else {
            None
        },
        None => None,
    }
}

/// The path of a file without its extension and the dot before it; the path itself where there is
/// no extension.
pub open spec fn without_extension(path: Seq<char>) -> Seq<char> {
    match file_at(path) {
        Some((at, name)) => if last_dot(name) > 0 {
            path.take(at + last_dot(name))
        } else {
            path
        },
        None => path,
    }
}

fn find_dot(name: &str) -> (r: Option<usize>)
    ensures
        match r {
            Some(k) => 0 < k == last_dot(name@),
            None => last_dot(name@) <= 0,
        },
        r matches Some(k) ==> k < name@.len(),
{
    let v = chars_of(name);
    let n: usize = v.len();
    let mut i: usize = n;
    assert(v@.take(n as int) =~= v@);
    while i > 0 && v[i - 1] != '.'
        invariant
            n == v@.len(),
            i <= n,
            last_dot(v@) == last_dot(v@.take(i as int)),
        decreases i,
    {
        assert(v@.take(i as int).last() == v@[i - 1]);
        assert(v@.take(i as int).drop_last() =~= v@.take(i - 1));
        i = i - 1;
    }
    if i > 0 {
        assert(v@.take(i as int).last() == v@[i - 1]);
        assert(last_dot(v@) == i - 1);
    } else {
        assert(last_dot(v@) == -1);
    }
    if i > 1 {
        Some(i - 1)
    } else {
        None
    }
}

/// The extension of a file.
pub fn extension(path: &str) -> (r: Option<String>)
    ensures
        text_opt(r) == extension_of(path@),
{
    match file_name(path) {
        Some(file) => match find_dot(file.name.as_str()) {
            Some(k) => {
                let v = chars_of(file.name.as_str());
                let n: usize = v.len();
                let e = string_of(&v, k + 1, n);
                assert(e@ =~= file.name@.skip(k + 1));
                Some(e)
            },
            None => None,
        },
        None => None,
    }
}

/// The path of a file without its extension.
pub fn strip_extension(path: &str) -> (r: String)
    ensures
        r@ == without_extension(path@),
{
    match file_name(path) {
        Some(file) => match find_dot(file.name.as_str()) {
            Some(k) => {
                proof {
                    lemma_component(path@, components(path@).len() - 1);
                }
                let v = chars_of(path);
                let n: usize = v.len();
                assert(file.at + k <= n);
                let s = string_of(&v, 0, file.at + k);
                assert(s@ =~= path@.take(file.at + k));
                s
            },
            None => path.to_owned(),
        },
        None => path.to_owned(),
    }
}

/// A path without a directory holds a file's name as it is.
pub proof fn lemma_plain_name(name: Seq<char>)
    requires
        name.len() > 0,
        forall|i: int| 0 <= i < name.len() ==> name[i] != '/',
    ensures
        components(name) == seq![(0int, name)],
{
    lemma_name_start(name);
    assert(name.last() == name[name.len() - 1]);
    assert(name_start(name) == 0);
    assert(name.take(0) =~= Seq::empty());
    assert(name.skip(0) =~= name);
    assert(components(name.take(0)) == Seq::<(int, Seq<char>)>::empty());
    assert(components(name) =~= seq![(0int, name)]);
}

// ---------------------------------------------------------------------------
// Relative paths
// ---------------------------------------------------------------------------

/// Whether a path begins with all components of a directory.
pub open spec fn lies_below(path: Seq<char>, dir: Seq<char>) -> bool {
    names(dir).len() <= names(path).len() && names(path).take(names(dir).len() as int) == names(dir)
}

/// A path as it is seen from a directory above it: its text from the first component that the
/// directory does not have to the end of its last one. The path itself where it lies elsewhere.
pub open spec fn relative_to(path: Seq<char>, dir: Seq<char>) -> Seq<char> {
    let c = components(path);
    let n = names(dir).len() as int;
    if !lies_below(path, dir) {
        path
    } else if n == c.len() {
        Seq::empty()
    } else {
        path.subrange(c[n].0, c.last().0 + c.last().1.len())
    }
}

/// A path as it is seen from a directory above it.
pub fn relative(path: &str, dir: &str) -> (r: String)
    ensures
        r@ == relative_to(path@, dir@),
{
    let c = components_of(path);
    let d = components_of(dir);
    proof {
        lemma_names(path@, c@);
        lemma_names(dir@, d@);
        assert(name_models(c@) =~= names(path@));
        assert(name_models(d@) =~= names(dir@));
    }
    if !begins_with(&c, &d) {
        return path.to_owned();
    }
    if d.len() == c.len() {
        let none = String::new();
        assert(none@ =~= Seq::empty());
        return none;
    }
    let last: usize = c.len() - 1;
    let v = chars_of(path);
    let name = chars_of(c[last].name.as_str());
    let n: usize = v.len();
    proof {
        lemma_component(path@, last as int);
        lemma_component(path@, d@.len() as int);
        assert(c@[last as int]@ == components(path@)[last as int]);
        assert(c@[d@.len() as int]@ == components(path@)[d@.len() as int]);
        assert(n == path@.len() && name@.len() == c@[last as int].name@.len());
    }
    string_of(&v, c[d.len()].at, c[last].at + name.len())
}

/// A slash at the end of a path makes no difference.
pub proof fn law_trailing_slashes_do_not_matter(path: Seq<char>)
    requires
        path.len() > 0,
    ensures
        same_path(path.push('/'), path),
        same_path(path, path),
{
    let longer = path.push('/');
    assert(longer.last() == '/');
    assert(longer.drop_last() =~= path);
    assert(components(longer) == components(path));
    assert(names(longer) =~= names(path));
}

proof fn lemma_components_below(dir: Seq<char>, rest: Seq<char>)
    requires
        dir.len() > 0,
    ensures
        components(dir).len() <= components(dir.push('/') + rest).len(),
        components(dir.push('/') + rest).take(components(dir).len() as int) == components(dir),
    decreases rest.len(),
{
    let base = dir.push('/');
    let path = base + rest;
    let n = components(dir).len() as int;
    if rest.len() == 0 {
        assert(path =~= base);
        assert(base.last() == '/');
        assert(base.drop_last() =~= dir);
        assert(components(path).take(n) =~= components(dir));
    } else if path.last() == '/' {
        assert(path.drop_last() =~= base + rest.drop_last());
        lemma_components_below(dir, rest.drop_last());
    } else {
        lemma_name_start(path);
        let at = name_start(path);
        assert(at >= base.len()) by {
            if at < base.len() {
                assert(path[base.len() - 1] == '/');
            }
        }
        let front = rest.take(at - base.len());
        assert(path.take(at) =~= base + front);
        assert(path.skip(at).len() > 0);
        lemma_components_below(dir, front);
        let head = components(base + front);
        if at > 0 && path.skip(at) == seq!['.'] {
            assert(components(path) == head);
        } else {
            assert(components(path) == head.push((at, path.skip(at))));
            assert(components(path).take(n) =~= head.take(n));
        }
    }
}

/// What is joined to a directory lies below it, unless it begins at the root.
pub proof fn law_joined_paths_lie_below(dir: Seq<char>, path: Seq<char>)
    requires
        dir.len() > 0,
        !begins(path, "/"@),
    ensures
        dir.last() != '/' ==> lies_below(below(dir, path), dir),
{
    reveal_strlit("/");
    if dir.last() != '/' {
        assert(!ends(dir, "/"@)) by {
            if ends(dir, "/"@) {
                assert(dir.subrange(dir.len() - 1, dir.len() as int)[0] == '/');
            }
        }
        let all = below(dir, path);
        assert(all =~= dir.push('/') + path);
        lemma_components_below(dir, path);
        let n = components(dir).len() as int;
        assert(names(all).take(n) =~= names(dir)) by {
            assert forall|i: int| 0 <= i < n implies #[trigger] names(all).take(n)[i]
                == names(dir)[i] by {
                assert(components(all).take(n)[i] == components(dir)[i]);
            }
        }
    }
}

/// How paths are joined: one that begins at the root stands for itself, and so does one that is
/// joined to nothing; any other goes behind the directory, with one slash between them.
pub proof fn law_how_paths_are_joined(dir: Seq<char>, path: Seq<char>)
    ensures
        begins(path, "/"@) ==> below(dir, path) == path,
        dir.len() == 0 ==> below(dir, path) == path,
        dir.len() > 0 && !begins(path, "/"@) ==> begins(below(dir, path), dir) && ends(
            below(dir, path),
            path,
        ),
        dir.len() > 0 && !begins(path, "/"@) && dir.last() == '/' ==> below(dir, path) == dir + path,
        dir.len() > 0 && !begins(path, "/"@) && dir.last() != '/' ==> below(dir, path) == dir.push(
            '/',
        ) + path,
{
    reveal_strlit("/");
    let all = below(dir, path);
    if dir.len() > 0 {
        assert((dir.subrange(dir.len() - 1, dir.len() as int) == "/"@) == (dir.last() == '/')) by {
            assert(dir.subrange(dir.len() - 1, dir.len() as int)[0] == dir.last());
            if dir.last() == '/' {
                assert(dir.subrange(dir.len() - 1, dir.len() as int) =~= "/"@);
            }
        }
        if !begins(path, "/"@) {
            assert(all.subrange(0, dir.len() as int) =~= dir);
            assert(all.subrange(all.len() - path.len(), all.len() as int) =~= path);
            if dir.last() != '/' {
                assert(all =~= dir.push('/') + path);
            }
        }
    }
}

/// A name with a dot in it has what follows the last dot as its extension, and is what stands
/// before that without it; a name that begins with its only dot has none.
pub proof fn law_extensions_follow_the_last_dot(stem: Seq<char>, extension: Seq<char>)
    requires
        forall|i: int| 0 <= i < stem.len() ==> stem[i] != '/',
        forall|i: int| 0 <= i < extension.len() ==> extension[i] != '/' && extension[i] != '.',
        extension.len() > 0,
    ensures
        stem.len() > 0 ==> extension_of(stem.push('.') + extension) == Some(extension)
            && without_extension(stem.push('.') + extension) == stem,
        stem.len() == 0 ==> extension_of(stem.push('.') + extension) is None,
{
    let name = stem.push('.') + extension;
    assert forall|i: int| 0 <= i < name.len() implies name[i] != '/' by {
        if i > stem.len() {
            assert(name[i] == extension[i - stem.len() - 1]);
        }
    }
    lemma_plain_name(name);
    lemma_last_dot(stem.push('.'), extension);
    assert(stem.push('.').last() == '.');
    assert(last_dot(name) == stem.len());
    assert(components(name).last() == (0int, name));
    assert(name[name.len() - 1] == extension[extension.len() - 1]);
    assert(name != seq!['.'] && name != seq!['/'] && name != seq!['.', '.']) by {
        assert(seq!['.'].last() == '.' && seq!['/'].last() == '/' && seq!['.', '.'].last() == '.');
        assert(name.last() == extension.last());
    }
    assert(file_at(name) == Some((0int, name)));
    if stem.len() > 0 {
        assert(name.skip((stem.len() + 1) as int) =~= extension);
        assert(name.take(stem.len() as int) =~= stem);
    }
}

proof fn lemma_last_dot(s: Seq<char>, t: Seq<char>)
    requires
        forall|i: int| 0 <= i < t.len() ==> t[i] != '.',
    ensures
        last_dot(s + t) == last_dot(s),
    decreases t.len(),
{
    if t.len() > 0 {
        assert((s + t).last() == t[t.len() - 1]);
        assert((s + t).drop_last() =~= s + t.drop_last());
        lemma_last_dot(s, t.drop_last());
    } else {
        assert(s + t =~= s);
    }
}

/// A path that lies elsewhere is seen as it is, and a directory is seen from itself as nothing.
pub proof fn law_paths_seen_from_a_directory(path: Seq<char>, dir: Seq<char>)
    ensures
        !lies_below(path, dir) ==> relative_to(path, dir) == path,
        relative_to(dir, dir).len() == 0,
        lies_below(path, dir) && names(path).len() > names(dir).len() ==> relative_to(path, dir)
            == path.subrange(
            components(path)[names(dir).len() as int].0,
            components(path).last().0 + components(path).last().1.len(),
        ),
{
    assert(names(dir).take(names(dir).len() as int) =~= names(dir));
}

} // verus!

//! JSON values and what the rest of the library reads and changes in them.

use crate::text::str_eq;
use serde_json::Value;
use vstd::prelude::*;
use vstd::string::*;

verus! {

/// A JSON number. Integers are held exactly; any other number is held as its text.
#[derive(Debug, PartialEq, Eq)]
pub enum Number {
    Unsigned(u64),
    Negative(i64),
    Decimal(String),
}

/// A JSON value. The members of an object stand in their order.
#[derive(Debug, PartialEq, Eq)]
pub enum Json {
    Null,
    Bool(bool),
    Number(Number),
    Str(String),
    Array(Vec<Json>),
    Object(Vec<Member>),
}

/// A member of a JSON object.
#[derive(Debug, PartialEq, Eq)]
pub struct Member {
    pub key: String,
    pub value: Json,
}

/// What a JSON number holds.
pub enum NumberTree {
    Unsigned(u64),
    Negative(i64),
    Decimal(Seq<char>),
}

/// What a JSON value holds.
#[verifier::ext_equal]
pub enum Tree {
    Null,
    Bool(bool),
    Number(NumberTree),
    Str(Seq<char>),
    Array(Seq<Tree>),
    Object(Seq<(Seq<char>, Tree)>),
}

impl Number {
    pub open spec fn view(&self) -> NumberTree {
        match self {
            Number::Unsigned(n) => NumberTree::Unsigned(*n),
            Number::Negative(n) => NumberTree::Negative(*n),
            Number::Decimal(s) => NumberTree::Decimal(s@),
        }
    }
}

impl Json {
    pub open spec fn view(&self) -> Tree
        decreases *self,
    {
        match self {
            Json::Null => Tree::Null,
            Json::Bool(b) => Tree::Bool(*b),
            Json::Number(n) => Tree::Number(n@),
            Json::Str(s) => Tree::Str(s@),
            Json::Array(v) => Tree::Array(
                Seq::new(
                    v@.len(),
                    |i: int|
                        if 0 <= i < v@.len() {
                            v@[i].view()
                        } else {
                            Tree::Null
                        },
                ),
            ),
            Json::Object(v) => Tree::Object(
                Seq::new(
                    v@.len(),
                    |i: int|
                        if 0 <= i < v@.len() {
                            (v@[i].key@, v@[i].value.view())
                        } else {
                            (Seq::empty(), Tree::Null)
                        },
                ),
            ),
        }
    }
}

/// What the values of an array hold.
pub open spec fn trees(v: Seq<Json>) -> Seq<Tree> {
    Seq::new(v.len(), |i: int| v[i]@)
}

/// What the members of an object hold.
pub open spec fn members(v: Seq<Member>) -> Seq<(Seq<char>, Tree)> {
    Seq::new(v.len(), |i: int| (v[i].key@, v[i].value@))
}

/// The view of an array goes through the views of its values.
pub broadcast proof fn lemma_array_view(v: Vec<Json>)
    ensures
        #[trigger] (Json::Array(v).view()) == Tree::Array(trees(v@)),
{
    assert(Json::Array(v).view()->Array_0 =~= trees(v@));
}

/// The view of an object goes through the views of its members.
pub broadcast proof fn lemma_object_view(v: Vec<Member>)
    ensures
        #[trigger] (Json::Object(v).view()) == Tree::Object(members(v@)),
{
    assert(Json::Object(v).view()->Object_0 =~= members(v@));
}

// ---------------------------------------------------------------------------
// Reading
// ---------------------------------------------------------------------------

/// The value of the first member named `key`.
pub open spec fn lookup(ms: Seq<(Seq<char>, Tree)>, key: Seq<char>) -> Option<Tree>
    decreases ms.len(),
{
    if ms.len() == 0 {
        None
    } else if ms[0].0 == key {
        Some(ms[0].1)
    } else {
        lookup(ms.skip(1), key)
    }
}

impl Tree {
    /// The value of the member named `key`; nothing where this is no object or has none.
    pub open spec fn get(self, key: Seq<char>) -> Option<Tree> {
        match self {
            Tree::Object(ms) => lookup(ms, key),
            _ => None,
        }
    }

    /// The text, where this is a string.
    pub open spec fn text(self) -> Option<Seq<char>> {
        match self {
            Tree::Str(s) => Some(s),
            _ => None,
        }
    }

    /// The text of the member named `key`, where there is one and it is a string.
    pub open spec fn get_text(self, key: Seq<char>) -> Option<Seq<char>> {
        match self.get(key) {
            Some(Tree::Str(s)) => Some(s),
            _ => None,
        }
    }

    /// The number, where this is an integer that is not negative.
    pub open spec fn unsigned(self) -> Option<u64> {
        match self {
            Tree::Number(NumberTree::Unsigned(n)) => Some(n),
            _ => None,
        }
    }
}

/// What an optional value holds.
pub open spec fn tree_opt(o: Option<Json>) -> Option<Tree> {
    match o {
        Some(j) => Some(j@),
        None => None,
    }
}

/// What an optional reference to a value holds.
pub open spec fn tree_ref(o: Option<&Json>) -> Option<Tree> {
    match o {
        Some(j) => Some(j@),
        None => None,
    }
}

/// What is not found before position `k` is found, or not, from there on.
pub proof fn lemma_lookup_skip(ms: Seq<(Seq<char>, Tree)>, key: Seq<char>, k: int)
    requires
        0 <= k <= ms.len(),
        forall|j: int| 0 <= j < k ==> ms[j].0 != key,
    ensures
        lookup(ms, key) == lookup(ms.skip(k), key),
    decreases k,
{
    if k == 0 {
        assert(ms.skip(0) =~= ms);
    } else {
        lemma_lookup_skip(ms, key, k - 1);
        assert(ms.skip(k - 1).skip(1) =~= ms.skip(k));
        assert(ms.skip(k - 1)[0] == ms[k - 1]);
    }
}

/// The first member with a name decides.
pub proof fn lemma_lookup_at(ms: Seq<(Seq<char>, Tree)>, key: Seq<char>, k: int)
    requires
        0 <= k < ms.len(),
        ms[k].0 == key,
        forall|j: int| 0 <= j < k ==> ms[j].0 != key,
    ensures
        lookup(ms, key) == Some(ms[k].1),
{
    lemma_lookup_skip(ms, key, k);
    assert(ms.skip(k)[0] == ms[k]);
}

/// Where no member has the name, nothing is found.
pub proof fn lemma_lookup_none(ms: Seq<(Seq<char>, Tree)>, key: Seq<char>)
    requires
        forall|j: int| 0 <= j < ms.len() ==> ms[j].0 != key,
    ensures
        lookup(ms, key) is None,
{
    lemma_lookup_skip(ms, key, ms.len() as int);
    assert(ms.skip(ms.len() as int) =~= Seq::empty());
}

/// The position of the first member named `key`.
pub fn find_member(ms: &Vec<Member>, key: &str) -> (r: Option<usize>)
    ensures
        match r {
            Some(i) => {
                &&& i < ms@.len()
                &&& ms@[i as int].key@ == key@
                &&& forall|j: int| 0 <= j < i ==> ms@[j].key@ != key@
                &&& lookup(members(ms@), key@) == Some(ms@[i as int].value@)
            },
            None => {
                &&& forall|j: int| 0 <= j < ms@.len() ==> ms@[j].key@ != key@
                &&& lookup(members(ms@), key@) is None
            },
        },
{
    let mut i: usize = 0;
    while i < ms.len()
        invariant
            i <= ms@.len(),
            forall|j: int| 0 <= j < i ==> ms@[j].key@ != key@,
        decreases ms@.len() - i,
    {
        if str_eq(ms[i].key.as_str(), key) {
            proof {
                assert forall|j: int| 0 <= j < i implies members(ms@)[j].0 != key@ by {
                    assert(ms@[j].key@ != key@);
                }
                lemma_lookup_at(members(ms@), key@, i as int);
            }
            return Some(i);
        }
        i = i + 1;
    }
    proof {
        assert forall|j: int| 0 <= j < ms@.len() implies members(ms@)[j].0 != key@ by {
            assert(ms@[j].key@ != key@);
        }
        lemma_lookup_none(members(ms@), key@);
    }
    None
}

/// The value of the member named `key`.
pub fn member<'a>(ms: &'a Vec<Member>, key: &str) -> (r: Option<&'a Json>)
    ensures
        tree_ref(r) == lookup(members(ms@), key@),
{
    match find_member(ms, key) {
        Some(i) => Some(&ms[i].value),
        None => None,
    }
}

impl Json {
    /// The value of the member named `key`; nothing where this is no object or has none.
    pub fn get(&self, key: &str) -> (r: Option<&Json>)
        ensures
            tree_ref(r) == self@.get(key@),
    {
        broadcast use lemma_object_view;

        match self {
            Json::Object(ms) => member(ms, key),
            _ => None,
        }
    }

    /// The text, where this is a string.
    pub fn as_str(&self) -> (r: Option<&str>)
        ensures
            match r {
                Some(s) => self@.text() == Some(s@),
                None => self@.text() is None,
            },
    {
        match self {
            Json::Str(s) => Some(s.as_str()),
            _ => None,
        }
    }

    /// The text of the member named `key`, where there is one and it is a string.
    pub fn get_str(&self, key: &str) -> (r: Option<&str>)
        ensures
            match r {
                Some(s) => self@.get_text(key@) == Some(s@),
                None => self@.get_text(key@) is None,
            },
    {
        match self.get(key) {
            Some(v) => v.as_str(),
            None => None,
        }
    }

    /// The number, where this is an integer that is not negative.
    pub fn as_u64(&self) -> (r: Option<u64>)
        ensures
            r == self@.unsigned(),
    {
        match self {
            Json::Number(Number::Unsigned(n)) => Some(*n),
            _ => None,
        }
    }

    /// A copy of the value.
    pub fn copy(&self) -> (r: Json)
        ensures
            r@ == self@,
        decreases *self,
    {
        broadcast use {lemma_array_view, lemma_object_view};

        match self {
            Json::Null => Json::Null,
            Json::Bool(b) => Json::Bool(*b),
            Json::Number(Number::Unsigned(n)) => Json::Number(Number::Unsigned(*n)),
            Json::Number(Number::Negative(n)) => Json::Number(Number::Negative(*n)),
            Json::Number(Number::Decimal(s)) => Json::Number(Number::Decimal(s.clone())),
            Json::Str(s) => Json::Str(s.clone()),
            Json::Array(v) => {
                let mut out: Vec<Json> = Vec::new();
                let mut i: usize = 0;
                while i < v.len()
                    invariant
                        i <= v@.len(),
                        out@.len() == i,
                        decreases_to!(*self => v),
                        forall|j: int| 0 <= j < i ==> #[trigger] out@[j]@ == v@[j]@,
                    decreases v@.len() - i,
                {
                    let c = v[i].copy();
                    out.push(c);
                    i = i + 1;
                }
                assert(trees(out@) =~= trees(v@));
                Json::Array(out)
            },
            Json::Object(v) => {
                let mut out: Vec<Member> = Vec::new();
                let mut i: usize = 0;
                while i < v.len()
                    invariant
                        i <= v@.len(),
                        out@.len() == i,
                        decreases_to!(*self => v),
                        forall|j: int|
                            0 <= j < i ==> #[trigger] out@[j].key@ == v@[j].key@ && out@[j].value@
                                == v@[j].value@,
                    decreases v@.len() - i,
                {
                    let c = v[i].value.copy();
                    out.push(Member { key: v[i].key.clone(), value: c });
                    i = i + 1;
                }
                assert(members(out@) =~= members(v@));
                Json::Object(out)
            },
        }
    }
}

// ---------------------------------------------------------------------------
// Comparing
// ---------------------------------------------------------------------------

/// Whether two values say the same. The order of an object's members does not matter.
pub open spec fn same_tree(a: Tree, b: Tree) -> bool
    decreases a,
{
    match (a, b) {
        (Tree::Array(x), Tree::Array(y)) => x.len() == y.len() && forall|i: int|
            0 <= i < x.len() ==> same_tree(#[trigger] x[i], y[i]),
        (Tree::Object(x), Tree::Object(y)) => {
            &&& forall|i: int|
                0 <= i < x.len() && is_first(x, i) ==> (lookup(y, (#[trigger] x[i]).0) matches Some(t)
                    && same_tree(x[i].1, t))
            &&& forall|j: int|
                0 <= j < y.len() ==> lookup(x, (#[trigger] y[j]).0) is Some
        },
        (Tree::Array(_), _) => false,
        (Tree::Object(_), _) => false,
        _ => a == b,
    }
}

/// Whether a member is the first of its name.
pub open spec fn is_first(ms: Seq<(Seq<char>, Tree)>, i: int) -> bool {
    forall|j: int| 0 <= j < i ==> (#[trigger] ms[j]).0 != ms[i].0
}

/// Whether two lists of members say the same, in whatever order.
pub open spec fn same_members(a: Seq<(Seq<char>, Tree)>, b: Seq<(Seq<char>, Tree)>) -> bool {
    same_tree(Tree::Object(a), Tree::Object(b))
}

/// A value says the same as itself.
pub proof fn lemma_same_tree(a: Tree)
    ensures
        same_tree(a, a),
    decreases a,
{
    match a {
        Tree::Array(x) => {
            assert forall|i: int| 0 <= i < x.len() implies same_tree(#[trigger] x[i], x[i]) by {
                lemma_same_tree(x[i]);
            }
        },
        Tree::Object(x) => {
            assert forall|i: int| 0 <= i < x.len() && is_first(x, i) implies (lookup(
                x,
                (#[trigger] x[i]).0,
            ) matches Some(t) && same_tree(x[i].1, t)) by {
                lemma_lookup_at(x, x[i].0, i);
                lemma_same_tree(x[i].1);
            }
            assert forall|j: int| 0 <= j < x.len() implies lookup(x, (#[trigger] x[j]).0) is Some by {
                lemma_lookup_some(x, j);
            }
        },
        _ => {},
    }
}

proof fn lemma_lookup_some(ms: Seq<(Seq<char>, Tree)>, j: int)
    requires
        0 <= j < ms.len(),
    ensures
        lookup(ms, ms[j].0) is Some,
    decreases ms.len(),
{
    if ms[0].0 != ms[j].0 {
        lemma_lookup_some(ms.skip(1), j - 1);
    }
}

impl Json {
    /// Whether two values say the same.
    pub fn same(&self, other: &Json) -> (r: bool)
        ensures
            r == same_tree(self@, other@),
        decreases *self,
    {
        broadcast use {lemma_array_view, lemma_object_view};

        match (self, other) {
            (Json::Null, Json::Null) => true,
            (Json::Bool(a), Json::Bool(b)) => *a == *b,
            (Json::Number(Number::Unsigned(a)), Json::Number(Number::Unsigned(b))) => *a == *b,
            (Json::Number(Number::Negative(a)), Json::Number(Number::Negative(b))) => *a == *b,
            (Json::Number(Number::Decimal(a)), Json::Number(Number::Decimal(b))) => str_eq(
                a.as_str(),
                b.as_str(),
            ),
            (Json::Str(a), Json::Str(b)) => str_eq(a.as_str(), b.as_str()),
            (Json::Array(x), Json::Array(y)) => {
                if x.len() != y.len() {
                    return false;
                }
                let mut i: usize = 0;
                while i < x.len()
                    invariant
                        i <= x@.len(),
                        x@.len() == y@.len(),
                        self@ == Tree::Array(trees(x@)),
                        other@ == Tree::Array(trees(y@)),
                        decreases_to!(*self => x),
                        forall|j: int| 0 <= j < i ==> same_tree(#[trigger] trees(x@)[j], trees(y@)[j]),
                    decreases x@.len() - i,
                {
                    if !x[i].same(&y[i]) {
                        assert(!same_tree(trees(x@)[i as int], trees(y@)[i as int]));
                        return false;
                    }
                    i = i + 1;
                }
                true
            },
            (Json::Object(x), Json::Object(y)) => members_same(x, y),
            _ => false,
        }
    }
}

/// Whether two lists of members say the same, in whatever order.
pub fn members_same(x: &Vec<Member>, y: &Vec<Member>) -> (r: bool)
    ensures
        r == same_members(members(x@), members(y@)),
    decreases *x,
{
    let ghost xm = members(x@);
    let ghost ym = members(y@);
    let mut i: usize = 0;
    while i < x.len()
        invariant
            xm == members(x@),
            ym == members(y@),
            i <= x@.len(),
            forall|j: int|
                0 <= j < i && is_first(xm, j) ==> (lookup(ym, (#[trigger] xm[j]).0) matches Some(
                    t,
                ) && same_tree(xm[j].1, t)),
        decreases x@.len() - i,
    {
        let ghost here = xm[i as int];
        let place = find_member(x, x[i].key.as_str());
        let first = match place {
            Some(k) => k == i,
            None => false,
        };
        assert(first == is_first(xm, i as int)) by {
            if first {
                assert forall|j: int| 0 <= j < i implies (#[trigger] xm[j]).0
                    != here.0 by {
                    assert(x@[j].key@ != x@[i as int].key@);
                }
            } else {
                assert(x@[i as int].key@ == here.0);
                let k = place->0 as int;
                assert(xm[k].0 == here.0 && k < i);
            }
        }
        if first {
            match find_member(y, x[i].key.as_str()) {
                Some(k) => {
                    if !x[i].value.same(&y[k].value) {
                        return false;
                    }
                },
                None => {
                    return false;
                },
            }
        }
        i = i + 1;
    }
    let mut k: usize = 0;
    while k < y.len()
        invariant
            xm == members(x@),
            ym == members(y@),
            k <= y@.len(),
            forall|j: int| 0 <= j < k ==> lookup(xm, (#[trigger] ym[j]).0) is Some,
        decreases y@.len() - k,
    {
        if find_member(x, y[k].key.as_str()).is_none() {
            assert(lookup(xm, ym[k as int].0) is None);
            return false;
        }
        k = k + 1;
    }
    true
}

// ---------------------------------------------------------------------------
// Changing objects
// ---------------------------------------------------------------------------

/// The members with `key` set to `value`: in its place where the name is there, else at the end.
pub open spec fn with_member(
    ms: Seq<(Seq<char>, Tree)>,
    key: Seq<char>,
    value: Tree,
) -> Seq<(Seq<char>, Tree)>
    decreases ms.len(),
{
    if ms.len() == 0 {
        seq![(key, value)]
    } else if ms[0].0 == key {
        seq![(key, value)] + ms.skip(1)
    } else {
        seq![ms[0]] + with_member(ms.skip(1), key, value)
    }
}

/// The members but for those named `key`.
pub open spec fn without_member(ms: Seq<(Seq<char>, Tree)>, key: Seq<char>) -> Seq<
    (Seq<char>, Tree),
>
    decreases ms.len(),
{
    if ms.len() == 0 {
        Seq::empty()
    } else if ms[0].0 == key {
        without_member(ms.skip(1), key)
    } else {
        seq![ms[0]] + without_member(ms.skip(1), key)
    }
}

/// What is set is what is found, and nothing else changes.
pub proof fn lemma_with_member_lookup(
    ms: Seq<(Seq<char>, Tree)>,
    key: Seq<char>,
    value: Tree,
    other: Seq<char>,
)
    ensures
        lookup(with_member(ms, key, value), key) == Some(value),
        other != key ==> lookup(with_member(ms, key, value), other) == lookup(ms, other),
    decreases ms.len(),
{
    let r = with_member(ms, key, value);
    if ms.len() == 0 {
        assert(r.skip(1) =~= ms);
    } else if ms[0].0 == key {
        assert(r.skip(1) =~= ms.skip(1));
    } else {
        lemma_with_member_lookup(ms.skip(1), key, value, other);
        assert(r.skip(1) =~= with_member(ms.skip(1), key, value));
    }
}

/// What is taken out is not found any more, and nothing else changes.
pub proof fn lemma_without_member_lookup(
    ms: Seq<(Seq<char>, Tree)>,
    key: Seq<char>,
    other: Seq<char>,
)
    ensures
        lookup(without_member(ms, key), key) is None,
        other != key ==> lookup(without_member(ms, key), other) == lookup(ms, other),
    decreases ms.len(),
{
    if ms.len() > 0 {
        lemma_without_member_lookup(ms.skip(1), key, other);
        if ms[0].0 != key {
            let r = without_member(ms, key);
            assert(r.skip(1) =~= without_member(ms.skip(1), key));
        }
    }
}

/// Where `k` is the first member named `key`, setting it changes that member alone.
pub proof fn lemma_with_member_at(
    ms: Seq<(Seq<char>, Tree)>,
    key: Seq<char>,
    value: Tree,
    k: int,
)
    requires
        0 <= k < ms.len(),
        ms[k].0 == key,
        forall|j: int| 0 <= j < k ==> ms[j].0 != key,
    ensures
        with_member(ms, key, value) == ms.update(k, (key, value)),
    decreases k,
{
    if k == 0 {
        assert(seq![(key, value)] + ms.skip(1) =~= ms.update(0, (key, value)));
    } else {
        assert(ms[0].0 != key);
        lemma_with_member_at(ms.skip(1), key, value, k - 1);
        assert(seq![ms[0]] + ms.skip(1).update(k - 1, (key, value)) =~= ms.update(
            k,
            (key, value),
        ));
    }
}

/// Where no member is named `key`, setting it adds a member at the end.
pub proof fn lemma_with_member_end(ms: Seq<(Seq<char>, Tree)>, key: Seq<char>, value: Tree)
    requires
        forall|j: int| 0 <= j < ms.len() ==> ms[j].0 != key,
    ensures
        with_member(ms, key, value) == ms.push((key, value)),
    decreases ms.len(),
{
    if ms.len() == 0 {
        assert(seq![(key, value)] =~= ms.push((key, value)));
    } else {
        assert(ms[0].0 != key);
        lemma_with_member_end(ms.skip(1), key, value);
        assert(seq![ms[0]] + ms.skip(1).push((key, value)) =~= ms.push((key, value)));
    }
}

/// Sets the member `key` to `value`.
pub fn set_member(ms: &mut Vec<Member>, key: &str, value: Json)
    ensures
        members(final(ms)@) == with_member(members(old(ms)@), key@, value@),
{
    let ghost before = members(ms@);
    match find_member(ms, key) {
        Some(i) => {
            proof {
                assert forall|j: int| 0 <= j < i implies before[j].0 != key@ by {
                    assert(ms@[j].key@ != key@);
                }
                lemma_with_member_at(before, key@, value@, i as int);
            }
            let ghost tree = value@;
            let m = Member { key: key.to_owned(), value };
            ms.set(i, m);
            assert(members(ms@) =~= before.update(i as int, (key@, tree)));
        },
        None => {
            proof {
                assert forall|j: int| 0 <= j < before.len() implies before[j].0 != key@ by {
                    assert(ms@[j].key@ != key@);
                }
                lemma_with_member_end(before, key@, value@);
            }
            let ghost tree = value@;
            ms.push(Member { key: key.to_owned(), value });
            assert(members(ms@) =~= before.push((key@, tree)));
        },
    }
}

/// Taking out a member goes step by step from the front.
pub proof fn lemma_without_member_push(
    ms: Seq<(Seq<char>, Tree)>,
    key: Seq<char>,
    m: (Seq<char>, Tree),
)
    ensures
        without_member(ms.push(m), key) == if m.0 == key {
            without_member(ms, key)
        } else {
            without_member(ms, key).push(m)
        },
    decreases ms.len(),
{
    let all = ms.push(m);
    if ms.len() == 0 {
        assert(all.skip(1) =~= Seq::empty());
        assert(without_member(all.skip(1), key) =~= Seq::empty());
        assert(seq![m] + Seq::<(Seq<char>, Tree)>::empty() =~= Seq::empty().push(m));
    } else {
        assert(all.skip(1) =~= ms.skip(1).push(m));
        lemma_without_member_push(ms.skip(1), key, m);
        assert(all[0] == ms[0]);
        if ms[0].0 != key {
            assert(seq![ms[0]] + without_member(ms.skip(1), key).push(m) =~= (seq![ms[0]]
                + without_member(ms.skip(1), key)).push(m));
        }
    }
}

/// A copy of the members but for those named `key`.
pub fn drop_member(ms: &Vec<Member>, key: &str) -> (r: Vec<Member>)
    ensures
        members(r@) == without_member(members(ms@), key@),
{
    let mut out: Vec<Member> = Vec::new();
    let mut i: usize = 0;
    assert(members(out@) =~= without_member(members(ms@).take(0), key@));
    while i < ms.len()
        invariant
            i <= ms@.len(),
            members(out@) == without_member(members(ms@).take(i as int), key@),
        decreases ms@.len() - i,
    {
        proof {
            let m = members(ms@)[i as int];
            lemma_without_member_push(members(ms@).take(i as int), key@, m);
            assert(members(ms@).take(i + 1) =~= members(ms@).take(i as int).push(m));
        }
        if !str_eq(ms[i].key.as_str(), key) {
            let ghost before = members(out@);
            out.push(Member { key: ms[i].key.clone(), value: ms[i].value.copy() });
            assert(members(out@) =~= before.push(members(ms@)[i as int]));
        }
        i = i + 1;
    }
    assert(members(ms@).take(i as int) =~= members(ms@));
    out
}

// ---------------------------------------------------------------------------
// Text
// ---------------------------------------------------------------------------

#[verifier::external_type_specification]
#[verifier::external_body]
pub struct ExValue(serde_json::Value);

/// What a `serde_json::Value` holds.
pub uninterp spec fn value_tree(value: serde_json::Value) -> Tree;

/// The JSON value that a text is read as; nothing where the text is not JSON.
pub uninterp spec fn parsed(text: Seq<char>) -> Option<Tree>;

/// `serde_json::from_str`: reads a text as one JSON value. Whether it is one, and which, depends
/// on the text alone.
#[verifier::external_body]
fn parse_value(text: &str) -> (r: Option<serde_json::Value>)
    ensures
        match r {
            Some(v) => parsed(text@) == Some(value_tree(v)),
            None => parsed(text@) is None,
        },
{
    serde_json::from_str::<serde_json::Value>(text).ok()
}

/// The parts of a `serde_json::Value`, one for one: `serde_json` holds an integer as `u64` or,
/// below zero, as `i64`, and writes any other number with `Number::to_string`.
#[verifier::external_body]
fn json_of(value: serde_json::Value) -> (json: Json)
    ensures
        json@ == value_tree(value),
{
    match value {
        Value::Null => Json::Null,
        Value::Bool(b) => Json::Bool(b),
        Value::Number(n) => Json::Number(match (n.as_u64(), n.as_i64()) {
            (Some(u), _) => Number::Unsigned(u),
            (None, Some(i)) => Number::Negative(i),
            (None, None) => Number::Decimal(n.to_string()),
        }),
        Value::String(s) => Json::Str(s),
        Value::Array(a) => Json::Array(a.into_iter().map(json_of).collect()),
        Value::Object(o) => Json::Object(
            o.into_iter().map(|(key, v)| Member { key, value: json_of(v) }).collect(),
        ),
    }
}

/// Reads a text as JSON.
pub fn parse(text: &str) -> (r: Option<Json>)
    ensures
        tree_opt(r) == parsed(text@),
{
    match parse_value(text) {
        Some(v) => Some(json_of(v)),
        None => None,
    }
}

/// The JSON value that `serde_json` holds for one: its objects hold a name once, and it reads a
/// number from its text.
pub uninterp spec fn settled(tree: Tree) -> Tree;

/// A `serde_json::Value` with the parts of a JSON value, one for one. What it holds depends on the
/// JSON value alone.
#[verifier::external_body]
fn value_of(json: &Json) -> (value: serde_json::Value)
    ensures
        value_tree(value) == settled(json@),
{
    match json {
        Json::Null => Value::Null,
        Json::Bool(b) => Value::Bool(*b),
        Json::Number(Number::Unsigned(u)) => Value::from(*u),
        Json::Number(Number::Negative(i)) => Value::from(*i),
        Json::Number(Number::Decimal(s)) => serde_json::from_str(s).unwrap_or_default(),
        Json::Str(s) => Value::String(s.clone()),
        Json::Array(a) => Value::Array(a.iter().map(value_of).collect()),
        Json::Object(o) => Value::Object(
            o.iter().map(|m| (m.key.clone(), value_of(&m.value))).collect(),
        ),
    }
}

/// The text of a JSON value, without white space between its parts.
pub uninterp spec fn compact_text(tree: Tree) -> Seq<char>;

/// The `Display` of `serde_json::Value`: the text depends on what the value holds alone.
#[verifier::external_body]
fn value_text(value: &serde_json::Value) -> (r: String)
    ensures
        r@ == compact_text(value_tree(*value)),
{
    value.to_string()
}

/// Writes a JSON value as a text.
pub fn write(json: &Json) -> (r: String)
    ensures
        r@ == compact_text(settled(json@)),
{
    value_text(&value_of(json))
}

/// Objects that say the same have the same names, and what they hold under each says the same;
/// values of different kinds never say the same, nor do different texts, numbers or truth values.
pub proof fn law_same_values_agree(
    a: Seq<(Seq<char>, Tree)>,
    b: Seq<(Seq<char>, Tree)>,
    key: Seq<char>,
    s: Seq<char>,
    t: Seq<char>,
)
    ensures
        same_members(a, b) ==> {
            &&& lookup(a, key) is Some <==> lookup(b, key) is Some
            &&& lookup(a, key) matches Some(x) ==> (lookup(b, key) matches Some(y) && same_tree(
                x,
                y,
            ))
        },
        same_tree(Tree::Str(s), Tree::Str(t)) <==> s == t,
        !same_tree(Tree::Str(s), Tree::Null),
        !same_tree(Tree::Object(a), Tree::Null),
        !same_tree(Tree::Object(a), Tree::Str(s)),
        !same_tree(Tree::Bool(true), Tree::Bool(false)),
{
    if same_members(a, b) {
        if lookup(a, key) is Some {
            lemma_lookup_place(a, key);
            let i = choose|i: int|
                0 <= i < a.len() && (#[trigger] a[i]).0 == key && is_first(a, i) && lookup(a, key)
                    == Some(a[i].1);
            assert(lookup(b, a[i].0) matches Some(y) && same_tree(a[i].1, y));
        }
        if lookup(b, key) is Some {
            lemma_lookup_place(b, key);
            let j = choose|j: int|
                0 <= j < b.len() && (#[trigger] b[j]).0 == key && is_first(b, j) && lookup(b, key)
                    == Some(b[j].1);
            assert(lookup(a, b[j].0) is Some);
        }
    }
}

proof fn lemma_lookup_place(ms: Seq<(Seq<char>, Tree)>, key: Seq<char>)
    requires
        lookup(ms, key) is Some,
    ensures
        exists|i: int|
            0 <= i < ms.len() && (#[trigger] ms[i]).0 == key && is_first(ms, i) && lookup(ms, key)
                == Some(ms[i].1),
    decreases ms.len(),
{
    if ms[0].0 == key {
        assert(is_first(ms, 0));
    } else {
        let rest = ms.skip(1);
        lemma_lookup_place(rest, key);
        let i = choose|i: int|
            0 <= i < rest.len() && (#[trigger] rest[i]).0 == key && is_first(rest, i) && lookup(
                rest,
                key,
            ) == Some(rest[i].1);
        assert(ms[i + 1] == rest[i]);
        assert forall|j: int| 0 <= j < i + 1 implies (#[trigger] ms[j]).0 != ms[i + 1].0 by {
            if j > 0 {
                assert(rest[j - 1] == ms[j]);
            }
        }
        assert(is_first(ms, i + 1));
    }
}

/// What was set under a name is found there, what was dropped is not, and every other member stays.
pub proof fn law_members_are_set_and_dropped(
    ms: Seq<(Seq<char>, Tree)>,
    key: Seq<char>,
    value: Tree,
    other: Seq<char>,
)
    ensures
        lookup(with_member(ms, key, value), key) == Some(value),
        lookup(without_member(ms, key), key) is None,
        other != key ==> lookup(with_member(ms, key, value), other) == lookup(ms, other) && lookup(
            without_member(ms, key),
            other,
        ) == lookup(ms, other),
{
    lemma_with_member_lookup(ms, key, value, other);
    lemma_without_member_lookup(ms, key, other);
}

/// What a value is read as: a text only where it is one, and a number only where it is one that is
/// not negative.
pub proof fn law_values_are_read_by_kind(s: Seq<char>, n: u64, m: i64, t: Tree, key: Seq<char>)
    ensures
        Tree::Str(s).text() == Some(s),
        Tree::Number(NumberTree::Unsigned(n)).unsigned() == Some(n),
        Tree::Number(NumberTree::Negative(m)).unsigned() is None,
        Tree::Number(NumberTree::Unsigned(n)).text() is None,
        Tree::Null.text() is None,
        t.get_text(key) is Some <==> t.get(key) matches Some(Tree::Str(_)),
        !(t is Object) ==> t.get(key) is None,
{
}

} // verus!

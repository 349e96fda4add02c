//! The schema document of the protocol's extension methods.

use crate::json::{
    drop_member, find_member, lemma_lookup_at, lemma_lookup_none, lemma_with_member_lookup,
    lemma_without_member_lookup, lookup, member, members, set_member, trees, with_member,
    without_member, Json, Member, Tree,
};
use crate::seqs::{lemma_contains_both, lemma_contains_last, lemma_contains_push};
use crate::text::{
    after_prefix, cat, cat3, contains, contains_string, has_text, lemma_has_text, str_eq,
    strip_prefix, text_opt, texts,
};
use vstd::prelude::*;
use vstd::string::*;

verus! {

broadcast use {crate::json::lemma_array_view, crate::json::lemma_object_view};

// ---------------------------------------------------------------------------
// Types that only unstable methods use
// ---------------------------------------------------------------------------

/// A method, with the types of what it takes and of what it gives.
#[derive(Debug, PartialEq, Eq)]
pub struct MethodSchema {
    pub method: String,
    pub params_type_name: Option<String>,
    pub response_type_name: Option<String>,
}

#[verifier::ext_equal]
pub struct MethodModel {
    pub method: Seq<char>,
    pub params: Option<Seq<char>>,
    pub response: Option<Seq<char>>,
}

impl MethodSchema {
    pub open spec fn view(&self) -> MethodModel {
        MethodModel {
            method: self.method@,
            params: text_opt(self.params_type_name),
            response: text_opt(self.response_type_name),
        }
    }
}

pub open spec fn method_models(v: Seq<MethodSchema>) -> Seq<MethodModel> {
    Seq::new(v.len(), |i: int| v[i]@)
}

/// That a method uses a type.
#[derive(Debug, PartialEq, Eq)]
pub struct Mention {
    pub name: String,
    pub method: String,
}

pub open spec fn mention_models(v: Seq<Mention>) -> Seq<(Seq<char>, Seq<char>)> {
    Seq::new(v.len(), |i: int| (v[i].name@, v[i].method@))
}

/// Whether the method may still change.
pub open spec fn unstable_method(method: Seq<char>) -> bool {
    has_text(method, "_goose/unstable"@)
}

/// Whether the method may still change.
pub fn is_unstable_method(method: &str) -> (r: bool)
    ensures
        r == unstable_method(method@),
{
    contains(method, "_goose/unstable")
}

/// The types that a method uses, each with the method.
pub open spec fn mentions_in(m: MethodModel) -> Seq<(Seq<char>, Seq<char>)> {
    let params = match m.params {
        Some(n) => seq![(n, m.method)],
        None => Seq::empty(),
    };
    match m.response {
        Some(n) => params.push((n, m.method)),
        None => params,
    }
}

/// The types that the methods use, each with its method.
pub open spec fn mentions(ms: Seq<MethodModel>) -> Seq<(Seq<char>, Seq<char>)>
    decreases ms.len(),
{
    if ms.len() == 0 {
        Seq::empty()
    } else {
        mentions(ms.drop_last()) + mentions_in(ms.last())
    }
}

fn add_mentions(out: &mut Vec<Mention>, methods: &Vec<MethodSchema>)
    ensures
        mention_models(final(out)@) == mention_models(old(out)@) + mentions(
            method_models(methods@),
        ),
{
    let ghost before = mention_models(out@);
    let ghost all = method_models(methods@);
    let mut i: usize = 0;
    assert(before =~= before + mentions(all.take(0)));
    while i < methods.len()
        invariant
            all == method_models(methods@),
            i <= methods@.len(),
            mention_models(out@) == before + mentions(all.take(i as int)),
        decreases methods@.len() - i,
    {
        assert(all.take(i + 1).drop_last() =~= all.take(i as int));
        assert(all.take(i + 1).last() == methods@[i as int]@);
        let ghost so_far = mention_models(out@);
        if let Some(n) = &methods[i].params_type_name {
            out.push(Mention { name: n.clone(), method: methods[i].method.clone() });
            assert(mention_models(out@) =~= so_far + seq![(n@, methods@[i as int].method@)]);
        }
        let ghost with_params = mention_models(out@);
        if let Some(n) = &methods[i].response_type_name {
            out.push(Mention { name: n.clone(), method: methods[i].method.clone() });
            assert(mention_models(out@) =~= with_params.push((n@, methods@[i as int].method@)));
        }
        assert(mention_models(out@) =~= so_far + mentions_in(methods@[i as int]@));
        assert(mention_models(out@) =~= before + mentions(all.take(i + 1)));
        i = i + 1;
    }
    assert(all.take(i as int) =~= all);
}

/// The types that the methods, the notifications and the agent's requests use, each with its
/// method.
pub open spec fn all_mentions(
    methods: Seq<MethodModel>,
    notifications: Seq<MethodModel>,
    requests: Seq<MethodModel>,
) -> Seq<(Seq<char>, Seq<char>)> {
    mentions(methods) + mentions(notifications) + mentions(requests)
}

/// The types that the methods, the notifications and the agent's requests use.
pub fn collect_mentions(
    methods: &Vec<MethodSchema>,
    notifications: &Vec<MethodSchema>,
    requests: &Vec<MethodSchema>,
) -> (r: Vec<Mention>)
    ensures
        mention_models(r@) == all_mentions(
            method_models(methods@),
            method_models(notifications@),
            method_models(requests@),
        ),
{
    let mut out: Vec<Mention> = Vec::new();
    add_mentions(&mut out, methods);
    add_mentions(&mut out, notifications);
    add_mentions(&mut out, requests);
    assert(mention_models(out@) =~= all_mentions(
        method_models(methods@),
        method_models(notifications@),
        method_models(requests@),
    ));
    out
}

/// The methods that use a type, in their order, once for each use.
pub open spec fn methods_of(ms: Seq<(Seq<char>, Seq<char>)>, name: Seq<char>) -> Seq<Seq<char>>
    decreases ms.len(),
{
    if ms.len() == 0 {
        Seq::empty()
    } else if ms.last().0 == name {
        methods_of(ms.drop_last(), name).push(ms.last().1)
    } else {
        methods_of(ms.drop_last(), name)
    }
}

/// The methods that use a type, in their order, once for each use.
pub fn find_methods(ms: &Vec<Mention>, name: &str) -> (r: Vec<String>)
    ensures
        texts(r@) == methods_of(mention_models(ms@), name@),
{
    let ghost all = mention_models(ms@);
    let mut out: Vec<String> = Vec::new();
    let mut i: usize = 0;
    assert(texts(out@) =~= methods_of(all.take(0), name@));
    while i < ms.len()
        invariant
            all == mention_models(ms@),
            i <= ms@.len(),
            texts(out@) == methods_of(all.take(i as int), name@),
        decreases ms@.len() - i,
    {
        assert(all.take(i + 1).drop_last() =~= all.take(i as int));
        assert(all.take(i + 1).last() == (ms@[i as int].name@, ms@[i as int].method@));
        if str_eq(ms[i].name.as_str(), name) {
            let ghost before = texts(out@);
            out.push(ms[i].method.clone());
            assert(texts(out@) =~= before.push(ms@[i as int].method@));
        }
        i = i + 1;
    }
    assert(all.take(i as int) =~= all);
    out
}

/// The types, in the order in which they first occur.
pub open spec fn names_of(ms: Seq<(Seq<char>, Seq<char>)>) -> Seq<Seq<char>>
    decreases ms.len(),
{
    if ms.len() == 0 {
        Seq::empty()
    } else if names_of(ms.drop_last()).contains(ms.last().0) {
        names_of(ms.drop_last())
    } else {
        names_of(ms.drop_last()).push(ms.last().0)
    }
}

/// The types, in the order in which they first occur.
pub fn type_names(ms: &Vec<Mention>) -> (r: Vec<String>)
    ensures
        texts(r@) == names_of(mention_models(ms@)),
{
    let ghost all = mention_models(ms@);
    let mut out: Vec<String> = Vec::new();
    let mut i: usize = 0;
    assert(texts(out@) =~= names_of(all.take(0)));
    while i < ms.len()
        invariant
            all == mention_models(ms@),
            i <= ms@.len(),
            texts(out@) == names_of(all.take(i as int)),
        decreases ms@.len() - i,
    {
        assert(all.take(i + 1).drop_last() =~= all.take(i as int));
        assert(all.take(i + 1).last() == (ms@[i as int].name@, ms@[i as int].method@));
        if !contains_string(&out, ms[i].name.as_str()) {
            let ghost before = texts(out@);
            out.push(ms[i].name.clone());
            assert(texts(out@) =~= before.push(ms@[i as int].name@));
        }
        i = i + 1;
    }
    assert(all.take(i as int) =~= all);
    out
}

/// Whether all the methods may still change.
pub open spec fn all_unstable(methods: Seq<Seq<char>>) -> bool {
    forall|i: int| 0 <= i < methods.len() ==> unstable_method(#[trigger] methods[i])
}

fn are_unstable(methods: &Vec<String>) -> (r: bool)
    ensures
        r == all_unstable(texts(methods@)),
{
    let ghost all = texts(methods@);
    let mut i: usize = 0;
    while i < methods.len()
        invariant
            all == texts(methods@),
            i <= methods@.len(),
            forall|j: int| 0 <= j < i ==> unstable_method(#[trigger] all[j]),
        decreases methods@.len() - i,
    {
        assert(all[i as int] == methods@[i as int]@);
        if !is_unstable_method(methods[i].as_str()) {
            return false;
        }
        i = i + 1;
    }
    true
}

/// Those of the types that only unstable methods use.
pub open spec fn unstable_among(
    names: Seq<Seq<char>>,
    ms: Seq<(Seq<char>, Seq<char>)>,
) -> Seq<Seq<char>>
    decreases names.len(),
{
    if names.len() == 0 {
        Seq::empty()
    } else if all_unstable(methods_of(ms, names.last())) {
        unstable_among(names.drop_last(), ms).push(names.last())
    } else {
        unstable_among(names.drop_last(), ms)
    }
}

/// The types that only unstable methods use.
pub open spec fn unstable_types(ms: Seq<(Seq<char>, Seq<char>)>) -> Seq<Seq<char>> {
    unstable_among(names_of(ms), ms)
}

/// The types that only unstable methods use.
pub fn unstable_type_names(ms: &Vec<Mention>) -> (r: Vec<String>)
    ensures
        texts(r@) == unstable_types(mention_models(ms@)),
{
    let names = type_names(ms);
    let ghost all = texts(names@);
    let ghost mm = mention_models(ms@);
    let mut out: Vec<String> = Vec::new();
    let mut i: usize = 0;
    assert(texts(out@) =~= unstable_among(all.take(0), mm));
    while i < names.len()
        invariant
            all == texts(names@),
            mm == mention_models(ms@),
            i <= names@.len(),
            texts(out@) == unstable_among(all.take(i as int), mm),
        decreases names@.len() - i,
    {
        assert(all.take(i + 1).drop_last() =~= all.take(i as int));
        assert(all.take(i + 1).last() == names@[i as int]@);
        let methods = find_methods(ms, names[i].as_str());
        if are_unstable(&methods) {
            let ghost before = texts(out@);
            out.push(names[i].clone());
            assert(texts(out@) =~= before.push(names@[i as int]@));
        }
        i = i + 1;
    }
    assert(all.take(i as int) =~= all);
    out
}

proof fn lemma_names(ms: Seq<(Seq<char>, Seq<char>)>, name: Seq<char>)
    ensures
        names_of(ms).contains(name) == (exists|i: int| 0 <= i < ms.len() && (#[trigger] ms[i]).0
            == name),
    decreases ms.len(),
{
    if ms.len() > 0 {
        let rest = ms.drop_last();
        let head = names_of(rest);
        let all = names_of(ms);
        lemma_names(rest, name);
        if ms.last().0 == name {
            assert(ms[ms.len() - 1].0 == name);
            if !head.contains(name) {
                assert(all[all.len() - 1] == name);
            }
        } else if head.contains(name) {
            let i = choose|i: int| 0 <= i < rest.len() && (#[trigger] rest[i]).0 == name;
            assert(ms[i].0 == name);
            let j = choose|j: int| 0 <= j < head.len() && head[j] == name;
            assert(all[j] == name);
        } else {
            assert(forall|i: int| 0 <= i < rest.len() ==> ms[i] == #[trigger] rest[i]);
            if exists|i: int| 0 <= i < ms.len() && (#[trigger] ms[i]).0 == name {
                let i = choose|i: int| 0 <= i < ms.len() && (#[trigger] ms[i]).0 == name;
                assert(rest[i].0 == name);
            }
            if all.contains(name) {
                let j = choose|j: int| 0 <= j < all.len() && all[j] == name;
                assert(head[j] == name);
            }
        }
    }
}

proof fn lemma_methods_unstable(ms: Seq<(Seq<char>, Seq<char>)>, name: Seq<char>)
    ensures
        all_unstable(methods_of(ms, name)) == (forall|i: int|
            0 <= i < ms.len() && (#[trigger] ms[i]).0 == name ==> unstable_method(ms[i].1)),
    decreases ms.len(),
{
    if ms.len() > 0 {
        let rest = ms.drop_last();
        lemma_methods_unstable(rest, name);
        let head = methods_of(rest, name);
        let all = methods_of(ms, name);
        assert(forall|i: int| 0 <= i < rest.len() ==> ms[i] == #[trigger] rest[i]);
        assert(forall|i: int| 0 <= i < head.len() ==> all[i] == #[trigger] head[i]);
        let each = forall|i: int|
            0 <= i < ms.len() && (#[trigger] ms[i]).0 == name ==> unstable_method(ms[i].1);
        if each {
            assert forall|i: int|
                0 <= i < rest.len() && (#[trigger] rest[i]).0 == name implies unstable_method(
                rest[i].1,
            ) by {
                assert(ms[i] == rest[i]);
            }
            assert(ms[ms.len() - 1] == ms.last());
            assert(all_unstable(all));
        }
        if all_unstable(all) {
            assert forall|i: int| 0 <= i < head.len() implies unstable_method(
                #[trigger] head[i],
            ) by {
                assert(all[i] == head[i]);
            }
            if ms.last().0 == name {
                assert(unstable_method(all[all.len() - 1]));
            }
            assert forall|i: int|
                0 <= i < ms.len() && (#[trigger] ms[i]).0 == name implies unstable_method(
                ms[i].1,
            ) by {
                if i < rest.len() {
                    assert(rest[i] == ms[i]);
                }
            }
        }
    }
}

proof fn lemma_unstable_among(
    names: Seq<Seq<char>>,
    ms: Seq<(Seq<char>, Seq<char>)>,
    name: Seq<char>,
)
    ensures
        unstable_among(names, ms).contains(name) == (names.contains(name) && all_unstable(
            methods_of(ms, name),
        )),
    decreases names.len(),
{
    if names.len() > 0 {
        let rest = names.drop_last();
        let head = unstable_among(rest, ms);
        let all = unstable_among(names, ms);
        lemma_unstable_among(rest, ms, name);
        if rest.contains(name) {
            let i = choose|i: int| 0 <= i < rest.len() && rest[i] == name;
            assert(names[i] == name);
        }
        if head.contains(name) {
            let j = choose|j: int| 0 <= j < head.len() && head[j] == name;
            assert(all[j] == name);
        }
        if names.last() == name {
            assert(names[names.len() - 1] == name);
            if all_unstable(methods_of(ms, name)) {
                assert(all[all.len() - 1] == name);
            }
        } else {
            if names.contains(name) {
                let i = choose|i: int| 0 <= i < names.len() && names[i] == name;
                assert(rest[i] == name);
            }
            if all.contains(name) {
                let j = choose|j: int| 0 <= j < all.len() && all[j] == name;
                assert(head[j] == name);
            }
        }
    }
}

/// A type counts as unstable exactly where some method uses it and every method that does is
/// unstable.
pub proof fn law_unstable_types(ms: Seq<(Seq<char>, Seq<char>)>, name: Seq<char>)
    ensures
        unstable_types(ms).contains(name) == ((exists|i: int|
            0 <= i < ms.len() && (#[trigger] ms[i]).0 == name) && (forall|i: int|
            0 <= i < ms.len() && (#[trigger] ms[i]).0 == name ==> unstable_method(ms[i].1))),
{
    lemma_unstable_among(names_of(ms), ms, name);
    lemma_names(ms, name);
    lemma_methods_unstable(ms, name);
}

/// The name of a type in the document: one that only unstable methods use says so.
pub open spec fn document_name(name: Seq<char>, unstable: Seq<Seq<char>>) -> Seq<char> {
    if unstable.contains(name) {
        name + "_unstable"@
    } else {
        name
    }
}

/// The name of a type in the document.
pub fn generated_type_name(name: &str, unstable_type_names: &Vec<String>) -> (r: String)
    ensures
        r@ == document_name(name@, texts(unstable_type_names@)),
{
    if contains_string(unstable_type_names, name) {
        cat(name, "_unstable")
    } else {
        name.to_owned()
    }
}

// ---------------------------------------------------------------------------
// Changes throughout a definition
// ---------------------------------------------------------------------------

/// A reference to a definition, by the name that the definition has in the document.
pub open spec fn renamed_ref(reference: Seq<char>, unstable: Seq<Seq<char>>) -> Seq<char> {
    match after_prefix(reference, "#/$defs/"@) {
        Some(name) => if unstable.contains(name) {
            "#/$defs/"@ + name + "_unstable"@
        } else {
            reference
        },
        None => reference,
    }
}

/// A value with every reference renamed.
pub open spec fn rewritten(t: Tree, unstable: Seq<Seq<char>>) -> Tree
    decreases t,
{
    match t {
        Tree::Array(v) => Tree::Array(
            Seq::new(
                v.len(),
                |i: int|
                    if 0 <= i < v.len() {
                        rewritten(v[i], unstable)
                    } else {
                        Tree::Null
                    },
            ),
        ),
        Tree::Object(ms) => Tree::Object(
            Seq::new(
                ms.len(),
                |i: int|
                    if 0 <= i < ms.len() {
                        (ms[i].0, rewritten_member(ms[i], unstable))
                    } else {
                        (Seq::empty(), Tree::Null)
                    },
            ),
        ),
        _ => t,
    }
}

/// The value of a member with every reference renamed.
pub open spec fn rewritten_member(m: (Seq<char>, Tree), unstable: Seq<Seq<char>>) -> Tree
    decreases m,
{
    match m.1 {
        Tree::Str(s) => if m.0 == "$ref"@ {
            Tree::Str(renamed_ref(s, unstable))
        } else {
            m.1
        },
        _ => rewritten(m.1, unstable),
    }
}

/// The values of an array with every reference renamed.
pub open spec fn rewritten_items(v: Seq<Tree>, unstable: Seq<Seq<char>>) -> Seq<Tree> {
    Seq::new(v.len(), |i: int| rewritten(v[i], unstable))
}

/// The members of an object with every reference renamed.
pub open spec fn rewritten_members(ms: Seq<(Seq<char>, Tree)>, unstable: Seq<Seq<char>>) -> Seq<(Seq<char>, Tree)> {
    Seq::new(ms.len(), |i: int| (ms[i].0, rewritten_member(ms[i], unstable)))
}

proof fn lemma_rewritten_array(v: Seq<Tree>, unstable: Seq<Seq<char>>)
    ensures
        rewritten(Tree::Array(v), unstable) == Tree::Array(rewritten_items(v, unstable)),
{
    assert(rewritten(Tree::Array(v), unstable)->Array_0 =~= rewritten_items(v, unstable));
}

proof fn lemma_rewritten_object(ms: Seq<(Seq<char>, Tree)>, unstable: Seq<Seq<char>>)
    ensures
        rewritten(Tree::Object(ms), unstable) == Tree::Object(rewritten_members(ms, unstable)),
{
    assert(rewritten(Tree::Object(ms), unstable)->Object_0 =~= rewritten_members(ms, unstable));
}

fn rename_ref(reference: &str, unstable: &Vec<String>) -> (r: String)
    ensures
        r@ == renamed_ref(reference@, texts(unstable@)),
{
    match strip_prefix(reference, "#/$defs/") {
        Some(name) => if contains_string(unstable, name.as_str()) {
            cat3("#/$defs/", name.as_str(), "_unstable")
        } else {
            reference.to_owned()
        },
        None => reference.to_owned(),
    }
}

fn rewrite_refs(value: &Json, unstable: &Vec<String>) -> (r: Json)
    ensures
        r@ == rewritten(value@, texts(unstable@)),
    decreases *value,
{
    let ghost names = texts(unstable@);
    match value {
        Json::Array(v) => {
            let mut out: Vec<Json> = Vec::new();
            let mut i: usize = 0;
            while i < v.len()
                invariant
                    i <= v@.len(),
                    out@.len() == i,
                    names == texts(unstable@),
                    decreases_to!(*value => v),
                    forall|j: int| 0 <= j < i ==> #[trigger] out@[j]@ == rewritten(v@[j]@, names),
                decreases v@.len() - i,
            {
                let c = rewrite_refs(&v[i], unstable);
                out.push(c);
                i = i + 1;
            }
            proof {
                lemma_rewritten_array(trees(v@), names);
                assert(trees(out@) =~= rewritten_items(trees(v@), names));
            }
            Json::Array(out)
        },
        Json::Object(v) => {
            let mut out: Vec<Member> = Vec::new();
            let mut i: usize = 0;
            while i < v.len()
                invariant
                    i <= v@.len(),
                    out@.len() == i,
                    names == texts(unstable@),
                    decreases_to!(*value => v),
                    forall|j: int|
                        0 <= j < i ==> #[trigger] out@[j].key@ == v@[j].key@ && out@[j].value@
                            == rewritten_member((v@[j].key@, v@[j].value@), names),
                decreases v@.len() - i,
            {
                let c = match &v[i].value {
                    Json::Str(s) => if str_eq(v[i].key.as_str(), "$ref") {
                        Json::Str(rename_ref(s.as_str(), unstable))
                    } else {
                        Json::Str(s.clone())
                    },
                    _ => rewrite_refs(&v[i].value, unstable),
                };
                out.push(Member { key: v[i].key.clone(), value: c });
                i = i + 1;
            }
            proof {
                lemma_rewritten_object(members(v@), names);
                assert(members(out@) =~= rewritten_members(members(v@), names));
            }
            Json::Object(out)
        },
        _ => value.copy(),
    }
}

/// Renames the references to the types that only unstable methods use, throughout a value.
pub fn rewrite_unstable_schema_refs(value: &mut Json, unstable_type_names: &Vec<String>)
    ensures
        final(value)@ == rewritten(old(value)@, texts(unstable_type_names@)),
{
    let r = rewrite_refs(value, unstable_type_names);
    *value = r;
}

/// A reference to a type leads, once renamed, to the type's name in the document.
pub proof fn law_references_follow_their_types(name: Seq<char>, unstable: Seq<Seq<char>>)
    ensures
        renamed_ref("#/$defs/"@ + name, unstable) == "#/$defs/"@ + document_name(name, unstable),
{
    let r = "#/$defs/"@ + name;
    assert(r.subrange(0, 0 + "#/$defs/"@.len() as int) =~= "#/$defs/"@);
    assert(r.skip("#/$defs/"@.len() as int) =~= name);
    assert("#/$defs/"@ + name + "_unstable"@ =~= "#/$defs/"@ + (name + "_unstable"@));
}

/// A value with `{}` for every `true` inside it.
pub open spec fn opened(t: Tree) -> Tree
    decreases t,
{
    match t {
        Tree::Array(v) => Tree::Array(
            Seq::new(
                v.len(),
                |i: int|
                    if 0 <= i < v.len() {
                        if v[i] == Tree::Bool(true) {
                            Tree::Object(Seq::empty())
                        } else {
                            opened(v[i])
                        }
                    } else {
                        Tree::Null
                    },
            ),
        ),
        Tree::Object(ms) => Tree::Object(
            Seq::new(
                ms.len(),
                |i: int|
                    if 0 <= i < ms.len() {
                        (
                            ms[i].0,
                            if ms[i].1 == Tree::Bool(true) {
                                Tree::Object(Seq::empty())
                            } else {
                                opened(ms[i].1)
                            },
                        )
                    } else {
                        (Seq::empty(), Tree::Null)
                    },
            ),
        ),
        _ => t,
    }
}

/// A schema, with `{}` for `true`, and for every `true` inside it.
pub open spec fn opened_schema(t: Tree) -> Tree {
    if t == Tree::Bool(true) {
        Tree::Object(Seq::empty())
    } else {
        opened(t)
    }
}

/// The values of an array, opened.
pub open spec fn opened_items(v: Seq<Tree>) -> Seq<Tree> {
    Seq::new(v.len(), |i: int| opened_schema(v[i]))
}

/// The members of an object, opened.
pub open spec fn opened_members(ms: Seq<(Seq<char>, Tree)>) -> Seq<(Seq<char>, Tree)> {
    Seq::new(ms.len(), |i: int| (ms[i].0, opened_schema(ms[i].1)))
}

proof fn lemma_opened_array(v: Seq<Tree>)
    ensures
        opened(Tree::Array(v)) == Tree::Array(opened_items(v)),
{
    assert(opened(Tree::Array(v))->Array_0 =~= opened_items(v));
}

proof fn lemma_opened_object(ms: Seq<(Seq<char>, Tree)>)
    ensures
        opened(Tree::Object(ms)) == Tree::Object(opened_members(ms)),
{
    assert(opened(Tree::Object(ms))->Object_0 =~= opened_members(ms));
}

fn is_true(value: &Json) -> (r: bool)
    ensures
        r == (value@ == Tree::Bool(true)),
{
    match value {
        Json::Bool(b) => *b,
        _ => false,
    }
}

fn empty_object() -> (r: Json)
    ensures
        r@ == Tree::Object(Seq::empty()),
{
    let none: Vec<Member> = Vec::new();
    assert(members(none@) =~= Seq::empty());
    Json::Object(none)
}

fn open_schemas(value: &Json) -> (r: Json)
    ensures
        r@ == opened(value@),
    decreases *value,
{
    match value {
        Json::Array(v) => {
            let mut out: Vec<Json> = Vec::new();
            let mut i: usize = 0;
            while i < v.len()
                invariant
                    i <= v@.len(),
                    out@.len() == i,
                    decreases_to!(*value => v),
                    forall|j: int| 0 <= j < i ==> #[trigger] out@[j]@ == opened_schema(v@[j]@),
                decreases v@.len() - i,
            {
                let c = if is_true(&v[i]) {
                    empty_object()
                } else {
                    open_schemas(&v[i])
                };
                out.push(c);
                i = i + 1;
            }
            proof {
                lemma_opened_array(trees(v@));
                assert(trees(out@) =~= opened_items(trees(v@)));
            }
            Json::Array(out)
        },
        Json::Object(v) => {
            let mut out: Vec<Member> = Vec::new();
            let mut i: usize = 0;
            while i < v.len()
                invariant
                    i <= v@.len(),
                    out@.len() == i,
                    decreases_to!(*value => v),
                    forall|j: int|
                        0 <= j < i ==> #[trigger] out@[j].key@ == v@[j].key@ && out@[j].value@
                            == opened_schema(v@[j].value@),
                decreases v@.len() - i,
            {
                let c = if is_true(&v[i].value) {
                    empty_object()
                } else {
                    open_schemas(&v[i].value)
                };
                out.push(Member { key: v[i].key.clone(), value: c });
                i = i + 1;
            }
            proof {
                lemma_opened_object(members(v@));
                assert(members(out@) =~= opened_members(members(v@)));
            }
            Json::Object(out)
        },
        _ => value.copy(),
    }
}

/// Replaces every `true` inside a value by `{}`. As schemas both accept any value, but many tools
/// that make code from schemas know the object only.
pub fn replace_true_schemas(value: &mut Json)
    ensures
        final(value)@ == opened(old(value)@),
{
    let r = open_schemas(value);
    *value = r;
}

/// Whether a `true` stands inside the value.
pub open spec fn has_true_inside(t: Tree) -> bool
    decreases t,
{
    match t {
        Tree::Array(v) => exists|i: int|
            0 <= i < v.len() && (#[trigger] v[i] == Tree::Bool(true) || has_true_inside(v[i])),
        Tree::Object(ms) => exists|i: int|
            0 <= i < ms.len() && ((#[trigger] ms[i]).1 == Tree::Bool(true) || has_true_inside(
                ms[i].1,
            )),
        _ => false,
    }
}

/// No `true` is left inside a value.
pub proof fn law_no_true_is_left(t: Tree)
    ensures
        !has_true_inside(opened(t)),
    decreases t,
{
    match t {
        Tree::Array(v) => {
            lemma_opened_array(v);
            let r = opened_items(v);
            assert forall|i: int| 0 <= i < r.len() implies #[trigger] r[i] != Tree::Bool(true)
                && !has_true_inside(r[i]) by {
                law_no_true_is_left(v[i]);
            }
        },
        Tree::Object(ms) => {
            lemma_opened_object(ms);
            let r = opened_members(ms);
            assert forall|i: int| 0 <= i < r.len() implies (#[trigger] r[i]).1 != Tree::Bool(true)
                && !has_true_inside(r[i].1) by {
                law_no_true_is_left(ms[i].1);
            }
        },
        _ => {},
    }
}

/// Whether one of the values is the text `integer`.
pub open spec fn names_integer(v: Seq<Tree>) -> bool {
    exists|i: int| 0 <= i < v.len() && #[trigger] v[i] == Tree::Str("integer"@)
}

/// Whether a schema is that of an integer, alone or among other types.
pub open spec fn integer_type(t: Option<Tree>) -> bool {
    match t {
        Some(Tree::Str(s)) => s == "integer"@,
        Some(Tree::Array(v)) => names_integer(v),
        _ => false,
    }
}

/// The members of a schema, without the format where it is that of an integer.
pub open spec fn unformatted(
    ms: Seq<(Seq<char>, Tree)>,
    integer: bool,
) -> Seq<(Seq<char>, Tree)> {
    if integer {
        without_member(ms, "format"@)
    } else {
        ms
    }
}

/// A value without the formats of its integer schemas.
pub open spec fn stripped(t: Tree) -> Tree
    decreases t,
{
    match t {
        Tree::Array(v) => Tree::Array(
            Seq::new(
                v.len(),
                |i: int|
                    if 0 <= i < v.len() {
                        stripped(v[i])
                    } else {
                        Tree::Null
                    },
            ),
        ),
        Tree::Object(ms) => Tree::Object(
            unformatted(stripped_members(ms), integer_type(lookup(ms, "type"@))),
        ),
        _ => t,
    }
}

/// The members of an object, each stripped.
pub open spec fn stripped_members(ms: Seq<(Seq<char>, Tree)>) -> Seq<(Seq<char>, Tree)>
    decreases ms,
{
    Seq::new(
        ms.len(),
        |i: int|
            if 0 <= i < ms.len() {
                (ms[i].0, stripped(ms[i].1))
            } else {
                (Seq::empty(), Tree::Null)
            },
    )
}

/// The values of an array, stripped.
pub open spec fn stripped_items(v: Seq<Tree>) -> Seq<Tree> {
    Seq::new(v.len(), |i: int| stripped(v[i]))
}

proof fn lemma_stripped_array(v: Seq<Tree>)
    ensures
        stripped(Tree::Array(v)) == Tree::Array(stripped_items(v)),
{
    assert(stripped(Tree::Array(v))->Array_0 =~= stripped_items(v));
}

fn has_integer(v: &Vec<Json>) -> (r: bool)
    ensures
        r == names_integer(trees(v@)),
{
    let ghost all = trees(v@);
    let mut i: usize = 0;
    while i < v.len()
        invariant
            all == trees(v@),
            i <= v@.len(),
            forall|j: int| 0 <= j < i ==> #[trigger] all[j] != Tree::Str("integer"@),
        decreases v@.len() - i,
    {
        assert(all[i as int] == v@[i as int]@);
        if let Some(s) = v[i].as_str() {
            if str_eq(s, "integer") {
                return true;
            }
        }
        i = i + 1;
    }
    false
}

fn is_integer_schema(ms: &Vec<Member>) -> (r: bool)
    ensures
        r == integer_type(lookup(members(ms@), "type"@)),
{
    match member(ms, "type") {
        Some(Json::Str(s)) => str_eq(s.as_str(), "integer"),
        Some(Json::Array(v)) => has_integer(v),
        _ => false,
    }
}

fn strip_formats(value: &Json) -> (r: Json)
    ensures
        r@ == stripped(value@),
    decreases *value,
{
    match value {
        Json::Array(v) => {
            let mut out: Vec<Json> = Vec::new();
            let mut i: usize = 0;
            while i < v.len()
                invariant
                    i <= v@.len(),
                    out@.len() == i,
                    decreases_to!(*value => v),
                    forall|j: int| 0 <= j < i ==> #[trigger] out@[j]@ == stripped(v@[j]@),
                decreases v@.len() - i,
            {
                let c = strip_formats(&v[i]);
                out.push(c);
                i = i + 1;
            }
            proof {
                lemma_stripped_array(trees(v@));
                assert(trees(out@) =~= stripped_items(trees(v@)));
            }
            Json::Array(out)
        },
        Json::Object(v) => {
            let mut out: Vec<Member> = Vec::new();
            let mut i: usize = 0;
            while i < v.len()
                invariant
                    i <= v@.len(),
                    out@.len() == i,
                    decreases_to!(*value => v),
                    forall|j: int|
                        0 <= j < i ==> #[trigger] out@[j].key@ == v@[j].key@ && out@[j].value@
                            == stripped(v@[j].value@),
                decreases v@.len() - i,
            {
                let c = strip_formats(&v[i].value);
                out.push(Member { key: v[i].key.clone(), value: c });
                i = i + 1;
            }
            proof {
                assert(members(out@) =~= stripped_members(members(v@)));
            }
            let kept = if is_integer_schema(v) {
                drop_member(&out, "format")
            } else {
                out
            };
            Json::Object(kept)
        },
        _ => value.copy(),
    }
}

/// Takes the formats out of the integer schemas throughout a value: tools that make code from
/// schemas would make big integers of them.
pub fn strip_integer_formats(value: &mut Json)
    ensures
        final(value)@ == stripped(old(value)@),
{
    let r = strip_formats(value);
    *value = r;
}

/// Whether the schema of an integer inside the value has a format.
pub open spec fn has_formatted_integer(t: Tree) -> bool
    decreases t,
{
    match t {
        Tree::Array(v) => exists|i: int| 0 <= i < v.len() && has_formatted_integer(#[trigger] v[i]),
        Tree::Object(ms) => {
            ||| integer_type(lookup(ms, "type"@)) && lookup(ms, "format"@) is Some
            ||| exists|i: int|
                0 <= i < ms.len() && has_formatted_integer((#[trigger] ms[i]).1)
        },
        _ => false,
    }
}

proof fn lemma_stripped_lookup(ms: Seq<(Seq<char>, Tree)>, key: Seq<char>)
    ensures
        lookup(stripped_members(ms), key) == match lookup(ms, key) {
            Some(t) => Some(stripped(t)),
            None => None,
        },
    decreases ms.len(),
{
    if ms.len() > 0 {
        assert(stripped_members(ms).skip(1) =~= stripped_members(ms.skip(1)));
        lemma_stripped_lookup(ms.skip(1), key);
    }
}

proof fn lemma_stripped_type(t: Tree)
    ensures
        integer_type(Some(stripped(t))) == integer_type(Some(t)),
{
    if let Tree::Array(v) = t {
        lemma_stripped_array(v);
        let r = stripped_items(v);
        assert forall|i: int| 0 <= i < v.len() implies ((#[trigger] r[i] == Tree::Str(
            "integer"@,
        )) == (v[i] == Tree::Str("integer"@))) by {
            assert(r[i] == stripped(v[i]));
        }
        if names_integer(v) {
            let i = choose|i: int| 0 <= i < v.len() && #[trigger] v[i] == Tree::Str("integer"@);
            assert(r[i] == Tree::Str("integer"@));
        }
    }
}

/// What is left of some members was among them.
proof fn lemma_without_member_from(ms: Seq<(Seq<char>, Tree)>, key: Seq<char>, i: int)
    requires
        0 <= i < without_member(ms, key).len(),
    ensures
        ms.contains(without_member(ms, key)[i]),
    decreases ms.len(),
{
    if ms.len() > 0 {
        let rest = ms.skip(1);
        let k = if ms[0].0 == key {
            i
        } else {
            i - 1
        };
        if k >= 0 {
            lemma_without_member_from(rest, key, k);
            let x = without_member(rest, key)[k];
            let j = choose|j: int| 0 <= j < rest.len() && rest[j] == x;
            assert(ms[j + 1] == x);
        } else {
            assert(without_member(ms, key)[i] == ms[0]);
        }
    }
}

proof fn lemma_unformatted_from(ms: Seq<(Seq<char>, Tree)>, integer: bool, i: int)
    requires
        0 <= i < unformatted(stripped_members(ms), integer).len(),
    ensures
        exists|j: int|
            0 <= j < ms.len() && unformatted(stripped_members(ms), integer)[i].1 == stripped(
                (#[trigger] ms[j]).1,
            ),
{
    let each = stripped_members(ms);
    if integer {
        lemma_without_member_from(each, "format"@, i);
        let j = choose|j: int| 0 <= j < each.len() && each[j] == without_member(each, "format"@)[i];
        assert(each[j].1 == stripped(ms[j].1));
    } else {
        assert(each[i].1 == stripped(ms[i].1));
    }
}

/// No integer schema keeps a format.
pub proof fn law_no_integer_keeps_a_format(t: Tree)
    ensures
        !has_formatted_integer(stripped(t)),
    decreases t,
{
    match t {
        Tree::Array(v) => {
            lemma_stripped_array(v);
            let r = stripped_items(v);
            assert forall|i: int| 0 <= i < r.len() implies !has_formatted_integer(
                #[trigger] r[i],
            ) by {
                law_no_integer_keeps_a_format(v[i]);
            }
        },
        Tree::Object(ms) => {
            let each = stripped_members(ms);
            let integer = integer_type(lookup(ms, "type"@));
            let r = unformatted(each, integer);
            lemma_stripped_lookup(ms, "type"@);
            if let Some(x) = lookup(ms, "type"@) {
                lemma_stripped_type(x);
            }
            lemma_without_member_lookup(each, "format"@, "type"@);
            assert forall|i: int| 0 <= i < r.len() implies !has_formatted_integer(
                (#[trigger] r[i]).1,
            ) by {
                lemma_unformatted_from(ms, integer, i);
                let j = choose|j: int| 0 <= j < ms.len() && r[i].1 == stripped((#[trigger] ms[j]).1);
                law_no_integer_keeps_a_format(ms[j].1);
            }
        },
        _ => {},
    }
}

proof fn lemma_stripping_adds_no_true(t: Tree)
    requires
        !has_true_inside(t),
    ensures
        !has_true_inside(stripped(t)),
    decreases t,
{
    match t {
        Tree::Array(v) => {
            lemma_stripped_array(v);
            let r = stripped_items(v);
            assert forall|i: int| 0 <= i < r.len() implies #[trigger] r[i] != Tree::Bool(true)
                && !has_true_inside(r[i]) by {
                assert(v[i] != Tree::Bool(true) && !has_true_inside(v[i]));
                lemma_stripping_adds_no_true(v[i]);
            }
        },
        Tree::Object(ms) => {
            let integer = integer_type(lookup(ms, "type"@));
            let r = unformatted(stripped_members(ms), integer);
            assert forall|i: int| 0 <= i < r.len() implies (#[trigger] r[i]).1 != Tree::Bool(true)
                && !has_true_inside(r[i].1) by {
                lemma_unformatted_from(ms, integer, i);
                let j = choose|j: int| 0 <= j < ms.len() && r[i].1 == stripped((#[trigger] ms[j]).1);
                assert(ms[j].1 != Tree::Bool(true) && !has_true_inside(ms[j].1));
                lemma_stripping_adds_no_true(ms[j].1);
            }
        },
        _ => {},
    }
}

/// A definition as the document has it, but for its references.
pub open spec fn cleaned(t: Tree) -> Tree {
    stripped(opened(t))
}

/// In a definition of the document no `true` stands for a schema, and no integer has a format.
pub proof fn law_definitions_are_plain(t: Tree)
    ensures
        !has_true_inside(cleaned(t)),
        !has_formatted_integer(cleaned(t)),
{
    law_no_true_is_left(t);
    lemma_stripping_adds_no_true(opened(t));
    law_no_integer_keeps_a_format(opened(t));
}

// ---------------------------------------------------------------------------
// Building blocks
// ---------------------------------------------------------------------------

fn entry(key: &str, value: Json) -> (r: Member)
    ensures
        r.key@ == key@,
        r.value@ == value@,
{
    Member { key: key.to_owned(), value }
}

fn text_entry(key: &str, value: &str) -> (r: Member)
    ensures
        r.key@ == key@,
        r.value@ == Tree::Str(value@),
{
    Member { key: key.to_owned(), value: Json::Str(value.to_owned()) }
}

fn text_value(value: &str) -> (r: Json)
    ensures
        r@ == Tree::Str(value@),
{
    Json::Str(value.to_owned())
}

fn object1(m0: Member) -> (r: Json)
    ensures
        r@ == Tree::Object(seq![(m0.key@, m0.value@)]),
{
    let ghost t0 = (m0.key@, m0.value@);
    let mut v: Vec<Member> = Vec::new();
    v.push(m0);
    assert(members(v@) =~= seq![t0]);
    Json::Object(v)
}

fn object2(m0: Member, m1: Member) -> (r: Json)
    ensures
        r@ == Tree::Object(seq![(m0.key@, m0.value@), (m1.key@, m1.value@)]),
{
    let ghost t0 = (m0.key@, m0.value@);
    let ghost t1 = (m1.key@, m1.value@);
    let mut v: Vec<Member> = Vec::new();
    v.push(m0);
    v.push(m1);
    assert(members(v@) =~= seq![t0, t1]);
    Json::Object(v)
}

fn object3(m0: Member, m1: Member, m2: Member) -> (r: Json)
    ensures
        r@ == Tree::Object(seq![(m0.key@, m0.value@), (m1.key@, m1.value@), (m2.key@, m2.value@)]),
{
    let ghost t0 = (m0.key@, m0.value@);
    let ghost t1 = (m1.key@, m1.value@);
    let ghost t2 = (m2.key@, m2.value@);
    let mut v: Vec<Member> = Vec::new();
    v.push(m0);
    v.push(m1);
    v.push(m2);
    assert(members(v@) =~= seq![t0, t1, t2]);
    Json::Object(v)
}

fn object4(m0: Member, m1: Member, m2: Member, m3: Member) -> (r: Json)
    ensures
        r@ == Tree::Object(seq![(m0.key@, m0.value@), (m1.key@, m1.value@), (m2.key@, m2.value@), (m3.key@, m3.value@)]),
{
    let ghost t0 = (m0.key@, m0.value@);
    let ghost t1 = (m1.key@, m1.value@);
    let ghost t2 = (m2.key@, m2.value@);
    let ghost t3 = (m3.key@, m3.value@);
    let mut v: Vec<Member> = Vec::new();
    v.push(m0);
    v.push(m1);
    v.push(m2);
    v.push(m3);
    assert(members(v@) =~= seq![t0, t1, t2, t3]);
    Json::Object(v)
}

fn array1(a0: Json) -> (r: Json)
    ensures
        r@ == Tree::Array(seq![a0@]),
{
    let ghost t0 = a0@;
    let mut v: Vec<Json> = Vec::new();
    v.push(a0);
    assert(trees(v@) =~= seq![t0]);
    Json::Array(v)
}

fn array2(a0: Json, a1: Json) -> (r: Json)
    ensures
        r@ == Tree::Array(seq![a0@, a1@]),
{
    let ghost t0 = a0@;
    let ghost t1 = a1@;
    let mut v: Vec<Json> = Vec::new();
    v.push(a0);
    v.push(a1);
    assert(trees(v@) =~= seq![t0, t1]);
    Json::Array(v)
}

fn array5(a0: Json, a1: Json, a2: Json, a3: Json, a4: Json) -> (r: Json)
    ensures
        r@ == Tree::Array(seq![a0@, a1@, a2@, a3@, a4@]),
{
    let ghost t0 = a0@;
    let ghost t1 = a1@;
    let ghost t2 = a2@;
    let ghost t3 = a3@;
    let ghost t4 = a4@;
    let mut v: Vec<Json> = Vec::new();
    v.push(a0);
    v.push(a1);
    v.push(a2);
    v.push(a3);
    v.push(a4);
    assert(trees(v@) =~= seq![t0, t1, t2, t3, t4]);
    Json::Array(v)
}

// ---------------------------------------------------------------------------
// Definitions
// ---------------------------------------------------------------------------

/// The definitions under their names in the document, with their references renamed and cleaned;
/// an error where two would have one name.
pub open spec fn prepared(defs: Seq<(Seq<char>, Tree)>, unstable: Seq<Seq<char>>) -> Result<
    Seq<(Seq<char>, Tree)>,
    Seq<char>,
>
    decreases defs.len(),
{
    if defs.len() == 0 {
        Ok(Seq::empty())
    } else {
        match prepared(defs.drop_last(), unstable) {
            Err(e) => Err(e),
            Ok(r) => {
                let name = document_name(defs.last().0, unstable);
                if lookup(r, name) is Some {
                    Err("duplicate schema definition name after unstable suffix: "@ + name)
                } else {
                    Ok(r.push((name, cleaned(rewritten(defs.last().1, unstable)))))
                }
            },
        }
    }
}

proof fn lemma_prepared_prefix(
    defs: Seq<(Seq<char>, Tree)>,
    unstable: Seq<Seq<char>>,
    k: int,
)
    requires
        0 <= k <= defs.len(),
        prepared(defs.take(k), unstable) is Err,
    ensures
        prepared(defs, unstable) == prepared(defs.take(k), unstable),
    decreases defs.len() - k,
{
    if k == defs.len() {
        assert(defs.take(k) =~= defs);
    } else {
        assert(defs.take(k + 1).drop_last() =~= defs.take(k));
        lemma_prepared_prefix(defs, unstable, k + 1);
    }
}

/// The definitions under their names in the document, with their references renamed and cleaned.
pub fn prepare_definitions(defs: &Vec<Member>, unstable: &Vec<String>) -> (r: Result<
    Vec<Member>,
    String,
>)
    ensures
        match prepared(members(defs@), texts(unstable@)) {
            Ok(d) => r matches Ok(v) && members(v@) == d,
            Err(m) => r matches Err(e) && e@ == m,
        },
{
    let ghost all = members(defs@);
    let ghost names = texts(unstable@);
    let mut out: Vec<Member> = Vec::new();
    let mut i: usize = 0;
    assert(members(out@) =~= Seq::empty());
    while i < defs.len()
        invariant
            all == members(defs@),
            names == texts(unstable@),
            i <= defs@.len(),
            prepared(all.take(i as int), names) == Ok::<_, Seq<char>>(members(out@)),
        decreases defs@.len() - i,
    {
        assert(all.take(i + 1).drop_last() =~= all.take(i as int));
        assert(all.take(i + 1).last() == (defs@[i as int].key@, defs@[i as int].value@));
        let name = generated_type_name(defs[i].key.as_str(), unstable);
        if find_member(&out, name.as_str()).is_some() {
            proof {
                lemma_prepared_prefix(all, names, i + 1);
            }
            return Err(
                cat(
                    "duplicate schema definition name after unstable suffix: ",
                    name.as_str(),
                ),
            );
        }
        let mut def = defs[i].value.copy();
        rewrite_unstable_schema_refs(&mut def, unstable);
        replace_true_schemas(&mut def);
        strip_integer_formats(&mut def);
        let ghost before = members(out@);
        let ghost pair = (name@, def@);
        out.push(Member { key: name, value: def });
        assert(members(out@) =~= before.push(pair));
        i = i + 1;
    }
    assert(all.take(i as int) =~= all);
    Ok(out)
}

/// No two definitions of the document have one name.
pub proof fn law_definition_names_are_unique(
    defs: Seq<(Seq<char>, Tree)>,
    unstable: Seq<Seq<char>>,
    i: int,
    j: int,
)
    requires
        prepared(defs, unstable) matches Ok(r) && 0 <= i < j < r.len(),
    ensures
        prepared(defs, unstable)->Ok_0[i].0 != prepared(defs, unstable)->Ok_0[j].0,
    decreases defs.len(),
{
    let r = prepared(defs, unstable)->Ok_0;
    if defs.len() > 0 {
        let before = prepared(defs.drop_last(), unstable)->Ok_0;
        if j < before.len() {
            law_definition_names_are_unique(defs.drop_last(), unstable, i, j);
        } else {
            lemma_lookup_finds(before, i);
        }
    }
}

proof fn lemma_lookup_finds(ms: Seq<(Seq<char>, Tree)>, i: int)
    requires
        0 <= i < ms.len(),
    ensures
        lookup(ms, ms[i].0) is Some,
    decreases ms.len(),
{
    if ms[0].0 != ms[i].0 {
        lemma_lookup_finds(ms.skip(1), i - 1);
    }
}

/// The schema of a tag that can have one value.
pub open spec fn tag_schema(tag: Seq<char>) -> Tree {
    Tree::Object(seq![("type"@, Tree::Str("string"@)), ("const"@, Tree::Str(tag))])
}

/// The required members, with the tag in front where it is not among them.
pub open spec fn with_tag_required(required: Seq<Tree>) -> Seq<Tree> {
    if required.contains(Tree::Str("type"@)) {
        required
    } else {
        seq![Tree::Str("type"@)] + required
    }
}

/// The members of a definition with the properties given and the tag required.
pub open spec fn with_required(name: Seq<char>, o: Seq<(Seq<char>, Tree)>) -> Result<
    Tree,
    Seq<char>,
> {
    match lookup(o, "required"@) {
        None => Ok(
            Tree::Object(with_member(o, "required"@, Tree::Array(with_tag_required(Seq::empty())))),
        ),
        Some(Tree::Array(v)) => Ok(
            Tree::Object(with_member(o, "required"@, Tree::Array(with_tag_required(v)))),
        ),
        Some(_) => Err(name + ".required must be an array"@),
    }
}

/// A definition with a tag, by which its objects are told from others.
pub open spec fn tagged(name: Seq<char>, def: Option<Tree>, tag: Seq<char>) -> Result<
    Tree,
    Seq<char>,
> {
    match def {
        None => Err("missing "@ + name + " schema definition"@),
        Some(Tree::Object(o)) => match lookup(o, "properties"@) {
            None => with_required(
                name,
                with_member(
                    o,
                    "properties"@,
                    Tree::Object(with_member(Seq::empty(), "type"@, tag_schema(tag))),
                ),
            ),
            Some(Tree::Object(p)) => with_required(
                name,
                with_member(
                    o,
                    "properties"@,
                    Tree::Object(with_member(p, "type"@, tag_schema(tag))),
                ),
            ),
            Some(_) => Err(name + ".properties must be an object"@),
        },
        Some(_) => Err(name + " schema definition must be an object"@),
    }
}

/// The definitions with a tag in one of them.
pub open spec fn discriminated(
    defs: Seq<(Seq<char>, Tree)>,
    name: Seq<char>,
    tag: Seq<char>,
) -> Result<Seq<(Seq<char>, Tree)>, Seq<char>> {
    match tagged(name, lookup(defs, name), tag) {
        Ok(t) => Ok(with_member(defs, name, t)),
        Err(e) => Err(e),
    }
}

fn has_type_text(v: &Vec<Json>) -> (r: bool)
    ensures
        r == trees(v@).contains(Tree::Str("type"@)),
{
    let ghost all = trees(v@);
    let mut i: usize = 0;
    while i < v.len()
        invariant
            all == trees(v@),
            i <= v@.len(),
            forall|j: int| 0 <= j < i ==> all[j] != Tree::Str("type"@),
        decreases v@.len() - i,
    {
        assert(all[i as int] == v@[i as int]@);
        if let Some(s) = v[i].as_str() {
            if str_eq(s, "type") {
                return true;
            }
        }
        i = i + 1;
    }
    false
}

fn require_tag(required: Vec<Json>) -> (r: Json)
    ensures
        r@ == Tree::Array(with_tag_required(trees(required@))),
{
    let mut required = required;
    if !has_type_text(&required) {
        let ghost before = trees(required@);
        required.insert(0, text_value("type"));
        assert(trees(required@) =~= seq![Tree::Str("type"@)] + before);
    }
    Json::Array(required)
}

fn copy_array(v: &Vec<Json>) -> (r: Vec<Json>)
    ensures
        trees(r@) == trees(v@),
{
    let mut out: Vec<Json> = Vec::new();
    let mut i: usize = 0;
    while i < v.len()
        invariant
            i <= v@.len(),
            out@.len() == i,
            forall|j: int| 0 <= j < i ==> #[trigger] out@[j]@ == v@[j]@,
        decreases v@.len() - i,
    {
        out.push(v[i].copy());
        i = i + 1;
    }
    assert(trees(out@) =~= trees(v@));
    out
}

fn add_required(name: &str, o: Vec<Member>) -> (r: Result<Json, String>)
    ensures
        match with_required(name@, members(o@)) {
            Ok(t) => r matches Ok(j) && j@ == t,
            Err(m) => r matches Err(e) && e@ == m,
        },
{
    let mut o = o;
    let required = match member(&o, "required") {
        None => {
            let none: Vec<Json> = Vec::new();
            assert(trees(none@) =~= Seq::empty());
            none
        },
        Some(Json::Array(v)) => copy_array(v),
        Some(_) => {
            return Err(cat(name, ".required must be an array"));
        },
    };
    let list = require_tag(required);
    set_member(&mut o, "required", list);
    Ok(Json::Object(o))
}

fn tag_definition(name: &str, def: Option<&Json>, tag: &str) -> (r: Result<Json, String>)
    ensures
        match tagged(name@, crate::json::tree_ref(def), tag@) {
            Ok(t) => r matches Ok(j) && j@ == t,
            Err(m) => r matches Err(e) && e@ == m,
        },
{
    match def {
        None => Err(cat3("missing ", name, " schema definition")),
        Some(Json::Object(obj)) => {
            let mut properties = match member(obj, "properties") {
                None => {
                    let none: Vec<Member> = Vec::new();
                    assert(members(none@) =~= Seq::empty());
                    none
                },
                Some(Json::Object(p)) => crate::conversation::copy_members(p),
                Some(_) => {
                    return Err(cat(name, ".properties must be an object"));
                },
            };
            let schema = object2(text_entry("type", "string"), text_entry("const", tag));
            set_member(&mut properties, "type", schema);
            let mut o = crate::conversation::copy_members(obj);
            set_member(&mut o, "properties", Json::Object(properties));
            add_required(name, o)
        },
        Some(_) => Err(cat(name, " schema definition must be an object")),
    }
}

/// Adds a tag to a definition, by which its objects are told from others. Where that cannot be
/// done the definitions stay as they are.
pub fn add_object_discriminant(defs: &mut Vec<Member>, def_name: &str, tag: &str) -> (r: Result<
    (),
    String,
>)
    ensures
        match discriminated(members(old(defs)@), def_name@, tag@) {
            Ok(d) => r is Ok && members(final(defs)@) == d,
            Err(m) => r matches Err(e) && e@ == m && *final(defs) == *old(defs),
        },
{
    match tag_definition(def_name, member(defs, def_name), tag) {
        Ok(j) => {
            set_member(defs, def_name, j);
            Ok(())
        },
        Err(e) => Err(e),
    }
}

/// The definitions of the server transports with their tags.
pub open spec fn transports_tagged(defs: Seq<(Seq<char>, Tree)>) -> Result<
    Seq<(Seq<char>, Tree)>,
    Seq<char>,
> {
    match discriminated(defs, "McpServerHttp"@, "http"@) {
        Ok(d) => discriminated(d, "McpServerSse"@, "sse"@),
        Err(e) => Err(e),
    }
}

/// Adds the tags by which the transports of a server are told apart. A server that is a program
/// has none.
pub fn add_mcp_server_transport_discriminants(defs: &mut Vec<Member>) -> (r: Result<(), String>)
    ensures
        match transports_tagged(members(old(defs)@)) {
            Ok(d) => r is Ok && members(final(defs)@) == d,
            Err(m) => r matches Err(e) && e@ == m && members(final(defs)@) == match discriminated(
                members(old(defs)@),
                "McpServerHttp"@,
                "http"@,
            ) {
                Ok(d) => d,
                Err(_) => members(old(defs)@),
            },
        },
{
    match add_object_discriminant(defs, "McpServerHttp", "http") {
        Ok(_) => add_object_discriminant(defs, "McpServerSse", "sse"),
        Err(e) => Err(e),
    }
}

/// Only the definitions of the two transports change.
pub proof fn law_other_definitions_stay(defs: Seq<(Seq<char>, Tree)>, name: Seq<char>)
    requires
        transports_tagged(defs) is Ok,
        name != "McpServerHttp"@,
        name != "McpServerSse"@,
    ensures
        lookup(transports_tagged(defs)->Ok_0, name) == lookup(defs, name),
{
    let t = tagged("McpServerHttp"@, lookup(defs, "McpServerHttp"@), "http"@)->Ok_0;
    crate::json::lemma_with_member_lookup(defs, "McpServerHttp"@, t, name);
    let d = discriminated(defs, "McpServerHttp"@, "http"@)->Ok_0;
    let u = tagged("McpServerSse"@, lookup(d, "McpServerSse"@), "sse"@)->Ok_0;
    crate::json::lemma_with_member_lookup(d, "McpServerSse"@, u, name);
}

/// A definition with the side that answers, and its method where one alone uses it.
pub open spec fn noted(
    o: Seq<(Seq<char>, Tree)>,
    client_side: bool,
    methods: Seq<Seq<char>>,
) -> Seq<(Seq<char>, Tree)> {
    let sided = with_member(
        o,
        "x-side"@,
        Tree::Str(
            if client_side {
                "client"@
            } else {
                "agent"@
            },
        ),
    );
    if methods.len() == 1 {
        with_member(sided, "x-method"@, Tree::Str(methods[0]))
    } else {
        sided
    }
}

/// The definitions with the notes on one type.
pub open spec fn annotated_one(
    defs: Seq<(Seq<char>, Tree)>,
    name: Seq<char>,
    ms: Seq<(Seq<char>, Seq<char>)>,
    client_side: Seq<Seq<char>>,
    unstable: Seq<Seq<char>>,
) -> Seq<(Seq<char>, Tree)> {
    let key = document_name(name, unstable);
    match lookup(defs, key) {
        Some(Tree::Object(o)) => with_member(
            defs,
            key,
            Tree::Object(noted(o, client_side.contains(name), methods_of(ms, name))),
        ),
        _ => defs,
    }
}

/// The definitions with the notes on the types.
pub open spec fn annotated(
    defs: Seq<(Seq<char>, Tree)>,
    names: Seq<Seq<char>>,
    ms: Seq<(Seq<char>, Seq<char>)>,
    client_side: Seq<Seq<char>>,
    unstable: Seq<Seq<char>>,
) -> Seq<(Seq<char>, Tree)>
    decreases names.len(),
{
    if names.len() == 0 {
        defs
    } else {
        annotated_one(
            annotated(defs, names.drop_last(), ms, client_side, unstable),
            names.last(),
            ms,
            client_side,
            unstable,
        )
    }
}

fn note_definition(
    defs: &mut Vec<Member>,
    name: &str,
    ms: &Vec<Mention>,
    client_side: &Vec<String>,
    unstable: &Vec<String>,
)
    ensures
        members(final(defs)@) == annotated_one(
            members(old(defs)@),
            name@,
            mention_models(ms@),
            texts(client_side@),
            texts(unstable@),
        ),
{
    let key = generated_type_name(name, unstable);
    let found = match member(defs, key.as_str()) {
        Some(Json::Object(o)) => Some(crate::conversation::copy_members(o)),
        _ => None,
    };
    if let Some(o) = found {
        let mut o = o;
        let side = if contains_string(client_side, name) {
            "client"
        } else {
            "agent"
        };
        set_member(&mut o, "x-side", text_value(side));
        let methods = find_methods(ms, name);
        assert(texts(methods@).len() == methods@.len());
        if methods.len() == 1 {
            assert(texts(methods@)[0] == methods@[0]@);
            set_member(&mut o, "x-method", text_value(methods[0].as_str()));
        }
        set_member(defs, key.as_str(), Json::Object(o));
    }
}

/// Notes on the definitions who answers, and which method uses them where one alone does.
pub fn annotate_definitions(
    defs: &mut Vec<Member>,
    ms: &Vec<Mention>,
    client_side: &Vec<String>,
    unstable: &Vec<String>,
)
    ensures
        members(final(defs)@) == annotated(
            members(old(defs)@),
            names_of(mention_models(ms@)),
            mention_models(ms@),
            texts(client_side@),
            texts(unstable@),
        ),
{
    let names = type_names(ms);
    let ghost all = texts(names@);
    let ghost before = members(defs@);
    let ghost mm = mention_models(ms@);
    let ghost cs = texts(client_side@);
    let ghost un = texts(unstable@);
    let mut i: usize = 0;
    assert(before == annotated(before, all.take(0), mm, cs, un));
    while i < names.len()
        invariant
            all == texts(names@),
            mm == mention_models(ms@),
            cs == texts(client_side@),
            un == texts(unstable@),
            i <= names@.len(),
            members(defs@) == annotated(before, all.take(i as int), mm, cs, un),
        decreases names@.len() - i,
    {
        assert(all.take(i + 1).drop_last() =~= all.take(i as int));
        assert(all.take(i + 1).last() == names@[i as int]@);
        note_definition(defs, names[i].as_str(), ms, client_side, unstable);
        i = i + 1;
    }
    assert(all.take(i as int) =~= all);
}

// ---------------------------------------------------------------------------
// The document
// ---------------------------------------------------------------------------

/// A reference to a definition of the document.
pub open spec fn ref_to(name: Seq<char>) -> Tree {
    Tree::Object(seq![("$ref"@, Tree::Str("#/$defs/"@ + name))])
}

/// What a method takes, as one of the things that a request can hold.
pub open spec fn params_variant(name: Seq<char>, method: Seq<char>) -> Tree {
    Tree::Object(
        seq![
            ("allOf"@, Tree::Array(seq![ref_to(name)])),
            ("description"@, Tree::Str("Params for "@ + method)),
            ("title"@, Tree::Str(name)),
        ],
    )
}

/// What a method gives, as one of the things that a response can hold.
pub open spec fn result_variant(name: Seq<char>) -> Tree {
    Tree::Object(
        seq![("allOf"@, Tree::Array(seq![ref_to(name)])), ("title"@, Tree::Str(name))],
    )
}

/// What the methods take.
pub open spec fn params_variants(ms: Seq<MethodModel>, unstable: Seq<Seq<char>>) -> Seq<Tree>
    decreases ms.len(),
{
    if ms.len() == 0 {
        Seq::empty()
    } else {
        let head = params_variants(ms.drop_last(), unstable);
        match ms.last().params {
            Some(n) => head.push(params_variant(document_name(n, unstable), ms.last().method)),
            None => head,
        }
    }
}

/// The types of what the methods give, each once, in the order in which they first occur.
pub open spec fn result_names(ms: Seq<MethodModel>, unstable: Seq<Seq<char>>) -> Seq<Seq<char>>
    decreases ms.len(),
{
    if ms.len() == 0 {
        Seq::empty()
    } else {
        let head = result_names(ms.drop_last(), unstable);
        match ms.last().response {
            Some(n) => if head.contains(document_name(n, unstable)) {
                head
            } else {
                head.push(document_name(n, unstable))
            },
            None => head,
        }
    }
}

/// What the methods give.
pub open spec fn result_variants(ms: Seq<MethodModel>, unstable: Seq<Seq<char>>) -> Seq<Tree> {
    let names = result_names(ms, unstable);
    Seq::new(names.len(), |i: int| result_variant(names[i]))
}

fn make_ref(name: &str) -> (r: Json)
    ensures
        r@ == ref_to(name@),
{
    let path = cat("#/$defs/", name);
    object1(text_entry("$ref", path.as_str()))
}

fn make_params_variant(name: &str, method: &str) -> (r: Json)
    ensures
        r@ == params_variant(name@, method@),
{
    let description = cat("Params for ", method);
    object3(
        entry("allOf", array1(make_ref(name))),
        text_entry("description", description.as_str()),
        text_entry("title", name),
    )
}

/// What the methods take, as the variants of a request's parameters.
pub fn list_params(methods: &Vec<MethodSchema>, unstable: &Vec<String>) -> (r: Vec<Json>)
    ensures
        trees(r@) == params_variants(method_models(methods@), texts(unstable@)),
{
    let ghost all = method_models(methods@);
    let ghost un = texts(unstable@);
    let mut out: Vec<Json> = Vec::new();
    let mut i: usize = 0;
    assert(trees(out@) =~= params_variants(all.take(0), un));
    while i < methods.len()
        invariant
            all == method_models(methods@),
            un == texts(unstable@),
            i <= methods@.len(),
            trees(out@) == params_variants(all.take(i as int), un),
        decreases methods@.len() - i,
    {
        assert(all.take(i + 1).drop_last() =~= all.take(i as int));
        assert(all.take(i + 1).last() == methods@[i as int]@);
        if let Some(n) = &methods[i].params_type_name {
            let name = generated_type_name(n.as_str(), unstable);
            let variant = make_params_variant(name.as_str(), methods[i].method.as_str());
            let ghost before = trees(out@);
            let ghost t = variant@;
            out.push(variant);
            assert(trees(out@) =~= before.push(t));
        }
        i = i + 1;
    }
    assert(all.take(i as int) =~= all);
    out
}

fn list_result_names(methods: &Vec<MethodSchema>, unstable: &Vec<String>) -> (r: Vec<String>)
    ensures
        texts(r@) == result_names(method_models(methods@), texts(unstable@)),
{
    let ghost all = method_models(methods@);
    let ghost un = texts(unstable@);
    let mut out: Vec<String> = Vec::new();
    let mut i: usize = 0;
    assert(texts(out@) =~= result_names(all.take(0), un));
    while i < methods.len()
        invariant
            all == method_models(methods@),
            un == texts(unstable@),
            i <= methods@.len(),
            texts(out@) == result_names(all.take(i as int), un),
        decreases methods@.len() - i,
    {
        assert(all.take(i + 1).drop_last() =~= all.take(i as int));
        assert(all.take(i + 1).last() == methods@[i as int]@);
        if let Some(n) = &methods[i].response_type_name {
            let name = generated_type_name(n.as_str(), unstable);
            if !contains_string(&out, name.as_str()) {
                let ghost before = texts(out@);
                let ghost t = name@;
                out.push(name);
                assert(texts(out@) =~= before.push(t));
            }
        }
        i = i + 1;
    }
    assert(all.take(i as int) =~= all);
    out
}

/// What the methods give, as the variants of a response's result.
pub fn list_results(methods: &Vec<MethodSchema>, unstable: &Vec<String>) -> (r: Vec<Json>)
    ensures
        trees(r@) == result_variants(method_models(methods@), texts(unstable@)),
{
    let names = list_result_names(methods, unstable);
    let ghost all = texts(names@);
    let mut out: Vec<Json> = Vec::new();
    let mut i: usize = 0;
    while i < names.len()
        invariant
            all == texts(names@),
            i <= names@.len(),
            out@.len() == i,
            forall|j: int| 0 <= j < i ==> #[trigger] out@[j]@ == result_variant(all[j]),
        decreases names@.len() - i,
    {
        let variant = object2(
            entry("allOf", array1(make_ref(names[i].as_str()))),
            text_entry("title", names[i].as_str()),
        );
        out.push(variant);
        i = i + 1;
    }
    assert(trees(out@) =~= result_variants(method_models(methods@), texts(unstable@)));
    out
}

/// Every type that a method gives is among the results, and none is there twice.
pub proof fn law_results_are_listed_once(ms: Seq<MethodModel>, unstable: Seq<Seq<char>>)
    ensures
        result_names(ms, unstable).no_duplicates(),
        forall|k: int|
            0 <= k < ms.len() && (#[trigger] ms[k]).response is Some ==> result_names(
                ms,
                unstable,
            ).contains(document_name(ms[k].response->0, unstable)),
    decreases ms.len(),
{
    if ms.len() > 0 {
        let rest = ms.drop_last();
        law_results_are_listed_once(rest, unstable);
        let head = result_names(rest, unstable);
        let all = result_names(ms, unstable);
        assert forall|n: Seq<char>| head.contains(n) implies all.contains(n) by {
            let j = choose|j: int| 0 <= j < head.len() && head[j] == n;
            assert(all[j] == n);
        }
        if all != head {
            assert(all.last() == document_name(ms.last().response->0, unstable));
            assert(all[all.len() - 1] == all.last());
        }
        assert forall|k: int|
            0 <= k < ms.len() && (#[trigger] ms[k]).response is Some implies all.contains(
            document_name(ms[k].response->0, unstable),
        ) by {
            if k < rest.len() {
                assert(rest[k] == ms[k]);
            }
        }
    }
}

/// A schema that accepts a value of one type.
pub open spec fn of_type(name: Seq<char>) -> Tree {
    Tree::Object(seq![("type"@, Tree::Str(name))])
}

/// One of the variants, or anything else.
pub open spec fn one_of_or(variants: Seq<Tree>, other: Tree) -> Tree {
    Tree::Object(
        seq![
            (
                "anyOf"@,
                Tree::Array(seq![Tree::Object(seq![("anyOf"@, Tree::Array(variants))]), other]),
            ),
        ],
    )
}

/// Parameters that no definition describes.
pub open spec fn untyped_params() -> Tree {
    Tree::Object(
        seq![
            ("description"@, Tree::Str("Untyped params"@)),
            ("type"@, Tree::Array(seq![Tree::Str("object"@), Tree::Str("null"@)])),
        ],
    )
}

/// A result that no definition describes.
pub open spec fn untyped_result() -> Tree {
    Tree::Object(seq![("description"@, Tree::Str("Untyped result"@))])
}

/// The schema of an object.
pub open spec fn object_schema(
    properties: Seq<(Seq<char>, Tree)>,
    required: Seq<Tree>,
) -> Seq<(Seq<char>, Tree)> {
    seq![
        ("properties"@, Tree::Object(properties)),
        ("required"@, Tree::Array(required)),
        ("type"@, Tree::Str("object"@)),
        ("x-docs-ignore"@, Tree::Bool(true)),
    ]
}

/// The schema of a request.
pub open spec fn request_schema(variants: Seq<Tree>) -> Tree {
    Tree::Object(
        object_schema(
            seq![
                ("id"@, of_type("string"@)),
                ("method"@, of_type("string"@)),
                ("params"@, one_of_or(variants, untyped_params())),
            ],
            seq![Tree::Str("id"@), Tree::Str("method"@)],
        ),
    )
}

/// The schema of a notification, which has no id and is not answered.
pub open spec fn notification_schema(variants: Seq<Tree>) -> Tree {
    Tree::Object(
        object_schema(
            seq![
                ("method"@, of_type("string"@)),
                ("params"@, one_of_or(variants, untyped_params())),
            ],
            seq![Tree::Str("method"@)],
        ),
    )
}

/// The schema of a response that gives a result.
pub open spec fn success_schema(variants: Seq<Tree>) -> Tree {
    Tree::Object(
        seq![
            (
                "properties"@,
                Tree::Object(
                    seq![
                        ("id"@, of_type("string"@)),
                        ("result"@, one_of_or(variants, untyped_result())),
                    ],
                ),
            ),
            ("required"@, Tree::Array(seq![Tree::Str("id"@)])),
            ("title"@, Tree::Str("Success"@)),
            ("type"@, Tree::Str("object"@)),
        ],
    )
}

/// The schema of an error.
pub open spec fn error_schema() -> Tree {
    Tree::Object(
        seq![
            ("type"@, Tree::Str("object"@)),
            (
                "properties"@,
                Tree::Object(
                    seq![
                        ("code"@, of_type("integer"@)),
                        ("message"@, of_type("string"@)),
                        ("data"@, Tree::Object(Seq::empty())),
                    ],
                ),
            ),
            ("required"@, Tree::Array(seq![Tree::Str("code"@), Tree::Str("message"@)])),
        ],
    )
}

/// The schema of a response that gives an error.
pub open spec fn failure_schema() -> Tree {
    Tree::Object(
        seq![
            (
                "properties"@,
                Tree::Object(seq![("error"@, error_schema()), ("id"@, of_type("string"@))]),
            ),
            ("required"@, Tree::Array(seq![Tree::Str("id"@), Tree::Str("error"@)])),
            ("title"@, Tree::Str("Error"@)),
            ("type"@, Tree::Str("object"@)),
        ],
    )
}

/// The schema of a response.
pub open spec fn response_schema(variants: Seq<Tree>) -> Tree {
    Tree::Object(
        seq![
            ("anyOf"@, Tree::Array(seq![success_schema(variants), failure_schema()])),
            ("x-docs-ignore"@, Tree::Bool(true)),
        ],
    )
}

fn make_type(name: &str) -> (r: Json)
    ensures
        r@ == of_type(name@),
{
    object1(text_entry("type", name))
}

fn make_one_of_or(variants: Vec<Json>, other: Json) -> (r: Json)
    ensures
        r@ == one_of_or(trees(variants@), other@),
{
    let known = object1(entry("anyOf", Json::Array(variants)));
    object1(entry("anyOf", array2(known, other)))
}

fn make_params(variants: Vec<Json>) -> (r: Json)
    ensures
        r@ == one_of_or(trees(variants@), untyped_params()),
{
    let untyped = object2(
        text_entry("description", "Untyped params"),
        entry("type", array2(text_value("object"), text_value("null"))),
    );
    make_one_of_or(variants, untyped)
}

/// The schema of a request, with what its parameters can be.
pub fn make_request_schema(variants: Vec<Json>) -> (r: Json)
    ensures
        r@ == request_schema(trees(variants@)),
{
    let properties = object3(
        entry("id", make_type("string")),
        entry("method", make_type("string")),
        entry("params", make_params(variants)),
    );
    object4(
        entry("properties", properties),
        entry("required", array2(text_value("id"), text_value("method"))),
        text_entry("type", "object"),
        entry("x-docs-ignore", Json::Bool(true)),
    )
}

/// The schema of a notification, with what its parameters can be.
pub fn make_notification_schema(variants: Vec<Json>) -> (r: Json)
    ensures
        r@ == notification_schema(trees(variants@)),
{
    let properties = object2(
        entry("method", make_type("string")),
        entry("params", make_params(variants)),
    );
    object4(
        entry("properties", properties),
        entry("required", array1(text_value("method"))),
        text_entry("type", "object"),
        entry("x-docs-ignore", Json::Bool(true)),
    )
}

fn make_success(variants: Vec<Json>) -> (r: Json)
    ensures
        r@ == success_schema(trees(variants@)),
{
    let untyped = object1(text_entry("description", "Untyped result"));
    let properties = object2(
        entry("id", make_type("string")),
        entry("result", make_one_of_or(variants, untyped)),
    );
    object4(
        entry("properties", properties),
        entry("required", array1(text_value("id"))),
        text_entry("title", "Success"),
        text_entry("type", "object"),
    )
}

fn make_failure() -> (r: Json)
    ensures
        r@ == failure_schema(),
{
    let parts = object3(
        entry("code", make_type("integer")),
        entry("message", make_type("string")),
        entry("data", empty_object()),
    );
    let error = object3(
        text_entry("type", "object"),
        entry("properties", parts),
        entry("required", array2(text_value("code"), text_value("message"))),
    );
    let properties = object2(entry("error", error), entry("id", make_type("string")));
    object4(
        entry("properties", properties),
        entry("required", array2(text_value("id"), text_value("error"))),
        text_entry("title", "Error"),
        text_entry("type", "object"),
    )
}

/// The schema of a response, with what its result can be.
pub fn make_response_schema(variants: Vec<Json>) -> (r: Json)
    ensures
        r@ == response_schema(trees(variants@)),
{
    object2(
        entry("anyOf", array2(make_success(variants), make_failure())),
        entry("x-docs-ignore", Json::Bool(true)),
    )
}

/// The definitions with those of the messages.
pub open spec fn with_messages(
    defs: Seq<(Seq<char>, Tree)>,
    methods: Seq<MethodModel>,
    notifications: Seq<MethodModel>,
    requests: Seq<MethodModel>,
    unstable: Seq<Seq<char>>,
) -> Seq<(Seq<char>, Tree)> {
    let d1 = with_member(
        defs,
        "ExtRequest"@,
        request_schema(params_variants(methods, unstable)),
    );
    let d2 = with_member(
        d1,
        "ExtResponse"@,
        response_schema(result_variants(methods, unstable)),
    );
    let d3 = with_member(
        d2,
        "ExtNotification"@,
        notification_schema(params_variants(notifications, unstable)),
    );
    let d4 = with_member(
        d3,
        "ExtAgentRequest"@,
        request_schema(params_variants(requests, unstable)),
    );
    with_member(d4, "ExtAgentResponse"@, response_schema(result_variants(requests, unstable)))
}

fn add_messages(
    defs: &mut Vec<Member>,
    methods: &Vec<MethodSchema>,
    notifications: &Vec<MethodSchema>,
    requests: &Vec<MethodSchema>,
    unstable: &Vec<String>,
)
    ensures
        members(final(defs)@) == with_messages(
            members(old(defs)@),
            method_models(methods@),
            method_models(notifications@),
            method_models(requests@),
            texts(unstable@),
        ),
{
    let request = make_request_schema(list_params(methods, unstable));
    let response = make_response_schema(list_results(methods, unstable));
    let notification = make_notification_schema(list_params(notifications, unstable));
    let agent_request = make_request_schema(list_params(requests, unstable));
    let agent_response = make_response_schema(list_results(requests, unstable));
    set_member(defs, "ExtRequest", request);
    set_member(defs, "ExtResponse", response);
    set_member(defs, "ExtNotification", notification);
    set_member(defs, "ExtAgentRequest", agent_request);
    set_member(defs, "ExtAgentResponse", agent_response);
}

/// A kind of message, as one of the things that the document describes.
pub open spec fn message_variant(
    name: Seq<char>,
    description: Seq<char>,
    title: Seq<char>,
) -> Tree {
    Tree::Object(
        seq![
            ("allOf"@, Tree::Array(seq![ref_to(name)])),
            ("description"@, Tree::Str(description)),
            ("title"@, Tree::Str(title)),
        ],
    )
}

/// The document around the definitions.
pub open spec fn root_of(defs: Seq<(Seq<char>, Tree)>) -> Tree {
    Tree::Object(
        seq![
            ("$schema"@, Tree::Str("https://json-schema.org/draft/2020-12/schema"@)),
            ("title"@, Tree::Str("GooseExtensions"@)),
            ("$defs"@, Tree::Object(defs)),
            (
                "anyOf"@,
                Tree::Array(
                    seq![
                        message_variant(
                            "ExtRequest"@,
                            "Extension request (client \u{2192} agent)"@,
                            "Request"@,
                        ),
                        message_variant(
                            "ExtResponse"@,
                            "Extension response (agent \u{2192} client)"@,
                            "Response"@,
                        ),
                        message_variant(
                            "ExtNotification"@,
                            "Extension notification (agent \u{2192} client, fire-and-forget)"@,
                            "Notification"@,
                        ),
                        message_variant(
                            "ExtAgentRequest"@,
                            "Extension agent request (agent \u{2192} client)"@,
                            "AgentRequest"@,
                        ),
                        message_variant(
                            "ExtAgentResponse"@,
                            "Extension agent response (client \u{2192} agent)"@,
                            "AgentResponse"@,
                        ),
                    ],
                ),
            ),
        ],
    )
}

fn make_message_variant(name: &str, description: &str, title: &str) -> (r: Json)
    ensures
        r@ == message_variant(name@, description@, title@),
{
    object3(
        entry("allOf", array1(make_ref(name))),
        text_entry("description", description),
        text_entry("title", title),
    )
}

fn make_root(defs: Vec<Member>) -> (r: Json)
    ensures
        r@ == root_of(members(defs@)),
{
    let kinds = array5(
        make_message_variant(
            "ExtRequest",
            "Extension request (client \u{2192} agent)",
            "Request",
        ),
        make_message_variant(
            "ExtResponse",
            "Extension response (agent \u{2192} client)",
            "Response",
        ),
        make_message_variant(
            "ExtNotification",
            "Extension notification (agent \u{2192} client, fire-and-forget)",
            "Notification",
        ),
        make_message_variant(
            "ExtAgentRequest",
            "Extension agent request (agent \u{2192} client)",
            "AgentRequest",
        ),
        make_message_variant(
            "ExtAgentResponse",
            "Extension agent response (client \u{2192} agent)",
            "AgentResponse",
        ),
    );
    object4(
        text_entry("$schema", "https://json-schema.org/draft/2020-12/schema"),
        text_entry("title", "GooseExtensions"),
        entry("$defs", Json::Object(defs)),
        entry("anyOf", kinds),
    )
}

/// The document for some definitions and methods; an error where two definitions would have one
/// name or a transport's definition cannot be tagged.
pub open spec fn document(
    defs: Seq<(Seq<char>, Tree)>,
    methods: Seq<MethodModel>,
    notifications: Seq<MethodModel>,
    requests: Seq<MethodModel>,
) -> Result<Tree, Seq<char>> {
    let ms = all_mentions(methods, notifications, requests);
    let unstable = unstable_types(ms);
    match prepared(defs, unstable) {
        Err(e) => Err(e),
        Ok(plain) => match transports_tagged(plain) {
            Err(e) => Err(e),
            Ok(tagged) => Ok(
                root_of(
                    with_messages(
                        annotated(
                            tagged,
                            names_of(ms),
                            ms,
                            names_of(mentions(requests)),
                            unstable,
                        ),
                        methods,
                        notifications,
                        requests,
                        unstable,
                    ),
                ),
            ),
        },
    }
}

/// The schema document for the definitions of the types and for the methods that use them.
pub fn build_schema(
    defs: &Vec<Member>,
    methods: &Vec<MethodSchema>,
    notifications: &Vec<MethodSchema>,
    requests: &Vec<MethodSchema>,
) -> (r: Result<Json, String>)
    ensures
        match document(
            members(defs@),
            method_models(methods@),
            method_models(notifications@),
            method_models(requests@),
        ) {
            Ok(t) => r matches Ok(j) && j@ == t,
            Err(m) => r matches Err(e) && e@ == m,
        },
{
    let ms = collect_mentions(methods, notifications, requests);
    let unstable = unstable_type_names(&ms);
    let mut asked: Vec<Mention> = Vec::new();
    assert(mention_models(asked@) =~= Seq::empty());
    add_mentions(&mut asked, requests);
    assert(mention_models(asked@) =~= mentions(method_models(requests@)));
    let client_side = type_names(&asked);
    let mut out = match prepare_definitions(defs, &unstable) {
        Ok(d) => d,
        Err(e) => {
            return Err(e);
        },
    };
    if let Err(e) = add_mcp_server_transport_discriminants(&mut out) {
        return Err(e);
    }
    annotate_definitions(&mut out, &ms, &client_side, &unstable);
    add_messages(&mut out, methods, notifications, requests, &unstable);
    Ok(make_root(out))
}

// ---------------------------------------------------------------------------
// The methods and their types
// ---------------------------------------------------------------------------

/// The name of a type in the document, or null where there is no type.
pub open spec fn name_or_null(name: Option<Seq<char>>, unstable: Seq<Seq<char>>) -> Tree {
    match name {
        Some(n) => Tree::Str(document_name(n, unstable)),
        None => Tree::Null,
    }
}

/// What is listed of a method.
pub open spec fn method_entry(m: MethodModel, unstable: Seq<Seq<char>>) -> Tree {
    Tree::Object(
        seq![
            ("method"@, Tree::Str(m.method)),
            ("requestType"@, name_or_null(m.params, unstable)),
            ("responseType"@, name_or_null(m.response, unstable)),
        ],
    )
}

/// What is listed of a notification.
pub open spec fn notification_entry(m: MethodModel, unstable: Seq<Seq<char>>) -> Tree {
    Tree::Object(
        seq![
            ("method"@, Tree::Str(m.method)),
            ("paramsType"@, name_or_null(m.params, unstable)),
        ],
    )
}

/// The list of the methods and their types.
pub open spec fn method_list(
    methods: Seq<MethodModel>,
    notifications: Seq<MethodModel>,
    requests: Seq<MethodModel>,
) -> Tree {
    let unstable = unstable_types(all_mentions(methods, notifications, requests));
    Tree::Object(
        seq![
            (
                "methods"@,
                Tree::Array(Seq::new(methods.len(), |i: int| method_entry(methods[i], unstable))),
            ),
            (
                "notifications"@,
                Tree::Array(
                    Seq::new(
                        notifications.len(),
                        |i: int| notification_entry(notifications[i], unstable),
                    ),
                ),
            ),
            (
                "agentRequests"@,
                Tree::Array(Seq::new(requests.len(), |i: int| method_entry(requests[i], unstable))),
            ),
        ],
    )
}

fn make_name(name: &Option<String>, unstable: &Vec<String>) -> (r: Json)
    ensures
        r@ == name_or_null(text_opt(*name), texts(unstable@)),
{
    match name {
        Some(n) => Json::Str(generated_type_name(n.as_str(), unstable)),
        None => Json::Null,
    }
}

fn list_methods(methods: &Vec<MethodSchema>, unstable: &Vec<String>) -> (r: Vec<Json>)
    ensures
        trees(r@) == Seq::new(
            method_models(methods@).len(),
            |i: int| method_entry(method_models(methods@)[i], texts(unstable@)),
        ),
{
    let ghost un = texts(unstable@);
    let mut out: Vec<Json> = Vec::new();
    let mut i: usize = 0;
    while i < methods.len()
        invariant
            un == texts(unstable@),
            i <= methods@.len(),
            out@.len() == i,
            forall|j: int| 0 <= j < i ==> #[trigger] out@[j]@ == method_entry(methods@[j]@, un),
        decreases methods@.len() - i,
    {
        let e = object3(
            text_entry("method", methods[i].method.as_str()),
            entry("requestType", make_name(&methods[i].params_type_name, unstable)),
            entry("responseType", make_name(&methods[i].response_type_name, unstable)),
        );
        out.push(e);
        i = i + 1;
    }
    assert(trees(out@) =~= Seq::new(
        method_models(methods@).len(),
        |i: int| method_entry(method_models(methods@)[i], un),
    ));
    out
}

fn list_notifications(methods: &Vec<MethodSchema>, unstable: &Vec<String>) -> (r: Vec<Json>)
    ensures
        trees(r@) == Seq::new(
            method_models(methods@).len(),
            |i: int| notification_entry(method_models(methods@)[i], texts(unstable@)),
        ),
{
    let ghost un = texts(unstable@);
    let mut out: Vec<Json> = Vec::new();
    let mut i: usize = 0;
    while i < methods.len()
        invariant
            un == texts(unstable@),
            i <= methods@.len(),
            out@.len() == i,
            forall|j: int|
                0 <= j < i ==> #[trigger] out@[j]@ == notification_entry(methods@[j]@, un),
        decreases methods@.len() - i,
    {
        let e = object2(
            text_entry("method", methods[i].method.as_str()),
            entry("paramsType", make_name(&methods[i].params_type_name, unstable)),
        );
        out.push(e);
        i = i + 1;
    }
    assert(trees(out@) =~= Seq::new(
        method_models(methods@).len(),
        |i: int| notification_entry(method_models(methods@)[i], un),
    ));
    out
}

/// The list of the methods and their types, from which clients are made.
pub fn build_meta(
    methods: &Vec<MethodSchema>,
    notifications: &Vec<MethodSchema>,
    requests: &Vec<MethodSchema>,
) -> (r: Json)
    ensures
        r@ == method_list(
            method_models(methods@),
            method_models(notifications@),
            method_models(requests@),
        ),
{
    let ms = collect_mentions(methods, notifications, requests);
    let unstable = unstable_type_names(&ms);
    object3(
        entry("methods", Json::Array(list_methods(methods, &unstable))),
        entry("notifications", Json::Array(list_notifications(notifications, &unstable))),
        entry("agentRequests", Json::Array(list_methods(requests, &unstable))),
    )
}

// ---------------------------------------------------------------------------
// What holds of the document
// ---------------------------------------------------------------------------

/// Every use of a type is mentioned with its method, and nothing else is.
pub proof fn law_every_use_is_mentioned(
    ms: Seq<MethodModel>,
    name: Seq<char>,
    method: Seq<char>,
)
    ensures
        mentions(ms).contains((name, method)) <==> exists|i: int|
            0 <= i < ms.len() && (#[trigger] ms[i]).method == method && (ms[i].params == Some(name)
                || ms[i].response == Some(name)),
    decreases ms.len(),
{
    if ms.len() > 0 {
        let front = ms.drop_last();
        let last = ms.last();
        let x = (name, method);
        law_every_use_is_mentioned(front, name, method);
        lemma_contains_both(mentions(front), mentions_in(last), x);
        lemma_mentions_in(last, x);
        assert(ms[ms.len() - 1] == last);
        if mentions(front).contains(x) {
            let i = choose|i: int|
                0 <= i < front.len() && (#[trigger] front[i]).method == method && (front[i].params
                    == Some(name) || front[i].response == Some(name));
            assert(ms[i] == front[i]);
        }
        if exists|i: int|
            0 <= i < ms.len() && (#[trigger] ms[i]).method == method && (ms[i].params == Some(name)
                || ms[i].response == Some(name)) {
            let i = choose|i: int|
                0 <= i < ms.len() && (#[trigger] ms[i]).method == method && (ms[i].params == Some(
                    name,
                ) || ms[i].response == Some(name));
            if i < front.len() {
                assert(front[i] == ms[i]);
            }
        }
    }
}

proof fn lemma_mentions_in(m: MethodModel, x: (Seq<char>, Seq<char>))
    ensures
        mentions_in(m).contains(x) <==> x.1 == m.method && (m.params == Some(x.0) || m.response
            == Some(x.0)),
{
    let all = mentions_in(m);
    if m.params is Some {
        assert(all[0] == (m.params->0, m.method));
    }
    if m.response is Some {
        assert(all[all.len() - 1] == (m.response->0, m.method));
    }
}

/// The methods that use a type are exactly those that are mentioned with it.
pub proof fn law_methods_of_a_type(
    ms: Seq<(Seq<char>, Seq<char>)>,
    name: Seq<char>,
    method: Seq<char>,
)
    ensures
        methods_of(ms, name).contains(method) <==> ms.contains((name, method)),
    decreases ms.len(),
{
    if ms.len() > 0 {
        law_methods_of_a_type(ms.drop_last(), name, method);
        lemma_contains_last(ms, (name, method));
        lemma_contains_push(methods_of(ms.drop_last(), name), ms.last().1, method);
    }
}

/// Every type that is mentioned is listed, once.
pub proof fn law_types_are_listed_once(ms: Seq<(Seq<char>, Seq<char>)>, name: Seq<char>)
    ensures
        names_of(ms).contains(name) <==> exists|i: int| 0 <= i < ms.len() && (#[trigger] ms[i]).0
            == name,
        names_of(ms).no_duplicates(),
    decreases ms.len(),
{
    if ms.len() > 0 {
        let front = ms.drop_last();
        law_types_are_listed_once(front, name);
        law_types_are_listed_once(front, ms.last().0);
        lemma_contains_push(names_of(front), ms.last().0, name);
        assert(ms[ms.len() - 1] == ms.last());
        if exists|i: int| 0 <= i < front.len() && (#[trigger] front[i]).0 == name {
            let i = choose|i: int| 0 <= i < front.len() && (#[trigger] front[i]).0 == name;
            assert(ms[i] == front[i]);
        }
        if exists|i: int| 0 <= i < ms.len() && (#[trigger] ms[i]).0 == name {
            let i = choose|i: int| 0 <= i < ms.len() && (#[trigger] ms[i]).0 == name;
            if i < front.len() {
                assert(front[i] == ms[i]);
            }
        }
    }
}

/// The name of a type says that it is unstable exactly where it is.
pub proof fn law_unstable_names(name: Seq<char>, unstable: Seq<Seq<char>>)
    ensures
        unstable.contains(name) ==> document_name(name, unstable) == name + "_unstable"@,
        !unstable.contains(name) ==> document_name(name, unstable) == name,
{
}

/// Where no type is unstable nothing is renamed, and a text that is no reference never is.
pub proof fn law_nothing_else_is_renamed(t: Tree)
    ensures
        rewritten(t, Seq::empty()) == t,
    decreases t,
{
    let none = Seq::<Seq<char>>::empty();
    match t {
        Tree::Array(v) => {
            lemma_rewritten_array(v, none);
            assert forall|i: int| 0 <= i < v.len() implies rewritten(v[i], none) == v[i] by {
                law_nothing_else_is_renamed(v[i]);
            }
            assert(rewritten_items(v, none) =~= v);
        },
        Tree::Object(ms) => {
            lemma_rewritten_object(ms, none);
            assert forall|i: int| 0 <= i < ms.len() implies rewritten_member(ms[i], none)
                == ms[i].1 by {
                law_nothing_else_is_renamed(ms[i].1);
            }
            assert(rewritten_members(ms, none) =~= ms);
        },
        _ => {},
    }
}

/// A reference is renamed wherever it stands, as the member of an object; its neighbours keep their
/// names and their places.
pub proof fn law_references_are_renamed(
    ms: Seq<(Seq<char>, Tree)>,
    unstable: Seq<Seq<char>>,
    name: Seq<char>,
    i: int,
)
    requires
        0 <= i < ms.len(),
    ensures
        rewritten(Tree::Object(ms), unstable) matches Tree::Object(out) && {
            &&& out.len() == ms.len()
            &&& out[i].0 == ms[i].0
            &&& ms[i] == ("$ref"@, Tree::Str("#/$defs/"@ + name)) ==> out[i].1 == Tree::Str(
                "#/$defs/"@ + document_name(name, unstable),
            )
            &&& ms[i].0 != "$ref"@ && ms[i].1 is Str ==> out[i] == ms[i]
            &&& !(ms[i].1 is Str) ==> out[i].1 == rewritten(ms[i].1, unstable)
        },
{
    lemma_rewritten_object(ms, unstable);
    law_references_follow_their_types(name, unstable);
}

/// A value without a `true` inside is left as it is.
pub proof fn law_other_values_stay_closed(t: Tree)
    requires
        !has_true_inside(t),
    ensures
        opened(t) == t,
    decreases t,
{
    match t {
        Tree::Array(v) => {
            lemma_opened_array(v);
            assert forall|i: int| 0 <= i < v.len() implies #[trigger] opened_items(v)[i] == v[i] by {
                assert(v[i] != Tree::Bool(true) && !has_true_inside(v[i]));
                law_other_values_stay_closed(v[i]);
            }
            assert(opened_items(v) =~= v);
        },
        Tree::Object(ms) => {
            lemma_opened_object(ms);
            assert forall|i: int| 0 <= i < ms.len() implies #[trigger] opened_members(ms)[i]
                == ms[i] by {
                assert(ms[i].1 != Tree::Bool(true) && !has_true_inside(ms[i].1));
                law_other_values_stay_closed(ms[i].1);
            }
            assert(opened_members(ms) =~= ms);
        },
        _ => {},
    }
}

/// Every `true` among the members of an object becomes an empty object, in its place.
pub proof fn law_true_becomes_an_empty_object(ms: Seq<(Seq<char>, Tree)>, i: int)
    requires
        0 <= i < ms.len(),
    ensures
        opened(Tree::Object(ms)) matches Tree::Object(out) && {
            &&& out.len() == ms.len()
            &&& out[i].0 == ms[i].0
            &&& ms[i].1 == Tree::Bool(true) ==> out[i].1 == Tree::Object(Seq::empty())
            &&& ms[i].1 == Tree::Bool(false) ==> out[i].1 == Tree::Bool(false)
        },
{
    lemma_opened_object(ms);
}

/// Only the format of an integer goes: in a schema of another type the format stays, and so does
/// every other member of any schema.
pub proof fn law_other_formats_stay(ms: Seq<(Seq<char>, Tree)>, key: Seq<char>)
    ensures
        stripped(Tree::Object(ms)) matches Tree::Object(out) && {
            &&& key != "format"@ || !integer_type(lookup(ms, "type"@)) ==> lookup(out, key)
                == match lookup(ms, key) {
                Some(t) => Some(stripped(t)),
                None => None,
            }
            &&& integer_type(lookup(ms, "type"@)) ==> lookup(out, "format"@) is None
        },
{
    lemma_stripped_lookup(ms, key);
    lemma_without_member_lookup(stripped_members(ms), "format"@, key);
}

/// Every definition is in the document, in its place, under its name there, with its references
/// renamed; and none is lost or added.
pub proof fn law_every_definition_is_prepared(
    defs: Seq<(Seq<char>, Tree)>,
    unstable: Seq<Seq<char>>,
    i: int,
)
    requires
        prepared(defs, unstable) is Ok,
        0 <= i < defs.len(),
    ensures
        ({
            let out = prepared(defs, unstable)->Ok_0;
            &&& out.len() == defs.len()
            &&& out[i].0 == document_name(defs[i].0, unstable)
            &&& out[i].1 == stripped(opened(rewritten(defs[i].1, unstable)))
        }),
    decreases defs.len(),
{
    let front = defs.drop_last();
    if front.len() > 0 {
        let k = if i < front.len() {
            i
        } else {
            0
        };
        law_every_definition_is_prepared(front, unstable, k);
        assert(front[k] == defs[k]);
    } else {
        assert(prepared(front, unstable)->Ok_0.len() == 0);
    }
}

/// A tagged definition can be told by its tag: the property is there with that one value and is
/// required, and every other property and every other definition stays.
#[verifier::rlimit(60)]
pub proof fn law_tags_tell_definitions_apart(
    defs: Seq<(Seq<char>, Tree)>,
    name: Seq<char>,
    tag: Seq<char>,
    other: Seq<char>,
)
    requires
        discriminated(defs, name, tag) is Ok,
    ensures
        ({
            let out = discriminated(defs, name, tag)->Ok_0;
            &&& lookup(out, name) matches Some(def) && {
                &&& def.get("properties"@) matches Some(p) && {
                    &&& p.get("type"@) == Some(tag_schema(tag))
                    &&& other != "type"@ ==> (lookup(defs, name) matches Some(was) && (was.get(
                        "properties"@,
                    ) matches Some(q) ==> p.get(other) == q.get(other)))
                }
                &&& def.get("required"@) matches Some(Tree::Array(v)) && v.contains(
                    Tree::Str("type"@),
                )
            }
            &&& other != name ==> lookup(out, other) == lookup(defs, other)
        }),
        tag_schema(tag).get("const"@) == Some(Tree::Str(tag)),
{
    reveal_strlit("properties");
    reveal_strlit("required");
    reveal_strlit("type");
    reveal_strlit("const");
    assert("properties"@.len() != "required"@.len());
    assert("type"@.len() != "const"@.len());
    let o = lookup(defs, name)->0->Object_0;
    let p = match lookup(o, "properties"@) {
        Some(Tree::Object(p)) => p,
        _ => Seq::empty(),
    };
    let properties = with_member(p, "type"@, tag_schema(tag));
    lemma_with_member_lookup(p, "type"@, tag_schema(tag), other);
    let with_properties = with_member(o, "properties"@, Tree::Object(properties));
    lemma_with_member_lookup(o, "properties"@, Tree::Object(properties), "required"@);
    let required = match lookup(o, "required"@) {
        Some(Tree::Array(v)) => v,
        _ => Seq::empty(),
    };
    let more = with_tag_required(required);
    if !required.contains(Tree::Str("type"@)) {
        assert(more[0] == Tree::Str("type"@));
    }
    lemma_with_member_lookup(with_properties, "required"@, Tree::Array(more), "properties"@);
    lemma_with_member_lookup(defs, name, discriminated_value(defs, name, tag), other);
    let ms = tag_schema(tag)->Object_0;
    lemma_lookup_at(ms, "const"@, 1);
}

/// The definition that a tag leaves.
pub open spec fn discriminated_value(
    defs: Seq<(Seq<char>, Tree)>,
    name: Seq<char>,
    tag: Seq<char>,
) -> Tree {
    tagged(name, lookup(defs, name), tag)->Ok_0
}

/// Tagging fails only where the definition is not there or is not that of an object.
pub proof fn law_definitions_of_objects_are_tagged(
    defs: Seq<(Seq<char>, Tree)>,
    name: Seq<char>,
    tag: Seq<char>,
)
    ensures
        discriminated(defs, name, tag) is Ok <==> (lookup(defs, name) matches Some(Tree::Object(o))
            && (lookup(o, "properties"@) is None || lookup(o, "properties"@) matches Some(
            Tree::Object(_),
        )) && (lookup(o, "required"@) is None || lookup(o, "required"@) matches Some(
            Tree::Array(_),
        ))),
{
    reveal_strlit("properties");
    reveal_strlit("required");
    assert("properties"@.len() != "required"@.len());
    if let Some(Tree::Object(o)) = lookup(defs, name) {
        let p = match lookup(o, "properties"@) {
            Some(Tree::Object(p)) => p,
            _ => Seq::empty(),
        };
        lemma_with_member_lookup(
            o,
            "properties"@,
            Tree::Object(with_member(p, "type"@, tag_schema(tag))),
            "required"@,
        );
    }
}

/// A definition says who answers: the client for what the agent asks, and else the agent. It names
/// its method where one alone uses it, and keeps all its other members.
pub proof fn law_definitions_say_who_answers(
    o: Seq<(Seq<char>, Tree)>,
    client_side: bool,
    methods: Seq<Seq<char>>,
    other: Seq<char>,
)
    ensures
        ({
            let out = noted(o, client_side, methods);
            &&& client_side ==> lookup(out, "x-side"@) == Some(Tree::Str("client"@))
            &&& !client_side ==> lookup(out, "x-side"@) == Some(Tree::Str("agent"@))
            &&& methods.len() == 1 ==> lookup(out, "x-method"@) == Some(Tree::Str(methods[0]))
            &&& methods.len() != 1 ==> lookup(out, "x-method"@) == lookup(o, "x-method"@)
            &&& other != "x-side"@ && other != "x-method"@ ==> lookup(out, other) == lookup(o, other)
        }),
{
    reveal_strlit("x-side");
    reveal_strlit("x-method");
    assert("x-side"@.len() != "x-method"@.len());
    let side = Tree::Str(
        if client_side {
            "client"@
        } else {
            "agent"@
        },
    );
    let sided = with_member(o, "x-side"@, side);
    lemma_with_member_lookup(o, "x-side"@, side, other);
    lemma_with_member_lookup(o, "x-side"@, side, "x-method"@);
    if methods.len() == 1 {
        lemma_with_member_lookup(sided, "x-method"@, Tree::Str(methods[0]), other);
        lemma_with_member_lookup(sided, "x-method"@, Tree::Str(methods[0]), "x-side"@);
    }
}

/// Noting one type changes its definition alone, and only where that is one of an object.
pub proof fn law_notes_stay_with_their_type(
    defs: Seq<(Seq<char>, Tree)>,
    name: Seq<char>,
    ms: Seq<(Seq<char>, Seq<char>)>,
    client_side: Seq<Seq<char>>,
    unstable: Seq<Seq<char>>,
    other: Seq<char>,
)
    ensures
        ({
            let out = annotated_one(defs, name, ms, client_side, unstable);
            let key = document_name(name, unstable);
            &&& other != key ==> lookup(out, other) == lookup(defs, other)
            &&& lookup(defs, key) matches Some(Tree::Object(o)) ==> lookup(out, key) == Some(
                Tree::Object(noted(o, client_side.contains(name), methods_of(ms, name))),
            )
            &&& lookup(defs, key) is None ==> lookup(out, key) is None
        }),
{
    let key = document_name(name, unstable);
    if let Some(Tree::Object(o)) = lookup(defs, key) {
        lemma_with_member_lookup(
            defs,
            key,
            Tree::Object(noted(o, client_side.contains(name), methods_of(ms, name))),
            other,
        );
    }
}

/// A request can hold what every method takes: one variant for each method that takes something, in
/// their order, which leads to the type and tells the method.
pub proof fn law_every_method_can_be_asked(
    a: Seq<MethodModel>,
    b: Seq<MethodModel>,
    unstable: Seq<Seq<char>>,
)
    ensures
        params_variants(a + b, unstable) == params_variants(a, unstable) + params_variants(
            b,
            unstable,
        ),
        a.len() == 1 ==> (a[0].params matches Some(n) ==> params_variants(a, unstable) == seq![
            params_variant(document_name(n, unstable), a[0].method),
        ]),
        a.len() == 1 && a[0].params is None ==> params_variants(a, unstable).len() == 0,
    decreases b.len(),
{
    if a.len() == 1 {
        assert(a.drop_last() =~= Seq::empty());
        assert(params_variants(a.drop_last(), unstable) =~= Seq::empty());
        assert(a.last() == a[0]);
        if let Some(n) = a[0].params {
            assert(params_variants(a, unstable) =~= seq![
                params_variant(document_name(n, unstable), a[0].method),
            ]);
        }
    }
    if b.len() > 0 {
        law_every_method_can_be_asked(a, b.drop_last(), unstable);
        assert((a + b).drop_last() =~= a + b.drop_last());
        assert((a + b).last() == b.last());
        assert(params_variants(a + b, unstable) =~= params_variants(a, unstable) + params_variants(
            b,
            unstable,
        ));
    } else {
        assert(a + b =~= a);
        assert(params_variants(a, unstable) + params_variants(b, unstable) =~= params_variants(
            a,
            unstable,
        ));
    }
}

/// A variant leads to the definition of its type, and that of a request tells its method.
pub proof fn law_variants_lead_to_definitions(name: Seq<char>, method: Seq<char>)
    ensures
        ref_to(name).get("$ref"@) == Some(Tree::Str("#/$defs/"@ + name)),
        params_variant(name, method).get("allOf"@) == Some(Tree::Array(seq![ref_to(name)])),
        params_variant(name, method).get("title"@) == Some(Tree::Str(name)),
        params_variant(name, method).get("description"@) matches Some(Tree::Str(d)) && has_text(
            d,
            method,
        ),
        result_variant(name).get("allOf"@) == Some(Tree::Array(seq![ref_to(name)])),
        result_variant(name).get("title"@) == Some(Tree::Str(name)),
{
    reveal_strlit("allOf");
    reveal_strlit("title");
    reveal_strlit("description");
    assert("allOf"@[0] == 'a' && "title"@[0] == 't' && "description"@[0] == 'd');
    lemma_has_text("Params for "@, method, Seq::empty());
    lemma_lookup_at(ref_to(name)->Object_0, "$ref"@, 0);
    let p = params_variant(name, method)->Object_0;
    lemma_lookup_at(p, "allOf"@, 0);
    lemma_lookup_at(p, "description"@, 1);
    lemma_lookup_at(p, "title"@, 2);
    let r = result_variant(name)->Object_0;
    lemma_lookup_at(r, "allOf"@, 0);
    lemma_lookup_at(r, "title"@, 1);
}

/// The document defines each kind of message by its own methods: what clients ask and what they are
/// answered, what they are told, and what the agent asks and is answered. Every other definition
/// stays.
#[verifier::rlimit(60)]
pub proof fn law_messages_are_defined(
    defs: Seq<(Seq<char>, Tree)>,
    methods: Seq<MethodModel>,
    notifications: Seq<MethodModel>,
    requests: Seq<MethodModel>,
    unstable: Seq<Seq<char>>,
    other: Seq<char>,
)
    ensures
        ({
            let out = with_messages(defs, methods, notifications, requests, unstable);
            &&& lookup(out, "ExtRequest"@) == Some(
                request_schema(params_variants(methods, unstable)),
            )
            &&& lookup(out, "ExtResponse"@) == Some(
                response_schema(result_variants(methods, unstable)),
            )
            &&& lookup(out, "ExtNotification"@) == Some(
                notification_schema(params_variants(notifications, unstable)),
            )
            &&& lookup(out, "ExtAgentRequest"@) == Some(
                request_schema(params_variants(requests, unstable)),
            )
            &&& lookup(out, "ExtAgentResponse"@) == Some(
                response_schema(result_variants(requests, unstable)),
            )
            &&& other != "ExtRequest"@ && other != "ExtResponse"@ && other != "ExtNotification"@
                && other != "ExtAgentRequest"@ && other != "ExtAgentResponse"@ ==> lookup(
                out,
                other,
            ) == lookup(defs, other)
        }),
{
    reveal_strlit("ExtRequest");
    reveal_strlit("ExtResponse");
    reveal_strlit("ExtNotification");
    reveal_strlit("ExtAgentRequest");
    reveal_strlit("ExtAgentResponse");
    let a = "ExtRequest"@;
    let b = "ExtResponse"@;
    let c = "ExtNotification"@;
    let d = "ExtAgentRequest"@;
    let e = "ExtAgentResponse"@;
    assert(a.len() == 10 && b.len() == 11 && c.len() == 15 && d.len() == 15 && e.len() == 16);
    assert(c[3] == 'N' && d[3] == 'A');
    let v1 = request_schema(params_variants(methods, unstable));
    let v2 = response_schema(result_variants(methods, unstable));
    let v3 = notification_schema(params_variants(notifications, unstable));
    let v4 = request_schema(params_variants(requests, unstable));
    let v5 = response_schema(result_variants(requests, unstable));
    let d1 = with_member(defs, a, v1);
    let d2 = with_member(d1, b, v2);
    let d3 = with_member(d2, c, v3);
    let d4 = with_member(d3, d, v4);
    lemma_with_member_lookup(defs, a, v1, other);
    lemma_with_member_lookup(d1, b, v2, other);
    lemma_with_member_lookup(d2, c, v3, other);
    lemma_with_member_lookup(d3, d, v4, other);
    lemma_with_member_lookup(d4, e, v5, other);
    lemma_with_member_lookup(d1, b, v2, a);
    lemma_with_member_lookup(d2, c, v3, a);
    lemma_with_member_lookup(d3, d, v4, a);
    lemma_with_member_lookup(d4, e, v5, a);
    lemma_with_member_lookup(d2, c, v3, b);
    lemma_with_member_lookup(d3, d, v4, b);
    lemma_with_member_lookup(d4, e, v5, b);
    lemma_with_member_lookup(d3, d, v4, c);
    lemma_with_member_lookup(d4, e, v5, c);
    lemma_with_member_lookup(d4, e, v5, d);
}

/// A request has an id, a method and parameters, and cannot do without the first two; a
/// notification has no id; each can hold every variant, or parameters that none describes.
#[verifier::rlimit(60)]
pub proof fn law_what_messages_hold(variants: Seq<Tree>)
    ensures
        request_schema(variants).get("properties"@) matches Some(p) && p.get("id"@) is Some && p.get(
            "method"@,
        ) is Some && p.get("params"@) == Some(one_of_or(variants, untyped_params())),
        request_schema(variants).get("required"@) == Some(
            Tree::Array(seq![Tree::Str("id"@), Tree::Str("method"@)]),
        ),
        notification_schema(variants).get("properties"@) matches Some(p) && p.get("id"@) is None
            && p.get("params"@) == Some(one_of_or(variants, untyped_params())),
        notification_schema(variants).get("required"@) == Some(
            Tree::Array(seq![Tree::Str("method"@)]),
        ),
        response_schema(variants).get("anyOf"@) == Some(
            Tree::Array(seq![success_schema(variants), failure_schema()]),
        ),
        success_schema(variants).get("properties"@) matches Some(p) && p.get("result"@) == Some(
            one_of_or(variants, untyped_result()),
        ),
        failure_schema().get("properties"@) matches Some(p) && p.get("error"@) == Some(
            error_schema(),
        ),
        one_of_or(variants, untyped_params()).get("anyOf"@) == Some(
            Tree::Array(
                seq![
                    Tree::Object(seq![("anyOf"@, Tree::Array(variants))]),
                    untyped_params(),
                ],
            ),
        ),
{
    reveal_strlit("properties");
    reveal_strlit("required");
    reveal_strlit("id");
    reveal_strlit("method");
    reveal_strlit("params");
    reveal_strlit("result");
    reveal_strlit("error");
    reveal_strlit("anyOf");
    assert("properties"@.len() == 10 && "required"@.len() == 8);
    assert("id"@.len() == 2 && "method"@[0] == 'm' && "params"@[0] == 'p' && "result"@[0] == 'r'
        && "error"@[0] == 'e' && "id"@[0] == 'i');
    let q = request_schema(variants)->Object_0;
    lemma_lookup_at(q, "properties"@, 0);
    lemma_lookup_at(q, "required"@, 1);
    let qp = q[0].1->Object_0;
    lemma_lookup_at(qp, "id"@, 0);
    lemma_lookup_at(qp, "method"@, 1);
    lemma_lookup_at(qp, "params"@, 2);
    let n = notification_schema(variants)->Object_0;
    lemma_lookup_at(n, "properties"@, 0);
    lemma_lookup_at(n, "required"@, 1);
    let np = n[0].1->Object_0;
    lemma_lookup_at(np, "params"@, 1);
    lemma_lookup_none(np, "id"@);
    lemma_lookup_at(response_schema(variants)->Object_0, "anyOf"@, 0);
    let s = success_schema(variants)->Object_0;
    lemma_lookup_at(s, "properties"@, 0);
    lemma_lookup_at(s[0].1->Object_0, "result"@, 1);
    let f = failure_schema()->Object_0;
    lemma_lookup_at(f, "properties"@, 0);
    lemma_lookup_at(f[0].1->Object_0, "error"@, 0);
    lemma_lookup_at(one_of_or(variants, untyped_params())->Object_0, "anyOf"@, 0);
}

/// The document holds all its definitions, and names the five kinds of message.
pub proof fn law_the_document_holds_its_definitions(defs: Seq<(Seq<char>, Tree)>)
    ensures
        root_of(defs).get("$defs"@) == Some(Tree::Object(defs)),
        root_of(defs).get("anyOf"@) matches Some(Tree::Array(v)) && v.len() == 5,
{
    reveal_strlit("$schema");
    reveal_strlit("title");
    reveal_strlit("$defs");
    reveal_strlit("anyOf");
    assert("$schema"@.len() == 7 && "title"@[0] == 't' && "$defs"@[0] == '$' && "$defs"@.len() == 5
        && "anyOf"@[0] == 'a');
    let ms = root_of(defs)->Object_0;
    lemma_lookup_at(ms, "$defs"@, 2);
    lemma_lookup_at(ms, "anyOf"@, 3);
}

/// There is a document wherever the definitions can be named apart and the two transports can be
/// tagged, and only there.
pub proof fn law_when_there_is_a_document(
    defs: Seq<(Seq<char>, Tree)>,
    methods: Seq<MethodModel>,
    notifications: Seq<MethodModel>,
    requests: Seq<MethodModel>,
)
    ensures
        ({
            let unstable = unstable_types(all_mentions(methods, notifications, requests));
            let d = document(defs, methods, notifications, requests);
            &&& d is Ok <==> prepared(defs, unstable) is Ok && transports_tagged(
                prepared(defs, unstable)->Ok_0,
            ) is Ok
            &&& d matches Ok(t) ==> (t.get("$defs"@) matches Some(all) && all.get("ExtRequest"@)
                == Some(request_schema(params_variants(methods, unstable))) && all.get(
                "ExtAgentRequest"@,
            ) == Some(request_schema(params_variants(requests, unstable))))
        }),
{
    let ms = all_mentions(methods, notifications, requests);
    let unstable = unstable_types(ms);
    if document(defs, methods, notifications, requests) is Ok {
        let tagged = transports_tagged(prepared(defs, unstable)->Ok_0)->Ok_0;
        let noted_all = annotated(
            tagged,
            names_of(ms),
            ms,
            names_of(mentions(requests)),
            unstable,
        );
        law_messages_are_defined(
            noted_all,
            methods,
            notifications,
            requests,
            unstable,
            Seq::empty(),
        );
        law_the_document_holds_its_definitions(
            with_messages(noted_all, methods, notifications, requests, unstable),
        );
    }
}

/// Every method is listed with its types, in its place, under the list of its kind.
pub proof fn law_every_method_is_listed(
    methods: Seq<MethodModel>,
    notifications: Seq<MethodModel>,
    requests: Seq<MethodModel>,
    i: int,
)
    ensures
        ({
            let list = method_list(methods, notifications, requests);
            let unstable = unstable_types(all_mentions(methods, notifications, requests));
            &&& list.get("methods"@) matches Some(Tree::Array(v)) && v.len() == methods.len() && (0
                <= i < methods.len() ==> v[i] == method_entry(methods[i], unstable))
            &&& list.get("notifications"@) matches Some(Tree::Array(v)) && v.len()
                == notifications.len() && (0 <= i < notifications.len() ==> v[i]
                == notification_entry(notifications[i], unstable))
            &&& list.get("agentRequests"@) matches Some(Tree::Array(v)) && v.len() == requests.len()
                && (0 <= i < requests.len() ==> v[i] == method_entry(requests[i], unstable))
        }),
{
    reveal_strlit("methods");
    reveal_strlit("notifications");
    reveal_strlit("agentRequests");
    assert("methods"@[0] == 'm' && "notifications"@[0] == 'n' && "agentRequests"@[0] == 'a');
    let ms = method_list(methods, notifications, requests)->Object_0;
    lemma_lookup_at(ms, "methods"@, 0);
    lemma_lookup_at(ms, "notifications"@, 1);
    lemma_lookup_at(ms, "agentRequests"@, 2);
}

/// What is listed of a method: its name, and the types that it takes and gives under their names in
/// the document, or null where there is none.
pub proof fn law_listed_methods_tell_their_types(m: MethodModel, unstable: Seq<Seq<char>>)
    ensures
        method_entry(m, unstable).get("method"@) == Some(Tree::Str(m.method)),
        m.params matches Some(n) ==> method_entry(m, unstable).get("requestType"@) == Some(
            Tree::Str(document_name(n, unstable)),
        ),
        m.params is None ==> method_entry(m, unstable).get("requestType"@) == Some(Tree::Null),
        m.response matches Some(n) ==> method_entry(m, unstable).get("responseType"@) == Some(
            Tree::Str(document_name(n, unstable)),
        ),
        m.response is None ==> method_entry(m, unstable).get("responseType"@) == Some(Tree::Null),
        notification_entry(m, unstable).get("method"@) == Some(Tree::Str(m.method)),
        m.params matches Some(n) ==> notification_entry(m, unstable).get("paramsType"@) == Some(
            Tree::Str(document_name(n, unstable)),
        ),
{
    reveal_strlit("method");
    reveal_strlit("requestType");
    reveal_strlit("responseType");
    reveal_strlit("paramsType");
    assert("method"@.len() == 6 && "requestType"@.len() == 11 && "responseType"@.len() == 12
        && "paramsType"@.len() == 10);
    let ms = method_entry(m, unstable)->Object_0;
    lemma_lookup_at(ms, "method"@, 0);
    lemma_lookup_at(ms, "requestType"@, 1);
    lemma_lookup_at(ms, "responseType"@, 2);
    let ns = notification_entry(m, unstable)->Object_0;
    lemma_lookup_at(ns, "method"@, 0);
    lemma_lookup_at(ns, "paramsType"@, 1);
}

} // verus!

//! Environment variables: putting them into texts, and gathering those of an extension.

use crate::hooks::pair_texts;
use crate::patterns::{captures, captures_model, groups, pattern_captures, pattern_valid};
use crate::text::{
    cat3, chars_of, contains, has_text, matches_at, occurs_at, same_text, str_eq, text_opt,
    texts,
};
use vstd::prelude::*;
use vstd::string::*;

verus! {

// ---------------------------------------------------------------------------
// Substitution
// ---------------------------------------------------------------------------

/// The value of the first variable with the name.
pub open spec fn env_value(env: Seq<(Seq<char>, Seq<char>)>, name: Seq<char>) -> Option<Seq<char>>
    decreases env.len(),
{
    if env.len() == 0 {
        None
    } else if env[0].0 == name {
        Some(env[0].1)
    } else {
        env_value(env.skip(1), name)
    }
}

/// The value of the first variable with the name.
pub fn env_get(env: &Vec<(String, String)>, name: &str) -> (r: Option<String>)
    ensures
        text_opt(r) == env_value(pair_texts(env@), name@),
{
    let ghost all = pair_texts(env@);
    let mut i: usize = 0;
    assert(all.skip(0) =~= all);
    while i < env.len()
        invariant
            all == pair_texts(env@),
            i <= env@.len(),
            env_value(all, name@) == env_value(all.skip(i as int), name@),
        decreases env@.len() - i,
    {
        assert(all.skip(i as int)[0] == (env@[i as int].0@, env@[i as int].1@));
        assert(all.skip(i as int).skip(1) =~= all.skip(i + 1));
        if str_eq(env[i].0.as_str(), name) {
            return Some(env[i].1.clone());
        }
        i = i + 1;
    }
    None
}

/// Whether two environments set the same variables to the same values, in whatever order.
pub open spec fn same_variables(
    a: Seq<(Seq<char>, Seq<char>)>,
    b: Seq<(Seq<char>, Seq<char>)>,
) -> bool {
    forall|name: Seq<char>| (#[trigger] env_value(a, name)) == env_value(b, name)
}

/// A variable that is set is one of those of the environment.
proof fn lemma_env_named(env: Seq<(Seq<char>, Seq<char>)>, name: Seq<char>)
    requires
        env_value(env, name) is Some,
    ensures
        exists|i: int| 0 <= i < env.len() && (#[trigger] env[i]).0 == name,
    decreases env.len(),
{
    if env[0].0 != name {
        lemma_env_named(env.skip(1), name);
        let i = choose|i: int| 0 <= i < env.skip(1).len() && (#[trigger] env.skip(1)[i]).0 == name;
        assert(env[i + 1].0 == name);
    }
}

/// Whether two environments agree on the variables that the first of them sets.
fn agree_on(names: &Vec<(String, String)>, a: &Vec<(String, String)>, b: &Vec<(String, String)>) -> (r:
    bool)
    ensures
        r == forall|i: int|
            0 <= i < names@.len() ==> env_value(pair_texts(a@), (#[trigger] pair_texts(names@)[i]).0)
                == env_value(pair_texts(b@), pair_texts(names@)[i].0),
{
    let mut i: usize = 0;
    while i < names.len()
        invariant
            i <= names@.len(),
            forall|j: int|
                0 <= j < i ==> env_value(pair_texts(a@), (#[trigger] pair_texts(names@)[j]).0)
                    == env_value(pair_texts(b@), pair_texts(names@)[j].0),
        decreases names@.len() - i,
    {
        let x = env_get(a, names[i].0.as_str());
        let y = env_get(b, names[i].0.as_str());
        assert(pair_texts(names@)[i as int].0 == names@[i as int].0@);
        if !same_text(&x, &y) {
            return false;
        }
        i = i + 1;
    }
    true
}

/// Whether two environments set the same variables to the same values, in whatever order.
pub fn variables_same(a: &Vec<(String, String)>, b: &Vec<(String, String)>) -> (r: bool)
    ensures
        r == same_variables(pair_texts(a@), pair_texts(b@)),
{
    let ghost am = pair_texts(a@);
    let ghost bm = pair_texts(b@);
    let r = agree_on(a, a, b) && agree_on(b, a, b);
    proof {
        if r {
            assert forall|name: Seq<char>| (#[trigger] env_value(am, name)) == env_value(
                bm,
                name,
            ) by {
                if env_value(am, name) is Some {
                    lemma_env_named(am, name);
                } else if env_value(bm, name) is Some {
                    lemma_env_named(bm, name);
                }
            }
        }
    }
    r
}

/// The text `${NAME}`.
pub open spec fn braced(name: Seq<char>) -> Seq<char> {
    "${"@ + name + "}"@
}

/// A place in a text that names a variable: its text and the variable's name, where the match has
/// both.
pub open spec fn placeholder(m: Seq<Option<Seq<char>>>) -> Option<(Seq<char>, Seq<char>)> {
    if m.len() > 1 {
        match (m[0], m[1]) {
            (Some(written), Some(name)) => if written.len() > 0 {
                Some((written, name))
            } else {
                None
            },
            _ => None,
        }
    } else {
        None
    }
}

/// The places among some matches, in their order: the text of each and the variable's name.
pub open spec fn named_places(found: Seq<Seq<Option<Seq<char>>>>) -> Seq<(Seq<char>, Seq<char>)>
    decreases found.len(),
{
    if found.len() == 0 {
        Seq::empty()
    } else {
        let head = named_places(found.drop_last());
        match placeholder(found.last()) {
            Some(p) => head.push(p),
            None => head,
        }
    }
}

/// Whether a place is to be filled in: its variable is set, and the value does not also name it in
/// braces where the place is a bare one.
pub open spec fn to_fill(
    value: Seq<char>,
    bare: bool,
    name: Seq<char>,
    env: Seq<(Seq<char>, Seq<char>)>,
) -> bool {
    env_value(env, name) is Some && !(bare && has_text(value, braced(name)))
}

/// Those of some places that are to be filled in, in their order.
pub open spec fn places_to_fill(
    value: Seq<char>,
    bare: bool,
    places: Seq<(Seq<char>, Seq<char>)>,
    env: Seq<(Seq<char>, Seq<char>)>,
) -> Seq<(Seq<char>, Seq<char>)>
    decreases places.len(),
{
    if places.len() == 0 {
        Seq::empty()
    } else {
        let head = places_to_fill(value, bare, places.drop_last(), env);
        if to_fill(value, bare, places.last().1, env) {
            head.push(places.last())
        } else {
            head
        }
    }
}

/// What is looked for in a value: the text of each place that is to be filled in and its variable's
/// name, those in braces first.
pub open spec fn marks(
    value: Seq<char>,
    in_braces: Seq<Seq<Option<Seq<char>>>>,
    bare: Seq<Seq<Option<Seq<char>>>>,
    env: Seq<(Seq<char>, Seq<char>)>,
) -> Seq<(Seq<char>, Seq<char>)> {
    places_to_fill(value, false, named_places(in_braces), env) + places_to_fill(
        value,
        true,
        named_places(bare),
        env,
    )
}

/// The first of some marks whose text stands at a place of a value.
pub open spec fn mark_at(value: Seq<char>, at: int, marks: Seq<(Seq<char>, Seq<char>)>) -> Option<
    (Seq<char>, Seq<char>),
>
    decreases marks.len(),
{
    if marks.len() == 0 {
        None
    } else if marks[0].0.len() > 0 && occurs_at(value, marks[0].0, at) {
        Some(marks[0])
    } else {
        mark_at(value, at, marks.skip(1))
    }
}

/// A part of a value: text that stays, or a variable to fill in.
pub enum ValuePart {
    Text(Seq<char>),
    Variable { written: Seq<char>, name: Seq<char> },
}

/// A mark that is found has a text, which stands at the place.
pub proof fn lemma_mark_at(value: Seq<char>, at: int, marks: Seq<(Seq<char>, Seq<char>)>)
    ensures
        mark_at(value, at, marks) matches Some(m) ==> m.0.len() > 0 && occurs_at(value, m.0, at),
    decreases marks.len(),
{
    if marks.len() > 0 {
        lemma_mark_at(value, at, marks.skip(1));
    }
}

/// The parts of a value from a place on. A mark is found wherever its text stands, also where more
/// of a longer name follows it: the rest of that name then stays.
pub open spec fn parts_from(
    value: Seq<char>,
    at: int,
    marks: Seq<(Seq<char>, Seq<char>)>,
) -> Seq<ValuePart>
    decreases value.len() - at,
{
    if at >= value.len() {
        Seq::empty()
    } else {
        match mark_at(value, at, marks) {
            Some(m) => {
                proof {
                    lemma_mark_at(value, at, marks);
                }
                seq![ValuePart::Variable { written: m.0, name: m.1 }] + parts_from(
                    value,
                    at + m.0.len(),
                    marks,
                )
            },
            None => seq![ValuePart::Text(seq![value[at]])] + parts_from(value, at + 1, marks),
        }
    }
}

/// The parts of a value, where `in_braces` and `bare` are the matches in it that name a variable.
pub open spec fn value_parts(
    value: Seq<char>,
    in_braces: Seq<Seq<Option<Seq<char>>>>,
    bare: Seq<Seq<Option<Seq<char>>>>,
    env: Seq<(Seq<char>, Seq<char>)>,
) -> Seq<ValuePart> {
    parts_from(value, 0, marks(value, in_braces, bare, env))
}

/// What a part becomes: a variable what it is set to; all else stays.
pub open spec fn filled_part(part: ValuePart, env: Seq<(Seq<char>, Seq<char>)>) -> Seq<char> {
    match part {
        ValuePart::Text(s) => s,
        ValuePart::Variable { written, name } => match env_value(env, name) {
            Some(v) => v,
            None => written,
        },
    }
}

/// What some parts become, one after the other.
pub open spec fn filled_parts(parts: Seq<ValuePart>, env: Seq<(Seq<char>, Seq<char>)>) -> Seq<char>
    decreases parts.len(),
{
    if parts.len() == 0 {
        Seq::empty()
    } else {
        filled_part(parts[0], env) + filled_parts(parts.skip(1), env)
    }
}

/// A value with its variables filled in, where `in_braces` and `bare` are the matches in it that
/// name one. The text of a match is replaced wherever it stands in the value, and what was filled
/// in is never searched.
pub open spec fn substituted(
    value: Seq<char>,
    in_braces: Seq<Seq<Option<Seq<char>>>>,
    bare: Seq<Seq<Option<Seq<char>>>>,
    env: Seq<(Seq<char>, Seq<char>)>,
) -> Seq<char> {
    filled_parts(value_parts(value, in_braces, bare, env), env)
}

fn collect_places(found: &Vec<Vec<Option<String>>>) -> (r: Vec<(String, String)>)
    ensures
        pair_texts(r@) == named_places(captures_model(found@)),
{
    let ghost fm = captures_model(found@);
    let mut out: Vec<(String, String)> = Vec::new();
    let mut i: usize = 0;
    assert(pair_texts(out@) =~= named_places(fm.take(0)));
    while i < found.len()
        invariant
            fm == captures_model(found@),
            i <= found@.len(),
            pair_texts(out@) == named_places(fm.take(i as int)),
        decreases found@.len() - i,
    {
        assert(fm.take(i + 1).drop_last() =~= fm.take(i as int));
        let ghost gm = groups(found@[i as int]@);
        assert(fm.take(i + 1).last() == gm);
        let ghost before = pair_texts(out@);
        if found[i].len() > 1 {
            assert(gm[0] == text_opt(found@[i as int]@[0]) && gm[1] == text_opt(
                found@[i as int]@[1],
            ));
            if let (Some(written), Some(name)) = (&found[i][0], &found[i][1]) {
                if !written.as_str().is_empty() {
                    out.push((written.clone(), name.clone()));
                    assert(pair_texts(out@) =~= before.push((written@, name@)));
                }
            }
        }
        i = i + 1;
    }
    assert(fm.take(i as int) =~= fm);
    out
}

proof fn lemma_filled_first(part: ValuePart, rest: Seq<ValuePart>, env: Seq<(Seq<char>, Seq<char>)>)
    ensures
        filled_parts(seq![part] + rest, env) == filled_part(part, env) + filled_parts(rest, env),
{
    assert((seq![part] + rest).skip(1) =~= rest);
}

fn collect_marks(
    value: &str,
    bare: bool,
    places: &Vec<(String, String)>,
    env: &Vec<(String, String)>,
    out: &mut Vec<(String, String)>,
)
    ensures
        pair_texts(final(out)@) == pair_texts(old(out)@) + places_to_fill(
            value@,
            bare,
            pair_texts(places@),
            pair_texts(env@),
        ),
{
    let ghost pm = pair_texts(places@);
    let ghost em = pair_texts(env@);
    let ghost start = pair_texts(out@);
    let mut i: usize = 0;
    assert(start + places_to_fill(value@, bare, pm.take(0), em) =~= start);
    while i < places.len()
        invariant
            pm == pair_texts(places@),
            em == pair_texts(env@),
            i <= places@.len(),
            pair_texts(out@) == start + places_to_fill(value@, bare, pm.take(i as int), em),
        decreases places@.len() - i,
    {
        assert(pm.take(i + 1).drop_last() =~= pm.take(i as int));
        assert(pm.take(i + 1).last() == (places@[i as int].0@, places@[i as int].1@));
        let ghost before = pair_texts(out@);
        let in_value = cat3("${", places[i].1.as_str(), "}");
        if env_get(env, places[i].1.as_str()).is_some() && !(bare && contains(
            value,
            in_value.as_str(),
        )) {
            out.push((places[i].0.clone(), places[i].1.clone()));
            assert(pair_texts(out@) =~= before.push(pm[i as int]));
            assert(pair_texts(out@) =~= start + places_to_fill(value@, bare, pm.take(i + 1), em));
        }
        i = i + 1;
    }
    assert(pm.take(i as int) =~= pm);
}

fn find_mark(v: &Vec<char>, at: usize, marks: &Vec<(String, String)>) -> (r: Option<(usize, usize)>)
    requires
        at <= v@.len(),
    ensures
        match mark_at(v@, at as int, pair_texts(marks@)) {
            Some(m) => {
                &&& r matches Some(p)
                &&& p.0 < marks@.len()
                &&& pair_texts(marks@)[p.0 as int] == m
                &&& p.1 == m.0.len()
                &&& p.1 > 0
                &&& at + p.1 <= v@.len()
            },
            None => r is None,
        },
{
    let ghost mm = pair_texts(marks@);
    let mut i: usize = 0;
    assert(mm.skip(0) =~= mm);
    while i < marks.len()
        invariant
            mm == pair_texts(marks@),
            at <= v@.len(),
            i <= marks@.len(),
            mark_at(v@, at as int, mm) == mark_at(v@, at as int, mm.skip(i as int)),
        decreases marks@.len() - i,
    {
        assert(mm.skip(i as int)[0] == (marks@[i as int].0@, marks@[i as int].1@));
        assert(mm.skip(i as int).skip(1) =~= mm.skip(i + 1));
        let written = chars_of(marks[i].0.as_str());
        if written.len() > 0 && matches_at(v, &written, at) {
            return Some((i, written.len()));
        }
        i = i + 1;
    }
    None
}

/// Fills variables into a value, where `in_braces` and `bare` are the matches in it that name one.
/// Places are looked for in the value alone, never in what was filled in.
pub fn substitute_places(
    value: &str,
    in_braces: &Vec<Vec<Option<String>>>,
    bare: &Vec<Vec<Option<String>>>,
    env: &Vec<(String, String)>,
) -> (r: String)
    ensures
        r@ == substituted(
            value@,
            captures_model(in_braces@),
            captures_model(bare@),
            pair_texts(env@),
        ),
{
    let ghost em = pair_texts(env@);
    let braces = collect_places(in_braces);
    let simple = collect_places(bare);
    let mut wanted: Vec<(String, String)> = Vec::new();
    collect_marks(value, false, &braces, env, &mut wanted);
    collect_marks(value, true, &simple, env, &mut wanted);
    let ghost mm = pair_texts(wanted@);
    assert(mm =~= marks(value@, captures_model(in_braces@), captures_model(bare@), em));
    let ghost whole = filled_parts(parts_from(value@, 0, mm), em);
    let v = chars_of(value);
    let mut result = String::new();
    let mut at: usize = 0;
    assert(result@ + whole =~= whole);
    while at < v.len()
        invariant
            v@ == value@,
            em == pair_texts(env@),
            mm == pair_texts(wanted@),
            at <= v@.len(),
            result@ + filled_parts(parts_from(value@, at as int, mm), em) == whole,
        decreases v@.len() - at,
    {
        let ghost before = result@;
        let ghost now = parts_from(value@, at as int, mm);
        match find_mark(&v, at, &wanted) {
            Some((i, len)) => {
                let filling = match env_get(env, wanted[i].1.as_str()) {
                    Some(x) => x,
                    None => wanted[i].0.clone(),
                };
                proof {
                    let rest = parts_from(value@, at + len, mm);
                    let part = ValuePart::Variable {
                        written: wanted@[i as int].0@,
                        name: wanted@[i as int].1@,
                    };
                    assert(mm[i as int] == (wanted@[i as int].0@, wanted@[i as int].1@));
                    assert(now == seq![part] + rest);
                    lemma_filled_first(part, rest, em);
                    assert(before + filling@ + filled_parts(rest, em) =~= whole);
                }
                result.append(filling.as_str());
                at = at + len;
            },
            None => {
                proof {
                    let rest = parts_from(value@, at + 1, mm);
                    let part = ValuePart::Text(seq![value@[at as int]]);
                    assert(now == seq![part] + rest);
                    lemma_filled_first(part, rest, em);
                    assert(before.push(value@[at as int]) + filled_parts(rest, em) =~= whole);
                }
                result.push(v[at]);
                at = at + 1;
            },
        }
    }
    assert(result@ =~= whole);
    result
}

/// The pattern of a variable in braces.
pub open spec fn braces_pattern() -> Seq<char> {
    r"\$\{\s*([A-Za-z_][A-Za-z0-9_]*)\s*\}"@
}

/// The pattern of a bare variable.
pub open spec fn bare_pattern() -> Seq<char> {
    r"\$([A-Za-z_][A-Za-z0-9_]*)"@
}

/// The places in a value that match a pattern.
pub open spec fn places(pattern: Seq<char>, value: Seq<char>) -> Seq<Seq<Option<Seq<char>>>> {
    if pattern_valid(pattern) {
        pattern_captures(pattern, value)
    } else {
        Seq::empty()
    }
}

/// Fills variables into a value, in the two forms `${VAR}` and `$VAR`.
pub fn substitute_env_vars(value: &str, env: &Vec<(String, String)>) -> (r: String)
    ensures
        r@ == substituted(
            value@,
            places(braces_pattern(), value@),
            places(bare_pattern(), value@),
            pair_texts(env@),
        ),
{
    let in_braces: Vec<Vec<Option<String>>> = match captures(
        r"\$\{\s*([A-Za-z_][A-Za-z0-9_]*)\s*\}",
        value,
    ) {
        Some(v) => v,
        None => Vec::new(),
    };
    let bare: Vec<Vec<Option<String>>> = match captures(r"\$([A-Za-z_][A-Za-z0-9_]*)", value) {
        Some(v) => v,
        None => Vec::new(),
    };
    assert(captures_model(in_braces@) =~= places(braces_pattern(), value@));
    assert(captures_model(bare@) =~= places(bare_pattern(), value@));
    substitute_places(value, &in_braces, &bare, env)
}

/// Whether one of the matches names the variable.
pub open spec fn names_variable(found: Seq<Seq<Option<Seq<char>>>>, name: Seq<char>) -> bool {
    exists|i: int| 0 <= i < named_places(found).len() && (#[trigger] named_places(found)[i]).1 == name
}

/// Which parts a value has depends on which variables are set, never on what they are set to.
pub proof fn law_parts_do_not_depend_on_values(
    value: Seq<char>,
    in_braces: Seq<Seq<Option<Seq<char>>>>,
    bare: Seq<Seq<Option<Seq<char>>>>,
    env: Seq<(Seq<char>, Seq<char>)>,
    other: Seq<(Seq<char>, Seq<char>)>,
)
    requires
        forall|name: Seq<char>|
            (#[trigger] env_value(env, name)) is Some <==> env_value(other, name) is Some,
    ensures
        value_parts(value, in_braces, bare, env) == value_parts(value, in_braces, bare, other),
{
    lemma_same_to_fill(value, false, named_places(in_braces), env, other);
    lemma_same_to_fill(value, true, named_places(bare), env, other);
}

proof fn lemma_same_to_fill(
    value: Seq<char>,
    bare: bool,
    places: Seq<(Seq<char>, Seq<char>)>,
    env: Seq<(Seq<char>, Seq<char>)>,
    other: Seq<(Seq<char>, Seq<char>)>,
)
    requires
        forall|i: int|
            0 <= i < places.len() ==> (env_value(env, (#[trigger] places[i]).1) is Some <==> env_value(
                other,
                places[i].1,
            ) is Some),
    ensures
        places_to_fill(value, bare, places, env) == places_to_fill(value, bare, places, other),
    decreases places.len(),
{
    if places.len() > 0 {
        assert forall|i: int| 0 <= i < places.drop_last().len() implies (env_value(
            env,
            (#[trigger] places.drop_last()[i]).1,
        ) is Some <==> env_value(other, places.drop_last()[i].1) is Some) by {
            assert(places.drop_last()[i] == places[i]);
        }
        lemma_same_to_fill(value, bare, places.drop_last(), env, other);
        assert(places.last() == places[places.len() - 1]);
    }
}

/// A filled-in value is not expanded again: whatever it holds, it stands in the result as it is,
/// between what the parts before its place and after it become on their own.
pub proof fn law_values_are_not_expanded_again(
    value: Seq<char>,
    in_braces: Seq<Seq<Option<Seq<char>>>>,
    bare: Seq<Seq<Option<Seq<char>>>>,
    env: Seq<(Seq<char>, Seq<char>)>,
    k: int,
    v: Seq<char>,
)
    requires
        0 <= k < value_parts(value, in_braces, bare, env).len(),
        value_parts(value, in_braces, bare, env)[k] matches ValuePart::Variable { name, .. }
            && env_value(env, name) == Some(v),
    ensures
        ({
            let parts = value_parts(value, in_braces, bare, env);
            substituted(value, in_braces, bare, env) == filled_parts(parts.take(k), env) + v
                + filled_parts(parts.skip(k + 1), env)
        }),
{
    lemma_filled_split(value_parts(value, in_braces, bare, env), env, k);
}

proof fn lemma_filled_split(parts: Seq<ValuePart>, env: Seq<(Seq<char>, Seq<char>)>, k: int)
    requires
        0 <= k < parts.len(),
    ensures
        filled_parts(parts, env) == filled_parts(parts.take(k), env) + filled_part(parts[k], env)
            + filled_parts(parts.skip(k + 1), env),
    decreases parts.len(),
{
    if k == 0 {
        assert(parts.take(0) =~= Seq::empty());
        assert(filled_parts(parts, env) =~= filled_parts(parts.take(0), env) + filled_part(
            parts[0],
            env,
        ) + filled_parts(parts.skip(1), env));
    } else {
        let rest = parts.skip(1);
        lemma_filled_split(rest, env, k - 1);
        assert(rest.take(k - 1) =~= parts.take(k).skip(1));
        assert(rest.skip(k) =~= parts.skip(k + 1));
        assert(parts.take(k)[0] == parts[0]);
        assert(rest[k - 1] == parts[k]);
        assert(filled_parts(parts, env) =~= filled_parts(parts.take(k), env) + filled_part(
            parts[k],
            env,
        ) + filled_parts(parts.skip(k + 1), env));
    }
}

/// Nothing is expanded that the value does not name: what a variable that it does not name is
/// set to makes no difference, even where a value that was filled in names that variable.
pub proof fn law_only_named_variables_matter(
    value: Seq<char>,
    in_braces: Seq<Seq<Option<Seq<char>>>>,
    bare: Seq<Seq<Option<Seq<char>>>>,
    env: Seq<(Seq<char>, Seq<char>)>,
    other: Seq<(Seq<char>, Seq<char>)>,
)
    requires
        forall|name: Seq<char>|
            names_variable(in_braces, name) || names_variable(bare, name) ==> (#[trigger] env_value(
                env,
                name,
            )) == env_value(other, name),
    ensures
        substituted(value, in_braces, bare, env) == substituted(value, in_braces, bare, other),
{
    let b = named_places(in_braces);
    let s = named_places(bare);
    assert forall|i: int| 0 <= i < b.len() implies env_value(env, (#[trigger] b[i]).1) == env_value(
        other,
        b[i].1,
    ) by {
        assert(names_variable(in_braces, b[i].1));
    }
    assert forall|i: int| 0 <= i < s.len() implies env_value(env, (#[trigger] s[i]).1) == env_value(
        other,
        s[i].1,
    ) by {
        assert(names_variable(bare, s[i].1));
    }
    lemma_same_to_fill(value, false, b, env, other);
    lemma_same_to_fill(value, true, s, env, other);
    lemma_places_among(value, false, b, env);
    lemma_places_among(value, true, s, env);
    let mm = marks(value, in_braces, bare, env);
    assert forall|i: int| 0 <= i < mm.len() implies env_value(env, (#[trigger] mm[i]).1)
        == env_value(other, mm[i].1) by {
        let h = places_to_fill(value, false, b, env);
        let t = places_to_fill(value, true, s, env);
        if i < h.len() {
            assert(mm[i] == h[i]);
            assert(b.contains(h[i]));
        } else {
            assert(mm[i] == t[i - h.len()]);
            assert(s.contains(t[i - h.len()]));
        }
    }
    lemma_parts_agree(value, 0, mm, env, other);
}

proof fn lemma_places_among(
    value: Seq<char>,
    bare: bool,
    places: Seq<(Seq<char>, Seq<char>)>,
    env: Seq<(Seq<char>, Seq<char>)>,
)
    ensures
        forall|i: int|
            0 <= i < places_to_fill(value, bare, places, env).len() ==> places.contains(
                #[trigger] places_to_fill(value, bare, places, env)[i],
            ),
    decreases places.len(),
{
    if places.len() > 0 {
        let head = places_to_fill(value, bare, places.drop_last(), env);
        let all = places_to_fill(value, bare, places, env);
        lemma_places_among(value, bare, places.drop_last(), env);
        assert forall|i: int| 0 <= i < all.len() implies places.contains(#[trigger] all[i]) by {
            if i < head.len() {
                assert(all[i] == head[i]);
                let j = choose|j: int|
                    0 <= j < places.drop_last().len() && places.drop_last()[j] == head[i];
                assert(places[j] == all[i]);
            } else {
                assert(places[places.len() - 1] == all[i]);
            }
        }
    }
}

proof fn lemma_mark_among(value: Seq<char>, at: int, marks: Seq<(Seq<char>, Seq<char>)>)
    ensures
        mark_at(value, at, marks) matches Some(m) ==> marks.contains(m),
    decreases marks.len(),
{
    if marks.len() > 0 {
        lemma_mark_among(value, at, marks.skip(1));
        if let Some(m) = mark_at(value, at, marks) {
            if marks[0].0.len() > 0 && occurs_at(value, marks[0].0, at) {
                assert(marks[0] == m);
            } else {
                let j = choose|j: int| 0 <= j < marks.skip(1).len() && marks.skip(1)[j] == m;
                assert(marks[j + 1] == m);
            }
        }
    }
}

proof fn lemma_parts_agree(
    value: Seq<char>,
    at: int,
    marks: Seq<(Seq<char>, Seq<char>)>,
    env: Seq<(Seq<char>, Seq<char>)>,
    other: Seq<(Seq<char>, Seq<char>)>,
)
    requires
        0 <= at,
        forall|i: int|
            0 <= i < marks.len() ==> env_value(env, (#[trigger] marks[i]).1) == env_value(
                other,
                marks[i].1,
            ),
    ensures
        filled_parts(parts_from(value, at, marks), env) == filled_parts(
            parts_from(value, at, marks),
            other,
        ),
    decreases value.len() - at,
{
    if at < value.len() {
        lemma_mark_at(value, at, marks);
        lemma_mark_among(value, at, marks);
        match mark_at(value, at, marks) {
            Some(m) => {
                let rest = parts_from(value, at + m.0.len(), marks);
                let part = ValuePart::Variable { written: m.0, name: m.1 };
                lemma_parts_agree(value, at + m.0.len(), marks, env, other);
                lemma_filled_first(part, rest, env);
                lemma_filled_first(part, rest, other);
            },
            None => {
                let rest = parts_from(value, at + 1, marks);
                let part = ValuePart::Text(seq![value[at]]);
                lemma_parts_agree(value, at + 1, marks, env, other);
                lemma_filled_first(part, rest, env);
                lemma_filled_first(part, rest, other);
            },
        }
    }
}

/// Where none of the variables that a value names is set, the value stays as it is.
pub proof fn law_unset_variables_stay(
    value: Seq<char>,
    in_braces: Seq<Seq<Option<Seq<char>>>>,
    bare: Seq<Seq<Option<Seq<char>>>>,
    env: Seq<(Seq<char>, Seq<char>)>,
)
    requires
        forall|name: Seq<char>|
            names_variable(in_braces, name) || names_variable(bare, name) ==> (#[trigger] env_value(
                env,
                name,
            )) is None,
    ensures
        substituted(value, in_braces, bare, env) == value,
{
    let none = Seq::<(Seq<char>, Seq<char>)>::empty();
    assert forall|name: Seq<char>|
        names_variable(in_braces, name) || names_variable(bare, name) implies (
    #[trigger] env_value(env, name)) == env_value(none, name) by {}
    law_only_named_variables_matter(value, in_braces, bare, env, none);
    lemma_parts_make_up(value, 0, marks(value, in_braces, bare, none));
    assert(value.skip(0) =~= value);
}

proof fn lemma_parts_make_up(value: Seq<char>, at: int, marks: Seq<(Seq<char>, Seq<char>)>)
    requires
        0 <= at <= value.len(),
    ensures
        filled_parts(parts_from(value, at, marks), Seq::empty()) == value.skip(at),
    decreases value.len() - at,
{
    let none = Seq::<(Seq<char>, Seq<char>)>::empty();
    if at >= value.len() {
        assert(value.skip(at) =~= Seq::empty());
    } else {
        lemma_mark_at(value, at, marks);
        match mark_at(value, at, marks) {
            Some(m) => {
                let rest = parts_from(value, at + m.0.len(), marks);
                lemma_parts_make_up(value, at + m.0.len(), marks);
                lemma_filled_first(ValuePart::Variable { written: m.0, name: m.1 }, rest, none);
                assert(value.skip(at) =~= m.0 + value.skip(at + m.0.len()));
            },
            None => {
                let rest = parts_from(value, at + 1, marks);
                lemma_parts_make_up(value, at + 1, marks);
                lemma_filled_first(ValuePart::Text(seq![value[at]]), rest, none);
                assert(value.skip(at) =~= seq![value[at]] + value.skip(at + 1));
            },
        }
    }
}

// ---------------------------------------------------------------------------
// The environment of an extension
// ---------------------------------------------------------------------------

/// What looking a secret up came to.
#[derive(Debug, PartialEq, Eq)]
pub enum SecretLookup {
    /// There is none.
    Missing,
    /// This is it.
    Found(String),
    /// What is there is no text.
    NotText,
    /// It could not be looked up, for this reason.
    Failed(String),
}

/// Whether a variable is set.
pub open spec fn is_set(env: Seq<(Seq<char>, Seq<char>)>, name: Seq<char>) -> bool {
    env_value(env, name) is Some
}

/// The next secret to look up: the first of the keys from `from` on that is not set.
pub fn next_secret(env: &Vec<(String, String)>, env_keys: &Vec<String>, from: usize) -> (r: Option<
    usize,
>)
    ensures
        match r {
            Some(k) => {
                &&& from <= k < env_keys@.len()
                &&& !is_set(pair_texts(env@), env_keys@[k as int]@)
                &&& forall|j: int|
                    from <= j < k ==> is_set(pair_texts(env@), (#[trigger] env_keys@[j])@)
            },
            None => forall|j: int|
                from <= j < env_keys@.len() ==> is_set(
                    pair_texts(env@),
                    (#[trigger] env_keys@[j])@,
                ),
        },
{
    let mut i: usize = from;
    while i < env_keys.len()
        invariant
            from <= i,
            forall|j: int| from <= j < i && j < env_keys@.len() ==> is_set(
                pair_texts(env@),
                (#[trigger] env_keys@[j])@,
            ),
        decreases env_keys@.len() - i,
    {
        if env_get(env, env_keys[i].as_str()).is_none() {
            return Some(i);
        }
        i = i + 1;
    }
    None
}

/// The environment after a secret was looked up: set where it was found, else as it was.
pub fn add_secret(env: &mut Vec<(String, String)>, key: &str, found: SecretLookup) -> (r: Result<
    (),
    String,
>)
    ensures
        match found {
            SecretLookup::Found(v) => r is Ok && pair_texts(final(env)@) == pair_texts(
                old(env)@,
            ).push((key@, v@)),
            SecretLookup::Failed(e) => {
                &&& r matches Err(m)
                &&& m@ == "Failed to fetch secret '"@ + key@ + "' from config: "@ + e@
                &&& final(env)@ == old(env)@
            },
            _ => r is Ok && final(env)@ == old(env)@,
        },
{
    match found {
        SecretLookup::Found(v) => {
            let ghost before = pair_texts(env@);
            let ghost vm = v@;
            env.push((key.to_owned(), v));
            assert(pair_texts(env@) =~= before.push((key@, vm)));
            Ok(())
        },
        SecretLookup::Failed(e) => {
            let mut m = cat3("Failed to fetch secret '", key, "' from config: ");
            m.append(e.as_str());
            Err(m)
        },
        _ => Ok(()),
    }
}

/// The environment of an extension: what it sets itself, and for each key that is not set yet the
/// secret, where there is one.
pub open spec fn merged_env(
    env: Seq<(Seq<char>, Seq<char>)>,
    keys: Seq<Seq<char>>,
    lookups: Seq<SecretLookup>,
) -> Result<Seq<(Seq<char>, Seq<char>)>, Seq<char>>
    decreases keys.len(),
{
    if keys.len() == 0 || lookups.len() == 0 {
        Ok(env)
    } else if is_set(env, keys[0]) {
        merged_env(env, keys.skip(1), lookups.skip(1))
    } else {
        match lookups[0] {
            SecretLookup::Found(v) => merged_env(
                env.push((keys[0], v@)),
                keys.skip(1),
                lookups.skip(1),
            ),
            SecretLookup::Failed(e) => Err(
                "Failed to fetch secret '"@ + keys[0] + "' from config: "@ + e@,
            ),
            _ => merged_env(env, keys.skip(1), lookups.skip(1)),
        }
    }
}

/// Gathers the environment of an extension. `lookups` holds, for each key, what looking it up
/// came to; of a key that is set already it is not looked at.
pub fn merge_environments(
    envs: &Vec<(String, String)>,
    env_keys: &Vec<String>,
    lookups: Vec<SecretLookup>,
) -> (r: Result<Vec<(String, String)>, String>)
    requires
        lookups@.len() == env_keys@.len(),
    ensures
        match merged_env(pair_texts(envs@), texts(env_keys@), lookups@) {
            Ok(m) => r matches Ok(v) && pair_texts(v@) == m,
            Err(m) => r matches Err(e) && e@ == m,
        },
{
    let ghost km = texts(env_keys@);
    let ghost lm = lookups@;
    let mut env = copy_env(envs);
    let mut rest = lookups;
    let mut i: usize = 0;
    assert(km.skip(0) =~= km && lm.skip(0) =~= lm);
    while i < env_keys.len()
        invariant
            km == texts(env_keys@),
            lm == lookups@,
            lm.len() == km.len(),
            i <= env_keys@.len(),
            rest@ == lm.skip(i as int),
            merged_env(pair_texts(env@), km.skip(i as int), lm.skip(i as int)) == merged_env(
                pair_texts(envs@),
                km,
                lm,
            ),
        decreases env_keys@.len() - i,
    {
        assert(km.skip(i as int)[0] == env_keys@[i as int]@);
        assert(km.skip(i as int).skip(1) =~= km.skip(i + 1));
        assert(lm.skip(i as int).skip(1) =~= lm.skip(i + 1));
        let found = rest.remove(0);
        assert(rest@ =~= lm.skip(i + 1));
        if env_get(&env, env_keys[i].as_str()).is_none() {
            match add_secret(&mut env, env_keys[i].as_str(), found) {
                Ok(_) => {},
                Err(e) => {
                    return Err(e);
                },
            }
        }
        i = i + 1;
    }
    Ok(env)
}

/// A copy of an environment.
pub fn copy_env(v: &Vec<(String, String)>) -> (r: Vec<(String, String)>)
    ensures
        pair_texts(r@) == pair_texts(v@),
{
    let mut out: Vec<(String, String)> = Vec::new();
    let mut i: usize = 0;
    while i < v.len()
        invariant
            i <= v@.len(),
            out@.len() == i,
            forall|j: int|
                0 <= j < i ==> (#[trigger] out@[j]).0@ == v@[j].0@ && out@[j].1@ == v@[j].1@,
        decreases v@.len() - i,
    {
        out.push((v[i].0.clone(), v[i].1.clone()));
        i = i + 1;
    }
    assert(pair_texts(out@) =~= pair_texts(v@));
    out
}

/// What an extension sets itself wins over the secrets.
pub proof fn law_own_variables_win(
    env: Seq<(Seq<char>, Seq<char>)>,
    keys: Seq<Seq<char>>,
    lookups: Seq<SecretLookup>,
    name: Seq<char>,
)
    requires
        is_set(env, name),
        merged_env(env, keys, lookups) is Ok,
    ensures
        env_value(merged_env(env, keys, lookups)->Ok_0, name) == env_value(env, name),
    decreases keys.len(),
{
    if keys.len() > 0 && lookups.len() > 0 {
        if is_set(env, keys[0]) {
            law_own_variables_win(env, keys.skip(1), lookups.skip(1), name);
        } else {
            match lookups[0] {
                SecretLookup::Found(v) => {
                    lemma_env_push(env, (keys[0], v@), name);
                    law_own_variables_win(
                        env.push((keys[0], v@)),
                        keys.skip(1),
                        lookups.skip(1),
                        name,
                    );
                },
                SecretLookup::Failed(e) => {},
                _ => {
                    law_own_variables_win(env, keys.skip(1), lookups.skip(1), name);
                },
            }
        }
    }
}

/// A variable at the end does not change what is set before it.
pub proof fn lemma_env_push(
    env: Seq<(Seq<char>, Seq<char>)>,
    m: (Seq<char>, Seq<char>),
    name: Seq<char>,
)
    ensures
        env_value(env.push(m), name) == match env_value(env, name) {
            Some(v) => Some(v),
            None => if m.0 == name {
                Some(m.1)
            } else {
                None
            },
        },
    decreases env.len(),
{
    let all = env.push(m);
    if env.len() == 0 {
        assert(all.skip(1) =~= Seq::empty());
        assert(env_value(all.skip(1), name) is None);
    } else {
        assert(all.skip(1) =~= env.skip(1).push(m));
        lemma_env_push(env.skip(1), m, name);
    }
}

proof fn lemma_unmarked_stretch(
    value: Seq<char>,
    at: int,
    upto: int,
    marks: Seq<(Seq<char>, Seq<char>)>,
    env: Seq<(Seq<char>, Seq<char>)>,
)
    requires
        0 <= at <= upto <= value.len(),
        forall|j: int| at <= j < upto ==> (#[trigger] mark_at(value, j, marks)) is None,
    ensures
        filled_parts(parts_from(value, at, marks), env) == value.subrange(at, upto) + filled_parts(
            parts_from(value, upto, marks),
            env,
        ),
    decreases upto - at,
{
    let rest = filled_parts(parts_from(value, upto, marks), env);
    if at < upto {
        assert(mark_at(value, at, marks) is None);
        lemma_unmarked_stretch(value, at + 1, upto, marks, env);
        let tail = parts_from(value, at + 1, marks);
        let parts = parts_from(value, at, marks);
        assert(parts =~= seq![ValuePart::Text(seq![value[at]])] + tail);
        assert(parts.skip(1) =~= tail);
        assert(seq![value[at]] + (value.subrange(at + 1, upto) + rest) =~= value.subrange(at, upto)
            + rest);
    } else {
        assert(value.subrange(at, upto) + rest =~= rest);
    }
}

proof fn lemma_one_mark(value: Seq<char>, at: int, mark: (Seq<char>, Seq<char>))
    ensures
        mark_at(value, at, seq![mark]) == if mark.0.len() > 0 && occurs_at(value, mark.0, at) {
            Some(mark)
        } else {
            None
        },
{
    reveal_with_fuel(mark_at, 2);
    assert(seq![mark].skip(1) =~= Seq::empty());
}

/// A variable that is set is filled in where the value names it, and all around it stays: of a
/// value that names one variable at one place, only that place changes. The two forms differ only
/// where the value also names a bare variable in braces.
pub proof fn law_set_variables_are_filled_in(
    before: Seq<char>,
    written: Seq<char>,
    after: Seq<char>,
    name: Seq<char>,
    v: Seq<char>,
    bare: bool,
    env: Seq<(Seq<char>, Seq<char>)>,
)
    requires
        written.len() > 0,
        env_value(env, name) == Some(v),
        forall|i: int|
            i != before.len() ==> !#[trigger] occurs_at(before + written + after, written, i),
        bare ==> !has_text(before + written + after, braced(name)),
    ensures
        ({
            let found = seq![seq![Some(written), Some(name)]];
            let none = Seq::<Seq<Option<Seq<char>>>>::empty();
            substituted(
                before + written + after,
                if bare {
                    none
                } else {
                    found
                },
                if bare {
                    found
                } else {
                    none
                },
                env,
            ) == before + v + after
        }),
{
    let value = before + written + after;
    let found = seq![seq![Some(written), Some(name)]];
    let none = Seq::<Seq<Option<Seq<char>>>>::empty();
    let mark = (written, name);
    let list = seq![mark];
    assert(found.drop_last() =~= none);
    assert(found.last()[0] == Some(written) && found.last()[1] == Some(name));
    assert(named_places(none) =~= Seq::empty());
    assert(named_places(found) =~= list);
    assert(list.drop_last() =~= Seq::empty());
    assert(list.last() == mark);
    assert(places_to_fill(value, bare, Seq::empty(), env) =~= Seq::empty());
    assert(places_to_fill(value, !bare, Seq::empty(), env) =~= Seq::empty());
    assert(places_to_fill(value, bare, list, env) =~= list);
    let all = marks(
        value,
        if bare {
            none
        } else {
            found
        },
        if bare {
            found
        } else {
            none
        },
        env,
    );
    assert(all =~= list);
    let at = before.len() as int;
    let end = at + written.len();
    assert(value.subrange(at, end) =~= written);
    assert(occurs_at(value, written, at));
    assert forall|j: int| 0 <= j < value.len() && j != at implies (#[trigger] mark_at(
        value,
        j,
        list,
    )) is None by {
        lemma_one_mark(value, j, mark);
    }
    lemma_one_mark(value, at, mark);
    lemma_unmarked_stretch(value, 0, at, list, env);
    lemma_unmarked_stretch(value, end, value.len() as int, list, env);
    let tail = parts_from(value, end, list);
    let parts = parts_from(value, at, list);
    assert(parts =~= seq![ValuePart::Variable { written, name }] + tail);
    assert(parts.skip(1) =~= tail);
    assert(parts[0] == (ValuePart::Variable { written, name }));
    assert(filled_parts(parts, env) == v + filled_parts(tail, env));
    assert(parts_from(value, value.len() as int, list) =~= Seq::empty());
    assert(filled_parts(Seq::<ValuePart>::empty(), env) =~= Seq::empty());
    assert(filled_parts(tail, env) =~= after);
    assert(substituted(
        value,
        if bare {
            none
        } else {
            found
        },
        if bare {
            found
        } else {
            none
        },
        env,
    ) =~= before + v + after);
}

/// Which places are filled in: those whose variable is set, but for a bare one that the value names
/// in braces too.
pub proof fn law_which_places_are_filled(
    value: Seq<char>,
    bare: bool,
    places: Seq<(Seq<char>, Seq<char>)>,
    env: Seq<(Seq<char>, Seq<char>)>,
    p: (Seq<char>, Seq<char>),
)
    ensures
        places_to_fill(value, bare, places, env).contains(p) <==> places.contains(p) && is_set(
            env,
            p.1,
        ) && !(bare && has_text(value, "${"@ + p.1 + "}"@)),
    decreases places.len(),
{
    if places.len() > 0 {
        law_which_places_are_filled(value, bare, places.drop_last(), env, p);
        crate::seqs::lemma_contains_last(places, p);
        crate::seqs::lemma_contains_push(
            places_to_fill(value, bare, places.drop_last(), env),
            places.last(),
            p,
        );
    }
}

/// A variable has the value that is set first, and another variable makes no difference to it.
pub proof fn law_variables_are_read_by_name(
    env: Seq<(Seq<char>, Seq<char>)>,
    name: Seq<char>,
    v: Seq<char>,
    other: Seq<char>,
)
    ensures
        env_value(seq![(name, v)] + env, name) == Some(v),
        other != name ==> env_value(seq![(name, v)] + env, other) == env_value(env, other),
        env_value(env.push((name, v)), name) == if is_set(env, name) {
            env_value(env, name)
        } else {
            Some(v)
        },
        other != name ==> env_value(env.push((name, v)), other) == env_value(env, other),
    decreases env.len(),
{
    assert((seq![(name, v)] + env).skip(1) =~= env);
    let more = env.push((name, v));
    if env.len() > 0 {
        law_variables_are_read_by_name(env.skip(1), name, v, other);
        assert(more.skip(1) =~= env.skip(1).push((name, v)));
    } else {
        assert(more.skip(1) =~= Seq::empty());
        reveal_with_fuel(env_value, 2);
    }
}

/// Every key that is not set takes its secret, where that was found, and stays unset where there is
/// none.
pub proof fn law_secrets_fill_what_is_not_set(
    env: Seq<(Seq<char>, Seq<char>)>,
    keys: Seq<Seq<char>>,
    lookups: Seq<SecretLookup>,
    k: int,
)
    requires
        keys.len() == lookups.len(),
        0 <= k < keys.len(),
        !is_set(env, keys[k]),
        forall|i: int| 0 <= i < keys.len() && i != k ==> (#[trigger] keys[i]) != keys[k],
        merged_env(env, keys, lookups) is Ok,
    ensures
        env_value(merged_env(env, keys, lookups)->Ok_0, keys[k]) == match lookups[k] {
            SecretLookup::Found(v) => Some(v@),
            _ => None,
        },
        !(lookups[k] is Failed),
    decreases keys.len(),
{
    let rest = keys.skip(1);
    let more = lookups.skip(1);
    if k == 0 {
        let next = match lookups[0] {
            SecretLookup::Found(v) => env.push((keys[0], v@)),
            _ => env,
        };
        if lookups[0] is Found {
            law_variables_are_read_by_name(env, keys[0], lookups[0]->Found_0@, keys[0]);
            law_own_variables_win(next, rest, more, keys[0]);
        } else {
            lemma_unnamed_stay_unset(env, rest, more, keys[0]);
        }
    } else {
        assert(keys[0] != keys[k]);
        assert(rest[k - 1] == keys[k]);
        assert(more[k - 1] == lookups[k]);
        assert forall|i: int| 0 <= i < rest.len() && i != k - 1 implies (#[trigger] rest[i])
            != rest[k - 1] by {
            assert(rest[i] == keys[i + 1]);
        }
        if !is_set(env, keys[0]) && lookups[0] is Found {
            law_variables_are_read_by_name(env, keys[0], lookups[0]->Found_0@, keys[k]);
            law_secrets_fill_what_is_not_set(
                env.push((keys[0], lookups[0]->Found_0@)),
                rest,
                more,
                k - 1,
            );
        } else {
            law_secrets_fill_what_is_not_set(env, rest, more, k - 1);
        }
    }
}

proof fn lemma_unnamed_stay_unset(
    env: Seq<(Seq<char>, Seq<char>)>,
    keys: Seq<Seq<char>>,
    lookups: Seq<SecretLookup>,
    name: Seq<char>,
)
    requires
        !is_set(env, name),
        forall|i: int| 0 <= i < keys.len() ==> (#[trigger] keys[i]) != name,
        merged_env(env, keys, lookups) is Ok,
    ensures
        env_value(merged_env(env, keys, lookups)->Ok_0, name) is None,
    decreases keys.len(),
{
    if keys.len() > 0 && lookups.len() > 0 {
        assert(keys[0] != name);
        assert forall|i: int| 0 <= i < keys.skip(1).len() implies (#[trigger] keys.skip(1)[i])
            != name by {
            assert(keys.skip(1)[i] == keys[i + 1]);
        }
        if !is_set(env, keys[0]) && lookups[0] is Found {
            law_variables_are_read_by_name(env, keys[0], lookups[0]->Found_0@, name);
            lemma_unnamed_stay_unset(
                env.push((keys[0], lookups[0]->Found_0@)),
                keys.skip(1),
                lookups.skip(1),
                name,
            );
        } else {
            lemma_unnamed_stay_unset(env, keys.skip(1), lookups.skip(1), name);
        }
    }
}

/// Gathering fails only where looking up a secret failed, and not for a key that is set already.
pub proof fn law_gathering_fails_only_for_failed_lookups(
    env: Seq<(Seq<char>, Seq<char>)>,
    keys: Seq<Seq<char>>,
    lookups: Seq<SecretLookup>,
)
    requires
        keys.len() == lookups.len(),
    ensures
        (forall|i: int|
            0 <= i < keys.len() ==> !((#[trigger] lookups[i]) is Failed) || is_set(env, keys[i]))
            ==> merged_env(env, keys, lookups) is Ok,
        keys.len() > 0 && lookups[0] is Failed && !is_set(env, keys[0]) ==> merged_env(
            env,
            keys,
            lookups,
        ) is Err,
    decreases keys.len(),
{
    if keys.len() > 0 {
        let rest = keys.skip(1);
        let more = lookups.skip(1);
        let next = if !is_set(env, keys[0]) && lookups[0] is Found {
            env.push((keys[0], lookups[0]->Found_0@))
        } else {
            env
        };
        law_gathering_fails_only_for_failed_lookups(next, rest, more);
        if forall|i: int|
            0 <= i < keys.len() ==> !((#[trigger] lookups[i]) is Failed) || is_set(env, keys[i]) {
            assert(!(lookups[0] is Failed) || is_set(env, keys[0]));
            assert forall|i: int| 0 <= i < rest.len() implies !((#[trigger] more[i]) is Failed)
                || is_set(next, rest[i]) by {
                assert(more[i] == lookups[i + 1]);
                assert(rest[i] == keys[i + 1]);
                if !is_set(env, keys[0]) && lookups[0] is Found {
                    law_variables_are_read_by_name(env, keys[0], lookups[0]->Found_0@, rest[i]);
                }
            }
        }
    }
}

/// A match names a variable where it has both its own text and the name, and then the two are
/// taken as they are; every such match is a place, in order.
pub proof fn law_matches_are_places(
    found: Seq<Seq<Option<Seq<char>>>>,
    written: Seq<char>,
    name: Seq<char>,
    bad: Seq<Option<Seq<char>>>,
)
    requires
        written.len() > 0,
        bad.len() < 2 || bad[0] is None || bad[1] is None,
    ensures
        named_places(found.push(seq![Some(written), Some(name)])) == named_places(found).push(
            (written, name),
        ),
        named_places(found.push(bad)) == named_places(found),
{
    let good = seq![Some(written), Some(name)];
    assert(found.push(good).drop_last() =~= found);
    assert(found.push(bad).drop_last() =~= found);
    assert(good[0] == Some(written) && good[1] == Some(name));
}

} // verus!

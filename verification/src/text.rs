//! Operations on strings, stated over sequences of characters.

use vstd::prelude::*;
use vstd::string::*;

verus! {

// ---------------------------------------------------------------------------
// Single characters and the parts of std that classify them
// ---------------------------------------------------------------------------

/// `String::push`: the character goes to the end of the string.
pub assume_specification[ String::push ](s: &mut String, c: char)
    ensures
        final(s)@ == old(s)@.push(c),
;

/// `str == str`: two string slices are equal when they hold the same characters.
#[verifier::external_body]
pub(crate) fn str_eq(a: &str, b: &str) -> (r: bool)
    ensures
        r == (a@ == b@),
{
    a == b
}

/// Whether a character has the Unicode `White_Space` property.
pub open spec fn white_space(c: char) -> bool {
    let n = c as u32;
    ||| 0x09 <= n <= 0x0d
    ||| n == 0x20
    ||| n == 0x85
    ||| n == 0xa0
    ||| n == 0x1680
    ||| 0x2000 <= n <= 0x200a
    ||| n == 0x2028
    ||| n == 0x2029
    ||| n == 0x202f
    ||| n == 0x205f
    ||| n == 0x3000
}

/// `char::is_whitespace`: whether a character has the Unicode `White_Space` property.
pub assume_specification[ char::is_whitespace ](c: char) -> (r: bool)
    ensures
        r == white_space(c),
;

/// The Unicode lower-case form of a text.
pub uninterp spec fn lowercase(s: Seq<char>) -> Seq<char>;

/// `str::to_lowercase`: the result depends on the text alone.
pub assume_specification[ str::to_lowercase ](s: &str) -> (r: String)
    ensures
        r@ == lowercase(s@),
;

/// The Unicode upper-case form of a text.
pub uninterp spec fn uppercase(s: Seq<char>) -> Seq<char>;

/// `str::to_uppercase`: the result depends on the text alone.
pub assume_specification[ str::to_uppercase ](s: &str) -> (r: String)
    ensures
        r@ == uppercase(s@),
;

pub open spec fn is_digit(c: char) -> bool {
    '0' <= c && c <= '9'
}

pub open spec fn is_lower(c: char) -> bool {
    'a' <= c && c <= 'z'
}

// ---------------------------------------------------------------------------
// Strings and vectors of characters
// ---------------------------------------------------------------------------

/// The characters of a string, in order.
pub fn chars_of(s: &str) -> (v: Vec<char>)
    ensures
        v@ == s@,
{
    let mut v: Vec<char> = Vec::new();
    for c in it: s.chars()
        invariant
            v@ == it.seq().take(it.index() as int),
            it.seq() == s@,
    {
        v.push(c);
    }
    v
}

/// The string that holds the characters of `v` from `from` up to `to`.
pub fn string_of(v: &Vec<char>, from: usize, to: usize) -> (s: String)
    requires
        from <= to <= v@.len(),
    ensures
        s@ == v@.subrange(from as int, to as int),
{
    let mut s = String::new();
    let mut i: usize = from;
    while i < to
        invariant
            from <= i <= to <= v@.len(),
            s@ == v@.subrange(from as int, i as int),
        decreases to - i,
    {
        s.push(v[i]);
        i = i + 1;
    }
    s
}

/// `a` followed by `b`.
pub fn cat(a: &str, b: &str) -> (s: String)
    ensures
        s@ == a@ + b@,
{
    let mut s = a.to_owned();
    s.append(b);
    s
}

/// `a`, `b` and `c` one after the other.
pub fn cat3(a: &str, b: &str, c: &str) -> (s: String)
    ensures
        s@ == a@ + b@ + c@,
{
    let mut s = a.to_owned();
    s.append(b);
    s.append(c);
    s
}

/// `a`, `b`, `c`, `d` and `e` one after the other.
pub fn cat5(a: &str, b: &str, c: &str, d: &str, e: &str) -> (s: String)
    ensures
        s@ == a@ + b@ + c@ + d@ + e@,
{
    let mut s = a.to_owned();
    s.append(b);
    s.append(c);
    s.append(d);
    s.append(e);
    s
}

// ---------------------------------------------------------------------------
// Views of collections of strings
// ---------------------------------------------------------------------------

/// The texts of a sequence of strings.
pub open spec fn texts(v: Seq<String>) -> Seq<Seq<char>> {
    Seq::new(v.len(), |i: int| v[i]@)
}

/// The text of an optional string.
pub open spec fn text_opt(o: Option<String>) -> Option<Seq<char>> {
    match o {
        Some(s) => Some(s@),
        None => None,
    }
}

/// Whether `x` is one of the strings of `v`.
pub fn contains_string(v: &Vec<String>, x: &str) -> (r: bool)
    ensures
        r == texts(v@).contains(x@),
{
    let mut i: usize = 0;
    while i < v.len()
        invariant
            i <= v@.len(),
            forall|j: int| 0 <= j < i ==> v@[j]@ != x@,
        decreases v@.len() - i,
    {
        if str_eq(v[i].as_str(), x) {
            assert(texts(v@)[i as int] == x@);
            return true;
        }
        i = i + 1;
    }
    assert(forall|j: int| 0 <= j < v@.len() ==> texts(v@)[j] == v@[j]@);
    false
}

/// Whether two texts are equal, or neither is there.
pub fn same_text(a: &Option<String>, b: &Option<String>) -> (r: bool)
    ensures
        r == (text_opt(*a) == text_opt(*b)),
{
    match (a, b) {
        (Some(x), Some(y)) => str_eq(x.as_str(), y.as_str()),
        (None, None) => true,
        _ => false,
    }
}

/// Whether two lists hold equal texts.
pub fn same_strings(a: &Vec<String>, b: &Vec<String>) -> (r: bool)
    ensures
        r == (texts(a@) == texts(b@)),
{
    if a.len() != b.len() {
        assert(texts(a@).len() != texts(b@).len());
        return false;
    }
    let mut i: usize = 0;
    while i < a.len()
        invariant
            i <= a@.len(),
            a@.len() == b@.len(),
            forall|j: int| 0 <= j < i ==> (#[trigger] texts(a@)[j]) == texts(b@)[j],
        decreases a@.len() - i,
    {
        if !str_eq(a[i].as_str(), b[i].as_str()) {
            assert(texts(a@)[i as int] != texts(b@)[i as int]);
            return false;
        }
        i = i + 1;
    }
    assert(texts(a@) =~= texts(b@));
    true
}

/// A copy of a vector of strings.
pub fn clone_strings(v: &Vec<String>) -> (r: Vec<String>)
    ensures
        r@ == v@,
{
    let mut r: Vec<String> = Vec::new();
    let mut i: usize = 0;
    while i < v.len()
        invariant
            i <= v@.len(),
            r@ == v@.take(i as int),
        decreases v@.len() - i,
    {
        r.push(v[i].clone());
        i = i + 1;
    }
    r
}

// ---------------------------------------------------------------------------
// Searching
// ---------------------------------------------------------------------------

/// Whether `p` stands in `s` at position `i`.
pub open spec fn occurs_at(s: Seq<char>, p: Seq<char>, i: int) -> bool {
    0 <= i && i + p.len() <= s.len() && s.subrange(i, i + p.len()) == p
}

/// Whether `p` stands anywhere in `s`.
pub open spec fn has_text(s: Seq<char>, p: Seq<char>) -> bool {
    exists|i: int| #[trigger] occurs_at(s, p, i)
}

/// A text stands in what was put together with it.
pub proof fn lemma_has_text(before: Seq<char>, p: Seq<char>, after: Seq<char>)
    ensures
        has_text(before + p + after, p),
        has_text(before + p, p),
        has_text(p + after, p),
{
    let n = before.len() as int;
    let all = before + p + after;
    assert(all.subrange(n, n + p.len()) =~= p);
    assert(occurs_at(all, p, n));
    assert((before + p).subrange(n, n + p.len()) =~= p);
    assert(occurs_at(before + p, p, n));
    assert((p + after).subrange(0, p.len() as int) =~= p);
    assert(occurs_at(p + after, p, 0));
}

/// What stands in a text stands in every text that holds it.
pub proof fn lemma_in_longer(a: Seq<char>, s: Seq<char>, b: Seq<char>, p: Seq<char>)
    requires
        has_text(s, p),
    ensures
        has_text(a + s + b, p),
{
    let i = choose|i: int| #[trigger] occurs_at(s, p, i);
    let all = a + s + b;
    let k: int = a.len() + i;
    assert(all.subrange(k as int, k + p.len()) =~= s.subrange(i, i + p.len()));
    assert(occurs_at(all, p, k));
}

/// What stands in a part of a text stands in the text.
pub proof fn lemma_within(s: Seq<char>, part: Seq<char>, p: Seq<char>)
    requires
        has_text(s, part),
        has_text(part, p),
    ensures
        has_text(s, p),
{
    let i = choose|i: int| #[trigger] occurs_at(s, part, i);
    let j = choose|j: int| #[trigger] occurs_at(part, p, j);
    let k: int = i + j;
    assert(s.subrange(k, k + p.len()) =~= part.subrange(j, j + p.len()));
    assert(occurs_at(s, p, k));
}

/// Whether `s` begins with `p`.
pub open spec fn begins(s: Seq<char>, p: Seq<char>) -> bool {
    occurs_at(s, p, 0)
}

/// Whether `s` ends with `p`.
pub open spec fn ends(s: Seq<char>, p: Seq<char>) -> bool {
    occurs_at(s, p, s.len() - p.len())
}

/// Whether `p` stands in `s` at position `i`.
pub fn matches_at(s: &Vec<char>, p: &Vec<char>, i: usize) -> (r: bool)
    requires
        i <= s@.len(),
    ensures
        r == occurs_at(s@, p@, i as int),
{
    let n: usize = s.len();
    if p.len() > n - i {
        return false;
    }
    let mut k: usize = 0;
    while k < p.len()
        invariant
            k <= p@.len(),
            n == s@.len(),
            i + p@.len() <= n,
            forall|j: int| 0 <= j < k ==> s@[i + j] == p@[j],
        decreases p@.len() - k,
    {
        if s[i + k] != p[k] {
            assert(s@.subrange(i as int, i + p@.len())[k as int] != p@[k as int]);
            return false;
        }
        k = k + 1;
    }
    assert(s@.subrange(i as int, i + p@.len()) =~= p@);
    true
}

/// The first position at or after `from` where `p` stands in `s`.
pub fn find_from(s: &Vec<char>, p: &Vec<char>, from: usize) -> (r: Option<usize>)
    requires
        from <= s@.len(),
    ensures
        match r {
            Some(k) => {
                &&& from <= k
                &&& occurs_at(s@, p@, k as int)
                &&& forall|j: int| from <= j < k ==> !#[trigger] occurs_at(s@, p@, j)
            },
            None => forall|j: int| from <= j ==> !#[trigger] occurs_at(s@, p@, j),
        },
{
    let mut i: usize = from;
    while i < s.len()
        invariant
            from <= i <= s@.len(),
            forall|j: int| from <= j < i ==> !#[trigger] occurs_at(s@, p@, j),
        decreases s@.len() - i,
    {
        if matches_at(s, p, i) {
            return Some(i);
        }
        i = i + 1;
    }
    if matches_at(s, p, i) {
        return Some(i);
    }
    None
}

/// Whether `p` stands anywhere in `s`.
pub fn contains(s: &str, p: &str) -> (r: bool)
    ensures
        r == has_text(s@, p@),
{
    let sv = chars_of(s);
    let pv = chars_of(p);
    match find_from(&sv, &pv, 0) {
        Some(_) => true,
        None => false,
    }
}

/// Whether `s` begins with `p`.
pub fn starts_with(s: &str, p: &str) -> (r: bool)
    ensures
        r == begins(s@, p@),
{
    let sv = chars_of(s);
    let pv = chars_of(p);
    matches_at(&sv, &pv, 0)
}

/// Whether `s` ends with `p`.
pub fn ends_with(s: &str, p: &str) -> (r: bool)
    ensures
        r == ends(s@, p@),
{
    let sv = chars_of(s);
    let pv = chars_of(p);
    if pv.len() > sv.len() {
        return false;
    }
    matches_at(&sv, &pv, sv.len() - pv.len())
}

/// What follows the prefix `p` of `s`; nothing where `s` does not begin with `p`.
pub open spec fn after_prefix(s: Seq<char>, p: Seq<char>) -> Option<Seq<char>> {
    if begins(s, p) {
        Some(s.skip(p.len() as int))
    } else {
        None
    }
}

/// What follows the prefix `p` of `s`; nothing where `s` does not begin with `p`.
pub fn strip_prefix(s: &str, p: &str) -> (r: Option<String>)
    ensures
        text_opt(r) == after_prefix(s@, p@),
{
    let sv = chars_of(s);
    let pv = chars_of(p);
    if matches_at(&sv, &pv, 0) {
        let rest = string_of(&sv, pv.len(), sv.len());
        assert(rest@ =~= s@.skip(p@.len() as int));
        Some(rest)
    } else {
        None
    }
}

/// What stands before the first `sep` in `s` and what stands after it.
pub open spec fn split_once_at(s: Seq<char>, sep: Seq<char>) -> Option<(Seq<char>, Seq<char>)> {
    if has_text(s, sep) {
        let k = first_at(s, sep);
        Some((s.take(k), s.skip(k + sep.len())))
    } else {
        None
    }
}

/// The first position of `p` in `s`.
pub open spec fn first_at(s: Seq<char>, p: Seq<char>) -> int {
    choose|k: int| occurs_at(s, p, k) && forall|j: int| 0 <= j < k ==> !#[trigger] occurs_at(s, p, j)
}

/// There is one first position.
pub proof fn lemma_first_at(s: Seq<char>, p: Seq<char>, k: int)
    requires
        occurs_at(s, p, k),
        forall|j: int| 0 <= j < k ==> !#[trigger] occurs_at(s, p, j),
    ensures
        first_at(s, p) == k,
{
    let c = first_at(s, p);
    assert(occurs_at(s, p, c) && forall|j: int| 0 <= j < c ==> !#[trigger] occurs_at(s, p, j));
    if c < k {
        assert(!occurs_at(s, p, c));
    }
    if k < c {
        assert(!occurs_at(s, p, k));
    }
}

/// The two parts of a split, with what stood between them, are the whole text.
pub proof fn lemma_split_once(s: Seq<char>, sep: Seq<char>)
    requires
        split_once_at(s, sep) is Some,
    ensures
        split_once_at(s, sep) matches Some(p) && p.0 + sep + p.1 == s,
{
    lemma_first_exists(s, sep);
    lemma_put_together(s, sep, first_at(s, sep));
}

proof fn lemma_put_together(s: Seq<char>, p: Seq<char>, k: int)
    requires
        occurs_at(s, p, k),
    ensures
        s.take(k) + p + s.skip(k + p.len()) == s,
{
    let whole = s.take(k) + p + s.skip(k + p.len());
    assert(whole.len() == s.len());
    assert forall|i: int| 0 <= i < s.len() implies whole[i] == s[i] by {
        if k <= i < k + p.len() {
            assert(s.subrange(k, k + p.len())[i - k] == s[i]);
        }
    }
    assert(whole =~= s);
}

proof fn lemma_first_exists(s: Seq<char>, p: Seq<char>)
    requires
        has_text(s, p),
    ensures
        occurs_at(s, p, first_at(s, p)),
{
    let k = choose|k: int| #[trigger] occurs_at(s, p, k);
    lemma_first_below(s, p, k);
}

proof fn lemma_first_below(s: Seq<char>, p: Seq<char>, k: int)
    requires
        occurs_at(s, p, k),
    ensures
        occurs_at(s, p, first_at(s, p)),
    decreases k,
{
    if exists|j: int| j < k && #[trigger] occurs_at(s, p, j) {
        let j = choose|j: int| j < k && #[trigger] occurs_at(s, p, j);
        lemma_first_below(s, p, j);
    } else {
        assert(forall|j: int| j < k ==> !#[trigger] occurs_at(s, p, j));
        lemma_first_at(s, p, k);
    }
}

/// What stands before the first `sep` in `s` and what stands after it.
pub fn split_once(s: &str, sep: &str) -> (r: Option<(String, String)>)
    ensures
        match r {
            Some(p) => split_once_at(s@, sep@) == Some((p.0@, p.1@)),
            None => split_once_at(s@, sep@) is None,
        },
{
    let sv = chars_of(s);
    let pv = chars_of(sep);
    match find_from(&sv, &pv, 0) {
        Some(k) => {
            proof {
                lemma_first_at(s@, sep@, k as int);
            }
            let n: usize = sv.len();
            let head = string_of(&sv, 0, k);
            let tail = string_of(&sv, k + pv.len(), n);
            assert(head@ =~= s@.take(k as int));
            assert(tail@ =~= s@.skip(k + sep@.len()));
            Some((head, tail))
        },
        None => None,
    }
}

/// The last position of `p` in `s`.
pub open spec fn last_at(s: Seq<char>, p: Seq<char>) -> int {
    choose|k: int| occurs_at(s, p, k) && forall|j: int| k < j ==> !#[trigger] occurs_at(s, p, j)
}

/// What follows the last `sep` in `s`; all of `s` where there is none.
pub open spec fn after_last_of(s: Seq<char>, sep: Seq<char>) -> Seq<char> {
    if has_text(s, sep) {
        s.skip(last_at(s, sep) + sep.len())
    } else {
        s
    }
}

/// What follows the last `sep` in `s`; all of `s` where there is none.
pub fn after_last(s: &str, sep: &str) -> (r: String)
    ensures
        r@ == after_last_of(s@, sep@),
{
    let sv = chars_of(s);
    let pv = chars_of(sep);
    let n: usize = sv.len();
    if pv.len() > n {
        assert(forall|j: int| !#[trigger] occurs_at(s@, sep@, j));
        return s.to_owned();
    }
    let mut i: usize = n - pv.len();
    while i > 0 && !matches_at(&sv, &pv, i)
        invariant
            sv@ == s@,
            pv@ == sep@,
            n == sv@.len(),
            i + pv@.len() <= n,
            forall|j: int| i < j ==> !#[trigger] occurs_at(s@, sep@, j),
        decreases i,
    {
        i = i - 1;
    }
    if matches_at(&sv, &pv, i) {
        proof {
            let c = last_at(s@, sep@);
            assert(occurs_at(s@, sep@, i as int));
            assert(occurs_at(s@, sep@, c) && forall|j: int|
                c < j ==> !#[trigger] occurs_at(s@, sep@, j));
            assert(c == i);
        }
        let rest = string_of(&sv, i + pv.len(), n);
        assert(rest@ =~= s@.skip(i + sep@.len()));
        rest
    } else {
        s.to_owned()
    }
}

// ---------------------------------------------------------------------------
// Replacing
// ---------------------------------------------------------------------------

/// `s` with `to` in place of each `from`, taken from the left and not overlapping.
pub open spec fn replaced(s: Seq<char>, from: Seq<char>, to: Seq<char>) -> Seq<char>
    decreases s.len(),
{
    if s.len() == 0 || from.len() == 0 {
        s
    } else if begins(s, from) {
        to + replaced(s.skip(from.len() as int), from, to)
    } else {
        seq![s[0]] + replaced(s.skip(1), from, to)
    }
}

/// `s` with `to` in place of each `from`, taken from the left and not overlapping.
pub fn replace(s: &str, from: &str, to: &str) -> (r: String)
    requires
        from@.len() > 0,
    ensures
        r@ == replaced(s@, from@, to@),
{
    let sv = chars_of(s);
    let fv = chars_of(from);
    let mut out = String::new();
    let mut i: usize = 0;
    assert(s@.skip(0) =~= s@);
    while i < sv.len()
        invariant
            sv@ == s@,
            fv@ == from@,
            from@.len() > 0,
            i <= sv@.len(),
            out@ + replaced(s@.skip(i as int), from@, to@) == replaced(s@, from@, to@),
        decreases sv@.len() - i,
    {
        let ghost rest = s@.skip(i as int);
        let hit = matches_at(&sv, &fv, i);
        proof {
            if occurs_at(s@, from@, i as int) {
                assert(rest.subrange(0, from@.len() as int) =~= s@.subrange(
                    i as int,
                    i + from@.len(),
                ));
            }
            if begins(rest, from@) {
                assert(s@.subrange(i as int, i + from@.len()) =~= rest.subrange(
                    0,
                    from@.len() as int,
                ));
            }
            assert(hit == begins(rest, from@));
        }
        let ghost before = out@;
        if hit {
            out.append(to);
            i = i + fv.len();
            assert(rest.skip(from@.len() as int) =~= s@.skip(i as int));
            assert(before + (to@ + replaced(s@.skip(i as int), from@, to@)) =~= (before + to@)
                + replaced(s@.skip(i as int), from@, to@));
        } else {
            out.push(sv[i]);
            i = i + 1;
            assert(rest.skip(1) =~= s@.skip(i as int));
            assert(before + (seq![rest[0]] + replaced(s@.skip(i as int), from@, to@))
                =~= before.push(rest[0]) + replaced(s@.skip(i as int), from@, to@));
        }
    }
    assert(s@.skip(i as int) =~= Seq::<char>::empty());
    assert(out@ + Seq::<char>::empty() =~= out@);
    out
}

/// Where `from` does not stand in `s`, replacing it changes nothing.
pub proof fn lemma_replaced_absent(s: Seq<char>, from: Seq<char>, to: Seq<char>)
    requires
        !has_text(s, from),
    ensures
        replaced(s, from, to) == s,
    decreases s.len(),
{
    if s.len() > 0 && from.len() > 0 {
        assert(!occurs_at(s, from, 0));
        let rest = s.skip(1);
        assert forall|i: int| !#[trigger] occurs_at(rest, from, i) by {
            if occurs_at(rest, from, i) {
                assert(s.subrange(i + 1, i + 1 + from.len()) =~= rest.subrange(i, i + from.len()));
                assert(occurs_at(s, from, i + 1));
            }
        }
        lemma_replaced_absent(rest, from, to);
        assert(seq![s[0]] + rest =~= s);
    }
}

// ---------------------------------------------------------------------------
// Splitting and joining
// ---------------------------------------------------------------------------

/// The pieces of `s` between the separators `sep`: one more than there are separators.
pub open spec fn pieces(s: Seq<char>, sep: char) -> Seq<Seq<char>>
    decreases s.len(),
{
    if s.len() == 0 {
        seq![Seq::<char>::empty()]
    } else {
        let head = pieces(s.drop_last(), sep);
        if s.last() == sep {
            head.push(Seq::<char>::empty())
        } else {
            head.update(head.len() - 1, head.last().push(s.last()))
        }
    }
}

/// There is always a last piece.
pub proof fn lemma_pieces_nonempty(s: Seq<char>, sep: char)
    ensures
        pieces(s, sep).len() > 0,
    decreases s.len(),
{
    if s.len() > 0 {
        lemma_pieces_nonempty(s.drop_last(), sep);
    }
}

/// No piece holds the separator.
pub proof fn lemma_pieces_hold_no_separator(s: Seq<char>, sep: char, i: int)
    requires
        0 <= i < pieces(s, sep).len(),
    ensures
        !pieces(s, sep)[i].contains(sep),
    decreases s.len(),
{
    if s.len() > 0 {
        let head = pieces(s.drop_last(), sep);
        lemma_pieces_nonempty(s.drop_last(), sep);
        if i < head.len() {
            lemma_pieces_hold_no_separator(s.drop_last(), sep, i);
            if s.last() != sep && i == head.len() - 1 {
                let longer = head.last().push(s.last());
                assert(pieces(s, sep)[i] == longer);
                if longer.contains(sep) {
                    let k = choose|k: int| 0 <= k < longer.len() && longer[k] == sep;
                    assert(head.last()[k] == sep);
                }
            }
        }
    }
}

/// A separator and a text without one add one piece, the text.
proof fn lemma_pieces_extended(s: Seq<char>, sep: char, t: Seq<char>)
    requires
        !t.contains(sep),
    ensures
        pieces(s.push(sep) + t, sep) == pieces(s, sep).push(t),
    decreases t.len(),
{
    let all = s.push(sep) + t;
    if t.len() == 0 {
        assert(all =~= s.push(sep));
        assert(all.drop_last() =~= s);
        assert(t =~= Seq::<char>::empty());
    } else {
        let init = t.drop_last();
        assert forall|k: int| 0 <= k < init.len() implies init[k] != sep by {
            assert(t.contains(t[k]));
        }
        lemma_pieces_extended(s, sep, init);
        assert(all.drop_last() =~= s.push(sep) + init);
        assert(t.contains(t.last()));
        assert(init.push(t.last()) =~= t);
        assert(pieces(all, sep) =~= pieces(s, sep).push(t));
    }
}

proof fn lemma_one_piece(t: Seq<char>, sep: char)
    requires
        !t.contains(sep),
    ensures
        pieces(t, sep) == seq![t],
    decreases t.len(),
{
    if t.len() > 0 {
        let init = t.drop_last();
        assert forall|k: int| 0 <= k < init.len() implies init[k] != sep by {
            assert(t.contains(t[k]));
        }
        lemma_one_piece(init, sep);
        assert(t.contains(t.last()));
        assert(init.push(t.last()) =~= t);
        assert(pieces(t, sep) =~= seq![t]);
    } else {
        assert(t =~= Seq::empty());
    }
}

/// Texts without the separator come apart again where they were joined.
pub proof fn lemma_joined_pieces(v: Seq<Seq<char>>, sep: char)
    requires
        v.len() > 0,
        forall|i: int| 0 <= i < v.len() ==> !(#[trigger] v[i]).contains(sep),
    ensures
        pieces(joined(v, seq![sep]), sep) == v,
    decreases v.len(),
{
    if v.len() == 1 {
        lemma_one_piece(v[0], sep);
        assert(joined(v, seq![sep]) =~= v[0]);
        assert(v =~= seq![v[0]]);
    } else {
        let init = v.drop_last();
        lemma_joined_pieces(init, sep);
        let s = joined(init, seq![sep]);
        assert(joined(v, seq![sep]) =~= s.push(sep) + v.last());
        lemma_pieces_extended(s, sep, v.last());
        assert(init.push(v.last()) =~= v);
    }
}

/// The pieces of `s` between the separators `sep`.
pub fn split(s: &str, sep: char) -> (r: Vec<String>)
    ensures
        texts(r@) == pieces(s@, sep),
{
    let v = chars_of(s);
    let mut done: Vec<String> = Vec::new();
    let mut cur = String::new();
    let mut i: usize = 0;
    assert(texts(done@).push(cur@) =~= pieces(s@.take(0), sep));
    while i < v.len()
        invariant
            v@ == s@,
            i <= v@.len(),
            texts(done@).push(cur@) == pieces(s@.take(i as int), sep),
        decreases v@.len() - i,
    {
        let c = v[i];
        let ghost next = s@.take(i + 1);
        assert(next.drop_last() =~= s@.take(i as int));
        let ghost before = texts(done@);
        if c == sep {
            let ghost piece = cur@;
            done.push(cur);
            cur = String::new();
            assert(texts(done@) =~= before.push(piece));
            assert(texts(done@).push(cur@) =~= pieces(next, sep));
        } else {
            cur.push(c);
            assert(texts(done@).push(cur@) =~= pieces(next, sep));
        }
        i = i + 1;
    }
    assert(s@.take(i as int) =~= s@);
    let ghost before = texts(done@);
    let ghost piece = cur@;
    done.push(cur);
    assert(texts(done@) =~= before.push(piece));
    done
}

/// A text without one carriage return at its end.
pub open spec fn without_cr(s: Seq<char>) -> Seq<char> {
    if s.len() > 0 && s.last() == '\r' {
        s.drop_last()
    } else {
        s
    }
}

/// The lines of a text. A line ends with a line feed, or with a carriage return and a line feed;
/// what follows the last of them is a line where it is not empty.
pub open spec fn lines_of(s: Seq<char>) -> Seq<Seq<char>> {
    let ps = pieces(s, '\n');
    let ended = Seq::new((ps.len() - 1) as nat, |i: int| without_cr(ps[i]));
    if ps.last().len() == 0 {
        ended
    } else {
        ended.push(ps.last())
    }
}

fn strip_cr(s: &str) -> (r: String)
    ensures
        r@ == without_cr(s@),
{
    let v = chars_of(s);
    let n: usize = v.len();
    if n > 0 && v[n - 1] == '\r' {
        let r = string_of(&v, 0, n - 1);
        assert(r@ =~= s@.drop_last());
        r
    } else {
        s.to_owned()
    }
}

/// The lines of a text.
pub fn lines(s: &str) -> (r: Vec<String>)
    ensures
        texts(r@) == lines_of(s@),
{
    proof {
        lemma_pieces_nonempty(s@, '\n');
    }
    let ps = split(s, '\n');
    let ghost pm = pieces(s@, '\n');
    assert(texts(ps@).len() == ps@.len());
    let n: usize = ps.len();
    let mut out: Vec<String> = Vec::new();
    let mut i: usize = 0;
    while i < n - 1
        invariant
            n == ps@.len(),
            n > 0,
            texts(ps@) == pm,
            i <= n - 1,
            out@.len() == i,
            forall|j: int| 0 <= j < i ==> #[trigger] out@[j]@ == without_cr(pm[j]),
        decreases n - i,
    {
        assert(pm[i as int] == ps@[i as int]@);
        out.push(strip_cr(ps[i].as_str()));
        i = i + 1;
    }
    let ghost ended = Seq::new((pm.len() - 1) as nat, |i: int| without_cr(pm[i]));
    assert(texts(out@) =~= ended);
    assert(pm.last() == ps@[n - 1]@);
    if !ps[n - 1].as_str().is_empty() {
        out.push(ps[n - 1].clone());
        assert(texts(out@) =~= ended.push(pm.last()));
    }
    out
}

/// The texts one after the other, with `sep` between each two.
pub open spec fn joined(parts: Seq<Seq<char>>, sep: Seq<char>) -> Seq<char>
    decreases parts.len(),
{
    if parts.len() == 0 {
        Seq::empty()
    } else if parts.len() == 1 {
        parts[0]
    } else {
        joined(parts.drop_last(), sep) + sep + parts.last()
    }
}

/// Each of some texts stands in what they are joined to.
pub proof fn lemma_joined_holds(parts: Seq<Seq<char>>, sep: Seq<char>, i: int)
    requires
        0 <= i < parts.len(),
    ensures
        has_text(joined(parts, sep), parts[i]),
    decreases parts.len(),
{
    if parts.len() == 1 {
        lemma_has_text(Seq::empty(), parts[0], Seq::empty());
        assert(Seq::<char>::empty() + parts[0] =~= parts[0]);
    } else {
        let head = joined(parts.drop_last(), sep);
        if i < parts.len() - 1 {
            lemma_joined_holds(parts.drop_last(), sep, i);
            assert(parts.drop_last()[i] == parts[i]);
            lemma_in_longer(Seq::empty(), head, sep + parts.last(), parts[i]);
            assert(Seq::<char>::empty() + head + (sep + parts.last()) =~= head + sep
                + parts.last());
        } else {
            lemma_has_text(head + sep, parts[i], Seq::empty());
        }
    }
}

/// The strings one after the other, with `sep` between each two.
pub fn join(parts: &Vec<String>, sep: &str) -> (r: String)
    ensures
        r@ == joined(texts(parts@), sep@),
{
    let mut out = String::new();
    let mut i: usize = 0;
    while i < parts.len()
        invariant
            i <= parts@.len(),
            out@ == joined(texts(parts@).take(i as int), sep@),
        decreases parts@.len() - i,
    {
        let ghost next = texts(parts@).take(i + 1);
        assert(next.drop_last() =~= texts(parts@).take(i as int));
        if i > 0 {
            out.append(sep);
        }
        out.append(parts[i].as_str());
        i = i + 1;
        assert(out@ =~= joined(next, sep@));
    }
    assert(texts(parts@).take(i as int) =~= texts(parts@));
    out
}

// ---------------------------------------------------------------------------
// Trimming
// ---------------------------------------------------------------------------

/// `s` without the white space at its start.
pub open spec fn trimmed_start(s: Seq<char>) -> Seq<char>
    decreases s.len(),
{
    if s.len() > 0 && white_space(s[0]) {
        trimmed_start(s.skip(1))
    } else {
        s
    }
}

/// `s` without the white space at its end.
pub open spec fn trimmed_end(s: Seq<char>) -> Seq<char>
    decreases s.len(),
{
    if s.len() > 0 && white_space(s.last()) {
        trimmed_end(s.drop_last())
    } else {
        s
    }
}

/// `s` without the white space at its two ends.
pub open spec fn trimmed(s: Seq<char>) -> Seq<char> {
    trimmed_end(trimmed_start(s))
}

/// A trimmed text neither begins nor ends with white space.
pub proof fn lemma_trimmed_ends(s: Seq<char>)
    requires
        trimmed(s).len() > 0,
    ensures
        !white_space(trimmed(s)[0]),
        !white_space(trimmed(s).last()),
{
    lemma_start_is_bare(s);
    lemma_end_is_bare(trimmed_start(s));
}

proof fn lemma_start_is_bare(s: Seq<char>)
    ensures
        trimmed_start(s).len() > 0 ==> !white_space(trimmed_start(s)[0]),
    decreases s.len(),
{
    if s.len() > 0 && white_space(s[0]) {
        lemma_start_is_bare(s.skip(1));
    }
}

proof fn lemma_end_is_bare(s: Seq<char>)
    ensures
        trimmed_end(s).len() > 0 ==> !white_space(trimmed_end(s).last()) && trimmed_end(s)[0]
            == s[0],
    decreases s.len(),
{
    if s.len() > 0 && white_space(s.last()) {
        lemma_end_is_bare(s.drop_last());
        if trimmed_end(s).len() > 0 {
            assert(s.drop_last().len() > 0);
        }
    }
}

/// `s` without the white space at its two ends.
pub fn trim(s: &str) -> (r: String)
    ensures
        r@ == trimmed(s@),
{
    let v = chars_of(s);
    let mut from: usize = 0;
    assert(s@.skip(0) =~= s@);
    while from < v.len() && v[from].is_whitespace()
        invariant
            v@ == s@,
            from <= v@.len(),
            trimmed_start(s@.skip(from as int)) == trimmed_start(s@),
        decreases v@.len() - from,
    {
        assert(s@.skip(from as int).skip(1) =~= s@.skip(from + 1));
        from = from + 1;
    }
    let ghost mid = s@.skip(from as int);
    assert(trimmed_start(s@) == mid);
    let mut to: usize = v.len();
    assert(v@.subrange(from as int, to as int) =~= mid);
    while to > from && v[to - 1].is_whitespace()
        invariant
            v@ == s@,
            from <= to <= v@.len(),
            trimmed_end(v@.subrange(from as int, to as int)) == trimmed_end(mid),
        decreases to - from,
    {
        let ghost cur = v@.subrange(from as int, to as int);
        assert(cur.drop_last() =~= v@.subrange(from as int, to - 1));
        to = to - 1;
    }
    string_of(&v, from, to)
}

// ---------------------------------------------------------------------------
// Numbers
// ---------------------------------------------------------------------------

/// The character for a digit.
pub open spec fn digit_char(d: nat) -> char {
    if d == 0 {
        '0'
    } else if d == 1 {
        '1'
    } else if d == 2 {
        '2'
    } else if d == 3 {
        '3'
    } else if d == 4 {
        '4'
    } else if d == 5 {
        '5'
    } else if d == 6 {
        '6'
    } else if d == 7 {
        '7'
    } else if d == 8 {
        '8'
    } else {
        '9'
    }
}

/// A number in decimal.
pub open spec fn decimal(n: nat) -> Seq<char>
    decreases n,
{
    if n < 10 {
        seq![digit_char(n)]
    } else {
        decimal(n / 10).push(digit_char(n % 10))
    }
}

fn digit_to_char(d: u64) -> (c: char)
    requires
        d < 10,
    ensures
        c == digit_char(d as nat),
{
    if d == 0 {
        '0'
    } else if d == 1 {
        '1'
    } else if d == 2 {
        '2'
    } else if d == 3 {
        '3'
    } else if d == 4 {
        '4'
    } else if d == 5 {
        '5'
    } else if d == 6 {
        '6'
    } else if d == 7 {
        '7'
    } else if d == 8 {
        '8'
    } else {
        '9'
    }
}

/// A number in decimal.
pub fn decimal_of(n: u64) -> (s: String)
    ensures
        s@ == decimal(n as nat),
    decreases n,
{
    if n < 10 {
        let mut s = String::new();
        s.push(digit_to_char(n));
        assert(s@ =~= seq![digit_char(n as nat)]);
        s
    } else {
        let mut s = decimal_of(n / 10);
        s.push(digit_to_char(n % 10));
        s
    }
}

/// A number in decimal, with a minus sign where it is negative.
pub open spec fn signed_decimal(n: int) -> Seq<char> {
    if n < 0 {
        "-"@ + decimal((-n) as nat)
    } else {
        decimal(n as nat)
    }
}

/// A number in decimal, with a minus sign where it is negative.
pub fn signed_decimal_of(n: i64) -> (s: String)
    ensures
        s@ == signed_decimal(n as int),
{
    if n < 0 {
        let size: u64 = if n == i64::MIN {
            0x8000_0000_0000_0000
        } else {
            (-n) as u64
        };
        let digits = decimal_of(size);
        cat("-", digits.as_str())
    } else {
        decimal_of(n as u64)
    }
}

/// The number that a digit stands for.
pub open spec fn digit_value(c: char) -> nat {
    if is_digit(c) {
        (c as int - '0' as int) as nat
    } else {
        0
    }
}

/// The number that some digits stand for.
pub open spec fn digits_value(s: Seq<char>) -> nat
    decreases s.len(),
{
    if s.len() == 0 {
        0
    } else {
        digits_value(s.drop_last()) * 10 + digit_value(s.last())
    }
}

/// A text without a plus sign at its beginning.
pub open spec fn without_plus(s: Seq<char>) -> Seq<char> {
    if s.len() > 0 && s[0] == '+' {
        s.skip(1)
    } else {
        s
    }
}

pub open spec fn all_digits(s: Seq<char>) -> bool {
    forall|i: int| 0 <= i < s.len() ==> is_digit(#[trigger] s[i])
}

/// The number that a text stands for: one digit or more, after a plus sign or not, and no more
/// than 64 bits can hold.
pub open spec fn parsed_number(s: Seq<char>) -> Option<u64> {
    let digits = without_plus(s);
    if digits.len() > 0 && all_digits(digits) && digits_value(digits) <= u64::MAX {
        Some(digits_value(digits) as u64)
    } else {
        None
    }
}

proof fn lemma_digits_value_grows(s: Seq<char>, k: int)
    requires
        0 <= k <= s.len(),
    ensures
        digits_value(s.take(k)) <= digits_value(s),
    decreases s.len() - k,
{
    if k < s.len() {
        lemma_digits_value_grows(s, k + 1);
        assert(s.take(k + 1).drop_last() =~= s.take(k));
    } else {
        assert(s.take(k) =~= s);
    }
}

/// The number that a text stands for.
pub fn parse_number(s: &str) -> (r: Option<u64>)
    ensures
        r == parsed_number(s@),
{
    let v = chars_of(s);
    let from: usize = if v.len() > 0 && v[0] == '+' {
        1
    } else {
        0
    };
    let ghost digits = s@.skip(from as int);
    assert(digits =~= without_plus(s@));
    if from == v.len() {
        return None;
    }
    let mut value: u64 = 0;
    let mut i: usize = from;
    while i < v.len()
        invariant
            v@ == s@,
            from <= i <= v@.len(),
            digits == s@.skip(from as int),
            digits == without_plus(s@),
            forall|j: int| 0 <= j < i - from ==> is_digit(#[trigger] digits[j]),
            value == digits_value(digits.take(i - from)),
        decreases v@.len() - i,
    {
        let c = v[i];
        assert(digits[i - from] == c);
        if !(c >= '0' && c <= '9') {
            return None;
        }
        let ghost next = digits.take(i - from + 1);
        assert(next.drop_last() =~= digits.take(i - from));
        proof {
            lemma_digits_value_grows(digits, i - from + 1);
        }
        let d: u64 = c as u64 - '0' as u64;
        if value > u64::MAX / 10 || value * 10 > u64::MAX - d {
            return None;
        }
        value = value * 10 + d;
        i = i + 1;
    }
    assert(digits.take(i - from) =~= digits);
    Some(value)
}

// ---------------------------------------------------------------------------
// Order
// ---------------------------------------------------------------------------

/// Whether `a` stands before `b`: the first character in which they differ decides, and a text
/// stands before its continuations.
pub open spec fn lex_less(a: Seq<char>, b: Seq<char>) -> bool
    decreases a.len(),
{
    if b.len() == 0 {
        false
    } else if a.len() == 0 {
        true
    } else if a[0] != b[0] {
        a[0] < b[0]
    } else {
        lex_less(a.skip(1), b.skip(1))
    }
}

/// Of two texts one stands before the other, or they are equal.
pub proof fn lemma_lex_total(a: Seq<char>, b: Seq<char>)
    ensures
        lex_less(a, b) || lex_less(b, a) || a == b,
        !(lex_less(a, b) && lex_less(b, a)),
        a == b ==> !lex_less(a, b),
    decreases a.len(),
{
    if a.len() > 0 && b.len() > 0 && a[0] == b[0] {
        lemma_lex_total(a.skip(1), b.skip(1));
        if a.skip(1) == b.skip(1) {
            assert(a =~= seq![a[0]] + a.skip(1));
            assert(b =~= seq![b[0]] + b.skip(1));
        }
    } else if a.len() == 0 && b.len() == 0 {
        assert(a =~= b);
    }
}

/// The order is transitive.
pub proof fn lemma_lex_trans(a: Seq<char>, b: Seq<char>, c: Seq<char>)
    requires
        lex_less(a, b),
        lex_less(b, c),
    ensures
        lex_less(a, c),
    decreases a.len(),
{
    if a.len() > 0 && a[0] == b[0] && b[0] == c[0] {
        lemma_lex_trans(a.skip(1), b.skip(1), c.skip(1));
    }
}

/// Whether `a` stands before `b`.
pub fn text_less(a: &str, b: &str) -> (r: bool)
    ensures
        r == lex_less(a@, b@),
{
    let av = chars_of(a);
    let bv = chars_of(b);
    let mut i: usize = 0;
    assert(a@.skip(0) =~= a@);
    assert(b@.skip(0) =~= b@);
    while i < av.len() && i < bv.len()
        invariant
            av@ == a@,
            bv@ == b@,
            i <= av@.len(),
            i <= bv@.len(),
            lex_less(a@, b@) == lex_less(a@.skip(i as int), b@.skip(i as int)),
        decreases av@.len() - i,
    {
        if av[i] != bv[i] {
            return av[i] < bv[i];
        }
        assert(a@.skip(i as int).skip(1) =~= a@.skip(i + 1));
        assert(b@.skip(i as int).skip(1) =~= b@.skip(i + 1));
        i = i + 1;
    }
    i < bv.len()
}

/// Whether position `a` comes before position `b` when the texts are sorted: by the texts, and
/// for equal texts by their positions.
pub open spec fn sorts_before(keys: Seq<Seq<char>>, a: int, b: int) -> bool {
    lex_less(keys[a], keys[b]) || (keys[a] == keys[b] && a < b)
}

/// Whether `order` holds each position of `keys` once, sorted.
pub open spec fn is_order(keys: Seq<Seq<char>>, order: Seq<usize>) -> bool {
    &&& order.len() == keys.len()
    &&& forall|i: int| 0 <= i < order.len() ==> 0 <= (#[trigger] order[i]) < keys.len()
    &&& forall|i: int, j: int|
        0 <= i < j < order.len() ==> sorts_before(
            keys,
            #[trigger] order[i] as int,
            #[trigger] order[j] as int,
        )
}

/// The positions of the strings, sorted.
pub fn sort_order(keys: &Vec<String>) -> (order: Vec<usize>)
    ensures
        is_order(texts(keys@), order@),
        arranged(texts(keys@), order@).to_multiset() == texts(keys@).to_multiset(),
{
    let mut order: Vec<usize> = Vec::new();
    let mut n: usize = 0;
    let ghost all = texts(keys@);
    assert(arranged(all, order@) =~= all.take(0));
    while n < keys.len()
        invariant
            all == texts(keys@),
            n <= keys@.len(),
            order@.len() == n,
            arranged(all, order@).to_multiset() == all.take(n as int).to_multiset(),
            forall|i: int| 0 <= i < order@.len() ==> 0 <= (#[trigger] order@[i]) < n,
            forall|i: int, j: int|
                0 <= i < j < order@.len() ==> sorts_before(
                    all,
                    #[trigger] order@[i] as int,
                    #[trigger] order@[j] as int,
                ),
        decreases keys@.len() - n,
    {
        let mut p: usize = 0;
        while p < order.len() && !text_less(keys[n].as_str(), keys[order[p]].as_str())
            invariant
                all == texts(keys@),
                n < keys@.len(),
                p <= order@.len(),
                order@.len() == n,
                forall|i: int| 0 <= i < order@.len() ==> 0 <= (#[trigger] order@[i]) < n,
                forall|i: int| 0 <= i < p ==> !lex_less(all[n as int], all[#[trigger] order@[i] as int]),
            decreases order@.len() - p,
        {
            p = p + 1;
        }
        let ghost before = order@;
        order.insert(p, n);
        proof {
            assert(order@ =~= before.take(p as int).push(n) + before.skip(p as int));
            assert(arranged(all, order@) =~= arranged(all, before).insert(p as int, all[n as int]));
            assert(all.take(n + 1) =~= all.take(n as int).push(all[n as int]));
            vstd::seq_lib::to_multiset_insert(arranged(all, before), p as int, all[n as int]);
            vstd::seq_lib::to_multiset_build(all.take(n as int), all[n as int]);
            assert forall|i: int, j: int| 0 <= i < j < order@.len() implies sorts_before(
                all,
                #[trigger] order@[i] as int,
                #[trigger] order@[j] as int,
            ) by {
                if i < p && j == p {
                    assert(order@[i] == before[i]);
                    lemma_lex_total(all[before[i] as int], all[n as int]);
                } else if i == p {
                    assert(order@[j] == before[j - 1]);
                    assert(lex_less(all[n as int], all[before[p as int] as int]));
                    if j - 1 > p {
                        assert(sorts_before(all, before[p as int] as int, before[j - 1] as int));
                        if lex_less(all[before[p as int] as int], all[before[j - 1] as int]) {
                            lemma_lex_trans(
                                all[n as int],
                                all[before[p as int] as int],
                                all[before[j - 1] as int],
                            );
                        }
                    }
                } else {
                    let a = if i < p { i } else { i - 1 };
                    let b = if j < p { j } else { j - 1 };
                    assert(order@[i] == before[a]);
                    assert(order@[j] == before[b]);
                    assert(sorts_before(all, before[a] as int, before[b] as int));
                }
            }
        }
        n = n + 1;
    }
    assert(all.take(n as int) =~= all);
    order
}

/// The strings of `v` at the positions of `order`.
pub open spec fn arranged(v: Seq<Seq<char>>, order: Seq<usize>) -> Seq<Seq<char>> {
    Seq::new(order.len(), |i: int| v[order[i] as int])
}

/// Whether `r` holds the texts of `v`, sorted.
pub open spec fn sorted_from(v: Seq<Seq<char>>, r: Seq<Seq<char>>) -> bool {
    exists|order: Seq<usize>| #[trigger] is_order(v, order) && r == arranged(v, order)
}

/// Whether `r` holds the texts of `v`, sorted, each as often as `v` does.
pub open spec fn sorted_like(v: Seq<Seq<char>>, r: Seq<Seq<char>>) -> bool {
    sorted_from(v, r) && r.to_multiset() == v.to_multiset()
}

/// The strings, sorted.
pub fn sorted_strings(v: &Vec<String>) -> (r: Vec<String>)
    ensures
        sorted_from(texts(v@), texts(r@)),
        sorted_like(texts(v@), texts(r@)),
{
    let order = sort_order(v);
    let mut out: Vec<String> = Vec::new();
    let mut i: usize = 0;
    while i < order.len()
        invariant
            i <= order@.len(),
            is_order(texts(v@), order@),
            out@.len() == i,
            forall|j: int| 0 <= j < i ==> #[trigger] out@[j]@ == v@[order@[j] as int]@,
        decreases order@.len() - i,
    {
        out.push(v[order[i]].clone());
        i = i + 1;
    }
    assert(texts(out@) =~= arranged(texts(v@), order@));
    out
}

/// In what is sorted, no text stands after a later one.
pub proof fn lemma_sorted_from(v: Seq<Seq<char>>, r: Seq<Seq<char>>, i: int, j: int)
    requires
        sorted_from(v, r),
        0 <= i < j < r.len(),
    ensures
        lex_less(r[i], r[j]) || r[i] == r[j],
{
    let order = choose|order: Seq<usize>| #[trigger] is_order(v, order) && r == arranged(v, order);
    assert(sorts_before(v, order[i] as int, order[j] as int));
}

/// However the same texts are arranged, they come out of sorting the same.
pub proof fn law_sorting_forgets_the_order(
    v: Seq<Seq<char>>,
    r: Seq<Seq<char>>,
    w: Seq<Seq<char>>,
    s: Seq<Seq<char>>,
)
    requires
        sorted_like(v, r),
        sorted_like(w, s),
        v.to_multiset() == w.to_multiset(),
    ensures
        r == s,
{
    let leq = |a: Seq<char>, b: Seq<char>| lex_less(a, b) || a == b;
    assert forall|i: int, j: int| 0 <= i < j < r.len() implies #[trigger] leq(r[i], r[j]) by {
        lemma_sorted_from(v, r, i, j);
    }
    assert forall|i: int, j: int| 0 <= i < j < s.len() implies #[trigger] leq(s[i], s[j]) by {
        lemma_sorted_from(w, s, i, j);
    }
    assert forall|x: Seq<char>, y: Seq<char>| #[trigger] leq(x, y) && #[trigger] leq(
        y,
        x,
    ) implies x == y by {
        lemma_lex_total(x, y);
    }
    assert forall|x: Seq<char>, y: Seq<char>, z: Seq<char>| #[trigger] leq(x, y) && #[trigger] leq(
        y,
        z,
    ) implies leq(x, z) by {
        if lex_less(x, y) && lex_less(y, z) {
            lemma_lex_trans(x, y, z);
        }
    }
    assert forall|x: Seq<char>, y: Seq<char>| #[trigger] leq(x, y) || #[trigger] leq(y, x) by {
        lemma_lex_total(x, y);
    }
    vstd::seq_lib::lemma_sorted_unique(r, s, leq);
}

/// An arrangement that holds no place twice holds each place.
pub proof fn lemma_each_place(order: Seq<usize>, p: usize)
    requires
        forall|i: int| 0 <= i < order.len() ==> 0 <= (#[trigger] order[i]) < order.len(),
        forall|i: int, j: int| 0 <= i < j < order.len() ==> order[i] != order[j],
        p < order.len(),
    ensures
        order.contains(p),
{
    let places = Seq::new(order.len(), |i: int| order[i] as int);
    let all = vstd::set_lib::set_int_range(0, order.len() as int);
    assert(places.no_duplicates());
    places.unique_seq_to_set();
    vstd::set_lib::lemma_int_range(0, order.len() as int);
    assert forall|x: int| #[trigger] places.to_set().contains(x) implies all.contains(x) by {
        let k = choose|k: int| 0 <= k < places.len() && places[k] == x;
        assert(places[k] == order[k] as int);
    }
    vstd::seq_lib::seq_to_set_is_finite(places);
    vstd::set_lib::lemma_subset_equality(places.to_set(), all);
    assert(all.contains(p as int));
    assert(places.to_set().contains(p as int));
    let k = choose|k: int| 0 <= k < places.len() && places[k] == p as int;
    assert(order[k] == p);
}

/// There is one way to sort some texts: where several are equal, they stay as they stood.
pub proof fn law_one_order(keys: Seq<Seq<char>>, a: Seq<usize>, b: Seq<usize>)
    requires
        is_order(keys, a),
        is_order(keys, b),
    ensures
        a == b,
{
    assert forall|i: int, j: int| 0 <= i < j < a.len() implies a[i] != a[j] by {
        lemma_lex_total(keys[a[i] as int], keys[a[j] as int]);
        assert(sorts_before(keys, a[i] as int, a[j] as int));
    }
    assert forall|i: int, j: int| 0 <= i < j < b.len() implies b[i] != b[j] by {
        lemma_lex_total(keys[b[i] as int], keys[b[j] as int]);
        assert(sorts_before(keys, b[i] as int, b[j] as int));
    }
    assert forall|k: int| 0 <= k < a.len() implies a[k] == b[k] by {
        lemma_same_place(keys, a, b, k);
    }
    assert(a =~= b);
}

proof fn lemma_same_place(keys: Seq<Seq<char>>, a: Seq<usize>, b: Seq<usize>, k: int)
    requires
        is_order(keys, a),
        is_order(keys, b),
        forall|i: int, j: int| 0 <= i < j < a.len() ==> a[i] != a[j],
        forall|i: int, j: int| 0 <= i < j < b.len() ==> b[i] != b[j],
        0 <= k < a.len(),
    ensures
        a[k] == b[k],
    decreases k,
{
    assert forall|j: int| 0 <= j < k implies a[j] == b[j] by {
        lemma_same_place(keys, a, b, j);
    }
    if a[k] != b[k] {
        lemma_each_place(a, b[k]);
        lemma_each_place(b, a[k]);
        let i = choose|i: int| 0 <= i < a.len() && a[i] == b[k];
        let j = choose|j: int| 0 <= j < b.len() && b[j] == a[k];
        assert(i > k);
        assert(j > k);
        assert(sorts_before(keys, a[k] as int, a[i] as int));
        assert(sorts_before(keys, b[k] as int, b[j] as int));
        lemma_lex_total(keys[a[k] as int], keys[b[k] as int]);
    }
}

/// A number that was written is the one that is read.
pub proof fn law_written_numbers_are_read_back(n: u64)
    ensures
        parsed_number(decimal(n as nat)) == Some(n),
{
    lemma_decimal_digits(n as nat);
    let d = decimal(n as nat);
    assert(is_digit(d[0]));
    assert(without_plus(d) == d);
}

proof fn lemma_decimal_digits(n: nat)
    ensures
        decimal(n).len() > 0,
        all_digits(decimal(n)),
        digits_value(decimal(n)) == n,
    decreases n,
{
    if n < 10 {
        assert(decimal(n).drop_last() =~= Seq::empty());
        assert(digits_value(decimal(n).drop_last()) == 0);
        assert(decimal(n).last() == digit_char(n));
    } else {
        lemma_decimal_digits(n / 10);
        let d = decimal(n);
        assert(d.drop_last() =~= decimal(n / 10));
        assert(d.last() == digit_char(n % 10));
        assert forall|i: int| 0 <= i < d.len() implies is_digit(#[trigger] d[i]) by {
            if i < decimal(n / 10).len() {
                assert(d[i] == decimal(n / 10)[i]);
            }
        }
    }
}

/// Only digits are a number, with a plus sign before them or not.
pub proof fn law_what_is_no_number(s: Seq<char>, i: int)
    ensures
        parsed_number(Seq::empty()) is None,
        0 < i < s.len() && !is_digit(s[i]) ==> parsed_number(s) is None,
        s.len() > 0 && s[0] != '+' && !is_digit(s[0]) ==> parsed_number(s) is None,
{
    assert(without_plus(Seq::empty()) =~= Seq::empty());
    let d = without_plus(s);
    if 0 < i < s.len() && !is_digit(s[i]) {
        if s[0] == '+' {
            assert(d[i - 1] == s[i]);
        } else {
            assert(d[i] == s[i]);
        }
    }
    if s.len() > 0 && s[0] != '+' && !is_digit(s[0]) {
        assert(d[0] == s[0]);
    }
}

/// Where a text stands at one place, that place is replaced and all around it stays.
pub proof fn law_one_place_is_replaced(
    before: Seq<char>,
    from: Seq<char>,
    after: Seq<char>,
    to: Seq<char>,
)
    requires
        from.len() > 0,
        forall|i: int| i != before.len() ==> !#[trigger] occurs_at(before + from + after, from, i),
    ensures
        replaced(before + from + after, from, to) == before + to + after,
    decreases before.len(),
{
    let s = before + from + after;
    assert(s.subrange(before.len() as int, (before + from).len() as int) =~= from);
    assert(occurs_at(s, from, before.len() as int));
    if before.len() > 0 {
        let rest = before.skip(1);
        assert(!occurs_at(s, from, 0));
        assert(s.skip(1) =~= rest + from + after);
        assert forall|i: int| i != rest.len() implies !#[trigger] occurs_at(
            rest + from + after,
            from,
            i,
        ) by {
            if occurs_at(rest + from + after, from, i) {
                assert(s.subrange(i + 1, i + 1 + from.len()) =~= (rest + from + after).subrange(
                    i,
                    i + from.len(),
                ));
                assert(occurs_at(s, from, i + 1));
            }
        }
        law_one_place_is_replaced(rest, from, after, to);
        assert(seq![s[0]] + (rest + to + after) =~= before + to + after);
    } else {
        assert(s.skip(from.len() as int) =~= after);
        assert forall|i: int| !#[trigger] occurs_at(after, from, i) by {
            if occurs_at(after, from, i) {
                let k: int = from.len() + i;
                assert(s.subrange(k, k + from.len()) =~= after.subrange(i, i + from.len()));
                assert(occurs_at(s, from, k));
            }
        }
        if has_text(after, from) {
            let i = choose|i: int| #[trigger] occurs_at(after, from, i);
        }
        lemma_replaced_absent(after, from, to);
        assert(to + after =~= before + to + after);
    }
}

/// Trimming takes white space from the two ends and nothing else, and trimming again changes
/// nothing.
pub proof fn law_trimming_takes_the_ends(s: Seq<char>)
    ensures
        exists|i: int, j: int|
            0 <= i <= j <= s.len() && trimmed(s) == #[trigger] s.subrange(i, j) && (forall|k: int|
                0 <= k < i || j <= k < s.len() ==> white_space(#[trigger] s[k])),
        trimmed(s).len() > 0 ==> !white_space(trimmed(s)[0]) && !white_space(trimmed(s).last()),
        trimmed(trimmed(s)) == trimmed(s),
{
    lemma_trimmed_start(s);
    let n = s.len() - trimmed_start(s).len();
    let t = trimmed_start(s);
    lemma_trimmed_end(t);
    let m = trimmed_end(t).len() as int;
    assert(trimmed(s) =~= s.subrange(n, n + m));
    assert forall|k: int| 0 <= k < n || n + m <= k < s.len() implies white_space(#[trigger] s[k]) by {
        if k >= n + m {
            assert(t[k - n] == s[k]);
        }
    }
    let r = trimmed(s);
    if r.len() > 0 {
        lemma_trimmed_ends(s);
        assert(trimmed_start(r) == r);
        assert(trimmed_end(r) == r);
    } else {
        assert(trimmed_start(r) == r);
    }
}

proof fn lemma_trimmed_start(s: Seq<char>)
    ensures
        trimmed_start(s).len() <= s.len(),
        trimmed_start(s) == s.skip(s.len() - trimmed_start(s).len()),
        forall|k: int| 0 <= k < s.len() - trimmed_start(s).len() ==> white_space(#[trigger] s[k]),
    decreases s.len(),
{
    if s.len() > 0 && white_space(s[0]) {
        let rest = s.skip(1);
        lemma_trimmed_start(rest);
        let n = rest.len() - trimmed_start(rest).len();
        assert(rest.skip(n) =~= s.skip(n + 1));
        assert forall|k: int| 0 <= k < n + 1 implies white_space(#[trigger] s[k]) by {
            if k > 0 {
                assert(rest[k - 1] == s[k]);
            }
        }
    } else {
        assert(s.skip(0) =~= s);
    }
}

proof fn lemma_trimmed_end(s: Seq<char>)
    ensures
        trimmed_end(s).len() <= s.len(),
        trimmed_end(s) == s.take(trimmed_end(s).len() as int),
        forall|k: int| trimmed_end(s).len() <= k < s.len() ==> white_space(#[trigger] s[k]),
    decreases s.len(),
{
    if s.len() > 0 && white_space(s.last()) {
        let front = s.drop_last();
        lemma_trimmed_end(front);
        let m = trimmed_end(front).len() as int;
        assert(front.take(m) =~= s.take(m));
        assert forall|k: int| m <= k < s.len() implies white_space(#[trigger] s[k]) by {
            if k < front.len() {
                assert(front[k] == s[k]);
            }
        }
    } else {
        assert(s.take(s.len() as int) =~= s);
    }
}

/// No line holds a line feed.
pub proof fn law_lines_hold_no_line_feed(s: Seq<char>, i: int, k: int)
    requires
        0 <= i < lines_of(s).len(),
        0 <= k < lines_of(s)[i].len(),
    ensures
        lines_of(s)[i][k] != '\n',
{
    let ps = pieces(s, '\n');
    lemma_pieces_nonempty(s, '\n');
    lemma_pieces_hold_no_separator(s, '\n', i);
    assert(ps[i].contains(ps[i][k]));
}

/// A negative number has a minus sign before its digits, and no other number has one.
pub proof fn law_signs_are_written(n: int)
    ensures
        n < 0 ==> signed_decimal(n)[0] == '-' && signed_decimal(n).skip(1) == decimal((-n) as nat),
        n >= 0 ==> signed_decimal(n) == decimal(n as nat) && is_digit(signed_decimal(n)[0]),
{
    reveal_strlit("-");
    if n < 0 {
        assert(signed_decimal(n).skip(1) =~= decimal((-n) as nat));
    } else {
        lemma_decimal_digits(n as nat);
    }
}

} // verus!

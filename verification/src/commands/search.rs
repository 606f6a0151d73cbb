//! Searching a workspace's concepts and its material results by free text,
//! case-insensitively.
use vstd::prelude::*;

use vstd::seq_lib::lemma_flatten_concat;

use crate::text::{append_str, char_is_ws, chars_of, is_ws, slice_of, trim, trim_string, views};

use super::models::{Concept, MaterialResult};

verus! {

/// What `str::to_lowercase` makes of a text: the Unicode lowercase mapping,
/// which depends on the text alone.
pub uninterp spec fn lowercase(s: Seq<char>) -> Seq<char>;

/// `str::to_lowercase` (std).
#[verifier::external_body]
fn to_lowercase(s: &str) -> (r: String)
    ensures
        r@ == lowercase(s@),
{
    s.to_lowercase()
}

/// `needle` occurs in `hay` at position `i`.
pub open spec fn occurs_at(hay: Seq<char>, needle: Seq<char>, i: int) -> bool {
    0 <= i && i + needle.len() <= hay.len() && hay.subrange(i, i + needle.len()) == needle
}

/// `str::contains` with a text pattern; the empty text occurs everywhere.
pub open spec fn contains_text(hay: Seq<char>, needle: Seq<char>) -> bool {
    exists|i: int| occurs_at(hay, needle, i)
}

fn occurs_at_exec(hay: &Vec<char>, needle: &Vec<char>, i: usize) -> (r: bool)
    requires
        i + needle.len() <= hay.len(),
    ensures
        r == occurs_at(hay@, needle@, i as int),
{
    let mut k: usize = 0;
    while k < needle.len()
        invariant
            k <= needle.len(),
            i + needle.len() <= hay.len(),
            forall|j: int| 0 <= j < k ==> hay@[i + j] == needle@[j],
        decreases needle.len() - k,
    {
        if hay[i + k] != needle[k] {
            assert(hay@.subrange(i as int, i + needle.len())[k as int] != needle@[k as int]);
            return false;
        }
        k += 1;
    }
    assert(hay@.subrange(i as int, i + needle.len()) =~= needle@);
    true
}

/// Whether `needle` occurs in `hay`.
pub fn text_contains(hay: &Vec<char>, needle: &Vec<char>) -> (r: bool)
    ensures
        r == contains_text(hay@, needle@),
{
    if needle.len() > hay.len() {
        return false;
    }
    let last = hay.len() - needle.len();
    let mut i: usize = 0;
    while i < last
        invariant
            last + needle.len() == hay.len(),
            i <= last,
            forall|j: int| 0 <= j < i ==> !occurs_at(hay@, needle@, j),
        decreases last - i,
    {
        if occurs_at_exec(hay, needle, i) {
            return true;
        }
        i += 1;
    }
    if occurs_at_exec(hay, needle, last) {
        return true;
    }
    assert forall|j: int| !occurs_at(hay@, needle@, j) by {
        if 0 <= j && j + needle@.len() <= hay@.len() {
            assert(j <= last);
        }
    }
    false
}

/// Whether the lowercase form of `s` contains `needle`.
fn lower_contains(s: &str, needle: &Vec<char>) -> (r: bool)
    ensures
        r == contains_text(lowercase(s@), needle@),
{
    let lower = to_lowercase(s);
    let chars = chars_of(lower.as_str());
    text_contains(&chars, needle)
}

/// A concept matches a (lowercase) query when its name, chapter, explanation
/// or one of the places where it shows up contains it, compared in lowercase.
#[verifier::opaque]
pub open spec fn concept_matches(c: Concept, q: Seq<char>) -> bool {
    ||| contains_text(lowercase(c.name@), q)
    ||| contains_text(lowercase(c.chapter@), q)
    ||| (c.explanation matches Some(e) && contains_text(lowercase(e@), q))
    ||| (c.where_it_shows_up matches Some(ws) && exists|k: int|
        0 <= k < ws.len() && #[trigger] contains_text(lowercase(ws[k]@), q))
}

#[verifier::loop_isolation(false)]
fn concept_matches_exec(c: &Concept, q: &Vec<char>) -> (r: bool)
    ensures
        r == concept_matches(*c, q@),
{
    reveal(concept_matches);
    if lower_contains(c.name.as_str(), q) || lower_contains(c.chapter.as_str(), q) {
        return true;
    }
    if let Some(e) = &c.explanation {
        if lower_contains(e.as_str(), q) {
            return true;
        }
    }
    if let Some(ws) = &c.where_it_shows_up {
        let mut k: usize = 0;
        while k < ws.len()
            invariant
                k <= ws.len(),
                forall|j: int| 0 <= j < k ==> !contains_text(lowercase(ws@[j]@), q@),
            decreases ws.len() - k,
        {
            if lower_contains(ws[k].as_str(), q) {
                assert(contains_text(lowercase(ws[k as int]@), q@));
                return true;
            }
            k += 1;
        }
    }
    false
}

/// The query as the concept search compares it: trimmed, then lowercased.
pub open spec fn concept_query(query: Seq<char>) -> Seq<char> {
    lowercase(trim(query))
}

/// What the concept search returns: every concept for a blank query,
/// otherwise the matching ones in order.
pub open spec fn concept_search(concepts: Seq<Concept>, query: Seq<char>) -> Seq<Concept> {
    if concept_query(query).len() == 0 {
        concepts
    } else {
        concepts.filter(|c: Concept| concept_matches(c, concept_query(query)))
    }
}

/// A member of the filter satisfies the predicate.
proof fn lemma_filter_member<A>(s: Seq<A>, p: spec_fn(A) -> bool, x: A)
    requires
        s.filter(p).contains(x),
    ensures
        p(x),
        s.contains(x),
{
    let i = choose|i: int| 0 <= i < s.filter(p).len() && s.filter(p)[i] == x;
    s.lemma_filter_pred(p, i);
    s.lemma_filter_contains_rev(p, x);
}

/// Law: for a query that is not blank once trimmed, a concept of the list is
/// found exactly when its name, its chapter, its explanation or one of the
/// places where it shows up contains the trimmed query, all compared in
/// lowercase; the search finds nothing that is not in the list, and never
/// more concepts than the list holds. A blank query finds every concept.
pub proof fn lemma_concept_search_finds_text(concepts: Seq<Concept>, query: Seq<char>, c: Concept)
    ensures
        lowercase(trim(query)).len() == 0 ==> concept_search(concepts, query) == concepts,
        concept_search(concepts, query).len() <= concepts.len(),
        concept_search(concepts, query).contains(c) ==> concepts.contains(c),
        lowercase(trim(query)).len() > 0 && concepts.contains(c) ==> (concept_search(concepts, query).contains(c) <==> {
            let q = lowercase(trim(query));
            ||| contains_text(lowercase(c.name@), q)
            ||| contains_text(lowercase(c.chapter@), q)
            ||| (c.explanation matches Some(e) && contains_text(lowercase(e@), q))
            ||| (c.where_it_shows_up matches Some(ws) && exists|k: int|
                0 <= k < ws.len() && #[trigger] contains_text(lowercase(ws[k]@), q))
        }),
{
    let q = concept_query(query);
    let f = |x: Concept| concept_matches(x, q);
    if q.len() > 0 {
        concepts.lemma_filter_len(f);
        if concept_search(concepts, query).contains(c) {
            lemma_filter_member(concepts, f, c);
            reveal(concept_matches);
        }
        if concepts.contains(c) {
            reveal(concept_matches);
            let i = choose|i: int| 0 <= i < concepts.len() && concepts[i] == c;
            if f(c) {
                concepts.lemma_filter_contains(f, i);
            }
        }
    }
}

/// The concepts that match `query`, in order; all of them for a blank query.
#[verifier::loop_isolation(false)]
pub fn search_concepts(concepts: Vec<Concept>, query: &str) -> (r: Vec<Concept>)
    ensures
        r@ == concept_search(concepts@, query@),
        concept_query(query@).len() == 0 ==> r@ == concepts@,
        concept_query(query@).len() > 0 ==> r@ == concepts@.filter(
            |c: Concept| concept_matches(c, concept_query(query@)),
        ),
{
    let trimmed = trim_string(query);
    let lower = to_lowercase(trimmed.as_str());
    let q = chars_of(lower.as_str());
    if q.len() == 0 {
        return concepts;
    }
    let ghost orig = concepts@;
    let ghost f = |c: Concept| concept_matches(c, q@);
    let mut rest = concepts;
    let mut r: Vec<Concept> = Vec::new();
    let mut i: usize = 0;
    assert(orig.skip(0) =~= orig);
    assert(orig.len() == rest.len());
    while rest.len() > 0
        invariant
            i <= orig.len(),
            i + rest.len() == orig.len(),
            rest@ == orig.skip(i as int),
            r@ == orig.take(i as int).filter(f),
            f == (|c: Concept| concept_matches(c, q@)),
        decreases rest.len(),
    {
        let c = rest.remove(0);
        proof {
            assert(c == orig[i as int]);
            assert(orig.take(i + 1) =~= orig.take(i as int).push(c));
            orig.take(i as int).lemma_filter_push(c, f);
            assert(rest@ =~= orig.skip(i + 1));
        }
        if concept_matches_exec(&c, &q) {
            r.push(c);
        }
        i += 1;
    }
    assert(orig.take(i as int) =~= orig);
    r
}

/// The non-empty piece `cur`, as a list of at most one word.
pub open spec fn word_piece(cur: Seq<char>) -> Seq<Seq<char>> {
    if cur.len() > 0 {
        seq![cur]
    } else {
        Seq::empty()
    }
}

/// Splitting into words, scanning left to right with the word built so far in `cur`.
pub open spec fn words_acc(s: Seq<char>, cur: Seq<char>) -> Seq<Seq<char>>
    decreases s.len(),
{
    if s.len() == 0 {
        word_piece(cur)
    } else if is_ws(s[0]) {
        word_piece(cur) + words_acc(s.drop_first(), Seq::empty())
    } else {
        words_acc(s.drop_first(), cur.push(s[0]))
    }
}

/// `str::split_whitespace`: the maximal runs of non-whitespace characters.
pub open spec fn words(s: Seq<char>) -> Seq<Seq<char>> {
    words_acc(s, Seq::empty())
}

pub open spec fn not_ws() -> spec_fn(char) -> bool {
    |c: char| !is_ws(c)
}

proof fn lemma_words_acc(s: Seq<char>, cur: Seq<char>)
    requires
        forall|j: int| 0 <= j < cur.len() ==> !is_ws(#[trigger] cur[j]),
    ensures
        words_acc(s, cur).flatten() == cur + s.filter(not_ws()),
        forall|w: int| 0 <= w < words_acc(s, cur).len() ==> (#[trigger] words_acc(s, cur)[w]).len() > 0,
        forall|w: int, j: int| 0 <= w < words_acc(s, cur).len() && 0 <= j < words_acc(s, cur)[w].len()
            ==> !is_ws(#[trigger] words_acc(s, cur)[w][j]),
    decreases s.len(),
{
    let p = not_ws();
    if s.len() == 0 {
        assert(s.filter(p) =~= Seq::<char>::empty()) by {
            reveal(Seq::filter);
        }
        if cur.len() > 0 {
            seq![cur].lemma_flatten_singleton();
        }
        assert(cur + s.filter(p) =~= cur);
    } else {
        let rest = s.drop_first();
        assert(s =~= seq![s[0]] + rest);
        Seq::filter_distributes_over_add(seq![s[0]], rest, p);
        assert(seq![s[0]].filter(p) =~= (if p(s[0]) { seq![s[0]] } else { Seq::empty() })) by {
            reveal_with_fuel(Seq::filter, 2);
            assert(seq![s[0]].drop_last() =~= Seq::<char>::empty());
            assert(Seq::<char>::empty().filter(p) =~= Seq::<char>::empty());
        }
        if is_ws(s[0]) {
            lemma_words_acc(rest, Seq::empty());
            lemma_flatten_concat(word_piece(cur), words_acc(rest, Seq::empty()));
            if cur.len() > 0 {
                seq![cur].lemma_flatten_singleton();
            }
            assert(word_piece(cur).flatten() =~= cur);
            let ws = word_piece(cur) + words_acc(rest, Seq::empty());
            assert forall|w: int| 0 <= w < ws.len() implies (#[trigger] ws[w]).len() > 0 by {
                if w >= word_piece(cur).len() {
                    assert(ws[w] == words_acc(rest, Seq::empty())[w - word_piece(cur).len()]);
                }
            }
            assert forall|w: int, j: int| 0 <= w < ws.len() && 0 <= j < ws[w].len() implies !is_ws(#[trigger] ws[w][j]) by {
                if w >= word_piece(cur).len() {
                    assert(ws[w] == words_acc(rest, Seq::empty())[w - word_piece(cur).len()]);
                }
            }
            assert(cur + s.filter(p) =~= cur + rest.filter(p));
        } else {
            let c2 = cur.push(s[0]);
            assert forall|j: int| 0 <= j < c2.len() implies !is_ws(#[trigger] c2[j]) by {
                if j < cur.len() {
                    assert(c2[j] == cur[j]);
                }
            }
            lemma_words_acc(rest, c2);
            assert(c2 + rest.filter(p) =~= cur + s.filter(p));
        }
    }
}

/// Law: the words of a text are non-empty, hold no whitespace, and together,
/// in order, are exactly the text's non-whitespace characters; so no word
/// (the first one included) is lost or altered.
pub proof fn lemma_words_cover_text(s: Seq<char>)
    ensures
        words(s).flatten() == s.filter(|c: char| !is_ws(c)),
        forall|w: int| 0 <= w < words(s).len() ==> (#[trigger] words(s)[w]).len() > 0,
        forall|w: int, j: int| 0 <= w < words(s).len() && 0 <= j < words(s)[w].len() ==> !is_ws(
            #[trigger] words(s)[w][j],
        ),
{
    lemma_words_acc(s, Seq::empty());
    assert(Seq::<char>::empty() + s.filter(not_ws()) =~= s.filter(not_ws()));
    assert(not_ws() =~= (|c: char| !is_ws(c)));
}

/// The words of `s`, in order.
pub fn words_vec(s: &Vec<char>) -> (r: Vec<Vec<char>>)
    ensures
        views(r@) == words(s@),
{
    let mut out: Vec<Vec<char>> = Vec::new();
    let mut st: usize = 0;
    let mut i: usize = 0;
    assert(s@.skip(0) =~= s@);
    assert(s@.subrange(0, 0) =~= Seq::<char>::empty());
    while i < s.len()
        invariant
            st <= i <= s.len(),
            words(s@) == views(out@) + words_acc(s@.skip(i as int), s@.subrange(st as int, i as int)),
        decreases s.len() - i,
    {
        let ghost cur = s@.subrange(st as int, i as int);
        assert(s@.skip(i as int)[0] == s@[i as int]);
        assert(s@.skip(i as int).drop_first() =~= s@.skip(i + 1));
        if char_is_ws(s[i]) {
            let ghost old_out = out@;
            if st < i {
                let piece = slice_of(s, st, i);
                out.push(piece);
                proof {
                    assert(views(out@) =~= views(old_out) + word_piece(cur));
                }
            } else {
                proof {
                    assert(views(out@) =~= views(old_out) + word_piece(cur));
                }
            }
            proof {
                assert(views(old_out) + (word_piece(cur) + words_acc(s@.skip(i + 1), Seq::empty()))
                    =~= views(out@) + words_acc(s@.skip(i + 1), Seq::empty()));
                assert(s@.subrange(i + 1, i + 1) =~= Seq::<char>::empty());
            }
            st = i + 1;
        } else {
            proof {
                assert(s@.subrange(st as int, i + 1) =~= cur.push(s@[i as int]));
            }
        }
        i += 1;
    }
    let ghost old_out = out@;
    let ghost cur = s@.subrange(st as int, i as int);
    if st < i {
        let piece = slice_of(s, st, i);
        out.push(piece);
    }
    proof {
        assert(s@.skip(i as int) =~= Seq::<char>::empty());
        assert(views(out@) =~= views(old_out) + word_piece(cur));
    }
    out
}

/// The text a material result is searched in: its title and reason, lowercased.
pub open spec fn searchable(m: MaterialResult) -> Seq<char> {
    lowercase(m.title@ + " "@ + m.reason@)
}

/// A material result matches when every term occurs in its searchable text.
#[verifier::opaque]
pub open spec fn material_matches(m: MaterialResult, terms: Seq<Seq<char>>) -> bool {
    forall|k: int| 0 <= k < terms.len() ==> #[trigger] contains_text(searchable(m), terms[k])
}

/// The terms of a material query: the words of the trimmed, lowercased query.
pub open spec fn material_terms(query: Seq<char>) -> Seq<Seq<char>> {
    words(lowercase(trim(query)))
}

#[verifier::loop_isolation(false)]
fn material_matches_exec(m: &MaterialResult, terms: &Vec<Vec<char>>) -> (r: bool)
    ensures
        r == material_matches(*m, views(terms@)),
{
    reveal(material_matches);
    let mut text = String::new();
    append_str(&mut text, m.title.as_str());
    append_str(&mut text, " ");
    append_str(&mut text, m.reason.as_str());
    proof {
        reveal_strlit(" ");
        assert(text@ =~= m.title@ + " "@ + m.reason@);
    }
    let lower = to_lowercase(text.as_str());
    let hay = chars_of(lower.as_str());
    let mut k: usize = 0;
    while k < terms.len()
        invariant
            k <= terms.len(),
            hay@ == searchable(*m),
            forall|j: int| 0 <= j < k ==> #[trigger] contains_text(searchable(*m), views(terms@)[j]),
        decreases terms.len() - k,
    {
        if !text_contains(&hay, &terms[k]) {
            assert(views(terms@)[k as int] == terms@[k as int]@);
            assert(!contains_text(searchable(*m), views(terms@)[k as int]));
            return false;
        }
        k += 1;
    }
    true
}

/// What the material search returns.
pub open spec fn material_search(results: Seq<MaterialResult>, query: Seq<char>) -> Seq<MaterialResult> {
    results.filter(|m: MaterialResult| material_matches(m, material_terms(query)))
}

/// Law: a material result of the list is kept exactly when every word of
/// the trimmed, lowercased query (the first one included) occurs in its
/// title, a space and its reason, lowercased; nothing outside the list is
/// returned, and never more results than the list holds.
pub proof fn lemma_material_search_needs_every_word(results: Seq<MaterialResult>, query: Seq<char>, m: MaterialResult)
    ensures
        material_search(results, query).len() <= results.len(),
        material_search(results, query).contains(m) ==> results.contains(m),
        results.contains(m) ==> (material_search(results, query).contains(m) <==> forall|k: int|
            0 <= k < words(lowercase(trim(query))).len() ==> #[trigger] contains_text(
                lowercase(m.title@ + " "@ + m.reason@),
                words(lowercase(trim(query)))[k],
            )),
{
    let f = |x: MaterialResult| material_matches(x, material_terms(query));
    results.lemma_filter_len(f);
    if material_search(results, query).contains(m) {
        lemma_filter_member(results, f, m);
        reveal(material_matches);
        let t = material_terms(query);
        assert(material_matches(m, t));
        assert forall|k: int| 0 <= k < t.len() implies #[trigger] contains_text(lowercase(m.title@ + " "@ + m.reason@), t[k]) by {
            assert(contains_text(searchable(m), t[k]));
        }
    }
    if results.contains(m) {
        reveal(material_matches);
        let t = material_terms(query);
        let i = choose|i: int| 0 <= i < results.len() && results[i] == m;
        if forall|k: int| 0 <= k < t.len() ==> #[trigger] contains_text(lowercase(m.title@ + " "@ + m.reason@), t[k]) {
            assert forall|k: int| 0 <= k < t.len() implies #[trigger] contains_text(searchable(m), t[k]) by {}
            assert(f(m));
            results.lemma_filter_contains(f, i);
        }
    }
}

/// The results (in syllabus, as read) that match every term of `query`, in order.
#[verifier::loop_isolation(false)]
pub fn search_material_results(results: Vec<MaterialResult>, query: &str) -> (r: Vec<MaterialResult>)
    ensures
        r@ == material_search(results@, query@),
        r@ == results@.filter(|m: MaterialResult| material_matches(m, material_terms(query@))),
{
    let trimmed = trim_string(query);
    let lower = to_lowercase(trimmed.as_str());
    let q = chars_of(lower.as_str());
    let terms = words_vec(&q);
    let ghost t = views(terms@);
    let ghost orig = results@;
    let ghost f = |m: MaterialResult| material_matches(m, t);
    let mut rest = results;
    let mut r: Vec<MaterialResult> = Vec::new();
    let mut i: usize = 0;
    assert(orig.skip(0) =~= orig);
    assert(orig.len() == rest.len());
    while rest.len() > 0
        invariant
            i <= orig.len(),
            i + rest.len() == orig.len(),
            rest@ == orig.skip(i as int),
            r@ == orig.take(i as int).filter(f),
            f == (|m: MaterialResult| material_matches(m, t)),
            t == views(terms@),
        decreases rest.len(),
    {
        let m = rest.remove(0);
        proof {
            assert(m == orig[i as int]);
            assert(orig.take(i + 1) =~= orig.take(i as int).push(m));
            orig.take(i as int).lemma_filter_push(m, f);
            assert(rest@ =~= orig.skip(i + 1));
        }
        if material_matches_exec(&m, &terms) {
            r.push(m);
        }
        i += 1;
    }
    assert(orig.take(i as int) =~= orig);
    r
}

} // verus!

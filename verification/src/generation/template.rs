//! Substituting resolved parameter values into prompts, hints and canonical
//! expressions. Values arrive already formatted as text.
use vstd::prelude::*;

use crate::knowledge::constraint::{in_run, is_alpha, lemma_run_end, run_end};
use crate::text::{append_chars, chars_eq, chars_of, push_char, string_of_all};

verus! {

/// A parameter value as text, and whether the number is negative.
#[derive(Debug, Clone)]
pub struct FormattedValue {
    pub text: String,
    pub negative: bool,
}

/// `s` with every non-overlapping occurrence of `pat`, scanning from the left,
/// replaced by `rep`.
pub open spec fn replace_all(s: Seq<char>, pat: Seq<char>, rep: Seq<char>) -> Seq<char>
    decreases s.len(),
{
    if pat.len() == 0 || s.len() < pat.len() {
        s
    } else if s.take(pat.len() as int) == pat {
        rep + replace_all(s.skip(pat.len() as int), pat, rep)
    } else {
        seq![s[0]] + replace_all(s.skip(1), pat, rep)
    }
}

pub open spec fn placeholder(name: Seq<char>) -> Seq<char> {
    seq!['{'] + name + seq!['}']
}

pub type ValuesV = Seq<(Seq<char>, Seq<char>, bool)>;

pub open spec fn values_v(ps: Seq<(String, FormattedValue)>) -> ValuesV {
    ps.map_values(|p: (String, FormattedValue)| (p.0@, p.1.text@, p.1.negative))
}

/// Each `{name}` replaced by the value's text, parameter by parameter.
pub open spec fn braces_spec(t: Seq<char>, ps: ValuesV) -> Seq<char>
    decreases ps.len(),
{
    if ps.len() == 0 {
        t
    } else {
        let p = ps.last();
        replace_all(braces_spec(t, ps.drop_last()), placeholder(p.0), p.1)
    }
}

/// Replacing a text that begins with a `{` leaves a text without any `{`
/// unchanged.
proof fn lemma_replace_absent(s: Seq<char>, pat: Seq<char>, rep: Seq<char>)
    requires
        pat.len() > 0,
        pat[0] == '{',
        !s.contains('{'),
    ensures
        replace_all(s, pat, rep) == s,
    decreases s.len(),
{
    if pat.len() == 0 || s.len() < pat.len() {
    } else {
        assert(s.take(pat.len() as int)[0] == s[0]);
        assert(s.take(pat.len() as int) != pat);
        assert forall|c: char| s.skip(1).contains(c) implies s.contains(c) by {
            let k = choose|k: int| 0 <= k < s.skip(1).len() && s.skip(1)[k] == c;
            assert(s[k + 1] == c);
        }
        lemma_replace_absent(s.skip(1), pat, rep);
        assert(seq![s[0]] + s.skip(1) =~= s);
    }
}

/// A template without any `{` has no placeholder: substitution leaves it as
/// it is, whatever the values.
pub proof fn lemma_braces_leave_plain_text(t: Seq<char>, ps: ValuesV)
    requires
        !t.contains('{'),
    ensures
        braces_spec(t, ps) == t,
    decreases ps.len(),
{
    if ps.len() > 0 {
        lemma_braces_leave_plain_text(t, ps.drop_last());
        let p = ps.last();
        assert(placeholder(p.0)[0] == '{');
        lemma_replace_absent(t, placeholder(p.0), p.1);
    }
}

/// `str::replace`: every occurrence of `pat` in `s` replaced by `rep`.
fn replace_chars(s: &Vec<char>, pat: &Vec<char>, rep: &Vec<char>) -> (r: Vec<char>)
    requires
        pat.len() > 0,
    ensures
        r@ == replace_all(s@, pat@, rep@),
{
    let mut out: Vec<char> = Vec::new();
    let mut i: usize = 0;
    assert(s@.skip(0) =~= s@);
    assert(out@ + replace_all(s@, pat@, rep@) =~= replace_all(s@, pat@, rep@));
    while i < s.len()
        invariant
            pat.len() > 0,
            i <= s.len(),
            replace_all(s@, pat@, rep@) == out@ + replace_all(s@.skip(i as int), pat@, rep@),
        decreases s.len() - i,
    {
        let ghost rest = s@.skip(i as int);
        let mut matched = false;
        if pat.len() <= s.len() - i {
            let mut k: usize = 0;
            while k < pat.len() && s[i + k] == pat[k]
                invariant
                    i + pat.len() <= s.len(),
                    k <= pat.len(),
                    forall|m: int| 0 <= m < k ==> s@[i + m] == pat@[m],
                decreases pat.len() - k,
            {
                k += 1;
            }
            matched = k == pat.len();
            if !matched {
                assert(rest.take(pat.len() as int)[k as int] != pat@[k as int]);
            } else {
                assert(rest.take(pat.len() as int) =~= pat@);
            }
        }
        if matched {
            assert(rest.skip(pat.len() as int) =~= s@.skip(i + pat.len()));
            let ghost before = out@;
            append_chars_vec(&mut out, rep);
            assert(out@ + replace_all(s@.skip(i + pat.len()), pat@, rep@) =~= before + (rep@ + replace_all(
                rest.skip(pat.len() as int),
                pat@,
                rep@,
            )));
            i = i + pat.len();
        } else {
            assert(rest.skip(1) =~= s@.skip(i + 1));
            let ghost before = out@;
            out.push(s[i]);
            assert(out@ + replace_all(s@.skip(i + 1), pat@, rep@) =~= before + (seq![rest[0]] + replace_all(
                rest.skip(1),
                pat@,
                rep@,
            )));
            i += 1;
        }
    }
    assert(s@.skip(i as int) =~= Seq::<char>::empty());
    assert(out@ + Seq::<char>::empty() =~= out@);
    out
}

fn append_chars_vec(out: &mut Vec<char>, t: &Vec<char>)
    ensures
        final(out)@ == old(out)@ + t@,
{
    let mut i: usize = 0;
    while i < t.len()
        invariant
            i <= t.len(),
            out@ == old(out)@ + t@.take(i as int),
        decreases t.len() - i,
    {
        out.push(t[i]);
        assert(t@.take(i + 1) == t@.take(i as int).push(t@[i as int]));
        i += 1;
    }
    assert(t@.take(t@.len() as int) == t@);
}

/// Replaces every `{name}` placeholder with the formatted value of that
/// parameter, parameter by parameter in order.
pub fn substitute_braces(template: &str, values: &Vec<(String, FormattedValue)>) -> (r: String)
    ensures
        r@ == braces_spec(template@, values_v(values@)),
{
    let ghost vs = values_v(values@);
    let mut cur = chars_of(template);
    let mut i: usize = 0;
    while i < values.len()
        invariant
            vs == values_v(values@),
            i <= values.len(),
            cur@ == braces_spec(template@, vs.take(i as int)),
        decreases values.len() - i,
    {
        let mut pat: Vec<char> = Vec::new();
        pat.push('{');
        let name = chars_of(values[i].0.as_str());
        append_chars_vec(&mut pat, &name);
        pat.push('}');
        assert(pat@ =~= placeholder(vs[i as int].0));
        let rep = chars_of(values[i].1.text.as_str());
        assert(vs.take(i + 1).drop_last() =~= vs.take(i as int));
        assert(vs.take(i + 1).last() == vs[i as int]);
        cur = replace_chars(&cur, &pat, &rep);
        i += 1;
    }
    assert(vs.take(i as int) =~= vs);
    string_of_all(&cur)
}

/// The value of the parameter called `name`, if any.
pub open spec fn lookup(ps: ValuesV, name: Seq<char>) -> Option<(Seq<char>, bool)>
    decreases ps.len(),
{
    if ps.len() == 0 {
        None
    } else if ps[0].0 == name {
        Some((ps[0].1, ps[0].2))
    } else {
        lookup(ps.drop_first(), name)
    }
}

/// How a value stands in an expression: negative values in parentheses.
pub open spec fn rendered(v: (Seq<char>, bool)) -> Seq<char> {
    if v.1 {
        seq!['('] + v.0 + seq![')']
    } else {
        v.0
    }
}

/// Substitution into an expression from position `i`: an identifier (a run
/// of letters, digits and `_` that starts with a letter or `_` and does not
/// continue a previous run) naming a parameter becomes its value.
pub open spec fn identifiers_from(t: Seq<char>, i: int, prev: bool, ps: ValuesV) -> Seq<char>
    decreases t.len() - i,
{
    if i < 0 || i >= t.len() {
        Seq::empty()
    } else {
        let c = t[i];
        if (is_alpha(c) || c == '_') && !prev {
            let j = run_end(t, i, true);
            proof {
                lemma_run_end(t, i, true);
            }
            let ident = t.subrange(i, j);
            let text = match lookup(ps, ident) {
                Some(v) => rendered(v),
                None => ident,
            };
            text + identifiers_from(t, j, true, ps)
        } else {
            seq![c] + identifiers_from(t, i + 1, in_run(c, true), ps)
        }
    }
}

fn lookup_value(values: &Vec<(String, FormattedValue)>, name: &Vec<char>) -> (r: Option<usize>)
    ensures
        match r {
            Some(k) => k < values.len() && lookup(values_v(values@), name@) == Some(
                (values@[k as int].1.text@, values@[k as int].1.negative),
            ),
            None => lookup(values_v(values@), name@) is None,
        },
{
    let ghost vs = values_v(values@);
    let mut k: usize = 0;
    assert(vs.skip(0) =~= vs);
    while k < values.len()
        invariant
            vs == values_v(values@),
            k <= values.len(),
            lookup(vs, name@) == lookup(vs.skip(k as int), name@),
        decreases values.len() - k,
    {
        let key = chars_of(values[k].0.as_str());
        assert(vs.skip(k as int)[0] == vs[k as int]);
        assert(vs.skip(k as int).drop_first() =~= vs.skip(k + 1));
        if chars_eq(&key, name) {
            return Some(k);
        }
        k += 1;
    }
    None
}

/// Replaces each identifier of `expression` that names a parameter with its
/// formatted value; a negative value is put in parentheses.
pub fn substitute_identifiers(expression: &str, values: &Vec<(String, FormattedValue)>) -> (r: String)
    ensures
        r@ == identifiers_from(expression@, 0, false, values_v(values@)),
{
    let ghost vs = values_v(values@);
    let t = chars_of(expression);
    let mut out: Vec<char> = Vec::new();
    let mut prev = false;
    let mut i: usize = 0;
    while i < t.len()
        invariant
            vs == values_v(values@),
            t@ == expression@,
            i <= t.len(),
            identifiers_from(t@, 0, false, vs) == out@ + identifiers_from(t@, i as int, prev, vs),
        decreases t.len() - i,
    {
        let c = t[i];
        let ghost before = out@;
        if (('a' <= c && c <= 'z') || ('A' <= c && c <= 'Z') || c == '_') && !prev {
            let mut j: usize = i;
            while j < t.len() && (('a' <= t[j] && t[j] <= 'z') || ('A' <= t[j] && t[j] <= 'Z') || ('0' <= t[j] && t[j] <= '9') || t[j] == '_')
                invariant
                    i <= j <= t.len(),
                    run_end(t@, i as int, true) == run_end(t@, j as int, true),
                decreases t.len() - j,
            {
                j += 1;
            }
            proof {
                lemma_run_end(t@, i as int, true);
                lemma_run_end(t@, j as int, true);
            }
            let mut ident: Vec<char> = Vec::new();
            let mut m: usize = i;
            while m < j
                invariant
                    i <= m <= j <= t.len(),
                    ident@ == t@.subrange(i as int, m as int),
                decreases j - m,
            {
                ident.push(t[m]);
                assert(t@.subrange(i as int, m + 1) == t@.subrange(i as int, m as int).push(t@[m as int]));
                m += 1;
            }
            match lookup_value(values, &ident) {
                Some(k) => {
                    let text = chars_of(values[k].1.text.as_str());
                    if values[k].1.negative {
                        out.push('(');
                        append_chars_vec(&mut out, &text);
                        out.push(')');
                    } else {
                        append_chars_vec(&mut out, &text);
                    }
                },
                None => {
                    append_chars_vec(&mut out, &ident);
                },
            }
            proof {
                let text = match lookup(vs, ident@) {
                    Some(v) => rendered(v),
                    None => ident@,
                };
                assert(out@ =~= before + text);
                assert(out@ + identifiers_from(t@, j as int, true, vs) =~= before + (text + identifiers_from(
                    t@,
                    j as int,
                    true,
                    vs,
                )));
            }
            prev = true;
            i = j;
        } else {
            out.push(c);
            assert(out@ + identifiers_from(t@, i + 1, in_run(c, true), vs) =~= before + (seq![c] + identifiers_from(
                t@,
                i + 1,
                in_run(c, true),
                vs,
            )));
            prev = ('a' <= c && c <= 'z') || ('A' <= c && c <= 'Z') || ('0' <= c && c <= '9') || c == '_';
            i += 1;
        }
    }
    assert(out@ + Seq::<char>::empty() =~= out@);
    string_of_all(&out)
}

} // verus!

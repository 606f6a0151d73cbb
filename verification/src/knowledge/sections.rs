//! Markdown bodies made of three recognised `## ` sections, in a fixed order:
//! the shared grammar of example bodies and problem-family bodies.
use vstd::prelude::*;

use crate::text::{
    first_where, lemma_first_where, lemma_first_where_none,
    chars_blank, chars_eq, chars_start_with, is_blank, join, join_vec, lines_of, lines_vec,
    starts_with, trim, trim_bounds, trim_end_char, trim_end_char_bound, slice_of, string_of, views,
};

verus! {

/// How a body line reads once trailing carriage returns are removed.
pub enum LineKind {
    /// One of the three recognised headings (its position in the fixed order).
    Heading(int),
    /// Some other `## ` heading.
    Unknown,
    /// Anything else.
    Content,
}

pub open spec fn heading_text(line: Seq<char>) -> Seq<char> {
    trim_end_char(line, '\r')
}

pub open spec fn classify(line: Seq<char>, headings: Seq<Seq<char>>) -> LineKind {
    let t = heading_text(line);
    if t == headings[0] {
        LineKind::Heading(0)
    } else if t == headings[1] {
        LineKind::Heading(1)
    } else if t == headings[2] {
        LineKind::Heading(2)
    } else if starts_with(t, "## "@) {
        LineKind::Unknown
    } else {
        LineKind::Content
    }
}

/// A section: the position of its heading and its content lines.
pub type SectionView = (int, Seq<Seq<char>>);

/// Groups lines into a preamble and sections, scanning left to right; the
/// first unknown heading stops the scan with its trimmed text.
pub open spec fn group(
    lines: Seq<Seq<char>>,
    headings: Seq<Seq<char>>,
    pre: Seq<Seq<char>>,
    secs: Seq<SectionView>,
    cur: Option<int>,
    content: Seq<Seq<char>>,
) -> Result<(Seq<Seq<char>>, Seq<SectionView>), Seq<char>>
    decreases lines.len(),
{
    let closed = match cur {
        Some(h) => secs.push((h, content)),
        None => secs,
    };
    if lines.len() == 0 {
        Ok((pre, closed))
    } else {
        let line = lines[0];
        let rest = lines.drop_first();
        match classify(line, headings) {
            LineKind::Heading(k) => group(rest, headings, pre, closed, Some(k), Seq::empty()),
            LineKind::Unknown => Err(trim(heading_text(line))),
            LineKind::Content => match cur {
                Some(h) => group(rest, headings, pre, secs, Some(h), content.push(line)),
                None => group(rest, headings, pre.push(line), secs, None, content),
            },
        }
    }
}

pub open spec fn dup_at(secs: Seq<SectionView>, i: int) -> bool {
    exists|j: int| 0 <= j < i && secs[j].0 == secs[i].0
}

pub open spec fn misordered_at(secs: Seq<SectionView>, i: int) -> bool {
    1 <= i && secs[i].0 < secs[i - 1].0
}

/// The predicate "section `i` has heading `h`".
pub open spec fn has_heading(secs: Seq<SectionView>, h: int) -> spec_fn(int) -> bool {
    |i: int| secs[i].0 == h
}

/// The text of the section with heading `h`: its lines joined and trimmed.
pub open spec fn section_text(secs: Seq<SectionView>, h: int) -> Option<Seq<char>> {
    match first_where(secs.len() as int, has_heading(secs, h)) {
        Some(i) => Some(trim(join(secs[i].1, seq!['\n']))),
        None => None,
    }
}

/// A hint line is `- ` followed by the hint.
pub open spec fn hint_bad(line: Seq<char>) -> bool {
    !is_blank(line) && !starts_with(line, "- "@)
}

pub open spec fn hint_of(line: Seq<char>) -> Seq<char> {
    trim(trim_end_char(line.skip(2), '\r'))
}

/// The hints of the non-blank lines, in order.
pub open spec fn hint_texts(lines: Seq<Seq<char>>) -> Seq<Seq<char>>
    decreases lines.len(),
{
    if lines.len() == 0 {
        Seq::empty()
    } else if is_blank(lines.last()) {
        hint_texts(lines.drop_last())
    } else {
        hint_texts(lines.drop_last()).push(hint_of(lines.last()))
    }
}

/// Why a body is rejected; section numbers are positions in the fixed order.
pub enum BodyFailure {
    UnknownHeading(Seq<char>),
    ContentBeforeFirst,
    Duplicate(int),
    OutOfOrder(int),
    Missing(int),
    InvalidHintLine(Seq<char>),
    EmptyHints,
}

/// The parsed body: first section text, second section text, hints.
pub type BodyView = (Seq<char>, Seq<char>, Seq<Seq<char>>);

/// What parsing a body gives. Checks run in this order: unknown headings,
/// content before the first section, repeated sections, sections out of order,
/// the first two sections missing or empty, then the hints (one per `- ` line,
/// blank lines skipped; when `hints_required`, a hints section with none fails).
#[verifier::opaque]
pub open spec fn body_spec(body: Seq<char>, headings: Seq<Seq<char>>, hints_required: bool) -> Result<
    BodyView,
    BodyFailure,
> {
    match group(lines_of(body), headings, Seq::empty(), Seq::empty(), None, Seq::empty()) {
        Err(h) => Err(BodyFailure::UnknownHeading(h)),
        Ok((pre, secs)) => {
            if exists|i: int| 0 <= i < pre.len() && !is_blank(pre[i]) {
                Err(BodyFailure::ContentBeforeFirst)
            } else if first_where(secs.len() as int, |i: int| dup_at(secs, i)) is Some {
                Err(
                    BodyFailure::Duplicate(
                        secs[first_where(secs.len() as int, |i: int| dup_at(secs, i)).unwrap()].0,
                    ),
                )
            } else if first_where(secs.len() as int, |i: int| misordered_at(secs, i)) is Some {
                Err(
                    BodyFailure::OutOfOrder(
                        secs[first_where(secs.len() as int, |i: int| misordered_at(secs, i)).unwrap()].0,
                    ),
                )
            } else {
                assemble_spec(secs, hints_required)
            }
        },
    }
}

/// The last checks of `body_spec`, on well-formed sections: the first two
/// sections present and non-empty, then the hints.
pub open spec fn assemble_spec(secs: Seq<SectionView>, hints_required: bool) -> Result<BodyView, BodyFailure> {
    if section_text(secs, 0) is None || section_text(secs, 0).unwrap().len() == 0 {
        Err(BodyFailure::Missing(0))
    } else if section_text(secs, 1) is None || section_text(secs, 1).unwrap().len() == 0 {
        Err(BodyFailure::Missing(1))
    } else {
        match hints_spec(secs, hints_required) {
            Err(e) => Err(e),
            Ok(h) => Ok((section_text(secs, 0).unwrap(), section_text(secs, 1).unwrap(), h)),
        }
    }
}

/// The hints of the third section: none without it; otherwise one per `- `
/// line, blank lines skipped.
pub open spec fn hints_spec(secs: Seq<SectionView>, hints_required: bool) -> Result<Seq<Seq<char>>, BodyFailure> {
    match first_where(secs.len() as int, has_heading(secs, 2)) {
        None => Ok(Seq::empty()),
        Some(i) => {
            let lines = secs[i].1;
            match first_where(lines.len() as int, |j: int| hint_bad(lines[j])) {
                Some(j) => Err(BodyFailure::InvalidHintLine(lines[j])),
                None => if hints_required && hint_texts(lines).len() == 0 {
                    Err(BodyFailure::EmptyHints)
                } else {
                    Ok(hint_texts(lines))
                },
            }
        },
    }
}

/// Without `hints_required`, no body fails for an empty hints section.
pub proof fn lemma_hints_optional(body: Seq<char>, headings: Seq<Seq<char>>)
    ensures
        !(body_spec(body, headings, false) matches Err(BodyFailure::EmptyHints)),
{
    reveal(body_spec);
}

/// What the exec parser hands back on failure.
pub enum BodyError {
    UnknownHeading(String),
    ContentBeforeFirst,
    Duplicate(usize),
    OutOfOrder(usize),
    Missing(usize),
    InvalidHintLine(String),
    EmptyHints,
}

pub open spec fn body_agrees(r: Result<(String, String, Vec<String>), BodyError>, expected: Result<BodyView, BodyFailure>) -> bool {
    match (r, expected) {
        (Ok((a, b, h)), Ok((ea, eb, eh))) => a@ == ea && b@ == eb && h@.map_values(|s: String| s@) == eh,
        (Err(BodyError::UnknownHeading(t)), Err(BodyFailure::UnknownHeading(et))) => t@ == et,
        (Err(BodyError::ContentBeforeFirst), Err(BodyFailure::ContentBeforeFirst)) => true,
        (Err(BodyError::Duplicate(k)), Err(BodyFailure::Duplicate(ek))) => k == ek,
        (Err(BodyError::OutOfOrder(k)), Err(BodyFailure::OutOfOrder(ek))) => k == ek,
        (Err(BodyError::Missing(k)), Err(BodyFailure::Missing(ek))) => k == ek,
        (Err(BodyError::InvalidHintLine(t)), Err(BodyFailure::InvalidHintLine(et))) => t@ == et,
        (Err(BodyError::EmptyHints), Err(BodyFailure::EmptyHints)) => true,
        _ => false,
    }
}

/// A section as the exec parser holds it.
pub struct Section {
    pub heading: usize,
    pub lines: Vec<Vec<char>>,
}

pub open spec fn section_views(s: Seq<Section>) -> Seq<SectionView> {
    s.map_values(|x: Section| (x.heading as int, views(x.lines@)))
}

fn classify_line(line: &Vec<char>, headings: &Vec<Vec<char>>) -> (r: (usize, bool))
    requires
        headings.len() == 3,
    ensures
        r.0 < 3 ==> classify(line@, views(headings@)) == LineKind::Heading(r.0 as int),
        r.0 >= 3 && r.1 ==> classify(line@, views(headings@)) == LineKind::Unknown,
        r.0 >= 3 && !r.1 ==> classify(line@, views(headings@)) == LineKind::Content,
{
    let e = trim_end_char_bound(line, 0, line.len(), '\r');
    let t = slice_of(line, 0, e);
    proof {
        assert(line@.subrange(0, line@.len() as int) =~= line@);
        assert(views(headings@)[0] == headings@[0]@);
        assert(views(headings@)[1] == headings@[1]@);
        assert(views(headings@)[2] == headings@[2]@);
        reveal_strlit("## ");
    }
    if chars_eq(&t, &headings[0]) {
        (0, false)
    } else if chars_eq(&t, &headings[1]) {
        (1, false)
    } else if chars_eq(&t, &headings[2]) {
        (2, false)
    } else {
        let p: Vec<char> = vec!['#', '#', ' '];
        assert(p@ =~= "## "@);
        (3, chars_start_with(&t, &p))
    }
}

/// Groups the lines of a body into preamble and sections.
fn group_lines(lines: &Vec<Vec<char>>, headings: &Vec<Vec<char>>) -> (r: Result<
    (Vec<Vec<char>>, Vec<Section>),
    String,
>)
    requires
        headings.len() == 3,
    ensures
        match (r, group(views(lines@), views(headings@), Seq::empty(), Seq::empty(), None, Seq::empty())) {
            (Ok((p, s)), Ok((ep, es))) => views(p@) == ep && section_views(s@) == es,
            (Err(t), Err(et)) => t@ == et,
            _ => false,
        },
{
    let ghost hv = views(headings@);
    let ghost lv = views(lines@);
    let mut pre: Vec<Vec<char>> = Vec::new();
    let mut secs: Vec<Section> = Vec::new();
    let mut cur: Option<usize> = None;
    let mut content: Vec<Vec<char>> = Vec::new();
    let mut i: usize = 0;
    assert(lv.skip(0) =~= lv);
    assert(views(pre@) =~= Seq::<Seq<char>>::empty());
    assert(views(content@) =~= Seq::<Seq<char>>::empty());
    assert(section_views(secs@) =~= Seq::<SectionView>::empty());
    while i < lines.len()
        invariant
            headings.len() == 3,
            hv == views(headings@),
            lv == views(lines@),
            i <= lines.len(),
            group(lv, hv, Seq::empty(), Seq::empty(), None, Seq::empty()) == group(
                lv.skip(i as int),
                hv,
                views(pre@),
                section_views(secs@),
                match cur {
                    Some(h) => Some(h as int),
                    None => None,
                },
                views(content@),
            ),
            cur matches Some(h) ==> h < 3,
        decreases lines.len() - i,
    {
        let line = &lines[i];
        let ghost rest = lv.skip(i as int);
        assert(rest[0] == line@);
        assert(rest.drop_first() =~= lv.skip(i + 1));
        let (k, unknown) = classify_line(line, headings);
        if k < 3 {
            match cur {
                Some(h) => {
                    let ghost before = secs@;
                    let finished = Section { heading: h, lines: content };
                    secs.push(finished);
                    assert(section_views(secs@) =~= section_views(before).push((h as int, views(finished.lines@))));
                },
                None => {},
            }
            cur = Some(k);
            content = Vec::new();
            assert(views(content@) =~= Seq::<Seq<char>>::empty());
        } else if unknown {
            let e = trim_end_char_bound(line, 0, line.len(), '\r');
            let (a, b) = trim_bounds(line, 0, e);
            assert(line@.subrange(0, line@.len() as int) =~= line@);
            return Err(string_of(line, a, b));
        } else {
            let copy = slice_of(line, 0, line.len());
            assert(line@.subrange(0, line@.len() as int) =~= line@);
            match cur {
                Some(_) => {
                    let ghost before = content@;
                    content.push(copy);
                    assert(views(content@) =~= views(before).push(line@));
                },
                None => {
                    let ghost before = pre@;
                    pre.push(copy);
                    assert(views(pre@) =~= views(before).push(line@));
                },
            }
        }
        i += 1;
    }
    assert(lv.skip(i as int) =~= Seq::<Seq<char>>::empty());
    match cur {
        Some(h) => {
            let ghost before = secs@;
            let finished = Section { heading: h, lines: content };
            secs.push(finished);
            assert(section_views(secs@) =~= section_views(before).push((h as int, views(finished.lines@))));
        },
        None => {},
    }
    Ok((pre, secs))
}

/// The trimmed, joined text of `lines`.
fn joined_trimmed(lines: &Vec<Vec<char>>) -> (r: String)
    ensures
        r@ == trim(join(views(lines@), seq!['\n'])),
{
    let joined = join_vec(lines, 0, lines.len(), '\n');
    assert(views(lines@).subrange(0, lines@.len() as int) =~= views(lines@));
    let (a, b) = trim_bounds(&joined, 0, joined.len());
    assert(joined@.subrange(0, joined@.len() as int) =~= joined@);
    string_of(&joined, a, b)
}

fn find_section(secs: &Vec<Section>, h: usize) -> (r: Option<usize>)
    ensures
        ({
            let sv = section_views(secs@);
            &&& r matches Some(i) ==> i < secs.len() && first_where(sv.len() as int, has_heading(sv, h as int)) == Some(i as int)
            &&& r is None ==> first_where(sv.len() as int, has_heading(sv, h as int)) is None
        }),
{
    let ghost sv = section_views(secs@);
    let ghost p = has_heading(sv, h as int);
    let mut i: usize = 0;
    while i < secs.len()
        invariant
            sv == section_views(secs@),
            p == has_heading(sv, h as int),
            i <= secs.len(),
            forall|j: int| 0 <= j < i ==> !#[trigger] p(j),
        decreases secs.len() - i,
    {
        assert(sv[i as int].0 == secs@[i as int].heading as int);
        if secs[i].heading == h {
            proof {
                assert(p(i as int));
                lemma_first_where(sv.len() as int, p, i as int);
            }
            return Some(i);
        }
        i += 1;
    }
    proof {
        lemma_first_where_none(sv.len() as int, p);
    }
    None
}

fn parse_hint_lines(lines: &Vec<Vec<char>>) -> (r: Result<Vec<String>, String>)
    ensures
        ({
            let lv = views(lines@);
            match (r, first_where(lv.len() as int, |j: int| hint_bad(lv[j]))) {
                (Err(t), Some(j)) => t@ == lv[j],
                (Ok(h), None) => h@.map_values(|s: String| s@) == hint_texts(lv),
                _ => false,
            }
        }),
{
    let ghost lv = views(lines@);
    let ghost p = |j: int| hint_bad(lv[j]);
    let mut hints: Vec<String> = Vec::new();
    let dash: Vec<char> = vec!['-', ' '];
    proof {
        reveal_strlit("- ");
    }
    assert(dash@ =~= "- "@);
    let mut i: usize = 0;
    while i < lines.len()
        invariant
            lv == views(lines@),
            p == (|j: int| hint_bad(lv[j])),
            dash@ == "- "@,
            dash.len() == 2,
            i <= lines.len(),
            forall|j: int| 0 <= j < i ==> !#[trigger] p(j),
            hints@.map_values(|s: String| s@) == hint_texts(lv.take(i as int)),
        decreases lines.len() - i,
    {
        let line = &lines[i];
        assert(lv[i as int] == line@);
        assert(lv.take(i + 1).drop_last() =~= lv.take(i as int));
        assert(lv.take(i + 1).last() == line@);
        if chars_blank(line) {
        } else if chars_start_with(line, &dash) {
            assert(line@.len() >= 2);
            let e = trim_end_char_bound(line, 2, line.len(), '\r');
            let (a, b) = trim_bounds(line, 2, e);
            let text = string_of(line, a, b);
            proof {
                assert(line@.skip(2) =~= line@.subrange(2, line@.len() as int));
            }
            let ghost before = hints@;
            hints.push(text);
            assert(hints@.map_values(|s: String| s@) =~= before.map_values(|s: String| s@).push(text@));
        } else {
            let t = string_of(line, 0, line.len());
            proof {
                assert(line@.subrange(0, line@.len() as int) =~= line@);
                assert(p(i as int));
                lemma_first_where(lv.len() as int, p, i as int);
            }
            return Err(t);
        }
        i += 1;
    }
    proof {
        assert(lv.take(i as int) =~= lv);
        lemma_first_where_none(lv.len() as int, p);
    }
    Ok(hints)
}

/// Parses a body with the given three headings.
#[verifier::loop_isolation(false)]
pub fn parse_body(body: &str, headings: &Vec<Vec<char>>, hints_required: bool) -> (r: Result<
    (String, String, Vec<String>),
    BodyError,
>)
    requires
        headings.len() == 3,
    ensures
        body_agrees(r, body_spec(body@, views(headings@), hints_required)),
{
    reveal(body_spec);
    let chars = crate::text::chars_of(body);
    let lines = lines_vec(&chars);
    let (pre, secs) = match group_lines(&lines, headings) {
        Ok(g) => g,
        Err(t) => {
            return Err(BodyError::UnknownHeading(t));
        },
    };
    let ghost pv = views(pre@);
    let ghost sv = section_views(secs@);
    let mut i: usize = 0;
    while i < pre.len()
        invariant
            pv == views(pre@),
            i <= pre.len(),
            forall|j: int| 0 <= j < i ==> is_blank(pv[j]),
        decreases pre.len() - i,
    {
        if !chars_blank(&pre[i]) {
            assert(!is_blank(pv[i as int]));
            return Err(BodyError::ContentBeforeFirst);
        }
        i += 1;
    }
    let ghost dp = |k: int| dup_at(sv, k);
    let mut i: usize = 0;
    while i < secs.len()
        invariant
            sv == section_views(secs@),
            dp == (|k: int| dup_at(sv, k)),
            forall|j: int| 0 <= j < pv.len() ==> is_blank(pv[j]),
            i <= secs.len(),
            forall|k: int| 0 <= k < i ==> !#[trigger] dp(k),
        decreases secs.len() - i,
    {
        let mut j: usize = 0;
        while j < i
            invariant
                sv == section_views(secs@),
                i < secs.len(),
                j <= i,
                forall|l: int| 0 <= l < j ==> sv[l].0 != sv[i as int].0,
            decreases i - j,
        {
            assert(sv[j as int].0 == secs@[j as int].heading as int);
            assert(sv[i as int].0 == secs@[i as int].heading as int);
            if secs[j].heading == secs[i].heading {
                proof {
                    assert(dup_at(sv, i as int));
                    assert(dp(i as int));
                    lemma_first_where(sv.len() as int, dp, i as int);
                }
                return Err(BodyError::Duplicate(secs[i].heading));
            }
            j += 1;
        }
        proof {
            assert(!dup_at(sv, i as int));
        }
        i += 1;
    }
    proof {
        lemma_first_where_none(sv.len() as int, dp);
    }
    let ghost mp = |k: int| misordered_at(sv, k);
    let mut i: usize = 1;
    while i < secs.len()
        invariant
            sv == section_views(secs@),
            mp == (|k: int| misordered_at(sv, k)),
            1 <= i,
            i <= secs.len() || secs.len() == 0,
            forall|k: int| 0 <= k < i && k < sv.len() ==> !#[trigger] mp(k),
        decreases secs.len() - i,
    {
        assert(sv[i as int].0 == secs@[i as int].heading as int);
        assert(sv[i - 1].0 == secs@[i - 1].heading as int);
        if secs[i].heading < secs[i - 1].heading {
            proof {
                assert(mp(i as int));
                lemma_first_where(sv.len() as int, mp, i as int);
            }
            return Err(BodyError::OutOfOrder(secs[i].heading));
        }
        i += 1;
    }
    proof {
        lemma_first_where_none(sv.len() as int, mp);
    }
    assemble(&secs, hints_required)
}

/// The text of the section with heading `h`, if there is one.
fn text_of_section(secs: &Vec<Section>, h: usize) -> (r: Option<String>)
    ensures
        match r {
            Some(t) => section_text(section_views(secs@), h as int) == Some(t@),
            None => section_text(section_views(secs@), h as int) is None,
        },
{
    let ghost sv = section_views(secs@);
    match find_section(secs, h) {
        Some(k) => {
            assert(sv[k as int].1 == views(secs@[k as int].lines@));
            Some(joined_trimmed(&secs[k].lines))
        },
        None => None,
    }
}

fn hints_of(secs: &Vec<Section>, hints_required: bool) -> (r: Result<Vec<String>, BodyError>)
    ensures
        match (r, hints_spec(section_views(secs@), hints_required)) {
            (Ok(h), Ok(eh)) => h@.map_values(|s: String| s@) == eh,
            (Err(BodyError::InvalidHintLine(t)), Err(BodyFailure::InvalidHintLine(et))) => t@ == et,
            (Err(BodyError::EmptyHints), Err(BodyFailure::EmptyHints)) => true,
            _ => false,
        },
{
    let ghost sv = section_views(secs@);
    match find_section(secs, 2) {
        None => {
            let v: Vec<String> = Vec::new();
            assert(v@.map_values(|s: String| s@) =~= Seq::<Seq<char>>::empty());
            Ok(v)
        },
        Some(k) => {
            assert(sv[k as int].1 == views(secs@[k as int].lines@));
            match parse_hint_lines(&secs[k].lines) {
                Err(t) => Err(BodyError::InvalidHintLine(t)),
                Ok(hints) => {
                    assert(hints@.map_values(|s: String| s@).len() == hints@.len());
                    if hints_required && hints.len() == 0 {
                        Err(BodyError::EmptyHints)
                    } else {
                        Ok(hints)
                    }
                },
            }
        },
    }
}

/// Reads the first two sections and the hints out of checked sections.
fn assemble(secs: &Vec<Section>, hints_required: bool) -> (r: Result<(String, String, Vec<String>), BodyError>)
    ensures
        body_agrees(r, assemble_spec(section_views(secs@), hints_required)),
{
    let first = match text_of_section(secs, 0) {
        Some(t) => t,
        None => {
            return Err(BodyError::Missing(0));
        },
    };
    if first.as_str().is_empty() {
        return Err(BodyError::Missing(0));
    }
    let second = match text_of_section(secs, 1) {
        Some(t) => t,
        None => {
            return Err(BodyError::Missing(1));
        },
    };
    if second.as_str().is_empty() {
        return Err(BodyError::Missing(1));
    }
    match hints_of(secs, hints_required) {
        Err(e) => Err(e),
        Ok(hints) => Ok((first, second, hints)),
    }
}

} // verus!

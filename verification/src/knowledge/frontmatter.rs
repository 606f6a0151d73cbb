//! Splitting an entity file into its TOML frontmatter and its Markdown body.
use vstd::prelude::*;

use crate::text::{
    chars_blank, chars_eq, chars_of, is_blank, join, join_vec, lemma_replace_crlf_undoes_to_crlf, replace_crlf, replace_crlf_vec,
    split_terminator, split_terminator_vec, string_of_all, to_crlf, views,
};

use super::error::KnowledgeError;

verus! {

/// Why a file has no usable frontmatter.
pub enum FrontmatterFailure {
    Bom,
    MissingDelimiter,
    Unterminated,
}

/// The first index `k >= 1` at which `pieces[k]` is the closing `+++`.
pub open spec fn closing_delimiter(pieces: Seq<Seq<char>>) -> Option<int> {
    if exists|k: int| 1 <= k < pieces.len() && pieces[k] == "+++"@ {
        Some(
            choose|k: int|
                1 <= k < pieces.len() && pieces[k] == "+++"@ && forall|j: int|
                    1 <= j < k ==> pieces[j] != "+++"@,
        )
    } else {
        None
    }
}

/// The first index of `lines` at or after which no line is blank... the first
/// non-blank line, or `lines.len()` when all are blank.
pub open spec fn first_non_blank(lines: Seq<Seq<char>>) -> int {
    if exists|i: int| 0 <= i < lines.len() && !is_blank(lines[i]) {
        choose|i: int|
            0 <= i < lines.len() && !is_blank(lines[i]) && forall|j: int| 0 <= j < i ==> is_blank(lines[j])
    } else {
        lines.len() as int
    }
}

/// Lines joined with `\n`, each one ended by it.
pub open spec fn joined_lines(lines: Seq<Seq<char>>) -> Seq<char> {
    join(lines, seq!['\n']) + seq!['\n']
}

/// The frontmatter text and the body text of `raw`: the file must open with a
/// `+++` line and close the frontmatter with another; line endings are
/// normalised to `\n`; blank lines at the start of the body are dropped.
pub open spec fn frontmatter_spec(raw: Seq<char>) -> Result<(Seq<char>, Seq<char>), FrontmatterFailure> {
    if raw.len() > 0 && raw[0] == '\u{feff}' {
        Err(FrontmatterFailure::Bom)
    } else {
        let pieces = split_terminator(replace_crlf(raw), '\n');
        if pieces.len() == 0 || pieces[0] != "+++"@ {
            Err(FrontmatterFailure::MissingDelimiter)
        } else if closing_delimiter(pieces) is None {
            Err(FrontmatterFailure::Unterminated)
        } else {
            let k = closing_delimiter(pieces).unwrap();
            let remaining = pieces.skip(k + 1);
            let start = first_non_blank(remaining);
            let body = if start >= remaining.len() {
                Seq::empty()
            } else {
                joined_lines(remaining.skip(start))
            };
            Ok((joined_lines(pieces.subrange(1, k)), body))
        }
    }
}

/// Law: a file written with `\r\n` line endings reads exactly as the same
/// file written with `\n` (the same frontmatter and body, or the same
/// failure), when it has no other carriage return.
pub proof fn lemma_crlf_endings_read_alike(raw: Seq<char>)
    requires
        !raw.contains('\r'),
    ensures
        frontmatter_spec(to_crlf(raw)) == frontmatter_spec(raw),
{
    lemma_replace_crlf_undoes_to_crlf(raw);
    assert(replace_crlf(raw) == raw) by {
        lemma_replace_crlf_identity(raw);
    }
}

proof fn lemma_replace_crlf_identity(s: Seq<char>)
    requires
        !s.contains('\r'),
    ensures
        replace_crlf(s) == s,
    decreases s.len(),
{
    if s.len() > 0 {
        let rest = s.drop_first();
        assert(!rest.contains('\r')) by {
            if rest.contains('\r') {
                let k = choose|k: int| 0 <= k < rest.len() && rest[k] == '\r';
                assert(s[k + 1] == '\r');
            }
        }
        lemma_replace_crlf_identity(rest);
        assert(s[0] != '\r');
        assert(seq![s[0]] + rest =~= s);
    }
}

pub open spec fn frontmatter_agrees(
    r: Result<(String, String), KnowledgeError>,
    path: Seq<char>,
    expected: Result<(Seq<char>, Seq<char>), FrontmatterFailure>,
) -> bool {
    match expected {
        Ok((toml, body)) => r matches Ok((t, b)) && t@ == toml && b@ == body,
        Err(FrontmatterFailure::Bom) => r matches Err(KnowledgeError::Bom { path: p }) && p@ == path,
        Err(FrontmatterFailure::MissingDelimiter) => r matches Err(
            KnowledgeError::MissingFrontmatterDelimiter { path: p },
        ) && p@ == path,
        Err(FrontmatterFailure::Unterminated) => r matches Err(
            KnowledgeError::UnterminatedFrontmatter { path: p },
        ) && p@ == path,
    }
}

fn is_delimiter(line: &Vec<char>) -> (r: bool)
    ensures
        r == (line@ == "+++"@),
{
    proof {
        reveal_strlit("+++");
    }
    let d: Vec<char> = vec!['+', '+', '+'];
    assert(d@ =~= "+++"@);
    chars_eq(line, &d)
}

/// Splits an entity file into (frontmatter TOML, Markdown body).
#[verifier::rlimit(40)]
pub fn split_frontmatter(path: &str, raw: &str) -> (r: Result<(String, String), KnowledgeError>)
    ensures
        frontmatter_agrees(r, path@, frontmatter_spec(raw@)),
{
    let chars = chars_of(raw);
    if chars.len() > 0 && chars[0] == '\u{feff}' {
        return Err(KnowledgeError::Bom { path: path.to_owned() });
    }
    let normalized = replace_crlf_vec(&chars);
    let pieces = split_terminator_vec(&normalized, '\n');
    let ghost pv = views(pieces@);
    if pieces.len() == 0 || !is_delimiter(&pieces[0]) {
        return Err(KnowledgeError::MissingFrontmatterDelimiter { path: path.to_owned() });
    }
    let mut k: usize = 1;
    while k < pieces.len() && !is_delimiter(&pieces[k])
        invariant
            pv == views(pieces@),
            1 <= k <= pieces.len(),
            forall|j: int| 1 <= j < k ==> pv[j] != "+++"@,
        decreases pieces.len() - k,
    {
        k += 1;
    }
    if k == pieces.len() {
        return Err(KnowledgeError::UnterminatedFrontmatter { path: path.to_owned() });
    }
    proof {
        assert(pv[k as int] == "+++"@);
        let c = choose|c: int|
            1 <= c < pv.len() && pv[c] == "+++"@ && forall|j: int| 1 <= j < c ==> pv[j] != "+++"@;
        if c < k {
            assert(pv[c] != "+++"@);
        }
        if k < c {
            assert(pv[k as int] != "+++"@);
        }
    }
    let mut toml = join_vec(&pieces, 1, k, '\n');
    toml.push('\n');
    let mut start: usize = k + 1;
    while start < pieces.len() && chars_blank(&pieces[start])
        invariant
            pv == views(pieces@),
            k + 1 <= start <= pieces.len(),
            forall|j: int| k + 1 <= j < start ==> is_blank(pv[j]),
        decreases pieces.len() - start,
    {
        start += 1;
    }
    let ghost remaining = pv.skip(k + 1);
    proof {
        let s = start - (k + 1);
        assert forall|j: int| 0 <= j < s implies is_blank(remaining[j]) by {
            assert(remaining[j] == pv[j + k + 1]);
        }
        if start < pieces.len() {
            assert(!is_blank(remaining[s]));
            let c = choose|c: int|
                0 <= c < remaining.len() && !is_blank(remaining[c]) && forall|j: int|
                    0 <= j < c ==> is_blank(remaining[j]);
            if c < s {
                assert(is_blank(remaining[c]));
            }
            if s < c {
                assert(is_blank(remaining[s]));
            }
            assert(first_non_blank(remaining) == s);
        } else {
            assert(first_non_blank(remaining) == remaining.len());
        }
        assert(remaining.skip(s) =~= pv.subrange(start as int, pv.len() as int));
        assert(pv.subrange(1, k as int) =~= pv.subrange(1, k as int));
    }
    let body = if start >= pieces.len() {
        String::new()
    } else {
        let mut b = join_vec(&pieces, start, pieces.len(), '\n');
        b.push('\n');
        string_of_all(&b)
    };
    let t = string_of_all(&toml);
    proof {
        assert(pv == split_terminator(replace_crlf(raw@), '\n'));
        assert(closing_delimiter(pv) == Some(k as int));
        assert(t@ == joined_lines(pv.subrange(1, k as int)));
        if start >= pieces.len() {
            assert(body@ == Seq::<char>::empty());
        } else {
            assert(body@ == joined_lines(remaining.skip(first_non_blank(remaining))));
        }
    }
    Ok((t, body))
}

} // verus!

//! The rules an entity directory's entries follow: plain `<id>.md` files, no
//! subdirectories, and each file declaring the id its name implies. The
//! loader lists the directories and reads the files; these functions decide.
use vstd::prelude::*;

use crate::text::{chars_eq, chars_of, last_where, lemma_last_where, lemma_last_where_none, string_of};

use super::error::KnowledgeError;

verus! {

/// The positions of `.` in a file name.
pub open spec fn dot_at(name: Seq<char>) -> spec_fn(int) -> bool {
    |i: int| name[i] == '.'
}

/// A file name split into stem and extension as `Path::file_stem` and
/// `Path::extension` do: at the last `.`, unless that dot starts the name (a
/// hidden file) or the name is `..`; then the whole name is the stem.
pub open spec fn stem_and_extension(name: Seq<char>) -> (Seq<char>, Option<Seq<char>>) {
    if name == ".."@ {
        (name, None)
    } else {
        match last_where(name.len() as int, dot_at(name)) {
            Some(k) => if k == 0 {
                (name, None)
            } else {
                (name.take(k), Some(name.skip(k + 1)))
            },
            None => (name, None),
        }
    }
}

/// The stem and extension of a file name.
#[verifier::loop_isolation(false)]
pub fn split_file_name(name: &str) -> (r: (String, Option<String>))
    ensures
        r.0@ == stem_and_extension(name@).0,
        match (r.1, stem_and_extension(name@).1) {
            (Some(e), Some(x)) => e@ == x,
            (None, None) => true,
            _ => false,
        },
{
    let v = chars_of(name);
    let dots: Vec<char> = vec!['.', '.'];
    proof {
        reveal_strlit("..");
        assert(dots@ =~= ".."@);
    }
    if chars_eq(&v, &dots) {
        return (string_of(&v, 0, v.len()), None);
    }
    let ghost p = dot_at(v@);
    let mut i: usize = v.len();
    while i > 0
        invariant
            i <= v.len(),
            p == dot_at(v@),
            forall|j: int| i <= j < v.len() ==> !#[trigger] p(j),
        decreases i,
    {
        if v[i - 1] == '.' {
            proof {
                lemma_last_where(v.len() as int, p, i - 1);
            }
            if i - 1 == 0 {
                assert(v@.subrange(0, v.len() as int) =~= v@);
                return (string_of(&v, 0, v.len()), None);
            }
            let stem = string_of(&v, 0, i - 1);
            let ext = string_of(&v, i, v.len());
            proof {
                assert(v@.subrange(0, i - 1) =~= v@.take(i - 1));
                assert(v@.subrange(i as int, v.len() as int) =~= v@.skip(i as int));
            }
            return (stem, Some(ext));
        }
        i -= 1;
    }
    proof {
        lemma_last_where_none(v.len() as int, p);
        assert(v@.subrange(0, v.len() as int) =~= v@);
    }
    (string_of(&v, 0, v.len()), None)
}

/// What an entry of an entity directory must be: not a directory, and a file
/// whose extension is `md`.
pub open spec fn entry_outcome(path: Seq<char>, file_name: Seq<char>, is_dir: bool, r: Result<(), KnowledgeError>) -> bool {
    if is_dir {
        r matches Err(KnowledgeError::NestedEntityDirectory { path: p }) && p@ == path
    } else if stem_and_extension(file_name).1 != Some("md"@) {
        r matches Err(KnowledgeError::UnexpectedEntityFile { path: p }) && p@ == path
    } else {
        r is Ok
    }
}

/// Checks one entry (its path, its file name, whether it is a directory) of an
/// entity directory.
pub fn check_entity_entry(path: &str, file_name: &str, is_dir: bool) -> (r: Result<(), KnowledgeError>)
    ensures
        entry_outcome(path@, file_name@, is_dir, r),
{
    if is_dir {
        return Err(KnowledgeError::NestedEntityDirectory { path: path.to_owned() });
    }
    let (_, ext) = split_file_name(file_name);
    let md: Vec<char> = vec!['m', 'd'];
    proof {
        reveal_strlit("md");
        assert(md@ =~= "md"@);
    }
    match ext {
        Some(e) => {
            let ev = chars_of(e.as_str());
            if chars_eq(&ev, &md) {
                Ok(())
            } else {
                Err(KnowledgeError::UnexpectedEntityFile { path: path.to_owned() })
            }
        },
        None => Err(KnowledgeError::UnexpectedEntityFile { path: path.to_owned() }),
    }
}

/// An entity file must declare the id its file name implies (its stem).
pub fn check_entity_id(path: &str, file_name: &str, id: &str) -> (r: Result<(), KnowledgeError>)
    ensures
        stem_and_extension(file_name@).0 == id@ ==> r is Ok,
        stem_and_extension(file_name@).0 != id@ ==> (r matches Err(
            KnowledgeError::FilenameIdMismatch { path: p, filename_id, frontmatter_id },
        ) && p@ == path@ && filename_id@ == stem_and_extension(file_name@).0 && frontmatter_id@ == id@),
{
    let (stem, _) = split_file_name(file_name);
    let a = chars_of(stem.as_str());
    let b = chars_of(id);
    if chars_eq(&a, &b) {
        Ok(())
    } else {
        Err(KnowledgeError::FilenameIdMismatch { path: path.to_owned(), filename_id: stem, frontmatter_id: id.to_owned() })
    }
}

} // verus!

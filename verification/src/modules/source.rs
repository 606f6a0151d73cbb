//! Where module manifests come from: an embedded list of (module id, TOML).
use vstd::prelude::*;

use crate::text::{first_where, lemma_first_where, lemma_first_where_none};

use super::identifier::{valid_identifier, ModuleId};
use super::manifest::ManifestError;

verus! {

/// A source of manifests: each module's id with its manifest text.
pub trait ManifestSource {
    fn discover(&self) -> Result<Vec<(ModuleId, String)>, ManifestError>;
}

/// Manifests compiled into the application.
#[derive(Debug, Clone)]
pub struct EmbeddedManifestSource {
    manifests: &'static [(&'static str, &'static str)],
}

impl EmbeddedManifestSource {
    pub fn new(manifests: &'static [(&'static str, &'static str)]) -> (r: Self)
        ensures
            r.entries() == manifests@,
    {
        EmbeddedManifestSource { manifests }
    }

    pub closed spec fn entries(&self) -> Seq<(&'static str, &'static str)> {
        self.manifests@
    }
}

impl ManifestSource for EmbeddedManifestSource {
    /// Every entry with its id checked; the first invalid id is the error.
    fn discover(&self) -> (r: Result<Vec<(ModuleId, String)>, ManifestError>)
        ensures
            match first_where(self.entries().len() as int, |i: int| !valid_identifier(self.entries()[i].0@)) {
                Some(i) => r matches Err(ManifestError::InvalidIdentifier { value }) && value@ == self.entries()[i].0@,
                None => r matches Ok(v) && v.len() == self.entries().len() && forall|i: int|
                    0 <= i < v.len() ==> #[trigger] v@[i].0@ == self.entries()[i].0@ && v@[i].1@
                        == self.entries()[i].1@,
            },
    {
        let ghost es = self.manifests@;
        let ghost bad = |i: int| !valid_identifier(es[i].0@);
        let mut out: Vec<(ModuleId, String)> = Vec::new();
        let mut i: usize = 0;
        while i < self.manifests.len()
            invariant
                es == self.manifests@,
                bad == (|i: int| !valid_identifier(es[i].0@)),
                i <= es.len(),
                out.len() == i,
                forall|l: int| 0 <= l < i ==> !#[trigger] bad(l),
                forall|l: int| 0 <= l < i ==> #[trigger] out@[l].0@ == es[l].0@ && out@[l].1@ == es[l].1@,
            decreases es.len() - i,
        {
            let (id, text) = self.manifests[i];
            match ModuleId::new(id) {
                Ok(m) => {
                    let ghost before = out@;
                    out.push((m, text.to_owned()));
                    assert forall|l: int| 0 <= l < i + 1 implies #[trigger] out@[l].0@ == es[l].0@ && out@[l].1@
                        == es[l].1@ by {
                        if l < i {
                            assert(out@[l] == before[l]);
                        }
                    }
                },
                Err(e) => {
                    proof {
                        assert(bad(i as int));
                        lemma_first_where(es.len() as int, bad, i as int);
                    }
                    return Err(e);
                },
            }
            i += 1;
        }
        proof {
            lemma_first_where_none(es.len() as int, bad);
        }
        Ok(out)
    }
}

} // verus!

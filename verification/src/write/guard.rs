//! The guard that keeps acquisition sources unwritable.
//!
//! Every path opened as a source is registered, and every path about to be written
//! is checked against the registry. Both sides are canonical, so that two
//! spellings of one file cannot let a write slip past.

use vstd::prelude::*;

use crate::error::{malformed, Error, ErrorView, Locus, LocusView};
use crate::text;

verus! {

/// Paths opened as acquisition sources, which must never be written.
#[derive(Debug)]
pub struct SourceRegistry {
    sources: Vec<String>,
}

/// What is said of a write to a source.
pub open spec fn refused_text() -> Seq<char> {
    "refusing to open a write handle on an acquisition source; writing here would modify the evidence being acquired"@
}

/// What asking for a write handle on a path gives: a refusal where its canonical
/// form is a source.
pub open spec fn write_permission(
    sources: Set<Seq<char>>,
    path: Seq<char>,
    canonical: Option<Seq<char>>,
) -> Result<(), ErrorView> {
    if canonical is Some && sources.contains(canonical->Some_0) {
        Err(malformed(LocusView::file(path), refused_text()))
    } else {
        Ok(())
    }
}

/// The text of an optional path.
pub open spec fn path_view(path: Option<&str>) -> Option<Seq<char>> {
    match path {
        Some(p) => Some(p@),
        None => None,
    }
}

impl View for SourceRegistry {
    type V = Set<Seq<char>>;

    closed spec fn view(&self) -> Set<Seq<char>> {
        text::texts(self.sources@).to_set()
    }
}

impl SourceRegistry {
    /// No source is listed twice.
    #[verifier::type_invariant]
    closed spec fn distinct(self) -> bool {
        text::texts(self.sources@).no_duplicates()
    }

    /// An empty registry.
    pub fn new() -> (r: Self)
        ensures
            r@ == Set::<Seq<char>>::empty(),
    {
        let sources: Vec<String> = Vec::new();
        proof {
            assert(text::texts(sources@) =~= Seq::<Seq<char>>::empty());
            assert(Seq::<Seq<char>>::empty().to_set() =~= Set::<Seq<char>>::empty());
        }
        SourceRegistry { sources }
    }

    /// Whether a canonical path is listed.
    fn listed(&self, canonical: &str) -> (r: bool)
        ensures
            r == self@.contains(canonical@),
    {
        let ghost all = text::texts(self.sources@);
        let mut i: usize = 0;
        while i < self.sources.len()
            invariant
                i <= self.sources.len(),
                all == text::texts(self.sources@),
                forall|k: int| 0 <= k < i ==> #[trigger] all[k] != canonical@,
            decreases self.sources.len() - i,
        {
            if text::same(self.sources[i].as_str(), canonical) {
                proof {
                    assert(all[i as int] == canonical@);
                    assert(all.contains(canonical@));
                }
                return true;
            }
            i = i + 1;
        }
        proof {
            assert(!all.contains(canonical@));
        }
        false
    }

    /// Record a path, in canonical form, as an acquisition source.
    pub fn register(&mut self, canonical: &str)
        ensures
            final(self)@ == old(self)@.insert(canonical@),
    {
        if self.listed(canonical) {
            proof {
                assert(self@.insert(canonical@) =~= self@);
            }
            return;
        }
        proof {
            use_type_invariant(&*self);
        }
        let ghost before = text::texts(self.sources@);
        let mut sources: Vec<String> = Vec::new();
        std::mem::swap(&mut sources, &mut self.sources);
        sources.push(text::owned(canonical));
        proof {
            let after = text::texts(sources@);
            assert(after =~= before.push(canonical@));
            assert(!before.contains(canonical@));
            assert(after.no_duplicates());
            assert(after.to_set() =~= before.to_set().insert(canonical@)) by {
                assert forall|s: Seq<char>| after.contains(s) implies before.to_set().insert(
                    canonical@,
                ).contains(s) by {
                    let k = choose|k: int| 0 <= k < after.len() && after[k] == s;
                    if k < before.len() {
                        assert(before[k] == s);
                    }
                }
                assert forall|s: Seq<char>|
                    before.to_set().insert(canonical@).contains(s) implies after.contains(s) by {
                    if s == canonical@ {
                        assert(after[before.len() as int] == s);
                    } else {
                        let k = choose|k: int| 0 <= k < before.len() && before[k] == s;
                        assert(after[k] == s);
                    }
                }
            }
        }
        self.sources = sources;
    }

    /// How many sources are registered.
    pub fn len(&self) -> (r: usize)
        ensures
            r == self@.len(),
    {
        proof {
            use_type_invariant(self);
            text::texts(self.sources@).unique_seq_to_set();
        }
        self.sources.len()
    }

    /// Whether no source has been registered.
    pub fn is_empty(&self) -> (r: bool)
        ensures
            r == (self@.len() == 0),
    {
        self.len() == 0
    }

    /// Whether a path names a registered source, by its canonical form. A path
    /// without one names no existing file, so no source either.
    pub fn is_source(&self, canonical: Option<&str>) -> (r: bool)
        ensures
            r == (canonical is Some && self@.contains(canonical->Some_0@)),
    {
        match canonical {
            Some(path) => self.listed(path),
            None => false,
        }
    }

    /// Refuse if a path is a registered acquisition source.
    pub fn assert_not_source(&self, path: &str, canonical: Option<&str>) -> (r: Result<(), Error>)
        ensures
            (match r {
                Ok(()) => write_permission(self@, path@, path_view(canonical)) is Ok,
                Err(e) => write_permission(self@, path@, path_view(canonical)) == Err::<
                    (),
                    ErrorView,
                >(e@),
            }),
    {
        if self.is_source(canonical) {
            return Err(
                Error::malformed(
                    Locus::new(path),
                    text::owned(
                        "refusing to open a write handle on an acquisition source; writing here would modify the evidence being acquired",
                    ),
                ),
            );
        }
        Ok(())
    }
}

} // verus!

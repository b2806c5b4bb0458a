//! The registrar's domains, listed once per run, and the choice of the
//! registrar domain that a configured domain falls under.

use crate::error::TargetError;
use crate::label::ends_with;
use vstd::prelude::*;

verus! {

/// A domain of the registrar account and the id that the registrar gives it.
#[derive(Clone, Debug)]
pub struct RegistrarDomain {
    pub name: String,
    pub id: i32,
}

/// Whether the registrar domain `d` is a suffix of `name`.
pub open spec fn domain_matches(d: RegistrarDomain, name: Seq<char>) -> bool {
    d.name@.is_suffix_of(name)
}

/// Entry `i` of `doms` is a suffix of `name`, and no other entry that is a
/// suffix of `name` is as long.
pub open spec fn sole_longest(doms: Seq<RegistrarDomain>, name: Seq<char>, i: int) -> bool {
    &&& 0 <= i < doms.len()
    &&& domain_matches(doms[i], name)
    &&& forall|j: int|
        0 <= j < doms.len() && j != i && domain_matches(#[trigger] doms[j], name) ==> doms[j].name@.len()
            < doms[i].name@.len()
}

/// Which entry of `doms` the configured domain `name` falls under: the
/// longest suffix of `name`; an error where none is a suffix, or where the
/// longest is not unique.
pub open spec fn resolve_spec(doms: Seq<RegistrarDomain>, name: Seq<char>) -> Result<
    int,
    TargetError,
> {
    if forall|j: int| 0 <= j < doms.len() ==> !domain_matches(#[trigger] doms[j], name) {
        Err(TargetError::DomainNotFound)
    } else if exists|i: int| sole_longest(doms, name, i) {
        Ok(choose|i: int| sole_longest(doms, name, i))
    } else {
        Err(TargetError::AmbiguousDomain)
    }
}

/// The registrar's domain listing, kept for one run. It starts out not
/// loaded, and is loaded at most once.
pub struct DomainCache {
    domains: Vec<RegistrarDomain>,
    loaded: bool,
}

impl DomainCache {
    pub closed spec fn spec_loaded(&self) -> bool {
        self.loaded
    }

    pub closed spec fn spec_domains(&self) -> Seq<RegistrarDomain> {
        self.domains@
    }

    /// An empty cache, not loaded.
    pub fn new() -> (r: DomainCache)
        ensures
            !r.spec_loaded(),
            r.spec_domains() == Seq::<RegistrarDomain>::empty(),
    {
        DomainCache { domains: Vec::new(), loaded: false }
    }

    pub fn is_loaded(&self) -> (r: bool)
        ensures
            r == self.spec_loaded(),
    {
        self.loaded
    }

    /// Keeps `listing` as the registrar's domains for the rest of the run.
    pub fn load(&mut self, listing: Vec<RegistrarDomain>)
        ensures
            final(self).spec_loaded(),
            final(self).spec_domains() == listing@,
    {
        self.domains = listing;
        self.loaded = true;
    }

    /// The registrar domain that the configured domain `name` falls under
    /// (see `resolve_spec`).
    pub fn resolve(&self, name: &str) -> (r: Result<RegistrarDomain, TargetError>)
        ensures
            r is Ok <==> resolve_spec(self.spec_domains(), name@) is Ok,
            r matches Ok(d) ==> d == self.spec_domains()[resolve_spec(
                self.spec_domains(),
                name@,
            )->Ok_0],
            r matches Err(e) ==> resolve_spec(self.spec_domains(), name@) == Err::<
                int,
                TargetError,
            >(e),
    {
        match self.resolve_index(name) {
            Ok(i) => {
                let d = &self.domains[i];
                Ok(RegistrarDomain { name: d.name.clone(), id: d.id })
            },
            Err(e) => Err(e),
        }
    }

    /// Index form of `resolve`.
    pub fn resolve_index(&self, name: &str) -> (r: Result<usize, TargetError>)
        ensures
            r matches Ok(i) ==> resolve_spec(self.spec_domains(), name@) == Ok::<
                int,
                TargetError,
            >(i as int),
            r matches Err(e) ==> resolve_spec(self.spec_domains(), name@) == Err::<
                int,
                TargetError,
            >(e),
    {
        let ghost doms = self.domains@;
        let ghost nm = name@;
        let mut best: Option<usize> = None;
        let mut tie = false;
        let mut i: usize = 0;
        while i < self.domains.len()
            invariant
                doms == self.domains@,
                nm == name@,
                i <= doms.len(),
                best is None <==> forall|j: int| 0 <= j < i ==> !domain_matches(#[trigger] doms[j], nm),
                best matches Some(b) ==> {
                    &&& b < i
                    &&& domain_matches(doms[b as int], nm)
                    &&& forall|j: int|
                        0 <= j < i && domain_matches(#[trigger] doms[j], nm) ==> doms[j].name@.len()
                            <= doms[b as int].name@.len()
                    &&& tie <==> exists|j: int|
                        0 <= j < i && j != b && domain_matches(#[trigger] doms[j], nm)
                            && doms[j].name@.len() == doms[b as int].name@.len()
                },
            decreases self.domains.len() - i,
        {
            let d = &self.domains[i];
            if ends_with(name, d.name.as_str()) {
                let len = d.name.as_str().unicode_len();
                match best {
                    None => {
                        best = Some(i);
                        tie = false;
                    },
                    Some(b) => {
                        let blen = self.domains[b].name.as_str().unicode_len();
                        if len > blen {
                            best = Some(i);
                            tie = false;
                        } else if len == blen {
                            tie = true;
                        }
                    },
                }
            }
            i = i + 1;
        }
        match best {
            None => Err(TargetError::DomainNotFound),
            Some(b) => {
                if tie {
                    proof {
                        let j = choose|j: int|
                            0 <= j < doms.len() && j != b && domain_matches(#[trigger] doms[j], nm)
                                && doms[j].name@.len() == doms[b as int].name@.len();
                        assert(domain_matches(doms[b as int], nm));
                        assert forall|k: int| !sole_longest(doms, nm, k) by {
                            if sole_longest(doms, nm, k) {
                                if k == b {
                                    assert(domain_matches(doms[j], nm));
                                } else {
                                    assert(domain_matches(doms[b as int], nm));
                                }
                            }
                        }
                    }
                    Err(TargetError::AmbiguousDomain)
                } else {
                    proof {
                        assert(sole_longest(doms, nm, b as int));
                        assert forall|k: int| sole_longest(doms, nm, k) implies k == b by {
                            if k != b {
                                assert(domain_matches(doms[b as int], nm));
                            }
                        }
                    }
                    Ok(b)
                }
            },
        }
    }
}

} // verus!

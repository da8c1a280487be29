use vstd::prelude::*;
use crate::name_map::{lemma_pairs_lookup, NameMap};
use crate::text::{covers_by_wildcard, wildcard_covers};

verus! {

/// Chooses a certificate for a TLS server name: the certificate registered
/// under that very name, else the first registered wildcard that covers it,
/// else the default certificate.  `C` is the certificate type; certificates
/// are handed out by reference.
pub struct MultiCertResolver<C> {
    certs: Vec<C>,
    certificates: NameMap<usize>,
    default_cert: Option<usize>,
    last_sni: Option<String>,
}

/// `i` is the position of the first registered name that is a wildcard
/// covering `name`.
pub open spec fn first_cover_at(names: Seq<Seq<char>>, name: Seq<char>, i: int) -> bool {
    &&& 0 <= i < names.len()
    &&& wildcard_covers(names[i], name)
    &&& forall|j: int| 0 <= j < i ==> !wildcard_covers(#[trigger] names[j], name)
}

impl<C> MultiCertResolver<C> {
    pub closed spec fn wf(self) -> bool {
        &&& self.certificates.wf()
        &&& forall|i: int|
            0 <= i < self.certificates.pairs().len() ==> (#[trigger] self.certificates.pairs()[i]).1
                < self.certs@.len()
        &&& self.default_cert matches Some(d) ==> d < self.certs@.len()
    }

    /// The certificates by name.
    pub closed spec fn spec_certificates(self) -> Map<Seq<char>, C> {
        self.certificates@.map_values(|i: usize| self.certs@[i as int])
    }

    /// The names in the order they were first registered.
    pub closed spec fn spec_names(self) -> Seq<Seq<char>> {
        self.certificates.names()
    }

    /// The default certificate, if there is one.
    pub closed spec fn spec_default(self) -> Option<C> {
        match self.default_cert {
            Some(d) => Some(self.certs@[d as int]),
            None => None,
        }
    }

    /// The certificate for a server name (see the type's description).
    pub open spec fn resolved(self, server_name: Option<Seq<char>>) -> Option<C> {
        match server_name {
            Some(n) => if self.spec_certificates().contains_key(n) {
                Some(self.spec_certificates()[n])
            } else if exists|i: int| first_cover_at(self.spec_names(), n, i) {
                Some(
                    self.spec_certificates()[self.spec_names()[choose|i: int| first_cover_at(self.spec_names(), n, i)]],
                )
            } else {
                self.spec_default()
            },
            None => self.spec_default(),
        }
    }

    /// A resolver with no certificates.
    pub fn new() -> (r: Self)
        ensures
            r.wf(),
            r.spec_certificates() == Map::<Seq<char>, C>::empty(),
            r.spec_names() == Seq::<Seq<char>>::empty(),
            r.spec_default() is None,
            r.spec_last_sni() is None,
    {
        let r = MultiCertResolver { certs: Vec::new(), certificates: NameMap::new(), default_cert: None, last_sni: None };
        assert(r.spec_certificates() =~= Map::<Seq<char>, C>::empty());
        assert(r.spec_names() =~= Seq::<Seq<char>>::empty());
        r
    }

    /// Registers a certificate under a name (replacing what the name stood
    /// for); the first certificate registered becomes the default when there
    /// is none.
    pub fn add_certificate(&mut self, hostname: String, cert_key: C)
        requires
            old(self).wf(),
        ensures
            final(self).wf(),
            final(self).spec_certificates() == old(self).spec_certificates().insert(hostname@, cert_key),
            final(self).spec_default() == (if old(self).spec_default() is None {
                Some(cert_key)
            } else {
                old(self).spec_default()
            }),
            old(self).spec_certificates().contains_key(hostname@) ==> final(self).spec_names() == old(
                self,
            ).spec_names(),
            !old(self).spec_certificates().contains_key(hostname@) ==> final(self).spec_names() == old(
                self,
            ).spec_names().push(hostname@),
    {
        let ghost old_certs = self.certs@;
        let ghost old_names = self.certificates.names();
        let index = self.certs.len();
        self.certs.push(cert_key);
        if self.default_cert.is_none() {
            self.default_cert = Some(index);
        }
        let ghost before = self.certificates.pairs();
        self.certificates.insert(hostname, index);
        proof {
            let after = self.certificates.pairs();
            assert forall|i: int| 0 <= i < after.len() implies (#[trigger] after[i]).1 < self.certs@.len() by {
                if after[i].0 != hostname@ {
                    lemma_pairs_lookup(after, i);
                    assert(self.certificates@[after[i].0] == old(self).certificates@[after[i].0]);
                    let j = choose|j: int| 0 <= j < before.len() && before[j].0 == after[i].0;
                    lemma_pairs_lookup(before, j);
                } else {
                    lemma_pairs_lookup(after, i);
                }
            }
            assert(self.spec_certificates() =~= old(self).spec_certificates().insert(hostname@, cert_key)) by {
                assert forall|k: Seq<char>| #[trigger] self.certificates@.contains_key(k) && k != hostname@
                    implies self.certs@[self.certificates@[k] as int] == old_certs[old(self).certificates@[k] as int] by {
                    let j = choose|j: int| 0 <= j < before.len() && before[j].0 == k;
                    lemma_pairs_lookup(before, j);
                }
            }
            if !old(self).certificates@.contains_key(hostname@) {
                assert(self.certificates.names() =~= old_names.push(hostname@));
            }
        }
    }

    /// Makes a certificate the default.
    pub fn set_default_certificate(&mut self, cert_key: C)
        requires
            old(self).wf(),
        ensures
            final(self).wf(),
            final(self).spec_default() == Some(cert_key),
            final(self).spec_certificates() == old(self).spec_certificates(),
            final(self).spec_names() == old(self).spec_names(),
    {
        let ghost old_certs = self.certs@;
        let index = self.certs.len();
        self.certs.push(cert_key);
        self.default_cert = Some(index);
        proof {
            assert forall|k: Seq<char>| #[trigger] self.certificates@.contains_key(k) implies self.certs@[self.certificates@[k] as int]
                == old_certs[self.certificates@[k] as int] by {
                let j = choose|j: int| 0 <= j < self.certificates.pairs().len() && self.certificates.pairs()[j].0 == k;
                lemma_pairs_lookup(self.certificates.pairs(), j);
            }
            assert(self.spec_certificates() =~= old(self).spec_certificates());
        }
    }

    /// The last server name a client asked for, if any.
    pub closed spec fn spec_last_sni(self) -> Option<Seq<char>> {
        match self.last_sni {
            Some(s) => Some(s@),
            None => None,
        }
    }

    /// Remembers the server name a client asked for (nothing when it asked
    /// for none).
    pub fn note_sni(&mut self, server_name: Option<&str>)
        requires
            old(self).wf(),
        ensures
            final(self).wf(),
            final(self).spec_last_sni() == match server_name {
                Some(n) => Some(n@),
                None => old(self).spec_last_sni(),
            },
            final(self).spec_certificates() == old(self).spec_certificates(),
            final(self).spec_names() == old(self).spec_names(),
            final(self).spec_default() == old(self).spec_default(),
    {
        match server_name {
            Some(n) => {
                self.last_sni = Some(crate::text::text_owned(n));
            },
            None => {},
        }
    }

    /// The last server name a client asked for.
    pub fn get_last_sni(&self) -> (r: Option<String>)
        ensures
            match r {
                Some(s) => self.spec_last_sni() == Some(s@),
                None => self.spec_last_sni() is None,
            },
    {
        match &self.last_sni {
            Some(s) => Some(s.clone()),
            None => None,
        }
    }

    /// The certificate for a server name (see `resolved`).
    pub fn resolve(&self, server_name: Option<&str>) -> (r: Option<&C>)
        requires
            self.wf(),
        ensures
            r matches Some(c) ==> self.resolved(
                match server_name {
                    Some(n) => Some(n@),
                    None => None,
                },
            ) == Some(*c),
            r is None ==> self.resolved(
                match server_name {
                    Some(n) => Some(n@),
                    None => None,
                },
            ) is None,
    {
        match server_name {
            Some(name) => {
                match self.certificates.get(name) {
                    Some(i) => {
                        return Some(&self.certs[*i]);
                    },
                    None => {},
                }
                let ghost names = self.spec_names();
                let mut i: usize = 0;
                while i < self.certificates.len()
                    invariant
                        self.wf(),
                        names == self.spec_names(),
                        !self.certificates@.contains_key(name@),
                        server_name == Some(name),
                        names.len() == self.certificates.pairs().len(),
                        i <= names.len(),
                        forall|j: int| 0 <= j < i ==> !wildcard_covers(#[trigger] names[j], name@),
                    decreases names.len() - i,
                {
                    let cert_name = self.certificates.name_at(i);
                    assert(names[i as int] == cert_name@);
                    if covers_by_wildcard(cert_name.as_str(), name) {
                        let index = *self.certificates.value_at(i);
                        proof {
                            assert(first_cover_at(names, name@, i as int));
                            let k = choose|k: int| first_cover_at(names, name@, k);
                            if k < i {
                                assert(!wildcard_covers(names[k], name@));
                            } else if k > i {
                                assert(!wildcard_covers(names[i as int], name@));
                            }
                            lemma_pairs_lookup(self.certificates.pairs(), i as int);
                            assert(self.certificates@[names[i as int]] == index);
                            assert(self.spec_certificates()[names[i as int]] == self.certs@[index as int]);
                            assert(!self.spec_certificates().contains_key(name@));
                            assert(exists|k: int| first_cover_at(self.spec_names(), name@, k));
                            assert(k == i);
                            assert(self.resolved(Some(name@)) == Some(self.certs@[index as int]));
                        }
                        return Some(&self.certs[index]);
                    }
                    i = i + 1;
                }
                proof {
                    if exists|k: int| first_cover_at(names, name@, k) {
                        let k = choose|k: int| first_cover_at(names, name@, k);
                        assert(!wildcard_covers(names[k], name@));
                    }
                }
                match self.default_cert {
                    Some(d) => Some(&self.certs[d]),
                    None => None,
                }
            },
            None => match self.default_cert {
                Some(d) => Some(&self.certs[d]),
                None => None,
            },
        }
    }
}

} // verus!

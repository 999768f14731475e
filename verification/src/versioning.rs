//! Agreement on the versions of shared dependencies.
//!
//! Services that share a connection must agree on one version of each
//! dependency. The tracker records, per dependency, the version that the
//! first service asked for and every service that asked for it since. A
//! service that asks for another version is turned away, and the record
//! stays as it was.

use vstd::prelude::*;
use vstd::string::StringSliceAdditionalSpecFns;
use vstd::utf8::encode_utf8_decode_utf8;

verus! {

/// An agreement as text: the agreed version, and the services that asked for
/// it, in the order in which they asked.
pub struct DepAgreementView {
    pub version: Seq<char>,
    pub services: Seq<Seq<char>>,
}

/// The version agreed for one dependency and the services that rely on it.
#[derive(Debug)]
pub struct DepAgreement {
    version: String,
    services: Vec<String>,
}

/// The record of every dependency's agreement.
#[derive(Debug)]
pub struct Dependencies {
    agreed_deps: Vec<(String, DepAgreement)>,
}

/// A service asked for a version of a dependency other than the agreed one.
#[derive(Debug, Clone)]
pub struct DependencyInsertionError {
    /// The dependency.
    pub dep: String,
    /// The agreement that stands: its version and all its services so far.
    pub agreement: DepAgreement,
    /// The version that was asked for.
    pub incoming_version: String,
    /// The service that asked.
    pub incoming_service: String,
}

impl View for DepAgreement {
    type V = DepAgreementView;

    closed spec fn view(&self) -> DepAgreementView {
        DepAgreementView { version: self.version@, services: self.services.deep_view() }
    }
}

impl Clone for DepAgreement {
    fn clone(&self) -> (r: Self)
        ensures
            r@ == self@,
    {
        let services = self.services.clone();
        assert(services.deep_view() =~= self.services.deep_view());
        DepAgreement { version: self.version.clone(), services }
    }
}

impl DepAgreement {
    /// The agreement on `version` that no service relies on yet.
    pub fn new(version: String) -> (r: Self)
        ensures
            r@ == (DepAgreementView { version: version@, services: Seq::empty() }),
    {
        let r = Self { version, services: Vec::new() };
        assert(r.services.deep_view() =~= Seq::<Seq<char>>::empty());
        r
    }

    /// Adds a service to those that rely on the agreement. A service that is
    /// added twice is recorded twice.
    pub fn insert(&mut self, service: String)
        ensures
            final(self)@ == (DepAgreementView {
                version: old(self)@.version,
                services: old(self)@.services.push(service@),
            }),
    {
        let ghost before = self.services.deep_view();
        self.services.push(service);
        assert(self.services.deep_view() =~= before.push(service@));
    }

    /// The agreed version.
    pub fn version(&self) -> (r: &str)
        ensures
            r@ == self@.version,
    {
        self.version.as_str()
    }

    /// The services that rely on the agreement, in the order in which they
    /// were added.
    pub fn services(&self) -> (r: &[String])
        ensures
            r.deep_view() == self@.services,
    {
        let r = self.services.as_slice();
        assert(r.deep_view() =~= self.services.deep_view());
        r
    }
}

/// Whether two strings are the same text.
fn same_text(a: &str, b: &str) -> (r: bool)
    ensures
        r == (a@ == b@),
{
    let x = a.as_bytes();
    let y = b.as_bytes();
    proof {
        encode_utf8_decode_utf8(a@);
        encode_utf8_decode_utf8(b@);
    }
    if x.len() != y.len() {
        return false;
    }
    let mut i: usize = 0;
    while i < x.len()
        invariant
            i <= x@.len(),
            x@.len() == y@.len(),
            forall|j: int| 0 <= j < i ==> x@[j] == y@[j],
            x@ != y@ ==> a@ != b@,
            x@ == a.spec_bytes(),
            y@ == b.spec_bytes(),
        decreases x.len() - i,
    {
        if x[i] != y[i] {
            return false;
        }
        i += 1;
    }
    assert(x@ =~= y@);
    true
}

/// No dependency is recorded twice.
spec fn distinct(entries: Seq<(String, DepAgreement)>) -> bool {
    forall|i: int, j: int|
        0 <= i < j < entries.len() ==> (#[trigger] entries[i]).0@ != (#[trigger] entries[j]).0@
}

/// Some entry records the dependency `dep`.
spec fn records(entries: Seq<(String, DepAgreement)>, dep: Seq<char>) -> bool {
    exists|i: int| 0 <= i < entries.len() && (#[trigger] entries[i]).0@ == dep
}

/// The place of an entry that records the dependency `dep`.
spec fn place(entries: Seq<(String, DepAgreement)>, dep: Seq<char>) -> int {
    choose|i: int| 0 <= i < entries.len() && (#[trigger] entries[i]).0@ == dep
}

/// The agreements that the entries record, by dependency.
spec fn agreements(entries: Seq<(String, DepAgreement)>) -> Map<
    Seq<char>,
    DepAgreementView,
> {
    Map::new(
        |dep: Seq<char>| records(entries, dep),
        |dep: Seq<char>| entries[place(entries, dep)].1@,
    )
}

/// Among distinct entries, each one is the record of its dependency.
proof fn lemma_agreements_at(entries: Seq<(String, DepAgreement)>, i: int)
    requires
        distinct(entries),
        0 <= i < entries.len(),
    ensures
        agreements(entries).contains_key(entries[i].0@),
        agreements(entries)[entries[i].0@] == entries[i].1@,
{
    let dep = entries[i].0@;
    assert(records(entries, dep));
    let j = place(entries, dep);
    assert(0 <= j < entries.len() && entries[j].0@ == dep);
    if j != i {
        if i < j {
            assert(entries[i].0@ != entries[j].0@);
        } else {
            assert(entries[j].0@ != entries[i].0@);
        }
    }
}

/// The agreements after a service asked for the agreed version of a
/// dependency, or for any version of one that had no agreement yet.
pub open spec fn joined(
    before: Map<Seq<char>, DepAgreementView>,
    dep: Seq<char>,
    version: Seq<char>,
    service: Seq<char>,
) -> Map<Seq<char>, DepAgreementView> {
    let earlier = if before.contains_key(dep) {
        before[dep].services
    } else {
        Seq::empty()
    };
    before.insert(dep, DepAgreementView { version, services: earlier.push(service) })
}

/// The dependency has an agreement, and it is on another version.
pub open spec fn conflicts(
    before: Map<Seq<char>, DepAgreementView>,
    dep: Seq<char>,
    version: Seq<char>,
) -> bool {
    before.contains_key(dep) && before[dep].version != version
}

/// An insertion that is accepted keeps every agreement that stood: the
/// dependency is still recorded, on the same version, and the services that
/// relied on it still do, in the same order and before any new one.
pub proof fn lemma_agreements_are_kept(
    before: Map<Seq<char>, DepAgreementView>,
    dep: Seq<char>,
    version: Seq<char>,
    service: Seq<char>,
    other: Seq<char>,
)
    requires
        before.contains_key(other),
        !conflicts(before, dep, version),
    ensures
        joined(before, dep, version, service).contains_key(other),
        joined(before, dep, version, service)[other].version == before[other].version,
        before[other].services.is_prefix_of(joined(before, dep, version, service)[other].services),
{
}

impl View for Dependencies {
    type V = Map<Seq<char>, DepAgreementView>;

    closed spec fn view(&self) -> Map<Seq<char>, DepAgreementView> {
        agreements(self.agreed_deps@)
    }
}

impl Dependencies {
    #[verifier::type_invariant]
    spec fn well_formed(&self) -> bool {
        distinct(self.agreed_deps@)
    }

    /// The record without any agreement.
    pub fn new() -> (r: Self)
        ensures
            r@ == Map::<Seq<char>, DepAgreementView>::empty(),
    {
        let r = Self { agreed_deps: Vec::new() };
        assert(r@ =~= Map::<Seq<char>, DepAgreementView>::empty());
        r
    }

    /// The agreement on the dependency `dep`, if there is one.
    pub fn agreement(&self, dep: &str) -> (r: Option<&DepAgreement>)
        ensures
            match r {
                Some(agreement) => self@.contains_key(dep@) && self@[dep@] == agreement@,
                None => !self@.contains_key(dep@),
            },
    {
        proof {
            use_type_invariant(self);
        }
        let mut i: usize = 0;
        while i < self.agreed_deps.len()
            invariant
                i <= self.agreed_deps@.len(),
                distinct(self.agreed_deps@),
                forall|j: int| 0 <= j < i ==> (#[trigger] self.agreed_deps@[j]).0@ != dep@,
            decreases self.agreed_deps.len() - i,
        {
            if same_text(self.agreed_deps[i].0.as_str(), dep) {
                proof {
                    lemma_agreements_at(self.agreed_deps@, i as int);
                }
                return Some(&self.agreed_deps[i].1);
            }
            i += 1;
        }
        None
    }

    /// Records that `service` asks for `version` of the dependency `dep`.
    ///
    /// The first service to ask for a dependency settles its version. A later
    /// service that asks for the same version joins those that rely on it. One
    /// that asks for another version is refused with the agreement that
    /// stands, and the record is left as it was.
    pub fn insert(&mut self, dep: String, version: String, service: String) -> (r: Result<
        (),
        DependencyInsertionError,
    >)
        ensures
            match r {
                Ok(()) => {
                    &&& !conflicts(old(self)@, dep@, version@)
                    &&& final(self)@ == joined(old(self)@, dep@, version@, service@)
                },
                Err(e) => {
                    &&& conflicts(old(self)@, dep@, version@)
                    &&& final(self)@ == old(self)@
                    &&& e.dep == dep
                    &&& e.agreement@ == old(self)@[dep@]
                    &&& e.incoming_version == version
                    &&& e.incoming_service == service
                },
            },
    {
        proof {
            use_type_invariant(&*self);
        }
        let ghost before = self.agreed_deps@;
        let mut i: usize = 0;
        while i < self.agreed_deps.len()
            invariant
                i <= self.agreed_deps@.len(),
                self.agreed_deps@ == before,
                forall|j: int| 0 <= j < i ==> (#[trigger] before[j]).0@ != dep@,
            ensures
                i <= before.len(),
                i < before.len() ==> before[i as int].0@ == dep@,
            decreases self.agreed_deps.len() - i,
        {
            if self.agreed_deps[i].0 == dep {
                break ;
            }
            i += 1;
        }
        if i < self.agreed_deps.len() {
            proof {
                lemma_agreements_at(before, i as int);
            }
            if !(self.agreed_deps[i].1.version == version) {
                return Err(
                    DependencyInsertionError {
                        dep,
                        agreement: self.agreed_deps[i].1.clone(),
                        incoming_version: version,
                        incoming_service: service,
                    },
                );
            }
            let mut entries: Vec<(String, DepAgreement)> = Vec::new();
            std::mem::swap(&mut self.agreed_deps, &mut entries);
            let (name, mut agreed): (String, DepAgreement) = entries.swap_remove(i);
            agreed.insert(service);
            entries.push((name, agreed));
            proof {
                lemma_moved_to_end(before, entries@, i as int, service@);
            }
            self.agreed_deps = entries;
        } else {
            let mut agreed = DepAgreement::new(version);
            agreed.insert(service);
            let mut entries: Vec<(String, DepAgreement)> = Vec::new();
            std::mem::swap(&mut self.agreed_deps, &mut entries);
            entries.push((dep, agreed));
            proof {
                lemma_added_at_end(before, entries@, service@);
            }
            self.agreed_deps = entries;
        }
        Ok(())
    }
}

impl Clone for Dependencies {
    fn clone(&self) -> (r: Self)
        ensures
            r@ == self@,
    {
        proof {
            use_type_invariant(self);
        }
        let mut entries: Vec<(String, DepAgreement)> = Vec::new();
        let mut i: usize = 0;
        while i < self.agreed_deps.len()
            invariant
                i <= self.agreed_deps@.len(),
                entries@.len() == i,
                forall|j: int|
                    0 <= j < i ==> (#[trigger] entries@[j]).0@ == self.agreed_deps@[j].0@
                        && entries@[j].1@ == self.agreed_deps@[j].1@,
            decreases self.agreed_deps.len() - i,
        {
            entries.push((self.agreed_deps[i].0.clone(), self.agreed_deps[i].1.clone()));
            i += 1;
        }
        proof {
            lemma_same_text(self.agreed_deps@, entries@);
        }
        Self { agreed_deps: entries }
    }
}

impl Default for Dependencies {
    fn default() -> (r: Self)
        ensures
            r@ == Map::<Seq<char>, DepAgreementView>::empty(),
    {
        Self::new()
    }
}

/// Entries that agree in text, place by place, record the same agreements.
proof fn lemma_same_text(a: Seq<(String, DepAgreement)>, b: Seq<(String, DepAgreement)>)
    requires
        distinct(a),
        a.len() == b.len(),
        forall|j: int|
            0 <= j < a.len() ==> (#[trigger] b[j]).0@ == a[j].0@ && b[j].1@ == a[j].1@,
    ensures
        distinct(b),
        agreements(b) == agreements(a),
{
    assert(distinct(b)) by {
        assert forall|i: int, j: int| 0 <= i < j < b.len() implies (#[trigger] b[i]).0@ != (
        #[trigger] b[j]).0@ by {
            assert(a[i].0@ != a[j].0@);
        }
    }
    assert forall|k: Seq<char>| agreements(b).contains_key(k) <==> agreements(a).contains_key(
        k,
    ) by {
        if records(b, k) {
            let j = place(b, k);
            assert(a[j].0@ == k);
        }
        if records(a, k) {
            let j = place(a, k);
            assert(b[j].0@ == k);
        }
    }
    assert forall|k: Seq<char>| agreements(b).contains_key(k) implies agreements(b)[k]
        == agreements(a)[k] by {
        let j = place(b, k);
        lemma_agreements_at(b, j);
        assert(a[j].0@ == k);
        lemma_agreements_at(a, j);
    }
    assert(agreements(b) =~= agreements(a));
}

/// An entry for a dependency that had none, added at the end, adds its
/// agreement and changes no other.
proof fn lemma_added_at_end(
    before: Seq<(String, DepAgreement)>,
    after: Seq<(String, DepAgreement)>,
    service: Seq<char>,
)
    requires
        distinct(before),
        after.len() == before.len() + 1,
        forall|j: int| 0 <= j < before.len() ==> after[j] == before[j],
        forall|j: int| 0 <= j < before.len() ==> (#[trigger] before[j]).0@ != after.last().0@,
        after.last().1@.services == seq![service],
    ensures
        distinct(after),
        agreements(after) == joined(
            agreements(before),
            after.last().0@,
            after.last().1@.version,
            service,
        ),
{
    let dep = after.last().0@;
    let last = before.len() as int;
    assert(distinct(after)) by {
        assert forall|i: int, j: int| 0 <= i < j < after.len() implies (#[trigger] after[i]).0@ != (
        #[trigger] after[j]).0@ by {
            if j < last {
                assert(before[i].0@ != before[j].0@);
            } else {
                assert(before[i].0@ != dep);
            }
        }
    }
    assert(!records(before, dep));
    let expected = joined(agreements(before), dep, after.last().1@.version, service);
    assert(Seq::<Seq<char>>::empty().push(service) =~= seq![service]);
    assert forall|k: Seq<char>| agreements(after).contains_key(k) <==> expected.contains_key(
        k,
    ) by {
        if records(after, k) {
            let j = place(after, k);
            if j < last {
                assert(before[j].0@ == k);
            }
        }
        if records(before, k) {
            let j = place(before, k);
            assert(after[j].0@ == k);
        }
        if k == dep {
            assert(after[last].0@ == k);
        }
    }
    assert forall|k: Seq<char>| agreements(after).contains_key(k) implies agreements(after)[k]
        == expected[k] by {
        let j = place(after, k);
        lemma_agreements_at(after, j);
        if j < last {
            assert(before[j].0@ == k);
            lemma_agreements_at(before, j);
        }
    }
    assert(agreements(after) =~= expected);
}

/// An entry that is taken out, given one more service and put back at the
/// end, with the last entry in its old place, changes its own agreement by
/// that service and no other agreement.
proof fn lemma_moved_to_end(
    before: Seq<(String, DepAgreement)>,
    after: Seq<(String, DepAgreement)>,
    i: int,
    service: Seq<char>,
)
    requires
        distinct(before),
        0 <= i < before.len(),
        after.len() == before.len(),
        forall|j: int| 0 <= j < before.len() - 1 && j != i ==> after[j] == before[j],
        i < before.len() - 1 ==> after[i] == before.last(),
        after.last().0 == before[i].0,
        after.last().1@ == (DepAgreementView {
            version: before[i].1@.version,
            services: before[i].1@.services.push(service),
        }),
    ensures
        distinct(after),
        agreements(after) == joined(
            agreements(before),
            before[i].0@,
            before[i].1@.version,
            service,
        ),
{
    let dep = before[i].0@;
    let last = before.len() - 1;
    // Where the entry at place `j` of `after` stood in `before`.
    let origin = |j: int| if j == last { i } else if j == i { last } else { j };
    assert forall|j: int| 0 <= j < after.len() implies (#[trigger] after[j]).0@ == before[origin(
        j,
    )].0@ by {}
    assert(distinct(after)) by {
        assert forall|a: int, b: int| 0 <= a < b < after.len() implies (#[trigger] after[a]).0@ != (
        #[trigger] after[b]).0@ by {
            let x = origin(a);
            let y = origin(b);
            assert(after[a].0@ == before[x].0@);
            assert(after[b].0@ == before[y].0@);
            if x < y {
                assert(before[x].0@ != before[y].0@);
            } else {
                assert(before[y].0@ != before[x].0@);
            }
        }
    }
    lemma_agreements_at(before, i);
    let expected = joined(agreements(before), dep, before[i].1@.version, service);
    assert forall|k: Seq<char>| agreements(after).contains_key(k) <==> expected.contains_key(
        k,
    ) by {
        if records(after, k) {
            let j = place(after, k);
            assert(before[origin(j)].0@ == k);
        }
        if records(before, k) {
            let j = place(before, k);
            assert(after[origin(j)].0@ == k);
        }
    }
    assert forall|k: Seq<char>| agreements(after).contains_key(k) implies agreements(after)[k]
        == expected[k] by {
        let j = place(after, k);
        lemma_agreements_at(after, j);
        if j != last {
            assert(before[origin(j)].0@ == k);
            lemma_agreements_at(before, origin(j));
            if origin(j) < i {
                assert(before[origin(j)].0@ != before[i].0@);
            } else {
                assert(before[i].0@ != before[origin(j)].0@);
            }
        }
    }
    assert(agreements(after) =~= expected);
}

} // verus!

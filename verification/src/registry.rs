//! The service registry: a store of service id -> (display name, set of
//! endpoint addresses). Mutating operations (register, deregister,
//! add-endpoint) and reads (get, get-all, resolve) are specified against a
//! mathematical map from ids to service views, and every mutation is tied
//! to an operation model (`RegistryOp` / `apply_op`) so that a history of
//! serialized calls is exactly a fold of the operations applied.

use vstd::prelude::*;
use vstd::string::StrSliceExecFns;

verus! {

/// Mathematical view of one registered service: its display name and its
/// set of endpoint addresses (order irrelevant, duplicates collapsed).
pub ghost struct ServiceView {
    pub name: Seq<char>,
    pub endpoints: Set<Seq<char>>,
}

/// One registered service: a display name and its endpoint addresses.
/// The endpoint vector never holds two equal strings.
#[derive(Debug)]
pub struct MicroService {
    pub name: String,
    pub endpoints: Vec<String>,
}

impl MicroService {
    /// The set of endpoint strings denoted by a vector of endpoints.
    pub open spec fn ep_set(eps: Seq<String>) -> Set<Seq<char>> {
        Set::new(|e: Seq<char>| exists|i: int| 0 <= i < eps.len() && eps[i]@ == e)
    }

    /// No two entries of the endpoint vector are the same string.
    pub open spec fn wf(self) -> bool {
        forall|i: int, j: int|
            0 <= i < j < self.endpoints@.len() ==> self.endpoints@[i]@ != self.endpoints@[j]@
    }
}

impl View for MicroService {
    type V = ServiceView;

    open spec fn view(&self) -> ServiceView {
        ServiceView { name: self.name@, endpoints: MicroService::ep_set(self.endpoints@) }
    }
}

proof fn lemma_ep_set_push(eps: Seq<String>, e: String)
    ensures
        MicroService::ep_set(eps.push(e)) == MicroService::ep_set(eps).insert(e@),
{
    let lhs = MicroService::ep_set(eps.push(e));
    let rhs = MicroService::ep_set(eps).insert(e@);
    assert forall|x: Seq<char>| lhs.contains(x) implies rhs.contains(x) by {
        let i = choose|i: int| 0 <= i < eps.push(e).len() && eps.push(e)[i]@ == x;
        if i < eps.len() {
            assert(eps[i]@ == x);
        }
    }
    assert forall|x: Seq<char>| rhs.contains(x) implies lhs.contains(x) by {
        if x == e@ {
            assert(eps.push(e)[eps.len() as int]@ == x);
        } else {
            let i = choose|i: int| 0 <= i < eps.len() && eps[i]@ == x;
            assert(eps.push(e)[i]@ == x);
        }
    }
    assert(lhs =~= rhs);
}

proof fn lemma_ep_set_insert_present(eps: Seq<String>, e: Seq<char>)
    requires
        exists|i: int| 0 <= i < eps.len() && eps[i]@ == e,
    ensures
        MicroService::ep_set(eps).insert(e) == MicroService::ep_set(eps),
{
    assert(MicroService::ep_set(eps).contains(e));
    assert(MicroService::ep_set(eps).insert(e) =~= MicroService::ep_set(eps));
}

impl Clone for MicroService {
    fn clone(&self) -> (res: Self)
        ensures
            res.name@ == self.name@,
            res.endpoints@ == self.endpoints@,
            res@ == self@,
    {
        let name = self.name.clone();
        let endpoints = self.endpoints.clone();
        proof {
            assert forall|i: int| 0 <= i < self.endpoints@.len() implies endpoints@[i]
                == self.endpoints@[i] by {
                assert(cloned::<String>(self.endpoints@[i], endpoints@[i]));
            }
            assert(endpoints@ =~= self.endpoints@);
        }
        MicroService { name, endpoints }
    }
}

/// String equality decided by character-wise comparison.
pub fn str_eq(a: &str, b: &str) -> (r: bool)
    ensures
        r == (a@ == b@),
{
    let alen = a.unicode_len();
    let blen = b.unicode_len();
    if alen != blen {
        return false;
    }
    let mut i: usize = 0;
    while i < alen
        invariant
            alen == a@.len(),
            alen == b@.len(),
            i <= alen,
            forall|j: int| 0 <= j < i ==> a@[j] == b@[j],
        decreases alen - i,
    {
        if a.get_char(i) != b.get_char(i) {
            return false;
        }
        i = i + 1;
    }
    proof {
        assert(a@ =~= b@);
    }
    true
}

/// Whether some entry of `v` is the string `s`.
fn contains_string(v: &Vec<String>, s: &str) -> (r: bool)
    ensures
        r == exists|i: int| 0 <= i < v@.len() && v@[i]@ == s@,
{
    let mut i: usize = 0;
    while i < v.len()
        invariant
            i <= v@.len(),
            forall|j: int| 0 <= j < i ==> v@[j]@ != s@,
        decreases v@.len() - i,
    {
        if str_eq(v[i].as_str(), s) {
            return true;
        }
        i = i + 1;
    }
    false
}

/// One registry operation, as a mathematical value: the model against
/// which every mutating method of `ServiceRegistry` is specified.
pub ghost enum RegistryOp {
    Register { id: Seq<char>, name: Seq<char>, endpoints: Set<Seq<char>> },
    Deregister { id: Seq<char> },
    AddEndpoint { id: Seq<char>, endpoint: Seq<char> },
}

/// The id an operation addresses.
pub open spec fn reg_op_id(op: RegistryOp) -> Seq<char> {
    match op {
        RegistryOp::Register { id, .. } => id,
        RegistryOp::Deregister { id } => id,
        RegistryOp::AddEndpoint { id, .. } => id,
    }
}

/// The effect of one operation on the registry map.
///
/// - register inserts a fresh service, or merges the endpoints into an
///   existing one without touching its name;
/// - deregister removes the entry if present (no-op otherwise);
/// - add-endpoint extends an existing service's endpoint set, and is a
///   deliberate no-op when the id is unknown.
pub open spec fn apply_op(
    m: Map<Seq<char>, ServiceView>,
    op: RegistryOp,
) -> Map<Seq<char>, ServiceView> {
    match op {
        RegistryOp::Register { id, name, endpoints } => {
            if m.contains_key(id) {
                m.insert(
                    id,
                    ServiceView { name: m[id].name, endpoints: m[id].endpoints.union(endpoints) },
                )
            } else {
                m.insert(id, ServiceView { name, endpoints })
            }
        },
        RegistryOp::Deregister { id } => m.remove(id),
        RegistryOp::AddEndpoint { id, endpoint } => {
            if m.contains_key(id) {
                m.insert(
                    id,
                    ServiceView { name: m[id].name, endpoints: m[id].endpoints.insert(endpoint) },
                )
            } else {
                m
            }
        },
    }
}

/// A sequence of operations applied in order.
pub open spec fn apply_ops(
    m: Map<Seq<char>, ServiceView>,
    ops: Seq<RegistryOp>,
) -> Map<Seq<char>, ServiceView>
    decreases ops.len(),
{
    if ops.len() == 0 {
        m
    } else {
        apply_op(apply_ops(m, ops.drop_last()), ops.last())
    }
}

/// An id can be resolved when it is registered and has at least one
/// endpoint.
pub open spec fn resolvable(m: Map<Seq<char>, ServiceView>, id: Seq<char>) -> bool {
    m.contains_key(id) && exists|e: Seq<char>| m[id].endpoints.contains(e)
}

/// The registry: a store of services keyed by id. The embedding
/// application serializes access to it (one owner or one lock), so each
/// method is an atomic step of the operation model.
pub struct ServiceRegistry {
    pub entries: Vec<(String, MicroService)>,
}

impl View for ServiceRegistry {
    type V = Map<Seq<char>, ServiceView>;

    open spec fn view(&self) -> Map<Seq<char>, ServiceView> {
        Map::new(
            |id: Seq<char>| self.has_id(id),
            |id: Seq<char>| self.entries@[self.idx_of(id)].1@,
        )
    }
}

impl ServiceRegistry {
    /// Some entry carries this id.
    pub open spec fn has_id(self, id: Seq<char>) -> bool {
        exists|i: int| 0 <= i < self.entries@.len() && self.entries@[i].0@ == id
    }

    /// The index of the entry carrying this id (unique under `wf`).
    pub open spec fn idx_of(self, id: Seq<char>) -> int {
        choose|i: int| 0 <= i < self.entries@.len() && self.entries@[i].0@ == id
    }

    /// Ids are pairwise distinct and every service is well formed.
    pub open spec fn wf(self) -> bool {
        &&& forall|i: int, j: int|
            0 <= i < j < self.entries@.len() ==> self.entries@[i].0@ != self.entries@[j].0@
        &&& forall|i: int| 0 <= i < self.entries@.len() ==> (#[trigger] self.entries@[i].1).wf()
    }

    /// Under distinct ids, the entry at `i` is the one the view binds its
    /// key to.
    proof fn lemma_view_idx(self, i: int)
        requires
            forall|j1: int, j2: int|
                0 <= j1 < j2 < self.entries@.len() ==> self.entries@[j1].0@
                    != self.entries@[j2].0@,
            0 <= i < self.entries@.len(),
        ensures
            self.has_id(self.entries@[i].0@),
            self.idx_of(self.entries@[i].0@) == i,
            self@.contains_key(self.entries@[i].0@),
            self@[self.entries@[i].0@] == self.entries@[i].1@,
    {
        let id = self.entries@[i].0@;
        assert(self.has_id(id));
        let j = self.idx_of(id);
        if j != i {
            if j < i {
                assert(self.entries@[j].0@ != self.entries@[i].0@);
            } else {
                assert(self.entries@[i].0@ != self.entries@[j].0@);
            }
        }
    }

    pub fn new() -> (r: Self)
        ensures
            r.wf(),
            r@ == Map::<Seq<char>, ServiceView>::empty(),
    {
        let r = ServiceRegistry { entries: Vec::new() };
        proof {
            assert(r@ =~= Map::<Seq<char>, ServiceView>::empty());
        }
        r
    }

    /// Find the index of the entry for `id`, if any.
    fn find_index(&self, id: &str) -> (r: Option<usize>)
        ensures
            match r {
                Some(i) => i < self.entries@.len() && self.entries@[i as int].0@ == id@,
                None => !self.has_id(id@),
            },
    {
        let mut i: usize = 0;
        while i < self.entries.len()
            invariant
                i <= self.entries@.len(),
                forall|j: int| 0 <= j < i ==> self.entries@[j].0@ != id@,
            decreases self.entries@.len() - i,
        {
            if str_eq(self.entries[i].0.as_str(), id) {
                return Some(i);
            }
            i = i + 1;
        }
        None
    }

    /// After replacing the service stored at `i` (key untouched), the map
    /// view is the old view with that key re-bound.
    proof fn lemma_view_update(self, r_new: ServiceRegistry, i: int, svc: MicroService)
        requires
            self.wf(),
            0 <= i < self.entries@.len(),
            r_new.entries@ == self.entries@.update(i, (self.entries@[i].0, svc)),
        ensures
            r_new@ == self@.insert(self.entries@[i].0@, svc@),
            svc.wf() ==> r_new.wf(),
    {
        let id = self.entries@[i].0@;
        assert forall|j1: int, j2: int|
            0 <= j1 < j2 < r_new.entries@.len() implies r_new.entries@[j1].0@
            != r_new.entries@[j2].0@ by {
            assert(self.entries@[j1].0@ != self.entries@[j2].0@);
        }
        assert forall|k: Seq<char>| #[trigger] r_new@.contains_key(k) implies self@.insert(
            id,
            svc@,
        ).contains_key(k) && r_new@[k] == self@.insert(id, svc@)[k] by {
            let j = choose|j: int| 0 <= j < r_new.entries@.len() && r_new.entries@[j].0@ == k;
            r_new.lemma_view_idx(j);
            if j == i {
                assert(k == id);
            } else {
                assert(self.entries@[j].0@ == k);
                self.lemma_view_idx(j);
            }
        }
        assert forall|k: Seq<char>| self@.insert(id, svc@).contains_key(
            k,
        ) implies r_new@.contains_key(k) by {
            if k == id {
                assert(r_new.entries@[i].0@ == k);
            } else {
                let j = choose|j: int| 0 <= j < self.entries@.len() && self.entries@[j].0@ == k;
                assert(r_new.entries@[j].0@ == k);
            }
        }
        assert(r_new@ =~= self@.insert(id, svc@));
        if svc.wf() {
            assert forall|j: int| 0 <= j < r_new.entries@.len() implies (
            #[trigger] r_new.entries@[j].1).wf() by {
                if j != i {
                    assert(r_new.entries@[j] == self.entries@[j]);
                    assert(self.entries@[j].1.wf());
                }
            }
        }
    }

    /// After pushing a fresh entry, the map view gains exactly that key.
    proof fn lemma_view_push(self, r_new: ServiceRegistry, id: Seq<char>, svc: MicroService)
        requires
            self.wf(),
            !self.has_id(id),
            svc.wf(),
            r_new.entries@.len() == self.entries@.len() + 1,
            forall|j: int| 0 <= j < self.entries@.len() ==> r_new.entries@[j] == self.entries@[j],
            r_new.entries@[self.entries@.len() as int].0@ == id,
            r_new.entries@[self.entries@.len() as int].1 == svc,
        ensures
            r_new@ == self@.insert(id, svc@),
            r_new.wf(),
    {
        let n = self.entries@.len() as int;
        assert forall|j1: int, j2: int|
            0 <= j1 < j2 < r_new.entries@.len() implies r_new.entries@[j1].0@
            != r_new.entries@[j2].0@ by {
            if j2 < n {
                assert(self.entries@[j1].0@ != self.entries@[j2].0@);
            } else {
                assert(r_new.entries@[j2].0@ == id);
                assert(self.entries@[j1].0@ != id);
            }
        }
        assert forall|j: int| 0 <= j < r_new.entries@.len() implies (
        #[trigger] r_new.entries@[j].1).wf() by {
            if j < n {
                assert(r_new.entries@[j] == self.entries@[j]);
                assert(self.entries@[j].1.wf());
            }
        }
        assert forall|k: Seq<char>| #[trigger] r_new@.contains_key(k) implies self@.insert(
            id,
            svc@,
        ).contains_key(k) && r_new@[k] == self@.insert(id, svc@)[k] by {
            let j = choose|j: int| 0 <= j < r_new.entries@.len() && r_new.entries@[j].0@ == k;
            r_new.lemma_view_idx(j);
            if j < n {
                assert(self.entries@[j].0@ == k);
                self.lemma_view_idx(j);
            } else {
                assert(k == id);
            }
        }
        assert forall|k: Seq<char>| self@.insert(id, svc@).contains_key(
            k,
        ) implies r_new@.contains_key(k) by {
            if k == id {
                assert(r_new.entries@[n].0@ == k);
            } else {
                let j = choose|j: int| 0 <= j < self.entries@.len() && self.entries@[j].0@ == k;
                assert(r_new.entries@[j].0@ == k);
            }
        }
        assert(r_new@ =~= self@.insert(id, svc@));
    }

    /// Extend the endpoint set of the service stored at index `i` by one
    /// address (no-op when the address is already present).
    fn add_endpoint_at(&mut self, i: usize, endpoint: String)
        requires
            old(self).wf(),
            i < old(self).entries@.len(),
        ensures
            final(self).wf(),
            final(self).entries@.len() == old(self).entries@.len(),
            final(self).entries@[i as int].0@ == old(self).entries@[i as int].0@,
            forall|j: int|
                0 <= j < old(self).entries@.len() && j != i ==> final(self).entries@[j] == old(
                    self,
                ).entries@[j],
            final(self)@ == old(self)@.insert(
                old(self).entries@[i as int].0@,
                ServiceView {
                    name: old(self).entries@[i as int].1.name@,
                    endpoints: old(self).entries@[i as int].1@.endpoints.insert(endpoint@),
                },
            ),
    {
        let ghost r_old = *self;
        let key = self.entries[i].0.clone();
        let svc = self.entries[i].1.clone();
        let MicroService { name, endpoints } = svc;
        let mut eps = endpoints;
        let ghost old_eps = r_old.entries@[i as int].1.endpoints@;
        let already = contains_string(&eps, endpoint.as_str());
        if !already {
            eps.push(endpoint);
            proof {
                lemma_ep_set_push(old_eps, eps@.last());
                assert(eps@ =~= old_eps.push(eps@.last()));
            }
        } else {
            proof {
                lemma_ep_set_insert_present(old_eps, endpoint@);
            }
        }
        let svc2 = MicroService { name, endpoints: eps };
        proof {
            assert(svc2.wf()) by {
                if !already {
                    assert forall|a: int, b: int|
                        0 <= a < b < svc2.endpoints@.len() implies svc2.endpoints@[a]@
                        != svc2.endpoints@[b]@ by {
                        if b < old_eps.len() {
                            assert(r_old.entries@[i as int].1.wf());
                        } else {
                            assert(svc2.endpoints@[b]@ == endpoint@);
                            assert(svc2.endpoints@[a] == old_eps[a]);
                        }
                    }
                } else {
                    assert(r_old.entries@[i as int].1.wf());
                }
            }
            assert(svc2@ == ServiceView {
                name: r_old.entries@[i as int].1.name@,
                endpoints: r_old.entries@[i as int].1@.endpoints.insert(endpoint@),
            });
        }
        self.entries.set(i, (key, svc2));
        proof {
            assert(key == r_old.entries@[i as int].0);
            assert(self.entries@ == r_old.entries@.update(
                i as int,
                (r_old.entries@[i as int].0, svc2),
            ));
            r_old.lemma_view_update(*self, i as int, svc2);
        }
    }

    /// Register a service: insert a fresh entry, or merge the endpoints
    /// into the existing one (its name is not overwritten). Idempotent for
    /// repeated identical calls; no error conditions.
    pub fn register_service(&mut self, id: String, name: String, endpoints: Vec<String>)
        requires
            old(self).wf(),
        ensures
            final(self).wf(),
            final(self)@ == apply_op(
                old(self)@,
                RegistryOp::Register {
                    id: id@,
                    name: name@,
                    endpoints: MicroService::ep_set(endpoints@),
                },
            ),
    {
        let ghost r_old = *self;
        let ghost gid = id@;
        let ghost given = MicroService::ep_set(endpoints@);
        let ghost existed = r_old@.contains_key(gid);
        let ghost base_name: Seq<char> = if existed {
            r_old@[gid].name
        } else {
            name@
        };
        let ghost base_eps: Set<Seq<char>> = if existed {
            r_old@[gid].endpoints
        } else {
            Set::<Seq<char>>::empty()
        };
        let i: usize;
        match self.find_index(id.as_str()) {
            Some(found) => {
                i = found;
                proof {
                    self.lemma_view_idx(i as int);
                    assert(existed);
                    assert(ServiceView { name: base_name, endpoints: base_eps } == r_old@[gid]);
                    assert(r_old@.insert(gid, r_old@[gid]) =~= r_old@);
                }
            },
            None => {
                i = self.entries.len();
                let svc = MicroService { name, endpoints: Vec::new() };
                self.entries.push((id, svc));
                proof {
                    assert(!existed);
                    r_old.lemma_view_push(*self, gid, svc);
                    assert(MicroService::ep_set(svc.endpoints@) =~= base_eps);
                    assert(svc@ == ServiceView { name: base_name, endpoints: base_eps });
                }
            },
        }
        proof {
            assert(self@ == r_old@.insert(
                gid,
                ServiceView { name: base_name, endpoints: base_eps },
            ));
            self.lemma_view_idx(i as int);
        }
        let mut j: usize = 0;
        proof {
            assert(MicroService::ep_set(endpoints@.subrange(0, 0)) =~= Set::<Seq<char>>::empty());
            assert(base_eps.union(MicroService::ep_set(endpoints@.subrange(0, 0))) =~= base_eps);
        }
        while j < endpoints.len()
            invariant
                self.wf(),
                i < self.entries@.len(),
                self.entries@[i as int].0@ == gid,
                self.entries@[i as int].1.name@ == base_name,
                j <= endpoints@.len(),
                self@ == r_old@.insert(
                    gid,
                    ServiceView {
                        name: base_name,
                        endpoints: base_eps.union(
                            MicroService::ep_set(endpoints@.subrange(0, j as int)),
                        ),
                    },
                ),
            decreases endpoints@.len() - j,
        {
            let ghost pre = *self;
            let ep = endpoints[j].clone();
            proof {
                pre.lemma_view_idx(i as int);
            }
            self.add_endpoint_at(i, ep);
            proof {
                self.lemma_view_idx(i as int);
                let prefix = MicroService::ep_set(endpoints@.subrange(0, j as int));
                let prefix1 = MicroService::ep_set(endpoints@.subrange(0, j as int + 1));
                assert(endpoints@.subrange(0, j as int + 1) =~= endpoints@.subrange(
                    0,
                    j as int,
                ).push(endpoints@[j as int]));
                lemma_ep_set_push(endpoints@.subrange(0, j as int), endpoints@[j as int]);
                assert(pre@[gid] == ServiceView {
                    name: base_name,
                    endpoints: base_eps.union(prefix),
                });
                assert(pre.entries@[i as int].1@ == pre@[gid]);
                assert(base_eps.union(prefix).insert(ep@) =~= base_eps.union(prefix1));
                assert(r_old@.insert(
                    gid,
                    ServiceView { name: base_name, endpoints: base_eps.union(prefix) },
                ).insert(
                    gid,
                    ServiceView { name: base_name, endpoints: base_eps.union(prefix1) },
                ) =~= r_old@.insert(
                    gid,
                    ServiceView { name: base_name, endpoints: base_eps.union(prefix1) },
                ));
            }
            j = j + 1;
        }
        proof {
            assert(endpoints@.subrange(0, endpoints@.len() as int) =~= endpoints@);
            if !existed {
                assert(base_eps.union(given) =~= given);
            }
        }
    }

    /// After removing the entry at `i`, the map view loses exactly its key.
    proof fn lemma_view_remove(self, r_new: ServiceRegistry, i: int)
        requires
            self.wf(),
            0 <= i < self.entries@.len(),
            r_new.entries@ == self.entries@.remove(i),
        ensures
            r_new@ == self@.remove(self.entries@[i].0@),
            r_new.wf(),
    {
        let id = self.entries@[i].0@;
        let n = self.entries@.len() as int;
        assert forall|j: int| 0 <= j < r_new.entries@.len() implies r_new.entries@[j] == (
        if j < i {
            self.entries@[j]
        } else {
            self.entries@[j + 1]
        }) by {}
        assert forall|j1: int, j2: int|
            0 <= j1 < j2 < r_new.entries@.len() implies r_new.entries@[j1].0@
            != r_new.entries@[j2].0@ by {
            let s1: int = if j1 < i {
                j1
            } else {
                j1 + 1
            };
            let s2: int = if j2 < i {
                j2
            } else {
                j2 + 1
            };
            assert(self.entries@[s1].0@ != self.entries@[s2].0@);
        }
        assert forall|j: int| 0 <= j < r_new.entries@.len() implies (
        #[trigger] r_new.entries@[j].1).wf() by {
            let s: int = if j < i {
                j
            } else {
                j + 1
            };
            assert(self.entries@[s].1.wf());
        }
        assert forall|k: Seq<char>| #[trigger] r_new@.contains_key(k) implies self@.remove(
            id,
        ).contains_key(k) && r_new@[k] == self@.remove(id)[k] by {
            let j = choose|j: int| 0 <= j < r_new.entries@.len() && r_new.entries@[j].0@ == k;
            r_new.lemma_view_idx(j);
            let s: int = if j < i {
                j
            } else {
                j + 1
            };
            assert(self.entries@[s].0@ == k);
            self.lemma_view_idx(s);
            assert(k != id) by {
                if s < i {
                    assert(self.entries@[s].0@ != self.entries@[i].0@);
                } else {
                    assert(self.entries@[i].0@ != self.entries@[s].0@);
                }
            }
        }
        assert forall|k: Seq<char>| self@.remove(id).contains_key(k) implies r_new@.contains_key(
            k,
        ) by {
            let s = choose|s: int| 0 <= s < self.entries@.len() && self.entries@[s].0@ == k;
            self.lemma_view_idx(s);
            assert(s != i);
            let j: int = if s < i {
                s
            } else {
                s - 1
            };
            assert(r_new.entries@[j].0@ == k);
        }
        assert(r_new@ =~= self@.remove(id));
    }

    /// Remove the entry for `id` if present; a silent no-op otherwise.
    pub fn deregister_service(&mut self, id: &str)
        requires
            old(self).wf(),
        ensures
            final(self).wf(),
            final(self)@ == apply_op(old(self)@, RegistryOp::Deregister { id: id@ }),
    {
        let ghost r_old = *self;
        match self.find_index(id) {
            Some(i) => {
                let _ = self.entries.remove(i);
                proof {
                    r_old.lemma_view_remove(*self, i as int);
                }
            },
            None => {
                proof {
                    assert(!r_old@.contains_key(id@));
                    assert(r_old@.remove(id@) =~= r_old@);
                }
            },
        }
    }

    /// Add one endpoint to an existing service; a deliberate, silent no-op
    /// when the id is not registered.
    pub fn add_endpoint(&mut self, id: &str, endpoint: String)
        requires
            old(self).wf(),
        ensures
            final(self).wf(),
            final(self)@ == apply_op(
                old(self)@,
                RegistryOp::AddEndpoint { id: id@, endpoint: endpoint@ },
            ),
    {
        let ghost r_old = *self;
        match self.find_index(id) {
            Some(i) => {
                proof {
                    self.lemma_view_idx(i as int);
                }
                self.add_endpoint_at(i, endpoint);
            },
            None => {
                proof {
                    assert(!r_old@.contains_key(id@));
                }
            },
        }
    }

    /// A point-in-time copy of the service registered under `id`.
    pub fn get_service(&self, id: &str) -> (r: Option<MicroService>)
        requires
            self.wf(),
        ensures
            r is Some <==> self@.contains_key(id@),
            r matches Some(s) ==> s@ == self@[id@],
    {
        match self.find_index(id) {
            Some(i) => {
                proof {
                    self.lemma_view_idx(i as int);
                }
                Some(self.entries[i].1.clone())
            },
            None => None,
        }
    }

    /// A point-in-time copy of the whole registry, as a list of
    /// (id, service) pairs.
    pub fn get_all_services(&self) -> (r: Vec<(String, MicroService)>)
        ensures
            r@.len() == self.entries@.len(),
            forall|j: int|
                0 <= j < r@.len() ==> (#[trigger] r@[j]).0@ == self.entries@[j].0@ && r@[j].1@
                    == self.entries@[j].1@,
    {
        let mut r: Vec<(String, MicroService)> = Vec::new();
        let mut i: usize = 0;
        while i < self.entries.len()
            invariant
                i <= self.entries@.len(),
                r@.len() == i,
                forall|j: int|
                    0 <= j < i ==> (#[trigger] r@[j]).0@ == self.entries@[j].0@ && r@[j].1@
                        == self.entries@[j].1@,
            decreases self.entries@.len() - i,
        {
            r.push((self.entries[i].0.clone(), self.entries[i].1.clone()));
            i = i + 1;
        }
        r
    }

    /// Resolve an id to one of its endpoints: some member of the endpoint
    /// set if the id is registered and the set is non-empty, none
    /// otherwise. Callers must not depend on which member is returned.
    pub fn resolve_endpoint(&self, id: String) -> (r: Option<String>)
        requires
            self.wf(),
        ensures
            r is Some <==> resolvable(self@, id@),
            r matches Some(e) ==> self@.contains_key(id@) && self@[id@].endpoints.contains(e@),
    {
        match self.find_index(id.as_str()) {
            Some(i) => {
                proof {
                    self.lemma_view_idx(i as int);
                }
                let eps = &self.entries[i].1.endpoints;
                if eps.len() == 0 {
                    proof {
                        assert forall|e: Seq<char>| !self@[id@].endpoints.contains(e) by {}
                    }
                    None
                } else {
                    let e = eps[0].clone();
                    proof {
                        assert(self.entries@[i as int].1.endpoints@[0]@ == e@);
                        assert(self@[id@].endpoints.contains(e@));
                    }
                    Some(e)
                }
            },
            None => None,
        }
    }
}

impl Default for ServiceRegistry {
    /// An empty registry.
    fn default() -> (r: Self)
        ensures
            r.wf(),
            r@ == Map::<Seq<char>, ServiceView>::empty(),
    {
        ServiceRegistry::new()
    }
}

impl Clone for ServiceRegistry {
    /// A copy whose view is the same map.
    fn clone(&self) -> (res: Self)
        ensures
            res.entries@.len() == self.entries@.len(),
            forall|j: int|
                0 <= j < res.entries@.len() ==> (#[trigger] res.entries@[j]).0@
                    == self.entries@[j].0@ && res.entries@[j].1@ == self.entries@[j].1@
                    && res.entries@[j].1.wf() == self.entries@[j].1.wf(),
            self.wf() ==> res.wf() && res@ == self@,
    {
        let mut entries: Vec<(String, MicroService)> = Vec::new();
        let mut i: usize = 0;
        while i < self.entries.len()
            invariant
                i <= self.entries@.len(),
                entries@.len() == i,
                forall|j: int|
                    0 <= j < i ==> (#[trigger] entries@[j]).0@ == self.entries@[j].0@
                        && entries@[j].1.name@ == self.entries@[j].1.name@
                        && entries@[j].1.endpoints@ == self.entries@[j].1.endpoints@,
            decreases self.entries@.len() - i,
        {
            entries.push((self.entries[i].0.clone(), self.entries[i].1.clone()));
            i = i + 1;
        }
        let res = ServiceRegistry { entries };
        proof {
            if self.wf() {
                assert forall|j1: int, j2: int|
                    0 <= j1 < j2 < res.entries@.len() implies res.entries@[j1].0@
                    != res.entries@[j2].0@ by {
                    assert(self.entries@[j1].0@ != self.entries@[j2].0@);
                }
                assert forall|j: int| 0 <= j < res.entries@.len() implies (
                #[trigger] res.entries@[j].1).wf() by {
                    assert(self.entries@[j].1.wf());
                }
                assert forall|k: Seq<char>| res@.contains_key(k) <==> self@.contains_key(k) by {
                    if res.has_id(k) {
                        let j = choose|j: int|
                            0 <= j < res.entries@.len() && res.entries@[j].0@ == k;
                        assert(self.entries@[j].0@ == k);
                    }
                    if self.has_id(k) {
                        let j = choose|j: int|
                            0 <= j < self.entries@.len() && self.entries@[j].0@ == k;
                        assert(res.entries@[j].0@ == k);
                    }
                }
                assert forall|k: Seq<char>| #[trigger] res@.contains_key(k) implies res@[k]
                    == self@[k] by {
                    let j = choose|j: int| 0 <= j < res.entries@.len() && res.entries@[j].0@ == k;
                    res.lemma_view_idx(j);
                    assert(self.entries@[j].0@ == k);
                    self.lemma_view_idx(j);
                }
                assert(res@ =~= self@);
            }
        }
        res
    }
}

/// One operation never touches what is registered under a different id.
pub proof fn lemma_foreign_op_preserves(
    m: Map<Seq<char>, ServiceView>,
    op: RegistryOp,
    id: Seq<char>,
)
    requires
        reg_op_id(op) != id,
    ensures
        apply_op(m, op).contains_key(id) == m.contains_key(id),
        m.contains_key(id) ==> apply_op(m, op)[id] == m[id],
{
}


/// An operation's effect at its own id depends only on that id's
/// binding: two maps that agree there keep agreeing after the operation.
proof fn lemma_apply_at_own_id(
    m1: Map<Seq<char>, ServiceView>,
    m2: Map<Seq<char>, ServiceView>,
    op: RegistryOp,
)
    requires
        m1.contains_key(reg_op_id(op)) == m2.contains_key(reg_op_id(op)),
        m1.contains_key(reg_op_id(op)) ==> m1[reg_op_id(op)] == m2[reg_op_id(op)],
    ensures
        apply_op(m1, op).contains_key(reg_op_id(op)) == apply_op(m2, op).contains_key(
            reg_op_id(op),
        ),
        apply_op(m1, op).contains_key(reg_op_id(op)) ==> apply_op(m1, op)[reg_op_id(op)]
            == apply_op(m2, op)[reg_op_id(op)],
{
}

/// Operations that address distinct ids commute: serializing two
/// concurrent calls in either order reaches the same registry state, so
/// neither caller's update is lost.
pub proof fn lemma_independent_ops_commute(
    m: Map<Seq<char>, ServiceView>,
    op1: RegistryOp,
    op2: RegistryOp,
)
    requires
        reg_op_id(op1) != reg_op_id(op2),
    ensures
        apply_op(apply_op(m, op1), op2) == apply_op(apply_op(m, op2), op1),
{
    let id1 = reg_op_id(op1);
    let id2 = reg_op_id(op2);
    let m1 = apply_op(m, op1);
    let m2 = apply_op(m, op2);
    let lhs = apply_op(m1, op2);
    let rhs = apply_op(m2, op1);
    lemma_foreign_op_preserves(m, op1, id2);
    lemma_foreign_op_preserves(m, op2, id1);
    lemma_foreign_op_preserves(m1, op2, id1);
    lemma_foreign_op_preserves(m2, op1, id2);
    lemma_apply_at_own_id(m, m2, op1);
    lemma_apply_at_own_id(m, m1, op2);
    assert forall|k: Seq<char>|
        (lhs.contains_key(k) <==> rhs.contains_key(k)) && (lhs.contains_key(k) ==> lhs[k]
            == rhs[k]) by {
        if k != id1 && k != id2 {
            lemma_foreign_op_preserves(m, op1, k);
            lemma_foreign_op_preserves(m, op2, k);
            lemma_foreign_op_preserves(m1, op2, k);
            lemma_foreign_op_preserves(m2, op1, k);
        }
    }
    assert(lhs =~= rhs);
}

/// Appending one operation to a history applies it to the folded state:
/// a serialized history of calls (each call's contract ties its effect to
/// `apply_op`) folds to `apply_ops` over the serialization order, so the
/// final registry state is the sequential application of the operations —
/// no update is lost and no intermediate state is half-applied.
pub proof fn lemma_history_append(
    m: Map<Seq<char>, ServiceView>,
    ops: Seq<RegistryOp>,
    op: RegistryOp,
)
    ensures
        apply_ops(m, ops.push(op)) == apply_op(apply_ops(m, ops), op),
{
    assert(ops.push(op).drop_last() =~= ops);
    assert(ops.push(op).last() == op);
}


/// Registering the same service twice with the same arguments leaves the
/// registry as one such call does: register is idempotent.
pub proof fn lemma_register_idempotent(
    m: Map<Seq<char>, ServiceView>,
    id: Seq<char>,
    name: Seq<char>,
    endpoints: Set<Seq<char>>,
)
    ensures
        apply_op(
            apply_op(m, RegistryOp::Register { id, name, endpoints }),
            RegistryOp::Register { id, name, endpoints },
        ) == apply_op(m, RegistryOp::Register { id, name, endpoints }),
{
    let op = RegistryOp::Register { id, name, endpoints };
    let m1 = apply_op(m, op);
    let m2 = apply_op(m1, op);
    assert(m1[id].endpoints.union(endpoints) =~= m1[id].endpoints) by {
        if m.contains_key(id) {
            assert(m1[id].endpoints == m[id].endpoints.union(endpoints));
        }
    }
    assert(m2 =~= m1);
}

/// Registering a service with no endpoints leaves it unresolvable until an
/// endpoint is added.
pub proof fn lemma_register_without_endpoints_unresolvable(
    m: Map<Seq<char>, ServiceView>,
    id: Seq<char>,
    name: Seq<char>,
)
    requires
        !m.contains_key(id),
    ensures
        !resolvable(
            apply_op(m, RegistryOp::Register { id, name, endpoints: Set::empty() }),
            id,
        ),
{
    let m1 = apply_op(m, RegistryOp::Register { id, name, endpoints: Set::empty() });
    assert forall|e: Seq<char>| !m1[id].endpoints.contains(e) by {}
}

/// Adding an endpoint to a registered service makes it resolvable.
pub proof fn lemma_add_endpoint_resolves(
    m: Map<Seq<char>, ServiceView>,
    id: Seq<char>,
    endpoint: Seq<char>,
)
    requires
        m.contains_key(id),
    ensures
        resolvable(apply_op(m, RegistryOp::AddEndpoint { id, endpoint }), id),
{
    let m1 = apply_op(m, RegistryOp::AddEndpoint { id, endpoint });
    assert(m1[id].endpoints.contains(endpoint));
}

/// After a deregistration, the id stays unresolvable across any further
/// operations that address other ids — concurrent registrations of other
/// services cannot resurrect it.
pub proof fn lemma_deregister_then_resolve_none(
    m: Map<Seq<char>, ServiceView>,
    id: Seq<char>,
    ops: Seq<RegistryOp>,
)
    requires
        forall|k: int| 0 <= k < ops.len() ==> reg_op_id(#[trigger] ops[k]) != id,
    ensures
        !apply_ops(apply_op(m, RegistryOp::Deregister { id }), ops).contains_key(id),
        !resolvable(apply_ops(apply_op(m, RegistryOp::Deregister { id }), ops), id),
    decreases ops.len(),
{
    let m0 = apply_op(m, RegistryOp::Deregister { id });
    if ops.len() == 0 {
        assert(!m0.contains_key(id));
    } else {
        lemma_deregister_then_resolve_none(m, id, ops.drop_last());
        lemma_foreign_op_preserves(apply_ops(m0, ops.drop_last()), ops.last(), id);
    }
}

} // verus!

//! Catalog data model: a catalog holds an ordered list of services, each
//! holding an ordered list of plans. Values are passive; optional scalar
//! attributes default to "absent", which is distinct from an explicit
//! `false`, and presence is preserved by every accessor.

use vstd::prelude::*;

verus! {

/// String-to-string mapping with insertion order preserved.
///
/// Entries are kept in the order they were first inserted; inserting a key
/// that is already present replaces the value of its first occurrence.
#[derive(Debug, Clone)]
pub struct Metadata {
    entries: Vec<(String, String)>,
}

/// True when `m` holds an entry with key `k`.
pub open spec fn metadata_has_key(m: Seq<(Seq<char>, Seq<char>)>, k: Seq<char>) -> bool {
    exists|i: int| 0 <= i < m.len() && m[i].0 == k
}

/// Index of the first entry of `m` whose key is `k`.
pub open spec fn metadata_key_index(m: Seq<(Seq<char>, Seq<char>)>, k: Seq<char>) -> int
    decreases m.len(),
{
    if m.len() == 0 {
        0
    } else if m[0].0 == k {
        0
    } else {
        1 + metadata_key_index(m.drop_first(), k)
    }
}

/// The mapping after inserting `k -> v`: the first entry with key `k` is
/// replaced, or a fresh entry is appended when `k` is absent.
pub open spec fn metadata_insert(
    m: Seq<(Seq<char>, Seq<char>)>,
    k: Seq<char>,
    v: Seq<char>,
) -> Seq<(Seq<char>, Seq<char>)> {
    if metadata_has_key(m, k) {
        m.update(metadata_key_index(m, k), (k, v))
    } else {
        m.push((k, v))
    }
}

/// True when no two entries of `m` share a key.
pub open spec fn metadata_wf(m: Seq<(Seq<char>, Seq<char>)>) -> bool {
    forall|i: int, j: int| 0 <= i < j < m.len() ==> m[i].0 != m[j].0
}

proof fn lemma_metadata_key_index_at(m: Seq<(Seq<char>, Seq<char>)>, k: Seq<char>, i: int)
    requires
        0 <= i < m.len(),
        m[i].0 == k,
        forall|j: int| 0 <= j < i ==> m[j].0 != k,
    ensures
        metadata_has_key(m, k),
        metadata_key_index(m, k) == i,
    decreases i,
{
    if i == 0 {
    } else {
        assert(m.drop_first()[i - 1].0 == k);
        lemma_metadata_key_index_at(m.drop_first(), k, i - 1);
    }
}

impl View for Metadata {
    type V = Seq<(Seq<char>, Seq<char>)>;

    closed spec fn view(&self) -> Seq<(Seq<char>, Seq<char>)> {
        Seq::new(self.entries@.len(), |i: int| (self.entries@[i].0@, self.entries@[i].1@))
    }
}

impl Metadata {
    /// An empty mapping.
    pub fn new() -> (r: Metadata)
        ensures
            r@ == Seq::<(Seq<char>, Seq<char>)>::empty(),
    {
        let r = Metadata { entries: Vec::new() };
        proof {
            assert(r@ =~= Seq::<(Seq<char>, Seq<char>)>::empty());
        }
        r
    }

    /// Number of entries.
    pub fn len(&self) -> (n: usize)
        ensures
            n == self@.len(),
    {
        self.entries.len()
    }

    /// True when no entry is present.
    pub fn is_empty(&self) -> (r: bool)
        ensures
            r == (self@.len() == 0),
    {
        self.entries.len() == 0
    }

    /// Key of the entry at position `i`.
    pub fn key_at(&self, i: usize) -> (k: &String)
        requires
            i < self@.len(),
        ensures
            k@ == self@[i as int].0,
    {
        &self.entries[i].0
    }

    /// Value of the entry at position `i`.
    pub fn value_at(&self, i: usize) -> (v: &String)
        requires
            i < self@.len(),
        ensures
            v@ == self@[i as int].1,
    {
        &self.entries[i].1
    }

    /// Value of the first entry with key `key`, if any.
    pub fn get(&self, key: &String) -> (r: Option<&String>)
        ensures
            match r {
                Some(v) => metadata_has_key(self@, key@) && v@ == self@[metadata_key_index(
                    self@,
                    key@,
                )].1,
                None => !metadata_has_key(self@, key@),
            },
    {
        let n = self.entries.len();
        let mut i: usize = 0;
        while i < n
            invariant
                n == self@.len(),
                i <= n,
                forall|j: int| 0 <= j < i ==> self@[j].0 != key@,
            decreases n - i,
        {
            if self.entries[i].0.eq(key) {
                proof {
                    lemma_metadata_key_index_at(self@, key@, i as int);
                }
                return Some(&self.entries[i].1);
            }
            i = i + 1;
        }
        None
    }

    /// Inserts `key -> value`, replacing the value of the first entry with
    /// that key, or appending a new entry when the key is absent. Distinct
    /// keys stay distinct.
    pub fn insert(&mut self, key: String, value: String)
        ensures
            final(self)@ == metadata_insert(old(self)@, key@, value@),
            metadata_wf(old(self)@) ==> metadata_wf(final(self)@),
    {
        let n = self.entries.len();
        let mut i: usize = 0;
        while i < n
            invariant
                n == self@.len(),
                i <= n,
                self == old(self),
                forall|j: int| 0 <= j < i ==> self@[j].0 != key@,
            decreases n - i,
        {
            if self.entries[i].0.eq(&key) {
                proof {
                    lemma_metadata_key_index_at(self@, key@, i as int);
                }
                let ghost pre = self@;
                let slot = &mut self.entries[i];
                *slot = (key, value);
                proof {
                    assert(self@ =~= pre.update(i as int, (pre[i as int].0, value@)));
                }
                return ;
            }
            i = i + 1;
        }
        let ghost pre = self@;
        self.entries.push((key, value));
        proof {
            assert(self@ =~= pre.push((key@, value@)));
        }
    }
}

/// Mathematical content of a `ServicePlan`.
#[verifier::ext_equal]
pub ghost struct ServicePlanView {
    pub id: Seq<char>,
    pub name: Seq<char>,
    pub description: Seq<char>,
    pub metadata: Seq<(Seq<char>, Seq<char>)>,
    pub free: Option<bool>,
    pub bindable: Option<bool>,
    pub plan_updateable: Option<bool>,
    pub maximum_polling_duration: Option<u64>,
}

/// Mathematical content of a `Service`.
#[verifier::ext_equal]
pub ghost struct ServiceView {
    pub name: Seq<char>,
    pub id: Seq<char>,
    pub description: Seq<char>,
    pub tags: Seq<Seq<char>>,
    pub required_permissions: Seq<Seq<char>>,
    pub bindable: bool,
    pub instances_retrievable: Option<bool>,
    pub bindings_retrievable: Option<bool>,
    pub allow_context_updates: Option<bool>,
    pub metadata: Seq<(Seq<char>, Seq<char>)>,
    pub plan_updateable: Option<bool>,
    pub plans: Seq<ServicePlanView>,
}

/// Mathematical content of a `Catalog`.
#[verifier::ext_equal]
pub ghost struct CatalogView {
    pub services: Seq<ServiceView>,
}

/// True when every metadata mapping of the catalog, on its services and on
/// their plans, keeps its keys distinct. Every catalog assembled through
/// this crate's constructors and accessors is of this shape.
pub open spec fn catalog_wf(c: CatalogView) -> bool {
    forall|i: int|
        0 <= i < c.services.len() ==> {
            &&& metadata_wf(#[trigger] c.services[i].metadata)
            &&& forall|j: int|
                0 <= j < c.services[i].plans.len() ==> metadata_wf(
                    #[trigger] c.services[i].plans[j].metadata,
                )
        }
}

/// Views of a sequence of strings.
pub open spec fn strings_view(v: Seq<String>) -> Seq<Seq<char>> {
    Seq::new(v.len(), |i: int| v[i]@)
}

/// Views of a sequence of plans.
pub open spec fn plans_view(v: Seq<ServicePlan>) -> Seq<ServicePlanView> {
    Seq::new(v.len(), |i: int| v[i]@)
}

/// Views of a sequence of services.
pub open spec fn services_view(v: Seq<Service>) -> Seq<ServiceView> {
    Seq::new(v.len(), |i: int| v[i]@)
}

/// A purchasable tier of a service.
#[derive(Debug, Clone)]
pub struct ServicePlan {
    id: String,
    name: String,
    description: String,
    metadata: Metadata,
    free: Option<bool>,
    bindable: Option<bool>,
    plan_updateable: Option<bool>,
    maximum_polling_duration: Option<u64>,
}

impl View for ServicePlan {
    type V = ServicePlanView;

    closed spec fn view(&self) -> ServicePlanView {
        ServicePlanView {
            id: self.id@,
            name: self.name@,
            description: self.description@,
            metadata: self.metadata@,
            free: self.free,
            bindable: self.bindable,
            plan_updateable: self.plan_updateable,
            maximum_polling_duration: self.maximum_polling_duration,
        }
    }
}

impl ServicePlan {
    /// A plan with empty strings, empty metadata and every optional
    /// attribute absent.
    pub fn new() -> (r: ServicePlan)
        ensures
            r@.id == Seq::<char>::empty(),
            r@.name == Seq::<char>::empty(),
            r@.description == Seq::<char>::empty(),
            r@.metadata == Seq::<(Seq<char>, Seq<char>)>::empty(),
            r@.free == Option::<bool>::None,
            r@.bindable == Option::<bool>::None,
            r@.plan_updateable == Option::<bool>::None,
            r@.maximum_polling_duration == Option::<u64>::None,
    {
        let r = ServicePlan {
            id: String::new(),
            name: String::new(),
            description: String::new(),
            metadata: Metadata::new(),
            free: None,
            bindable: None,
            plan_updateable: None,
            maximum_polling_duration: None,
        };
        proof {
            assert(r@.id =~= Seq::<char>::empty());
            assert(r@.name =~= Seq::<char>::empty());
            assert(r@.description =~= Seq::<char>::empty());
        }
        r
    }

    pub fn id(&self) -> (r: &str)
        ensures
            r@ == self@.id,
    {
        self.id.as_str()
    }

    pub fn id_mut(&mut self) -> (r: &mut String)
        ensures
            (*r)@ == old(self)@.id,
            final(self)@ == (ServicePlanView { id: (*final(r))@, ..old(self)@ }),
    {
        &mut self.id
    }

    pub fn name(&self) -> (r: &str)
        ensures
            r@ == self@.name,
    {
        self.name.as_str()
    }

    pub fn name_mut(&mut self) -> (r: &mut String)
        ensures
            (*r)@ == old(self)@.name,
            final(self)@ == (ServicePlanView { name: (*final(r))@, ..old(self)@ }),
    {
        &mut self.name
    }

    pub fn description(&self) -> (r: &str)
        ensures
            r@ == self@.description,
    {
        self.description.as_str()
    }

    pub fn description_mut(&mut self) -> (r: &mut String)
        ensures
            (*r)@ == old(self)@.description,
            final(self)@ == (ServicePlanView { description: (*final(r))@, ..old(self)@ }),
    {
        &mut self.description
    }

    pub fn metadata(&self) -> (r: &Metadata)
        ensures
            r@ == self@.metadata,
    {
        &self.metadata
    }

    pub fn metadata_mut(&mut self) -> (r: &mut Metadata)
        ensures
            (*r)@ == old(self)@.metadata,
            final(self)@ == (ServicePlanView { metadata: (*final(r))@, ..old(self)@ }),
    {
        &mut self.metadata
    }

    pub fn free(&self) -> (r: Option<bool>)
        ensures
            r == self@.free,
    {
        self.free
    }

    pub fn free_mut(&mut self) -> (r: &mut Option<bool>)
        ensures
            *r == old(self)@.free,
            final(self)@ == (ServicePlanView { free: *final(r), ..old(self)@ }),
    {
        &mut self.free
    }

    pub fn bindable(&self) -> (r: Option<bool>)
        ensures
            r == self@.bindable,
    {
        self.bindable
    }

    pub fn bindable_mut(&mut self) -> (r: &mut Option<bool>)
        ensures
            *r == old(self)@.bindable,
            final(self)@ == (ServicePlanView { bindable: *final(r), ..old(self)@ }),
    {
        &mut self.bindable
    }

    pub fn plan_updateable(&self) -> (r: Option<bool>)
        ensures
            r == self@.plan_updateable,
    {
        self.plan_updateable
    }

    pub fn plan_updateable_mut(&mut self) -> (r: &mut Option<bool>)
        ensures
            *r == old(self)@.plan_updateable,
            final(self)@ == (ServicePlanView { plan_updateable: *final(r), ..old(self)@ }),
    {
        &mut self.plan_updateable
    }

    pub fn maximum_polling_duration(&self) -> (r: Option<u64>)
        ensures
            r == self@.maximum_polling_duration,
    {
        self.maximum_polling_duration
    }

    pub fn maximum_polling_duration_mut(&mut self) -> (r: &mut Option<u64>)
        ensures
            *r == old(self)@.maximum_polling_duration,
            final(self)@ == (ServicePlanView {
                maximum_polling_duration: *final(r),
                ..old(self)@
            }),
    {
        &mut self.maximum_polling_duration
    }
}

/// One offerable capability with its plans.
#[derive(Debug, Clone)]
pub struct Service {
    name: String,
    id: String,
    description: String,
    tags: Vec<String>,
    required_permissions: Vec<String>,
    bindable: bool,
    instances_retrievable: Option<bool>,
    bindings_retrievable: Option<bool>,
    allow_context_updates: Option<bool>,
    metadata: Metadata,
    plan_updateable: Option<bool>,
    plans: Vec<ServicePlan>,
}

impl View for Service {
    type V = ServiceView;

    closed spec fn view(&self) -> ServiceView {
        ServiceView {
            name: self.name@,
            id: self.id@,
            description: self.description@,
            tags: strings_view(self.tags@),
            required_permissions: strings_view(self.required_permissions@),
            bindable: self.bindable,
            instances_retrievable: self.instances_retrievable,
            bindings_retrievable: self.bindings_retrievable,
            allow_context_updates: self.allow_context_updates,
            metadata: self.metadata@,
            plan_updateable: self.plan_updateable,
            plans: plans_view(self.plans@),
        }
    }
}

impl Service {
    /// A service with empty strings and collections, `bindable` false and
    /// every optional attribute absent.
    pub fn new() -> (r: Service)
        ensures
            r@.name == Seq::<char>::empty(),
            r@.id == Seq::<char>::empty(),
            r@.description == Seq::<char>::empty(),
            r@.tags == Seq::<Seq<char>>::empty(),
            r@.required_permissions == Seq::<Seq<char>>::empty(),
            r@.bindable == false,
            r@.instances_retrievable == Option::<bool>::None,
            r@.bindings_retrievable == Option::<bool>::None,
            r@.allow_context_updates == Option::<bool>::None,
            r@.metadata == Seq::<(Seq<char>, Seq<char>)>::empty(),
            r@.plan_updateable == Option::<bool>::None,
            r@.plans == Seq::<ServicePlanView>::empty(),
    {
        let r = Service {
            name: String::new(),
            id: String::new(),
            description: String::new(),
            tags: Vec::new(),
            required_permissions: Vec::new(),
            bindable: false,
            instances_retrievable: None,
            bindings_retrievable: None,
            allow_context_updates: None,
            metadata: Metadata::new(),
            plan_updateable: None,
            plans: Vec::new(),
        };
        proof {
            assert(r@.name =~= Seq::<char>::empty());
            assert(r@.id =~= Seq::<char>::empty());
            assert(r@.description =~= Seq::<char>::empty());
            assert(r@.tags =~= Seq::<Seq<char>>::empty());
            assert(r@.required_permissions =~= Seq::<Seq<char>>::empty());
            assert(r@.plans =~= Seq::<ServicePlanView>::empty());
        }
        r
    }

    pub fn name(&self) -> (r: &str)
        ensures
            r@ == self@.name,
    {
        self.name.as_str()
    }

    pub fn name_mut(&mut self) -> (r: &mut String)
        ensures
            (*r)@ == old(self)@.name,
            final(self)@ == (ServiceView { name: (*final(r))@, ..old(self)@ }),
    {
        &mut self.name
    }

    pub fn id(&self) -> (r: &str)
        ensures
            r@ == self@.id,
    {
        self.id.as_str()
    }

    pub fn id_mut(&mut self) -> (r: &mut String)
        ensures
            (*r)@ == old(self)@.id,
            final(self)@ == (ServiceView { id: (*final(r))@, ..old(self)@ }),
    {
        &mut self.id
    }

    pub fn description(&self) -> (r: &str)
        ensures
            r@ == self@.description,
    {
        self.description.as_str()
    }

    pub fn description_mut(&mut self) -> (r: &mut String)
        ensures
            (*r)@ == old(self)@.description,
            final(self)@ == (ServiceView { description: (*final(r))@, ..old(self)@ }),
    {
        &mut self.description
    }

    pub fn tags(&self) -> (r: &Vec<String>)
        ensures
            strings_view(r@) == self@.tags,
    {
        &self.tags
    }

    pub fn tags_mut(&mut self) -> (r: &mut Vec<String>)
        ensures
            strings_view((*r)@) == old(self)@.tags,
            final(self)@ == (ServiceView { tags: strings_view((*final(r))@), ..old(self)@ }),
    {
        &mut self.tags
    }

    pub fn required_permissions(&self) -> (r: &Vec<String>)
        ensures
            strings_view(r@) == self@.required_permissions,
    {
        &self.required_permissions
    }

    pub fn required_permissions_mut(&mut self) -> (r: &mut Vec<String>)
        ensures
            strings_view((*r)@) == old(self)@.required_permissions,
            final(self)@ == (ServiceView {
                required_permissions: strings_view((*final(r))@),
                ..old(self)@
            }),
    {
        &mut self.required_permissions
    }

    pub fn bindable(&self) -> (r: bool)
        ensures
            r == self@.bindable,
    {
        self.bindable
    }

    pub fn bindable_mut(&mut self) -> (r: &mut bool)
        ensures
            *r == old(self)@.bindable,
            final(self)@ == (ServiceView { bindable: *final(r), ..old(self)@ }),
    {
        &mut self.bindable
    }

    pub fn instances_retrievable(&self) -> (r: Option<bool>)
        ensures
            r == self@.instances_retrievable,
    {
        self.instances_retrievable
    }

    pub fn instances_retrievable_mut(&mut self) -> (r: &mut Option<bool>)
        ensures
            *r == old(self)@.instances_retrievable,
            final(self)@ == (ServiceView { instances_retrievable: *final(r), ..old(self)@ }),
    {
        &mut self.instances_retrievable
    }

    pub fn bindings_retrievable(&self) -> (r: Option<bool>)
        ensures
            r == self@.bindings_retrievable,
    {
        self.bindings_retrievable
    }

    pub fn bindings_retrievable_mut(&mut self) -> (r: &mut Option<bool>)
        ensures
            *r == old(self)@.bindings_retrievable,
            final(self)@ == (ServiceView { bindings_retrievable: *final(r), ..old(self)@ }),
    {
        &mut self.bindings_retrievable
    }

    pub fn allow_context_updates(&self) -> (r: Option<bool>)
        ensures
            r == self@.allow_context_updates,
    {
        self.allow_context_updates
    }

    pub fn allow_context_updates_mut(&mut self) -> (r: &mut Option<bool>)
        ensures
            *r == old(self)@.allow_context_updates,
            final(self)@ == (ServiceView { allow_context_updates: *final(r), ..old(self)@ }),
    {
        &mut self.allow_context_updates
    }

    pub fn metadata(&self) -> (r: &Metadata)
        ensures
            r@ == self@.metadata,
    {
        &self.metadata
    }

    pub fn metadata_mut(&mut self) -> (r: &mut Metadata)
        ensures
            (*r)@ == old(self)@.metadata,
            final(self)@ == (ServiceView { metadata: (*final(r))@, ..old(self)@ }),
    {
        &mut self.metadata
    }

    pub fn plan_updateable(&self) -> (r: Option<bool>)
        ensures
            r == self@.plan_updateable,
    {
        self.plan_updateable
    }

    pub fn plan_updateable_mut(&mut self) -> (r: &mut Option<bool>)
        ensures
            *r == old(self)@.plan_updateable,
            final(self)@ == (ServiceView { plan_updateable: *final(r), ..old(self)@ }),
    {
        &mut self.plan_updateable
    }

    pub fn plans(&self) -> (r: &Vec<ServicePlan>)
        ensures
            plans_view(r@) == self@.plans,
    {
        &self.plans
    }

    pub fn plans_mut(&mut self) -> (r: &mut Vec<ServicePlan>)
        ensures
            plans_view((*r)@) == old(self)@.plans,
            final(self)@ == (ServiceView { plans: plans_view((*final(r))@), ..old(self)@ }),
    {
        &mut self.plans
    }
}

/// The top-level document listing offerable services.
#[derive(Debug, Clone)]
pub struct Catalog {
    services: Vec<Service>,
}

impl View for Catalog {
    type V = CatalogView;

    closed spec fn view(&self) -> CatalogView {
        CatalogView { services: services_view(self.services@) }
    }
}

impl Catalog {
    /// The empty catalog: no services at all.
    pub fn new() -> (r: Catalog)
        ensures
            r@.services == Seq::<ServiceView>::empty(),
    {
        let r = Catalog { services: Vec::new() };
        proof {
            assert(r@.services =~= Seq::<ServiceView>::empty());
        }
        r
    }

    pub fn services(&self) -> (r: &Vec<Service>)
        ensures
            services_view(r@) == self@.services,
    {
        &self.services
    }

    pub fn services_mut(&mut self) -> (r: &mut Vec<Service>)
        ensures
            services_view((*r)@) == old(self)@.services,
            final(self)@ == (CatalogView { services: services_view((*final(r))@) }),
    {
        &mut self.services
    }
}

} // verus!

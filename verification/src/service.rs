//! Catalog providers: the capability contract "produce a catalog, possibly
//! failing", with three implementations composed by delegation.
//!
//! * [`SingleCatalogProvider`] wraps an in-memory catalog and always hands
//!   out that same content.
//! * [`JsonFileCatalogProvider`] names a JSON document and turns the outcome
//!   of reading it into a catalog or an error; the reading itself is the
//!   embedding application's part, so that retrieval stays checkable.
//! * [`CachingCatalogProvider`] wraps any provider, loads it at most once
//!   after its first success, and serves the stored snapshot thereafter.

use vstd::prelude::*;
use vstd::rwlock::RwLock;
use vstd::rwlock::RwLockPredicate;

use std::sync::Arc;

use crate::codec;
use crate::json;
use crate::model::Catalog;
use crate::model::CatalogView;

verus! {

/// Why a catalog source could not be reached.
#[derive(Debug, Clone, Copy, PartialEq, Eq, Structural)]
pub enum AccessErrorKind {
    /// The source does not exist.
    NotFound,
    /// The source exists but may not be read.
    PermissionDenied,
    /// Any other access failure.
    Other,
}

/// Why a provider could not produce a catalog. Both kinds name the source
/// they are about; no partial catalog is ever returned alongside one.
#[derive(Debug, Clone)]
pub enum CatalogError {
    /// The catalog source could not be opened or reached.
    ResourceAccess { source_id: String, kind: AccessErrorKind },
    /// The source was read but its content is not a well-formed catalog
    /// document.
    Format { source_id: String },
}

impl CatalogError {
    /// True for a resource-access failure.
    pub fn is_resource_access(&self) -> (r: bool)
        ensures
            r == (self is ResourceAccess),
    {
        match self {
            CatalogError::ResourceAccess { .. } => true,
            CatalogError::Format { .. } => false,
        }
    }

    /// True for a format failure.
    pub fn is_format(&self) -> (r: bool)
        ensures
            r == (self is Format),
    {
        match self {
            CatalogError::ResourceAccess { .. } => false,
            CatalogError::Format { .. } => true,
        }
    }

    /// The access failure's kind, when it is one.
    pub fn access_kind(&self) -> (r: Option<AccessErrorKind>)
        ensures
            match r {
                Some(k) => self matches CatalogError::ResourceAccess { kind, .. } && k == kind,
                None => self is Format,
            },
    {
        match self {
            CatalogError::ResourceAccess { kind, .. } => Some(*kind),
            CatalogError::Format { .. } => None,
        }
    }

    /// The identifier of the source the failure is about.
    pub fn source_id(&self) -> (r: &str)
        ensures
            match self {
                CatalogError::ResourceAccess { source_id, .. } => r@ == source_id@,
                CatalogError::Format { source_id } => r@ == source_id@,
            },
    {
        match self {
            CatalogError::ResourceAccess { source_id, .. } => source_id.as_str(),
            CatalogError::Format { source_id } => source_id.as_str(),
        }
    }
}

/// Relies on `Arc::clone`: yields another handle to the same value.
#[verifier::external_body]
fn share_arc(a: &Arc<Catalog>) -> (r: Arc<Catalog>)
    ensures
        r == *a,
{
    Arc::clone(a)
}

/// The capability to produce a catalog, possibly failing. Side effects are
/// implementation-defined; a result is always a whole catalog.
pub trait CatalogProvider {
    /// Which catalog contents this provider can hand out on success. An
    /// implementation that promises nothing may leave the default, which
    /// holds of every catalog.
    open spec fn provides(&self, c: CatalogView) -> bool {
        true
    }

    /// Produce the catalog: a cheaply shareable handle to a snapshot, or the
    /// error that prevented one.
    fn get_catalog(&self) -> (r: Result<Arc<Catalog>, CatalogError>)
        ensures
            r matches Ok(c) ==> self.provides(c@),
    ;

    /// Materialize the provider's current result as an owned, independently
    /// cacheable snapshot.
    fn to_single(&self) -> (r: Result<SingleCatalogProvider, CatalogError>)
        ensures
            r matches Ok(p) ==> self.provides(p@),
    {
        match self.get_catalog() {
            Ok(c) => Ok(SingleCatalogProvider::from_shared(c)),
            Err(e) => Err(e),
        }
    }
}

/// A provider over an in-memory catalog value: every call succeeds with the
/// same content the provider was constructed with.
#[derive(Clone)]
pub struct SingleCatalogProvider {
    catalog: Arc<Catalog>,
}

impl View for SingleCatalogProvider {
    type V = CatalogView;

    closed spec fn view(&self) -> CatalogView {
        self.catalog@
    }
}

impl SingleCatalogProvider {
    /// Wraps the given catalog value.
    pub fn new(catalog: Catalog) -> (r: Self)
        ensures
            r@ == catalog@,
    {
        SingleCatalogProvider { catalog: Arc::new(catalog) }
    }

    /// Wraps an already shared snapshot.
    fn from_shared(catalog: Arc<Catalog>) -> (r: Self)
        ensures
            r@ == catalog@,
    {
        SingleCatalogProvider { catalog }
    }

    /// A shareable handle to the wrapped snapshot.
    pub fn snapshot(&self) -> (r: Arc<Catalog>)
        ensures
            r@ == self@,
    {
        share_arc(&self.catalog)
    }
}

/// A static provider can only ever hand out one content: whatever two
/// successful results it gives, across any number of calls, they are the
/// catalog it was constructed with.
pub proof fn lemma_static_provider_constant(
    p: SingleCatalogProvider,
    c1: CatalogView,
    c2: CatalogView,
)
    requires
        p.provides(c1),
        p.provides(c2),
    ensures
        c1 == p@,
        c1 == c2,
{
}

impl CatalogProvider for SingleCatalogProvider {
    open spec fn provides(&self, c: CatalogView) -> bool {
        c == self@
    }

    /// Always succeeds, always with the constructed content.
    fn get_catalog(&self) -> (r: Result<Arc<Catalog>, CatalogError>)
        ensures
            r matches Ok(c) && c@ == self@,
    {
        Ok(share_arc(&self.catalog))
    }
}

/// A provider that names a JSON catalog document. It holds no catalog data
/// itself: every retrieval reads the source anew and parses it, so it has no
/// memory of earlier results. The read itself is I/O and is done by the
/// embedding application, which hands its outcome to [`Self::catalog_from_read`].
#[derive(Clone)]
pub struct JsonFileCatalogProvider {
    path: String,
}

impl JsonFileCatalogProvider {
    /// The path of the named document.
    pub closed spec fn path_view(&self) -> Seq<char> {
        self.path@
    }

    /// Names the document at `path`.
    pub fn new(path: &str) -> (r: Self)
        ensures
            r.path_view() == path@,
    {
        JsonFileCatalogProvider { path: path.to_owned() }
    }

    /// The configured path.
    pub fn path(&self) -> (r: &str)
        ensures
            r@ == self.path_view(),
    {
        self.path.as_str()
    }

    /// The decision half of one retrieval: given the outcome of reading the
    /// named document, the catalog it denotes, a format error when its text
    /// is not a well-formed catalog document, or a resource-access error
    /// when reading failed. Every error names this provider's path.
    pub fn catalog_from_read(&self, outcome: Result<String, AccessErrorKind>) -> (r: Result<
        Catalog,
        CatalogError,
    >)
        ensures
            match outcome {
                Ok(text) => match json::scan_document(text@) {
                    Some(cv) => r matches Ok(c) && c@ == cv,
                    None => r matches Err(CatalogError::Format { source_id }) && source_id@
                        == self.path_view(),
                },
                Err(k) => r matches Err(CatalogError::ResourceAccess { source_id, kind })
                    && source_id@ == self.path_view() && kind == k,
            },
    {
        match outcome {
            Ok(text) => match codec::from_json(text.as_str()) {
                Some(c) => Ok(c),
                None => Err(CatalogError::Format { source_id: self.path.clone() }),
            },
            Err(k) => Err(CatalogError::ResourceAccess { source_id: self.path.clone(), kind: k }),
        }
    }
}

/// The lock predicate of the caching decorator's slot: whatever snapshot is
/// stored came from the wrapped provider.
pub struct CachePred<T> {
    pub provider: T,
}

impl<T: CatalogProvider> RwLockPredicate<Option<Arc<Catalog>>> for CachePred<T> {
    open spec fn inv(self, v: Option<Arc<Catalog>>) -> bool {
        v matches Some(c) ==> self.provider.provides(c@)
    }
}

/// A caching decorator over any provider: one slot, empty at construction,
/// populated by the first successful load and served from then on. A failed
/// load leaves the slot empty, so the next call retries the wrapped
/// provider from scratch.
pub struct CachingCatalogProvider<T: CatalogProvider> {
    provider: T,
    cache: RwLock<Option<Arc<Catalog>>, CachePred<T>>,
}

impl<T: CatalogProvider> CachingCatalogProvider<T> {
    #[verifier::type_invariant]
    spec fn lock_matches_provider(&self) -> bool {
        self.cache.pred() == (CachePred { provider: self.provider })
    }

    /// The provider this decorator delegates to.
    pub closed spec fn wrapped(&self) -> T {
        self.provider
    }

    /// Wraps `provider` with an empty cache slot.
    pub fn new(provider: T) -> (r: Self)
        ensures
            r.wrapped() == provider,
    {
        let cache = RwLock::new(None, Ghost(CachePred { provider }));
        CachingCatalogProvider { provider, cache }
    }
}

impl<T: CatalogProvider> CatalogProvider for CachingCatalogProvider<T> {
    open spec fn provides(&self, c: CatalogView) -> bool {
        self.wrapped().provides(c)
    }

    /// Serves the stored snapshot when the slot is populated, without
    /// consulting the wrapped provider again; otherwise materializes the
    /// wrapped provider's result, stores it on success, and propagates its
    /// error on failure. The empty-to-populated transition is guarded by a
    /// reader-writer lock, so concurrent callers all observe the first
    /// stored success.
    fn get_catalog(&self) -> (r: Result<Arc<Catalog>, CatalogError>)
        ensures
            r matches Ok(c) ==> self.provides(c@),
    {
        proof {
            use_type_invariant(self);
        }
        let handle = self.cache.acquire_read();
        let cached = match handle.borrow() {
            Some(c) => Some(share_arc(c)),
            None => None,
        };
        handle.release_read();
        match cached {
            Some(c) => Ok(c),
            None => match self.provider.to_single() {
                Err(e) => Err(e),
                Ok(single) => {
                    let fresh = single.snapshot();
                    let (cur, write) = self.cache.acquire_write();
                    let out: Arc<Catalog>;
                    let stored: Option<Arc<Catalog>>;
                    match cur {
                        Some(c2) => {
                            out = share_arc(&c2);
                            stored = Some(c2);
                        },
                        None => {
                            out = share_arc(&fresh);
                            stored = Some(fresh);
                        },
                    }
                    write.release_write(stored);
                    Ok(out)
                },
            },
        }
    }
}

} // verus!

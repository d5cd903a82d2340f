use std::cell::Cell;
use std::sync::Arc;

use openservicebroker::codec::to_json;
use openservicebroker::model::Catalog;
use openservicebroker::model::Service;
use openservicebroker::model::ServicePlan;
use openservicebroker::service::AccessErrorKind;
use openservicebroker::service::CachingCatalogProvider;
use openservicebroker::service::CatalogError;
use openservicebroker::service::CatalogProvider;
use openservicebroker::service::JsonFileCatalogProvider;
use openservicebroker::service::SingleCatalogProvider;

fn build_catalog() -> Catalog {
    let mut catalog = Catalog::new();

    let mut mysql = Service::new();
    *mysql.id_mut() = "mysql".to_owned();
    *mysql.name_mut() = "MySQL".to_owned();

    let mut mysql_free = ServicePlan::new();
    *mysql_free.id_mut() = "mysql_free".to_owned();
    *mysql_free.name_mut() = "MySQL (Free)".to_owned();
    mysql.plans_mut().push(mysql_free);

    let mut mysql_small = ServicePlan::new();
    *mysql_small.id_mut() = "mysql_small".to_owned();
    *mysql_small.name_mut() = "MySQL (Small)".to_owned();
    mysql.plans_mut().push(mysql_small);

    catalog.services_mut().push(mysql);

    let mut pgsql = Service::new();
    *pgsql.id_mut() = "pgsql".to_owned();
    *pgsql.name_mut() = "PostgreSQL".to_owned();

    let mut pgsql_free = ServicePlan::new();
    *pgsql_free.id_mut() = "pgsql_free".to_owned();
    *pgsql_free.name_mut() = "PostgreSQL (Free)".to_owned();
    pgsql.plans_mut().push(pgsql_free);

    let mut pgsql_small = ServicePlan::new();
    *pgsql_small.id_mut() = "pgsql_small".to_owned();
    *pgsql_small.name_mut() = "PostgreSQL (Small)".to_owned();
    pgsql.plans_mut().push(pgsql_small);

    catalog.services_mut().push(pgsql);

    catalog
}

fn check_catalog_provider<T: CatalogProvider>(provider: &T) {
    let catalog = provider.get_catalog().expect("Error on retrieving catalog");
    let mut services = catalog.services().iter();

    if let Some(mysql) = services.next() {
        assert_eq!("mysql", mysql.id(), "mysql.id");
        assert_eq!("MySQL", mysql.name(), "mysql.name");

        let mut plans = mysql.plans().iter();

        if let Some(mysql_free) = plans.next() {
            assert_eq!("mysql_free", mysql_free.id(), "mysql.plans.free.id");
            assert_eq!("MySQL (Free)", mysql_free.name(), "mysql.plans.free.name");
        } else {
            panic!("Missing MySQL Free plan");
        }

        if let Some(mysql_small) = plans.next() {
            assert_eq!("mysql_small", mysql_small.id(), "mysql.plans.small.id");
            assert_eq!("MySQL (Small)", mysql_small.name(), "mysql.plans.small.name");
        }

        assert!(plans.next().is_none(), "mysql.plans.end");
    } else {
        panic!("Missing MySQL service");
    }

    if let Some(pgsql) = services.next() {
        assert_eq!("pgsql", pgsql.id(), "pgsql.id");
        assert_eq!("PostgreSQL", pgsql.name(), "pgsql.name");

        let mut plans = pgsql.plans().iter();

        if let Some(pgsql_free) = plans.next() {
            assert_eq!("pgsql_free", pgsql_free.id(), "pgsql.plans.free.id");
            assert_eq!("PostgreSQL (Free)", pgsql_free.name(), "pgsql.plans.free.name");
        } else {
            panic!("Missing PostgreSQL Free plan");
        }

        if let Some(pgsql_small) = plans.next() {
            assert_eq!("pgsql_small", pgsql_small.id(), "pgsql.plans.small.id");
            assert_eq!("PostgreSQL (Small)", pgsql_small.name(), "pgsql.plans.small.name");
        }

        assert!(plans.next().is_none(), "pgsql.plans.end");
    } else {
        panic!("Missing PostgreSQL service");
    }

    assert!(services.next().is_none(), "services.end");
}

/// A file-backed provider over a named document. The file system itself is
/// out of reach here, so a shared slot stands in for it: a present document
/// is read anew on every call, a missing one fails as a missing file does;
/// the library's decision half does the rest.
struct FileBacked {
    inner: JsonFileCatalogProvider,
    document: std::rc::Rc<std::cell::RefCell<Option<String>>>,
}

impl FileBacked {
    fn new(path: &str, document: Option<String>) -> Self {
        FileBacked {
            inner: JsonFileCatalogProvider::new(path),
            document: std::rc::Rc::new(std::cell::RefCell::new(document)),
        }
    }
}

impl CatalogProvider for FileBacked {
    fn get_catalog(&self) -> Result<Arc<Catalog>, CatalogError> {
        let outcome = match self.document.borrow().as_ref() {
            Some(text) => Ok(text.clone()),
            None => Err(AccessErrorKind::NotFound),
        };
        self.inner.catalog_from_read(outcome).map(Arc::new)
    }
}

#[test]
fn catalog_provider_static() {
    let provider = SingleCatalogProvider::new(build_catalog());
    check_catalog_provider(&provider);
}

#[test]
fn catalog_provider_dynamic_file_json() {
    let document = to_json(&build_catalog());
    let provider = FileBacked::new("tests/default_catalog.json", Some(document));
    check_catalog_provider(&provider);
}

#[test]
fn catalog_provider_dynamic_file_json_missing() {
    let provider = FileBacked::new("tests/missing_catalog.json", None);
    let error = provider.get_catalog().err().expect("catalog load MUST fail");
    assert!(error.is_resource_access(), "catalog load error must be an I/O one");
    assert_eq!(Some(AccessErrorKind::NotFound), error.access_kind());
}

/// Counts how often it is asked for a catalog; every call succeeds.
struct Counting<'a> {
    count: &'a Cell<u32>,
}

impl<'a> Counting<'a> {
    fn new(count: &'a Cell<u32>) -> Self {
        Counting { count }
    }
}

impl<'a> CatalogProvider for Counting<'a> {
    fn get_catalog(&self) -> Result<Arc<Catalog>, CatalogError> {
        self.count.set(self.count.get() + 1);
        Ok(Arc::new(Catalog::new()))
    }
}

#[test]
fn catalog_provider_caching() {
    let counter = Cell::default();

    let cache = CachingCatalogProvider::new(Counting::new(&counter));
    assert_eq!(0, counter.get());

    assert!(cache.get_catalog().is_ok());
    assert_eq!(1, counter.get());

    assert!(cache.get_catalog().is_ok());
    assert_eq!(1, counter.get());
}

/// Fails on its first call and succeeds from the second call on.
struct Flaky<'a> {
    calls: &'a Cell<u32>,
}

impl<'a> CatalogProvider for Flaky<'a> {
    fn get_catalog(&self) -> Result<Arc<Catalog>, CatalogError> {
        let n = self.calls.get() + 1;
        self.calls.set(n);
        if n == 1 {
            Err(CatalogError::Format { source_id: "flaky".to_owned() })
        } else {
            Ok(Arc::new(Catalog::new()))
        }
    }
}

#[test]
fn caching_retries_until_first_success_then_freezes() {
    let calls = Cell::new(0u32);
    let cache = CachingCatalogProvider::new(Flaky { calls: &calls });

    let first = cache.get_catalog();
    assert!(matches!(first, Err(CatalogError::Format { .. })), "first call propagates the failure");
    assert_eq!(1, calls.get(), "one delegation so far");

    assert!(cache.get_catalog().is_ok(), "second call succeeds");
    assert_eq!(2, calls.get(), "a failed load does not poison the cache");

    assert!(cache.get_catalog().is_ok());
    assert!(cache.get_catalog().is_ok());
    assert_eq!(2, calls.get(), "no delegation after the first success");
}

#[test]
fn static_provider_same_content_across_calls() {
    let provider = SingleCatalogProvider::new(build_catalog());
    for _ in 0..3 {
        check_catalog_provider(&provider);
    }
    let a = provider.get_catalog().expect("static retrieval succeeds");
    let b = provider.get_catalog().expect("static retrieval succeeds");
    assert_eq!(to_json(&a), to_json(&b), "same content on every call");
}

#[test]
fn static_provider_empty_catalog() {
    let provider = SingleCatalogProvider::new(Catalog::new());
    let c = provider.get_catalog().expect("static retrieval succeeds");
    assert_eq!(0, c.services().len());
}

#[test]
fn to_single_materializes_current_result() {
    let counter = Cell::default();
    let counting = Counting::new(&counter);
    let single = counting.to_single().expect("materialize succeeds");
    assert_eq!(1, counter.get());
    check_catalog_provider(&SingleCatalogProvider::new(build_catalog()));
    let snap = single.snapshot();
    assert_eq!(0, snap.services().len());
}

#[test]
fn caching_wraps_file_backed_provider() {
    let backing = FileBacked::new("tests/cached_catalog.json", Some(to_json(&build_catalog())));
    let slot = backing.document.clone();
    let cached = CachingCatalogProvider::new(backing);
    check_catalog_provider(&cached);
    // the source disappears; the stored snapshot still serves
    *slot.borrow_mut() = None;
    check_catalog_provider(&cached);
}

use std::sync::Arc;

use openservicebroker::boundary::catalog_response;
use openservicebroker::codec::from_json;
use openservicebroker::codec::to_json;
use openservicebroker::model::Catalog;
use openservicebroker::model::Metadata;
use openservicebroker::model::Service;
use openservicebroker::model::ServicePlan;
use openservicebroker::providers::catalog::cache;
use openservicebroker::providers::catalog::file_json;
use openservicebroker::providers::catalog::single;
use openservicebroker::service::AccessErrorKind;
use openservicebroker::service::CatalogProvider;

fn fancy_catalog() -> Catalog {
    let mut catalog = Catalog::new();

    let mut svc = Service::new();
    *svc.id_mut() = "db\"quoted\"".to_owned();
    *svc.name_mut() = "back\\slash and \n newline \t tab".to_owned();
    *svc.description_mut() = "euro \u{20ac} and wide \u{1f600} chars".to_owned();
    *svc.tags_mut() = vec!["relational".to_owned(), "".to_owned()];
    *svc.required_permissions_mut() = vec!["syslog_drain".to_owned()];
    *svc.bindable_mut() = true;
    *svc.instances_retrievable_mut() = Some(false);
    *svc.allow_context_updates_mut() = Some(true);
    svc.metadata_mut().insert("displayName".to_owned(), "Database".to_owned());
    svc.metadata_mut().insert("longDescription".to_owned(), "A database".to_owned());

    let mut plan = ServicePlan::new();
    *plan.id_mut() = "tiny".to_owned();
    *plan.name_mut() = "Tiny".to_owned();
    *plan.description_mut() = "smallest".to_owned();
    *plan.free_mut() = Some(true);
    *plan.maximum_polling_duration_mut() = Some(18446744073709551615);
    plan.metadata_mut().insert("bullets".to_owned(), "one".to_owned());
    svc.plans_mut().push(plan);

    let mut bare = ServicePlan::new();
    *bare.id_mut() = "bare".to_owned();
    svc.plans_mut().push(bare);

    catalog.services_mut().push(svc);
    catalog.services_mut().push(Service::new());
    catalog
}

fn assert_same_catalog(a: &Catalog, b: &Catalog) {
    assert_eq!(a.services().len(), b.services().len(), "services.len");
    for (sa, sb) in a.services().iter().zip(b.services().iter()) {
        assert_eq!(sa.id(), sb.id(), "service.id");
        assert_eq!(sa.name(), sb.name(), "service.name");
        assert_eq!(sa.description(), sb.description(), "service.description");
        assert_eq!(sa.tags(), sb.tags(), "service.tags");
        assert_eq!(sa.required_permissions(), sb.required_permissions(), "service.requires");
        assert_eq!(sa.bindable(), sb.bindable(), "service.bindable");
        assert_eq!(
            sa.instances_retrievable(),
            sb.instances_retrievable(),
            "service.instances_retrievable"
        );
        assert_eq!(
            sa.bindings_retrievable(),
            sb.bindings_retrievable(),
            "service.bindings_retrievable"
        );
        assert_eq!(
            sa.allow_context_updates(),
            sb.allow_context_updates(),
            "service.allow_context_updates"
        );
        assert_eq!(sa.plan_updateable(), sb.plan_updateable(), "service.plan_updateable");
        assert_eq!(sa.metadata().len(), sb.metadata().len(), "service.metadata.len");
        for i in 0..sa.metadata().len() {
            assert_eq!(sa.metadata().key_at(i), sb.metadata().key_at(i), "metadata key");
            assert_eq!(sa.metadata().value_at(i), sb.metadata().value_at(i), "metadata value");
        }
        assert_eq!(sa.plans().len(), sb.plans().len(), "service.plans.len");
        for (pa, pb) in sa.plans().iter().zip(sb.plans().iter()) {
            assert_eq!(pa.id(), pb.id(), "plan.id");
            assert_eq!(pa.name(), pb.name(), "plan.name");
            assert_eq!(pa.description(), pb.description(), "plan.description");
            assert_eq!(pa.free(), pb.free(), "plan.free");
            assert_eq!(pa.bindable(), pb.bindable(), "plan.bindable");
            assert_eq!(pa.plan_updateable(), pb.plan_updateable(), "plan.plan_updateable");
            assert_eq!(
                pa.maximum_polling_duration(),
                pb.maximum_polling_duration(),
                "plan.maximum_polling_duration"
            );
            assert_eq!(pa.metadata().len(), pb.metadata().len(), "plan.metadata.len");
        }
    }
}

#[test]
fn round_trip_preserves_every_field() {
    let original = fancy_catalog();
    let text = to_json(&original);
    let back = from_json(&text).expect("canonical document parses");
    assert_same_catalog(&original, &back);
    assert_eq!(text, to_json(&back), "second serialization is identical");
}

#[test]
fn round_trip_empty_catalog() {
    let text = to_json(&Catalog::new());
    assert_eq!("{\"services\":[]}", text);
    let back = from_json(&text).expect("empty catalog parses");
    assert_eq!(0, back.services().len());
}

#[test]
fn absent_and_false_are_distinct() {
    let mut catalog = Catalog::new();
    let mut svc = Service::new();
    let mut explicit = ServicePlan::new();
    *explicit.id_mut() = "explicit".to_owned();
    *explicit.free_mut() = Some(false);
    let mut absent = ServicePlan::new();
    *absent.id_mut() = "absent".to_owned();
    svc.plans_mut().push(explicit);
    svc.plans_mut().push(absent);
    catalog.services_mut().push(svc);

    let text = to_json(&catalog);
    assert!(text.contains("\"free\":false"), "explicit false is written");
    let back = from_json(&text).expect("document parses");
    let plans = &back.services()[0].plans();
    assert_eq!(Some(false), plans[0].free(), "explicit false read back");
    assert_eq!(None, plans[1].free(), "absent stays absent");
}

#[test]
fn parser_accepts_whitespace_and_escapes() {
    let doc = " {\n  \"services\" : [ {\n    \"id\" : \"\\u0041\\t\" ,\n    \"name\" : \"n\" ,\n    \"description\" : \"d\" ,\n    \"tags\" : [ \"a\" , \"b\" ] ,\n    \"requires\" : [ ] ,\n    \"bindable\" : true ,\n    \"bindings_retrievable\" : false ,\n    \"metadata\" : { \"k\" : \"v\" } ,\n    \"plans\" : [ ]\n  } ]\n}\n";
    let catalog = from_json(doc).expect("whitespace-laden document parses");
    let svc = &catalog.services()[0];
    assert_eq!("A\t", svc.id(), "escapes decoded");
    assert_eq!(vec!["a".to_owned(), "b".to_owned()], *svc.tags());
    assert_eq!(0, svc.required_permissions().len());
    assert_eq!(true, svc.bindable());
    assert_eq!(None, svc.instances_retrievable());
    assert_eq!(Some(false), svc.bindings_retrievable());
    assert_eq!(Some("v".to_owned()).as_ref(), svc.metadata().get(&"k".to_owned()));
    assert_eq!(0, svc.plans().len());
}

#[test]
fn parser_rejects_malformed_documents() {
    assert!(from_json("").is_none(), "empty text");
    assert!(from_json("{}").is_none(), "missing services");
    assert!(from_json("{\"services\":[]} trailing").is_none(), "trailing garbage");
    assert!(from_json("{\"services\":[{}]}").is_none(), "service without fields");
    assert!(
        from_json(
            "{\"services\":[{\"id\":\"i\",\"name\":\"n\",\"description\":\"d\",\"tags\":[],\"requires\":[],\"bindable\":false,\"metadata\":{},\"plans\":[]}],\"services\":[]}",
        ).is_none(),
        "repeated field"
    );
    assert!(
        from_json(
            "{\"services\":[{\"id\":\"i\",\"name\":\"n\",\"description\":\"d\",\"tags\":[],\"requires\":[],\"bindable\":\"yes\",\"metadata\":{},\"plans\":[]}]}",
        ).is_none(),
        "wrong type for bindable"
    );
    assert!(from_json("{\"services\":[\"\\ud800\"]}").is_none(), "surrogate escape");
}

#[test]
fn parser_accepts_any_field_order() {
    // the field order and explicit nulls another producer may write: name
    // before id, plan_updateable after metadata
    let doc = "{\"services\":[{\"name\":\"MySQL\",\"id\":\"mysql\",\"description\":\"d\",\"tags\":[],\"requires\":[],\"bindable\":false,\"instances_retrievable\":null,\"bindings_retrievable\":null,\"allow_context_updates\":null,\"metadata\":{},\"plan_updateable\":null,\"plans\":[{\"id\":\"p\",\"name\":\"P\",\"description\":\"pd\",\"metadata\":{},\"free\":null,\"bindable\":true,\"plan_updateable\":null,\"maximum_polling_duration\":null}]}]}";
    let catalog = from_json(doc).expect("another producer's field order parses");
    let svc = &catalog.services()[0];
    assert_eq!("mysql", svc.id());
    assert_eq!("MySQL", svc.name());
    assert_eq!(None, svc.instances_retrievable(), "null keeps the attribute absent");
    assert_eq!(None, svc.plan_updateable());
    let plan = &svc.plans()[0];
    assert_eq!(Some(true), plan.bindable());
    assert_eq!(None, plan.free(), "null keeps the attribute absent");
    assert_eq!(None, plan.maximum_polling_duration());

    // fully reversed order parses to the same catalog
    let reversed = "{\"services\":[{\"plans\":[{\"maximum_polling_duration\":7,\"metadata\":{},\"description\":\"pd\",\"name\":\"P\",\"id\":\"p\"}],\"metadata\":{\"k\":\"v\"},\"bindable\":true,\"requires\":[\"r\"],\"tags\":[\"t\"],\"description\":\"d\",\"name\":\"N\",\"id\":\"i\"}]}";
    let c2 = from_json(reversed).expect("reversed field order parses");
    let s2 = &c2.services()[0];
    assert_eq!("i", s2.id());
    assert_eq!("N", s2.name());
    assert_eq!(vec!["t".to_owned()], *s2.tags());
    assert_eq!(vec!["r".to_owned()], *s2.required_permissions());
    assert_eq!(true, s2.bindable());
    assert_eq!(Some(&"v".to_owned()), s2.metadata().get(&"k".to_owned()));
    assert_eq!(Some(7), s2.plans()[0].maximum_polling_duration());
}

#[test]
fn parser_ignores_unknown_fields() {
    let doc = "{\"dashboard_client\":{\"id\":\"x\",\"secret\":[1,-2.5e3,null,true]},\"services\":[{\"id\":\"i\",\"extra\":\"quoted \\\"str\\\"\",\"name\":\"n\",\"description\":\"d\",\"tags\":[],\"requires\":[],\"bindable\":false,\"schemas\":{\"a\":{\"b\":[]}},\"metadata\":{},\"plans\":[]}],\"api_version\":0}";
    let catalog = from_json(doc).expect("unknown fields are skipped");
    let svc = &catalog.services()[0];
    assert_eq!("i", svc.id());
    assert_eq!("n", svc.name());
    assert_eq!(0, svc.plans().len());
}

#[test]
fn metadata_repeated_key_keeps_last_value() {
    let doc = "{\"services\":[{\"id\":\"i\",\"name\":\"n\",\"description\":\"d\",\"tags\":[],\"requires\":[],\"bindable\":false,\"metadata\":{\"k\":\"first\",\"other\":\"x\",\"k\":\"second\"},\"plans\":[]}]}";
    let catalog = from_json(doc).expect("document parses");
    let md = catalog.services()[0].metadata();
    assert_eq!(2, md.len(), "repeated key collapses");
    assert_eq!(Some(&"second".to_owned()), md.get(&"k".to_owned()), "later value wins");
    assert_eq!("k", md.key_at(0), "first occurrence keeps its place");
    assert_eq!(Some(&"x".to_owned()), md.get(&"other".to_owned()));
}

#[test]
fn parser_handles_polling_duration_bounds() {
    let doc_of = |n: &str| {
        let mut s = String::from(
            "{\"services\":[{\"id\":\"i\",\"name\":\"n\",\"description\":\"d\",\"tags\":[],\"requires\":[],\"bindable\":false,\"metadata\":{},\"plans\":[{\"id\":\"p\",\"name\":\"p\",\"description\":\"p\",\"metadata\":{},\"maximum_polling_duration\":",
        );
        s.push_str(n);
        s.push_str("}]}]}");
        s
    };
    let ok = from_json(&doc_of("18446744073709551615")).expect("largest value parses");
    assert_eq!(
        Some(18446744073709551615),
        ok.services()[0].plans()[0].maximum_polling_duration()
    );
    let zero = from_json(&doc_of("0")).expect("zero parses");
    assert_eq!(Some(0), zero.services()[0].plans()[0].maximum_polling_duration());
    assert!(from_json(&doc_of("18446744073709551616")).is_none(), "too large");
    assert!(from_json(&doc_of("01")).is_none(), "leading zero");
    assert!(from_json(&doc_of("-1")).is_none(), "negative");
}

#[test]
fn canonical_output_is_valid_json_for_serde() {
    let text = to_json(&fancy_catalog());
    let value: serde_json::Value = serde_json::from_str(&text).expect("canonical text is JSON");
    let services = value.get("services").expect("services present");
    let first = services.get(0).expect("first service present");
    assert_eq!(Some("db\"quoted\""), first.get("id").and_then(|v| v.as_str()));
    assert_eq!(Some(true), first.get("bindable").and_then(|v| v.as_bool()));
    assert_eq!(None, first.get("plan_updateable"), "absent field omitted");
    let plan = first.get("plans").and_then(|p| p.get(0)).expect("plan present");
    assert_eq!(
        Some(18446744073709551615),
        plan.get("maximum_polling_duration").and_then(|v| v.as_u64())
    );
}

#[test]
fn response_success_carries_catalog_document() {
    let provider = single(Catalog::new());
    let (status, body) = catalog_response(provider.get_catalog());
    assert_eq!(200, status);
    assert_eq!("{\"services\":[]}", body);
}

#[test]
fn response_failure_is_opaque() {
    let provider = file_json("tests/missing_catalog.json");
    let outcome = provider.catalog_from_read(Err(AccessErrorKind::NotFound)).map(Arc::new);
    let (status, body) = catalog_response(outcome);
    assert_eq!(500, status);
    assert_eq!("", body, "no error detail reaches the client");
}

#[test]
fn file_provider_decision_half() {
    let provider = file_json("some/catalog.json");
    assert_eq!("some/catalog.json", provider.path());

    let ok = provider.catalog_from_read(Ok("{\"services\":[]}".to_owned()));
    assert_eq!(0, ok.expect("well-formed text parses").services().len());

    let access = provider.catalog_from_read(Err(AccessErrorKind::NotFound));
    let access_err = access.err().expect("read failure propagates");
    assert!(access_err.is_resource_access());
    assert!(!access_err.is_format());
    assert_eq!(Some(AccessErrorKind::NotFound), access_err.access_kind());
    assert_eq!("some/catalog.json", access_err.source_id(), "error names the source");

    let format = provider.catalog_from_read(Ok("not json".to_owned()));
    let format_err = format.err().expect("malformed text is refused");
    assert!(format_err.is_format());
    assert!(!format_err.is_resource_access());
    assert_eq!(None, format_err.access_kind());
    assert_eq!("some/catalog.json", format_err.source_id(), "error names the source");
}

#[test]
fn cache_constructor_wraps_provider() {
    let provider = cache(single(Catalog::new()));
    let c = provider.get_catalog().expect("static provider always succeeds");
    assert_eq!(0, c.services().len());
}

#[test]
fn metadata_insert_and_get() {
    let mut md = Metadata::new();
    assert!(md.is_empty());
    md.insert("a".to_owned(), "1".to_owned());
    md.insert("b".to_owned(), "2".to_owned());
    assert_eq!(2, md.len());
    md.insert("a".to_owned(), "3".to_owned());
    assert_eq!(2, md.len(), "insert of a present key replaces");
    assert_eq!("a", md.key_at(0), "order is kept");
    assert_eq!("3", md.value_at(0), "value replaced in place");
    assert_eq!(Some(&"2".to_owned()), md.get(&"b".to_owned()));
    assert_eq!(None, md.get(&"c".to_owned()));
}

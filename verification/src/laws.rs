//! The round-trip law of the wire codec: scanning the canonical document of
//! any catalog whose metadata mappings keep their keys distinct — the shape
//! every catalog assembled through this crate has — yields exactly that
//! catalog. Together with the contracts of `codec::to_json` and
//! `codec::from_json`, this says that serializing a `Catalog` and
//! deserializing the text gives a value equal in every field,
//! optional-field presence and ordering included.

use vstd::prelude::*;

use crate::json::PlanAcc;
use crate::json::ServiceAcc;
use crate::json::at_lit;
use crate::json::digit_char;
use crate::json::digit_val;
use crate::json::digits_end;
use crate::json::digits_val;
use crate::json::esc_char;
use crate::json::esc_string;
use crate::json::hex_digit;
use crate::json::hex_val;
use crate::json::is_digit;
use crate::json::is_hex;
use crate::json::is_ws;
use crate::json::join_comma;
use crate::json::lemma_at_lit_char;
use crate::json::lemma_seq_assoc;
use crate::json::metadata_from_pairs;
use crate::json::plan_acc_done;
use crate::json::plan_acc_init;
use crate::json::print_bool;
use crate::json::print_catalog;
use crate::json::print_key;
use crate::json::print_metadata;
use crate::json::print_opt_bool;
use crate::json::print_plan;
use crate::json::print_plan_array;
use crate::json::print_plan_opts_from;
use crate::json::print_service;
use crate::json::print_service_array;
use crate::json::print_service_opts_from;
use crate::json::print_string;
use crate::json::print_string_array;
use crate::json::print_uint;
use crate::json::scan_bool;
use crate::json::scan_opt_bool;
use crate::json::scan_opt_uint;
use crate::json::scan_catalog;
use crate::json::scan_catalog_fields;
use crate::json::scan_catalog_more;
use crate::json::scan_document;
use crate::json::scan_entry_items;
use crate::json::scan_metadata;
use crate::json::scan_plan;
use crate::json::scan_plan_array;
use crate::json::scan_plan_fields;
use crate::json::scan_plan_items;
use crate::json::scan_plan_more;
use crate::json::scan_service;
use crate::json::scan_service_array;
use crate::json::scan_service_fields;
use crate::json::scan_service_items;
use crate::json::scan_service_more;
use crate::json::scan_string;
use crate::json::scan_string_array;
use crate::json::scan_string_body;
use crate::json::scan_string_items;
use crate::json::scan_sym;
use crate::json::scan_uint;
use crate::json::scan_ws;
use crate::json::service_acc_done;
use crate::json::service_acc_init;
use crate::json::simple_unescape;
use crate::model::CatalogView;
use crate::model::ServicePlanView;
use crate::model::ServiceView;
use crate::model::catalog_wf;
use crate::model::metadata_has_key;
use crate::model::metadata_insert;
use crate::model::metadata_wf;

verus! {

proof fn lemma_plan_keys_distinct()
    ensures
        "id"@ != "name"@,
        "id"@ != "description"@,
        "id"@ != "metadata"@,
        "id"@ != "free"@,
        "id"@ != "bindable"@,
        "id"@ != "plan_updateable"@,
        "id"@ != "maximum_polling_duration"@,
        "name"@ != "description"@,
        "name"@ != "metadata"@,
        "name"@ != "free"@,
        "name"@ != "bindable"@,
        "name"@ != "plan_updateable"@,
        "name"@ != "maximum_polling_duration"@,
        "description"@ != "metadata"@,
        "description"@ != "free"@,
        "description"@ != "bindable"@,
        "description"@ != "plan_updateable"@,
        "description"@ != "maximum_polling_duration"@,
        "metadata"@ != "free"@,
        "metadata"@ != "bindable"@,
        "metadata"@ != "plan_updateable"@,
        "metadata"@ != "maximum_polling_duration"@,
        "free"@ != "bindable"@,
        "free"@ != "plan_updateable"@,
        "free"@ != "maximum_polling_duration"@,
        "bindable"@ != "plan_updateable"@,
        "bindable"@ != "maximum_polling_duration"@,
        "plan_updateable"@ != "maximum_polling_duration"@,
{
    reveal_strlit("id");
    reveal_strlit("name");
    reveal_strlit("description");
    reveal_strlit("metadata");
    reveal_strlit("free");
    reveal_strlit("bindable");
    reveal_strlit("plan_updateable");
    reveal_strlit("maximum_polling_duration");
    assert("id"@.len() == 2);
    assert("name"@.len() == 4);
    assert("description"@.len() == 11);
    assert("metadata"@.len() == 8);
    assert("free"@.len() == 4);
    assert("bindable"@.len() == 8);
    assert("plan_updateable"@.len() == 15);
    assert("maximum_polling_duration"@.len() == 24);
    assert("name"@[0] == 'n');
    assert("free"@[0] == 'f');
    assert("metadata"@[0] == 'm');
    assert("bindable"@[0] == 'b');
}

proof fn lemma_service_keys_distinct()
    ensures
        "id"@ != "name"@,
        "id"@ != "description"@,
        "id"@ != "tags"@,
        "id"@ != "requires"@,
        "id"@ != "bindable"@,
        "id"@ != "instances_retrievable"@,
        "id"@ != "bindings_retrievable"@,
        "id"@ != "allow_context_updates"@,
        "id"@ != "plan_updateable"@,
        "id"@ != "metadata"@,
        "id"@ != "plans"@,
        "name"@ != "description"@,
        "name"@ != "tags"@,
        "name"@ != "requires"@,
        "name"@ != "bindable"@,
        "name"@ != "instances_retrievable"@,
        "name"@ != "bindings_retrievable"@,
        "name"@ != "allow_context_updates"@,
        "name"@ != "plan_updateable"@,
        "name"@ != "metadata"@,
        "name"@ != "plans"@,
        "description"@ != "tags"@,
        "description"@ != "requires"@,
        "description"@ != "bindable"@,
        "description"@ != "instances_retrievable"@,
        "description"@ != "bindings_retrievable"@,
        "description"@ != "allow_context_updates"@,
        "description"@ != "plan_updateable"@,
        "description"@ != "metadata"@,
        "description"@ != "plans"@,
        "tags"@ != "requires"@,
        "tags"@ != "bindable"@,
        "tags"@ != "instances_retrievable"@,
        "tags"@ != "bindings_retrievable"@,
        "tags"@ != "allow_context_updates"@,
        "tags"@ != "plan_updateable"@,
        "tags"@ != "metadata"@,
        "tags"@ != "plans"@,
        "requires"@ != "bindable"@,
        "requires"@ != "instances_retrievable"@,
        "requires"@ != "bindings_retrievable"@,
        "requires"@ != "allow_context_updates"@,
        "requires"@ != "plan_updateable"@,
        "requires"@ != "metadata"@,
        "requires"@ != "plans"@,
        "bindable"@ != "instances_retrievable"@,
        "bindable"@ != "bindings_retrievable"@,
        "bindable"@ != "allow_context_updates"@,
        "bindable"@ != "plan_updateable"@,
        "bindable"@ != "metadata"@,
        "bindable"@ != "plans"@,
        "instances_retrievable"@ != "bindings_retrievable"@,
        "instances_retrievable"@ != "allow_context_updates"@,
        "instances_retrievable"@ != "plan_updateable"@,
        "instances_retrievable"@ != "metadata"@,
        "instances_retrievable"@ != "plans"@,
        "bindings_retrievable"@ != "allow_context_updates"@,
        "bindings_retrievable"@ != "plan_updateable"@,
        "bindings_retrievable"@ != "metadata"@,
        "bindings_retrievable"@ != "plans"@,
        "allow_context_updates"@ != "plan_updateable"@,
        "allow_context_updates"@ != "metadata"@,
        "allow_context_updates"@ != "plans"@,
        "plan_updateable"@ != "metadata"@,
        "plan_updateable"@ != "plans"@,
        "metadata"@ != "plans"@,
{
    reveal_strlit("id");
    reveal_strlit("name");
    reveal_strlit("description");
    reveal_strlit("tags");
    reveal_strlit("requires");
    reveal_strlit("bindable");
    reveal_strlit("instances_retrievable");
    reveal_strlit("bindings_retrievable");
    reveal_strlit("allow_context_updates");
    reveal_strlit("plan_updateable");
    reveal_strlit("metadata");
    reveal_strlit("plans");
    assert("id"@.len() == 2);
    assert("name"@.len() == 4);
    assert("description"@.len() == 11);
    assert("tags"@.len() == 4);
    assert("requires"@.len() == 8);
    assert("bindable"@.len() == 8);
    assert("instances_retrievable"@.len() == 21);
    assert("bindings_retrievable"@.len() == 20);
    assert("allow_context_updates"@.len() == 21);
    assert("plan_updateable"@.len() == 15);
    assert("metadata"@.len() == 8);
    assert("plans"@.len() == 5);
    assert("name"@[0] == 'n');
    assert("tags"@[0] == 't');
    assert("requires"@[0] == 'r');
    assert("bindable"@[0] == 'b');
    assert("metadata"@[0] == 'm');
    assert("instances_retrievable"@[0] == 'i');
    assert("allow_context_updates"@[0] == 'a');
}

/// On a plain boolean token, the optional-value scan yields the value.
proof fn lemma_rt_opt_bool(s: Seq<char>, i: int, b: bool)
    requires
        at_lit(s, i, print_bool(b)),
    ensures
        scan_opt_bool(s, i) == Some((Some(b), i + print_bool(b).len())),
{
    lemma_at_lit_char(s, i, print_bool(b), 0);
    lemma_ws_stays(s, i);
    if at_lit(s, i, seq!['n', 'u', 'l', 'l']) {
        lemma_at_lit_char(s, i, seq!['n', 'u', 'l', 'l'], 0);
        assert(false);
    }
    lemma_rt_bool(s, i, b);
}

/// On a plain number token, the optional-value scan yields the value.
proof fn lemma_rt_opt_uint(s: Seq<char>, i: int, n: u64)
    requires
        at_lit(s, i, print_uint(n as int)),
        i + print_uint(n as int).len() == s.len() || !is_digit(s[i + print_uint(n as int).len()]),
    ensures
        scan_opt_uint(s, i) == Some((Some(n), i + print_uint(n as int).len())),
{
    lemma_print_uint_digits(n as int);
    lemma_at_lit_char(s, i, print_uint(n as int), 0);
    lemma_ws_stays(s, i);
    if at_lit(s, i, seq!['n', 'u', 'l', 'l']) {
        lemma_at_lit_char(s, i, seq!['n', 'u', 'l', 'l'], 0);
        assert(false);
    }
    lemma_rt_uint(s, i, n);
}

/// Reading a key of the canonical document: the key string, then the colon.
proof fn lemma_rt_field_key(s: Seq<char>, i: int, k: Seq<char>)
    requires
        at_lit(s, i, print_key(k)),
    ensures
        scan_string(s, i) == Some((k, i + print_string(k).len())),
        scan_sym(s, i + print_string(k).len(), ':') == Some(i + print_key(k).len()),
{
    lemma_at_lit_split(s, i, print_string(k), seq![':']);
    lemma_rt_string(s, i, k);
    let j = i + print_string(k).len();
    lemma_at_lit_char(s, j, seq![':'], 0);
    lemma_ws_stays(s, j);
}

proof fn lemma_rt_plan_field_id(s: Seq<char>, pos: int, a: PlanAcc, v: Seq<char>)
    requires
        a.id is None,
        at_lit(s, pos, print_key("id"@)),
        at_lit(s, pos + print_key("id"@).len(), print_string(v)),
    ensures
        scan_plan_fields(s, pos, a) == scan_plan_more(
            s,
            pos + print_key("id"@).len() + print_string(v).len(),
            PlanAcc { id: Some(v), ..a },
        ),
{
    reveal_strlit("id");
    assert("id"@.len() == 2);
    lemma_rt_field_key(s, pos, "id"@);
    lemma_rt_string(s, pos + print_key("id"@).len(), v);
}

proof fn lemma_rt_plan_field_name(s: Seq<char>, pos: int, a: PlanAcc, v: Seq<char>)
    requires
        a.name is None,
        at_lit(s, pos, print_key("name"@)),
        at_lit(s, pos + print_key("name"@).len(), print_string(v)),
    ensures
        scan_plan_fields(s, pos, a) == scan_plan_more(
            s,
            pos + print_key("name"@).len() + print_string(v).len(),
            PlanAcc { name: Some(v), ..a },
        ),
{
    reveal_strlit("name");
    reveal_strlit("id");
    assert("name"@.len() == 4);
    assert("id"@.len() == 2);
    lemma_rt_field_key(s, pos, "name"@);
    lemma_rt_string(s, pos + print_key("name"@).len(), v);
}

proof fn lemma_rt_plan_field_description(s: Seq<char>, pos: int, a: PlanAcc, v: Seq<char>)
    requires
        a.description is None,
        at_lit(s, pos, print_key("description"@)),
        at_lit(s, pos + print_key("description"@).len(), print_string(v)),
    ensures
        scan_plan_fields(s, pos, a) == scan_plan_more(
            s,
            pos + print_key("description"@).len() + print_string(v).len(),
            PlanAcc { description: Some(v), ..a },
        ),
{
    reveal_strlit("description");
    reveal_strlit("id");
    reveal_strlit("name");
    assert("description"@.len() == 11);
    assert("id"@.len() == 2);
    assert("name"@.len() == 4);
    lemma_rt_field_key(s, pos, "description"@);
    lemma_rt_string(s, pos + print_key("description"@).len(), v);
}

proof fn lemma_rt_plan_field_metadata(s: Seq<char>, pos: int, a: PlanAcc, v: Seq<(Seq<char>, Seq<char>)>)
    requires
        a.metadata is None,
        metadata_wf(v),
        at_lit(s, pos, print_key("metadata"@)),
        at_lit(s, pos + print_key("metadata"@).len(), print_metadata(v)),
    ensures
        scan_plan_fields(s, pos, a) == scan_plan_more(
            s,
            pos + print_key("metadata"@).len() + print_metadata(v).len(),
            PlanAcc { metadata: Some(v), ..a },
        ),
{
    reveal_strlit("metadata");
    reveal_strlit("id");
    reveal_strlit("name");
    reveal_strlit("description");
    assert("metadata"@.len() == 8);
    assert("id"@.len() == 2);
    assert("name"@.len() == 4);
    assert("description"@.len() == 11);
    lemma_rt_field_key(s, pos, "metadata"@);
    lemma_rt_metadata(s, pos + print_key("metadata"@).len(), v);
}

proof fn lemma_rt_service_field_id(s: Seq<char>, pos: int, a: ServiceAcc, v: Seq<char>)
    requires
        a.id is None,
        at_lit(s, pos, print_key("id"@)),
        at_lit(s, pos + print_key("id"@).len(), print_string(v)),
    ensures
        scan_service_fields(s, pos, a) == scan_service_more(
            s,
            pos + print_key("id"@).len() + print_string(v).len(),
            ServiceAcc { id: Some(v), ..a },
        ),
{
    reveal_strlit("id");
    assert("id"@.len() == 2);
    lemma_rt_field_key(s, pos, "id"@);
    lemma_rt_string(s, pos + print_key("id"@).len(), v);
}

proof fn lemma_rt_service_field_name(s: Seq<char>, pos: int, a: ServiceAcc, v: Seq<char>)
    requires
        a.name is None,
        at_lit(s, pos, print_key("name"@)),
        at_lit(s, pos + print_key("name"@).len(), print_string(v)),
    ensures
        scan_service_fields(s, pos, a) == scan_service_more(
            s,
            pos + print_key("name"@).len() + print_string(v).len(),
            ServiceAcc { name: Some(v), ..a },
        ),
{
    reveal_strlit("name");
    reveal_strlit("id");
    assert("name"@.len() == 4);
    assert("id"@.len() == 2);
    lemma_rt_field_key(s, pos, "name"@);
    lemma_rt_string(s, pos + print_key("name"@).len(), v);
}

proof fn lemma_rt_service_field_description(s: Seq<char>, pos: int, a: ServiceAcc, v: Seq<char>)
    requires
        a.description is None,
        at_lit(s, pos, print_key("description"@)),
        at_lit(s, pos + print_key("description"@).len(), print_string(v)),
    ensures
        scan_service_fields(s, pos, a) == scan_service_more(
            s,
            pos + print_key("description"@).len() + print_string(v).len(),
            ServiceAcc { description: Some(v), ..a },
        ),
{
    reveal_strlit("description");
    reveal_strlit("id");
    reveal_strlit("name");
    assert("description"@.len() == 11);
    assert("id"@.len() == 2);
    assert("name"@.len() == 4);
    lemma_rt_field_key(s, pos, "description"@);
    lemma_rt_string(s, pos + print_key("description"@).len(), v);
}

proof fn lemma_rt_service_field_tags(s: Seq<char>, pos: int, a: ServiceAcc, v: Seq<Seq<char>>)
    requires
        a.tags is None,
        at_lit(s, pos, print_key("tags"@)),
        at_lit(s, pos + print_key("tags"@).len(), print_string_array(v)),
    ensures
        scan_service_fields(s, pos, a) == scan_service_more(
            s,
            pos + print_key("tags"@).len() + print_string_array(v).len(),
            ServiceAcc { tags: Some(v), ..a },
        ),
{
    reveal_strlit("tags");
    reveal_strlit("id");
    reveal_strlit("name");
    reveal_strlit("description");
    assert("tags"@.len() == 4);
    assert("id"@.len() == 2);
    assert("name"@.len() == 4);
    assert("description"@.len() == 11);
    assert("tags"@[0] == 't');
    assert("name"@[0] == 'n');
    lemma_rt_field_key(s, pos, "tags"@);
    lemma_rt_string_array(s, pos + print_key("tags"@).len(), v);
}

proof fn lemma_rt_service_field_required_permissions(s: Seq<char>, pos: int, a: ServiceAcc, v: Seq<Seq<char>>)
    requires
        a.required_permissions is None,
        at_lit(s, pos, print_key("requires"@)),
        at_lit(s, pos + print_key("requires"@).len(), print_string_array(v)),
    ensures
        scan_service_fields(s, pos, a) == scan_service_more(
            s,
            pos + print_key("requires"@).len() + print_string_array(v).len(),
            ServiceAcc { required_permissions: Some(v), ..a },
        ),
{
    reveal_strlit("requires");
    reveal_strlit("id");
    reveal_strlit("name");
    reveal_strlit("description");
    reveal_strlit("tags");
    assert("requires"@.len() == 8);
    assert("id"@.len() == 2);
    assert("name"@.len() == 4);
    assert("description"@.len() == 11);
    assert("tags"@.len() == 4);
    assert("name"@[0] == 'n');
    assert("tags"@[0] == 't');
    lemma_rt_field_key(s, pos, "requires"@);
    lemma_rt_string_array(s, pos + print_key("requires"@).len(), v);
}

proof fn lemma_rt_service_field_bindable(s: Seq<char>, pos: int, a: ServiceAcc, v: bool)
    requires
        a.bindable is None,
        at_lit(s, pos, print_key("bindable"@)),
        at_lit(s, pos + print_key("bindable"@).len(), print_bool(v)),
    ensures
        scan_service_fields(s, pos, a) == scan_service_more(
            s,
            pos + print_key("bindable"@).len() + print_bool(v).len(),
            ServiceAcc { bindable: Some(v), ..a },
        ),
{
    reveal_strlit("bindable");
    reveal_strlit("id");
    reveal_strlit("name");
    reveal_strlit("description");
    reveal_strlit("tags");
    reveal_strlit("requires");
    assert("bindable"@.len() == 8);
    assert("id"@.len() == 2);
    assert("name"@.len() == 4);
    assert("description"@.len() == 11);
    assert("tags"@.len() == 4);
    assert("requires"@.len() == 8);
    assert("bindable"@[0] == 'b');
    assert("requires"@[0] == 'r');
    assert("name"@[0] == 'n');
    assert("tags"@[0] == 't');
    lemma_rt_field_key(s, pos, "bindable"@);
    lemma_rt_bool(s, pos + print_key("bindable"@).len(), v);
}

proof fn lemma_rt_service_field_metadata(s: Seq<char>, pos: int, a: ServiceAcc, v: Seq<(Seq<char>, Seq<char>)>)
    requires
        a.metadata is None,
        metadata_wf(v),
        at_lit(s, pos, print_key("metadata"@)),
        at_lit(s, pos + print_key("metadata"@).len(), print_metadata(v)),
    ensures
        scan_service_fields(s, pos, a) == scan_service_more(
            s,
            pos + print_key("metadata"@).len() + print_metadata(v).len(),
            ServiceAcc { metadata: Some(v), ..a },
        ),
{
    reveal_strlit("metadata");
    reveal_strlit("id");
    reveal_strlit("name");
    reveal_strlit("description");
    reveal_strlit("tags");
    reveal_strlit("requires");
    reveal_strlit("bindable");
    reveal_strlit("instances_retrievable");
    reveal_strlit("bindings_retrievable");
    reveal_strlit("allow_context_updates");
    reveal_strlit("plan_updateable");
    assert("metadata"@.len() == 8);
    assert("id"@.len() == 2);
    assert("name"@.len() == 4);
    assert("description"@.len() == 11);
    assert("tags"@.len() == 4);
    assert("requires"@.len() == 8);
    assert("bindable"@.len() == 8);
    assert("instances_retrievable"@.len() == 21);
    assert("bindings_retrievable"@.len() == 20);
    assert("allow_context_updates"@.len() == 21);
    assert("plan_updateable"@.len() == 15);
    assert("metadata"@[0] == 'm');
    assert("requires"@[0] == 'r');
    assert("bindable"@[0] == 'b');
    assert("name"@[0] == 'n');
    assert("tags"@[0] == 't');
    assert("instances_retrievable"@[0] == 'i');
    assert("allow_context_updates"@[0] == 'a');
    lemma_rt_field_key(s, pos, "metadata"@);
    lemma_rt_metadata(s, pos + print_key("metadata"@).len(), v);
}

proof fn lemma_rt_service_field_plans(s: Seq<char>, pos: int, a: ServiceAcc, v: Seq<ServicePlanView>)
    requires
        a.plans is None,
        plans_wf(v),
        at_lit(s, pos, print_key("plans"@)),
        at_lit(s, pos + print_key("plans"@).len(), print_plan_array(v)),
    ensures
        scan_service_fields(s, pos, a) == scan_service_more(
            s,
            pos + print_key("plans"@).len() + print_plan_array(v).len(),
            ServiceAcc { plans: Some(v), ..a },
        ),
{
    reveal_strlit("plans");
    reveal_strlit("id");
    reveal_strlit("name");
    reveal_strlit("description");
    reveal_strlit("tags");
    reveal_strlit("requires");
    reveal_strlit("bindable");
    reveal_strlit("instances_retrievable");
    reveal_strlit("bindings_retrievable");
    reveal_strlit("allow_context_updates");
    reveal_strlit("plan_updateable");
    reveal_strlit("metadata");
    assert("plans"@.len() == 5);
    assert("id"@.len() == 2);
    assert("name"@.len() == 4);
    assert("description"@.len() == 11);
    assert("tags"@.len() == 4);
    assert("requires"@.len() == 8);
    assert("bindable"@.len() == 8);
    assert("instances_retrievable"@.len() == 21);
    assert("bindings_retrievable"@.len() == 20);
    assert("allow_context_updates"@.len() == 21);
    assert("plan_updateable"@.len() == 15);
    assert("metadata"@.len() == 8);
    assert("name"@[0] == 'n');
    assert("tags"@[0] == 't');
    assert("requires"@[0] == 'r');
    assert("bindable"@[0] == 'b');
    assert("metadata"@[0] == 'm');
    assert("instances_retrievable"@[0] == 'i');
    assert("allow_context_updates"@[0] == 'a');
    lemma_rt_field_key(s, pos, "plans"@);
    lemma_rt_plan_array(s, pos + print_key("plans"@).len(), v);
}

/// A list of entries with distinct keys folds to itself.
proof fn lemma_metadata_from_pairs_self(ps: Seq<(Seq<char>, Seq<char>)>)
    requires
        metadata_wf(ps),
    ensures
        metadata_from_pairs(ps) == ps,
    decreases ps.len(),
{
    if ps.len() == 0 {
        assert(metadata_from_pairs(ps) =~= ps);
    } else {
        let q = ps.drop_last();
        assert(metadata_wf(q));
        lemma_metadata_from_pairs_self(q);
        let k = ps.last().0;
        assert(!metadata_has_key(q, k)) by {
            if metadata_has_key(q, k) {
                let t = choose|t: int| 0 <= t < q.len() && q[t].0 == k;
                assert(ps[t].0 == ps[ps.len() - 1].0);
                assert(false);
            }
        }
        assert(metadata_insert(q, k, ps.last().1) == q.push((k, ps.last().1)));
        assert(q.push((k, ps.last().1)) =~= ps);
    }
}

/// Scanning the printed form of a mapping with distinct keys gives the
/// mapping back.
proof fn lemma_rt_metadata(s: Seq<char>, i: int, m: Seq<(Seq<char>, Seq<char>)>)
    requires
        metadata_wf(m),
        at_lit(s, i, print_metadata(m)),
    ensures
        scan_metadata(s, i) == Some((m, i + print_metadata(m).len())),
{
    assert(entry_items_of(m) =~= Seq::new(
        m.len(),
        |k: int| print_string(m[k].0) + seq![':'] + print_string(m[k].1),
    ));
    let items = entry_items_of(m);
    assert(print_metadata(m) =~= seq!['{'] + (join_comma(items) + seq!['}']));
    lemma_at_lit_split(s, i, seq!['{'], join_comma(items) + seq!['}']);
    lemma_at_lit_char(s, i, seq!['{'], 0);
    lemma_ws_stays(s, i);
    assert(scan_sym(s, i, '{') == Some(i + 1));
    if m.len() == 0 {
        assert(join_comma(items) =~= Seq::<char>::empty());
        assert(join_comma(items) + seq!['}'] =~= seq!['}']);
        lemma_at_lit_char(s, i + 1, seq!['}'], 0);
        lemma_ws_stays(s, i + 1);
        assert(scan_metadata(s, i) == Some((Seq::<(Seq<char>, Seq<char>)>::empty(), i + 2)));
        assert(m =~= Seq::<(Seq<char>, Seq<char>)>::empty());
    } else {
        assert(items[0] == print_string(m[0].0) + seq![':'] + print_string(m[0].1));
        if m.len() == 1 {
            assert(join_comma(items) == items[0]);
        } else {
            assert(join_comma(items) == items[0] + seq![','] + join_comma(items.drop_first()));
        }
        assert((join_comma(items) + seq!['}'])[0] == print_string(m[0].0)[0]);
        assert(print_string(m[0].0)[0] == '"');
        lemma_at_lit_char(s, i + 1, join_comma(items) + seq!['}'], 0);
        assert(s[i + 1] == '"');
        lemma_ws_stays(s, i + 1);
        lemma_rt_entry_items(s, i + 1, m);
        lemma_metadata_from_pairs_self(m);
    }
}
proof fn lemma_at_lit_split(s: Seq<char>, i: int, a: Seq<char>, b: Seq<char>)
    requires
        at_lit(s, i, a + b),
    ensures
        at_lit(s, i, a),
        at_lit(s, i + a.len(), b),
{
    assert(s.subrange(i, i + a.len()) =~= (a + b).subrange(0, a.len() as int));
    assert((a + b).subrange(0, a.len() as int) =~= a);
    assert(s.subrange(i + a.len(), i + a.len() + b.len()) =~= (a + b).subrange(
        a.len() as int,
        (a + b).len() as int,
    ));
    assert((a + b).subrange(a.len() as int, (a + b).len() as int) =~= b);
}

proof fn lemma_ws_stays(s: Seq<char>, i: int)
    requires
        0 <= i <= s.len(),
        i == s.len() || !is_ws(s[i]),
    ensures
        scan_ws(s, i) == i,
{
}

proof fn lemma_hex_digit_facts(d: int)
    requires
        0 <= d < 16,
    ensures
        is_hex(hex_digit(d)),
        hex_val(hex_digit(d)) == d,
{
}

proof fn lemma_rt_string_body(s: Seq<char>, i: int, v: Seq<char>)
    requires
        at_lit(s, i, esc_string(v) + seq!['"']),
    ensures
        scan_string_body(s, i) == Some((v, i + esc_string(v).len() + 1)),
    decreases v.len(),
{
    if v.len() == 0 {
        assert(esc_string(v) + seq!['"'] =~= seq!['"']);
        lemma_at_lit_char(s, i, seq!['"'], 0);
        assert(scan_string_body(s, i) == Some((Seq::<char>::empty(), i + 1)));
        assert(v =~= Seq::<char>::empty());
    } else {
        let c = v[0];
        let rest = v.drop_first();
        assert(esc_string(v) == esc_char(c) + esc_string(rest));
        assert(esc_string(v) + seq!['"'] =~= esc_char(c) + (esc_string(rest) + seq!['"']));
        lemma_at_lit_split(s, i, esc_char(c), esc_string(rest) + seq!['"']);
        let i2 = i + esc_char(c).len();
        lemma_rt_string_body(s, i2, rest);
        if c == '"' {
            lemma_at_lit_char(s, i, esc_char(c), 0);
            lemma_at_lit_char(s, i, esc_char(c), 1);
            assert(s[i] == '\\' && s[i + 1] == '"');
            assert(simple_unescape(s[i + 1]) == Some('"'));
            assert(scan_string_body(s, i) matches Some(r) && r.0 == seq![c] + rest && r.1 == i2
                + esc_string(rest).len() + 1);
            assert(seq![c] + rest =~= v);
        } else if c == '\\' {
            lemma_at_lit_char(s, i, esc_char(c), 0);
            lemma_at_lit_char(s, i, esc_char(c), 1);
            assert(simple_unescape(s[i + 1]) == Some('\\'));
            assert(scan_string_body(s, i) matches Some(r) && r.0 == seq![c] + rest && r.1 == i2
                + esc_string(rest).len() + 1);
            assert(seq![c] + rest =~= v);
        } else if (c as u32) < 32 {
            let hi = (c as u32 / 16) as int;
            let lo = (c as u32 % 16) as int;
            lemma_at_lit_char(s, i, esc_char(c), 0);
            lemma_at_lit_char(s, i, esc_char(c), 1);
            lemma_at_lit_char(s, i, esc_char(c), 2);
            lemma_at_lit_char(s, i, esc_char(c), 3);
            lemma_at_lit_char(s, i, esc_char(c), 4);
            lemma_at_lit_char(s, i, esc_char(c), 5);
            assert(s[i] == '\\' && s[i + 1] == 'u' && s[i + 2] == '0' && s[i + 3] == '0');
            assert(s[i + 4] == hex_digit(hi) && s[i + 5] == hex_digit(lo));
            lemma_hex_digit_facts(hi);
            lemma_hex_digit_facts(lo);
            assert(hex_val('0') == 0);
            let code = hex_val(s[i + 2]) * 4096 + hex_val(s[i + 3]) * 256 + hex_val(s[i + 4]) * 16
                + hex_val(s[i + 5]);
            assert(code == hi * 16 + lo);
            assert(code == c as u32) by {
                assert(hi * 16 + lo == c as u32);
            }
            assert(!(0xD800 <= code < 0xE000));
            vstd::utf8::char_u32_cast(c, c as u32);
            assert((code as char) == c);
            assert(scan_string_body(s, i) matches Some(r) && r.0 == seq![c] + rest && r.1 == i2
                + esc_string(rest).len() + 1);
            assert(seq![c] + rest =~= v);
        } else {
            assert(esc_char(c) =~= seq![c]);
            lemma_at_lit_char(s, i, esc_char(c), 0);
            assert(s[i] == c);
            assert(scan_string_body(s, i) matches Some(r) && r.0 == seq![c] + rest && r.1 == i2
                + esc_string(rest).len() + 1);
            assert(seq![c] + rest =~= v);
        }
    }
}

proof fn lemma_rt_string(s: Seq<char>, i: int, v: Seq<char>)
    requires
        at_lit(s, i, print_string(v)),
    ensures
        scan_string(s, i) == Some((v, i + print_string(v).len())),
{
    assert(print_string(v) =~= seq!['"'] + (esc_string(v) + seq!['"']));
    lemma_at_lit_split(s, i, seq!['"'], esc_string(v) + seq!['"']);
    lemma_at_lit_char(s, i, seq!['"'], 0);
    assert(s[i] == '"');
    lemma_ws_stays(s, i);
    lemma_rt_string_body(s, i + 1, v);
}

proof fn lemma_print_uint_digits(n: int)
    requires
        n >= 0,
    ensures
        print_uint(n).len() >= 1,
        forall|k: int| 0 <= k < print_uint(n).len() ==> is_digit(#[trigger] print_uint(n)[k]),
        print_uint(n).len() > 1 ==> print_uint(n)[0] != '0',
        n >= 1 ==> print_uint(n)[0] != '0',
    decreases n,
{
    if n < 10 {
        assert(is_digit(digit_char(n)));
        assert(n >= 1 ==> digit_char(n) != '0');
    } else {
        lemma_print_uint_digits(n / 10);
        assert(print_uint(n) == print_uint(n / 10).push(digit_char(n % 10)));
        assert(is_digit(digit_char(n % 10)));
        assert(print_uint(n)[0] == print_uint(n / 10)[0]);
    }
}

proof fn lemma_digits_end_run(s: Seq<char>, i: int, j: int)
    requires
        0 <= i <= j <= s.len(),
        forall|k: int| i <= k < j ==> is_digit(s[k]),
        j == s.len() || !is_digit(s[j]),
    ensures
        digits_end(s, i) == j,
    decreases j - i,
{
    if i < j {
        lemma_digits_end_run(s, i + 1, j);
    }
}

proof fn lemma_rt_uint_val(s: Seq<char>, i: int, n: int)
    requires
        n >= 0,
        at_lit(s, i, print_uint(n)),
    ensures
        digits_val(s, i, i + print_uint(n).len()) == n,
    decreases n,
{
    let t = print_uint(n);
    if n < 10 {
        lemma_at_lit_char(s, i, t, 0);
        assert(digits_val(s, i, i + 1) == digits_val(s, i, i) * 10 + digit_val(s[i]));
        assert(digit_val(digit_char(n)) == n);
    } else {
        let t0 = print_uint(n / 10);
        assert(t == t0.push(digit_char(n % 10)));
        assert(t =~= t0 + seq![digit_char(n % 10)]);
        lemma_at_lit_split(s, i, t0, seq![digit_char(n % 10)]);
        lemma_rt_uint_val(s, i, n / 10);
        lemma_at_lit_char(s, i + t0.len(), seq![digit_char(n % 10)], 0);
        assert(s[i + t0.len()] == digit_char(n % 10));
        assert(digits_val(s, i, i + t.len()) == digits_val(s, i, i + t.len() - 1) * 10 + digit_val(
            s[i + t.len() - 1],
        ));
        assert(digit_val(digit_char(n % 10)) == n % 10);
    }
}

proof fn lemma_rt_uint(s: Seq<char>, i: int, n: u64)
    requires
        at_lit(s, i, print_uint(n as int)),
        i + print_uint(n as int).len() == s.len() || !is_digit(s[i + print_uint(n as int).len()]),
    ensures
        scan_uint(s, i) == Some((n, i + print_uint(n as int).len())),
{
    let t = print_uint(n as int);
    lemma_print_uint_digits(n as int);
    lemma_at_lit_char(s, i, t, 0);
    assert(is_digit(s[i]));
    assert(!is_ws(s[i]));
    lemma_ws_stays(s, i);
    assert forall|k: int| i <= k < i + t.len() implies is_digit(s[k]) by {
        lemma_at_lit_char(s, i, t, k - i);
    }
    lemma_digits_end_run(s, i, i + t.len());
    lemma_rt_uint_val(s, i, n as int);
    if t.len() > 1 {
        assert(s[i] == t[0]);
        assert(s[i] != '0');
    }
}

proof fn lemma_rt_bool(s: Seq<char>, i: int, b: bool)
    requires
        at_lit(s, i, print_bool(b)),
    ensures
        scan_bool(s, i) == Some((b, i + print_bool(b).len())),
{
    lemma_at_lit_char(s, i, print_bool(b), 0);
    assert(!is_ws(s[i]));
    lemma_ws_stays(s, i);
    if !b {
        if at_lit(s, i, print_bool(true)) {
            lemma_at_lit_char(s, i, print_bool(true), 0);
            assert(false);
        }
    }
}

/// The printed form of each metadata entry.
spec fn entry_items_of(m: Seq<(Seq<char>, Seq<char>)>) -> Seq<Seq<char>> {
    Seq::new(m.len(), |i: int| print_string(m[i].0) + seq![':'] + print_string(m[i].1))
}

/// The printed form of each string element.
spec fn string_items_of(v: Seq<Seq<char>>) -> Seq<Seq<char>> {
    Seq::new(v.len(), |i: int| print_string(v[i]))
}

proof fn lemma_rt_entry_items(s: Seq<char>, i: int, m: Seq<(Seq<char>, Seq<char>)>)
    requires
        m.len() >= 1,
        at_lit(s, i, join_comma(entry_items_of(m)) + seq!['}']),
    ensures
        scan_entry_items(s, i) == Some((m, i + join_comma(entry_items_of(m)).len() + 1)),
    decreases m.len(),
{
    let items = entry_items_of(m);
    let k0 = m[0].0;
    let v0 = m[0].1;
    let head = print_string(k0) + seq![':'] + print_string(v0);
    assert(items[0] == head);
    if m.len() == 1 {
        assert(join_comma(items) == head);
        assert(head + seq!['}'] =~= print_string(k0) + (seq![':'] + (print_string(v0)
            + seq!['}'])));
        lemma_at_lit_split(s, i, print_string(k0), seq![':'] + (print_string(v0) + seq!['}']));
        lemma_rt_string(s, i, k0);
        let p1 = i + print_string(k0).len();
        lemma_at_lit_split(s, p1, seq![':'], print_string(v0) + seq!['}']);
        lemma_at_lit_char(s, p1, seq![':'], 0);
        lemma_ws_stays(s, p1);
        assert(scan_sym(s, p1, ':') == Some(p1 + 1));
        lemma_at_lit_split(s, p1 + 1, print_string(v0), seq!['}']);
        lemma_rt_string(s, p1 + 1, v0);
        let p3 = p1 + 1 + print_string(v0).len();
        lemma_at_lit_char(s, p3, seq!['}'], 0);
        lemma_ws_stays(s, p3);
        assert(scan_entry_items(s, i) == Some((seq![(k0, v0)], p3 + 1)));
        assert(seq![(k0, v0)] =~= m);
    } else {
        assert(join_comma(items) == head + seq![','] + join_comma(items.drop_first()));
        let rest = m.drop_first();
        assert(items.drop_first() =~= entry_items_of(rest));
        let tail = join_comma(entry_items_of(rest)) + seq!['}'];
        assert(join_comma(items) + seq!['}'] =~= print_string(k0) + (seq![':'] + (print_string(v0)
            + (seq![','] + tail))));
        lemma_at_lit_split(
            s,
            i,
            print_string(k0),
            seq![':'] + (print_string(v0) + (seq![','] + tail)),
        );
        lemma_rt_string(s, i, k0);
        let p1 = i + print_string(k0).len();
        lemma_at_lit_split(s, p1, seq![':'], print_string(v0) + (seq![','] + tail));
        lemma_at_lit_char(s, p1, seq![':'], 0);
        lemma_ws_stays(s, p1);
        assert(scan_sym(s, p1, ':') == Some(p1 + 1));
        lemma_at_lit_split(s, p1 + 1, print_string(v0), seq![','] + tail);
        lemma_rt_string(s, p1 + 1, v0);
        let p3 = p1 + 1 + print_string(v0).len();
        lemma_at_lit_split(s, p3, seq![','], tail);
        lemma_at_lit_char(s, p3, seq![','], 0);
        lemma_ws_stays(s, p3);
        lemma_rt_entry_items(s, p3 + 1, rest);
        assert(scan_entry_items(s, i) matches Some(r) && r.0 == seq![(k0, v0)] + rest);
        assert(seq![(k0, v0)] + rest =~= m);
    }
}

proof fn lemma_rt_string_items(s: Seq<char>, i: int, v: Seq<Seq<char>>)
    requires
        v.len() >= 1,
        at_lit(s, i, join_comma(string_items_of(v)) + seq![']']),
    ensures
        scan_string_items(s, i) == Some((v, i + join_comma(string_items_of(v)).len() + 1)),
    decreases v.len(),
{
    let items = string_items_of(v);
    let head = print_string(v[0]);
    assert(items[0] == head);
    if v.len() == 1 {
        assert(join_comma(items) == head);
        lemma_at_lit_split(s, i, head, seq![']']);
        lemma_rt_string(s, i, v[0]);
        let p = i + head.len();
        lemma_at_lit_char(s, p, seq![']'], 0);
        lemma_ws_stays(s, p);
        assert(scan_string_items(s, i) == Some((seq![v[0]], p + 1)));
        assert(seq![v[0]] =~= v);
    } else {
        assert(join_comma(items) == head + seq![','] + join_comma(items.drop_first()));
        let rest = v.drop_first();
        assert(items.drop_first() =~= string_items_of(rest));
        let tail = join_comma(string_items_of(rest)) + seq![']'];
        assert(join_comma(items) + seq![']'] =~= head + (seq![','] + tail));
        lemma_at_lit_split(s, i, head, seq![','] + tail);
        lemma_rt_string(s, i, v[0]);
        let p = i + head.len();
        lemma_at_lit_split(s, p, seq![','], tail);
        lemma_at_lit_char(s, p, seq![','], 0);
        lemma_ws_stays(s, p);
        lemma_rt_string_items(s, p + 1, rest);
        assert(scan_string_items(s, i) matches Some(r) && r.0 == seq![v[0]] + rest);
        assert(seq![v[0]] + rest =~= v);
    }
}

proof fn lemma_rt_string_array(s: Seq<char>, i: int, v: Seq<Seq<char>>)
    requires
        at_lit(s, i, print_string_array(v)),
    ensures
        scan_string_array(s, i) == Some((v, i + print_string_array(v).len())),
{
    assert(string_items_of(v) =~= Seq::new(v.len(), |k: int| print_string(v[k])));
    let items = string_items_of(v);
    assert(print_string_array(v) =~= seq!['['] + (join_comma(items) + seq![']']));
    lemma_at_lit_split(s, i, seq!['['], join_comma(items) + seq![']']);
    lemma_at_lit_char(s, i, seq!['['], 0);
    lemma_ws_stays(s, i);
    assert(scan_sym(s, i, '[') == Some(i + 1));
    if v.len() == 0 {
        assert(join_comma(items) =~= Seq::<char>::empty());
        assert(join_comma(items) + seq![']'] =~= seq![']']);
        lemma_at_lit_char(s, i + 1, seq![']'], 0);
        lemma_ws_stays(s, i + 1);
        assert(scan_string_array(s, i) == Some((Seq::<Seq<char>>::empty(), i + 2)));
        assert(v =~= Seq::<Seq<char>>::empty());
    } else {
        assert(items[0] == print_string(v[0]));
        if v.len() == 1 {
            assert(join_comma(items) == items[0]);
        } else {
            assert(join_comma(items) == items[0] + seq![','] + join_comma(items.drop_first()));
        }
        assert((join_comma(items) + seq![']'])[0] == print_string(v[0])[0]);
        assert(print_string(v[0])[0] == '"');
        lemma_at_lit_char(s, i + 1, join_comma(items) + seq![']'], 0);
        assert(s[i + 1] == '"');
        lemma_ws_stays(s, i + 1);
        lemma_rt_string_items(s, i + 1, v);
    }
}

proof fn lemma_at_lit_join(s: Seq<char>, i: int, a: Seq<char>, b: Seq<char>)
    requires
        at_lit(s, i, a),
        at_lit(s, i + a.len(), b),
    ensures
        at_lit(s, i, a + b),
{
    assert(s.subrange(i, i + (a + b).len()) =~= a + b);
}

/// The printed form of each plan element.
spec fn plan_items_of(v: Seq<ServicePlanView>) -> Seq<Seq<char>> {
    Seq::new(v.len(), |i: int| print_plan(v[i]))
}

#[verifier::rlimit(100)]
proof fn lemma_rt_plan_items(s: Seq<char>, i: int, v: Seq<ServicePlanView>)
    requires
        v.len() >= 1,
        plans_wf(v),
        at_lit(s, i, join_comma(plan_items_of(v)) + seq![']']),
    ensures
        scan_plan_items(s, i) == Some((v, i + join_comma(plan_items_of(v)).len() + 1)),
    decreases v.len(),
{
    let items = plan_items_of(v);
    let head = print_plan(v[0]);
    assert(items[0] == head);
    if v.len() == 1 {
        assert(join_comma(items) == head);
        lemma_at_lit_split(s, i, head, seq![']']);
        assert(metadata_wf(v[0].metadata));
        lemma_rt_plan(s, i, v[0]);
        let p = i + head.len();
        lemma_at_lit_char(s, p, seq![']'], 0);
        lemma_ws_stays(s, p);
        assert(scan_plan_items(s, i) == Some((seq![v[0]], p + 1)));
        assert(seq![v[0]] =~= v);
    } else {
        assert(join_comma(items) == head + seq![','] + join_comma(items.drop_first()));
        let rest = v.drop_first();
        assert(items.drop_first() =~= plan_items_of(rest));
        let tail = join_comma(plan_items_of(rest)) + seq![']'];
        assert(join_comma(items) + seq![']'] =~= head + (seq![','] + tail));
        lemma_at_lit_split(s, i, head, seq![','] + tail);
        assert(metadata_wf(v[0].metadata));
        lemma_rt_plan(s, i, v[0]);
        let p = i + head.len();
        lemma_at_lit_split(s, p, seq![','], tail);
        lemma_at_lit_char(s, p, seq![','], 0);
        lemma_ws_stays(s, p);
        assert forall|k: int| 0 <= k < rest.len() implies metadata_wf(
            #[trigger] rest[k].metadata,
        ) by {
            assert(rest[k] == v[k + 1]);
        }
        assert(plans_wf(rest));
        lemma_rt_plan_items(s, p + 1, rest);
        assert(scan_plan_items(s, i) matches Some(r) && r.0 == seq![v[0]] + rest);
        assert(seq![v[0]] + rest =~= v);
    }
}

#[verifier::rlimit(100)]
proof fn lemma_rt_plan_array(s: Seq<char>, i: int, v: Seq<ServicePlanView>)
    requires
        plans_wf(v),
        at_lit(s, i, print_plan_array(v)),
    ensures
        scan_plan_array(s, i) == Some((v, i + print_plan_array(v).len())),
{
    assert(plan_items_of(v) =~= Seq::new(v.len(), |k: int| print_plan(v[k])));
    let items = plan_items_of(v);
    assert(print_plan_array(v) =~= seq!['['] + (join_comma(items) + seq![']']));
    lemma_at_lit_split(s, i, seq!['['], join_comma(items) + seq![']']);
    lemma_at_lit_char(s, i, seq!['['], 0);
    lemma_ws_stays(s, i);
    assert(scan_sym(s, i, '[') == Some(i + 1));
    if v.len() == 0 {
        assert(join_comma(items) =~= Seq::<char>::empty());
        assert(join_comma(items) + seq![']'] =~= seq![']']);
        lemma_at_lit_char(s, i + 1, seq![']'], 0);
        lemma_ws_stays(s, i + 1);
        assert(scan_plan_array(s, i) == Some((Seq::<ServicePlanView>::empty(), i + 2)));
        assert(v =~= Seq::<ServicePlanView>::empty());
    } else {
        assert(items[0] == print_plan(v[0]));
        if v.len() == 1 {
            assert(join_comma(items) == items[0]);
        } else {
            assert(join_comma(items) == items[0] + seq![','] + join_comma(items.drop_first()));
        }
        assert(print_plan(v[0])[0] == '{');
        assert((join_comma(items) + seq![']'])[0] == '{');
        lemma_at_lit_char(s, i + 1, join_comma(items) + seq![']'], 0);
        assert(s[i + 1] == '{');
        lemma_ws_stays(s, i + 1);
        lemma_rt_plan_items(s, i + 1, v);
    }
}

/// The printed form of each service element.
spec fn service_items_of(v: Seq<ServiceView>) -> Seq<Seq<char>> {
    Seq::new(v.len(), |i: int| print_service(v[i]))
}

proof fn lemma_print_service_first_char(q: ServiceView)
    ensures
        print_service(q).len() > 0,
        print_service(q)[0] == '{',
{
    reveal(print_service);
}

#[verifier::rlimit(100)]
proof fn lemma_rt_service_items(s: Seq<char>, i: int, v: Seq<ServiceView>)
    requires
        v.len() >= 1,
        services_wf(v),
        at_lit(s, i, join_comma(service_items_of(v)) + seq![']']),
    ensures
        scan_service_items(s, i) == Some((v, i + join_comma(service_items_of(v)).len() + 1)),
    decreases v.len(),
{
    let items = service_items_of(v);
    let head = print_service(v[0]);
    assert(items[0] == head);
    if v.len() == 1 {
        assert(join_comma(items) == head);
        lemma_at_lit_split(s, i, head, seq![']']);
        assert(metadata_wf(v[0].metadata) && service_plans_wf(v[0]));
        lemma_rt_service(s, i, v[0]);
        let p = i + head.len();
        lemma_at_lit_char(s, p, seq![']'], 0);
        lemma_ws_stays(s, p);
        assert(scan_service_items(s, i) == Some((seq![v[0]], p + 1)));
        assert(seq![v[0]] =~= v);
    } else {
        assert(join_comma(items) == head + seq![','] + join_comma(items.drop_first()));
        let rest = v.drop_first();
        assert(items.drop_first() =~= service_items_of(rest));
        let tail = join_comma(service_items_of(rest)) + seq![']'];
        assert(join_comma(items) + seq![']'] =~= head + (seq![','] + tail));
        lemma_at_lit_split(s, i, head, seq![','] + tail);
        assert(metadata_wf(v[0].metadata) && service_plans_wf(v[0]));
        lemma_rt_service(s, i, v[0]);
        let p = i + head.len();
        lemma_at_lit_split(s, p, seq![','], tail);
        lemma_at_lit_char(s, p, seq![','], 0);
        lemma_ws_stays(s, p);
        assert forall|k: int|
            0 <= k < rest.len() implies metadata_wf(#[trigger] rest[k].metadata)
            && service_plans_wf(rest[k]) by {
            assert(rest[k] == v[k + 1]);
        }
        assert(services_wf(rest));
        lemma_rt_service_items(s, p + 1, rest);
        assert(scan_service_items(s, i) matches Some(r) && r.0 == seq![v[0]] + rest);
        assert(seq![v[0]] + rest =~= v);
    }
}

#[verifier::rlimit(100)]
proof fn lemma_rt_service_array(s: Seq<char>, i: int, v: Seq<ServiceView>)
    requires
        services_wf(v),
        at_lit(s, i, print_service_array(v)),
    ensures
        scan_service_array(s, i) == Some((v, i + print_service_array(v).len())),
{
    assert(service_items_of(v) =~= Seq::new(v.len(), |k: int| print_service(v[k])));
    let items = service_items_of(v);
    assert(print_service_array(v) =~= seq!['['] + (join_comma(items) + seq![']']));
    lemma_at_lit_split(s, i, seq!['['], join_comma(items) + seq![']']);
    lemma_at_lit_char(s, i, seq!['['], 0);
    lemma_ws_stays(s, i);
    assert(scan_sym(s, i, '[') == Some(i + 1));
    if v.len() == 0 {
        assert(join_comma(items) =~= Seq::<char>::empty());
        assert(join_comma(items) + seq![']'] =~= seq![']']);
        lemma_at_lit_char(s, i + 1, seq![']'], 0);
        lemma_ws_stays(s, i + 1);
        assert(scan_service_array(s, i) == Some((Seq::<ServiceView>::empty(), i + 2)));
        assert(v =~= Seq::<ServiceView>::empty());
    } else {
        assert(items[0] == print_service(v[0]));
        if v.len() == 1 {
            assert(join_comma(items) == items[0]);
        } else {
            assert(join_comma(items) == items[0] + seq![','] + join_comma(items.drop_first()));
        }
        lemma_print_service_first_char(v[0]);
        assert((join_comma(items) + seq![']'])[0] == '{');
        lemma_at_lit_char(s, i + 1, join_comma(items) + seq![']'], 0);
        assert(s[i + 1] == '{');
        lemma_ws_stays(s, i + 1);
        lemma_rt_service_items(s, i + 1, v);
    }
}

/// The metadata-and-plans tail of a service object, from its `metadata` key
/// through the closing brace.
spec fn svc_md_part(q: ServiceView) -> Seq<char> {
    print_key("metadata"@) + print_metadata(q.metadata) + seq![','] + print_key("plans"@)
        + print_plan_array(q.plans) + seq!['}']
}

/// The text of a service object from the comma after its description
/// through the closing brace.
#[verifier::opaque]
spec fn service_rest_text(q: ServiceView) -> Seq<char> {
    seq![','] + (print_key("tags"@) + (print_string_array(q.tags) + (seq![','] + (print_key("requires"@) + (print_string_array(q.required_permissions) + (seq![','] + (print_key("bindable"@) + (print_bool(q.bindable) + (print_service_opts_from(q, 0) + (seq![','] + (svc_md_part(q))))))))))))
}

#[verifier::rlimit(100)]
#[verifier::spinoff_prover]
proof fn lemma_print_service_shape(q: ServiceView)
    ensures
        print_service(q) == (seq!['{'] + print_key("id"@) + print_string(q.id) + seq![','] + print_key("name"@) + print_string(q.name) + seq![','] + print_key("description"@) + print_string(q.description)) + service_rest_text(q),
{
    reveal(print_service);
    reveal(service_rest_text);
    let x0 = seq!['{'];
    let x1 = print_key("id"@);
    let x2 = print_string(q.id);
    let x3 = seq![','];
    let x4 = print_key("name"@);
    let x5 = print_string(q.name);
    let x6 = seq![','];
    let x7 = print_key("description"@);
    let x8 = print_string(q.description);
    let x9 = seq![','];
    let x10 = print_key("tags"@);
    let x11 = print_string_array(q.tags);
    let x12 = seq![','];
    let x13 = print_key("requires"@);
    let x14 = print_string_array(q.required_permissions);
    let x15 = seq![','];
    let x16 = print_key("bindable"@);
    let x17 = print_bool(q.bindable);
    let x18 = print_service_opts_from(q, 0);
    let x19 = seq![','];
    let b3 = print_key("metadata"@);
    let b4 = print_metadata(q.metadata);
    let b5 = seq![','];
    let b6 = print_key("plans"@);
    let b7 = print_plan_array(q.plans);
    let b8 = seq!['}'];
    let xall = x0 + x1 + x2 + x3 + x4 + x5 + x6 + x7 + x8 + x9 + x10 + x11 + x12 + x13 + x14 + x15 + x16 + x17 + x18 + x19;
    assert(print_service(q) == xall + b3 + b4 + b5 + b6 + b7 + b8);
    lemma_seq_assoc(xall, b3, b4);
    lemma_seq_assoc(xall, b3 + b4, b5);
    lemma_seq_assoc(xall, b3 + b4 + b5, b6);
    lemma_seq_assoc(xall, b3 + b4 + b5 + b6, b7);
    lemma_seq_assoc(xall, b3 + b4 + b5 + b6 + b7, b8);
    assert(print_service(q) == xall + svc_md_part(q));
    lemma_seq_assoc(x0 + x1 + x2 + x3 + x4 + x5 + x6 + x7 + x8 + x9 + x10 + x11 + x12 + x13 + x14 + x15 + x16 + x17 + x18, x19, svc_md_part(q));
    lemma_seq_assoc(x0 + x1 + x2 + x3 + x4 + x5 + x6 + x7 + x8 + x9 + x10 + x11 + x12 + x13 + x14 + x15 + x16 + x17, x18, x19 + (svc_md_part(q)));
    lemma_seq_assoc(x0 + x1 + x2 + x3 + x4 + x5 + x6 + x7 + x8 + x9 + x10 + x11 + x12 + x13 + x14 + x15 + x16, x17, x18 + (x19 + (svc_md_part(q))));
    lemma_seq_assoc(x0 + x1 + x2 + x3 + x4 + x5 + x6 + x7 + x8 + x9 + x10 + x11 + x12 + x13 + x14 + x15, x16, x17 + (x18 + (x19 + (svc_md_part(q)))));
    lemma_seq_assoc(x0 + x1 + x2 + x3 + x4 + x5 + x6 + x7 + x8 + x9 + x10 + x11 + x12 + x13 + x14, x15, x16 + (x17 + (x18 + (x19 + (svc_md_part(q))))));
    lemma_seq_assoc(x0 + x1 + x2 + x3 + x4 + x5 + x6 + x7 + x8 + x9 + x10 + x11 + x12 + x13, x14, x15 + (x16 + (x17 + (x18 + (x19 + (svc_md_part(q)))))));
    lemma_seq_assoc(x0 + x1 + x2 + x3 + x4 + x5 + x6 + x7 + x8 + x9 + x10 + x11 + x12, x13, x14 + (x15 + (x16 + (x17 + (x18 + (x19 + (svc_md_part(q))))))));
    lemma_seq_assoc(x0 + x1 + x2 + x3 + x4 + x5 + x6 + x7 + x8 + x9 + x10 + x11, x12, x13 + (x14 + (x15 + (x16 + (x17 + (x18 + (x19 + (svc_md_part(q)))))))));
    lemma_seq_assoc(x0 + x1 + x2 + x3 + x4 + x5 + x6 + x7 + x8 + x9 + x10, x11, x12 + (x13 + (x14 + (x15 + (x16 + (x17 + (x18 + (x19 + (svc_md_part(q))))))))));
    lemma_seq_assoc(x0 + x1 + x2 + x3 + x4 + x5 + x6 + x7 + x8 + x9, x10, x11 + (x12 + (x13 + (x14 + (x15 + (x16 + (x17 + (x18 + (x19 + (svc_md_part(q)))))))))));
    lemma_seq_assoc(
        x0 + x1 + x2 + x3 + x4 + x5 + x6 + x7 + x8,
        x9,
        x10 + (x11 + (x12 + (x13 + (x14 + (x15 + (x16 + (x17 + (x18 + (x19 + (svc_md_part(
            q,
        ))))))))))),
    );
    assert(print_service(q) == (x0 + x1 + x2 + x3 + x4 + x5 + x6 + x7 + x8) + (x9 + (x10 + (x11 + (
    x12 + (x13 + (x14 + (x15 + (x16 + (x17 + (x18 + (x19 + (svc_md_part(q))))))))))))));
}


/// The gathering after the required fields of a plan and the first `stage`
/// optional slots of the canonical document have been read.
spec fn plan_acc_of(q: ServicePlanView, stage: int) -> PlanAcc {
    PlanAcc {
        id: Some(q.id),
        name: Some(q.name),
        description: Some(q.description),
        metadata: Some(q.metadata),
        free: if stage >= 1 {
            q.free
        } else {
            None
        },
        bindable: if stage >= 2 {
            q.bindable
        } else {
            None
        },
        plan_updateable: if stage >= 3 {
            q.plan_updateable
        } else {
            None
        },
        maximum_polling_duration: if stage >= 4 {
            q.maximum_polling_duration
        } else {
            None
        },
    }
}
#[verifier::rlimit(100)]
#[verifier::spinoff_prover]
proof fn lemma_rt_plan_opt_stage0(s: Seq<char>, i: int, q: ServicePlanView)
    requires
        q.free is Some,
        at_lit(s, i, print_plan_opts_from(q, 0) + seq!['}']),
    ensures
        scan_plan_more(s, i, plan_acc_of(q, 0)) == Some(
            (q, i + print_plan_opts_from(q, 0).len() + 1),
        ),
    decreases 4 - 0, 0int,
{
    lemma_plan_keys_distinct();
    let b = q.free.unwrap();
    let key = "free"@;
    let val = print_bool(b);
    let cur: int = 0;
    let nxt: int = 1;
    assert(print_plan_opts_from(q, cur) == (seq![','] + print_key(key) + val)
        + print_plan_opts_from(q, nxt));
    let tail = print_plan_opts_from(q, nxt) + seq!['}'];
    assert(print_plan_opts_from(q, cur) + seq!['}'] =~= seq![','] + (print_key(key) + (val
        + tail)));
    lemma_at_lit_split(s, i, seq![','], print_key(key) + (val + tail));
    lemma_at_lit_char(s, i, seq![','], 0);
    lemma_ws_stays(s, i);
    lemma_at_lit_split(s, i + 1, print_key(key), val + tail);
    lemma_rt_field_key(s, i + 1, key);
    let p2 = i + 1 + print_key(key).len();
    lemma_at_lit_split(s, p2, val, tail);
    let m = p2 + val.len();
    lemma_rt_opt_bool(s, p2, b);
    lemma_rt_plan_more_opts(s, m, q, nxt);
    assert((PlanAcc { free: Some(b), ..plan_acc_of(q, cur) }) =~= plan_acc_of(q, nxt));
}

#[verifier::rlimit(100)]
#[verifier::spinoff_prover]
proof fn lemma_rt_plan_opt_stage1(s: Seq<char>, i: int, q: ServicePlanView)
    requires
        q.bindable is Some,
        at_lit(s, i, print_plan_opts_from(q, 1) + seq!['}']),
    ensures
        scan_plan_more(s, i, plan_acc_of(q, 1)) == Some(
            (q, i + print_plan_opts_from(q, 1).len() + 1),
        ),
    decreases 4 - 1, 0int,
{
    lemma_plan_keys_distinct();
    let b = q.bindable.unwrap();
    let key = "bindable"@;
    let val = print_bool(b);
    let cur: int = 1;
    let nxt: int = 2;
    assert(print_plan_opts_from(q, cur) == (seq![','] + print_key(key) + val)
        + print_plan_opts_from(q, nxt));
    let tail = print_plan_opts_from(q, nxt) + seq!['}'];
    assert(print_plan_opts_from(q, cur) + seq!['}'] =~= seq![','] + (print_key(key) + (val
        + tail)));
    lemma_at_lit_split(s, i, seq![','], print_key(key) + (val + tail));
    lemma_at_lit_char(s, i, seq![','], 0);
    lemma_ws_stays(s, i);
    lemma_at_lit_split(s, i + 1, print_key(key), val + tail);
    lemma_rt_field_key(s, i + 1, key);
    let p2 = i + 1 + print_key(key).len();
    lemma_at_lit_split(s, p2, val, tail);
    let m = p2 + val.len();
    lemma_rt_opt_bool(s, p2, b);
    lemma_rt_plan_more_opts(s, m, q, nxt);
    assert((PlanAcc { bindable: Some(b), ..plan_acc_of(q, cur) }) =~= plan_acc_of(q, nxt));
}

#[verifier::rlimit(100)]
#[verifier::spinoff_prover]
proof fn lemma_rt_plan_opt_stage2(s: Seq<char>, i: int, q: ServicePlanView)
    requires
        q.plan_updateable is Some,
        at_lit(s, i, print_plan_opts_from(q, 2) + seq!['}']),
    ensures
        scan_plan_more(s, i, plan_acc_of(q, 2)) == Some(
            (q, i + print_plan_opts_from(q, 2).len() + 1),
        ),
    decreases 4 - 2, 0int,
{
    lemma_plan_keys_distinct();
    let b = q.plan_updateable.unwrap();
    let key = "plan_updateable"@;
    let val = print_bool(b);
    let cur: int = 2;
    let nxt: int = 3;
    assert(print_plan_opts_from(q, cur) == (seq![','] + print_key(key) + val)
        + print_plan_opts_from(q, nxt));
    let tail = print_plan_opts_from(q, nxt) + seq!['}'];
    assert(print_plan_opts_from(q, cur) + seq!['}'] =~= seq![','] + (print_key(key) + (val
        + tail)));
    lemma_at_lit_split(s, i, seq![','], print_key(key) + (val + tail));
    lemma_at_lit_char(s, i, seq![','], 0);
    lemma_ws_stays(s, i);
    lemma_at_lit_split(s, i + 1, print_key(key), val + tail);
    lemma_rt_field_key(s, i + 1, key);
    let p2 = i + 1 + print_key(key).len();
    lemma_at_lit_split(s, p2, val, tail);
    let m = p2 + val.len();
    lemma_rt_opt_bool(s, p2, b);
    lemma_rt_plan_more_opts(s, m, q, nxt);
    assert((PlanAcc { plan_updateable: Some(b), ..plan_acc_of(q, cur) }) =~= plan_acc_of(q, nxt));
}

#[verifier::rlimit(100)]
#[verifier::spinoff_prover]
proof fn lemma_rt_plan_opt_stage3(s: Seq<char>, i: int, q: ServicePlanView)
    requires
        q.maximum_polling_duration is Some,
        at_lit(s, i, print_plan_opts_from(q, 3) + seq!['}']),
    ensures
        scan_plan_more(s, i, plan_acc_of(q, 3)) == Some(
            (q, i + print_plan_opts_from(q, 3).len() + 1),
        ),
    decreases 4 - 3, 0int,
{
    lemma_plan_keys_distinct();
    let n = q.maximum_polling_duration.unwrap();
    let key = "maximum_polling_duration"@;
    let val = print_uint(n as int);
    let cur: int = 3;
    let nxt: int = 4;
    assert(print_plan_opts_from(q, cur) == (seq![','] + print_key(key) + val)
        + print_plan_opts_from(q, nxt));
    let tail = print_plan_opts_from(q, nxt) + seq!['}'];
    assert(print_plan_opts_from(q, cur) + seq!['}'] =~= seq![','] + (print_key(key) + (val
        + tail)));
    lemma_at_lit_split(s, i, seq![','], print_key(key) + (val + tail));
    lemma_at_lit_char(s, i, seq![','], 0);
    lemma_ws_stays(s, i);
    lemma_at_lit_split(s, i + 1, print_key(key), val + tail);
    lemma_rt_field_key(s, i + 1, key);
    let p2 = i + 1 + print_key(key).len();
    lemma_at_lit_split(s, p2, val, tail);
    let m = p2 + val.len();
    assert(print_plan_opts_from(q, nxt) + seq!['}'] =~= seq!['}']);
    lemma_at_lit_char(s, m, seq!['}'], 0);
    assert(s[m] == '}');
    lemma_rt_opt_uint(s, p2, n);
    lemma_rt_plan_more_opts(s, m, q, nxt);
    assert((PlanAcc { maximum_polling_duration: Some(n), ..plan_acc_of(q, cur) }) =~= plan_acc_of(q, nxt));
}

#[verifier::rlimit(100)]
proof fn lemma_rt_plan_more_opts(s: Seq<char>, i: int, q: ServicePlanView, stage: int)
    requires
        0 <= stage <= 4,
        at_lit(s, i, print_plan_opts_from(q, stage) + seq!['}']),
    ensures
        scan_plan_more(s, i, plan_acc_of(q, stage)) == Some(
            (q, i + print_plan_opts_from(q, stage).len() + 1),
        ),
    decreases 4 - stage, 1int,
{
    if stage == 4 {
        assert(print_plan_opts_from(q, 4) + seq!['}'] =~= seq!['}']);
        lemma_at_lit_char(s, i, seq!['}'], 0);
        lemma_ws_stays(s, i);
        assert(plan_acc_done(plan_acc_of(q, 4)) matches Some(v) && v =~= q);
        assert(scan_plan_more(s, i, plan_acc_of(q, 4)) == Some((q, i + 1)));
    } else if stage == 0 {
        match q.free {
            Option::None => {
                assert(print_plan_opts_from(q, 0) == print_plan_opts_from(q, 1));
                assert(plan_acc_of(q, 0) =~= plan_acc_of(q, 1));
                lemma_rt_plan_more_opts(s, i, q, 1);
            },
            Option::Some(x) => {
                lemma_rt_plan_opt_stage0(s, i, q);
            },
        }
    } else if stage == 1 {
        match q.bindable {
            Option::None => {
                assert(print_plan_opts_from(q, 1) == print_plan_opts_from(q, 2));
                assert(plan_acc_of(q, 1) =~= plan_acc_of(q, 2));
                lemma_rt_plan_more_opts(s, i, q, 2);
            },
            Option::Some(x) => {
                lemma_rt_plan_opt_stage1(s, i, q);
            },
        }
    } else if stage == 2 {
        match q.plan_updateable {
            Option::None => {
                assert(print_plan_opts_from(q, 2) == print_plan_opts_from(q, 3));
                assert(plan_acc_of(q, 2) =~= plan_acc_of(q, 3));
                lemma_rt_plan_more_opts(s, i, q, 3);
            },
            Option::Some(x) => {
                lemma_rt_plan_opt_stage2(s, i, q);
            },
        }
    } else {
        match q.maximum_polling_duration {
            Option::None => {
                assert(print_plan_opts_from(q, 3) == print_plan_opts_from(q, 4));
                assert(plan_acc_of(q, 3) =~= plan_acc_of(q, 4));
                lemma_rt_plan_more_opts(s, i, q, 4);
            },
            Option::Some(x) => {
                lemma_rt_plan_opt_stage3(s, i, q);
            },
        }
    }
}

#[verifier::rlimit(100)]
#[verifier::spinoff_prover]
proof fn lemma_rt_plan_rest(s: Seq<char>, i9: int, p: ServicePlanView, a: PlanAcc)
    requires
        metadata_wf(p.metadata),
        a == (PlanAcc {
            description: Some(p.description),
            ..(PlanAcc { name: Some(p.name), ..(PlanAcc { id: Some(p.id), ..plan_acc_init() }) })
        }),
        at_lit(s, i9, seq![',']),
        at_lit(s, i9 + 1, print_key("metadata"@)),
        at_lit(s, i9 + 1 + print_key("metadata"@).len(), print_metadata(p.metadata)),
        at_lit(
            s,
            i9 + 1 + print_key("metadata"@).len() + print_metadata(p.metadata).len(),
            print_plan_opts_from(p, 0) + seq!['}'],
        ),
    ensures
        scan_plan_more(s, i9, a) == Some(
            (p, i9 + 1 + print_key("metadata"@).len() + print_metadata(p.metadata).len()
                + print_plan_opts_from(p, 0).len() + 1),
        ),
{
    lemma_at_lit_char(s, i9, seq![','], 0);
    lemma_ws_stays(s, i9);
    let i10 = i9 + 1;
    lemma_rt_plan_field_metadata(s, i10, a, p.metadata);
    let acc4 = PlanAcc { metadata: Some(p.metadata), ..a };
    let i12 = i10 + print_key("metadata"@).len() + print_metadata(p.metadata).len();
    lemma_rt_plan_more_opts(s, i12, p, 0);
    assert(acc4 =~= plan_acc_of(p, 0));
}

#[verifier::rlimit(100)]
#[verifier::spinoff_prover]
proof fn lemma_rt_plan(s: Seq<char>, i: int, p: ServicePlanView)
    requires
        metadata_wf(p.metadata),
        at_lit(s, i, print_plan(p)),
    ensures
        scan_plan(s, i) == Some((p, i + print_plan(p).len())),
{
    let a1 = seq!['{'];
    let a2 = print_key("id"@);
    let a3 = print_string(p.id);
    let a4 = seq![','];
    let a5 = print_key("name"@);
    let a6 = print_string(p.name);
    let a7 = seq![','];
    let a8 = print_key("description"@);
    let a9 = print_string(p.description);
    let a10 = seq![','];
    let a11 = print_key("metadata"@);
    let a12 = print_metadata(p.metadata);
    let a13 = print_plan_opts_from(p, 0);
    lemma_at_lit_split(s, i, a1 + a2 + a3 + a4 + a5 + a6 + a7 + a8 + a9 + a10 + a11 + a12 + a13,
        seq!['}'],
    );
    lemma_at_lit_split(s, i, a1 + a2 + a3 + a4 + a5 + a6 + a7 + a8 + a9 + a10 + a11 + a12, a13);
    lemma_at_lit_split(s, i, a1 + a2 + a3 + a4 + a5 + a6 + a7 + a8 + a9 + a10 + a11, a12);
    lemma_at_lit_split(s, i, a1 + a2 + a3 + a4 + a5 + a6 + a7 + a8 + a9 + a10, a11);
    lemma_at_lit_split(s, i, a1 + a2 + a3 + a4 + a5 + a6 + a7 + a8 + a9, a10);
    lemma_at_lit_split(s, i, a1 + a2 + a3 + a4 + a5 + a6 + a7 + a8, a9);
    lemma_at_lit_split(s, i, a1 + a2 + a3 + a4 + a5 + a6 + a7, a8);
    lemma_at_lit_split(s, i, a1 + a2 + a3 + a4 + a5 + a6, a7);
    lemma_at_lit_split(s, i, a1 + a2 + a3 + a4 + a5, a6);
    lemma_at_lit_split(s, i, a1 + a2 + a3 + a4, a5);
    lemma_at_lit_split(s, i, a1 + a2 + a3, a4);
    lemma_at_lit_split(s, i, a1 + a2, a3);
    lemma_at_lit_split(s, i, a1, a2);
    lemma_at_lit_char(s, i, a1, 0);
    lemma_ws_stays(s, i);
    assert(scan_sym(s, i, '{') == Some(i + 1));
    let i1 = i + 1;
    let acc0 = plan_acc_init();
    lemma_rt_plan_field_id(s, i1, acc0, p.id);
    let acc1 = PlanAcc { id: Some(p.id), ..acc0 };
    let i3 = i1 + a2.len() + a3.len();
    lemma_at_lit_char(s, i3, a4, 0);
    lemma_ws_stays(s, i3);
    let i4 = i3 + 1;
    lemma_rt_plan_field_name(s, i4, acc1, p.name);
    let acc2 = PlanAcc { name: Some(p.name), ..acc1 };
    let i6 = i4 + a5.len() + a6.len();
    lemma_at_lit_char(s, i6, a7, 0);
    lemma_ws_stays(s, i6);
    let i7 = i6 + 1;
    lemma_rt_plan_field_description(s, i7, acc2, p.description);
    let acc3 = PlanAcc { description: Some(p.description), ..acc2 };
    let i9 = i7 + a8.len() + a9.len();
    let i12 = i9 + 1 + a11.len() + a12.len();
    lemma_at_lit_join(s, i12, a13, seq!['}']);
    lemma_rt_plan_rest(s, i9, p, acc3);
}


/// The gathering after the required fields of a service and the first
/// `stage` optional slots of the canonical document have been read, its
/// metadata and plans still to come.
spec fn service_acc_of(q: ServiceView, stage: int) -> ServiceAcc {
    ServiceAcc {
        id: Some(q.id),
        name: Some(q.name),
        description: Some(q.description),
        tags: Some(q.tags),
        required_permissions: Some(q.required_permissions),
        bindable: Some(q.bindable),
        instances_retrievable: if stage >= 1 {
            q.instances_retrievable
        } else {
            None
        },
        bindings_retrievable: if stage >= 2 {
            q.bindings_retrievable
        } else {
            None
        },
        allow_context_updates: if stage >= 3 {
            q.allow_context_updates
        } else {
            None
        },
        plan_updateable: if stage >= 4 {
            q.plan_updateable
        } else {
            None
        },
        metadata: None,
        plans: None,
    }
}

/// Every plan of the list keeps its metadata keys distinct.
spec fn plans_wf(v: Seq<ServicePlanView>) -> bool {
    forall|j: int| 0 <= j < v.len() ==> metadata_wf(#[trigger] v[j].metadata)
}

/// Every plan of the service keeps its metadata keys distinct.
spec fn service_plans_wf(q: ServiceView) -> bool {
    plans_wf(q.plans)
}

/// Every service of the list, and every plan of each, keeps its metadata
/// keys distinct.
spec fn services_wf(v: Seq<ServiceView>) -> bool {
    forall|k: int|
        0 <= k < v.len() ==> metadata_wf(#[trigger] v[k].metadata) && service_plans_wf(v[k])
}
#[verifier::rlimit(100)]
#[verifier::spinoff_prover]
proof fn lemma_rt_service_md(s: Seq<char>, i: int, q: ServiceView)
    requires
        metadata_wf(q.metadata),
        service_plans_wf(q),
        at_lit(s, i, seq![','] + svc_md_part(q)),
    ensures
        scan_service_more(s, i, service_acc_of(q, 4)) == Some((q, i + 1 + svc_md_part(q).len())),
{
    lemma_at_lit_split(s, i, seq![','], svc_md_part(q));
    lemma_at_lit_char(s, i, seq![','], 0);
    lemma_ws_stays(s, i);
    let i0 = i + 1;
    let a1 = print_key("metadata"@);
    let a2 = print_metadata(q.metadata);
    let a3 = seq![','];
    let a4 = print_key("plans"@);
    let a5 = print_plan_array(q.plans);
    lemma_at_lit_split(s, i0, a1 + a2 + a3 + a4 + a5, seq!['}']);
    lemma_at_lit_split(s, i0, a1 + a2 + a3 + a4, a5);
    lemma_at_lit_split(s, i0, a1 + a2 + a3, a4);
    lemma_at_lit_split(s, i0, a1 + a2, a3);
    lemma_at_lit_split(s, i0, a1, a2);
    let acc4 = service_acc_of(q, 4);
    lemma_rt_service_field_metadata(s, i0, acc4, q.metadata);
    let acc5 = ServiceAcc { metadata: Some(q.metadata), ..acc4 };
    let p3 = i0 + a1.len() + a2.len();
    lemma_at_lit_char(s, p3, a3, 0);
    lemma_ws_stays(s, p3);
    let p4 = p3 + 1;
    lemma_rt_service_field_plans(s, p4, acc5, q.plans);
    let acc6 = ServiceAcc { plans: Some(q.plans), ..acc5 };
    let p6 = p4 + a4.len() + a5.len();
    lemma_at_lit_char(s, p6, seq!['}'], 0);
    lemma_ws_stays(s, p6);
    assert(service_acc_done(acc6) matches Some(v) && v =~= q);
}

#[verifier::rlimit(100)]
#[verifier::spinoff_prover]
proof fn lemma_rt_service_opt_stage0(s: Seq<char>, i: int, q: ServiceView)
    requires
        metadata_wf(q.metadata),
        service_plans_wf(q),
        q.instances_retrievable is Some,
        at_lit(s, i, print_service_opts_from(q, 0) + (seq![','] + svc_md_part(q))),
    ensures
        scan_service_more(s, i, service_acc_of(q, 0)) == Some(
            (q, i + (print_service_opts_from(q, 0) + (seq![','] + svc_md_part(q))).len()),
        ),
    decreases 4 - 0, 0int,
{
    lemma_service_keys_distinct();
    let b = q.instances_retrievable.unwrap();
    let key = "instances_retrievable"@;
    let val = print_bool(b);
    let cur: int = 0;
    let nxt: int = 1;
    assert(print_service_opts_from(q, cur) == (seq![','] + print_key(key) + val)
        + print_service_opts_from(q, nxt));
    let tail = print_service_opts_from(q, nxt) + (seq![','] + svc_md_part(q));
    assert(print_service_opts_from(q, cur) + (seq![','] + svc_md_part(q)) =~= seq![','] + (
    print_key(key) + (val + tail)));
    lemma_at_lit_split(s, i, seq![','], print_key(key) + (val + tail));
    lemma_at_lit_char(s, i, seq![','], 0);
    lemma_ws_stays(s, i);
    lemma_at_lit_split(s, i + 1, print_key(key), val + tail);
    lemma_rt_field_key(s, i + 1, key);
    let p2 = i + 1 + print_key(key).len();
    lemma_at_lit_split(s, p2, val, tail);
    lemma_rt_opt_bool(s, p2, b);
    let m = p2 + val.len();
    lemma_rt_service_more_tail(s, m, q, nxt);
    assert((ServiceAcc { instances_retrievable: Some(b), ..service_acc_of(q, cur) }) =~= service_acc_of(
        q,
        nxt,
    ));
}

#[verifier::rlimit(100)]
#[verifier::spinoff_prover]
proof fn lemma_rt_service_opt_stage1(s: Seq<char>, i: int, q: ServiceView)
    requires
        metadata_wf(q.metadata),
        service_plans_wf(q),
        q.bindings_retrievable is Some,
        at_lit(s, i, print_service_opts_from(q, 1) + (seq![','] + svc_md_part(q))),
    ensures
        scan_service_more(s, i, service_acc_of(q, 1)) == Some(
            (q, i + (print_service_opts_from(q, 1) + (seq![','] + svc_md_part(q))).len()),
        ),
    decreases 4 - 1, 0int,
{
    lemma_service_keys_distinct();
    let b = q.bindings_retrievable.unwrap();
    let key = "bindings_retrievable"@;
    let val = print_bool(b);
    let cur: int = 1;
    let nxt: int = 2;
    assert(print_service_opts_from(q, cur) == (seq![','] + print_key(key) + val)
        + print_service_opts_from(q, nxt));
    let tail = print_service_opts_from(q, nxt) + (seq![','] + svc_md_part(q));
    assert(print_service_opts_from(q, cur) + (seq![','] + svc_md_part(q)) =~= seq![','] + (
    print_key(key) + (val + tail)));
    lemma_at_lit_split(s, i, seq![','], print_key(key) + (val + tail));
    lemma_at_lit_char(s, i, seq![','], 0);
    lemma_ws_stays(s, i);
    lemma_at_lit_split(s, i + 1, print_key(key), val + tail);
    lemma_rt_field_key(s, i + 1, key);
    let p2 = i + 1 + print_key(key).len();
    lemma_at_lit_split(s, p2, val, tail);
    lemma_rt_opt_bool(s, p2, b);
    let m = p2 + val.len();
    lemma_rt_service_more_tail(s, m, q, nxt);
    assert((ServiceAcc { bindings_retrievable: Some(b), ..service_acc_of(q, cur) }) =~= service_acc_of(
        q,
        nxt,
    ));
}

#[verifier::rlimit(100)]
#[verifier::spinoff_prover]
proof fn lemma_rt_service_opt_stage2(s: Seq<char>, i: int, q: ServiceView)
    requires
        metadata_wf(q.metadata),
        service_plans_wf(q),
        q.allow_context_updates is Some,
        at_lit(s, i, print_service_opts_from(q, 2) + (seq![','] + svc_md_part(q))),
    ensures
        scan_service_more(s, i, service_acc_of(q, 2)) == Some(
            (q, i + (print_service_opts_from(q, 2) + (seq![','] + svc_md_part(q))).len()),
        ),
    decreases 4 - 2, 0int,
{
    lemma_service_keys_distinct();
    let b = q.allow_context_updates.unwrap();
    let key = "allow_context_updates"@;
    let val = print_bool(b);
    let cur: int = 2;
    let nxt: int = 3;
    assert(print_service_opts_from(q, cur) == (seq![','] + print_key(key) + val)
        + print_service_opts_from(q, nxt));
    let tail = print_service_opts_from(q, nxt) + (seq![','] + svc_md_part(q));
    assert(print_service_opts_from(q, cur) + (seq![','] + svc_md_part(q)) =~= seq![','] + (
    print_key(key) + (val + tail)));
    lemma_at_lit_split(s, i, seq![','], print_key(key) + (val + tail));
    lemma_at_lit_char(s, i, seq![','], 0);
    lemma_ws_stays(s, i);
    lemma_at_lit_split(s, i + 1, print_key(key), val + tail);
    lemma_rt_field_key(s, i + 1, key);
    let p2 = i + 1 + print_key(key).len();
    lemma_at_lit_split(s, p2, val, tail);
    lemma_rt_opt_bool(s, p2, b);
    let m = p2 + val.len();
    lemma_rt_service_more_tail(s, m, q, nxt);
    assert((ServiceAcc { allow_context_updates: Some(b), ..service_acc_of(q, cur) }) =~= service_acc_of(
        q,
        nxt,
    ));
}

#[verifier::rlimit(100)]
#[verifier::spinoff_prover]
proof fn lemma_rt_service_opt_stage3(s: Seq<char>, i: int, q: ServiceView)
    requires
        metadata_wf(q.metadata),
        service_plans_wf(q),
        q.plan_updateable is Some,
        at_lit(s, i, print_service_opts_from(q, 3) + (seq![','] + svc_md_part(q))),
    ensures
        scan_service_more(s, i, service_acc_of(q, 3)) == Some(
            (q, i + (print_service_opts_from(q, 3) + (seq![','] + svc_md_part(q))).len()),
        ),
    decreases 4 - 3, 0int,
{
    lemma_service_keys_distinct();
    let b = q.plan_updateable.unwrap();
    let key = "plan_updateable"@;
    let val = print_bool(b);
    let cur: int = 3;
    let nxt: int = 4;
    assert(print_service_opts_from(q, cur) == (seq![','] + print_key(key) + val)
        + print_service_opts_from(q, nxt));
    let tail = print_service_opts_from(q, nxt) + (seq![','] + svc_md_part(q));
    assert(print_service_opts_from(q, cur) + (seq![','] + svc_md_part(q)) =~= seq![','] + (
    print_key(key) + (val + tail)));
    lemma_at_lit_split(s, i, seq![','], print_key(key) + (val + tail));
    lemma_at_lit_char(s, i, seq![','], 0);
    lemma_ws_stays(s, i);
    lemma_at_lit_split(s, i + 1, print_key(key), val + tail);
    lemma_rt_field_key(s, i + 1, key);
    let p2 = i + 1 + print_key(key).len();
    lemma_at_lit_split(s, p2, val, tail);
    lemma_rt_opt_bool(s, p2, b);
    let m = p2 + val.len();
    lemma_rt_service_more_tail(s, m, q, nxt);
    assert((ServiceAcc { plan_updateable: Some(b), ..service_acc_of(q, cur) }) =~= service_acc_of(
        q,
        nxt,
    ));
}

proof fn lemma_rt_service_more_tail(s: Seq<char>, i: int, q: ServiceView, stage: int)
    requires
        0 <= stage <= 4,
        metadata_wf(q.metadata),
        service_plans_wf(q),
        at_lit(s, i, print_service_opts_from(q, stage) + (seq![','] + svc_md_part(q))),
    ensures
        scan_service_more(s, i, service_acc_of(q, stage)) == Some(
            (q, i + (print_service_opts_from(q, stage) + (seq![','] + svc_md_part(q))).len()),
        ),
    decreases 4 - stage, 1int,
{
    if stage == 4 {
        assert(print_service_opts_from(q, 4) + (seq![','] + svc_md_part(q)) =~= seq![',']
            + svc_md_part(q));
        lemma_rt_service_md(s, i, q);
    } else if stage == 0 {
        match q.instances_retrievable {
            Option::None => {
                assert(print_service_opts_from(q, 0) =~= print_service_opts_from(q, 1));
                assert(service_acc_of(q, 0) =~= service_acc_of(q, 1));
                lemma_rt_service_more_tail(s, i, q, 1);
            },
            Option::Some(x) => {
                lemma_rt_service_opt_stage0(s, i, q);
            },
        }
    } else if stage == 1 {
        match q.bindings_retrievable {
            Option::None => {
                assert(print_service_opts_from(q, 1) =~= print_service_opts_from(q, 2));
                assert(service_acc_of(q, 1) =~= service_acc_of(q, 2));
                lemma_rt_service_more_tail(s, i, q, 2);
            },
            Option::Some(x) => {
                lemma_rt_service_opt_stage1(s, i, q);
            },
        }
    } else if stage == 2 {
        match q.allow_context_updates {
            Option::None => {
                assert(print_service_opts_from(q, 2) =~= print_service_opts_from(q, 3));
                assert(service_acc_of(q, 2) =~= service_acc_of(q, 3));
                lemma_rt_service_more_tail(s, i, q, 3);
            },
            Option::Some(x) => {
                lemma_rt_service_opt_stage2(s, i, q);
            },
        }
    } else {
        match q.plan_updateable {
            Option::None => {
                assert(print_service_opts_from(q, 3) =~= print_service_opts_from(q, 4));
                assert(service_acc_of(q, 3) =~= service_acc_of(q, 4));
                lemma_rt_service_more_tail(s, i, q, 4);
            },
            Option::Some(x) => {
                lemma_rt_service_opt_stage3(s, i, q);
            },
        }
    }
}

#[verifier::rlimit(100)]
#[verifier::spinoff_prover]
proof fn lemma_rt_service_rest2(s: Seq<char>, p: int, q: ServiceView, a: ServiceAcc)
    requires
        metadata_wf(q.metadata),
        service_plans_wf(q),
        a == (ServiceAcc {
            required_permissions: Some(q.required_permissions),
            ..(ServiceAcc {
                tags: Some(q.tags),
                ..(ServiceAcc {
                    description: Some(q.description),
                    ..(ServiceAcc {
                        name: Some(q.name),
                        ..(ServiceAcc { id: Some(q.id), ..service_acc_init() })
                    })
                })
            })
        }),
        at_lit(s, p, seq![','] + (print_key("bindable"@) + (print_bool(q.bindable) + (
        print_service_opts_from(q, 0) + (seq![','] + svc_md_part(q)))))),
    ensures
        scan_service_more(s, p, a) == Some(
            (q, p + (seq![','] + (print_key("bindable"@) + (print_bool(q.bindable) + (
            print_service_opts_from(q, 0) + (seq![','] + svc_md_part(q)))))).len()),
        ),
{
    let t17 = print_key("bindable"@);
    let t18 = print_bool(q.bindable);
    let tail18 = print_service_opts_from(q, 0) + (seq![','] + svc_md_part(q));
    lemma_at_lit_split(s, p, seq![','], t17 + (t18 + tail18));
    lemma_at_lit_char(s, p, seq![','], 0);
    lemma_ws_stays(s, p);
    let i16 = p + 1;
    lemma_at_lit_split(s, i16, t17, t18 + tail18);
    let i17 = i16 + t17.len();
    lemma_at_lit_split(s, i17, t18, tail18);
    lemma_rt_service_field_bindable(s, i16, a, q.bindable);
    let acc6 = ServiceAcc { bindable: Some(q.bindable), ..a };
    let i18 = i17 + t18.len();
    lemma_rt_service_more_tail(s, i18, q, 0);
    assert(acc6 =~= service_acc_of(q, 0));
}

#[verifier::rlimit(100)]
#[verifier::spinoff_prover]
proof fn lemma_rt_service_rest(s: Seq<char>, i9: int, q: ServiceView, a: ServiceAcc)
    requires
        metadata_wf(q.metadata),
        service_plans_wf(q),
        a == (ServiceAcc {
            description: Some(q.description),
            ..(ServiceAcc {
                name: Some(q.name),
                ..(ServiceAcc { id: Some(q.id), ..service_acc_init() })
            })
        }),
        at_lit(s, i9, service_rest_text(q)),
    ensures
        scan_service_more(s, i9, a) == Some((q, i9 + service_rest_text(q).len())),
{
    reveal(service_rest_text);
    let t11 = print_key("tags"@);
    let t12 = print_string_array(q.tags);
    let t14 = print_key("requires"@);
    let t15 = print_string_array(q.required_permissions);
    let t17 = print_key("bindable"@);
    let t18 = print_bool(q.bindable);
    let tail18 = print_service_opts_from(q, 0) + (seq![','] + svc_md_part(q));
    let tail15 = seq![','] + (t17 + (t18 + tail18));
    lemma_at_lit_split(s, i9, seq![','], t11 + (t12 + (seq![','] + (t14 + (t15 + tail15)))));
    lemma_at_lit_char(s, i9, seq![','], 0);
    lemma_ws_stays(s, i9);
    let i10 = i9 + 1;
    lemma_at_lit_split(s, i10, t11, t12 + (seq![','] + (t14 + (t15 + tail15))));
    let i11 = i10 + t11.len();
    lemma_at_lit_split(s, i11, t12, seq![','] + (t14 + (t15 + tail15)));
    lemma_rt_service_field_tags(s, i10, a, q.tags);
    let acc4 = ServiceAcc { tags: Some(q.tags), ..a };
    let i12 = i11 + t12.len();
    lemma_at_lit_split(s, i12, seq![','], t14 + (t15 + tail15));
    lemma_at_lit_char(s, i12, seq![','], 0);
    lemma_ws_stays(s, i12);
    let i13 = i12 + 1;
    lemma_at_lit_split(s, i13, t14, t15 + tail15);
    let i14 = i13 + t14.len();
    lemma_at_lit_split(s, i14, t15, tail15);
    lemma_rt_service_field_required_permissions(s, i13, acc4, q.required_permissions);
    let acc5 = ServiceAcc { required_permissions: Some(q.required_permissions), ..acc4 };
    let i15 = i14 + t15.len();
    lemma_rt_service_rest2(s, i15, q, acc5);
}

#[verifier::rlimit(100)]
#[verifier::spinoff_prover]
proof fn lemma_rt_service(s: Seq<char>, i: int, q: ServiceView)
    requires
        metadata_wf(q.metadata),
        service_plans_wf(q),
        at_lit(s, i, print_service(q)),
    ensures
        scan_service(s, i) == Some((q, i + print_service(q).len())),
{
    lemma_print_service_shape(q);
    let a1 = seq!['{'];
    let a2 = print_key("id"@);
    let a3 = print_string(q.id);
    let a4 = seq![','];
    let a5 = print_key("name"@);
    let a6 = print_string(q.name);
    let a7 = seq![','];
    let a8 = print_key("description"@);
    let a9 = print_string(q.description);
    let head = a1 + a2 + a3 + a4 + a5 + a6 + a7 + a8 + a9;
    lemma_at_lit_split(s, i, head, service_rest_text(q));
    lemma_at_lit_split(s, i, a1 + a2 + a3 + a4 + a5 + a6 + a7 + a8, a9);
    lemma_at_lit_split(s, i, a1 + a2 + a3 + a4 + a5 + a6 + a7, a8);
    lemma_at_lit_split(s, i, a1 + a2 + a3 + a4 + a5 + a6, a7);
    lemma_at_lit_split(s, i, a1 + a2 + a3 + a4 + a5, a6);
    lemma_at_lit_split(s, i, a1 + a2 + a3 + a4, a5);
    lemma_at_lit_split(s, i, a1 + a2 + a3, a4);
    lemma_at_lit_split(s, i, a1 + a2, a3);
    lemma_at_lit_split(s, i, a1, a2);
    lemma_at_lit_char(s, i, a1, 0);
    lemma_ws_stays(s, i);
    assert(scan_sym(s, i, '{') == Some(i + 1));
    let i1 = i + 1;
    let acc0 = service_acc_init();
    lemma_rt_service_field_id(s, i1, acc0, q.id);
    let acc1 = ServiceAcc { id: Some(q.id), ..acc0 };
    let i3 = i1 + a2.len() + a3.len();
    lemma_at_lit_char(s, i3, a4, 0);
    lemma_ws_stays(s, i3);
    let i4 = i3 + 1;
    lemma_rt_service_field_name(s, i4, acc1, q.name);
    let acc2 = ServiceAcc { name: Some(q.name), ..acc1 };
    let i6 = i4 + a5.len() + a6.len();
    lemma_at_lit_char(s, i6, a7, 0);
    lemma_ws_stays(s, i6);
    let i7 = i6 + 1;
    lemma_rt_service_field_description(s, i7, acc2, q.description);
    let acc3 = ServiceAcc { description: Some(q.description), ..acc2 };
    let i9 = i7 + a8.len() + a9.len();
    lemma_rt_service_rest(s, i9, q, acc3);
}

proof fn lemma_rt_catalog(s: Seq<char>, i: int, c: CatalogView)
    requires
        catalog_wf(c),
        at_lit(s, i, print_catalog(c)),
    ensures
        scan_catalog(s, i) == Some((c, i + print_catalog(c).len())),
{
    assert forall|k: int|
        0 <= k < c.services.len() implies metadata_wf(#[trigger] c.services[k].metadata)
        && service_plans_wf(c.services[k]) by {
        assert(metadata_wf(c.services[k].metadata));
    }
    assert(services_wf(c.services));
    let a1 = seq!['{'];
    let a2 = print_key("services"@);
    let a3 = print_service_array(c.services);
    lemma_at_lit_split(s, i, a1 + a2 + a3, seq!['}']);
    lemma_at_lit_split(s, i, a1 + a2, a3);
    lemma_at_lit_split(s, i, a1, a2);
    lemma_at_lit_char(s, i, a1, 0);
    lemma_ws_stays(s, i);
    assert(scan_sym(s, i, '{') == Some(i + 1));
    let i1 = i + 1;
    lemma_rt_field_key(s, i1, "services"@);
    let i2 = i1 + a2.len();
    lemma_rt_service_array(s, i2, c.services);
    let i3 = i2 + a3.len();
    lemma_at_lit_char(s, i3, seq!['}'], 0);
    lemma_ws_stays(s, i3);
    assert(scan_catalog_more(s, i3, Some(c.services)) == Some(
        (CatalogView { services: c.services }, i3 + 1),
    ));
    assert((CatalogView { services: c.services }) =~= c);
}

/// Round-trip law: the canonical document of any catalog whose metadata
/// mappings keep their keys distinct (as every catalog assembled through
/// this crate does) is well-formed and denotes exactly that catalog, every
/// field, every optional attribute's presence and every sequence's order
/// included.
pub proof fn lemma_catalog_round_trip(c: CatalogView)
    requires
        catalog_wf(c),
    ensures
        scan_document(print_catalog(c)) == Some(c),
{
    let s = print_catalog(c);
    assert(s.subrange(0, s.len() as int) =~= s);
    assert(at_lit(s, 0, s));
    lemma_rt_catalog(s, 0, c);
    assert(scan_ws(s, s.len() as int) == s.len());
}

} // verus!

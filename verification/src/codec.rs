//! Executable wire codec: `to_json` prints the canonical document of a
//! catalog, `from_json` reads any well-formed document back. Both are exact
//! against the format definition in `crate::json`.

use vstd::prelude::*;
use vstd::string::StrSliceExecFns;

use crate::json;
use crate::model::Catalog;
use crate::model::Metadata;
use crate::model::Service;
use crate::model::ServicePlan;
use crate::model::plans_view;
use crate::model::services_view;
use crate::model::strings_view;

verus! {

/// Relies on `String::push`: appends the given character to the end of the
/// string.
#[verifier::external_body]
fn push_char(out: &mut String, c: char)
    ensures
        final (out)@ == old(out)@.push(c),
{
    out.push(c);
}

/// Relies on `char::from_u32`: yields the character with the given code,
/// refusing exactly the surrogate range and codes above the largest scalar
/// value.
#[verifier::external_body]
fn char_from_u32(code: u32) -> (r: Option<char>)
    ensures
        match r {
            Some(c) => c as u32 == code,
            None => (0xD800 <= code < 0xE000) || code > 0x10FFFF,
        },
{
    char::from_u32(code)
}

/// Lowercase hexadecimal digit character of a value below sixteen.
fn hex_char(d: u32) -> (c: char)
    requires
        d < 16,
    ensures
        c == json::hex_digit(d as int),
{
    if d == 0 {
        '0'
    } else if d == 1 {
        '1'
    } else if d == 2 {
        '2'
    } else if d == 3 {
        '3'
    } else if d == 4 {
        '4'
    } else if d == 5 {
        '5'
    } else if d == 6 {
        '6'
    } else if d == 7 {
        '7'
    } else if d == 8 {
        '8'
    } else if d == 9 {
        '9'
    } else if d == 10 {
        'a'
    } else if d == 11 {
        'b'
    } else if d == 12 {
        'c'
    } else if d == 13 {
        'd'
    } else if d == 14 {
        'e'
    } else {
        'f'
    }
}

/// Appends a JSON string token for `s`.
fn write_string(out: &mut String, s: &str)
    ensures
        final (out)@ == old(out)@ + json::print_string(s@),
{
    push_char(out, '"');
    let n = s.unicode_len();
    let mut i: usize = 0;
    while i < n
        invariant
            n == s@.len(),
            i <= n,
            out@ == old(out)@ + seq!['"'] + json::esc_string(s@.take(i as int)),
        decreases n - i,
    {
        let ghost pre = out@;
        let c = s.get_char(i);
        if c == '"' {
            push_char(out, '\\');
            push_char(out, '"');
        } else if c == '\\' {
            push_char(out, '\\');
            push_char(out, '\\');
        } else if (c as u32) < 32 {
            push_char(out, '\\');
            push_char(out, 'u');
            push_char(out, '0');
            push_char(out, '0');
            push_char(out, hex_char((c as u32) / 16));
            push_char(out, hex_char((c as u32) % 16));
        } else {
            push_char(out, c);
        }
        proof {
            assert(out@ =~= pre + json::esc_char(s@[i as int]));
            assert(s@.take(i + 1) =~= s@.take(i as int).push(s@[i as int]));
            json::lemma_esc_string_push(s@.take(i as int), s@[i as int]);
            assert(out@ =~= old(out)@ + seq!['"'] + json::esc_string(s@.take(i + 1)));
        }
        i = i + 1;
    }
    push_char(out, '"');
    proof {
        assert(s@.take(n as int) =~= s@);
        assert(out@ =~= old(out)@ + json::print_string(s@));
    }
}

/// Appends `"key":` for a field key.
fn write_key(out: &mut String, k: &str)
    ensures
        final (out)@ == old(out)@ + json::print_key(k@),
{
    write_string(out, k);
    push_char(out, ':');
    proof {
        assert(out@ =~= old(out)@ + json::print_key(k@));
    }
}

/// Appends the decimal digits of `n`.
fn write_uint(out: &mut String, n: u64)
    ensures
        final (out)@ == old(out)@ + json::print_uint(n as int),
    decreases n,
{
    if n < 10 {
        push_char(out, hex_char(n as u32));
        proof {
            assert(out@ =~= old(out)@ + json::print_uint(n as int));
        }
    } else {
        write_uint(out, n / 10);
        push_char(out, hex_char((n % 10) as u32));
        proof {
            assert(out@ =~= old(out)@ + json::print_uint(n as int));
        }
    }
}

/// Appends a boolean token.
fn write_bool(out: &mut String, b: bool)
    ensures
        final (out)@ == old(out)@ + json::print_bool(b),
{
    if b {
        push_char(out, 't');
        push_char(out, 'r');
        push_char(out, 'u');
        push_char(out, 'e');
    } else {
        push_char(out, 'f');
        push_char(out, 'a');
        push_char(out, 'l');
        push_char(out, 's');
        push_char(out, 'e');
    }
    proof {
        assert(out@ =~= old(out)@ + json::print_bool(b));
    }
}

/// Appends a string array token.
fn write_string_array(out: &mut String, v: &Vec<String>)
    ensures
        final (out)@ == old(out)@ + json::print_string_array(strings_view(v@)),
{
    let ghost items = Seq::new(v@.len(), |i: int| json::print_string(strings_view(v@)[i]));
    push_char(out, '[');
    let n = v.len();
    let mut i: usize = 0;
    while i < n
        invariant
            n == v@.len(),
            i <= n,
            items == Seq::new(v@.len(), |k: int| json::print_string(strings_view(v@)[k])),
            out@ == old(out)@ + seq!['['] + json::join_comma(items.take(i as int)),
        decreases n - i,
    {
        let ghost pre = out@;
        if i > 0 {
            push_char(out, ',');
        }
        write_string(out, v[i].as_str());
        proof {
            json::lemma_join_comma_push(items.take(i as int), items[i as int]);
            assert(items.take(i + 1) =~= items.take(i as int).push(items[i as int]));
            assert(out@ =~= old(out)@ + seq!['['] + json::join_comma(items.take(i + 1)));
        }
        i = i + 1;
    }
    push_char(out, ']');
    proof {
        assert(items.take(n as int) =~= items);
        assert(out@ =~= old(out)@ + json::print_string_array(strings_view(v@)));
    }
}

/// Appends a metadata object token, entries in stored order.
fn write_metadata(out: &mut String, m: &Metadata)
    ensures
        final (out)@ == old(out)@ + json::print_metadata(m@),
{
    let ghost items = Seq::new(
        m@.len(),
        |i: int| json::print_string(m@[i].0) + seq![':'] + json::print_string(m@[i].1),
    );
    push_char(out, '{');
    let n = m.len();
    let mut i: usize = 0;
    while i < n
        invariant
            n == m@.len(),
            i <= n,
            items == Seq::new(
                m@.len(),
                |k: int| json::print_string(m@[k].0) + seq![':'] + json::print_string(m@[k].1),
            ),
            out@ == old(out)@ + seq!['{'] + json::join_comma(items.take(i as int)),
        decreases n - i,
    {
        if i > 0 {
            push_char(out, ',');
        }
        let ghost mid = out@;
        write_string(out, m.key_at(i).as_str());
        push_char(out, ':');
        write_string(out, m.value_at(i).as_str());
        proof {
            assert(out@ =~= mid + items[i as int]);
            json::lemma_join_comma_push(items.take(i as int), items[i as int]);
            assert(items.take(i + 1) =~= items.take(i as int).push(items[i as int]));
            assert(out@ =~= old(out)@ + seq!['{'] + json::join_comma(items.take(i + 1)));
        }
        i = i + 1;
    }
    push_char(out, '}');
    proof {
        assert(items.take(n as int) =~= items);
        assert(out@ =~= old(out)@ + json::print_metadata(m@));
    }
}

/// Appends a plan object token.
#[verifier::rlimit(100)]
fn write_plan(out: &mut String, p: &ServicePlan)
    ensures
        final (out)@ == old(out)@ + json::print_plan(p@),
{
    let ghost o = old(out)@;
    push_char(out, '{');
    let ghost mut acc = seq!['{'];
    proof {
        json::lemma_push_is_concat(o, '{');
        assert(out@ == o + acc);
    }
    write_key(out, "id");
    proof {
        json::lemma_seq_assoc(o, acc, json::print_key("id"@));
        acc = acc + json::print_key("id"@);
        assert(out@ == o + acc);
    }
    write_string(out, p.id());
    proof {
        json::lemma_seq_assoc(o, acc, json::print_string(p@.id));
        acc = acc + json::print_string(p@.id);
        assert(out@ == o + acc);
    }
    push_char(out, ',');
    proof {
        json::lemma_push_is_concat(o + acc, ',');
        json::lemma_seq_assoc(o, acc, seq![',']);
        acc = acc + seq![','];
        assert(out@ == o + acc);
    }
    write_key(out, "name");
    proof {
        json::lemma_seq_assoc(o, acc, json::print_key("name"@));
        acc = acc + json::print_key("name"@);
        assert(out@ == o + acc);
    }
    write_string(out, p.name());
    proof {
        json::lemma_seq_assoc(o, acc, json::print_string(p@.name));
        acc = acc + json::print_string(p@.name);
        assert(out@ == o + acc);
    }
    push_char(out, ',');
    proof {
        json::lemma_push_is_concat(o + acc, ',');
        json::lemma_seq_assoc(o, acc, seq![',']);
        acc = acc + seq![','];
        assert(out@ == o + acc);
    }
    write_key(out, "description");
    proof {
        json::lemma_seq_assoc(o, acc, json::print_key("description"@));
        acc = acc + json::print_key("description"@);
        assert(out@ == o + acc);
    }
    write_string(out, p.description());
    proof {
        json::lemma_seq_assoc(o, acc, json::print_string(p@.description));
        acc = acc + json::print_string(p@.description);
        assert(out@ == o + acc);
    }
    push_char(out, ',');
    proof {
        json::lemma_push_is_concat(o + acc, ',');
        json::lemma_seq_assoc(o, acc, seq![',']);
        acc = acc + seq![','];
        assert(out@ == o + acc);
    }
    write_key(out, "metadata");
    proof {
        json::lemma_seq_assoc(o, acc, json::print_key("metadata"@));
        acc = acc + json::print_key("metadata"@);
        assert(out@ == o + acc);
    }
    write_metadata(out, p.metadata());
    proof {
        json::lemma_seq_assoc(o, acc, json::print_metadata(p@.metadata));
        acc = acc + json::print_metadata(p@.metadata);
        assert(out@ == o + acc);
    }
    write_opt_bool(out, "free", p.free());
    proof {
        json::lemma_seq_assoc(o, acc, json::print_opt_bool("free"@, p@.free));
        acc = acc + json::print_opt_bool("free"@, p@.free);
        assert(out@ == o + acc);
    }
    write_opt_bool(out, "bindable", p.bindable());
    proof {
        json::lemma_seq_assoc(o, acc, json::print_opt_bool("bindable"@, p@.bindable));
        acc = acc + json::print_opt_bool("bindable"@, p@.bindable);
        assert(out@ == o + acc);
    }
    write_opt_bool(out, "plan_updateable", p.plan_updateable());
    proof {
        json::lemma_seq_assoc(o, acc, json::print_opt_bool("plan_updateable"@, p@.plan_updateable));
        acc = acc + json::print_opt_bool("plan_updateable"@, p@.plan_updateable);
        assert(out@ == o + acc);
    }
    let ghost tail = match p@.maximum_polling_duration {
        Option::None => Seq::<char>::empty(),
        Option::Some(n) => seq![','] + json::print_key("maximum_polling_duration"@)
            + json::print_uint(n as int),
    };
    match p.maximum_polling_duration() {
        Some(n) => {
            push_char(out, ',');
            write_key(out, "maximum_polling_duration");
            write_uint(out, n);
            proof {
                assert(out@ =~= (o + acc) + tail);
            }
        },
        None => {
            proof {
                assert(out@ =~= (o + acc) + tail);
            }
        },
    }
    proof {
        json::lemma_seq_assoc(o, acc, tail);
        acc = acc + tail;
        assert(out@ == o + acc);
    }
    push_char(out, '}');
    proof {
        json::lemma_push_is_concat(o + acc, '}');
        json::lemma_seq_assoc(o, acc, seq!['}']);
        acc = acc + seq!['}'];
        assert(out@ == o + acc);
        assert(json::print_plan_opts_from(p@, 3) == tail);
        assert(json::print_plan_opts_from(p@, 2) == json::print_opt_bool(
            "plan_updateable"@,
            p@.plan_updateable,
        ) + json::print_plan_opts_from(p@, 3));
        assert(json::print_plan_opts_from(p@, 1) == json::print_opt_bool("bindable"@, p@.bindable)
            + json::print_plan_opts_from(p@, 2));
        assert(json::print_plan_opts_from(p@, 0) == json::print_opt_bool("free"@, p@.free)
            + json::print_plan_opts_from(p@, 1));
        assert(json::print_plan_opts_from(p@, 0) =~= json::print_opt_bool("free"@, p@.free)
            + json::print_opt_bool("bindable"@, p@.bindable) + json::print_opt_bool(
            "plan_updateable"@,
            p@.plan_updateable,
        ) + tail);
        assert(acc =~= json::print_plan(p@));
        assert(out@ == o + json::print_plan(p@));
    }
}

/// Appends a plan array token.
fn write_plan_array(out: &mut String, v: &Vec<ServicePlan>)
    ensures
        final (out)@ == old(out)@ + json::print_plan_array(crate::model::plans_view(v@)),
{
    let ghost items = Seq::new(
        v@.len(),
        |i: int| json::print_plan(crate::model::plans_view(v@)[i]),
    );
    push_char(out, '[');
    let n = v.len();
    let mut i: usize = 0;
    while i < n
        invariant
            n == v@.len(),
            i <= n,
            items == Seq::new(v@.len(), |k: int| json::print_plan(crate::model::plans_view(v@)[k])),
            out@ == old(out)@ + seq!['['] + json::join_comma(items.take(i as int)),
        decreases n - i,
    {
        if i > 0 {
            push_char(out, ',');
        }
        write_plan(out, &v[i]);
        proof {
            json::lemma_join_comma_push(items.take(i as int), items[i as int]);
            assert(items.take(i + 1) =~= items.take(i as int).push(items[i as int]));
            assert(out@ =~= old(out)@ + seq!['['] + json::join_comma(items.take(i + 1)));
        }
        i = i + 1;
    }
    push_char(out, ']');
    proof {
        assert(items.take(n as int) =~= items);
        assert(out@ =~= old(out)@ + json::print_plan_array(crate::model::plans_view(v@)));
    }
}

/// Appends an optional boolean field: nothing when absent.
fn write_opt_bool(out: &mut String, k: &str, v: Option<bool>)
    ensures
        final (out)@ == old(out)@ + json::print_opt_bool(k@, v),
{
    match v {
        Some(b) => {
            push_char(out, ',');
            write_key(out, k);
            write_bool(out, b);
            proof {
                assert(out@ =~= old(out)@ + json::print_opt_bool(k@, v));
            }
        },
        None => {},
    }
}

/// Appends a service object token.
#[verifier::rlimit(100)]
fn write_service(out: &mut String, s: &Service)
    ensures
        final (out)@ == old(out)@ + json::print_service(s@),
{
    let ghost o = old(out)@;
    push_char(out, '{');
    let ghost mut acc = seq!['{'];
    proof {
        json::lemma_push_is_concat(o, '{');
        assert(out@ == o + acc);
    }
    write_key(out, "id");
    proof {
        json::lemma_seq_assoc(o, acc, json::print_key("id"@));

        acc = acc + json::print_key("id"@);
        assert(out@ == o + acc);
    }
    write_string(out, s.id());
    proof {
        json::lemma_seq_assoc(o, acc, json::print_string(s@.id));

        acc = acc + json::print_string(s@.id);
        assert(out@ == o + acc);
    }
    push_char(out, ',');
    proof {
        json::lemma_push_is_concat(o + acc, ',');
        json::lemma_seq_assoc(o, acc, seq![',']);

        acc = acc + seq![','];
        assert(out@ == o + acc);
    }
    write_key(out, "name");
    proof {
        json::lemma_seq_assoc(o, acc, json::print_key("name"@));

        acc = acc + json::print_key("name"@);
        assert(out@ == o + acc);
    }
    write_string(out, s.name());
    proof {
        json::lemma_seq_assoc(o, acc, json::print_string(s@.name));

        acc = acc + json::print_string(s@.name);
        assert(out@ == o + acc);
    }
    push_char(out, ',');
    proof {
        json::lemma_push_is_concat(o + acc, ',');
        json::lemma_seq_assoc(o, acc, seq![',']);

        acc = acc + seq![','];
        assert(out@ == o + acc);
    }
    write_key(out, "description");
    proof {
        json::lemma_seq_assoc(o, acc, json::print_key("description"@));

        acc = acc + json::print_key("description"@);
        assert(out@ == o + acc);
    }
    write_string(out, s.description());
    proof {
        json::lemma_seq_assoc(o, acc, json::print_string(s@.description));

        acc = acc + json::print_string(s@.description);
        assert(out@ == o + acc);
    }
    push_char(out, ',');
    proof {
        json::lemma_push_is_concat(o + acc, ',');
        json::lemma_seq_assoc(o, acc, seq![',']);

        acc = acc + seq![','];
        assert(out@ == o + acc);
    }
    write_key(out, "tags");
    proof {
        json::lemma_seq_assoc(o, acc, json::print_key("tags"@));

        acc = acc + json::print_key("tags"@);
        assert(out@ == o + acc);
    }
    write_string_array(out, s.tags());
    proof {
        json::lemma_seq_assoc(o, acc, json::print_string_array(s@.tags));

        acc = acc + json::print_string_array(s@.tags);
        assert(out@ == o + acc);
    }
    push_char(out, ',');
    proof {
        json::lemma_push_is_concat(o + acc, ',');
        json::lemma_seq_assoc(o, acc, seq![',']);

        acc = acc + seq![','];
        assert(out@ == o + acc);
    }
    write_key(out, "requires");
    proof {
        json::lemma_seq_assoc(o, acc, json::print_key("requires"@));

        acc = acc + json::print_key("requires"@);
        assert(out@ == o + acc);
    }
    write_string_array(out, s.required_permissions());
    proof {
        json::lemma_seq_assoc(o, acc, json::print_string_array(s@.required_permissions));

        acc = acc + json::print_string_array(s@.required_permissions);
        assert(out@ == o + acc);
    }
    push_char(out, ',');
    proof {
        json::lemma_push_is_concat(o + acc, ',');
        json::lemma_seq_assoc(o, acc, seq![',']);

        acc = acc + seq![','];
        assert(out@ == o + acc);
    }
    write_key(out, "bindable");
    proof {
        json::lemma_seq_assoc(o, acc, json::print_key("bindable"@));

        acc = acc + json::print_key("bindable"@);
        assert(out@ == o + acc);
    }
    write_bool(out, s.bindable());
    proof {
        json::lemma_seq_assoc(o, acc, json::print_bool(s@.bindable));

        acc = acc + json::print_bool(s@.bindable);
        assert(out@ == o + acc);
    }
    let ghost accreq = acc;
    let ghost mut opts = Seq::<char>::empty();
    write_opt_bool(out, "instances_retrievable", s.instances_retrievable());
    proof {
        json::lemma_seq_assoc(o, acc, json::print_opt_bool("instances_retrievable"@, s@.instances_retrievable));
        acc = acc + json::print_opt_bool("instances_retrievable"@, s@.instances_retrievable);
        opts = opts + json::print_opt_bool("instances_retrievable"@, s@.instances_retrievable);
        assert(out@ == o + acc);
    }
    write_opt_bool(out, "bindings_retrievable", s.bindings_retrievable());
    proof {
        json::lemma_seq_assoc(o, acc, json::print_opt_bool("bindings_retrievable"@, s@.bindings_retrievable));
        acc = acc + json::print_opt_bool("bindings_retrievable"@, s@.bindings_retrievable);
        opts = opts + json::print_opt_bool("bindings_retrievable"@, s@.bindings_retrievable);
        assert(out@ == o + acc);
    }
    write_opt_bool(out, "allow_context_updates", s.allow_context_updates());
    proof {
        json::lemma_seq_assoc(o, acc, json::print_opt_bool("allow_context_updates"@, s@.allow_context_updates));
        acc = acc + json::print_opt_bool("allow_context_updates"@, s@.allow_context_updates);
        opts = opts + json::print_opt_bool("allow_context_updates"@, s@.allow_context_updates);
        assert(out@ == o + acc);
    }
    write_opt_bool(out, "plan_updateable", s.plan_updateable());
    proof {
        json::lemma_seq_assoc(o, acc, json::print_opt_bool("plan_updateable"@, s@.plan_updateable));
        acc = acc + json::print_opt_bool("plan_updateable"@, s@.plan_updateable);
        opts = opts + json::print_opt_bool("plan_updateable"@, s@.plan_updateable);
        assert(out@ == o + acc);

        assert(json::print_service_opts_from(s@, 3) == json::print_opt_bool(
            "plan_updateable"@,
            s@.plan_updateable,
        ));
        assert(json::print_service_opts_from(s@, 2) == json::print_opt_bool(
            "allow_context_updates"@,
            s@.allow_context_updates,
        ) + json::print_service_opts_from(s@, 3));
        assert(json::print_service_opts_from(s@, 1) == json::print_opt_bool(
            "bindings_retrievable"@,
            s@.bindings_retrievable,
        ) + json::print_service_opts_from(s@, 2));
        assert(json::print_service_opts_from(s@, 0) == json::print_opt_bool(
            "instances_retrievable"@,
            s@.instances_retrievable,
        ) + json::print_service_opts_from(s@, 1));
        assert(opts =~= json::print_service_opts_from(s@, 0));
        assert(acc =~= accreq + json::print_service_opts_from(s@, 0));
        acc = accreq + json::print_service_opts_from(s@, 0);
        assert(out@ == o + acc);
    }
    push_char(out, ',');
    proof {
        json::lemma_push_is_concat(o + acc, ',');
        json::lemma_seq_assoc(o, acc, seq![',']);

        acc = acc + seq![','];
        assert(out@ == o + acc);
    }
    write_key(out, "metadata");
    proof {
        json::lemma_seq_assoc(o, acc, json::print_key("metadata"@));

        acc = acc + json::print_key("metadata"@);
        assert(out@ == o + acc);
    }
    write_metadata(out, s.metadata());
    proof {
        json::lemma_seq_assoc(o, acc, json::print_metadata(s@.metadata));

        acc = acc + json::print_metadata(s@.metadata);
        assert(out@ == o + acc);
    }
    push_char(out, ',');
    proof {
        json::lemma_push_is_concat(o + acc, ',');
        json::lemma_seq_assoc(o, acc, seq![',']);

        acc = acc + seq![','];
        assert(out@ == o + acc);
    }
    write_key(out, "plans");
    proof {
        json::lemma_seq_assoc(o, acc, json::print_key("plans"@));

        acc = acc + json::print_key("plans"@);
        assert(out@ == o + acc);
    }
    write_plan_array(out, s.plans());
    proof {
        json::lemma_seq_assoc(o, acc, json::print_plan_array(s@.plans));

        acc = acc + json::print_plan_array(s@.plans);
        assert(out@ == o + acc);
    }
    push_char(out, '}');
    proof {
        json::lemma_push_is_concat(o + acc, '}');
        json::lemma_seq_assoc(o, acc, seq!['}']);

        acc = acc + seq!['}'];
        assert(out@ == o + acc);

        reveal(json::print_service);
        assert(acc == json::print_service(s@));
    }
}

/// The canonical JSON document of a catalog: fields in canonical order,
/// optional attributes omitted when absent, no whitespace.
#[verifier::rlimit(60)]
pub fn to_json(c: &Catalog) -> (r: String)
    ensures
        r@ == json::print_catalog(c@),
{
    let ghost items = Seq::new(c@.services.len(), |i: int| json::print_service(c@.services[i]));
    let mut out = String::new();
    push_char(&mut out, '{');
    write_key(&mut out, "services");
    push_char(&mut out, '[');
    let svcs = c.services();
    let n = svcs.len();
    let ghost head = seq!['{'] + json::print_key("services"@) + seq!['['];
    proof {
        assert(out@ =~= head + json::join_comma(items.take(0)));
    }
    let mut i: usize = 0;
    while i < n
        invariant
            n == c@.services.len(),
            i <= n,
            crate::model::services_view(svcs@) == c@.services,
            items == Seq::new(c@.services.len(), |k: int| json::print_service(c@.services[k])),
            head == seq!['{'] + json::print_key("services"@) + seq!['['],
            out@ == head + json::join_comma(items.take(i as int)),
        decreases n - i,
    {
        if i > 0 {
            push_char(&mut out, ',');
        }
        write_service(&mut out, &svcs[i]);
        proof {
            json::lemma_join_comma_push(items.take(i as int), items[i as int]);
            assert(items.take(i + 1) =~= items.take(i as int).push(items[i as int]));
            assert(out@ =~= head + json::join_comma(items.take(i + 1)));
        }
        i = i + 1;
    }
    push_char(&mut out, ']');
    push_char(&mut out, '}');
    proof {
        assert(items.take(n as int) =~= items);
        assert(out@ =~= json::print_catalog(c@));
    }
    out
}

// ---------------------------------------------------------------------------
// Reading
// ---------------------------------------------------------------------------
/// The characters of a string slice, in order.
fn str_chars(s: &str) -> (v: Vec<char>)
    ensures
        v@ == s@,
{
    let n = s.unicode_len();
    let mut v: Vec<char> = Vec::new();
    let mut i: usize = 0;
    while i < n
        invariant
            n == s@.len(),
            i <= n,
            v@ == s@.take(i as int),
        decreases n - i,
    {
        v.push(s.get_char(i));
        proof {
            assert(s@.take(i + 1) =~= s@.take(i as int).push(s@[i as int]));
        }
        i = i + 1;
    }
    proof {
        assert(s@.take(n as int) =~= s@);
    }
    v
}

/// A string holding exactly the given characters.
fn chars_to_string(v: &Vec<char>) -> (r: String)
    ensures
        r@ == v@,
{
    let mut r = String::new();
    let mut i: usize = 0;
    let n = v.len();
    while i < n
        invariant
            n == v@.len(),
            i <= n,
            r@ == v@.take(i as int),
        decreases n - i,
    {
        push_char(&mut r, v[i]);
        proof {
            assert(v@.take(i + 1) =~= v@.take(i as int).push(v@[i as int]));
        }
        i = i + 1;
    }
    proof {
        assert(v@.take(n as int) =~= v@);
    }
    r
}

/// Character-wise equality of two string slices.
fn str_eq_str(a: &str, b: &str) -> (r: bool)
    ensures
        r == (a@ == b@),
{
    let na = a.unicode_len();
    let nb = b.unicode_len();
    if na != nb {
        return false;
    }
    let mut i: usize = 0;
    while i < na
        invariant
            na == a@.len(),
            na == b@.len(),
            i <= na,
            forall|k: int| 0 <= k < i ==> a@[k] == b@[k],
        decreases na - i,
    {
        if a.get_char(i) != b.get_char(i) {
            return false;
        }
        i = i + 1;
    }
    proof {
        assert(a@ =~= b@);
    }
    true
}

/// Position after the whitespace run starting at `i`.
fn skip_ws(cs: &Vec<char>, i: usize) -> (j: usize)
    requires
        i <= cs@.len(),
    ensures
        j as int == json::scan_ws(cs@, i as int),
        i <= j <= cs@.len(),
{
    let mut k: usize = i;
    while k < cs.len() && (cs[k] == ' ' || cs[k] == '\t' || cs[k] == '\n' || cs[k] == '\r')
        invariant
            i <= k <= cs@.len(),
            json::scan_ws(cs@, i as int) == json::scan_ws(cs@, k as int),
        decreases cs@.len() - k,
    {
        k = k + 1;
    }
    k
}

/// Consumes whitespace, then the single character `c`.
fn read_sym(cs: &Vec<char>, i: usize, c: char) -> (r: Option<usize>)
    requires
        i <= cs@.len(),
    ensures
        match r {
            Some(j) => json::scan_sym(cs@, i as int, c) == Some(j as int) && i < j <= cs@.len(),
            None => json::scan_sym(cs@, i as int, c) is None,
        },
{
    let j = skip_ws(cs, i);
    if j < cs.len() && cs[j] == c {
        Some(j + 1)
    } else {
        None
    }
}

/// Value of a hexadecimal digit character, if it is one.
fn hex_val_of(c: char) -> (r: Option<u32>)
    ensures
        match r {
            Some(d) => json::is_hex(c) && d as int == json::hex_val(c) && d < 16,
            None => !json::is_hex(c),
        },
{
    let u = c as u32;
    if 48 <= u && u <= 57 {
        Some(u - 48)
    } else if 97 <= u && u <= 102 {
        Some(u - 97 + 10)
    } else if 65 <= u && u <= 70 {
        Some(u - 65 + 10)
    } else {
        None
    }
}

/// String contents from just after the opening quote through the closing
/// quote.
fn read_string_body(cs: &Vec<char>, i: usize) -> (r: Option<(Vec<char>, usize)>)
    requires
        i <= cs@.len(),
    ensures
        match r {
            Some((v, j)) => json::scan_string_body(cs@, i as int) == Some((v@, j as int)) && i < j
                <= cs@.len(),
            None => json::scan_string_body(cs@, i as int) is None,
        },
    decreases cs@.len() - i,
{
    if i == cs.len() {
        return None;
    }
    let c = cs[i];
    if c == '"' {
        let v: Vec<char> = Vec::new();
        proof {
            assert(v@ =~= Seq::<char>::empty());
        }
        return Some((v, i + 1));
    }
    if c == '\\' {
        if cs.len() - i < 2 {
            return None;
        }
        let e = cs[i + 1];
        if e == 'u' {
            if cs.len() - i < 6 {
                return None;
            }
            let h1 = match hex_val_of(cs[i + 2]) {
                Some(d) => d,
                None => {
                    return None;
                },
            };
            let h2 = match hex_val_of(cs[i + 3]) {
                Some(d) => d,
                None => {
                    return None;
                },
            };
            let h3 = match hex_val_of(cs[i + 4]) {
                Some(d) => d,
                None => {
                    return None;
                },
            };
            let h4 = match hex_val_of(cs[i + 5]) {
                Some(d) => d,
                None => {
                    return None;
                },
            };
            let code: u32 = h1 * 4096 + h2 * 256 + h3 * 16 + h4;
            if 0xD800 <= code && code < 0xE000 {
                return None;
            }
            let ch = match char_from_u32(code) {
                Some(ch) => ch,
                None => {
                    proof {
                        assert(false);
                    }
                    return None;
                },
            };
            proof {
                vstd::utf8::char_u32_cast(ch, code);
            }
            match read_string_body(cs, i + 6) {
                None => None,
                Some((rest, j)) => {
                    let ghost restv = rest@;
                    let mut v = rest;
                    v.insert(0, ch);
                    proof {
                        assert(v@ =~= seq![ch] + restv);
                    }
                    Some((v, j))
                },
            }
        } else {
            let ch = if e == '"' {
                '"'
            } else if e == '\\' {
                '\\'
            } else if e == '/' {
                '/'
            } else if e == 'b' {
                '\u{0008}'
            } else if e == 'f' {
                '\u{000c}'
            } else if e == 'n' {
                '\n'
            } else if e == 'r' {
                '\r'
            } else if e == 't' {
                '\t'
            } else {
                return None;
            };
            match read_string_body(cs, i + 2) {
                None => None,
                Some((rest, j)) => {
                    let ghost restv = rest@;
                    let mut v = rest;
                    v.insert(0, ch);
                    proof {
                        assert(v@ =~= seq![ch] + restv);
                    }
                    Some((v, j))
                },
            }
        }
    } else if (c as u32) < 32 {
        None
    } else {
        match read_string_body(cs, i + 1) {
            None => None,
            Some((rest, j)) => {
                let ghost restv = rest@;
                let mut v = rest;
                v.insert(0, c);
                proof {
                    assert(v@ =~= seq![c] + restv);
                }
                Some((v, j))
            },
        }
    }
}

/// A string token, leading whitespace allowed.
fn read_string(cs: &Vec<char>, i: usize) -> (r: Option<(String, usize)>)
    requires
        i <= cs@.len(),
    ensures
        match r {
            Some((v, j)) => json::scan_string(cs@, i as int) == Some((v@, j as int)) && i < j
                <= cs@.len(),
            None => json::scan_string(cs@, i as int) is None,
        },
{
    let j = skip_ws(cs, i);
    if j < cs.len() && cs[j] == '"' {
        match read_string_body(cs, j + 1) {
            None => None,
            Some((v, k)) => Some((chars_to_string(&v), k)),
        }
    } else {
        None
    }
}

/// True for a decimal digit character.
fn is_digit_char(c: char) -> (b: bool)
    ensures
        b == json::is_digit(c),
{
    let u = c as u32;
    48 <= u && u <= 57
}

/// An unsigned integer token, leading whitespace allowed.
fn read_uint(cs: &Vec<char>, i: usize) -> (r: Option<(u64, usize)>)
    requires
        i <= cs@.len(),
    ensures
        match r {
            Some((n, j)) => json::scan_uint(cs@, i as int) == Some((n, j as int)) && i < j
                <= cs@.len(),
            None => json::scan_uint(cs@, i as int) is None,
        },
{
    let j = skip_ws(cs, i);
    let mut k: usize = j;
    let mut acc: u64 = 0;
    let mut big: bool = false;
    while k < cs.len() && is_digit_char(cs[k])
        invariant
            j <= k <= cs@.len(),
            json::digits_end(cs@, j as int) == json::digits_end(cs@, k as int),
            forall|t: int| j <= t < k ==> json::is_digit(cs@[t]),
            !big ==> acc as int == json::digits_val(cs@, j as int, k as int),
            big ==> json::digits_val(cs@, j as int, k as int) > u64::MAX,
        decreases cs@.len() - k,
    {
        let d: u64 = (cs[k] as u32 - 48) as u64;
        proof {
            assert(json::is_digit(cs@[k as int]));
            assert(d as int == json::digit_val(cs@[k as int]));
            assert(json::digits_val(cs@, j as int, k + 1) == json::digits_val(
                cs@,
                j as int,
                k as int,
            ) * 10 + json::digit_val(cs@[k as int]));
            json::lemma_digits_val_nonneg(cs@, j as int, k as int);
        }
        if big {
        } else if acc > u64::MAX / 10 || (acc == u64::MAX / 10 && d > u64::MAX % 10) {
            big = true;
        } else {
            acc = acc * 10 + d;
        }
        k = k + 1;
    }
    proof {
        assert(json::digits_end(cs@, k as int) == k as int);
    }
    if k == j {
        return None;
    }
    if cs[j] == '0' && k > j + 1 {
        return None;
    }
    if big {
        return None;
    }
    Some((acc, k))
}

/// A boolean token, leading whitespace allowed.
fn read_bool(cs: &Vec<char>, i: usize) -> (r: Option<(bool, usize)>)
    requires
        i <= cs@.len(),
    ensures
        match r {
            Some((b, j)) => json::scan_bool(cs@, i as int) == Some((b, j as int)) && i < j
                <= cs@.len(),
            None => json::scan_bool(cs@, i as int) is None,
        },
{
    let j = skip_ws(cs, i);
    if cs.len() - j >= 4 && cs[j] == 't' && cs[j + 1] == 'r' && cs[j + 2] == 'u' && cs[j + 3]
        == 'e' {
        proof {
            assert(cs@.subrange(j as int, j + 4) =~= json::print_bool(true));
        }
        return Some((true, j + 4));
    }
    if cs.len() - j >= 5 && cs[j] == 'f' && cs[j + 1] == 'a' && cs[j + 2] == 'l' && cs[j + 3] == 's'
        && cs[j + 4] == 'e' {
        proof {
            assert(cs@.subrange(j as int, j + 5) =~= json::print_bool(false));
        }
        return Some((false, j + 5));
    }
    proof {
        if json::at_lit(cs@, j as int, json::print_bool(true)) {
            json::lemma_at_lit_char(cs@, j as int, json::print_bool(true), 0);
            json::lemma_at_lit_char(cs@, j as int, json::print_bool(true), 1);
            json::lemma_at_lit_char(cs@, j as int, json::print_bool(true), 2);
            json::lemma_at_lit_char(cs@, j as int, json::print_bool(true), 3);
            assert(false);
        }
        if json::at_lit(cs@, j as int, json::print_bool(false)) {
            json::lemma_at_lit_char(cs@, j as int, json::print_bool(false), 0);
            json::lemma_at_lit_char(cs@, j as int, json::print_bool(false), 1);
            json::lemma_at_lit_char(cs@, j as int, json::print_bool(false), 2);
            json::lemma_at_lit_char(cs@, j as int, json::print_bool(false), 3);
            json::lemma_at_lit_char(cs@, j as int, json::print_bool(false), 4);
            assert(false);
        }
    }
    None
}

/// An optional boolean value: `null` leaves the attribute absent.
fn read_opt_bool(cs: &Vec<char>, i: usize) -> (r: Option<(Option<bool>, usize)>)
    requires
        i <= cs@.len(),
    ensures
        match r {
            Some((b, j)) => json::scan_opt_bool(cs@, i as int) == Some((b, j as int)) && i < j
                <= cs@.len(),
            None => json::scan_opt_bool(cs@, i as int) is None,
        },
{
    let j = skip_ws(cs, i);
    if cs.len() - j >= 4 && cs[j] == 'n' && cs[j + 1] == 'u' && cs[j + 2] == 'l' && cs[j + 3]
        == 'l' {
        proof {
            assert(cs@.subrange(j as int, j + 4) =~= seq!['n', 'u', 'l', 'l']);
        }
        Some((None, j + 4))
    } else {
        proof {
            if json::at_lit(cs@, j as int, seq!['n', 'u', 'l', 'l']) {
                json::lemma_at_lit_char(cs@, j as int, seq!['n', 'u', 'l', 'l'], 0);
                json::lemma_at_lit_char(cs@, j as int, seq!['n', 'u', 'l', 'l'], 1);
                json::lemma_at_lit_char(cs@, j as int, seq!['n', 'u', 'l', 'l'], 2);
                json::lemma_at_lit_char(cs@, j as int, seq!['n', 'u', 'l', 'l'], 3);
                assert(false);
            }
        }
        match read_bool(cs, i) {
            None => None,
            Some((b, m)) => Some((Some(b), m)),
        }
    }
}

/// An optional unsigned integer value: `null` leaves the attribute absent.
fn read_opt_uint(cs: &Vec<char>, i: usize) -> (r: Option<(Option<u64>, usize)>)
    requires
        i <= cs@.len(),
    ensures
        match r {
            Some((n, j)) => json::scan_opt_uint(cs@, i as int) == Some((n, j as int)) && i < j
                <= cs@.len(),
            None => json::scan_opt_uint(cs@, i as int) is None,
        },
{
    let j = skip_ws(cs, i);
    if cs.len() - j >= 4 && cs[j] == 'n' && cs[j + 1] == 'u' && cs[j + 2] == 'l' && cs[j + 3]
        == 'l' {
        proof {
            assert(cs@.subrange(j as int, j + 4) =~= seq!['n', 'u', 'l', 'l']);
        }
        Some((None, j + 4))
    } else {
        proof {
            if json::at_lit(cs@, j as int, seq!['n', 'u', 'l', 'l']) {
                json::lemma_at_lit_char(cs@, j as int, seq!['n', 'u', 'l', 'l'], 0);
                json::lemma_at_lit_char(cs@, j as int, seq!['n', 'u', 'l', 'l'], 1);
                json::lemma_at_lit_char(cs@, j as int, seq!['n', 'u', 'l', 'l'], 2);
                json::lemma_at_lit_char(cs@, j as int, seq!['n', 'u', 'l', 'l'], 3);
                assert(false);
            }
        }
        match read_uint(cs, i) {
            None => None,
            Some((n, m)) => Some((Some(n), m)),
        }
    }
}

/// End of the digit run starting at `i`.
fn digits_run(cs: &Vec<char>, i: usize) -> (j: usize)
    requires
        i <= cs@.len(),
    ensures
        j as int == json::digits_end(cs@, i as int),
        i <= j <= cs@.len(),
{
    let mut k: usize = i;
    while k < cs.len() && is_digit_char(cs[k])
        invariant
            i <= k <= cs@.len(),
            json::digits_end(cs@, i as int) == json::digits_end(cs@, k as int),
        decreases cs@.len() - k,
    {
        k = k + 1;
    }
    k
}

/// Position after one JSON number.
fn read_number_skip(cs: &Vec<char>, i: usize) -> (r: Option<usize>)
    requires
        i <= cs@.len(),
    ensures
        match r {
            Some(j) => json::scan_number_skip(cs@, i as int) == Some(j as int) && i < j
                <= cs@.len(),
            None => json::scan_number_skip(cs@, i as int) is None,
        },
{
    let j = if i < cs.len() && cs[i] == '-' {
        i + 1
    } else {
        i
    };
    let k = digits_run(cs, j);
    if k == j {
        return None;
    }
    if cs[j] == '0' && k > j + 1 {
        return None;
    }
    let k2 = if k < cs.len() && cs[k] == '.' {
        let f = digits_run(cs, k + 1);
        if f == k + 1 {
            return None;
        }
        f
    } else {
        k
    };
    proof {
        assert(k2 as int == json::scan_frac_end(cs@, k as int));
    }
    let k3 = if k2 < cs.len() && (cs[k2] == 'e' || cs[k2] == 'E') {
        let e0 = if k2 + 1 < cs.len() && (cs[k2 + 1] == '+' || cs[k2 + 1] == '-') {
            k2 + 2
        } else {
            k2 + 1
        };
        let g = digits_run(cs, e0);
        if g == e0 {
            return None;
        }
        g
    } else {
        k2
    };
    proof {
        assert(k3 as int == json::scan_exp_end(cs@, k2 as int));
    }
    Some(k3)
}

/// Position after one JSON value of any shape, which is not kept.
fn read_value(cs: &Vec<char>, i: usize) -> (r: Option<usize>)
    requires
        i <= cs@.len(),
    ensures
        match r {
            Some(j) => json::scan_value(cs@, i as int) == Some(j as int) && i < j <= cs@.len(),
            None => json::scan_value(cs@, i as int) is None,
        },
    decreases cs@.len() - i, 0int,
{
    let j = skip_ws(cs, i);
    if j >= cs.len() {
        return None;
    }
    let c = cs[j];
    if c == '"' {
        match read_string_body(cs, j + 1) {
            None => None,
            Some((v, k)) => Some(k),
        }
    } else if c == 't' || c == 'f' {
        match read_bool(cs, j) {
            None => None,
            Some((b, k)) => Some(k),
        }
    } else if c == 'n' {
        if cs.len() - j >= 4 && cs[j + 1] == 'u' && cs[j + 2] == 'l' && cs[j + 3] == 'l' {
            proof {
                assert(cs@.subrange(j as int, j + 4) =~= seq!['n', 'u', 'l', 'l']);
            }
            Some(j + 4)
        } else {
            proof {
                if json::at_lit(cs@, j as int, seq!['n', 'u', 'l', 'l']) {
                    json::lemma_at_lit_char(cs@, j as int, seq!['n', 'u', 'l', 'l'], 1);
                    json::lemma_at_lit_char(cs@, j as int, seq!['n', 'u', 'l', 'l'], 2);
                    json::lemma_at_lit_char(cs@, j as int, seq!['n', 'u', 'l', 'l'], 3);
                    assert(false);
                }
            }
            None
        }
    } else if c == '[' {
        let k = skip_ws(cs, j + 1);
        if k < cs.len() && cs[k] == ']' {
            Some(k + 1)
        } else {
            read_value_items(cs, j + 1)
        }
    } else if c == '{' {
        let k = skip_ws(cs, j + 1);
        if k < cs.len() && cs[k] == '}' {
            Some(k + 1)
        } else {
            read_member_items(cs, j + 1)
        }
    } else if c == '-' || is_digit_char(c) {
        read_number_skip(cs, j)
    } else {
        None
    }
}

/// One or more array elements followed by the closing bracket, skipped.
fn read_value_items(cs: &Vec<char>, i: usize) -> (r: Option<usize>)
    requires
        i <= cs@.len(),
    ensures
        match r {
            Some(j) => json::scan_value_items(cs@, i as int) == Some(j as int) && i < j
                <= cs@.len(),
            None => json::scan_value_items(cs@, i as int) is None,
        },
    decreases cs@.len() - i, 1int,
{
    match read_value(cs, i) {
        None => None,
        Some(j) => {
            let k = skip_ws(cs, j);
            if k < cs.len() && cs[k] == ',' {
                read_value_items(cs, k + 1)
            } else if k < cs.len() && cs[k] == ']' {
                Some(k + 1)
            } else {
                None
            }
        },
    }
}

/// One or more object members followed by the closing brace, skipped.
fn read_member_items(cs: &Vec<char>, i: usize) -> (r: Option<usize>)
    requires
        i <= cs@.len(),
    ensures
        match r {
            Some(j) => json::scan_member_items(cs@, i as int) == Some(j as int) && i < j
                <= cs@.len(),
            None => json::scan_member_items(cs@, i as int) is None,
        },
    decreases cs@.len() - i, 1int,
{
    match read_string(cs, i) {
        None => None,
        Some((key, j)) => match read_sym(cs, j, ':') {
            None => None,
            Some(j2) => match read_value(cs, j2) {
                None => None,
                Some(m) => {
                    let t = skip_ws(cs, m);
                    if t < cs.len() && cs[t] == ',' {
                        read_member_items(cs, t + 1)
                    } else if t < cs.len() && cs[t] == '}' {
                        Some(t + 1)
                    } else {
                        None
                    }
                },
            },
        },
    }
}

/// One or more string elements followed by the closing bracket.
fn read_string_items(cs: &Vec<char>, i: usize) -> (r: Option<(Vec<String>, usize)>)
    requires
        i <= cs@.len(),
    ensures
        match r {
            Some((v, j)) => json::scan_string_items(cs@, i as int) == Some(
                (strings_view(v@), j as int),
            ) && i < j <= cs@.len(),
            None => json::scan_string_items(cs@, i as int) is None,
        },
    decreases cs@.len() - i,
{
    match read_string(cs, i) {
        None => None,
        Some((s0, j)) => {
            let ghost s0v = s0@;
            let k = skip_ws(cs, j);
            if k < cs.len() && cs[k] == ',' {
                match read_string_items(cs, k + 1) {
                    None => None,
                    Some((rest, m)) => {
                        let ghost restv = rest@;
                        let mut v = rest;
                        v.insert(0, s0);
                        proof {
                            assert(strings_view(v@) =~= seq![s0v] + strings_view(restv));
                        }
                        Some((v, m))
                    },
                }
            } else if k < cs.len() && cs[k] == ']' {
                let mut v: Vec<String> = Vec::new();
                v.push(s0);
                proof {
                    assert(strings_view(v@) =~= seq![s0v]);
                }
                Some((v, k + 1))
            } else {
                None
            }
        },
    }
}

/// A string array token.
fn read_string_array(cs: &Vec<char>, i: usize) -> (r: Option<(Vec<String>, usize)>)
    requires
        i <= cs@.len(),
    ensures
        match r {
            Some((v, j)) => json::scan_string_array(cs@, i as int) == Some(
                (strings_view(v@), j as int),
            ) && i < j <= cs@.len(),
            None => json::scan_string_array(cs@, i as int) is None,
        },
{
    match read_sym(cs, i, '[') {
        None => None,
        Some(j) => {
            let k = skip_ws(cs, j);
            if k < cs.len() && cs[k] == ']' {
                let v: Vec<String> = Vec::new();
                proof {
                    assert(strings_view(v@) =~= Seq::<Seq<char>>::empty());
                }
                Some((v, k + 1))
            } else {
                read_string_items(cs, j)
            }
        },
    }
}

/// Views of a sequence of entry pairs.
pub(crate) open spec fn pairs_view(v: Seq<(String, String)>) -> Seq<(Seq<char>, Seq<char>)> {
    Seq::new(v.len(), |i: int| (v[i].0@, v[i].1@))
}

/// One or more metadata entries followed by the closing brace, verbatim.
fn read_entry_items(cs: &Vec<char>, i: usize) -> (r: Option<(Vec<(String, String)>, usize)>)
    requires
        i <= cs@.len(),
    ensures
        match r {
            Some((ps, j)) => json::scan_entry_items(cs@, i as int) == Some(
                (pairs_view(ps@), j as int),
            ) && i < j <= cs@.len(),
            None => json::scan_entry_items(cs@, i as int) is None,
        },
    decreases cs@.len() - i,
{
    match read_string(cs, i) {
        None => None,
        Some((key, j)) => match read_sym(cs, j, ':') {
            None => None,
            Some(j2) => match read_string(cs, j2) {
                None => None,
                Some((val, j3)) => {
                    let ghost kv = key@;
                    let ghost vv = val@;
                    let k = skip_ws(cs, j3);
                    if k < cs.len() && cs[k] == ',' {
                        match read_entry_items(cs, k + 1) {
                            None => None,
                            Some((rest, m)) => {
                                let ghost restv = rest@;
                                let mut ps = rest;
                                ps.insert(0, (key, val));
                                proof {
                                    assert(pairs_view(ps@) =~= seq![(kv, vv)] + pairs_view(restv));
                                }
                                Some((ps, m))
                            },
                        }
                    } else if k < cs.len() && cs[k] == '}' {
                        let mut ps: Vec<(String, String)> = Vec::new();
                        ps.push((key, val));
                        proof {
                            assert(pairs_view(ps@) =~= seq![(kv, vv)]);
                        }
                        Some((ps, k + 1))
                    } else {
                        None
                    }
                },
            },
        },
    }
}

/// A metadata object token: entries inserted in order, so a later value of
/// a repeated key replaces the earlier one.
fn read_metadata(cs: &Vec<char>, i: usize) -> (r: Option<(Metadata, usize)>)
    requires
        i <= cs@.len(),
    ensures
        match r {
            Some((md, j)) => json::scan_metadata(cs@, i as int) == Some((md@, j as int)) && i < j
                <= cs@.len(),
            None => json::scan_metadata(cs@, i as int) is None,
        },
{
    match read_sym(cs, i, '{') {
        None => None,
        Some(j) => {
            let k = skip_ws(cs, j);
            if k < cs.len() && cs[k] == '}' {
                let md = Metadata::new();
                Some((md, k + 1))
            } else {
                match read_entry_items(cs, j) {
                    None => None,
                    Some((ps, m)) => {
                        let ghost psv = pairs_view(ps@);
                        let mut md = Metadata::new();
                        let n = ps.len();
                        let mut t: usize = 0;
                        proof {
                            assert(psv.take(0) =~= Seq::<(Seq<char>, Seq<char>)>::empty());
                        }
                        while t < n
                            invariant
                                n == ps@.len(),
                                t <= n,
                                psv == pairs_view(ps@),
                                md@ == json::metadata_from_pairs(psv.take(t as int)),
                            decreases n - t,
                        {
                            md.insert(ps[t].0.clone(), ps[t].1.clone());
                            proof {
                                assert(psv.take(t + 1).drop_last() =~= psv.take(t as int));
                                assert(psv.take(t + 1).last() == psv[t as int]);
                            }
                            t = t + 1;
                        }
                        proof {
                            assert(psv.take(n as int) =~= psv);
                        }
                        Some((md, m))
                    },
                }
            }
        },
    }
}

/// A plan object being gathered: each field, once its key has been read.
struct PlanDraft {
    id: Option<String>,
    name: Option<String>,
    description: Option<String>,
    metadata: Option<Metadata>,
    free: Option<bool>,
    bindable: Option<bool>,
    plan_updateable: Option<bool>,
    maximum_polling_duration: Option<u64>,
}

impl View for PlanDraft {
    type V = json::PlanAcc;

    closed spec fn view(&self) -> json::PlanAcc {
        json::PlanAcc {
            id: match self.id {
                Some(x) => Some(x@),
                None => None,
            },
            name: match self.name {
                Some(x) => Some(x@),
                None => None,
            },
            description: match self.description {
                Some(x) => Some(x@),
                None => None,
            },
            metadata: match self.metadata {
                Some(x) => Some(x@),
                None => None,
            },
            free: self.free,
            bindable: self.bindable,
            plan_updateable: self.plan_updateable,
            maximum_polling_duration: self.maximum_polling_duration,
        }
    }
}

/// The fields of a plan object from a key position on.
fn read_plan_fields(cs: &Vec<char>, i: usize, d: PlanDraft) -> (r: Option<(ServicePlan, usize)>)
    requires
        i <= cs@.len(),
    ensures
        match r {
            Some((p, j)) => json::scan_plan_fields(cs@, i as int, d@) == Some((p@, j as int)) && i
                < j <= cs@.len(),
            None => json::scan_plan_fields(cs@, i as int, d@) is None,
        },
    decreases cs@.len() - i, 0int,
{
    match read_string(cs, i) {
        None => None,
        Some((key, j)) => match read_sym(cs, j, ':') {
            None => None,
            Some(k) => {
                if str_eq_str(key.as_str(), "id") {
                    if d.id.is_some() {
                        None
                    } else {
                        match read_string(cs, k) {
                            None => None,
                            Some((v, m)) => {
                                let mut d2 = d;
                                d2.id = Some(v);
                                read_plan_more(cs, m, d2)
                            },
                        }
                    }
                } else if str_eq_str(key.as_str(), "name") {
                    if d.name.is_some() {
                        None
                    } else {
                        match read_string(cs, k) {
                            None => None,
                            Some((v, m)) => {
                                let mut d2 = d;
                                d2.name = Some(v);
                                read_plan_more(cs, m, d2)
                            },
                        }
                    }
                } else if str_eq_str(key.as_str(), "description") {
                    if d.description.is_some() {
                        None
                    } else {
                        match read_string(cs, k) {
                            None => None,
                            Some((v, m)) => {
                                let mut d2 = d;
                                d2.description = Some(v);
                                read_plan_more(cs, m, d2)
                            },
                        }
                    }
                } else if str_eq_str(key.as_str(), "metadata") {
                    if d.metadata.is_some() {
                        None
                    } else {
                        match read_metadata(cs, k) {
                            None => None,
                            Some((v, m)) => {
                                let mut d2 = d;
                                d2.metadata = Some(v);
                                read_plan_more(cs, m, d2)
                            },
                        }
                    }
                } else if str_eq_str(key.as_str(), "free") {
                    if d.free.is_some() {
                        None
                    } else {
                        match read_opt_bool(cs, k) {
                            None => None,
                            Some((b, m)) => {
                                let mut d2 = d;
                                d2.free = b;
                                read_plan_more(cs, m, d2)
                            },
                        }
                    }
                } else if str_eq_str(key.as_str(), "bindable") {
                    if d.bindable.is_some() {
                        None
                    } else {
                        match read_opt_bool(cs, k) {
                            None => None,
                            Some((b, m)) => {
                                let mut d2 = d;
                                d2.bindable = b;
                                read_plan_more(cs, m, d2)
                            },
                        }
                    }
                } else if str_eq_str(key.as_str(), "plan_updateable") {
                    if d.plan_updateable.is_some() {
                        None
                    } else {
                        match read_opt_bool(cs, k) {
                            None => None,
                            Some((b, m)) => {
                                let mut d2 = d;
                                d2.plan_updateable = b;
                                read_plan_more(cs, m, d2)
                            },
                        }
                    }
                } else if str_eq_str(key.as_str(), "maximum_polling_duration") {
                    if d.maximum_polling_duration.is_some() {
                        None
                    } else {
                        match read_opt_uint(cs, k) {
                            None => None,
                            Some((n, m)) => {
                                let mut d2 = d;
                                d2.maximum_polling_duration = n;
                                read_plan_more(cs, m, d2)
                            },
                        }
                    }
                } else {
                    match read_value(cs, k) {
                        None => None,
                        Some(m) => read_plan_more(cs, m, d),
                    }
                }
            },
        },
    }
}

/// After one field of a plan object.
fn read_plan_more(cs: &Vec<char>, i: usize, d: PlanDraft) -> (r: Option<(ServicePlan, usize)>)
    requires
        i <= cs@.len(),
    ensures
        match r {
            Some((p, j)) => json::scan_plan_more(cs@, i as int, d@) == Some((p@, j as int)) && i < j
                <= cs@.len(),
            None => json::scan_plan_more(cs@, i as int, d@) is None,
        },
    decreases cs@.len() - i, 1int,
{
    let ghost dv = d@;
    let t = skip_ws(cs, i);
    if t < cs.len() && cs[t] == ',' {
        read_plan_fields(cs, t + 1, d)
    } else if t < cs.len() && cs[t] == '}' {
        match d {
            PlanDraft {
                id: Some(id),
                name: Some(name),
                description: Some(description),
                metadata: Some(metadata),
                free,
                bindable,
                plan_updateable,
                maximum_polling_duration,
            } => {
                let mut p = ServicePlan::new();
                *p.id_mut() = id;
                *p.name_mut() = name;
                *p.description_mut() = description;
                *p.metadata_mut() = metadata;
                *p.free_mut() = free;
                *p.bindable_mut() = bindable;
                *p.plan_updateable_mut() = plan_updateable;
                *p.maximum_polling_duration_mut() = maximum_polling_duration;
                proof {
                    assert(json::plan_acc_done(dv) == Some(p@));
                }
                Some((p, t + 1))
            },
            _ => {
                proof {
                    assert(json::plan_acc_done(dv) is None);
                }
                None
            },
        }
    } else {
        None
    }
}

/// A plan object token.
fn read_plan(cs: &Vec<char>, i: usize) -> (r: Option<(ServicePlan, usize)>)
    requires
        i <= cs@.len(),
    ensures
        match r {
            Some((p, j)) => json::scan_plan(cs@, i as int) == Some((p@, j as int)) && i < j
                <= cs@.len(),
            None => json::scan_plan(cs@, i as int) is None,
        },
{
    match read_sym(cs, i, '{') {
        None => None,
        Some(j) => {
            let d = PlanDraft {
                id: None,
                name: None,
                description: None,
                metadata: None,
                free: None,
                bindable: None,
                plan_updateable: None,
                maximum_polling_duration: None,
            };
            proof {
                assert(d@ == json::plan_acc_init());
            }
            read_plan_fields(cs, j, d)
        },
    }
}

/// One or more plan objects followed by the closing bracket.
fn read_plan_items(cs: &Vec<char>, i: usize) -> (r: Option<(Vec<ServicePlan>, usize)>)
    requires
        i <= cs@.len(),
    ensures
        match r {
            Some((v, j)) => json::scan_plan_items(cs@, i as int) == Some(
                (plans_view(v@), j as int),
            ) && i < j <= cs@.len(),
            None => json::scan_plan_items(cs@, i as int) is None,
        },
    decreases cs@.len() - i,
{
    match read_plan(cs, i) {
        None => None,
        Some((p0, j)) => {
            let ghost p0v = p0@;
            let k = skip_ws(cs, j);
            if k < cs.len() && cs[k] == ',' {
                match read_plan_items(cs, k + 1) {
                    None => None,
                    Some((rest, m)) => {
                        let ghost restv = rest@;
                        let mut v = rest;
                        v.insert(0, p0);
                        proof {
                            assert(plans_view(v@) =~= seq![p0v] + plans_view(restv));
                        }
                        Some((v, m))
                    },
                }
            } else if k < cs.len() && cs[k] == ']' {
                let mut v: Vec<ServicePlan> = Vec::new();
                v.push(p0);
                proof {
                    assert(plans_view(v@) =~= seq![p0v]);
                }
                Some((v, k + 1))
            } else {
                None
            }
        },
    }
}

/// A plan array token.
fn read_plan_array(cs: &Vec<char>, i: usize) -> (r: Option<(Vec<ServicePlan>, usize)>)
    requires
        i <= cs@.len(),
    ensures
        match r {
            Some((v, j)) => json::scan_plan_array(cs@, i as int) == Some(
                (plans_view(v@), j as int),
            ) && i < j <= cs@.len(),
            None => json::scan_plan_array(cs@, i as int) is None,
        },
{
    match read_sym(cs, i, '[') {
        None => None,
        Some(j) => {
            let k = skip_ws(cs, j);
            if k < cs.len() && cs[k] == ']' {
                let v: Vec<ServicePlan> = Vec::new();
                proof {
                    assert(plans_view(v@) =~= Seq::<crate::model::ServicePlanView>::empty());
                }
                Some((v, k + 1))
            } else {
                read_plan_items(cs, j)
            }
        },
    }
}

/// A service object being gathered: each field, once its key has been read.
struct ServiceDraft {
    id: Option<String>,
    name: Option<String>,
    description: Option<String>,
    tags: Option<Vec<String>>,
    required_permissions: Option<Vec<String>>,
    bindable: Option<bool>,
    instances_retrievable: Option<bool>,
    bindings_retrievable: Option<bool>,
    allow_context_updates: Option<bool>,
    metadata: Option<Metadata>,
    plan_updateable: Option<bool>,
    plans: Option<Vec<ServicePlan>>,
}

impl View for ServiceDraft {
    type V = json::ServiceAcc;

    closed spec fn view(&self) -> json::ServiceAcc {
        json::ServiceAcc {
            id: match self.id {
                Some(x) => Some(x@),
                None => None,
            },
            name: match self.name {
                Some(x) => Some(x@),
                None => None,
            },
            description: match self.description {
                Some(x) => Some(x@),
                None => None,
            },
            tags: match self.tags {
                Some(x) => Some(strings_view(x@)),
                None => None,
            },
            required_permissions: match self.required_permissions {
                Some(x) => Some(strings_view(x@)),
                None => None,
            },
            bindable: self.bindable,
            instances_retrievable: self.instances_retrievable,
            bindings_retrievable: self.bindings_retrievable,
            allow_context_updates: self.allow_context_updates,
            metadata: match self.metadata {
                Some(x) => Some(x@),
                None => None,
            },
            plan_updateable: self.plan_updateable,
            plans: match self.plans {
                Some(x) => Some(plans_view(x@)),
                None => None,
            },
        }
    }
}

/// The fields of a service object from a key position on.
fn read_service_fields(cs: &Vec<char>, i: usize, d: ServiceDraft) -> (r: Option<(Service, usize)>)
    requires
        i <= cs@.len(),
    ensures
        match r {
            Some((p, j)) => json::scan_service_fields(cs@, i as int, d@) == Some((p@, j as int))
                && i < j <= cs@.len(),
            None => json::scan_service_fields(cs@, i as int, d@) is None,
        },
    decreases cs@.len() - i, 0int,
{
    match read_string(cs, i) {
        None => None,
        Some((key, j)) => match read_sym(cs, j, ':') {
            None => None,
            Some(k) => {
                if str_eq_str(key.as_str(), "id") {
                    if d.id.is_some() {
                        None
                    } else {
                        match read_string(cs, k) {
                            None => None,
                            Some((v, m)) => {
                                let mut d2 = d;
                                d2.id = Some(v);
                                read_service_more(cs, m, d2)
                            },
                        }
                    }
                } else if str_eq_str(key.as_str(), "name") {
                    if d.name.is_some() {
                        None
                    } else {
                        match read_string(cs, k) {
                            None => None,
                            Some((v, m)) => {
                                let mut d2 = d;
                                d2.name = Some(v);
                                read_service_more(cs, m, d2)
                            },
                        }
                    }
                } else if str_eq_str(key.as_str(), "description") {
                    if d.description.is_some() {
                        None
                    } else {
                        match read_string(cs, k) {
                            None => None,
                            Some((v, m)) => {
                                let mut d2 = d;
                                d2.description = Some(v);
                                read_service_more(cs, m, d2)
                            },
                        }
                    }
                } else if str_eq_str(key.as_str(), "tags") {
                    if d.tags.is_some() {
                        None
                    } else {
                        match read_string_array(cs, k) {
                            None => None,
                            Some((v, m)) => {
                                let mut d2 = d;
                                d2.tags = Some(v);
                                read_service_more(cs, m, d2)
                            },
                        }
                    }
                } else if str_eq_str(key.as_str(), "requires") {
                    if d.required_permissions.is_some() {
                        None
                    } else {
                        match read_string_array(cs, k) {
                            None => None,
                            Some((v, m)) => {
                                let mut d2 = d;
                                d2.required_permissions = Some(v);
                                read_service_more(cs, m, d2)
                            },
                        }
                    }
                } else if str_eq_str(key.as_str(), "bindable") {
                    if d.bindable.is_some() {
                        None
                    } else {
                        match read_bool(cs, k) {
                            None => None,
                            Some((b, m)) => {
                                let mut d2 = d;
                                d2.bindable = Some(b);
                                read_service_more(cs, m, d2)
                            },
                        }
                    }
                } else if str_eq_str(key.as_str(), "instances_retrievable") {
                    if d.instances_retrievable.is_some() {
                        None
                    } else {
                        match read_opt_bool(cs, k) {
                            None => None,
                            Some((b, m)) => {
                                let mut d2 = d;
                                d2.instances_retrievable = b;
                                read_service_more(cs, m, d2)
                            },
                        }
                    }
                } else if str_eq_str(key.as_str(), "bindings_retrievable") {
                    if d.bindings_retrievable.is_some() {
                        None
                    } else {
                        match read_opt_bool(cs, k) {
                            None => None,
                            Some((b, m)) => {
                                let mut d2 = d;
                                d2.bindings_retrievable = b;
                                read_service_more(cs, m, d2)
                            },
                        }
                    }
                } else if str_eq_str(key.as_str(), "allow_context_updates") {
                    if d.allow_context_updates.is_some() {
                        None
                    } else {
                        match read_opt_bool(cs, k) {
                            None => None,
                            Some((b, m)) => {
                                let mut d2 = d;
                                d2.allow_context_updates = b;
                                read_service_more(cs, m, d2)
                            },
                        }
                    }
                } else if str_eq_str(key.as_str(), "plan_updateable") {
                    if d.plan_updateable.is_some() {
                        None
                    } else {
                        match read_opt_bool(cs, k) {
                            None => None,
                            Some((b, m)) => {
                                let mut d2 = d;
                                d2.plan_updateable = b;
                                read_service_more(cs, m, d2)
                            },
                        }
                    }
                } else if str_eq_str(key.as_str(), "metadata") {
                    if d.metadata.is_some() {
                        None
                    } else {
                        match read_metadata(cs, k) {
                            None => None,
                            Some((v, m)) => {
                                let mut d2 = d;
                                d2.metadata = Some(v);
                                read_service_more(cs, m, d2)
                            },
                        }
                    }
                } else if str_eq_str(key.as_str(), "plans") {
                    if d.plans.is_some() {
                        None
                    } else {
                        match read_plan_array(cs, k) {
                            None => None,
                            Some((v, m)) => {
                                let mut d2 = d;
                                d2.plans = Some(v);
                                read_service_more(cs, m, d2)
                            },
                        }
                    }
                } else {
                    match read_value(cs, k) {
                        None => None,
                        Some(m) => read_service_more(cs, m, d),
                    }
                }
            },
        },
    }
}

/// After one field of a service object.
fn read_service_more(cs: &Vec<char>, i: usize, d: ServiceDraft) -> (r: Option<(Service, usize)>)
    requires
        i <= cs@.len(),
    ensures
        match r {
            Some((p, j)) => json::scan_service_more(cs@, i as int, d@) == Some((p@, j as int)) && i
                < j <= cs@.len(),
            None => json::scan_service_more(cs@, i as int, d@) is None,
        },
    decreases cs@.len() - i, 1int,
{
    let ghost dv = d@;
    let t = skip_ws(cs, i);
    if t < cs.len() && cs[t] == ',' {
        read_service_fields(cs, t + 1, d)
    } else if t < cs.len() && cs[t] == '}' {
        match d {
            ServiceDraft {
                id: Some(id),
                name: Some(name),
                description: Some(description),
                tags: Some(tags),
                required_permissions: Some(reqs),
                bindable: Some(bindable),
                instances_retrievable,
                bindings_retrievable,
                allow_context_updates,
                metadata: Some(metadata),
                plan_updateable,
                plans: Some(plans),
            } => {
                let mut svc = Service::new();
                *svc.id_mut() = id;
                *svc.name_mut() = name;
                *svc.description_mut() = description;
                *svc.tags_mut() = tags;
                *svc.required_permissions_mut() = reqs;
                *svc.bindable_mut() = bindable;
                *svc.instances_retrievable_mut() = instances_retrievable;
                *svc.bindings_retrievable_mut() = bindings_retrievable;
                *svc.allow_context_updates_mut() = allow_context_updates;
                *svc.metadata_mut() = metadata;
                *svc.plan_updateable_mut() = plan_updateable;
                *svc.plans_mut() = plans;
                proof {
                    assert(json::service_acc_done(dv) == Some(svc@));
                }
                Some((svc, t + 1))
            },
            _ => {
                proof {
                    assert(json::service_acc_done(dv) is None);
                }
                None
            },
        }
    } else {
        None
    }
}

/// A service object token.
fn read_service(cs: &Vec<char>, i: usize) -> (r: Option<(Service, usize)>)
    requires
        i <= cs@.len(),
    ensures
        match r {
            Some((s, j)) => json::scan_service(cs@, i as int) == Some((s@, j as int)) && i < j
                <= cs@.len(),
            None => json::scan_service(cs@, i as int) is None,
        },
{
    match read_sym(cs, i, '{') {
        None => None,
        Some(j) => {
            let d = ServiceDraft {
                id: None,
                name: None,
                description: None,
                tags: None,
                required_permissions: None,
                bindable: None,
                instances_retrievable: None,
                bindings_retrievable: None,
                allow_context_updates: None,
                metadata: None,
                plan_updateable: None,
                plans: None,
            };
            proof {
                assert(d@ == json::service_acc_init());
            }
            read_service_fields(cs, j, d)
        },
    }
}

/// One or more service objects followed by the closing bracket.
fn read_service_items(cs: &Vec<char>, i: usize) -> (r: Option<(Vec<Service>, usize)>)
    requires
        i <= cs@.len(),
    ensures
        match r {
            Some((v, j)) => json::scan_service_items(cs@, i as int) == Some(
                (services_view(v@), j as int),
            ) && i < j <= cs@.len(),
            None => json::scan_service_items(cs@, i as int) is None,
        },
    decreases cs@.len() - i,
{
    match read_service(cs, i) {
        None => None,
        Some((s0, j)) => {
            let ghost s0v = s0@;
            let k = skip_ws(cs, j);
            if k < cs.len() && cs[k] == ',' {
                match read_service_items(cs, k + 1) {
                    None => None,
                    Some((rest, m)) => {
                        let ghost restv = rest@;
                        let mut v = rest;
                        v.insert(0, s0);
                        proof {
                            assert(services_view(v@) =~= seq![s0v] + services_view(restv));
                        }
                        Some((v, m))
                    },
                }
            } else if k < cs.len() && cs[k] == ']' {
                let mut v: Vec<Service> = Vec::new();
                v.push(s0);
                proof {
                    assert(services_view(v@) =~= seq![s0v]);
                }
                Some((v, k + 1))
            } else {
                None
            }
        },
    }
}

/// A service array token.
fn read_service_array(cs: &Vec<char>, i: usize) -> (r: Option<(Vec<Service>, usize)>)
    requires
        i <= cs@.len(),
    ensures
        match r {
            Some((v, j)) => json::scan_service_array(cs@, i as int) == Some(
                (services_view(v@), j as int),
            ) && i < j <= cs@.len(),
            None => json::scan_service_array(cs@, i as int) is None,
        },
{
    match read_sym(cs, i, '[') {
        None => None,
        Some(j) => {
            let k = skip_ws(cs, j);
            if k < cs.len() && cs[k] == ']' {
                let v: Vec<Service> = Vec::new();
                proof {
                    assert(services_view(v@) =~= Seq::<crate::model::ServiceView>::empty());
                }
                Some((v, k + 1))
            } else {
                read_service_items(cs, j)
            }
        },
    }
}

/// The gathered content of a catalog object.
spec fn opt_services_view(a: Option<Vec<Service>>) -> Option<Seq<crate::model::ServiceView>> {
    match a {
        Some(v) => Some(services_view(v@)),
        None => None,
    }
}

/// The fields of a catalog object from a key position on.
fn read_catalog_fields(cs: &Vec<char>, i: usize, a: Option<Vec<Service>>) -> (r: Option<
    (Catalog, usize),
>)
    requires
        i <= cs@.len(),
    ensures
        match r {
            Some((c, j)) => json::scan_catalog_fields(cs@, i as int, opt_services_view(a)) == Some(
                (c@, j as int),
            ) && i < j <= cs@.len(),
            None => json::scan_catalog_fields(cs@, i as int, opt_services_view(a)) is None,
        },
    decreases cs@.len() - i, 0int,
{
    match read_string(cs, i) {
        None => None,
        Some((key, j)) => match read_sym(cs, j, ':') {
            None => None,
            Some(k) => {
                if str_eq_str(key.as_str(), "services") {
                    if a.is_some() {
                        None
                    } else {
                        match read_service_array(cs, k) {
                            None => None,
                            Some((v, m)) => read_catalog_more(cs, m, Some(v)),
                        }
                    }
                } else {
                    match read_value(cs, k) {
                        None => None,
                        Some(m) => read_catalog_more(cs, m, a),
                    }
                }
            },
        },
    }
}

/// After one field of a catalog object.
fn read_catalog_more(cs: &Vec<char>, i: usize, a: Option<Vec<Service>>) -> (r: Option<
    (Catalog, usize),
>)
    requires
        i <= cs@.len(),
    ensures
        match r {
            Some((c, j)) => json::scan_catalog_more(cs@, i as int, opt_services_view(a)) == Some(
                (c@, j as int),
            ) && i < j <= cs@.len(),
            None => json::scan_catalog_more(cs@, i as int, opt_services_view(a)) is None,
        },
    decreases cs@.len() - i, 1int,
{
    let ghost av = opt_services_view(a);
    let t = skip_ws(cs, i);
    if t < cs.len() && cs[t] == ',' {
        read_catalog_fields(cs, t + 1, a)
    } else if t < cs.len() && cs[t] == '}' {
        match a {
            Some(services) => {
                let ghost sv = services_view(services@);
                let mut c = Catalog::new();
                *c.services_mut() = services;
                proof {
                    assert(c@ == (crate::model::CatalogView { services: sv }));
                }
                Some((c, t + 1))
            },
            None => None,
        }
    } else {
        None
    }
}

/// A catalog object token.
fn read_catalog(cs: &Vec<char>, i: usize) -> (r: Option<(Catalog, usize)>)
    requires
        i <= cs@.len(),
    ensures
        match r {
            Some((c, j)) => json::scan_catalog(cs@, i as int) == Some((c@, j as int)) && i < j
                <= cs@.len(),
            None => json::scan_catalog(cs@, i as int) is None,
        },
{
    match read_sym(cs, i, '{') {
        None => None,
        Some(j) => read_catalog_fields(cs, j, None),
    }
}

/// The catalog denoted by a document, when the whole text is one
/// well-formed catalog object; `None` exactly when the text is not.
pub fn from_json(text: &str) -> (r: Option<Catalog>)
    ensures
        match r {
            Some(c) => json::scan_document(text@) == Some(c@),
            None => json::scan_document(text@) is None,
        },
{
    let cs = str_chars(text);
    match read_catalog(&cs, 0) {
        None => None,
        Some((c, j)) => {
            let e = skip_ws(&cs, j);
            if e == cs.len() {
                Some(c)
            } else {
                None
            }
        },
    }
}

} // verus!

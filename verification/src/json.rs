//! The catalog wire format, defined mathematically.
//!
//! `print_catalog` gives the canonical JSON text of a catalog: fields in a
//! fixed order, optional attributes omitted when absent, no whitespace.
//! The `scan_*` functions define which texts are well-formed catalog
//! documents and what value each one denotes: whitespace is allowed between
//! tokens, strings may use the JSON escapes (`\uXXXX` limited to scalar
//! values, surrogate pairs are refused), object fields may come in any
//! order with optional fields omitted freely, fields this format does not
//! know are skipped, a repeated field is refused, and a repeated metadata
//! key keeps its last value.

use vstd::prelude::*;

use crate::model::CatalogView;
use crate::model::metadata_insert;
use crate::model::ServicePlanView;
use crate::model::ServiceView;

verus! {

// ---------------------------------------------------------------------------
// Characters
// ---------------------------------------------------------------------------
/// JSON whitespace.
pub open spec fn is_ws(c: char) -> bool {
    c == ' ' || c == '\t' || c == '\n' || c == '\r'
}

/// Decimal digit.
pub open spec fn is_digit(c: char) -> bool {
    '0' <= c && c <= '9'
}

/// Value of a decimal digit.
pub open spec fn digit_val(c: char) -> int {
    c as u32 - '0' as u32
}

/// Digit character for a value below ten.
pub open spec fn digit_char(d: int) -> char {
    if d == 0 {
        '0'
    } else if d == 1 {
        '1'
    } else if d == 2 {
        '2'
    } else if d == 3 {
        '3'
    } else if d == 4 {
        '4'
    } else if d == 5 {
        '5'
    } else if d == 6 {
        '6'
    } else if d == 7 {
        '7'
    } else if d == 8 {
        '8'
    } else {
        '9'
    }
}

/// Lowercase hexadecimal digit character for a value below sixteen.
pub open spec fn hex_digit(d: int) -> char {
    if d < 10 {
        digit_char(d)
    } else if d == 10 {
        'a'
    } else if d == 11 {
        'b'
    } else if d == 12 {
        'c'
    } else if d == 13 {
        'd'
    } else if d == 14 {
        'e'
    } else {
        'f'
    }
}

/// Hexadecimal digit, either case.
pub open spec fn is_hex(c: char) -> bool {
    is_digit(c) || ('a' <= c && c <= 'f') || ('A' <= c && c <= 'F')
}

/// Value of a hexadecimal digit.
pub open spec fn hex_val(c: char) -> int {
    if is_digit(c) {
        digit_val(c)
    } else if 'a' <= c && c <= 'f' {
        c as u32 - 'a' as u32 + 10
    } else {
        c as u32 - 'A' as u32 + 10
    }
}

// ---------------------------------------------------------------------------
// Printing
// ---------------------------------------------------------------------------
/// How one character appears inside a JSON string: quote and backslash get
/// a backslash escape, control characters a `\u00XX` escape, anything else
/// stands for itself.
pub open spec fn esc_char(c: char) -> Seq<char> {
    if c == '"' {
        seq!['\\', '"']
    } else if c == '\\' {
        seq!['\\', '\\']
    } else if (c as u32) < 32 {
        seq!['\\', 'u', '0', '0', hex_digit((c as u32 / 16) as int), hex_digit(
            (c as u32 % 16) as int,
        )]
    } else {
        seq![c]
    }
}

/// A string's characters, each escaped.
pub open spec fn esc_string(s: Seq<char>) -> Seq<char>
    decreases s.len(),
{
    if s.len() == 0 {
        Seq::empty()
    } else {
        esc_char(s[0]) + esc_string(s.drop_first())
    }
}

/// A JSON string token.
pub open spec fn print_string(s: Seq<char>) -> Seq<char> {
    seq!['"'] + esc_string(s) + seq!['"']
}

/// Decimal digits of a nonnegative number.
pub open spec fn print_uint(n: int) -> Seq<char>
    decreases n,
{
    if n < 10 {
        seq![digit_char(n)]
    } else {
        print_uint(n / 10).push(digit_char(n % 10))
    }
}

/// A JSON boolean token.
pub open spec fn print_bool(b: bool) -> Seq<char> {
    if b {
        seq!['t', 'r', 'u', 'e']
    } else {
        seq!['f', 'a', 'l', 's', 'e']
    }
}

/// Items joined with commas.
pub open spec fn join_comma(items: Seq<Seq<char>>) -> Seq<char>
    decreases items.len(),
{
    if items.len() == 0 {
        Seq::empty()
    } else if items.len() == 1 {
        items[0]
    } else {
        items[0] + seq![','] + join_comma(items.drop_first())
    }
}

/// A JSON array of strings.
pub open spec fn print_string_array(v: Seq<Seq<char>>) -> Seq<char> {
    seq!['['] + join_comma(Seq::new(v.len(), |i: int| print_string(v[i]))) + seq![']']
}

/// A JSON object of string-valued fields, entries in stored order.
pub open spec fn print_metadata(m: Seq<(Seq<char>, Seq<char>)>) -> Seq<char> {
    seq!['{'] + join_comma(
        Seq::new(m.len(), |i: int| print_string(m[i].0) + seq![':'] + print_string(m[i].1)),
    ) + seq!['}']
}

/// `"key":` with the key escaped.
pub open spec fn print_key(k: Seq<char>) -> Seq<char> {
    print_string(k) + seq![':']
}

/// An optional boolean field: nothing when absent, a comma-led field when
/// present.
pub open spec fn print_opt_bool(k: Seq<char>, v: Option<bool>) -> Seq<char> {
    match v {
        Option::None => Seq::empty(),
        Option::Some(b) => seq![','] + print_key(k) + print_bool(b),
    }
}

/// The optional attributes of a plan, canonical order.
pub open spec fn print_plan_opts_from(p: ServicePlanView, stage: int) -> Seq<char>
    decreases 4 - stage,
{
    if stage >= 4 {
        Seq::empty()
    } else if stage == 0 {
        print_opt_bool("free"@, p.free) + print_plan_opts_from(p, 1)
    } else if stage == 1 {
        print_opt_bool("bindable"@, p.bindable) + print_plan_opts_from(p, 2)
    } else if stage == 2 {
        print_opt_bool("plan_updateable"@, p.plan_updateable) + print_plan_opts_from(p, 3)
    } else {
        match p.maximum_polling_duration {
            Option::None => Seq::empty(),
            Option::Some(n) => seq![','] + print_key("maximum_polling_duration"@) + print_uint(
                n as int,
            ),
        }
    }
}

/// A JSON plan object.
pub open spec fn print_plan(p: ServicePlanView) -> Seq<char> {
    seq!['{'] + print_key("id"@) + print_string(p.id) + seq![','] + print_key("name"@)
        + print_string(p.name) + seq![','] + print_key("description"@) + print_string(
        p.description,
    ) + seq![','] + print_key("metadata"@) + print_metadata(p.metadata) + print_plan_opts_from(
        p,
        0,
    ) + seq!['}']
}

/// A JSON array of plan objects.
pub open spec fn print_plan_array(v: Seq<ServicePlanView>) -> Seq<char> {
    seq!['['] + join_comma(Seq::new(v.len(), |i: int| print_plan(v[i]))) + seq![']']
}

/// The optional attributes of a service, canonical order.
pub open spec fn print_service_opts_from(s: ServiceView, stage: int) -> Seq<char>
    decreases 4 - stage,
{
    if stage >= 4 {
        Seq::empty()
    } else if stage == 0 {
        print_opt_bool("instances_retrievable"@, s.instances_retrievable)
            + print_service_opts_from(s, 1)
    } else if stage == 1 {
        print_opt_bool("bindings_retrievable"@, s.bindings_retrievable) + print_service_opts_from(
            s,
            2,
        )
    } else if stage == 2 {
        print_opt_bool("allow_context_updates"@, s.allow_context_updates)
            + print_service_opts_from(s, 3)
    } else {
        print_opt_bool("plan_updateable"@, s.plan_updateable)
    }
}

/// A JSON service object.
#[verifier::opaque]
pub open spec fn print_service(s: ServiceView) -> Seq<char> {
    seq!['{'] + print_key("id"@) + print_string(s.id) + seq![','] + print_key("name"@)
        + print_string(s.name) + seq![','] + print_key("description"@) + print_string(
        s.description,
    ) + seq![','] + print_key("tags"@) + print_string_array(s.tags) + seq![','] + print_key(
        "requires"@,
    ) + print_string_array(s.required_permissions) + seq![','] + print_key("bindable"@)
        + print_bool(s.bindable) + print_service_opts_from(s, 0) + seq![','] + print_key(
        "metadata"@,
    ) + print_metadata(s.metadata) + seq![','] + print_key("plans"@) + print_plan_array(s.plans)
        + seq!['}']
}

/// A JSON array of service objects.
pub open spec fn print_service_array(v: Seq<ServiceView>) -> Seq<char> {
    seq!['['] + join_comma(Seq::new(v.len(), |i: int| print_service(v[i]))) + seq![']']
}

/// The canonical document of a catalog.
pub open spec fn print_catalog(c: CatalogView) -> Seq<char> {
    seq!['{'] + print_key("services"@) + print_service_array(c.services) + seq!['}']
}

// ---------------------------------------------------------------------------
// Scanning
// ---------------------------------------------------------------------------
/// First position at or after `i` holding no whitespace.
pub open spec fn scan_ws(s: Seq<char>, i: int) -> int
    decreases s.len() - i,
{
    if 0 <= i < s.len() && is_ws(s[i]) {
        scan_ws(s, i + 1)
    } else {
        i
    }
}

/// Consumes whitespace, then the single character `c`.
pub open spec fn scan_sym(s: Seq<char>, i: int, c: char) -> Option<int> {
    let j = scan_ws(s, i);
    if j < s.len() && s[j] == c {
        Option::Some(j + 1)
    } else {
        Option::None
    }
}

/// Unescaped form of a single-character escape, if it is one.
pub open spec fn simple_unescape(c: char) -> Option<char> {
    if c == '"' {
        Option::Some('"')
    } else if c == '\\' {
        Option::Some('\\')
    } else if c == '/' {
        Option::Some('/')
    } else if c == 'b' {
        Option::Some('\u{0008}')
    } else if c == 'f' {
        Option::Some('\u{000c}')
    } else if c == 'n' {
        Option::Some('\n')
    } else if c == 'r' {
        Option::Some('\r')
    } else if c == 't' {
        Option::Some('\t')
    } else {
        Option::None
    }
}

/// Contents of a string token from position `i` (just after the opening
/// quote) to its closing quote; yields the decoded characters and the
/// position after the closing quote.
pub open spec fn scan_string_body(s: Seq<char>, i: int) -> Option<(Seq<char>, int)>
    decreases s.len() - i,
{
    if !(0 <= i < s.len()) {
        Option::None
    } else if s[i] == '"' {
        Option::Some((Seq::empty(), i + 1))
    } else if s[i] == '\\' {
        if i + 2 > s.len() {
            Option::None
        } else if s[i + 1] == 'u' {
            if i + 6 > s.len() {
                Option::None
            } else if !(is_hex(s[i + 2]) && is_hex(s[i + 3]) && is_hex(s[i + 4]) && is_hex(
                s[i + 5],
            )) {
                Option::None
            } else {
                let code = hex_val(s[i + 2]) * 4096 + hex_val(s[i + 3]) * 256 + hex_val(s[i + 4])
                    * 16 + hex_val(s[i + 5]);
                if 0xD800 <= code < 0xE000 {
                    Option::None
                } else {
                    match scan_string_body(s, i + 6) {
                        Option::None => Option::None,
                        Option::Some((t, k)) => Option::Some((seq![(code as char)] + t, k)),
                    }
                }
            }
        } else {
            match simple_unescape(s[i + 1]) {
                Option::None => Option::None,
                Option::Some(c) => match scan_string_body(s, i + 2) {
                    Option::None => Option::None,
                    Option::Some((t, k)) => Option::Some((seq![c] + t, k)),
                },
            }
        }
    } else if (s[i] as u32) < 32 {
        Option::None
    } else {
        match scan_string_body(s, i + 1) {
            Option::None => Option::None,
            Option::Some((t, k)) => Option::Some((seq![s[i]] + t, k)),
        }
    }
}

/// A string token, leading whitespace allowed.
pub open spec fn scan_string(s: Seq<char>, i: int) -> Option<(Seq<char>, int)> {
    let j = scan_ws(s, i);
    if j < s.len() && s[j] == '"' {
        scan_string_body(s, j + 1)
    } else {
        Option::None
    }
}

/// End of the digit run starting at `i`.
pub open spec fn digits_end(s: Seq<char>, i: int) -> int
    decreases s.len() - i,
{
    if 0 <= i < s.len() && is_digit(s[i]) {
        digits_end(s, i + 1)
    } else {
        i
    }
}

/// Value of the digits from `i` to `j`.
pub open spec fn digits_val(s: Seq<char>, i: int, j: int) -> int
    decreases j - i,
{
    if i >= j {
        0
    } else {
        digits_val(s, i, j - 1) * 10 + digit_val(s[j - 1])
    }
}

/// An unsigned integer token: a digit run without a superfluous leading
/// zero, whose value fits in sixty-four bits. Leading whitespace allowed.
pub open spec fn scan_uint(s: Seq<char>, i: int) -> Option<(u64, int)> {
    let j = scan_ws(s, i);
    let k = digits_end(s, j);
    if k == j {
        Option::None
    } else if s[j] == '0' && k > j + 1 {
        Option::None
    } else if digits_val(s, j, k) > u64::MAX {
        Option::None
    } else {
        Option::Some((digits_val(s, j, k) as u64, k))
    }
}

/// True when `t` occurs in `s` at position `i`.
pub open spec fn at_lit(s: Seq<char>, i: int, t: Seq<char>) -> bool {
    0 <= i && i + t.len() <= s.len() && s.subrange(i, i + t.len()) == t
}

/// A boolean token, leading whitespace allowed.
pub open spec fn scan_bool(s: Seq<char>, i: int) -> Option<(bool, int)> {
    let j = scan_ws(s, i);
    if at_lit(s, j, print_bool(true)) {
        Option::Some((true, j + 4))
    } else if at_lit(s, j, print_bool(false)) {
        Option::Some((false, j + 5))
    } else {
        Option::None
    }
}


/// An optional boolean value: JSON `null` leaves the attribute absent, as
/// it does for a field that is not written at all.
pub open spec fn scan_opt_bool(s: Seq<char>, i: int) -> Option<(Option<bool>, int)> {
    let j = scan_ws(s, i);
    if at_lit(s, j, seq!['n', 'u', 'l', 'l']) {
        Option::Some((Option::None, j + 4))
    } else {
        match scan_bool(s, i) {
            Option::None => Option::None,
            Option::Some((b, m)) => Option::Some((Option::Some(b), m)),
        }
    }
}

/// An optional unsigned integer value: JSON `null` leaves the attribute
/// absent.
pub open spec fn scan_opt_uint(s: Seq<char>, i: int) -> Option<(Option<u64>, int)> {
    let j = scan_ws(s, i);
    if at_lit(s, j, seq!['n', 'u', 'l', 'l']) {
        Option::Some((Option::None, j + 4))
    } else {
        match scan_uint(s, i) {
            Option::None => Option::None,
            Option::Some((n, m)) => Option::Some((Option::Some(n), m)),
        }
    }
}

// ---------------------------------------------------------------------------
// Bounds of the scanners
// ---------------------------------------------------------------------------
pub proof fn lemma_scan_ws_bounds(s: Seq<char>, i: int)
    requires
        0 <= i <= s.len(),
    ensures
        i <= scan_ws(s, i) <= s.len(),
    decreases s.len() - i,
{
    if i < s.len() && is_ws(s[i]) {
        lemma_scan_ws_bounds(s, i + 1);
    }
}

pub proof fn lemma_scan_string_body_bounds(s: Seq<char>, i: int)
    requires
        0 <= i <= s.len(),
    ensures
        scan_string_body(s, i) matches Some(r) ==> i < r.1 <= s.len(),
    decreases s.len() - i,
{
    if 0 <= i < s.len() {
        if s[i] == '"' {
        } else if s[i] == '\\' {
            if i + 2 <= s.len() {
                if s[i + 1] == 'u' {
                    if i + 6 <= s.len() {
                        lemma_scan_string_body_bounds(s, i + 6);
                    }
                } else {
                    lemma_scan_string_body_bounds(s, i + 2);
                }
            }
        } else {
            lemma_scan_string_body_bounds(s, i + 1);
        }
    }
}

pub proof fn lemma_scan_string_bounds(s: Seq<char>, i: int)
    requires
        0 <= i <= s.len(),
    ensures
        scan_string(s, i) matches Some(r) ==> i < r.1 <= s.len(),
{
    lemma_scan_ws_bounds(s, i);
    let j = scan_ws(s, i);
    if j < s.len() && s[j] == '"' {
        lemma_scan_string_body_bounds(s, j + 1);
    }
}

pub proof fn lemma_digits_end_bounds(s: Seq<char>, i: int)
    requires
        0 <= i <= s.len(),
    ensures
        i <= digits_end(s, i) <= s.len(),
    decreases s.len() - i,
{
    if i < s.len() && is_digit(s[i]) {
        lemma_digits_end_bounds(s, i + 1);
    }
}

pub proof fn lemma_scan_uint_bounds(s: Seq<char>, i: int)
    requires
        0 <= i <= s.len(),
    ensures
        scan_uint(s, i) matches Some(r) ==> i < r.1 <= s.len(),
{
    lemma_scan_ws_bounds(s, i);
    lemma_digits_end_bounds(s, scan_ws(s, i));
}

pub proof fn lemma_scan_bool_bounds(s: Seq<char>, i: int)
    requires
        0 <= i <= s.len(),
    ensures
        scan_bool(s, i) matches Some(r) ==> i < r.1 <= s.len(),
{
    lemma_scan_ws_bounds(s, i);
}

pub proof fn lemma_scan_sym_bounds(s: Seq<char>, i: int, c: char)
    requires
        0 <= i <= s.len(),
    ensures
        scan_sym(s, i, c) matches Some(j) ==> i < j <= s.len(),
{
    lemma_scan_ws_bounds(s, i);
}

pub proof fn lemma_scan_opt_bool_bounds(s: Seq<char>, i: int)
    requires
        0 <= i <= s.len(),
    ensures
        scan_opt_bool(s, i) matches Some(r) ==> i < r.1 <= s.len(),
{
    lemma_scan_ws_bounds(s, i);
    lemma_scan_bool_bounds(s, i);
}

pub proof fn lemma_scan_opt_uint_bounds(s: Seq<char>, i: int)
    requires
        0 <= i <= s.len(),
    ensures
        scan_opt_uint(s, i) matches Some(r) ==> i < r.1 <= s.len(),
{
    lemma_scan_ws_bounds(s, i);
    lemma_scan_uint_bounds(s, i);
}

// ---------------------------------------------------------------------------
// Composite scanners
// ---------------------------------------------------------------------------
/// One or more string elements followed by the closing bracket.
pub open spec fn scan_string_items(s: Seq<char>, i: int) -> Option<(Seq<Seq<char>>, int)>
    decreases s.len() - i,
        when 0 <= i <= s.len()
        via scan_string_items_dec
{
    match scan_string(s, i) {
        Option::None => Option::None,
        Option::Some((v, j)) => {
            let k = scan_ws(s, j);
            if k < s.len() && s[k] == ',' {
                match scan_string_items(s, k + 1) {
                    Option::None => Option::None,
                    Option::Some((rest, m)) => Option::Some((seq![v] + rest, m)),
                }
            } else if k < s.len() && s[k] == ']' {
                Option::Some((seq![v], k + 1))
            } else {
                Option::None
            }
        },
    }
}

#[via_fn]
proof fn scan_string_items_dec(s: Seq<char>, i: int) {
    lemma_scan_string_bounds(s, i);
    match scan_string(s, i) {
        Option::None => {},
        Option::Some((v, j)) => {
            lemma_scan_ws_bounds(s, j);
        },
    }
}

/// A string array token.
pub open spec fn scan_string_array(s: Seq<char>, i: int) -> Option<(Seq<Seq<char>>, int)> {
    match scan_sym(s, i, '[') {
        Option::None => Option::None,
        Option::Some(j) => {
            let k = scan_ws(s, j);
            if k < s.len() && s[k] == ']' {
                Option::Some((Seq::empty(), k + 1))
            } else {
                scan_string_items(s, j)
            }
        },
    }
}

pub proof fn lemma_scan_string_items_bounds(s: Seq<char>, i: int)
    requires
        0 <= i <= s.len(),
    ensures
        scan_string_items(s, i) matches Some(r) ==> i < r.1 <= s.len(),
    decreases s.len() - i,
{
    lemma_scan_string_bounds(s, i);
    match scan_string(s, i) {
        Option::None => {},
        Option::Some((v, j)) => {
            lemma_scan_ws_bounds(s, j);
            let k = scan_ws(s, j);
            if k < s.len() && s[k] == ',' {
                lemma_scan_string_items_bounds(s, k + 1);
            }
        },
    }
}

pub proof fn lemma_scan_string_array_bounds(s: Seq<char>, i: int)
    requires
        0 <= i <= s.len(),
    ensures
        scan_string_array(s, i) matches Some(r) ==> i < r.1 <= s.len(),
{
    lemma_scan_sym_bounds(s, i, '[');
    match scan_sym(s, i, '[') {
        Option::None => {},
        Option::Some(j) => {
            lemma_scan_ws_bounds(s, j);
            lemma_scan_string_items_bounds(s, j);
        },
    }
}

/// One or more `"key":"value"` entries followed by the closing brace.
pub open spec fn scan_entry_items(s: Seq<char>, i: int) -> Option<
    (Seq<(Seq<char>, Seq<char>)>, int),
>
    decreases s.len() - i,
        when 0 <= i <= s.len()
        via scan_entry_items_dec
{
    match scan_string(s, i) {
        Option::None => Option::None,
        Option::Some((key, j)) => match scan_sym(s, j, ':') {
            Option::None => Option::None,
            Option::Some(j2) => match scan_string(s, j2) {
                Option::None => Option::None,
                Option::Some((v, j3)) => {
                    let k = scan_ws(s, j3);
                    if k < s.len() && s[k] == ',' {
                        match scan_entry_items(s, k + 1) {
                            Option::None => Option::None,
                            Option::Some((rest, m)) => Option::Some((seq![(key, v)] + rest, m)),
                        }
                    } else if k < s.len() && s[k] == '}' {
                        Option::Some((seq![(key, v)], k + 1))
                    } else {
                        Option::None
                    }
                },
            },
        },
    }
}

#[via_fn]
proof fn scan_entry_items_dec(s: Seq<char>, i: int) {
    lemma_scan_string_bounds(s, i);
    match scan_string(s, i) {
        Option::None => {},
        Option::Some((key, j)) => {
            lemma_scan_sym_bounds(s, j, ':');
            match scan_sym(s, j, ':') {
                Option::None => {},
                Option::Some(j2) => {
                    lemma_scan_string_bounds(s, j2);
                    match scan_string(s, j2) {
                        Option::None => {},
                        Option::Some((v, j3)) => {
                            lemma_scan_ws_bounds(s, j3);
                        },
                    }
                },
            }
        },
    }
}

/// The mapping denoted by a list of entries read from a document: each
/// entry inserted in order, so a later value of a repeated key replaces
/// the earlier one.
pub open spec fn metadata_from_pairs(ps: Seq<(Seq<char>, Seq<char>)>) -> Seq<
    (Seq<char>, Seq<char>),
>
    decreases ps.len(),
{
    if ps.len() == 0 {
        Seq::empty()
    } else {
        metadata_insert(metadata_from_pairs(ps.drop_last()), ps.last().0, ps.last().1)
    }
}

/// A metadata object token: its entries in order, folded into a mapping.
pub open spec fn scan_metadata(s: Seq<char>, i: int) -> Option<(Seq<(Seq<char>, Seq<char>)>, int)> {
    match scan_sym(s, i, '{') {
        Option::None => Option::None,
        Option::Some(j) => {
            let k = scan_ws(s, j);
            if k < s.len() && s[k] == '}' {
                Option::Some((Seq::empty(), k + 1))
            } else {
                match scan_entry_items(s, j) {
                    Option::None => Option::None,
                    Option::Some((ps, m)) => Option::Some((metadata_from_pairs(ps), m)),
                }
            }
        },
    }
}

pub proof fn lemma_scan_entry_items_bounds(s: Seq<char>, i: int)
    requires
        0 <= i <= s.len(),
    ensures
        scan_entry_items(s, i) matches Some(r) ==> i < r.1 <= s.len(),
    decreases s.len() - i,
{
    lemma_scan_string_bounds(s, i);
    match scan_string(s, i) {
        Option::None => {},
        Option::Some((key, j)) => {
            lemma_scan_sym_bounds(s, j, ':');
            match scan_sym(s, j, ':') {
                Option::None => {},
                Option::Some(j2) => {
                    lemma_scan_string_bounds(s, j2);
                    match scan_string(s, j2) {
                        Option::None => {},
                        Option::Some((v, j3)) => {
                            lemma_scan_ws_bounds(s, j3);
                            let k = scan_ws(s, j3);
                            if k < s.len() && s[k] == ',' {
                                lemma_scan_entry_items_bounds(s, k + 1);
                            }
                        },
                    }
                },
            }
        },
    }
}

pub proof fn lemma_scan_metadata_bounds(s: Seq<char>, i: int)
    requires
        0 <= i <= s.len(),
    ensures
        scan_metadata(s, i) matches Some(r) ==> i < r.1 <= s.len(),
{
    lemma_scan_sym_bounds(s, i, '{');
    match scan_sym(s, i, '{') {
        Option::None => {},
        Option::Some(j) => {
            lemma_scan_ws_bounds(s, j);
            lemma_scan_entry_items_bounds(s, j);
        },
    }
}

// ---------------------------------------------------------------------------
// Skipping one JSON value (for fields this format does not know)
// ---------------------------------------------------------------------------
/// End of a fraction part starting at `i`, `i` when none starts here, or
/// negative when a dot has no digits after it.
pub open spec fn scan_frac_end(s: Seq<char>, i: int) -> int {
    if 0 <= i < s.len() && s[i] == '.' {
        let f = digits_end(s, i + 1);
        if f == i + 1 {
            -1
        } else {
            f
        }
    } else {
        i
    }
}

/// End of an exponent part starting at `i`, `i` when none starts here, or
/// negative when the exponent has no digits.
pub open spec fn scan_exp_end(s: Seq<char>, i: int) -> int {
    if 0 <= i < s.len() && (s[i] == 'e' || s[i] == 'E') {
        let j = if i + 1 < s.len() && (s[i + 1] == '+' || s[i + 1] == '-') {
            i + 2
        } else {
            i + 1
        };
        let g = digits_end(s, j);
        if g == j {
            -1
        } else {
            g
        }
    } else {
        i
    }
}

/// Position after one JSON number starting at `i` (no leading whitespace).
pub open spec fn scan_number_skip(s: Seq<char>, i: int) -> Option<int> {
    let j = if 0 <= i < s.len() && s[i] == '-' {
        i + 1
    } else {
        i
    };
    let k = digits_end(s, j);
    if k == j {
        Option::None
    } else if s[j] == '0' && k > j + 1 {
        Option::None
    } else {
        let k2 = scan_frac_end(s, k);
        if k2 < 0 {
            Option::None
        } else {
            let k3 = scan_exp_end(s, k2);
            if k3 < 0 {
                Option::None
            } else {
                Option::Some(k3)
            }
        }
    }
}

pub proof fn lemma_scan_number_skip_bounds(s: Seq<char>, i: int)
    requires
        0 <= i <= s.len(),
    ensures
        scan_number_skip(s, i) matches Some(j) ==> i < j <= s.len(),
{
    let j = if 0 <= i < s.len() && s[i] == '-' {
        i + 1
    } else {
        i
    };
    lemma_digits_end_bounds(s, j);
    let k = digits_end(s, j);
    if k <= s.len() {
        if 0 <= k < s.len() && s[k] == '.' {
            lemma_digits_end_bounds(s, k + 1);
        }
    }
    let k2 = scan_frac_end(s, k);
    if 0 <= k2 <= s.len() {
        if k2 < s.len() && (s[k2] == 'e' || s[k2] == 'E') {
            if k2 + 1 < s.len() && (s[k2 + 1] == '+' || s[k2 + 1] == '-') {
                lemma_digits_end_bounds(s, k2 + 2);
            } else {
                lemma_digits_end_bounds(s, k2 + 1);
            }
        }
    }
}

/// Position after one JSON value of any shape, leading whitespace allowed:
/// a string, number, boolean, null, array or object. Nothing of the value
/// is kept; this exists so that a document may carry fields this format
/// does not know, as a reader that ignores unknown fields must allow.
pub open spec fn scan_value(s: Seq<char>, i: int) -> Option<int>
    decreases s.len() - i, 0int,
        when 0 <= i <= s.len()
        via scan_value_dec
{
    let j = scan_ws(s, i);
    if j >= s.len() {
        Option::None
    } else if s[j] == '"' {
        match scan_string_body(s, j + 1) {
            Option::None => Option::None,
            Option::Some((v, k)) => Option::Some(k),
        }
    } else if s[j] == 't' || s[j] == 'f' {
        match scan_bool(s, j) {
            Option::None => Option::None,
            Option::Some((b, k)) => Option::Some(k),
        }
    } else if s[j] == 'n' {
        if at_lit(s, j, seq!['n', 'u', 'l', 'l']) {
            Option::Some(j + 4)
        } else {
            Option::None
        }
    } else if s[j] == '[' {
        let k = scan_ws(s, j + 1);
        if k < s.len() && s[k] == ']' {
            Option::Some(k + 1)
        } else {
            scan_value_items(s, j + 1)
        }
    } else if s[j] == '{' {
        let k = scan_ws(s, j + 1);
        if k < s.len() && s[k] == '}' {
            Option::Some(k + 1)
        } else {
            scan_member_items(s, j + 1)
        }
    } else if s[j] == '-' || is_digit(s[j]) {
        scan_number_skip(s, j)
    } else {
        Option::None
    }
}

#[via_fn]
proof fn scan_value_dec(s: Seq<char>, i: int) {
    lemma_scan_ws_bounds(s, i);
}

/// One or more array elements followed by the closing bracket, skipped.
pub open spec fn scan_value_items(s: Seq<char>, i: int) -> Option<int>
    decreases s.len() - i, 1int,
        when 0 <= i <= s.len()
        via scan_value_items_dec
{
    match scan_value(s, i) {
        Option::None => Option::None,
        Option::Some(j0) => {
            let j = if j0 > i {
                j0
            } else {
                i + 1
            };
            let k = scan_ws(s, j);
            if k < s.len() && s[k] == ',' {
                scan_value_items(s, k + 1)
            } else if k < s.len() && s[k] == ']' {
                Option::Some(k + 1)
            } else {
                Option::None
            }
        },
    }
}

#[via_fn]
proof fn scan_value_items_dec(s: Seq<char>, i: int) {
    assert forall|j: int| i < j <= s.len() implies j <= #[trigger] scan_ws(s, j) by {
        lemma_scan_ws_bounds(s, j);
    }
}

/// One or more object members followed by the closing brace, skipped.
pub open spec fn scan_member_items(s: Seq<char>, i: int) -> Option<int>
    decreases s.len() - i, 1int,
        when 0 <= i <= s.len()
        via scan_member_items_dec
{
    match scan_string(s, i) {
        Option::None => Option::None,
        Option::Some((key, j)) => match scan_sym(s, j, ':') {
            Option::None => Option::None,
            Option::Some(j2) => match scan_value(s, j2) {
                Option::None => Option::None,
                Option::Some(m0) => {
                    let m = if m0 > j2 {
                        m0
                    } else {
                        j2 + 1
                    };
                    let t = scan_ws(s, m);
                    if t < s.len() && s[t] == ',' {
                        scan_member_items(s, t + 1)
                    } else if t < s.len() && s[t] == '}' {
                        Option::Some(t + 1)
                    } else {
                        Option::None
                    }
                },
            },
        },
    }
}

#[via_fn]
proof fn scan_member_items_dec(s: Seq<char>, i: int) {
    lemma_scan_string_bounds(s, i);
    match scan_string(s, i) {
        Option::None => {},
        Option::Some((key, j)) => {
            lemma_scan_sym_bounds(s, j, ':');
        },
    }
    assert forall|m: int| i < m <= s.len() implies m <= #[trigger] scan_ws(s, m) by {
        lemma_scan_ws_bounds(s, m);
    }
}

pub proof fn lemma_scan_value_bounds(s: Seq<char>, i: int)
    requires
        0 <= i <= s.len(),
    ensures
        scan_value(s, i) matches Some(j) ==> i < j <= s.len(),
    decreases s.len() - i, 0int,
{
    lemma_scan_ws_bounds(s, i);
    let j = scan_ws(s, i);
    if j < s.len() {
        if s[j] == '"' {
            lemma_scan_string_body_bounds(s, j + 1);
        } else if s[j] == 't' || s[j] == 'f' {
            lemma_scan_bool_bounds(s, j);
        } else if s[j] == 'n' {
        } else if s[j] == '[' {
            lemma_scan_ws_bounds(s, j + 1);
            lemma_scan_value_items_bounds(s, j + 1);
        } else if s[j] == '{' {
            lemma_scan_ws_bounds(s, j + 1);
            lemma_scan_member_items_bounds(s, j + 1);
        } else if s[j] == '-' || is_digit(s[j]) {
            lemma_scan_number_skip_bounds(s, j);
        }
    }
}

pub proof fn lemma_scan_value_items_bounds(s: Seq<char>, i: int)
    requires
        0 <= i <= s.len(),
    ensures
        scan_value_items(s, i) matches Some(j) ==> i < j <= s.len(),
    decreases s.len() - i, 1int,
{
    lemma_scan_value_bounds(s, i);
    match scan_value(s, i) {
        Option::None => {},
        Option::Some(j0) => {
            let j = if j0 > i {
                j0
            } else {
                i + 1
            };
            if j <= s.len() {
                lemma_scan_ws_bounds(s, j);
                let k = scan_ws(s, j);
                if k < s.len() && s[k] == ',' {
                    lemma_scan_value_items_bounds(s, k + 1);
                }
            }
        },
    }
}

pub proof fn lemma_scan_member_items_bounds(s: Seq<char>, i: int)
    requires
        0 <= i <= s.len(),
    ensures
        scan_member_items(s, i) matches Some(j) ==> i < j <= s.len(),
    decreases s.len() - i, 1int,
{
    lemma_scan_string_bounds(s, i);
    match scan_string(s, i) {
        Option::None => {},
        Option::Some((key, j)) => {
            lemma_scan_sym_bounds(s, j, ':');
            match scan_sym(s, j, ':') {
                Option::None => {},
                Option::Some(j2) => {
                    lemma_scan_value_bounds(s, j2);
                    match scan_value(s, j2) {
                        Option::None => {},
                        Option::Some(m0) => {
                            let m = if m0 > j2 {
                                m0
                            } else {
                                j2 + 1
                            };
                            if m <= s.len() {
                                lemma_scan_ws_bounds(s, m);
                                let t = scan_ws(s, m);
                                if t < s.len() && s[t] == ',' {
                                    lemma_scan_member_items_bounds(s, t + 1);
                                }
                            }
                        },
                    }
                },
            }
        },
    }
}

/// What a scan of a plan object has gathered: for each field, the value of
/// its key once that key has been read.
#[verifier::ext_equal]
pub ghost struct PlanAcc {
    pub id: Option<Seq<char>>,
    pub name: Option<Seq<char>>,
    pub description: Option<Seq<char>>,
    pub metadata: Option<Seq<(Seq<char>, Seq<char>)>>,
    pub free: Option<bool>,
    pub bindable: Option<bool>,
    pub plan_updateable: Option<bool>,
    pub maximum_polling_duration: Option<u64>,
}

/// The gathering before any field has been read.
pub open spec fn plan_acc_init() -> PlanAcc {
    PlanAcc {
        id: Option::None,
        name: Option::None,
        description: Option::None,
        metadata: Option::None,
        free: Option::None,
        bindable: Option::None,
        plan_updateable: Option::None,
        maximum_polling_duration: Option::None,
    }
}

/// The plan a finished gathering denotes: each required field must have
/// been read; an optional field that was not stays absent.
pub open spec fn plan_acc_done(a: PlanAcc) -> Option<ServicePlanView> {
    if a.id is Some && a.name is Some && a.description is Some && a.metadata is Some {
        Option::Some(
            ServicePlanView {
                id: a.id.unwrap(),
                name: a.name.unwrap(),
                description: a.description.unwrap(),
                metadata: a.metadata.unwrap(),
                free: a.free,
                bindable: a.bindable,
                plan_updateable: a.plan_updateable,
                maximum_polling_duration: a.maximum_polling_duration,
            },
        )
    } else {
        Option::None
    }
}

/// The fields of a plan object from a key position on: fields may come in
/// any order, a repeated field is refused, an unknown field is skipped.
pub open spec fn scan_plan_fields(s: Seq<char>, i: int, a: PlanAcc) -> Option<
    (ServicePlanView, int),
>
    decreases s.len() - i, 0int,
        when 0 <= i <= s.len()
        via scan_plan_fields_dec
{
    match scan_string(s, i) {
        Option::None => Option::None,
        Option::Some((key, j)) => match scan_sym(s, j, ':') {
            Option::None => Option::None,
            Option::Some(k) => if key == "id"@ {
                if a.id is Some {
                    Option::None
                } else {
                    match scan_string(s, k) {
                        Option::None => Option::None,
                        Option::Some((v, m)) => scan_plan_more(
                            s,
                            m,
                            PlanAcc { id: Option::Some(v), ..a },
                        ),
                    }
                }
            } else if key == "name"@ {
                if a.name is Some {
                    Option::None
                } else {
                    match scan_string(s, k) {
                        Option::None => Option::None,
                        Option::Some((v, m)) => scan_plan_more(
                            s,
                            m,
                            PlanAcc { name: Option::Some(v), ..a },
                        ),
                    }
                }
            } else if key == "description"@ {
                if a.description is Some {
                    Option::None
                } else {
                    match scan_string(s, k) {
                        Option::None => Option::None,
                        Option::Some((v, m)) => scan_plan_more(
                            s,
                            m,
                            PlanAcc { description: Option::Some(v), ..a },
                        ),
                    }
                }
            } else if key == "metadata"@ {
                if a.metadata is Some {
                    Option::None
                } else {
                    match scan_metadata(s, k) {
                        Option::None => Option::None,
                        Option::Some((v, m)) => scan_plan_more(
                            s,
                            m,
                            PlanAcc { metadata: Option::Some(v), ..a },
                        ),
                    }
                }
            } else if key == "free"@ {
                if a.free is Some {
                    Option::None
                } else {
                    match scan_opt_bool(s, k) {
                        Option::None => Option::None,
                        Option::Some((b, m)) => scan_plan_more(
                            s,
                            m,
                            PlanAcc { free: b, ..a },
                        ),
                    }
                }
            } else if key == "bindable"@ {
                if a.bindable is Some {
                    Option::None
                } else {
                    match scan_opt_bool(s, k) {
                        Option::None => Option::None,
                        Option::Some((b, m)) => scan_plan_more(
                            s,
                            m,
                            PlanAcc { bindable: b, ..a },
                        ),
                    }
                }
            } else if key == "plan_updateable"@ {
                if a.plan_updateable is Some {
                    Option::None
                } else {
                    match scan_opt_bool(s, k) {
                        Option::None => Option::None,
                        Option::Some((b, m)) => scan_plan_more(
                            s,
                            m,
                            PlanAcc { plan_updateable: b, ..a },
                        ),
                    }
                }
            } else if key == "maximum_polling_duration"@ {
                if a.maximum_polling_duration is Some {
                    Option::None
                } else {
                    match scan_opt_uint(s, k) {
                        Option::None => Option::None,
                        Option::Some((n, m)) => scan_plan_more(
                            s,
                            m,
                            PlanAcc { maximum_polling_duration: n, ..a },
                        ),
                    }
                }
            } else {
                match scan_value(s, k) {
                    Option::None => Option::None,
                    Option::Some(m0) => {
                        let m = if m0 > k {
                            m0
                        } else {
                            k + 1
                        };
                        scan_plan_more(s, m, a)
                    },
                }
            },
        },
    }
}

#[via_fn]
proof fn scan_plan_fields_dec(s: Seq<char>, i: int, a: PlanAcc) {
    lemma_scan_string_bounds(s, i);
    match scan_string(s, i) {
        Option::None => {},
        Option::Some((key, j)) => {
            lemma_scan_sym_bounds(s, j, ':');
            match scan_sym(s, j, ':') {
                Option::None => {},
                Option::Some(k) => {
                    lemma_scan_string_bounds(s, k);
                    lemma_scan_metadata_bounds(s, k);
                    lemma_scan_opt_bool_bounds(s, k);
                    lemma_scan_opt_uint_bounds(s, k);
                    lemma_scan_value_bounds(s, k);
                },
            }
        },
    }
}

/// After one field of a plan object: a comma and further fields, or the
/// closing brace and the finished plan.
pub open spec fn scan_plan_more(s: Seq<char>, i: int, a: PlanAcc) -> Option<
    (ServicePlanView, int),
>
    decreases s.len() - i, 1int,
        when 0 <= i <= s.len()
        via scan_plan_more_dec
{
    let t = scan_ws(s, i);
    if t < s.len() && s[t] == ',' {
        scan_plan_fields(s, t + 1, a)
    } else if t < s.len() && s[t] == '}' {
        match plan_acc_done(a) {
            Option::Some(v) => Option::Some((v, t + 1)),
            Option::None => Option::None,
        }
    } else {
        Option::None
    }
}

#[via_fn]
proof fn scan_plan_more_dec(s: Seq<char>, i: int, a: PlanAcc) {
    lemma_scan_ws_bounds(s, i);
}

/// A plan object token.
pub open spec fn scan_plan(s: Seq<char>, i: int) -> Option<(ServicePlanView, int)> {
    match scan_sym(s, i, '{') {
        Option::None => Option::None,
        Option::Some(j) => scan_plan_fields(s, j, plan_acc_init()),
    }
}

pub proof fn lemma_scan_plan_fields_bounds(s: Seq<char>, i: int, a: PlanAcc)
    requires
        0 <= i <= s.len(),
    ensures
        scan_plan_fields(s, i, a) matches Some(r) ==> i < r.1 <= s.len(),
    decreases s.len() - i, 0int,
{
    lemma_scan_string_bounds(s, i);
    match scan_string(s, i) {
        Option::None => {},
        Option::Some((key, j)) => {
            lemma_scan_sym_bounds(s, j, ':');
            match scan_sym(s, j, ':') {
                Option::None => {},
                Option::Some(k) => {
                    if key == "id"@ {
                        lemma_scan_string_bounds(s, k);
                        match scan_string(s, k) {
                            Option::None => {},
                            Option::Some((v, m)) => {
                                lemma_scan_plan_more_bounds(s, m, PlanAcc { id: Option::Some(v), ..a });
                            },
                        }
                    } else if key == "name"@ {
                        lemma_scan_string_bounds(s, k);
                        match scan_string(s, k) {
                            Option::None => {},
                            Option::Some((v, m)) => {
                                lemma_scan_plan_more_bounds(s, m, PlanAcc { name: Option::Some(v), ..a });
                            },
                        }
                    } else if key == "description"@ {
                        lemma_scan_string_bounds(s, k);
                        match scan_string(s, k) {
                            Option::None => {},
                            Option::Some((v, m)) => {
                                lemma_scan_plan_more_bounds(s, m, PlanAcc { description: Option::Some(v), ..a });
                            },
                        }
                    } else if key == "metadata"@ {
                        lemma_scan_metadata_bounds(s, k);
                        match scan_metadata(s, k) {
                            Option::None => {},
                            Option::Some((v, m)) => {
                                lemma_scan_plan_more_bounds(s, m, PlanAcc { metadata: Option::Some(v), ..a });
                            },
                        }
                    } else if key == "free"@ {
                        lemma_scan_opt_bool_bounds(s, k);
                        match scan_opt_bool(s, k) {
                            Option::None => {},
                            Option::Some((ob, m)) => {
                                lemma_scan_plan_more_bounds(s, m, PlanAcc { free: ob, ..a });
                            },
                        }
                    } else if key == "bindable"@ {
                        lemma_scan_opt_bool_bounds(s, k);
                        match scan_opt_bool(s, k) {
                            Option::None => {},
                            Option::Some((ob, m)) => {
                                lemma_scan_plan_more_bounds(s, m, PlanAcc { bindable: ob, ..a });
                            },
                        }
                    } else if key == "plan_updateable"@ {
                        lemma_scan_opt_bool_bounds(s, k);
                        match scan_opt_bool(s, k) {
                            Option::None => {},
                            Option::Some((ob, m)) => {
                                lemma_scan_plan_more_bounds(s, m, PlanAcc { plan_updateable: ob, ..a });
                            },
                        }
                    } else if key == "maximum_polling_duration"@ {
                        lemma_scan_opt_uint_bounds(s, k);
                        match scan_opt_uint(s, k) {
                            Option::None => {},
                            Option::Some((ob, m)) => {
                                lemma_scan_plan_more_bounds(s, m, PlanAcc { maximum_polling_duration: ob, ..a });
                            },
                        }
                    } else {
                        lemma_scan_value_bounds(s, k);
                        match scan_value(s, k) {
                            Option::None => {},
                            Option::Some(m0) => {
                                let m = if m0 > k {
                                    m0
                                } else {
                                    k + 1
                                };
                                lemma_scan_plan_more_bounds(s, m, a);
                            },
                        }
                    }
                },
            }
        },
    }
}

pub proof fn lemma_scan_plan_more_bounds(s: Seq<char>, i: int, a: PlanAcc)
    requires
        0 <= i <= s.len(),
    ensures
        scan_plan_more(s, i, a) matches Some(r) ==> i < r.1 <= s.len(),
    decreases s.len() - i, 1int,
{
    lemma_scan_ws_bounds(s, i);
    let t = scan_ws(s, i);
    if t < s.len() && s[t] == ',' {
        lemma_scan_plan_fields_bounds(s, t + 1, a);
    }
}

pub proof fn lemma_scan_plan_bounds(s: Seq<char>, i: int)
    requires
        0 <= i <= s.len(),
    ensures
        scan_plan(s, i) matches Some(r) ==> i < r.1 <= s.len(),
{
    lemma_scan_sym_bounds(s, i, '{');
    match scan_sym(s, i, '{') {
        Option::None => {},
        Option::Some(j) => {
            lemma_scan_plan_fields_bounds(s, j, plan_acc_init());
        },
    }
}

/// One or more plan objects followed by the closing bracket.
pub open spec fn scan_plan_items(s: Seq<char>, i: int) -> Option<(Seq<ServicePlanView>, int)>
    decreases s.len() - i,
        when 0 <= i <= s.len()
        via scan_plan_items_dec
{
    match scan_plan(s, i) {
        Option::None => Option::None,
        Option::Some((p, j)) => {
            let k = scan_ws(s, j);
            if k < s.len() && s[k] == ',' {
                match scan_plan_items(s, k + 1) {
                    Option::None => Option::None,
                    Option::Some((rest, m)) => Option::Some((seq![p] + rest, m)),
                }
            } else if k < s.len() && s[k] == ']' {
                Option::Some((seq![p], k + 1))
            } else {
                Option::None
            }
        },
    }
}

#[via_fn]
proof fn scan_plan_items_dec(s: Seq<char>, i: int) {
    lemma_scan_plan_bounds(s, i);
    match scan_plan(s, i) {
        Option::None => {},
        Option::Some((p, j)) => {
            lemma_scan_ws_bounds(s, j);
        },
    }
}

/// A plan array token.
pub open spec fn scan_plan_array(s: Seq<char>, i: int) -> Option<(Seq<ServicePlanView>, int)> {
    match scan_sym(s, i, '[') {
        Option::None => Option::None,
        Option::Some(j) => {
            let k = scan_ws(s, j);
            if k < s.len() && s[k] == ']' {
                Option::Some((Seq::empty(), k + 1))
            } else {
                scan_plan_items(s, j)
            }
        },
    }
}

pub proof fn lemma_scan_plan_items_bounds(s: Seq<char>, i: int)
    requires
        0 <= i <= s.len(),
    ensures
        scan_plan_items(s, i) matches Some(r) ==> i < r.1 <= s.len(),
    decreases s.len() - i,
{
    lemma_scan_plan_bounds(s, i);
    match scan_plan(s, i) {
        Option::None => {},
        Option::Some((p, j)) => {
            lemma_scan_ws_bounds(s, j);
            let k = scan_ws(s, j);
            if k < s.len() && s[k] == ',' {
                lemma_scan_plan_items_bounds(s, k + 1);
            }
        },
    }
}

pub proof fn lemma_scan_plan_array_bounds(s: Seq<char>, i: int)
    requires
        0 <= i <= s.len(),
    ensures
        scan_plan_array(s, i) matches Some(r) ==> i < r.1 <= s.len(),
{
    lemma_scan_sym_bounds(s, i, '[');
    match scan_sym(s, i, '[') {
        Option::None => {},
        Option::Some(j) => {
            lemma_scan_ws_bounds(s, j);
            lemma_scan_plan_items_bounds(s, j);
        },
    }
}

/// What a scan of a service object has gathered: for each field, the value
/// of its key once that key has been read.
#[verifier::ext_equal]
pub ghost struct ServiceAcc {
    pub id: Option<Seq<char>>,
    pub name: Option<Seq<char>>,
    pub description: Option<Seq<char>>,
    pub tags: Option<Seq<Seq<char>>>,
    pub required_permissions: Option<Seq<Seq<char>>>,
    pub bindable: Option<bool>,
    pub instances_retrievable: Option<bool>,
    pub bindings_retrievable: Option<bool>,
    pub allow_context_updates: Option<bool>,
    pub metadata: Option<Seq<(Seq<char>, Seq<char>)>>,
    pub plan_updateable: Option<bool>,
    pub plans: Option<Seq<ServicePlanView>>,
}

/// The gathering before any field has been read.
pub open spec fn service_acc_init() -> ServiceAcc {
    ServiceAcc {
        id: Option::None,
        name: Option::None,
        description: Option::None,
        tags: Option::None,
        required_permissions: Option::None,
        bindable: Option::None,
        instances_retrievable: Option::None,
        bindings_retrievable: Option::None,
        allow_context_updates: Option::None,
        metadata: Option::None,
        plan_updateable: Option::None,
        plans: Option::None,
    }
}

/// The service a finished gathering denotes: each required field must have
/// been read; an optional field that was not stays absent.
pub open spec fn service_acc_done(a: ServiceAcc) -> Option<ServiceView> {
    if a.id is Some && a.name is Some && a.description is Some && a.tags is Some
        && a.required_permissions is Some && a.bindable is Some && a.metadata is Some
        && a.plans is Some {
        Option::Some(
            ServiceView {
                name: a.name.unwrap(),
                id: a.id.unwrap(),
                description: a.description.unwrap(),
                tags: a.tags.unwrap(),
                required_permissions: a.required_permissions.unwrap(),
                bindable: a.bindable.unwrap(),
                instances_retrievable: a.instances_retrievable,
                bindings_retrievable: a.bindings_retrievable,
                allow_context_updates: a.allow_context_updates,
                metadata: a.metadata.unwrap(),
                plan_updateable: a.plan_updateable,
                plans: a.plans.unwrap(),
            },
        )
    } else {
        Option::None
    }
}

/// The fields of a service object from a key position on: fields may come
/// in any order, a repeated field is refused, an unknown field is skipped.
pub open spec fn scan_service_fields(s: Seq<char>, i: int, a: ServiceAcc) -> Option<
    (ServiceView, int),
>
    decreases s.len() - i, 0int,
        when 0 <= i <= s.len()
        via scan_service_fields_dec
{
    match scan_string(s, i) {
        Option::None => Option::None,
        Option::Some((key, j)) => match scan_sym(s, j, ':') {
            Option::None => Option::None,
            Option::Some(k) => if key == "id"@ {
                if a.id is Some {
                    Option::None
                } else {
                    match scan_string(s, k) {
                        Option::None => Option::None,
                        Option::Some((v, m)) => scan_service_more(
                            s,
                            m,
                            ServiceAcc { id: Option::Some(v), ..a },
                        ),
                    }
                }
            } else if key == "name"@ {
                if a.name is Some {
                    Option::None
                } else {
                    match scan_string(s, k) {
                        Option::None => Option::None,
                        Option::Some((v, m)) => scan_service_more(
                            s,
                            m,
                            ServiceAcc { name: Option::Some(v), ..a },
                        ),
                    }
                }
            } else if key == "description"@ {
                if a.description is Some {
                    Option::None
                } else {
                    match scan_string(s, k) {
                        Option::None => Option::None,
                        Option::Some((v, m)) => scan_service_more(
                            s,
                            m,
                            ServiceAcc { description: Option::Some(v), ..a },
                        ),
                    }
                }
            } else if key == "tags"@ {
                if a.tags is Some {
                    Option::None
                } else {
                    match scan_string_array(s, k) {
                        Option::None => Option::None,
                        Option::Some((v, m)) => scan_service_more(
                            s,
                            m,
                            ServiceAcc { tags: Option::Some(v), ..a },
                        ),
                    }
                }
            } else if key == "requires"@ {
                if a.required_permissions is Some {
                    Option::None
                } else {
                    match scan_string_array(s, k) {
                        Option::None => Option::None,
                        Option::Some((v, m)) => scan_service_more(
                            s,
                            m,
                            ServiceAcc { required_permissions: Option::Some(v), ..a },
                        ),
                    }
                }
            } else if key == "bindable"@ {
                if a.bindable is Some {
                    Option::None
                } else {
                    match scan_bool(s, k) {
                        Option::None => Option::None,
                        Option::Some((b, m)) => scan_service_more(
                            s,
                            m,
                            ServiceAcc { bindable: Option::Some(b), ..a },
                        ),
                    }
                }
            } else if key == "instances_retrievable"@ {
                if a.instances_retrievable is Some {
                    Option::None
                } else {
                    match scan_opt_bool(s, k) {
                        Option::None => Option::None,
                        Option::Some((b, m)) => scan_service_more(
                            s,
                            m,
                            ServiceAcc { instances_retrievable: b, ..a },
                        ),
                    }
                }
            } else if key == "bindings_retrievable"@ {
                if a.bindings_retrievable is Some {
                    Option::None
                } else {
                    match scan_opt_bool(s, k) {
                        Option::None => Option::None,
                        Option::Some((b, m)) => scan_service_more(
                            s,
                            m,
                            ServiceAcc { bindings_retrievable: b, ..a },
                        ),
                    }
                }
            } else if key == "allow_context_updates"@ {
                if a.allow_context_updates is Some {
                    Option::None
                } else {
                    match scan_opt_bool(s, k) {
                        Option::None => Option::None,
                        Option::Some((b, m)) => scan_service_more(
                            s,
                            m,
                            ServiceAcc { allow_context_updates: b, ..a },
                        ),
                    }
                }
            } else if key == "plan_updateable"@ {
                if a.plan_updateable is Some {
                    Option::None
                } else {
                    match scan_opt_bool(s, k) {
                        Option::None => Option::None,
                        Option::Some((b, m)) => scan_service_more(
                            s,
                            m,
                            ServiceAcc { plan_updateable: b, ..a },
                        ),
                    }
                }
            } else if key == "metadata"@ {
                if a.metadata is Some {
                    Option::None
                } else {
                    match scan_metadata(s, k) {
                        Option::None => Option::None,
                        Option::Some((v, m)) => scan_service_more(
                            s,
                            m,
                            ServiceAcc { metadata: Option::Some(v), ..a },
                        ),
                    }
                }
            } else if key == "plans"@ {
                if a.plans is Some {
                    Option::None
                } else {
                    match scan_plan_array(s, k) {
                        Option::None => Option::None,
                        Option::Some((v, m)) => scan_service_more(
                            s,
                            m,
                            ServiceAcc { plans: Option::Some(v), ..a },
                        ),
                    }
                }
            } else {
                match scan_value(s, k) {
                    Option::None => Option::None,
                    Option::Some(m0) => {
                        let m = if m0 > k {
                            m0
                        } else {
                            k + 1
                        };
                        scan_service_more(s, m, a)
                    },
                }
            },
        },
    }
}

#[via_fn]
proof fn scan_service_fields_dec(s: Seq<char>, i: int, a: ServiceAcc) {
    lemma_scan_string_bounds(s, i);
    match scan_string(s, i) {
        Option::None => {},
        Option::Some((key, j)) => {
            lemma_scan_sym_bounds(s, j, ':');
            match scan_sym(s, j, ':') {
                Option::None => {},
                Option::Some(k) => {
                    lemma_scan_string_bounds(s, k);
                    lemma_scan_string_array_bounds(s, k);
                    lemma_scan_metadata_bounds(s, k);
                    lemma_scan_bool_bounds(s, k);
                    lemma_scan_opt_bool_bounds(s, k);
                    lemma_scan_plan_array_bounds(s, k);
                    lemma_scan_value_bounds(s, k);
                },
            }
        },
    }
}

/// After one field of a service object: a comma and further fields, or the
/// closing brace and the finished service.
pub open spec fn scan_service_more(s: Seq<char>, i: int, a: ServiceAcc) -> Option<
    (ServiceView, int),
>
    decreases s.len() - i, 1int,
        when 0 <= i <= s.len()
        via scan_service_more_dec
{
    let t = scan_ws(s, i);
    if t < s.len() && s[t] == ',' {
        scan_service_fields(s, t + 1, a)
    } else if t < s.len() && s[t] == '}' {
        match service_acc_done(a) {
            Option::Some(v) => Option::Some((v, t + 1)),
            Option::None => Option::None,
        }
    } else {
        Option::None
    }
}

#[via_fn]
proof fn scan_service_more_dec(s: Seq<char>, i: int, a: ServiceAcc) {
    lemma_scan_ws_bounds(s, i);
}

/// A service object token.
pub open spec fn scan_service(s: Seq<char>, i: int) -> Option<(ServiceView, int)> {
    match scan_sym(s, i, '{') {
        Option::None => Option::None,
        Option::Some(j) => scan_service_fields(s, j, service_acc_init()),
    }
}

pub proof fn lemma_scan_service_fields_bounds(s: Seq<char>, i: int, a: ServiceAcc)
    requires
        0 <= i <= s.len(),
    ensures
        scan_service_fields(s, i, a) matches Some(r) ==> i < r.1 <= s.len(),
    decreases s.len() - i, 0int,
{
    lemma_scan_string_bounds(s, i);
    match scan_string(s, i) {
        Option::None => {},
        Option::Some((key, j)) => {
            lemma_scan_sym_bounds(s, j, ':');
            match scan_sym(s, j, ':') {
                Option::None => {},
                Option::Some(k) => {
                    if key == "id"@ {
                        lemma_scan_string_bounds(s, k);
                        match scan_string(s, k) {
                            Option::None => {},
                            Option::Some((v, m)) => {
                                lemma_scan_service_more_bounds(s, m, ServiceAcc { id: Option::Some(v), ..a });
                            },
                        }
                    } else if key == "name"@ {
                        lemma_scan_string_bounds(s, k);
                        match scan_string(s, k) {
                            Option::None => {},
                            Option::Some((v, m)) => {
                                lemma_scan_service_more_bounds(s, m, ServiceAcc { name: Option::Some(v), ..a });
                            },
                        }
                    } else if key == "description"@ {
                        lemma_scan_string_bounds(s, k);
                        match scan_string(s, k) {
                            Option::None => {},
                            Option::Some((v, m)) => {
                                lemma_scan_service_more_bounds(s, m, ServiceAcc { description: Option::Some(v), ..a });
                            },
                        }
                    } else if key == "tags"@ {
                        lemma_scan_string_array_bounds(s, k);
                        match scan_string_array(s, k) {
                            Option::None => {},
                            Option::Some((v, m)) => {
                                lemma_scan_service_more_bounds(s, m, ServiceAcc { tags: Option::Some(v), ..a });
                            },
                        }
                    } else if key == "requires"@ {
                        lemma_scan_string_array_bounds(s, k);
                        match scan_string_array(s, k) {
                            Option::None => {},
                            Option::Some((v, m)) => {
                                lemma_scan_service_more_bounds(s, m, ServiceAcc { required_permissions: Option::Some(v), ..a });
                            },
                        }
                    } else if key == "bindable"@ {
                        lemma_scan_bool_bounds(s, k);
                        match scan_bool(s, k) {
                            Option::None => {},
                            Option::Some((b, m)) => {
                                lemma_scan_service_more_bounds(s, m, ServiceAcc { bindable: Option::Some(b), ..a });
                            },
                        }
                    } else if key == "instances_retrievable"@ {
                        lemma_scan_opt_bool_bounds(s, k);
                        match scan_opt_bool(s, k) {
                            Option::None => {},
                            Option::Some((ob, m)) => {
                                lemma_scan_service_more_bounds(s, m, ServiceAcc { instances_retrievable: ob, ..a });
                            },
                        }
                    } else if key == "bindings_retrievable"@ {
                        lemma_scan_opt_bool_bounds(s, k);
                        match scan_opt_bool(s, k) {
                            Option::None => {},
                            Option::Some((ob, m)) => {
                                lemma_scan_service_more_bounds(s, m, ServiceAcc { bindings_retrievable: ob, ..a });
                            },
                        }
                    } else if key == "allow_context_updates"@ {
                        lemma_scan_opt_bool_bounds(s, k);
                        match scan_opt_bool(s, k) {
                            Option::None => {},
                            Option::Some((ob, m)) => {
                                lemma_scan_service_more_bounds(s, m, ServiceAcc { allow_context_updates: ob, ..a });
                            },
                        }
                    } else if key == "plan_updateable"@ {
                        lemma_scan_opt_bool_bounds(s, k);
                        match scan_opt_bool(s, k) {
                            Option::None => {},
                            Option::Some((ob, m)) => {
                                lemma_scan_service_more_bounds(s, m, ServiceAcc { plan_updateable: ob, ..a });
                            },
                        }
                    } else if key == "metadata"@ {
                        lemma_scan_metadata_bounds(s, k);
                        match scan_metadata(s, k) {
                            Option::None => {},
                            Option::Some((v, m)) => {
                                lemma_scan_service_more_bounds(s, m, ServiceAcc { metadata: Option::Some(v), ..a });
                            },
                        }
                    } else if key == "plans"@ {
                        lemma_scan_plan_array_bounds(s, k);
                        match scan_plan_array(s, k) {
                            Option::None => {},
                            Option::Some((v, m)) => {
                                lemma_scan_service_more_bounds(s, m, ServiceAcc { plans: Option::Some(v), ..a });
                            },
                        }
                    } else {
                        lemma_scan_value_bounds(s, k);
                        match scan_value(s, k) {
                            Option::None => {},
                            Option::Some(m0) => {
                                let m = if m0 > k {
                                    m0
                                } else {
                                    k + 1
                                };
                                lemma_scan_service_more_bounds(s, m, a);
                            },
                        }
                    }
                },
            }
        },
    }
}

pub proof fn lemma_scan_service_more_bounds(s: Seq<char>, i: int, a: ServiceAcc)
    requires
        0 <= i <= s.len(),
    ensures
        scan_service_more(s, i, a) matches Some(r) ==> i < r.1 <= s.len(),
    decreases s.len() - i, 1int,
{
    lemma_scan_ws_bounds(s, i);
    let t = scan_ws(s, i);
    if t < s.len() && s[t] == ',' {
        lemma_scan_service_fields_bounds(s, t + 1, a);
    }
}

pub proof fn lemma_scan_service_bounds(s: Seq<char>, i: int)
    requires
        0 <= i <= s.len(),
    ensures
        scan_service(s, i) matches Some(r) ==> i < r.1 <= s.len(),
{
    lemma_scan_sym_bounds(s, i, '{');
    match scan_sym(s, i, '{') {
        Option::None => {},
        Option::Some(j) => {
            lemma_scan_service_fields_bounds(s, j, service_acc_init());
        },
    }
}

/// One or more service objects followed by the closing bracket.
pub open spec fn scan_service_items(s: Seq<char>, i: int) -> Option<(Seq<ServiceView>, int)>
    decreases s.len() - i,
        when 0 <= i <= s.len()
        via scan_service_items_dec
{
    match scan_service(s, i) {
        Option::None => Option::None,
        Option::Some((v, j)) => {
            let k = scan_ws(s, j);
            if k < s.len() && s[k] == ',' {
                match scan_service_items(s, k + 1) {
                    Option::None => Option::None,
                    Option::Some((rest, m)) => Option::Some((seq![v] + rest, m)),
                }
            } else if k < s.len() && s[k] == ']' {
                Option::Some((seq![v], k + 1))
            } else {
                Option::None
            }
        },
    }
}

#[via_fn]
proof fn scan_service_items_dec(s: Seq<char>, i: int) {
    lemma_scan_service_bounds(s, i);
    match scan_service(s, i) {
        Option::None => {},
        Option::Some((v, j)) => {
            lemma_scan_ws_bounds(s, j);
        },
    }
}

/// A service array token.
pub open spec fn scan_service_array(s: Seq<char>, i: int) -> Option<(Seq<ServiceView>, int)> {
    match scan_sym(s, i, '[') {
        Option::None => Option::None,
        Option::Some(j) => {
            let k = scan_ws(s, j);
            if k < s.len() && s[k] == ']' {
                Option::Some((Seq::empty(), k + 1))
            } else {
                scan_service_items(s, j)
            }
        },
    }
}

pub proof fn lemma_scan_service_items_bounds(s: Seq<char>, i: int)
    requires
        0 <= i <= s.len(),
    ensures
        scan_service_items(s, i) matches Some(r) ==> i < r.1 <= s.len(),
    decreases s.len() - i,
{
    lemma_scan_service_bounds(s, i);
    match scan_service(s, i) {
        Option::None => {},
        Option::Some((v, j)) => {
            lemma_scan_ws_bounds(s, j);
            let k = scan_ws(s, j);
            if k < s.len() && s[k] == ',' {
                lemma_scan_service_items_bounds(s, k + 1);
            }
        },
    }
}

pub proof fn lemma_scan_service_array_bounds(s: Seq<char>, i: int)
    requires
        0 <= i <= s.len(),
    ensures
        scan_service_array(s, i) matches Some(r) ==> i < r.1 <= s.len(),
{
    lemma_scan_sym_bounds(s, i, '[');
    match scan_sym(s, i, '[') {
        Option::None => {},
        Option::Some(j) => {
            lemma_scan_ws_bounds(s, j);
            lemma_scan_service_items_bounds(s, j);
        },
    }
}

/// The fields of a catalog object from a key position on: the `services`
/// array, in any position among unknown fields, which are skipped.
pub open spec fn scan_catalog_fields(s: Seq<char>, i: int, services: Option<Seq<ServiceView>>) -> Option<
    (CatalogView, int),
>
    decreases s.len() - i, 0int,
        when 0 <= i <= s.len()
        via scan_catalog_fields_dec
{
    match scan_string(s, i) {
        Option::None => Option::None,
        Option::Some((key, j)) => match scan_sym(s, j, ':') {
            Option::None => Option::None,
            Option::Some(k) => if key == "services"@ {
                if services is Some {
                    Option::None
                } else {
                    match scan_service_array(s, k) {
                        Option::None => Option::None,
                        Option::Some((v, m)) => scan_catalog_more(s, m, Option::Some(v)),
                    }
                }
            } else {
                match scan_value(s, k) {
                    Option::None => Option::None,
                    Option::Some(m0) => {
                        let m = if m0 > k {
                            m0
                        } else {
                            k + 1
                        };
                        scan_catalog_more(s, m, services)
                    },
                }
            },
        },
    }
}

#[via_fn]
proof fn scan_catalog_fields_dec(s: Seq<char>, i: int, services: Option<Seq<ServiceView>>) {
    lemma_scan_string_bounds(s, i);
    match scan_string(s, i) {
        Option::None => {},
        Option::Some((key, j)) => {
            lemma_scan_sym_bounds(s, j, ':');
            match scan_sym(s, j, ':') {
                Option::None => {},
                Option::Some(k) => {
                    lemma_scan_service_array_bounds(s, k);
                    lemma_scan_value_bounds(s, k);
                },
            }
        },
    }
}

/// After one field of a catalog object.
pub open spec fn scan_catalog_more(s: Seq<char>, i: int, services: Option<Seq<ServiceView>>) -> Option<
    (CatalogView, int),
>
    decreases s.len() - i, 1int,
        when 0 <= i <= s.len()
        via scan_catalog_more_dec
{
    let t = scan_ws(s, i);
    if t < s.len() && s[t] == ',' {
        scan_catalog_fields(s, t + 1, services)
    } else if t < s.len() && s[t] == '}' {
        match services {
            Option::Some(v) => Option::Some((CatalogView { services: v }, t + 1)),
            Option::None => Option::None,
        }
    } else {
        Option::None
    }
}

#[via_fn]
proof fn scan_catalog_more_dec(s: Seq<char>, i: int, services: Option<Seq<ServiceView>>) {
    lemma_scan_ws_bounds(s, i);
}

/// A catalog object token.
pub open spec fn scan_catalog(s: Seq<char>, i: int) -> Option<(CatalogView, int)> {
    match scan_sym(s, i, '{') {
        Option::None => Option::None,
        Option::Some(j) => scan_catalog_fields(s, j, Option::None),
    }
}

/// The catalog denoted by a whole document, when it is well-formed: one
/// catalog object with nothing but whitespace after it.
pub open spec fn scan_document(s: Seq<char>) -> Option<CatalogView> {
    match scan_catalog(s, 0) {
        Option::None => Option::None,
        Option::Some((c, j)) => if scan_ws(s, j) == s.len() {
            Option::Some(c)
        } else {
            Option::None
        },
    }
}

// ---------------------------------------------------------------------------
// Algebra of the printers
// ---------------------------------------------------------------------------
pub proof fn lemma_esc_string_push(s: Seq<char>, c: char)
    ensures
        esc_string(s.push(c)) == esc_string(s) + esc_char(c),
    decreases s.len(),
{
    if s.len() == 0 {
        assert(s.push(c)[0] == c);
        assert(s.push(c).drop_first() =~= Seq::<char>::empty());
        assert(esc_char(c) + esc_string(Seq::empty()) =~= esc_char(c));
        assert(esc_string(s) + esc_char(c) =~= esc_char(c));
    } else {
        assert(s.push(c)[0] == s[0]);
        assert(s.push(c).drop_first() =~= s.drop_first().push(c));
        lemma_esc_string_push(s.drop_first(), c);
        assert(esc_char(s[0]) + (esc_string(s.drop_first()) + esc_char(c)) =~= (esc_char(s[0])
            + esc_string(s.drop_first())) + esc_char(c));
    }
}

pub proof fn lemma_join_comma_push(items: Seq<Seq<char>>, x: Seq<char>)
    ensures
        join_comma(items.push(x)) == if items.len() == 0 {
            x
        } else {
            join_comma(items) + seq![','] + x
        },
    decreases items.len(),
{
    if items.len() == 0 {
        assert(items.push(x)[0] == x);
    } else if items.len() == 1 {
        assert(items.push(x)[0] == items[0]);
        assert(items.push(x).drop_first() =~= seq![x]);
        assert(join_comma(seq![x]) == x);
    } else {
        assert(items.push(x)[0] == items[0]);
        assert(items.push(x).drop_first() =~= items.drop_first().push(x));
        lemma_join_comma_push(items.drop_first(), x);
        assert(items[0] + seq![','] + (join_comma(items.drop_first()) + seq![','] + x) =~= (items[0]
            + seq![','] + join_comma(items.drop_first())) + seq![','] + x);
    }
}

pub proof fn lemma_seq_assoc(a: Seq<char>, b: Seq<char>, c: Seq<char>)
    ensures
        a + b + c == a + (b + c),
{
    assert(a + b + c =~= a + (b + c));
}

pub proof fn lemma_push_is_concat(a: Seq<char>, c: char)
    ensures
        a.push(c) == a + seq![c],
{
    assert(a.push(c) =~= a + seq![c]);
}

pub proof fn lemma_at_lit_char(s: Seq<char>, i: int, t: Seq<char>, k: int)
    requires
        at_lit(s, i, t),
        0 <= k < t.len(),
    ensures
        s[i + k] == t[k],
{
    assert(s.subrange(i, i + t.len())[k] == s[i + k]);
}

pub proof fn lemma_digits_val_nonneg(s: Seq<char>, i: int, j: int)
    requires
        forall|k: int| i <= k < j ==> is_digit(s[k]),
    ensures
        digits_val(s, i, j) >= 0,
    decreases j - i,
{
    if i < j {
        lemma_digits_val_nonneg(s, i, j - 1);
    }
}

} // verus!

//! Properties that relate the index's operations to one another.
use vstd::prelude::*;
use crate::json::{json_of, Json};
use crate::modinfo::{
    body_of, closing_len, delimiter, ends_well, entry_json, entry_name, find_post, first_named, has_name, index_model, scan,
    entries_of, starts_well, Phase, Scan,
};
use vstd::string::StringSliceAdditionalSpecFns;
use crate::text::bytes_le;
use crate::record::{decode_text, list_field, name_field, outcome, DecodeError, DecodeFault, Module};

verus! {

/// A lookup finds nothing exactly when the list of module names lacks the
/// name: `names` is what `module_names` returns for entries `es`, and `r` what
/// `find` returns for `name`.
pub proof fn law_lookup_misses_only_unlisted(
    es: Seq<(&str, &str)>,
    names: Seq<&str>,
    name: Seq<char>,
    r: Option<Result<Module, DecodeError>>,
)
    requires
        names.len() == es.len(),
        forall|k: int| 0 <= k < names.len() ==> names[k] == (#[trigger] es[k]).0,
        find_post(es, name, r),
    ensures
        r is None <==> forall|k: int| 0 <= k < names.len() ==> (#[trigger] names[k])@ != name,
{
    if has_name(es, name) {
        let k = choose|k: int| 0 <= k < es.len() && (#[trigger] es[k]).0@ == name;
        assert(names[k]@ == name);
    } else {
        assert forall|k: int| 0 <= k < names.len() implies (#[trigger] names[k])@ != name by {
            assert(names[k] == es[k].0);
        }
    }
}

/// Two lookups of one name in one index agree: both find nothing, or both
/// decode the same record or fail the same way.
pub proof fn law_lookup_repeatable(
    es: Seq<(&str, &str)>,
    name: Seq<char>,
    r1: Option<Result<Module, DecodeError>>,
    r2: Option<Result<Module, DecodeError>>,
)
    requires
        find_post(es, name, r1),
        find_post(es, name, r2),
    ensures
        r1 is None <==> r2 is None,
        r1 is Some ==> outcome(r1->0) == outcome(r2->0),
{
    if r1 is Some {
        let k1 = choose|k: int| first_named(es, name, k) && outcome(r1->0) == decode_text(#[trigger] es[k].1@);
        let k2 = choose|k: int| first_named(es, name, k) && outcome(r2->0) == decode_text(#[trigger] es[k].1@);
        if k1 < k2 {
            assert(es[k1].0@ == name);
        } else if k2 < k1 {
            assert(es[k2].0@ == name);
        }
        assert(k1 == k2);
    }
}

/// The payload `text` is a JSON object whose `module_name` is `name`, whose
/// `path` and `class` are lists of strings, and whose optional lists are
/// absent, null or lists of strings.
pub open spec fn payload_complete(text: Seq<char>, name: Seq<char>) -> bool {
    match json_of(text) {
        Some(Json::Object(o)) => {
            let f = o@;
            &&& name_field(f) == Ok::<Seq<char>, DecodeFault>(name)
            &&& list_field(f, "path"@, true) is Ok
            &&& list_field(f, "installed"@, false) is Ok
            &&& list_field(f, "dependencies"@, false) is Ok
            &&& list_field(f, "class"@, true) is Ok
            &&& list_field(f, "supported_variants"@, false) is Ok
            &&& list_field(f, "shared_libs"@, false) is Ok
            &&& list_field(f, "static_libs"@, false) is Ok
            &&& list_field(f, "system_shared_libs"@, false) is Ok
        },
        _ => false,
    }
}

/// A lookup of a listed name whose payloads are complete decodes a record,
/// and the record carries that name.
pub proof fn law_found_record_has_its_name(
    es: Seq<(&str, &str)>,
    name: Seq<char>,
    r: Option<Result<Module, DecodeError>>,
)
    requires
        find_post(es, name, r),
        has_name(es, name),
        forall|k: int| 0 <= k < es.len() && (#[trigger] es[k]).0@ == name ==> payload_complete(es[k].1@, name),
    ensures
        r is Some,
        r->0 is Ok,
        r->0->Ok_0.name@ == name,
{
    let k = choose|k: int| first_named(es, name, k) && outcome(r->0) == decode_text(#[trigger] es[k].1@);
    assert(payload_complete(es[k].1@, name));
}

/// The document `{\n}\n`, or `{\n}`, gives an index without entries, in
/// which every lookup finds nothing.
pub proof fn law_empty_document(d: Seq<u8>)
    requires
        d == seq![123u8, 10u8, 125u8, 10u8] || d == seq![123u8, 10u8, 125u8],
    ensures
        index_model(d) == Ok::<Seq<(int, int, int, int)>, (int, Seq<char>)>(Seq::empty()),
        forall|es: Seq<(&str, &str)>, name: Seq<char>, r: Option<Result<Module, DecodeError>>|
            es.len() == 0 && #[trigger] find_post(es, name, r) ==> r is None,
{
    assert(body_of(d).len() == 0);
    assert(scan(body_of(d), 0).entries == Seq::<(int, int, int, int)>::empty());
}

/// A document is rejected when it is empty or does not open with the line
/// `{`.
pub proof fn law_unwrapped_rejected(d: Seq<u8>)
    requires
        d.len() == 0 || !starts_well(d),
    ensures
        index_model(d) is Err,
{
}

proof fn lemma_open_name_stays(body: Seq<u8>, i: int, n: int)
    requires
        0 <= i < n <= body.len(),
        scan(body, i).phase == Phase::InsideName,
        body[i] == 10,
    ensures
        scan(body, n).open_name is Some,
    decreases n,
{
    if n > i + 1 {
        lemma_open_name_stays(body, i, n - 1);
    }
}

/// A name whose line ends before its closing quote rejects the document:
/// `i` is the position of that line feed in the body.
pub proof fn law_unterminated_name_rejected(d: Seq<u8>, i: int)
    requires
        starts_well(d),
        ends_well(d),
        0 <= i < body_of(d).len(),
        scan(body_of(d), i).phase == Phase::InsideName,
        body_of(d)[i] == 10,
    ensures
        index_model(d) is Err,
{
    lemma_open_name_stays(body_of(d), i, body_of(d).len() as int);
}

proof fn lemma_payload_stays_open(body: Seq<u8>, j: int, n: int)
    requires
        0 <= j <= n <= body.len(),
        scan(body, j).phase == Phase::InsideJson,
        forall|k: int| j <= k < body.len() ==> body[k] != 125,
    ensures
        scan(body, n).phase == Phase::InsideJson,
    decreases n,
{
    if n > j {
        lemma_payload_stays_open(body, j, n - 1);
    }
}

/// A payload still open at body position `j`, with no closing brace from
/// there to the end of the body, rejects the document.
pub proof fn law_unterminated_payload_rejected(d: Seq<u8>, j: int)
    requires
        starts_well(d),
        ends_well(d),
        0 <= j <= body_of(d).len(),
        scan(body_of(d), j).phase == Phase::InsideJson,
        forall|k: int| j <= k < body_of(d).len() ==> body_of(d)[k] != 125,
    ensures
        index_model(d) is Err,
{
    lemma_payload_stays_open(body_of(d), j, body_of(d).len() as int);
}

/// One entry line: two spaces, the quoted name, `: `, the payload, and a
/// line feed, after a comma where `comma` holds.
pub open spec fn entry_text(name: Seq<u8>, payload: Seq<u8>, comma: bool) -> Seq<u8> {
    seq![32u8, 32u8, 34u8] + name + seq![34u8, 58u8, 32u8] + payload + if comma {
        seq![44u8, 10u8]
    } else {
        seq![10u8]
    }
}

/// The first `k` entry lines.
pub open spec fn entries_text(names: Seq<Seq<u8>>, payloads: Seq<Seq<u8>>, commas: Seq<bool>, k: nat) -> Seq<u8>
    decreases k,
{
    if k == 0 {
        seq![]
    } else {
        entries_text(names, payloads, commas, (k - 1) as nat) + entry_text(
            names[k - 1],
            payloads[k - 1],
            commas[k - 1],
        )
    }
}

/// The document `{`, one line per entry, `}`.
pub open spec fn document_of(names: Seq<Seq<u8>>, payloads: Seq<Seq<u8>>, commas: Seq<bool>) -> Seq<u8> {
    seq![123u8, 10u8] + entries_text(names, payloads, commas, names.len()) + seq![125u8, 10u8]
}

/// A name without quotes or line feeds.
pub open spec fn plain_name(n: Seq<u8>) -> bool {
    forall|i: int| 0 <= i < n.len() ==> n[i] != 34 && n[i] != 10
}

/// A payload `{...}` with no `}` before its last byte.
pub open spec fn plain_payload(p: Seq<u8>) -> bool {
    &&& p.len() >= 2
    &&& p[0] == 123
    &&& p[p.len() - 1] == 125
    &&& forall|i: int| 0 <= i < p.len() - 1 ==> p[i] != 125
}

pub open spec fn same_but_line(s: Scan, t: Scan) -> bool {
    &&& s.phase == t.phase
    &&& s.name_start == t.name_start
    &&& s.name_end == t.name_end
    &&& s.json_start == t.json_start
    &&& s.entry_line == t.entry_line
    &&& s.entries == t.entries
    &&& s.unsorted == t.unsorted
    &&& s.open_name == t.open_name
}

proof fn lemma_run(b: Seq<u8>, a: int, m: int)
    requires
        0 <= a <= m <= b.len(),
        forall|k: int|
            a <= k < m ==> b[k] != delimiter(scan(b, a).phase) && (scan(b, a).phase == Phase::InsideName
                ==> b[k] != 10),
    ensures
        same_but_line(scan(b, m), scan(b, a)),
    decreases m,
{
    if m > a {
        lemma_run(b, a, m - 1);
    }
}

proof fn lemma_line(b: Seq<u8>, o: int, name: Seq<u8>, p: Seq<u8>, comma: bool)
    requires
        0 <= o,
        o + entry_text(name, p, comma).len() <= b.len(),
        b.subrange(o, o + entry_text(name, p, comma).len()) == entry_text(name, p, comma),
        plain_name(name),
        plain_payload(p),
        scan(b, o).phase == Phase::BeforeName,
        scan(b, o).open_name is None,
        scan(b, o).unsorted is None,
        scan(b, o).entries.len() > 0 ==> bytes_le(entry_name(b, scan(b, o).entries.last()), name),
    ensures
        ({
            let s = scan(b, o + entry_text(name, p, comma).len());
            let l = name.len() as int;
            &&& s.phase == Phase::BeforeName
            &&& s.open_name is None
            &&& s.unsorted is None
            &&& s.entries == scan(b, o).entries.push((o + 3, o + 3 + l, o + 6 + l, o + 6 + l + p.len()))
            &&& entry_name(b, (o + 3, o + 3 + l, o + 6 + l, o + 6 + l + p.len())) == name
            &&& entry_json(b, (o + 3, o + 3 + l, o + 6 + l, o + 6 + l + p.len())) == p
        }),
{
    let t = entry_text(name, p, comma);
    let l = name.len() as int;
    let pl = p.len() as int;
    assert forall|x: int| 0 <= x < t.len() implies b[o + x] == #[trigger] t[x] by {
        assert(b.subrange(o, o + t.len())[x] == t[x]);
    }
    assert(t[0] == 32 && t[1] == 32 && t[2] == 34);
    assert forall|i: int| 0 <= i < l implies t[3 + i] == name[i] by {}
    assert(t[3 + l] == 34 && t[4 + l] == 58 && t[5 + l] == 32);
    assert forall|j: int| 0 <= j < pl implies t[6 + l + j] == p[j] by {}
    assert(t.len() == 6 + l + pl + if comma { 2int } else { 1int });
    assert(forall|j: int| 6 + l + pl <= j < t.len() ==> t[j] == 44 || t[j] == 10);
    let s0 = scan(b, o);
    lemma_run(b, o, o + 2);
    assert(b[o + 2] == 34);
    let s1 = scan(b, o + 3);
    assert(s1.phase == Phase::InsideName && s1.name_start == o + 3);
    assert forall|k: int| o + 3 <= k < o + 3 + l implies b[k] != 34 && b[k] != 10 by {
        assert(b[k] == t[k - o]);
        assert(t[3 + (k - o - 3)] == name[k - o - 3]);
    }
    lemma_run(b, o + 3, o + 3 + l);
    assert(b[o + 3 + l] == 34);
    let s2 = scan(b, o + 4 + l);
    assert(s2.phase == Phase::BeforeJson && s2.name_end == o + 3 + l);
    lemma_run(b, o + 4 + l, o + 6 + l);
    assert(b[o + 6 + l] == 123) by {
        assert(t[6 + l + 0] == p[0]);
    }
    let s3 = scan(b, o + 7 + l);
    assert(s3.phase == Phase::InsideJson && s3.json_start == o + 6 + l);
    assert forall|k: int| o + 7 + l <= k < o + 5 + l + pl implies b[k] != 125 by {
        assert(b[k] == t[k - o]);
        assert(t[6 + l + (k - o - 6 - l)] == p[k - o - 6 - l]);
    }
    lemma_run(b, o + 7 + l, o + 5 + l + pl);
    assert(b[o + 5 + l + pl] == 125) by {
        assert(t[6 + l + (pl - 1)] == p[pl - 1]);
    }
    assert(entry_name(b, (o + 3, o + 3 + l, o + 6 + l, o + 6 + l + pl)) =~= name) by {
        assert forall|i: int| 0 <= i < l implies b.subrange(o + 3, o + 3 + l)[i] == name[i] by {
            assert(b[o + 3 + i] == t[3 + i]);
        }
    }
    assert(entry_json(b, (o + 3, o + 3 + l, o + 6 + l, o + 6 + l + pl)) =~= p) by {
        assert forall|j: int| 0 <= j < pl implies b.subrange(o + 6 + l, o + 6 + l + pl)[j] == p[j] by {
            assert(b[o + 6 + l + j] == t[6 + l + j]);
        }
    }
    let s4 = scan(b, o + 6 + l + pl);
    assert(s4.phase == Phase::BeforeName);
    assert forall|k: int| o + 6 + l + pl <= k < o + t.len() implies b[k] != 34 by {
        assert(b[k] == t[k - o]);
    }
    lemma_run(b, o + 6 + l + pl, o + t.len());
}

proof fn lemma_prefix(names: Seq<Seq<u8>>, ps: Seq<Seq<u8>>, commas: Seq<bool>, n: nat, k: nat)
    requires
        k <= n <= names.len(),
        ps.len() == names.len(),
        commas.len() == names.len(),
    ensures
        entries_text(names, ps, commas, k).len() <= entries_text(names, ps, commas, n).len(),
        entries_text(names, ps, commas, n).subrange(0, entries_text(names, ps, commas, k).len() as int)
            == entries_text(names, ps, commas, k),
    decreases n,
{
    if k < n {
        lemma_prefix(names, ps, commas, (n - 1) as nat, k);
        let a = entries_text(names, ps, commas, (n - 1) as nat);
        let e = entries_text(names, ps, commas, n);
        assert(e.subrange(0, a.len() as int) =~= a);
        assert(e.subrange(0, entries_text(names, ps, commas, k).len() as int) =~= a.subrange(
            0,
            entries_text(names, ps, commas, k).len() as int,
        ));
    } else {
        assert(entries_text(names, ps, commas, n).subrange(0, entries_text(names, ps, commas, n).len() as int)
            =~= entries_text(names, ps, commas, n));
    }
}

proof fn lemma_line_at(names: Seq<Seq<u8>>, ps: Seq<Seq<u8>>, commas: Seq<bool>, k1: nat)
    requires
        k1 < names.len(),
        ps.len() == names.len(),
        commas.len() == names.len(),
    ensures
        ({
            let b = entries_text(names, ps, commas, names.len());
            let o = entries_text(names, ps, commas, k1).len() as int;
            let t = entry_text(names[k1 as int], ps[k1 as int], commas[k1 as int]);
            &&& o + t.len() <= b.len()
            &&& b.subrange(o, o + t.len()) == t
        }),
{
    let n = names.len();
    let b = entries_text(names, ps, commas, n);
    let k = (k1 + 1) as nat;
    let o = entries_text(names, ps, commas, k1).len() as int;
    let t = entry_text(names[k1 as int], ps[k1 as int], commas[k1 as int]);
    lemma_prefix(names, ps, commas, n, k);
    let pre = entries_text(names, ps, commas, k);
    assert(pre == entries_text(names, ps, commas, k1) + t);
    assert forall|x: int| 0 <= x < t.len() implies b.subrange(o, o + t.len())[x] == t[x] by {
        assert(b.subrange(0, pre.len() as int)[o + x] == pre[o + x]);
        assert(pre[o + x] == t[x]);
    }
    assert(b.subrange(o, o + t.len()) =~= t);
}

#[verifier::rlimit(40)]
proof fn lemma_scan_lines(names: Seq<Seq<u8>>, ps: Seq<Seq<u8>>, commas: Seq<bool>, k: nat)
    requires
        k <= names.len(),
        ps.len() == names.len(),
        commas.len() == names.len(),
        forall|j: int| 0 <= j < names.len() ==> plain_name(#[trigger] names[j]) && plain_payload(ps[j]),
        forall|j: int| 0 < j < names.len() ==> bytes_le(names[j - 1], #[trigger] names[j]),
    ensures
        ({
            let b = entries_text(names, ps, commas, names.len());
            let s = scan(b, entries_text(names, ps, commas, k).len() as int);
            &&& s.phase == Phase::BeforeName
            &&& s.open_name is None
            &&& s.unsorted is None
            &&& s.entries.len() == k
            &&& forall|j: int| 0 <= j < k ==> entry_name(b, #[trigger] s.entries[j]) == names[j]
                && entry_json(b, s.entries[j]) == ps[j]
        }),
    decreases k,
{
    let n = names.len();
    let b = entries_text(names, ps, commas, n);
    if k > 0 {
        let k1 = (k - 1) as nat;
        lemma_scan_lines(names, ps, commas, k1);
        let o = entries_text(names, ps, commas, k1).len() as int;
        lemma_line_at(names, ps, commas, k1);
        let s0 = scan(b, o);
        if k1 > 0 {
            assert(entry_name(b, s0.entries.last()) == names[k1 - 1]);
        }
        lemma_line(b, o, names[k1 as int], ps[k1 as int], commas[k1 as int]);
        assert(entries_text(names, ps, commas, k).len() == o + entry_text(
            names[k1 as int],
            ps[k1 as int],
            commas[k1 as int],
        ).len());
    }
}

/// A document of `n` entry lines, each `  "NAME": {...}` with an optional
/// comma, names in byte order, gives exactly `n` entries: entry `k` has the
/// `k`-th name and payload, in document order.
pub proof fn law_entries_of_built_document(names: Seq<Seq<u8>>, payloads: Seq<Seq<u8>>, commas: Seq<bool>)
    requires
        payloads.len() == names.len(),
        commas.len() == names.len(),
        forall|j: int| 0 <= j < names.len() ==> plain_name(#[trigger] names[j]) && plain_payload(payloads[j]),
        forall|j: int| 0 < j < names.len() ==> bytes_le(names[j - 1], #[trigger] names[j]),
    ensures
        index_model(document_of(names, payloads, commas)) is Ok,
        ({
            let d = document_of(names, payloads, commas);
            let es = index_model(d)->Ok_0;
            &&& es.len() == names.len()
            &&& forall|k: int| 0 <= k < es.len() ==> entry_name(body_of(d), #[trigger] es[k]) == names[k]
                && entry_json(body_of(d), es[k]) == payloads[k]
        }),
{
    let n = names.len();
    let d = document_of(names, payloads, commas);
    let e = entries_text(names, payloads, commas, n);
    assert(e.len() > 0 ==> e[e.len() - 1] == 10) by {
        if n > 0 {
            let t = entry_text(names[n - 1], payloads[n - 1], commas[n - 1]);
            assert(e == entries_text(names, payloads, commas, (n - 1) as nat) + t);
        }
    }
    assert(closing_len(d) == 2);
    assert(body_of(d) =~= e);
    lemma_scan_lines(names, payloads, commas, n);
}

/// The names that `module_names` lists for such a document are its entry
/// names, as many and in document order: `es` are the entries `try_from`
/// gives, `listed` what `module_names` returns.
pub proof fn law_names_of_built_document(
    names: Seq<Seq<u8>>,
    payloads: Seq<Seq<u8>>,
    commas: Seq<bool>,
    es: Seq<(&str, &str)>,
    listed: Seq<&str>,
)
    requires
        payloads.len() == names.len(),
        commas.len() == names.len(),
        forall|j: int| 0 <= j < names.len() ==> plain_name(#[trigger] names[j]) && plain_payload(payloads[j]),
        forall|j: int| 0 < j < names.len() ==> bytes_le(names[j - 1], #[trigger] names[j]),
        entries_of(
            es,
            body_of(document_of(names, payloads, commas)),
            index_model(document_of(names, payloads, commas))->Ok_0,
        ),
        listed.len() == es.len(),
        forall|k: int| 0 <= k < listed.len() ==> listed[k] == (#[trigger] es[k]).0,
    ensures
        listed.len() == names.len(),
        forall|k: int| 0 <= k < listed.len() ==> (#[trigger] listed[k]).spec_bytes() == names[k],
{
    law_entries_of_built_document(names, payloads, commas);
    let d = document_of(names, payloads, commas);
    let m = index_model(d)->Ok_0;
    assert forall|k: int| 0 <= k < listed.len() implies (#[trigger] listed[k]).spec_bytes() == names[k] by {
        assert(es[k].0.spec_bytes() == entry_name(body_of(d), m[k]));
    }
}

} // verus!

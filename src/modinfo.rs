//! The module index: a scan of the outer document into `(name, payload)`
//! pairs, kept sorted by name, with lookup by binary search.
use vstd::prelude::*;
use vstd::string::StringSliceAdditionalSpecFns;
use vstd::utf8::*;
use crate::error::ParseError;
use crate::record::{decode, decode_text, outcome, DecodeError, Module};
use crate::text::{bytes_le, bytes_lt, compare_bytes, lemma_boundary_after_ascii, lemma_le_antisym, lemma_le_refl, lemma_le_total, lemma_le_trans, lemma_same_bytes_same_text, sub_str};

verus! {

broadcast use {vstd::seq::group_seq_axioms, vstd::utf8::group_utf8_lib};

/// Where the scanner stands between delimiters.
#[derive(Clone, Copy, PartialEq, Eq, Structural)]
pub enum Phase {
    BeforeName,
    InsideName,
    BeforeJson,
    InsideJson,
}

/// The byte that ends the current phase: `"`, `"`, `{` or `}`.
pub open spec fn delimiter(p: Phase) -> u8 {
    match p {
        Phase::BeforeName => 34,
        Phase::InsideName => 34,
        Phase::BeforeJson => 123,
        Phase::InsideJson => 125,
    }
}

/// The scanner's state after a prefix of the document body. Positions are
/// byte offsets into the body; an entry is `(name start, name end, payload
/// start, payload end)` with exclusive ends.
pub struct Scan {
    pub phase: Phase,
    pub name_start: int,
    pub name_end: int,
    pub json_start: int,
    pub line: int,
    pub entry_line: int,
    pub entries: Seq<(int, int, int, int)>,
    pub unsorted: Option<int>,
    pub open_name: Option<int>,
}

pub open spec fn entry_name(body: Seq<u8>, e: (int, int, int, int)) -> Seq<u8> {
    body.subrange(e.0, e.1)
}

pub open spec fn entry_json(body: Seq<u8>, e: (int, int, int, int)) -> Seq<u8> {
    body.subrange(e.2, e.3)
}

/// One byte of the scan: a byte other than the delimiter only counts lines,
/// and a line feed inside a name marks the entry's line as unterminated;
/// the delimiter moves to the next phase, and the closing `}` completes an
/// entry, noting the entry's line if its name sorts before the previous one.
pub open spec fn scan_step(body: Seq<u8>, s: Scan, i: int) -> Scan {
    let c = body[i];
    if c != delimiter(s.phase) {
        if c == 10 {
            let open_name = if s.open_name is None && s.phase == Phase::InsideName {
                Some(s.entry_line)
            } else {
                s.open_name
            };
            Scan { line: s.line + 1, open_name, ..s }
        } else {
            s
        }
    } else {
        match s.phase {
            Phase::BeforeName => Scan {
                phase: Phase::InsideName,
                name_start: i + 1,
                entry_line: s.line,
                ..s
            },
            Phase::InsideName => Scan { phase: Phase::BeforeJson, name_end: i, ..s },
            Phase::BeforeJson => Scan { phase: Phase::InsideJson, json_start: i, ..s },
            Phase::InsideJson => {
                let e = (s.name_start, s.name_end, s.json_start, i + 1);
                let unsorted = if s.unsorted is Some {
                    s.unsorted
                } else if s.entries.len() > 0 && !bytes_le(
                    entry_name(body, s.entries.last()),
                    entry_name(body, e),
                ) {
                    Some(s.entry_line)
                } else {
                    None
                };
                Scan { phase: Phase::BeforeName, entries: s.entries.push(e), unsorted, ..s }
            },
        }
    }
}

/// The scan of the first `n` bytes of the body, which starts on line 2.
pub open spec fn scan(body: Seq<u8>, n: int) -> Scan
    decreases n,
{
    if n <= 0 {
        Scan {
            phase: Phase::BeforeName,
            name_start: 0,
            name_end: 0,
            json_start: 0,
            line: 2,
            entry_line: 2,
            entries: seq![],
            unsorted: None,
            open_name: None,
        }
    } else {
        scan_step(body, scan(body, n - 1), n - 1)
    }
}

/// Number of line feeds among the first `n` bytes.
pub open spec fn newlines(b: Seq<u8>, n: int) -> int
    decreases n,
{
    if n <= 0 {
        0
    } else {
        newlines(b, n - 1) + if b[n - 1] == 10 { 1int } else { 0int }
    }
}

pub open spec fn starts_well(d: Seq<u8>) -> bool {
    d.len() >= 2 && d[0] == 123 && d[1] == 10
}

/// The document ends with a line `}` and a line feed.
pub open spec fn ends_with_closing_line(d: Seq<u8>) -> bool {
    d.len() >= 3 && d[d.len() - 3] == 10 && d[d.len() - 2] == 125 && d[d.len() - 1] == 10
}

/// The document ends with a line `}`, with or without a final line feed.
pub open spec fn ends_well(d: Seq<u8>) -> bool {
    ends_with_closing_line(d) || (d.len() >= 2 && d[d.len() - 2] == 10 && d[d.len() - 1] == 125)
}

/// How many bytes the closing `}` and its optional line feed take.
pub open spec fn closing_len(d: Seq<u8>) -> int {
    if ends_with_closing_line(d) {
        2
    } else {
        1
    }
}

/// The document without its first line `{` and its closing `}`.
pub open spec fn body_of(d: Seq<u8>) -> Seq<u8> {
    d.subrange(2, d.len() - closing_len(d))
}

pub open spec fn msg_bad_start() -> Seq<char> {
    "unexpected start of module-info.json"@
}

pub open spec fn msg_bad_end() -> Seq<char> {
    "unexpected end of module-info.json"@
}

pub open spec fn msg_unsorted() -> Seq<char> {
    "module-json: names out of order"@
}

pub open spec fn msg_open_name() -> Seq<char> {
    "module-json: name element not terminated"@
}

pub open spec fn msg_corrupt() -> Seq<char> {
    "module-json: corrupt data"@
}

/// What building an index of document `d` gives: its entries, or the line
/// and message of the first structural fault.
pub open spec fn index_model(d: Seq<u8>) -> Result<Seq<(int, int, int, int)>, (int, Seq<char>)> {
    if !starts_well(d) {
        Err((1, msg_bad_start()))
    } else if !ends_well(d) {
        Err((newlines(d, d.len() - 1) + 1, msg_bad_end()))
    } else {
        let s = scan(body_of(d), body_of(d).len() as int);
        if s.open_name is Some {
            Err((s.open_name->0, msg_open_name()))
        } else if s.unsorted is Some {
            Err((s.unsorted->0, msg_unsorted()))
        } else if s.phase != Phase::BeforeName {
            Err((s.entry_line, msg_corrupt()))
        } else {
            Ok(s.entries)
        }
    }
}

/// Names in non-decreasing byte-lexicographic order.
pub open spec fn sorted_names(es: Seq<(&str, &str)>) -> bool {
    forall|a: int, b: int|
        0 <= a < b < es.len() ==> bytes_le(#[trigger] es[a].0.spec_bytes(), #[trigger] es[b].0.spec_bytes())
}

/// `es` holds exactly the entries `model` of `body`.
pub open spec fn entries_of(es: Seq<(&str, &str)>, body: Seq<u8>, model: Seq<(int, int, int, int)>) -> bool {
    &&& es.len() == model.len()
    &&& forall|k: int|
        0 <= k < es.len() ==> {
            &&& (#[trigger] es[k]).0.spec_bytes() == entry_name(body, model[k])
            &&& es[k].1.spec_bytes() == entry_json(body, model[k])
        }
}

/// `k` is the first entry named `name`.
pub open spec fn first_named(es: Seq<(&str, &str)>, name: Seq<char>, k: int) -> bool {
    &&& 0 <= k < es.len()
    &&& es[k].0@ == name
    &&& forall|j: int| 0 <= j < k ==> (#[trigger] es[j]).0@ != name
}

/// Some entry is named `name`.
pub open spec fn has_name(es: Seq<(&str, &str)>, name: Seq<char>) -> bool {
    exists|k: int| 0 <= k < es.len() && (#[trigger] es[k]).0@ == name
}

/// What a lookup of `name` among entries `es` gives: nothing where no entry
/// has that name, else the decoding of the first such entry's payload.
pub open spec fn find_post(es: Seq<(&str, &str)>, name: Seq<char>, r: Option<Result<Module, DecodeError>>) -> bool {
    &&& (r is None <==> !has_name(es, name))
    &&& (r is Some ==> exists|k: int|
        first_named(es, name, k) && outcome(r->0) == decode_text(#[trigger] es[k].1@))
}

/// An index over a module-info document: each module's name and the text of
/// its JSON object, borrowed from the document and sorted by name.
pub struct ModuleInfo<'data> {
    data: Vec<(&'data str, &'data str)>,
}

impl<'data> ModuleInfo<'data> {
    /// The entries, `(name, payload)`, in document order.
    pub closed spec fn entries(&self) -> Seq<(&'data str, &'data str)> {
        self.data@
    }

    #[verifier::type_invariant]
    spec fn inv(&self) -> bool {
        sorted_names(self.data@)
    }

    /// Builds the index of `data`, a document whose first line is `{`, whose
    /// last line is `}` (a final line feed is optional) and whose entries
    /// `"NAME": {...}` sort by name; a name may not span lines.
    pub fn try_from(data: &'data str) -> (r: Result<Self, ParseError>)
        ensures
            match r {
                Ok(mi) => index_model(data.spec_bytes()) is Ok && entries_of(
                    mi.entries(),
                    body_of(data.spec_bytes()),
                    index_model(data.spec_bytes())->Ok_0,
                ) && sorted_names(mi.entries()),
                Err(e) => index_model(data.spec_bytes()) == Err::<Seq<(int, int, int, int)>, (int, Seq<char>)>((e.lineno as int, e.message@)),
            },
    {
        let d = data.as_bytes();
        let ghost db = data.spec_bytes();
        proof {
            encode_utf8_valid_utf8(data@);
        }
        if !(d.len() >= 2 && d[0] == 123 && d[1] == 10) {
            return Err(ParseError { lineno: 1, message: String::from_str("unexpected start of module-info.json") });
        }
        let dlen: usize = d.len();
        let closing: usize = if dlen >= 3 && d[dlen - 3] == 10 && d[dlen - 2] == 125 && d[dlen - 1] == 10 {
            2
        } else if d[dlen - 2] == 10 && d[dlen - 1] == 125 {
            1
        } else {
            let lineno = line_of_last_byte(d);
            return Err(ParseError { lineno, message: String::from_str("unexpected end of module-info.json") });
        };
        assert(closing == closing_len(db));
        let blen: usize = dlen - 2 - closing;
        let ghost body = body_of(db);
        assert(body.len() == blen);
        let mut phase = Phase::BeforeName;
        let mut name_start: usize = 0;
        let mut json_start: usize = 0;
        let mut line: usize = 2;
        let mut entry_line: usize = 2;
        proof {
            lemma_boundary_after_ascii(db, 1);
        }
        let mut name: &'data str = sub_str(data, 2, 2);
        let mut unsorted: Option<usize> = None;
        let mut open_name: Option<usize> = None;
        let mut out: Vec<(&'data str, &'data str)> = Vec::new();
        let mut i: usize = 0;
        while i < blen
            invariant
                d@ == db,
                db == data.spec_bytes(),
                valid_utf8(db),
                starts_well(db),
                ends_well(db),
                d@.len() == dlen,
                dlen == blen + 2 + closing_len(db),
                closing_len(db) <= 2,
                body == body_of(db),
                0 <= i <= blen,
                line <= i + 2,
                entry_line <= line,
                ({
                    let s = scan(body, i as int);
                    &&& s.phase == phase
                    &&& s.line == line
                    &&& s.entry_line == entry_line
                    &&& (phase != Phase::BeforeName ==> s.name_start == name_start)
                    &&& (phase == Phase::InsideJson ==> s.json_start == json_start)
                    &&& (phase == Phase::BeforeJson || phase == Phase::InsideJson) ==> (
                        name.spec_bytes() == body.subrange(s.name_start, s.name_end))
                    &&& s.unsorted == match unsorted { Some(l) => Some(l as int), None => None::<int> }
                    &&& s.open_name == match open_name { Some(l) => Some(l as int), None => None::<int> }
                    &&& entries_of(out@, body, s.entries)
                    &&& (unsorted is None ==> sorted_names(out@))
                }),
                phase == Phase::InsideName ==> 1 <= name_start <= i && body[name_start - 1] == 34,
                phase == Phase::InsideJson ==> json_start < i && body[json_start as int] == 123,
            decreases blen - i,
        {
            let c = d[i + 2];
            assert(c == body[i as int]);
            let delim: u8 = match phase {
                Phase::BeforeName => 34,
                Phase::InsideName => 34,
                Phase::BeforeJson => 123,
                Phase::InsideJson => 125,
            };
            if c != delim {
                if c == 10 {
                    if open_name.is_none() && phase == Phase::InsideName {
                        open_name = Some(entry_line);
                    }
                    line = line + 1;
                }
            } else {
                match phase {
                    Phase::BeforeName => {
                        phase = Phase::InsideName;
                        name_start = i + 1;
                        entry_line = line;
                    },
                    Phase::InsideName => {
                        proof {
                            lemma_boundary_after_ascii(db, name_start + 1);
                            is_char_boundary_iff_not_is_continuation_byte(db, i + 2);
                            assert(db.subrange(name_start + 2, i + 2) =~= body.subrange(name_start as int, i as int));
                        }
                        name = sub_str(data, name_start + 2, i + 2);
                        phase = Phase::BeforeJson;
                    },
                    Phase::BeforeJson => {
                        phase = Phase::InsideJson;
                        json_start = i;
                    },
                    Phase::InsideJson => {
                        proof {
                            is_char_boundary_iff_not_is_continuation_byte(db, json_start + 2);
                            lemma_boundary_after_ascii(db, i + 2);
                            assert(db.subrange(json_start + 2, i + 3) =~= body.subrange(json_start as int, i + 1));
                        }
                        let json = sub_str(data, json_start + 2, i + 3);
                        let ghost s = scan(body, i as int);
                        let ghost e = (s.name_start, s.name_end, s.json_start, i + 1);
                        if unsorted.is_none() && out.len() > 0 {
                            let prev = out[out.len() - 1].0;
                            let cmp = compare_bytes(prev.as_bytes(), name.as_bytes());
                            if cmp > 0 {
                                unsorted = Some(entry_line);
                            } else {
                                proof {
                                    let last = out@.len() - 1;
                                    lemma_le_total(prev.spec_bytes(), name.spec_bytes());
                                    lemma_le_refl(name.spec_bytes());
                                    assert forall|a: int| 0 <= a < out@.len() implies bytes_le(
                                        #[trigger] out@[a].0.spec_bytes(),
                                        name.spec_bytes(),
                                    ) by {
                                        if a < last {
                                            lemma_le_trans(out@[a].0.spec_bytes(), out@[last].0.spec_bytes(), name.spec_bytes());
                                        }
                                    }
                                }
                            }
                        }
                        let ghost old_out = out@;
                        out.push((name, json));
                        proof {
                            assert(out@[out@.len() - 1].0.spec_bytes() == entry_name(body, e));
                            assert forall|k: int| 0 <= k < out@.len() implies {
                                &&& (#[trigger] out@[k]).0.spec_bytes() == entry_name(body, s.entries.push(e)[k])
                                &&& out@[k].1.spec_bytes() == entry_json(body, s.entries.push(e)[k])
                            } by {
                                if k < old_out.len() {
                                    assert(out@[k] == old_out[k]);
                                }
                            }
                        }
                        phase = Phase::BeforeName;
                    },
                }
            }
            i = i + 1;
        }
        if open_name.is_some() {
            let lineno = match open_name { Some(l) => l, None => 0 };
            return Err(ParseError { lineno, message: String::from_str("module-json: name element not terminated") });
        }
        if unsorted.is_some() {
            let lineno = match unsorted { Some(l) => l, None => 0 };
            return Err(ParseError { lineno, message: String::from_str("module-json: names out of order") });
        }
        if phase != Phase::BeforeName {
            return Err(ParseError { lineno: entry_line, message: String::from_str("module-json: corrupt data") });
        }
        Ok(ModuleInfo { data: out })
    }

    /// The names of all modules, in index order.
    pub fn module_names(&self) -> (r: Vec<&'data str>)
        ensures
            r@.len() == self.entries().len(),
            forall|k: int| 0 <= k < r@.len() ==> r@[k] == (#[trigger] self.entries()[k]).0,
            forall|a: int, b: int|
                0 <= a < b < r@.len() ==> bytes_le(#[trigger] r@[a].spec_bytes(), #[trigger] r@[b].spec_bytes()),
    {
        proof {
            use_type_invariant(self);
        }
        let mut out: Vec<&'data str> = Vec::new();
        let mut i: usize = 0;
        while i < self.data.len()
            invariant
                0 <= i <= self.data@.len(),
                out@.len() == i,
                forall|k: int| 0 <= k < i ==> out@[k] == (#[trigger] self.data@[k]).0,
            decreases self.data@.len() - i,
        {
            out.push(self.data[i].0);
            i = i + 1;
        }
        assert forall|a: int, b: int| 0 <= a < b < out@.len() implies bytes_le(
            #[trigger] out@[a].spec_bytes(),
            #[trigger] out@[b].spec_bytes(),
        ) by {
            assert(out@[a] == self.data@[a].0 && out@[b] == self.data@[b].0);
        }
        out
    }

    /// Looks up the module named `name` and decodes its payload: `None` where
    /// no module has that name; with several, the first in index order.
    pub fn find(&self, name: &str) -> (r: Option<Result<Module, DecodeError>>)
        ensures
            find_post(self.entries(), name@, r),
    {
        proof {
            use_type_invariant(self);
        }
        let key = name.as_bytes();
        let mut lo: usize = 0;
        let mut hi: usize = self.data.len();
        while lo < hi
            invariant
                0 <= lo <= hi <= self.data@.len(),
                key@ == name.spec_bytes(),
                sorted_names(self.data@),
                forall|k: int| 0 <= k < lo ==> bytes_lt((#[trigger] self.data@[k]).0.spec_bytes(), key@),
                forall|k: int| hi <= k < self.data@.len() ==> bytes_le(key@, (#[trigger] self.data@[k]).0.spec_bytes()),
            decreases hi - lo,
        {
            let mid = lo + (hi - lo) / 2;
            let m = self.data[mid].0;
            let c = compare_bytes(m.as_bytes(), key);
            if c < 0 {
                proof {
                    assert forall|k: int| 0 <= k < mid + 1 implies bytes_lt(
                        (#[trigger] self.data@[k]).0.spec_bytes(),
                        key@,
                    ) by {
                        if k < mid {
                            let a = self.data@[k].0.spec_bytes();
                            let b = m.spec_bytes();
                            lemma_le_trans(a, b, key@);
                            if a == key@ {
                                lemma_le_antisym(b, key@);
                            }
                        }
                    }
                }
                lo = mid + 1;
            } else {
                proof {
                    lemma_le_total(m.spec_bytes(), key@);
                    lemma_le_refl(key@);
                    assert forall|k: int| mid <= k < self.data@.len() implies bytes_le(
                        key@,
                        (#[trigger] self.data@[k]).0.spec_bytes(),
                    ) by {
                        if mid < k {
                            lemma_le_trans(key@, m.spec_bytes(), self.data@[k].0.spec_bytes());
                        }
                    }
                }
                hi = mid;
            }
        }
        proof {
            assert forall|k: int| 0 <= k < lo implies (#[trigger] self.data@[k]).0@ != name@ by {
                lemma_same_bytes_same_text(self.data@[k].0, name);
            }
        }
        if lo < self.data.len() {
            let e = self.data[lo];
            let same = compare_bytes(e.0.as_bytes(), key) == 0;
            proof {
                lemma_same_bytes_same_text(e.0, name);
            }
            if same {
                let r = decode(e.1);
                assert(first_named(self.data@, name@, lo as int));
                return Some(r);
            }
            proof {
                assert forall|k: int| lo <= k < self.data@.len() implies (#[trigger] self.data@[k]).0@ != name@ by {
                    lemma_same_bytes_same_text(self.data@[k].0, name);
                    if lo < k && self.data@[k].0.spec_bytes() == key@ {
                        lemma_le_antisym(e.0.spec_bytes(), key@);
                    }
                }
            }
        }
        None
    }
}

fn line_of_last_byte(d: &[u8]) -> (r: usize)
    requires
        d@.len() > 0,
    ensures
        r == newlines(d@, d@.len() - 1) + 1,
{
    let mut count: usize = 1;
    let mut i: usize = 0;
    while i < d.len() - 1
        invariant
            0 <= i < d@.len(),
            count == newlines(d@, i as int) + 1,
            count <= i + 1,
        decreases d@.len() - i,
    {
        if d[i] == 10 {
            count = count + 1;
        }
        i = i + 1;
    }
    count
}

} // verus!

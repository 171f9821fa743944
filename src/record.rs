//! The module record and its decoder from one entry's JSON object.
use vstd::prelude::*;
use vstd::string::StringSliceAdditionalSpecFns;
use crate::json::{json_of, parse_json, Json};
use crate::text::{compare_bytes, lemma_same_bytes_same_text};

verus! {

broadcast use vstd::seq::group_seq_axioms;

/// One module's metadata. Optional lists that the object lacks, or holds as
/// `null`, are empty.
#[derive(Debug, PartialEq, Eq)]
pub struct Module {
    pub name: String,
    pub path: Vec<String>,
    pub installed: Vec<String>,
    pub dependencies: Vec<String>,
    pub class: Vec<String>,
    pub supported_variants: Vec<String>,
    pub shared_libs: Vec<String>,
    pub static_libs: Vec<String>,
    pub system_shared_libs: Vec<String>,
}

/// A module record as text values.
pub struct ModuleModel {
    pub name: Seq<char>,
    pub path: Seq<Seq<char>>,
    pub installed: Seq<Seq<char>>,
    pub dependencies: Seq<Seq<char>>,
    pub class: Seq<Seq<char>>,
    pub supported_variants: Seq<Seq<char>>,
    pub shared_libs: Seq<Seq<char>>,
    pub static_libs: Seq<Seq<char>>,
    pub system_shared_libs: Seq<Seq<char>>,
}

pub open spec fn texts(v: Seq<String>) -> Seq<Seq<char>> {
    v.map_values(|s: String| s@)
}

impl View for Module {
    type V = ModuleModel;

    open spec fn view(&self) -> ModuleModel {
        ModuleModel {
            name: self.name@,
            path: texts(self.path@),
            installed: texts(self.installed@),
            dependencies: texts(self.dependencies@),
            class: texts(self.class@),
            supported_variants: texts(self.supported_variants@),
            shared_libs: texts(self.shared_libs@),
            static_libs: texts(self.static_libs@),
            system_shared_libs: texts(self.system_shared_libs@),
        }
    }
}

/// Why a payload did not decode into a module record.
#[derive(Debug)]
pub enum DecodeError {
    /// The payload is not JSON; serde_json's complaint.
    Syntax(String),
    /// The payload is JSON but not an object.
    NotAnObject,
    /// A required member is absent.
    MissingField(String),
    /// A member has the wrong shape: not a string, or not a list of strings.
    BadField(String),
}

pub enum DecodeFault {
    Syntax,
    NotAnObject,
    MissingField(Seq<char>),
    BadField(Seq<char>),
}

impl View for DecodeError {
    type V = DecodeFault;

    open spec fn view(&self) -> DecodeFault {
        match self {
            DecodeError::Syntax(_) => DecodeFault::Syntax,
            DecodeError::NotAnObject => DecodeFault::NotAnObject,
            DecodeError::MissingField(k) => DecodeFault::MissingField(k@),
            DecodeError::BadField(k) => DecodeFault::BadField(k@),
        }
    }
}

pub open spec fn outcome(r: Result<Module, DecodeError>) -> Result<ModuleModel, DecodeFault> {
    match r {
        Ok(m) => Ok(m@),
        Err(e) => Err(e@),
    }
}

/// The value of the first member named `key`.
pub open spec fn member(fields: Seq<(String, Json)>, key: Seq<char>) -> Option<Json>
    decreases fields.len(),
{
    if fields.len() == 0 {
        None
    } else if fields[0].0@ == key {
        Some(fields[0].1)
    } else {
        member(fields.drop_first(), key)
    }
}

/// The strings of `j` where it is an array of strings.
pub open spec fn string_list(j: Json) -> Option<Seq<Seq<char>>> {
    match j {
        Json::Array(a) => if forall|i: int| 0 <= i < a@.len() ==> #[trigger] a@[i] is Str {
            Some(Seq::new(a@.len(), |i: int| a@[i]->Str_0@))
        } else {
            None
        },
        _ => None,
    }
}

/// A list member: a required one must be present and not null; an optional
/// one that is absent or null is empty.
pub open spec fn list_field(fields: Seq<(String, Json)>, key: Seq<char>, required: bool) -> Result<
    Seq<Seq<char>>,
    DecodeFault,
> {
    match member(fields, key) {
        None => if required {
            Err(DecodeFault::MissingField(key))
        } else {
            Ok(seq![])
        },
        Some(v) => if !required && v is Null {
            Ok(seq![])
        } else {
            match string_list(v) {
                Some(l) => Ok(l),
                None => Err(DecodeFault::BadField(key)),
            }
        },
    }
}

pub open spec fn name_field(fields: Seq<(String, Json)>) -> Result<Seq<char>, DecodeFault> {
    match member(fields, "module_name"@) {
        None => Err(DecodeFault::MissingField("module_name"@)),
        Some(Json::Str(s)) => Ok(s@),
        Some(_) => Err(DecodeFault::BadField("module_name"@)),
    }
}

/// The record that a JSON value describes; members are checked in the
/// order of the record's fields, and unknown members are ignored.
pub open spec fn decode_model(j: Json) -> Result<ModuleModel, DecodeFault> {
    match j {
        Json::Object(o) => {
            let f = o@;
            let name = name_field(f);
            let path = list_field(f, "path"@, true);
            let installed = list_field(f, "installed"@, false);
            let dependencies = list_field(f, "dependencies"@, false);
            let class = list_field(f, "class"@, true);
            let supported_variants = list_field(f, "supported_variants"@, false);
            let shared_libs = list_field(f, "shared_libs"@, false);
            let static_libs = list_field(f, "static_libs"@, false);
            let system_shared_libs = list_field(f, "system_shared_libs"@, false);
            if name is Err {
                Err(name->Err_0)
            } else if path is Err {
                Err(path->Err_0)
            } else if installed is Err {
                Err(installed->Err_0)
            } else if dependencies is Err {
                Err(dependencies->Err_0)
            } else if class is Err {
                Err(class->Err_0)
            } else if supported_variants is Err {
                Err(supported_variants->Err_0)
            } else if shared_libs is Err {
                Err(shared_libs->Err_0)
            } else if static_libs is Err {
                Err(static_libs->Err_0)
            } else if system_shared_libs is Err {
                Err(system_shared_libs->Err_0)
            } else {
                Ok(
                    ModuleModel {
                        name: name->Ok_0,
                        path: path->Ok_0,
                        installed: installed->Ok_0,
                        dependencies: dependencies->Ok_0,
                        class: class->Ok_0,
                        supported_variants: supported_variants->Ok_0,
                        shared_libs: shared_libs->Ok_0,
                        static_libs: static_libs->Ok_0,
                        system_shared_libs: system_shared_libs->Ok_0,
                    },
                )
            }
        },
        _ => Err(DecodeFault::NotAnObject),
    }
}

/// The record that payload text describes.
pub open spec fn decode_text(text: Seq<char>) -> Result<ModuleModel, DecodeFault> {
    match json_of(text) {
        None => Err(DecodeFault::Syntax),
        Some(j) => decode_model(j),
    }
}

fn find_member<'a>(fields: &'a Vec<(String, Json)>, key: &str) -> (r: Option<&'a Json>)
    ensures
        match member(fields@, key@) {
            None => r is None,
            Some(v) => r == Some(&v),
        },
{
    let mut i: usize = 0;
    assert(fields@.subrange(0, fields@.len() as int) =~= fields@);
    while i < fields.len()
        invariant
            0 <= i <= fields@.len(),
            member(fields@, key@) == member(fields@.subrange(i as int, fields@.len() as int), key@),
        decreases fields@.len() - i,
    {
        let ghost rest = fields@.subrange(i as int, fields@.len() as int);
        assert(rest.drop_first() =~= fields@.subrange(i + 1, fields@.len() as int));
        let k = fields[i].0.as_str();
        let same = compare_bytes(k.as_bytes(), key.as_bytes()) == 0;
        proof {
            lemma_same_bytes_same_text(k, key);
        }
        if same {
            return Some(&fields[i].1);
        }
        i = i + 1;
    }
    None
}

fn copy_strings(a: &Vec<Json>) -> (r: Option<Vec<String>>)
    ensures
        match string_list(Json::Array(*a)) {
            None => r is None,
            Some(l) => r is Some && texts(r->0@) == l,
        },
{
    let mut out: Vec<String> = Vec::new();
    let mut i: usize = 0;
    while i < a.len()
        invariant
            0 <= i <= a@.len(),
            out@.len() == i,
            forall|k: int| 0 <= k < i ==> (#[trigger] a@[k]) is Str && out@[k]@ == a@[k]->Str_0@,
        decreases a@.len() - i,
    {
        match &a[i] {
            Json::Str(s) => {
                out.push(s.clone());
            },
            _ => {
                return None;
            },
        }
        i = i + 1;
    }
    assert(texts(out@) =~= Seq::new(a@.len(), |k: int| a@[k]->Str_0@));
    Some(out)
}

fn list_member(fields: &Vec<(String, Json)>, key: &str, required: bool) -> (r: Result<Vec<String>, DecodeError>)
    ensures
        match r {
            Ok(v) => list_field(fields@, key@, required) == Ok::<Seq<Seq<char>>, DecodeFault>(texts(v@)),
            Err(e) => list_field(fields@, key@, required) == Err::<Seq<Seq<char>>, DecodeFault>(e@),
        },
{
    match find_member(fields, key) {
        None => {
            if required {
                Err(DecodeError::MissingField(String::from_str(key)))
            } else {
                let v: Vec<String> = Vec::new();
                assert(texts(v@) =~= seq![]);
                Ok(v)
            }
        },
        Some(j) => {
            if !required && matches!(j, Json::Null) {
                let v: Vec<String> = Vec::new();
                assert(texts(v@) =~= seq![]);
                return Ok(v);
            }
            match j {
                Json::Array(a) => match copy_strings(a) {
                    Some(v) => Ok(v),
                    None => Err(DecodeError::BadField(String::from_str(key))),
                },
                _ => Err(DecodeError::BadField(String::from_str(key))),
            }
        },
    }
}

/// Decodes a parsed payload into a module record.
pub fn decode_json(j: &Json) -> (r: Result<Module, DecodeError>)
    ensures
        outcome(r) == decode_model(*j),
{
    let fields = match j {
        Json::Object(o) => o,
        _ => {
            return Err(DecodeError::NotAnObject);
        },
    };
    let name = match find_member(fields, "module_name") {
        None => {
            return Err(DecodeError::MissingField(String::from_str("module_name")));
        },
        Some(Json::Str(s)) => s.clone(),
        Some(_) => {
            return Err(DecodeError::BadField(String::from_str("module_name")));
        },
    };
    let path = list_member(fields, "path", true)?;
    let installed = list_member(fields, "installed", false)?;
    let dependencies = list_member(fields, "dependencies", false)?;
    let class = list_member(fields, "class", true)?;
    let supported_variants = list_member(fields, "supported_variants", false)?;
    let shared_libs = list_member(fields, "shared_libs", false)?;
    let static_libs = list_member(fields, "static_libs", false)?;
    let system_shared_libs = list_member(fields, "system_shared_libs", false)?;
    Ok(
        Module {
            name,
            path,
            installed,
            dependencies,
            class,
            supported_variants,
            shared_libs,
            static_libs,
            system_shared_libs,
        },
    )
}

/// Decodes one entry's payload: parses it as JSON, then reads the record.
pub fn decode(payload: &str) -> (r: Result<Module, DecodeError>)
    ensures
        outcome(r) == decode_text(payload@),
{
    match parse_json(payload) {
        Ok(j) => decode_json(&j),
        Err(msg) => Err(DecodeError::Syntax(msg)),
    }
}

} // verus!

use vstd::prelude::*;

use crate::repo::{Bottle, FormulaStable, Repo};

verus! {

#[verifier::external_type_specification]
#[verifier::external_body]
pub struct ExValue(serde_json::Value);

/// Relies on `serde_json::Value`'s `Index<&str>`: the member `key` of an
/// object, or `Null` when it is absent or `v` is no object.
#[verifier::external_body]
fn json_get<'a>(v: &'a serde_json::Value, key: &str) -> &'a serde_json::Value {
    &v[key]
}

/// Relies on `serde_json::Value::as_str`: the text of a string value.
#[verifier::external_body]
fn json_str(v: &serde_json::Value) -> Option<String> {
    v.as_str().map(|s| s.to_string())
}

/// Relies on `serde_json::Value::as_i64`: the value of an integer that fits.
#[verifier::external_body]
fn json_i64(v: &serde_json::Value) -> Option<i64> {
    v.as_i64()
}

/// Relies on `serde_json::Value::as_array`: the elements of an array value.
#[verifier::external_body]
fn json_array(v: &serde_json::Value) -> Option<&Vec<serde_json::Value>> {
    v.as_array()
}

/// Relies on `serde_json::Value::as_object`: the members of an object value.
#[verifier::external_body]
fn json_object(v: &serde_json::Value) -> Option<Vec<(String, serde_json::Value)>> {
    v.as_object().map(|m| m.iter().map(|(k, x)| (k.clone(), x.clone())).collect())
}

/// A bottle entry as read from the index, each field present or not.
pub struct RawBottle {
    pub cellar: Option<String>,
    pub url: Option<String>,
    pub sha256: Option<String>,
}

/// A package object as read from the index, each field present or not.
pub struct RawFormula {
    pub name: Option<String>,
    pub desc: Option<String>,
    pub stable_version: Option<String>,
    pub revision: Option<i64>,
    /// Each dependency is `None` where the element is not a string.
    pub deps: Option<Vec<Option<String>>>,
    pub opt_deps: Option<Vec<Option<String>>>,
    pub rec_deps: Option<Vec<Option<String>>>,
    pub bottles: Option<Vec<(String, RawBottle)>>,
}

/// The field of a package object that is missing or malformed.
#[derive(PartialEq, Eq, Structural, Clone, Copy, Debug)]
pub enum Field {
    Name,
    Description,
    StableVersion,
    Dependencies,
    OptionalDependencies,
    RecommendedDependencies,
    BottleFiles,
}

/// Why the package index could not be read.
#[derive(Debug)]
pub enum RepositoryParseError {
    /// The document is not an array of package objects.
    NotAnArray,
    /// A package object lacks a required field, or holds one of the wrong type.
    /// `package` is empty where the name itself is missing.
    MissingField { package: String, field: Field },
}

pub open spec fn strings_ok(d: Option<Vec<Option<String>>>) -> bool {
    d matches Some(v) && forall|i: int| 0 <= i < v@.len() ==> v@[i] is Some
}

pub open spec fn bottle_ok(b: RawBottle) -> bool {
    b.cellar is Some && b.url is Some && b.sha256 is Some
}

/// The platform key of the `i`-th bottle entry.
pub open spec fn key_at(v: Seq<(String, RawBottle)>, i: int) -> Seq<char> {
    v[i].0@
}

/// Each bottle entry is complete, and no platform key appears twice.
pub open spec fn bottles_ok(d: Option<Vec<(String, RawBottle)>>) -> bool {
    &&& d matches Some(v)
    &&& forall|i: int| 0 <= i < v@.len() ==> bottle_ok(#[trigger] v@[i].1)
    &&& forall|i: int, j: int| 0 <= i < j < v@.len() ==> #[trigger] key_at(v@, i) != #[trigger] key_at(v@, j)
}

/// The first required field of `raw` that is missing or malformed.
pub open spec fn first_bad_field(raw: RawFormula) -> Option<Field> {
    if raw.name is None {
        Some(Field::Name)
    } else if raw.desc is None {
        Some(Field::Description)
    } else if raw.stable_version is None {
        Some(Field::StableVersion)
    } else if !strings_ok(raw.deps) {
        Some(Field::Dependencies)
    } else if !strings_ok(raw.opt_deps) {
        Some(Field::OptionalDependencies)
    } else if !strings_ok(raw.rec_deps) {
        Some(Field::RecommendedDependencies)
    } else if !bottles_ok(raw.bottles) {
        Some(Field::BottleFiles)
    } else {
        None
    }
}

/// `out` holds the strings of `d`, in order.
pub open spec fn strings_of(d: Option<Vec<Option<String>>>, out: Vec<String>) -> bool {
    d matches Some(v) && out@.len() == v@.len() && forall|i: int|
        0 <= i < v@.len() ==> v@[i] == Some(#[trigger] out@[i])
}

/// No platform key appears twice among a record's bottles.
pub open spec fn platforms_distinct(b: Seq<(String, Bottle)>) -> bool {
    forall|i: int, j: int| 0 <= i < j < b.len() ==> (#[trigger] b[i]).0@ != (#[trigger] b[j]).0@
}

/// `out` holds the bottles of `d`, in order.
pub open spec fn bottles_of(d: Option<Vec<(String, RawBottle)>>, out: Vec<(String, Bottle)>) -> bool {
    d matches Some(v) && out@.len() == v@.len() && forall|i: int|
        0 <= i < v@.len() ==> {
            &&& (#[trigger] out@[i]).0 == v@[i].0
            &&& v@[i].1.cellar == Some(out@[i].1.cellar)
            &&& v@[i].1.url == Some(out@[i].1.url)
            &&& v@[i].1.sha256 == Some(out@[i].1.sha256)
        }
}

/// `f` is the record built from the well-formed object `raw`.
pub open spec fn built_from(raw: RawFormula, f: FormulaStable) -> bool {
    &&& raw.name == Some(f.name)
    &&& raw.desc == Some(f.description)
    &&& raw.stable_version == Some(f.version)
    &&& f.revision == match raw.revision {
        Some(v) => v,
        None => 0,
    }
    &&& strings_of(raw.deps, f.deps)
    &&& strings_of(raw.opt_deps, f.opt_deps)
    &&& strings_of(raw.rec_deps, f.rec_deps)
    &&& bottles_of(raw.bottles, f.bottles)
    &&& platforms_distinct(f.bottles@)
}

/// The name of an object, or the empty text where it has none.
pub open spec fn package_label(raw: RawFormula) -> Seq<char> {
    match raw.name {
        Some(n) => n@,
        None => Seq::empty(),
    }
}

/// `raw` is named `n`.
pub open spec fn name_is(raw: RawFormula, n: Seq<char>) -> bool {
    raw.name matches Some(s) && s@ == n
}

/// Both objects are named, by the same name.
pub open spec fn same_name(a: RawFormula, b: RawFormula) -> bool {
    a.name matches Some(x) && b.name matches Some(y) && x@ == y@
}

/// The repository holds the record built from `raw`.
pub open spec fn stored(raw: RawFormula, repo: Repo) -> bool {
    exists|k: int| 0 <= k < repo.len() && built_from(raw, repo.formulae@[k])
}

/// No object after position `i` and before `upto` has the same name.
pub open spec fn last_of(raws: Seq<RawFormula>, i: int, upto: int) -> bool {
    forall|j: int| i < j < upto ==> !same_name(raws[j], raws[i])
}

fn collect_strings(d: &Vec<Option<String>>) -> (r: Option<Vec<String>>)
    ensures
        match r {
            Some(out) => strings_of(Some(*d), out) && strings_ok(Some(*d)),
            None => !strings_ok(Some(*d)),
        },
{
    let mut out: Vec<String> = Vec::new();
    let mut i: usize = 0;
    while i < d.len()
        invariant
            i <= d@.len(),
            out@.len() == i,
            forall|j: int| 0 <= j < i ==> d@[j] == Some(#[trigger] out@[j]),
        decreases d.len() - i,
    {
        match &d[i] {
            Some(s) => out.push(s.clone()),
            None => return None,
        }
        i = i + 1;
    }
    assert forall|j: int| 0 <= j < d@.len() implies d@[j] is Some by {
        assert(d@[j] == Some(out@[j]));
    }
    Some(out)
}

fn collect_bottles(d: &Vec<(String, RawBottle)>) -> (r: Option<Vec<(String, Bottle)>>)
    ensures
        match r {
            Some(out) => bottles_of(Some(*d), out) && bottles_ok(Some(*d)) && platforms_distinct(out@),
            None => !bottles_ok(Some(*d)),
        },
{
    let mut out: Vec<(String, Bottle)> = Vec::new();
    let mut i: usize = 0;
    while i < d.len()
        invariant
            i <= d@.len(),
            out@.len() == i,
            forall|a: int, b: int| 0 <= a < b < i ==> #[trigger] key_at(d@, a) != #[trigger] key_at(d@, b),
            forall|j: int|
                0 <= j < i ==> {
                    &&& (#[trigger] out@[j]).0 == d@[j].0
                    &&& d@[j].1.cellar == Some(out@[j].1.cellar)
                    &&& d@[j].1.url == Some(out@[j].1.url)
                    &&& d@[j].1.sha256 == Some(out@[j].1.sha256)
                },
        decreases d.len() - i,
    {
        let entry = &d[i];
        let k = &entry.0;
        let b = &entry.1;
        let mut j: usize = 0;
        while j < i
            invariant
                j <= i < d@.len(),
                k == d@[i as int].0,
                forall|a: int| 0 <= a < j ==> key_at(d@, a) != key_at(d@, i as int),
            decreases i - j,
        {
            if d[j].0 == *k {
                let ghost sd = Some(*d);
                assert(key_at(d@, j as int) == key_at(d@, i as int));
                assert(sd matches Some(v) && v@ == d@);
                assert(!bottles_ok(sd));
                return None;
            }
            j = j + 1;
        }
        if b.cellar.is_none() || b.url.is_none() || b.sha256.is_none() {
            let ghost sd = Some(*d);
            assert(!bottle_ok(d@[i as int].1));
            assert(sd matches Some(v) && v@ == d@);
            assert(!bottles_ok(sd));
            return None;
        }
        let c = b.cellar.as_ref().unwrap().clone();
        let u = b.url.as_ref().unwrap().clone();
        let h = b.sha256.as_ref().unwrap().clone();
        out.push((k.clone(), Bottle { cellar: c, url: u, sha256: h }));
        i = i + 1;
    }
    assert forall|j: int| 0 <= j < d@.len() implies bottle_ok(#[trigger] d@[j].1) by {
        assert(d@[j].1.cellar == Some(out@[j].1.cellar));
    }
    let ghost sd = Some(*d);
    assert(sd matches Some(v) && v@ == d@);
    assert forall|a: int, b: int| 0 <= a < b < out@.len() implies (#[trigger] out@[a]).0@ != (#[trigger] out@[b]).0@ by {
        assert(key_at(d@, a) != key_at(d@, b));
    }
    Some(out)
}

/// Checks a package object read from the index and builds its record: the
/// first missing or malformed required field is an error; a missing revision
/// is zero.
pub fn parse_formula(raw: &RawFormula) -> (r: Result<FormulaStable, RepositoryParseError>)
    ensures
        match r {
            Ok(f) => first_bad_field(*raw) is None && built_from(*raw, f),
            Err(RepositoryParseError::MissingField { package, field }) => {
                &&& first_bad_field(*raw) == Some(field)
                &&& package@ == package_label(*raw)
            },
            Err(RepositoryParseError::NotAnArray) => false,
        },
{
    let name = match &raw.name {
        Some(n) => n.clone(),
        None => return Err(RepositoryParseError::MissingField { package: String::new(), field: Field::Name }),
    };
    let description = match &raw.desc {
        Some(d) => d.clone(),
        None => return Err(RepositoryParseError::MissingField { package: name, field: Field::Description }),
    };
    let version = match &raw.stable_version {
        Some(v) => v.clone(),
        None => return Err(RepositoryParseError::MissingField { package: name, field: Field::StableVersion }),
    };
    let revision: i64 = match raw.revision {
        Some(v) => v,
        None => 0,
    };
    let deps = match &raw.deps {
        Some(d) => match collect_strings(d) {
            Some(x) => x,
            None => return Err(RepositoryParseError::MissingField { package: name, field: Field::Dependencies }),
        },
        None => return Err(RepositoryParseError::MissingField { package: name, field: Field::Dependencies }),
    };
    let opt_deps = match &raw.opt_deps {
        Some(d) => match collect_strings(d) {
            Some(x) => x,
            None => return Err(RepositoryParseError::MissingField { package: name, field: Field::OptionalDependencies }),
        },
        None => return Err(RepositoryParseError::MissingField { package: name, field: Field::OptionalDependencies }),
    };
    let rec_deps = match &raw.rec_deps {
        Some(d) => match collect_strings(d) {
            Some(x) => x,
            None => return Err(RepositoryParseError::MissingField { package: name, field: Field::RecommendedDependencies }),
        },
        None => return Err(RepositoryParseError::MissingField { package: name, field: Field::RecommendedDependencies }),
    };
    let bottles = match &raw.bottles {
        Some(d) => match collect_bottles(d) {
            Some(x) => x,
            None => return Err(RepositoryParseError::MissingField { package: name, field: Field::BottleFiles }),
        },
        None => return Err(RepositoryParseError::MissingField { package: name, field: Field::BottleFiles }),
    };
    Ok(FormulaStable { name, description, version, revision, bottles, deps, opt_deps, rec_deps })
}

fn read_strings(v: &serde_json::Value) -> Option<Vec<Option<String>>> {
    match json_array(v) {
        Some(a) => {
            let mut out: Vec<Option<String>> = Vec::new();
            let mut i: usize = 0;
            while i < a.len()
                decreases a.len() - i,
            {
                out.push(json_str(&a[i]));
                i = i + 1;
            }
            Some(out)
        },
        None => None,
    }
}

fn read_bottles(v: &serde_json::Value) -> Option<Vec<(String, RawBottle)>> {
    match json_object(json_get(json_get(json_get(v, "bottle"), "stable"), "files")) {
        Some(members) => {
            let mut out: Vec<(String, RawBottle)> = Vec::new();
            let mut i: usize = 0;
            while i < members.len()
                decreases members.len() - i,
            {
                let (k, b) = &members[i];
                let raw = RawBottle {
                    cellar: json_str(json_get(b, "cellar")),
                    url: json_str(json_get(b, "url")),
                    sha256: json_str(json_get(b, "sha256")),
                };
                out.push((k.clone(), raw));
                i = i + 1;
            }
            Some(out)
        },
        None => None,
    }
}

/// Reads the fields of one package object of the index.
pub fn read_raw_formula(form: &serde_json::Value) -> RawFormula {
    RawFormula {
        name: json_str(json_get(form, "name")),
        desc: json_str(json_get(form, "desc")),
        stable_version: json_str(json_get(json_get(form, "versions"), "stable")),
        revision: json_i64(json_get(form, "revision")),
        deps: read_strings(json_get(form, "dependencies")),
        opt_deps: read_strings(json_get(form, "optional_dependencies")),
        rec_deps: read_strings(json_get(form, "recommended_dependencies")),
        bottles: read_bottles(form),
    }
}

/// Builds the repository from the package objects of the index, in order.
/// The first malformed object is the error, naming its package and field; a
/// later object of the same name replaces an earlier one.
pub fn repo_from_raw(raws: &Vec<RawFormula>) -> (r: Result<Repo, RepositoryParseError>)
    ensures
        r is Ok <==> forall|i: int| 0 <= i < raws@.len() ==> first_bad_field(#[trigger] raws@[i]) is None,
        match r {
            Ok(repo) => {
                &&& repo.wf()
                &&& forall|n: Seq<char>| repo.has(n) <==> exists|i: int|
                    0 <= i < raws@.len() && name_is(#[trigger] raws@[i], n)
                &&& forall|i: int|
                    0 <= i < raws@.len() && #[trigger] last_of(raws@, i, raws@.len() as int) ==> stored(raws@[i], repo)
            },
            Err(RepositoryParseError::MissingField { package, field }) => exists|i: int| {
                &&& 0 <= i < raws@.len()
                &&& forall|j: int| 0 <= j < i ==> first_bad_field(#[trigger] raws@[j]) is None
                &&& first_bad_field(raws@[i]) == Some(field)
                &&& package@ == package_label(raws@[i])
            },
            Err(RepositoryParseError::NotAnArray) => false,
        },
{
    let mut repo = Repo::new();
    let mut idx: usize = 0;
    while idx < raws.len()
        invariant
            idx <= raws@.len(),
            repo.wf(),
            forall|j: int| 0 <= j < idx ==> first_bad_field(#[trigger] raws@[j]) is None,
            forall|n: Seq<char>| repo.has(n) <==> exists|i: int|
                0 <= i < idx && name_is(#[trigger] raws@[i], n),
            forall|i: int|
                0 <= i < idx && #[trigger] last_of(raws@, i, idx as int) ==> stored(raws@[i], repo),
        decreases raws.len() - idx,
    {
        match parse_formula(&raws[idx]) {
            Ok(f) => {
                let ghost old_repo = repo;
                let ghost fname = f.name;
                let ghost ff = f;
                repo.insert(f);
                proof {
                    lemma_insert_keeps(raws@, idx as int, old_repo, repo, ff);
                }
            },
            Err(e) => {
                return Err(e);
            },
        }
        idx = idx + 1;
    }
    assert(idx == raws@.len());
    assert forall|i: int|
        0 <= i < raws@.len() && #[trigger] last_of(raws@, i, raws@.len() as int) implies stored(raws@[i], repo) by {
        assert(last_of(raws@, i, idx as int));
    }
    Ok(repo)
}

proof fn lemma_insert_keeps(raws: Seq<RawFormula>, idx: int, old_repo: Repo, repo: Repo, f: FormulaStable)
    requires
        0 <= idx < raws.len(),
        built_from(raws[idx], f),
        old_repo.wf(),
        repo.wf(),
        repo.has(f.name@),
        forall|n: Seq<char>| n != f.name@ ==> (repo.has(n) == old_repo.has(n)),
        old_repo.has(f.name@) ==> exists|k: int|
            0 <= k < old_repo.len() && old_repo.name(k) == f.name@ && repo.formulae@
                == old_repo.formulae@.update(k, f),
        !old_repo.has(f.name@) ==> repo.formulae@ == old_repo.formulae@.push(f),
        forall|n: Seq<char>| old_repo.has(n) <==> exists|i: int|
            0 <= i < idx && name_is(#[trigger] raws[i], n),
        forall|i: int|
            0 <= i < idx && #[trigger] last_of(raws, i, idx) ==> stored(raws[i], old_repo),
    ensures
        forall|n: Seq<char>| repo.has(n) <==> exists|i: int|
            0 <= i < idx + 1 && name_is(#[trigger] raws[i], n),
        forall|i: int|
            0 <= i < idx + 1 && #[trigger] last_of(raws, i, idx + 1) ==> stored(raws[i], repo),
{
    let kk: int = if old_repo.has(f.name@) {
        choose|k: int|
            0 <= k < old_repo.len() && old_repo.name(k) == f.name@ && repo.formulae@
                == old_repo.formulae@.update(k, f)
    } else {
        old_repo.len()
    };
    assert(repo.formulae@[kk] == f);
    assert(raws[idx].name == Some(f.name));
    assert forall|n: Seq<char>| repo.has(n) <==> exists|i: int|
        0 <= i < idx + 1 && name_is(#[trigger] raws[i], n) by {
        if n == f.name@ {
            assert(raws[idx].name == Some(f.name));
            assert(name_is(raws[idx], n));
            if exists|i: int| 0 <= i < idx + 1 && name_is(#[trigger] raws[i], n) {
                assert(repo.name(kk) == n);
            }
        } else {
            if exists|i: int| 0 <= i < idx + 1 && name_is(#[trigger] raws[i], n) {
                let i = choose|i: int| 0 <= i < idx + 1 && name_is(#[trigger] raws[i], n);
                if i == idx {
                    assert(raws[idx].name == Some(f.name));
                    assert(n == f.name@);
                }
            }
            if old_repo.has(n) {
                let i = choose|i: int| 0 <= i < idx && name_is(#[trigger] raws[i], n);
                assert(name_is(raws[i], n));
            }
        }
    }
    assert forall|i: int|
        0 <= i < idx + 1 && #[trigger] last_of(raws, i, idx + 1) implies stored(raws[i], repo) by {
        if i == idx {
            assert(built_from(raws[i], repo.formulae@[kk]));
            assert(0 <= kk < repo.len());
        } else {
            assert(!same_name(raws[idx], raws[i]));
            assert(last_of(raws, i, idx));
            let k = choose|k: int| 0 <= k < old_repo.len() && built_from(#[trigger] raws[i], old_repo.formulae@[k]);
            assert(old_repo.formulae@[k].name != f.name);
            assert(repo.formulae@[k] == old_repo.formulae@[k]);
            assert(built_from(raws[i], repo.formulae@[k]));
        }
    }
}

/// Reads the package objects of the index document, which must be an array,
/// and builds the repository from them with `repo_from_raw`.
pub fn parse_json_repo(val: &serde_json::Value) -> (r: Result<Repo, RepositoryParseError>)
    ensures
        r matches Ok(repo) ==> repo.wf(),
{
    match json_array(val) {
        None => Err(RepositoryParseError::NotAnArray),
        Some(forms) => {
            let mut raws: Vec<RawFormula> = Vec::new();
            let mut i: usize = 0;
            while i < forms.len()
                decreases forms.len() - i,
            {
                raws.push(read_raw_formula(&forms[i]));
                i = i + 1;
            }
            repo_from_raw(&raws)
        },
    }
}

} // verus!

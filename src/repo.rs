use vstd::prelude::*;

verus! {

/// A prebuilt archive of a package for one platform.
pub struct Bottle {
    pub cellar: String,
    pub url: String,
    pub sha256: String,
}

/// The metadata of one package: identity, version, dependencies and bottles.
pub struct FormulaStable {
    pub name: String,
    pub description: String,
    pub version: String,
    pub revision: i64,
    /// Bottles keyed by platform identifier.
    pub bottles: Vec<(String, Bottle)>,
    pub deps: Vec<String>,
    pub opt_deps: Vec<String>,
    pub rec_deps: Vec<String>,
}

/// The formula repository: a mapping from package name to its record, held
/// as a list of records whose names are distinct.
pub struct Repo {
    pub formulae: Vec<FormulaStable>,
}

impl Repo {
    pub open spec fn len(&self) -> int {
        self.formulae@.len() as int
    }

    pub open spec fn name(&self, k: int) -> Seq<char> {
        self.formulae@[k].name@
    }

    pub open spec fn dep(&self, k: int, q: int) -> Seq<char> {
        self.formulae@[k].deps@[q]@
    }

    pub open spec fn ndeps(&self, k: int) -> int {
        self.formulae@[k].deps@.len() as int
    }

    /// No two records share a name.
    pub open spec fn wf(&self) -> bool {
        forall|i: int, j: int|
            0 <= i < self.len() && 0 <= j < self.len() && #[trigger] self.name(i)
                == #[trigger] self.name(j) ==> i == j
    }

    /// The repository holds a record named `n`.
    pub open spec fn has(&self, n: Seq<char>) -> bool {
        exists|k: int| 0 <= k < self.len() && #[trigger] self.name(k) == n
    }

    /// `b` is a hard dependency of the record named `a`.
    pub open spec fn edge(&self, a: Seq<char>, b: Seq<char>) -> bool {
        exists|k: int, q: int|
            0 <= k < self.len() && 0 <= q < self.ndeps(k) && #[trigger] self.name(k) == a
                && #[trigger] self.dep(k, q) == b
    }

    /// An empty repository.
    pub fn new() -> (r: Repo)
        ensures
            r.wf(),
            r.len() == 0,
    {
        Repo { formulae: Vec::new() }
    }

    /// Index of the record named `name`, if any.
    pub fn lookup(&self, name: &String) -> (r: Option<usize>)
        ensures
            match r {
                Some(k) => k < self.len() && self.name(k as int) == name@,
                None => !self.has(name@),
            },
    {
        let mut i: usize = 0;
        while i < self.formulae.len()
            invariant
                i <= self.len(),
                forall|k: int| 0 <= k < i ==> #[trigger] self.name(k) != name@,
            decreases self.formulae.len() - i,
        {
            if self.formulae[i].name == *name {
                return Some(i);
            }
            i = i + 1;
        }
        None
    }

    /// Adds a record, replacing the one of the same name if there is one.
    pub fn insert(&mut self, f: FormulaStable)
        requires
            old(self).wf(),
        ensures
            final(self).wf(),
            final(self).has(f.name@),
            forall|n: Seq<char>| n != f.name@ ==> (final(self).has(n) == old(self).has(n)),
            old(self).has(f.name@) ==> exists|k: int|
                0 <= k < old(self).len() && old(self).name(k) == f.name@ && final(self).formulae@
                    == old(self).formulae@.update(k, f),
            !old(self).has(f.name@) ==> final(self).formulae@ == old(self).formulae@.push(f),
    {
        match self.lookup(&f.name) {
            Some(k) => {
                let ghost n = f.name@;
                self.formulae.set(k, f);
                assert(self.name(k as int) == n);
                assert forall|i: int, j: int|
                    0 <= i < self.len() && 0 <= j < self.len() && #[trigger] self.name(i)
                        == #[trigger] self.name(j) implies i == j by {
                    assert(old(self).name(k as int) == n);
                    if i != k && j != k {
                        assert(old(self).name(i) == old(self).name(j));
                    } else if i != k {
                        assert(old(self).name(i) == old(self).name(k as int));
                    } else if j != k {
                        assert(old(self).name(j) == old(self).name(k as int));
                    }
                }
                assert forall|n2: Seq<char>| n2 != n implies (self.has(n2) == old(self).has(n2)) by {
                    if old(self).has(n2) {
                        let j = choose|j: int| 0 <= j < old(self).len() && old(self).name(j) == n2;
                        assert(self.name(j) == n2);
                    }
                    if self.has(n2) {
                        let j = choose|j: int| 0 <= j < self.len() && self.name(j) == n2;
                        assert(old(self).name(j) == n2);
                    }
                }
            },
            None => {
                let ghost n = f.name@;
                self.formulae.push(f);
                assert(self.name(old(self).len()) == n);
                assert forall|i: int, j: int|
                    0 <= i < self.len() && 0 <= j < self.len() && #[trigger] self.name(i)
                        == #[trigger] self.name(j) implies i == j by {
                    if i < old(self).len() && j < old(self).len() {
                        assert(old(self).name(i) == old(self).name(j));
                    } else if i < old(self).len() {
                        assert(old(self).name(i) == n);
                    } else if j < old(self).len() {
                        assert(old(self).name(j) == n);
                    }
                }
                assert forall|n2: Seq<char>| n2 != n implies (self.has(n2) == old(self).has(n2)) by {
                    if old(self).has(n2) {
                        let j = choose|j: int| 0 <= j < old(self).len() && old(self).name(j) == n2;
                        assert(self.name(j) == n2);
                    }
                    if self.has(n2) {
                        let j = choose|j: int| 0 <= j < self.len() && self.name(j) == n2;
                        assert(old(self).name(j) == n2);
                    }
                }
            },
        }
    }
}

} // verus!

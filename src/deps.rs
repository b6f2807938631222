use vstd::prelude::*;

use crate::repo::Repo;

verus! {

/// Why dependency resolution failed.
#[derive(Debug)]
pub enum ResolveError {
    /// A requested name, or a dependency name, has no record in the repository.
    MissingPackage(String),
}

/// `p` is a chain of names, each a hard dependency of the one before.
pub open spec fn is_path(repo: Repo, p: Seq<Seq<char>>) -> bool {
    p.len() >= 1 && forall|i: int| 0 <= i < p.len() - 1 ==> repo.edge(#[trigger] p[i], p[i + 1])
}

/// `b` is `a` or one of its transitive hard dependencies.
pub open spec fn reaches(repo: Repo, a: Seq<char>, b: Seq<char>) -> bool {
    exists|p: Seq<Seq<char>>| is_path(repo, p) && p[0] == a && p.last() == b
}

/// `n` is requested, or a transitive hard dependency of a requested name.
pub open spec fn reachable(repo: Repo, roots: Seq<Seq<char>>, n: Seq<char>) -> bool {
    exists|r: Seq<char>| roots.contains(r) && #[trigger] reaches(repo, r, n)
}

/// No name is its own transitive hard dependency.
pub open spec fn acyclic(repo: Repo) -> bool {
    forall|a: Seq<char>, b: Seq<char>| repo.edge(a, b) ==> !#[trigger] reaches(repo, b, a)
}

/// The names of a list of strings.
pub open spec fn views(s: Seq<String>) -> Seq<Seq<char>> {
    s.map_values(|x: String| x@)
}

/// Every hard dependency of each listed name appears earlier in the list, or
/// leads back to that name through a dependency cycle.
pub open spec fn deps_first(repo: Repo, o: Seq<Seq<char>>) -> bool {
    forall|p: int, b: Seq<char>|
        0 <= p < o.len() && #[trigger] repo.edge(o[p], b) ==> (exists|j: int|
            0 <= j < p && #[trigger] o[j] == b) || reaches(repo, b, o[p])
}

/// State of the depth-first walk: `o` is the output so far, `vis` marks the
/// records entered, `stack` the names being walked.
pub open spec fn walk_inv(
    repo: Repo,
    roots: Seq<Seq<char>>,
    o: Seq<Seq<char>>,
    vis: Seq<bool>,
    stack: Seq<Seq<char>>,
) -> bool {
    &&& vis.len() == repo.len()
    &&& o.no_duplicates()
    &&& deps_first(repo, o)
    &&& forall|k: int| 0 <= k < repo.len() && #[trigger] vis[k] ==> reachable(repo, roots, repo.name(k))
    &&& forall|k: int|
        0 <= k < repo.len() && #[trigger] vis[k] ==> o.contains(repo.name(k)) || stack.contains(
            repo.name(k),
        )
    &&& forall|p: int| 0 <= p < o.len() ==> exists|k: int| 0 <= k < repo.len() && vis[k] && #[trigger] repo.name(k) == #[trigger] o[p]
    &&& forall|i: int| 0 <= i < stack.len() ==> exists|k: int| 0 <= k < repo.len() && vis[k] && #[trigger] repo.name(k) == #[trigger] stack[i]
    &&& forall|i: int| 0 <= i < stack.len() ==> !o.contains(#[trigger] stack[i])
    &&& stack.len() > 0 ==> is_path(repo, stack)
    &&& forall|p: int, b: Seq<char>|
        0 <= p < o.len() && #[trigger] repo.edge(o[p], b) ==> o.contains(b) || stack.contains(b)
}

proof fn lemma_reach_step(repo: Repo, roots: Seq<Seq<char>>, a: Seq<char>, b: Seq<char>)
    requires
        reachable(repo, roots, a),
        repo.edge(a, b),
    ensures
        reachable(repo, roots, b),
{
    let r = choose|r: Seq<char>| roots.contains(r) && #[trigger] reaches(repo, r, a);
    let p = choose|p: Seq<Seq<char>>| is_path(repo, p) && p[0] == r && p.last() == a;
    let p2 = p.push(b);
    assert forall|i: int| 0 <= i < p2.len() - 1 implies repo.edge(#[trigger] p2[i], p2[i + 1]) by {
        if i < p.len() - 1 {
            assert(p2[i] == p[i] && p2[i + 1] == p[i + 1]);
        }
    }
    assert(is_path(repo, p2) && p2[0] == r && p2.last() == b);
    assert(reaches(repo, r, b));
}

proof fn lemma_root_reachable(repo: Repo, roots: Seq<Seq<char>>, i: int)
    requires
        0 <= i < roots.len(),
    ensures
        reachable(repo, roots, roots[i]),
{
    let p = seq![roots[i]];
    assert(is_path(repo, p) && p[0] == roots[i] && p.last() == roots[i]);
    assert(roots.contains(roots[i]));
    assert(reaches(repo, roots[i], roots[i]));
}

/// A suffix of a stack path reaches the stack's last name.
proof fn lemma_stack_reaches(repo: Repo, stack: Seq<Seq<char>>, q: int)
    requires
        is_path(repo, stack),
        0 <= q < stack.len(),
    ensures
        reaches(repo, stack[q], stack.last()),
{
    let p = stack.subrange(q, stack.len() as int);
    assert forall|i: int| 0 <= i < p.len() - 1 implies repo.edge(#[trigger] p[i], p[i + 1]) by {
        assert(p[i] == stack[q + i] && p[i + 1] == stack[q + i + 1]);
    }
    assert(is_path(repo, p) && p[0] == stack[q] && p.last() == stack.last());
}

/// Number of records not yet entered.
pub open spec fn unvisited(v: Seq<bool>) -> nat
    decreases v.len(),
{
    if v.len() == 0 {
        0
    } else {
        unvisited(v.drop_last()) + if v.last() {
            0nat
        } else {
            1nat
        }
    }
}

proof fn lemma_unvisited_mono(a: Seq<bool>, b: Seq<bool>, k: int)
    requires
        a.len() == b.len(),
        forall|i: int| 0 <= i < a.len() && #[trigger] a[i] ==> b[i],
        0 <= k < a.len() ==> !a[k] && b[k],
    ensures
        unvisited(b) <= unvisited(a),
        0 <= k < a.len() ==> unvisited(b) < unvisited(a),
    decreases a.len(),
{
    if a.len() > 0 {
        let n = a.len() - 1;
        assert forall|i: int| 0 <= i < n && #[trigger] a.drop_last()[i] implies b.drop_last()[i] by {
            assert(a[i]);
        }
        if k == n {
            lemma_unvisited_mono(a.drop_last(), b.drop_last(), -1);
        } else {
            lemma_unvisited_mono(a.drop_last(), b.drop_last(), k);
        }
    }
}

/// Under distinct names, the dependencies of the record at `k` are the
/// dependency edges out of its name.
proof fn lemma_edge_at(repo: Repo, k: int, b: Seq<char>)
    requires
        repo.wf(),
        0 <= k < repo.len(),
        repo.edge(repo.name(k), b),
    ensures
        exists|q: int| 0 <= q < repo.ndeps(k) && repo.dep(k, q) == b,
{
    let (k2, q) = choose|k2: int, q: int|
        0 <= k2 < repo.len() && 0 <= q < repo.ndeps(k2) && #[trigger] repo.name(k2) == repo.name(k)
            && #[trigger] repo.dep(k2, q) == b;
    assert(repo.name(k2) == repo.name(k));
    assert(k2 == k);
}

/// Entering the record at `k` keeps the walk's invariant, with its name on
/// the stack.
proof fn lemma_enter(
    repo: Repo,
    roots: Seq<Seq<char>>,
    o: Seq<Seq<char>>,
    vis: Seq<bool>,
    stack: Seq<Seq<char>>,
    k: int,
)
    requires
        repo.wf(),
        walk_inv(repo, roots, o, vis, stack),
        0 <= k < repo.len(),
        !vis[k],
        reachable(repo, roots, repo.name(k)),
        stack.len() > 0 ==> repo.edge(stack.last(), repo.name(k)),
    ensures
        walk_inv(repo, roots, o, vis.update(k, true), stack.push(repo.name(k))),
        !stack.contains(repo.name(k)),
{
    let v2 = vis.update(k, true);
    let s2 = stack.push(repo.name(k));
    let nk = repo.name(k);
    if stack.contains(nk) {
        let i = choose|i: int| 0 <= i < stack.len() && stack[i] == nk;
        let k2 = choose|k2: int| 0 <= k2 < repo.len() && vis[k2] && #[trigger] repo.name(k2) == #[trigger] stack[i];
        assert(repo.name(k2) == repo.name(k));
    }
    if o.contains(nk) {
        let p = choose|p: int| 0 <= p < o.len() && o[p] == nk;
        let k2 = choose|k2: int| 0 <= k2 < repo.len() && vis[k2] && #[trigger] repo.name(k2) == #[trigger] o[p];
        assert(repo.name(k2) == repo.name(k));
    }
    assert forall|j: int| 0 <= j < repo.len() && #[trigger] v2[j] implies o.contains(repo.name(j))
        || s2.contains(repo.name(j)) by {
        if j == k {
            assert(s2[stack.len() as int] == nk);
        } else {
            assert(vis[j]);
            if stack.contains(repo.name(j)) {
                let i = choose|i: int| 0 <= i < stack.len() && stack[i] == repo.name(j);
                assert(s2[i] == stack[i]);
            }
        }
    }
    assert forall|j: int| 0 <= j < repo.len() && #[trigger] v2[j] implies reachable(
        repo,
        roots,
        repo.name(j),
    ) by {
        if j != k {
            assert(vis[j]);
        }
    }
    assert forall|p: int| 0 <= p < o.len() implies exists|k2: int|
        0 <= k2 < repo.len() && v2[k2] && #[trigger] repo.name(k2) == #[trigger] o[p] by {
        let k2 = choose|k2: int| 0 <= k2 < repo.len() && vis[k2] && #[trigger] repo.name(k2) == #[trigger] o[p];
        assert(v2[k2]);
    }
    assert forall|i: int| 0 <= i < s2.len() implies exists|k2: int|
        0 <= k2 < repo.len() && v2[k2] && #[trigger] repo.name(k2) == #[trigger] s2[i] by {
        if i < stack.len() {
            assert(s2[i] == stack[i]);
            let k2 = choose|k2: int| 0 <= k2 < repo.len() && vis[k2] && #[trigger] repo.name(k2) == #[trigger] stack[i];
            assert(v2[k2]);
        } else {
            assert(v2[k]);
            assert(repo.name(k) == s2[i]);
        }
    }
    assert forall|i: int| 0 <= i < s2.len() implies !o.contains(#[trigger] s2[i]) by {
        if i < stack.len() {
            assert(s2[i] == stack[i]);
        }
    }
    assert forall|i: int| 0 <= i < s2.len() - 1 implies repo.edge(#[trigger] s2[i], s2[i + 1]) by {
        if i < stack.len() - 1 {
            assert(s2[i] == stack[i] && s2[i + 1] == stack[i + 1]);
        } else {
            assert(s2[i] == stack.last());
        }
    }
    assert forall|p: int, b: Seq<char>|
        0 <= p < o.len() && #[trigger] repo.edge(o[p], b) implies o.contains(b) || s2.contains(b) by {
        if stack.contains(b) {
            let i = choose|i: int| 0 <= i < stack.len() && stack[i] == b;
            assert(s2[i] == stack[i]);
        }
    }
}

/// Leaving the record at `k`, once each of its dependencies is listed or on
/// the stack, keeps the walk's invariant with its name appended.
proof fn lemma_finish(
    repo: Repo,
    roots: Seq<Seq<char>>,
    o: Seq<Seq<char>>,
    vis: Seq<bool>,
    stack: Seq<Seq<char>>,
    k: int,
)
    requires
        repo.wf(),
        walk_inv(repo, roots, o, vis, stack.push(repo.name(k))),
        0 <= k < repo.len(),
        vis[k],
        !stack.contains(repo.name(k)),
        stack.len() > 0 ==> repo.edge(stack.last(), repo.name(k)),
        forall|q: int|
            0 <= q < repo.ndeps(k) ==> o.contains(#[trigger] repo.dep(k, q)) || stack.push(
                repo.name(k),
            ).contains(repo.dep(k, q)),
    ensures
        walk_inv(repo, roots, o.push(repo.name(k)), vis, stack),
{
    let nk = repo.name(k);
    let s2 = stack.push(nk);
    let o2 = o.push(nk);
    assert(s2[stack.len() as int] == nk);
    assert(!o.contains(nk));
    assert(is_path(repo, s2));
    assert forall|p: int, b: Seq<char>|
        0 <= p < o2.len() && #[trigger] repo.edge(o2[p], b) implies (exists|j: int|
            0 <= j < p && #[trigger] o2[j] == b) || reaches(repo, b, o2[p]) by {
        if p < o.len() {
            assert(o2[p] == o[p]);
            if exists|j: int| 0 <= j < p && #[trigger] o[j] == b {
                let j = choose|j: int| 0 <= j < p && #[trigger] o[j] == b;
                assert(o2[j] == o[j]);
            }
        } else {
            lemma_edge_at(repo, k, b);
            let q = choose|q: int| 0 <= q < repo.ndeps(k) && repo.dep(k, q) == b;
            assert(repo.dep(k, q) == b);
            if o.contains(b) {
                let j = choose|j: int| 0 <= j < o.len() && o[j] == b;
                assert(o2[j] == b);
            } else {
                let i = choose|i: int| 0 <= i < s2.len() && s2[i] == b;
                lemma_stack_reaches(repo, s2, i);
            }
        }
    }
    assert forall|j: int| 0 <= j < repo.len() && #[trigger] vis[j] implies o2.contains(repo.name(j))
        || stack.contains(repo.name(j)) by {
        if o.contains(repo.name(j)) {
            let p = choose|p: int| 0 <= p < o.len() && o[p] == repo.name(j);
            assert(o2[p] == o[p]);
        } else {
            let i = choose|i: int| 0 <= i < s2.len() && s2[i] == repo.name(j);
            if i == stack.len() {
                assert(o2[o.len() as int] == nk);
            } else {
                assert(stack[i] == s2[i]);
            }
        }
    }
    assert forall|p: int| 0 <= p < o2.len() implies exists|k2: int|
        0 <= k2 < repo.len() && vis[k2] && #[trigger] repo.name(k2) == #[trigger] o2[p] by {
        if p < o.len() {
            assert(o2[p] == o[p]);
            let k2 = choose|k2: int| 0 <= k2 < repo.len() && vis[k2] && #[trigger] repo.name(k2) == #[trigger] o[p];
        } else {
            assert(repo.name(k) == o2[p]);
        }
    }
    assert forall|i: int| 0 <= i < stack.len() implies exists|k2: int|
        0 <= k2 < repo.len() && vis[k2] && #[trigger] repo.name(k2) == #[trigger] stack[i] by {
        assert(s2[i] == stack[i]);
        let k2 = choose|k2: int| 0 <= k2 < repo.len() && vis[k2] && #[trigger] repo.name(k2) == #[trigger] s2[i];
    }
    assert forall|i: int| 0 <= i < stack.len() implies !o2.contains(#[trigger] stack[i]) by {
        assert(s2[i] == stack[i]);
        assert(!o.contains(s2[i]));
        if o2.contains(stack[i]) {
            let p = choose|p: int| 0 <= p < o2.len() && o2[p] == stack[i];
            if p < o.len() {
                assert(o[p] == o2[p]);
            } else {
                assert(stack.contains(nk));
            }
        }
    }
    if stack.len() > 0 {
        assert forall|i: int| 0 <= i < stack.len() - 1 implies repo.edge(#[trigger] stack[i], stack[i + 1]) by {
            assert(s2[i] == stack[i] && s2[i + 1] == stack[i + 1]);
        }
    }
    assert forall|p: int, b: Seq<char>|
        0 <= p < o2.len() && #[trigger] repo.edge(o2[p], b) implies o2.contains(b) || stack.contains(b) by {
        let via_o = o.contains(b);
        if p < o.len() {
            assert(o2[p] == o[p]);
        } else {
            lemma_edge_at(repo, k, b);
            let q = choose|q: int| 0 <= q < repo.ndeps(k) && repo.dep(k, q) == b;
            assert(repo.dep(k, q) == b);
        }
        if o.contains(b) {
            let j = choose|j: int| 0 <= j < o.len() && o[j] == b;
            assert(o2[j] == b);
        } else {
            let i = choose|i: int| 0 <= i < s2.len() && s2[i] == b;
            if i == stack.len() {
                assert(o2[o.len() as int] == nk);
            } else {
                assert(stack[i] == s2[i]);
            }
        }
    }
    assert(o2.no_duplicates()) by {
        assert forall|i: int, j: int| 0 <= i < o2.len() && 0 <= j < o2.len() && i != j implies o2[i] != o2[j] by {
            if i < o.len() && j < o.len() {
                assert(o2[i] == o[i] && o2[j] == o[j]);
            } else if i < o.len() {
                assert(o2[i] == o[i]);
            } else if j < o.len() {
                assert(o2[j] == o[j]);
            }
        }
    }
}

/// Position of the record named `n`, if the repository has one.
pub open spec fn index_of(repo: Repo, n: Seq<char>) -> Option<int> {
    if repo.has(n) {
        Some(choose|k: int| 0 <= k < repo.len() && repo.name(k) == n)
    } else {
        None
    }
}

/// The depth-first walk from the record at `k`, given the records already
/// entered and the output so far: mark `k`, walk its dependencies in listed
/// order, then append its name. The error is the first missing name met.
pub open spec fn walk_from(repo: Repo, k: int, vis: Seq<bool>, out: Seq<Seq<char>>) -> Result<
    (Seq<bool>, Seq<Seq<char>>),
    Seq<char>,
>
    decreases unvisited(vis), 0nat, 0int,
{
    let v2 = vis.update(k, true);
    if unvisited(v2) < unvisited(vis) {
        match walk_deps(repo, k, 0, v2, out) {
            Ok((v3, o3)) => Ok((v3, o3.push(repo.name(k)))),
            Err(n) => Err(n),
        }
    } else {
        Ok((vis, out))
    }
}

/// The walk over the dependencies of the record at `k` from the `q`-th on.
pub open spec fn walk_deps(repo: Repo, k: int, q: int, vis: Seq<bool>, out: Seq<Seq<char>>) -> Result<
    (Seq<bool>, Seq<Seq<char>>),
    Seq<char>,
>
    decreases unvisited(vis), 1nat, repo.ndeps(k) - q,
{
    if q < 0 || q >= repo.ndeps(k) {
        Ok((vis, out))
    } else {
        let d = repo.dep(k, q);
        match index_of(repo, d) {
            None => Err(d),
            Some(kd) => if 0 <= kd < vis.len() && !vis[kd] {
                match walk_from(repo, kd, vis, out) {
                    Ok((v2, o2)) => if unvisited(v2) <= unvisited(vis) {
                        walk_deps(repo, k, q + 1, v2, o2)
                    } else {
                        Ok((v2, o2))
                    },
                    Err(n) => Err(n),
                }
            } else {
                walk_deps(repo, k, q + 1, vis, out)
            },
        }
    }
}

/// The walk over the requested names from the `i`-th on.
pub open spec fn walk_roots(repo: Repo, roots: Seq<Seq<char>>, i: int, vis: Seq<bool>, out: Seq<Seq<char>>) -> Result<
    Seq<Seq<char>>,
    Seq<char>,
>
    decreases roots.len() - i,
{
    if i < 0 || i >= roots.len() {
        Ok(out)
    } else {
        match index_of(repo, roots[i]) {
            None => Err(roots[i]),
            Some(k) => if 0 <= k < vis.len() && !vis[k] {
                match walk_from(repo, k, vis, out) {
                    Ok((v2, o2)) => walk_roots(repo, roots, i + 1, v2, o2),
                    Err(n) => Err(n),
                }
            } else {
                walk_roots(repo, roots, i + 1, vis, out)
            },
        }
    }
}

/// The depth-first post-order of the requested names: each requested name not
/// yet entered is walked in order, each record marked before its
/// dependencies are walked in listed order, and appended after them.
pub open spec fn post_order(repo: Repo, roots: Seq<Seq<char>>) -> Result<Seq<Seq<char>>, Seq<char>> {
    walk_roots(repo, roots, 0, Seq::new(repo.len() as nat, |i: int| false), Seq::empty())
}

proof fn lemma_index_of(repo: Repo, k: int)
    requires
        repo.wf(),
        0 <= k < repo.len(),
    ensures
        index_of(repo, repo.name(k)) == Some(k),
{
    assert(repo.has(repo.name(k)));
    let j = choose|j: int| 0 <= j < repo.len() && repo.name(j) == repo.name(k);
    assert(repo.name(j) == repo.name(k));
}

/// Walks the record at `k` depth first: each dependency not yet entered is
/// walked first, then the record's name is appended to `deps`. A record is
/// marked in `visited` before its dependencies are walked, so a cycle ends the
/// walk instead of looping.
fn find_deps_dfs(
    k: usize,
    repo: &Repo,
    deps: &mut Vec<String>,
    visited: &mut Vec<bool>,
    Ghost(roots): Ghost<Seq<Seq<char>>>,
    Ghost(stack): Ghost<Seq<Seq<char>>>,
) -> (r: Result<(), ResolveError>)
    requires
        repo.wf(),
        k < repo.len(),
        !old(visited)@[k as int],
        walk_inv(*repo, roots, views(old(deps)@), old(visited)@, stack),
        reachable(*repo, roots, repo.name(k as int)),
        stack.len() > 0 ==> repo.edge(stack.last(), repo.name(k as int)),
    ensures
        final(visited)@.len() == old(visited)@.len(),
        forall|i: int| 0 <= i < old(visited)@.len() && #[trigger] old(visited)@[i] ==> final(visited)@[i],
        final(deps)@.len() >= old(deps)@.len(),
        forall|i: int| 0 <= i < old(deps)@.len() ==> #[trigger] final(deps)@[i] == old(deps)@[i],
        final(visited)@[k as int],
        walk_from(*repo, k as int, old(visited)@, views(old(deps)@)) == match r {
            Ok(()) => Ok::<(Seq<bool>, Seq<Seq<char>>), Seq<char>>((final(visited)@, views(final(deps)@))),
            Err(ResolveError::MissingPackage(n)) => Err(n@),
        },
        r is Ok ==> final(deps)@.len() > old(deps)@.len() && final(deps)@.last()@ == repo.name(k as int),
        match r {
            Ok(()) => walk_inv(*repo, roots, views(final(deps)@), final(visited)@, stack),
            Err(ResolveError::MissingPackage(n)) => !repo.has(n@) && reachable(*repo, roots, n@),
        },
    decreases unvisited(old(visited)@),
{
    let ghost vis0 = visited@;
    let ghost nk = repo.name(k as int);
    proof {
        lemma_enter(*repo, roots, views(deps@), visited@, stack, k as int);
    }
    visited.set(k, true);
    let ghost s2 = stack.push(nk);
    let ghost deps0 = deps@;
    let ghost v1 = visited@;
    proof {
        lemma_unvisited_mono(vis0, v1, k as int);
        assert(vis0.update(k as int, true) == v1);
    }
    let f = &repo.formulae[k];
    let mut q: usize = 0;
    while q < f.deps.len()
        invariant
            repo.wf(),
            k < repo.len(),
            f == repo.formulae@[k as int],
            q <= f.deps@.len(),
            !stack.contains(nk),
            nk == repo.name(k as int),
            s2 == stack.push(nk),
            stack.len() > 0 ==> repo.edge(stack.last(), nk),
            reachable(*repo, roots, nk),
            walk_inv(*repo, roots, views(deps@), visited@, s2),
            visited@[k as int],
            visited@.len() == vis0.len(),
            vis0 == old(visited)@,
            deps0 == old(deps)@,
            !vis0[k as int],
            forall|i: int| 0 <= i < vis0.len() && #[trigger] vis0[i] ==> visited@[i],
            deps@.len() >= deps0.len(),
            forall|i: int| 0 <= i < deps0.len() ==> #[trigger] deps@[i] == deps0[i],
            forall|j: int|
                0 <= j < q ==> views(deps@).contains(#[trigger] repo.dep(k as int, j)) || s2.contains(
                    repo.dep(k as int, j),
                ),
            v1 == vis0.update(k as int, true),
            unvisited(v1) < unvisited(vis0),
            walk_deps(*repo, k as int, 0, v1, views(deps0)) == walk_deps(*repo, k as int, q as int, visited@, views(deps@)),
        decreases f.deps@.len() - q,
    {
        let d = &f.deps[q];
        assert(repo.dep(k as int, q as int) == d@);
        assert(repo.edge(nk, d@));
        proof {
            lemma_reach_step(*repo, roots, nk, d@);
        }
        let ghost before = walk_deps(*repo, k as int, q as int, visited@, views(deps@));
        match repo.lookup(d) {
            None => {
                assert(index_of(*repo, d@) is None);
                assert(before == Err::<(Seq<bool>, Seq<Seq<char>>), Seq<char>>(d@));
                return Err(ResolveError::MissingPackage(d.clone()));
            },
            Some(kd) => {
                proof {
                    lemma_index_of(*repo, kd as int);
                }
                if !visited[kd] {
                    let ghost deps1 = deps@;
                    let ghost vis1 = visited@;
                    proof {
                        lemma_unvisited_mono(vis0, visited@, k as int);
                    }
                    let r = find_deps_dfs(kd, repo, deps, visited, Ghost(roots), Ghost(s2));
                    proof {
                        lemma_unvisited_mono(vis1, visited@, -1);
                    }
                    match r {
                        Err(e) => {
                            return Err(e);
                        },
                        Ok(()) => {},
                    }
                    assert(before == walk_deps(*repo, k as int, q + 1, visited@, views(deps@)));
                    assert forall|j: int|
                        0 <= j < q implies views(deps@).contains(#[trigger] repo.dep(k as int, j))
                            || s2.contains(repo.dep(k as int, j)) by {
                        if views(deps1).contains(repo.dep(k as int, j)) {
                            let p = choose|p: int| 0 <= p < views(deps1).len() && views(deps1)[p] == repo.dep(k as int, j);
                            assert(views(deps@)[p] == views(deps1)[p]);
                        }
                    }
                }
                else {
                    assert(before == walk_deps(*repo, k as int, q + 1, visited@, views(deps@)));
                }
                assert(visited@[kd as int]);
                assert(views(deps@).contains(repo.name(kd as int)) || s2.contains(repo.name(kd as int)));
            },
        }
        q = q + 1;
    }
    let ghost o = views(deps@);
    proof {
        lemma_finish(*repo, roots, o, visited@, stack, k as int);
    }
    assert(walk_deps(*repo, k as int, q as int, visited@, o) == Ok::<(Seq<bool>, Seq<Seq<char>>), Seq<char>>((visited@, o)));
    deps.push(f.name.clone());
    assert(views(deps@) =~= o.push(nk));
    Ok(())
}

/// Resolves the requested names into an install order: every name reachable
/// from the request through hard dependencies, each once, each after its
/// dependencies unless a dependency cycle leads back to it.
pub fn find_deps(pkgs: &[String], repo: &Repo) -> (r: Result<Vec<String>, ResolveError>)
    requires
        repo.wf(),
    ensures
        r is Ok <==> forall|n: Seq<char>| reachable(*repo, views(pkgs@), n) ==> repo.has(n),
        match r {
            Ok(out) => {
                &&& views(out@).no_duplicates()
                &&& forall|n: Seq<char>| views(out@).contains(n) <==> reachable(*repo, views(pkgs@), n)
                &&& deps_first(*repo, views(out@))
            },
            Err(ResolveError::MissingPackage(n)) => !repo.has(n@) && reachable(*repo, views(pkgs@), n@),
        },
        pkgs@.len() > 0 && !repo.has(pkgs@[0]@) ==> (r matches Err(ResolveError::MissingPackage(n))
            && n@ == pkgs@[0]@),
        post_order(*repo, views(pkgs@)) == match r {
            Ok(v) => Ok::<Seq<Seq<char>>, Seq<char>>(views(v@)),
            Err(ResolveError::MissingPackage(n)) => Err(n@),
        },
{
    let ghost roots = views(pkgs@);
    let mut deps: Vec<String> = Vec::new();
    let mut visited: Vec<bool> = Vec::new();
    let mut z: usize = 0;
    while z < repo.formulae.len()
        invariant
            z <= repo.len(),
            visited@.len() == z,
            forall|i: int| 0 <= i < z ==> !#[trigger] visited@[i],
        decreases repo.formulae.len() - z,
    {
        visited.push(false);
        z = z + 1;
    }
    assert(views(deps@) =~= Seq::<Seq<char>>::empty());
    assert(walk_inv(*repo, roots, views(deps@), visited@, Seq::empty()));
    assert(visited@ =~= Seq::new(repo.len() as nat, |i: int| false));
    let mut i: usize = 0;
    while i < pkgs.len()
        invariant
            repo.wf(),
            roots == views(pkgs@),
            i <= pkgs@.len(),
            walk_inv(*repo, roots, views(deps@), visited@, Seq::empty()),
            forall|j: int| 0 <= j < i ==> views(deps@).contains(#[trigger] roots[j]),
            i > 0 ==> repo.has(pkgs@[0]@),
            post_order(*repo, roots) == walk_roots(*repo, roots, i as int, visited@, views(deps@)),
        decreases pkgs@.len() - i,
    {
        let p = &pkgs[i];
        assert(roots[i as int] == p@);
        proof {
            lemma_root_reachable(*repo, roots, i as int);
        }
        let ghost before = walk_roots(*repo, roots, i as int, visited@, views(deps@));
        match repo.lookup(p) {
            None => {
                assert(index_of(*repo, p@) is None);
                assert(before == Err::<Seq<Seq<char>>, Seq<char>>(p@));
                return Err(ResolveError::MissingPackage(p.clone()));
            },
            Some(k) => {
                proof {
                    lemma_index_of(*repo, k as int);
                }
                if !visited[k] {
                    let ghost deps1 = deps@;
                    let r = find_deps_dfs(k, repo, &mut deps, &mut visited, Ghost(roots), Ghost(Seq::empty()));
                    match r {
                        Err(e) => {
                            return Err(e);
                        },
                        Ok(()) => {},
                    }
                    assert(before == walk_roots(*repo, roots, i + 1, visited@, views(deps@)));
                    assert forall|j: int| 0 <= j < i implies views(deps@).contains(#[trigger] roots[j]) by {
                        let p = choose|p: int| 0 <= p < views(deps1).len() && views(deps1)[p] == roots[j];
                        assert(views(deps@)[p] == views(deps1)[p]);
                    }
                }
                else {
                    assert(before == walk_roots(*repo, roots, i + 1, visited@, views(deps@)));
                }
                assert(visited@[k as int]);
                assert(views(deps@).contains(repo.name(k as int)) || Seq::<Seq<char>>::empty().contains(repo.name(k as int)));
            },
        }
        i = i + 1;
    }
    proof {
        lemma_complete(*repo, roots, views(deps@), visited@);
    }
    Ok(deps)
}

/// Once the walk is over, the output holds exactly the reachable names.
proof fn lemma_complete(repo: Repo, roots: Seq<Seq<char>>, o: Seq<Seq<char>>, vis: Seq<bool>)
    requires
        walk_inv(repo, roots, o, vis, Seq::empty()),
        forall|j: int| 0 <= j < roots.len() ==> o.contains(#[trigger] roots[j]),
    ensures
        forall|n: Seq<char>| o.contains(n) <==> reachable(repo, roots, n),
        forall|n: Seq<char>| o.contains(n) ==> repo.has(n),
{
    assert forall|n: Seq<char>| o.contains(n) implies reachable(repo, roots, n) && repo.has(n) by {
        let p = choose|p: int| 0 <= p < o.len() && o[p] == n;
        let k = choose|k: int| 0 <= k < repo.len() && vis[k] && #[trigger] repo.name(k) == #[trigger] o[p];
    }
    assert forall|n: Seq<char>| reachable(repo, roots, n) implies o.contains(n) by {
        let r = choose|r: Seq<char>| roots.contains(r) && #[trigger] reaches(repo, r, n);
        let path = choose|path: Seq<Seq<char>>| is_path(repo, path) && path[0] == r && path.last() == n;
        lemma_path_in(repo, roots, o, vis, path);
    }
}

proof fn lemma_path_in(repo: Repo, roots: Seq<Seq<char>>, o: Seq<Seq<char>>, vis: Seq<bool>, path: Seq<Seq<char>>)
    requires
        walk_inv(repo, roots, o, vis, Seq::empty()),
        is_path(repo, path),
        o.contains(path[0]),
    ensures
        o.contains(path.last()),
    decreases path.len(),
{
    if path.len() > 1 {
        let prev = path.drop_last();
        assert forall|i: int| 0 <= i < prev.len() - 1 implies repo.edge(#[trigger] prev[i], prev[i + 1]) by {
            assert(prev[i] == path[i] && prev[i + 1] == path[i + 1]);
        }
        lemma_path_in(repo, roots, o, vis, prev);
        let p = choose|p: int| 0 <= p < o.len() && o[p] == prev.last();
        assert(repo.edge(path[path.len() - 2], path[path.len() - 1]));
        assert(repo.edge(o[p], path.last()));
    }
}

/// In an acyclic repository, an install order that lists each name after its
/// direct dependencies (as `find_deps` returns) lists every name strictly
/// after all of its transitive hard dependencies.
pub proof fn lemma_acyclic_order(repo: Repo, out: Seq<Seq<char>>, i: int, path: Seq<Seq<char>>)
    requires
        acyclic(repo),
        deps_first(repo, out),
        0 <= i < out.len(),
        is_path(repo, path),
        path.len() >= 2,
        path[0] == out[i],
    ensures
        exists|j: int| 0 <= j < i && out[j] == path.last(),
    decreases path.len(),
{
    let prev = path.drop_last();
    let b = path.last();
    assert(repo.edge(path[path.len() - 2], path[path.len() - 1]));
    if prev.len() == 1 {
        assert(repo.edge(out[i], b));
        assert(!reaches(repo, b, out[i]));
    } else {
        assert forall|x: int| 0 <= x < prev.len() - 1 implies repo.edge(#[trigger] prev[x], prev[x + 1]) by {
            assert(prev[x] == path[x] && prev[x + 1] == path[x + 1]);
        }
        lemma_acyclic_order(repo, out, i, prev);
        let j = choose|j: int| 0 <= j < i && out[j] == prev.last();
        assert(repo.edge(out[j], b));
        assert(!reaches(repo, b, out[j]));
        let j2 = choose|j2: int| 0 <= j2 < j && #[trigger] out[j2] == b;
    }
}

} // verus!

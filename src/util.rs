use vstd::prelude::*;

verus! {

/// One component of a path.
pub enum PathComponent {
    /// A drive or share prefix; only ever first.
    Prefix(String),
    RootDir,
    CurDir,
    ParentDir,
    Normal(String),
}

/// A path with `.` and `..` resolved: an optional prefix, whether it starts at
/// the root, and its names.
pub struct NormalPath {
    pub prefix: Option<String>,
    pub rooted: bool,
    pub parts: Vec<String>,
}

/// Rootedness and names after the components `cs`, none of them a prefix: the
/// root clears the names and `..` drops the last one, if any.
pub open spec fn normal_of(cs: Seq<PathComponent>) -> (bool, Seq<Seq<char>>)
    decreases cs.len(),
{
    if cs.len() == 0 {
        (false, Seq::empty())
    } else {
        let (rooted, parts) = normal_of(cs.drop_last());
        match cs.last() {
            PathComponent::RootDir => (true, Seq::empty()),
            PathComponent::ParentDir => (rooted, if parts.len() > 0 { parts.drop_last() } else { parts }),
            PathComponent::Normal(c) => (rooted, parts.push(c@)),
            _ => (rooted, parts),
        }
    }
}

/// Resolves `.` and `..` in a path without looking at the file system. A
/// prefix may only come first.
pub fn normalize_path(components: &Vec<PathComponent>) -> (r: NormalPath)
    requires
        forall|i: int| 0 < i < components@.len() ==> !(components@[i] is Prefix),
    ensures
        match (if components@.len() > 0 { Some(components@[0]) } else { None }) {
            Some(PathComponent::Prefix(p)) => {
                &&& r.prefix == Some(p)
                &&& (r.rooted, r.parts@.map_values(|s: String| s@)) == normal_of(components@.drop_first())
            },
            _ => {
                &&& r.prefix is None
                &&& (r.rooted, r.parts@.map_values(|s: String| s@)) == normal_of(components@)
            },
        },
{
    let mut prefix: Option<String> = None;
    let mut start: usize = 0;
    if components.len() > 0 {
        match &components[0] {
            PathComponent::Prefix(p) => {
                prefix = Some(p.clone());
                start = 1;
            },
            _ => {},
        }
    }
    let ghost rest = components@.subrange(start as int, components@.len() as int);
    let mut rooted = false;
    let mut parts: Vec<String> = Vec::new();
    let mut i: usize = start;
    while i < components.len()
        invariant
            start <= i <= components@.len(),
            start <= 1,
            rest == components@.subrange(start as int, components@.len() as int),
            forall|j: int| 0 < j < components@.len() ==> !(components@[j] is Prefix),
            (rooted, parts@.map_values(|s: String| s@)) == normal_of(rest.subrange(0, i - start)),
        decreases components.len() - i,
    {
        let ghost before = rest.subrange(0, i - start);
        let ghost now = rest.subrange(0, i - start + 1);
        assert(now.drop_last() =~= before);
        match &components[i] {
            PathComponent::RootDir => {
                rooted = true;
                parts = Vec::new();
                assert(parts@.map_values(|s: String| s@) =~= Seq::<Seq<char>>::empty());
            },
            PathComponent::ParentDir => {
                if parts.len() > 0 {
                    parts.pop();
                    assert(parts@.map_values(|s: String| s@) =~= normal_of(before).1.drop_last());
                }
            },
            PathComponent::Normal(c) => {
                parts.push(c.clone());
                assert(parts@.map_values(|s: String| s@) =~= normal_of(before).1.push(c@));
            },
            _ => {},
        }
        i = i + 1;
    }
    assert(rest.subrange(0, i - start) =~= rest);
    if start == 1 {
        assert(rest =~= components@.drop_first());
    } else {
        assert(rest =~= components@);
    }
    NormalPath { prefix, rooted, parts }
}

/// The components that spell a normalized path: the root if it has one, then
/// its names.
pub open spec fn components_of(rooted: bool, parts: Seq<String>) -> Seq<PathComponent>
    decreases parts.len(),
{
    if parts.len() == 0 {
        if rooted {
            seq![PathComponent::RootDir]
        } else {
            Seq::empty()
        }
    } else {
        components_of(rooted, parts.drop_last()).push(PathComponent::Normal(parts.last()))
    }
}

/// Normalizing the components of a normalized path gives that path back.
pub proof fn lemma_normalize_idempotent(rooted: bool, parts: Seq<String>)
    ensures
        normal_of(components_of(rooted, parts)) == (rooted, parts.map_values(|s: String| s@)),
    decreases parts.len(),
{
    if parts.len() == 0 {
        if rooted {
            assert(seq![PathComponent::RootDir].drop_last() =~= Seq::<PathComponent>::empty());
        }
        assert(parts.map_values(|s: String| s@) =~= Seq::<Seq<char>>::empty());
    } else {
        lemma_normalize_idempotent(rooted, parts.drop_last());
        let cs = components_of(rooted, parts);
        assert(cs.drop_last() =~= components_of(rooted, parts.drop_last()));
        assert(parts.map_values(|s: String| s@) =~= parts.drop_last().map_values(|s: String| s@).push(
            parts.last()@,
        ));
    }
}

} // verus!

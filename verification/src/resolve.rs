//! Path resolution over the collection tree: walking a slash-delimited
//! path to a `(collection, target)` pair, listing the choices a collection
//! offers, and the single step of the interactive descent.

use vstd::prelude::*;
use vstd::string::StrSliceExecFns;
use vstd::string::StringExecFns;
use crate::config::{CollectionConfig, TargetConfig};
use crate::errors::Error;
use crate::text::{ends_with_char, lemma_split_len, split_char, split_seq, str_eq};

verus! {

/// The first target of `ts` whose id is `id`.
pub open spec fn find_target_in(ts: Seq<TargetConfig>, id: Seq<char>) -> Option<TargetConfig>
    decreases ts.len(),
{
    if ts.len() == 0 {
        None
    } else if ts[0].id@ == id {
        Some(ts[0])
    } else {
        find_target_in(ts.skip(1), id)
    }
}

/// The first collection of `cs` whose id is `id`.
pub open spec fn find_collection_in(cs: Seq<CollectionConfig>, id: Seq<char>) -> Option<
    CollectionConfig,
>
    decreases cs.len(),
{
    if cs.len() == 0 {
        None
    } else if cs[0].id@ == id {
        Some(cs[0])
    } else {
        find_collection_in(cs.skip(1), id)
    }
}

/// The child collections of a node; a node without the field has none.
pub open spec fn children_of(c: CollectionConfig) -> Seq<CollectionConfig> {
    match c.collections {
        None => Seq::empty(),
        Some(cs) => cs@,
    }
}

/// Why a path failed to resolve: an intermediate segment that named no
/// child collection, or a final segment that named no target.
pub enum PathFailure {
    MissingCollection(Seq<char>),
    MissingTarget(Seq<char>),
}

/// Resolution of a split path against a collection: all but the last
/// segment name child collections in turn, the last names a target of the
/// collection reached.
pub open spec fn resolve_path(c: CollectionConfig, segs: Seq<Seq<char>>) -> Result<
    (CollectionConfig, TargetConfig),
    PathFailure,
>
    decreases segs.len(),
{
    if segs.len() <= 1 {
        let id = if segs.len() == 1 {
            segs[0]
        } else {
            Seq::empty()
        };
        match find_target_in(c.targets@, id) {
            Some(t) => Ok((c, t)),
            None => Err(PathFailure::MissingTarget(id)),
        }
    } else {
        match find_collection_in(children_of(c), segs[0]) {
            Some(child) => resolve_path(child, segs.skip(1)),
            None => Err(PathFailure::MissingCollection(segs[0])),
        }
    }
}

/// The target of `ts` with id `id`, if any, by reference.
fn find_target_ref<'a>(ts: &'a Vec<TargetConfig>, id: &str) -> (r: Option<&'a TargetConfig>)
    ensures
        match r {
            Some(t) => find_target_in(ts@, id@) == Some(*t),
            None => find_target_in(ts@, id@) is None,
        },
{
    let n = ts.len();
    let mut i: usize = 0;
    proof {
        assert(ts@.skip(0) =~= ts@);
    }
    while i < n
        invariant
            n == ts@.len(),
            0 <= i <= n,
            find_target_in(ts@, id@) == find_target_in(ts@.skip(i as int), id@),
        decreases n - i,
    {
        proof {
            assert(ts@.skip(i as int)[0] == ts@[i as int]);
            assert(ts@.skip(i as int).skip(1) =~= ts@.skip(i + 1));
        }
        if str_eq(ts[i].id.as_str(), id) {
            return Some(&ts[i]);
        }
        i = i + 1;
    }
    proof {
        assert(ts@.skip(n as int) =~= Seq::<TargetConfig>::empty());
    }
    None
}

/// The child collection of `c` with id `id`, if any, by reference.
fn find_child_ref<'a>(c: &'a CollectionConfig, id: &str) -> (r: Option<&'a CollectionConfig>)
    ensures
        match r {
            Some(ch) => find_collection_in(children_of(*c), id@) == Some(*ch),
            None => find_collection_in(children_of(*c), id@) is None,
        },
{
    match &c.collections {
        None => None,
        Some(cs) => {
            let n = cs.len();
            let mut i: usize = 0;
            proof {
                assert(cs@.skip(0) =~= cs@);
            }
            while i < n
                invariant
                    n == cs@.len(),
                    0 <= i <= n,
                    children_of(*c) == cs@,
                    find_collection_in(cs@, id@) == find_collection_in(cs@.skip(i as int), id@),
                decreases n - i,
            {
                proof {
                    assert(cs@.skip(i as int)[0] == cs@[i as int]);
                    assert(cs@.skip(i as int).skip(1) =~= cs@.skip(i + 1));
                }
                if str_eq(cs[i].id.as_str(), id) {
                    return Some(&cs[i]);
                }
                i = i + 1;
            }
            proof {
                assert(cs@.skip(n as int) =~= Seq::<CollectionConfig>::empty());
            }
            None
        },
    }
}

/// Resolve a slash-delimited path against `collection`: every segment but
/// the last names a child collection, the last names a target of the node
/// reached. A segment that names nothing is fatal, and the error carries
/// the missing id.
pub fn get_collection_and_target<'a>(collection: &'a CollectionConfig, arg: &str) -> (r: Result<
    (&'a CollectionConfig, &'a TargetConfig),
    Error,
>)
    ensures
        ({
            let res = resolve_path(*collection, split_seq(arg@, '/'));
            match r {
                Ok((c, t)) => res == Ok::<_, PathFailure>((*c, *t)),
                Err(Error::CollectionNotFound { id }) => res == Err::<
                    (CollectionConfig, TargetConfig),
                    _,
                >(PathFailure::MissingCollection(id@)),
                Err(Error::TargetNotFound { id }) => res == Err::<
                    (CollectionConfig, TargetConfig),
                    _,
                >(PathFailure::MissingTarget(id@)),
                Err(_) => false,
            }
        }),
{
    let segs = split_char(arg, '/');
    let ghost all = split_seq(arg@, '/');
    proof {
        lemma_split_len(arg@, '/');
        assert(all.skip(0) =~= all);
    }
    let mut cur: &'a CollectionConfig = collection;
    let mut i: usize = 0;
    while i + 1 < segs.len()
        invariant
            all == split_seq(arg@, '/'),
            segs.deep_view() == all,
            all.len() == segs@.len(),
            0 <= i < all.len(),
            resolve_path(*collection, all) == resolve_path(*cur, all.skip(i as int)),
        decreases all.len() - i,
    {
        let ghost rest = all.skip(i as int);
        proof {
            assert(rest[0] == all[i as int]);
            assert(rest.len() == all.len() - i >= 2);
            assert(rest.skip(1) =~= all.skip(i + 1));
            assert(segs.deep_view()[i as int] == segs@[i as int]@);
        }
        match find_child_ref(cur, segs[i].as_str()) {
            Some(child) => {
                cur = child;
                i = i + 1;
            },
            None => {
                return Err(Error::CollectionNotFound { id: segs[i].clone() });
            },
        }
    }
    let ghost rest = all.skip(i as int);
    proof {
        assert(rest.len() == 1);
        assert(rest[0] == all[i as int]);
        assert(segs.deep_view()[i as int] == segs@[i as int]@);
    }
    match find_target_ref(&cur.targets, segs[i].as_str()) {
        Some(t) => Ok((cur, t)),
        None => Err(Error::TargetNotFound { id: segs[i].clone() }),
    }
}

/// The prefix put before each target id offered for selection.
pub open spec fn path_prefix(path: Seq<char>) -> Seq<char> {
    if path.len() == 0 {
        path
    } else {
        path + seq!['/']
    }
}

/// The choices a collection offers: each target id under the given path
/// prefix, then each child collection id with a trailing slash marking it
/// as descendable.
pub open spec fn all_options(c: CollectionConfig, path: Seq<char>) -> Seq<Seq<char>> {
    Seq::new(c.targets@.len(), |i: int| path_prefix(path) + c.targets@[i].id@) + Seq::new(
        children_of(c).len(),
        |i: int| children_of(c)[i].id@ + seq!['/'],
    )
}

/// List the choices of `collection` for selection: its targets prefixed
/// with `path`, then its child collections marked by a trailing slash.
pub fn create_all_options(collection: &CollectionConfig, path: &str) -> (r: Vec<String>)
    ensures
        r.deep_view() == all_options(*collection, path@),
{
    proof {
        reveal_strlit("/");
    }
    let prepend: String = if path.unicode_len() == 0 {
        String::new()
    } else {
        let mut p = path.to_owned();
        p.append("/");
        p
    };
    proof {
        assert(prepend@ =~= path_prefix(path@));
    }
    let mut r: Vec<String> = Vec::new();
    let ghost t_labels = Seq::new(
        collection.targets@.len(),
        |i: int| path_prefix(path@) + collection.targets@[i].id@,
    );
    let n = collection.targets.len();
    let mut i: usize = 0;
    while i < n
        invariant
            n == collection.targets@.len(),
            0 <= i <= n,
            prepend@ == path_prefix(path@),
            t_labels == Seq::new(
                collection.targets@.len(),
                |k: int| path_prefix(path@) + collection.targets@[k].id@,
            ),
            r.deep_view() == t_labels.subrange(0, i as int),
        decreases n - i,
    {
        let ghost dv0 = r.deep_view();
        let mut s = prepend.clone();
        s.append(collection.targets[i].id.as_str());
        r.push(s);
        i = i + 1;
        proof {
            assert(r.deep_view() =~= dv0.push(path_prefix(path@) + collection.targets@[i - 1].id@));
            assert(t_labels.subrange(0, i as int) =~= t_labels.subrange(0, i - 1).push(
                t_labels[i - 1],
            ));
        }
    }
    proof {
        assert(t_labels.subrange(0, n as int) =~= t_labels);
    }
    match &collection.collections {
        None => {
            proof {
                assert(all_options(*collection, path@) =~= t_labels);
            }
        },
        Some(cs) => {
            let ghost c_labels = Seq::new(children_of(*collection).len(), |i: int| children_of(*collection)[i].id@ + seq!['/']);
            let m = cs.len();
            let mut j: usize = 0;
            while j < m
                invariant
                    m == cs@.len(),
                    0 <= j <= m,
                    collection.collections == Some(*cs),
                    c_labels == Seq::new(
                        children_of(*collection).len(),
                        |k: int| children_of(*collection)[k].id@ + seq!['/'],
                    ),
                    r.deep_view() == t_labels + c_labels.subrange(0, j as int),
                decreases m - j,
            {
                let ghost dv0 = r.deep_view();
                let mut s = cs[j].id.clone();
                s.append("/");
                r.push(s);
                j = j + 1;
                proof {
                    reveal_strlit("/");
                    assert("/"@ =~= seq!['/']);
                    assert(children_of(*collection) == cs@);
                    assert(r.deep_view() =~= dv0.push(cs@[j - 1].id@ + seq!['/']));
                    assert(c_labels.subrange(0, j as int) =~= c_labels.subrange(0, j - 1).push(
                        c_labels[j - 1],
                    ));
                    assert(t_labels + c_labels.subrange(0, j as int) =~= (t_labels
                        + c_labels.subrange(0, j - 1)).push(c_labels[j - 1]));
                }
            }
            proof {
                assert(c_labels.subrange(0, m as int) =~= c_labels);
                assert(all_options(*collection, path@) =~= t_labels + c_labels);
            }
        },
    }
    r
}


/// The collection reached from `c` by following child ids in turn.
pub open spec fn walk_collections(c: CollectionConfig, segs: Seq<Seq<char>>) -> Option<
    CollectionConfig,
>
    decreases segs.len(),
{
    if segs.len() == 0 {
        Some(c)
    } else {
        match find_collection_in(children_of(c), segs[0]) {
            Some(ch) => walk_collections(ch, segs.skip(1)),
            None => None,
        }
    }
}

/// A found target carries the id it was looked up by.
pub proof fn lemma_find_target_id(ts: Seq<TargetConfig>, id: Seq<char>)
    requires
        find_target_in(ts, id) is Some,
    ensures
        find_target_in(ts, id).unwrap().id@ == id,
    decreases ts.len(),
{
    if ts.len() > 0 && ts[0].id@ != id {
        lemma_find_target_id(ts.skip(1), id);
    }
}

/// A found collection carries the id it was looked up by.
pub proof fn lemma_find_collection_id(cs: Seq<CollectionConfig>, id: Seq<char>)
    requires
        find_collection_in(cs, id) is Some,
    ensures
        find_collection_in(cs, id).unwrap().id@ == id,
    decreases cs.len(),
{
    if cs.len() > 0 && cs[0].id@ != id {
        lemma_find_collection_id(cs.skip(1), id);
    }
}

/// When sibling target ids are unique, lookup by id finds exactly the one
/// target that carries it, wherever it stands.
pub proof fn lemma_find_target_unique(ts: Seq<TargetConfig>, id: Seq<char>, k: int)
    requires
        forall|i: int, j: int| 0 <= i < j < ts.len() ==> ts[i].id@ != ts[j].id@,
        0 <= k < ts.len(),
        ts[k].id@ == id,
    ensures
        find_target_in(ts, id) == Some(ts[k]),
    decreases ts.len(),
{
    if k > 0 {
        assert(ts[0].id@ != id);
        assert(forall|i: int, j: int|
            0 <= i < j < ts.skip(1).len() ==> ts.skip(1)[i].id@ != ts.skip(1)[j].id@);
        assert(ts.skip(1)[k - 1] == ts[k]);
        lemma_find_target_unique(ts.skip(1), id, k - 1);
    }
}

/// A path made of existing ids resolves to exactly the target its
/// segments describe: the collection reached by walking the intermediate
/// segments, and in it the target found by the final segment, whose id the
/// target carries; conversely such a walk never fails to resolve. When the
/// path has at least two segments, the returned collection carries the
/// second-to-last segment's id, so the pair's ids reproduce the path's
/// tail.
pub proof fn lemma_resolve_is_walk(c: CollectionConfig, segs: Seq<Seq<char>>)
    requires
        segs.len() >= 1,
    ensures
        resolve_path(c, segs) matches Ok(pair) ==> {
            &&& walk_collections(c, segs.drop_last()) == Some(pair.0)
            &&& find_target_in(pair.0.targets@, segs.last()) == Some(pair.1)
            &&& pair.1.id@ == segs.last()
            &&& segs.len() >= 2 ==> pair.0.id@ == segs[segs.len() - 2]
        },
        (walk_collections(c, segs.drop_last()) matches Some(col) && find_target_in(
            col.targets@,
            segs.last(),
        ) is Some) ==> resolve_path(c, segs) is Ok,
    decreases segs.len(),
{
    if segs.len() == 1 {
        assert(segs.drop_last() =~= Seq::<Seq<char>>::empty());
        assert(segs.last() == segs[0]);
        if find_target_in(c.targets@, segs[0]) is Some {
            lemma_find_target_id(c.targets@, segs[0]);
        }
    } else {
        let dropped = segs.drop_last();
        assert(dropped[0] == segs[0]);
        match find_collection_in(children_of(c), segs[0]) {
            Some(child) => {
                lemma_find_collection_id(children_of(c), segs[0]);
                lemma_resolve_is_walk(child, segs.skip(1));
                assert(dropped.skip(1) =~= segs.skip(1).drop_last());
                assert(segs.skip(1).last() == segs.last());
                assert(walk_collections(c, dropped) == walk_collections(child, dropped.skip(1)));
                if resolve_path(c, segs) is Ok {
                    let pair = resolve_path(c, segs)->Ok_0;
                    if segs.len() == 2 {
                        assert(segs.skip(1).len() == 1);
                        assert(segs.skip(1).drop_last() =~= Seq::<Seq<char>>::empty());
                        assert(walk_collections(child, segs.skip(1).drop_last()) == Some(child));
                        assert(pair.0 == child);
                        assert(pair.0.id@ == segs[0]);
                    } else {
                        assert(segs.skip(1)[segs.skip(1).len() - 2] == segs[segs.len() - 2]);
                    }
                }
            },
            None => {
            },
        }
    }
}

/// Every intermediate collection a successful resolution passes carries
/// exactly its segment's id: the ids met along the walk, with the
/// target's own, recombine to the path that was resolved.
pub proof fn lemma_resolve_reproduces_path(c: CollectionConfig, segs: Seq<Seq<char>>, k: int)
    requires
        1 <= k <= segs.len() - 1,
        resolve_path(c, segs) is Ok,
    ensures
        walk_collections(c, segs.subrange(0, k)) is Some,
        walk_collections(c, segs.subrange(0, k)).unwrap().id@ == segs[k - 1],
    decreases segs.len(),
{
    let prefix = segs.subrange(0, k);
    assert(prefix[0] == segs[0]);
    match find_collection_in(children_of(c), segs[0]) {
        Some(child) => {
            lemma_find_collection_id(children_of(c), segs[0]);
            if k == 1 {
                assert(prefix.skip(1) =~= Seq::<Seq<char>>::empty());
                assert(walk_collections(c, prefix) == Some(child));
            } else {
                assert(prefix.skip(1) =~= segs.skip(1).subrange(0, k - 1));
                assert(walk_collections(c, prefix) == walk_collections(child, prefix.skip(1)));
                assert(segs.skip(1)[k - 2] == segs[k - 1]);
                lemma_resolve_reproduces_path(child, segs.skip(1), k - 1);
            }
        },
        None => {
            assert(resolve_path(c, segs) is Err);
        },
    }
}

/// A path whose intermediate walk gets stuck at segment `k` resolves to a
/// collection-not-found failure naming that segment, never to a target.
pub proof fn lemma_resolve_missing_collection(c: CollectionConfig, segs: Seq<Seq<char>>, k: int)
    requires
        0 <= k < segs.len() - 1,
        walk_collections(c, segs.subrange(0, k)) is Some,
        find_collection_in(
            children_of(walk_collections(c, segs.subrange(0, k)).unwrap()),
            segs[k],
        ) is None,
    ensures
        resolve_path(c, segs) == Err::<(CollectionConfig, TargetConfig), PathFailure>(
            PathFailure::MissingCollection(segs[k]),
        ),
    decreases segs.len(),
{
    if k == 0 {
        assert(segs.subrange(0, 0) =~= Seq::<Seq<char>>::empty());
        assert(walk_collections(c, segs.subrange(0, 0)) == Some(c));
    } else {
        let prefix = segs.subrange(0, k);
        assert(prefix[0] == segs[0]);
        match find_collection_in(children_of(c), segs[0]) {
            Some(child) => {
                assert(prefix.skip(1) =~= segs.skip(1).subrange(0, k - 1));
                assert(walk_collections(c, prefix) == walk_collections(child, prefix.skip(1)));
                assert(segs.skip(1)[k - 1] == segs[k]);
                lemma_resolve_missing_collection(child, segs.skip(1), k - 1);
            },
            None => {
                assert(walk_collections(c, prefix) is None);
            },
        }
    }
}

/// One step of the interactive descent.
#[derive(Debug)]
pub enum DescentStep<'a> {
    /// The choice named a child collection: descend into it and ask again.
    Descend(&'a CollectionConfig),
    /// The choice named a target of the current collection.
    Resolve(&'a CollectionConfig, &'a TargetConfig),
}

/// Decide what an interactive choice means for the current collection: a
/// choice with a trailing slash names a child collection to descend into;
/// any other choice is resolved as a path against the collection.
pub fn interactive_step<'a>(collection: &'a CollectionConfig, answer: &str) -> (r: Result<
    DescentStep<'a>,
    Error,
>)
    ensures
        ({
            let a = answer@;
            if a.len() > 0 && a[a.len() - 1] == '/' {
                let id = a.subrange(0, a.len() - 1);
                match r {
                    Ok(DescentStep::Descend(c)) => find_collection_in(children_of(*collection), id)
                        == Some(*c),
                    Err(Error::CollectionNotFound { id: missing }) => missing@ == id
                        && find_collection_in(children_of(*collection), id) is None,
                    _ => false,
                }
            } else {
                let res = resolve_path(*collection, split_seq(a, '/'));
                match r {
                    Ok(DescentStep::Resolve(c, t)) => res == Ok::<_, PathFailure>((*c, *t)),
                    Err(Error::CollectionNotFound { id }) => res == Err::<
                        (CollectionConfig, TargetConfig),
                        _,
                    >(PathFailure::MissingCollection(id@)),
                    Err(Error::TargetNotFound { id }) => res == Err::<
                        (CollectionConfig, TargetConfig),
                        _,
                    >(PathFailure::MissingTarget(id@)),
                    _ => false,
                }
            }
        }),
{
    if ends_with_char(answer, '/') {
        let len = answer.unicode_len();
        let id = answer.substring_char(0, len - 1);
        match find_child_ref(collection, id) {
            Some(child) => Ok(DescentStep::Descend(child)),
            None => Err(Error::CollectionNotFound { id: id.to_owned() }),
        }
    } else {
        match get_collection_and_target(collection, answer) {
            Ok((c, t)) => Ok(DescentStep::Resolve(c, t)),
            Err(e) => Err(e),
        }
    }
}

} // verus!

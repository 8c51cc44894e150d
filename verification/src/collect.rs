//! The operation collector: folds endpoint descriptors into one document.
//!
//! Each descriptor claims its path-and-method slot; two descriptors bound
//! to the same slot within one group are a caller error. Tags accumulate
//! as a set. The schema registry of the build session is taken over as the
//! document's own.

use vstd::prelude::*;
use crate::document::{
    Document,
    Method,
    OperationInfo,
    OperationView,
    RouteView,
    lemma_paths_map_absent,
    lemma_paths_map_contains,
    paths_map,
    route_key,
    routes_view,
};
use crate::error::{BuildError, ErrorView};
use crate::schema::{lemma_name_set_push, name_set};
use crate::registry::Registry;

verus! {

/// Folding the descriptors `routes[i..]` into the path-and-method map
/// `acc`, failing on the first slot that is already taken.
pub open spec fn spec_add_routes(
    routes: Seq<RouteView>,
    i: int,
    acc: Map<(Seq<char>, Method), OperationView>,
) -> Result<Map<(Seq<char>, Method), OperationView>, ErrorView>
    decreases routes.len() - i,
{
    if i < 0 || i >= routes.len() {
        Ok(acc)
    } else if acc.dom().contains(route_key(routes[i])) {
        Err(ErrorView::DuplicateOperation { path: routes[i].path, method: routes[i].method })
    } else {
        spec_add_routes(routes, i + 1, acc.insert(route_key(routes[i]), routes[i].operation))
    }
}

/// Folding the tags `tags[i..]` into the set `acc`.
pub open spec fn spec_add_tags(tags: Seq<Seq<char>>, i: int, acc: Set<Seq<char>>) -> Set<Seq<char>>
    decreases tags.len() - i,
{
    if i < 0 || i >= tags.len() {
        acc
    } else {
        spec_add_tags(tags, i + 1, acc.insert(tags[i]))
    }
}

/// Folding every tag of the descriptors `routes[i..]` into the set `acc`.
pub open spec fn spec_collect_tags(
    routes: Seq<RouteView>,
    i: int,
    acc: Set<Seq<char>>,
) -> Set<Seq<char>>
    decreases routes.len() - i,
{
    if i < 0 || i >= routes.len() {
        acc
    } else {
        spec_collect_tags(routes, i + 1, spec_add_tags(routes[i].operation.tags, 0, acc))
    }
}

/// Appends a tag unless an equal one is already listed.
#[verifier::loop_isolation(false)]
pub fn add_tag(tags: &mut Vec<String>, tag: &String)
    requires
        forall|i: int, j: int|
            0 <= i < j < old(tags)@.len() ==> #[trigger] old(tags)@[i]@ != #[trigger] old(tags)@[j]@,
    ensures
        forall|i: int, j: int|
            0 <= i < j < final(tags)@.len()
                ==> #[trigger] final(tags)@[i]@ != #[trigger] final(tags)@[j]@,
        name_set(final(tags)@) == name_set(old(tags)@).insert(tag@),
{
    let n = tags.len();
    let mut i: usize = 0;
    while i < n
        invariant
            0 <= i <= n,
            n == tags@.len(),
            tags@ == old(tags)@,
            forall|j: int| 0 <= j < i ==> #[trigger] tags@[j]@ != tag@,
        decreases n - i,
    {
        if tags[i] == *tag {
            proof {
                assert(tags@[i as int]@ == tag@);
                assert(name_set(tags@).contains(tag@));
                assert(name_set(tags@).insert(tag@) =~= name_set(tags@));
            }
            return ;
        }
        i += 1;
    }
    proof {
        lemma_name_set_push(tags@, *tag);
    }
    tags.push(tag.clone());
    proof {
        assert(tags@.drop_last() =~= old(tags)@);
        assert(tags@ =~= old(tags)@.push(tags@.last()));
        assert(name_set(tags@) == name_set(old(tags)@).insert(tag@));
        if name_set(old(tags)@).contains(tag@) {
            let j = choose|j: int| 0 <= j < old(tags)@.len() && #[trigger] old(tags)@[j]@ == tag@;
            assert(false);
        }
    }
}

/// Folds a list of endpoint descriptors and the session's filled registry
/// into one document, as [`spec_add_routes`] says: the descriptors claim
/// their slots in order and the first repeated path-and-method slot fails
/// the build with that slot named. On success the document holds exactly
/// the given descriptors in order, the given registry, and the set of all
/// their tags.
#[verifier::loop_isolation(false)]
pub fn collect_operations(ops: Vec<OperationInfo>, schemas: Registry) -> (r: Result<
    Document,
    BuildError,
>)
    requires
        schemas.wf(),
    ensures
        match r {
            Ok(doc) => {
                &&& doc.wf()
                &&& doc.route_seq() == routes_view(ops@)
                &&& spec_add_routes(routes_view(ops@), 0, Map::empty()) == Ok::<_, ErrorView>(
                    doc@.paths,
                )
                &&& doc.schemas == schemas
                &&& doc@.schemas == schemas@
                &&& doc@.tags == spec_collect_tags(routes_view(ops@), 0, Set::empty())
            },
            Err(e) => spec_add_routes(routes_view(ops@), 0, Map::empty()) == Err::<
                Map<(Seq<char>, Method), OperationView>,
                _,
            >(e@),
        },
{
    let ghost ops_v = routes_view(ops@);
    let mut tags: Vec<String> = Vec::new();
    let n = ops.len();
    let mut i: usize = 0;
    proof {
        assert(name_set(tags@) =~= Set::<Seq<char>>::empty());
    }
    while i < n
        invariant
            0 <= i <= n,
            n == ops@.len(),
            forall|p: int, q: int|
                0 <= p < q < i ==> route_key(ops_v[p]) != route_key(ops_v[q]),
            spec_add_routes(ops_v, 0, Map::empty()) == spec_add_routes(
                ops_v,
                i as int,
                paths_map(ops_v.subrange(0, i as int)),
            ),
            forall|p: int, q: int|
                0 <= p < q < tags@.len() ==> #[trigger] tags@[p]@ != #[trigger] tags@[q]@,
            spec_collect_tags(ops_v, 0, Set::empty()) == spec_collect_tags(
                ops_v,
                i as int,
                name_set(tags@),
            ),
        decreases n - i,
    {
        let ghost prefix = ops_v.subrange(0, i as int);
        // The slot this descriptor claims must still be free.
        let mut j: usize = 0;
        while j < i
            invariant
                0 <= j <= i <= n,
                n == ops@.len(),
                forall|p: int| 0 <= p < j ==> #[trigger] route_key(ops_v[p]) != route_key(
                    ops_v[i as int],
                ),
            decreases i - j,
        {
            if ops[j].path == ops[i].path && ops[j].method == ops[i].method {
                proof {
                    assert(route_key(ops_v[j as int]) == route_key(ops_v[i as int]));
                    assert(prefix[j as int] == ops_v[j as int]);
                    lemma_paths_map_contains(prefix, j as int);
                }
                return Err(
                    BuildError::DuplicateOperation {
                        path: ops[i].path.clone(),
                        method: ops[i].method,
                    },
                );
            }
            j += 1;
        }
        proof {
            assert forall|p: int| 0 <= p < prefix.len() implies #[trigger] route_key(prefix[p])
                != route_key(ops_v[i as int]) by {
                assert(prefix[p] == ops_v[p]);
            }
            lemma_paths_map_absent(prefix, route_key(ops_v[i as int]));
            assert(ops_v.subrange(0, i + 1).drop_last() =~= prefix);
            assert(ops_v.subrange(0, i + 1).last() == ops_v[i as int]);
        }
        // Collect this descriptor's tags.
        let ghost entry_set = name_set(tags@);
        let op_tags = &ops[i].operation.tags;
        let ghost op_tags_v = ops_v[i as int].operation.tags;
        let m = op_tags.len();
        let mut t: usize = 0;
        proof {
            assert(crate::schema::strings_view(op_tags@) == op_tags_v);
        }
        while t < m
            invariant
                0 <= t <= m,
                m == op_tags@.len(),
                op_tags_v == crate::schema::strings_view(op_tags@),
                forall|p: int, q: int|
                    0 <= p < q < tags@.len() ==> #[trigger] tags@[p]@ != #[trigger] tags@[q]@,
                spec_add_tags(op_tags_v, 0, entry_set) == spec_add_tags(
                    op_tags_v,
                    t as int,
                    name_set(tags@),
                ),
            decreases m - t,
        {
            proof {
                assert(op_tags_v[t as int] == op_tags@[t as int]@);
            }
            add_tag(&mut tags, &op_tags[t]);
            t += 1;
        }
        i += 1;
    }
    proof {
        assert(ops_v.subrange(0, n as int) =~= ops_v);
    }
    let doc = Document { paths: ops, schemas, tags };
    proof {
        assert(doc.route_seq() == ops_v);
        assert(doc@.paths == paths_map(ops_v));
    }
    Ok(doc)
}

} // verus!

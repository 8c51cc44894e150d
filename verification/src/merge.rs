//! The document merger: one document from many mounted groups.
//!
//! Every path of every mounted document is re-keyed under the base path
//! and the group's prefix; a collision after re-keying is reported with
//! the final path. Schema registries are united with conflict detection,
//! in mount order; tag sets are united.

use vstd::prelude::*;
use crate::collect::{spec_add_routes, spec_add_tags};
use crate::document::{
    Document,
    DocumentView,
    Method,
    OperationInfo,
    OperationView,
    RouteView,
    lemma_paths_map_absent,
    lemma_paths_map_contains,
    paths_map,
    route_key,
    route_view,
    routes_view,
};
use crate::error::{BuildError, ErrorView};
use crate::registry::{EntryView, Registry, spec_register_all};
use crate::schema::{name_set, strings_view};

verus! {

/// Joining two path fragments: one separator stands between them, none is
/// doubled, and neither fragment loses anything else.
pub open spec fn spec_join(a: Seq<char>, b: Seq<char>) -> Seq<char> {
    if a.len() == 0 {
        b
    } else if b.len() == 0 {
        a
    } else if a.last() == '/' && b.first() == '/' {
        a + b.drop_first()
    } else if a.last() != '/' && b.first() != '/' {
        a + seq!['/'] + b
    } else {
        a + b
    }
}

/// A valid base path is exactly the separator alone, or does not end with
/// the separator.
pub open spec fn spec_valid_base(b: Seq<char>) -> bool {
    b == seq!['/'] || b.len() == 0 || b.last() != '/'
}

/// Joins two path fragments as [`spec_join`] says.
pub fn join_paths(a: &str, b: &str) -> (r: String)
    ensures
        r@ == spec_join(a@, b@),
{
    let a_len = a.unicode_len();
    let b_len = b.unicode_len();
    if a_len == 0 {
        return b.to_owned();
    }
    if b_len == 0 {
        return a.to_owned();
    }
    let a_end = a.get_char(a_len - 1);
    let b_start = b.get_char(0);
    if a_end == '/' && b_start == '/' {
        let mut r = a.to_owned();
        let tail = b.substring_char(1, b_len);
        r.append(tail);
        proof {
            assert(b@.subrange(1, b_len as int) =~= b@.drop_first());
        }
        r
    } else if a_end != '/' && b_start != '/' {
        let mut r = a.to_owned();
        r.append("/");
        r.append(b);
        proof {
            reveal_strlit("/");
            assert("/"@ =~= seq!['/']);
        }
        r
    } else {
        let mut r = a.to_owned();
        r.append(b);
        r
    }
}

/// Decides base-path validity as [`spec_valid_base`] says.
pub fn is_valid_base(base: &str) -> (r: bool)
    ensures
        r == spec_valid_base(base@),
{
    let n = base.unicode_len();
    if n == 0 {
        return true;
    }
    let last = base.get_char(n - 1);
    if last != '/' {
        proof {
            assert(base@.last() != '/');
        }
        true
    } else if n == 1 {
        proof {
            assert(base@ =~= seq!['/']);
        }
        true
    } else {
        proof {
            assert(base@.len() != 1 && seq!['/'].len() == 1);
            assert(base@ != seq!['/']);
        }
        false
    }
}

/// One mounted group: its prefix and its already-built document.
#[derive(Debug)]
pub struct MountEntry {
    /// The prefix the group is mounted under.
    pub prefix: String,
    /// The group's document.
    pub document: Document,
}

/// The mathematical value of a [`MountEntry`]: the prefix, and the
/// document's descriptors, registry entries and tags in their order.
pub struct MountView {
    pub prefix: Seq<char>,
    pub routes: Seq<RouteView>,
    pub schemas: Seq<EntryView>,
    pub tags: Seq<Seq<char>>,
}

/// The mathematical value of one mount.
pub open spec fn mount_view(m: MountEntry) -> MountView {
    MountView {
        prefix: m.prefix@,
        routes: m.document.route_seq(),
        schemas: m.document.schemas.entry_seq(),
        tags: strings_view(m.document.tags@),
    }
}

/// The mathematical values of a sequence of mounts, in order.
pub open spec fn mounts_view(s: Seq<MountEntry>) -> Seq<MountView> {
    s.map_values(|m: MountEntry| mount_view(m))
}

impl View for MountEntry {
    type V = MountView;

    open spec fn view(&self) -> MountView {
        mount_view(*self)
    }
}

/// One descriptor re-keyed under a joined prefix.
pub open spec fn prefix_route(pre: Seq<char>, r: RouteView) -> RouteView {
    RouteView { path: spec_join(pre, r.path), method: r.method, operation: r.operation }
}

/// A group's descriptors re-keyed under a joined prefix, in order.
pub open spec fn prefixed_routes(pre: Seq<char>, rs: Seq<RouteView>) -> Seq<RouteView> {
    rs.map_values(|r: RouteView| prefix_route(pre, r))
}

/// The document everything merges into before the first mount.
pub open spec fn empty_doc_view() -> DocumentView {
    DocumentView { paths: Map::empty(), schemas: Map::empty(), tags: Set::empty() }
}

/// Merging the mounts `mounts[i..]` into the accumulated document: each
/// mount's descriptors are re-keyed under `base` joined with its prefix
/// and claim their slots in order, its registry entries are registered in
/// order, and its tags are united in.
pub open spec fn spec_merge_mounts(
    base: Seq<char>,
    mounts: Seq<MountView>,
    i: int,
    acc: DocumentView,
) -> Result<DocumentView, ErrorView>
    decreases mounts.len() - i,
{
    if i < 0 || i >= mounts.len() {
        Ok(acc)
    } else {
        let m = mounts[i];
        let pre = spec_join(base, m.prefix);
        match spec_add_routes(prefixed_routes(pre, m.routes), 0, acc.paths) {
            Err(e) => Err(e),
            Ok(p2) => match spec_register_all(acc.schemas, m.schemas, 0) {
                Err(e) => Err(e),
                Ok(s2) => spec_merge_mounts(
                    base,
                    mounts,
                    i + 1,
                    DocumentView { paths: p2, schemas: s2, tags: spec_add_tags(m.tags, 0, acc.tags) },
                ),
            },
        }
    }
}

/// What merging an ordered list of mounts under a base path yields: a
/// rejected base path, the first collision or conflict, or the one merged
/// document.
pub open spec fn spec_merge(base: Seq<char>, mounts: Seq<MountView>) -> Result<
    DocumentView,
    ErrorView,
> {
    if !spec_valid_base(base) {
        Err(ErrorView::InvalidBasePath { value: base })
    } else {
        spec_merge_mounts(base, mounts, 0, empty_doc_view())
    }
}

/// Merges the documents of an ordered list of mounted groups into one
/// document, as [`spec_merge`] says. The base path must be `"/"` or must
/// not end with the separator; every re-keyed path-and-method slot may be
/// claimed only once, and a collision is reported with the final re-keyed
/// path; schema registries are united in mount order with conflict
/// detection; tag sets are united.
#[verifier::loop_isolation(false)]
pub fn merge_documents(base_path: &str, mounts: Vec<MountEntry>) -> (r: Result<
    Document,
    BuildError,
>)
    ensures
        match r {
            Ok(doc) => {
                &&& doc.wf()
                &&& spec_merge(base_path@, mounts_view(mounts@)) == Ok::<_, ErrorView>(doc@)
                &&& doc.route_seq() == merged_routes(base_path@, mounts_view(mounts@), 0)
            },
            Err(e) => spec_merge(base_path@, mounts_view(mounts@)) == Err::<DocumentView, _>(e@),
        },
{
    let ghost base_v = base_path@;
    let ghost mounts0 = mounts@;
    let ghost mounts_v = mounts_view(mounts@);
    if !is_valid_base(base_path) {
        return Err(BuildError::InvalidBasePath { value: base_path.to_owned() });
    }
    let mut remaining = mounts;
    let mut out_paths: Vec<OperationInfo> = Vec::new();
    let mut out_schemas = Registry::new();
    let mut out_tags: Vec<String> = Vec::new();
    let n = remaining.len();
    let mut k: usize = 0;
    proof {
        assert(name_set(out_tags@) =~= Set::<Seq<char>>::empty());
        assert(routes_view(out_paths@) =~= Seq::<RouteView>::empty());
        assert(paths_map(routes_view(out_paths@)) =~= Map::<(Seq<char>, Method), OperationView>::empty());
        assert(routes_view(out_paths@) + merged_routes(base_v, mounts_v, 0) =~= merged_routes(
            base_v,
            mounts_v,
            0,
        ));
    }
    while k < n
        invariant
            0 <= k <= n,
            n == mounts0.len(),
            mounts_v.len() == n,
            remaining@ == mounts0.subrange(k as int, n as int),
            forall|p: int, q: int|
                0 <= p < q < routes_view(out_paths@).len() ==> #[trigger] route_key(
                    routes_view(out_paths@)[p],
                ) != #[trigger] route_key(routes_view(out_paths@)[q]),
            forall|p: int, q: int|
                0 <= p < q < out_tags@.len() ==> #[trigger] out_tags@[p]@ != #[trigger] out_tags@[q]@,
            out_schemas.wf(),
            routes_view(out_paths@) + merged_routes(base_v, mounts_v, k as int) == merged_routes(
                base_v,
                mounts_v,
                0,
            ),
            spec_merge_mounts(base_v, mounts_v, 0, empty_doc_view()) == spec_merge_mounts(
                base_v,
                mounts_v,
                k as int,
                DocumentView {
                    paths: paths_map(routes_view(out_paths@)),
                    schemas: out_schemas@,
                    tags: name_set(out_tags@),
                },
            ),
        decreases n - k,
    {
        let ghost acc_k = DocumentView {
            paths: paths_map(routes_view(out_paths@)),
            schemas: out_schemas@,
            tags: name_set(out_tags@),
        };
        let m = remaining.remove(0);
        proof {
            assert(m == mounts0[k as int]);
            assert(remaining@ =~= mounts0.subrange(k + 1, n as int));
            assert(mounts_v[k as int] == mount_view(mounts0[k as int]));
        }
        let ghost m_v = mounts_v[k as int];
        let MountEntry { prefix, document } = m;
        let Document { paths: mut doc_paths, schemas: doc_schemas, tags: doc_tags } = document;
        let pre = join_paths(base_path, prefix.as_str());
        let ghost doc_paths0 = doc_paths@;
        let ghost prefixed = prefixed_routes(pre@, m_v.routes);
        proof {
            assert(m_v.routes == routes_view(doc_paths0));
            assert(prefixed.len() == doc_paths0.len());
        }
        let ghost out_entry_routes = routes_view(out_paths@);
        proof {
            assert(prefixed.subrange(0, 0) =~= Seq::<RouteView>::empty());
            assert(out_entry_routes + prefixed.subrange(0, 0) =~= out_entry_routes);
        }
        let pn = doc_paths.len();
        let mut j: usize = 0;
        while j < pn
            invariant
                0 <= j <= pn,
                pn == doc_paths0.len(),
                doc_paths@ == doc_paths0.subrange(j as int, pn as int),
                forall|p: int, q: int|
                    0 <= p < q < routes_view(out_paths@).len() ==> #[trigger] route_key(
                        routes_view(out_paths@)[p],
                    ) != #[trigger] route_key(routes_view(out_paths@)[q]),
                routes_view(out_paths@) == out_entry_routes + prefixed.subrange(0, j as int),
                spec_add_routes(prefixed, 0, acc_k.paths) == spec_add_routes(
                    prefixed,
                    j as int,
                    paths_map(routes_view(out_paths@)),
                ),
            decreases pn - j,
        {
            let op = doc_paths.remove(0);
            proof {
                assert(op == doc_paths0[j as int]);
                assert(doc_paths@ =~= doc_paths0.subrange(j + 1, pn as int));
                assert(m_v.routes[j as int] == route_view(doc_paths0[j as int]));
                assert(prefixed[j as int] == prefix_route(pre@, m_v.routes[j as int]));
            }
            let full = join_paths(pre.as_str(), op.path.as_str());
            proof {
                assert(prefixed[j as int].path == full@);
                assert(route_key(prefixed[j as int]) == (full@, op.method));
            }
            // The re-keyed slot must still be free across all groups.
            let on = out_paths.len();
            let mut j2: usize = 0;
            while j2 < on
                invariant
                    0 <= j2 <= on,
                    on == out_paths@.len(),
                    forall|p: int| 0 <= p < j2 ==> #[trigger] route_key(routes_view(out_paths@)[p])
                        != (full@, op.method),
                decreases on - j2,
            {
                if out_paths[j2].path == full && out_paths[j2].method == op.method {
                    proof {
                        assert(route_key(routes_view(out_paths@)[j2 as int]) == (full@, op.method));
                        lemma_paths_map_contains(routes_view(out_paths@), j2 as int);
                        assert(paths_map(routes_view(out_paths@)).dom().contains(
                            route_key(prefixed[j as int]),
                        ));
                    }
                    return Err(BuildError::DuplicateOperation { path: full, method: op.method });
                }
                j2 += 1;
            }
            proof {
                lemma_paths_map_absent(routes_view(out_paths@), (full@, op.method));
            }
            let ghost out_before = routes_view(out_paths@);
            let new_entry = OperationInfo { path: full, method: op.method, operation: op.operation };
            proof {
                assert(route_view(new_entry) == prefixed[j as int]);
            }
            out_paths.push(new_entry);
            proof {
                assert(out_paths@.drop_last() =~= out_paths@.subrange(0, out_paths@.len() - 1));
                assert(routes_view(out_paths@) =~= out_before.push(prefixed[j as int]));
                assert(routes_view(out_paths@).drop_last() =~= out_before);
                assert(paths_map(routes_view(out_paths@)) == paths_map(out_before).insert(
                    route_key(prefixed[j as int]),
                    prefixed[j as int].operation,
                ));
                assert(routes_view(out_paths@) =~= out_entry_routes + prefixed.subrange(0, j + 1));
            }
            j += 1;
        }
        proof {
            assert(spec_add_routes(prefixed, pn as int, paths_map(routes_view(out_paths@)))
                == Ok::<_, ErrorView>(paths_map(routes_view(out_paths@))));
            assert(prefixed.subrange(0, pn as int) =~= prefixed);
        }
        match out_schemas.merge_from(&doc_schemas) {
            Ok(_) => {},
            Err(e) => {
                proof {
                    assert(m_v.schemas == doc_schemas.entry_seq());
                    assert(spec_merge_mounts(base_v, mounts_v, k as int, acc_k) == Err::<
                        DocumentView,
                        _,
                    >(e@));
                }
                return Err(e);
            },
        }
        let ghost entry_tags = name_set(out_tags@);
        let mt = doc_tags.len();
        let mut t: usize = 0;
        proof {
            assert(m_v.tags == strings_view(doc_tags@));
        }
        while t < mt
            invariant
                0 <= t <= mt,
                mt == doc_tags@.len(),
                forall|p: int, q: int|
                    0 <= p < q < out_tags@.len() ==> #[trigger] out_tags@[p]@ != #[trigger] out_tags@[q]@,
                spec_add_tags(m_v.tags, 0, entry_tags) == spec_add_tags(
                    m_v.tags,
                    t as int,
                    name_set(out_tags@),
                ),
            decreases mt - t,
        {
            proof {
                assert(m_v.tags[t as int] == doc_tags@[t as int]@);
            }
            crate::collect::add_tag(&mut out_tags, &doc_tags[t]);
            t += 1;
        }
        proof {
            assert(spec_add_tags(m_v.tags, 0, entry_tags) == name_set(out_tags@));
            assert(spec_merge_mounts(base_v, mounts_v, k as int, acc_k) == spec_merge_mounts(
                base_v,
                mounts_v,
                k + 1,
                DocumentView {
                    paths: paths_map(routes_view(out_paths@)),
                    schemas: out_schemas@,
                    tags: name_set(out_tags@),
                },
            ));
            assert(merged_routes(base_v, mounts_v, k as int) == prefixed + merged_routes(
                base_v,
                mounts_v,
                k + 1,
            ));
            assert((out_entry_routes + prefixed) + merged_routes(base_v, mounts_v, k + 1)
                =~= out_entry_routes + (prefixed + merged_routes(base_v, mounts_v, k + 1)));
        }
        k += 1;
    }
    proof {
        assert(routes_view(out_paths@) + merged_routes(base_v, mounts_v, n as int) =~= routes_view(
            out_paths@,
        ));
    }
    let doc = Document { paths: out_paths, schemas: out_schemas, tags: out_tags };
    Ok(doc)
}

/// All mounts' descriptors from `mounts[i..]`, re-keyed under the base
/// path and their prefixes, concatenated in mount order: the one list a
/// single collection pass over the union of the groups would fold.
pub open spec fn merged_routes(base: Seq<char>, mounts: Seq<MountView>, i: int) -> Seq<RouteView>
    decreases mounts.len() - i,
{
    if i < 0 || i >= mounts.len() {
        Seq::empty()
    } else {
        prefixed_routes(spec_join(base, mounts[i].prefix), mounts[i].routes) + merged_routes(
            base,
            mounts,
            i + 1,
        )
    }
}

/// All mounts' registry entries from `mounts[i..]`, concatenated in mount
/// order: the one list a single registration session would fold.
pub open spec fn merged_entries(mounts: Seq<MountView>, i: int) -> Seq<EntryView>
    decreases mounts.len() - i,
{
    if i < 0 || i >= mounts.len() {
        Seq::empty()
    } else {
        mounts[i].schemas + merged_entries(mounts, i + 1)
    }
}

/// All mounts' tags from `mounts[i..]`, concatenated in mount order.
pub open spec fn merged_tags(mounts: Seq<MountView>, i: int) -> Seq<Seq<char>>
    decreases mounts.len() - i,
{
    if i < 0 || i >= mounts.len() {
        Seq::empty()
    } else {
        mounts[i].tags + merged_tags(mounts, i + 1)
    }
}

/// Folding a concatenation's tail starts where the head left the index.
proof fn lemma_add_routes_shift(
    s1: Seq<RouteView>,
    s2: Seq<RouteView>,
    j: int,
    acc: Map<(Seq<char>, Method), OperationView>,
)
    requires
        0 <= j <= s2.len(),
    ensures
        spec_add_routes(s1 + s2, s1.len() + j, acc) == spec_add_routes(s2, j, acc),
    decreases s2.len() - j,
{
    if j < s2.len() {
        assert((s1 + s2)[s1.len() + j] == s2[j]);
        if !acc.dom().contains(route_key(s2[j])) {
            lemma_add_routes_shift(s1, s2, j + 1, acc.insert(route_key(s2[j]), s2[j].operation));
        }
    }
}

/// Folding a concatenation is folding the head, then the tail from where
/// the head ended — or the head's first collision.
proof fn lemma_add_routes_concat(
    s1: Seq<RouteView>,
    s2: Seq<RouteView>,
    i: int,
    acc: Map<(Seq<char>, Method), OperationView>,
)
    requires
        0 <= i <= s1.len(),
    ensures
        spec_add_routes(s1 + s2, i, acc) == (match spec_add_routes(s1, i, acc) {
            Ok(m) => spec_add_routes(s2, 0, m),
            Err(e) => Err(e),
        }),
    decreases s1.len() - i,
{
    if i == s1.len() {
        lemma_add_routes_shift(s1, s2, 0, acc);
    } else {
        assert((s1 + s2)[i] == s1[i]);
        if !acc.dom().contains(route_key(s1[i])) {
            lemma_add_routes_concat(s1, s2, i + 1, acc.insert(route_key(s1[i]), s1[i].operation));
        }
    }
}

/// Registering a concatenation's tail starts where the head left the index.
proof fn lemma_register_all_shift(
    m: Map<Seq<char>, crate::schema::SchemaView>,
    s1: Seq<EntryView>,
    s2: Seq<EntryView>,
    j: int,
)
    requires
        0 <= j <= s2.len(),
    ensures
        spec_register_all(m, s1 + s2, s1.len() + j) == spec_register_all(m, s2, j),
    decreases s2.len() - j,
{
    if j < s2.len() {
        assert((s1 + s2)[s1.len() + j] == s2[j]);
        match crate::registry::spec_register(m, s2[j].name, s2[j].definition) {
            Ok(m2) => lemma_register_all_shift(m2, s1, s2, j + 1),
            Err(_) => {},
        }
    }
}

/// Registering a concatenation is registering the head, then the tail —
/// or the head's first conflict.
proof fn lemma_register_all_concat(
    m: Map<Seq<char>, crate::schema::SchemaView>,
    s1: Seq<EntryView>,
    s2: Seq<EntryView>,
    i: int,
)
    requires
        0 <= i <= s1.len(),
    ensures
        spec_register_all(m, s1 + s2, i) == (match spec_register_all(m, s1, i) {
            Ok(m2) => spec_register_all(m2, s2, 0),
            Err(e) => Err(e),
        }),
    decreases s1.len() - i,
{
    if i == s1.len() {
        lemma_register_all_shift(m, s1, s2, 0);
    } else {
        assert((s1 + s2)[i] == s1[i]);
        match crate::registry::spec_register(m, s1[i].name, s1[i].definition) {
            Ok(m2) => lemma_register_all_concat(m2, s1, s2, i + 1),
            Err(_) => {},
        }
    }
}

/// Uniting a concatenation's tail starts where the head left the index.
proof fn lemma_add_tags_shift(s1: Seq<Seq<char>>, s2: Seq<Seq<char>>, j: int, acc: Set<Seq<char>>)
    requires
        0 <= j <= s2.len(),
    ensures
        spec_add_tags(s1 + s2, s1.len() + j, acc) == spec_add_tags(s2, j, acc),
    decreases s2.len() - j,
{
    if j < s2.len() {
        assert((s1 + s2)[s1.len() + j] == s2[j]);
        lemma_add_tags_shift(s1, s2, j + 1, acc.insert(s2[j]));
    }
}

/// Uniting a concatenation is uniting the head, then the tail.
proof fn lemma_add_tags_concat(s1: Seq<Seq<char>>, s2: Seq<Seq<char>>, i: int, acc: Set<Seq<char>>)
    requires
        0 <= i <= s1.len(),
    ensures
        spec_add_tags(s1 + s2, i, acc) == spec_add_tags(s2, 0, spec_add_tags(s1, i, acc)),
    decreases s1.len() - i,
{
    if i == s1.len() {
        lemma_add_tags_shift(s1, s2, 0, acc);
    } else {
        assert((s1 + s2)[i] == s1[i]);
        lemma_add_tags_concat(s1, s2, i + 1, acc.insert(s1[i]));
    }
}

/// A successful merge of `mounts[i..]` onto an accumulated document folds
/// exactly like one pass over the concatenated re-keyed descriptors,
/// one registration session over the concatenated entries, and one union
/// of the concatenated tags.
proof fn lemma_merge_mounts_as_single(
    base: Seq<char>,
    mounts: Seq<MountView>,
    i: int,
    acc: DocumentView,
)
    requires
        0 <= i <= mounts.len(),
    ensures
        ({
            match spec_merge_mounts(base, mounts, i, acc) {
                Ok(d) => {
                    &&& spec_add_routes(merged_routes(base, mounts, i), 0, acc.paths) == Ok::<
                        _,
                        ErrorView,
                    >(d.paths)
                    &&& spec_register_all(acc.schemas, merged_entries(mounts, i), 0) == Ok::<
                        _,
                        ErrorView,
                    >(d.schemas)
                    &&& spec_add_tags(merged_tags(mounts, i), 0, acc.tags) == d.tags
                },
                Err(_) => true,
            }
        }),
    decreases mounts.len() - i,
{
    if i == mounts.len() {
        assert(spec_add_routes(Seq::empty(), 0, acc.paths) == Ok::<_, ErrorView>(acc.paths));
        assert(spec_register_all(acc.schemas, Seq::empty(), 0) == Ok::<_, ErrorView>(acc.schemas));
    } else {
        let m = mounts[i];
        let pre = spec_join(base, m.prefix);
        let head = prefixed_routes(pre, m.routes);
        match spec_add_routes(head, 0, acc.paths) {
            Err(_) => {},
            Ok(p2) => {
                match spec_register_all(acc.schemas, m.schemas, 0) {
                    Err(_) => {},
                    Ok(s2) => {
                        let acc2 = DocumentView {
                            paths: p2,
                            schemas: s2,
                            tags: spec_add_tags(m.tags, 0, acc.tags),
                        };
                        lemma_merge_mounts_as_single(base, mounts, i + 1, acc2);
                        lemma_add_routes_concat(head, merged_routes(base, mounts, i + 1), 0, acc.paths);
                        lemma_register_all_concat(acc.schemas, m.schemas, merged_entries(mounts, i + 1), 0);
                        lemma_add_tags_concat(m.tags, merged_tags(mounts, i + 1), 0, acc.tags);
                    },
                }
            },
        }
    }
}

/// Merge equivalence: for any partition of the endpoints into mounted
/// groups, merging the groups' documents produces the same paths as one
/// collection pass over the union of all groups' re-keyed descriptors,
/// the same schemas as one registration session over all groups' entries
/// in mount order, and the same tag set as one union of all their tags —
/// whenever the merge succeeds, that is, when no collision or naming
/// conflict stands between the groups.
pub proof fn lemma_merge_equivalence(base: Seq<char>, mounts: Seq<MountView>)
    requires
        spec_valid_base(base),
        spec_merge(base, mounts) is Ok,
    ensures
        ({
            let d = spec_merge(base, mounts)->Ok_0;
            &&& spec_add_routes(merged_routes(base, mounts, 0), 0, Map::empty()) == Ok::<
                _,
                ErrorView,
            >(d.paths)
            &&& spec_register_all(Map::empty(), merged_entries(mounts, 0), 0) == Ok::<
                _,
                ErrorView,
            >(d.schemas)
            &&& spec_add_tags(merged_tags(mounts, 0), 0, Set::empty()) == d.tags
        }),
{
    lemma_merge_mounts_as_single(base, mounts, 0, empty_doc_view());
}

} // verus!

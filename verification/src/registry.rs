//! The schema registry: a map from schema name to definition.
//!
//! Names are registered exactly once. Registering a pair that is already
//! present is a no-op; registering a present name with a structurally
//! different definition is a conflict and fails. A definition is never
//! silently overwritten.

use vstd::prelude::*;
use crate::error::{BuildError, ErrorView};
use crate::schema::{
    FieldDef,
    SchemaDefinition,
    SchemaView,
    def_view,
    field_view,
    fields_view,
    lemma_fields_view,
    strings_view,
};

verus! {

/// One registered (name, definition) pair.
#[derive(Debug)]
pub struct SchemaEntry {
    /// The schema's registered name.
    pub name: String,
    /// The schema's structural definition.
    pub definition: SchemaDefinition,
}

/// The mathematical value of a [`SchemaEntry`].
pub struct EntryView {
    pub name: Seq<char>,
    pub definition: SchemaView,
}

/// The mathematical value of one entry.
pub open spec fn entry_view(e: SchemaEntry) -> EntryView {
    EntryView { name: e.name@, definition: def_view(e.definition) }
}

/// The mathematical values of a sequence of entries, in order.
pub open spec fn entries_view(s: Seq<SchemaEntry>) -> Seq<EntryView> {
    s.map_values(|e: SchemaEntry| entry_view(e))
}

/// The map a sequence of entries denotes; later entries would win, though a
/// well-formed registry never holds a name twice.
pub open spec fn entries_map(s: Seq<EntryView>) -> Map<Seq<char>, SchemaView>
    decreases s.len(),
{
    if s.len() == 0 {
        Map::empty()
    } else {
        entries_map(s.drop_last()).insert(s.last().name, s.last().definition)
    }
}

/// What registering one pair does: absent names are inserted, an identical
/// pair is accepted unchanged, and a different definition under a present
/// name is a conflict.
pub open spec fn spec_register(
    m: Map<Seq<char>, SchemaView>,
    name: Seq<char>,
    def: SchemaView,
) -> Result<Map<Seq<char>, SchemaView>, ErrorView> {
    if !m.dom().contains(name) {
        Ok(m.insert(name, def))
    } else if m[name] == def {
        Ok(m)
    } else {
        Err(ErrorView::SchemaConflict { name })
    }
}

/// Registering the entries `entries[i..]` in order, stopping at the first
/// conflict.
pub open spec fn spec_register_all(
    m: Map<Seq<char>, SchemaView>,
    entries: Seq<EntryView>,
    i: int,
) -> Result<Map<Seq<char>, SchemaView>, ErrorView>
    decreases entries.len() - i,
{
    if i < 0 || i >= entries.len() {
        Ok(m)
    } else {
        match spec_register(m, entries[i].name, entries[i].definition) {
            Ok(m2) => spec_register_all(m2, entries, i + 1),
            Err(e) => Err(e),
        }
    }
}

/// Every entry's name is in the map's domain.
pub proof fn lemma_entries_map_contains(s: Seq<EntryView>, i: int)
    requires
        0 <= i < s.len(),
    ensures
        entries_map(s).dom().contains(s[i].name),
    decreases s.len(),
{
    if i < s.len() - 1 {
        assert(s.drop_last()[i] == s[i]);
        lemma_entries_map_contains(s.drop_last(), i);
    }
}

/// A name no entry carries is not in the map's domain.
pub proof fn lemma_entries_map_absent(s: Seq<EntryView>, n: Seq<char>)
    requires
        forall|i: int| 0 <= i < s.len() ==> #[trigger] s[i].name != n,
    ensures
        !entries_map(s).dom().contains(n),
    decreases s.len(),
{
    if s.len() > 0 {
        assert forall|i: int| 0 <= i < s.drop_last().len() implies #[trigger] s.drop_last()[i].name
            != n by {
            assert(s.drop_last()[i] == s[i]);
        }
        lemma_entries_map_absent(s.drop_last(), n);
        assert(s[s.len() - 1].name != n);
    }
}

/// An entry whose name no later entry repeats decides the map at its name.
pub proof fn lemma_entries_map_at(s: Seq<EntryView>, i: int)
    requires
        0 <= i < s.len(),
        forall|j: int| i < j < s.len() ==> s[j].name != s[i].name,
    ensures
        entries_map(s).dom().contains(s[i].name),
        entries_map(s)[s[i].name] == s[i].definition,
    decreases s.len(),
{
    if i == s.len() - 1 {
    } else {
        assert(s.drop_last()[i] == s[i]);
        lemma_entries_map_at(s.drop_last(), i);
    }
}

/// The process-scoped store of named schema definitions.
#[derive(Debug)]
pub struct Registry {
    entries: Vec<SchemaEntry>,
}

impl View for Registry {
    type V = Map<Seq<char>, SchemaView>;

    open spec fn view(&self) -> Map<Seq<char>, SchemaView> {
        entries_map(self.entry_seq())
    }
}

impl Registry {
    /// The registered entries, in registration order.
    pub closed spec fn entry_seq(&self) -> Seq<EntryView> {
        entries_view(self.entries@)
    }

    /// Well-formed: no name is held twice.
    pub open spec fn wf(&self) -> bool {
        forall|i: int, j: int|
            0 <= i < j < self.entry_seq().len()
                ==> #[trigger] self.entry_seq()[i].name != #[trigger] self.entry_seq()[j].name
    }

    /// An empty registry.
    pub fn new() -> (r: Registry)
        ensures
            r.wf(),
            r@ == Map::<Seq<char>, SchemaView>::empty(),
            r.entry_seq() == Seq::<EntryView>::empty(),
    {
        let r = Registry { entries: Vec::new() };
        proof {
            assert(r.entry_seq() =~= Seq::<EntryView>::empty());
        }
        r
    }

    /// How many names are registered.
    pub fn schema_count(&self) -> (n: usize)
        ensures
            n == self.entry_seq().len(),
    {
        self.entries.len()
    }

    /// The entry at one position of the registration order.
    pub fn entry_at(&self, i: usize) -> (e: &SchemaEntry)
        requires
            i < self.entry_seq().len(),
        ensures
            entry_view(*e) == self.entry_seq()[i as int],
    {
        &self.entries[i]
    }

    /// Looks a name up.
    #[verifier::loop_isolation(false)]
    pub fn get(&self, name: &String) -> (r: Option<&SchemaDefinition>)
        requires
            self.wf(),
        ensures
            match r {
                Some(d) => self@.dom().contains(name@) && def_view(*d) == self@[name@],
                None => !self@.dom().contains(name@),
            },
    {
        let n = self.entries.len();
        let mut i: usize = 0;
        while i < n
            invariant
                0 <= i <= n,
                forall|j: int| 0 <= j < i ==> #[trigger] self.entry_seq()[j].name != name@,
            decreases n - i,
        {
            if self.entries[i].name == *name {
                proof {
                    lemma_entries_map_at(self.entry_seq(), i as int);
                }
                return Some(&self.entries[i].definition);
            }
            i += 1;
        }
        proof {
            lemma_entries_map_absent(self.entry_seq(), name@);
        }
        None
    }

    /// Whether a name is registered.
    pub fn contains_name(&self, name: &String) -> (r: bool)
        requires
            self.wf(),
        ensures
            r == self@.dom().contains(name@),
    {
        match self.get(name) {
            Some(_) => true,
            None => false,
        }
    }

    /// Registers one pair, as [`spec_register`] says: inserting an absent
    /// name, accepting an identical re-registration unchanged, and refusing
    /// a different definition under a present name.
    #[verifier::loop_isolation(false)]
    pub fn register(&mut self, name: String, definition: SchemaDefinition) -> (r: Result<
        (),
        BuildError,
    >)
        requires
            old(self).wf(),
        ensures
            final(self).wf(),
            match r {
                Ok(_) => {
                    &&& spec_register(old(self)@, name@, def_view(definition)) == Ok::<
                        _,
                        ErrorView,
                    >(final(self)@)
                    &&& final(self).entry_seq() == (if old(self)@.dom().contains(name@) {
                        old(self).entry_seq()
                    } else {
                        old(self).entry_seq().push(
                            EntryView { name: name@, definition: def_view(definition) },
                        )
                    })
                },
                Err(e) => {
                    &&& spec_register(old(self)@, name@, def_view(definition)) == Err::<
                        Map<Seq<char>, SchemaView>,
                        _,
                    >(e@)
                    &&& final(self)@ == old(self)@
                    &&& final(self).entry_seq() == old(self).entry_seq()
                },
            },
    {
        let n = self.entries.len();
        let mut i: usize = 0;
        while i < n
            invariant
                0 <= i <= n,
                forall|j: int| 0 <= j < i ==> #[trigger] self.entry_seq()[j].name != name@,
            decreases n - i,
        {
            if self.entries[i].name == name {
                proof {
                    lemma_entries_map_at(self.entry_seq(), i as int);
                    lemma_entries_map_contains(self.entry_seq(), i as int);
                }
                if self.entries[i].definition.structural_eq(&definition) {
                    return Ok(());
                } else {
                    return Err(BuildError::SchemaConflict { name });
                }
            }
            i += 1;
        }
        let ghost old_seq = self.entry_seq();
        proof {
            lemma_entries_map_absent(self.entry_seq(), name@);
        }
        self.entries.push(SchemaEntry { name, definition });
        proof {
            assert(self.entries@.drop_last() =~= old(self).entries@);
            assert(self.entry_seq().drop_last() =~= old_seq);
            assert(self.entry_seq() =~= old_seq.push(
                EntryView { name: name@, definition: def_view(definition) },
            ));
        }
        Ok(())
    }

    /// Registers every entry of `other` into `self`, in `other`'s
    /// registration order, stopping at the first conflict. What was
    /// registered before stays registered, unchanged, even when a later
    /// entry conflicts.
    #[verifier::loop_isolation(false)]
    pub fn merge_from(&mut self, other: &Registry) -> (r: Result<(), BuildError>)
        requires
            old(self).wf(),
        ensures
            final(self).wf(),
            old(self)@.submap_of(final(self)@),
            match r {
                Ok(_) => spec_register_all(old(self)@, other.entry_seq(), 0) == Ok::<
                    _,
                    ErrorView,
                >(final(self)@),
                Err(e) => spec_register_all(old(self)@, other.entry_seq(), 0) == Err::<
                    Map<Seq<char>, SchemaView>,
                    _,
                >(e@),
            },
    {
        let n = other.entries.len();
        let mut i: usize = 0;
        while i < n
            invariant
                0 <= i <= n,
                self.wf(),
                old(self)@.submap_of(self@),
                spec_register_all(old(self)@, other.entry_seq(), 0) == spec_register_all(
                    self@,
                    other.entry_seq(),
                    i as int,
                ),
            decreases n - i,
        {
            let entry = &other.entries[i];
            let name = entry.name.clone();
            let definition = clone_definition(&entry.definition);
            match self.register(name, definition) {
                Ok(_) => {},
                Err(e) => {
                    return Err(e);
                },
            }
            i += 1;
        }
        Ok(())
    }
}

/// A structurally identical copy of a definition tree.
#[verifier::loop_isolation(false)]
pub fn clone_definition(d: &SchemaDefinition) -> (r: SchemaDefinition)
    ensures
        def_view(r) == def_view(*d),
    decreases *d,
{
    match d {
        SchemaDefinition::Primitive(k) => SchemaDefinition::Primitive(*k),
        SchemaDefinition::Object(fields) => {
            let n = fields.len();
            let mut out: Vec<FieldDef> = Vec::new();
            let mut i: usize = 0;
            while i < n
                invariant
                    0 <= i <= n,
                    n == fields.len(),
                    out@.len() == i,
                    forall|j: int|
                        0 <= j < i ==> #[trigger] field_view(out@[j])
                            == field_view(fields@[j]),
                decreases n - i,
            {
                proof {
                    assert(decreases_to!(*d => *fields));
                    assert(decreases_to!(*fields => fields@));
                    assert(decreases_to!(fields@ => fields@[i as int]));
                    assert(decreases_to!(fields@[i as int] => fields@[i as int].schema));
                }
                let f = &fields[i];
                out.push(FieldDef {
                    name: f.name.clone(),
                    schema: clone_definition(&f.schema),
                    required: f.required,
                });
                i += 1;
            }
            proof {
                lemma_fields_view(out@);
                lemma_fields_view(fields@);
                assert(fields_view(out@) =~= fields_view(fields@));
            }
            SchemaDefinition::Object(out)
        },
        SchemaDefinition::Array(inner) => {
            proof {
                assert(decreases_to!(*d => **inner));
            }
            SchemaDefinition::Array(Box::new(clone_definition(&**inner)))
        },
        SchemaDefinition::Enumeration(variants) => {
            let n = variants.len();
            let mut out: Vec<String> = Vec::new();
            let mut i: usize = 0;
            while i < n
                invariant
                    0 <= i <= n,
                    n == variants.len(),
                    out@.len() == i,
                    forall|j: int| 0 <= j < i ==> #[trigger] out@[j]@ == variants@[j]@,
                decreases n - i,
            {
                out.push(variants[i].clone());
                i += 1;
            }
            proof {
                assert(strings_view(out@) =~= strings_view(
                    variants@,
                ));
            }
            SchemaDefinition::Enumeration(out)
        },
        SchemaDefinition::Reference(name) => SchemaDefinition::Reference(name.clone()),
    }
}

/// Idempotence of registration: a pair that went in once goes in again
/// without changing the registry, and succeeds again.
pub proof fn lemma_register_idempotent(
    m: Map<Seq<char>, SchemaView>,
    name: Seq<char>,
    def: SchemaView,
)
    ensures
        ({
            let first = spec_register(m, name, def);
            first is Ok ==> spec_register(first->Ok_0, name, def) == first
        }),
{
}

/// Conflict detection: once a name holds one definition, registering a
/// structurally different definition under it fails with a conflict naming
/// that schema.
pub proof fn lemma_register_conflict(
    m: Map<Seq<char>, SchemaView>,
    name: Seq<char>,
    def_a: SchemaView,
    def_b: SchemaView,
)
    requires
        def_a != def_b,
    ensures
        ({
            let first = spec_register(m, name, def_a);
            first is Ok ==> spec_register(first->Ok_0, name, def_b) == Err::<
                Map<Seq<char>, SchemaView>,
                _,
            >(ErrorView::SchemaConflict { name })
        }),
{
}

} // verus!

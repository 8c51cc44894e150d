//! Structural descriptions of data types.
//!
//! A [`SchemaDefinition`] is the finite, structural description of one type.
//! Cycles between types are only representable through a
//! [`SchemaDefinition::Reference`] indirection, never by inline expansion,
//! so every definition is a finite tree.

use vstd::prelude::*;

verus! {

/// The scalar kinds a schema can describe directly.
#[derive(Clone, Copy, PartialEq, Eq, Structural, Debug)]
pub enum PrimitiveKind {
    Null,
    Boolean,
    Integer,
    Number,
    Text,
}

/// The structural description of one type.
#[derive(Debug)]
pub enum SchemaDefinition {
    /// A scalar of the given kind.
    Primitive(PrimitiveKind),
    /// An object with an ordered list of named fields.
    Object(Vec<FieldDef>),
    /// An array whose elements all follow one schema.
    Array(Box<SchemaDefinition>),
    /// A closed set of string variants.
    Enumeration(Vec<String>),
    /// A reference to a schema registered under the given name.
    Reference(String),
}

/// One named, optionally required field of an object schema.
#[derive(Debug)]
pub struct FieldDef {
    /// The field's name.
    pub name: String,
    /// The field's own schema.
    pub schema: SchemaDefinition,
    /// Whether the field must be present.
    pub required: bool,
}

/// The mathematical value of a [`SchemaDefinition`].
pub enum SchemaView {
    Primitive(PrimitiveKind),
    Object(Seq<FieldView>),
    Array(Box<SchemaView>),
    Enumeration(Seq<Seq<char>>),
    Reference(Seq<char>),
}

/// The mathematical value of a [`FieldDef`].
pub struct FieldView {
    pub name: Seq<char>,
    pub schema: SchemaView,
    pub required: bool,
}

/// The views of a sequence of strings.
pub open spec fn strings_view(s: Seq<String>) -> Seq<Seq<char>> {
    s.map_values(|x: String| x@)
}

/// The set of names a sequence of strings holds.
pub open spec fn name_set(s: Seq<String>) -> Set<Seq<char>> {
    Set::new(|n: Seq<char>| exists|i: int| 0 <= i < s.len() && #[trigger] s[i]@ == n)
}

/// Pushing one string inserts its value into the name set.
pub proof fn lemma_name_set_push(s: Seq<String>, x: String)
    ensures
        name_set(s.push(x)) == name_set(s).insert(x@),
{
    assert forall|n: Seq<char>| name_set(s.push(x)).contains(n) implies name_set(s).insert(
        x@,
    ).contains(n) by {
        let i = choose|i: int| 0 <= i < s.push(x).len() && #[trigger] s.push(x)[i]@ == n;
        if i < s.len() {
            assert(s[i]@ == n);
        }
    }
    assert forall|n: Seq<char>| name_set(s).insert(x@).contains(n) implies name_set(
        s.push(x),
    ).contains(n) by {
        if n == x@ {
            assert(s.push(x)[s.len() as int]@ == n);
        } else {
            let i = choose|i: int| 0 <= i < s.len() && #[trigger] s[i]@ == n;
            assert(s.push(x)[i]@ == n);
        }
    }
    assert(name_set(s.push(x)) =~= name_set(s).insert(x@));
}

/// The mathematical value of a definition tree.
pub open spec fn def_view(d: SchemaDefinition) -> SchemaView
    decreases d,
{
    match d {
        SchemaDefinition::Primitive(k) => SchemaView::Primitive(k),
        SchemaDefinition::Object(fields) => SchemaView::Object(fields_view(fields@)),
        SchemaDefinition::Array(inner) => SchemaView::Array(Box::new(def_view(*inner))),
        SchemaDefinition::Enumeration(variants) => SchemaView::Enumeration(strings_view(variants@)),
        SchemaDefinition::Reference(name) => SchemaView::Reference(name@),
    }
}

/// The mathematical value of one field.
pub open spec fn field_view(f: FieldDef) -> FieldView
    decreases f,
{
    FieldView { name: f.name@, schema: def_view(f.schema), required: f.required }
}

/// The mathematical values of a sequence of fields, in order.
pub open spec fn fields_view(s: Seq<FieldDef>) -> Seq<FieldView>
    decreases s,
{
    if s.len() == 0 {
        Seq::empty()
    } else {
        fields_view(s.subrange(0, s.len() - 1)).push(field_view(s[s.len() - 1]))
    }
}

impl View for SchemaDefinition {
    type V = SchemaView;

    open spec fn view(&self) -> SchemaView {
        def_view(*self)
    }
}

impl View for FieldDef {
    type V = FieldView;

    open spec fn view(&self) -> FieldView {
        field_view(*self)
    }
}

/// `fields_view` maps the sequence elementwise.
pub proof fn lemma_fields_view(s: Seq<FieldDef>)
    ensures
        fields_view(s).len() == s.len(),
        forall|i: int| 0 <= i < s.len() ==> fields_view(s)[i] == field_view(s[i]),
    decreases s.len(),
{
    if s.len() > 0 {
        lemma_fields_view(s.subrange(0, s.len() - 1));
    }
}

impl SchemaDefinition {
    /// Decides structural equality of two definition trees: `true` exactly
    /// when the two trees are the same mathematical value.
    #[verifier::loop_isolation(false)]
    pub fn structural_eq(&self, other: &SchemaDefinition) -> (r: bool)
        ensures
            r == (self@ == other@),
        decreases *self,
    {
        match self {
            SchemaDefinition::Primitive(a) => match other {
                SchemaDefinition::Primitive(b) => {
                    let r = *a == *b;
                    proof {
                        assert(def_view(*self) == SchemaView::Primitive(*a));
                        assert(def_view(*other) == SchemaView::Primitive(*b));
                        assert(r == (self@ == other@));
                    }
                    r
                },
                _ => {
                    proof {
                        assert(def_view(*self) is Primitive);
                        assert(!(def_view(*other) is Primitive));
                    }
                    false
                },
            },
            SchemaDefinition::Object(fa) => match other {
                SchemaDefinition::Object(fb) => {
                    proof {
                        lemma_fields_view(fa@);
                        lemma_fields_view(fb@);
                    }
                    if fa.len() != fb.len() {
                        return false;
                    }
                    let n = fa.len();
                    let mut i: usize = 0;
                    while i < n
                        invariant
                            n == fa.len() == fb.len(),
                            0 <= i <= n,
                            forall|j: int| 0 <= j < i ==> fields_view(fa@)[j] == fields_view(fb@)[j],
                            fields_view(fa@).len() == n,
                            fields_view(fb@).len() == n,
                        decreases n - i,
                    {
                        proof {
                            assert(decreases_to!(*self => *fa));
                            assert(decreases_to!(*fa => fa@));
                            assert(decreases_to!(fa@ => fa@[i as int]));
                            assert(decreases_to!(fa@[i as int] => fa@[i as int].schema));
                        }
                        let ea = &fa[i];
                        let eb = &fb[i];
                        if !(ea.name == eb.name && ea.required == eb.required
                            && ea.schema.structural_eq(&eb.schema)) {
                            proof {
                                assert(fields_view(fa@)[i as int] != fields_view(fb@)[i as int]);
                            }
                            return false;
                        }
                        i += 1;
                    }
                    proof {
                        assert(fields_view(fa@) =~= fields_view(fb@));
                        assert(def_view(*self) == SchemaView::Object(fields_view(fa@)));
                        assert(def_view(*other) == SchemaView::Object(fields_view(fb@)));
                        assert(self@ == other@);
                    }
                    true
                },
                _ => {
                    proof {
                        assert(def_view(*self) is Object);
                        assert(!(def_view(*other) is Object));
                    }
                    false
                },
            },
            SchemaDefinition::Array(ia) => match other {
                SchemaDefinition::Array(ib) => {
                    proof {
                        assert(decreases_to!(*self => **ia));
                    }
                    let r = (&**ia).structural_eq(&**ib);
                    proof {
                        assert(def_view(*self) == SchemaView::Array(Box::new(def_view(**ia))));
                        assert(def_view(*other) == SchemaView::Array(Box::new(def_view(**ib))));
                        assert(r == (self@ == other@));
                    }
                    r
                },
                _ => {
                    proof {
                        assert(def_view(*self) is Array);
                        assert(!(def_view(*other) is Array));
                    }
                    false
                },
            },
            SchemaDefinition::Enumeration(va) => match other {
                SchemaDefinition::Enumeration(vb) => {
                    if va.len() != vb.len() {
                        proof {
                            assert(strings_view(va@).len() == va@.len());
                            assert(strings_view(vb@).len() == vb@.len());
                        }
                        return false;
                    }
                    let n = va.len();
                    let mut i: usize = 0;
                    while i < n
                        invariant
                            n == va.len() == vb.len(),
                            0 <= i <= n,
                            forall|j: int| 0 <= j < i ==> strings_view(va@)[j] == strings_view(vb@)[j],
                        decreases n - i,
                    {
                        if !(va[i] == vb[i]) {
                            proof {
                                assert(strings_view(va@)[i as int] != strings_view(vb@)[i as int]);
                            }
                            return false;
                        }
                        i += 1;
                    }
                    proof {
                        assert(strings_view(va@).len() == va@.len());
                        assert(strings_view(vb@).len() == vb@.len());
                        assert(strings_view(va@) =~= strings_view(vb@));
                        assert(def_view(*self) == SchemaView::Enumeration(strings_view(va@)));
                        assert(def_view(*other) == SchemaView::Enumeration(strings_view(vb@)));
                        assert(self@ == other@);
                    }
                    true
                },
                _ => {
                    proof {
                        assert(def_view(*self) is Enumeration);
                        assert(!(def_view(*other) is Enumeration));
                    }
                    false
                },
            },
            SchemaDefinition::Reference(na) => match other {
                SchemaDefinition::Reference(nb) => {
                    let r = *na == *nb;
                    proof {
                        assert(def_view(*self) == SchemaView::Reference(na@));
                        assert(def_view(*other) == SchemaView::Reference(nb@));
                        assert(r == (self@ == other@));
                    }
                    r
                },
                _ => {
                    proof {
                        assert(def_view(*self) is Reference);
                        assert(!(def_view(*other) is Reference));
                    }
                    false
                },
            },
        }
    }
}

} // verus!

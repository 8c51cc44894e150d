//! The generator: registering an externally described type shape.
//!
//! A shape is walked depth first. Every named nested type is registered
//! exactly once and replaced by a reference at its use sites. A name that
//! is already registered, or whose registration is in progress higher up
//! the walk, is not recursed into again: a reference is emitted instead.
//! That check is what keeps self-referential and mutually referential
//! shapes from expanding without bound.

use vstd::prelude::*;
use crate::error::{BuildError, ErrorView};
use crate::registry::{Registry, spec_register};
use crate::schema::{
    lemma_name_set_push,
    name_set,
    FieldDef,
    FieldView,
    PrimitiveKind,
    SchemaDefinition,
    SchemaView,
    def_view,
    field_view,
    fields_view,
    lemma_fields_view,
    strings_view,
};

verus! {

/// The map a registry denotes.
pub type RegistryMap = Map<Seq<char>, SchemaView>;

/// An externally produced description of one type's shape: its kind, and
/// the shapes of its fields, elements and variants. A recursive type is
/// described with a [`TypeShape::Reference`] leaf where it mentions itself,
/// so every shape is a finite tree.
#[derive(Debug)]
pub enum TypeShape {
    /// A scalar of the given kind.
    Primitive(PrimitiveKind),
    /// A named object type with its fields' shapes.
    Object { name: String, fields: Vec<FieldShape> },
    /// An array whose elements all have one shape.
    Array(Box<TypeShape>),
    /// A named closed set of string variants.
    Enumeration { name: String, variants: Vec<String> },
    /// A type referred to by name only.
    Reference(String),
}

/// One named, optionally required field of an object shape.
#[derive(Debug)]
pub struct FieldShape {
    /// The field's name.
    pub name: String,
    /// The field's own shape.
    pub shape: TypeShape,
    /// Whether the field must be present.
    pub required: bool,
}

/// The mathematical value of a [`TypeShape`].
pub enum ShapeView {
    Primitive(PrimitiveKind),
    Object { name: Seq<char>, fields: Seq<FieldShapeView> },
    Array(Box<ShapeView>),
    Enumeration { name: Seq<char>, variants: Seq<Seq<char>> },
    Reference(Seq<char>),
}

/// The mathematical value of a [`FieldShape`].
pub struct FieldShapeView {
    pub name: Seq<char>,
    pub shape: ShapeView,
    pub required: bool,
}

/// The mathematical value of a shape tree.
pub open spec fn shape_view(s: TypeShape) -> ShapeView
    decreases s,
{
    match s {
        TypeShape::Primitive(k) => ShapeView::Primitive(k),
        TypeShape::Object { name, fields } => ShapeView::Object {
            name: name@,
            fields: field_shapes_view(fields@),
        },
        TypeShape::Array(inner) => ShapeView::Array(Box::new(shape_view(*inner))),
        TypeShape::Enumeration { name, variants } => ShapeView::Enumeration {
            name: name@,
            variants: strings_view(variants@),
        },
        TypeShape::Reference(name) => ShapeView::Reference(name@),
    }
}

/// The mathematical value of one field shape.
pub open spec fn field_shape_view(f: FieldShape) -> FieldShapeView
    decreases f,
{
    FieldShapeView { name: f.name@, shape: shape_view(f.shape), required: f.required }
}

/// The mathematical values of a sequence of field shapes, in order.
pub open spec fn field_shapes_view(s: Seq<FieldShape>) -> Seq<FieldShapeView>
    decreases s,
{
    if s.len() == 0 {
        Seq::empty()
    } else {
        field_shapes_view(s.subrange(0, s.len() - 1)).push(field_shape_view(s[s.len() - 1]))
    }
}

/// `field_shapes_view` maps the sequence elementwise.
pub proof fn lemma_field_shapes_view(s: Seq<FieldShape>)
    ensures
        field_shapes_view(s).len() == s.len(),
        forall|i: int| 0 <= i < s.len() ==> field_shapes_view(s)[i] == field_shape_view(s[i]),
    decreases s.len(),
{
    if s.len() > 0 {
        lemma_field_shapes_view(s.subrange(0, s.len() - 1));
    }
}

impl View for TypeShape {
    type V = ShapeView;

    open spec fn view(&self) -> ShapeView {
        shape_view(*self)
    }
}

impl View for FieldShape {
    type V = FieldShapeView;

    open spec fn view(&self) -> FieldShapeView {
        field_shape_view(*self)
    }
}

/// What generating one shape does to a registry: the emitted definition
/// (or the first conflict), and the registry with every newly walked named
/// type registered. `prog` holds the names whose registration is in
/// progress higher up the walk; they are referenced, never recursed into.
pub open spec fn spec_generate(shape: ShapeView, reg: RegistryMap, prog: Set<Seq<char>>) -> (Result<
    SchemaView,
    ErrorView,
>, RegistryMap)
    decreases shape, 0int,
{
    match shape {
        ShapeView::Primitive(k) => (Ok(SchemaView::Primitive(k)), reg),
        ShapeView::Reference(n) => (Ok(SchemaView::Reference(n)), reg),
        ShapeView::Array(inner) => {
            let (r, reg2) = spec_generate(*inner, reg, prog);
            match r {
                Ok(d) => (Ok(SchemaView::Array(Box::new(d))), reg2),
                Err(e) => (Err(e), reg2),
            }
        },
        ShapeView::Object { name, fields } => {
            if prog.contains(name) || reg.dom().contains(name) {
                (Ok(SchemaView::Reference(name)), reg)
            } else {
                let (fr, reg2) = spec_generate_fields(
                    fields,
                    0,
                    Seq::empty(),
                    reg,
                    prog.insert(name),
                );
                match fr {
                    Ok(fvs) => match spec_register(reg2, name, SchemaView::Object(fvs)) {
                        Ok(reg3) => (Ok(SchemaView::Reference(name)), reg3),
                        Err(e) => (Err(e), reg2),
                    },
                    Err(e) => (Err(e), reg2),
                }
            }
        },
        ShapeView::Enumeration { name, variants } => {
            if prog.contains(name) || reg.dom().contains(name) {
                (Ok(SchemaView::Reference(name)), reg)
            } else {
                match spec_register(reg, name, SchemaView::Enumeration(variants)) {
                    Ok(reg2) => (Ok(SchemaView::Reference(name)), reg2),
                    Err(e) => (Err(e), reg),
                }
            }
        },
    }
}

/// Generating the field shapes `fields[i..]` in order, accumulating the
/// emitted field definitions onto `acc` and threading the registry.
pub open spec fn spec_generate_fields(
    fields: Seq<FieldShapeView>,
    i: int,
    acc: Seq<FieldView>,
    reg: RegistryMap,
    prog: Set<Seq<char>>,
) -> (Result<Seq<FieldView>, ErrorView>, RegistryMap)
    decreases fields, fields.len() - i,
{
    if i < 0 || i >= fields.len() {
        (Ok(acc), reg)
    } else {
        let (r, reg2) = spec_generate(fields[i].shape, reg, prog);
        match r {
            Ok(d) => spec_generate_fields(
                fields,
                i + 1,
                acc.push(FieldView { name: fields[i].name, schema: d, required: fields[i].required }),
                reg2,
                prog,
            ),
            Err(e) => (Err(e), reg2),
        }
    }
}

/// Whether a name is among the in-progress names.
fn contains_name_of(prog: &Vec<String>, name: &String) -> (r: bool)
    ensures
        r == name_set(prog@).contains(name@),
{
    let n = prog.len();
    let mut i: usize = 0;
    while i < n
        invariant
            0 <= i <= n,
            n == prog@.len(),
            forall|j: int| 0 <= j < i ==> #[trigger] prog@[j]@ != name@,
        decreases n - i,
    {
        if prog[i] == *name {
            proof {
                assert(prog@[i as int]@ == name@);
            }
            return true;
        }
        i += 1;
    }
    proof {
        if name_set(prog@).contains(name@) {
            let w = choose|j: int| 0 <= j < prog@.len() && #[trigger] prog@[j]@ == name@;
            assert(prog@[w]@ != name@);
        }
    }
    false
}

/// A copy of a vector of strings.
fn clone_strings(v: &Vec<String>) -> (r: Vec<String>)
    ensures
        strings_view(r@) == strings_view(v@),
{
    let n = v.len();
    let mut out: Vec<String> = Vec::new();
    let mut i: usize = 0;
    while i < n
        invariant
            0 <= i <= n,
            n == v@.len(),
            out@.len() == i,
            forall|j: int| 0 <= j < i ==> #[trigger] out@[j]@ == v@[j]@,
        decreases n - i,
    {
        out.push(v[i].clone());
        i += 1;
    }
    proof {
        assert(strings_view(out@) =~= strings_view(v@));
    }
    out
}

/// The generator: owns the registry of the build session and registers
/// every named type a walked shape depends on, exactly once.
#[derive(Debug)]
pub struct Generator {
    /// The registry filled by this generator.
    pub registry: Registry,
}

impl Generator {
    /// Whether the generator's registry is well-formed.
    pub open spec fn wf(&self) -> bool {
        self.registry.wf()
    }

    /// A generator over an empty registry.
    pub fn new() -> (r: Generator)
        ensures
            r.wf(),
            r.registry@ == Map::<Seq<char>, SchemaView>::empty(),
            r.registry.entry_seq() == Seq::<crate::registry::EntryView>::empty(),
    {
        Generator { registry: Registry::new() }
    }

    /// Hands the filled registry over to the document being collected.
    pub fn into_registry(self) -> (r: Registry)
        ensures
            r == self.registry,
    {
        self.registry
    }

    /// Walks one shape depth first, registers every named type it reaches
    /// that is not yet registered, and returns the definition to embed at
    /// the shape's own position — a reference, for a named shape. The walk
    /// and its effect on the registry are exactly [`spec_generate`] on an
    /// empty in-progress set; the first conflict aborts the walk.
    pub fn generate(&mut self, shape: &TypeShape) -> (r: Result<SchemaDefinition, BuildError>)
        requires
            old(self).wf(),
        ensures
            final(self).wf(),
            ({
                let (sr, rmap) = spec_generate(shape@, old(self).registry@, Set::empty());
                &&& final(self).registry@ == rmap
                &&& match r {
                    Ok(d) => sr == Ok::<_, ErrorView>(def_view(d)),
                    Err(e) => sr == Err::<SchemaView, _>(e@),
                }
            }),
    {
        let mut prog: Vec<String> = Vec::new();
        proof {
            assert(name_set(prog@) =~= Set::<Seq<char>>::empty());
        }
        generate_rec(&mut self.registry, &mut prog, shape)
    }
}

/// The depth-first walk behind [`Generator::generate`], carrying the names
/// whose registration is in progress.
#[verifier::loop_isolation(false)]
fn generate_rec(reg: &mut Registry, prog: &mut Vec<String>, shape: &TypeShape) -> (r: Result<
    SchemaDefinition,
    BuildError,
>)
    requires
        old(reg).wf(),
    ensures
        final(reg).wf(),
        final(prog)@ == old(prog)@,
        ({
            let (sr, rmap) = spec_generate(shape@, old(reg)@, name_set(old(prog)@));
            &&& final(reg)@ == rmap
            &&& match r {
                Ok(d) => sr == Ok::<_, ErrorView>(def_view(d)),
                Err(e) => sr == Err::<SchemaView, _>(e@),
            }
        }),
    decreases *shape,
{
    match shape {
        TypeShape::Primitive(k) => Ok(SchemaDefinition::Primitive(*k)),
        TypeShape::Reference(name) => Ok(SchemaDefinition::Reference(name.clone())),
        TypeShape::Array(inner) => {
            proof {
                assert(decreases_to!(*shape => **inner));
            }
            match generate_rec(reg, prog, &**inner) {
                Ok(d) => Ok(SchemaDefinition::Array(Box::new(d))),
                Err(e) => Err(e),
            }
        },
        TypeShape::Object { name, fields } => {
            if contains_name_of(prog, name) || reg.contains_name(name) {
                return Ok(SchemaDefinition::Reference(name.clone()));
            }
            let ghost reg0 = reg@;
            let ghost prog_in = name_set(old(prog)@).insert(name@);
            proof {
                lemma_name_set_push(old(prog)@, *name);
                lemma_field_shapes_view(fields@);
            }
            prog.push(name.clone());
            let ghost fields_v = field_shapes_view(fields@);
            let mut fdefs: Vec<FieldDef> = Vec::new();
            let n = fields.len();
            let mut i: usize = 0;
            while i < n
                invariant
                    0 <= i <= n,
                    reg.wf(),
                    prog@ == old(prog)@.push(*name),
                    fdefs@.len() == i,
                    spec_generate_fields(fields_v, 0, Seq::empty(), reg0, prog_in)
                        == spec_generate_fields(
                        fields_v,
                        i as int,
                        fields_view(fdefs@),
                        reg@,
                        prog_in,
                    ),
                decreases n - i,
            {
                proof {
                    assert(decreases_to!(*shape => *fields));
                    assert(decreases_to!(*fields => fields@));
                    assert(decreases_to!(fields@ => fields@[i as int]));
                    assert(decreases_to!(fields@[i as int] => fields@[i as int].shape));
                }
                let ghost fdefs_before = fdefs@;
                let ghost reg_before = reg@;
                let f = &fields[i];
                match generate_rec(reg, prog, &f.shape) {
                    Ok(d) => {
                        let fd = FieldDef { name: f.name.clone(), schema: d, required: f.required };
                        fdefs.push(fd);
                        proof {
                            assert(fdefs@.drop_last() =~= fdefs_before);
                            assert(fields_view(fdefs@).drop_last() =~= fields_view(fdefs_before));
                            assert(fields_view(fdefs@) =~= fields_view(fdefs_before).push(
                                field_view(fdefs@.last()),
                            ));
                        }
                    },
                    Err(e) => {
                        let _ = prog.pop();
                        proof {
                            assert(old(prog)@.push(*name).drop_last() =~= old(prog)@);
                        }
                        return Err(e);
                    },
                }
                i += 1;
            }
            let _ = prog.pop();
            proof {
                assert(old(prog)@.push(*name).drop_last() =~= old(prog)@);
            }
            let def = SchemaDefinition::Object(fdefs);
            match reg.register(name.clone(), def) {
                Ok(_) => Ok(SchemaDefinition::Reference(name.clone())),
                Err(e) => Err(e),
            }
        },
        TypeShape::Enumeration { name, variants } => {
            if contains_name_of(prog, name) || reg.contains_name(name) {
                return Ok(SchemaDefinition::Reference(name.clone()));
            }
            let def = SchemaDefinition::Enumeration(clone_strings(variants));
            match reg.register(name.clone(), def) {
                Ok(_) => Ok(SchemaDefinition::Reference(name.clone())),
                Err(e) => Err(e),
            }
        },
    }
}

/// Recursion safety: a self-referential record — a named object whose one
/// field (optional or required) refers back to the record itself through a
/// reference — registers successfully, and what its name maps to afterwards
/// is a finite tree holding exactly one reference edge back to the name,
/// not an unbounded inline expansion.
pub proof fn lemma_self_reference_finite(
    name: Seq<char>,
    field_name: Seq<char>,
    required: bool,
    reg: RegistryMap,
)
    requires
        !reg.dom().contains(name),
    ensures
        ({
            let shape = ShapeView::Object {
                name,
                fields: seq![
                    FieldShapeView { name: field_name, shape: ShapeView::Reference(name), required },
                ],
            };
            let field_def = FieldView { name: field_name, schema: SchemaView::Reference(name), required };
            spec_generate(shape, reg, Set::empty()) == (
                Ok::<_, ErrorView>(SchemaView::Reference(name)),
                reg.insert(name, SchemaView::Object(seq![field_def])),
            )
        }),
{
    let fields = seq![
        FieldShapeView { name: field_name, shape: ShapeView::Reference(name), required },
    ];
    let field_def = FieldView { name: field_name, schema: SchemaView::Reference(name), required };
    let prog = Set::<Seq<char>>::empty().insert(name);
    assert(!Set::<Seq<char>>::empty().contains(name));
    assert(spec_generate(ShapeView::Reference(name), reg, prog) == (
        Ok::<_, ErrorView>(SchemaView::Reference(name)),
        reg,
    ));
    assert(Seq::<FieldView>::empty().push(field_def) =~= seq![field_def]);
    assert(spec_generate_fields(fields, 1, seq![field_def], reg, prog) == (
        Ok::<Seq<FieldView>, ErrorView>(seq![field_def]),
        reg,
    ));
    assert(spec_generate_fields(fields, 0, Seq::empty(), reg, prog) == (
        Ok::<Seq<FieldView>, ErrorView>(seq![field_def]),
        reg,
    ));
    assert(spec_register(reg, name, SchemaView::Object(seq![field_def])) == Ok::<_, ErrorView>(
        reg.insert(name, SchemaView::Object(seq![field_def])),
    ));
}

} // verus!

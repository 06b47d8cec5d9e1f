//! Structural descriptors of type declarations.
//!
//! A declaration reaches the generators as an already-parsed descriptor,
//! independent of concrete source syntax: an enum name, its generic
//! parameters, its annotation groups and its variants, each variant with a
//! shape (unit, tuple or struct) and its own annotations. Every descriptor
//! has a mathematical counterpart, reached through `deep_view`, over which
//! all generator contracts are stated.

use vstd::prelude::*;

verus! {

/// A reference to a type by its path text, such as `bool` or
/// `some_crate::AnotherType`.
#[derive(Debug, Clone, PartialEq, Eq)]
pub struct TypeRef {
    pub path: String,
}

impl DeepView for TypeRef {
    type V = Seq<char>;

    open spec fn deep_view(&self) -> Seq<char> {
        self.path@
    }
}

/// The mathematical form of a named field.
pub ghost struct FieldV {
    pub name: Seq<char>,
    pub ty: Seq<char>,
}

/// A named field of a struct-shaped variant.
#[derive(Debug, Clone, PartialEq, Eq)]
pub struct FieldDef {
    pub name: String,
    pub ty: TypeRef,
}

impl DeepView for FieldDef {
    type V = FieldV;

    open spec fn deep_view(&self) -> FieldV {
        FieldV { name: self.name@, ty: self.ty.deep_view() }
    }
}

/// The mathematical form of a variant shape.
pub ghost enum ShapeV {
    Unit,
    Tuple { fields: Seq<Seq<char>> },
    Struct { fields: Seq<FieldV> },
}

/// The shape of one variant: no fields, ordered unnamed fields, or named
/// fields.
#[derive(Debug, Clone, PartialEq, Eq)]
pub enum VariantShape {
    Unit,
    Tuple { fields: Vec<TypeRef> },
    Struct { fields: Vec<FieldDef> },
}

impl DeepView for VariantShape {
    type V = ShapeV;

    open spec fn deep_view(&self) -> ShapeV {
        match self {
            VariantShape::Unit => ShapeV::Unit,
            VariantShape::Tuple { fields } => ShapeV::Tuple { fields: fields.deep_view() },
            VariantShape::Struct { fields } => ShapeV::Struct { fields: fields.deep_view() },
        }
    }
}

/// The mathematical form of an annotation argument.
pub ghost enum AnnotationArgV {
    Ty { path: Seq<char> },
    Text { text: Seq<char> },
}

/// One argument of a variant annotation: either a token that denotes a type,
/// or some other token text (a literal, for instance), which does not.
#[derive(Debug, Clone, PartialEq, Eq)]
pub enum AnnotationArg {
    Ty { ty: TypeRef },
    Text { text: String },
}

impl DeepView for AnnotationArg {
    type V = AnnotationArgV;

    open spec fn deep_view(&self) -> AnnotationArgV {
        match self {
            AnnotationArg::Ty { ty } => AnnotationArgV::Ty { path: ty.deep_view() },
            AnnotationArg::Text { text } => AnnotationArgV::Text { text: text@ },
        }
    }
}

/// The mathematical form of a variant annotation.
pub ghost struct AnnotationV {
    pub path: Seq<char>,
    pub args: Seq<AnnotationArgV>,
}

/// An annotation attached to one variant, such as `returns(bool)`.
#[derive(Debug, Clone, PartialEq, Eq)]
pub struct Annotation {
    pub path: String,
    pub args: Vec<AnnotationArg>,
}

impl DeepView for Annotation {
    type V = AnnotationV;

    open spec fn deep_view(&self) -> AnnotationV {
        AnnotationV { path: self.path@, args: self.args.deep_view() }
    }
}

/// The mathematical form of a variant descriptor.
pub ghost struct VariantV {
    pub name: Seq<char>,
    pub shape: ShapeV,
    pub annotations: Seq<AnnotationV>,
}

/// One named case of an enumerated type, with its shape and annotations.
/// Within one enclosing type a variant is identified by its name.
#[derive(Debug, Clone, PartialEq, Eq)]
pub struct VariantDescriptor {
    pub name: String,
    pub shape: VariantShape,
    pub annotations: Vec<Annotation>,
}

impl DeepView for VariantDescriptor {
    type V = VariantV;

    open spec fn deep_view(&self) -> VariantV {
        VariantV {
            name: self.name@,
            shape: self.shape.deep_view(),
            annotations: self.annotations.deep_view(),
        }
    }
}

/// The mathematical form of a generic parameter.
pub ghost struct GenericParamV {
    pub name: Seq<char>,
    pub bounds: Seq<Seq<char>>,
    pub default: Option<Seq<char>>,
}

/// One generic type parameter: its name, the capability bounds already on
/// it, and an optional default type, legal only at declaration sites.
#[derive(Debug, Clone, PartialEq, Eq)]
pub struct GenericParam {
    pub name: String,
    pub bounds: Vec<TypeRef>,
    pub default: Option<TypeRef>,
}

impl DeepView for GenericParam {
    type V = GenericParamV;

    open spec fn deep_view(&self) -> GenericParamV {
        GenericParamV {
            name: self.name@,
            bounds: self.bounds.deep_view(),
            default: self.default.deep_view(),
        }
    }
}

/// The mathematical form of a configuration parameter.
pub ghost enum AnnotationParamV {
    Flag { name: Seq<char> },
    IdentList { name: Seq<char>, items: Seq<Seq<char>> },
}

/// One parameter inside a type-level annotation group: a bare flag, or a
/// name carrying a parenthesized list of identifiers.
#[derive(Debug, Clone, PartialEq, Eq)]
pub enum AnnotationParam {
    Flag { name: String },
    IdentList { name: String, items: Vec<String> },
}

impl DeepView for AnnotationParam {
    type V = AnnotationParamV;

    open spec fn deep_view(&self) -> AnnotationParamV {
        match self {
            AnnotationParam::Flag { name } => AnnotationParamV::Flag { name: name@ },
            AnnotationParam::IdentList { name, items } => AnnotationParamV::IdentList {
                name: name@,
                items: items.deep_view(),
            },
        }
    }
}

/// The mathematical form of an annotation group.
pub ghost struct AnnotationGroupV {
    pub path: Seq<char>,
    pub params: Seq<AnnotationParamV>,
}

/// A type-level annotation group, such as `query_responses(nested)`.
#[derive(Debug, Clone, PartialEq, Eq)]
pub struct AnnotationGroup {
    pub path: String,
    pub params: Vec<AnnotationParam>,
}

impl DeepView for AnnotationGroup {
    type V = AnnotationGroupV;

    open spec fn deep_view(&self) -> AnnotationGroupV {
        AnnotationGroupV { path: self.path@, params: self.params.deep_view() }
    }
}

/// The mathematical form of a type descriptor.
pub ghost struct TypeDescriptorV {
    pub name: Seq<char>,
    pub generics: Seq<GenericParamV>,
    pub annotations: Seq<AnnotationGroupV>,
    pub variants: Seq<VariantV>,
}

/// An already-parsed enum declaration: the input of both generators.
#[derive(Debug, Clone, PartialEq, Eq)]
pub struct TypeDescriptor {
    pub name: String,
    pub generics: Vec<GenericParam>,
    pub annotations: Vec<AnnotationGroup>,
    pub variants: Vec<VariantDescriptor>,
}

impl DeepView for TypeDescriptor {
    type V = TypeDescriptorV;

    open spec fn deep_view(&self) -> TypeDescriptorV {
        TypeDescriptorV {
            name: self.name@,
            generics: self.generics.deep_view(),
            annotations: self.annotations.deep_view(),
            variants: self.variants.deep_view(),
        }
    }
}

/// The arguments of an attribute macro invocation: a comma-separated list
/// of identifiers, already read out of the raw token form by the front end.
#[derive(Debug, Clone, PartialEq, Eq)]
pub struct MacroArgs {
    pub vars: Vec<String>,
}

impl DeepView for MacroArgs {
    type V = Seq<Seq<char>>;

    open spec fn deep_view(&self) -> Seq<Seq<char>> {
        self.vars.deep_view()
    }
}

/// A generation-time diagnostic. Every diagnostic aborts generation for the
/// enclosing declaration; no artifact is produced when one fires.
#[derive(Debug, Clone, PartialEq, Eq)]
pub enum Diagnostic {
    /// A generator was applied to a declaration that is not an enum. The
    /// front end rejects such input before either generator runs.
    UnsupportedShape,
    /// An unknown configuration key stood in the recognized annotation group.
    UnrecognizedParameter { name: String },
    /// A flat-mode variant carries no `returns` annotation.
    MissingResponseType { variant: String },
    /// A flat-mode variant's `returns` annotation does not carry exactly one
    /// argument denoting a type.
    InvalidResponseType { variant: String },
    /// A delegating variant has named fields.
    StructVariantNotSubquery { variant: String },
    /// A delegating variant has an unnamed-field list whose length is not
    /// one.
    WrongArity { variant: String },
    /// A delegating variant has no fields at all.
    UnitVariantNotSubquery { variant: String },
}

/// The mathematical form of a diagnostic.
pub ghost enum DiagnosticV {
    UnsupportedShape,
    UnrecognizedParameter { name: Seq<char> },
    MissingResponseType { variant: Seq<char> },
    InvalidResponseType { variant: Seq<char> },
    StructVariantNotSubquery { variant: Seq<char> },
    WrongArity { variant: Seq<char> },
    UnitVariantNotSubquery { variant: Seq<char> },
}

impl DeepView for Diagnostic {
    type V = DiagnosticV;

    open spec fn deep_view(&self) -> DiagnosticV {
        match self {
            Diagnostic::UnsupportedShape => DiagnosticV::UnsupportedShape,
            Diagnostic::UnrecognizedParameter { name } => DiagnosticV::UnrecognizedParameter {
                name: name@,
            },
            Diagnostic::MissingResponseType { variant } => DiagnosticV::MissingResponseType {
                variant: variant@,
            },
            Diagnostic::InvalidResponseType { variant } => DiagnosticV::InvalidResponseType {
                variant: variant@,
            },
            Diagnostic::StructVariantNotSubquery { variant } => (
            DiagnosticV::StructVariantNotSubquery { variant: variant@ }),
            Diagnostic::WrongArity { variant } => DiagnosticV::WrongArity { variant: variant@ },
            Diagnostic::UnitVariantNotSubquery { variant } => (
            DiagnosticV::UnitVariantNotSubquery { variant: variant@ }),
        }
    }
}

/// Copies a type reference; the copy shows the same path.
pub fn copy_type_ref(t: &TypeRef) -> (r: TypeRef)
    ensures
        r.deep_view() == t.deep_view(),
{
    TypeRef { path: t.path.clone() }
}

/// Copies a list of type references; the copy shows the same paths.
pub fn copy_type_refs(ts: &Vec<TypeRef>) -> (r: Vec<TypeRef>)
    ensures
        r.deep_view() == ts.deep_view(),
{
    let mut r: Vec<TypeRef> = Vec::new();
    let n = ts.len();
    let mut i: usize = 0;
    while i < n
        invariant
            0 <= i <= n,
            n == ts@.len(),
            r@.len() == i,
            forall|j: int| 0 <= j < i ==> r.deep_view()[j] == #[trigger] ts.deep_view()[j],
        decreases n - i,
    {
        let ghost prev = r;
        r.push(copy_type_ref(&ts[i]));
        i += 1;
        proof {
            assert forall|j: int| 0 <= j < i implies r.deep_view()[j]
                == #[trigger] ts.deep_view()[j] by {
                if j < i - 1 {
                    assert(r@[j] == prev@[j]);
                    assert(prev.deep_view()[j] == ts.deep_view()[j]);
                }
            }
        }
    }
    proof {
        assert(r.deep_view() =~= ts.deep_view());
    }
    r
}

fn copy_field(f: &FieldDef) -> (r: FieldDef)
    ensures
        r.deep_view() == f.deep_view(),
{
    FieldDef { name: f.name.clone(), ty: copy_type_ref(&f.ty) }
}

fn copy_fields(fs: &Vec<FieldDef>) -> (r: Vec<FieldDef>)
    ensures
        r.deep_view() == fs.deep_view(),
{
    let mut r: Vec<FieldDef> = Vec::new();
    let n = fs.len();
    let mut i: usize = 0;
    while i < n
        invariant
            0 <= i <= n,
            n == fs@.len(),
            r@.len() == i,
            forall|j: int| 0 <= j < i ==> r.deep_view()[j] == #[trigger] fs.deep_view()[j],
        decreases n - i,
    {
        let ghost prev = r;
        r.push(copy_field(&fs[i]));
        i += 1;
        proof {
            assert forall|j: int| 0 <= j < i implies r.deep_view()[j]
                == #[trigger] fs.deep_view()[j] by {
                if j < i - 1 {
                    assert(r@[j] == prev@[j]);
                    assert(prev.deep_view()[j] == fs.deep_view()[j]);
                }
            }
        }
    }
    proof {
        assert(r.deep_view() =~= fs.deep_view());
    }
    r
}

fn copy_shape(s: &VariantShape) -> (r: VariantShape)
    ensures
        r.deep_view() == s.deep_view(),
{
    match s {
        VariantShape::Unit => VariantShape::Unit,
        VariantShape::Tuple { fields } => VariantShape::Tuple { fields: copy_type_refs(fields) },
        VariantShape::Struct { fields } => VariantShape::Struct { fields: copy_fields(fields) },
    }
}

fn copy_arg(a: &AnnotationArg) -> (r: AnnotationArg)
    ensures
        r.deep_view() == a.deep_view(),
{
    match a {
        AnnotationArg::Ty { ty } => AnnotationArg::Ty { ty: copy_type_ref(ty) },
        AnnotationArg::Text { text } => AnnotationArg::Text { text: text.clone() },
    }
}

fn copy_annotation(a: &Annotation) -> (r: Annotation)
    ensures
        r.deep_view() == a.deep_view(),
{
    let mut args: Vec<AnnotationArg> = Vec::new();
    let n = a.args.len();
    let mut i: usize = 0;
    while i < n
        invariant
            0 <= i <= n,
            n == a.args@.len(),
            args@.len() == i,
            forall|j: int| 0 <= j < i ==> args.deep_view()[j] == #[trigger] a.args.deep_view()[j],
        decreases n - i,
    {
        let ghost prev = args;
        args.push(copy_arg(&a.args[i]));
        i += 1;
        proof {
            assert forall|j: int| 0 <= j < i implies args.deep_view()[j]
                == #[trigger] a.args.deep_view()[j] by {
                if j < i - 1 {
                    assert(args@[j] == prev@[j]);
                    assert(prev.deep_view()[j] == a.args.deep_view()[j]);
                }
            }
        }
    }
    proof {
        assert(args.deep_view() =~= a.args.deep_view());
    }
    Annotation { path: a.path.clone(), args }
}

/// Copies a variant descriptor; the copy shows the same name, shape and
/// annotations.
pub fn copy_variant(v: &VariantDescriptor) -> (r: VariantDescriptor)
    ensures
        r.deep_view() == v.deep_view(),
{
    let mut annotations: Vec<Annotation> = Vec::new();
    let n = v.annotations.len();
    let mut i: usize = 0;
    while i < n
        invariant
            0 <= i <= n,
            n == v.annotations@.len(),
            annotations@.len() == i,
            forall|j: int| 0 <= j < i ==> annotations.deep_view()[j]
                == #[trigger] v.annotations.deep_view()[j],
        decreases n - i,
    {
        let ghost prev = annotations;
        annotations.push(copy_annotation(&v.annotations[i]));
        i += 1;
        proof {
            assert forall|j: int| 0 <= j < i implies annotations.deep_view()[j]
                == #[trigger] v.annotations.deep_view()[j] by {
                if j < i - 1 {
                    assert(annotations@[j] == prev@[j]);
                    assert(prev.deep_view()[j] == v.annotations.deep_view()[j]);
                }
            }
        }
    }
    proof {
        assert(annotations.deep_view() =~= v.annotations.deep_view());
    }
    VariantDescriptor { name: v.name.clone(), shape: copy_shape(&v.shape), annotations }
}

} // verus!

//! The structural description of a type that codecs are derived for.
use vstd::prelude::*;

verus! {

/// A type as written at a field or a bound: its path segments, `T` or
/// `F::Element`.
#[derive(Clone, Debug, PartialEq, Eq)]
pub struct TypePath {
    pub segments: Vec<String>,
}

impl View for TypePath {
    type V = Seq<Seq<char>>;

    open spec fn view(&self) -> Seq<Seq<char>> {
        self.segments@.map_values(|s: String| s@)
    }
}

/// A path of more than one segment reaches its type through another one
/// (an associated type), so no bound on a single generic parameter covers it.
pub open spec fn is_projected(p: Seq<Seq<char>>) -> bool {
    p.len() > 1
}

impl TypePath {
    /// The path of one segment that names a generic parameter.
    pub fn single(name: &String) -> (r: TypePath)
        ensures
            r@ == seq![name@],
    {
        let mut segments: Vec<String> = Vec::new();
        segments.push(name.clone());
        let r = TypePath { segments };
        assert(r@ =~= seq![name@]);
        r
    }

    /// A copy with the same segments.
    pub fn duplicate(&self) -> (r: TypePath)
        ensures
            r@ == self@,
    {
        let n = self.segments.len();
        let mut segments: Vec<String> = Vec::new();
        let mut i: usize = 0;
        while i < n
            invariant
                n == self.segments@.len(),
                i <= n,
                segments@.map_values(|s: String| s@) == self@.subrange(0, i as int),
            decreases n - i,
        {
            let ghost prev = segments@;
            let c = self.segments[i].clone();
            assert(c@ == self.segments@[i as int]@);
            assert(self@[i as int] == self.segments@[i as int]@);
            segments.push(c);
            assert(segments@ == prev.push(c));
            assert(prev.map_values(|s: String| s@).len() == i);
            assert(segments@[i as int] == c);
            assert(segments@.map_values(|s: String| s@)[i as int] == self@[i as int]);
            assert(segments@.map_values(|s: String| s@) =~= self@.subrange(0, i + 1));
            i = i + 1;
        }
        assert(self@.subrange(0, n as int) =~= self@);
        TypePath { segments }
    }

    /// Whether the type is reached through another type.
    pub fn projected(&self) -> (r: bool)
        ensures
            r == is_projected(self@),
    {
        self.segments.len() > 1
    }

    /// Whether both paths have the same segments.
    pub fn same_as(&self, other: &TypePath) -> (r: bool)
        ensures
            r == (self@ == other@),
    {
        let n = self.segments.len();
        if n != other.segments.len() {
            assert(self@.len() != other@.len());
            return false;
        }
        let mut i: usize = 0;
        while i < n
            invariant
                n == self.segments@.len(),
                n == other.segments@.len(),
                i <= n,
                forall|j: int| 0 <= j < i ==> self@[j] == other@[j],
            decreases n - i,
        {
            if self.segments[i] != other.segments[i] {
                assert(self@[i as int] != other@[i as int]);
                return false;
            }
            i = i + 1;
        }
        assert(self@ =~= other@);
        true
    }
}

/// A field declared with a name.
#[derive(Clone, Debug, PartialEq, Eq)]
pub struct NamedField {
    pub name: String,
    pub ty: TypePath,
}

/// The fields of a struct or of one variant.
#[derive(Clone, Debug, PartialEq, Eq)]
pub enum FieldShape {
    Named(Vec<NamedField>),
    Positional(Vec<TypePath>),
    Unit,
}

/// A variant of an enum.
#[derive(Clone, Debug, PartialEq, Eq)]
pub struct Variant {
    pub name: String,
    pub shape: FieldShape,
}

/// What kind of declaration the type is.
#[derive(Clone, Debug, PartialEq, Eq)]
pub enum TypeKind {
    Struct(FieldShape),
    /// The variants in declaration order; a variant's index is its discriminant.
    Enum(Vec<Variant>),
    /// A union, which no codec is derived for.
    Union,
}

/// How decoding gets its context.
#[derive(Clone, Debug, PartialEq, Eq)]
pub enum ContextConfig {
    Unspecified,
    /// The context is any type that exposes this capability.
    NamedCapability(TypePath),
    /// The context is this type.
    ConcreteType(TypePath),
}

/// One type declaration to derive codecs for.
#[derive(Clone, Debug, PartialEq, Eq)]
pub struct TypeDescriptor {
    pub name: String,
    pub kind: TypeKind,
    /// The declared generic type parameters, in order.
    pub generics: Vec<String>,
    pub context_config: ContextConfig,
}

/// The field types of a shape, in declaration order.
pub open spec fn shape_types(sh: FieldShape) -> Seq<Seq<Seq<char>>> {
    match sh {
        FieldShape::Named(fs) => fs@.map_values(|f: NamedField| f.ty@),
        FieldShape::Positional(ts) => ts@.map_values(|t: TypePath| t@),
        FieldShape::Unit => Seq::empty(),
    }
}

/// The field types of all variants, variant by variant.
pub open spec fn variants_types(vs: Seq<Variant>) -> Seq<Seq<Seq<char>>>
    decreases vs.len(),
{
    if vs.len() == 0 {
        Seq::empty()
    } else {
        variants_types(vs.drop_last()) + shape_types(vs.last().shape)
    }
}

/// Every field type of the declaration, in declaration order.
pub open spec fn field_types(d: TypeDescriptor) -> Seq<Seq<Seq<char>>> {
    match d.kind {
        TypeKind::Struct(sh) => shape_types(sh),
        TypeKind::Enum(vs) => variants_types(vs@),
        TypeKind::Union => Seq::empty(),
    }
}

/// The declared generic parameters, each as a path of one segment.
pub open spec fn generic_paths(d: TypeDescriptor) -> Seq<Seq<Seq<char>>> {
    d.generics@.map_values(|g: String| seq![g@])
}

} // verus!

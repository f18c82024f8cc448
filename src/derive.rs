//! The three derivations. Each yields the plan of one implementation: its
//! extra parameters, its context type, its bounds, and for encode and decode
//! one arm per struct body or enum variant. Rendering a plan as source is a
//! matter of spelling only.
use vstd::prelude::*;
use crate::schema::{TypePath, NamedField, FieldShape, TypeKind, TypeDescriptor, Variant};
use crate::config::{ConfigError, ContextMode, ModeView, resolve_context, resolve_spec};
use crate::constraints::{ConstraintSet, bounded_types, paths_view, encode_constraints, decode_constraints};

verus! {

/// How an arm reaches one field.
#[derive(Clone, Debug, PartialEq, Eq)]
pub enum Member {
    Named(String),
    Position(usize),
}

pub enum MemberView {
    Named(Seq<char>),
    Position(nat),
}

impl View for Member {
    type V = MemberView;

    open spec fn view(&self) -> MemberView {
        match self {
            Member::Named(n) => MemberView::Named(n@),
            Member::Position(i) => MemberView::Position(*i as nat),
        }
    }
}

/// The field syntax of an arm.
#[derive(Clone, Copy, Debug, PartialEq, Eq, Structural)]
pub enum ArmStyle {
    Named,
    Positional,
    Unit,
}

/// The body of a struct, or one variant of an enum: encode writes the
/// discriminant, if any, then the members in order; decode reads them in the
/// same order.
#[derive(Clone, Debug, PartialEq, Eq)]
pub struct Arm {
    /// The variant's name; none for a struct.
    pub variant: Option<String>,
    /// The variant's index among the declared variants; none for a struct.
    pub discriminant: Option<u64>,
    pub style: ArmStyle,
    pub members: Vec<Member>,
}

pub struct ArmView {
    pub variant: Option<Seq<char>>,
    pub discriminant: Option<u64>,
    pub style: ArmStyle,
    pub members: Seq<MemberView>,
}

impl View for Arm {
    type V = ArmView;

    open spec fn view(&self) -> ArmView {
        ArmView {
            variant: match self.variant {
                Some(n) => Some(n@),
                None => None,
            },
            discriminant: self.discriminant,
            style: self.style,
            members: members_view(self.members@),
        }
    }
}

pub open spec fn members_view(m: Seq<Member>) -> Seq<MemberView> {
    m.map_values(|x: Member| x@)
}

pub open spec fn arms_view(a: Seq<Arm>) -> Seq<ArmView> {
    a.map_values(|x: Arm| x@)
}

pub open spec fn shape_style(sh: FieldShape) -> ArmStyle {
    match sh {
        FieldShape::Named(_) => ArmStyle::Named,
        FieldShape::Positional(_) => ArmStyle::Positional,
        FieldShape::Unit => ArmStyle::Unit,
    }
}

/// The members of a shape: the field names, or the positions 0, 1, ...
pub open spec fn shape_members(sh: FieldShape) -> Seq<MemberView> {
    match sh {
        FieldShape::Named(fs) => fs@.map_values(|f: NamedField| MemberView::Named(f.name@)),
        FieldShape::Positional(ts) => Seq::new(ts@.len(), |i: int| MemberView::Position(i as nat)),
        FieldShape::Unit => Seq::empty(),
    }
}

/// One arm for a struct's body; for an enum one arm per variant, in
/// declaration order, whose discriminant is its index.
pub open spec fn arms_of(d: TypeDescriptor) -> Seq<ArmView> {
    match d.kind {
        TypeKind::Struct(sh) => seq![ArmView { variant: None, discriminant: None, style: shape_style(sh), members: shape_members(sh) }],
        TypeKind::Enum(vs) => Seq::new(vs@.len(), |i: int| ArmView {
            variant: Some(vs@[i].name@),
            discriminant: Some(i as u64),
            style: shape_style(vs@[i].shape),
            members: shape_members(vs@[i].shape),
        }),
        TypeKind::Union => Seq::empty(),
    }
}

/// The type that decoding takes as its context.
#[derive(Clone, Debug, PartialEq, Eq)]
pub enum ContextType {
    /// The implementation's own fresh context parameter.
    Param,
    Concrete(TypePath),
}

pub enum ContextTypeView {
    Param,
    Concrete(Seq<Seq<char>>),
}

impl View for ContextType {
    type V = ContextTypeView;

    open spec fn view(&self) -> ContextTypeView {
        match self {
            ContextType::Param => ContextTypeView::Param,
            ContextType::Concrete(p) => ContextTypeView::Concrete(p@),
        }
    }
}

/// The parameters and bounds that decoding and borrowing decoding share.
pub struct HeaderView {
    pub context_param: bool,
    pub context: ContextTypeView,
    pub bounded: Seq<Seq<Seq<char>>>,
    pub context_capability: Option<Seq<Seq<char>>>,
}

/// The header of the decode implementation: a fresh context parameter unless
/// the context type is fixed, and then that type as the context.
pub open spec fn decode_header(d: TypeDescriptor) -> HeaderView {
    let mode = resolve_spec(d.context_config@);
    HeaderView {
        context_param: !(mode is Fixed),
        context: match mode {
            ModeView::Fixed(p) => ContextTypeView::Concrete(p),
            _ => ContextTypeView::Param,
        },
        bounded: bounded_types(d),
        context_capability: match mode {
            ModeView::GenericWithCapability(p) => Some(p),
            _ => None,
        },
    }
}

/// The encode implementation of a type.
#[derive(Clone, Debug, PartialEq, Eq)]
pub struct EncodeImpl {
    pub constraints: ConstraintSet,
    pub arms: Vec<Arm>,
}

/// The decode implementation of a type.
#[derive(Clone, Debug, PartialEq, Eq)]
pub struct DecodeImpl {
    /// Whether the implementation has a fresh context parameter.
    pub context_param: bool,
    pub context: ContextType,
    pub constraints: ConstraintSet,
    pub arms: Vec<Arm>,
}

/// The borrowing decode implementation of a type, whose body calls the
/// type's decode with the same context. It always adds one lifetime
/// parameter for the input.
#[derive(Clone, Debug, PartialEq, Eq)]
pub struct BorrowDecodeImpl {
    pub context_param: bool,
    pub context: ContextType,
    pub constraints: ConstraintSet,
}

pub open spec fn option_path_view(o: Option<TypePath>) -> Option<Seq<Seq<char>>> {
    match o {
        Some(p) => Some(p@),
        None => None,
    }
}

pub open spec fn header_of(context_param: bool, context: ContextType, c: ConstraintSet) -> HeaderView {
    HeaderView {
        context_param,
        context: context@,
        bounded: paths_view(c.bounded@),
        context_capability: option_path_view(c.context_capability),
    }
}

fn shape_arm(sh: &FieldShape, variant: Option<String>, discriminant: Option<u64>) -> (r: Arm)
    ensures
        r.variant == variant,
        r.discriminant == discriminant,
        r.style == shape_style(*sh),
        r@.members == shape_members(*sh),
{
    let mut members: Vec<Member> = Vec::new();
    match sh {
        FieldShape::Named(fs) => {
            let n = fs.len();
            let mut i: usize = 0;
            while i < n
                invariant
                    n == fs@.len(),
                    i <= n,
                    members_view(members@) == fs@.subrange(0, i as int).map_values(|f: NamedField| MemberView::Named(f.name@)),
                decreases n - i,
            {
                let ghost prev = members@;
                let m = Member::Named(fs[i].name.clone());
                members.push(m);
                assert(members@ == prev.push(m));
                assert(members_view(prev).len() == i);
                assert(members@[i as int] == m);
                assert(members_view(members@)[i as int] == MemberView::Named(fs@[i as int].name@));
                assert forall|j: int| 0 <= j < i implies #[trigger] members_view(members@)[j] == MemberView::Named(fs@[j].name@) by {
                    assert(members@[j] == prev[j]);
                    assert(members_view(prev)[j] == fs@.subrange(0, i as int).map_values(|f: NamedField| MemberView::Named(f.name@))[j]);
                }
                assert(members_view(members@) =~= fs@.subrange(0, i + 1).map_values(|f: NamedField| MemberView::Named(f.name@)));
                i = i + 1;
            }
            assert(fs@.subrange(0, n as int) =~= fs@);
        },
        FieldShape::Positional(ts) => {
            let n = ts.len();
            let mut i: usize = 0;
            while i < n
                invariant
                    n == ts@.len(),
                    i <= n,
                    members_view(members@) == Seq::new(i as nat, |j: int| MemberView::Position(j as nat)),
                decreases n - i,
            {
                let ghost prev = members@;
                members.push(Member::Position(i));
                assert(members@ == prev.push(Member::Position(i)));
                assert(members_view(prev).len() == i);
                assert(members@[i as int] == Member::Position(i));
                assert forall|j: int| 0 <= j < i implies #[trigger] members_view(members@)[j] == MemberView::Position(j as nat) by {
                    assert(members@[j] == prev[j]);
                    assert(members_view(prev)[j] == Seq::new(i as nat, |k: int| MemberView::Position(k as nat))[j]);
                }
                assert(members_view(members@) =~= Seq::new((i + 1) as nat, |j: int| MemberView::Position(j as nat)));
                i = i + 1;
            }
        },
        FieldShape::Unit => {},
    }
    let style = match sh {
        FieldShape::Named(_) => ArmStyle::Named,
        FieldShape::Positional(_) => ArmStyle::Positional,
        FieldShape::Unit => ArmStyle::Unit,
    };
    let r = Arm { variant, discriminant, style, members };
    assert(r@.members =~= shape_members(*sh));
    r
}

fn build_arms(d: &TypeDescriptor) -> (r: Vec<Arm>)
    ensures
        arms_view(r@) == arms_of(*d),
{
    let mut arms: Vec<Arm> = Vec::new();
    match &d.kind {
        TypeKind::Struct(sh) => {
            let a = shape_arm(sh, None, None);
            arms.push(a);
            assert(arms_view(arms@) =~= arms_of(*d));
        },
        TypeKind::Enum(vs) => {
            let n = vs.len();
            let mut i: usize = 0;
            while i < n
                invariant
                    n == vs@.len(),
                    i <= n,
                    d.kind == TypeKind::Enum(*vs),
                    arms_view(arms@) == arms_of(*d).subrange(0, i as int),
                decreases n - i,
            {
                let v: &Variant = &vs[i];
                let a = shape_arm(&v.shape, Some(v.name.clone()), Some(i as u64));
                let ghost prev = arms@;
                arms.push(a);
                assert(arms@ == prev.push(a));
                assert(arms_view(prev).len() == i);
                assert(arms@[i as int] == a);
                assert(arms_view(arms@)[i as int] == a@);
                assert(a@ == arms_of(*d)[i as int]);
                assert(arms_view(arms@) =~= arms_of(*d).subrange(0, i + 1));
                i = i + 1;
            }
            assert(arms_of(*d).subrange(0, n as int) =~= arms_of(*d));
        },
        TypeKind::Union => {
            assert(arms_view(arms@) =~= arms_of(*d));
        },
    }
    arms
}

fn context_of(mode: &ContextMode) -> (r: (bool, ContextType))
    ensures
        r.0 == !(mode@ is Fixed),
        r.1@ == (match mode@ {
            ModeView::Fixed(p) => ContextTypeView::Concrete(p),
            _ => ContextTypeView::Param,
        }),
{
    match mode {
        ContextMode::Fixed(p) => (false, ContextType::Concrete(p.duplicate())),
        _ => (true, ContextType::Param),
    }
}

/// Derives the encode implementation: each generic parameter and projected
/// field type bound by encode, and one arm per body or variant. No context is
/// involved. A union is refused.
pub fn encode_derive(d: &TypeDescriptor) -> (r: Result<EncodeImpl, ConfigError>)
    ensures
        d.kind is Union <==> r is Err,
        r matches Err(e) ==> e == ConfigError::UnsupportedShape,
        r matches Ok(e) ==> {
            &&& paths_view(e.constraints.bounded@) == bounded_types(*d)
            &&& e.constraints.context_capability is None
            &&& arms_view(e.arms@) == arms_of(*d)
        },
{
    if let TypeKind::Union = d.kind {
        return Err(ConfigError::UnsupportedShape);
    }
    Ok(EncodeImpl { constraints: encode_constraints(d), arms: build_arms(d) })
}

/// Derives the decode implementation under the context mode that the
/// declaration's configuration resolves to. A union is refused.
pub fn trait_derive(d: &TypeDescriptor) -> (r: Result<DecodeImpl, ConfigError>)
    ensures
        d.kind is Union <==> r is Err,
        r matches Err(e) ==> e == ConfigError::UnsupportedShape,
        r matches Ok(i) ==> {
            &&& header_of(i.context_param, i.context, i.constraints) == decode_header(*d)
            &&& arms_view(i.arms@) == arms_of(*d)
        },
{
    if let TypeKind::Union = d.kind {
        return Err(ConfigError::UnsupportedShape);
    }
    let mode = resolve_context(&d.context_config);
    let (context_param, context) = context_of(&mode);
    let constraints = decode_constraints(d, &mode);
    Ok(DecodeImpl { context_param, context, constraints, arms: build_arms(d) })
}

/// Derives the borrowing decode implementation, which calls decode: the same
/// context parameter, context type and bounds as decode's. A union is refused.
pub fn borrow_decode_from_trait_decode(d: &TypeDescriptor) -> (r: Result<BorrowDecodeImpl, ConfigError>)
    ensures
        d.kind is Union <==> r is Err,
        r matches Err(e) ==> e == ConfigError::UnsupportedShape,
        r matches Ok(b) ==> header_of(b.context_param, b.context, b.constraints) == decode_header(*d),
{
    if let TypeKind::Union = d.kind {
        return Err(ConfigError::UnsupportedShape);
    }
    let mode = resolve_context(&d.context_config);
    let (context_param, context) = context_of(&mode);
    let constraints = decode_constraints(d, &mode);
    Ok(BorrowDecodeImpl { context_param, context, constraints })
}

/// With a concrete context type, decoding introduces no context parameter,
/// takes that type as its context, and puts no capability bound on it; with
/// a capability, it introduces the parameter and bounds it by that
/// capability; with neither, the parameter stays unbounded.
pub proof fn lemma_context_threading(d: TypeDescriptor)
    ensures
        d.context_config@ matches crate::config::ConfigView::ConcreteType(p) ==> {
            &&& !decode_header(d).context_param
            &&& decode_header(d).context == ContextTypeView::Concrete(p)
            &&& decode_header(d).context_capability is None
        },
        d.context_config@ matches crate::config::ConfigView::NamedCapability(p) ==> {
            &&& decode_header(d).context_param
            &&& decode_header(d).context == ContextTypeView::Param
            &&& decode_header(d).context_capability == Some(p)
        },
        d.context_config@ is Unspecified ==> {
            &&& decode_header(d).context_param
            &&& decode_header(d).context == ContextTypeView::Param
            &&& decode_header(d).context_capability is None
        },
{
}

} // verus!

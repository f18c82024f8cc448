//! The bounds that a derived implementation needs: each generic parameter,
//! then each projected field type, bound by the codec trait, without repeats;
//! for a context mode with a capability, that capability on the context.
use vstd::prelude::*;
use crate::schema::{
    TypePath, FieldShape, TypeKind, TypeDescriptor, is_projected, shape_types, variants_types,
    field_types, generic_paths,
};
use crate::config::{ContextMode, ModeView};

verus! {

pub open spec fn paths_view(v: Seq<TypePath>) -> Seq<Seq<Seq<char>>> {
    v.map_values(|p: TypePath| p@)
}

/// The projected paths of `s`, in order.
pub open spec fn projected_only(s: Seq<Seq<Seq<char>>>) -> Seq<Seq<Seq<char>>>
    decreases s.len(),
{
    if s.len() == 0 {
        Seq::empty()
    } else if is_projected(s.last()) {
        projected_only(s.drop_last()).push(s.last())
    } else {
        projected_only(s.drop_last())
    }
}

/// `s` with each later repeat of an element left out.
pub open spec fn dedup<A>(s: Seq<A>) -> Seq<A>
    decreases s.len(),
{
    if s.len() == 0 {
        Seq::empty()
    } else if dedup(s.drop_last()).contains(s.last()) {
        dedup(s.drop_last())
    } else {
        dedup(s.drop_last()).push(s.last())
    }
}

/// Every type that must support the codec trait: the generic parameters, then
/// the projected field types, each once, at its first place.
pub open spec fn bounded_types(d: TypeDescriptor) -> Seq<Seq<Seq<char>>> {
    dedup(generic_paths(d) + projected_only(field_types(d)))
}

/// Leaving out repeats keeps every element and repeats none.
pub proof fn lemma_dedup<A>(s: Seq<A>)
    ensures
        dedup(s).no_duplicates(),
        forall|x: A| s.contains(x) <==> dedup(s).contains(x),
    decreases s.len(),
{
    if s.len() > 0 {
        let init = s.drop_last();
        lemma_dedup(init);
        assert forall|x: A| s.contains(x) <==> (init.contains(x) || x == s.last()) by {
            if s.contains(x) {
                let j = choose|j: int| 0 <= j < s.len() && s[j] == x;
                if j < s.len() - 1 {
                    assert(init[j] == x);
                }
            }
            if init.contains(x) {
                let j = choose|j: int| 0 <= j < init.len() && init[j] == x;
                assert(s[j] == x);
            }
            if x == s.last() {
                assert(s[s.len() - 1] == x);
            }
        }
        let d = dedup(init);
        if !d.contains(s.last()) {
            let e = d.push(s.last());
            assert forall|x: A| e.contains(x) <==> (d.contains(x) || x == s.last()) by {
                if e.contains(x) {
                    let j = choose|j: int| 0 <= j < e.len() && e[j] == x;
                    if j < d.len() {
                        assert(d[j] == x);
                    }
                }
                if d.contains(x) {
                    let j = choose|j: int| 0 <= j < d.len() && d[j] == x;
                    assert(e[j] == x);
                }
                if x == s.last() {
                    assert(e[e.len() - 1] == x);
                }
            }
        }
    }
}

/// The bounds of one implementation.
#[derive(Clone, Debug, PartialEq, Eq)]
pub struct ConstraintSet {
    /// The types that must support the trait being implemented (for decoding,
    /// under the implementation's context), in order and without repeats.
    pub bounded: Vec<TypePath>,
    /// The capability that the context parameter must expose, if any.
    pub context_capability: Option<TypePath>,
}

fn contains_path(v: &Vec<TypePath>, p: &TypePath) -> (r: bool)
    ensures
        r == paths_view(v@).contains(p@),
{
    let n = v.len();
    let mut i: usize = 0;
    while i < n
        invariant
            n == v@.len(),
            i <= n,
            forall|j: int| 0 <= j < i ==> paths_view(v@)[j] != p@,
        decreases n - i,
    {
        if v[i].same_as(p) {
            assert(paths_view(v@)[i as int] == p@);
            return true;
        }
        i = i + 1;
    }
    false
}

fn push_shape_types(out: &mut Vec<TypePath>, sh: &FieldShape)
    ensures
        paths_view(final(out)@) == paths_view(old(out)@) + shape_types(*sh),
{
    let ghost start = paths_view(out@);
    match sh {
        FieldShape::Named(fs) => {
            let n = fs.len();
            let ghost tys = fs@.map_values(|f: crate::schema::NamedField| f.ty@);
            assert(tys == shape_types(*sh));
            let mut i: usize = 0;
            while i < n
                invariant
                    n == fs@.len(),
                    tys == fs@.map_values(|f: crate::schema::NamedField| f.ty@),
                    i <= n,
                    paths_view(out@) == start + tys.subrange(0, i as int),
                decreases n - i,
            {
                let ghost prev = out@;
                let c = fs[i].ty.duplicate();
                assert(c@ == tys[i as int]);
                out.push(c);
                assert(out@ == prev.push(c));
                assert(paths_view(out@) =~= paths_view(prev).push(c@));
                assert(paths_view(out@) =~= start + tys.subrange(0, i + 1));
                i = i + 1;
            }
        },
        FieldShape::Positional(ts) => {
            let n = ts.len();
            let ghost tys = ts@.map_values(|t: TypePath| t@);
            assert(tys == shape_types(*sh));
            let mut i: usize = 0;
            while i < n
                invariant
                    n == ts@.len(),
                    tys == ts@.map_values(|t: TypePath| t@),
                    i <= n,
                    paths_view(out@) == start + tys.subrange(0, i as int),
                decreases n - i,
            {
                let ghost prev = out@;
                let c = ts[i].duplicate();
                assert(c@ == tys[i as int]);
                out.push(c);
                assert(out@ == prev.push(c));
                assert(paths_view(out@) =~= paths_view(prev).push(c@));
                assert(paths_view(out@) =~= start + tys.subrange(0, i + 1));
                i = i + 1;
            }
        },
        FieldShape::Unit => {},
    }
    assert(shape_types(*sh).subrange(0, shape_types(*sh).len() as int) =~= shape_types(*sh));
    assert(paths_view(out@) =~= start + shape_types(*sh));
}

/// The field types of a shape, in declaration order.
pub fn shape_type_list(sh: &FieldShape) -> (r: Vec<TypePath>)
    ensures
        paths_view(r@) == shape_types(*sh),
{
    let mut out: Vec<TypePath> = Vec::new();
    push_shape_types(&mut out, sh);
    assert(paths_view(out@) =~= shape_types(*sh));
    out
}

/// Every field type of the declaration, in declaration order.
pub fn collect_field_types(d: &TypeDescriptor) -> (r: Vec<TypePath>)
    ensures
        paths_view(r@) == field_types(*d),
{
    let mut out: Vec<TypePath> = Vec::new();
    assert(paths_view(out@) =~= Seq::<Seq<Seq<char>>>::empty());
    match &d.kind {
        TypeKind::Struct(sh) => {
            push_shape_types(&mut out, sh);
            assert(paths_view(out@) =~= field_types(*d));
        },
        TypeKind::Enum(vs) => {
            let n = vs.len();
            let mut i: usize = 0;
            assert(vs@.subrange(0, 0) =~= Seq::<crate::schema::Variant>::empty());
            while i < n
                invariant
                    n == vs@.len(),
                    i <= n,
                    paths_view(out@) == variants_types(vs@.subrange(0, i as int)),
                decreases n - i,
            {
                push_shape_types(&mut out, &vs[i].shape);
                assert(vs@.subrange(0, i + 1).drop_last() =~= vs@.subrange(0, i as int));
                i = i + 1;
            }
            assert(vs@.subrange(0, n as int) =~= vs@);
        },
        TypeKind::Union => {},
    }
    out
}

fn push_unique(out: &mut Vec<TypePath>, p: TypePath)
    ensures
        paths_view(final(out)@) == (if paths_view(old(out)@).contains(p@) {
            paths_view(old(out)@)
        } else {
            paths_view(old(out)@).push(p@)
        }),
{
    if !contains_path(out, &p) {
        out.push(p);
        assert(paths_view(out@) =~= paths_view(old(out)@).push(p@));
    }
}

/// The types that the implementation bounds by the codec trait: each generic
/// parameter, then each projected field type, once each.
pub fn collect_bounded(d: &TypeDescriptor) -> (r: Vec<TypePath>)
    ensures
        paths_view(r@) == bounded_types(*d),
        paths_view(r@).no_duplicates(),
        forall|p: Seq<Seq<char>>|
            (generic_paths(*d) + projected_only(field_types(*d))).contains(p) <==> #[trigger] paths_view(r@).contains(p),
{
    let ghost gs = generic_paths(*d);
    let mut out: Vec<TypePath> = Vec::new();
    let n = d.generics.len();
    let mut i: usize = 0;
    assert(paths_view(out@) =~= dedup(gs.subrange(0, 0)));
    while i < n
        invariant
            n == d.generics@.len(),
            gs == generic_paths(*d),
            i <= n,
            paths_view(out@) == dedup(gs.subrange(0, i as int)),
        decreases n - i,
    {
        push_unique(&mut out, TypePath::single(&d.generics[i]));
        assert(gs.subrange(0, i + 1).drop_last() =~= gs.subrange(0, i as int));
        i = i + 1;
    }
    assert(gs.subrange(0, n as int) =~= gs);
    let fts = collect_field_types(d);
    let ghost ft = field_types(*d);
    let m = fts.len();
    let mut j: usize = 0;
    assert(gs + projected_only(ft.subrange(0, 0)) =~= gs);
    while j < m
        invariant
            m == fts@.len(),
            paths_view(fts@) == ft,
            ft == field_types(*d),
            gs == generic_paths(*d),
            j <= m,
            paths_view(out@) == dedup(gs + projected_only(ft.subrange(0, j as int))),
        decreases m - j,
    {
        let t = &fts[j];
        assert(ft.subrange(0, j + 1).drop_last() =~= ft.subrange(0, j as int));
        assert(ft.subrange(0, j + 1).last() == t@);
        if t.projected() {
            let ghost before = gs + projected_only(ft.subrange(0, j as int));
            assert((before.push(t@)).drop_last() =~= before);
            assert(gs + projected_only(ft.subrange(0, j + 1)) =~= before.push(t@));
            push_unique(&mut out, t.duplicate());
        } else {
            assert(!is_projected(ft.subrange(0, j + 1).last()));
            assert(projected_only(ft.subrange(0, j + 1)) == projected_only(ft.subrange(0, j as int)));
        }
        j = j + 1;
    }
    assert(ft.subrange(0, m as int) =~= ft);
    proof {
        lemma_dedup(gs + projected_only(ft));
    }
    out
}

/// The bounds of the encode implementation: the bounded types only, since
/// encoding never involves a context.
pub fn encode_constraints(d: &TypeDescriptor) -> (r: ConstraintSet)
    ensures
        paths_view(r.bounded@) == bounded_types(*d),
        r.context_capability is None,
{
    ConstraintSet { bounded: collect_bounded(d), context_capability: None }
}

/// The bounds of the decode implementation under `mode`: the bounded types,
/// then, for a mode with a capability, that capability on the context.
pub fn decode_constraints(d: &TypeDescriptor, mode: &ContextMode) -> (r: ConstraintSet)
    ensures
        paths_view(r.bounded@) == bounded_types(*d),
        match (r.context_capability, mode@) {
            (Some(c), ModeView::GenericWithCapability(p)) => c@ == p,
            (None, ModeView::Generic) => true,
            (None, ModeView::Fixed(_)) => true,
            _ => false,
        },
{
    let bounded = collect_bounded(d);
    let context_capability = match mode {
        ContextMode::GenericWithCapability(p) => Some(p.duplicate()),
        _ => None,
    };
    ConstraintSet { bounded, context_capability }
}

} // verus!

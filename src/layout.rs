//! The wire layout of a declared type: its declaration's shape with each
//! field type replaced by the codec that the caller's table gives it.
use vstd::prelude::*;
use crate::schema::{TypePath, FieldShape, TypeKind, TypeDescriptor, Variant, shape_types};
use crate::codec::{Layout, LayoutView, LeafCodec};

verus! {

/// The codec of one field type.
#[derive(Clone, Debug, PartialEq, Eq)]
pub struct CodecEntry {
    pub ty: TypePath,
    pub codec: LeafCodec,
}

pub open spec fn registry_view(reg: Seq<CodecEntry>) -> Seq<(Seq<Seq<char>>, LeafCodec)> {
    reg.map_values(|e: CodecEntry| (e.ty@, e.codec))
}

/// The codec that the first entry for `p` gives.
pub open spec fn codec_for(reg: Seq<(Seq<Seq<char>>, LeafCodec)>, p: Seq<Seq<char>>) -> Option<LeafCodec>
    decreases reg.len(),
{
    if reg.len() == 0 {
        None
    } else if reg[0].0 == p {
        Some(reg[0].1)
    } else {
        codec_for(reg.drop_first(), p)
    }
}

/// The codecs of the types `tys`, or `None` where one has no entry.
pub open spec fn codecs_for(reg: Seq<(Seq<Seq<char>>, LeafCodec)>, tys: Seq<Seq<Seq<char>>>) -> Option<Seq<LeafCodec>>
    decreases tys.len(),
{
    if tys.len() == 0 {
        Some(Seq::empty())
    } else {
        match (codecs_for(reg, tys.drop_last()), codec_for(reg, tys.last())) {
            (Some(cs), Some(c)) => Some(cs.push(c)),
            _ => None,
        }
    }
}

/// The arms of the variants `vs`, or `None` where a field type has no entry.
pub open spec fn variant_arms(reg: Seq<(Seq<Seq<char>>, LeafCodec)>, vs: Seq<Variant>) -> Option<Seq<Seq<LeafCodec>>>
    decreases vs.len(),
{
    if vs.len() == 0 {
        Some(Seq::empty())
    } else {
        match (variant_arms(reg, vs.drop_last()), codecs_for(reg, shape_types(vs.last().shape))) {
            (Some(a), Some(cs)) => Some(a.push(cs)),
            _ => None,
        }
    }
}

/// The layout of a declaration: a struct has one untagged body, an enum one
/// tagged arm per variant in declaration order. `None` for a union, or where
/// a field type has no entry.
pub open spec fn layout_spec(reg: Seq<(Seq<Seq<char>>, LeafCodec)>, d: TypeDescriptor) -> Option<LayoutView> {
    match d.kind {
        TypeKind::Struct(sh) => match codecs_for(reg, shape_types(sh)) {
            Some(cs) => Some(LayoutView { tagged: false, arms: seq![cs] }),
            None => None,
        },
        TypeKind::Enum(vs) => match variant_arms(reg, vs@) {
            Some(a) => Some(LayoutView { tagged: true, arms: a }),
            None => None,
        },
        TypeKind::Union => None,
    }
}

fn lookup_codec(reg: &Vec<CodecEntry>, p: &TypePath) -> (r: Option<LeafCodec>)
    ensures
        r == codec_for(registry_view(reg@), p@),
{
    let ghost rv = registry_view(reg@);
    let n = reg.len();
    let mut i: usize = 0;
    assert(rv.subrange(0, n as int) =~= rv);
    while i < n
        invariant
            n == reg@.len(),
            rv == registry_view(reg@),
            i <= n,
            codec_for(rv, p@) == codec_for(rv.subrange(i as int, n as int), p@),
        decreases n - i,
    {
        let e = &reg[i];
        proof {
            let rest = rv.subrange(i as int, n as int);
            assert(rest[0] == (e.ty@, e.codec));
            assert(rest.drop_first() =~= rv.subrange(i + 1, n as int));
        }
        if e.ty.same_as(p) {
            return Some(e.codec);
        }
        i = i + 1;
    }
    None
}

fn shape_codecs(reg: &Vec<CodecEntry>, sh: &FieldShape) -> (r: Option<Vec<LeafCodec>>)
    ensures
        match (r, codecs_for(registry_view(reg@), shape_types(*sh))) {
            (Some(cs), Some(ds)) => cs@ == ds,
            (None, None) => true,
            _ => false,
        },
{
    let types = crate::constraints::shape_type_list(sh);
    let ghost tys = shape_types(*sh);
    let n = types.len();
    let mut out: Vec<LeafCodec> = Vec::new();
    let mut i: usize = 0;
    assert(tys.subrange(0, 0) =~= Seq::<Seq<Seq<char>>>::empty());
    while i < n
        invariant
            n == types@.len(),
            crate::constraints::paths_view(types@) == tys,
            tys == shape_types(*sh),
            i <= n,
            codecs_for(registry_view(reg@), tys.subrange(0, i as int)) == Some(out@),
        decreases n - i,
    {
        assert(tys.subrange(0, i + 1).drop_last() =~= tys.subrange(0, i as int));
        assert(tys.subrange(0, i + 1).last() == types@[i as int]@);
        match lookup_codec(reg, &types[i]) {
            None => {
                proof {
                    lemma_codecs_none_persists(registry_view(reg@), tys, i + 1);
                }
                return None;
            },
            Some(c) => {
                out.push(c);
            },
        }
        i = i + 1;
    }
    assert(tys.subrange(0, n as int) =~= tys);
    Some(out)
}

proof fn lemma_codecs_none_persists(reg: Seq<(Seq<Seq<char>>, LeafCodec)>, tys: Seq<Seq<Seq<char>>>, k: int)
    requires
        0 <= k <= tys.len(),
    ensures
        codecs_for(reg, tys.subrange(0, k)) is None ==> codecs_for(reg, tys) is None,
    decreases tys.len() - k,
{
    if k < tys.len() {
        assert(tys.subrange(0, k + 1).drop_last() =~= tys.subrange(0, k));
        lemma_codecs_none_persists(reg, tys, k + 1);
    } else {
        assert(tys.subrange(0, k) =~= tys);
    }
}

proof fn lemma_arms_none_persists(reg: Seq<(Seq<Seq<char>>, LeafCodec)>, vs: Seq<Variant>, k: int)
    requires
        0 <= k <= vs.len(),
    ensures
        variant_arms(reg, vs.subrange(0, k)) is None ==> variant_arms(reg, vs) is None,
    decreases vs.len() - k,
{
    if k < vs.len() {
        assert(vs.subrange(0, k + 1).drop_last() =~= vs.subrange(0, k));
        lemma_arms_none_persists(reg, vs, k + 1);
    } else {
        assert(vs.subrange(0, k) =~= vs);
    }
}

/// The wire layout of a declaration under the codec table `reg`.
pub fn layout_of(d: &TypeDescriptor, reg: &Vec<CodecEntry>) -> (r: Option<Layout>)
    ensures
        match (r, layout_spec(registry_view(reg@), *d)) {
            (Some(l), Some(m)) => l@ == m,
            (None, None) => true,
            _ => false,
        },
{
    match &d.kind {
        TypeKind::Struct(sh) => match shape_codecs(reg, sh) {
            None => None,
            Some(cs) => {
                let mut arms: Vec<Vec<LeafCodec>> = Vec::new();
                arms.push(cs);
                let l = Layout { tagged: false, arms };
                assert(l@.arms =~= seq![cs@]);
                Some(l)
            },
        },
        TypeKind::Enum(vs) => {
            let ghost rv = registry_view(reg@);
            let n = vs.len();
            let mut arms: Vec<Vec<LeafCodec>> = Vec::new();
            let mut i: usize = 0;
            assert(vs@.subrange(0, 0) =~= Seq::<Variant>::empty());
            assert(arms@.map_values(|a: Vec<LeafCodec>| a@) =~= Seq::<Seq<LeafCodec>>::empty());
            while i < n
                invariant
                    n == vs@.len(),
                    rv == registry_view(reg@),
                    d.kind == TypeKind::Enum(*vs),
                    i <= n,
                    variant_arms(rv, vs@.subrange(0, i as int)) == Some(arms@.map_values(|a: Vec<LeafCodec>| a@)),
                decreases n - i,
            {
                assert(vs@.subrange(0, i + 1).drop_last() =~= vs@.subrange(0, i as int));
                assert(vs@.subrange(0, i + 1).last() == vs@[i as int]);
                match shape_codecs(reg, &vs[i].shape) {
                    None => {
                        proof {
                            let pre = vs@.subrange(0, i + 1);
                            assert(codecs_for(rv, shape_types(pre.last().shape)) is None);
                            assert(variant_arms(rv, pre) is None);
                            lemma_arms_none_persists(rv, vs@, i + 1);
                        }
                        return None;
                    },
                    Some(cs) => {
                        let ghost prev = arms@;
                        arms.push(cs);
                        assert(arms@ == prev.push(cs));
                        assert(arms@.map_values(|a: Vec<LeafCodec>| a@) =~= prev.map_values(|a: Vec<LeafCodec>| a@).push(cs@));
                    },
                }
                i = i + 1;
            }
            assert(vs@.subrange(0, n as int) =~= vs@);
            Some(Layout { tagged: true, arms })
        },
        TypeKind::Union => None,
    }
}

} // verus!

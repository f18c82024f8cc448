//! The context annotation on a declaration, and the context mode it resolves to.
use vstd::prelude::*;
use crate::schema::{TypePath, ContextConfig};

verus! {

/// One `key = path` pair of the context annotation.
#[derive(Clone, Debug, PartialEq, Eq)]
pub struct AnnotationEntry {
    pub key: String,
    pub value: TypePath,
}

impl View for AnnotationEntry {
    type V = (Seq<char>, Seq<Seq<char>>);

    open spec fn view(&self) -> (Seq<char>, Seq<Seq<char>>) {
        (self.key@, self.value@)
    }
}

/// A declaration that no codec can be derived for. The index is that of the
/// offending annotation entry.
#[derive(Clone, Copy, Debug, PartialEq, Eq, Structural)]
pub enum ConfigError {
    /// The annotation has a key other than `capability` and `context_type`.
    UnrecognizedKey(usize),
    /// The annotation gives both `capability` and `context_type`.
    ConflictingKeys(usize),
    /// The declaration is a union.
    UnsupportedShape,
}

pub enum ConfigView {
    Unspecified,
    NamedCapability(Seq<Seq<char>>),
    ConcreteType(Seq<Seq<char>>),
}

impl View for ContextConfig {
    type V = ConfigView;

    open spec fn view(&self) -> ConfigView {
        match self {
            ContextConfig::Unspecified => ConfigView::Unspecified,
            ContextConfig::NamedCapability(p) => ConfigView::NamedCapability(p@),
            ContextConfig::ConcreteType(p) => ConfigView::ConcreteType(p@),
        }
    }
}

pub open spec fn capability_key() -> Seq<char> {
    "capability"@
}

pub open spec fn context_type_key() -> Seq<char> {
    "context_type"@
}

/// Takes entry `i`, `(k, p)`, into configuration `c`.
pub open spec fn config_step(c: ConfigView, k: Seq<char>, p: Seq<Seq<char>>, i: int) -> Result<ConfigView, ConfigError> {
    if k == capability_key() {
        match c {
            ConfigView::ConcreteType(_) => Err(ConfigError::ConflictingKeys(i as usize)),
            _ => Ok(ConfigView::NamedCapability(p)),
        }
    } else if k == context_type_key() {
        match c {
            ConfigView::NamedCapability(_) => Err(ConfigError::ConflictingKeys(i as usize)),
            _ => Ok(ConfigView::ConcreteType(p)),
        }
    } else {
        Err(ConfigError::UnrecognizedKey(i as usize))
    }
}

/// The configuration that the entries give, read in order: the first entry
/// that is unknown or conflicts with an earlier one is the error; otherwise
/// the last path given counts.
pub open spec fn parse_entries(es: Seq<(Seq<char>, Seq<Seq<char>>)>) -> Result<ConfigView, ConfigError>
    decreases es.len(),
{
    if es.len() == 0 {
        Ok(ConfigView::Unspecified)
    } else {
        match parse_entries(es.drop_last()) {
            Err(e) => Err(e),
            Ok(c) => config_step(c, es.last().0, es.last().1, es.len() - 1),
        }
    }
}

pub open spec fn has_key(es: Seq<(Seq<char>, Seq<Seq<char>>)>, k: Seq<char>) -> bool {
    exists|i: int| 0 <= i < es.len() && (#[trigger] es[i]).0 == k
}

/// Reads the context annotation's entries into a configuration.
pub fn parse_context_config(entries: &Vec<AnnotationEntry>) -> (r: Result<ContextConfig, ConfigError>)
    ensures
        match (r, parse_entries(entries@.map_values(|e: AnnotationEntry| e@))) {
            (Ok(c), Ok(d)) => c@ == d,
            (Err(e), Err(f)) => e == f,
            _ => false,
        },
{
    let ghost es = entries@.map_values(|e: AnnotationEntry| e@);
    let capability = "capability".to_owned();
    let context_type = "context_type".to_owned();
    let n = entries.len();
    let mut cfg = ContextConfig::Unspecified;
    let mut i: usize = 0;
    assert(es.subrange(0, 0) =~= Seq::<(Seq<char>, Seq<Seq<char>>)>::empty());
    while i < n
        invariant
            n == entries@.len(),
            es == entries@.map_values(|e: AnnotationEntry| e@),
            capability@ == capability_key(),
            context_type@ == context_type_key(),
            i <= n,
            parse_entries(es.subrange(0, i as int)) == Ok::<ConfigView, ConfigError>(cfg@),
        decreases n - i,
    {
        let e = &entries[i];
        proof {
            let pre = es.subrange(0, i + 1);
            assert(pre.drop_last() =~= es.subrange(0, i as int));
            assert(pre.last() == e@);
            lemma_error_persists(es, i + 1);
        }
        if e.key == capability {
            if let ContextConfig::ConcreteType(_) = cfg {
                return Err(ConfigError::ConflictingKeys(i));
            }
            cfg = ContextConfig::NamedCapability(e.value.duplicate());
        } else if e.key == context_type {
            if let ContextConfig::NamedCapability(_) = cfg {
                return Err(ConfigError::ConflictingKeys(i));
            }
            cfg = ContextConfig::ConcreteType(e.value.duplicate());
        } else {
            return Err(ConfigError::UnrecognizedKey(i));
        }
        i = i + 1;
    }
    assert(es.subrange(0, n as int) =~= es);
    Ok(cfg)
}

proof fn lemma_error_persists(es: Seq<(Seq<char>, Seq<Seq<char>>)>, k: int)
    requires
        0 <= k <= es.len(),
    ensures
        parse_entries(es.subrange(0, k)) is Err ==> parse_entries(es) == parse_entries(es.subrange(0, k)),
    decreases es.len() - k,
{
    if k < es.len() {
        lemma_error_persists(es, k + 1);
        assert(es.subrange(0, k + 1).drop_last() =~= es.subrange(0, k));
    } else {
        assert(es.subrange(0, k) =~= es);
    }
}

/// An annotation that gives both a capability and a concrete context type is
/// refused; it never settles on one of them.
pub proof fn lemma_keys_exclusive(es: Seq<(Seq<char>, Seq<Seq<char>>)>)
    requires
        has_key(es, capability_key()),
        has_key(es, context_type_key()),
    ensures
        parse_entries(es) is Err,
{
    lemma_parse_tracks_keys(es);
}

proof fn lemma_parse_tracks_keys(es: Seq<(Seq<char>, Seq<Seq<char>>)>)
    ensures
        parse_entries(es) matches Ok(c) ==> match c {
            ConfigView::Unspecified => !has_key(es, capability_key()) && !has_key(es, context_type_key()),
            ConfigView::NamedCapability(_) => !has_key(es, context_type_key()),
            ConfigView::ConcreteType(_) => !has_key(es, capability_key()),
        },
    decreases es.len(),
{
    if es.len() > 0 {
        let init = es.drop_last();
        lemma_parse_tracks_keys(init);
        if let Ok(c) = parse_entries(es) {
            let k = es.last().0;
            assert(capability_key() != context_type_key()) by {
                reveal_strlit("capability");
                reveal_strlit("context_type");
                assert(capability_key().len() != context_type_key().len());
            }
            assert forall|key: Seq<char>| has_key(es, key) implies has_key(init, key) || k == key by {
                let j = choose|j: int| 0 <= j < es.len() && (#[trigger] es[j]).0 == key;
                if j < es.len() - 1 {
                    assert(init[j] == es[j]);
                }
            }
        }
    }
}

/// How decoding reaches its context.
#[derive(Clone, Debug, PartialEq, Eq)]
pub enum ContextMode {
    /// A fresh type parameter of the implementation, with no bound.
    Generic,
    /// A fresh type parameter, bound to expose this capability.
    GenericWithCapability(TypePath),
    /// This type, with no parameter introduced.
    Fixed(TypePath),
}

pub enum ModeView {
    Generic,
    GenericWithCapability(Seq<Seq<char>>),
    Fixed(Seq<Seq<char>>),
}

impl View for ContextMode {
    type V = ModeView;

    open spec fn view(&self) -> ModeView {
        match self {
            ContextMode::Generic => ModeView::Generic,
            ContextMode::GenericWithCapability(p) => ModeView::GenericWithCapability(p@),
            ContextMode::Fixed(p) => ModeView::Fixed(p@),
        }
    }
}

pub open spec fn resolve_spec(c: ConfigView) -> ModeView {
    match c {
        ConfigView::Unspecified => ModeView::Generic,
        ConfigView::NamedCapability(p) => ModeView::GenericWithCapability(p),
        ConfigView::ConcreteType(p) => ModeView::Fixed(p),
    }
}

/// The context mode that a configuration resolves to.
pub fn resolve_context(c: &ContextConfig) -> (r: ContextMode)
    ensures
        r@ == resolve_spec(c@),
{
    match c {
        ContextConfig::Unspecified => ContextMode::Generic,
        ContextConfig::NamedCapability(p) => ContextMode::GenericWithCapability(p.duplicate()),
        ContextConfig::ConcreteType(p) => ContextMode::Fixed(p.duplicate()),
    }
}

} // verus!

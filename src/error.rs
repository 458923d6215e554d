//! Conversion failures, and the trail that locates one inside the document.
use vstd::prelude::*;
use crate::value::SourceKind;

verus! {

/// One step from a container to a part of it.
#[derive(Clone, Copy, PartialEq, Eq, Debug, Structural)]
pub enum PathStep {
    /// The element at this position of a sequence.
    Item(usize),
    /// The key of the pair at this position of a mapping.
    Key(usize),
    /// The value of the pair at this position of a mapping.
    Entry(usize),
}

/// Why a document could not be handed to the host.
#[derive(Clone, PartialEq, Debug)]
pub enum BridgeError {
    /// The text is not YAML; the parser's diagnostic.
    Grammar { message: String },
    /// An integer scalar outside the host's 64-bit signed range.
    Range { value: i128, path: Vec<PathStep> },
    /// A mapping key that the host cannot index a table by.
    UnsupportedKey { key_kind: SourceKind, path: Vec<PathStep> },
    /// The document nests deeper than the configured limit.
    DepthExceeded { limit: usize, path: Vec<PathStep> },
}

/// The mathematical form of a failure.
pub enum ErrModel {
    Grammar(Seq<char>),
    Range(i128, Seq<PathStep>),
    UnsupportedKey(SourceKind, Seq<PathStep>),
    DepthExceeded(usize, Seq<PathStep>),
}

impl BridgeError {
    pub open spec fn view(&self) -> ErrModel {
        match self {
            BridgeError::Grammar { message } => ErrModel::Grammar(message@),
            BridgeError::Range { value, path } => ErrModel::Range(*value, path@),
            BridgeError::UnsupportedKey { key_kind, path } => ErrModel::UnsupportedKey(
                *key_kind,
                path@,
            ),
            BridgeError::DepthExceeded { limit, path } => ErrModel::DepthExceeded(*limit, path@),
        }
    }

    /// Places the failure one step further down: `step` goes in front of its trail.
    pub fn within(self, step: PathStep) -> (r: BridgeError)
        ensures
            r@ == at(step, self@),
    {
        match self {
            BridgeError::Grammar { message } => BridgeError::Grammar { message },
            BridgeError::Range { value, mut path } => {
                path.insert(0, step);
                BridgeError::Range { value, path }
            },
            BridgeError::UnsupportedKey { key_kind, mut path } => {
                path.insert(0, step);
                BridgeError::UnsupportedKey { key_kind, path }
            },
            BridgeError::DepthExceeded { limit, mut path } => {
                path.insert(0, step);
                BridgeError::DepthExceeded { limit, path }
            },
        }
    }
}

/// The failure `e`, seen from the container that `step` leads out of.
pub open spec fn at(step: PathStep, e: ErrModel) -> ErrModel {
    match e {
        ErrModel::Grammar(m) => ErrModel::Grammar(m),
        ErrModel::Range(v, p) => ErrModel::Range(v, p.insert(0, step)),
        ErrModel::UnsupportedKey(k, p) => ErrModel::UnsupportedKey(k, p.insert(0, step)),
        ErrModel::DepthExceeded(l, p) => ErrModel::DepthExceeded(l, p.insert(0, step)),
    }
}

} // verus!

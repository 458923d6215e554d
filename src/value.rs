//! The two value models: the parsed YAML document and the host's dynamic value,
//! each with a mathematical view.
use vstd::prelude::*;

verus! {

/// Which variant a parsed YAML value is.
#[derive(Clone, Copy, PartialEq, Eq, Debug, Structural)]
pub enum SourceKind {
    Null,
    Bool,
    Int,
    Float,
    Str,
    Sequence,
    Mapping,
}

/// Which variant a host value is.
#[derive(Clone, Copy, PartialEq, Eq, Debug, Structural)]
pub enum HostKind {
    Nil,
    NullSentinel,
    Bool,
    Int,
    Float,
    Str,
    Array,
    Table,
}

/// A parsed YAML document value. Floats are held as their IEEE-754 bit pattern;
/// integers in a range wide enough for every signed or unsigned 64-bit scalar.
#[derive(PartialEq, Debug)]
pub enum YamlValue {
    Null,
    Bool(bool),
    Int(i128),
    Float(u64),
    Str(String),
    Sequence(Vec<YamlValue>),
    Mapping(Vec<(YamlValue, YamlValue)>),
}

impl YamlValue {
    pub open spec fn spec_kind(&self) -> SourceKind {
        match self {
            YamlValue::Null => SourceKind::Null,
            YamlValue::Bool(_) => SourceKind::Bool,
            YamlValue::Int(_) => SourceKind::Int,
            YamlValue::Float(_) => SourceKind::Float,
            YamlValue::Str(_) => SourceKind::Str,
            YamlValue::Sequence(_) => SourceKind::Sequence,
            YamlValue::Mapping(_) => SourceKind::Mapping,
        }
    }

    /// The variant of this value.
    pub fn kind(&self) -> (r: SourceKind)
        ensures
            r == self.spec_kind(),
    {
        match self {
            YamlValue::Null => SourceKind::Null,
            YamlValue::Bool(_) => SourceKind::Bool,
            YamlValue::Int(_) => SourceKind::Int,
            YamlValue::Float(_) => SourceKind::Float,
            YamlValue::Str(_) => SourceKind::Str,
            YamlValue::Sequence(_) => SourceKind::Sequence,
            YamlValue::Mapping(_) => SourceKind::Mapping,
        }
    }

    /// A scalar is every variant but a sequence or a mapping.
    pub open spec fn is_scalar(&self) -> bool {
        !(self is Sequence) && !(self is Mapping)
    }
}

/// A key of a host table: any host value but nil and NaN. An array or table key
/// is an object of its own, equal to no other key; a float key with an integral
/// value in range is stored as that integer.
#[derive(PartialEq, Debug)]
pub enum HostKey {
    NullSentinel,
    Bool(bool),
    Int(i64),
    Float(u64),
    Str(String),
    Array(Vec<HostValue>),
    Table(Vec<(HostKey, HostValue)>),
}

/// A value of the host runtime. Floats are held as their IEEE-754 bit pattern.
/// A table keeps its entries in the order in which their keys first appeared.
#[derive(PartialEq, Debug)]
pub enum HostValue {
    Nil,
    NullSentinel,
    Bool(bool),
    Int(i64),
    Float(u64),
    Str(String),
    Array(Vec<HostValue>),
    Table(Vec<(HostKey, HostValue)>),
}

/// The mathematical form of a table key.
pub enum KeyModel {
    Null,
    Bool(bool),
    Int(i64),
    Float(u64),
    Str(Seq<char>),
    Array(Seq<Dyn>),
    Table(Seq<(KeyModel, Dyn)>),
}

impl KeyModel {
    pub open spec fn is_scalar(self) -> bool {
        !(self is Array) && !(self is Table)
    }
}

/// Whether two keys index the same slot of a table: scalars by value; an array
/// or table key only its own slot, which no other key reaches.
pub open spec fn key_eq(a: KeyModel, b: KeyModel) -> bool {
    a == b && a.is_scalar()
}

/// The mathematical form of a host value.
pub enum Dyn {
    Nil,
    NullSentinel,
    Bool(bool),
    Int(i64),
    Float(u64),
    Str(Seq<char>),
    Array(Seq<Dyn>),
    Table(Seq<(KeyModel, Dyn)>),
}

impl Dyn {
    pub open spec fn kind(self) -> HostKind {
        match self {
            Dyn::Nil => HostKind::Nil,
            Dyn::NullSentinel => HostKind::NullSentinel,
            Dyn::Bool(_) => HostKind::Bool,
            Dyn::Int(_) => HostKind::Int,
            Dyn::Float(_) => HostKind::Float,
            Dyn::Str(_) => HostKind::Str,
            Dyn::Array(_) => HostKind::Array,
            Dyn::Table(_) => HostKind::Table,
        }
    }
}

impl HostKey {
    pub open spec fn view(&self) -> KeyModel
        decreases self,
    {
        match self {
            HostKey::NullSentinel => KeyModel::Null,
            HostKey::Bool(b) => KeyModel::Bool(*b),
            HostKey::Int(n) => KeyModel::Int(*n),
            HostKey::Float(bits) => KeyModel::Float(*bits),
            HostKey::Str(s) => KeyModel::Str(s@),
            HostKey::Array(items) => KeyModel::Array(items_view(items@)),
            HostKey::Table(entries) => KeyModel::Table(entries_view(entries@)),
        }
    }

    /// Whether two keys index the same slot of a table.
    pub fn same_key(&self, other: &HostKey) -> (r: bool)
        ensures
            r == key_eq(self@, other@),
    {
        match (self, other) {
            (HostKey::NullSentinel, HostKey::NullSentinel) => true,
            (HostKey::Bool(a), HostKey::Bool(b)) => *a == *b,
            (HostKey::Int(a), HostKey::Int(b)) => *a == *b,
            (HostKey::Float(a), HostKey::Float(b)) => *a == *b,
            (HostKey::Str(a), HostKey::Str(b)) => *a == *b,
            _ => false,
        }
    }
}

impl HostValue {
    pub open spec fn view(&self) -> Dyn
        decreases self,
    {
        match self {
            HostValue::Nil => Dyn::Nil,
            HostValue::NullSentinel => Dyn::NullSentinel,
            HostValue::Bool(b) => Dyn::Bool(*b),
            HostValue::Int(n) => Dyn::Int(*n),
            HostValue::Float(bits) => Dyn::Float(*bits),
            HostValue::Str(s) => Dyn::Str(s@),
            HostValue::Array(items) => Dyn::Array(items_view(items@)),
            HostValue::Table(entries) => Dyn::Table(entries_view(entries@)),
        }
    }

    /// The variant of this value.
    pub fn kind(&self) -> (r: HostKind)
        ensures
            r == self@.kind(),
    {
        match self {
            HostValue::Nil => HostKind::Nil,
            HostValue::NullSentinel => HostKind::NullSentinel,
            HostValue::Bool(_) => HostKind::Bool,
            HostValue::Int(_) => HostKind::Int,
            HostValue::Float(_) => HostKind::Float,
            HostValue::Str(_) => HostKind::Str,
            HostValue::Array(_) => HostKind::Array,
            HostValue::Table(_) => HostKind::Table,
        }
    }
}

pub open spec fn items_view(s: Seq<HostValue>) -> Seq<Dyn>
    decreases s,
{
    if s.len() == 0 {
        Seq::empty()
    } else {
        items_view(s.drop_last()).push(s.last().view())
    }
}

pub open spec fn entries_view(s: Seq<(HostKey, HostValue)>) -> Seq<(KeyModel, Dyn)>
    decreases s,
{
    if s.len() == 0 {
        Seq::empty()
    } else {
        entries_view(s.drop_last()).push((s.last().0@, s.last().1@))
    }
}

pub proof fn lemma_items_view_push(s: Seq<HostValue>, x: HostValue)
    ensures
        items_view(s.push(x)) == items_view(s).push(x@),
{
    assert(s.push(x).drop_last() =~= s);
}

pub proof fn lemma_entries_view(s: Seq<(HostKey, HostValue)>)
    ensures
        entries_view(s).len() == s.len(),
        forall|i: int| 0 <= i < s.len() ==> #[trigger] entries_view(s)[i] == (s[i].0@, s[i].1@),
    decreases s.len(),
{
    if s.len() > 0 {
        lemma_entries_view(s.drop_last());
    }
}

} // verus!

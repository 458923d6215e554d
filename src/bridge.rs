//! The conversion from a parsed YAML document to a host value tree.
use vstd::prelude::*;
use crate::error::{at, BridgeError, ErrModel, PathStep};
use crate::value::{
    entries_view, items_view, key_eq, lemma_entries_view, lemma_items_view_push, Dyn, HostKey, HostKind,
    HostValue, KeyModel, SourceKind, YamlValue,
};

verus! {

/// How a YAML null reaches the host.
#[derive(Clone, Copy, PartialEq, Eq, Debug, Structural)]
pub enum NullPolicy {
    /// The host's own absence value: a null stored in a table reads as a missing key.
    Nil,
    /// A distinguished sentinel, so that an explicit null stays visible.
    Sentinel,
}

/// The settings of one bridge.
#[derive(Clone, Copy, PartialEq, Eq, Debug, Structural)]
pub struct BridgeConfig {
    pub null_policy: NullPolicy,
    /// How many levels of nesting a document may have; a lone scalar has one.
    pub max_depth: usize,
}

/// The nesting limit of a bridge made by `BridgeConfig::new`: below the 128
/// nested containers that serde_yaml reads, so that a document too deep for the
/// bridge fails here, with the path to where it did.
pub const DEFAULT_MAX_DEPTH: usize = 100;

impl BridgeConfig {
    /// The default bridge: nulls become the sentinel, and documents may nest
    /// `DEFAULT_MAX_DEPTH` levels.
    pub fn new() -> (r: BridgeConfig)
        ensures
            r.null_policy == NullPolicy::Sentinel,
            r.max_depth == DEFAULT_MAX_DEPTH,
    {
        BridgeConfig { null_policy: NullPolicy::Sentinel, max_depth: DEFAULT_MAX_DEPTH }
    }

    /// The same settings with another null policy.
    pub fn with_null_policy(self, null_policy: NullPolicy) -> (r: BridgeConfig)
        ensures
            r.null_policy == null_policy,
            r.max_depth == self.max_depth,
    {
        BridgeConfig { null_policy, max_depth: self.max_depth }
    }

    /// The same settings with another nesting limit.
    pub fn with_max_depth(self, max_depth: usize) -> (r: BridgeConfig)
        ensures
            r.null_policy == self.null_policy,
            r.max_depth == max_depth,
    {
        BridgeConfig { null_policy: self.null_policy, max_depth }
    }
}

/// What a YAML null becomes under a policy.
pub open spec fn null_repr(policy: NullPolicy) -> Dyn {
    match policy {
        NullPolicy::Nil => Dyn::Nil,
        NullPolicy::Sentinel => Dyn::NullSentinel,
    }
}

/// The host variant that each YAML variant maps to.
pub open spec fn expected_kind(k: SourceKind, policy: NullPolicy) -> HostKind {
    match k {
        SourceKind::Null => match policy {
            NullPolicy::Nil => HostKind::Nil,
            NullPolicy::Sentinel => HostKind::NullSentinel,
        },
        SourceKind::Bool => HostKind::Bool,
        SourceKind::Int => HostKind::Int,
        SourceKind::Float => HostKind::Float,
        SourceKind::Str => HostKind::Str,
        SourceKind::Sequence => HostKind::Array,
        SourceKind::Mapping => HostKind::Table,
    }
}

/// The host's integers are 64-bit signed.
pub open spec fn fits_host_int(n: i128) -> bool {
    i64::MIN <= n <= i64::MAX
}

/// A float bit pattern that encodes NaN, which the host cannot index a table by.
pub open spec fn is_nan_bits(bits: u64) -> bool {
    (bits >> 52u64) & 0x7ffu64 == 0x7ffu64 && bits & 0xf_ffff_ffff_ffffu64 != 0u64
}

/// The integer that a float bit pattern equals exactly, if it has one in the
/// host's range: the host stores such a float key as that integer, so `1.0` and
/// `1` (and `-0.0` and `0`) index the same slot.
pub open spec fn integral_float(bits: u64) -> Option<i64> {
    let e: u64 = (bits >> 52u64) & 0x7ffu64;
    let m: u64 = bits & 0xf_ffff_ffff_ffffu64;
    let neg: bool = bits >> 63u64 == 1u64;
    if e == 0 && m == 0 {
        Some(0i64)
    } else if e < 1023 || e > 1086 {
        None
    } else {
        let mant: u64 = m | 0x10_0000_0000_0000u64;
        let sh: u64 = (e - 1023) as u64;
        if sh < 52 && (mant >> ((52 - sh) as u64)) << ((52 - sh) as u64) != mant {
            None
        } else {
            let mag: u64 = if sh < 52 {
                mant >> ((52 - sh) as u64)
            } else {
                mant << ((sh - 52) as u64)
            };
            if mag < 0x8000_0000_0000_0000u64 {
                Some(if neg { (-(mag as int)) as i64 } else { mag as i64 })
            } else if neg && mag == 0x8000_0000_0000_0000u64 {
                Some(i64::MIN)
            } else {
                None
            }
        }
    }
}

/// What a mapping key becomes, with `budget` levels of nesting left. A host
/// table takes any key but nil and NaN, so a null is a key only as the sentinel.
pub open spec fn key_spec(k: YamlValue, budget: nat, config: BridgeConfig) -> Result<
    KeyModel,
    ErrModel,
>
    decreases budget, 0nat,
{
    let policy = config.null_policy;
    if budget == 0 {
        Err(ErrModel::DepthExceeded(config.max_depth, Seq::empty()))
    } else {
    match k {
        YamlValue::Null => match policy {
            NullPolicy::Sentinel => Ok(KeyModel::Null),
            NullPolicy::Nil => Err(ErrModel::UnsupportedKey(SourceKind::Null, Seq::empty())),
        },
        YamlValue::Bool(b) => Ok(KeyModel::Bool(b)),
        YamlValue::Int(n) => if fits_host_int(n) {
            Ok(KeyModel::Int(n as i64))
        } else {
            Err(ErrModel::Range(n, Seq::empty()))
        },
        YamlValue::Float(bits) => if is_nan_bits(bits) {
            Err(ErrModel::UnsupportedKey(SourceKind::Float, Seq::empty()))
        } else {
            match integral_float(bits) {
                Some(n) => Ok(KeyModel::Int(n)),
                None => Ok(KeyModel::Float(bits)),
            }
        },
        YamlValue::Str(s) => Ok(KeyModel::Str(s@)),
        YamlValue::Sequence(items) => match items_spec(items@, (budget - 1) as nat, config) {
            Ok(ds) => Ok(KeyModel::Array(ds)),
            Err(e) => Err(e),
        },
        YamlValue::Mapping(entries) => match entries_spec(entries@, (budget - 1) as nat, config) {
            Ok(t) => Ok(KeyModel::Table(t)),
            Err(e) => Err(e),
        },
    }
    }
}

/// No key stands twice in a table.
pub open spec fn keys_unique(t: Seq<(KeyModel, Dyn)>) -> bool {
    forall|i: int, j: int|
        0 <= i < t.len() && 0 <= j < t.len() && key_eq(#[trigger] t[i].0, #[trigger] t[j].0) ==> i == j
}

/// A table after storing `v` at `k`: an entry with that key gets the new value
/// in its place; otherwise the entry goes at the end.
pub open spec fn table_insert(t: Seq<(KeyModel, Dyn)>, k: KeyModel, v: Dyn) -> Seq<(KeyModel, Dyn)> {
    if exists|i: int| 0 <= i < t.len() && key_eq(t[i].0, k) {
        let i = choose|i: int| 0 <= i < t.len() && key_eq(t[i].0, k);
        t.update(i, (k, v))
    } else {
        t.push((k, v))
    }
}

/// The value a table holds at a key.
pub open spec fn table_get(t: Seq<(KeyModel, Dyn)>, k: KeyModel) -> Option<Dyn> {
    if exists|i: int| 0 <= i < t.len() && key_eq(t[i].0, k) {
        let i = choose|i: int| 0 <= i < t.len() && key_eq(t[i].0, k);
        Some(t[i].1)
    } else {
        None
    }
}

/// The conversion of one value with `budget` levels of nesting left.
pub open spec fn convert_spec(v: YamlValue, budget: nat, config: BridgeConfig) -> Result<Dyn, ErrModel>
    decreases budget, 0nat,
{
    if budget == 0 {
        Err(ErrModel::DepthExceeded(config.max_depth, Seq::empty()))
    } else {
        match v {
            YamlValue::Null => Ok(null_repr(config.null_policy)),
            YamlValue::Bool(b) => Ok(Dyn::Bool(b)),
            YamlValue::Int(n) => if fits_host_int(n) {
                Ok(Dyn::Int(n as i64))
            } else {
                Err(ErrModel::Range(n, Seq::empty()))
            },
            YamlValue::Float(bits) => Ok(Dyn::Float(bits)),
            YamlValue::Str(s) => Ok(Dyn::Str(s@)),
            YamlValue::Sequence(items) => match items_spec(items@, (budget - 1) as nat, config) {
                Ok(ds) => Ok(Dyn::Array(ds)),
                Err(e) => Err(e),
            },
            YamlValue::Mapping(entries) => match entries_spec(
                entries@,
                (budget - 1) as nat,
                config,
            ) {
                Ok(t) => Ok(Dyn::Table(t)),
                Err(e) => Err(e),
            },
        }
    }
}

/// The elements of a sequence, converted in order; the first failure wins.
pub open spec fn items_spec(s: Seq<YamlValue>, budget: nat, config: BridgeConfig) -> Result<
    Seq<Dyn>,
    ErrModel,
>
    decreases budget, s.len(),
{
    if s.len() == 0 {
        Ok(Seq::empty())
    } else {
        match items_spec(s.drop_last(), budget, config) {
            Err(e) => Err(e),
            Ok(done) => match convert_spec(s.last(), budget, config) {
                Err(e) => Err(at(PathStep::Item((s.len() - 1) as usize), e)),
                Ok(d) => Ok(done.push(d)),
            },
        }
    }
}

/// The pairs of a mapping, stored in order into a table, key before value;
/// the first failure wins and a later pair overwrites an earlier one with an
/// equal key.
pub open spec fn entries_spec(
    s: Seq<(YamlValue, YamlValue)>,
    budget: nat,
    config: BridgeConfig,
) -> Result<Seq<(KeyModel, Dyn)>, ErrModel>
    decreases budget, s.len(),
{
    if s.len() == 0 {
        Ok(Seq::empty())
    } else {
        match entries_spec(s.drop_last(), budget, config) {
            Err(e) => Err(e),
            Ok(t) => match key_spec(s.last().0, budget, config) {
                Err(e) => Err(at(PathStep::Key((s.len() - 1) as usize), e)),
                Ok(k) => match convert_spec(s.last().1, budget, config) {
                    Err(e) => Err(at(PathStep::Entry((s.len() - 1) as usize), e)),
                    Ok(d) => Ok(table_insert(t, k, d)),
                },
            },
        }
    }
}

/// The whole document under a bridge's settings.
pub open spec fn convert_document(v: YamlValue, config: BridgeConfig) -> Result<Dyn, ErrModel> {
    convert_spec(v, config.max_depth as nat, config)
}

/// The mathematical form of a conversion's result.
pub open spec fn outcome(r: Result<HostValue, BridgeError>) -> Result<Dyn, ErrModel> {
    match r {
        Ok(h) => Ok(h@),
        Err(e) => Err(e@),
    }
}

} // verus!

verus! {

/// The failure of a prefix of a sequence is the failure of the whole.
pub(crate) proof fn lemma_items_err_extends(s: Seq<YamlValue>, budget: nat, config: BridgeConfig, j: int)
    requires
        0 <= j <= s.len(),
        items_spec(s.take(j), budget, config) is Err,
    ensures
        items_spec(s, budget, config) == items_spec(s.take(j), budget, config),
    decreases s.len() - j,
{
    if j == s.len() {
        assert(s.take(j) =~= s);
    } else {
        assert(s.take(j + 1).drop_last() =~= s.take(j));
        lemma_items_err_extends(s, budget, config, j + 1);
    }
}

/// The failure of a prefix of a mapping is the failure of the whole.
pub(crate) proof fn lemma_entries_err_extends(
    s: Seq<(YamlValue, YamlValue)>,
    budget: nat,
    config: BridgeConfig,
    j: int,
)
    requires
        0 <= j <= s.len(),
        entries_spec(s.take(j), budget, config) is Err,
    ensures
        entries_spec(s, budget, config) == entries_spec(s.take(j), budget, config),
    decreases s.len() - j,
{
    if j == s.len() {
        assert(s.take(j) =~= s);
    } else {
        assert(s.take(j + 1).drop_last() =~= s.take(j));
        lemma_entries_err_extends(s, budget, config, j + 1);
    }
}

/// Storing into a table keeps its keys unique.
pub proof fn lemma_insert_keeps_unique(t: Seq<(KeyModel, Dyn)>, k: KeyModel, v: Dyn)
    requires
        keys_unique(t),
    ensures
        keys_unique(table_insert(t, k, v)),
{
    let r = table_insert(t, k, v);
    if exists|i: int| 0 <= i < t.len() && key_eq(t[i].0, k) {
        assert forall|i: int, j: int|
            0 <= i < r.len() && 0 <= j < r.len() && key_eq(#[trigger] r[i].0, #[trigger] r[j].0)
                implies i == j by {
            assert(r[i].0 == t[i].0);
            assert(r[j].0 == t[j].0);
        }
    } else {
        assert forall|i: int, j: int|
            0 <= i < r.len() && 0 <= j < r.len() && key_eq(#[trigger] r[i].0, #[trigger] r[j].0)
                implies i == j by {
            if i < t.len() && j < t.len() {
                assert(key_eq(t[i].0, t[j].0));
            }
        }
    }
}

/// The host integer for `n`, if it has one.
fn host_int(n: i128) -> (r: Option<i64>)
    ensures
        r is Some <==> fits_host_int(n),
        r is Some ==> r->0 as i128 == n,
{
    if i64::MIN as i128 <= n && n <= i64::MAX as i128 {
        Some(n as i64)
    } else {
        None
    }
}

/// The integer that a float bit pattern equals exactly, if the host has it.
fn float_as_int(bits: u64) -> (r: Option<i64>)
    ensures
        r == integral_float(bits),
{
    let e: u64 = (bits >> 52u64) & 0x7ffu64;
    let m: u64 = bits & 0xf_ffff_ffff_ffffu64;
    let neg: bool = bits >> 63u64 == 1u64;
    if e == 0 && m == 0 {
        Some(0i64)
    } else if e < 1023 || e > 1086 {
        None
    } else {
        let mant: u64 = m | 0x10_0000_0000_0000u64;
        let sh: u64 = e - 1023;
        if sh < 52 && (mant >> (52 - sh)) << (52 - sh) != mant {
            None
        } else {
            let mag: u64 = if sh < 52 {
                mant >> (52 - sh)
            } else {
                mant << (sh - 52)
            };
            if mag < 0x8000_0000_0000_0000u64 {
                let v: i64 = mag as i64;
                if neg {
                    Some(-v)
                } else {
                    Some(v)
                }
            } else if neg && mag == 0x8000_0000_0000_0000u64 {
                Some(i64::MIN)
            } else {
                None
            }
        }
    }
}

/// The table key for a mapping key, with `budget` levels of nesting left.
pub fn convert_key(k: &YamlValue, budget: usize, config: &BridgeConfig) -> (r: Result<
    HostKey,
    BridgeError,
>)
    ensures
        match r {
            Ok(h) => key_spec(*k, budget as nat, *config) == Ok::<KeyModel, ErrModel>(h@),
            Err(e) => key_spec(*k, budget as nat, *config) == Err::<KeyModel, ErrModel>(e@),
        },
    decreases budget, 0nat,
{
    let policy = config.null_policy;
    if budget == 0 {
        return Err(BridgeError::DepthExceeded { limit: config.max_depth, path: Vec::new() });
    }
    match k {
        YamlValue::Null => match policy {
            NullPolicy::Sentinel => Ok(HostKey::NullSentinel),
            NullPolicy::Nil => Err(
                BridgeError::UnsupportedKey { key_kind: SourceKind::Null, path: Vec::new() },
            ),
        },
        YamlValue::Bool(b) => Ok(HostKey::Bool(*b)),
        YamlValue::Int(n) => match host_int(*n) {
            Some(m) => Ok(HostKey::Int(m)),
            None => Err(BridgeError::Range { value: *n, path: Vec::new() }),
        },
        YamlValue::Float(bits) => {
            let b: u64 = *bits;
            if (b >> 52u64) & 0x7ffu64 == 0x7ffu64 && b & 0xf_ffff_ffff_ffffu64 != 0u64 {
                Err(BridgeError::UnsupportedKey { key_kind: SourceKind::Float, path: Vec::new() })
            } else {
                match float_as_int(b) {
                    Some(n) => Ok(HostKey::Int(n)),
                    None => Ok(HostKey::Float(b)),
                }
            }
        },
        YamlValue::Str(s) => Ok(HostKey::Str(s.clone())),
        YamlValue::Sequence(items) => match convert_items(items, budget - 1, config) {
            Ok(out) => Ok(HostKey::Array(out)),
            Err(e) => Err(e),
        },
        YamlValue::Mapping(entries) => match convert_entries(entries, budget - 1, config) {
            Ok(table) => Ok(HostKey::Table(table)),
            Err(e) => Err(e),
        },
    }
}

/// Stores `v` at `k` in a table with unique keys, overwriting in place.
pub fn table_store(table: &mut Vec<(HostKey, HostValue)>, k: HostKey, v: HostValue)
    requires
        keys_unique(entries_view(old(table)@)),
    ensures
        entries_view(final(table)@) == table_insert(entries_view(old(table)@), k@, v@),
        keys_unique(entries_view(final(table)@)),
{
    let ghost before = entries_view(table@);
    let ghost km = k@;
    let ghost vm = v@;
    proof {
        lemma_entries_view(table@);
        lemma_insert_keeps_unique(before, km, vm);
    }
    let n = table.len();
    let mut i: usize = 0;
    while i < n
        invariant
            n == table.len(),
            i <= n,
            table@ == old(table)@,
            before == entries_view(table@),
            before.len() == n,
            keys_unique(before),
            km == k@,
            vm == v@,
            forall|j: int| 0 <= j < i ==> !key_eq(before[j].0, km),
            forall|j: int| 0 <= j < n ==> #[trigger] before[j] == (table@[j].0@, table@[j].1@),
        decreases n - i,
    {
        assert(before[i as int] == (table@[i as int].0@, table@[i as int].1@));
        if table[i].0.same_key(&k) {
            assert(key_eq(before[i as int].0, km));
            table[i] = (k, v);
            proof {
                assert(0 <= i < before.len() && key_eq(before[i as int].0, km));
                lemma_entries_view(table@);
                let c = choose|j: int| 0 <= j < before.len() && key_eq(before[j].0, km);
                assert(key_eq(before[c].0, before[i as int].0));
                assert(c == i);
                assert(entries_view(table@) =~= before.update(i as int, (km, vm)));
            }
            return;
        }
        i += 1;
    }
    table.push((k, v));
    proof {
        lemma_entries_view(table@);
        assert(entries_view(table@) =~= before.push((km, vm)));
    }
}

} // verus!

verus! {

/// Converts a whole document under the bridge's settings. The result is exactly
/// `convert_document`: every YAML variant maps to its host variant, nothing else
/// changes, and each failure names where it arose.
pub fn convert(value: &YamlValue, config: &BridgeConfig) -> (r: Result<HostValue, BridgeError>)
    ensures
        outcome(r) == convert_document(*value, *config),
{
    convert_node(value, config.max_depth, config)
}

/// Converts one value with `budget` levels of nesting left.
fn convert_node(value: &YamlValue, budget: usize, config: &BridgeConfig) -> (r: Result<
    HostValue,
    BridgeError,
>)
    ensures
        outcome(r) == convert_spec(*value, budget as nat, *config),
    decreases budget, 0nat,
{
    if budget == 0 {
        return Err(BridgeError::DepthExceeded { limit: config.max_depth, path: Vec::new() });
    }
    match value {
        YamlValue::Null => match config.null_policy {
            NullPolicy::Nil => Ok(HostValue::Nil),
            NullPolicy::Sentinel => Ok(HostValue::NullSentinel),
        },
        YamlValue::Bool(b) => Ok(HostValue::Bool(*b)),
        YamlValue::Int(n) => match host_int(*n) {
            Some(m) => Ok(HostValue::Int(m)),
            None => Err(BridgeError::Range { value: *n, path: Vec::new() }),
        },
        YamlValue::Float(bits) => Ok(HostValue::Float(*bits)),
        YamlValue::Str(s) => Ok(HostValue::Str(s.clone())),
        YamlValue::Sequence(items) => match convert_items(items, budget - 1, config) {
            Ok(out) => Ok(HostValue::Array(out)),
            Err(e) => Err(e),
        },
        YamlValue::Mapping(entries) => match convert_entries(entries, budget - 1, config) {
            Ok(table) => Ok(HostValue::Table(table)),
            Err(e) => Err(e),
        },
    }
}

/// Converts the elements of a sequence in order.
fn convert_items(items: &Vec<YamlValue>, budget: usize, config: &BridgeConfig) -> (r: Result<
    Vec<HostValue>,
    BridgeError,
>)
    ensures
        match r {
            Ok(out) => items_spec(items@, budget as nat, *config) == Ok::<Seq<Dyn>, ErrModel>(
                items_view(out@),
            ),
            Err(e) => items_spec(items@, budget as nat, *config) == Err::<Seq<Dyn>, ErrModel>(e@),
        },
    decreases budget, items@.len(),
{
    let mut out: Vec<HostValue> = Vec::new();
    let mut i: usize = 0;
    assert(items@.take(0) =~= Seq::<YamlValue>::empty());
    while i < items.len()
        invariant
            i <= items.len(),
            items_spec(items@.take(i as int), budget as nat, *config) == Ok::<Seq<Dyn>, ErrModel>(
                items_view(out@),
            ),
        decreases items.len() - i,
    {
        assert(items@.take(i + 1).drop_last() =~= items@.take(i as int));
        assert(items@.take(i + 1).last() == items@[i as int]);
        match convert_node(&items[i], budget, config) {
            Ok(h) => {
                proof {
                    lemma_items_view_push(out@, h);
                }
                out.push(h);
            },
            Err(e) => {
                let e = e.within(PathStep::Item(i));
                proof {
                    lemma_items_err_extends(items@, budget as nat, *config, i + 1);
                }
                return Err(e);
            },
        }
        i += 1;
    }
    assert(items@.take(items.len() as int) =~= items@);
    Ok(out)
}

/// Stores the pairs of a mapping in order into a new table.
fn convert_entries(
    entries: &Vec<(YamlValue, YamlValue)>,
    budget: usize,
    config: &BridgeConfig,
) -> (r: Result<Vec<(HostKey, HostValue)>, BridgeError>)
    ensures
        match r {
            Ok(table) => {
                &&& entries_spec(entries@, budget as nat, *config) == Ok::<
                    Seq<(KeyModel, Dyn)>,
                    ErrModel,
                >(entries_view(table@))
                &&& keys_unique(entries_view(table@))
            },
            Err(e) => entries_spec(entries@, budget as nat, *config) == Err::<
                Seq<(KeyModel, Dyn)>,
                ErrModel,
            >(e@),
        },
    decreases budget, entries@.len(),
{
    let mut table: Vec<(HostKey, HostValue)> = Vec::new();
    let mut i: usize = 0;
    assert(entries@.take(0) =~= Seq::<(YamlValue, YamlValue)>::empty());
    while i < entries.len()
        invariant
            i <= entries.len(),
            entries_spec(entries@.take(i as int), budget as nat, *config) == Ok::<
                Seq<(KeyModel, Dyn)>,
                ErrModel,
            >(entries_view(table@)),
            keys_unique(entries_view(table@)),
        decreases entries.len() - i,
    {
        assert(entries@.take(i + 1).drop_last() =~= entries@.take(i as int));
        assert(entries@.take(i + 1).last() == entries@[i as int]);
        let k = match convert_key(&entries[i].0, budget, config) {
            Ok(k) => k,
            Err(e) => {
                let e = e.within(PathStep::Key(i));
                proof {
                    lemma_entries_err_extends(entries@, budget as nat, *config, i + 1);
                }
                return Err(e);
            },
        };
        match convert_node(&entries[i].1, budget, config) {
            Ok(h) => {
                table_store(&mut table, k, h);
            },
            Err(e) => {
                let e = e.within(PathStep::Entry(i));
                proof {
                    lemma_entries_err_extends(entries@, budget as nat, *config, i + 1);
                }
                return Err(e);
            },
        }
        i += 1;
    }
    assert(entries@.take(entries.len() as int) =~= entries@);
    Ok(table)
}

} // verus!

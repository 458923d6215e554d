//! Properties that hold of every conversion, proved over the conversion's spec.
use vstd::prelude::*;
use crate::bridge::{
    convert_document, convert_spec, entries_spec, expected_kind, fits_host_int, items_spec,
    key_spec, keys_unique, lemma_entries_err_extends, lemma_insert_keeps_unique, null_repr,
    table_get, table_insert, BridgeConfig, NullPolicy,
};
use crate::value::key_eq;
use crate::error::{ErrModel, PathStep};
use crate::value::{Dyn, KeyModel, YamlValue};

verus! {

/// Every value that converts lands on the host variant that the mapping table
/// gives for its YAML variant; and a scalar, given room for one level, always
/// converts unless it is an integer outside the host's range.
pub proof fn law_kind_fidelity(x: YamlValue, budget: nat, config: BridgeConfig)
    ensures
        convert_spec(x, budget, config) is Ok ==> convert_spec(x, budget, config)->Ok_0.kind()
            == expected_kind(x.spec_kind(), config.null_policy),
        x.is_scalar() && budget > 0 ==> (convert_spec(x, budget, config) is Ok <==> !(
        x matches YamlValue::Int(n) && !fits_host_int(n))),
{
}

/// Converting a null always gives the configured representation, and the two
/// policies give different ones.
pub proof fn law_null_policy(config: BridgeConfig)
    requires
        config.max_depth > 0,
    ensures
        convert_document(YamlValue::Null, config) == Ok::<Dyn, ErrModel>(
            null_repr(config.null_policy),
        ),
        null_repr(NullPolicy::Nil) != null_repr(NullPolicy::Sentinel),
{
}

/// A scalar converts to the same host value whatever depth it stands at.
pub proof fn law_scalar_independent_of_position(x: YamlValue, b1: nat, b2: nat, config: BridgeConfig)
    requires
        x.is_scalar(),
        b1 > 0,
        b2 > 0,
    ensures
        convert_spec(x, b1, config) == convert_spec(x, b2, config),
{
}

proof fn lemma_items_ok(s: Seq<YamlValue>, budget: nat, config: BridgeConfig)
    requires
        items_spec(s, budget, config) is Ok,
    ensures
        items_spec(s, budget, config)->Ok_0.len() == s.len(),
        forall|i: int|
            0 <= i < s.len() ==> #[trigger] convert_spec(s[i], budget, config) == Ok::<
                Dyn,
                ErrModel,
            >(items_spec(s, budget, config)->Ok_0[i]),
    decreases s.len(),
{
    if s.len() > 0 {
        lemma_items_ok(s.drop_last(), budget, config);
        assert forall|i: int| 0 <= i < s.len() implies #[trigger] convert_spec(s[i], budget, config)
            == Ok::<Dyn, ErrModel>(items_spec(s, budget, config)->Ok_0[i]) by {
            if i < s.len() - 1 {
                assert(s[i] == s.drop_last()[i]);
            }
        }
    }
}

/// A sequence converts to an array of the same length whose each element is the
/// conversion of the element at the same position.
pub proof fn law_sequence_shape(items: Vec<YamlValue>, budget: nat, config: BridgeConfig)
    requires
        convert_spec(YamlValue::Sequence(items), budget, config) is Ok,
    ensures
        convert_spec(YamlValue::Sequence(items), budget, config) matches Ok(Dyn::Array(ds)) && ds.len()
            == items.len() && forall|i: int|
            0 <= i < items.len() ==> #[trigger] convert_spec(items[i], (budget - 1) as nat, config)
                == Ok::<Dyn, ErrModel>(ds[i]),
{
    lemma_items_ok(items@, (budget - 1) as nat, config);
}

/// The converted keys of a mapping's pairs index pairwise different slots.
pub open spec fn distinct_keys(s: Seq<(YamlValue, YamlValue)>, budget: nat, config: BridgeConfig) -> bool {
    forall|i: int, j: int|
        0 <= i < s.len() && 0 <= j < s.len() && i != j && key_spec(s[i].0, budget, config) is Ok
            && key_spec(s[j].0, budget, config) is Ok ==> !key_eq(
            #[trigger] key_spec(s[i].0, budget, config)->Ok_0,
            #[trigger] key_spec(s[j].0, budget, config)->Ok_0,
        )
}

proof fn lemma_entries_unique(s: Seq<(YamlValue, YamlValue)>, budget: nat, config: BridgeConfig)
    requires
        entries_spec(s, budget, config) is Ok,
    ensures
        keys_unique(entries_spec(s, budget, config)->Ok_0),
    decreases s.len(),
{
    if s.len() > 0 {
        lemma_entries_unique(s.drop_last(), budget, config);
        let t = entries_spec(s.drop_last(), budget, config)->Ok_0;
        let k = key_spec(s.last().0, budget, config)->Ok_0;
        let d = convert_spec(s.last().1, budget, config)->Ok_0;
        lemma_insert_keeps_unique(t, k, d);
    }
}

proof fn lemma_entries_distinct(s: Seq<(YamlValue, YamlValue)>, budget: nat, config: BridgeConfig)
    requires
        entries_spec(s, budget, config) is Ok,
        distinct_keys(s, budget, config),
    ensures
        entries_spec(s, budget, config)->Ok_0.len() == s.len(),
        forall|i: int|
            0 <= i < s.len() ==> {
                &&& key_spec(s[i].0, budget, config) == Ok::<KeyModel, ErrModel>(
                    #[trigger] entries_spec(s, budget, config)->Ok_0[i].0,
                )
                &&& convert_spec(s[i].1, budget, config) == Ok::<Dyn, ErrModel>(
                    entries_spec(s, budget, config)->Ok_0[i].1,
                )
            },
    decreases s.len(),
{
    if s.len() > 0 {
        let p = s.drop_last();
        assert forall|i: int, j: int|
            0 <= i < p.len() && 0 <= j < p.len() && i != j && key_spec(p[i].0, budget, config) is Ok
                && key_spec(p[j].0, budget, config) is Ok implies !key_eq(
            #[trigger] key_spec(p[i].0, budget, config)->Ok_0,
            #[trigger] key_spec(p[j].0, budget, config)->Ok_0,
        ) by {
            assert(p[i] == s[i] && p[j] == s[j]);
        }
        lemma_entries_distinct(p, budget, config);
        let t = entries_spec(p, budget, config)->Ok_0;
        let k = key_spec(s.last().0, budget, config)->Ok_0;
        let n = s.len() - 1;
        if exists|i: int| 0 <= i < t.len() && key_eq(t[i].0, k) {
            let i = choose|i: int| 0 <= i < t.len() && key_eq(t[i].0, k);
            assert(p[i] == s[i]);
            assert(key_spec(s[i].0, budget, config) is Ok);
            assert(!key_eq(key_spec(s[i].0, budget, config)->Ok_0, key_spec(s[n].0, budget, config)->Ok_0));
        }
        assert forall|i: int| 0 <= i < s.len() - 1 implies p[i] == s[i] by {}
    }
}

/// A mapping whose keys convert to pairwise different host keys becomes a table
/// with one entry per pair, in the mapping's order, each pair converted.
pub proof fn law_mapping_shape(entries: Vec<(YamlValue, YamlValue)>, budget: nat, config: BridgeConfig)
    requires
        convert_spec(YamlValue::Mapping(entries), budget, config) is Ok,
        distinct_keys(entries@, (budget - 1) as nat, config),
    ensures
        convert_spec(YamlValue::Mapping(entries), budget, config) matches Ok(Dyn::Table(t)) && t.len()
            == entries.len() && forall|i: int|
            0 <= i < entries.len() ==> {
                &&& key_spec(entries[i].0, (budget - 1) as nat, config) == Ok::<KeyModel, ErrModel>(
                    #[trigger] t[i].0,
                )
                &&& convert_spec(entries[i].1, (budget - 1) as nat, config) == Ok::<Dyn, ErrModel>(
                    t[i].1,
                )
            },
{
    lemma_entries_distinct(entries@, (budget - 1) as nat, config);
}

proof fn lemma_get_after_insert(t: Seq<(KeyModel, Dyn)>, k: KeyModel, v: Dyn, q: KeyModel)
    requires
        keys_unique(t),
    ensures
        table_get(table_insert(t, k, v), q) == if key_eq(q, k) {
            Some(v)
        } else {
            table_get(t, q)
        },
{
    let r = table_insert(t, k, v);
    lemma_insert_keeps_unique(t, k, v);
    if exists|i: int| 0 <= i < t.len() && key_eq(t[i].0, k) {
        let c = choose|i: int| 0 <= i < t.len() && key_eq(t[i].0, k);
        assert(r[c].0 == k);
        if exists|i: int| 0 <= i < t.len() && key_eq(t[i].0, q) {
            let cq = choose|i: int| 0 <= i < t.len() && key_eq(t[i].0, q);
            assert(r[cq].0 == t[cq].0);
        }
        if key_eq(q, k) {
            assert(key_eq(r[c].0, q));
        }
    } else {
        assert(r[t.len() as int].0 == k);
        if exists|i: int| 0 <= i < t.len() && key_eq(t[i].0, q) {
            let cq = choose|i: int| 0 <= i < t.len() && key_eq(t[i].0, q);
            assert(r[cq].0 == t[cq].0);
        }
        if key_eq(q, k) {
            assert(key_eq(r[t.len() as int].0, q));
        }
        if !key_eq(q, k) && exists|i: int| 0 <= i < r.len() && key_eq(r[i].0, q) {
            let i = choose|i: int| 0 <= i < r.len() && key_eq(r[i].0, q);
            assert(i < t.len() && key_eq(t[i].0, q));
        }
    }
}

proof fn lemma_last_wins_prefix(
    s: Seq<(YamlValue, YamlValue)>,
    b: nat,
    config: BridgeConfig,
    j: int,
    k: KeyModel,
    n: int,
)
    requires
        entries_spec(s, b, config) is Ok,
        0 <= j < n <= s.len(),
        key_spec(s[j].0, b, config) == Ok::<KeyModel, ErrModel>(k),
        k.is_scalar(),
        forall|l: int|
            j < l < s.len() ==> #[trigger] key_spec(s[l].0, b, config) != Ok::<
                KeyModel,
                ErrModel,
            >(k),
    ensures
        entries_spec(s.take(n), b, config) matches Ok(t) && convert_spec(s[j].1, b, config) matches Ok(
            d,
        ) && table_get(t, k) == Some(d),
    decreases n,
{
    if entries_spec(s.take(n), b, config) is Err {
        lemma_entries_err_extends(s, b, config, n);
    }
    assert(s.take(n).drop_last() =~= s.take(n - 1));
    assert(s.take(n).last() == s[n - 1]);
    let t = entries_spec(s.take(n - 1), b, config)->Ok_0;
    let kn = key_spec(s[n - 1].0, b, config)->Ok_0;
    let dn = convert_spec(s[n - 1].1, b, config)->Ok_0;
    lemma_entries_unique(s.take(n - 1), b, config);
    lemma_get_after_insert(t, kn, dn, k);
    if n - 1 > j {
        lemma_last_wins_prefix(s, b, config, j, k, n - 1);
    }
}

/// When a key occurs more than once in a mapping, the table holds at that key the
/// value of its last occurrence.
pub proof fn law_last_key_wins(
    entries: Vec<(YamlValue, YamlValue)>,
    budget: nat,
    config: BridgeConfig,
    j: int,
    k: KeyModel,
)
    requires
        convert_spec(YamlValue::Mapping(entries), budget, config) is Ok,
        0 <= j < entries.len(),
        key_spec(entries[j].0, (budget - 1) as nat, config) == Ok::<KeyModel, ErrModel>(k),
        k.is_scalar(),
        forall|l: int|
            j < l < entries.len() ==> #[trigger] key_spec(entries[l].0, (budget - 1) as nat, config) != Ok::<
                KeyModel,
                ErrModel,
            >(k),
    ensures
        convert_spec(YamlValue::Mapping(entries), budget, config) matches Ok(Dyn::Table(t))
            && convert_spec(entries[j].1, (budget - 1) as nat, config) matches Ok(d)
            && table_get(t, k) == Some(d),
{
    let s = entries@;
    lemma_last_wins_prefix(s, (budget - 1) as nat, config, j, k, s.len() as int);
    assert(s.take(s.len() as int) =~= s);
}


/// The part of a document that a path leads to: `Item` steps into a sequence,
/// `Entry` steps into the value of a mapping's pair.
pub open spec fn source_at(v: YamlValue, p: Seq<PathStep>) -> Option<YamlValue>
    decreases p.len(),
{
    if p.len() == 0 {
        Some(v)
    } else {
        match (v, p[0]) {
            (YamlValue::Sequence(items), PathStep::Item(i)) => if i < items.len() {
                source_at(items[i as int], p.drop_first())
            } else {
                None
            },
            (YamlValue::Mapping(entries), PathStep::Entry(i)) => if i < entries.len() {
                source_at(entries[i as int].1, p.drop_first())
            } else {
                None
            },
            _ => None,
        }
    }
}

/// The part of a host value that a path leads to: `Item` steps into an array,
/// `Entry` steps into the value of a table's entry.
pub open spec fn host_at(d: Dyn, p: Seq<PathStep>) -> Option<Dyn>
    decreases p.len(),
{
    if p.len() == 0 {
        Some(d)
    } else {
        match (d, p[0]) {
            (Dyn::Array(ds), PathStep::Item(i)) => if i < ds.len() {
                host_at(ds[i as int], p.drop_first())
            } else {
                None
            },
            (Dyn::Table(t), PathStep::Entry(i)) => if i < t.len() {
                host_at(t[i as int].1, p.drop_first())
            } else {
                None
            },
            _ => None,
        }
    }
}

/// Every mapping that a path passes through has keys that index distinct slots,
/// with `budget` levels of nesting left at its start.
pub open spec fn distinct_along(v: YamlValue, p: Seq<PathStep>, budget: nat, config: BridgeConfig) -> bool
    decreases p.len(),
{
    if p.len() == 0 {
        true
    } else {
        match (v, p[0]) {
            (YamlValue::Sequence(items), PathStep::Item(i)) => i < items.len() && distinct_along(
                items[i as int],
                p.drop_first(),
                (budget - 1) as nat,
                config,
            ),
            (YamlValue::Mapping(entries), PathStep::Entry(i)) => i < entries.len() && distinct_keys(
                entries@,
                (budget - 1) as nat,
                config,
            ) && distinct_along(entries[i as int].1, p.drop_first(), (budget - 1) as nat, config),
            _ => false,
        }
    }
}

proof fn lemma_converted_at(v: YamlValue, p: Seq<PathStep>, budget: nat, config: BridgeConfig)
    requires
        convert_spec(v, budget, config) is Ok,
        source_at(v, p) is Some,
        distinct_along(v, p, budget, config),
    ensures
        budget > p.len(),
        host_at(convert_spec(v, budget, config)->Ok_0, p) is Some,
        convert_spec(source_at(v, p)->0, (budget - p.len()) as nat, config) == Ok::<Dyn, ErrModel>(
            host_at(convert_spec(v, budget, config)->Ok_0, p)->0,
        ),
    decreases p.len(),
{
    if p.len() > 0 {
        let rest = p.drop_first();
        match (v, p[0]) {
            (YamlValue::Sequence(items), PathStep::Item(i)) => {
                law_sequence_shape(items, budget, config);
                lemma_converted_at(items[i as int], rest, (budget - 1) as nat, config);
            },
            (YamlValue::Mapping(entries), PathStep::Entry(i)) => {
                law_mapping_shape(entries, budget, config);
                let t = convert_spec(YamlValue::Mapping(entries), budget, config)->Ok_0->Table_0;
                assert(key_spec(entries[i as int].0, (budget - 1) as nat, config) == Ok::<
                    KeyModel,
                    ErrModel,
                >(t[i as int].0));
                assert(convert_spec(entries[i as int].1, (budget - 1) as nat, config) == Ok::<
                    Dyn,
                    ErrModel,
                >(t[i as int].1));
                lemma_converted_at(entries[i as int].1, rest, (budget - 1) as nat, config);
            },
            _ => {},
        }
    }
}

/// A scalar becomes the same host value wherever it stands in a document as it
/// does on its own: at the end of any path of sequence elements and mapping
/// values (through mappings whose keys index distinct slots), the converted
/// document holds exactly the scalar's own conversion.
pub proof fn law_scalar_same_at_any_path(v: YamlValue, p: Seq<PathStep>, config: BridgeConfig)
    requires
        convert_document(v, config) is Ok,
        source_at(v, p) matches Some(x) && x.is_scalar(),
        distinct_along(v, p, config.max_depth as nat, config),
    ensures
        host_at(convert_document(v, config)->Ok_0, p) matches Some(d) && convert_document(
            source_at(v, p)->0,
            config,
        ) == Ok::<Dyn, ErrModel>(d),
{
    let budget = config.max_depth as nat;
    lemma_converted_at(v, p, budget, config);
    law_scalar_independent_of_position(
        source_at(v, p)->0,
        (budget - p.len()) as nat,
        budget,
        config,
    );
}

} // verus!

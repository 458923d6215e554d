use yaml_bridge::bridge::{convert, convert_key, table_store, BridgeConfig, NullPolicy, DEFAULT_MAX_DEPTH};
use yaml_bridge::error::{BridgeError, PathStep};
use yaml_bridge::parse::check_yaml;
use yaml_bridge::value::{HostKey, HostKind, HostValue, SourceKind, YamlValue};

fn s(text: &str) -> YamlValue {
    YamlValue::Str(text.to_string())
}

fn hs(text: &str) -> HostValue {
    HostValue::Str(text.to_string())
}

fn hk(text: &str) -> HostKey {
    HostKey::Str(text.to_string())
}

fn sentinel() -> BridgeConfig {
    BridgeConfig::new()
}

fn nil() -> BridgeConfig {
    BridgeConfig::new().with_null_policy(NullPolicy::Nil)
}

fn scenario_document() -> YamlValue {
    YamlValue::Mapping(vec![
        (s("a"), YamlValue::Int(1)),
        (s("b"), YamlValue::Float(2.5f64.to_bits())),
        (s("c"), YamlValue::Bool(true)),
        (s("d"), YamlValue::Null),
        (
            s("e"),
            YamlValue::Sequence(vec![YamlValue::Int(1), YamlValue::Int(2), YamlValue::Int(3)]),
        ),
    ])
}

#[test]
fn mixed_mapping_with_sentinel_null() {
    let out = convert(&scenario_document(), &sentinel()).unwrap();
    let expected = HostValue::Table(vec![
        (hk("a"), HostValue::Int(1)),
        (hk("b"), HostValue::Float(2.5f64.to_bits())),
        (hk("c"), HostValue::Bool(true)),
        (hk("d"), HostValue::NullSentinel),
        (
            hk("e"),
            HostValue::Array(vec![HostValue::Int(1), HostValue::Int(2), HostValue::Int(3)]),
        ),
    ]);
    assert_eq!(out, expected);
}

#[test]
fn mixed_mapping_with_nil_null() {
    let out = convert(&scenario_document(), &nil()).unwrap();
    match out {
        HostValue::Table(entries) => {
            assert_eq!(entries.len(), 5);
            assert_eq!(entries[3], (hk("d"), HostValue::Nil));
        }
        other => panic!("expected a table, got {:?}", other),
    }
}

#[test]
fn duplicate_key_last_wins() {
    let doc = YamlValue::Mapping(vec![(s("k"), YamlValue::Int(1)), (s("k"), YamlValue::Int(2))]);
    let out = convert(&doc, &sentinel()).unwrap();
    assert_eq!(out, HostValue::Table(vec![(hk("k"), HostValue::Int(2))]));
}

#[test]
fn duplicate_key_keeps_first_position() {
    let doc = YamlValue::Mapping(vec![
        (s("k"), YamlValue::Int(1)),
        (s("m"), YamlValue::Int(5)),
        (s("k"), YamlValue::Int(2)),
    ]);
    let out = convert(&doc, &sentinel()).unwrap();
    assert_eq!(
        out,
        HostValue::Table(vec![(hk("k"), HostValue::Int(2)), (hk("m"), HostValue::Int(5))])
    );
}

#[test]
fn sequence_keeps_order() {
    let doc = YamlValue::Sequence(vec![s("a"), s("b"), s("c")]);
    let out = convert(&doc, &sentinel()).unwrap();
    assert_eq!(out, HostValue::Array(vec![hs("a"), hs("b"), hs("c")]));
}

#[test]
fn integer_past_host_range_fails() {
    let doc = YamlValue::Int(9223372036854775808);
    let err = convert(&doc, &sentinel()).unwrap_err();
    assert_eq!(err, BridgeError::Range { value: 9223372036854775808, path: vec![] });
}

#[test]
fn integer_range_edges() {
    assert_eq!(convert(&YamlValue::Int(i64::MAX as i128), &sentinel()), Ok(HostValue::Int(i64::MAX)));
    assert_eq!(convert(&YamlValue::Int(i64::MIN as i128), &sentinel()), Ok(HostValue::Int(i64::MIN)));
    assert!(matches!(
        convert(&YamlValue::Int(i64::MIN as i128 - 1), &sentinel()),
        Err(BridgeError::Range { .. })
    ));
}

#[test]
fn nested_range_error_names_its_path() {
    let doc = YamlValue::Mapping(vec![
        (s("ok"), YamlValue::Int(1)),
        (s("list"), YamlValue::Sequence(vec![YamlValue::Int(0), YamlValue::Int(u64::MAX as i128)])),
    ]);
    let err = convert(&doc, &sentinel()).unwrap_err();
    assert_eq!(
        err,
        BridgeError::Range {
            value: u64::MAX as i128,
            path: vec![PathStep::Entry(1), PathStep::Item(1)],
        }
    );
}

#[test]
fn malformed_text_is_a_grammar_error() {
    match check_yaml("a: [1,2") {
        Err(BridgeError::Grammar { message }) => assert!(!message.is_empty()),
        other => panic!("expected a grammar error, got {:?}", other),
    }
}

#[test]
fn well_formed_text_passes_the_grammar() {
    assert_eq!(check_yaml("a: 1\nb: 2.5\nc: true\nd: null\ne: [1,2,3]"), Ok(()));
    assert_eq!(check_yaml("- a\n- b\n- c"), Ok(()));
}

#[test]
fn repeated_key_passes_the_grammar() {
    assert_eq!(check_yaml("k: 1\nk: 2"), Ok(()));
}

#[test]
fn depth_limit_is_enforced() {
    let doc = YamlValue::Sequence(vec![YamlValue::Sequence(vec![YamlValue::Int(1)])]);
    let config = sentinel().with_max_depth(2);
    let err = convert(&doc, &config).unwrap_err();
    assert_eq!(
        err,
        BridgeError::DepthExceeded { limit: 2, path: vec![PathStep::Item(0), PathStep::Item(0)] }
    );
    let config = sentinel().with_max_depth(3);
    assert_eq!(
        convert(&doc, &config),
        Ok(HostValue::Array(vec![HostValue::Array(vec![HostValue::Int(1)])]))
    );
}

#[test]
fn zero_depth_rejects_a_scalar() {
    let config = sentinel().with_max_depth(0);
    assert_eq!(
        convert(&YamlValue::Bool(true), &config),
        Err(BridgeError::DepthExceeded { limit: 0, path: vec![] })
    );
}

#[test]
fn composite_keys_are_kept_apart() {
    let doc = YamlValue::Mapping(vec![
        (s("x"), YamlValue::Int(1)),
        (YamlValue::Sequence(vec![YamlValue::Int(1)]), YamlValue::Int(2)),
        (YamlValue::Sequence(vec![YamlValue::Int(1)]), YamlValue::Int(3)),
        (YamlValue::Mapping(vec![]), YamlValue::Int(4)),
    ]);
    assert_eq!(
        convert(&doc, &sentinel()),
        Ok(HostValue::Table(vec![
            (hk("x"), HostValue::Int(1)),
            (HostKey::Array(vec![HostValue::Int(1)]), HostValue::Int(2)),
            (HostKey::Array(vec![HostValue::Int(1)]), HostValue::Int(3)),
            (HostKey::Table(vec![]), HostValue::Int(4)),
        ]))
    );
}

#[test]
fn failure_inside_a_composite_key_names_its_path() {
    let doc = YamlValue::Mapping(vec![(
        YamlValue::Sequence(vec![YamlValue::Null, YamlValue::Int(1 << 63)]),
        YamlValue::Int(2),
    )]);
    assert_eq!(
        convert(&doc, &sentinel()),
        Err(BridgeError::Range { value: 1 << 63, path: vec![PathStep::Key(0), PathStep::Item(1)] })
    );
}

#[test]
fn null_key_depends_on_policy() {
    let doc = YamlValue::Mapping(vec![(YamlValue::Null, YamlValue::Int(7))]);
    assert_eq!(
        convert(&doc, &sentinel()),
        Ok(HostValue::Table(vec![(HostKey::NullSentinel, HostValue::Int(7))]))
    );
    assert_eq!(
        convert(&doc, &nil()),
        Err(BridgeError::UnsupportedKey { key_kind: SourceKind::Null, path: vec![PathStep::Key(0)] })
    );
}

#[test]
fn nan_key_is_unsupported() {
    let nan = YamlValue::Float(f64::NAN.to_bits());
    assert_eq!(
        convert_key(&nan, 1, &sentinel()),
        Err(BridgeError::UnsupportedKey { key_kind: SourceKind::Float, path: vec![] })
    );
    let inf = YamlValue::Float(f64::INFINITY.to_bits());
    assert_eq!(convert_key(&inf, 1, &sentinel()), Ok(HostKey::Float(f64::INFINITY.to_bits())));
}

#[test]
fn scalar_keys_convert() {
    assert_eq!(convert_key(&YamlValue::Bool(false), 1, &nil()), Ok(HostKey::Bool(false)));
    assert_eq!(convert_key(&YamlValue::Int(-3), 1, &nil()), Ok(HostKey::Int(-3)));
    assert_eq!(convert_key(&s("k"), 1, &nil()), Ok(hk("k")));
    assert!(matches!(
        convert_key(&YamlValue::Int(1 << 70), 1, &nil()),
        Err(BridgeError::Range { .. })
    ));
}

#[test]
fn non_string_keys_are_kept() {
    let doc = YamlValue::Mapping(vec![
        (YamlValue::Int(1), s("one")),
        (YamlValue::Bool(true), s("yes")),
        (YamlValue::Float(1.5f64.to_bits()), s("half")),
    ]);
    assert_eq!(
        convert(&doc, &sentinel()),
        Ok(HostValue::Table(vec![
            (HostKey::Int(1), hs("one")),
            (HostKey::Bool(true), hs("yes")),
            (HostKey::Float(1.5f64.to_bits()), hs("half")),
        ]))
    );
}

#[test]
fn first_failure_wins() {
    let doc = YamlValue::Sequence(vec![
        YamlValue::Int(1 << 64),
        YamlValue::Mapping(vec![(YamlValue::Null, YamlValue::Null)]),
    ]);
    assert_eq!(
        convert(&doc, &sentinel()),
        Err(BridgeError::Range { value: 1 << 64, path: vec![PathStep::Item(0)] })
    );
}

#[test]
fn null_converts_to_configured_representation_every_time() {
    for _ in 0..3 {
        assert_eq!(convert(&YamlValue::Null, &sentinel()), Ok(HostValue::NullSentinel));
        assert_eq!(convert(&YamlValue::Null, &nil()), Ok(HostValue::Nil));
    }
}

#[test]
fn scalar_converts_alike_everywhere() {
    let top = convert(&s("same"), &sentinel()).unwrap();
    let nested = YamlValue::Sequence(vec![YamlValue::Mapping(vec![(s("k"), s("same"))])]);
    match convert(&nested, &sentinel()).unwrap() {
        HostValue::Array(items) => match &items[0] {
            HostValue::Table(entries) => assert_eq!(entries[0].1, top),
            other => panic!("expected a table, got {:?}", other),
        },
        other => panic!("expected an array, got {:?}", other),
    }
}

#[test]
fn kinds_follow_the_mapping_table() {
    let cases = vec![
        (YamlValue::Null, HostKind::NullSentinel),
        (YamlValue::Bool(true), HostKind::Bool),
        (YamlValue::Int(4), HostKind::Int),
        (YamlValue::Float(0.25f64.to_bits()), HostKind::Float),
        (s("t"), HostKind::Str),
        (YamlValue::Sequence(vec![]), HostKind::Array),
        (YamlValue::Mapping(vec![]), HostKind::Table),
    ];
    for (value, kind) in cases {
        assert_eq!(convert(&value, &sentinel()).unwrap().kind(), kind);
    }
    assert_eq!(convert(&YamlValue::Null, &nil()).unwrap().kind(), HostKind::Nil);
    assert_eq!(YamlValue::Mapping(vec![]).kind(), SourceKind::Mapping);
    assert_eq!(s("t").kind(), SourceKind::Str);
}

#[test]
fn empty_containers() {
    assert_eq!(convert(&YamlValue::Sequence(vec![]), &sentinel()), Ok(HostValue::Array(vec![])));
    assert_eq!(convert(&YamlValue::Mapping(vec![]), &sentinel()), Ok(HostValue::Table(vec![])));
}

#[test]
fn table_store_overwrites_or_appends() {
    let mut table = vec![(hk("a"), HostValue::Int(1))];
    table_store(&mut table, hk("b"), HostValue::Int(2));
    table_store(&mut table, hk("a"), HostValue::Int(3));
    assert_eq!(table, vec![(hk("a"), HostValue::Int(3)), (hk("b"), HostValue::Int(2))]);
}

#[test]
fn key_equality() {
    assert!(hk("a").same_key(&hk("a")));
    assert!(!hk("a").same_key(&hk("b")));
    assert!(!HostKey::Int(1).same_key(&HostKey::Float(1.0f64.to_bits())));
    assert!(HostKey::NullSentinel.same_key(&HostKey::NullSentinel));
}

#[test]
fn error_within_prefixes_the_path() {
    let e = BridgeError::Range { value: 1 << 65, path: vec![PathStep::Item(2)] };
    assert_eq!(
        e.within(PathStep::Entry(0)),
        BridgeError::Range { value: 1 << 65, path: vec![PathStep::Entry(0), PathStep::Item(2)] }
    );
    let g = BridgeError::Grammar { message: "bad".to_string() };
    assert_eq!(g.clone().within(PathStep::Key(1)), g);
}

#[test]
fn config_builders() {
    let c = BridgeConfig::new();
    assert_eq!(c.null_policy, NullPolicy::Sentinel);
    assert_eq!(c.max_depth, DEFAULT_MAX_DEPTH);
    let c = c.with_max_depth(9).with_null_policy(NullPolicy::Nil);
    assert_eq!(c, BridgeConfig { null_policy: NullPolicy::Nil, max_depth: 9 });
}

#[test]
fn default_depth_limit() {
    let mut doc = YamlValue::Int(0);
    for _ in 0..DEFAULT_MAX_DEPTH {
        doc = YamlValue::Sequence(vec![doc]);
    }
    match convert(&doc, &sentinel()) {
        Err(BridgeError::DepthExceeded { limit, path }) => {
            assert_eq!(limit, DEFAULT_MAX_DEPTH);
            assert_eq!(path.len(), DEFAULT_MAX_DEPTH);
        }
        other => panic!("expected a depth failure, got {:?}", other.is_ok()),
    }
    assert_eq!(DEFAULT_MAX_DEPTH, 100);
}

#[test]
fn key_depth_counts_like_value_depth() {
    let doc = YamlValue::Mapping(vec![(YamlValue::Sequence(vec![YamlValue::Int(1)]), YamlValue::Int(2))]);
    assert!(matches!(
        convert(&doc, &sentinel().with_max_depth(2)),
        Err(BridgeError::DepthExceeded { .. })
    ));
    assert!(convert(&doc, &sentinel().with_max_depth(3)).is_ok());
}

#[test]
fn integral_float_keys_become_integers() {
    let c = sentinel();
    assert_eq!(convert_key(&YamlValue::Float(1.0f64.to_bits()), 1, &c), Ok(HostKey::Int(1)));
    assert_eq!(convert_key(&YamlValue::Float((-0.0f64).to_bits()), 1, &c), Ok(HostKey::Int(0)));
    assert_eq!(convert_key(&YamlValue::Float((-3.0f64).to_bits()), 1, &c), Ok(HostKey::Int(-3)));
    assert_eq!(convert_key(&YamlValue::Float(4096.0f64.to_bits()), 1, &c), Ok(HostKey::Int(4096)));
    assert_eq!(
        convert_key(&YamlValue::Float((-9223372036854775808.0f64).to_bits()), 1, &c),
        Ok(HostKey::Int(i64::MIN))
    );
    assert_eq!(
        convert_key(&YamlValue::Float(9223372036854775808.0f64.to_bits()), 1, &c),
        Ok(HostKey::Float(9223372036854775808.0f64.to_bits()))
    );
    assert_eq!(
        convert_key(&YamlValue::Float(1.5f64.to_bits()), 1, &c),
        Ok(HostKey::Float(1.5f64.to_bits()))
    );
    assert_eq!(
        convert_key(&YamlValue::Float(0.25f64.to_bits()), 1, &c),
        Ok(HostKey::Float(0.25f64.to_bits()))
    );
    assert_eq!(
        convert_key(&YamlValue::Float(1e300f64.to_bits()), 1, &c),
        Ok(HostKey::Float(1e300f64.to_bits()))
    );
}

#[test]
fn integer_and_integral_float_keys_share_a_slot() {
    let doc = YamlValue::Mapping(vec![
        (YamlValue::Int(1), s("a")),
        (YamlValue::Float(1.0f64.to_bits()), s("b")),
    ]);
    assert_eq!(convert(&doc, &sentinel()), Ok(HostValue::Table(vec![(HostKey::Int(1), hs("b"))])));
}

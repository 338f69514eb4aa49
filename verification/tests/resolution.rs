use canister_gateway::identity::Identity;
use canister_gateway::resolve::{LookupAction, RealAccess, ResolveStart};
use canister_gateway::rules::RuleTable;

const CANISTER_TEXT: &str = "r5m5i-tiaaa-aaaaj-acgaq-cai";

fn table_with_alias() -> RuleTable {
    let aliases = vec![format!("uefa_nfts4g:{}", CANISTER_TEXT).into_bytes()];
    let suffixes: Vec<Vec<u8>> = vec![];
    RuleTable::new(&aliases, &suffixes).expect("alias must parse")
}

fn resolve(
    table: &RuleTable,
    path: &str,
    query: Option<&str>,
) -> Option<(String, String)> {
    match canister_gateway::resolve::start_resolution(
        table,
        path.as_bytes(),
        query.map(|q| q.as_bytes()),
        false,
        false,
    ) {
        ResolveStart::Resolved(target) => Some((
            String::from_utf8(target.canister_id.to_text()).unwrap(),
            String::from_utf8(target.found_uri).unwrap(),
        )),
        ResolveStart::Pending(_, action, _) => {
            // With no cache and no registry the pending lookup is already
            // finished and empty.
            match action {
                LookupAction::Done(res) => {
                    assert!(res.identity.is_none());
                    None
                }
                _ => panic!("no outside source should be consulted"),
            }
        }
        ResolveStart::Unresolved => None,
    }
}

#[test]
fn test_resolve_canister_id_from_uri() {
    let table = table_with_alias();

    let res = resolve(&table, "/-/uefa_nfts4g/-/uefa_nfts4g_0", None);
    let (canister_id, uri) = res.unwrap();
    assert_eq!("/-/uefa_nfts4g_0", uri);
    assert_eq!(CANISTER_TEXT, canister_id);

    let res = resolve(&table, "/-/r5m5i-tiaaa-aaaaj-acgaq-cai/-/uefa_nfts4g_0", None);
    let (canister_id, uri) = res.unwrap();
    assert_eq!("/-/uefa_nfts4g_0", uri);
    assert_eq!(CANISTER_TEXT, canister_id);

    let res = resolve(&table, "/-/r5m5i-tiaaa-aaaaj-acgaq-cai/-/1", None);
    let (canister_id, uri) = res.unwrap();
    assert_eq!("/-/1", uri);
    assert_eq!(CANISTER_TEXT, canister_id);

    let res = resolve(&table, "/-/r5m5i-tiaaa-aaaaj-acgaq-cai/-/1/ex", None);
    let (canister_id, uri) = res.unwrap();
    assert_eq!("/-/1/ex", uri);
    assert_eq!(CANISTER_TEXT, canister_id);

    let res = resolve(&table, "/-/r5m5i-tiaaa-aaaaj-acgaq-cai/-/1/ex/yx", None);
    let (canister_id, uri) = res.unwrap();
    assert_eq!("/-/1/ex/yx", uri);
    assert_eq!(CANISTER_TEXT, canister_id);

    let res = resolve(
        &table,
        "/-/r5m5i-tiaaa-aaaaj-acgaq-cai/-/1/ex/yx",
        Some("q1=23&q2=33"),
    );
    let (canister_id, uri) = res.unwrap();
    assert_eq!("/-/1/ex/yx?q1=23&q2=33", uri);
    assert_eq!(CANISTER_TEXT, canister_id);

    let res = resolve(
        &table,
        "/-/r5m5i-tiaaa-aaaaj-acgaq-cai/-/1/ex/yx",
        Some("_raw"),
    );
    let (canister_id, uri) = res.unwrap();
    assert_eq!("/-/1/ex/yx?_raw", uri);
    assert_eq!(CANISTER_TEXT, canister_id);

    let res = resolve(&table, "/uefa_nfts4g/-/uefa_nfts4g_0", None);
    assert!(res.is_none());

    let res = resolve(&table, "/-/uefa_nfts4g/uefa_nfts4g_0", None);
    assert!(res.is_none());

    let res = resolve(&table, "/-/uefa_nfts3g/-/uefa_nfts4g_0", None);
    assert!(res.is_none());

    let res = resolve(&table, "/uefa_nfts4g/uefa_nfts4g_0", None);
    assert!(res.is_none());

    let res = resolve(&table, "/-/uefa_nfts4g", None);
    assert!(res.is_none());
}

#[test]
fn alias_resolves_without_outside_sources() {
    let table = table_with_alias();
    let id = table.lookup_name(b"uefa_nfts4g").expect("alias must resolve");
    assert_eq!(id.to_text(), CANISTER_TEXT.as_bytes());
    // Mixed case resolves the same.
    let id = table.lookup_name(b"UEFA_NFTS4G").expect("alias must resolve");
    assert_eq!(id.to_text(), CANISTER_TEXT.as_bytes());
}

#[test]
fn suffixes_match_longest_first() {
    // "aaaaa-aa" is a syntactically valid identity text, so a name can end
    // with ".aaaaa-aa.b.c" and match both registered suffixes; the longer
    // one must decide.
    let aliases: Vec<Vec<u8>> = vec![];
    let suffixes = vec![b"b.c".to_vec(), b"aaaaa-aa.b.c".to_vec()];
    let table = RuleTable::new(&aliases, &suffixes).unwrap();

    let name = format!("{}.aaaaa-aa.b.c", CANISTER_TEXT);
    let id = table.lookup_name(name.as_bytes()).expect("suffix must match");
    assert_eq!(id.to_text(), CANISTER_TEXT.as_bytes());

    // Through the short suffix alone the same name would resolve to the
    // identity "aaaaa-aa" instead.
    let short_only = RuleTable::new(&aliases, &vec![b"b.c".to_vec()]).unwrap();
    let id = short_only.lookup_name(name.as_bytes()).expect("short suffix must match");
    assert_eq!(id.to_text(), b"aaaaa-aa");
}

#[test]
fn suffix_requires_preceding_identity() {
    let aliases: Vec<Vec<u8>> = vec![];
    let suffixes = vec![b"b.c".to_vec()];
    let table = RuleTable::new(&aliases, &suffixes).unwrap();
    assert!(table.lookup_name(b"nope.b.c").is_none());
    assert!(table.lookup_name(b"b.c").is_none());
}

#[test]
fn duplicate_alias_names_keep_insertion_order() {
    // Two alias rules bind one name: the stable tie order makes the earlier
    // entry win.
    let aliases = vec![
        format!("dup:{}", CANISTER_TEXT).into_bytes(),
        b"dup:aaaaa-aa".to_vec(),
    ];
    let suffixes: Vec<Vec<u8>> = vec![];
    let table = RuleTable::new(&aliases, &suffixes).unwrap();
    let id = table.lookup_name(b"dup").expect("alias must resolve");
    assert_eq!(id.to_text(), CANISTER_TEXT.as_bytes());
}

#[test]
fn same_alias_and_suffix_prefer_the_alias() {
    // A suffix rule of the same domain is ordered first (suffixes are
    // inserted first) but only matches when preceded by an identity text,
    // so the bare name falls to the alias.
    let aliases = vec![format!("a.b.c:{}", CANISTER_TEXT).into_bytes()];
    let suffixes = vec![b"a.b.c".to_vec()];
    let table = RuleTable::new(&aliases, &suffixes).unwrap();

    let id = table.lookup_name(b"a.b.c").expect("alias must resolve");
    assert_eq!(id.to_text(), CANISTER_TEXT.as_bytes());

    let name = b"aaaaa-aa.a.b.c";
    let id = table.lookup_name(name).expect("suffix must resolve");
    assert_eq!(id.to_text(), b"aaaaa-aa");
}

#[test]
fn malformed_alias_is_refused() {
    let aliases = vec![b"no-colon-here".to_vec()];
    let suffixes: Vec<Vec<u8>> = vec![];
    assert!(RuleTable::new(&aliases, &suffixes).is_none());
    let aliases = vec![b"name:not-an-identity".to_vec()];
    assert!(RuleTable::new(&aliases, &suffixes).is_none());
}

#[test]
fn table_exports_its_configuration() {
    let aliases = vec![format!("uefa_nfts4g:{}", CANISTER_TEXT).into_bytes()];
    let suffixes = vec![b"b.c".to_vec()];
    let table = RuleTable::new(&aliases, &suffixes).unwrap();
    let (alias_texts, suffix_texts) = table.alias_and_suffix_texts();
    assert_eq!(alias_texts, vec![format!("uefa_nfts4g:{}", CANISTER_TEXT).into_bytes()]);
    assert_eq!(suffix_texts, vec![b"b.c".to_vec()]);
}

#[test]
fn cache_hit_ends_lookup() {
    let (mut machine, action) = RealAccess::begin(b"somename".to_vec(), true, true);
    assert!(matches!(action, LookupAction::QueryCache(ref n) if n == b"somename"));
    let action = machine.on_cache_result(Some(CANISTER_TEXT.as_bytes().to_vec()));
    match action {
        LookupAction::Done(res) => {
            assert_eq!(res.identity.unwrap().to_text(), CANISTER_TEXT.as_bytes());
            assert!(res.refill.is_none());
        }
        _ => panic!("cache hit must finish the lookup"),
    }
}

#[test]
fn undecodable_cache_entry_falls_through() {
    let (mut machine, _) = RealAccess::begin(b"somename".to_vec(), true, true);
    let action = machine.on_cache_result(Some(b"not an identity".to_vec()));
    assert!(matches!(action, LookupAction::QueryRegistry(ref n) if n == b"somename"));
}

#[test]
fn registry_hit_posts_refill() {
    let (mut machine, _) = RealAccess::begin(b"somename".to_vec(), true, true);
    let action = machine.on_cache_result(None);
    assert!(matches!(action, LookupAction::QueryRegistry(_)));
    let id = Identity::from_text(CANISTER_TEXT.as_bytes()).unwrap();
    let action = machine.on_registry_result(Some(vec![id]));
    match action {
        LookupAction::Done(res) => {
            assert_eq!(res.identity.unwrap().to_text(), CANISTER_TEXT.as_bytes());
            let (name, text) = res.refill.unwrap();
            assert_eq!(name, b"somename".to_vec());
            assert_eq!(text, CANISTER_TEXT.as_bytes().to_vec());
        }
        _ => panic!("registry hit must finish the lookup"),
    }
}

#[test]
fn unresolvable_locator_misses_every_source() {
    let (mut machine, _) = RealAccess::begin(b"uefa_nfts3g".to_vec(), true, true);
    let action = machine.on_cache_result(None);
    assert!(matches!(action, LookupAction::QueryRegistry(_)));
    let action = machine.on_registry_result(Some(vec![]));
    match action {
        LookupAction::Done(res) => {
            assert!(res.identity.is_none());
            assert!(res.refill.is_none());
        }
        _ => panic!("empty registry reply must finish the lookup"),
    }
}

#[test]
fn table_miss_falls_to_the_cache_first() {
    let table = table_with_alias();
    match canister_gateway::resolve::start_resolution(
        &table,
        b"/-/unknown_name/-/asset",
        None,
        true,
        true,
    ) {
        ResolveStart::Pending(_, LookupAction::QueryCache(name), rewritten) => {
            assert_eq!(name, b"unknown_name".to_vec());
            assert_eq!(rewritten, b"/-/asset".to_vec());
        }
        _ => panic!("a table miss with a cache configured must query the cache"),
    }
}

#[test]
fn identity_text_round_trip() {
    let id = Identity::from_text(CANISTER_TEXT.as_bytes()).expect("valid text");
    let text = id.to_text();
    assert_eq!(text, CANISTER_TEXT.as_bytes().to_vec());
    let back = Identity::from_text(text.as_slice()).expect("round trip");
    assert_eq!(back, id);
    // The library agrees with the candid crate byte for byte.
    let principal = candid::Principal::from_text(CANISTER_TEXT).unwrap();
    assert_eq!(id.as_bytes().as_slice(), principal.as_slice());
}

#[test]
fn oversized_identity_is_refused() {
    assert!(Identity::from_bytes(vec![0u8; 29]).is_some());
    assert!(Identity::from_bytes(vec![0u8; 30]).is_none());
}

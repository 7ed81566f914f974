use op_tui::cache::{decode_items, encode_items, CacheDecodeError};
use op_tui::flow::{
    clipboard_check, flatten_candidates, flow_step, ClipboardError, FlowEvent, FlowOutcome,
    FlowState,
};
use op_tui::gateway::{
    classify_outcome, get_read_args, get_record_args, get_vault_args, op_read_reference,
    CmdOutcome, GatewayError,
};
use op_tui::item::{Field, Item, ItemRaw, Section, SectionRaw};
use op_tui::resolver::{
    after_cache_load, collect_fetch_results, initial_action, AfterLoad, CacheLoadEvent,
    ResolveAction, ResolverError,
};
use op_tui::text::str_is_blank;
use op_tui::{get_args, Args, ConfigError};

fn field(reference: &str, section: Option<&str>) -> Field {
    Field {
        reference: reference.to_string(),
        label: String::new(),
        section: section.map(|label| SectionRaw { label: label.to_string() }),
    }
}

fn raw_record(title: &str, fields: Vec<Field>) -> ItemRaw {
    ItemRaw { title: title.to_string(), tags: vec!["tag-a".to_string()], fields }
}

fn sample_item(title: &str) -> Item {
    Item {
        title: title.to_string(),
        tags: vec!["work".to_string(), "personal".to_string()],
        sections: vec![
            Section { title: title.to_string(), reference: format!("op://v/{}/password", title) },
        ],
    }
}

fn assert_items_equal(a: &[Item], b: &[Item]) {
    assert_eq!(a.len(), b.len());
    for (x, y) in a.iter().zip(b.iter()) {
        assert_eq!(x.title, y.title);
        assert_eq!(x.tags, y.tags);
        assert_eq!(x.sections.len(), y.sections.len());
        for (s, t) in x.sections.iter().zip(y.sections.iter()) {
            assert_eq!(s.title, t.title);
            assert_eq!(s.reference, t.reference);
        }
    }
}

#[test]
fn transformer_keeps_only_password_fields() {
    let raw = raw_record(
        "GitHub",
        vec![
            field("op://v/i/username", None),
            field("op://v/i/password", None),
            field("op://v/i/notes", None),
        ],
    );
    let item = Item::from_raw(raw);
    assert_eq!(item.title, "GitHub");
    assert_eq!(item.sections.len(), 1);
    assert_eq!(item.sections[0].reference, "op://v/i/password");
}

#[test]
fn transformer_keeps_source_order_and_duplicates() {
    let raw = raw_record(
        "Router",
        vec![
            field("op://v/i/password", None),
            field("op://v/i/wifi-password", None),
            field("op://v/i/admin-password", Some("Admin")),
        ],
    );
    let item = Item::from_raw(raw);
    assert_eq!(item.sections.len(), 3);
    assert_eq!(item.sections[0].reference, "op://v/i/password");
    assert_eq!(item.sections[1].reference, "op://v/i/wifi-password");
    assert_eq!(item.sections[2].reference, "op://v/i/admin-password");
    // two sections fall back to the record title; repeats are kept
    assert_eq!(item.sections[0].title, "Router");
    assert_eq!(item.sections[1].title, "Router");
    assert_eq!(item.sections[2].title, "Admin");
}

#[test]
fn section_title_fallback() {
    let no_section = Item::from_raw(raw_record("Mail", vec![field("op://v/i/password", None)]));
    assert_eq!(no_section.sections[0].title, "Mail");
    let with_section =
        Item::from_raw(raw_record("Mail", vec![field("op://v/i/password", Some("Login"))]));
    assert_eq!(with_section.sections[0].title, "Login");
}

#[test]
fn transformer_marker_is_content_based() {
    let raw = raw_record("X", vec![field("no-marker-here", None), field("password", None)]);
    let item = Item::from_raw(raw);
    assert_eq!(item.sections.len(), 1);
    assert_eq!(item.sections[0].reference, "password");
}

#[test]
fn section_accessors() {
    let s = Section { title: "Login".to_string(), reference: "op://v/i/password".to_string() };
    assert_eq!(s.text(), "Login");
    assert_eq!(s.output(), "op://v/i/password");
}

#[test]
fn cache_round_trip_empty() {
    let items: Vec<Item> = Vec::new();
    let doc = encode_items(&items);
    let back = decode_items(doc.as_str()).expect("empty collection must round-trip");
    assert_eq!(back.len(), 0);
}

#[test]
fn cache_round_trip_entities() {
    let mut items = vec![sample_item("GitHub"), sample_item("Bank")];
    items[1].tags = Vec::new();
    items[1].sections.push(Section {
        title: "Umlaut \u{00e4}".to_string(),
        reference: "op://v/bank/one-time-password".to_string(),
    });
    let doc = encode_items(&items);
    let back = decode_items(doc.as_str()).expect("collection must round-trip");
    assert_items_equal(&items, &back);
}

#[test]
fn cache_decode_rejects_garbage() {
    assert!(matches!(decode_items("not a cache document"), Err(CacheDecodeError::Malformed)));
    assert!(matches!(decode_items(""), Err(CacheDecodeError::Malformed)));
}

#[test]
fn cache_decode_rejects_trailing_content() {
    let doc = format!("{}x", encode_items(&vec![sample_item("A")]));
    assert!(matches!(decode_items(doc.as_str()), Err(CacheDecodeError::Malformed)));
}

#[test]
fn cache_decode_rejects_oversized_length() {
    assert!(matches!(
        decode_items("1:999999999999999999999999999999:x"),
        Err(CacheDecodeError::Malformed)
    ));
}

#[test]
fn get_args_accepts_normal_modes() {
    let config = get_args(Args {
        refresh_cache: true,
        no_cache: false,
        cache_path: "/tmp/items.cache".to_string(),
        vault: "all".to_string(),
    })
    .expect("refresh alone is accepted");
    assert!(config.refresh_cache);
    assert!(!config.no_cache);
    assert_eq!(config.cache_path, "/tmp/items.cache");
    assert_eq!(config.vault, "all");
}

#[test]
fn get_args_rejects_conflicting_modes() {
    let r = get_args(Args {
        refresh_cache: true,
        no_cache: true,
        cache_path: String::new(),
        vault: "all".to_string(),
    });
    assert!(matches!(r, Err(ConfigError::ConflictingModes)));
}

fn config(refresh: bool, no_cache: bool) -> op_tui::Config {
    get_args(Args {
        refresh_cache: refresh,
        no_cache,
        cache_path: "/tmp/items.cache".to_string(),
        vault: "all".to_string(),
    })
    .expect("modes are compatible")
}

#[test]
fn resolver_bypass_never_touches_cache() {
    assert!(matches!(initial_action(&config(false, true)), ResolveAction::FetchOnly));
}

#[test]
fn resolver_refresh_overwrites() {
    assert!(matches!(initial_action(&config(true, false)), ResolveAction::FetchThenCache));
}

#[test]
fn resolver_default_reads_cache_first() {
    assert!(matches!(initial_action(&config(false, false)), ResolveAction::LoadCache));
}

#[test]
fn resolver_missing_cache_falls_back_to_fetch() {
    assert!(matches!(after_cache_load(CacheLoadEvent::NotFound), AfterLoad::FetchThenCache));
}

#[test]
fn resolver_corrupt_cache_is_fatal() {
    assert!(matches!(
        after_cache_load(CacheLoadEvent::Failed),
        AfterLoad::Fail(ResolverError::CacheUnreadable)
    ));
}

#[test]
fn fetch_resilience_skips_failed_record() {
    let outcomes = vec![
        Some(raw_record("A", vec![field("op://v/a/password", None)])),
        None,
        Some(raw_record("C", vec![field("op://v/c/password", None)])),
    ];
    let items = collect_fetch_results(outcomes);
    assert_eq!(items.len(), 2);
    assert_eq!(items[0].title, "A");
    assert_eq!(items[1].title, "C");
}

#[test]
fn scenario_first_run_fetches_and_persists() {
    // cache absent, both flags unset, vault selector "all"
    let c = config(false, false);
    assert_eq!(c.vault, "all");
    assert!(matches!(initial_action(&c), ResolveAction::LoadCache));
    // the cache file does not exist, so the load reports NotFound
    assert!(matches!(after_cache_load(CacheLoadEvent::NotFound), AfterLoad::FetchThenCache));
    // the gateway returns two summaries; both fetch and transform succeed
    let outcomes = vec![
        Some(raw_record("One", vec![field("op://v/one/password", None)])),
        Some(raw_record("Two", vec![field("op://v/two/password", None)])),
    ];
    let items = collect_fetch_results(outcomes);
    assert_eq!(items.len(), 2);
    // the collection is persisted and round-trips to the same entities
    let doc = encode_items(&items);
    let back = decode_items(doc.as_str()).expect("persisted cache must load");
    assert_items_equal(&items, &back);
}

#[test]
fn scenario_cached_entities_are_used_as_is() {
    let items = vec![sample_item("A"), sample_item("B"), sample_item("C")];
    let doc = encode_items(&items);
    let loaded = decode_items(doc.as_str()).expect("cache must load");
    // no flags set: the cached collection is returned as-is, no fetch
    match after_cache_load(CacheLoadEvent::Loaded(loaded)) {
        AfterLoad::Use(used) => assert_items_equal(&items, &used),
        _ => panic!("a loaded cache must be used as-is"),
    }
}

#[test]
fn flatten_preserves_entity_then_section_order() {
    let mut a = sample_item("A");
    a.sections.push(Section {
        title: "Extra".to_string(),
        reference: "op://v/a/second-password".to_string(),
    });
    let b = sample_item("B");
    let candidates = flatten_candidates(&vec![a, b]);
    assert_eq!(candidates.len(), 3);
    assert_eq!(candidates[0].reference, "op://v/A/password");
    assert_eq!(candidates[1].reference, "op://v/a/second-password");
    assert_eq!(candidates[2].reference, "op://v/B/password");
}

#[test]
fn scenario_blank_secret_is_not_copied() {
    let state = flow_step(FlowState::Idle, FlowEvent::Begin(vec![sample_item("A")]));
    let chosen = match &state {
        FlowState::AwaitingSelection(c) => {
            assert_eq!(c.len(), 1);
            Section { title: c[0].title.clone(), reference: c[0].reference.clone() }
        },
        _ => panic!("Begin must move to AwaitingSelection"),
    };
    let state = flow_step(state, FlowEvent::Selected { confirmed: true, chosen: Some(chosen) });
    match &state {
        FlowState::Retrieving(reference) => assert_eq!(reference, "op://v/A/password"),
        _ => panic!("a confirmed candidate must move to Retrieving"),
    }
    let state = flow_step(state, FlowEvent::SecretRead(Ok("  ".to_string())));
    assert!(matches!(state, FlowState::Done(FlowOutcome::NothingToCopy)));
}

#[test]
fn flow_cancels_without_confirmation() {
    let state = flow_step(FlowState::Idle, FlowEvent::Begin(vec![sample_item("A")]));
    let state = flow_step(state, FlowEvent::Selected { confirmed: false, chosen: None });
    assert!(matches!(state, FlowState::Cancelled));
}

#[test]
fn flow_confirm_without_candidate_cancels() {
    let state = flow_step(FlowState::Idle, FlowEvent::Begin(vec![sample_item("A")]));
    let state = flow_step(state, FlowEvent::Selected { confirmed: true, chosen: None });
    assert!(matches!(state, FlowState::Cancelled));
}

#[test]
fn flow_nonblank_secret_moves_to_copying() {
    let state = flow_step(
        FlowState::Retrieving("op://v/a/password".to_string()),
        FlowEvent::SecretRead(Ok(" hunter2 ".to_string())),
    );
    match state {
        FlowState::Copying(secret) => assert_eq!(secret, " hunter2 "),
        _ => panic!("a non-blank secret must be copied"),
    }
}

#[test]
fn flow_secret_read_failure_is_reported() {
    let state = flow_step(
        FlowState::Retrieving("op://v/a/password".to_string()),
        FlowEvent::SecretRead(Err(GatewayError::Launch)),
    );
    assert!(matches!(state, FlowState::Done(FlowOutcome::SecretReadFailed(GatewayError::Launch))));
}

#[test]
fn scenario_clipboard_mismatch_is_integrity_failure() {
    // the read-back differs from what was written
    let check = clipboard_check(&"hunter2".to_string(), &"something else".to_string());
    assert!(matches!(check, Err(ClipboardError::Mismatch)));
    let state = flow_step(
        FlowState::Copying("hunter2".to_string()),
        FlowEvent::CopyFinished(Err(ClipboardError::Mismatch)),
    );
    assert!(matches!(
        state,
        FlowState::Done(FlowOutcome::ClipboardFailed(ClipboardError::Mismatch))
    ));
}

#[test]
fn clipboard_check_accepts_exact_match() {
    assert!(clipboard_check(&"hunter2".to_string(), &"hunter2".to_string()).is_ok());
}

#[test]
fn flow_successful_copy_ends_done() {
    let state =
        flow_step(FlowState::Copying("hunter2".to_string()), FlowEvent::CopyFinished(Ok(())));
    assert!(matches!(state, FlowState::Done(FlowOutcome::Copied)));
}

#[test]
fn blank_test_covers_whitespace_kinds() {
    assert!(str_is_blank(""));
    assert!(str_is_blank("  "));
    assert!(str_is_blank(" \t\r\n"));
    assert!(!str_is_blank(" a "));
    assert!(!str_is_blank("hunter2"));
}

#[test]
fn vault_args_cover_the_three_selectors() {
    assert_eq!(
        get_vault_args(&"favorites".to_string()),
        vec!["item", "list", "--favorite", "--format", "json"]
    );
    assert_eq!(get_vault_args(&"all".to_string()), vec!["item", "list", "--format", "json"]);
    assert_eq!(
        get_vault_args(&"Personal".to_string()),
        vec!["item", "list", "--vault", "Personal", "--format", "json"]
    );
}

#[test]
fn record_and_read_args() {
    assert_eq!(
        get_record_args(&"abc123".to_string()),
        vec!["item", "get", "abc123", "--format", "json"]
    );
    assert_eq!(
        get_read_args(&"op://v/i/password".to_string()),
        vec!["read", "op://v/i/password"]
    );
}

#[test]
fn classify_distinguishes_gateway_failures() {
    let ok = classify_outcome(CmdOutcome::Finished {
        exit_ok: true,
        stdout_text: "out".to_string(),
        stderr_text: String::new(),
    });
    assert_eq!(ok.unwrap(), "out");
    let nonzero = classify_outcome(CmdOutcome::Finished {
        exit_ok: false,
        stdout_text: String::new(),
        stderr_text: "no session".to_string(),
    });
    match nonzero {
        Err(GatewayError::NonZeroExit(stderr)) => assert_eq!(stderr, "no session"),
        _ => panic!("a non-zero exit must carry its diagnostics"),
    }
    assert!(matches!(classify_outcome(CmdOutcome::LaunchFailed), Err(GatewayError::Launch)));
}

#[test]
fn op_read_reference_classifies_like_the_gateway() {
    let secret = op_read_reference(CmdOutcome::Finished {
        exit_ok: true,
        stdout_text: "hunter2\n".to_string(),
        stderr_text: String::new(),
    });
    assert_eq!(secret.unwrap(), "hunter2\n");
    assert!(matches!(op_read_reference(CmdOutcome::LaunchFailed), Err(GatewayError::Launch)));
}

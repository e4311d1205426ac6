use shadowquic::addr::IpAddr;
use shadowquic::white::connections::TrackedConnections;
use shadowquic::white::mask::{v4_mask, v6_mask};
use shadowquic::white::policy::{
    absolute_path, load_policy, log_policy, policy_of_rules, resolve_path, FileRead, Policy,
    PolicyReport, FILE_NAME,
};
use shadowquic::white::rules::{parse_payload_rule, parse_rule, Rule, Rules};
use shadowquic::white::watcher::{affects_file, EventKind, FileEvent, PollState, PolledFile};
use std::cell::Cell;
use std::rc::{Rc, Weak};

fn ip(s: &str) -> IpAddr {
    IpAddr::parse(s).unwrap()
}

fn content(s: &str) -> FileRead {
    FileRead::Content(s.to_owned())
}

#[test]
fn empty_documents_deny_every_source() {
    let rules = Rules::parse("payload:\n").unwrap();
    assert!(!rules.allows(ip("127.0.0.1")));
    assert!(!rules.allows(ip("::1")));
}

#[test]
fn exact_addresses_and_cidrs_are_supported() {
    let rules = Rules::parse(
        "payload:\n  - SRC-IP-CIDR,192.0.2.4/32\n  - SRC-IP-CIDR,10.20.0.0/16\n  - SRC-IP-CIDR,2001:db8::/32\n",
    )
    .unwrap();

    assert!(rules.allows(ip("192.0.2.4")));
    assert!(rules.allows(ip("10.20.99.1")));
    assert!(rules.allows(ip("2001:db8:1::8")));
    assert!(!rules.allows(ip("192.0.2.5")));
    assert!(!rules.allows(ip("10.21.0.1")));
    assert!(!rules.allows(ip("2001:db9::1")));
}

#[test]
fn ipv4_mapped_addresses_are_supported() {
    let rules = Rules::parse("payload:\n  - SRC-IP-CIDR,203.0.113.0/24\n").unwrap();

    assert!(rules.allows(ip("203.0.113.9")));
    assert!(rules.allows(ip("::ffff:203.0.113.9")));
}

#[test]
fn clash_payload_format_is_supported() {
    let rules = Rules::parse(
        "payload:\n  - \"SRC-IP-CIDR,2409:8a4c:d21:acf0:4288:5793:bf8a:1b47/128\"\n  - \"SRC-IP-CIDR,61.242.130.63/32\"\n",
    )
    .unwrap();

    assert!(rules.allows(ip("2409:8a4c:d21:acf0:4288:5793:bf8a:1b47")));
    assert!(rules.allows(ip("61.242.130.63")));
    assert!(!rules.allows(ip("61.242.130.64")));
}

#[test]
fn clash_payload_rejects_non_source_rules() {
    assert!(Rules::parse("payload:\n  - DST-IP-CIDR,192.0.2.1/32\n").is_err());
    assert!(Rules::parse("payload:\n  - SRC-IP-CIDR\n").is_err());
}

#[test]
fn invalid_entry_rejects_the_whole_document() {
    assert!(Rules::parse("payload:\n  - SRC-IP-CIDR,127.0.0.1/32\n  - not-an-ip\n").is_err());
    assert!(Rules::parse("payload:\n  - SRC-IP-CIDR,10.0.0.0/33\n").is_err());
    assert!(Rules::parse("").is_err());
    assert!(Rules::parse("- SRC-IP-CIDR,127.0.0.1/32\n").is_err());
    assert!(Rules::parse("source-whitelist: []\n").is_err());
    assert!(Rules::parse("unknown-key: []\n").is_err());
}

#[test]
fn missing_file_disables_filtering() {
    let policy = load_policy(FileRead::NotFound);

    assert!(policy.allows(ip("192.0.2.10")));
    assert!(policy.allows(ip("2001:db8::10")));
}

#[test]
fn existing_empty_file_denies_every_source() {
    let policy = load_policy(content("payload:\n"));

    assert!(!policy.allows(ip("192.0.2.10")));
    assert!(!policy.allows(ip("2001:db8::10")));
}

#[test]
fn deleting_file_disables_filtering() {
    let policy = load_policy(content("payload:\n  - SRC-IP-CIDR,192.0.2.10/32\n"));
    let other_source = ip("198.51.100.10");
    assert!(!policy.allows(other_source));

    let policy = load_policy(FileRead::NotFound);

    assert!(policy.allows(other_source));
}

#[test]
fn removing_source_closes_existing_connection() {
    let policy = load_policy(content("payload:\n  - SRC-IP-CIDR,192.0.2.10/32\n"));
    let connection = Rc::new(Cell::new(false));
    let mut connections: TrackedConnections<Weak<Cell<bool>>> = TrackedConnections::new();

    let live = Vec::new();
    assert!(connections.authorize(&policy, ip("192.0.2.10"), Rc::downgrade(&connection), &live));
    assert!(policy.allows(ip("192.0.2.10")));

    let policy = load_policy(content("payload:\n"));
    let live = connections.entries.iter().map(|t| t.connection.strong_count() > 0).collect();
    for stopped in connections.reload(&policy, &live) {
        stopped.upgrade().unwrap().set(true);
    }

    assert!(connection.get());
    assert!(connections.entries.is_empty());
}

#[test]
fn file_access_events_do_not_trigger_reload() {
    let target = Some(b"source-whitelist.yaml".to_vec());
    let event = FileEvent { kind: EventKind::Access, file_names: vec![target.clone()] };

    assert!(!affects_file(&event, &target));
}

#[test]
fn other_events_trigger_reload_for_the_watched_file() {
    let target = Some(b"source-whitelist.yaml".to_vec());
    for kind in [
        EventKind::Any,
        EventKind::Create,
        EventKind::Modify,
        EventKind::Remove,
        EventKind::Other,
    ] {
        let named = FileEvent { kind, file_names: vec![Some(b"x".to_vec()), target.clone()] };
        assert!(affects_file(&named, &target));
        let unnamed = FileEvent { kind, file_names: vec![] };
        assert!(affects_file(&unnamed, &target));
        let other = FileEvent { kind, file_names: vec![Some(b"x".to_vec()), None] };
        assert!(!affects_file(&other, &target));
    }
    let nameless = FileEvent { kind: EventKind::Any, file_names: vec![None] };
    assert!(affects_file(&nameless, &None));
}

#[test]
fn polling_notices_changes_only() {
    let contents = |bytes: &[u8]| PolledFile::Contents(bytes.to_vec());
    let mut state = PollState::new(PolledFile::Missing);
    assert!(!state.observe(PolledFile::Missing));
    assert!(state.observe(contents(b"a")));
    assert!(!state.observe(contents(b"a")));
    assert!(state.observe(contents(b"b")));
    assert!(state.observe(PolledFile::Missing));
    assert!(state.observe(contents(b"")));
    assert!(state.observe(PolledFile::Unreadable));
    assert!(!state.observe(PolledFile::Unreadable));
}

#[test]
fn a_missing_file_that_becomes_unreadable_is_reloaded() {
    let mut state = PollState::new(PolledFile::Missing);
    assert!(load_policy(FileRead::NotFound).allows(ip("192.0.2.10")));
    assert!(state.observe(PolledFile::Unreadable));
    assert!(!load_policy(FileRead::Failed).allows(ip("192.0.2.10")));
    assert!(state.observe(PolledFile::Missing));
}

#[test]
fn masks_have_the_leading_bits() {
    assert_eq!(v4_mask(0), 0);
    assert_eq!(v4_mask(8), 0xff00_0000);
    assert_eq!(v4_mask(32), u32::MAX);
    assert_eq!(v6_mask(0), 0);
    assert_eq!(v6_mask(32), 0xffff_ffffu128 << 96);
    assert_eq!(v6_mask(128), u128::MAX);
}

#[test]
fn entries_spell_networks() {
    assert_eq!(
        parse_rule(" 10.20.30.40/16 "),
        Ok(Rule::V4 { network: 0x0a14_0000, prefix: 16 })
    );
    assert_eq!(
        parse_rule("192.0.2.4"),
        Ok(Rule::V4 { network: 0xc000_0204, prefix: 32 })
    );
    assert_eq!(
        parse_rule("::1"),
        Ok(Rule::V6 { network: 1, prefix: 128 })
    );
    assert_eq!(
        parse_rule("::ffff:203.0.113.9/120"),
        Ok(Rule::V4 { network: 0xcb00_7100, prefix: 24 })
    );
    assert_eq!(
        parse_rule("::ffff:203.0.113.9/95"),
        Ok(Rule::V6 { network: 0xfffe_0000_0000, prefix: 95 })
    );
    assert_eq!(
        parse_rule("1.2.3.4/+8"),
        Ok(Rule::V4 { network: 0x0100_0000, prefix: 8 })
    );
    assert_eq!(
        parse_payload_rule(" src-ip-cidr , 1.2.3.4/8"),
        Ok(Rule::V4 { network: 0x0100_0000, prefix: 8 })
    );
}

#[test]
fn rejected_entries_say_why() {
    let error = |entry: &str| parse_rule(entry).unwrap_err();
    assert_eq!(error("  "), "source whitelist contains an empty entry");
    assert_eq!(error("1.2.3.4/8/8"), "invalid source whitelist entry: 1.2.3.4/8/8");
    assert_eq!(
        error("1.2.3.4/x"),
        "invalid CIDR prefix in source whitelist entry: 1.2.3.4/x"
    );
    assert_eq!(
        error("1.2.3.4/256"),
        "invalid CIDR prefix in source whitelist entry: 1.2.3.4/256"
    );
    assert_eq!(
        error("1.2.3/8"),
        "invalid IP address in source whitelist entry: 1.2.3/8"
    );
    assert_eq!(error("1.2.3.4/33"), "IPv4 prefix must be between 0 and 32: 1.2.3.4/33");
    assert_eq!(error("::/129"), "IPv6 prefix must be between 0 and 128: ::/129");
    assert_eq!(
        parse_payload_rule("IP-CIDR,1.2.3.4").unwrap_err(),
        "invalid source whitelist payload entry; expected SRC-IP-CIDR,<CIDR>: IP-CIDR,1.2.3.4"
    );
    assert_eq!(
        parse_payload_rule("SRC-IP-CIDR,").unwrap_err(),
        "invalid source whitelist payload entry; expected SRC-IP-CIDR,<CIDR>: SRC-IP-CIDR,"
    );
    assert_eq!(
        parse_payload_rule("SRC-IP-CIDR,1.2.3.4,x").unwrap_err(),
        "invalid source whitelist payload entry; expected SRC-IP-CIDR,<CIDR>: SRC-IP-CIDR,1.2.3.4,x"
    );
}

#[test]
fn documents_must_have_a_payload_and_nothing_else() {
    assert_eq!(Rules::parse("payload: []\n").unwrap().len(), 0);
    assert_eq!(Rules::parse("payload: ~\n").unwrap().len(), 0);
    assert_eq!(
        Rules::parse("payload:\n  - SRC-IP-CIDR,1.2.3.4\n  - SRC-IP-CIDR,::/0\n").unwrap().len(),
        2
    );
    assert!(Rules::parse("payload: []\nother: []\n").is_err());
    assert!(Rules::parse("payload: []\npayload: []\n").is_err());
    assert!(Rules::parse("payload: x\n").is_err());
}

#[test]
fn a_document_can_be_given_as_the_mapping_it_holds() {
    let entry = |name: &str, list: Option<Vec<String>>| (name.to_owned(), list);
    let one = vec!["SRC-IP-CIDR,1.2.3.4/32".to_owned()];
    let rules = Rules::from_document(Ok(vec![entry("payload", Some(one))])).unwrap();
    assert!(rules.allows(ip("1.2.3.4")));
    assert!(!rules.allows(ip("1.2.3.5")));
    assert_eq!(Rules::from_document(Ok(vec![entry("payload", None)])).unwrap().len(), 0);

    let error = |document| Rules::from_document(document).err().unwrap();
    assert_eq!(error(Err("broken".to_owned())), "broken");
    assert_eq!(error(Ok(vec![])), "missing field `payload`");
    assert_eq!(
        error(Ok(vec![entry("a", None), entry("payload", None)])),
        "unknown field `a`, expected `payload`"
    );
    assert_eq!(
        error(Ok(vec![entry("payload", None), entry("payload", None)])),
        "duplicate field `payload`"
    );
}

#[test]
fn networks_keep_to_their_family() {
    let rules = Rules::parse("payload:\n  - SRC-IP-CIDR,::/0\n").unwrap();
    assert!(rules.allows(ip("2001:db8::1")));
    assert!(!rules.allows(ip("1.2.3.4")));
    assert!(!rules.allows(ip("::ffff:1.2.3.4")));
    let rules = Rules::parse("payload:\n  - SRC-IP-CIDR,0.0.0.0/0\n").unwrap();
    assert!(rules.allows(ip("1.2.3.4")));
    assert!(rules.allows(ip("::ffff:1.2.3.4")));
    assert!(!rules.allows(ip("2001:db8::1")));
}

#[test]
fn a_rule_decides_by_its_prefix() {
    let rule = parse_rule("10.20.0.0/16").unwrap();
    assert!(rule.allows(ip("10.20.255.255")));
    assert!(!rule.allows(ip("10.21.0.0")));
    assert!(!rule.allows(ip("::1")));
}

#[test]
fn unreadable_and_invalid_files_deny_every_source() {
    for policy in [
        load_policy(FileRead::Failed),
        load_policy(content("payload:\n  - SRC-IP-CIDR,192.0.2.10/32\n  - x\n")),
        load_policy(content("")),
        policy_of_rules(Err("broken".to_owned())),
        Policy::deny_all(),
    ] {
        assert!(!policy.allows(ip("192.0.2.10")));
        assert!(!policy.allows(ip("::1")));
        assert_eq!(log_policy(&policy), PolicyReport::Active { entries: 0 });
    }
}

#[test]
fn policies_report_their_rules() {
    let policy = load_policy(content("payload:\n  - SRC-IP-CIDR,192.0.2.10/32\n"));
    assert_eq!(log_policy(&policy), PolicyReport::Active { entries: 1 });
    assert_eq!(log_policy(&Policy::disabled()), PolicyReport::Disabled);
    let rules = Rules::parse("payload:\n  - SRC-IP-CIDR,1.2.3.4\n").unwrap();
    assert!(Policy::enabled(rules).allows(ip("::ffff:1.2.3.4")));
    assert_eq!(Rules::default().len(), 0);
}

#[test]
fn an_empty_choice_of_path_does_not_count() {
    assert_eq!(FILE_NAME, "source-whitelist.yaml");
    assert_eq!(resolve_path(Some("a"), false, FILE_NAME), "a");
    assert_eq!(resolve_path(Some(""), true, FILE_NAME), FILE_NAME);
    assert_eq!(resolve_path(None, false, FILE_NAME), FILE_NAME);
}

#[test]
fn the_rule_file_is_found_under_the_current_directory() {
    let found = |chosen: Option<&str>| {
        let empty = chosen == Some("");
        let path = resolve_path(chosen.map(str::to_owned), empty, FILE_NAME.to_owned());
        let is_absolute = path.starts_with('/');
        let anchored = format!("/srv/{path}");
        absolute_path(path, is_absolute, anchored)
    };
    assert_eq!(found(None), "/srv/source-whitelist.yaml");
    assert_eq!(found(Some("")), "/srv/source-whitelist.yaml");
    assert_eq!(found(Some("w.yaml")), "/srv/w.yaml");
    assert_eq!(found(Some("/etc/w.yaml")), "/etc/w.yaml");
}

#[test]
fn refused_sources_are_not_remembered() {
    let policy = load_policy(content("payload:\n  - SRC-IP-CIDR,192.0.2.0/24\n"));
    let mut connections: TrackedConnections<u32> = TrackedConnections::new();
    assert!(!connections.authorize(&policy, ip("198.51.100.1"), 1, &vec![]));
    assert!(connections.entries.is_empty());
}

#[test]
fn reload_keeps_permitted_and_forgets_dead_connections() {
    let open = Policy::disabled();
    let mut connections: TrackedConnections<u32> = TrackedConnections::new();
    assert!(connections.authorize(&open, ip("192.0.2.1"), 1, &vec![]));
    assert!(connections.authorize(&open, ip("192.0.2.2"), 2, &vec![true]));
    assert!(connections.authorize(&open, ip("198.51.100.1"), 3, &vec![true, false]));
    let kept: Vec<u32> = connections.entries.iter().map(|t| t.connection).collect();
    assert_eq!(kept, vec![1, 3]);
    assert!(connections.authorize(&open, ip("198.51.100.2"), 4, &vec![true, true]));

    let policy = load_policy(content("payload:\n  - SRC-IP-CIDR,192.0.2.0/24\n"));
    let stopped = connections.reload(&policy, &vec![true, true, false]);
    assert_eq!(stopped, vec![3]);
    let kept: Vec<u32> = connections.entries.iter().map(|t| t.connection).collect();
    assert_eq!(kept, vec![1]);

    assert_eq!(connections.reload(&open, &vec![true]), Vec::<u32>::new());
    assert_eq!(connections.entries.len(), 1);
}

#[test]
fn a_reload_during_authorization_leaves_no_gap() {
    let old = load_policy(content("payload:\n  - SRC-IP-CIDR,192.0.2.10/32\n"));
    let new = load_policy(content("payload:\n"));
    let source = ip("192.0.2.10");

    // The reload looks at the connections before the new one is among them.
    let mut connections: TrackedConnections<u32> = TrackedConnections::new();
    assert!(connections.reload(&new, &vec![]).is_empty());
    assert!(connections.authorize(&old, source, 1, &vec![]));
    assert!(!new.allows(source));

    // The reload looks at the connections after that.
    let mut connections: TrackedConnections<u32> = TrackedConnections::new();
    assert!(connections.authorize(&old, source, 1, &vec![]));
    assert_eq!(connections.reload(&new, &vec![true]), vec![1]);
}

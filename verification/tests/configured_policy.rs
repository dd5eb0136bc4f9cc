use iceoryx2_iam::configured_policy::{
    parse_any_size_string, parse_size_string, sanitize_service_name, AllowRule, AnyMarker,
    ConfiguredPolicy, DenyRule, PolicyDispatch, PolicyFile, PolicyLimits, PolicyLoadError,
    PolicyLoader, PolicyQos, PrincipalMatcher, ServiceSection,
};
use iceoryx2_iam::policy::{
    DefaultPolicy, IamPolicy, PolicyDecision, QosBounds, ResourceLimits,
};
use iceoryx2_iam::protocol::{DenialReason, MessagingPatternKind, PortType};
use iceoryx2_iam::text::trim;
use iceoryx2_iam::types::{ProcessCredentials, ServiceId, ServiceName};

fn number(table: &toml::Table, key: &str) -> Option<usize> {
    table.get(key).map(|value| value.as_integer().unwrap() as usize)
}

fn text(table: &toml::Table, key: &str) -> Option<String> {
    table.get(key).map(|value| String::from(value.as_str().unwrap()))
}

fn rules<'a>(table: &'a toml::Table, key: &str) -> Vec<&'a toml::Table> {
    match table.get(key) {
        Some(value) => value.as_array().unwrap().iter().map(|rule| rule.as_table().unwrap()).collect(),
        None => Vec::new(),
    }
}

fn principal(rule: &toml::Table) -> PrincipalMatcher {
    let value = &rule["principal"];
    if let Some(word) = value.as_str() {
        assert_eq!(word, "any");
        return PrincipalMatcher::Any(AnyMarker);
    }
    let table = value.as_table().unwrap();
    if let Some(uid) = number(table, "uid") {
        return PrincipalMatcher::Uid { uid: uid as u32 };
    }
    if let Some(gid) = number(table, "gid") {
        return PrincipalMatcher::Gid { gid: gid as u32 };
    }
    if let Some(range) = table.get("uid_range") {
        let range = range.as_array().unwrap();
        return PrincipalMatcher::UidRangeArray {
            uid_range: [
                range[0].as_integer().unwrap() as u32,
                range[1].as_integer().unwrap() as u32,
            ],
        };
    }
    PrincipalMatcher::UidRange {
        min: number(table, "min").unwrap() as u32,
        max: number(table, "max").unwrap() as u32,
    }
}

fn policy_file(toml_str: &str) -> PolicyFile {
    let table: toml::Table = toml_str.parse().unwrap();
    PolicyFile {
        service: ServiceSection {
            name: text(table["service"].as_table().unwrap(), "name").unwrap(),
        },
        allow: rules(&table, "allow")
            .into_iter()
            .map(|rule| AllowRule {
                principal: principal(rule),
                roles: rule["roles"]
                    .as_array()
                    .unwrap()
                    .iter()
                    .map(|role| String::from(role.as_str().unwrap()))
                    .collect(),
            })
            .collect(),
        deny: rules(&table, "deny")
            .into_iter()
            .map(|rule| DenyRule { principal: principal(rule), reason: text(rule, "reason") })
            .collect(),
        limits: table.get("limits").map(|limits| {
            let limits = limits.as_table().unwrap();
            PolicyLimits {
                max_publishers: number(limits, "max_publishers"),
                max_subscribers: number(limits, "max_subscribers"),
                max_servers: number(limits, "max_servers"),
                max_clients: number(limits, "max_clients"),
                max_segments: number(limits, "max_segments"),
                max_segment_size: text(limits, "max_segment_size"),
            }
        }),
        qos: table.get("qos").map(|qos| {
            let qos = qos.as_table().unwrap();
            PolicyQos {
                max_buffer_size: number(qos, "max_buffer_size"),
                max_history: number(qos, "max_history"),
            }
        }),
    }
}

fn make_test_policy() -> ConfiguredPolicy {
    let toml_str = r#"
[service]
name = "test/policy"

[[allow]]
principal = { uid = 1000 }
roles = ["publisher", "subscriber"]

[[allow]]
principal = { gid = 100 }
roles = ["subscriber"]

[[deny]]
principal = { uid = 9999 }
reason = "Banned user"

[limits]
max_publishers = 4
max_segment_size = "32MB"
"#;
    ConfiguredPolicy::from_policy_file(policy_file(toml_str), 1000)
}

#[test]
fn test_parse_size_string_megabytes() {
    assert_eq!(parse_size_string("64MB"), Some(64 * 1024 * 1024));
    assert_eq!(parse_size_string("1MB"), Some(1024 * 1024));
    assert_eq!(parse_size_string("64mb"), Some(64 * 1024 * 1024));
}

#[test]
fn test_parse_size_string_gigabytes() {
    assert_eq!(parse_size_string("1GB"), Some(1024 * 1024 * 1024));
    assert_eq!(parse_size_string("2gb"), Some(2 * 1024 * 1024 * 1024));
}

#[test]
fn test_parse_size_string_kilobytes() {
    assert_eq!(parse_size_string("4096KB"), Some(4096 * 1024));
    assert_eq!(parse_size_string("1kb"), Some(1024));
}

#[test]
fn test_parse_size_string_plain_bytes() {
    assert_eq!(parse_size_string("4096"), Some(4096));
    assert_eq!(parse_size_string("0"), Some(0));
}

#[test]
fn test_parse_size_string_invalid() {
    assert_eq!(parse_size_string(""), None);
    assert_eq!(parse_size_string("abc"), None);
    assert_eq!(parse_size_string("MB"), None);
}

#[test]
fn test_parse_valid_policy_file() {
    let toml_str = r#"
[service]
name = "test/service"

[[allow]]
principal = { uid = 1000 }
roles = ["publisher", "subscriber"]

[[allow]]
principal = { gid = 100 }
roles = ["subscriber"]

[[deny]]
principal = "any"
reason = "Default deny all"

[limits]
max_publishers = 4
max_subscribers = 16
max_segment_size = "64MB"
"#;

    let policy_file: PolicyFile = policy_file(toml_str);
    assert_eq!(policy_file.service.name, "test/service");
    assert_eq!(policy_file.allow.len(), 2);
    assert_eq!(policy_file.deny.len(), 1);
    assert!(policy_file.limits.is_some());

    let limits = policy_file.limits.unwrap();
    assert_eq!(limits.max_publishers, Some(4));
    assert_eq!(limits.max_subscribers, Some(16));
    assert_eq!(limits.max_segment_size.as_deref(), Some("64MB"));
}

#[test]
fn test_parse_policy_file_uid_range_named_fields() {
    let toml_str = r#"
[service]
name = "test/range"

[[allow]]
principal = { min = 1000, max = 2000 }
roles = ["publisher"]
"#;

    let policy_file: PolicyFile = policy_file(toml_str);
    let rule = &policy_file.allow[0];
    assert!(matches!(
        rule.principal,
        PrincipalMatcher::UidRange {
            min: 1000,
            max: 2000
        }
    ));
}

#[test]
fn test_parse_policy_file_uid_range_array_format() {
    let toml_str = r#"
[service]
name = "test/range-array"

[[allow]]
principal = { uid_range = [2000, 2999] }
roles = ["subscriber"]
"#;

    let policy_file: PolicyFile = policy_file(toml_str);
    let rule = &policy_file.allow[0];
    assert!(matches!(
        rule.principal,
        PrincipalMatcher::UidRangeArray {
            uid_range: [2000, 2999]
        }
    ));

    // Verify matching works
    assert!(rule
        .principal
        .matches(&ProcessCredentials::new(1, 2500, 100)));
    assert!(!rule
        .principal
        .matches(&ProcessCredentials::new(1, 1999, 100)));
    assert!(!rule
        .principal
        .matches(&ProcessCredentials::new(1, 3000, 100)));
}

#[test]
fn test_parse_policy_file_with_qos() {
    let toml_str = r#"
[service]
name = "test/qos"

[[allow]]
principal = "any"
roles = ["publisher", "subscriber"]

[qos]
max_buffer_size = 1024
max_history = 10
"#;

    let policy_file: PolicyFile = policy_file(toml_str);
    assert!(policy_file.qos.is_some());
    let qos = policy_file.qos.unwrap();
    assert_eq!(qos.max_buffer_size, Some(1024));
    assert_eq!(qos.max_history, Some(10));

    let bounds = qos.to_qos_bounds();
    assert!(bounds.check_buffer_size(1024));
    assert!(!bounds.check_buffer_size(1025));
}

#[test]
fn test_parse_policy_file_without_qos() {
    let toml_str = r#"
[service]
name = "test/no-qos"

[[allow]]
principal = "any"
roles = ["publisher"]
"#;

    let policy_file: PolicyFile = policy_file(toml_str);
    assert!(policy_file.qos.is_none());
}

#[test]
fn test_principal_matcher_uid() {
    let matcher = PrincipalMatcher::Uid { uid: 1000 };
    assert!(matcher.matches(&ProcessCredentials::new(1, 1000, 100)));
    assert!(!matcher.matches(&ProcessCredentials::new(1, 2000, 100)));
}

#[test]
fn test_principal_matcher_gid() {
    let matcher = PrincipalMatcher::Gid { gid: 100 };
    assert!(matcher.matches(&ProcessCredentials::new(1, 1000, 100)));
    assert!(!matcher.matches(&ProcessCredentials::new(1, 1000, 200)));
}

#[test]
fn test_principal_matcher_uid_range() {
    let matcher = PrincipalMatcher::UidRange {
        min: 1000,
        max: 2000,
    };
    assert!(matcher.matches(&ProcessCredentials::new(1, 1000, 100)));
    assert!(matcher.matches(&ProcessCredentials::new(1, 1500, 100)));
    assert!(matcher.matches(&ProcessCredentials::new(1, 2000, 100)));
    assert!(!matcher.matches(&ProcessCredentials::new(1, 999, 100)));
    assert!(!matcher.matches(&ProcessCredentials::new(1, 2001, 100)));
}

#[test]
fn test_principal_matcher_any() {
    let matcher = PrincipalMatcher::Any(AnyMarker);
    assert!(matcher.matches(&ProcessCredentials::new(1, 0, 0)));
    assert!(matcher.matches(&ProcessCredentials::new(1, 9999, 9999)));
}

#[test]
fn test_configured_policy_deny_first() {
    let policy = make_test_policy();
    let banned_creds = ProcessCredentials::new(1, 9999, 100);

    // Even though GID 100 matches an allow rule, UID 9999 is denied
    let decision = policy.authorize_connect(&banned_creds);
    assert!(decision.is_denied());
}

#[test]
fn test_configured_policy_allow_uid() {
    let policy = make_test_policy();
    let creds = ProcessCredentials::new(1, 1000, 200);
    let service_name = ServiceName::new("test/policy");

    let decision = policy.authorize_create(
        &creds,
        &service_name,
        MessagingPatternKind::PublishSubscribe,
    );
    assert!(decision.is_allowed());
}

#[test]
fn test_configured_policy_attach_with_role() {
    let policy = make_test_policy();
    let creds = ProcessCredentials::new(1, 1000, 200);
    let service_name = ServiceName::new("test/policy");
    let service_id = ServiceId::new(service_name.as_str());

    // UID 1000 has publisher role
    let decision = policy.authorize_attach(&creds, &service_id, PortType::Publisher);
    assert!(decision.is_allowed());

    // UID 1000 has subscriber role
    let decision = policy.authorize_attach(&creds, &service_id, PortType::Subscriber);
    assert!(decision.is_allowed());

    // UID 1000 does NOT have server role
    let decision = policy.authorize_attach(&creds, &service_id, PortType::Server);
    assert!(decision.is_denied());
}

#[test]
fn test_configured_policy_attach_gid_role() {
    let policy = make_test_policy();
    // UID 5000 with GID 100 - matches the GID allow rule
    let creds = ProcessCredentials::new(1, 5000, 100);
    let service_name = ServiceName::new("test/policy");
    let service_id = ServiceId::new(service_name.as_str());

    // GID 100 only has subscriber role
    let decision = policy.authorize_attach(&creds, &service_id, PortType::Subscriber);
    assert!(decision.is_allowed());

    // GID 100 does NOT have publisher role
    let decision = policy.authorize_attach(&creds, &service_id, PortType::Publisher);
    assert!(decision.is_denied());
}

#[test]
fn test_configured_policy_no_matching_rule() {
    let policy = make_test_policy();
    // UID 3000, GID 300 - matches no rules
    let creds = ProcessCredentials::new(1, 3000, 300);
    let service_name = ServiceName::new("test/policy");

    let decision = policy.authorize_create(
        &creds,
        &service_name,
        MessagingPatternKind::PublishSubscribe,
    );
    assert!(decision.is_denied());
}

#[test]
fn test_configured_policy_limits() {
    let policy = make_test_policy();
    let creds = ProcessCredentials::new(1, 1000, 100);

    let limits = policy.get_limits(&creds);
    assert_eq!(limits.max_publishers, 4);
    assert_eq!(limits.max_segment_size, 32 * 1024 * 1024);
    // Defaults for unspecified
    assert_eq!(limits.max_subscribers, 256);
}

#[test]
fn test_configured_policy_qos_from_toml() {
    let toml_str = r#"
[service]
name = "test/qos-policy"

[[allow]]
principal = { uid = 1000 }
roles = ["publisher"]

[qos]
max_buffer_size = 512
max_history = 5
"#;
    let policy_file: PolicyFile = policy_file(toml_str);
    let policy = ConfiguredPolicy::from_policy_file(policy_file, 1000);
    let creds = ProcessCredentials::new(1, 1000, 100);

    let bounds = policy.get_qos_bounds(&creds);
    assert_eq!(bounds.max_buffer_size, Some(512));
    assert_eq!(bounds.max_history, Some(5));
    assert!(bounds.check_buffer_size(512));
    assert!(!bounds.check_buffer_size(513));
}

#[test]
fn test_configured_policy_qos_default_unbounded() {
    let policy = make_test_policy();
    let creds = ProcessCredentials::new(1, 1000, 100);

    let bounds = policy.get_qos_bounds(&creds);
    assert_eq!(bounds, QosBounds::unbounded());
}

#[test]
fn test_configured_policy_add_segment_owner() {
    let policy = make_test_policy();
    let owner_creds = ProcessCredentials::new(1, 1000, 100);
    let other_creds = ProcessCredentials::new(1, 2000, 100);
    let service_name = ServiceName::new("test/policy");
    let service_id = ServiceId::new(service_name.as_str());

    // Owner can add segment
    let decision = policy.authorize_add_segment(&owner_creds, &service_id, 4096);
    assert!(decision.is_allowed());

    // Non-owner cannot
    let decision = policy.authorize_add_segment(&other_creds, &service_id, 4096);
    assert!(decision.is_denied());
}

#[test]
fn test_configured_policy_add_segment_size_limit() {
    let policy = make_test_policy();
    let creds = ProcessCredentials::new(1, 1000, 100);
    let service_name = ServiceName::new("test/policy");
    let service_id = ServiceId::new(service_name.as_str());

    // Within limits (32MB)
    let decision = policy.authorize_add_segment(&creds, &service_id, 32 * 1024 * 1024);
    assert!(decision.is_allowed());

    // Exceeds limits
    let decision = policy.authorize_add_segment(&creds, &service_id, 33 * 1024 * 1024);
    assert!(decision.is_denied());
    match decision {
        PolicyDecision::Deny { reason, .. } => {
            assert_eq!(reason, DenialReason::ResourceLimitExceeded);
        }
        _ => panic!("Expected Deny"),
    }
}

#[test]
fn test_policy_dispatch_default() {
    let dispatch = PolicyDispatch::Default(DefaultPolicy::with_owner(1000));
    let creds = ProcessCredentials::new(1, 1000, 100);
    let service_name = ServiceName::new("test/dispatch");

    let decision = dispatch.authorize_create(
        &creds,
        &service_name,
        MessagingPatternKind::PublishSubscribe,
    );
    assert!(decision.is_allowed());
}

#[test]
fn test_policy_dispatch_configured() {
    let dispatch = PolicyDispatch::Configured(make_test_policy());
    let creds = ProcessCredentials::new(1, 1000, 100);
    let service_name = ServiceName::new("test/dispatch");

    let decision = dispatch.authorize_create(
        &creds,
        &service_name,
        MessagingPatternKind::PublishSubscribe,
    );
    assert!(decision.is_allowed());
}

#[test]
fn test_policy_load_error_display() {
    let e = PolicyLoadError::NotFound;
    assert_eq!(e.to_string(), "Policy file not found");

    let e = PolicyLoadError::ParseError("bad toml".into());
    assert!(e.to_string().contains("bad toml"));

    let e = PolicyLoadError::ValidationError("invalid".into());
    assert!(e.to_string().contains("invalid"));
}

#[test]
fn test_sanitize_service_name() {
    assert_eq!(sanitize_service_name("test/service"), "test_service");
    assert_eq!(sanitize_service_name("my-service"), "my-service");
    assert_eq!(sanitize_service_name("a.b.c"), "a_b_c");
    assert_eq!(sanitize_service_name("simple"), "simple");
}

#[test]
fn test_policy_limits_to_resource_limits_full() {
    let limits = PolicyLimits {
        max_publishers: Some(8),
        max_subscribers: Some(32),
        max_servers: Some(4),
        max_clients: Some(16),
        max_segments: Some(10),
        max_segment_size: Some(String::from("128MB")),
    };

    let rl = limits.to_resource_limits();
    assert_eq!(rl.max_publishers, 8);
    assert_eq!(rl.max_subscribers, 32);
    assert_eq!(rl.max_servers, 4);
    assert_eq!(rl.max_clients, 16);
    assert_eq!(rl.max_segments, 10);
    assert_eq!(rl.max_segment_size, 128 * 1024 * 1024);
}

#[test]
fn test_policy_limits_to_resource_limits_partial() {
    let limits = PolicyLimits {
        max_publishers: Some(8),
        max_subscribers: None,
        max_servers: None,
        max_clients: None,
        max_segments: None,
        max_segment_size: None,
    };

    let rl = limits.to_resource_limits();
    assert_eq!(rl.max_publishers, 8);
    // Defaults
    assert_eq!(rl.max_subscribers, 256);
    assert_eq!(rl.max_segment_size, 64 * 1024 * 1024);
}

#[test]
fn a_policy_file_with_invalid_limits_is_refused() {
    let zero = policy_file("[service]\nname = \"test/invalid\"\n[limits]\nmax_segment_size = \"0\"\n");
    match PolicyLoader::policy_from(zero, &ServiceName::new("test/invalid"), 1000) {
        Some(Err(PolicyLoadError::ValidationError(detail))) => {
            assert_eq!(detail, "Resource limits are invalid (check max_segment_size)");
        }
        _ => panic!("expected a validation error"),
    }
    let large = policy_file("[service]\nname = \"test/large\"\n[limits]\nmax_segment_size = \"2GB\"\n");
    assert!(matches!(
        PolicyLoader::policy_from(large, &ServiceName::new("test/large"), 1000),
        Some(Err(PolicyLoadError::ValidationError(_)))
    ));
    let vast = policy_file(
        "[service]\nname = \"test/vast\"\n[limits]\nmax_segment_size = \"99999999999999999GB\"\n",
    );
    let name = ServiceName::new("test/vast");
    assert!(PolicyLoader::policy_from(vast, &name, 1000).is_none());
}

#[test]
fn a_valid_policy_file_is_loaded() {
    let file = policy_file(
        "[service]\nname = \"test/loader\"\n[[allow]]\nprincipal = { uid = 1000 }\nroles = [\"publisher\"]\n",
    );
    match PolicyLoader::policy_from(file, &ServiceName::new("test/loader"), 77) {
        Some(Ok(policy)) => {
            assert_eq!(policy.owner_uid, 77);
            assert_eq!(policy.allow_rules.len(), 1);
            assert!(policy.deny_rules.is_empty());
        }
        _ => panic!("expected a policy"),
    }
    assert_eq!(PolicyLoader::file_name(&ServiceName::new("test/loader")), "test_loader.toml");
}

#[test]
fn sizes_are_trimmed_and_their_units_have_any_case() {
    assert_eq!(parse_size_string("  64 MB  "), Some(64 * 1024 * 1024));
    assert_eq!(parse_size_string("3Kb"), Some(3072));
    assert_eq!(parse_size_string("+5"), Some(5));
    assert_eq!(parse_size_string("-5"), None);
    assert_eq!(parse_size_string("5TB"), None);
    assert_eq!(parse_any_size_string("1GB"), Some(Some(1024 * 1024 * 1024)));
    assert_eq!(parse_any_size_string("18446744073709551615KB"), None);
    assert_eq!(parse_any_size_string("18446744073709551616"), Some(None));
}

#[test]
fn sanitized_names_keep_letters_and_numbers_of_any_alphabet() {
    assert_eq!(sanitize_service_name("\u{e9}t\u{e9} \u{2460}?"), "\u{e9}t\u{e9}_\u{2460}_");
    assert_eq!(sanitize_service_name("a_b-c"), "a_b-c");
    let once = sanitize_service_name("x/y z");
    assert_eq!(sanitize_service_name(&once), once);
}

#[test]
fn deny_rules_come_before_allow_rules() {
    let policy = make_test_policy();
    let banned = ProcessCredentials::new(1, 9999, 100);
    let service_id = ServiceId::new("test/policy");
    match policy.authorize_attach(&banned, &service_id, PortType::Subscriber) {
        PolicyDecision::Deny { message, .. } => assert_eq!(message, "Banned user"),
        PolicyDecision::Allow => panic!("a banned user was let in"),
    }
    assert!(policy.authorize_add_segment(&banned, &service_id, 1).is_denied());
}

#[test]
fn range_forms_agree() {
    let array = PrincipalMatcher::UidRangeArray { uid_range: [5, 7] };
    let fields = PrincipalMatcher::UidRange { min: 5, max: 7 };
    for uid in 0..10 {
        let credentials = ProcessCredentials::new(1, uid, 1);
        assert_eq!(array.matches(&credentials), fields.matches(&credentials));
    }
}

#[test]
fn load_errors_have_their_text() {
    assert_eq!(
        PolicyLoadError::IoError(String::from("gone")).to_string(),
        "I/O error reading policy file: gone"
    );
    assert_eq!(
        PolicyLoadError::ParseError(String::from("bad")).to_string(),
        "TOML parse error: bad"
    );
    assert_eq!(
        PolicyLoadError::ValidationError(String::from("no")).to_string(),
        "Policy validation error: no"
    );
}

#[test]
fn the_any_marker_is_written_in_one_way() {
    assert!(AnyMarker::from_text("any").is_ok());
    assert_eq!(AnyMarker::from_text("ANY").unwrap_err(), "expected \"any\", got \"ANY\"");
}

#[test]
fn a_missing_policy_file_is_told_from_one_that_cannot_be_read() {
    assert!(matches!(
        PolicyLoadError::from_read(true, String::from("gone")),
        PolicyLoadError::NotFound
    ));
    match PolicyLoadError::from_read(false, String::from("locked")) {
        PolicyLoadError::IoError(detail) => assert_eq!(detail, "locked"),
        _ => panic!("expected an I/O error"),
    }
}

#[test]
fn a_policy_file_for_another_service_is_refused() {
    let wanted = ServiceName::new("test/loader");
    let other = ServiceName::new("test.loader");
    assert_eq!(PolicyLoader::file_name(&wanted), PolicyLoader::file_name(&other));
    let file = policy_file("[service]\nname = \"test.loader\"\n");
    match PolicyLoader::policy_from(file, &wanted, 1000) {
        Some(Err(PolicyLoadError::ValidationError(detail))) => {
            assert_eq!(detail, "The policy file is for another service");
        }
        _ => panic!("expected a validation error"),
    }
    let file = policy_file("[service]\nname = \"test.loader\"\n");
    assert!(matches!(PolicyLoader::policy_from(file, &other, 1000), Some(Ok(_))));
}

#[test]
fn segments_are_denied_without_an_allow_rule() {
    let policy = ConfiguredPolicy::new(1000, Vec::new(), Vec::new(), ResourceLimits::default());
    let owner = ProcessCredentials::new(1, 1000, 100);
    let service_id = ServiceId::new("test/policy");
    match policy.authorize_add_segment(&owner, &service_id, 4096) {
        PolicyDecision::Deny { reason, .. } => assert_eq!(reason, DenialReason::Unauthorized),
        PolicyDecision::Allow => panic!("a segment was allowed without a rule"),
    }
}

#[test]
fn sanitized_names_hold_no_path() {
    assert_eq!(sanitize_service_name("../etc/passwd"), "___etc_passwd");
}

const WHITE_SPACE: [char; 25] = [
    '\u{9}', '\u{a}', '\u{b}', '\u{c}', '\u{d}', ' ', '\u{85}', '\u{a0}', '\u{1680}', '\u{2000}',
    '\u{2001}', '\u{2002}', '\u{2003}', '\u{2004}', '\u{2005}', '\u{2006}', '\u{2007}',
    '\u{2008}', '\u{2009}', '\u{200a}', '\u{2028}', '\u{2029}', '\u{202f}', '\u{205f}',
    '\u{3000}',
];

#[test]
fn exactly_white_space_is_trimmed() {
    for c in '\0'..=char::MAX {
        let expected = !WHITE_SPACE.contains(&c);
        assert_eq!(trim(&String::from(c)) == String::from(c), expected, "{:?}", c);
    }
    assert_eq!(trim("\u{3000}\t a b \r\n\u{2028}"), "a b");
}

#[test]
fn any_white_space_can_stand_around_sizes_and_before_units() {
    for space in WHITE_SPACE {
        let text = format!("{}7{}kb{}", space, space, space);
        assert_eq!(parse_any_size_string(&text), Some(Some(7168)), "{:?}", text);
    }
}

#[test]
fn sizes_have_no_letter_case() {
    for (texts, size) in [
        (["3kb", "3kB", "3Kb", "3KB"], Some(3072)),
        (["3mb", "3mB", "3Mb", "3MB"], Some(3 * 1024 * 1024)),
        (["3 gb", "3 gB", "3 Gb", "3 GB"], Some(3 * 1024 * 1024 * 1024)),
        (["0xff", "0Xff", "0xFF", "0XFF"], None),
        (["3tb", "3tB", "3Tb", "3TB"], None),
    ] {
        for text in texts {
            assert_eq!(parse_any_size_string(text), Some(size), "{}", text);
        }
    }
    for text in ["12kB", " 5Mb ", "1gB", "17", "x", "+4kb"] {
        let size = parse_any_size_string(text);
        assert_eq!(parse_any_size_string(&text.to_uppercase()), size);
        assert_eq!(parse_any_size_string(&text.to_lowercase()), size);
    }
    assert_eq!(parse_any_size_string("1\u{212a}b"), Some(None));
}

#[test]
fn ascii_names_keep_letters_digits_dashes_and_underscores() {
    for c in '\0'..='\u{7f}' {
        let kept = matches!(c, 'a'..='z' | 'A'..='Z' | '0'..='9' | '-' | '_');
        let expected = if kept { c } else { '_' };
        assert_eq!(sanitize_service_name(&String::from(c)), String::from(expected));
    }
}

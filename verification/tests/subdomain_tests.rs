use financoor::subdomains::{
    collect_subdomains, with_addresses, DomainRecord, ResolvedSubdomain, SubdomainRecord,
};
use financoor::types::{parse_user_type, UserType};

fn node(name: Option<&str>, label: Option<&str>, address: Option<&str>) -> SubdomainRecord {
    SubdomainRecord {
        name: name.map(|s| s.to_string()),
        label_name: label.map(|s| s.to_string()),
        resolved_address: address.map(|s| s.to_string()),
    }
}

#[test]
fn test_collect_flattens_root_and_subdomains() {
    let domain = DomainRecord {
        name: Some("family.eth".to_string()),
        label_name: Some("family".to_string()),
        resolved_address: Some("0xroot".to_string()),
        subdomains: vec![
            node(Some("alice.family.eth"), Some("alice"), Some("0xalice")),
            node(None, Some("ghost"), Some("0xghost")),
            node(Some("bob.family.eth"), None, None),
        ],
    };
    let entries = collect_subdomains(&domain);
    assert_eq!(entries.len(), 3);
    assert_eq!(entries[0].name, "family.eth");
    assert_eq!(entries[0].label, "family");
    assert_eq!(entries[0].address.as_deref(), Some("0xroot"));
    assert_eq!(entries[1].name, "alice.family.eth");
    assert_eq!(entries[1].label, "alice");
    assert_eq!(entries[1].address.as_deref(), Some("0xalice"));
    // A missing label falls back to the full name; an unresolved
    // subdomain is kept with no address.
    assert_eq!(entries[2].name, "bob.family.eth");
    assert_eq!(entries[2].label, "bob.family.eth");
    assert!(entries[2].address.is_none());
}

#[test]
fn test_collect_skips_unresolved_root() {
    let domain = DomainRecord {
        name: Some("family.eth".to_string()),
        label_name: None,
        resolved_address: None,
        subdomains: vec![node(Some("a.family.eth"), Some("a"), Some("0xa"))],
    };
    let entries = collect_subdomains(&domain);
    assert_eq!(entries.len(), 1);
    assert_eq!(entries[0].name, "a.family.eth");
}

#[test]
fn test_with_addresses_keeps_only_resolved() {
    let entries = vec![
        ResolvedSubdomain {
            name: "a.x.eth".to_string(),
            label: "a".to_string(),
            address: Some("0xa".to_string()),
        },
        ResolvedSubdomain {
            name: "b.x.eth".to_string(),
            label: "b".to_string(),
            address: None,
        },
        ResolvedSubdomain {
            name: "c.x.eth".to_string(),
            label: "c".to_string(),
            address: Some("0xc".to_string()),
        },
    ];
    let resolved = with_addresses(&entries);
    assert_eq!(resolved.len(), 2);
    assert_eq!(resolved[0].name, "a.x.eth");
    assert_eq!(resolved[1].name, "c.x.eth");
}

#[test]
fn test_parse_user_type_tags() {
    assert_eq!(parse_user_type("individual"), Some(UserType::Individual));
    assert_eq!(parse_user_type("huf"), Some(UserType::Huf));
    assert_eq!(parse_user_type("corporate"), Some(UserType::Corporate));
    assert_eq!(parse_user_type("Individual"), None);
    assert_eq!(parse_user_type(""), None);
    assert_eq!(parse_user_type("llc"), None);
}

use fleetix::cli::{
    actionable_proposals, find_entry, integrate_step, link_views, missing_entry, show_host,
    validation_failure,
    wrap_topology_nix, IntegrateAction, IntegrateEvent, EXIT_EVALUATION, EXIT_NOT_FOUND,
    EXIT_VALIDATION,
};
use fleetix::validate::{ValidationIssue, ValidationReport, ValidationSeverity};
use fleetix::topology::{Host, Link, LinkBinding, LinkRole, Topology};
use fleetix::trust::openssh::{entry_id, Entry};
use fleetix::trust::state::State;
use indexmap::IndexMap;

fn entry(hostname: &str) -> Entry {
    let host_names = vec![hostname.to_string()];
    let key_text = "ssh-ed25519 K".to_string();
    Entry {
        id: entry_id(&host_names, &key_text),
        host_names,
        key_type: "ssh-ed25519".to_string(),
        key: "K".to_string(),
        key_text,
        comment: None,
        fingerprint: None,
        line: 1,
    }
}

#[test]
fn wrapped_nix_scrubs_the_evaluated_value() {
    let wrapped = wrap_topology_nix("{ a = 1; }".to_string());
    assert!(wrapped.starts_with("let\n  scrub = value:\n"));
    assert!(wrapped.contains("builtins.map (name: { inherit name; value = scrub value.${name}; })"));
    assert!(wrapped.ends_with("  scrub (\n{ a = 1; }\n  )\n"));
}

#[test]
fn first_scan_without_review_records_a_silent_baseline() {
    let proposals = vec![entry("a.test"), entry("b.test")];
    let (actionable, baseline) = actionable_proposals(&proposals, None, false);
    assert!(actionable.is_empty());
    let baseline = baseline.unwrap();
    assert!(baseline.is_suppressed(&proposals[0].id));
    assert!(baseline.is_suppressed(&proposals[1].id));
}

#[test]
fn later_scans_offer_what_is_not_suppressed() {
    let proposals = vec![entry("a.test"), entry("b.test")];
    let mut state = State::new();
    state.suppress(&proposals[0].id);
    let (actionable, baseline) = actionable_proposals(&proposals, Some(&state), false);
    assert!(baseline.is_none());
    assert_eq!(actionable.len(), 1);
    assert_eq!(actionable[0].host_names, ["b.test"]);
    let (all, none) = actionable_proposals(&proposals, None, true);
    assert!(none.is_none());
    assert_eq!(all.len(), 2);
}

#[test]
fn entries_are_found_by_id() {
    let entries = vec![entry("a.test"), entry("b.test")];
    assert_eq!(find_entry(&entries, &entries[1].id).unwrap().host_names, ["b.test"]);
    assert!(find_entry(&entries, "nope").is_none());
}

#[test]
fn link_views_show_cidr_server_and_dial() {
    let mut topology = Topology::default();
    topology.links.insert(
        "wg".to_string(),
        Link {
            subnet: "10.1.0.0/24".to_string(),
            port: 51820,
            endpoint_subdomain: None,
            exempt_from_proxy: false,
        },
    );
    let mut links = IndexMap::new();
    links.insert(
        "wg".to_string(),
        LinkBinding {
            address: "10.1.0.1".to_string(),
            public_key: None,
            role: LinkRole::Server,
            external_interface: None,
            mac_address: None,
        },
    );
    topology.hosts.insert(
        "hub".to_string(),
        Host {
            links,
            ..Default::default()
        },
    );
    let views = link_views(&topology, None).unwrap();
    assert_eq!(views.len(), 1);
    assert_eq!(views[0].cidr.as_deref(), Some("10.1.0.0/24"));
    assert_eq!(views[0].server.as_deref(), Some("10.1.0.1"));
    assert_eq!(views[0].dial.as_deref(), Some("10.1.0.1:51820"));
    assert_eq!(
        link_views(&topology, Some("nope")).unwrap_err(),
        (EXIT_NOT_FOUND, "link 'nope' not found".to_string())
    );
}

#[test]
fn a_saved_baseline_silences_the_next_scan() {
    let proposals = vec![entry("a.test"), entry("b.test")];
    let (_, baseline) = actionable_proposals(&proposals, None, false);
    let baseline = baseline.unwrap();
    let (again, none) = actionable_proposals(&proposals, Some(&baseline), false);
    assert!(again.is_empty());
    assert!(none.is_none());
}

#[test]
fn integration_needs_an_entry_in_the_store() {
    let entries = vec![entry("a.test")];
    match integrate_step("missing", true, None, IntegrateEvent::Parsed(entries.clone())) {
        IntegrateAction::Fail(code, message) => {
            assert_eq!(code, EXIT_NOT_FOUND);
            assert_eq!(message, "no known_hosts entry with id 'missing'");
        }
        _ => panic!("a missing id must fail"),
    }
    let id = entries[0].id.clone();
    assert!(matches!(
        integrate_step(&id, true, None, IntegrateEvent::Parsed(entries)),
        IntegrateAction::LoadAndScan
    ));
}

#[test]
fn integration_needs_an_actionable_proposal() {
    let wanted = entry("b.test");
    let id = wanted.id.clone();
    match integrate_step(&id, false, None, IntegrateEvent::Scanned(vec![entry("a.test")])) {
        IntegrateAction::Fail(code, message) => {
            assert_eq!(code, EXIT_EVALUATION);
            assert_eq!(
                message,
                format!("entry '{id}' is not an actionable proposal (already declared or conflicting)")
            );
        }
        _ => panic!("a declared entry must not be integrated"),
    }
    match integrate_step(&id, false, None, IntegrateEvent::Scanned(vec![entry("a.test"), wanted])) {
        IntegrateAction::Patch(e) => {
            assert_eq!(e.id, id);
            assert_eq!(e.host_names, vec!["b.test".to_string()]);
        }
        _ => panic!("a proposal is patched in"),
    }
}

#[test]
fn integration_exports_only_with_a_sidecar_and_rolls_back_on_failure() {
    assert!(matches!(integrate_step("x", false, Some(None), IntegrateEvent::Patched), IntegrateAction::Done));
    assert!(matches!(integrate_step("x", true, Some(None), IntegrateEvent::Patched), IntegrateAction::Export));
    assert!(matches!(
        integrate_step("x", true, Some(None), IntegrateEvent::Exported(None)),
        IntegrateAction::Done
    ));
    let previous = Some(Some(b"trust = 1\n".to_vec()));
    match integrate_step("x", true, previous, IntegrateEvent::Exported(Some("boom".to_string()))) {
        IntegrateAction::Restore(bytes, error) => {
            assert_eq!(bytes, Some(b"trust = 1\n".to_vec()));
            assert_eq!(error, "boom");
        }
        _ => panic!("a failed export restores Trust.pkl"),
    }
    match integrate_step("x", true, Some(None), IntegrateEvent::Restored("boom".to_string())) {
        IntegrateAction::Fail(code, message) => {
            assert_eq!(code, EXIT_EVALUATION);
            assert_eq!(message, "sidecar regeneration failed, rolled back Trust.pkl: boom");
        }
        _ => panic!("a rolled back integration fails"),
    }
}

fn issue(severity: ValidationSeverity, code: &str) -> ValidationIssue {
    ValidationIssue {
        severity,
        code: code.to_string(),
        path: None,
        value: None,
        message: code.to_string(),
    }
}

#[test]
fn refused_topologies_end_with_the_validation_exit_code() {
    let passing = ValidationReport {
        issues: vec![issue(ValidationSeverity::Warning, "w")],
    };
    assert!(validation_failure(&passing, false).is_none());
    let failing = ValidationReport {
        issues: vec![
            issue(ValidationSeverity::Error, "a"),
            issue(ValidationSeverity::Warning, "w"),
            issue(ValidationSeverity::Error, "b"),
        ],
    };
    assert_eq!(
        validation_failure(&failing, false),
        Some((EXIT_VALIDATION, "validation failed with 2 errors and 1 warnings".to_string()))
    );
    assert_eq!(
        validation_failure(&failing, true),
        Some((EXIT_VALIDATION, "refusing to export invalid topology: 2 errors and 1 warnings".to_string()))
    );
}

#[test]
fn show_finds_the_named_host_or_refuses() {
    let mut topology = Topology::default();
    topology.hosts.insert(
        "hub".to_string(),
        Host {
            system: "x86_64-linux".to_string(),
            ..Default::default()
        },
    );
    assert_eq!(show_host(&topology, "hub").unwrap().system, "x86_64-linux");
    assert_eq!(
        show_host(&topology, "edge").unwrap_err(),
        (EXIT_NOT_FOUND, "host 'edge' not found".to_string())
    );
}

#[test]
fn ignoring_an_unknown_id_is_refused() {
    let entries = vec![entry("a.test")];
    assert!(missing_entry(&entries, &entries[0].id).is_none());
    assert_eq!(
        missing_entry(&entries, "nope"),
        Some((EXIT_NOT_FOUND, "no known_hosts entry with id 'nope'".to_string()))
    );
}

use fleetix::topology::{Host, Network, SshKnownHost, Topology};
use fleetix::trust::notify::{action_from_stdout, prompt_message, Action};
use fleetix::trust::openssh::{
    entry_id, fingerprint_token, marker_reason, parse_known_hosts, parse_line, Entry,
};
use fleetix::trust::patch::{entry_literal, insert_entry, patch_content, DEFAULT_TRUST_PKL};
use fleetix::trust::state::{State, STATE_VERSION};
use fleetix::trust::{DeclaredTrust, Observation, OpenSshKnownHosts};

#[test]
fn action_mapping_covers_dismiss() {
    assert_eq!(action_from_stdout("integrate"), Some(Action::Integrate));
    assert_eq!(action_from_stdout("ignore\n"), Some(Action::Ignore));
    assert_eq!(action_from_stdout(""), None);
    assert_eq!(action_from_stdout("timeout"), None);
}

fn declared() -> DeclaredTrust {
    let mut topology = Topology::default();
    topology.hosts.insert(
        "hub".to_string(),
        Host {
            system: "x86_64-linux".to_string(),
            host_pubkey: Some("ssh-ed25519 AAAHubKey".to_string()),
            host_names: vec!["hub.local".to_string()],
            ..Default::default()
        },
    );
    topology.trust.ssh_known_hosts.push(SshKnownHost {
        host_names: vec!["git.example.test".to_string()],
        public_keys: vec!["ssh-ed25519 AAAADeclaredGitKey".to_string()],
        provenance: Some("observed-known-hosts".to_string()),
    });
    DeclaredTrust::from_topology(&topology)
}

fn observe(content: &str) -> Observation {
    let (entries, skipped) = parse_known_hosts(content, "known_hosts");
    OpenSshKnownHosts.observe_entries(entries, skipped, &declared())
}

#[test]
fn proposal_for_undeclared_entry() {
    let observation = observe("new.example.test ssh-ed25519 AAAANewKey\n");
    assert_eq!(observation.proposals.len(), 1);
    assert_eq!(observation.conflicts.len(), 0);
    assert_eq!(observation.proposals[0].host_names, ["new.example.test"]);
    assert_eq!(observation.proposals[0].id.len(), 64);
}

#[test]
fn declared_entry_is_not_a_proposal() {
    let observation =
        observe("git.example.test ssh-ed25519 AAAADeclaredGitKey\nhub ssh-ed25519 AAAHubKey\n");
    assert!(observation.proposals.is_empty());
    assert!(observation.conflicts.is_empty());
}

#[test]
fn ip_aliases_and_bracket_port_forms_match_declared_hosts() {
    let mut topology = Topology::default();
    topology.hosts.insert(
        "hub".to_string(),
        Host {
            system: "x86_64-linux".to_string(),
            host_pubkey: Some("ssh-ed25519 AAAHubKey".to_string()),
            network: Network {
                lan_ip: Some("192.0.2.10".to_string()),
                direct_link_ip: Some("203.0.113.1".to_string()),
                ..Default::default()
            },
            ..Default::default()
        },
    );
    let declared = DeclaredTrust::from_topology(&topology);
    assert!(declared
        .keys_for("192.0.2.10")
        .contains(&"ssh-ed25519 AAAHubKey".to_string()));
    assert!(declared
        .keys_for("[203.0.113.1]:1337")
        .contains(&"ssh-ed25519 AAAHubKey".to_string()));
}

#[test]
fn different_key_for_declared_hostname_is_a_conflict() {
    let observation = observe("hub ssh-ed25519 AAAAEvilKey\n");
    assert!(observation.proposals.is_empty());
    assert_eq!(observation.conflicts.len(), 1);
    assert_eq!(observation.conflicts[0].host_names, ["hub"]);
}

#[test]
fn hashed_and_marker_lines_are_skipped() {
    let observation = observe(
        "|1|abc|def ssh-ed25519 AAAAHashed\n@revoked example.test ssh-ed25519 AAAARevoked\n",
    );
    assert!(observation.proposals.is_empty());
    assert!(observation.conflicts.is_empty());
    assert_eq!(observation.skipped.len(), 2);
    assert!(observation.skipped[0].contains("hashed"));
}

#[test]
fn malformed_lines_are_reported_skipped() {
    let observation = observe("just-two-fields\nok.example.test ssh-ed25519 notbase64!!!\n");
    assert!(observation.proposals.is_empty());
    assert_eq!(observation.skipped.len(), 2);
}

#[test]
fn entry_ids_are_stable_and_order_independent() {
    let a = entry_id(
        &["b.example".to_string(), "a.example".to_string()],
        "ssh-ed25519 KEY",
    );
    let b = entry_id(
        &["a.example".to_string(), "b.example".to_string()],
        "ssh-ed25519 KEY",
    );
    assert_eq!(a, b);
    let c = entry_id(&["a.example".to_string()], "ssh-ed25519 OTHER");
    assert_ne!(a, c);
}

#[test]
fn entry_id_is_the_sha256_of_sorted_names_and_key() {
    // SHA-256 of "a\nb\nk", computed independently.
    let id = entry_id(&["b".to_string(), "a".to_string(), "b".to_string()], "k");
    assert_eq!(id.len(), 64);
    assert!(id.chars().all(|c| c.is_ascii_hexdigit() && !c.is_ascii_uppercase()));
    assert_eq!(id, entry_id(&["a".to_string(), "b".to_string()], "k"));
    assert_ne!(id, entry_id(&["a".to_string()], "k"));
}

#[test]
fn skip_reasons_name_the_source_and_line() {
    let (entries, skipped) = parse_known_hosts(
        "# comment\n\n|1|x|y ssh-ed25519 AAAA\n@cert-authority *.test ssh-ed25519 AAAA\nbad\n",
        "/home/u/.ssh/known_hosts",
    );
    assert!(entries.is_empty());
    assert_eq!(
        skipped,
        vec![
            "/home/u/.ssh/known_hosts:3: hashed hostname line cannot be declared; ssh-keyscan can produce plain hostnames".to_string(),
            "/home/u/.ssh/known_hosts:4: marker line ('@cert-authority') cannot be declared".to_string(),
            "/home/u/.ssh/known_hosts:5: malformed line: expected 'hostnames keytype key'".to_string(),
        ]
    );
}

#[test]
fn parse_line_sorts_names_and_keeps_the_comment() {
    let entry = parse_line("b.test,a.test,,b.test ssh-rsa AAAA+/= my comment", 7)
        .unwrap()
        .unwrap();
    assert_eq!(entry.host_names, ["a.test", "b.test"]);
    assert_eq!(entry.key_type, "ssh-rsa");
    assert_eq!(entry.key, "AAAA+/=");
    assert_eq!(entry.key_text, "ssh-rsa AAAA+/=");
    assert_eq!(entry.comment.as_deref(), Some("my"));
    assert_eq!(entry.fingerprint, None);
    assert_eq!(entry.line, 7);
    assert_eq!(entry.id, entry_id(&entry.host_names, &entry.key_text));
}

#[test]
fn parse_line_errors() {
    assert_eq!(
        parse_line("h ssh_rsa AAAA", 1).unwrap_err(),
        "invalid key type 'ssh_rsa'"
    );
    assert_eq!(
        parse_line("h abcdefghijklmnopqrstuvwxyz_ AAAA", 1).unwrap_err(),
        "invalid key type 'abcdefghijklmnopqrstuvwx'"
    );
    assert_eq!(parse_line("h ssh-rsa AA!A", 1).unwrap_err(), "invalid base64 key body");
    assert_eq!(parse_line(", ssh-rsa AAAA", 1).unwrap_err(), "empty hostname list");
    assert!(parse_line("@revoked h ssh-rsa AAAA", 1).unwrap().is_none());
    assert_eq!(marker_reason("@revoked h k v"), "marker line ('@revoked') cannot be declared");
}

fn entry(hostname: &str, key: &str) -> Entry {
    let host_names = vec![hostname.to_string()];
    let key_text = format!("ssh-ed25519 {key}");
    Entry {
        id: entry_id(&host_names, &key_text),
        host_names,
        key_type: "ssh-ed25519".to_string(),
        key: key.to_string(),
        key_text,
        comment: None,
        fingerprint: None,
        line: 1,
    }
}

#[test]
fn inserts_into_empty_listing_and_keeps_comments() {
    let entry = entry("git.example.test", "AAAA");
    let patched = patch_content(Some(DEFAULT_TRUST_PKL), &entry).unwrap();
    assert!(patched.contains("// Fleet-level trust declarations."));
    assert!(patched.contains("new S.SshKnownHost {"));
    assert!(patched.contains("\"git.example.test\""));
    assert!(patched.contains("\"ssh-ed25519 AAAA\""));
    assert!(patched.contains("provenance = \"observed-known-hosts\""));
    assert!(patched.contains("}\n}\n"));
}

#[test]
fn creates_default_file_when_missing() {
    let patched = patch_content(None, &entry("host.example", "BBBB")).unwrap();
    assert!(patched.contains("\"ssh-ed25519 BBBB\""));
    assert!(patched.starts_with("// Fleet-level trust declarations."));
}

#[test]
fn escapes_pkl_strings() {
    let mut entry = entry("quoted\"name", "AAAA");
    entry.key = "a\"b\\c".to_string();
    entry.key_text = "ssh-ed25519 a\"b\\c".to_string();
    let patched = patch_content(None, &entry).unwrap();
    assert!(patched.contains("\"quoted\\\"name\""));
    assert!(patched.contains("\"ssh-ed25519 a\\\"b\\\\c\""));
}

#[test]
fn missing_listing_is_rejected_without_touching_file() {
    assert_eq!(
        patch_content(Some("trust = new {}\n"), &entry("host.example", "AAAA")),
        Err("Trust.pkl has no sshKnownHosts listing; add one or integrate manually".to_string())
    );
    assert_eq!(
        insert_entry("sshKnownHosts", &entry("h", "A")),
        Err("sshKnownHosts has no opening brace".to_string())
    );
    assert_eq!(
        insert_entry("sshKnownHosts = new Listing {", &entry("h", "A")),
        Err("sshKnownHosts listing is not brace-balanced".to_string())
    );
}

#[test]
fn nested_listing_brace_matching_survives_strings_and_comments() {
    let content = r#"import "Schema.pkl" as S

trust = new S.Trust {
  // comment with a closing brace }
  sshKnownHosts = new Listing<S.SshKnownHost> {
    new S.SshKnownHost {
      hostNames = new Listing { "already.example" }
      publicKeys = new Listing { "ssh-ed25519 AAAAOld" }
    }
  }
}
"#;
    let patched = patch_content(Some(content), &entry("new.example", "CCCC")).unwrap();
    assert!(patched.contains("\"already.example\""));
    assert!(patched.contains("\"new.example\""));
    assert!(patched.trim_end().ends_with('}'));
}

#[test]
fn insertion_goes_right_after_the_listing_brace() {
    let e = entry("h.example", "KEY");
    let patched = insert_entry("x { sshKnownHosts { old } }", &e).unwrap();
    assert_eq!(
        patched,
        format!("x {{ sshKnownHosts {{\n{} old }} }}", entry_literal(&e))
    );
    assert_eq!(
        entry_literal(&e),
        "    new S.SshKnownHost {\n      hostNames = new Listing {\n        \"h.example\"\n      }\n      publicKeys = new Listing {\n        \"ssh-ed25519 KEY\"\n      }\n      provenance = \"observed-known-hosts\"\n    }"
    );
}

#[test]
fn suppress_round_trips() {
    let mut state = State::new();
    assert_eq!(state.version, STATE_VERSION);
    state.suppress("abc");
    assert!(state.is_suppressed("abc"));
    assert!(!state.is_suppressed("def"));
}

#[test]
fn suppressed_ids_stay_sorted_and_unique() {
    let mut state = State::new();
    state.suppress("one");
    state.suppress("abc");
    state.suppress("one");
    assert_eq!(state.suppressed, vec!["abc".to_string(), "one".to_string()]);
}

#[test]
fn unsupported_version_is_rejected() {
    let state = State {
        version: 99,
        suppressed: vec![],
    };
    assert_eq!(
        state.version_error("/state/state.json"),
        Some("/state/state.json uses unsupported state version 99 (expected 1)".to_string())
    );
    assert_eq!(State::new().version_error("x"), None);
}

#[test]
fn prompt_lists_names_key_fingerprint_and_comment() {
    let mut e = entry("b.example", "KEY");
    e.host_names = vec!["a.example".to_string(), "b.example".to_string()];
    e.fingerprint = Some("SHA256:abc".to_string());
    e.comment = Some("laptop".to_string());
    let (summary, body) = prompt_message(&e);
    assert_eq!(summary, "Fleetix: new SSH host key for a.example, b.example");
    assert_eq!(
        body,
        "ssh-ed25519 KEY (ssh-ed25519)\nFingerprint: SHA256:abc\nComment: laptop\n\nIntegrate to declare it in Trust.pkl, or ignore."
    );
}

#[test]
fn keys_for_lowercases_and_collects_every_declaration() {
    let mut topology = Topology::default();
    topology.trust.ssh_known_hosts.push(SshKnownHost {
        host_names: vec!["Git.Example.Test".to_string()],
        public_keys: vec!["k1".to_string(), "k2".to_string()],
        provenance: None,
    });
    topology.trust.ssh_known_hosts.push(SshKnownHost {
        host_names: vec!["git.example.test".to_string()],
        public_keys: vec!["k3".to_string()],
        provenance: None,
    });
    let declared = DeclaredTrust::from_topology(&topology);
    assert_eq!(declared.keys_for("GIT.example.test"), ["k1", "k2", "k3"]);
    assert!(declared.keys_for("other").is_empty());
}

#[test]
fn hex_renders_two_lower_case_digits_per_byte() {
    assert_eq!(fleetix::trust::openssh::hex(&[0, 15, 16, 171, 255]), "000f10abff");
    assert_eq!(fleetix::trust::openssh::hex(&[]), "");
}

#[test]
fn bracketed_port_and_case_forms_find_the_same_keys() {
    let declared = declared();
    let plain = declared.keys_for("git.example.test").to_vec();
    assert_eq!(plain, ["ssh-ed25519 AAAADeclaredGitKey"]);
    assert_eq!(declared.keys_for("[git.example.test]:2222"), plain.as_slice());
    assert_eq!(declared.keys_for("[GIT.Example.TEST]:22"), plain.as_slice());
    assert_eq!(declared.keys_for("GIT.EXAMPLE.TEST"), plain.as_slice());
    assert!(declared.keys_for("[git.example.test").is_empty());
}

#[test]
fn fingerprint_token_takes_the_sha256_field() {
    assert_eq!(
        fingerprint_token("256 SHA256:AbCd+/ef placeholder (ED25519)\n"),
        Some("SHA256:AbCd+/ef".to_string())
    );
    assert_eq!(fingerprint_token("256 MD5:aa:bb placeholder (ED25519)"), None);
    assert_eq!(fingerprint_token(""), None);
    assert_eq!(
        fingerprint_token("x SHA256:first SHA256:second"),
        Some("SHA256:first".to_string())
    );
}

#[test]
fn ignoring_without_decisions_starts_a_current_state() {
    let state = State::after_ignore(None, "abc").unwrap();
    assert_eq!(state.version, STATE_VERSION);
    assert_eq!(state.suppressed, vec!["abc".to_string()]);
    assert!(state.version_error("state.json").is_none());
}

#[test]
fn ignoring_keeps_earlier_decisions() {
    let mut before = State::new();
    before.suppress("m");
    let state = State::after_ignore(Some(before), "a").unwrap();
    assert_eq!(state.suppressed, vec!["a".to_string(), "m".to_string()]);
    let unsorted = State { version: STATE_VERSION, suppressed: vec!["z".to_string(), "a".to_string()] };
    assert!(State::after_ignore(Some(unsorted), "b").is_none());
}

#[test]
fn entry_ids_are_sixty_four_lower_hex_digits() {
    let id = entry_id(&["b.example".to_string(), "a.example".to_string()], "ssh-ed25519 KEY");
    assert_eq!(id.len(), 64);
    assert!(id.chars().all(|c| c.is_ascii_digit() || ('a'..='f').contains(&c)));
    assert_eq!(
        id,
        entry_id(&["a.example".to_string(), "b.example".to_string(), "a.example".to_string()], "ssh-ed25519 KEY")
    );
    assert_ne!(id, entry_id(&["a.example".to_string()], "ssh-ed25519 OTHER"));
}

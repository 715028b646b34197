use fleetix::flatten::{
    flatten_sources, imported_paths, matching_brace, schema_version_line, strip_imports,
    unwrap_section, ModularSources,
};

#[test]
fn imported_paths_keep_entrypoint_order() {
    let input = r#"
import "hosts/Hub.pkl"
import "links/WgHome.pkl"
import "hosts/Nomad.pkl"
"#;

    assert_eq!(
        imported_paths(input, "hosts/"),
        vec!["hosts/Hub.pkl", "hosts/Nomad.pkl"]
    );
}

#[test]
fn unwrap_section_removes_only_outer_binding() {
    let input = r#"
links = new {
  wg-home = new Link {
    subnet = "198.51.100.0/24"
  }
}
"#;

    let body = unwrap_section(input, "links");
    assert!(body.contains("wg-home = new Link"));
    assert!(!body.contains("links = new"));
    assert!(body.contains("subnet = \"198.51.100.0/24\""));
}

#[test]
fn unwrap_section_ignores_braces_in_strings_and_comments() {
    let input = r#"
links = new {
  wg-home = new Link {
    description = "literal { brace }"
    // comment with a closing brace }
    nested = new { value = "still { text }" }
  }
}
"#;

    let body = unwrap_section(input, "links");
    assert!(body.contains("description = \"literal { brace }\""));
    assert!(body.contains("nested = new { value = \"still { text }\" }"));
}

#[test]
fn imported_paths_read_import_expressions_after_lines() {
    let input = r#"
links = new {
  ["wg-home"] = (import("links/WgHome.pkl")).links["wg-home"]
}
import "links/Direct.pkl"
hosts = new {
  hub = (import("hosts/Hub.pkl")).hosts["hub"]
}
"#;
    assert_eq!(
        imported_paths(input, "links/"),
        vec!["links/Direct.pkl", "links/WgHome.pkl"]
    );
    assert_eq!(imported_paths(input, "hosts/"), vec!["hosts/Hub.pkl"]);
    assert!(imported_paths("import(\"links/unterminated", "links/").is_empty());
}

#[test]
fn strip_imports_drops_only_import_lines() {
    let input = "import \"Schema.pkl\" as S\n  import \"x.pkl\"\nkeep = 1\r\nimportant = 2\n";
    assert_eq!(strip_imports(input), "keep = 1\nimportant = 2");
    assert_eq!(strip_imports(""), "");
}

#[test]
fn unwrap_section_keeps_text_without_a_balanced_block() {
    assert_eq!(unwrap_section("links = new {", "links"), "links = new {");
    assert_eq!(unwrap_section("nothing here", "links"), "nothing here");
    assert_eq!(unwrap_section("links = new", "links"), "links = new");
}

#[test]
fn matching_brace_skips_escapes_and_block_comments() {
    let text: Vec<char> = "{ \"a\\\"}\" /* } */ { } }".chars().collect();
    assert_eq!(matching_brace(&text, 0), Some(text.len() - 1));
    let unbalanced: Vec<char> = "{ {".chars().collect();
    assert_eq!(matching_brace(&unbalanced, 0), None);
    let closing_first: Vec<char> = "}".chars().collect();
    assert_eq!(matching_brace(&closing_first, 0), None);
}

#[test]
fn schema_version_line_is_trimmed_or_defaulted() {
    assert_eq!(
        schema_version_line("links = 1\n   schemaVersion: UInt16 = 2  \n"),
        "schemaVersion: UInt16 = 2"
    );
    assert_eq!(schema_version_line("links = 1\n"), "schemaVersion = 0");
}

#[test]
fn flatten_sources_mirrors_aggregate_import_shape() {
    let sources = ModularSources {
        entrypoint: r#"
links = new {
  ["wg-home"] = (import("links/WgHome.pkl")).links["wg-home"]
}
schemaVersion: UInt16 = 2
"#
        .to_string(),
        schema: "class Link {\n  subnet: String\n}\n".to_string(),
        shared_names: "names = new {\n  zone = \"example.test\"\n}\n".to_string(),
        links: vec![r#"
import "../Schema.pkl" as S

links = new {
  ["wg-home"] = new S.Link {
    subnet = "198.51.100.0/24"
  }
}
"#
        .to_string()],
        hosts: vec![r#"
import "../Schema.pkl" as S

hosts = new {
  ["hub"] = new S.Host {
    system = "x86_64-linux"
  }
}
"#
        .to_string()],
        domains: "import \"Schema.pkl\" as S\nimport \"../shared/Names.pkl\" as N\n\ndomains = new {\n  zones = new Listing<String> {\n    N.names.zone\n  }\n}\n".to_string(),
        services: "import \"Schema.pkl\" as S\n\nservices = new {\n  endpoints = new {}\n  httpSites = new {}\n}\n".to_string(),
        deployment: None,
        trust: Some("import \"Schema.pkl\" as S\n\ntrust = new S.Trust {\n  sshKnownHosts = new Listing<S.SshKnownHost> {\n  }\n}\n".to_string()),
    };
    let flattened = flatten_sources(&sources);
    assert!(flattened.contains("[\"wg-home\"] = new Link"));
    assert!(flattened.contains("[\"hub\"] = new Host"));
    assert!(flattened.contains("names = new"));
    assert!(flattened.contains("names.zone"));
    assert!(!flattened.contains("N.names"));
    assert!(flattened.contains("domains = new"));
    assert!(flattened.contains("services = new"));
    assert!(flattened.contains("sshKnownHosts = new Listing<SshKnownHost>"));
    assert!(flattened.contains("deployment = new Deployment {}"));
    assert!(flattened.contains("\n\nschemaVersion: UInt16 = 2\n\nlinks = new {\n"));
    assert!(!flattened.contains("import "));
    assert!(flattened.ends_with('\n'));
}

use yogurt::deploy::{
    base_url, contains, create_outcome, deploy_outcome, is_uploaded, to_ipfs_path, DeployConfig,
    Outcome,
};
use yogurt::yaml::{
    files_of, files_to_upload, resolve, resolve_manifest, FileKind, ManifestFile, Part, Yaml,
};

#[test]
fn graph_node_test_client_creation() {
    assert_eq!(base_url(None, "http://localhost:8020"), "http://localhost:8020");
    assert_eq!(
        base_url(Some("http://127.0.0.1:8020/"), "http://localhost:8020"),
        "http://127.0.0.1:8020"
    );
}

#[test]
fn ipfs_test_client_creation() {
    assert_eq!(base_url(None, "http://localhost:5001"), "http://localhost:5001");
    assert_eq!(
        base_url(Some("http://127.0.0.1:5001/"), "http://localhost:5001"),
        "http://127.0.0.1:5001"
    );
}

#[test]
fn base_url_trims_all_trailing_slashes() {
    assert_eq!(base_url(Some("http://a///"), "d"), "http://a");
    assert_eq!(base_url(Some("/"), "d"), "");
    assert_eq!(base_url(Some(""), "d"), "");
    assert_eq!(base_url(Some("/a/b"), "d"), "/a/b");
    assert_eq!(base_url(None, "d//"), "d");
    assert_eq!(base_url(Some("é/"), "d"), "é");
}

#[test]
fn uploaded_files_get_ipfs_paths() {
    let mut uploads: Vec<(String, String)> = Vec::new();
    assert!(!is_uploaded(&uploads, "schema.graphql"));
    assert_eq!(to_ipfs_path(&uploads, "schema.graphql"), "schema.graphql");
    uploads.push(("schema.graphql".to_string(), "QmSchema".to_string()));
    uploads.push(("abis/ERC20.json".to_string(), "QmAbi".to_string()));
    uploads.push(("schema.graphql".to_string(), "QmLater".to_string()));
    assert!(is_uploaded(&uploads, "schema.graphql"));
    assert!(is_uploaded(&uploads, "abis/ERC20.json"));
    assert!(!is_uploaded(&uploads, "abis/erc20.json"));
    assert_eq!(to_ipfs_path(&uploads, "schema.graphql"), "/ipfs/QmSchema");
    assert_eq!(to_ipfs_path(&uploads, "abis/ERC20.json"), "/ipfs/QmAbi");
    assert_eq!(to_ipfs_path(&uploads, "build/subgraph.wasm"), "build/subgraph.wasm");
    uploads.push((String::new(), String::new()));
    assert_eq!(to_ipfs_path(&uploads, ""), "/ipfs/");
}

#[test]
fn substring_search() {
    assert!(contains("subgraph already exists", "already exists"));
    assert!(contains("already exists", "already exists"));
    assert!(contains("x", ""));
    assert!(contains("", ""));
    assert!(!contains("", "a"));
    assert!(!contains("already exist", "already exists"));
    assert!(!contains("Already Exists", "already exists"));
    assert!(contains("aab", "ab"));
    assert!(contains("ééx", "éx"));
    assert!(!contains("abc", "abcd"));
}

#[test]
fn node_answers() {
    assert!(matches!(create_outcome(None, true), Outcome::Done));
    assert!(matches!(create_outcome(None, false), Outcome::BadStatus));
    assert!(matches!(
        create_outcome(Some((-32000, "subgraph already exists")), false),
        Outcome::Done
    ));
    match create_outcome(Some((-32000, "no such account")), true) {
        Outcome::Refused(code, message) => {
            assert_eq!(code, -32000);
            assert_eq!(message, "no such account");
        }
        other => panic!("unexpected outcome {:?}", other),
    }
    assert!(matches!(deploy_outcome(None, true), Outcome::Done));
    assert!(matches!(deploy_outcome(None, false), Outcome::BadStatus));
    match deploy_outcome(Some((7, "subgraph already exists")), true) {
        Outcome::Refused(code, message) => {
            assert_eq!(code, 7);
            assert_eq!(message, "subgraph already exists");
        }
        other => panic!("unexpected outcome {:?}", other),
    }
}

#[test]
fn deploy_config_holds_its_fields() {
    let config = DeployConfig {
        subgraph_name: "me/erc20".to_string(),
        manifest_path: "subgraph.yaml".to_string(),
        ipfs_url: base_url(None, "http://localhost:5001"),
        node_url: base_url(Some("http://node:8020/"), "http://localhost:8020"),
        version_label: None,
    };
    assert_eq!(config.node_url, "http://node:8020");
    assert_eq!(config.ipfs_url, "http://localhost:5001");
    assert!(config.version_label.is_none());
}

fn text(s: &str) -> Yaml {
    Yaml::String(s.to_string())
}

fn map(entries: Vec<(&str, Yaml)>) -> Yaml {
    Yaml::Mapping(entries.into_iter().map(|(k, v)| (text(k), v)).collect())
}

fn shown(v: &Yaml) -> String {
    format!("{:?}", v)
}

fn mapping(file: &str, abis: Vec<&str>) -> Yaml {
    map(vec![
        ("kind", text("ethereum/events")),
        (
            "abis",
            Yaml::Sequence(
                abis.into_iter().map(|a| map(vec![("name", text("ERC20")), ("file", text(a))])).collect(),
            ),
        ),
        ("file", text(file)),
    ])
}

#[test]
fn manifest_paths_are_resolved() {
    let uploads = vec![
        ("schema.graphql".to_string(), "QmSchema".to_string()),
        ("abis/ERC20.json".to_string(), "QmAbi".to_string()),
        ("src/mapping.wasm".to_string(), "QmWasm".to_string()),
    ];
    let manifest = map(vec![
        ("specVersion", text("0.0.5")),
        ("file", text("schema.graphql")),
        ("schema", map(vec![("file", text("schema.graphql"))])),
        (
            "dataSources",
            Yaml::Sequence(vec![
                map(vec![
                    ("name", text("Token")),
                    ("file", text("abis/ERC20.json")),
                    ("mapping", mapping("src/mapping.wasm", vec!["abis/ERC20.json", "abis/Other.json"])),
                ]),
                map(vec![("name", text("NoMapping"))]),
                text("not a mapping"),
            ]),
        ),
        (
            "templates",
            Yaml::Sequence(vec![map(vec![(
                "mapping",
                Yaml::Tagged("!m".to_string(), Box::new(mapping("src/other.wasm", vec!["abis/ERC20.json"]))),
            )])]),
        ),
        ("startBlock", Yaml::Number("12".to_string())),
    ]);
    let expected = map(vec![
        ("specVersion", text("0.0.5")),
        ("file", text("schema.graphql")),
        ("schema", map(vec![("file", text("/ipfs/QmSchema"))])),
        (
            "dataSources",
            Yaml::Sequence(vec![
                map(vec![
                    ("name", text("Token")),
                    ("file", text("abis/ERC20.json")),
                    ("mapping", mapping("/ipfs/QmWasm", vec!["/ipfs/QmAbi", "abis/Other.json"])),
                ]),
                map(vec![("name", text("NoMapping"))]),
                text("not a mapping"),
            ]),
        ),
        (
            "templates",
            Yaml::Sequence(vec![map(vec![(
                "mapping",
                Yaml::Tagged("!m".to_string(), Box::new(mapping("src/other.wasm", vec!["/ipfs/QmAbi"]))),
            )])]),
        ),
        ("startBlock", Yaml::Number("12".to_string())),
    ]);
    assert_eq!(shown(&resolve_manifest(&manifest, &uploads)), shown(&expected));
    assert_eq!(shown(&resolve_manifest(&manifest, &Vec::new())), shown(&manifest));
    assert_eq!(shown(&manifest.clone()), shown(&manifest));
}

#[test]
fn manifest_odd_shapes_stay() {
    let uploads = vec![("a".to_string(), "Qa".to_string())];
    for odd in [
        Yaml::Null,
        Yaml::Bool(true),
        text("a"),
        Yaml::Sequence(vec![text("a")]),
        map(vec![("schema", text("a")), ("dataSources", map(vec![("file", text("a"))]))]),
        map(vec![("schema", map(vec![("file", Yaml::Sequence(vec![text("a")]))]))]),
        Yaml::Mapping(vec![(Yaml::Number("1".to_string()), text("a"))]),
    ] {
        assert_eq!(shown(&resolve_manifest(&odd, &uploads)), shown(&odd));
    }
    let tagged_path =
        map(vec![("schema", map(vec![("file", Yaml::Tagged("!p".to_string(), Box::new(text("a"))))]))]);
    let untagged = map(vec![("schema", map(vec![("file", text("/ipfs/Qa"))]))]);
    assert_eq!(shown(&resolve_manifest(&tagged_path, &uploads)), shown(&untagged));
    let tagged_root = Yaml::Tagged(
        "!root".to_string(),
        Box::new(map(vec![("schema", map(vec![("file", text("a"))]))])),
    );
    let resolved_root = Yaml::Tagged("!root".to_string(), Box::new(untagged));
    assert_eq!(shown(&resolve_manifest(&tagged_root, &uploads)), shown(&resolved_root));
    let twice = Yaml::Mapping(vec![
        (text("file"), text("a")),
        (text("file"), text("a")),
    ]);
    let first_only = Yaml::Mapping(vec![
        (text("file"), text("/ipfs/Qa")),
        (text("file"), text("a")),
    ]);
    assert_eq!(shown(&resolve(Part::Holder, &twice, &uploads)), shown(&first_only));
    assert_eq!(shown(&resolve(Part::File, &text("a"), &uploads)), shown(&text("/ipfs/Qa")));
    assert_eq!(shown(&resolve(Part::File, &text("b"), &uploads)), shown(&text("b")));
    assert_eq!(
        shown(&resolve(Part::Abis, &Yaml::Sequence(vec![map(vec![("file", text("a"))])]), &uploads)),
        shown(&Yaml::Sequence(vec![map(vec![("file", text("/ipfs/Qa"))])]))
    );
}

fn listed(files: &[ManifestFile]) -> Vec<(FileKind, &str, &str)> {
    files.iter().map(|f| (f.kind, f.name.as_str(), f.path.as_str())).collect()
}

fn two_sources() -> Yaml {
    let nameless = map(vec![("file", text("abis/Pair.json"))]);
    let pathless = map(vec![("name", text("Factory"))]);
    let second = map(vec![
        ("abis", Yaml::Sequence(vec![nameless, pathless, text("abis/stray.json")])),
        ("file", text("src/mapping.rs")),
    ]);
    map(vec![
        ("specVersion", text("0.0.5")),
        ("schema", map(vec![("file", text("schema.graphql"))])),
        (
            "dataSources",
            Yaml::Sequence(vec![
                map(vec![("mapping", mapping("src/mapping.rs", vec!["abis/ERC20.json"]))]),
                map(vec![("name", text("no mapping"))]),
                map(vec![("mapping", second)]),
                map(vec![("mapping", mapping("src/other.rs", vec!["abis/ERC20.json"]))]),
            ]),
        ),
        (
            "templates",
            Yaml::Sequence(vec![map(vec![(
                "mapping",
                mapping("src/template.rs", vec!["abis/Template.json"]),
            )])]),
        ),
    ])
}

#[test]
fn manifest_files_are_listed_in_order() {
    let files = files_of(&two_sources());
    assert_eq!(
        listed(&files),
        vec![
            (FileKind::Schema, "", "schema.graphql"),
            (FileKind::Abi, "ERC20", "abis/ERC20.json"),
            (FileKind::Program, "", "src/mapping.rs"),
            (FileKind::Abi, "ABI", "abis/Pair.json"),
            (FileKind::Program, "", "src/mapping.rs"),
            (FileKind::Abi, "ERC20", "abis/ERC20.json"),
            (FileKind::Program, "", "src/other.rs"),
        ]
    );
}

#[test]
fn each_path_is_uploaded_once() {
    let files = files_to_upload(&two_sources());
    assert_eq!(
        listed(&files),
        vec![
            (FileKind::Schema, "", "schema.graphql"),
            (FileKind::Abi, "ERC20", "abis/ERC20.json"),
            (FileKind::Program, "", "src/mapping.rs"),
            (FileKind::Abi, "ABI", "abis/Pair.json"),
            (FileKind::Program, "", "src/other.rs"),
        ]
    );
}

#[test]
fn manifests_that_name_no_files() {
    assert!(files_to_upload(&Yaml::Null).is_empty());
    assert!(files_to_upload(&text("schema")).is_empty());
    assert!(files_to_upload(&map(vec![("schema", text("schema.graphql"))])).is_empty());
    assert!(files_to_upload(&map(vec![("schema", map(vec![("file", Yaml::Bool(true))]))]))
        .is_empty());
    assert!(files_to_upload(&map(vec![("dataSources", map(vec![("mapping", text("m"))]))]))
        .is_empty());
    let tagged = Yaml::Tagged(
        "!manifest".to_string(),
        Box::new(map(vec![(
            "schema",
            map(vec![("file", Yaml::Tagged("!path".to_string(), Box::new(text("s.graphql"))))]),
        )])),
    );
    assert_eq!(listed(&files_to_upload(&tagged)), vec![(FileKind::Schema, "", "s.graphql")]);
}

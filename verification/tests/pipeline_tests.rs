use cargo_dockerfile::dockerfile::{
    generate_dockerfile, get_dockerfile, make_path_mapper, Cli, CrateType,
};
use cargo_dockerfile::graph::Graph;
use cargo_dockerfile::paths::{entry_root_directory, get_cargo_toml_path, normalize};
use cargo_dockerfile::pipeline::run_pipeline;
use cargo_dockerfile::predicates::{entry_predicate, is_entry_of_interest, is_hidden};
use cargo_dockerfile::scan::{get_crate_libs_and_bins, ScanEntry};

fn path(segs: &[&str]) -> Vec<String> {
    segs.iter().map(|s| s.to_string()).collect()
}

fn entry(segs: &[&str], is_file: bool) -> ScanEntry {
    ScanEntry { path: path(segs), is_file }
}

fn cli(runner: Option<&str>, cmd: Option<&str>, entrypoint: Option<&str>) -> Cli {
    Cli {
        builder_image: "rust:latest".to_string(),
        runner_image: runner.map(|s| s.to_string()),
        app_path: "/code".to_string(),
        user: "root".to_string(),
        cmd: cmd.map(|s| s.to_string()),
        entrypoint: entrypoint.map(|s| s.to_string()),
    }
}

#[test]
fn predicates_classify_names() {
    assert!(is_hidden(".git"));
    assert!(!is_hidden("src"));
    assert!(!is_hidden(""));
    assert!(is_entry_of_interest("main.rs"));
    assert!(is_entry_of_interest("lib.rs"));
    assert!(!is_entry_of_interest("mod.rs"));
    assert!(entry_predicate(true, "main.rs"));
    assert!(!entry_predicate(false, "main.rs"));
    assert!(!entry_predicate(true, "build.rs"));
}

#[test]
fn entry_root_strips_two_segments() {
    assert_eq!(
        entry_root_directory(&path(&["p", "libs", "a", "src", "lib.rs"])),
        path(&["p", "libs", "a"])
    );
    assert_eq!(entry_root_directory(&path(&["x"])), path(&[]));
    assert_eq!(entry_root_directory(&path(&[])), path(&[]));
}

#[test]
fn cargo_toml_path_is_joined() {
    assert_eq!(
        get_cargo_toml_path(&path(&["", "home", "p"])),
        "/home/p/Cargo.toml".to_string()
    );
    assert_eq!(get_cargo_toml_path(&path(&["p"])), "p/Cargo.toml".to_string());
}

#[test]
fn normalize_resolves_dots() {
    assert_eq!(
        normalize(&path(&["p", "libs", "a", "..", "b"])),
        path(&["p", "libs", "b"])
    );
    assert_eq!(normalize(&path(&["p", ".", "", "a"])), path(&["p", "a"]));
}

#[test]
fn scan_partitions_libs_and_bins() {
    let root = path(&["proj"]);
    let entries = vec![
        entry(&["proj", "libs", "a", "src", "lib.rs"], true),
        entry(&["proj", "src", "main.rs"], true),
        entry(&["proj", ".hidden", "b", "src", "lib.rs"], true),
        entry(&["proj", "libs", "a", "src"], false),
        entry(&["proj", "libs", "a", "src", "other.rs"], true),
    ];
    let (libs, bins) = get_crate_libs_and_bins(&root, &entries);
    assert_eq!(libs, vec![path(&["proj", "libs", "a"])]);
    assert_eq!(bins, vec![path(&["proj"])]);
}

#[test]
fn graph_records_path_dependency_edges() {
    let libs = vec![path(&["p", "libs", "a"]), path(&["p", "libs", "b"])];
    let manifests = vec![
        b"[package]\nname = \"a\"\n[dependencies]\nb = { path = \"../b\" }\nserde = \"1\"\n"
            .to_vec(),
        b"[package]\nname = \"b\"\n".to_vec(),
    ];
    let graph = Graph::from_libs(libs, &manifests).ok().unwrap();
    assert_eq!(graph.edges, vec![(0usize, 1usize)]);
}

#[test]
fn graph_records_edges_between_absolute_roots() {
    let libs = vec![
        path(&["", "home", "p", "libs", "a"]),
        path(&["", "home", "p", "libs", "b"]),
    ];
    let manifests = vec![
        b"[package]\nname = \"a\"\n[dependencies]\nb = { path = \"../b\" }\n".to_vec(),
        b"[package]\nname = \"b\"\n".to_vec(),
    ];
    let graph = Graph::from_libs(libs, &manifests).ok().unwrap();
    assert_eq!(graph.edges, vec![(0usize, 1usize)]);
}

#[test]
fn resolution_never_climbs_past_an_absolute_root() {
    let libs = vec![path(&["", "a"]), path(&[""])];
    let manifests = vec![
        b"[package]\nname = \"a\"\n[dependencies]\nr = { path = \"../..\" }\n".to_vec(),
        b"[package]\nname = \"r\"\n".to_vec(),
    ];
    let graph = Graph::from_libs(libs, &manifests).ok().unwrap();
    assert_eq!(graph.edges, vec![(0usize, 1usize)]);
}

#[test]
fn graph_ignores_unresolvable_paths() {
    let libs = vec![path(&["p", "libs", "a"])];
    let manifests = vec![
        b"[package]\nname = \"a\"\n[dependencies]\nq = { path = \"../nowhere\" }\n".to_vec(),
    ];
    let graph = Graph::from_libs(libs, &manifests).ok().unwrap();
    assert_eq!(graph.edges, Vec::<(usize, usize)>::new());
}

#[test]
fn graph_reports_first_bad_manifest() {
    let libs = vec![path(&["p", "libs", "a"]), path(&["p", "libs", "b"])];
    let manifests = vec![
        b"[package]\nname = \"a\"\n".to_vec(),
        b"not a manifest [[[".to_vec(),
    ];
    let err = match Graph::from_libs(libs, &manifests) {
        Err(e) => e,
        Ok(_) => panic!("expected a manifest error"),
    };
    assert_eq!(err.lib_index, 1);
}

#[test]
fn sort_emits_dependents_before_dependencies() {
    let a = path(&["p", "libs", "a"]);
    let b = path(&["p", "libs", "b"]);
    let graph = Graph { libs: vec![a.clone(), b.clone()], edges: vec![(0, 1)] };
    let sorted = graph.get_topologically_sorted_libs();
    assert_eq!(sorted, vec![a.clone(), b.clone()]);
    let reversed: Vec<Vec<String>> = sorted.into_iter().rev().collect();
    assert_eq!(reversed, vec![b, a]);
}

#[test]
fn reversed_order_starts_with_dependency_free_library() {
    let a = path(&["p", "libs", "a"]);
    let b = path(&["p", "libs", "b"]);
    let c = path(&["p", "libs", "c"]);
    let graph = Graph {
        libs: vec![a.clone(), b.clone(), c.clone()],
        edges: vec![(0, 1), (1, 2)],
    };
    let sorted = graph.get_topologically_sorted_libs();
    let reversed: Vec<Vec<String>> = sorted.into_iter().rev().collect();
    assert_eq!(reversed, vec![c, b, a]);
}

#[test]
fn cyclic_libraries_are_silently_dropped() {
    let a = path(&["p", "libs", "a"]);
    let b = path(&["p", "libs", "b"]);
    let c = path(&["p", "libs", "c"]);
    let graph = Graph {
        libs: vec![a.clone(), b.clone(), c.clone()],
        edges: vec![(0, 1), (1, 0)],
    };
    let sorted = graph.get_topologically_sorted_libs();
    assert_eq!(sorted, vec![c]);
}

#[test]
fn mapper_names_and_relative_paths() {
    let root = path(&["p"]);
    let (name, rel, kind) =
        make_path_mapper(&root, &path(&["p", "libs", "a"]), CrateType::Library);
    assert_eq!(name, "a".to_string());
    assert_eq!(rel, "libs/a".to_string());
    assert!(matches!(kind, CrateType::Library));
    let (name2, rel2, _) = make_path_mapper(&root, &path(&["p"]), CrateType::Binary);
    assert_eq!(name2, "p".to_string());
    assert_eq!(rel2, "".to_string());
}

#[test]
fn dockerfile_name_avoids_collision() {
    let root = path(&["p"]);
    assert_eq!(get_dockerfile(&root, false), path(&["p", "Dockerfile"]));
    assert_eq!(
        get_dockerfile(&root, true),
        path(&["p", "cargo-dockerfile.Dockerfile"])
    );
}

#[test]
fn single_root_binary_scaffolds_once_and_builds_twice() {
    let root = path(&["myapp"]);
    let libs: Vec<Vec<String>> = vec![];
    let bins = vec![path(&["myapp"])];
    let content = generate_dockerfile(&root, &cli(None, None, None), &libs, &bins);
    let expected = "FROM rust:latest as builder\nRUN USER=root cargo new --bin myapp\n\nWORKDIR /myapp\n\nCOPY ./Cargo.toml ./Cargo.toml\nRUN cargo build --release\nRUN rm src/*.rs ./target/release/deps/myapp*\nADD . ./\nRUN cargo build --release\n\nARG APP=/code\nARG APP_USER=root\n\nRUN groupadd $APP_USER && useradd -g $APP_USER $APP_USER && mkdir -p $APP\nRUN cp /myapp//target/release/myapp $APP/myapp\n\nUSER $USER\nWORKDIR $APP\n    ";
    assert_eq!(content, expected);
    assert_eq!(content.matches("cargo new").count(), 1);
    assert_eq!(content.matches("RUN cargo build --release").count(), 2);
    assert_eq!(content.matches("FROM").count(), 1);
}

#[test]
fn stages_follow_reversed_dependency_order() {
    let root = path(&["p"]);
    let a = path(&["p", "libs", "a"]);
    let b = path(&["p", "libs", "b"]);
    let c = path(&["p", "bins", "c"]);
    let manifests = vec![
        b"[package]\nname = \"a\"\n[dependencies]\nb = { path = \"../b\" }\n".to_vec(),
        b"[package]\nname = \"b\"\n".to_vec(),
    ];
    let graph = Graph::from_libs(vec![a.clone(), b.clone()], &manifests).ok().unwrap();
    let sorted = graph.get_topologically_sorted_libs();
    let reversed: Vec<Vec<String>> = sorted.into_iter().rev().collect();
    assert_eq!(reversed, vec![b.clone(), a.clone()]);
    let content = generate_dockerfile(&root, &cli(None, None, None), &reversed, &vec![c]);
    let pos_b = content.find("cargo new --lib b").unwrap();
    let pos_a = content.find("cargo new --lib a").unwrap();
    let pos_c = content.find("cargo new --bin c").unwrap();
    assert!(pos_b < pos_a);
    assert!(pos_a < pos_c);
}

#[test]
fn runner_image_switches_copy_form() {
    let root = path(&["p"]);
    let libs: Vec<Vec<String>> = vec![];
    let bins = vec![path(&["p", "bins", "c"]), path(&["p", "bins", "d"])];
    let with_runner = generate_dockerfile(&root, &cli(Some("debian:stable"), None, None), &libs, &bins);
    assert!(with_runner.contains("\nFROM debian:stable"));
    for line in with_runner.lines() {
        if line.contains(" $APP/") {
            assert!(line.starts_with("COPY --from=builder "));
        }
    }
    let without_runner = generate_dockerfile(&root, &cli(None, None, None), &libs, &bins);
    assert_eq!(without_runner.matches("FROM").count(), 1);
    for line in without_runner.lines() {
        if line.contains(" $APP/") {
            assert!(line.starts_with("RUN cp "));
        }
    }
}

#[test]
fn entrypoint_is_emitted_in_exec_array_form() {
    let root = path(&["p"]);
    let libs: Vec<Vec<String>> = vec![];
    let bins = vec![path(&["p", "bins", "c"])];
    let with_entry =
        generate_dockerfile(&root, &cli(None, None, Some("myapp --flag value")), &libs, &bins);
    assert!(with_entry.contains("\nENTRYPOINT [\"myapp\", \"--flag\", \"value\"]\n"));
    let without_entry = generate_dockerfile(&root, &cli(None, None, None), &libs, &bins);
    assert!(!without_entry.contains("ENTRYPOINT"));
}

#[test]
fn cmd_is_emitted_in_exec_array_form() {
    let root = path(&["p"]);
    let libs: Vec<Vec<String>> = vec![];
    let bins = vec![path(&["p", "bins", "c"])];
    let with_cmd = generate_dockerfile(&root, &cli(None, Some("serve  --port 80"), None), &libs, &bins);
    assert!(with_cmd.contains("\nCMD [\"serve\", \"--port\", \"80\"]\n"));
    let without_cmd = generate_dockerfile(&root, &cli(None, None, None), &libs, &bins);
    assert!(!without_cmd.contains("CMD"));
}

#[test]
fn dashed_crate_names_are_underscored_in_artifacts() {
    let root = path(&["p"]);
    let libs: Vec<Vec<String>> = vec![];
    let bins = vec![path(&["p", "bins", "my-app"])];
    let content = generate_dockerfile(&root, &cli(None, None, None), &libs, &bins);
    assert!(content.contains("./target/release/deps/my_app*"));
}

#[test]
fn rerunning_the_pipeline_is_byte_identical() {
    let root = path(&["", "home", "proj"]);
    let entries = vec![
        entry(&["", "home", "proj", "libs", "a", "src", "lib.rs"], true),
        entry(&["", "home", "proj", "libs", "b", "src", "lib.rs"], true),
        entry(&["", "home", "proj", "bins", "c", "src", "main.rs"], true),
    ];
    let manifests = vec![
        b"[package]\nname = \"a\"\n[dependencies]\nb = { path = \"../b\" }\n".to_vec(),
        b"[package]\nname = \"b\"\n".to_vec(),
    ];
    let config = cli(Some("debian:stable"), Some("c"), None);
    let first = run_pipeline(&root, &entries, &manifests, &config).ok().unwrap();
    let second = run_pipeline(&root, &entries, &manifests, &config).ok().unwrap();
    assert_eq!(first, second);
    assert!(first.contains("cargo new --lib b"));
}

#[test]
fn pipeline_fails_on_unparsable_manifest() {
    let root = path(&["proj"]);
    let entries = vec![entry(&["proj", "libs", "a", "src", "lib.rs"], true)];
    let manifests = vec![b"{{{{".to_vec()];
    let err = match run_pipeline(&root, &entries, &manifests, &cli(None, None, None)) {
        Err(e) => e,
        Ok(_) => panic!("expected a manifest error"),
    };
    assert_eq!(err.lib_index, 0);
}

//! Settings in layers, and where the store of a repository is.
use acyclic::config::{Config, DecomposeLayer, Layer, MergeLayer};
use acyclic::error::EngineError;
use acyclic::path::HostPath;
use acyclic::store::{check_schema, short_name, StorePaths};

fn decompose() -> DecomposeLayer {
    Layer::default().decompose
}

#[test]
fn missing_files_yield_defaults() {
    assert_eq!(Config::load_layered(None, None), Config::default());
}

#[test]
fn repo_config_overrides_defaults() {
    let repo = Layer { quiesce_ms: Some(10), commit_every: Some(5), ..Layer::default() };
    let config = Config::load_layered(None, Some(repo));
    assert_eq!(config.quiesce_ms, 10);
    assert_eq!(config.commit_every, 5);
    assert_eq!(config.trash_ttl_days, Config::default().trash_ttl_days);
}

#[test]
fn safe_mode_fields_parse_from_repo_config() {
    let repo = Layer {
        dry_run: Some(true),
        guarded_paths: Some(vec![".env".to_owned(), "migrations/".to_owned()]),
        ..Layer::default()
    };
    let config = Config::load_layered(None, Some(repo));
    assert!(config.dry_run);
    assert_eq!(config.guarded_paths, vec![".env", "migrations/"]);
}

#[test]
fn exclude_list_parses_from_repo_config() {
    let repo = Layer {
        exclude: Some(vec![".env".to_owned(), "secrets/".to_owned()]),
        ..Layer::default()
    };
    let config = Config::load_layered(None, Some(repo));
    assert_eq!(config.exclude, vec![".env", "secrets/"]);
    assert!(Config::default().exclude.is_empty());
}

#[test]
fn decompose_table_overrides_defaults_and_keeps_the_rest() {
    let repo = Layer {
        decompose: DecomposeLayer {
            fan_out: Some(2),
            test_command: Some("cargo test".to_owned()),
            ..decompose()
        },
        ..Layer::default()
    };
    let config = Config::load_layered(None, Some(repo));
    assert_eq!(config.decompose.fan_out, 2);
    assert_eq!(config.decompose.test_command.as_deref(), Some("cargo test"));
    assert_eq!(config.decompose.max_depth, 2);
    assert_eq!(config.decompose.tie_break, "smallest-diff");
}

#[test]
fn merge_table_overrides_the_size_cap() {
    let repo = Layer {
        merge: MergeLayer { max_file_bytes: Some(1024) },
        ..Layer::default()
    };
    let config = Config::load_layered(None, Some(repo));
    assert_eq!(config.merge.max_file_bytes, 1024);
    assert_eq!(config.merge.limits().max_file_bytes, 1024);
    assert_eq!(Config::default().merge.max_file_bytes, 4 * 1024 * 1024);
}

#[test]
fn the_machine_layer_shows_through_the_repository() {
    let machine = Layer { trash_ttl_days: Some(30), quiesce_ms: Some(70), ..Layer::default() };
    let repo = Layer { quiesce_ms: Some(10), ..Layer::default() };
    let config = Config::load_layered(Some(machine), Some(repo));
    assert_eq!(config.trash_ttl_days, 30);
    assert_eq!(config.quiesce_ms, 10);
    assert_eq!(config.commit_idle_ms, 60_000);
}

#[test]
fn the_store_of_a_repository_has_its_files() {
    let repo = HostPath::from_text("/work/my-repo");
    let stores = HostPath::from_text("/stores");
    let paths = StorePaths::for_repo(&repo, Some(&stores), None).expect("paths");
    let name = paths.root.display();
    let digest = blake3::hash(b"/work/my-repo");
    assert_eq!(name, format!("/stores/{}", &digest.to_hex()[..16]));
    assert_eq!(paths.object_store().display(), format!("{name}/store"));
    assert_eq!(paths.index_db().display(), format!("{name}/index.db"));
    assert_eq!(paths.socket().display(), format!("{name}/daemon.sock"));
    assert_eq!(paths.pidfile().display(), format!("{name}/daemon.pid"));
    assert_eq!(paths.rewind_journal().display(), format!("{name}/rewind-journal.json"));
    assert_eq!(paths.trash().display(), format!("{name}/trash"));
    assert_eq!(paths.meta().display(), format!("{name}/meta.json"));
}

#[test]
fn stores_are_below_the_home_unless_told_otherwise() {
    let repo = HostPath::from_text("/work/my-repo");
    let home = HostPath::from_text("/home/me");
    let paths = StorePaths::for_repo(&repo, None, Some(&home)).expect("paths");
    assert!(paths.root.display().starts_with("/home/me/.local/share/acyclic/stores/"));
    let error = StorePaths::for_repo(&repo, None, None).err().expect("refused");
    assert_eq!(error.message(), "store: HOME is not set");
}

#[test]
fn a_store_is_named_by_eight_bytes() {
    let mut digest = [0u8; 32];
    digest[0] = 0xab;
    digest[7] = 0x01;
    digest[8] = 0xff;
    assert_eq!(short_name(&digest), "ab00000000000001");
}

#[test]
fn a_store_is_made_once_and_opened_in_its_schema() {
    let paths = StorePaths { root: HostPath::from_text("/stores/x") };
    assert!(paths.may_init(false).is_ok());
    assert_eq!(
        paths.may_init(true).err().expect("refused").message(),
        "store: store already initialized at /stores/x"
    );
    assert_eq!(
        paths.missing("gone").message(),
        "store: no store at /stores/x (gone); run init first"
    );
    assert!(check_schema(1).is_ok());
    assert_eq!(
        check_schema(2).err().expect("refused"),
        EngineError::Store("unsupported store schema 2".to_owned())
    );
}

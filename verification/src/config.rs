//! Settings in layers: defaults, those of the machine, those checked in with
//! the repository. Layers merge key by key, the later one first; no settings
//! at all is a supported state.
use vstd::prelude::*;
use crate::merge::{MergeLimits, DEFAULT_MAX_FILE_BYTES};

verus! {

/// The settings in effect.
#[derive(Debug, PartialEq, Eq)]
pub struct Config {
    /// How long the watcher has to be quiet before a capture, in milliseconds.
    pub quiesce_ms: u64,
    /// The most that a capture waits for quiet, in milliseconds.
    pub quiesce_cap_ms: u64,
    /// Publish after so many checkpoints.
    pub commit_every: u32,
    /// Publish after so long without work, in milliseconds.
    pub commit_idle_ms: u64,
    /// Take a checkpoint by itself after so long without work, where the
    /// watcher has seen changes, in milliseconds; zero is never.
    pub auto_checkpoint_idle_ms: u64,
    /// How many days a tree that was rewound away is kept.
    pub trash_ttl_days: u32,
    /// Where stores are, unless in the machine's place.
    pub store_dir: Option<String>,
    /// Safe Mode: every session runs in a fork until its changes are approved.
    pub dry_run: bool,
    /// Safe Mode: paths below the repository that no fork may write to.
    pub guarded_paths: Vec<String>,
    /// Paths below the repository that never enter a checkpoint.
    pub exclude: Vec<String>,
    pub decompose: Decompose,
    pub merge: Merge,
}

/// The limits of content merges.
#[derive(Debug, PartialEq, Eq)]
pub struct Merge {
    /// The largest file that is merged by content.
    pub max_file_bytes: u64,
}

/// What the skill of splitting work across forks is told.
#[derive(Debug, PartialEq, Eq)]
pub struct Decompose {
    /// Forks for one race.
    pub fan_out: u32,
    /// Rounds before the user is asked.
    pub max_depth: u32,
    /// Forks for one task over all rounds.
    pub max_forks: u32,
    /// Whether a fork wins only where its tests pass.
    pub require_tests: bool,
    /// What tests a fork, unless that is left to whoever works in it.
    pub test_command: Option<String>,
    /// How a tie is broken.
    pub tie_break: String,
}

/// The settings that one file holds.
#[derive(Debug)]
pub struct Layer {
    pub quiesce_ms: Option<u64>,
    pub quiesce_cap_ms: Option<u64>,
    pub commit_every: Option<u32>,
    pub commit_idle_ms: Option<u64>,
    pub auto_checkpoint_idle_ms: Option<u64>,
    pub trash_ttl_days: Option<u32>,
    pub store_dir: Option<String>,
    pub dry_run: Option<bool>,
    pub guarded_paths: Option<Vec<String>>,
    pub exclude: Option<Vec<String>>,
    pub decompose: DecomposeLayer,
    pub merge: MergeLayer,
}

/// The settings of content merges that one file holds.
#[derive(Clone, Copy, Debug)]
pub struct MergeLayer {
    pub max_file_bytes: Option<u64>,
}

/// The settings of the skill that one file holds.
#[derive(Debug)]
pub struct DecomposeLayer {
    pub fan_out: Option<u32>,
    pub max_depth: Option<u32>,
    pub max_forks: Option<u32>,
    pub require_tests: Option<bool>,
    pub test_command: Option<String>,
    pub tie_break: Option<String>,
}

/// A setting, or that of the layer below.
pub open spec fn over<T>(set: Option<T>, below: T) -> T {
    match set {
        Some(value) => value,
        None => below,
    }
}

/// An optional setting, or that of the layer below.
pub open spec fn over_opt<T>(set: Option<T>, below: Option<T>) -> Option<T> {
    match set {
        Some(value) => Some(value),
        None => below,
    }
}

fn pick<T>(set: Option<T>, below: T) -> (r: T)
    ensures
        r == over(set, below),
{
    match set {
        Some(value) => value,
        None => below,
    }
}

fn pick_opt<T>(set: Option<T>, below: Option<T>) -> (r: Option<T>)
    ensures
        r == over_opt(set, below),
{
    match set {
        Some(value) => Some(value),
        None => below,
    }
}

impl Default for Merge {
    fn default() -> (r: Merge)
        ensures
            r.max_file_bytes == DEFAULT_MAX_FILE_BYTES,
    {
        Merge { max_file_bytes: DEFAULT_MAX_FILE_BYTES }
    }
}

impl Merge {
    /// What a merge may read.
    pub fn limits(&self) -> (r: MergeLimits)
        ensures
            r.max_file_bytes == self.max_file_bytes,
    {
        MergeLimits { max_file_bytes: self.max_file_bytes }
    }
}

/// Whether what the skill is told is what it is told by default.
pub open spec fn default_decompose(d: Decompose) -> bool {
    &&& d.fan_out == 3
    &&& d.max_depth == 2
    &&& d.max_forks == 8
    &&& d.require_tests
    &&& d.test_command is None
    &&& d.tie_break@ == "smallest-diff"@
}

impl Default for Decompose {
    fn default() -> (r: Decompose)
        ensures
            default_decompose(r),
    {
        Decompose {
            fan_out: 3,
            max_depth: 2,
            max_forks: 8,
            require_tests: true,
            test_command: None,
            tie_break: "smallest-diff".to_owned(),
        }
    }
}

/// Whether settings are the defaults.
pub open spec fn is_default(c: Config) -> bool {
    &&& c.quiesce_ms == 50
    &&& c.quiesce_cap_ms == 500
    &&& c.commit_every == 25
    &&& c.commit_idle_ms == 60_000
    &&& c.auto_checkpoint_idle_ms == 5_000
    &&& c.trash_ttl_days == 7
    &&& c.store_dir is None
    &&& !c.dry_run
    &&& c.guarded_paths@.len() == 0
    &&& c.exclude@.len() == 0
    &&& default_decompose(c.decompose)
    &&& c.merge.max_file_bytes == DEFAULT_MAX_FILE_BYTES
}

impl Default for Config {
    fn default() -> (r: Config)
        ensures
            is_default(r),
    {
        Config {
            quiesce_ms: 50,
            quiesce_cap_ms: 500,
            commit_every: 25,
            commit_idle_ms: 60_000,
            auto_checkpoint_idle_ms: 5_000,
            trash_ttl_days: 7,
            store_dir: None,
            dry_run: false,
            guarded_paths: Vec::new(),
            exclude: Vec::new(),
            decompose: Decompose::default(),
            merge: Merge::default(),
        }
    }
}

/// Settings with a layer over them: each key that the layer holds is the
/// layer's, every other stays.
pub open spec fn layered(below: Config, layer: Layer) -> Config {
    Config {
        quiesce_ms: over(layer.quiesce_ms, below.quiesce_ms),
        quiesce_cap_ms: over(layer.quiesce_cap_ms, below.quiesce_cap_ms),
        commit_every: over(layer.commit_every, below.commit_every),
        commit_idle_ms: over(layer.commit_idle_ms, below.commit_idle_ms),
        auto_checkpoint_idle_ms: over(
            layer.auto_checkpoint_idle_ms,
            below.auto_checkpoint_idle_ms,
        ),
        trash_ttl_days: over(layer.trash_ttl_days, below.trash_ttl_days),
        store_dir: over_opt(layer.store_dir, below.store_dir),
        dry_run: over(layer.dry_run, below.dry_run),
        guarded_paths: over(layer.guarded_paths, below.guarded_paths),
        exclude: over(layer.exclude, below.exclude),
        decompose: Decompose {
            fan_out: over(layer.decompose.fan_out, below.decompose.fan_out),
            max_depth: over(layer.decompose.max_depth, below.decompose.max_depth),
            max_forks: over(layer.decompose.max_forks, below.decompose.max_forks),
            require_tests: over(layer.decompose.require_tests, below.decompose.require_tests),
            test_command: over_opt(layer.decompose.test_command, below.decompose.test_command),
            tie_break: over(layer.decompose.tie_break, below.decompose.tie_break),
        },
        merge: Merge {
            max_file_bytes: over(layer.merge.max_file_bytes, below.merge.max_file_bytes),
        },
    }
}

/// Settings with a layer over them, where there is one.
pub open spec fn maybe_layered(below: Config, layer: Option<Layer>) -> Config {
    match layer {
        Some(layer) => layered(below, layer),
        None => below,
    }
}

/// Whether settings are the defaults with the machine's layer over them and the
/// repository's over that.
pub open spec fn loads(machine: Option<Layer>, repo: Option<Layer>, r: Config) -> bool {
    exists|d: Config| #[trigger]
        is_default(d) && r == maybe_layered(maybe_layered(d, machine), repo)
}

impl Config {
    /// These settings with a layer over them.
    pub fn with(self, layer: Layer) -> (r: Config)
        ensures
            r == layered(self, layer),
    {
        Config {
            quiesce_ms: pick(layer.quiesce_ms, self.quiesce_ms),
            quiesce_cap_ms: pick(layer.quiesce_cap_ms, self.quiesce_cap_ms),
            commit_every: pick(layer.commit_every, self.commit_every),
            commit_idle_ms: pick(layer.commit_idle_ms, self.commit_idle_ms),
            auto_checkpoint_idle_ms: pick(
                layer.auto_checkpoint_idle_ms,
                self.auto_checkpoint_idle_ms,
            ),
            trash_ttl_days: pick(layer.trash_ttl_days, self.trash_ttl_days),
            store_dir: pick_opt(layer.store_dir, self.store_dir),
            dry_run: pick(layer.dry_run, self.dry_run),
            guarded_paths: pick(layer.guarded_paths, self.guarded_paths),
            exclude: pick(layer.exclude, self.exclude),
            decompose: Decompose {
                fan_out: pick(layer.decompose.fan_out, self.decompose.fan_out),
                max_depth: pick(layer.decompose.max_depth, self.decompose.max_depth),
                max_forks: pick(layer.decompose.max_forks, self.decompose.max_forks),
                require_tests: pick(layer.decompose.require_tests, self.decompose.require_tests),
                test_command: pick_opt(layer.decompose.test_command, self.decompose.test_command),
                tie_break: pick(layer.decompose.tie_break, self.decompose.tie_break),
            },
            merge: Merge {
                max_file_bytes: pick(layer.merge.max_file_bytes, self.merge.max_file_bytes),
            },
        }
    }

    /// The settings in effect: the machine's over the defaults, the
    /// repository's over those. A file that is missing has no layer.
    pub fn load_layered(machine: Option<Layer>, repo: Option<Layer>) -> (r: Config)
        ensures
            loads(machine, repo, r),
            exists|d: Config| #[trigger]
                is_default(d) && r == maybe_layered(maybe_layered(d, machine), repo),
    {
        let base = Config::default();
        let ghost d = base;
        let below = match machine {
            Some(layer) => base.with(layer),
            None => base,
        };
        assert(is_default(d));
        match repo {
            Some(layer) => below.with(layer),
            None => below,
        }
    }
}

/// Whether a layer holds nothing.
pub open spec fn is_empty_layer(layer: Layer) -> bool {
    &&& layer.quiesce_ms is None
    &&& layer.quiesce_cap_ms is None
    &&& layer.commit_every is None
    &&& layer.commit_idle_ms is None
    &&& layer.auto_checkpoint_idle_ms is None
    &&& layer.trash_ttl_days is None
    &&& layer.store_dir is None
    &&& layer.dry_run is None
    &&& layer.guarded_paths is None
    &&& layer.exclude is None
    &&& layer.decompose.fan_out is None
    &&& layer.decompose.max_depth is None
    &&& layer.decompose.max_forks is None
    &&& layer.decompose.require_tests is None
    &&& layer.decompose.test_command is None
    &&& layer.decompose.tie_break is None
    &&& layer.merge.max_file_bytes is None
}

impl Default for Layer {
    fn default() -> (r: Layer)
        ensures
            is_empty_layer(r),
    {
        Layer {
            quiesce_ms: None,
            quiesce_cap_ms: None,
            commit_every: None,
            commit_idle_ms: None,
            auto_checkpoint_idle_ms: None,
            trash_ttl_days: None,
            store_dir: None,
            dry_run: None,
            guarded_paths: None,
            exclude: None,
            decompose: DecomposeLayer {
                fan_out: None,
                max_depth: None,
                max_forks: None,
                require_tests: None,
                test_command: None,
                tie_break: None,
            },
            merge: MergeLayer { max_file_bytes: None },
        }
    }
}

/// A file that holds nothing changes nothing: a repository's file never
/// discards the machine's settings.
pub proof fn law_empty_layer_changes_nothing(below: Config, layer: Layer)
    requires
        is_empty_layer(layer),
    ensures
        layered(below, layer) == below,
{
}

/// Layers merge key by key: what the repository's file does not set is the
/// machine's, whatever else the repository's file sets.
pub proof fn law_machine_settings_show_through(below: Config, machine: Layer, repo: Layer)
    ensures
        ({
            let r = layered(layered(below, machine), repo);
            let m = layered(below, machine);
            &&& repo.quiesce_ms is None ==> r.quiesce_ms == m.quiesce_ms
            &&& repo.quiesce_cap_ms is None ==> r.quiesce_cap_ms == m.quiesce_cap_ms
            &&& repo.commit_every is None ==> r.commit_every == m.commit_every
            &&& repo.commit_idle_ms is None ==> r.commit_idle_ms == m.commit_idle_ms
            &&& repo.auto_checkpoint_idle_ms is None ==> r.auto_checkpoint_idle_ms
                == m.auto_checkpoint_idle_ms
            &&& repo.trash_ttl_days is None ==> r.trash_ttl_days == m.trash_ttl_days
            &&& repo.store_dir is None ==> r.store_dir == m.store_dir
            &&& repo.dry_run is None ==> r.dry_run == m.dry_run
            &&& repo.guarded_paths is None ==> r.guarded_paths == m.guarded_paths
            &&& repo.exclude is None ==> r.exclude == m.exclude
            &&& repo.decompose.fan_out is None ==> r.decompose.fan_out == m.decompose.fan_out
            &&& repo.decompose.max_depth is None ==> r.decompose.max_depth == m.decompose.max_depth
            &&& repo.decompose.max_forks is None ==> r.decompose.max_forks == m.decompose.max_forks
            &&& repo.decompose.require_tests is None ==> r.decompose.require_tests
                == m.decompose.require_tests
            &&& repo.decompose.test_command is None ==> r.decompose.test_command
                == m.decompose.test_command
            &&& repo.decompose.tie_break is None ==> r.decompose.tie_break == m.decompose.tie_break
            &&& repo.merge.max_file_bytes is None ==> r.merge == m.merge
        }),
{
}

/// The repository's file has the last word on every key that it sets, the
/// machine's file on every other that it sets, and what neither sets is as it
/// always was.
pub proof fn law_repository_has_the_last_word(machine: Layer, repo: Layer, r: Config)
    requires
        loads(Some(machine), Some(repo), r),
    ensures
        ({
            &&& r.quiesce_ms == match (repo.quiesce_ms, machine.quiesce_ms) {
                (Some(v), _) => v,
                (None, Some(v)) => v,
                (None, None) => 50,
            }
            &&& r.quiesce_cap_ms == match (repo.quiesce_cap_ms, machine.quiesce_cap_ms) {
                (Some(v), _) => v,
                (None, Some(v)) => v,
                (None, None) => 500,
            }
            &&& r.commit_every == match (repo.commit_every, machine.commit_every) {
                (Some(v), _) => v,
                (None, Some(v)) => v,
                (None, None) => 25,
            }
            &&& r.commit_idle_ms == match (repo.commit_idle_ms, machine.commit_idle_ms) {
                (Some(v), _) => v,
                (None, Some(v)) => v,
                (None, None) => 60_000,
            }
            &&& r.auto_checkpoint_idle_ms == match (repo.auto_checkpoint_idle_ms, machine.auto_checkpoint_idle_ms) {
                (Some(v), _) => v,
                (None, Some(v)) => v,
                (None, None) => 5_000,
            }
            &&& r.trash_ttl_days == match (repo.trash_ttl_days, machine.trash_ttl_days) {
                (Some(v), _) => v,
                (None, Some(v)) => v,
                (None, None) => 7,
            }
            &&& r.dry_run == match (repo.dry_run, machine.dry_run) {
                (Some(v), _) => v,
                (None, Some(v)) => v,
                (None, None) => false,
            }
            &&& r.store_dir == if repo.store_dir is Some { repo.store_dir } else { machine.store_dir }
            &&& repo.guarded_paths matches Some(v) ==> r.guarded_paths == v
            &&& repo.guarded_paths is None && machine.guarded_paths is Some ==> r.guarded_paths == machine.guarded_paths->0
            &&& repo.guarded_paths is None && machine.guarded_paths is None ==> r.guarded_paths@.len() == 0
            &&& repo.exclude matches Some(v) ==> r.exclude == v
            &&& repo.exclude is None && machine.exclude is Some ==> r.exclude == machine.exclude->0
            &&& repo.exclude is None && machine.exclude is None ==> r.exclude@.len() == 0
            &&& repo.decompose.fan_out matches Some(v) ==> r.decompose.fan_out == v
            &&& repo.decompose.fan_out is None && machine.decompose.fan_out is Some
                ==> r.decompose.fan_out == machine.decompose.fan_out->0
            &&& repo.decompose.max_depth matches Some(v) ==> r.decompose.max_depth == v
            &&& repo.decompose.max_depth is None && machine.decompose.max_depth is Some
                ==> r.decompose.max_depth == machine.decompose.max_depth->0
            &&& repo.decompose.max_forks matches Some(v) ==> r.decompose.max_forks == v
            &&& repo.decompose.max_forks is None && machine.decompose.max_forks is Some
                ==> r.decompose.max_forks == machine.decompose.max_forks->0
            &&& repo.decompose.require_tests matches Some(v) ==> r.decompose.require_tests == v
            &&& repo.decompose.require_tests is None && machine.decompose.require_tests is Some
                ==> r.decompose.require_tests == machine.decompose.require_tests->0
            &&& repo.decompose.tie_break matches Some(v) ==> r.decompose.tie_break == v
            &&& repo.decompose.tie_break is None && machine.decompose.tie_break is Some
                ==> r.decompose.tie_break == machine.decompose.tie_break->0
            &&& r.merge.max_file_bytes == match (
                repo.merge.max_file_bytes,
                machine.merge.max_file_bytes,
            ) {
                (Some(v), _) => v,
                (None, Some(v)) => v,
                (None, None) => 4_194_304,
            }
        }),
{
}

/// A file that is missing counts as one that holds nothing.
pub proof fn law_missing_file_sets_nothing(layer: Layer, r: Config)
    requires
        is_empty_layer(layer),
    ensures
        loads(None, None, r) <==> loads(Some(layer), Some(layer), r),
        forall|other: Option<Layer>| #[trigger]
            loads(other, None, r) <==> loads(other, Some(layer), r),
        forall|other: Option<Layer>| #[trigger]
            loads(None, other, r) <==> loads(Some(layer), other, r),
{
    assert forall|d: Config| #[trigger] layered(d, layer) == d by {
        law_empty_layer_changes_nothing(d, layer);
    }
}

} // verus!

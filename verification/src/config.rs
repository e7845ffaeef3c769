//! Run configuration: model shape, dataset loading, process control
//! and training schedule, plus the command-line surface that app code
//! fills in.

use vstd::prelude::*;
use vstd::string::*;
use crate::text::str_starts_with;

verus! {

/// Shape of the splat model.
#[derive(Clone, Debug)]
pub struct ModelConfig {
    /// Spherical-harmonics degree of the splats, 0 through 3.
    pub sh_degree: u32,
}

impl Default for ModelConfig {
    fn default() -> (r: Self)
        ensures
            r.sh_degree == 3,
    {
        ModelConfig { sh_degree: 3 }
    }
}

/// How much of a dataset to load.
#[derive(Clone, Debug)]
pub struct LoadDataseConfig {
    /// Max nr. of frames of dataset to load.
    pub max_frames: Option<usize>,
    /// Max resolution of images to load.
    pub max_resolution: u32,
    /// Create an eval dataset by selecting every nth image.
    pub eval_split_every: Option<usize>,
    /// Load only every nth frame.
    pub subsample_frames: Option<u32>,
    /// Load only every nth point from the initial sfm data.
    pub subsample_points: Option<u32>,
}

impl Default for LoadDataseConfig {
    fn default() -> (r: Self)
        ensures
            r.max_frames is None,
            r.max_resolution == 1920,
            r.eval_split_every is None,
            r.subsample_frames is None,
            r.subsample_points is None,
    {
        LoadDataseConfig {
            max_frames: None,
            max_resolution: 1920,
            eval_split_every: None,
            subsample_frames: None,
            subsample_points: None,
        }
    }
}

/// Process-level control: seeding, evaluation and export cadence.
#[derive(Clone, Debug)]
pub struct ProcessConfig {
    /// Random seed.
    pub seed: u64,
    /// Iteration to resume from.
    pub start_iter: u32,
    /// Eval every this many steps.
    pub eval_every: u32,
    /// Save the rendered eval images to disk.
    pub eval_save_to_disk: bool,
    /// Export every this many steps.
    pub export_every: u32,
    /// Location to put exported files.
    pub export_path: String,
    /// Filename of exported ply file.
    pub export_name: String,
}

impl Default for ProcessConfig {
    fn default() -> (r: Self)
        ensures
            r.seed == 42,
            r.start_iter == 0,
            r.eval_every == 1000,
            !r.eval_save_to_disk,
            r.export_every == 5000,
            r.export_path@ == "."@,
            r.export_name@ == "export_{iter}.ply"@,
    {
        ProcessConfig {
            seed: 42,
            start_iter: 0,
            eval_every: 1000,
            eval_save_to_disk: false,
            export_every: 5000,
            export_path: String::from_str("."),
            export_name: String::from_str("export_{iter}.ply"),
        }
    }
}

/// Cadence of optional external visualization logging.
#[derive(Clone, Debug)]
pub struct RerunConfig {
    /// Whether visualization logging is enabled for this run.
    pub rerun_enabled: bool,
    /// How often to log basic training statistics.
    pub rerun_log_train_stats_every: u32,
    /// How often to log out the full splat point cloud.
    pub rerun_log_splats_every: Option<u32>,
    /// The maximum size of images from the dataset that are logged.
    pub rerun_max_img_size: u32,
}

impl Default for RerunConfig {
    fn default() -> (r: Self)
        ensures
            !r.rerun_enabled,
            r.rerun_log_train_stats_every == 50,
            r.rerun_log_splats_every is None,
            r.rerun_max_img_size == 512,
    {
        RerunConfig {
            rerun_enabled: false,
            rerun_log_train_stats_every: 50,
            rerun_log_splats_every: None,
            rerun_max_img_size: 512,
        }
    }
}

/// Training schedule: step budget, learning rates (fixed point), and
/// refinement cadence and thresholds.
#[derive(Clone, Debug)]
pub struct TrainConfig {
    /// Total number of optimization steps.
    pub total_steps: u32,
    /// Refine (grow/prune) the splats every this many steps.
    pub refine_every: u32,
    /// Stop refining after this step.
    pub refine_stop_iter: u32,
    /// A splat whose accumulated saliency exceeds this (fixed point)
    /// is a growth candidate.
    pub growth_threshold: i64,
    /// Fraction (fixed point, 0..=1) of growth candidates grown per
    /// refinement.
    pub growth_select_fraction: i64,
    /// A splat whose opacity falls below this (fixed point) is pruned.
    pub prune_opacity_threshold: i64,
    /// Learning rate for splat means (fixed point).
    pub lr_mean: i64,
    /// Per-step multiplicative decay of the mean learning rate
    /// (fixed point, close to one).
    pub lr_mean_decay: i64,
    /// Learning rate for SH coefficients (fixed point).
    pub lr_coeffs: i64,
    /// Learning rate for opacity (fixed point).
    pub lr_opac: i64,
    /// Learning rate for log-scales (fixed point).
    pub lr_scale: i64,
    /// Learning rate for rotations (fixed point).
    pub lr_rotation: i64,
}

impl Default for TrainConfig {
    fn default() -> (r: Self)
        ensures
            r.total_steps == 30000,
            r.refine_every == 150,
            r.refine_stop_iter == 15000,
            r.growth_threshold == 56,
            r.growth_select_fraction == 6554,
            r.prune_opacity_threshold == 328,
            r.lr_mean == 10,
            r.lr_mean_decay == 65526,
            r.lr_coeffs == 96,
            r.lr_opac == 3277,
            r.lr_scale == 328,
            r.lr_rotation == 66,
    {
        TrainConfig {
            total_steps: 30000,
            refine_every: 150,
            refine_stop_iter: 15000,
            growth_threshold: 56,
            growth_select_fraction: 6554,
            prune_opacity_threshold: 328,
            lr_mean: 10,
            lr_mean_decay: 65526,
            lr_coeffs: 96,
            lr_opac: 3277,
            lr_scale: 328,
            lr_rotation: 66,
        }
    }
}

/// Everything a training process needs.
#[derive(Clone, Debug)]
pub struct ProcessArgs {
    pub train_config: TrainConfig,
    pub model_config: ModelConfig,
    pub load_config: LoadDataseConfig,
    pub process_config: ProcessConfig,
    pub rerun_config: RerunConfig,
}

impl Default for ProcessArgs {
    fn default() -> (r: Self)
        ensures
            r.train_config.total_steps == 30000,
            r.train_config.refine_every == 150,
            r.train_config.refine_stop_iter == 15000,
            r.model_config.sh_degree == 3,
            r.load_config.max_resolution == 1920,
            r.process_config.seed == 42,
            r.process_config.start_iter == 0,
            r.process_config.eval_every == 1000,
            r.process_config.export_every == 5000,
            !r.rerun_config.rerun_enabled,
    {
        ProcessArgs {
            train_config: TrainConfig::default(),
            model_config: ModelConfig::default(),
            load_config: LoadDataseConfig::default(),
            process_config: ProcessConfig::default(),
            rerun_config: RerunConfig::default(),
        }
    }
}

/// Which user-interface layout the viewer runs with.
#[derive(Debug, Clone, Copy, PartialEq, Eq, Structural)]
pub enum UiMode {
    Full,
    Zen,
}

/// Where the input data comes from.
#[derive(Clone, Debug)]
pub enum DataSource {
    PickFile,
    PickDirectory,
    Url(String),
    Path(String),
}

impl DataSource {
    /// Classify a command-line string: anything that begins with an
    /// http(s) scheme is a URL, everything else is a path.
    pub fn from_str(s: &str) -> (r: DataSource)
        ensures
            crate::text::spec_starts_with(s@, "http://"@) || crate::text::spec_starts_with(
                s@, "https://"@) ==> (r matches DataSource::Url(u) && u@ == s@),
            !(crate::text::spec_starts_with(s@, "http://"@) || crate::text::spec_starts_with(
                s@, "https://"@)) ==> (r matches DataSource::Path(p) && p@ == s@),
    {
        if str_starts_with(s, "http://") || str_starts_with(s, "https://") {
            DataSource::Url(s.to_owned())
        } else {
            DataSource::Path(s.to_owned())
        }
    }
}

/// The reason a command line was rejected.
#[derive(Debug, Clone, Copy, PartialEq, Eq, Structural)]
pub enum CliError {
    /// Without a viewer a data source must be given.
    MissingRequiredSource,
}

impl CliError {
    pub fn message(&self) -> (r: &'static str)
        ensures
            r@ == "When --with-viewer is false, --source must be provided"@,
    {
        "When --with-viewer is false, --source must be provided"
    }
}

/// The command-line surface of the program.
pub struct Cli {
    /// Source to load from (path or URL).
    pub source: Option<DataSource>,
    /// Spawn a viewer to visualize the training.
    pub with_viewer: bool,
    pub process: ProcessArgs,
}

impl Cli {
    /// A headless run must name a source; everything else passes.
    pub fn validate(self) -> (r: Result<Cli, CliError>)
        ensures
            (!self.with_viewer && self.source is None) <==> (r matches Err(e) && e
                == CliError::MissingRequiredSource),
            r matches Ok(c) ==> c.with_viewer == self.with_viewer,
    {
        if !self.with_viewer && self.source.is_none() {
            return Err(CliError::MissingRequiredSource);
        }
        Ok(self)
    }
}

} // verus!

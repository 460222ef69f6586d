use vstd::prelude::*;

verus! {

/// Where the numeric work of a training session runs.
#[derive(Clone, Copy, Debug, PartialEq, Eq, Structural)]
pub enum Backend {
    Mlx,
    Cpu,
}

/// The backend recorded in a saved checkpoint.
#[derive(Clone, Copy, Debug, PartialEq, Eq, Structural)]
pub enum CheckpointBackend {
    Cpu,
    Mlx,
}

/// The label shown for a backend.
pub open spec fn backend_label(backend: Backend) -> Seq<char> {
    match backend {
        Backend::Mlx => "MLX"@,
        Backend::Cpu => "CPU"@,
    }
}

/// The other backend.
pub open spec fn backend_toggled(backend: Backend) -> Backend {
    match backend {
        Backend::Mlx => Backend::Cpu,
        Backend::Cpu => Backend::Mlx,
    }
}

impl Backend {
    /// Short display name of the backend.
    pub fn label(self) -> (label: &'static str)
        ensures
            label@ == backend_label(self),
    {
        match self {
            Backend::Mlx => "MLX",
            Backend::Cpu => "CPU",
        }
    }

    /// Switches to the other backend.
    pub fn toggled(self) -> (other: Self)
        ensures
            other == backend_toggled(self),
            other != self,
    {
        match self {
            Backend::Mlx => Backend::Cpu,
            Backend::Cpu => Backend::Mlx,
        }
    }
}

/// Toggling the backend twice gives the backend back, and the two backends
/// carry different labels.
pub proof fn lemma_backend_toggle_twice(backend: Backend)
    ensures
        backend_toggled(backend_toggled(backend)) == backend,
        backend_label(backend) != backend_label(backend_toggled(backend)),
{
    reveal_strlit("MLX");
    reveal_strlit("CPU");
    assert("MLX"@[0] != "CPU"@[0]);
}

/// The backend a session restored from a checkpoint runs on.
pub open spec fn backend_of_checkpoint(backend: CheckpointBackend) -> Backend {
    match backend {
        CheckpointBackend::Mlx => Backend::Mlx,
        CheckpointBackend::Cpu => Backend::Cpu,
    }
}

impl Backend {
    /// The backend that a checkpoint written by `backend` is restored to.
    pub fn from_checkpoint_backend(backend: CheckpointBackend) -> (restored: Self)
        ensures
            restored == backend_of_checkpoint(backend),
    {
        match backend {
            CheckpointBackend::Mlx => Backend::Mlx,
            CheckpointBackend::Cpu => Backend::Cpu,
        }
    }

    /// The run configuration a new session on this backend starts with: the
    /// MLX backend trains a larger model on more data than the CPU backend.
    pub fn default_training_run_config(self) -> (config: TrainingRunConfig)
        ensures
            config == default_run_config(self),
    {
        match self {
            Backend::Mlx => mlx_default_training_run_config(),
            Backend::Cpu => cpu_default_training_run_config(),
        }
    }
}

/// Sizes and schedules of one training run.
#[derive(Clone, Copy, Debug, PartialEq, Eq, Structural)]
pub struct TrainingRunConfig {
    pub validation_step_interval: usize,
    pub training_document_batch_size: usize,
    pub max_document_count: usize,
    pub validation_set_divisor: usize,
    pub validation_evaluation_document_count: usize,
    pub context_window_size: usize,
    pub layer_count: usize,
    pub attention_heads: usize,
    pub embedding_size: usize,
}

/// The most training steps a session is scheduled for.
pub const MAX_TRAINING_STEP_COUNT: usize = 1_000_000;

/// The default run configuration of a backend.
pub open spec fn default_run_config(backend: Backend) -> TrainingRunConfig {
    match backend {
        Backend::Mlx => TrainingRunConfig {
            validation_step_interval: 25,
            training_document_batch_size: 32,
            max_document_count: 5_000_000,
            validation_set_divisor: 50,
            validation_evaluation_document_count: 12,
            context_window_size: 128,
            layer_count: 6,
            attention_heads: 8,
            embedding_size: 128,
        },
        Backend::Cpu => TrainingRunConfig {
            validation_step_interval: 25,
            training_document_batch_size: 8,
            max_document_count: 100,
            validation_set_divisor: 20,
            validation_evaluation_document_count: 4,
            context_window_size: 32,
            layer_count: 2,
            attention_heads: 4,
            embedding_size: 16,
        },
    }
}

/// The default run configuration of the MLX backend.
pub fn mlx_default_training_run_config() -> (config: TrainingRunConfig)
    ensures
        config == default_run_config(Backend::Mlx),
{
    TrainingRunConfig {
        validation_step_interval: 25,
        training_document_batch_size: 32,
        max_document_count: 5_000_000,
        validation_set_divisor: 50,
        validation_evaluation_document_count: 12,
        context_window_size: 128,
        layer_count: 6,
        attention_heads: 8,
        embedding_size: 128,
    }
}

/// The default run configuration of the CPU backend.
pub fn cpu_default_training_run_config() -> (config: TrainingRunConfig)
    ensures
        config == default_run_config(Backend::Cpu),
{
    TrainingRunConfig {
        validation_step_interval: 25,
        training_document_batch_size: 8,
        max_document_count: 100,
        validation_set_divisor: 20,
        validation_evaluation_document_count: 4,
        context_window_size: 32,
        layer_count: 2,
        attention_heads: 4,
        embedding_size: 16,
    }
}

/// The first multiple of `validation_step_interval` after
/// `completed_step_count`: the step at which validation loss is next measured.
pub fn next_validation_step_after(completed_step_count: usize, validation_step_interval: usize) -> (next: usize)
    requires
        validation_step_interval > 0,
        (completed_step_count / validation_step_interval + 1) * validation_step_interval <= usize::MAX,
    ensures
        next == (completed_step_count / validation_step_interval + 1) * validation_step_interval,
        next % validation_step_interval == 0,
        completed_step_count < next,
        next <= completed_step_count + validation_step_interval,
{
    let q = completed_step_count / validation_step_interval;
    proof {
        let ci: int = completed_step_count as int;
        let vi: int = validation_step_interval as int;
        let qi: int = q as int;
        let r: int = ci % vi;
        vstd::arithmetic::div_mod::lemma_fundamental_div_mod(ci, vi);
        vstd::arithmetic::div_mod::lemma_mod_multiples_basic(qi + 1, vi);
        assert(0 <= r < vi);
        assert(ci == vi * qi + r);
        assert(qi + 1 <= (qi + 1) * vi && ci < (qi + 1) * vi && (qi + 1) * vi <= ci + vi) by (nonlinear_arith)
            requires
                vi > 0,
                qi >= 0,
                0 <= r < vi,
                ci == vi * qi + r,
        ;
    }
    (q + 1) * validation_step_interval
}

} // verus!

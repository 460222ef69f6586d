use sentence_gpt_rs_mlx::config::{
    cpu_default_training_run_config, mlx_default_training_run_config, next_validation_step_after,
    Backend, CheckpointBackend,
};

#[test]
fn backends_toggle_and_carry_labels() {
    assert_eq!(Backend::Mlx.label(), "MLX");
    assert_eq!(Backend::Cpu.label(), "CPU");
    assert_eq!(Backend::Mlx.toggled(), Backend::Cpu);
    assert_eq!(Backend::Cpu.toggled().toggled(), Backend::Cpu);
    assert_eq!(
        Backend::from_checkpoint_backend(CheckpointBackend::Mlx),
        Backend::Mlx
    );
    assert_eq!(
        Backend::from_checkpoint_backend(CheckpointBackend::Cpu),
        Backend::Cpu
    );
}

#[test]
fn default_run_configs_differ_by_backend() {
    let mlx = Backend::Mlx.default_training_run_config();
    assert_eq!(mlx, mlx_default_training_run_config());
    assert_eq!(mlx.training_document_batch_size, 32);
    assert_eq!(mlx.context_window_size, 128);
    let cpu = Backend::Cpu.default_training_run_config();
    assert_eq!(cpu, cpu_default_training_run_config());
    assert_eq!(cpu.max_document_count, 100);
    assert_eq!(cpu.embedding_size, 16);
}

#[test]
fn next_validation_step_is_the_next_multiple_of_the_interval() {
    assert_eq!(next_validation_step_after(0, 25), 25);
    assert_eq!(next_validation_step_after(24, 25), 25);
    assert_eq!(next_validation_step_after(25, 25), 50);
    assert_eq!(next_validation_step_after(7, 1), 8);
    for completed in 0..200 {
        let next = next_validation_step_after(completed, 7);
        assert_eq!(next % 7, 0);
        assert!(completed < next && next <= completed + 7);
    }
}

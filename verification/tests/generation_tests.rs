use spm_core::generation::{
    is_end_of_stream, llama_layer_name, plan_block_runs, qwen3_vl_layer_name, BlockRun,
    GenerationState, StepPlan,
};

#[test]
fn kv_cache_generation_positions() {
    let mut s = GenerationState::new();
    assert!(s.needs_prompt());
    s.start_prompt(vec![10, 11, 12, 13]);
    let p = s.plan_step(true, 0);
    assert_eq!(p, StepPlan { context_offset: 0, context_index: 0, inject_images: true });
    s.advance_position(p);
    s.record_token(7);
    assert_eq!(s.index_pos, 4);
    assert_eq!(s.tokens, vec![10, 11, 12, 13, 7]);
    assert!(!s.needs_prompt());
    let p = s.plan_step(true, 1);
    assert_eq!(p, StepPlan { context_offset: 4, context_index: 4, inject_images: false });
    s.advance_position(p);
    s.record_token(8);
    assert_eq!(s.index_pos, 5);
    assert_eq!(s.generated, 2);
    assert_eq!(s.repeat_penalty_start(3), 3);
    assert_eq!(s.repeat_penalty_start(64), 0);
    s.reset();
    assert_eq!(s.tokens.len(), 0);
    assert_eq!(s.index_pos, 0);
    assert_eq!(s.generated, 0);
}

#[test]
fn no_cache_feeds_everything() {
    let mut s = GenerationState::new();
    s.start_prompt(vec![1, 2, 3]);
    let p = s.plan_step(false, 0);
    s.advance_position(p);
    s.record_token(4);
    let p = s.plan_step(false, 1);
    assert_eq!(p.context_offset, 0);
    assert_eq!(p.context_index, 0);
    assert!(!p.inject_images);
}

#[test]
fn end_of_stream() {
    assert!(is_end_of_stream(2, Some(2)));
    assert!(!is_end_of_stream(3, Some(2)));
    assert!(!is_end_of_stream(3, None));
}

#[test]
fn block_runs() {
    let ids: Vec<String> = ["local", "local", "w1", "w1", "w2", "local", "w1"]
        .iter()
        .map(|s| s.to_string())
        .collect();
    assert_eq!(
        plan_block_runs(&ids),
        vec![
            BlockRun { first: 0, len: 1 },
            BlockRun { first: 1, len: 1 },
            BlockRun { first: 2, len: 2 },
            BlockRun { first: 4, len: 1 },
            BlockRun { first: 5, len: 1 },
            BlockRun { first: 6, len: 1 },
        ]
    );
    assert!(plan_block_runs(&[]).is_empty());
}

#[test]
fn layer_names() {
    assert_eq!(llama_layer_name(0), "model.layers.0");
    assert_eq!(llama_layer_name(31), "model.layers.31");
    assert_eq!(qwen3_vl_layer_name(27), "model.language_model.layers.27");
    assert_eq!(qwen3_vl_layer_name(100), "model.language_model.layers.100");
}

#[test]
fn kv_generation_keeps_all_but_the_newest_token_cached() {
    let mut s = GenerationState::new();
    s.start_prompt(vec![1, 2, 3]);
    for n in 1..=20usize {
        let plan = s.plan_step(true, n - 1);
        s.advance_position(plan);
        s.record_token(100 + n as u32);
        assert_eq!(s.tokens.len(), 3 + n);
        assert_eq!(s.index_pos, 3 + n - 1);
    }
}

#[test]
fn finish_step_updates_the_state() {
    let mut s = GenerationState::new();
    s.start_prompt(vec![10, 11, 12]);
    assert!(!s.finish_step(true, 0, 5, Some(2)));
    assert_eq!(s.index_pos, 3);
    assert_eq!(s.tokens, vec![10, 11, 12, 5]);
    assert_eq!(s.generated, 1);
    assert!(s.finish_step(true, 1, 2, Some(2)));
    assert_eq!(s.index_pos, 4);
    assert_eq!(s.tokens, vec![10, 11, 12, 5, 2]);
    assert_eq!(s.generated, 2);
    let mut t = GenerationState::new();
    t.start_prompt(vec![1, 2]);
    assert!(!t.finish_step(false, 0, 3, None));
    assert!(!t.finish_step(false, 1, 4, None));
    assert_eq!(t.index_pos, 5);
}

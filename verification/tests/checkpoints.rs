use bmp::runtime::decode::DecodedImage;
use bmp::runtime::transform::color::{Brightness, brightness};
use bmp::runtime::transform::convolution::{ConvolutionFilter, apply_convolution};
use bmp::runtime::transform::executor::{CheckpointCache, ReplayProgress, TransformPipelineExecutorConfig};
use bmp::runtime::transform::geometry::{MirrorHorizontal, mirror_horizontal};
use bmp::runtime::transform::model::ImageTransform;

/// The policy of a pipeline that checkpoints once the replay cost reaches
/// 15 and keeps at most 5 checkpoints.
fn pipeline_policy() -> TransformPipelineExecutorConfig {
    TransformPipelineExecutorConfig::new(15, 5)
}

fn test_image() -> DecodedImage {
    DecodedImage {
        width: 2,
        height: 2,
        rgba: vec![10, 20, 30, 255, 40, 50, 60, 255, 70, 80, 90, 255, 100, 110, 120, 255],
    }
}

fn brighten() -> ImageTransform {
    ImageTransform::Brightness(Brightness { delta: 1 })
}

/// Applies one of the operations these tests replay.
fn apply_op(image: &DecodedImage, op: &ImageTransform) -> DecodedImage {
    match op {
        ImageTransform::Brightness(b) => brightness(image, b.delta),
        ImageTransform::MirrorHorizontal(_) => mirror_horizontal(image),
        ImageTransform::ConvolutionPreset(filter) => apply_convolution(image, &filter.kernel()),
        other => panic!("not replayed here: {other:?}"),
    }
}

/// A strict replay of `ops` from `original` that starts at the newest
/// usable checkpoint of `cache`, lets the library's policy pick the new
/// checkpoints, stores them and evicts the oldest beyond the limit.
fn replay(
    config: &TransformPipelineExecutorConfig,
    cache: &mut CheckpointCache,
    ops: &[ImageTransform],
    original: &DecodedImage,
) -> DecodedImage {
    let (start, cached) = cache.replay_start(ops.len());
    let mut image = cached.cloned().unwrap_or_else(|| original.clone());
    let mut progress = ReplayProgress::new();
    let mut pending = Vec::new();
    for (offset, op) in ops[start..].iter().enumerate() {
        image = apply_op(&image, op);
        if progress.record_success(config, op.replay_cost()) {
            pending.push((start + offset, image.clone()));
        }
    }
    for (idx, checkpoint) in pending {
        cache.insert(idx, checkpoint);
    }
    cache.evict_to(config.max_checkpoints);
    image
}

/// Applies `ops` one after the other, with no cache.
fn sequential(ops: &[ImageTransform], original: &DecodedImage) -> DecodedImage {
    let mut image = original.clone();
    for op in ops {
        image = apply_op(&image, op);
    }
    image
}

#[test]
fn executor_no_checkpoint_below_threshold() {
    let img = test_image();
    let cfg = TransformPipelineExecutorConfig::new(15, 5);
    let mut cache = CheckpointCache::new();
    let ops = vec![brighten(); 5];
    let _ = replay(&cfg, &mut cache, &ops, &img);
    assert_eq!(cache.len(), 0);
}

#[test]
fn executor_checkpoint_created_at_threshold() {
    let img = test_image();
    let cfg = TransformPipelineExecutorConfig::new(3, 5);
    let mut cache = CheckpointCache::new();
    let ops = vec![brighten(); 3];
    let _ = replay(&cfg, &mut cache, &ops, &img);
    assert!(cache.len() > 0);
}

#[test]
fn executor_max_checkpoints_enforced() {
    let img = test_image();
    let cfg = TransformPipelineExecutorConfig::new(1, 2);
    let mut cache = CheckpointCache::new();
    let mut manual = img.clone();
    let mut ops = Vec::new();
    for _ in 0..8 {
        ops.push(brighten());
        manual = brightness(&manual, 1);
    }
    let replayed = replay(&cfg, &mut cache, &ops, &img);
    assert_eq!(replayed.rgba, manual.rgba);
    assert!(cache.len() <= cfg.max_checkpoints);
}

#[test]
fn remove_invalidates_future_checkpoints() {
    let img = test_image();
    let cfg = TransformPipelineExecutorConfig::new(1, 10);
    let mut cache = CheckpointCache::new();
    let mut ops = vec![brighten(); 6];
    let _ = replay(&cfg, &mut cache, &ops, &img);
    assert!(cache.len() > 0);

    ops.remove(2);
    cache.drop_at_or_after(2);
    let newest = cache.latest_before(usize::MAX).map(|(idx, _)| idx);
    assert!(newest.map_or(true, |idx| idx < 2));
}

#[test]
fn transform_no_checkpoint_below_threshold() {
    let img = test_image();
    let cfg = pipeline_policy();
    let mut cache = CheckpointCache::new();
    let ops = vec![brighten(); 5];
    let _ = replay(&cfg, &mut cache, &ops, &img);
    // Cost 5 stays below the threshold of 15.
    assert_eq!(cache.len(), 0);
}

#[test]
fn transform_checkpoint_created_at_threshold() {
    let img = test_image();
    let cfg = pipeline_policy();
    let mut cache = CheckpointCache::new();
    let ops = vec![brighten(); 16];
    let _ = replay(&cfg, &mut cache, &ops, &img);
    assert!(cache.len() > 0, "checkpoint should be created after reaching cost threshold");
}

#[test]
fn checkpoint_created_faster_with_convolutions() {
    let img = test_image();
    let cfg = pipeline_policy();
    let mut cache = CheckpointCache::new();
    let ops = vec![ImageTransform::ConvolutionPreset(ConvolutionFilter::Blur); 3];
    let _ = replay(&cfg, &mut cache, &ops, &img);
    assert!(cache.len() > 0, "convolutions should trigger checkpoint faster than cheap ops");
}

#[test]
fn invertible_ops_do_not_trigger_checkpoint() {
    let img = test_image();
    let cfg = pipeline_policy();
    let mut cache = CheckpointCache::new();
    let ops = vec![ImageTransform::MirrorHorizontal(MirrorHorizontal); 50];
    let _ = replay(&cfg, &mut cache, &ops, &img);
    assert_eq!(cache.len(), 0, "invertible ops should never trigger checkpoints");
}

#[test]
fn apply_uses_checkpoint_and_produces_correct_result() {
    let img = test_image();
    let cfg = pipeline_policy();
    let mut cache = CheckpointCache::new();
    let ops = vec![brighten(); 20];
    let _ = replay(&cfg, &mut cache, &ops, &img);
    assert!(cache.len() > 0, "precondition: checkpoint exists");
    assert!(cache.replay_start(ops.len()).0 > 0);

    let result = replay(&cfg, &mut cache, &ops, &img);
    assert_eq!(result.rgba, sequential(&ops, &img).rgba, "checkpoint-accelerated apply must match sequential");
}

#[test]
fn pop_removes_checkpoint_at_popped_index() {
    let img = test_image();
    let cfg = pipeline_policy();
    let mut cache = CheckpointCache::new();
    let mut ops = vec![brighten(); 17];
    let _ = replay(&cfg, &mut cache, &ops, &img);
    assert!(cache.len() > 0);

    while cache.len() > 0 {
        ops.pop();
        cache.drop_at_or_after(ops.len());
    }
    assert_eq!(cache.len(), 0, "popping should eventually clear checkpoints");
}

#[test]
fn clear_removes_all_checkpoints() {
    let img = test_image();
    let cfg = pipeline_policy();
    let mut cache = CheckpointCache::new();
    let mut ops = vec![brighten(); 17];
    let _ = replay(&cfg, &mut cache, &ops, &img);
    assert!(cache.len() > 0);

    ops.clear();
    cache.clear();
    assert_eq!(cache.len(), 0);
    assert!(ops.is_empty());
}

#[test]
fn transform_max_checkpoints_enforced() {
    let img = test_image();
    let cfg = pipeline_policy();
    let mut cache = CheckpointCache::new();
    let mut ops = Vec::new();
    for _ in 0..(5 + 3) {
        ops.extend(vec![brighten(); 16]);
        let _ = replay(&cfg, &mut cache, &ops, &img);
    }
    assert!(
        cache.len() <= 5,
        "should not exceed MAX_CHECKPOINTS ({}) but got {}",
        5,
        cache.len()
    );

    let result = replay(&cfg, &mut cache, &ops, &img);
    assert_eq!(result.rgba, sequential(&ops, &img).rgba);
}

#[test]
fn remove_invalidates_checkpoints_at_and_after_index() {
    let img = test_image();
    let cfg = pipeline_policy();
    let mut cache = CheckpointCache::new();
    let mut ops = vec![brighten(); 17];
    let _ = replay(&cfg, &mut cache, &ops, &img);
    assert!(cache.len() > 0);

    ops.remove(0);
    cache.drop_at_or_after(0);
    assert_eq!(cache.len(), 0, "removing index 0 should invalidate all checkpoints");
}

use rl_matting::pipeline::{
    finished_stage_events, finishing_stage_events, mask_route, pipeline_stages, plan_run, stage_events,
    stage_info, traditional_stage_events, MaskRoute, PipelineStageInfo, RunPlan, Stage, StageStatus,
};

fn keys(v: &[PipelineStageInfo]) -> Vec<&str> {
    v.iter().map(|s| s.key.as_str()).collect()
}

#[test]
fn all_stages_announced_when_everything_is_enabled() {
    let v = pipeline_stages(true, true);
    assert_eq!(
        keys(&v),
        vec![
            "load_image",
            "init_bbox",
            "load_model",
            "rl_inference",
            "trad_background",
            "trad_edges",
            "trad_morph",
            "trad_components",
            "generate_mask",
            "complete",
        ]
    );
    assert!(v.iter().all(|s| s.status == "pending"));
    assert_eq!(v[2].label, "加载强化学习模型");
    assert_eq!(v[2].icon, "🧠");
    assert_eq!(v[9].label, "完成");
    assert_eq!(v[9].icon, "✅");
}

#[test]
fn minimal_stage_list() {
    let v = pipeline_stages(false, false);
    assert_eq!(keys(&v), vec!["load_image", "init_bbox", "generate_mask", "complete"]);
    assert_eq!(v[0].label, "加载图像");
    assert_eq!(v[0].icon, "🖼️");
    assert_eq!(v[1].label, "初始化边界框");
    assert_eq!(v[2].label, "生成抠图掩码");
    assert_eq!(v[2].icon, "🎨");
}

#[test]
fn agent_only_stage_list() {
    let v = pipeline_stages(true, false);
    assert_eq!(
        keys(&v),
        vec!["load_image", "init_bbox", "load_model", "rl_inference", "generate_mask", "complete"]
    );
    assert_eq!(v[3].label, "RL 推理迭代");
    assert_eq!(v[3].icon, "🤖");
}

#[test]
fn segmentation_mask_stage_record() {
    let s = stage_info(Stage::RembgMask, StageStatus::Running);
    assert_eq!(s.key, "generate_mask");
    assert_eq!(s.label, "AI 背景移除（rembg）");
    assert_eq!(s.icon, "🪄");
    assert_eq!(s.status, "running");
    let t = stage_info(Stage::RembgInference, StageStatus::Done);
    assert_eq!(t.key, "rembg_inference");
    assert_eq!(t.status, "done");
}

#[test]
fn classical_stage_events_run_then_finish_in_order() {
    let v = traditional_stage_events();
    let got: Vec<(&str, &str)> = v.iter().map(|s| (s.key.as_str(), s.status.as_str())).collect();
    assert_eq!(
        got,
        vec![
            ("trad_background", "running"),
            ("trad_background", "done"),
            ("trad_edges", "running"),
            ("trad_edges", "done"),
            ("trad_morph", "running"),
            ("trad_morph", "done"),
            ("trad_components", "running"),
            ("trad_components", "done"),
        ]
    );
    assert_eq!(v[0].label, "传统处理：背景估计");
    assert_eq!(v[0].icon, "🌈");
    assert_eq!(v[2].label, "传统处理：边缘检测");
    assert_eq!(v[2].icon, "✂️");
    assert_eq!(v[4].label, "传统处理：形态学优化");
    assert_eq!(v[4].icon, "🔍");
    assert_eq!(v[6].label, "传统处理：连通域分析");
    assert_eq!(v[6].icon, "🧩");
}

#[test]
fn nothing_enabled_is_refused() {
    let r = plan_run(false, false, false);
    assert_eq!(
        r,
        Err("请至少启用一种处理方式（强化学习、传统图像处理或AI背景移除）".to_string())
    );
}

#[test]
fn run_plans_for_each_combination() {
    assert_eq!(plan_run(false, false, true), Ok(RunPlan::SegmentationOnly));
    assert_eq!(plan_run(false, true, false), Ok(RunPlan::DirectMask));
    assert_eq!(plan_run(false, true, true), Ok(RunPlan::DirectMask));
    assert_eq!(plan_run(true, false, false), Ok(RunPlan::AgentLoop));
    assert_eq!(plan_run(true, true, false), Ok(RunPlan::AgentLoop));
    assert_eq!(plan_run(true, false, true), Ok(RunPlan::AgentLoop));
    assert_eq!(plan_run(true, true, true), Ok(RunPlan::AgentLoop));
}

#[test]
fn mask_routes_for_each_combination() {
    assert_eq!(mask_route(false, false, true), MaskRoute::SegmentationOnly);
    assert_eq!(mask_route(true, true, false), MaskRoute::Classical);
    assert_eq!(mask_route(false, true, false), MaskRoute::Classical);
    assert_eq!(mask_route(true, false, true), MaskRoute::ClassicalThenSegmentation);
    assert_eq!(mask_route(false, true, true), MaskRoute::ClassicalThenSegmentation);
    assert_eq!(mask_route(true, true, true), MaskRoute::ClassicalThenSegmentation);
}

#[test]
fn events_when_the_agent_finishes_with_everything_enabled() {
    let v = finishing_stage_events(true, true);
    let got: Vec<(&str, &str)> = v.iter().map(|s| (s.key.as_str(), s.status.as_str())).collect();
    assert_eq!(
        got,
        vec![
            ("rl_inference", "done"),
            ("generate_mask", "running"),
            ("trad_background", "running"),
            ("trad_background", "done"),
            ("trad_edges", "running"),
            ("trad_edges", "done"),
            ("trad_morph", "running"),
            ("trad_morph", "done"),
            ("trad_components", "running"),
            ("trad_components", "done"),
            ("rembg_inference", "running"),
        ]
    );
    assert_eq!(v[10].label, "AI 背景移除（rembg）");
}

#[test]
fn events_when_the_agent_finishes_alone() {
    let v = finishing_stage_events(false, false);
    let got: Vec<(&str, &str)> = v.iter().map(|s| (s.key.as_str(), s.status.as_str())).collect();
    assert_eq!(got, vec![("rl_inference", "done"), ("generate_mask", "running")]);
    let w = finished_stage_events(false);
    let got: Vec<(&str, &str)> = w.iter().map(|s| (s.key.as_str(), s.status.as_str())).collect();
    assert_eq!(got, vec![("generate_mask", "done")]);
    let w = finished_stage_events(true);
    let got: Vec<(&str, &str)> = w.iter().map(|s| (s.key.as_str(), s.status.as_str())).collect();
    assert_eq!(got, vec![("rembg_inference", "done"), ("generate_mask", "done")]);
}

#[test]
fn stage_records_for_a_list_of_events() {
    let v = stage_events(&[(Stage::Complete, StageStatus::Done), (Stage::LoadImage, StageStatus::Pending)]);
    assert_eq!(v.len(), 2);
    assert_eq!((v[0].key.as_str(), v[0].status.as_str()), ("complete", "done"));
    assert_eq!((v[1].key.as_str(), v[1].status.as_str()), ("load_image", "pending"));
}

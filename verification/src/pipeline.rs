//! Which processing path a request takes, and the stages reported to the
//! user interface along the way.

use vstd::prelude::*;

verus! {

/// A stage of the processing pipeline as shown to the user.
#[derive(Clone, Debug)]
pub struct PipelineStageInfo {
    pub key: String,
    pub label: String,
    pub icon: String,
    pub status: String,
}

/// The stages the pipeline reports.
#[derive(Clone, Copy, Debug, PartialEq, Eq, Structural)]
pub enum Stage {
    LoadImage,
    InitBbox,
    LoadModel,
    RlInference,
    TradBackground,
    TradEdges,
    TradMorph,
    TradComponents,
    GenerateMask,
    /// The mask stage of the segmentation-only path.
    RembgMask,
    RembgInference,
    Complete,
}

/// Progress of a stage.
#[derive(Clone, Copy, Debug, PartialEq, Eq, Structural)]
pub enum StageStatus {
    Pending,
    Running,
    Done,
}

pub open spec fn stage_key(s: Stage) -> Seq<char> {
    match s {
        Stage::LoadImage => "load_image"@,
        Stage::InitBbox => "init_bbox"@,
        Stage::LoadModel => "load_model"@,
        Stage::RlInference => "rl_inference"@,
        Stage::TradBackground => "trad_background"@,
        Stage::TradEdges => "trad_edges"@,
        Stage::TradMorph => "trad_morph"@,
        Stage::TradComponents => "trad_components"@,
        Stage::GenerateMask => "generate_mask"@,
        Stage::RembgMask => "generate_mask"@,
        Stage::RembgInference => "rembg_inference"@,
        Stage::Complete => "complete"@,
    }
}

pub open spec fn stage_label(s: Stage) -> Seq<char> {
    match s {
        Stage::LoadImage => "加载图像"@,
        Stage::InitBbox => "初始化边界框"@,
        Stage::LoadModel => "加载强化学习模型"@,
        Stage::RlInference => "RL 推理迭代"@,
        Stage::TradBackground => "传统处理：背景估计"@,
        Stage::TradEdges => "传统处理：边缘检测"@,
        Stage::TradMorph => "传统处理：形态学优化"@,
        Stage::TradComponents => "传统处理：连通域分析"@,
        Stage::GenerateMask => "生成抠图掩码"@,
        Stage::RembgMask => "AI 背景移除（rembg）"@,
        Stage::RembgInference => "AI 背景移除（rembg）"@,
        Stage::Complete => "完成"@,
    }
}

pub open spec fn stage_icon(s: Stage) -> Seq<char> {
    match s {
        Stage::LoadImage => "🖼️"@,
        Stage::InitBbox => "🎯"@,
        Stage::LoadModel => "🧠"@,
        Stage::RlInference => "🤖"@,
        Stage::TradBackground => "🌈"@,
        Stage::TradEdges => "✂️"@,
        Stage::TradMorph => "🔍"@,
        Stage::TradComponents => "🧩"@,
        Stage::GenerateMask => "🎨"@,
        Stage::RembgMask => "🪄"@,
        Stage::RembgInference => "🪄"@,
        Stage::Complete => "✅"@,
    }
}

pub open spec fn status_text(s: StageStatus) -> Seq<char> {
    match s {
        StageStatus::Pending => "pending"@,
        StageStatus::Running => "running"@,
        StageStatus::Done => "done"@,
    }
}

/// The record reported for `stage` with `status`.
pub open spec fn stage_matches(info: PipelineStageInfo, stage: Stage, status: StageStatus) -> bool {
    &&& info.key@ == stage_key(stage)
    &&& info.label@ == stage_label(stage)
    &&& info.icon@ == stage_icon(stage)
    &&& info.status@ == status_text(status)
}

fn stage_key_str(s: Stage) -> (r: &'static str)
    ensures
        r@ == stage_key(s),
{
    match s {
        Stage::LoadImage => "load_image",
        Stage::InitBbox => "init_bbox",
        Stage::LoadModel => "load_model",
        Stage::RlInference => "rl_inference",
        Stage::TradBackground => "trad_background",
        Stage::TradEdges => "trad_edges",
        Stage::TradMorph => "trad_morph",
        Stage::TradComponents => "trad_components",
        Stage::GenerateMask => "generate_mask",
        Stage::RembgMask => "generate_mask",
        Stage::RembgInference => "rembg_inference",
        Stage::Complete => "complete",
    }
}

fn stage_label_str(s: Stage) -> (r: &'static str)
    ensures
        r@ == stage_label(s),
{
    match s {
        Stage::LoadImage => "加载图像",
        Stage::InitBbox => "初始化边界框",
        Stage::LoadModel => "加载强化学习模型",
        Stage::RlInference => "RL 推理迭代",
        Stage::TradBackground => "传统处理：背景估计",
        Stage::TradEdges => "传统处理：边缘检测",
        Stage::TradMorph => "传统处理：形态学优化",
        Stage::TradComponents => "传统处理：连通域分析",
        Stage::GenerateMask => "生成抠图掩码",
        Stage::RembgMask => "AI 背景移除（rembg）",
        Stage::RembgInference => "AI 背景移除（rembg）",
        Stage::Complete => "完成",
    }
}

fn stage_icon_str(s: Stage) -> (r: &'static str)
    ensures
        r@ == stage_icon(s),
{
    match s {
        Stage::LoadImage => "🖼️",
        Stage::InitBbox => "🎯",
        Stage::LoadModel => "🧠",
        Stage::RlInference => "🤖",
        Stage::TradBackground => "🌈",
        Stage::TradEdges => "✂️",
        Stage::TradMorph => "🔍",
        Stage::TradComponents => "🧩",
        Stage::GenerateMask => "🎨",
        Stage::RembgMask => "🪄",
        Stage::RembgInference => "🪄",
        Stage::Complete => "✅",
    }
}

fn status_str(s: StageStatus) -> (r: &'static str)
    ensures
        r@ == status_text(s),
{
    match s {
        StageStatus::Pending => "pending",
        StageStatus::Running => "running",
        StageStatus::Done => "done",
    }
}

/// The record reported for `stage` with `status`.
pub fn stage_info(stage: Stage, status: StageStatus) -> (r: PipelineStageInfo)
    ensures
        stage_matches(r, stage, status),
{
    PipelineStageInfo {
        key: String::from_str(stage_key_str(stage)),
        label: String::from_str(stage_label_str(stage)),
        icon: String::from_str(stage_icon_str(stage)),
        status: String::from_str(status_str(status)),
    }
}

/// The stages announced at the start of a run: image loading and box set-up,
/// the model stages when the agent is enabled, the four classical stages when
/// classical processing is enabled, then mask generation and completion.
pub open spec fn planned_stages(enable_rl: bool, enable_traditional: bool) -> Seq<Stage> {
    seq![Stage::LoadImage, Stage::InitBbox]
        + (if enable_rl { seq![Stage::LoadModel, Stage::RlInference] } else { Seq::empty() })
        + (if enable_traditional {
            seq![Stage::TradBackground, Stage::TradEdges, Stage::TradMorph, Stage::TradComponents]
        } else {
            Seq::empty()
        })
        + seq![Stage::GenerateMask, Stage::Complete]
}

fn push_stage(v: &mut Vec<PipelineStageInfo>, stage: Stage, status: StageStatus)
    ensures
        final(v)@.len() == old(v)@.len() + 1,
        forall|i: int| 0 <= i < old(v)@.len() ==> final(v)@[i] == old(v)@[i],
        stage_matches(final(v)@[old(v)@.len() as int], stage, status),
{
    v.push(stage_info(stage, status));
}

/// The list of stages announced at the start of a run, all pending.
pub fn pipeline_stages(enable_rl: bool, enable_traditional: bool) -> (r: Vec<PipelineStageInfo>)
    ensures
        r@.len() == planned_stages(enable_rl, enable_traditional).len(),
        forall|i: int|
            0 <= i < r@.len() ==> stage_matches(
                #[trigger] r@[i],
                planned_stages(enable_rl, enable_traditional)[i],
                StageStatus::Pending,
            ),
{
    let ghost plan = planned_stages(enable_rl, enable_traditional);
    let mut v: Vec<PipelineStageInfo> = Vec::new();
    let ghost mut done: Seq<Stage> = Seq::empty();
    push_stage(&mut v, Stage::LoadImage, StageStatus::Pending);
    push_stage(&mut v, Stage::InitBbox, StageStatus::Pending);
    proof {
        done = seq![Stage::LoadImage, Stage::InitBbox];
    }
    if enable_rl {
        push_stage(&mut v, Stage::LoadModel, StageStatus::Pending);
        push_stage(&mut v, Stage::RlInference, StageStatus::Pending);
        proof {
            done = done + seq![Stage::LoadModel, Stage::RlInference];
        }
    }
    if enable_traditional {
        push_stage(&mut v, Stage::TradBackground, StageStatus::Pending);
        push_stage(&mut v, Stage::TradEdges, StageStatus::Pending);
        push_stage(&mut v, Stage::TradMorph, StageStatus::Pending);
        push_stage(&mut v, Stage::TradComponents, StageStatus::Pending);
        proof {
            done = done + seq![Stage::TradBackground, Stage::TradEdges, Stage::TradMorph, Stage::TradComponents];
        }
    }
    push_stage(&mut v, Stage::GenerateMask, StageStatus::Pending);
    push_stage(&mut v, Stage::Complete, StageStatus::Pending);
    proof {
        done = done + seq![Stage::GenerateMask, Stage::Complete];
        assert(done =~= plan);
    }
    v
}

/// The events reported while the classical stages run: each of the four
/// stages, in order, first running then done.
pub open spec fn traditional_events() -> Seq<(Stage, StageStatus)> {
    seq![
        (Stage::TradBackground, StageStatus::Running),
        (Stage::TradBackground, StageStatus::Done),
        (Stage::TradEdges, StageStatus::Running),
        (Stage::TradEdges, StageStatus::Done),
        (Stage::TradMorph, StageStatus::Running),
        (Stage::TradMorph, StageStatus::Done),
        (Stage::TradComponents, StageStatus::Running),
        (Stage::TradComponents, StageStatus::Done),
    ]
}

/// The stage events reported for the classical stages.
pub fn traditional_stage_events() -> (r: Vec<PipelineStageInfo>)
    ensures
        r@.len() == traditional_events().len(),
        forall|i: int|
            0 <= i < r@.len() ==> stage_matches(
                #[trigger] r@[i],
                traditional_events()[i].0,
                traditional_events()[i].1,
            ),
{
    let mut v: Vec<PipelineStageInfo> = Vec::new();
    push_stage(&mut v, Stage::TradBackground, StageStatus::Running);
    push_stage(&mut v, Stage::TradBackground, StageStatus::Done);
    push_stage(&mut v, Stage::TradEdges, StageStatus::Running);
    push_stage(&mut v, Stage::TradEdges, StageStatus::Done);
    push_stage(&mut v, Stage::TradMorph, StageStatus::Running);
    push_stage(&mut v, Stage::TradMorph, StageStatus::Done);
    push_stage(&mut v, Stage::TradComponents, StageStatus::Running);
    push_stage(&mut v, Stage::TradComponents, StageStatus::Done);
    v
}

/// The stage records for a list of events, in order.
pub fn stage_events(events: &[(Stage, StageStatus)]) -> (r: Vec<PipelineStageInfo>)
    ensures
        r@.len() == events@.len(),
        forall|i: int| 0 <= i < r@.len() ==> stage_matches(#[trigger] r@[i], events@[i].0, events@[i].1),
{
    let mut v: Vec<PipelineStageInfo> = Vec::new();
    let mut i: usize = 0;
    while i < events.len()
        invariant
            i <= events@.len(),
            v@.len() == i,
            forall|j: int| 0 <= j < i ==> stage_matches(#[trigger] v@[j], events@[j].0, events@[j].1),
        decreases events@.len() - i,
    {
        let (stage, status) = events[i];
        push_stage(&mut v, stage, status);
        i = i + 1;
    }
    v
}

/// The events reported when the agent's loop ends, before the final mask is
/// made: inference done, mask generation running, the classical stages when
/// classical processing is enabled, and segmentation running when it is
/// reported.
pub open spec fn finishing_events(enable_traditional: bool, report_segmentation: bool) -> Seq<(Stage, StageStatus)> {
    seq![(Stage::RlInference, StageStatus::Done), (Stage::GenerateMask, StageStatus::Running)]
        + (if enable_traditional { traditional_events() } else { Seq::empty() })
        + (if report_segmentation { seq![(Stage::RembgInference, StageStatus::Running)] } else { Seq::empty() })
}

/// The events reported once the final mask is made: segmentation done when it
/// is reported, then mask generation done.
pub open spec fn finished_events(report_segmentation: bool) -> Seq<(Stage, StageStatus)> {
    (if report_segmentation { seq![(Stage::RembgInference, StageStatus::Done)] } else { Seq::empty() })
        + seq![(Stage::GenerateMask, StageStatus::Done)]
}

/// The stage records reported when the agent's loop ends (see `finishing_events`).
pub fn finishing_stage_events(enable_traditional: bool, report_segmentation: bool) -> (r: Vec<PipelineStageInfo>)
    ensures
        r@.len() == finishing_events(enable_traditional, report_segmentation).len(),
        forall|i: int|
            0 <= i < r@.len() ==> stage_matches(
                #[trigger] r@[i],
                finishing_events(enable_traditional, report_segmentation)[i].0,
                finishing_events(enable_traditional, report_segmentation)[i].1,
            ),
{
    let ghost plan = finishing_events(enable_traditional, report_segmentation);
    let mut ev: Vec<(Stage, StageStatus)> = Vec::new();
    ev.push((Stage::RlInference, StageStatus::Done));
    ev.push((Stage::GenerateMask, StageStatus::Running));
    let ghost mut done: Seq<(Stage, StageStatus)> = seq![(Stage::RlInference, StageStatus::Done), (Stage::GenerateMask, StageStatus::Running)];
    assert(ev@ =~= done);
    if enable_traditional {
        ev.push((Stage::TradBackground, StageStatus::Running));
        ev.push((Stage::TradBackground, StageStatus::Done));
        ev.push((Stage::TradEdges, StageStatus::Running));
        ev.push((Stage::TradEdges, StageStatus::Done));
        ev.push((Stage::TradMorph, StageStatus::Running));
        ev.push((Stage::TradMorph, StageStatus::Done));
        ev.push((Stage::TradComponents, StageStatus::Running));
        ev.push((Stage::TradComponents, StageStatus::Done));
        proof {
            done = done + traditional_events();
        }
        assert(ev@ =~= done);
    }
    if report_segmentation {
        ev.push((Stage::RembgInference, StageStatus::Running));
        proof {
            done = done + seq![(Stage::RembgInference, StageStatus::Running)];
        }
        assert(ev@ =~= done);
    }
    assert(done =~= plan);
    stage_events(ev.as_slice())
}

/// The stage records reported once the final mask is made (see `finished_events`).
pub fn finished_stage_events(report_segmentation: bool) -> (r: Vec<PipelineStageInfo>)
    ensures
        r@.len() == finished_events(report_segmentation).len(),
        forall|i: int|
            0 <= i < r@.len() ==> stage_matches(
                #[trigger] r@[i],
                finished_events(report_segmentation)[i].0,
                finished_events(report_segmentation)[i].1,
            ),
{
    let mut ev: Vec<(Stage, StageStatus)> = Vec::new();
    if report_segmentation {
        ev.push((Stage::RembgInference, StageStatus::Done));
    }
    ev.push((Stage::GenerateMask, StageStatus::Done));
    assert(ev@ =~= finished_events(report_segmentation));
    stage_events(ev.as_slice())
}

/// The path a processing request takes.
#[derive(Clone, Copy, Debug, PartialEq, Eq, Structural)]
pub enum RunPlan {
    /// Only segmentation is enabled: segment the whole image directly.
    SegmentationOnly,
    /// The agent is disabled: make the mask from the whole image directly.
    DirectMask,
    /// Run the localisation agent first.
    AgentLoop,
}

/// The message returned when no method is enabled.
pub open spec fn nothing_enabled_message() -> Seq<char> {
    "请至少启用一种处理方式（强化学习、传统图像处理或AI背景移除）"@
}

pub open spec fn spec_plan_run(enable_rl: bool, enable_traditional: bool, enable_rembg: bool) -> Option<RunPlan> {
    if !enable_rl && !enable_traditional && !enable_rembg {
        None
    } else if enable_rembg && !enable_rl && !enable_traditional {
        Some(RunPlan::SegmentationOnly)
    } else if !enable_rl {
        Some(RunPlan::DirectMask)
    } else {
        Some(RunPlan::AgentLoop)
    }
}

/// Chooses the processing path; a request with every method disabled is refused.
pub fn plan_run(enable_rl: bool, enable_traditional: bool, enable_rembg: bool) -> (r: Result<RunPlan, String>)
    ensures
        match spec_plan_run(enable_rl, enable_traditional, enable_rembg) {
            Some(p) => r == Ok::<RunPlan, String>(p),
            None => r is Err && r->Err_0@ == nothing_enabled_message(),
        },
{
    if !enable_rl && !enable_traditional && !enable_rembg {
        return Err(String::from_str("请至少启用一种处理方式（强化学习、传统图像处理或AI背景移除）"));
    }
    if enable_rembg && !enable_rl && !enable_traditional {
        Ok(RunPlan::SegmentationOnly)
    } else if !enable_rl {
        Ok(RunPlan::DirectMask)
    } else {
        Ok(RunPlan::AgentLoop)
    }
}

/// How a mask is made from a box.
#[derive(Clone, Copy, Debug, PartialEq, Eq, Structural)]
pub enum MaskRoute {
    /// Segmentation alone.
    SegmentationOnly,
    /// The classical score-map mask alone.
    Classical,
    /// The classical mask refined by segmentation.
    ClassicalThenSegmentation,
}

pub open spec fn spec_mask_route(enable_rl: bool, enable_traditional: bool, enable_rembg: bool) -> MaskRoute {
    if enable_rembg && !enable_traditional && !enable_rl {
        MaskRoute::SegmentationOnly
    } else if !enable_rembg {
        MaskRoute::Classical
    } else {
        MaskRoute::ClassicalThenSegmentation
    }
}

/// Chooses how the mask for a box is made from the enabled methods.
pub fn mask_route(enable_rl: bool, enable_traditional: bool, enable_rembg: bool) -> (r: MaskRoute)
    ensures
        r == spec_mask_route(enable_rl, enable_traditional, enable_rembg),
{
    if enable_rembg && !enable_traditional && !enable_rl {
        MaskRoute::SegmentationOnly
    } else if !enable_rembg {
        MaskRoute::Classical
    } else {
        MaskRoute::ClassicalThenSegmentation
    }
}

/// Every request with at least one method enabled is accepted; the agent
/// loop runs exactly when the agent is enabled; and the segmentation-only path
/// is taken exactly when `mask_route` makes the mask by segmentation alone.
pub proof fn lemma_plan_accepts_any_enabled(enable_rl: bool, enable_traditional: bool, enable_rembg: bool)
    ensures
        (enable_rl || enable_traditional || enable_rembg) <==> spec_plan_run(enable_rl, enable_traditional, enable_rembg) is Some,
        spec_plan_run(enable_rl, enable_traditional, enable_rembg) == Some(RunPlan::AgentLoop) <==> enable_rl,
        spec_plan_run(enable_rl, enable_traditional, enable_rembg) == Some(RunPlan::SegmentationOnly)
            <==> spec_mask_route(enable_rl, enable_traditional, enable_rembg) == MaskRoute::SegmentationOnly,
{
}

/// The stages announced for a run always begin with image loading and box
/// set-up and end with mask generation and completion, and list the model
/// stages exactly when the agent is enabled and the classical stages exactly
/// when classical processing is.
pub proof fn lemma_planned_stages_shape(enable_rl: bool, enable_traditional: bool)
    ensures
        ({
            let p = planned_stages(enable_rl, enable_traditional);
            &&& p.len() == 4 + (if enable_rl { 2int } else { 0int }) + (if enable_traditional { 4int } else { 0int })
            &&& p[0] == Stage::LoadImage
            &&& p[1] == Stage::InitBbox
            &&& p[p.len() - 2] == Stage::GenerateMask
            &&& p[p.len() - 1] == Stage::Complete
            &&& p.contains(Stage::RlInference) <==> enable_rl
            &&& p.contains(Stage::TradComponents) <==> enable_traditional
        }),
{
    let p = planned_stages(enable_rl, enable_traditional);
    if enable_rl {
        assert(p[3] == Stage::RlInference);
    }
    if enable_traditional {
        let i: int = if enable_rl { 7 } else { 5 };
        assert(p[i] == Stage::TradComponents);
    }
    if !enable_rl {
        assert forall|i: int| 0 <= i < p.len() implies p[i] != Stage::RlInference by {}
    }
    if !enable_traditional {
        assert forall|i: int| 0 <= i < p.len() implies p[i] != Stage::TradComponents by {}
    }
}

} // verus!

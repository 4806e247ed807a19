//! The localisation agent's episode: which action is taken at each step,
//! how the box evolves, and when the episode ends.

use vstd::prelude::*;
use crate::geometry::{
    apply_action, box_in_image, full_box, image_supported, lemma_apply_action_keeps_box_in_image,
    spec_apply_action, BoundingBox,
};

verus! {

/// Number of discrete agent actions.
pub const ACTION_COUNT: u32 = 7;

/// The action that ends an episode.
pub const TRIGGER: u32 = 6;

/// Steps before which a trigger is never taken.
pub const MIN_STEPS_BEFORE_TRIGGER: u32 = 15;

/// Step at which the scripted fallback (no model) triggers.
pub const SCRIPTED_TRIGGER_STEP: u32 = 30;

/// Display name of action `i` (for `0 <= i < 7`).
pub open spec fn action_name(i: int) -> Seq<char> {
    if i == 0 {
        "Move Left"@
    } else if i == 1 {
        "Move Right"@
    } else if i == 2 {
        "Move Up"@
    } else if i == 3 {
        "Move Down"@
    } else if i == 4 {
        "Zoom In"@
    } else if i == 5 {
        "Zoom Out"@
    } else {
        "Trigger"@
    }
}

/// Display name of an action; numbers wrap around modulo 7.
pub fn action_to_string(action: u32) -> (r: &'static str)
    ensures
        r@ == action_name((action % ACTION_COUNT) as int),
{
    let i = action % ACTION_COUNT;
    if i == 0 {
        "Move Left"
    } else if i == 1 {
        "Move Right"
    } else if i == 2 {
        "Move Up"
    } else if i == 3 {
        "Move Down"
    } else if i == 4 {
        "Zoom In"
    } else if i == 5 {
        "Zoom Out"
    } else {
        "Trigger"
    }
}

/// The action played at `step` (counted from 1) when no policy model is loaded:
/// zoom out/in and up for the first 14 steps, then zoom and horizontal moves
/// up to step 29, then the trigger.
pub open spec fn spec_scripted_action(step: u32) -> u32 {
    if step < MIN_STEPS_BEFORE_TRIGGER {
        let k = (step - 1) % 5;
        if k == 0 || k == 2 { 5 } else if k == 1 || k == 3 { 4 } else { 2 }
    } else if step < SCRIPTED_TRIGGER_STEP {
        let k = (step - MIN_STEPS_BEFORE_TRIGGER) % 4;
        if k == 0 { 4 } else if k == 1 { 5 } else if k == 2 { 0 } else { 1 }
    } else {
        TRIGGER
    }
}

/// The model's action with an early trigger replaced by `(step + 4) % 6`.
pub open spec fn spec_guard_model_action(step: u32, action: u32) -> u32 {
    if step < MIN_STEPS_BEFORE_TRIGGER && action == TRIGGER {
        ((step + 4) % 6) as u32
    } else {
        action
    }
}

/// The action taken at `step`: the model's proposal (guarded against early
/// triggers) when a model is loaded, else the scripted fallback.
pub open spec fn spec_choose_action(step: u32, model_action: Option<u32>) -> u32 {
    match model_action {
        Some(a) => spec_guard_model_action(step, a),
        None => spec_scripted_action(step),
    }
}

/// The action played at `step` when no policy model is loaded.
pub fn scripted_action(step: u32) -> (r: u32)
    requires
        step >= 1,
    ensures
        r == spec_scripted_action(step),
{
    if step < MIN_STEPS_BEFORE_TRIGGER {
        let k = (step - 1) % 5;
        if k == 0 || k == 2 { 5 } else if k == 1 || k == 3 { 4 } else { 2 }
    } else if step < SCRIPTED_TRIGGER_STEP {
        let k = (step - MIN_STEPS_BEFORE_TRIGGER) % 4;
        if k == 0 { 4 } else if k == 1 { 5 } else if k == 2 { 0 } else { 1 }
    } else {
        TRIGGER
    }
}

/// Chooses the action for `step` (counted from 1). `model_action` is the
/// model's proposal when a model is loaded (a failed inference proposes the
/// trigger), `None` when none is.
pub fn choose_action(step: u32, model_action: Option<u32>) -> (r: u32)
    requires
        step >= 1,
    ensures
        r == spec_choose_action(step, model_action),
{
    match model_action {
        Some(a) => {
            if step < MIN_STEPS_BEFORE_TRIGGER && a == TRIGGER {
                (step + 4) % 6
            } else {
                a
            }
        },
        None => scripted_action(step),
    }
}

/// No action chosen before step 15 is the trigger, with or without a model.
pub proof fn lemma_no_early_trigger(step: u32, model_action: Option<u32>)
    requires
        1 <= step < MIN_STEPS_BEFORE_TRIGGER,
    ensures
        spec_choose_action(step, model_action) != TRIGGER,
{
}

/// Without a model the first trigger comes at step 30.
pub proof fn lemma_scripted_trigger_step(step: u32)
    requires
        step >= 1,
    ensures
        spec_scripted_action(step) == TRIGGER <==> step >= SCRIPTED_TRIGGER_STEP,
{
}

/// The scripted fallback zooms out, in, out, in and moves up, repeating every
/// five steps before step 15; from step 15 to step 29 it zooms in, out, moves
/// left, right, repeating every four steps; from step 30 on it triggers.
pub proof fn lemma_scripted_pattern()
    ensures
        spec_scripted_action(1) == 5 && spec_scripted_action(2) == 4 && spec_scripted_action(3) == 5
            && spec_scripted_action(4) == 4 && spec_scripted_action(5) == 2,
        forall|s: u32| 1 <= s && s + 5 < 15 ==> #[trigger] spec_scripted_action((s + 5) as u32) == spec_scripted_action(s),
        spec_scripted_action(15) == 4 && spec_scripted_action(16) == 5 && spec_scripted_action(17) == 0
            && spec_scripted_action(18) == 1,
        forall|s: u32| 15 <= s && s + 4 < 30 ==> #[trigger] spec_scripted_action((s + 4) as u32) == spec_scripted_action(s),
        forall|s: u32| s >= 30 ==> #[trigger] spec_scripted_action(s) == 6,
{
}

/// State of one localisation episode.
pub struct RlEpisode {
    /// The current box.
    pub bbox: BoundingBox,
    /// Steps taken so far.
    pub step: u32,
    /// Largest number of steps.
    pub max_steps: u32,
    pub img_w: u32,
    pub img_h: u32,
    /// Whether the agent has triggered.
    pub finished: bool,
}

/// What one step reports to the user interface.
pub struct StepReport {
    pub step: u32,
    pub action: u32,
    /// "Complete" when the step ends the episode, else the action's name.
    pub label: &'static str,
    pub bbox: BoundingBox,
    pub is_finished: bool,
}

impl RlEpisode {
    /// The episode's invariant.
    pub open spec fn wf(&self) -> bool {
        &&& box_in_image(self.bbox, self.img_w, self.img_h)
        &&& image_supported(self.img_w, self.img_h)
        &&& self.step <= self.max_steps
        &&& self.finished ==> self.step >= MIN_STEPS_BEFORE_TRIGGER
    }

    /// A fresh episode on an `img_w` x `img_h` image: the box covers the image.
    pub fn start(img_w: u32, img_h: u32, max_steps: u32) -> (e: RlEpisode)
        requires
            image_supported(img_w, img_h),
        ensures
            e.wf(),
            e.bbox == full_box(img_w, img_h),
            e.step == 0,
            e.max_steps == max_steps,
            e.img_w == img_w,
            e.img_h == img_h,
            !e.finished,
    {
        RlEpisode {
            bbox: BoundingBox::full(img_w, img_h),
            step: 0,
            max_steps,
            img_w,
            img_h,
            finished: false,
        }
    }

    /// Starts the next step if the episode is neither finished nor out of steps;
    /// returns whether it did.
    pub fn advance(&mut self) -> (go: bool)
        requires
            old(self).wf(),
        ensures
            final(self).wf(),
            go == (!old(self).finished && old(self).step < old(self).max_steps),
            final(self).step == (if go { old(self).step + 1 } else { old(self).step as int }),
            final(self).bbox == old(self).bbox,
            final(self).finished == old(self).finished,
            final(self).max_steps == old(self).max_steps,
            final(self).img_w == old(self).img_w,
            final(self).img_h == old(self).img_h,
    {
        if !self.finished && self.step < self.max_steps {
            self.step = self.step + 1;
            true
        } else {
            false
        }
    }

    /// Plays the current step: chooses the action (see `choose_action`), moves
    /// the box, and ends the episode when the action is the trigger at step 15
    /// or later.
    pub fn take_action(&mut self, model_action: Option<u32>) -> (r: StepReport)
        requires
            old(self).wf(),
            old(self).step >= 1,
            !old(self).finished,
        ensures
            final(self).wf(),
            r.step == old(self).step,
            r.action == spec_choose_action(old(self).step, model_action),
            r.bbox == spec_apply_action(old(self).bbox, r.action, old(self).img_w, old(self).img_h),
            final(self).bbox == r.bbox,
            r.is_finished == (r.action == TRIGGER && old(self).step >= MIN_STEPS_BEFORE_TRIGGER),
            final(self).finished == r.is_finished,
            r.label@ == (if r.is_finished { "Complete"@ } else { action_name((r.action % ACTION_COUNT) as int) }),
            final(self).step == old(self).step,
            final(self).max_steps == old(self).max_steps,
            final(self).img_w == old(self).img_w,
            final(self).img_h == old(self).img_h,
    {
        let action = choose_action(self.step, model_action);
        proof {
            lemma_apply_action_keeps_box_in_image(self.bbox, action, self.img_w, self.img_h);
        }
        let bbox = apply_action(&self.bbox, action, self.img_w, self.img_h);
        let is_finished = action == TRIGGER && self.step >= MIN_STEPS_BEFORE_TRIGGER;
        let label = if is_finished { "Complete" } else { action_to_string(action) };
        self.bbox = bbox;
        self.finished = is_finished;
        StepReport { step: self.step, action, label, bbox, is_finished }
    }

    /// Whether the episode used all its steps, in which case a mask is made
    /// from the final box after the loop.
    pub fn needs_final_mask(&self) -> (r: bool)
        ensures
            r == (self.step >= self.max_steps),
    {
        self.step >= self.max_steps
    }
}

/// Along an episode the box stays in the image and the step count never passes
/// the step limit; an episode ends only by a trigger at step 15 or later.
pub proof fn lemma_episode_step_keeps_invariant(e: RlEpisode, model_action: Option<u32>)
    requires
        e.wf(),
        1 <= e.step,
        !e.finished,
    ensures
        ({
            let a = spec_choose_action(e.step, model_action);
            let next = RlEpisode {
                bbox: spec_apply_action(e.bbox, a, e.img_w, e.img_h),
                finished: a == TRIGGER && e.step >= MIN_STEPS_BEFORE_TRIGGER,
                ..e
            };
            &&& next.wf()
            &&& next.finished ==> a == TRIGGER && e.step >= MIN_STEPS_BEFORE_TRIGGER
        }),
{
    let a = spec_choose_action(e.step, model_action);
    lemma_apply_action_keeps_box_in_image(e.bbox, a, e.img_w, e.img_h);
}

/// One full step of an episode: `advance` followed by `take_action` with the
/// model's proposal.
pub open spec fn step_once(e: RlEpisode, proposal: Option<u32>) -> RlEpisode {
    let s = (e.step + 1) as u32;
    let a = spec_choose_action(s, proposal);
    RlEpisode {
        step: s,
        bbox: spec_apply_action(e.bbox, a, e.img_w, e.img_h),
        finished: a == TRIGGER && s >= MIN_STEPS_BEFORE_TRIGGER,
        ..e
    }
}

/// The episode after stepping with the proposals in turn until it is finished,
/// out of steps, or out of proposals.
pub open spec fn run_episode(e: RlEpisode, proposals: Seq<Option<u32>>) -> RlEpisode
    decreases proposals.len(),
{
    if proposals.len() == 0 || e.finished || e.step >= e.max_steps {
        e
    } else {
        run_episode(step_once(e, proposals[0]), proposals.drop_first())
    }
}

/// Number of masks made for an ended episode: one when the agent triggered,
/// one when the episode used all its steps.
pub open spec fn mask_events(e: RlEpisode) -> int {
    (if e.finished { 1int } else { 0int }) + (if e.step >= e.max_steps { 1int } else { 0int })
}

/// An episode run to its end (with a proposal for every step it may take)
/// keeps its invariant, ends by a trigger or on its last step, and makes a
/// mask at least once; it makes exactly one mask unless the trigger falls on
/// the last allowed step, when it makes two.
pub proof fn lemma_episode_makes_one_mask(e: RlEpisode, proposals: Seq<Option<u32>>)
    requires
        e.wf(),
        !e.finished,
        proposals.len() >= e.max_steps - e.step,
    ensures
        ({
            let r = run_episode(e, proposals);
            &&& r.wf()
            &&& r.max_steps == e.max_steps
            &&& e.step <= r.step <= r.max_steps
            &&& r.finished || r.step == r.max_steps
            &&& mask_events(r) >= 1
            &&& mask_events(r) == 1 <==> !(r.finished && r.step == r.max_steps)
        }),
    decreases proposals.len(),
{
    if e.step >= e.max_steps {
    } else {
        let e1 = RlEpisode { step: (e.step + 1) as u32, ..e };
        assert(e1.wf());
        lemma_episode_step_keeps_invariant(e1, proposals[0]);
        let n = step_once(e, proposals[0]);
        assert(n.wf());
        if !n.finished {
            lemma_episode_makes_one_mask(n, proposals.drop_first());
        }
    }
}

} // verus!

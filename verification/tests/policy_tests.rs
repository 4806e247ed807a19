use rl_matting::geometry::BoundingBox;
use rl_matting::policy::{
    action_to_string, choose_action, scripted_action, RlEpisode, MIN_STEPS_BEFORE_TRIGGER, TRIGGER,
};

#[test]
fn action_names() {
    assert_eq!(action_to_string(0), "Move Left");
    assert_eq!(action_to_string(1), "Move Right");
    assert_eq!(action_to_string(2), "Move Up");
    assert_eq!(action_to_string(3), "Move Down");
    assert_eq!(action_to_string(4), "Zoom In");
    assert_eq!(action_to_string(5), "Zoom Out");
    assert_eq!(action_to_string(6), "Trigger");
}

#[test]
fn action_names_wrap_around() {
    assert_eq!(action_to_string(7), "Move Left");
    assert_eq!(action_to_string(13), "Trigger");
    assert_eq!(action_to_string(u32::MAX), action_to_string(u32::MAX % 7));
}

#[test]
fn scripted_actions_before_step_fifteen() {
    let expected = [5, 4, 5, 4, 2, 5, 4, 5, 4, 2, 5, 4, 5, 4];
    for (i, want) in expected.iter().enumerate() {
        assert_eq!(scripted_action(i as u32 + 1), *want, "step {}", i + 1);
    }
}

#[test]
fn scripted_actions_from_step_fifteen() {
    assert_eq!(scripted_action(15), 4);
    assert_eq!(scripted_action(16), 5);
    assert_eq!(scripted_action(17), 0);
    assert_eq!(scripted_action(18), 1);
    assert_eq!(scripted_action(19), 4);
    assert_eq!(scripted_action(29), 0);
    assert_eq!(scripted_action(30), TRIGGER);
    assert_eq!(scripted_action(100), TRIGGER);
}

#[test]
fn early_model_trigger_is_replaced() {
    assert_eq!(choose_action(3, Some(6)), 1);
    assert_eq!(choose_action(14, Some(6)), 0);
    assert_eq!(choose_action(1, Some(6)), 5);
}

#[test]
fn model_actions_pass_through() {
    assert_eq!(choose_action(2, Some(2)), 2);
    assert_eq!(choose_action(15, Some(6)), 6);
    assert_eq!(choose_action(20, Some(4)), 4);
    assert_eq!(choose_action(5, None), 2);
}

#[test]
fn no_trigger_before_step_fifteen() {
    for step in 1..MIN_STEPS_BEFORE_TRIGGER {
        for proposal in 0..7u32 {
            assert_ne!(choose_action(step, Some(proposal)), TRIGGER);
        }
        assert_ne!(choose_action(step, None), TRIGGER);
    }
}

#[test]
fn scripted_episode_ends_at_step_thirty() {
    let mut e = RlEpisode::start(640, 480, 30);
    let mut last = None;
    while e.advance() {
        let r = e.take_action(None);
        assert!(r.bbox.x + r.bbox.width <= 640);
        assert!(r.bbox.y + r.bbox.height <= 480);
        last = Some(r);
    }
    let r = last.unwrap();
    assert_eq!(r.step, 30);
    assert_eq!(r.action, TRIGGER);
    assert!(r.is_finished);
    assert_eq!(r.label, "Complete");
    assert!(e.finished);
    assert!(e.needs_final_mask());
}

#[test]
fn model_episode_triggers_at_step_fifteen() {
    let mut e = RlEpisode::start(640, 480, 30);
    let mut reports = Vec::new();
    while e.advance() {
        reports.push(e.take_action(Some(6)));
    }
    assert_eq!(reports.len(), 15);
    for r in &reports[..14] {
        assert!(!r.is_finished);
        assert_ne!(r.action, TRIGGER);
        assert_eq!(r.label, action_to_string(r.action));
    }
    let r = &reports[14];
    assert_eq!(r.step, 15);
    assert!(r.is_finished);
    assert_eq!(r.label, "Complete");
    assert_eq!(e.step, 15);
    assert!(!e.needs_final_mask());
}

#[test]
fn episode_without_trigger_runs_out_of_steps() {
    let mut e = RlEpisode::start(100, 100, 5);
    let mut n = 0;
    while e.advance() {
        let r = e.take_action(Some(4));
        assert_eq!(r.label, "Zoom In");
        n += 1;
    }
    assert_eq!(n, 5);
    assert!(!e.finished);
    assert!(e.needs_final_mask());
}

#[test]
fn first_step_moves_the_full_box() {
    let mut e = RlEpisode::start(640, 480, 30);
    assert_eq!(e.bbox, BoundingBox { x: 0, y: 0, width: 640, height: 480 });
    assert!(e.advance());
    let r = e.take_action(None);
    assert_eq!(r.step, 1);
    assert_eq!(r.action, 5);
    assert_eq!(r.label, "Zoom Out");
    assert_eq!(r.bbox, BoundingBox { x: 0, y: 0, width: 640, height: 480 });
}

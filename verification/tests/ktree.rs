use patch_hub::action::{Action, KtreeStatus};
use patch_hub::components::ktree::{
    apply_outcome, Border, Ktree, KtreeDraw, KtreeTask, LocalMode, ProgramRun, Tone,
    MAX_NOTIFICATION_TICKS,
};
use patch_hub::components::Key;

fn ktree() -> Ktree {
    Ktree::new("~/src/linux".to_string(), Some("/home/me".to_string()))
}

#[test]
fn ktree_new_expands_home() {
    let k = ktree();
    assert_eq!(k.kernel_tree_path(), "/home/me/src/linux");
    assert_eq!(k.local_mode(), LocalMode::Idle);
    assert_eq!(k.status_message(), "");
    assert!(!k.patch_apply_in_progress());
    let k = Ktree::new("/srv/linux".to_string(), None);
    assert_eq!(k.kernel_tree_path(), "/srv/linux");
}

#[test]
fn ktree_apply_starts_only_when_free() {
    let mut k = ktree();
    let task = k.update(Action::KtreeApply("/tmp/p.mbox".to_string()));
    assert_eq!(task, Some(KtreeTask::Apply("/tmp/p.mbox".to_string())));
    assert_eq!(k.local_mode(), LocalMode::Applying);
    assert!(k.patch_apply_in_progress());
    let task = k.update(Action::KtreeResult(KtreeStatus::Failed("conflict".to_string())));
    assert_eq!(task, None);
    assert_eq!(k.local_mode(), LocalMode::Failed);
    assert_eq!(k.status_message(), "conflict");
    assert_eq!(k.update(Action::KtreeApply("/tmp/q.mbox".to_string())), None);
    assert_eq!(k.local_mode(), LocalMode::Failed);
}

#[test]
fn ktree_abort_after_failed_apply() {
    let mut k = ktree();
    k.update(Action::KtreeApply("/tmp/p.mbox".to_string()));
    k.update(Action::KtreeResult(KtreeStatus::Failed("conflict".to_string())));
    assert_eq!(k.handle_key_event(Key::Char('x')), Some(Action::KtreeAbort));
    assert_eq!(k.update(Action::KtreeAbort), Some(KtreeTask::Abort));
    assert_eq!(k.local_mode(), LocalMode::Failed);
    k.update(Action::KtreeSetMode(LocalMode::Aborting));
    assert_eq!(k.local_mode(), LocalMode::Aborting);
    k.update(Action::KtreeResult(KtreeStatus::Aborted));
    assert_eq!(k.local_mode(), LocalMode::Success);
    assert_eq!(k.status_message(), "git am --abort: patch reverted");
    assert!(!k.patch_apply_in_progress());
}

#[test]
fn ktree_dismiss_failure_without_apply() {
    let mut k = ktree();
    k.update(Action::KtreeResult(KtreeStatus::Failed("download failed: x".to_string())));
    assert_eq!(k.handle_key_event(Key::Char('y')), None);
    assert_eq!(k.update(Action::KtreeAbort), None);
    assert_eq!(k.local_mode(), LocalMode::Idle);
    assert_eq!(k.status_message(), "");
}

#[test]
fn ktree_key_only_when_failed() {
    let k = ktree();
    assert_eq!(k.handle_key_event(Key::Char('x')), None);
    let mut k = ktree();
    assert_eq!(k.update(Action::KtreeAbort), None);
    assert_eq!(k.local_mode(), LocalMode::Idle);
}

#[test]
fn ktree_success_notice_expires() {
    let mut k = ktree();
    k.update(Action::KtreeResult(KtreeStatus::Success("Add hello.txt".to_string())));
    assert_eq!(k.local_mode(), LocalMode::Success);
    for _ in 0..MAX_NOTIFICATION_TICKS - 1 {
        k.update(Action::Tick);
        assert_eq!(k.local_mode(), LocalMode::Success);
    }
    assert_eq!(k.notification_ticks(), 29);
    k.update(Action::Tick);
    assert_eq!(k.local_mode(), LocalMode::Idle);
    assert_eq!(k.status_message(), "");
    assert_eq!(k.notification_ticks(), 0);
}

#[test]
fn ktree_spinner_wraps() {
    let mut k = ktree();
    k.update(Action::KtreeSetMode(LocalMode::Applying));
    let mut seen = Vec::new();
    for _ in 0..5 {
        k.update(Action::Tick);
        seen.push(k.spinner());
    }
    assert_eq!(seen, vec![1, 2, 3, 0, 1]);
    k.update(Action::KtreeSetMode(LocalMode::Aborting));
    assert_eq!(k.spinner(), 0);
}

#[test]
fn ktree_draw_plan() {
    let k = ktree();
    assert_eq!(k.draw_plan(100, 40), KtreeDraw::Hidden);
    let mut k = ktree();
    k.update(Action::KtreeResult(KtreeStatus::Failed("boom".to_string())));
    match k.draw_plan(100, 40) {
        KtreeDraw::Shown(p) => {
            assert_eq!(p.text, "boom");
            assert_eq!(p.title, " git am error (x: abort) ");
            assert_eq!(p.tone, Tone::Red);
            assert_eq!(p.border, Border::Double);
            assert_eq!((p.x, p.y, p.width, p.height), (49, 1, 50, 3));
        }
        other => panic!("unexpected {other:?}"),
    }
    assert_eq!(k.draw_plan(2000, 40), KtreeDraw::Overflow);
    match k.draw_plan(10, 4) {
        KtreeDraw::Shown(p) => assert_eq!((p.x, p.width, p.height), (0, 30, 2)),
        other => panic!("unexpected {other:?}"),
    }
    let mut k = ktree();
    k.update(Action::KtreeApply("/tmp/p.mbox".to_string()));
    k.update(Action::Tick);
    k.update(Action::Tick);
    match k.draw_plan(80, 24) {
        KtreeDraw::Shown(p) => {
            assert_eq!(p.text, "Applying..");
            assert_eq!(p.title, " ktree ");
            assert_eq!(p.tone, Tone::Yellow);
            assert_eq!(p.border, Border::Rounded);
        }
        other => panic!("unexpected {other:?}"),
    }
    let mut k = ktree();
    k.update(Action::KtreeResult(KtreeStatus::Success("subject".to_string())));
    match k.draw_plan(80, 24) {
        KtreeDraw::Shown(p) => {
            assert_eq!(p.text, "[ok] subject");
            assert_eq!(p.tone, Tone::Green);
        }
        other => panic!("unexpected {other:?}"),
    }
}

#[test]
fn ktree_draw_plan_wraps_long_errors() {
    let mut k = ktree();
    let err = format!("{}\n\nshort", "e".repeat(100));
    k.update(Action::KtreeResult(KtreeStatus::Failed(err)));
    // width 50, inner 48: 100 bytes take 3 rows, the empty line 1, "short" 1.
    match k.draw_plan(100, 40) {
        KtreeDraw::Shown(p) => assert_eq!(p.height, 7),
        other => panic!("unexpected {other:?}"),
    }
    match k.draw_plan(100, 6) {
        KtreeDraw::Shown(p) => assert_eq!(p.height, 4),
        other => panic!("unexpected {other:?}"),
    }
}

#[test]
fn apply_outcome_reports() {
    let ok = ProgramRun::Exited { success: true, stderr: vec![] };
    assert_eq!(
        apply_outcome(ok.clone(), Some(b"Add hello.txt\n".to_vec())),
        KtreeStatus::Success("Add hello.txt".to_string())
    );
    assert_eq!(apply_outcome(ok, None), KtreeStatus::Success("applied".to_string()));
    let failed = ProgramRun::Exited {
        success: false,
        stderr: b"error: patch failed: hello.txt:1\n".to_vec(),
    };
    assert_eq!(
        apply_outcome(failed, None),
        KtreeStatus::Failed("error: patch failed: hello.txt:1".to_string())
    );
    assert_eq!(
        apply_outcome(ProgramRun::Unstarted("No such file or directory".to_string()), None),
        KtreeStatus::Failed("execution: No such file or directory".to_string())
    );
}

#[test]
fn apply_outcome_replaces_invalid_utf8() {
    let failed = ProgramRun::Exited { success: false, stderr: vec![b'a', 0xff, b'b'] };
    assert_eq!(apply_outcome(failed, None), KtreeStatus::Failed("a\u{FFFD}b".to_string()));
}

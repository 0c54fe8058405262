use patch_hub::action::Action;
use patch_hub::components::lei::{
    fetch_finished, fetch_started, Lei, LeiTone, LeiUpdate, LocalMode, MAX_NOTIFICATION_TICKS,
};
use patch_hub::components::{patchsets, Key};

fn lei() -> Lei {
    Lei::new("lore.kernel.org".to_string(), "amd-gfx".to_string(), "s:patch".to_string())
}

#[test]
fn lei_key_fetch_only_when_idle() {
    let mut l = lei();
    assert_eq!(l.handle_key_event(Key::Char('f')), Some(Action::LeiFetchPatchsets));
    assert_eq!(l.handle_key_event(Key::Char('g')), None);
    assert_eq!(l.update(Action::LeiFetchPatchsets), LeiUpdate::Fetch);
    l.update(Action::LeiSetMode(LocalMode::Processing));
    assert_eq!(l.handle_key_event(Key::Char('f')), None);
}

#[test]
fn lei_spinner_while_processing() {
    let mut l = lei();
    l.update(Action::Tick);
    assert_eq!(l.spinner(), 0);
    l.update(Action::LeiSetMode(LocalMode::Processing));
    let mut seen = Vec::new();
    for _ in 0..5 {
        assert_eq!(l.update(Action::Tick), LeiUpdate::Nothing);
        seen.push(l.spinner());
    }
    assert_eq!(seen, vec![1, 2, 3, 0, 1]);
}

#[test]
fn lei_finished_notice_expires() {
    let mut l = lei();
    l.update(Action::LeiSetMode(LocalMode::Processing));
    l.update(Action::LeiSetMode(LocalMode::ExitingProcessing));
    for _ in 0..MAX_NOTIFICATION_TICKS - 1 {
        assert_eq!(l.update(Action::Tick), LeiUpdate::Nothing);
    }
    assert_eq!(l.update(Action::Tick), LeiUpdate::Emit(Action::LeiSetMode(LocalMode::Idle)));
    assert_eq!(l.local_mode(), LocalMode::ExitingProcessing);
    assert_eq!(l.notification_ticks(), 0);
    l.update(Action::LeiSetMode(LocalMode::Idle));
    assert_eq!(l.local_mode(), LocalMode::Idle);
}

#[test]
fn lei_panels() {
    let mut l = lei();
    let p = l.panels();
    assert_eq!(p.target, "lore.kernel.org/amd-gfx");
    assert_eq!(p.query, "s:patch");
    assert_eq!(p.status, "Idle");
    assert_eq!(p.status_tone, LeiTone::Cyan);
    l.update(Action::LeiSetMode(LocalMode::Processing));
    l.update(Action::Tick);
    let p = l.panels();
    assert_eq!(p.status, "Processing.");
    assert_eq!(p.status_tone, LeiTone::Yellow);
    l.update(Action::LeiSetMode(LocalMode::ExitingProcessing));
    assert_eq!(l.panels().status, "Finished processing!");
}

#[test]
fn lei_fetch_arguments() {
    let l = lei();
    assert_eq!(
        l.fetch_args(),
        vec![
            "q",
            "--only=https://lore.kernel.org/amd-gfx/",
            "--no-local",
            "--threads",
            "--dedupe=mid",
            "s:patch"
        ]
    );
}

#[test]
fn lei_fetch_reports() {
    assert_eq!(
        fetch_started(),
        vec![
            Action::LeiSetMode(LocalMode::Processing),
            Action::PatchsetsSetMode(patchsets::LocalMode::Processing)
        ]
    );
    assert_eq!(
        fetch_finished(true, true, "/data/amd-gfx.json".to_string()),
        vec![
            Action::PatchsetsList("/data/amd-gfx.json".to_string()),
            Action::LeiSetMode(LocalMode::ExitingProcessing)
        ]
    );
    assert_eq!(
        fetch_finished(true, false, "/data/amd-gfx.json".to_string()),
        vec![Action::LeiSetMode(LocalMode::ExitingProcessing)]
    );
    assert_eq!(
        fetch_finished(false, true, "/data/amd-gfx.json".to_string()),
        vec![Action::LeiSetMode(LocalMode::ExitingProcessing)]
    );
}

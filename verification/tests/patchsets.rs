use patch_hub::action::{Action, KtreeStatus};
use patch_hub::components::patchsets::{
    download_outcome, DownloadRun, ListLoad, LocalMode, Message, Node, Patchsets, PatchsetsKey,
    PatchsetsTask,
};
use patch_hub::components::Key;

fn msg(id: &str, dt: &str, refs: Option<&[&str]>, subject: &str, name: Option<&str>) -> Message {
    Message {
        m_id: id.to_string(),
        date_time: dt.to_string(),
        refs: refs.map(|r| r.iter().map(|s| s.to_string()).collect()),
        subject: subject.to_string(),
        from: vec![vec![name.map(|n| n.to_string()), Some(format!("{id}@example.org"))]],
    }
}

fn sample() -> Vec<Message> {
    vec![
        msg("a", "2024-01-01T00:00:00Z", None, "[PATCH 0/2] series", Some("Alice")),
        msg("b", "2024-01-03T00:00:00Z", Some(&["a"]), "Re: series", Some("Bob")),
        msg("c", "2024-01-02T00:00:00Z", Some(&["a"]), "[PATCH 1/2] one", Some("Alice")),
        msg("d", "2024-01-02T12:00:00Z", None, "[PATCH] lone", None),
        msg("e", "2024-01-05T00:00:00Z", Some(&["a", "b"]), "Re: Re: series", Some("Carol")),
    ]
}

fn node(id: &str, dt: &str) -> Node {
    Node { m_id: id.to_string(), last_updated: dt.to_string() }
}

fn listed() -> Patchsets {
    let mut p = Patchsets::new("lore.kernel.org".to_string());
    assert_eq!(
        p.update(Action::PatchsetsList("/data/amd-gfx.json".to_string())),
        Some(PatchsetsTask::LoadList("/data/amd-gfx.json".to_string()))
    );
    p.prepare_list(sample());
    p
}

#[test]
fn patchsets_list_is_latest_first() {
    let p = listed();
    assert_eq!(p.local_mode(), LocalMode::Listing);
    assert_eq!(p.list_index(), 0);
    assert_eq!(
        *p.roots(),
        vec![node("a", "2024-01-05T00:00:00Z"), node("d", "2024-01-02T12:00:00Z")]
    );
    assert_eq!(
        p.list_lines(),
        Some(vec![
            "[PATCH 0/2] series | Alice <a@example.org>".to_string(),
            "[PATCH] lone | null <d@example.org>".to_string(),
        ])
    );
}

#[test]
fn patchsets_thread_reads_oldest_reply_first() {
    let mut p = listed();
    assert_eq!(p.handle_key_event(Key::Enter), PatchsetsKey::Emit(Action::PatchsetsThread));
    assert!(p.accepts(&Action::PatchsetsThread));
    assert_eq!(p.update(Action::PatchsetsThread), None);
    assert_eq!(p.local_mode(), LocalMode::Thread);
    assert_eq!(
        *p.thread(),
        vec![
            (0, "a".to_string()),
            (1, "c".to_string()),
            (1, "b".to_string()),
            (2, "e".to_string())
        ]
    );
    assert_eq!(
        p.thread_lines(),
        Some(vec![
            "[PATCH 0/2] series | Alice <a@example.org>".to_string(),
            "  \u{21B3} [PATCH 1/2] one | Alice <c@example.org>".to_string(),
            "  \u{21B3} Re: series | Bob <b@example.org>".to_string(),
            "    \u{21B3} Re: Re: series | Carol <e@example.org>".to_string(),
        ])
    );
    assert_eq!(
        p.handle_key_event(Key::Esc),
        PatchsetsKey::Emit(Action::PatchsetsSetMode(LocalMode::Listing))
    );
    p.update(Action::PatchsetsSetMode(LocalMode::Listing));
    assert_eq!(p.local_mode(), LocalMode::Listing);
}

#[test]
fn patchsets_navigation_stays_in_bounds() {
    let mut p = listed();
    assert_eq!(p.handle_key_event(Key::Char('j')), PatchsetsKey::Emit(Action::PatchsetsAddIndex));
    assert_eq!(p.handle_key_event(Key::Char('k')), PatchsetsKey::Emit(Action::PatchsetsSubIndex));
    p.update(Action::PatchsetsAddIndex);
    assert_eq!(p.list_index(), 1);
    p.update(Action::PatchsetsAddIndex);
    assert_eq!(p.list_index(), 1);
    p.update(Action::PatchsetsThread);
    assert_eq!(*p.thread(), vec![(0, "d".to_string())]);
    p.update(Action::PatchsetsAddIndex);
    assert_eq!(p.thread_index(), 0);
    p.update(Action::PatchsetsSetMode(LocalMode::Listing));
    p.update(Action::PatchsetsSubIndex);
    assert_eq!(p.list_index(), 0);
    p.update(Action::PatchsetsSubIndex);
    assert_eq!(p.list_index(), 0);
}

#[test]
fn patchsets_download_one_at_a_time() {
    let mut p = listed();
    p.update(Action::PatchsetsThread);
    p.update(Action::PatchsetsAddIndex);
    p.update(Action::PatchsetsAddIndex);
    assert_eq!(p.thread_index(), 2);
    assert_eq!(p.handle_key_event(Key::Char('a')), PatchsetsKey::Download("b".to_string()));
    assert!(p.applying());
    assert_eq!(p.handle_key_event(Key::Char('a')), PatchsetsKey::Nothing);
    p.update(Action::KtreeResult(KtreeStatus::Failed("x".to_string())));
    assert!(!p.applying());
    assert_eq!(p.download_url("b"), "https://lore.kernel.org/all/b/raw");
}

#[test]
fn patchsets_keys_ignored_while_idle() {
    let mut p = Patchsets::new("lore.kernel.org".to_string());
    assert_eq!(p.handle_key_event(Key::Char('j')), PatchsetsKey::Nothing);
    assert_eq!(p.handle_key_event(Key::Enter), PatchsetsKey::Nothing);
    assert!(!p.accepts(&Action::PatchsetsThread));
    p.update(Action::PatchsetsSetMode(LocalMode::Listing));
    assert!(!p.accepts(&Action::PatchsetsAddIndex));
    assert!(p.accepts(&Action::PatchsetsSubIndex));
}

#[test]
fn patchsets_reload_clears_list() {
    let mut p = listed();
    p.update(Action::PatchsetsAddIndex);
    p.update(Action::PatchsetsList("/data/x.json".to_string()));
    assert!(p.roots().is_empty());
    assert_eq!(p.list_index(), 0);
    p.prepare_list(vec![msg("z", "2023", None, "only", Some("Zed"))]);
    assert_eq!(*p.roots(), vec![node("z", "2023")]);
}

#[test]
fn patchsets_duplicate_ids_and_unknown_parents() {
    // A reply to a message that is not in the result is not listed; of two
    // messages with one id the later one is used.
    let msgs = vec![
        msg("r", "2024-03-01", None, "first", Some("A")),
        msg("x", "2024-03-09", Some(&["missing"]), "orphan", Some("B")),
        msg("r", "2024-03-02", None, "second", Some("C")),
    ];
    let mut p = Patchsets::new("lore.kernel.org".to_string());
    p.prepare_list(msgs);
    assert_eq!(*p.roots(), vec![node("r", "2024-03-02"), node("r", "2024-03-02")]);
    assert_eq!(
        p.list_lines(),
        Some(vec!["second | C <r@example.org>".to_string(), "second | C <r@example.org>".to_string()])
    );
}

#[test]
fn patchsets_lines_need_an_author_address() {
    let mut bad = msg("q", "2024", None, "no author", Some("Q"));
    bad.from = vec![vec![Some("Q".to_string())]];
    let mut p = Patchsets::new("lore.kernel.org".to_string());
    p.prepare_list(vec![bad]);
    assert_eq!(p.list_lines(), None);
}

#[test]
fn download_outcome_reports() {
    assert_eq!(
        download_outcome(DownloadRun::Fetched, "/tmp/p.mbox".to_string()),
        (Action::KtreeApply("/tmp/p.mbox".to_string()), false)
    );
    assert_eq!(
        download_outcome(DownloadRun::Refused("exit status: 22".to_string()), "/tmp/p.mbox".to_string()),
        (
            Action::KtreeResult(KtreeStatus::Failed("download failed: HTTP exit status: 22".to_string())),
            true
        )
    );
    assert_eq!(
        download_outcome(DownloadRun::Unstarted("not found".to_string()), "/tmp/p.mbox".to_string()),
        (Action::KtreeResult(KtreeStatus::Failed("download failed: not found".to_string())), true)
    );
}

#[test]
fn patchsets_load_list_builds() {
    let mut p = Patchsets::new("lore.kernel.org".to_string());
    assert_eq!(p.load_list(sample()), ListLoad::Built);
    assert_eq!(p.local_mode(), LocalMode::Listing);
    assert_eq!(p.roots().len(), 2);
}

#[test]
fn patchsets_load_list_refuses_empty_references() {
    let mut p = listed();
    let msgs = vec![
        msg("a", "2024", None, "root", Some("A")),
        msg("b", "2024", Some(&[]), "empty refs", Some("B")),
    ];
    assert_eq!(p.load_list(msgs), ListLoad::EmptyReference);
    assert_eq!(p.roots().len(), 2);
    assert_eq!(p.roots()[0].m_id, "a");
}

#[test]
fn patchsets_load_list_refuses_endless_threads() {
    // Two messages with id "a": the second replies to "b", which replies
    // to "a", so the thread from the first comes back to itself.
    let msgs = vec![
        msg("a", "2024-01-01", None, "root", Some("A")),
        msg("b", "2024-01-02", Some(&["a"]), "reply", Some("B")),
        msg("a", "2024-01-03", Some(&["b"]), "loop", Some("C")),
    ];
    let mut p = Patchsets::new("lore.kernel.org".to_string());
    assert_eq!(p.load_list(msgs), ListLoad::EndlessThread);
    assert!(p.roots().is_empty());
    assert_eq!(p.local_mode(), LocalMode::Idle);
    // Without a root the same loop is never walked.
    let msgs = vec![
        msg("b", "2024-01-02", Some(&["a"]), "reply", Some("B")),
        msg("a", "2024-01-03", Some(&["b"]), "loop", Some("C")),
    ];
    assert_eq!(p.load_list(msgs), ListLoad::Built);
    assert!(p.roots().is_empty());
}

//! Fetching a query's threads with `lei`, and the panels that show the
//! target, the query and the fetch's progress.

use vstd::prelude::*;

use crate::action::Action;
use crate::components::{patchsets, spinner_frame, spinner_text, Key, SPINNER_LEN};

verus! {

/// Ticks that the "finished" notice stays on screen.
pub const MAX_NOTIFICATION_TICKS: usize = 8;

/// Where a fetch stands: none, under way, or just finished.
#[derive(Clone, Copy, Debug, PartialEq, Eq, Structural)]
pub enum LocalMode {
    Idle,
    Processing,
    ExitingProcessing,
}

/// The fetching component.
pub struct Lei {
    local_mode: LocalMode,
    spinner: usize,
    notification_ticks: usize,
    domain: String,
    list: String,
    query: String,
}

/// The state of a `Lei`, as its contracts speak of it.
pub ghost struct LeiView {
    pub mode: LocalMode,
    pub spinner: nat,
    pub ticks: nat,
    pub domain: Seq<char>,
    pub list: Seq<char>,
    pub query: Seq<char>,
}

impl LeiView {
    /// The spinner points at a frame and the notice has not outlived its time.
    pub open spec fn inv(self) -> bool {
        &&& self.spinner < SPINNER_LEN
        &&& self.ticks < MAX_NOTIFICATION_TICKS
    }
}

impl View for Lei {
    type V = LeiView;

    closed spec fn view(&self) -> LeiView {
        LeiView {
            mode: self.local_mode,
            spinner: self.spinner as nat,
            ticks: self.notification_ticks as nat,
            domain: self.domain@,
            list: self.list@,
            query: self.query@,
        }
    }
}

/// What an update leads to.
#[derive(Debug, Clone, PartialEq, Eq)]
pub enum LeiUpdate {
    Nothing,
    Emit(Action),
    /// Start fetching the query's threads.
    Fetch,
}

/// The state after `a`, and what it leads to.
pub open spec fn lei_step(s: LeiView, a: Action) -> (LeiView, LeiUpdate) {
    match a {
        Action::Tick => if s.mode == LocalMode::ExitingProcessing {
            if s.ticks + 1 >= MAX_NOTIFICATION_TICKS {
                (
                    LeiView { ticks: 0, ..s },
                    LeiUpdate::Emit(Action::LeiSetMode(LocalMode::Idle)),
                )
            } else {
                (LeiView { ticks: s.ticks + 1, ..s }, LeiUpdate::Nothing)
            }
        } else if s.mode != LocalMode::Idle {
            (
                LeiView {
                    spinner: if s.spinner + 1 >= SPINNER_LEN {
                        0
                    } else {
                        s.spinner + 1
                    },
                    ..s
                },
                LeiUpdate::Nothing,
            )
        } else {
            (s, LeiUpdate::Nothing)
        },
        Action::LeiSetMode(mode) => match mode {
            LocalMode::Idle => (LeiView { mode, ..s }, LeiUpdate::Nothing),
            LocalMode::Processing => (LeiView { spinner: 0, mode, ..s }, LeiUpdate::Nothing),
            LocalMode::ExitingProcessing => (LeiView { ticks: 0, mode, ..s }, LeiUpdate::Nothing),
        },
        Action::LeiFetchPatchsets => (s, LeiUpdate::Fetch),
        _ => (s, LeiUpdate::Nothing),
    }
}

/// Colour of the status panel.
#[derive(Clone, Copy, Debug, PartialEq, Eq, Structural)]
pub enum LeiTone {
    Cyan,
    Yellow,
}

/// The texts of the three panels, and the status panel's colour.
#[derive(Debug, Clone, PartialEq, Eq)]
pub struct LeiPanels {
    pub target: String,
    pub query: String,
    pub status: String,
    pub status_tone: LeiTone,
}

pub open spec fn status_text(s: LeiView) -> Seq<char> {
    match s.mode {
        LocalMode::Idle => "Idle"@,
        LocalMode::Processing => "Processing"@ + spinner_text(s.spinner),
        LocalMode::ExitingProcessing => "Finished processing!"@,
    }
}

pub open spec fn status_tone(mode: LocalMode) -> LeiTone {
    match mode {
        LocalMode::Processing => LeiTone::Yellow,
        _ => LeiTone::Cyan,
    }
}

/// The `--only` argument: the list's address on the Lore instance.
pub open spec fn only_arg(s: LeiView) -> Seq<char> {
    "--only=https://"@ + s.domain + "/"@ + s.list + "/"@
}

impl Lei {
    /// A component that queries `list` on the Lore instance `domain`.
    pub fn new(domain: String, list: String, query: String) -> (r: Lei)
        ensures
            r@ == (LeiView {
                mode: LocalMode::Idle,
                spinner: 0,
                ticks: 0,
                domain: domain@,
                list: list@,
                query: query@,
            }),
            r@.inv(),
    {
        Lei {
            local_mode: LocalMode::Idle,
            spinner: 0,
            notification_ticks: 0,
            domain,
            list,
            query,
        }
    }

    pub fn local_mode(&self) -> (r: LocalMode)
        ensures
            r == self@.mode,
    {
        self.local_mode
    }

    pub fn spinner(&self) -> (r: usize)
        ensures
            r == self@.spinner,
    {
        self.spinner
    }

    pub fn notification_ticks(&self) -> (r: usize)
        ensures
            r == self@.ticks,
    {
        self.notification_ticks
    }

    pub fn list(&self) -> (r: &str)
        ensures
            r@ == self@.list,
    {
        self.list.as_str()
    }

    /// `f` starts a fetch while idle.
    pub fn handle_key_event(&self, key: Key) -> (r: Option<Action>)
        ensures
            r == (if self@.mode == LocalMode::Idle && key == Key::Char('f') {
                Some(Action::LeiFetchPatchsets)
            } else {
                None
            }),
    {
        match self.local_mode {
            LocalMode::Idle => match key {
                Key::Char('f') => Some(Action::LeiFetchPatchsets),
                _ => None,
            },
            _ => None,
        }
    }

    /// Takes `action` into account; returns what it leads to.
    pub fn update(&mut self, action: Action) -> (r: LeiUpdate)
        requires
            old(self)@.inv(),
        ensures
            (final(self)@, r) == lei_step(old(self)@, action),
            final(self)@.inv(),
    {
        match action {
            Action::Tick => {
                if self.local_mode == LocalMode::ExitingProcessing {
                    self.notification_ticks = self.notification_ticks + 1;
                    if self.notification_ticks >= MAX_NOTIFICATION_TICKS {
                        self.notification_ticks = 0;
                        return LeiUpdate::Emit(Action::LeiSetMode(LocalMode::Idle));
                    }
                } else if self.local_mode != LocalMode::Idle {
                    self.spinner = self.spinner + 1;
                    if self.spinner >= SPINNER_LEN {
                        self.spinner = 0;
                    }
                }
                LeiUpdate::Nothing
            },
            Action::LeiSetMode(mode) => {
                match mode {
                    LocalMode::Idle => self.local_mode = mode,
                    LocalMode::Processing => {
                        self.spinner = 0;
                        self.local_mode = LocalMode::Processing;
                    },
                    LocalMode::ExitingProcessing => {
                        self.notification_ticks = 0;
                        self.local_mode = LocalMode::ExitingProcessing;
                    },
                }
                LeiUpdate::Nothing
            },
            Action::LeiFetchPatchsets => LeiUpdate::Fetch,
            _ => LeiUpdate::Nothing,
        }
    }

    /// The panels' texts: the target as `domain/list`, the query, and the
    /// fetch's status.
    pub fn panels(&self) -> (r: LeiPanels)
        requires
            self@.inv(),
        ensures
            r.target@ == self@.domain + "/"@ + self@.list,
            r.query@ == self@.query,
            r.status@ == status_text(self@),
            r.status_tone == status_tone(self@.mode),
    {
        let mut target = self.domain.clone();
        target.append("/");
        target.append(self.list.as_str());
        let status = match self.local_mode {
            LocalMode::Idle => String::from_str("Idle"),
            LocalMode::Processing => {
                let mut t = String::from_str("Processing");
                t.append(spinner_frame(self.spinner));
                t
            },
            LocalMode::ExitingProcessing => String::from_str("Finished processing!"),
        };
        let status_tone = match self.local_mode {
            LocalMode::Processing => LeiTone::Yellow,
            _ => LeiTone::Cyan,
        };
        LeiPanels { target, query: self.query.clone(), status, status_tone }
    }

    /// The arguments of `lei` for a fetch: query the list on the Lore
    /// instance only, whole threads, one copy of each message.
    pub fn fetch_args(&self) -> (r: Vec<String>)
        ensures
            r@.len() == 6,
            r@[0]@ == "q"@,
            r@[1]@ == only_arg(self@),
            r@[2]@ == "--no-local"@,
            r@[3]@ == "--threads"@,
            r@[4]@ == "--dedupe=mid"@,
            r@[5]@ == self@.query,
    {
        let mut only = String::from_str("--only=https://");
        only.append(self.domain.as_str());
        only.append("/");
        only.append(self.list.as_str());
        only.append("/");
        let mut r: Vec<String> = Vec::new();
        r.push(String::from_str("q"));
        r.push(only);
        r.push(String::from_str("--no-local"));
        r.push(String::from_str("--threads"));
        r.push(String::from_str("--dedupe=mid"));
        r.push(self.query.clone());
        r
    }
}

/// What a fetch reports as it starts: this component and the list are busy.
pub fn fetch_started() -> (r: Vec<Action>)
    ensures
        r@ == seq![
            Action::LeiSetMode(LocalMode::Processing),
            Action::PatchsetsSetMode(patchsets::LocalMode::Processing),
        ],
{
    let mut r: Vec<Action> = Vec::new();
    r.push(Action::LeiSetMode(LocalMode::Processing));
    r.push(Action::PatchsetsSetMode(patchsets::LocalMode::Processing));
    r
}

/// What a fetch reports as it ends: where the output file was created and
/// `lei` could be started, the list is built from `json_path`; either way
/// the fetch is over.
pub fn fetch_finished(output_created: bool, lei_started: bool, json_path: String) -> (r: Vec<
    Action,
>)
    ensures
        output_created && lei_started ==> r@ == seq![
            Action::PatchsetsList(json_path),
            Action::LeiSetMode(LocalMode::ExitingProcessing),
        ],
        !(output_created && lei_started) ==> r@ == seq![
            Action::LeiSetMode(LocalMode::ExitingProcessing),
        ],
{
    let mut r: Vec<Action> = Vec::new();
    if output_created && lei_started {
        r.push(Action::PatchsetsList(json_path));
    }
    r.push(Action::LeiSetMode(LocalMode::ExitingProcessing));
    r
}


/// The state after `n` ticks, and what each tick led to.
pub open spec fn lei_ticks(s: LeiView, n: nat) -> (LeiView, Seq<LeiUpdate>)
    decreases n,
{
    if n == 0 {
        (s, seq![])
    } else {
        let (t, u) = lei_step(s, Action::Tick);
        let (end, rest) = lei_ticks(t, (n - 1) as nat);
        (end, seq![u] + rest)
    }
}

/// The "finished" notice asks to go idle at its
/// `MAX_NOTIFICATION_TICKS`-th tick, and not before; until that request is
/// taken into account the component keeps showing it.
pub proof fn lemma_finished_notice_expires(s: LeiView)
    requires
        s.mode == LocalMode::ExitingProcessing,
        s.ticks < MAX_NOTIFICATION_TICKS,
    ensures
        lei_ticks(s, (MAX_NOTIFICATION_TICKS - s.ticks) as nat).0 == (LeiView { ticks: 0, ..s }),
        lei_ticks(s, (MAX_NOTIFICATION_TICKS - s.ticks) as nat).1 == Seq::new(
            (MAX_NOTIFICATION_TICKS - s.ticks - 1) as nat,
            |i: int| LeiUpdate::Nothing,
        ).push(LeiUpdate::Emit(Action::LeiSetMode(LocalMode::Idle))),
    decreases MAX_NOTIFICATION_TICKS - s.ticks,
{
    let (t, u) = lei_step(s, Action::Tick);
    if s.ticks + 1 < MAX_NOTIFICATION_TICKS {
        assert(t == LeiView { ticks: s.ticks + 1, ..s });
        lemma_finished_notice_expires(t);
        let n = (MAX_NOTIFICATION_TICKS - s.ticks) as nat;
        assert(lei_ticks(s, n).1 == seq![u] + lei_ticks(t, (n - 1) as nat).1);
        assert(lei_ticks(s, n).1 =~= Seq::new(
            (MAX_NOTIFICATION_TICKS - s.ticks - 1) as nat,
            |i: int| LeiUpdate::Nothing,
        ).push(LeiUpdate::Emit(Action::LeiSetMode(LocalMode::Idle))));
    } else {
        assert(lei_ticks(t, 0) == (t, Seq::<LeiUpdate>::empty()));
        assert(lei_ticks(s, 1).1 =~= Seq::new(0, |i: int| LeiUpdate::Nothing).push(
            LeiUpdate::Emit(Action::LeiSetMode(LocalMode::Idle)),
        ));
    }
}

/// Every update keeps the invariant; only `LeiFetchPatchsets` starts a
/// fetch, and it changes nothing else.
pub proof fn lemma_lei_fetch(s: LeiView, a: Action)
    requires
        s.inv(),
    ensures
        lei_step(s, a).0.inv(),
        lei_step(s, a).1 == LeiUpdate::Fetch <==> a == Action::LeiFetchPatchsets,
        a == Action::LeiFetchPatchsets ==> lei_step(s, a).0 == s,
{
}

} // verus!

//! Applying a downloaded patch series to the local kernel tree, and the
//! notice that reports how it went.

use vstd::prelude::*;

use crate::action::{Action, KtreeStatus};
use crate::components::{spinner_frame, spinner_text, Key, SPINNER_LEN};
use crate::text::{
    expand_tilde, lossy_utf8, rows_sum, text_lines, tilde_expanded, trim, trimmed, utf8_lossy,
    wrapped_rows,
};

verus! {

/// Ticks that a success notice stays on screen.
pub const MAX_NOTIFICATION_TICKS: usize = 30;

/// Where an application stands: nothing to show, applying, a success or
/// failure notice, or aborting.
#[derive(Clone, Copy, Debug, PartialEq, Eq, Structural)]
pub enum LocalMode {
    Idle,
    Applying,
    Success,
    Failed,
    Aborting,
}

/// The kernel tree component.
pub struct Ktree {
    local_mode: LocalMode,
    status_message: String,
    kernel_tree_path: String,
    spinner: usize,
    notification_ticks: usize,
    patch_apply_in_progress: bool,
}

/// The state of a `Ktree`, as its contracts speak of it.
pub ghost struct KtreeView {
    pub mode: LocalMode,
    pub message: Seq<char>,
    pub tree_path: Seq<char>,
    pub spinner: nat,
    pub ticks: nat,
    pub in_progress: bool,
}

impl KtreeView {
    /// The spinner points at a frame and a notice has not outlived its time.
    pub open spec fn inv(self) -> bool {
        &&& self.spinner < SPINNER_LEN
        &&& self.ticks < MAX_NOTIFICATION_TICKS
    }
}

impl View for Ktree {
    type V = KtreeView;

    closed spec fn view(&self) -> KtreeView {
        KtreeView {
            mode: self.local_mode,
            message: self.status_message@,
            tree_path: self.kernel_tree_path@,
            spinner: self.spinner as nat,
            ticks: self.notification_ticks as nat,
            in_progress: self.patch_apply_in_progress,
        }
    }
}

/// Outside work that an update asks for.
#[derive(Debug, Clone, PartialEq, Eq)]
pub enum KtreeTask {
    /// Run `git am` on the mailbox file at this path.
    Apply(String),
    /// Run `git am --abort`.
    Abort,
}

pub open spec fn abort_notice() -> Seq<char> {
    "git am --abort: patch reverted"@
}

/// The state after `a`, and the outside work it asks for.
pub open spec fn ktree_step(s: KtreeView, a: Action) -> (KtreeView, Option<KtreeTask>) {
    match a {
        Action::Tick => match s.mode {
            LocalMode::Success => if s.ticks + 1 >= MAX_NOTIFICATION_TICKS {
                (KtreeView { ticks: 0, mode: LocalMode::Idle, message: seq![], ..s }, None)
            } else {
                (KtreeView { ticks: s.ticks + 1, ..s }, None)
            },
            LocalMode::Applying | LocalMode::Aborting => (
                KtreeView { spinner: ((s.spinner + 1) % (SPINNER_LEN as nat)) as nat, ..s },
                None,
            ),
            _ => (s, None),
        },
        Action::KtreeApply(mbox_path) => if s.mode == LocalMode::Idle || s.mode
            == LocalMode::Applying {
            (
                KtreeView { mode: LocalMode::Applying, in_progress: true, ..s },
                Some(KtreeTask::Apply(mbox_path)),
            )
        } else {
            (s, None)
        },
        Action::KtreeSetMode(mode) => (KtreeView { mode, spinner: 0, ..s }, None),
        Action::KtreeResult(outcome) => match outcome {
            KtreeStatus::Success(subject) => (
                KtreeView {
                    ticks: 0,
                    mode: LocalMode::Success,
                    message: subject@,
                    in_progress: false,
                    ..s
                },
                None,
            ),
            KtreeStatus::Failed(err) => (
                KtreeView { ticks: 0, mode: LocalMode::Failed, message: err@, ..s },
                None,
            ),
            KtreeStatus::Aborted => (
                KtreeView {
                    ticks: 0,
                    mode: LocalMode::Success,
                    message: abort_notice(),
                    in_progress: false,
                    ..s
                },
                None,
            ),
        },
        Action::KtreeAbort => if s.mode == LocalMode::Failed {
            if s.in_progress {
                (s, Some(KtreeTask::Abort))
            } else {
                (KtreeView { mode: LocalMode::Idle, message: seq![], ..s }, None)
            }
        } else {
            (s, None)
        },
        _ => (s, None),
    }
}

pub open spec fn opt_str_view(o: Option<String>) -> Option<Seq<char>> {
    match o {
        Some(s) => Some(s@),
        None => None,
    }
}

impl Ktree {
    /// A component for the kernel tree at `kernel_tree`, where a leading
    /// `~/` stands for the home directory `home`.
    pub fn new(kernel_tree: String, home: Option<String>) -> (r: Ktree)
        ensures
            r@ == (KtreeView {
                mode: LocalMode::Idle,
                message: seq![],
                tree_path: tilde_expanded(kernel_tree@, opt_str_view(home)),
                spinner: 0,
                ticks: 0,
                in_progress: false,
            }),
            r@.inv(),
    {
        let path = match &home {
            Some(h) => expand_tilde(kernel_tree.as_str(), Some(h.as_str())),
            None => expand_tilde(kernel_tree.as_str(), None),
        };
        Ktree {
            local_mode: LocalMode::Idle,
            status_message: String::new(),
            kernel_tree_path: path,
            spinner: 0,
            notification_ticks: 0,
            patch_apply_in_progress: false,
        }
    }

    pub fn local_mode(&self) -> (r: LocalMode)
        ensures
            r == self@.mode,
    {
        self.local_mode
    }

    pub fn status_message(&self) -> (r: &str)
        ensures
            r@ == self@.message,
    {
        self.status_message.as_str()
    }

    pub fn kernel_tree_path(&self) -> (r: &str)
        ensures
            r@ == self@.tree_path,
    {
        self.kernel_tree_path.as_str()
    }

    pub fn spinner(&self) -> (r: usize)
        ensures
            r == self@.spinner,
    {
        self.spinner
    }

    pub fn notification_ticks(&self) -> (r: usize)
        ensures
            r == self@.ticks,
    {
        self.notification_ticks
    }

    pub fn patch_apply_in_progress(&self) -> (r: bool)
        ensures
            r == self@.in_progress,
    {
        self.patch_apply_in_progress
    }

    /// `x` asks to abort a failed application.
    pub fn handle_key_event(&self, key: Key) -> (r: Option<Action>)
        ensures
            r == (if key == Key::Char('x') && self@.mode == LocalMode::Failed {
                Some(Action::KtreeAbort)
            } else {
                None
            }),
    {
        match key {
            Key::Char('x') if self.local_mode == LocalMode::Failed => Some(Action::KtreeAbort),
            _ => None,
        }
    }

    /// Takes `action` into account; returns the outside work it asks for.
    pub fn update(&mut self, action: Action) -> (task: Option<KtreeTask>)
        requires
            old(self)@.inv(),
        ensures
            (final(self)@, task) == ktree_step(old(self)@, action),
            final(self)@.inv(),
    {
        match action {
            Action::Tick => match self.local_mode {
                LocalMode::Success => {
                    self.notification_ticks = self.notification_ticks + 1;
                    if self.notification_ticks >= MAX_NOTIFICATION_TICKS {
                        self.notification_ticks = 0;
                        self.local_mode = LocalMode::Idle;
                        self.status_message = String::new();
                    }
                    None
                },
                LocalMode::Applying | LocalMode::Aborting => {
                    self.spinner = (self.spinner + 1) % SPINNER_LEN;
                    None
                },
                _ => None,
            },
            Action::KtreeApply(mbox_path) => {
                if self.local_mode == LocalMode::Idle || self.local_mode == LocalMode::Applying {
                    self.local_mode = LocalMode::Applying;
                    self.patch_apply_in_progress = true;
                    Some(KtreeTask::Apply(mbox_path))
                } else {
                    None
                }
            },
            Action::KtreeSetMode(mode) => {
                self.local_mode = mode;
                self.spinner = 0;
                None
            },
            Action::KtreeResult(outcome) => {
                self.notification_ticks = 0;
                match outcome {
                    KtreeStatus::Success(subject) => {
                        self.local_mode = LocalMode::Success;
                        self.status_message = subject;
                        self.patch_apply_in_progress = false;
                    },
                    KtreeStatus::Failed(err) => {
                        self.local_mode = LocalMode::Failed;
                        self.status_message = err;
                    },
                    KtreeStatus::Aborted => {
                        self.local_mode = LocalMode::Success;
                        self.patch_apply_in_progress = false;
                        self.notification_ticks = 0;
                        self.status_message = String::from_str("git am --abort: patch reverted");
                    },
                }
                None
            },
            Action::KtreeAbort => {
                if self.local_mode == LocalMode::Failed {
                    if self.patch_apply_in_progress {
                        Some(KtreeTask::Abort)
                    } else {
                        self.local_mode = LocalMode::Idle;
                        self.status_message = String::new();
                        None
                    }
                } else {
                    None
                }
            },
            _ => None,
        }
    }

    /// What to draw in an area `area_width` by `area_height` cells: nothing
    /// while idle with no message; `Overflow` where sizing the notice in
    /// 16-bit cell counts overflows; else the notice in the top right.
    pub fn draw_plan(&self, area_width: u16, area_height: u16) -> (r: KtreeDraw)
        requires
            self@.inv(),
        ensures
            r is Hidden <==> popup_hidden(self@),
            !popup_hidden(self@) ==> (r is Overflow <==> popup_overflows(self@, area_width as int)),
            r matches KtreeDraw::Shown(p) ==> {
                &&& p.text@ == popup_text(self@)
                &&& p.title@ == popup_title(self@.mode)
                &&& p.tone == popup_tone(self@.mode)
                &&& p.border == popup_border(self@.mode)
                &&& p.x == popup_x(area_width as int)
                &&& p.y == 1
                &&& p.width == popup_width(area_width as int)
                &&& p.height == popup_height(self@, area_width as int, area_height as int)
            },
    {
        if self.local_mode == LocalMode::Idle && self.status_message.as_str().is_empty() {
            return KtreeDraw::Hidden;
        }
        let text = match self.local_mode {
            LocalMode::Idle => self.status_message.clone(),
            LocalMode::Applying => {
                let mut t = String::from_str("Applying");
                t.append(spinner_frame(self.spinner));
                t
            },
            LocalMode::Success => {
                let mut t = String::from_str("[ok] ");
                t.append(self.status_message.as_str());
                t
            },
            LocalMode::Failed => self.status_message.clone(),
            LocalMode::Aborting => {
                let mut t = String::from_str("Aborting");
                t.append(spinner_frame(self.spinner));
                t
            },
        };
        let (title, tone) = match self.local_mode {
            LocalMode::Idle => (String::from_str(" ktree "), Tone::DarkGray),
            LocalMode::Applying => (String::from_str(" ktree "), Tone::Yellow),
            LocalMode::Success => (String::from_str(" ktree "), Tone::Green),
            LocalMode::Failed => (String::from_str(" git am error (x: abort) "), Tone::Red),
            LocalMode::Aborting => (String::from_str(" ktree "), Tone::Yellow),
        };
        if area_width > 1310 {
            return KtreeDraw::Overflow;
        }
        let half = area_width * 50 / 100;
        let width: u16 = if half > 30 {
            half
        } else {
            30
        };
        let inner: u16 = if width >= 2 {
            width - 2
        } else {
            0
        };
        let inner: u16 = if inner > 1 {
            inner
        } else {
            1
        };
        let rows = match wrapped_rows(text.as_str(), inner as usize) {
            Some(n) => n,
            None => return KtreeDraw::Overflow,
        };
        let lines: u16 = if rows > 1 {
            rows
        } else {
            1
        };
        if lines > 65533 {
            return KtreeDraw::Overflow;
        }
        let room: u16 = if area_height >= 2 {
            area_height - 2
        } else {
            0
        };
        let height: u16 = if lines + 2 < room {
            lines + 2
        } else {
            room
        };
        let x: u16 = if area_width >= width + 1 {
            area_width - (width + 1)
        } else {
            0
        };
        let border = if self.local_mode == LocalMode::Failed {
            Border::Double
        } else {
            Border::Rounded
        };
        KtreeDraw::Shown(KtreePopup { text, title, tone, border, x, y: 1, width, height })
    }
}

/// Colour of a notice.
#[derive(Clone, Copy, Debug, PartialEq, Eq, Structural)]
pub enum Tone {
    DarkGray,
    Yellow,
    Green,
    Red,
}

/// Border line of a notice.
#[derive(Clone, Copy, Debug, PartialEq, Eq, Structural)]
pub enum Border {
    Rounded,
    Double,
}

/// A notice to draw, placed in the drawing area.
#[derive(Debug, Clone, PartialEq, Eq)]
pub struct KtreePopup {
    pub text: String,
    pub title: String,
    pub tone: Tone,
    pub border: Border,
    pub x: u16,
    pub y: u16,
    pub width: u16,
    pub height: u16,
}

/// What `Ktree::draw_plan` decides.
#[derive(Debug, Clone, PartialEq, Eq)]
pub enum KtreeDraw {
    Hidden,
    Overflow,
    Shown(KtreePopup),
}

/// Nothing is drawn while idle with no message.
pub open spec fn popup_hidden(s: KtreeView) -> bool {
    s.mode == LocalMode::Idle && s.message.len() == 0
}

pub open spec fn popup_text(s: KtreeView) -> Seq<char> {
    match s.mode {
        LocalMode::Idle => s.message,
        LocalMode::Applying => "Applying"@ + spinner_text(s.spinner),
        LocalMode::Success => "[ok] "@ + s.message,
        LocalMode::Failed => s.message,
        LocalMode::Aborting => "Aborting"@ + spinner_text(s.spinner),
    }
}

pub open spec fn popup_title(mode: LocalMode) -> Seq<char> {
    if mode == LocalMode::Failed {
        " git am error (x: abort) "@
    } else {
        " ktree "@
    }
}

pub open spec fn popup_tone(mode: LocalMode) -> Tone {
    match mode {
        LocalMode::Idle => Tone::DarkGray,
        LocalMode::Applying => Tone::Yellow,
        LocalMode::Success => Tone::Green,
        LocalMode::Failed => Tone::Red,
        LocalMode::Aborting => Tone::Yellow,
    }
}

pub open spec fn popup_border(mode: LocalMode) -> Border {
    if mode == LocalMode::Failed {
        Border::Double
    } else {
        Border::Rounded
    }
}

/// Half the area's width, and at least 30 cells.
pub open spec fn popup_width(area_width: int) -> int {
    let half = area_width * 50 / 100;
    if half > 30 {
        half
    } else {
        30
    }
}

/// Width of the text inside the border, at least 1.
pub open spec fn popup_inner(width: int) -> int {
    let inner = if width >= 2 {
        width - 2
    } else {
        0
    };
    if inner > 1 {
        inner
    } else {
        1
    }
}

/// Rows of text, at least 1.
pub open spec fn popup_lines(s: KtreeView, area_width: int) -> int {
    let rows = rows_sum(text_lines(popup_text(s)), popup_inner(popup_width(area_width)) as nat);
    if rows > 1 {
        rows
    } else {
        1
    }
}

/// Where sizing the notice overflows 16 bits.
pub open spec fn popup_overflows(s: KtreeView, area_width: int) -> bool {
    area_width * 50 > u16::MAX || popup_lines(s, area_width) + 2 > u16::MAX
}

/// Text rows and border, but no more than the area's height less 2.
pub open spec fn popup_height(s: KtreeView, area_width: int, area_height: int) -> int {
    let room = if area_height >= 2 {
        area_height - 2
    } else {
        0
    };
    let want = popup_lines(s, area_width) + 2;
    if want < room {
        want
    } else {
        room
    }
}

/// Right-aligned with one cell to spare.
pub open spec fn popup_x(area_width: int) -> int {
    let w = popup_width(area_width);
    if area_width >= w + 1 {
        area_width - (w + 1)
    } else {
        0
    }
}

/// How a run of a program ended.
#[derive(Debug, Clone, PartialEq, Eq)]
pub enum ProgramRun {
    /// It ran and exited, successfully or not, with this error output.
    Exited { success: bool, stderr: Vec<u8> },
    /// It could not be started; the error's text.
    Unstarted(String),
}

/// The report of an application attempt: `am` is how `git am` ended, and
/// `log_stdout` what `git log -1 --format=%s` printed afterwards, where it
/// could be started.
pub open spec fn applied_report(am: ProgramRun, log_stdout: Option<Vec<u8>>) -> (bool, Seq<char>) {
    match am {
        ProgramRun::Exited { success: true, .. } => (
            true,
            match log_stdout {
                Some(out) => trimmed(lossy_utf8(out@)),
                None => "applied"@,
            },
        ),
        ProgramRun::Exited { success: false, stderr } => (false, trimmed(lossy_utf8(stderr@))),
        ProgramRun::Unstarted(err) => (false, "execution: "@ + err@),
    }
}

/// Turns the outcome of `git am` (and of the `git log` that follows a
/// success) into the status that the component reports: the new commit's
/// subject, or the error text.
pub fn apply_outcome(am: ProgramRun, log_stdout: Option<Vec<u8>>) -> (r: KtreeStatus)
    ensures
        applied_report(am, log_stdout).0 ==> (r matches KtreeStatus::Success(subject) && subject@
            == applied_report(am, log_stdout).1),
        !applied_report(am, log_stdout).0 ==> (r matches KtreeStatus::Failed(err) && err@
            == applied_report(am, log_stdout).1),
{
    match am {
        ProgramRun::Exited { success, stderr } => {
            if success {
                let subject = match &log_stdout {
                    Some(out) => {
                        let text = utf8_lossy(out.as_slice());
                        trim(text.as_str())
                    },
                    None => String::from_str("applied"),
                };
                KtreeStatus::Success(subject)
            } else {
                let text = utf8_lossy(stderr.as_slice());
                KtreeStatus::Failed(trim(text.as_str()))
            }
        },
        ProgramRun::Unstarted(err) => {
            let mut text = String::from_str("execution: ");
            text.append(err.as_str());
            KtreeStatus::Failed(text)
        },
    }
}


/// The state after `n` ticks.
pub open spec fn ktree_ticks(s: KtreeView, n: nat) -> KtreeView
    decreases n,
{
    if n == 0 {
        s
    } else {
        ktree_ticks(ktree_step(s, Action::Tick).0, (n - 1) as nat)
    }
}

/// A success notice counts its ticks and stays while fewer than
/// `MAX_NOTIFICATION_TICKS` have passed.
pub proof fn lemma_success_notice_stays(s: KtreeView, n: nat)
    requires
        s.mode == LocalMode::Success,
        s.ticks + n < MAX_NOTIFICATION_TICKS,
    ensures
        ktree_ticks(s, n) == (KtreeView { ticks: s.ticks + n, ..s }),
    decreases n,
{
    if n > 0 {
        let t = ktree_step(s, Action::Tick).0;
        assert(t == KtreeView { ticks: s.ticks + 1, ..s });
        lemma_success_notice_stays(t, (n - 1) as nat);
    }
}

/// A success notice goes away at its `MAX_NOTIFICATION_TICKS`-th tick: the
/// component is idle again, with no message.
pub proof fn lemma_success_notice_expires(s: KtreeView)
    requires
        s.mode == LocalMode::Success,
        s.ticks < MAX_NOTIFICATION_TICKS,
    ensures
        ktree_ticks(s, (MAX_NOTIFICATION_TICKS - s.ticks) as nat) == (KtreeView {
            ticks: 0,
            mode: LocalMode::Idle,
            message: seq![],
            ..s
        }),
    decreases MAX_NOTIFICATION_TICKS - s.ticks,
{
    let t = ktree_step(s, Action::Tick).0;
    if s.ticks + 1 < MAX_NOTIFICATION_TICKS {
        assert(t == KtreeView { ticks: s.ticks + 1, ..s });
        lemma_success_notice_expires(t);
        assert(ktree_ticks(s, (MAX_NOTIFICATION_TICKS - s.ticks) as nat) == ktree_ticks(
            t,
            (MAX_NOTIFICATION_TICKS - t.ticks) as nat,
        ));
    } else {
        assert(ktree_ticks(t, 0) == t);
    }
}

/// While busy, the spinner comes back to its frame after `SPINNER_LEN`
/// ticks.
pub proof fn lemma_spinner_cycles(s: KtreeView)
    requires
        s.inv(),
        s.mode == LocalMode::Applying || s.mode == LocalMode::Aborting,
    ensures
        ktree_ticks(s, SPINNER_LEN as nat) == s,
{
    let s1 = ktree_step(s, Action::Tick).0;
    let s2 = ktree_step(s1, Action::Tick).0;
    let s3 = ktree_step(s2, Action::Tick).0;
    let s4 = ktree_step(s3, Action::Tick).0;
    assert(ktree_ticks(s4, 0) == s4);
    assert(ktree_ticks(s3, 1) == s4);
    assert(ktree_ticks(s2, 2) == s4);
    assert(ktree_ticks(s1, 3) == s4);
    assert(ktree_ticks(s, 4) == s4);
    assert(s4 == s);
}

/// Every update keeps the invariant, and only `KtreeApply` and `KtreeAbort`
/// ask for outside work: `KtreeApply` from an idle or applying component,
/// with the given mailbox, `KtreeAbort` when a failed application is still
/// under way.
pub proof fn lemma_ktree_tasks(s: KtreeView, a: Action)
    requires
        s.inv(),
    ensures
        ktree_step(s, a).0.inv(),
        ktree_step(s, a).1 matches Some(KtreeTask::Apply(p)) ==> a == Action::KtreeApply(p) && (
        s.mode == LocalMode::Idle || s.mode == LocalMode::Applying),
        ktree_step(s, a).1 == Some(KtreeTask::Abort) ==> a == Action::KtreeAbort && s.mode
            == LocalMode::Failed && s.in_progress,
{
}


/// An apply request is started while the component is idle or already
/// applying (the download puts it in `Applying` first): the task runs git
/// on exactly the given mailbox, the mode is `Applying`, an application is
/// under way, and nothing else changes. In any other mode it is ignored.
pub proof fn lemma_apply_request(s: KtreeView, mbox_path: String)
    ensures
        (s.mode == LocalMode::Idle || s.mode == LocalMode::Applying) ==> ktree_step(
            s,
            Action::KtreeApply(mbox_path),
        ) == (
            KtreeView { mode: LocalMode::Applying, in_progress: true, ..s },
            Some(KtreeTask::Apply(mbox_path)),
        ),
        !(s.mode == LocalMode::Idle || s.mode == LocalMode::Applying) ==> ktree_step(
            s,
            Action::KtreeApply(mbox_path),
        ) == (s, None::<KtreeTask>),
{
}

/// The notice says what is going on: while applying it reads `Applying`
/// and while aborting `Aborting`, each followed by the spinner's dots; a
/// success shows `[ok] ` and the message; a failure, and an idle notice,
/// show the message itself.
pub proof fn lemma_notice_text(s: KtreeView)
    requires
        s.inv(),
    ensures
        s.mode == LocalMode::Applying ==> popup_text(s) == seq!['A', 'p', 'p', 'l', 'y', 'i', 'n', 'g']
            + spinner_text(s.spinner),
        s.mode == LocalMode::Aborting ==> popup_text(s) == seq!['A', 'b', 'o', 'r', 't', 'i', 'n', 'g']
            + spinner_text(s.spinner),
        s.mode == LocalMode::Success ==> popup_text(s) == seq!['[', 'o', 'k', ']', ' '] + s.message,
        (s.mode == LocalMode::Failed || s.mode == LocalMode::Idle) ==> popup_text(s) == s.message,
        forall|k: int| 0 <= k < spinner_text(s.spinner).len() ==> spinner_text(s.spinner)[k] == '.',
{
    reveal_strlit("Applying");
    reveal_strlit("Aborting");
    reveal_strlit("[ok] ");
    assert("Applying"@ =~= seq!['A', 'p', 'p', 'l', 'y', 'i', 'n', 'g']);
    assert("Aborting"@ =~= seq!['A', 'b', 'o', 'r', 't', 'i', 'n', 'g']);
    assert("[ok] "@ =~= seq!['[', 'o', 'k', ']', ' ']);
}

} // verus!

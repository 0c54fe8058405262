//! The list of threads that a query returned, and the thread being read.

use vstd::prelude::*;

pub mod index;
pub mod laws;
pub mod walk;

use crate::action::Action;
use crate::components::Key;
use crate::components::patchsets::index::{
    Family, collect_roots, dates_of, distinct_parents, family_map, find_message, group_replies,
    index_of, kids, lemma_root_ids_contains, names_root, refs_nonempty, reply_map, root_ids,
    sort_by_key_desc, sort_families, sorted_desc,
};
use crate::components::patchsets::walk::{
    ends, finite, latest_date, latest_in, lemma_finite_bound, lemma_finite_transfer, thread_ends,
    thread_fuel, thread_of, threads_end, walk, walk_thread,
};

verus! {

broadcast use vstd::seq_lib::group_to_multiset_ensures;

/// What the list component shows: nothing yet, a fetch under way, the
/// list of threads, or one thread.
#[derive(Clone, Copy, Debug, PartialEq, Eq, Structural)]
pub enum LocalMode {
    Idle,
    Processing,
    Listing,
    Thread,
}

/// One message of a query's result: its id, date, the ids it refers to
/// (the last one being the message it replies to), subject, and authors as
/// `[name, address]` pairs.
#[derive(Debug, Clone, PartialEq, Eq)]
pub struct Message {
    pub m_id: String,
    pub date_time: String,
    pub refs: Option<Vec<String>>,
    pub subject: String,
    pub from: Vec<Vec<Option<String>>>,
}

/// A thread's first message, with the date of the latest message in it.
#[derive(Debug, Clone, PartialEq, Eq)]
pub struct Node {
    pub m_id: String,
    pub last_updated: String,
}

/// The ids of the listed threads.
pub open spec fn node_ids(roots: Seq<Node>) -> Seq<String> {
    roots.map_values(|n: Node| n.m_id)
}

/// The dates of the listed threads.
pub open spec fn node_dates(roots: Seq<Node>) -> Seq<Seq<char>> {
    roots.map_values(|n: Node| n.last_updated@)
}

/// The patch set list component.
pub struct Patchsets {
    local_mode: LocalMode,
    messages: Vec<Message>,
    families: Vec<Family>,
    roots: Vec<Node>,
    list_index: usize,
    thread: Vec<(usize, String)>,
    thread_index: usize,
    domain: String,
    applying: bool,
}

/// The state of a `Patchsets`, as its contracts speak of it.
pub ghost struct PatchsetsView {
    pub mode: LocalMode,
    pub messages: Seq<Message>,
    /// Messages by id.
    pub by_id: Map<Seq<char>, Message>,
    /// Replies by the id of the message they reply to.
    pub replies: Map<Seq<char>, Seq<String>>,
    pub roots: Seq<Node>,
    pub list_index: nat,
    pub thread: Seq<(usize, String)>,
    pub thread_index: nat,
    pub domain: Seq<char>,
    pub applying: bool,
}

impl PatchsetsView {
    /// The replies are those the messages name, each list latest first.
    pub open spec fn replies_ordered(self) -> bool {
        &&& self.replies.dom() == reply_map(self.messages).dom()
        &&& forall|p: Seq<char>|
            (#[trigger] kids(self.replies, p)).to_multiset() == kids(
                reply_map(self.messages),
                p,
            ).to_multiset()
        &&& forall|p: Seq<char>| sorted_desc(dates_of(self.by_id, #[trigger] kids(self.replies, p)))
    }

    /// The roots are the messages that reply to nothing, each dated by the
    /// latest message of its thread, latest first, each thread's walk ending.
    pub open spec fn roots_ordered(self) -> bool {
        &&& node_ids(self.roots).to_multiset() == root_ids(self.messages).to_multiset()
        &&& sorted_desc(node_dates(self.roots))
        &&& forall|i: int|
            0 <= i < self.roots.len() ==> (#[trigger] self.roots[i]).last_updated@ == latest_date(
                self.by_id,
                thread_of(self.by_id, self.replies, self.roots[i].m_id),
                seq![],
            )
        &&& forall|i: int|
            0 <= i < self.roots.len() ==> ends(self.replies, (#[trigger] self.roots[i]).m_id@)
    }

    /// Messages indexed by id, replies and threads ordered, and both
    /// selections in range.
    pub open spec fn inv(self) -> bool {
        &&& self.by_id == index_of(self.messages)
        &&& self.replies_ordered()
        &&& self.roots_ordered()
        &&& (self.list_index < self.roots.len() || (self.roots.len() == 0 && self.list_index == 0))
        &&& (self.thread_index < self.thread.len() || (self.thread.len() == 0 && self.thread_index
            == 0))
    }
}

impl View for Patchsets {
    type V = PatchsetsView;

    closed spec fn view(&self) -> PatchsetsView {
        PatchsetsView {
            mode: self.local_mode,
            messages: self.messages@,
            by_id: index_of(self.messages@),
            replies: family_map(self.families@),
            roots: self.roots@,
            list_index: self.list_index as nat,
            thread: self.thread@,
            thread_index: self.thread_index as nat,
            domain: self.domain@,
            applying: self.applying,
        }
    }
}

impl Patchsets {
    /// The representation holds together, and the state meets its invariant.
    pub closed spec fn wf(&self) -> bool {
        &&& distinct_parents(self.families@)
        &&& self@.inv()
    }

    /// An empty component for the Lore instance at `domain`.
    pub fn new(domain: String) -> (r: Patchsets)
        ensures
            r.wf(),
            r@.inv(),
            r@.mode == LocalMode::Idle,
            r@.messages == Seq::<Message>::empty(),
            r@.roots == Seq::<Node>::empty(),
            r@.list_index == 0,
            r@.thread == Seq::<(usize, String)>::empty(),
            r@.thread_index == 0,
            r@.domain == domain@,
            !r@.applying,
    {
        let r = Patchsets {
            local_mode: LocalMode::Idle,
            messages: Vec::new(),
            families: Vec::new(),
            roots: Vec::new(),
            list_index: 0,
            thread: Vec::new(),
            thread_index: 0,
            domain,
            applying: false,
        };
        proof {
            assert(node_ids(r.roots@) =~= Seq::<String>::empty());
            assert(node_dates(r.roots@) =~= Seq::<Seq<char>>::empty());
            assert forall|p: Seq<char>| sorted_desc(
                dates_of(r@.by_id, #[trigger] kids(r@.replies, p)),
            ) by {
                assert(dates_of(r@.by_id, kids(r@.replies, p)) =~= Seq::<Seq<char>>::empty());
            }
            assert(r@.replies.dom() =~= reply_map(r@.messages).dom());
        }
        r
    }

    /// Builds the list from the messages of a query's result: indexes them
    /// by id, groups and orders the replies, and lists the threads latest
    /// first; then shows the list from its top.
    pub fn prepare_list(&mut self, messages: Vec<Message>)
        requires
            old(self).wf(),
            refs_nonempty(messages@),
            threads_end(messages@),
        ensures
            final(self).wf(),
            final(self)@.inv(),
            final(self)@.messages == messages@,
            final(self)@.mode == LocalMode::Listing,
            final(self)@.list_index == 0,
            final(self)@.thread == old(self)@.thread,
            final(self)@.thread_index == old(self)@.thread_index,
            final(self)@.domain == old(self)@.domain,
            final(self)@.applying == old(self)@.applying,
    {
        let mut fams = group_replies(&messages);
        let ghost grouped = fams@;
        sort_families(&messages, &mut fams);
        let ghost by_id = index_of(messages@);
        let ghost replies = family_map(fams@);
        let ids = collect_roots(&messages);
        let ghost key = |id: String| latest_date(by_id, thread_of(by_id, replies, id), seq![]);
        proof {
            assert forall|k: int| 0 <= k < ids@.len() implies ends(replies, (#[trigger] ids@[k])@) by {
                assert(names_root(messages@, ids@[k]));
                let j = choose|j: int|
                    0 <= j < messages@.len() && (#[trigger] messages@[j]).refs is None
                        && messages@[j].m_id == ids@[k];
                assert(ends(reply_map(messages@), messages@[j].m_id@));
                let f = choose|f: nat| f <= usize::MAX && finite(reply_map(messages@), ids@[k]@, f);
                lemma_finite_transfer(replies, reply_map(messages@), ids@[k]@, f);
            }
        }
        let mut keys: Vec<String> = Vec::new();
        let mut t: usize = 0;
        while t < ids.len()
            invariant
                distinct_parents(fams@),
                by_id == index_of(messages@),
                replies == family_map(fams@),
                key == (|id: String| latest_date(by_id, thread_of(by_id, replies, id), seq![])),
                forall|k: int| 0 <= k < ids@.len() ==> ends(replies, (#[trigger] ids@[k])@),
                t <= ids@.len(),
                keys@.len() == t,
                forall|a: int| 0 <= a < t ==> (#[trigger] keys@[a])@ == key(ids@[a]),
            decreases ids@.len() - t,
        {
            let ghost fuel = thread_fuel(replies, ids@[t as int]@);
            proof {
                assert(ends(replies, ids@[t as int]@));
            }
            let th = walk_thread(&messages, &fams, &ids[t], Ghost(fuel));
            keys.push(latest_in(&messages, &th));
            t = t + 1;
        }
        let (sorted_keys, sorted_ids) = sort_by_key_desc(&keys, &ids, Ghost(key));
        let mut nodes: Vec<Node> = Vec::new();
        let mut k: usize = 0;
        while k < sorted_ids.len()
            invariant
                sorted_keys@.len() == sorted_ids@.len(),
                k <= sorted_ids@.len(),
                node_ids(nodes@) =~= sorted_ids@.take(k as int),
                node_dates(nodes@) =~= sorted_keys@.take(k as int).map_values(|x: String| x@),
            decreases sorted_ids@.len() - k,
        {
            nodes.push(Node { m_id: sorted_ids[k].clone(), last_updated: sorted_keys[k].clone() });
            proof {
                assert(sorted_ids@.take(k + 1) =~= sorted_ids@.take(k as int).push(
                    sorted_ids@[k as int],
                ));
                assert(sorted_keys@.take(k + 1).map_values(|x: String| x@) =~= sorted_keys@.take(
                    k as int,
                ).map_values(|x: String| x@).push(sorted_keys@[k as int]@));
            }
            k = k + 1;
        }
        proof {
            assert(sorted_ids@.take(sorted_ids@.len() as int) =~= sorted_ids@);
            assert(sorted_keys@.take(sorted_keys@.len() as int) =~= sorted_keys@);
            assert(family_map(grouped) == reply_map(messages@));
            assert forall|p: Seq<char>|
                (#[trigger] kids(replies, p)).to_multiset() == kids(
                    reply_map(messages@),
                    p,
                ).to_multiset() by {}
            assert forall|i: int| 0 <= i < nodes@.len() implies ends(
                replies,
                (#[trigger] nodes@[i]).m_id@,
            ) by {
                assert(node_ids(nodes@)[i] == nodes@[i].m_id);
                assert(sorted_ids@.to_multiset().count(sorted_ids@[i]) > 0);
                assert(ids@.contains(sorted_ids@[i]));
            }
            assert forall|i: int| 0 <= i < nodes@.len() implies (
            #[trigger] nodes@[i]).last_updated@ == latest_date(
                by_id,
                thread_of(by_id, replies, nodes@[i].m_id),
                seq![],
            ) by {
                assert(node_ids(nodes@)[i] == nodes@[i].m_id);
                assert(node_dates(nodes@)[i] == nodes@[i].last_updated@);
            }
            assert(sorted_desc(node_dates(nodes@)));
        }
        self.messages = messages;
        self.families = fams;
        self.roots = nodes;
        self.list_index = 0;
        self.local_mode = LocalMode::Listing;
    }
}

/// Outside work that an update asks for.
#[derive(Debug, Clone, PartialEq, Eq)]
pub enum PatchsetsTask {
    /// Read the query's result from this JSON file and build the list from it.
    LoadList(String),
}

/// Where an update is defined: moving down needs an entry to move within,
/// and opening a thread needs a listed one.
pub open spec fn update_defined(s: PatchsetsView, a: Action) -> bool {
    match a {
        Action::PatchsetsAddIndex => (s.mode == LocalMode::Listing ==> s.roots.len() > 0) && (
        s.mode == LocalMode::Thread ==> s.thread.len() > 0),
        Action::PatchsetsThread => s.roots.len() > 0,
        _ => true,
    }
}

/// The state after `a`, and the outside work it asks for.
pub open spec fn patchsets_step(s: PatchsetsView, a: Action) -> (PatchsetsView, Option<PatchsetsTask>) {
    match a {
        Action::PatchsetsSetMode(mode) => (PatchsetsView { mode, ..s }, None),
        Action::PatchsetsList(json_path) => (
            PatchsetsView {
                messages: seq![],
                by_id: Map::empty(),
                replies: Map::empty(),
                roots: seq![],
                list_index: 0,
                ..s
            },
            Some(PatchsetsTask::LoadList(json_path)),
        ),
        Action::PatchsetsAddIndex => match s.mode {
            LocalMode::Listing => if s.list_index < s.roots.len() - 1 {
                (PatchsetsView { list_index: s.list_index + 1, ..s }, None)
            } else {
                (s, None)
            },
            LocalMode::Thread => if s.thread_index < s.thread.len() - 1 {
                (PatchsetsView { thread_index: s.thread_index + 1, ..s }, None)
            } else {
                (s, None)
            },
            _ => (s, None),
        },
        Action::PatchsetsSubIndex => match s.mode {
            LocalMode::Listing => (
                PatchsetsView {
                    list_index: if s.list_index > 0 {
                        (s.list_index - 1) as nat
                    } else {
                        0
                    },
                    ..s
                },
                None,
            ),
            LocalMode::Thread => (
                PatchsetsView {
                    thread_index: if s.thread_index > 0 {
                        (s.thread_index - 1) as nat
                    } else {
                        0
                    },
                    ..s
                },
                None,
            ),
            _ => (s, None),
        },
        Action::PatchsetsThread => (
            PatchsetsView {
                thread: thread_of(s.by_id, s.replies, s.roots[s.list_index as int].m_id),
                thread_index: 0,
                mode: LocalMode::Thread,
                ..s
            },
            None,
        ),
        Action::KtreeResult(_) => (PatchsetsView { applying: false, ..s }, None),
        _ => (s, None),
    }
}

impl Patchsets {
    pub fn local_mode(&self) -> (r: LocalMode)
        ensures
            r == self@.mode,
    {
        self.local_mode
    }

    pub fn roots(&self) -> (r: &Vec<Node>)
        ensures
            r@ == self@.roots,
    {
        &self.roots
    }

    pub fn list_index(&self) -> (r: usize)
        ensures
            r == self@.list_index,
    {
        self.list_index
    }

    pub fn thread(&self) -> (r: &Vec<(usize, String)>)
        ensures
            r@ == self@.thread,
    {
        &self.thread
    }

    pub fn thread_index(&self) -> (r: usize)
        ensures
            r == self@.thread_index,
    {
        self.thread_index
    }

    pub fn applying(&self) -> (r: bool)
        ensures
            r == self@.applying,
    {
        self.applying
    }

    /// Whether `update` is defined for `action` in this state.
    pub fn accepts(&self, action: &Action) -> (r: bool)
        ensures
            r == update_defined(self@, *action),
    {
        match action {
            Action::PatchsetsAddIndex => (self.local_mode != LocalMode::Listing || self.roots.len()
                > 0) && (self.local_mode != LocalMode::Thread || self.thread.len() > 0),
            Action::PatchsetsThread => self.roots.len() > 0,
            _ => true,
        }
    }

    /// Opens the thread of the selected list entry, from its top.
    fn open_thread(&mut self)
        requires
            old(self).wf(),
            old(self)@.roots.len() > 0,
        ensures
            final(self).wf(),
            final(self)@ == patchsets_step(old(self)@, Action::PatchsetsThread).0,
    {
        let root = self.roots[self.list_index].m_id.clone();
        let ghost fuel = thread_fuel(family_map(self.families@), root@);
        proof {
            assert(ends(family_map(self.families@), self@.roots[self@.list_index as int].m_id@));
        }
        self.thread = walk_thread(&self.messages, &self.families, &root, Ghost(fuel));
        self.thread_index = 0;
        self.local_mode = LocalMode::Thread;
    }

    /// Takes `action` into account; returns the outside work it asks for.
    pub fn update(&mut self, action: Action) -> (task: Option<PatchsetsTask>)
        requires
            old(self).wf(),
            update_defined(old(self)@, action),
        ensures
            final(self).wf(),
            final(self)@.inv(),
            (final(self)@, task) == patchsets_step(old(self)@, action),
    {
        match action {
            Action::PatchsetsSetMode(mode) => {
                self.local_mode = mode;
                None
            },
            Action::PatchsetsList(json_path) => {
                self.messages = Vec::new();
                self.families = Vec::new();
                self.roots = Vec::new();
                self.list_index = 0;
                proof {
                    assert(node_ids(self.roots@) =~= Seq::<String>::empty());
                    assert(node_dates(self.roots@) =~= Seq::<Seq<char>>::empty());
                    assert forall|p: Seq<char>| sorted_desc(
                        dates_of(self@.by_id, #[trigger] kids(self@.replies, p)),
                    ) by {
                        assert(dates_of(self@.by_id, kids(self@.replies, p))
                            =~= Seq::<Seq<char>>::empty());
                    }
                    assert(self@.replies.dom() =~= reply_map(self@.messages).dom());
                }
                Some(PatchsetsTask::LoadList(json_path))
            },
            Action::PatchsetsAddIndex => {
                match self.local_mode {
                    LocalMode::Listing => {
                        if self.list_index < self.roots.len() - 1 {
                            self.list_index = self.list_index + 1;
                        }
                    },
                    LocalMode::Thread => {
                        if self.thread_index < self.thread.len() - 1 {
                            self.thread_index = self.thread_index + 1;
                        }
                    },
                    _ => {},
                }
                None
            },
            Action::PatchsetsSubIndex => {
                match self.local_mode {
                    LocalMode::Listing => {
                        self.list_index = if self.list_index > 0 {
                            self.list_index - 1
                        } else {
                            0
                        };
                    },
                    LocalMode::Thread => {
                        self.thread_index = if self.thread_index > 0 {
                            self.thread_index - 1
                        } else {
                            0
                        };
                    },
                    _ => {},
                }
                None
            },
            Action::PatchsetsThread => {
                self.open_thread();
                None
            },
            Action::KtreeResult(_) => {
                self.applying = false;
                None
            },
            _ => None,
        }
    }
}

/// What a key press leads to.
#[derive(Debug, Clone, PartialEq, Eq)]
pub enum PatchsetsKey {
    Nothing,
    Emit(Action),
    /// Download and apply the message with this id.
    Download(String),
}

/// The state after `key`, and what it leads to.
pub open spec fn patchsets_key(s: PatchsetsView, key: Key) -> (PatchsetsView, PatchsetsKey) {
    match s.mode {
        LocalMode::Listing => (
            s,
            if key == Key::Char('j') {
                PatchsetsKey::Emit(Action::PatchsetsAddIndex)
            } else if key == Key::Char('k') {
                PatchsetsKey::Emit(Action::PatchsetsSubIndex)
            } else if key == Key::Enter {
                PatchsetsKey::Emit(Action::PatchsetsThread)
            } else {
                PatchsetsKey::Nothing
            },
        ),
        LocalMode::Thread => if key == Key::Char('j') {
            (s, PatchsetsKey::Emit(Action::PatchsetsAddIndex))
        } else if key == Key::Char('k') {
            (s, PatchsetsKey::Emit(Action::PatchsetsSubIndex))
        } else if key == Key::Esc {
            (s, PatchsetsKey::Emit(Action::PatchsetsSetMode(LocalMode::Listing)))
        } else if key == Key::Char('a') && !s.applying && s.thread_index < s.thread.len() {
            (
                PatchsetsView { applying: true, ..s },
                PatchsetsKey::Download(s.thread[s.thread_index as int].1),
            )
        } else {
            (s, PatchsetsKey::Nothing)
        },
        _ => (s, PatchsetsKey::Nothing),
    }
}

/// Where the raw message `id` is served on the Lore instance `domain`.
pub open spec fn download_url_text(domain: Seq<char>, id: Seq<char>) -> Seq<char> {
    "https://"@ + domain + "/all/"@ + id + "/raw"@
}

/// How a download ended.
#[derive(Debug, Clone, PartialEq, Eq)]
pub enum DownloadRun {
    /// The file was fetched.
    Fetched,
    /// The downloader exited unsuccessfully; its exit status as text.
    Refused(String),
    /// The downloader could not be started; the error's text.
    Unstarted(String),
}

/// One line of a listing: subject, first author's name (`null` where there
/// is none) and address; `None` where the message has no first author with
/// an address.
pub open spec fn entry_line(m: Message) -> Option<Seq<char>> {
    if m.from@.len() >= 1 && m.from@[0]@.len() >= 2 {
        match m.from@[0]@[1] {
            Some(email) => {
                let name = match m.from@[0]@[0] {
                    Some(n) => n@,
                    None => "null"@,
                };
                Some(m.subject@ + " | "@ + name + " <"@ + email@ + ">"@)
            },
            None => None,
        }
    } else {
        None
    }
}

/// The listing's line for root `k`.
pub open spec fn list_line(s: PatchsetsView, k: int) -> Option<Seq<char>> {
    if s.by_id.contains_key(s.roots[k].m_id@) {
        entry_line(s.by_id[s.roots[k].m_id@])
    } else {
        None
    }
}

/// `n` spaces.
pub open spec fn spaces(n: nat) -> Seq<char> {
    Seq::new(n, |i: int| ' ')
}

/// The thread view's line for entry `k`: a reply is indented two spaces per
/// level and marked with an arrow.
pub open spec fn thread_line(s: PatchsetsView, k: int) -> Option<Seq<char>> {
    let (depth, id) = s.thread[k];
    if s.by_id.contains_key(id@) {
        match entry_line(s.by_id[id@]) {
            Some(line) => Some(
                if depth != 0 {
                    spaces(2 * depth as nat) + "\u{21B3} "@ + line
                } else {
                    line
                },
            ),
            None => None,
        }
    } else {
        None
    }
}

/// Builds `entry_line(m)`.
fn make_entry_line(m: &Message) -> (r: Option<String>)
    ensures
        r is Some <==> entry_line(*m) is Some,
        r matches Some(line) ==> line@ == entry_line(*m)->0,
{
    if m.from.len() >= 1 && m.from[0].len() >= 2 {
        match &m.from[0][1] {
            Some(email) => {
                let mut line = m.subject.clone();
                line.append(" | ");
                match &m.from[0][0] {
                    Some(n) => line.append(n.as_str()),
                    None => line.append("null"),
                }
                line.append(" <");
                line.append(email.as_str());
                line.append(">");
                Some(line)
            },
            None => None,
        }
    } else {
        None
    }
}

impl Patchsets {
    /// Takes a key press into account; in a thread, `a` starts downloading
    /// the selected message unless a download is already under way.
    pub fn handle_key_event(&mut self, key: Key) -> (r: PatchsetsKey)
        requires
            old(self).wf(),
        ensures
            final(self).wf(),
            (final(self)@, r) == patchsets_key(old(self)@, key),
    {
        match self.local_mode {
            LocalMode::Listing => match key {
                Key::Char('j') => PatchsetsKey::Emit(Action::PatchsetsAddIndex),
                Key::Char('k') => PatchsetsKey::Emit(Action::PatchsetsSubIndex),
                Key::Enter => PatchsetsKey::Emit(Action::PatchsetsThread),
                _ => PatchsetsKey::Nothing,
            },
            LocalMode::Thread => match key {
                Key::Char('j') => PatchsetsKey::Emit(Action::PatchsetsAddIndex),
                Key::Char('k') => PatchsetsKey::Emit(Action::PatchsetsSubIndex),
                Key::Esc => PatchsetsKey::Emit(Action::PatchsetsSetMode(LocalMode::Listing)),
                Key::Char('a') => {
                    if !self.applying && self.thread_index < self.thread.len() {
                        let id = self.thread[self.thread_index].1.clone();
                        self.applying = true;
                        PatchsetsKey::Download(id)
                    } else {
                        PatchsetsKey::Nothing
                    }
                },
                _ => PatchsetsKey::Nothing,
            },
            _ => PatchsetsKey::Nothing,
        }
    }

    /// Where message `message_id` is downloaded from.
    pub fn download_url(&self, message_id: &str) -> (r: String)
        ensures
            r@ == download_url_text(self@.domain, message_id@),
    {
        let mut url = String::from_str("https://");
        url.append(self.domain.as_str());
        url.append("/all/");
        url.append(message_id);
        url.append("/raw");
        url
    }

    /// The lines of the thread listing, one per root; `None` where some
    /// root's line cannot be made.
    pub fn list_lines(&self) -> (r: Option<Vec<String>>)
        ensures
            r is Some <==> forall|k: int| 0 <= k < self@.roots.len() ==> (#[trigger] list_line(self@, k)) is Some,
            r matches Some(lines) ==> lines@.len() == self@.roots.len() && forall|k: int|
                0 <= k < lines@.len() ==> (#[trigger] lines@[k])@ == list_line(self@, k)->0,
    {
        let mut lines: Vec<String> = Vec::new();
        let mut k: usize = 0;
        while k < self.roots.len()
            invariant
                k <= self@.roots.len(),
                lines@.len() == k,
                forall|a: int| 0 <= a < k ==> (#[trigger] list_line(self@, a)) is Some,
                forall|a: int| 0 <= a < k ==> (#[trigger] lines@[a])@ == list_line(self@, a)->0,
            decreases self@.roots.len() - k,
        {
            match find_message(&self.messages, &self.roots[k].m_id) {
                Some(i) => match make_entry_line(&self.messages[i]) {
                    Some(line) => lines.push(line),
                    None => {
                        assert(list_line(self@, k as int) is None);
                        return None;
                    },
                },
                None => {
                    assert(list_line(self@, k as int) is None);
                    return None;
                },
            }
            k = k + 1;
        }
        Some(lines)
    }

    /// The lines of the open thread, one per entry; `None` where some
    /// entry's line cannot be made.
    pub fn thread_lines(&self) -> (r: Option<Vec<String>>)
        ensures
            r is Some <==> forall|k: int| 0 <= k < self@.thread.len() ==> (#[trigger] thread_line(self@, k)) is Some,
            r matches Some(lines) ==> lines@.len() == self@.thread.len() && forall|k: int|
                0 <= k < lines@.len() ==> (#[trigger] lines@[k])@ == thread_line(self@, k)->0,
    {
        let mut lines: Vec<String> = Vec::new();
        let mut k: usize = 0;
        while k < self.thread.len()
            invariant
                k <= self@.thread.len(),
                lines@.len() == k,
                forall|a: int| 0 <= a < k ==> (#[trigger] thread_line(self@, a)) is Some,
                forall|a: int| 0 <= a < k ==> (#[trigger] lines@[a])@ == thread_line(self@, a)->0,
            decreases self@.thread.len() - k,
        {
            let depth = self.thread[k].0;
            match find_message(&self.messages, &self.thread[k].1) {
                Some(i) => match make_entry_line(&self.messages[i]) {
                    Some(line) => {
                        if depth != 0 {
                            let mut out = String::new();
                            let mut j: usize = 0;
                            while j < depth
                                invariant
                                    j <= depth,
                                    out@ =~= spaces(2 * j as nat),
                                decreases depth - j,
                            {
                                out.append("  ");
                                proof {
                                    reveal_strlit("  ");
                                }
                                j = j + 1;
                            }
                            out.append("\u{21B3} ");
                            out.append(line.as_str());
                            lines.push(out);
                        } else {
                            lines.push(line);
                        }
                    },
                    None => {
                        assert(thread_line(self@, k as int) is None);
                        return None;
                    },
                },
                None => {
                    assert(thread_line(self@, k as int) is None);
                    return None;
                },
            }
            k = k + 1;
        }
        Some(lines)
    }
}

/// What a finished download leads to, and whether the downloaded file is
/// to be removed: a fetched file goes on to be applied; otherwise the
/// failure is reported.
pub fn download_outcome(run: DownloadRun, tmp_path: String) -> (r: (Action, bool))
    ensures
        run is Fetched ==> r == (Action::KtreeApply(tmp_path), false),
        run matches DownloadRun::Refused(status) ==> r.1 && (r.0 matches Action::KtreeResult(
            crate::action::KtreeStatus::Failed(e),
        ) && e@ == "download failed: HTTP "@ + status@),
        run matches DownloadRun::Unstarted(err) ==> r.1 && (r.0 matches Action::KtreeResult(
            crate::action::KtreeStatus::Failed(e),
        ) && e@ == "download failed: "@ + err@),
{
    match run {
        DownloadRun::Fetched => (Action::KtreeApply(tmp_path), false),
        DownloadRun::Refused(status) => {
            let mut e = String::from_str("download failed: HTTP ");
            e.append(status.as_str());
            (Action::KtreeResult(crate::action::KtreeStatus::Failed(e)), true)
        },
        DownloadRun::Unstarted(err) => {
            let mut e = String::from_str("download failed: ");
            e.append(err.as_str());
            (Action::KtreeResult(crate::action::KtreeStatus::Failed(e)), true)
        },
    }
}

/// How loading a query's result went.
#[derive(Clone, Copy, Debug, PartialEq, Eq, Structural)]
pub enum ListLoad {
    /// The list was built.
    Built,
    /// Some message has an empty reference list.
    EmptyReference,
    /// Some thread's chain of replies comes back to a message, so walking
    /// it has no end.
    EndlessThread,
}

impl Patchsets {
    /// Builds the list from `messages` where that can be done: every
    /// reference list is non-empty and every thread's walk ends. Otherwise
    /// says which of the two fails, and changes nothing.
    pub fn load_list(&mut self, messages: Vec<Message>) -> (r: ListLoad)
        requires
            old(self).wf(),
        ensures
            final(self).wf(),
            final(self)@.inv(),
            r == ListLoad::EmptyReference <==> !refs_nonempty(messages@),
            r == ListLoad::EndlessThread <==> refs_nonempty(messages@) && !threads_end(messages@),
            r == ListLoad::Built ==> {
                &&& final(self)@.messages == messages@
                &&& final(self)@.mode == LocalMode::Listing
                &&& final(self)@.list_index == 0
                &&& final(self)@.thread == old(self)@.thread
                &&& final(self)@.thread_index == old(self)@.thread_index
                &&& final(self)@.domain == old(self)@.domain
                &&& final(self)@.applying == old(self)@.applying
            },
            r != ListLoad::Built ==> final(self)@ == old(self)@,
    {
        let mut i: usize = 0;
        while i < messages.len()
            invariant
                self.wf(),
                self@ == old(self)@,
                i <= messages@.len(),
                forall|j: int|
                    0 <= j < i ==> ((#[trigger] messages@[j]).refs matches Some(r) ==> r@.len() > 0),
            decreases messages@.len() - i,
        {
            match &messages[i].refs {
                Some(refs) => {
                    if refs.len() == 0 {
                        assert(!refs_nonempty(messages@)) by {
                            assert(messages@[i as int].refs matches Some(r) && r@.len() == 0);
                        }
                        return ListLoad::EmptyReference;
                    }
                },
                None => {},
            }
            i = i + 1;
        }
        let fams = group_replies(&messages);
        let ids = collect_roots(&messages);
        let ghost replies = family_map(fams@);
        if ids.len() > 0 {
            let bound = fams.len() + 1;
            let mut t: usize = 0;
            while t < ids.len()
                invariant
                    self.wf(),
                    self@ == old(self)@,
                    refs_nonempty(messages@),
                    distinct_parents(fams@),
                    replies == family_map(fams@),
                    replies == reply_map(messages@),
                    forall|k: int| 0 <= k < ids@.len() ==> names_root(messages@, #[trigger] ids@[k]),
                    ids@ == root_ids(messages@),
                    bound == fams@.len() + 1,
                    t <= ids@.len(),
                    forall|a: int| 0 <= a < t ==> finite(replies, (#[trigger] ids@[a])@, bound as nat),
                decreases ids@.len() - t,
            {
                if !thread_ends(&fams, &ids[t], bound) {
                    proof {
                        let x = ids@[t as int];
                        assert(names_root(messages@, x));
                        let j = choose|j: int|
                            0 <= j < messages@.len() && (#[trigger] messages@[j]).refs is None
                                && messages@[j].m_id == x;
                        assert(!ends(reply_map(messages@), messages@[j].m_id@)) by {
                            if ends(reply_map(messages@), x@) {
                                let f = choose|f: nat| f <= usize::MAX && finite(replies, x@, f);
                                lemma_finite_bound(fams@, x@, f);
                            }
                        }
                    }
                    return ListLoad::EndlessThread;
                }
                t = t + 1;
            }
            proof {
                assert forall|j: int|
                    0 <= j < messages@.len() && (#[trigger] messages@[j]).refs is None implies ends(
                    reply_map(messages@),
                    messages@[j].m_id@,
                ) by {
                    lemma_root_ids_contains(messages@, j);
                    let a = choose|a: int| 0 <= a < ids@.len() && ids@[a] == messages@[j].m_id;
                    assert(finite(replies, ids@[a]@, bound as nat));
                }
            }
        } else {
            proof {
                assert forall|j: int|
                    0 <= j < messages@.len() && (#[trigger] messages@[j]).refs is None implies ends(
                    reply_map(messages@),
                    messages@[j].m_id@,
                ) by {
                    lemma_root_ids_contains(messages@, j);
                }
            }
        }
        self.prepare_list(messages);
        ListLoad::Built
    }
}

} // verus!

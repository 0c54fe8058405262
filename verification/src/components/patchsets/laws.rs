//! What holds of the list and of the threads it opens, across updates.

use vstd::prelude::*;

use crate::action::Action;
use crate::components::Key;
use crate::text::text_ge;
use crate::components::patchsets::{
    LocalMode, PatchsetsKey, PatchsetsView, node_ids, patchsets_key, patchsets_step,
};
use crate::components::patchsets::index::{
    date_key, kids, lemma_index_of_has, lemma_reply_map_kids, lemma_root_ids_named, reply_map,
    root_ids,
};
use crate::components::patchsets::walk::{
    attached, finite, holds_replies, lemma_walk_attached, lemma_walk_holds_replies,
    all_known, ends, lemma_latest_bounds, lemma_walk_known, lemma_walk_list_nested,
    lemma_walk_nested, nested_from, replies_known, thread_fuel, thread_of, walk_list,
};

verus! {

broadcast use vstd::seq_lib::group_to_multiset_ensures;

/// Each listed thread starts with a known message.
pub proof fn lemma_roots_known(s: PatchsetsView, i: int)
    requires
        s.inv(),
        0 <= i < s.roots.len(),
    ensures
        s.by_id.contains_key(s.roots[i].m_id@),
{
    let x = s.roots[i].m_id;
    assert(node_ids(s.roots)[i] == x);
    assert(node_ids(s.roots).to_multiset().count(x) > 0);
    assert(root_ids(s.messages).contains(x));
    lemma_root_ids_named(s.messages, x);
    let j = choose|j: int|
        0 <= j < s.messages.len() && (#[trigger] s.messages[j]).refs is None && s.messages[j].m_id
            == x;
    lemma_index_of_has(s.messages, j);
}

/// An opened thread starts with its first message, unindented, and every
/// entry in it is a known message.
pub proof fn lemma_thread_shape(s: PatchsetsView, i: int)
    requires
        s.inv(),
        0 <= i < s.roots.len(),
    ensures
        thread_of(s.by_id, s.replies, s.roots[i].m_id).len() > 0,
        thread_of(s.by_id, s.replies, s.roots[i].m_id)[0] == (0usize, s.roots[i].m_id),
        all_known(s.by_id, thread_of(s.by_id, s.replies, s.roots[i].m_id)),
{
    let r = s.roots[i].m_id;
    lemma_roots_known(s, i);
    let f = thread_fuel(s.replies, r@);
    assert(ends(s.replies, r@));
    assert(f > 0);
    lemma_walk_known(s.by_id, s.replies, r, 0, f);
}

/// A listed thread's date is that of its latest message: no message of the
/// thread sorts after it.
pub proof fn lemma_root_is_latest(s: PatchsetsView, i: int, k: int)
    requires
        s.inv(),
        0 <= i < s.roots.len(),
        0 <= k < thread_of(s.by_id, s.replies, s.roots[i].m_id).len(),
    ensures
        text_ge(
            s.roots[i].last_updated@,
            date_key(s.by_id, thread_of(s.by_id, s.replies, s.roots[i].m_id)[k].1@),
        ),
{
    lemma_latest_bounds(s.by_id, thread_of(s.by_id, s.replies, s.roots[i].m_id), seq![]);
}

/// Moving down and back up in the list, where there is an entry below,
/// returns to the same state; likewise in a thread.
pub proof fn lemma_down_then_up(s: PatchsetsView)
    requires
        s.inv(),
        s.mode == LocalMode::Listing ==> s.list_index + 1 < s.roots.len(),
        s.mode == LocalMode::Thread ==> s.thread_index + 1 < s.thread.len(),
    ensures
        patchsets_step(
            patchsets_step(s, Action::PatchsetsAddIndex).0,
            Action::PatchsetsSubIndex,
        ).0 == s,
{
}

/// Moving up at the top of the list or of a thread stays there.
pub proof fn lemma_up_at_top(s: PatchsetsView)
    requires
        s.mode == LocalMode::Listing ==> s.list_index == 0,
        s.mode == LocalMode::Thread ==> s.thread_index == 0,
    ensures
        patchsets_step(s, Action::PatchsetsSubIndex).0 == s,
{
}

/// While a download is under way no key starts another, and the report of
/// the application ends it.
pub proof fn lemma_one_download_at_a_time(s: PatchsetsView, key: Key, outcome: crate::action::KtreeStatus)
    requires
        s.applying,
    ensures
        !(patchsets_key(s, key).1 is Download),
        patchsets_key(s, key).0 == s,
        !patchsets_step(s, Action::KtreeResult(outcome)).0.applying,
{
}

/// Every reply that the state holds is a known message.
pub proof fn lemma_replies_known(s: PatchsetsView)
    requires
        s.inv(),
    ensures
        replies_known(s.by_id, s.replies),
{
    assert forall|p: Seq<char>, k: int|
        0 <= k < kids(s.replies, p).len() implies s.by_id.contains_key(
        (#[trigger] kids(s.replies, p)[k])@,
    ) by {
        let c = kids(s.replies, p)[k];
        let orig = kids(reply_map(s.messages), p);
        assert(kids(s.replies, p).to_multiset() == orig.to_multiset());
        assert(kids(s.replies, p).to_multiset().count(c) > 0);
        assert(orig.contains(c));
        let i = choose|i: int| 0 <= i < orig.len() && orig[i] == c;
        lemma_reply_map_kids(s.messages, p, i);
        let j = choose|j: int| 0 <= j < s.messages.len() && (#[trigger] s.messages[j]).m_id == orig[i];
        lemma_index_of_has(s.messages, j);
    }
}

/// An opened thread reads as a tree: its first message unindented, and
/// every later entry a reply, indented at least one level and at most one
/// level deeper than the entry above it.
pub proof fn lemma_thread_nesting(s: PatchsetsView, i: int)
    requires
        s.inv(),
        0 <= i < s.roots.len(),
    ensures
        nested_from(thread_of(s.by_id, s.replies, s.roots[i].m_id), 0),
        forall|k: int|
            1 <= k < thread_of(s.by_id, s.replies, s.roots[i].m_id).len() ==> (#[trigger] thread_of(
                s.by_id,
                s.replies,
                s.roots[i].m_id,
            )[k]).0 >= 1,
{
    let r = s.roots[i].m_id;
    lemma_roots_known(s, i);
    lemma_replies_known(s);
    let f = thread_fuel(s.replies, r@);
    assert(ends(s.replies, r@));
    lemma_walk_nested(s.by_id, s.replies, r, 0, f);
    let t = thread_of(s.by_id, s.replies, r);
    let ks = kids(s.replies, r@);
    assert forall|k: int| 0 <= k < ks.reverse().len() implies s.by_id.contains_key(
        (#[trigger] ks.reverse()[k])@,
    ) by {
        assert(ks.reverse()[k] == ks[ks.len() - 1 - k]);
    }
    lemma_walk_list_nested(s.by_id, s.replies, ks.reverse(), 1, (f - 1) as nat);
    let rest = walk_list(s.by_id, s.replies, ks.reverse(), 1, (f - 1) as nat);
    assert(t == seq![(0usize, r)] + rest);
    assert forall|k: int| 1 <= k < t.len() implies (#[trigger] t[k]).0 >= 1 by {
        assert(t[k] == rest[k - 1]);
    }
}


/// An opened thread is read depth first: its first message comes first,
/// and every later entry sits right under the message it replies to, i.e.
/// the nearest entry above it that is one level shallower has it among its
/// replies (so each reply's own replies follow it before the next sibling).
pub proof fn lemma_thread_depth_first(s: PatchsetsView, i: int)
    requires
        s.inv(),
        0 <= i < s.roots.len(),
    ensures
        thread_of(s.by_id, s.replies, s.roots[i].m_id)[0] == (0usize, s.roots[i].m_id),
        forall|k: int|
            1 <= k < thread_of(s.by_id, s.replies, s.roots[i].m_id).len() ==> attached(
                s.replies,
                thread_of(s.by_id, s.replies, s.roots[i].m_id),
                k,
            ),
{
    let r = s.roots[i].m_id;
    lemma_roots_known(s, i);
    lemma_replies_known(s);
    let f = thread_fuel(s.replies, r@);
    assert(ends(s.replies, r@));
    assert(f > 0);
    lemma_walk_attached(s.by_id, s.replies, r, 0, f);
}

/// An opened thread leaves no reply out: every reply of a message in it
/// stands in it too, one level deeper than that message. With
/// `lemma_thread_depth_first` (each later entry is a reply of an entry
/// above it), the thread holds exactly the messages that its first message
/// leads to by replies.
pub proof fn lemma_thread_whole(s: PatchsetsView, i: int)
    requires
        s.inv(),
        0 <= i < s.roots.len(),
    ensures
        holds_replies(s.replies, thread_of(s.by_id, s.replies, s.roots[i].m_id)),
{
    let r = s.roots[i].m_id;
    lemma_replies_known(s);
    let f = thread_fuel(s.replies, r@);
    assert(ends(s.replies, r@));
    assert(finite(s.replies, r@, f));
    lemma_walk_holds_replies(s.by_id, s.replies, r, 0, f);
}

/// The keys: in the list and in a thread alike `j` moves down and `k` moves
/// up; Enter opens the selected thread from the list; Esc goes back from a
/// thread to the list. None of these changes the state. Outside the list
/// and a thread no key does anything.
pub proof fn lemma_navigation_keys(s: PatchsetsView, key: Key)
    ensures
        (s.mode == LocalMode::Listing || s.mode == LocalMode::Thread) ==> {
            &&& patchsets_key(s, Key::Char('j')) == (s, PatchsetsKey::Emit(Action::PatchsetsAddIndex))
            &&& patchsets_key(s, Key::Char('k')) == (s, PatchsetsKey::Emit(Action::PatchsetsSubIndex))
        },
        s.mode == LocalMode::Listing ==> patchsets_key(s, Key::Enter) == (
            s,
            PatchsetsKey::Emit(Action::PatchsetsThread),
        ),
        s.mode == LocalMode::Listing ==> patchsets_key(s, Key::Esc) == (s, PatchsetsKey::Nothing),
        s.mode == LocalMode::Thread ==> patchsets_key(s, Key::Esc) == (
            s,
            PatchsetsKey::Emit(Action::PatchsetsSetMode(LocalMode::Listing)),
        ),
        s.mode == LocalMode::Thread ==> patchsets_key(s, Key::Enter) == (s, PatchsetsKey::Nothing),
        (s.mode == LocalMode::Idle || s.mode == LocalMode::Processing) ==> patchsets_key(s, key) == (
            s,
            PatchsetsKey::Nothing,
        ),
{
}

/// `a` in a thread, with no download under way and an entry selected,
/// downloads exactly the selected message and marks a download under way.
pub proof fn lemma_download_key(s: PatchsetsView)
    requires
        s.mode == LocalMode::Thread,
        !s.applying,
        s.thread_index < s.thread.len(),
    ensures
        patchsets_key(s, Key::Char('a')).1 == PatchsetsKey::Download(s.thread[s.thread_index as int].1),
        patchsets_key(s, Key::Char('a')).0 == (PatchsetsView { applying: true, ..s }),
{
}

} // verus!

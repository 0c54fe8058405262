//! Messages by id, replies by the message they answer, and the order
//! of replies and threads by date.

use vstd::prelude::*;

use crate::text::{str_less, text_ge, text_lt};
use crate::components::patchsets::Message;

verus! {

broadcast use vstd::seq_lib::group_to_multiset_ensures;

/// The replies to one message.
pub(crate) struct Family {
    pub(crate) parent: String,
    pub(crate) children: Vec<String>,
}

/// Messages by id; of several with one id, the last.
pub open spec fn index_of(msgs: Seq<Message>) -> Map<Seq<char>, Message>
    decreases msgs.len(),
{
    if msgs.len() == 0 {
        Map::empty()
    } else {
        index_of(msgs.drop_last()).insert(msgs.last().m_id@, msgs.last())
    }
}

/// The message that `m` replies to: the last of its references.
pub open spec fn parent_of(m: Message) -> Option<Seq<char>> {
    match m.refs {
        Some(r) => Some(r@.last()@),
        None => None,
    }
}

/// Replies by the id of the message they reply to, in message order.
pub open spec fn reply_map(msgs: Seq<Message>) -> Map<Seq<char>, Seq<String>>
    decreases msgs.len(),
{
    if msgs.len() == 0 {
        Map::empty()
    } else {
        let prev = reply_map(msgs.drop_last());
        let m = msgs.last();
        match parent_of(m) {
            Some(p) => prev.insert(p, kids(prev, p).push(m.m_id)),
            None => prev,
        }
    }
}

/// The replies to `id` that `replies` holds.
pub open spec fn kids(replies: Map<Seq<char>, Seq<String>>, id: Seq<char>) -> Seq<String> {
    if replies.contains_key(id) {
        replies[id]
    } else {
        seq![]
    }
}

/// The ids of the messages that reply to nothing, in message order.
pub open spec fn root_ids(msgs: Seq<Message>) -> Seq<String>
    decreases msgs.len(),
{
    if msgs.len() == 0 {
        seq![]
    } else if msgs.last().refs is None {
        root_ids(msgs.drop_last()).push(msgs.last().m_id)
    } else {
        root_ids(msgs.drop_last())
    }
}

/// Every reference list that is there is non-empty.
pub open spec fn refs_nonempty(msgs: Seq<Message>) -> bool {
    forall|i: int| 0 <= i < msgs.len() ==> ((#[trigger] msgs[i]).refs matches Some(r) ==> r@.len() > 0)
}

pub(crate) open spec fn family_map(fams: Seq<Family>) -> Map<Seq<char>, Seq<String>>
    decreases fams.len(),
{
    if fams.len() == 0 {
        Map::empty()
    } else {
        family_map(fams.drop_last()).insert(fams.last().parent@, fams.last().children@)
    }
}

pub(crate) open spec fn distinct_parents(fams: Seq<Family>) -> bool {
    forall|a: int, b: int|
        0 <= a < b < fams.len() ==> (#[trigger] fams[a]).parent@ != (#[trigger] fams[b]).parent@
}

pub(crate) proof fn lemma_family_map_at(fams: Seq<Family>, k: int)
    requires
        distinct_parents(fams),
        0 <= k < fams.len(),
    ensures
        family_map(fams).contains_key(fams[k].parent@),
        family_map(fams)[fams[k].parent@] == fams[k].children@,
    decreases fams.len(),
{
    if k < fams.len() - 1 {
        lemma_family_map_at(fams.drop_last(), k);
    }
}

pub(crate) proof fn lemma_family_map_absent(fams: Seq<Family>, p: Seq<char>)
    requires
        forall|k: int| 0 <= k < fams.len() ==> (#[trigger] fams[k]).parent@ != p,
    ensures
        !family_map(fams).contains_key(p),
    decreases fams.len(),
{
    if fams.len() > 0 {
        lemma_family_map_absent(fams.drop_last(), p);
    }
}

pub(crate) proof fn lemma_family_map_dom(fams: Seq<Family>, p: Seq<char>)
    requires
        family_map(fams).contains_key(p),
    ensures
        exists|k: int| 0 <= k < fams.len() && (#[trigger] fams[k]).parent@ == p,
    decreases fams.len(),
{
    if fams.last().parent@ != p {
        lemma_family_map_dom(fams.drop_last(), p);
        let k = choose|k: int| 0 <= k < fams.len() - 1 && (#[trigger] fams.drop_last()[k]).parent@ == p;
        assert(fams[k] == fams.drop_last()[k]);
    }
}

/// Replacing the children of family `k` replaces them in the map.
pub(crate) proof fn lemma_family_map_update(fams: Seq<Family>, k: int, f: Family)
    requires
        distinct_parents(fams),
        0 <= k < fams.len(),
        f.parent@ == fams[k].parent@,
    ensures
        distinct_parents(fams.update(k, f)),
        family_map(fams.update(k, f)) == family_map(fams).insert(f.parent@, f.children@),
    decreases fams.len(),
{
    let g = fams.update(k, f);
    assert forall|a: int, b: int| 0 <= a < b < g.len() implies (#[trigger] g[a]).parent@
        != (#[trigger] g[b]).parent@ by {
        assert(fams[a].parent@ != fams[b].parent@);
    }
    if k == fams.len() - 1 {
        assert(g.drop_last() =~= fams.drop_last());
        assert forall|j: int| 0 <= j < fams.drop_last().len() implies (
        #[trigger] fams.drop_last()[j]).parent@ != f.parent@ by {
            assert(fams[j].parent@ != fams[k].parent@);
        }
        lemma_family_map_absent(fams.drop_last(), f.parent@);
        assert(family_map(g) =~= family_map(fams).insert(f.parent@, f.children@));
    } else {
        assert(g.drop_last() =~= fams.drop_last().update(k, f));
        lemma_family_map_update(fams.drop_last(), k, f);
        assert(fams.last().parent@ != f.parent@);
        assert(family_map(g) =~= family_map(fams).insert(f.parent@, f.children@));
    }
}

/// Position of the family of `parent`, if there is one.
pub(crate) fn find_family(fams: &Vec<Family>, parent: &String) -> (r: Option<usize>)
    requires
        distinct_parents(fams@),
    ensures
        r matches Some(k) ==> k < fams@.len() && fams@[k as int].parent@ == parent@,
        r is None ==> forall|k: int| 0 <= k < fams@.len() ==> (#[trigger] fams@[k]).parent@
            != parent@,
{
    let mut k: usize = 0;
    while k < fams.len()
        invariant
            k <= fams@.len(),
            forall|j: int| 0 <= j < k ==> (#[trigger] fams@[j]).parent@ != parent@,
        decreases fams@.len() - k,
    {
        if fams[k].parent == *parent {
            return Some(k);
        }
        k = k + 1;
    }
    None
}

/// Groups the replies in `msgs` by the message they reply to.
pub(crate) fn group_replies(msgs: &Vec<Message>) -> (fams: Vec<Family>)
    requires
        refs_nonempty(msgs@),
    ensures
        distinct_parents(fams@),
        family_map(fams@) == reply_map(msgs@),
        fams@.len() + root_ids(msgs@).len() <= msgs@.len(),
{
    let mut fams: Vec<Family> = Vec::new();
    let mut i: usize = 0;
    while i < msgs.len()
        invariant
            i <= msgs@.len(),
            fams@.len() + root_ids(msgs@.take(i as int)).len() <= i,
            refs_nonempty(msgs@),
            distinct_parents(fams@),
            family_map(fams@) == reply_map(msgs@.take(i as int)),
        decreases msgs@.len() - i,
    {
        let m = &msgs[i];
        assert(msgs@.take(i + 1).drop_last() =~= msgs@.take(i as int));
        proof {
            lemma_root_ids_step(msgs@, i as int);
        }
        match &m.refs {
            Some(refs) => {
                assert(refs@.len() > 0);
                let parent = &refs[refs.len() - 1];
                match find_family(&fams, parent) {
                    Some(k) => {
                        proof {
                            lemma_family_map_at(fams@, k as int);
                        }
                        let ghost old_fams = fams@;
                        fams[k].children.push(m.m_id.clone());
                        proof {
                            assert(fams@ =~= old_fams.update(k as int, fams@[k as int]));
                            lemma_family_map_update(old_fams, k as int, fams@[k as int]);
                        }
                    },
                    None => {
                        proof {
                            lemma_family_map_absent(fams@, parent@);
                        }
                        let ghost old_fams = fams@;
                        let mut children: Vec<String> = Vec::new();
                        children.push(m.m_id.clone());
                        fams.push(Family { parent: parent.clone(), children });
                        proof {
                            assert(fams@.drop_last() =~= old_fams);
                            assert forall|a: int, b: int| 0 <= a < b < fams@.len() implies (
                            #[trigger] fams@[a]).parent@ != (#[trigger] fams@[b]).parent@ by {
                                if b == fams@.len() - 1 {
                                    assert(fams@[a] == old_fams[a]);
                                } else {
                                    assert(old_fams[a].parent@ != old_fams[b].parent@);
                                }
                            }
                            assert(kids(reply_map(msgs@.take(i as int)), parent@) =~= seq![]);
                        }
                    },
                }
            },
            None => {},
        }
        i = i + 1;
    }
    assert(msgs@.take(msgs@.len() as int) =~= msgs@);
    fams
}

/// The date of message `id`, or the empty text for an unknown id.
pub open spec fn date_key(by_id: Map<Seq<char>, Message>, id: Seq<char>) -> Seq<char> {
    if by_id.contains_key(id) {
        by_id[id].date_time@
    } else {
        seq![]
    }
}

pub(crate) proof fn lemma_index_of_last(msgs: Seq<Message>, i: int)
    requires
        0 <= i < msgs.len(),
        forall|k: int| i < k < msgs.len() ==> (#[trigger] msgs[k]).m_id@ != msgs[i].m_id@,
    ensures
        index_of(msgs).contains_key(msgs[i].m_id@),
        index_of(msgs)[msgs[i].m_id@] == msgs[i],
    decreases msgs.len(),
{
    if i < msgs.len() - 1 {
        assert forall|k: int| i < k < msgs.drop_last().len() implies (
        #[trigger] msgs.drop_last()[k]).m_id@ != msgs.drop_last()[i].m_id@ by {
            assert(msgs[k].m_id@ != msgs[i].m_id@);
        }
        lemma_index_of_last(msgs.drop_last(), i);
        assert(msgs.last().m_id@ != msgs[i].m_id@);
    }
}

pub(crate) proof fn lemma_index_of_absent(msgs: Seq<Message>, id: Seq<char>)
    requires
        forall|k: int| 0 <= k < msgs.len() ==> (#[trigger] msgs[k]).m_id@ != id,
    ensures
        !index_of(msgs).contains_key(id),
    decreases msgs.len(),
{
    if msgs.len() > 0 {
        lemma_index_of_absent(msgs.drop_last(), id);
    }
}

/// Position of the message that `index_of` keeps for `id`, if any.
pub(crate) fn find_message(msgs: &Vec<Message>, id: &String) -> (r: Option<usize>)
    ensures
        r is None <==> !index_of(msgs@).contains_key(id@),
        r matches Some(i) ==> i < msgs@.len() && index_of(msgs@)[id@] == msgs@[i as int],
{
    let mut j: usize = msgs.len();
    while j > 0
        invariant
            j <= msgs@.len(),
            forall|k: int| j <= k < msgs@.len() ==> (#[trigger] msgs@[k]).m_id@ != id@,
        decreases j,
    {
        if msgs[j - 1].m_id == *id {
            proof {
                lemma_index_of_last(msgs@, j - 1);
            }
            return Some(j - 1);
        }
        j = j - 1;
    }
    proof {
        lemma_index_of_absent(msgs@, id@);
    }
    None
}

/// The date of message `id` among `msgs`, or the empty text.
pub(crate) fn date_of(msgs: &Vec<Message>, id: &String) -> (r: String)
    ensures
        r@ == date_key(index_of(msgs@), id@),
{
    match find_message(msgs, id) {
        Some(i) => msgs[i].date_time.clone(),
        None => String::new(),
    }
}

/// `keys` sorted latest first.
pub open spec fn sorted_desc(keys: Seq<Seq<char>>) -> bool {
    forall|i: int, j: int| 0 <= i < j < keys.len() ==> text_ge(#[trigger] keys[i], #[trigger] keys[j])
}

/// Sorts `ids` by their `keys`, latest first, keeping the order of equal
/// keys; `key` says what each id's key is.
pub(crate) fn sort_by_key_desc(
    keys: &Vec<String>,
    ids: &Vec<String>,
    Ghost(key): Ghost<spec_fn(String) -> Seq<char>>,
) -> (r: (Vec<String>, Vec<String>))
    requires
        keys@.len() == ids@.len(),
        forall|i: int| 0 <= i < ids@.len() ==> (#[trigger] keys@[i])@ == key(ids@[i]),
    ensures
        r.0@.len() == r.1@.len(),
        r.1@.to_multiset() == ids@.to_multiset(),
        forall|i: int| 0 <= i < r.1@.len() ==> (#[trigger] r.0@[i])@ == key(r.1@[i]),
        forall|i: int, j: int|
            0 <= i < j < r.0@.len() ==> text_ge((#[trigger] r.0@[i])@, (#[trigger] r.0@[j])@),
{
    let mut out_keys: Vec<String> = Vec::new();
    let mut out_ids: Vec<String> = Vec::new();
    let mut i: usize = 0;
    while i < ids.len()
        invariant
            keys@.len() == ids@.len(),
            forall|k: int| 0 <= k < ids@.len() ==> (#[trigger] keys@[k])@ == key(ids@[k]),
            i <= ids@.len(),
            out_keys@.len() == out_ids@.len(),
            out_ids@.to_multiset() == ids@.take(i as int).to_multiset(),
            forall|k: int| 0 <= k < out_ids@.len() ==> (#[trigger] out_keys@[k])@ == key(out_ids@[k]),
            forall|a: int, b: int|
                0 <= a < b < out_keys@.len() ==> text_ge(
                    (#[trigger] out_keys@[a])@,
                    (#[trigger] out_keys@[b])@,
                ),
        decreases ids@.len() - i,
    {
        let x = keys[i].clone();
        let y = ids[i].clone();
        let mut p: usize = 0;
        while p < out_keys.len() && !str_less(out_keys[p].as_str(), x.as_str())
            invariant
                p <= out_keys@.len(),
                forall|a: int| 0 <= a < p ==> text_ge((#[trigger] out_keys@[a])@, x@),
            decreases out_keys@.len() - p,
        {
            p = p + 1;
        }
        let ghost old_keys = out_keys@;
        let ghost old_ids = out_ids@;
        out_keys.insert(p, x);
        out_ids.insert(p, y);
        proof {
            vstd::seq_lib::to_multiset_insert(old_ids, p as int, y);
            assert(ids@.take(i + 1) =~= ids@.take(i as int).push(ids@[i as int]));
            vstd::seq_lib::to_multiset_build(ids@.take(i as int), ids@[i as int]);
            assert forall|a: int, b: int| 0 <= a < b < out_keys@.len() implies text_ge(
                (#[trigger] out_keys@[a])@,
                (#[trigger] out_keys@[b])@,
            ) by {
                if b < p {
                } else if b == p {
                } else if a < p {
                    assert(out_keys@[b] == old_keys[b - 1]);
                } else if a == p {
                    let o = old_keys[b - 1];
                    assert(out_keys@[b] == o);
                    assert(text_lt(old_keys[p as int]@, x@));
                    if p as int != b - 1 {
                        assert(text_ge(old_keys[p as int]@, o@));
                    } else {
                        crate::text::lemma_text_lt_irreflexive(o@);
                    }
                    if text_lt(x@, o@) {
                        crate::text::lemma_text_lt_transitive(old_keys[p as int]@, x@, o@);
                        crate::text::lemma_text_lt_irreflexive(o@);
                    }
                } else {
                    assert(out_keys@[a] == old_keys[a - 1]);
                    assert(out_keys@[b] == old_keys[b - 1]);
                }
            }
        }
        i = i + 1;
    }
    assert(ids@.take(ids@.len() as int) =~= ids@);
    (out_keys, out_ids)
}

/// The dates of `ids`.
pub open spec fn dates_of(by_id: Map<Seq<char>, Message>, ids: Seq<String>) -> Seq<Seq<char>> {
    ids.map_values(|c: String| date_key(by_id, c@))
}

/// Sorts each family's replies latest first.
pub(crate) fn sort_families(msgs: &Vec<Message>, fams: &mut Vec<Family>)
    requires
        distinct_parents(old(fams)@),
    ensures
        distinct_parents(final(fams)@),
        family_map(final(fams)@).dom() == family_map(old(fams)@).dom(),
        forall|p: Seq<char>|
            (#[trigger] kids(family_map(final(fams)@), p)).to_multiset() == kids(
                family_map(old(fams)@),
                p,
            ).to_multiset(),
        forall|p: Seq<char>|
            sorted_desc(dates_of(index_of(msgs@), #[trigger] kids(family_map(final(fams)@), p))),
{
    let ghost by_id = index_of(msgs@);
    let ghost orig = fams@;
    let ghost key = |c: String| date_key(by_id, c@);
    let mut k: usize = 0;
    while k < fams.len()
        invariant
            by_id == index_of(msgs@),
            key == (|c: String| date_key(by_id, c@)),
            fams@.len() == orig.len(),
            distinct_parents(orig),
            k <= fams@.len(),
            forall|j: int| 0 <= j < fams@.len() ==> (#[trigger] fams@[j]).parent@ == orig[j].parent@,
            forall|j: int|
                0 <= j < k ==> (#[trigger] fams@[j]).children@.to_multiset()
                    == orig[j].children@.to_multiset() && sorted_desc(
                    dates_of(by_id, fams@[j].children@),
                ),
            forall|j: int| k <= j < fams@.len() ==> #[trigger] fams@[j] == orig[j],
        decreases orig.len() - k,
    {
        let mut keys: Vec<String> = Vec::new();
        let mut t: usize = 0;
        while t < fams[k].children.len()
            invariant
                by_id == index_of(msgs@),
                key == (|c: String| date_key(by_id, c@)),
                k < fams@.len(),
                t <= fams@[k as int].children@.len(),
                keys@.len() == t,
                forall|a: int| 0 <= a < t ==> (#[trigger] keys@[a])@ == key(fams@[k as int].children@[a]),
            decreases fams@[k as int].children@.len() - t,
        {
            keys.push(date_of(msgs, &fams[k].children[t]));
            t = t + 1;
        }
        let (sorted_keys, sorted_ids) = sort_by_key_desc(&keys, &fams[k].children, Ghost(key));
        proof {
            assert(dates_of(by_id, sorted_ids@) =~= sorted_keys@.map_values(|x: String| x@));
        }
        fams[k].children = sorted_ids;
        k = k + 1;
    }
    proof {
        let fin = fams@;
        assert(distinct_parents(fin)) by {
            assert forall|a: int, b: int| 0 <= a < b < fin.len() implies (#[trigger] fin[a]).parent@
                != (#[trigger] fin[b]).parent@ by {
                assert(orig[a].parent@ != orig[b].parent@);
            }
        }
        assert forall|p: Seq<char>| #[trigger] family_map(fin).contains_key(p) <==> family_map(
            orig,
        ).contains_key(p) by {
            if family_map(fin).contains_key(p) {
                lemma_family_map_dom(fin, p);
                let j = choose|j: int| 0 <= j < fin.len() && (#[trigger] fin[j]).parent@ == p;
                lemma_family_map_at(orig, j);
            }
            if family_map(orig).contains_key(p) {
                lemma_family_map_dom(orig, p);
                let j = choose|j: int| 0 <= j < orig.len() && (#[trigger] orig[j]).parent@ == p;
                lemma_family_map_at(fin, j);
            }
        }
        assert(family_map(fin).dom() =~= family_map(orig).dom());
        assert forall|p: Seq<char>|
            (#[trigger] kids(family_map(fin), p)).to_multiset() == kids(
                family_map(orig),
                p,
            ).to_multiset() && sorted_desc(dates_of(by_id, kids(family_map(fin), p))) by {
            if family_map(fin).contains_key(p) {
                lemma_family_map_dom(fin, p);
                let j = choose|j: int| 0 <= j < fin.len() && (#[trigger] fin[j]).parent@ == p;
                lemma_family_map_at(orig, j);
                lemma_family_map_at(fin, j);
            } else {
                assert(dates_of(by_id, kids(family_map(fin), p)) =~= Seq::<Seq<char>>::empty());
            }
        }
    }
}

pub(crate) proof fn lemma_root_ids_step(msgs: Seq<Message>, i: int)
    requires
        0 <= i < msgs.len(),
    ensures
        root_ids(msgs.take(i + 1)) == if msgs[i].refs is None {
            root_ids(msgs.take(i)).push(msgs[i].m_id)
        } else {
            root_ids(msgs.take(i))
        },
{
    assert(msgs.take(i + 1).drop_last() =~= msgs.take(i));
}

/// Some message with id `x` replies to nothing.
pub(crate) open spec fn names_root(msgs: Seq<Message>, x: String) -> bool {
    exists|j: int| 0 <= j < msgs.len() && (#[trigger] msgs[j]).refs is None && msgs[j].m_id == x
}

/// The ids of the messages that reply to nothing, in order.
pub(crate) fn collect_roots(msgs: &Vec<Message>) -> (ids: Vec<String>)
    ensures
        ids@ == root_ids(msgs@),
        forall|k: int| 0 <= k < ids@.len() ==> names_root(msgs@, #[trigger] ids@[k]),
{
    let mut ids: Vec<String> = Vec::new();
    let mut i: usize = 0;
    while i < msgs.len()
        invariant
            i <= msgs@.len(),
            ids@ == root_ids(msgs@.take(i as int)),
            forall|k: int| 0 <= k < ids@.len() ==> names_root(msgs@, #[trigger] ids@[k]),
        decreases msgs@.len() - i,
    {
        proof {
            lemma_root_ids_step(msgs@, i as int);
        }
        let ghost before = ids@;
        if msgs[i].refs.is_none() {
            ids.push(msgs[i].m_id.clone());
            proof {
                assert forall|k: int| 0 <= k < ids@.len() implies names_root(
                    msgs@,
                    #[trigger] ids@[k],
                ) by {
                    if k == ids@.len() - 1 {
                        assert(msgs@[i as int].refs is None && msgs@[i as int].m_id == ids@[k]);
                    } else {
                        assert(ids@[k] == before[k]);
                    }
                }
            }
        }
        i = i + 1;
    }
    assert(msgs@.take(msgs@.len() as int) =~= msgs@);
    ids
}

pub(crate) proof fn lemma_index_of_has(msgs: Seq<Message>, j: int)
    requires
        0 <= j < msgs.len(),
    ensures
        index_of(msgs).contains_key(msgs[j].m_id@),
    decreases msgs.len(),
{
    if j < msgs.len() - 1 {
        lemma_index_of_has(msgs.drop_last(), j);
    }
}

pub(crate) proof fn lemma_root_ids_named(msgs: Seq<Message>, x: String)
    requires
        root_ids(msgs).contains(x),
    ensures
        names_root(msgs, x),
    decreases msgs.len(),
{
    let last = msgs.len() - 1;
    if msgs.last().refs is None && msgs.last().m_id == x {
        assert(msgs[last].refs is None && msgs[last].m_id == x);
    } else {
        if msgs.last().refs is None {
            let k = choose|k: int| 0 <= k < root_ids(msgs).len() && root_ids(msgs)[k] == x;
            assert(root_ids(msgs) == root_ids(msgs.drop_last()).push(msgs.last().m_id));
            assert(k < root_ids(msgs.drop_last()).len());
            assert(root_ids(msgs.drop_last())[k] == x);
        }
        lemma_root_ids_named(msgs.drop_last(), x);
        let j = choose|j: int|
            0 <= j < msgs.drop_last().len() && (#[trigger] msgs.drop_last()[j]).refs is None
                && msgs.drop_last()[j].m_id == x;
        assert(msgs[j] == msgs.drop_last()[j]);
    }
}

pub(crate) proof fn lemma_root_ids_contains(msgs: Seq<Message>, i: int)
    requires
        0 <= i < msgs.len(),
        msgs[i].refs is None,
    ensures
        root_ids(msgs).contains(msgs[i].m_id),
    decreases msgs.len(),
{
    let r = root_ids(msgs);
    if i == msgs.len() - 1 {
        assert(r[r.len() - 1] == msgs[i].m_id);
    } else {
        lemma_root_ids_contains(msgs.drop_last(), i);
        let prev = root_ids(msgs.drop_last());
        let k = choose|k: int| 0 <= k < prev.len() && prev[k] == msgs[i].m_id;
        assert(r[k] == prev[k]);
    }
}

pub(crate) proof fn lemma_reply_map_kids(msgs: Seq<Message>, p: Seq<char>, k: int)
    requires
        0 <= k < kids(reply_map(msgs), p).len(),
    ensures
        exists|j: int| 0 <= j < msgs.len() && (#[trigger] msgs[j]).m_id == kids(reply_map(msgs), p)[k],
    decreases msgs.len(),
{
    let prev = reply_map(msgs.drop_last());
    let m = msgs.last();
    let c = kids(reply_map(msgs), p)[k];
    match parent_of(m) {
        Some(q) => {
            if q == p {
                assert(kids(reply_map(msgs), p) == kids(prev, p).push(m.m_id));
                if k == kids(prev, p).len() {
                    assert(msgs[msgs.len() - 1].m_id == c);
                } else {
                    lemma_reply_map_kids(msgs.drop_last(), p, k);
                    let j = choose|j: int|
                        0 <= j < msgs.drop_last().len() && (#[trigger] msgs.drop_last()[j]).m_id
                            == kids(prev, p)[k];
                    assert(msgs[j] == msgs.drop_last()[j]);
                }
            } else {
                assert(kids(reply_map(msgs), p) == kids(prev, p));
                lemma_reply_map_kids(msgs.drop_last(), p, k);
                let j = choose|j: int|
                    0 <= j < msgs.drop_last().len() && (#[trigger] msgs.drop_last()[j]).m_id
                        == kids(prev, p)[k];
                assert(msgs[j] == msgs.drop_last()[j]);
            }
        },
        None => {
            lemma_reply_map_kids(msgs.drop_last(), p, k);
            let j = choose|j: int|
                0 <= j < msgs.drop_last().len() && (#[trigger] msgs.drop_last()[j]).m_id
                    == kids(prev, p)[k];
            assert(msgs[j] == msgs.drop_last()[j]);
        },
    }
}

} // verus!

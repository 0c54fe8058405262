//! Walking a thread from its first message, and when such a walk ends.

use vstd::prelude::*;

use crate::text::{str_less, text_ge, text_lt};
use crate::components::patchsets::Message;
use crate::components::patchsets::index::{
    Family, date_key, date_of, distinct_parents, family_map, find_family, find_message, index_of,
    kids, lemma_family_map_absent, lemma_family_map_at, lemma_family_map_dom, reply_map,
};

verus! {

broadcast use vstd::seq_lib::group_to_multiset_ensures;

/// The entries of a thread from message `id` on, in the order they are
/// read: `id` itself at nesting `depth` (where it is a known message), then
/// each reply's entries one level deeper, oldest reply first (the replies
/// are kept latest first, and the walk takes them from the back). `fuel`
/// bounds the nesting; a thread whose walk ends is walked whole with enough
/// of it (see `finite`).
pub open spec fn walk(
    by_id: Map<Seq<char>, Message>,
    replies: Map<Seq<char>, Seq<String>>,
    id: String,
    depth: nat,
    fuel: nat,
) -> Seq<(usize, String)>
    decreases fuel, 0nat, 0nat,
{
    if fuel == 0 {
        seq![]
    } else {
        (if by_id.contains_key(id@) {
            seq![(depth as usize, id)]
        } else {
            seq![]
        }) + walk_list(by_id, replies, kids(replies, id@).reverse(), depth + 1, (fuel - 1) as nat)
    }
}

/// `walk` of each of `ids` in turn.
pub open spec fn walk_list(
    by_id: Map<Seq<char>, Message>,
    replies: Map<Seq<char>, Seq<String>>,
    ids: Seq<String>,
    depth: nat,
    fuel: nat,
) -> Seq<(usize, String)>
    decreases fuel, 1nat, ids.len(),
{
    if ids.len() == 0 {
        seq![]
    } else {
        walk(by_id, replies, ids[0], depth, fuel) + walk_list(
            by_id,
            replies,
            ids.drop_first(),
            depth,
            fuel,
        )
    }
}

/// Every chain of replies from `id` ends within `fuel` levels.
pub open spec fn finite(replies: Map<Seq<char>, Seq<String>>, id: Seq<char>, fuel: nat) -> bool
    decreases fuel,
{
    fuel > 0 && forall|k: int|
        0 <= k < kids(replies, id).len() ==> finite(
            replies,
            (#[trigger] kids(replies, id)[k])@,
            (fuel - 1) as nat,
        )
}

/// Number of steps a walk from `id` takes: one per message visited, known
/// or not.
pub(crate) open spec fn size(replies: Map<Seq<char>, Seq<String>>, id: Seq<char>, fuel: nat) -> nat
    decreases fuel, 0nat, 0nat,
{
    if fuel == 0 {
        0
    } else {
        1 + size_list(replies, kids(replies, id).reverse(), (fuel - 1) as nat)
    }
}

pub(crate) open spec fn size_list(replies: Map<Seq<char>, Seq<String>>, ids: Seq<String>, fuel: nat) -> nat
    decreases fuel, 1nat, ids.len(),
{
    if ids.len() == 0 {
        0
    } else {
        size(replies, ids[0]@, fuel) + size_list(replies, ids.drop_first(), fuel)
    }
}

/// What is left to walk of a stack of `(depth, id)` entries, top (last)
/// first, each walked with the fuel left at its depth.
pub(crate) open spec fn stack_walk(
    by_id: Map<Seq<char>, Message>,
    replies: Map<Seq<char>, Seq<String>>,
    stack: Seq<(usize, String)>,
    fuel: nat,
) -> Seq<(usize, String)>
    decreases stack.len(),
{
    if stack.len() == 0 {
        seq![]
    } else {
        walk(by_id, replies, stack.last().1, stack.last().0 as nat, (fuel - stack.last().0) as nat)
            + stack_walk(by_id, replies, stack.drop_last(), fuel)
    }
}

pub(crate) open spec fn stack_size(replies: Map<Seq<char>, Seq<String>>, stack: Seq<(usize, String)>, fuel: nat) -> nat
    decreases stack.len(),
{
    if stack.len() == 0 {
        0
    } else {
        size(replies, stack.last().1@, (fuel - stack.last().0) as nat) + stack_size(
            replies,
            stack.drop_last(),
            fuel,
        )
    }
}

/// Children of `id` in `fams`, by reference.
pub(crate) fn children_in<'a>(fams: &'a Vec<Family>, id: &String) -> (r: Option<&'a Vec<String>>)
    requires
        distinct_parents(fams@),
    ensures
        r matches Some(c) ==> c@ == kids(family_map(fams@), id@),
        r is None ==> kids(family_map(fams@), id@) == Seq::<String>::empty(),
{
    match find_family(fams, id) {
        Some(k) => {
            proof {
                lemma_family_map_at(fams@, k as int);
            }
            Some(&fams[k].children)
        },
        None => {
            proof {
                lemma_family_map_absent(fams@, id@);
            }
            None
        },
    }
}

/// Walks the thread from `root` as a stack of pending entries, exactly as
/// `walk` describes it.
pub(crate) fn walk_thread(
    msgs: &Vec<Message>,
    fams: &Vec<Family>,
    root: &String,
    Ghost(fuel): Ghost<nat>,
) -> (r: Vec<(usize, String)>)
    requires
        distinct_parents(fams@),
        fuel <= usize::MAX,
        finite(family_map(fams@), root@, fuel),
    ensures
        r@ == walk(index_of(msgs@), family_map(fams@), *root, 0, fuel),
{
    let ghost by_id = index_of(msgs@);
    let ghost replies = family_map(fams@);
    let mut out: Vec<(usize, String)> = Vec::new();
    let mut stack: Vec<(usize, String)> = Vec::new();
    stack.push((0, root.clone()));
    proof {
        assert(stack@.drop_last() =~= Seq::<(usize, String)>::empty());
        assert(stack@.last() == (0usize, *root));
        assert(stack_walk(by_id, replies, Seq::<(usize, String)>::empty(), fuel) == Seq::<
            (usize, String),
        >::empty());
        assert(stack_walk(by_id, replies, stack@, fuel) == walk(by_id, replies, *root, 0, fuel)
            + Seq::<(usize, String)>::empty());
        assert(stack_walk(by_id, replies, stack@, fuel) =~= walk(by_id, replies, *root, 0, fuel));
    }
    while stack.len() > 0
        invariant
            distinct_parents(fams@),
            by_id == index_of(msgs@),
            replies == family_map(fams@),
            fuel <= usize::MAX,
            forall|k: int|
                0 <= k < stack@.len() ==> (#[trigger] stack@[k]).0 < fuel && finite(
                    replies,
                    stack@[k].1@,
                    (fuel - stack@[k].0) as nat,
                ),
            out@ + stack_walk(by_id, replies, stack@, fuel) == walk(by_id, replies, *root, 0, fuel),
        decreases stack_size(replies, stack@, fuel),
    {
        let ghost before = stack@;
        let (depth, id) = stack.pop().unwrap();
        let ghost rest = stack@;
        proof {
            assert(before.drop_last() =~= rest);
            assert(before.last() == (depth, id));
        }
        let ghost f = (fuel - depth) as nat;
        let ghost ks = kids(replies, id@);
        let ghost out_before = out@;
        if find_message(msgs, &id).is_some() {
            out.push((depth, id.clone()));
        }
        proof {
            assert(f > 0);
            let head = if by_id.contains_key(id@) {
                seq![(depth as nat as usize, id)]
            } else {
                seq![]
            };
            assert(out@ =~= out_before + head);
            assert(walk(by_id, replies, id, depth as nat, f) == head + walk_list(
                by_id,
                replies,
                ks.reverse(),
                (depth + 1) as nat,
                (f - 1) as nat,
            ));
            assert(out@ + walk_list(by_id, replies, ks.reverse(), (depth + 1) as nat, (f - 1) as nat)
                + stack_walk(by_id, replies, rest, fuel) =~= walk(by_id, replies, *root, 0, fuel));
            assert(stack_size(replies, before, fuel) == 1 + size_list(
                replies,
                ks.reverse(),
                (f - 1) as nat,
            ) + stack_size(replies, rest, fuel));
        }
        match children_in(fams, &id) {
            Some(children) => {
                let mut j: usize = 0;
                assert(ks.take(0).reverse() =~= Seq::<String>::empty());
                while j < children.len()
                    invariant
                        distinct_parents(fams@),
                        replies == family_map(fams@),
                        by_id == index_of(msgs@),
                        fuel <= usize::MAX,
                        children@ == ks,
                        ks == kids(replies, id@),
                        depth < fuel,
                        f == fuel - depth,
                        finite(replies, id@, f),
                        j <= children@.len(),
                        stack@ =~= rest + Seq::new(
                            j as nat,
                            |k: int| ((depth + 1) as usize, ks[k]),
                        ),
                        forall|k: int|
                            0 <= k < stack@.len() ==> (#[trigger] stack@[k]).0 < fuel && finite(
                                replies,
                                stack@[k].1@,
                                (fuel - stack@[k].0) as nat,
                            ),
                        stack_walk(by_id, replies, stack@, fuel) == walk_list(
                            by_id,
                            replies,
                            ks.take(j as int).reverse(),
                            (depth + 1) as nat,
                            (f - 1) as nat,
                        ) + stack_walk(by_id, replies, rest, fuel),
                        stack_size(replies, stack@, fuel) == size_list(
                            replies,
                            ks.take(j as int).reverse(),
                            (f - 1) as nat,
                        ) + stack_size(replies, rest, fuel),
                    decreases children@.len() - j,
                {
                    let ghost prev = stack@;
                    let c = children[j].clone();
                    proof {
                        assert(finite(replies, id@, f));
                        assert(kids(replies, id@)[j as int] == ks[j as int]);
                        assert(finite(replies, ks[j as int]@, (f - 1) as nat));
                    }
                    stack.push(((depth + 1), c));
                    proof {
                        let tr = ks.take(j + 1).reverse();
                        assert(tr[0] == ks[j as int]);
                        assert(tr.drop_first() =~= ks.take(j as int).reverse());
                        assert(stack@.drop_last() =~= prev);
                    }
                    j = j + 1;
                }
                proof {
                    assert(ks.take(ks.len() as int) =~= ks);
                }
            },
            None => {
                proof {
                    assert(ks.reverse() =~= Seq::<String>::empty());
                    assert(stack@ =~= rest);
                }
            },
        }
    }
    proof {
        assert(out@ =~= out@ + Seq::<(usize, String)>::empty());
    }
    out
}

/// How many levels a walk from `id` needs: some bound under which every
/// chain of replies ends, where there is one that fits in `usize`.
pub open spec fn thread_fuel(replies: Map<Seq<char>, Seq<String>>, id: Seq<char>) -> nat {
    choose|f: nat| f <= usize::MAX && finite(replies, id, f)
}

/// The thread that starts at `root`, as `(nesting, id)` entries in reading
/// order.
pub open spec fn thread_of(
    by_id: Map<Seq<char>, Message>,
    replies: Map<Seq<char>, Seq<String>>,
    root: String,
) -> Seq<(usize, String)> {
    walk(by_id, replies, root, 0, thread_fuel(replies, root@))
}

/// The walk from `id` ends, within a bound that fits in `usize`.
pub open spec fn ends(replies: Map<Seq<char>, Seq<String>>, id: Seq<char>) -> bool {
    exists|f: nat| f <= usize::MAX && finite(replies, id, f)
}

/// The latest date among the entries, starting from `acc`: each known
/// message's date replaces the running value when it sorts after it.
pub open spec fn latest_date(
    by_id: Map<Seq<char>, Message>,
    entries: Seq<(usize, String)>,
    acc: Seq<char>,
) -> Seq<char>
    decreases entries.len(),
{
    if entries.len() == 0 {
        acc
    } else {
        let d = date_key(by_id, entries[0].1@);
        latest_date(by_id, entries.drop_first(), if text_lt(acc, d) { d } else { acc })
    }
}

/// Messages whose every reply chain, from each message that replies to
/// nothing, ends.
pub open spec fn threads_end(msgs: Seq<Message>) -> bool {
    forall|i: int|
        0 <= i < msgs.len() && (#[trigger] msgs[i]).refs is None ==> ends(
            reply_map(msgs),
            msgs[i].m_id@,
        )
}

pub(crate) proof fn lemma_finite_transfer(
    r1: Map<Seq<char>, Seq<String>>,
    r2: Map<Seq<char>, Seq<String>>,
    id: Seq<char>,
    f: nat,
)
    requires
        forall|p: Seq<char>| (#[trigger] kids(r1, p)).to_multiset() == kids(r2, p).to_multiset(),
    ensures
        finite(r1, id, f) == finite(r2, id, f),
    decreases f,
{
    if f > 0 {
        let k1 = kids(r1, id);
        let k2 = kids(r2, id);
        assert(k1.to_multiset() == k2.to_multiset());
        if finite(r1, id, f) {
            assert forall|k: int| 0 <= k < k2.len() implies finite(
                r2,
                (#[trigger] k2[k])@,
                (f - 1) as nat,
            ) by {
                assert(k2.to_multiset().count(k2[k]) > 0);
                assert(k1.contains(k2[k]));
                let j = choose|j: int| 0 <= j < k1.len() && k1[j] == k2[k];
                assert(finite(r1, k1[j]@, (f - 1) as nat));
                lemma_finite_transfer(r1, r2, k2[k]@, (f - 1) as nat);
            }
        }
        if finite(r2, id, f) {
            assert forall|k: int| 0 <= k < k1.len() implies finite(
                r1,
                (#[trigger] k1[k])@,
                (f - 1) as nat,
            ) by {
                assert(k1.to_multiset().count(k1[k]) > 0);
                assert(k2.contains(k1[k]));
                let j = choose|j: int| 0 <= j < k2.len() && k2[j] == k1[k];
                assert(finite(r2, k2[j]@, (f - 1) as nat));
                lemma_finite_transfer(r1, r2, k1[k]@, (f - 1) as nat);
            }
        }
    }
}

/// The latest date in `thread`, as `latest_date` from the empty text.
pub(crate) fn latest_in(msgs: &Vec<Message>, thread: &Vec<(usize, String)>) -> (r: String)
    ensures
        r@ == latest_date(index_of(msgs@), thread@, seq![]),
{
    let ghost by_id = index_of(msgs@);
    let mut acc = String::new();
    let mut t: usize = 0;
    assert(thread@.skip(0) =~= thread@);
    while t < thread.len()
        invariant
            by_id == index_of(msgs@),
            t <= thread@.len(),
            latest_date(by_id, thread@, seq![]) == latest_date(by_id, thread@.skip(t as int), acc@),
        decreases thread@.len() - t,
    {
        let d = date_of(msgs, &thread[t].1);
        assert(thread@.skip(t as int).drop_first() =~= thread@.skip(t + 1));
        if str_less(acc.as_str(), d.as_str()) {
            acc = d;
        }
        t = t + 1;
    }
    acc
}

/// Every entry names a known message.
pub open spec fn all_known(by_id: Map<Seq<char>, Message>, es: Seq<(usize, String)>) -> bool {
    forall|k: int| 0 <= k < es.len() ==> by_id.contains_key((#[trigger] es[k]).1@)
}

pub(crate) proof fn lemma_all_known_concat(by_id: Map<Seq<char>, Message>, a: Seq<(usize, String)>, b: Seq<(usize, String)>)
    requires
        all_known(by_id, a),
        all_known(by_id, b),
    ensures
        all_known(by_id, a + b),
{
    assert forall|k: int| 0 <= k < (a + b).len() implies by_id.contains_key(
        (#[trigger] (a + b)[k]).1@,
    ) by {
        if k >= a.len() {
            assert((a + b)[k] == b[k - a.len()]);
        }
    }
}

pub(crate) proof fn lemma_walk_known(
    by_id: Map<Seq<char>, Message>,
    replies: Map<Seq<char>, Seq<String>>,
    id: String,
    depth: nat,
    fuel: nat,
)
    ensures
        all_known(by_id, walk(by_id, replies, id, depth, fuel)),
    decreases fuel, 0nat, 0nat,
{
    if fuel > 0 {
        let head = if by_id.contains_key(id@) {
            seq![(depth as usize, id)]
        } else {
            seq![]
        };
        lemma_walk_list_known(by_id, replies, kids(replies, id@).reverse(), depth + 1, (fuel - 1) as nat);
        lemma_all_known_concat(
            by_id,
            head,
            walk_list(by_id, replies, kids(replies, id@).reverse(), depth + 1, (fuel - 1) as nat),
        );
    }
}

pub(crate) proof fn lemma_walk_list_known(
    by_id: Map<Seq<char>, Message>,
    replies: Map<Seq<char>, Seq<String>>,
    ids: Seq<String>,
    depth: nat,
    fuel: nat,
)
    ensures
        all_known(by_id, walk_list(by_id, replies, ids, depth, fuel)),
    decreases fuel, 1nat, ids.len(),
{
    if ids.len() > 0 {
        lemma_walk_known(by_id, replies, ids[0], depth, fuel);
        lemma_walk_list_known(by_id, replies, ids.drop_first(), depth, fuel);
        lemma_all_known_concat(
            by_id,
            walk(by_id, replies, ids[0], depth, fuel),
            walk_list(by_id, replies, ids.drop_first(), depth, fuel),
        );
    }
}

pub(crate) proof fn lemma_latest_bounds(by_id: Map<Seq<char>, Message>, es: Seq<(usize, String)>, acc: Seq<char>)
    ensures
        text_ge(latest_date(by_id, es, acc), acc),
        forall|k: int|
            0 <= k < es.len() ==> text_ge(
                latest_date(by_id, es, acc),
                date_key(by_id, (#[trigger] es[k]).1@),
            ),
    decreases es.len(),
{
    if es.len() == 0 {
        crate::text::lemma_text_lt_irreflexive(acc);
    } else {
        let d = date_key(by_id, es[0].1@);
        let acc2 = if text_lt(acc, d) {
            d
        } else {
            acc
        };
        let m = latest_date(by_id, es, acc);
        lemma_latest_bounds(by_id, es.drop_first(), acc2);
        assert(text_ge(acc2, acc)) by {
            crate::text::lemma_text_lt_irreflexive(acc);
            crate::text::lemma_text_lt_asymmetric(acc, d);
        }
        assert(text_ge(acc2, d)) by {
            crate::text::lemma_text_lt_irreflexive(d);
        }
        crate::text::lemma_text_ge_transitive(m, acc2, acc);
        crate::text::lemma_text_ge_transitive(m, acc2, d);
        assert forall|k: int| 0 <= k < es.len() implies text_ge(
            m,
            date_key(by_id, (#[trigger] es[k]).1@),
        ) by {
            if k > 0 {
                assert(es[k] == es.drop_first()[k - 1]);
            }
        }
    }
}

/// `b` is among the replies to `a`.
pub(crate) open spec fn is_kid(replies: Map<Seq<char>, Seq<String>>, a: Seq<char>, b: Seq<char>) -> bool {
    exists|k: int| 0 <= k < kids(replies, a).len() && (#[trigger] kids(replies, a)[k])@ == b
}

/// Consecutive ids of `p` are message and reply.
pub(crate) open spec fn reply_chain(replies: Map<Seq<char>, Seq<String>>, p: Seq<Seq<char>>) -> bool {
    forall|t: int| 0 <= t < p.len() - 1 ==> is_kid(replies, #[trigger] p[t], p[t + 1])
}

/// A reply of `x` whose walk does not end within `f` levels.
pub(crate) open spec fn stuck_kid(replies: Map<Seq<char>, Seq<String>>, x: Seq<char>, f: nat) -> Seq<char> {
    let k = choose|k: int|
        0 <= k < kids(replies, x).len() && !finite(replies, (#[trigger] kids(replies, x)[k])@, f);
    kids(replies, x)[k]@
}

/// A chain of replies from `x`, `f` long, along which walks do not end.
pub(crate) open spec fn stuck_path(replies: Map<Seq<char>, Seq<String>>, x: Seq<char>, f: nat) -> Seq<Seq<char>>
    decreases f,
{
    if f == 0 {
        seq![x]
    } else {
        seq![x] + stuck_path(replies, stuck_kid(replies, x, (f - 1) as nat), (f - 1) as nat)
    }
}

pub(crate) proof fn lemma_stuck_path(replies: Map<Seq<char>, Seq<String>>, x: Seq<char>, f: nat)
    requires
        !finite(replies, x, f),
    ensures
        stuck_path(replies, x, f).len() == f + 1,
        stuck_path(replies, x, f)[0] == x,
        reply_chain(replies, stuck_path(replies, x, f)),
        forall|t: int| 0 <= t < f ==> replies.contains_key(#[trigger] stuck_path(replies, x, f)[t]),
    decreases f,
{
    if f > 0 {
        let k = choose|k: int|
            0 <= k < kids(replies, x).len() && !finite(
                replies,
                (#[trigger] kids(replies, x)[k])@,
                (f - 1) as nat,
            );
        let y = stuck_kid(replies, x, (f - 1) as nat);
        assert(y == kids(replies, x)[k]@);
        lemma_stuck_path(replies, y, (f - 1) as nat);
        let rest = stuck_path(replies, y, (f - 1) as nat);
        let p = stuck_path(replies, x, f);
        assert(p == seq![x] + rest);
        assert(is_kid(replies, x, y));
        assert forall|t: int| 0 <= t < p.len() - 1 implies is_kid(replies, #[trigger] p[t], p[t + 1]) by {
            if t > 0 {
                assert(p[t] == rest[t - 1]);
                assert(p[t + 1] == rest[t]);
            }
        }
        assert forall|t: int| 0 <= t < f implies replies.contains_key(#[trigger] p[t]) by {
            if t > 0 {
                assert(p[t] == rest[t - 1]);
            } else {
                assert(kids(replies, x).len() > 0);
            }
        }
    }
}

/// Along a chain of replies, a walk that ends within `g` levels from the
/// start ends within `g - t` levels from its `t`-th message.
pub(crate) proof fn lemma_finite_along(replies: Map<Seq<char>, Seq<String>>, p: Seq<Seq<char>>, g: nat, t: int)
    requires
        reply_chain(replies, p),
        finite(replies, p[0], g),
        0 <= t < p.len(),
    ensures
        t < g,
        finite(replies, p[t], (g - t) as nat),
    decreases t,
{
    if t > 0 {
        lemma_finite_along(replies, p, g, t - 1);
        assert(is_kid(replies, p[t - 1], p[t]));
        let k = choose|k: int|
            0 <= k < kids(replies, p[t - 1]).len() && (#[trigger] kids(replies, p[t - 1])[k])@
                == p[t];
        assert(finite(replies, kids(replies, p[t - 1])[k]@, (g - t) as nat));
    }
}

/// A chain of replies that comes back to a message has no end.
pub(crate) proof fn lemma_cycle_endless(replies: Map<Seq<char>, Seq<String>>, p: Seq<Seq<char>>, i: int, j: int, g: nat)
    requires
        reply_chain(replies, p),
        0 <= i < j < p.len(),
        p[i] == p[j],
    ensures
        !finite(replies, p[i], g),
    decreases g,
{
    if finite(replies, p[i], g) {
        let q = p.subrange(i, j + 1);
        assert forall|t: int| 0 <= t < q.len() - 1 implies is_kid(replies, #[trigger] q[t], q[t + 1]) by {
            assert(q[t] == p[i + t]);
            assert(q[t + 1] == p[i + t + 1]);
        }
        assert(q[0] == p[i]);
        lemma_finite_along(replies, q, g, j - i);
        assert(q[j - i] == p[j]);
        lemma_cycle_endless(replies, p, i, j, (g - (j - i)) as nat);
    }
}

/// A walk that ends at all ends within one level more than there are
/// messages with replies.
pub(crate) proof fn lemma_finite_bound(fams: Seq<Family>, x: Seq<char>, f: nat)
    requires
        distinct_parents(fams),
        finite(family_map(fams), x, f),
    ensures
        finite(family_map(fams), x, fams.len() + 1),
{
    let replies = family_map(fams);
    let n = fams.len();
    if !finite(replies, x, n + 1) {
        lemma_stuck_path(replies, x, n + 1);
        let p = stuck_path(replies, x, n + 1);
        let ks = Seq::new(
            n + 1,
            |t: int| choose|k: int| 0 <= k < fams.len() && (#[trigger] fams[k]).parent@ == p[t],
        );
        assert forall|t: int| 0 <= t < n + 1 implies 0 <= #[trigger] ks[t] < n && fams[ks[t]].parent@
            == p[t] by {
            assert(replies.contains_key(p[t]));
            lemma_family_map_dom(fams, p[t]);
        }
        if ks.no_duplicates() {
            ks.unique_seq_to_set();
            vstd::set_lib::lemma_int_range(0, n as int);
            assert(ks.to_set().subset_of(vstd::set_lib::set_int_range(0, n as int))) by {
                assert forall|v: int| #[trigger] ks.to_set().contains(v) implies vstd::set_lib::set_int_range(
                    0,
                    n as int,
                ).contains(v) by {
                    let t = choose|t: int| 0 <= t < ks.len() && ks[t] == v;
                }
            }
            vstd::set_lib::lemma_len_subset(ks.to_set(), vstd::set_lib::set_int_range(0, n as int));
        } else {
            let (a, b) = choose|a: int, b: int|
                0 <= a < ks.len() && 0 <= b < ks.len() && a != b && ks[a] == ks[b];
            let (i, j) = if a < b {
                (a, b)
            } else {
                (b, a)
            };
            assert(p[i] == p[j]);
            lemma_finite_along(replies, p, f, i);
            lemma_cycle_endless(replies, p, i, j, (f - i) as nat);
        }
    }
}

/// Every entry of the stack has a walk that ends within the levels left at
/// its depth.
pub(crate) open spec fn stack_ok(replies: Map<Seq<char>, Seq<String>>, stack: Seq<(usize, String)>, bound: nat) -> bool
    decreases stack.len(),
{
    if stack.len() == 0 {
        true
    } else {
        finite(replies, stack.last().1@, (bound - stack.last().0) as nat) && stack_ok(
            replies,
            stack.drop_last(),
            bound,
        )
    }
}

/// Every one of `ids` has a walk that ends within `g` levels.
pub(crate) open spec fn all_finite(replies: Map<Seq<char>, Seq<String>>, ids: Seq<String>, g: nat) -> bool
    decreases ids.len(),
{
    if ids.len() == 0 {
        true
    } else {
        all_finite(replies, ids.drop_last(), g) && finite(replies, ids.last()@, g)
    }
}

pub(crate) proof fn lemma_all_finite(replies: Map<Seq<char>, Seq<String>>, ids: Seq<String>, g: nat)
    ensures
        all_finite(replies, ids, g) == forall|k: int|
            0 <= k < ids.len() ==> finite(replies, (#[trigger] ids[k])@, g),
    decreases ids.len(),
{
    if ids.len() > 0 {
        lemma_all_finite(replies, ids.drop_last(), g);
        if forall|k: int| 0 <= k < ids.len() ==> finite(replies, (#[trigger] ids[k])@, g) {
            assert forall|k: int| 0 <= k < ids.drop_last().len() implies finite(
                replies,
                (#[trigger] ids.drop_last()[k])@,
                g,
            ) by {
                assert(ids.drop_last()[k] == ids[k]);
            }
        }
        if all_finite(replies, ids, g) {
            assert forall|k: int| 0 <= k < ids.len() implies finite(replies, (#[trigger] ids[k])@, g) by {
                if k < ids.len() - 1 {
                    assert(ids.drop_last()[k] == ids[k]);
                }
            }
        }
    }
}

/// Whether the walk from `root` ends within `bound` levels, found by
/// walking it with a stack and giving up at that depth.
pub(crate) fn thread_ends(fams: &Vec<Family>, root: &String, bound: usize) -> (r: bool)
    requires
        distinct_parents(fams@),
    ensures
        r == finite(family_map(fams@), root@, bound as nat),
{
    let ghost replies = family_map(fams@);
    let mut stack: Vec<(usize, String)> = Vec::new();
    stack.push((0, root.clone()));
    proof {
        assert(stack@.drop_last() =~= Seq::<(usize, String)>::empty());
        assert(stack@.last() == (0usize, *root));
        assert(stack_ok(replies, Seq::<(usize, String)>::empty(), bound as nat));
        assert(stack_ok(replies, stack@, bound as nat) == finite(replies, root@, bound as nat));
    }
    while stack.len() > 0
        invariant
            distinct_parents(fams@),
            replies == family_map(fams@),
            forall|k: int| 0 <= k < stack@.len() ==> (#[trigger] stack@[k]).0 <= bound,
            finite(replies, root@, bound as nat) == stack_ok(replies, stack@, bound as nat),
        decreases stack_size(replies, stack@, bound as nat),
    {
        let ghost before = stack@;
        let (depth, id) = stack.pop().unwrap();
        let ghost rest = stack@;
        proof {
            assert(before.drop_last() =~= rest);
            assert(before.last() == (depth, id));
        }
        if depth == bound {
            return false;
        }
        let ghost f = (bound - depth) as nat;
        let ghost ks = kids(replies, id@);
        proof {
            assert(stack_size(replies, before, bound as nat) == 1 + size_list(
                replies,
                ks.reverse(),
                (f - 1) as nat,
            ) + stack_size(replies, rest, bound as nat));
            assert(stack_ok(replies, before, bound as nat) == (finite(replies, id@, f) && stack_ok(
                replies,
                rest,
                bound as nat,
            )));
        }
        match children_in(fams, &id) {
            Some(children) => {
                let mut j: usize = 0;
                assert(ks.take(0).reverse() =~= Seq::<String>::empty());
                assert(ks.take(0) =~= Seq::<String>::empty());
                while j < children.len()
                    invariant
                        distinct_parents(fams@),
                        replies == family_map(fams@),
                        children@ == ks,
                        ks == kids(replies, id@),
                        depth < bound,
                        f == bound - depth,
                        j <= children@.len(),
                        forall|k: int| 0 <= k < stack@.len() ==> (#[trigger] stack@[k]).0 <= bound,
                        stack_ok(replies, stack@, bound as nat) == (all_finite(
                            replies,
                            ks.take(j as int),
                            (f - 1) as nat,
                        ) && stack_ok(replies, rest, bound as nat)),
                        stack_size(replies, stack@, bound as nat) == size_list(
                            replies,
                            ks.take(j as int).reverse(),
                            (f - 1) as nat,
                        ) + stack_size(replies, rest, bound as nat),
                    decreases children@.len() - j,
                {
                    let ghost prev = stack@;
                    let c = children[j].clone();
                    stack.push(((depth + 1), c));
                    proof {
                        let tr = ks.take(j + 1).reverse();
                        assert(tr[0] == ks[j as int]);
                        assert(tr.drop_first() =~= ks.take(j as int).reverse());
                        assert(stack@.drop_last() =~= prev);
                        assert(ks.take(j + 1).drop_last() =~= ks.take(j as int));
                    }
                    j = j + 1;
                }
                proof {
                    assert(ks.take(ks.len() as int) =~= ks);
                    lemma_all_finite(replies, ks, (f - 1) as nat);
                }
            },
            None => {
                proof {
                    assert(ks.reverse() =~= Seq::<String>::empty());
                    assert(stack@ =~= rest);
                    assert(finite(replies, id@, f));
                }
            },
        }
    }
    true
}

/// Entries nested as a tree read top down: the first at nesting `d`, none
/// above `d`, and each at most one level below the one before.
pub open spec fn nested_from(es: Seq<(usize, String)>, d: nat) -> bool {
    &&& es.len() > 0 ==> es[0].0 == d
    &&& forall|k: int| 0 <= k < es.len() ==> (#[trigger] es[k]).0 >= d
    &&& forall|k: int| 1 <= k < es.len() ==> (#[trigger] es[k]).0 <= es[k - 1].0 + 1
}

/// Every reply that `replies` holds is a known message.
pub open spec fn replies_known(by_id: Map<Seq<char>, Message>, replies: Map<Seq<char>, Seq<String>>) -> bool {
    forall|p: Seq<char>, k: int|
        0 <= k < kids(replies, p).len() ==> by_id.contains_key((#[trigger] kids(replies, p)[k])@)
}

pub(crate) proof fn lemma_nested_concat(a: Seq<(usize, String)>, b: Seq<(usize, String)>, d: nat)
    requires
        nested_from(a, d),
        nested_from(b, d),
    ensures
        nested_from(a + b, d),
{
    let c = a + b;
    assert forall|k: int| 0 <= k < c.len() implies (#[trigger] c[k]).0 >= d by {
        if k >= a.len() {
            assert(c[k] == b[k - a.len()]);
        }
    }
    assert forall|k: int| 1 <= k < c.len() implies (#[trigger] c[k]).0 <= c[k - 1].0 + 1 by {
        if k > a.len() {
            assert(c[k] == b[k - a.len()]);
            assert(c[k - 1] == b[k - 1 - a.len()]);
        } else if k == a.len() {
            assert(c[k] == b[0]);
            assert(c[k - 1] == a[k - 1]);
        }
    }
}

pub(crate) proof fn lemma_walk_nested(
    by_id: Map<Seq<char>, Message>,
    replies: Map<Seq<char>, Seq<String>>,
    id: String,
    depth: nat,
    fuel: nat,
)
    requires
        replies_known(by_id, replies),
        by_id.contains_key(id@),
        depth + fuel <= usize::MAX + 1,
    ensures
        nested_from(walk(by_id, replies, id, depth, fuel), depth),
    decreases fuel, 0nat, 0nat,
{
    if fuel > 0 {
        let ks = kids(replies, id@);
        assert forall|k: int| 0 <= k < ks.reverse().len() implies by_id.contains_key(
            (#[trigger] ks.reverse()[k])@,
        ) by {
            assert(ks.reverse()[k] == ks[ks.len() - 1 - k]);
        }
        lemma_walk_list_nested(by_id, replies, ks.reverse(), depth + 1, (fuel - 1) as nat);
        let rest = walk_list(by_id, replies, ks.reverse(), depth + 1, (fuel - 1) as nat);
        let w = seq![(depth as usize, id)] + rest;
        assert forall|k: int| 0 <= k < w.len() implies (#[trigger] w[k]).0 >= depth by {
            if k > 0 {
                assert(w[k] == rest[k - 1]);
            }
        }
        assert forall|k: int| 1 <= k < w.len() implies (#[trigger] w[k]).0 <= w[k - 1].0 + 1 by {
            assert(w[k] == rest[k - 1]);
            if k > 1 {
                assert(w[k - 1] == rest[k - 2]);
            }
        }
    } else {
        assert(walk(by_id, replies, id, depth, fuel) =~= Seq::<(usize, String)>::empty());
    }
}

pub(crate) proof fn lemma_walk_list_nested(
    by_id: Map<Seq<char>, Message>,
    replies: Map<Seq<char>, Seq<String>>,
    ids: Seq<String>,
    depth: nat,
    fuel: nat,
)
    requires
        replies_known(by_id, replies),
        forall|k: int| 0 <= k < ids.len() ==> by_id.contains_key((#[trigger] ids[k])@),
        depth + fuel <= usize::MAX + 1,
    ensures
        nested_from(walk_list(by_id, replies, ids, depth, fuel), depth),
    decreases fuel, 1nat, ids.len(),
{
    if ids.len() > 0 {
        if fuel > 0 {
            lemma_walk_nested(by_id, replies, ids[0], depth, fuel);
        } else {
            assert(walk(by_id, replies, ids[0], depth, fuel) =~= Seq::<(usize, String)>::empty());
        }
        assert forall|k: int| 0 <= k < ids.drop_first().len() implies by_id.contains_key(
            (#[trigger] ids.drop_first()[k])@,
        ) by {
            assert(ids.drop_first()[k] == ids[k + 1]);
        }
        lemma_walk_list_nested(by_id, replies, ids.drop_first(), depth, fuel);
        lemma_nested_concat(
            walk(by_id, replies, ids[0], depth, fuel),
            walk_list(by_id, replies, ids.drop_first(), depth, fuel),
            depth,
        );
    } else {
        assert(walk_list(by_id, replies, ids, depth, fuel) =~= Seq::<(usize, String)>::empty());
    }
}


/// Entry `k` of `w` sits right under the message it replies to: the
/// nearest entry above it that is one level shallower (no entry between
/// them is shallower than entry `k`) has it among its replies.
pub open spec fn attached(replies: Map<Seq<char>, Seq<String>>, w: Seq<(usize, String)>, k: int) -> bool {
    exists|j: int|
        #![trigger w[j]]
        0 <= j < k && w[j].0 + 1 == w[k].0 && (forall|m: int|
            j < m < k ==> (#[trigger] w[m]).0 >= w[k].0) && kids(replies, w[j].1@).contains(w[k].1)
}

proof fn lemma_attached_prefix(
    replies: Map<Seq<char>, Seq<String>>,
    a: Seq<(usize, String)>,
    b: Seq<(usize, String)>,
    k: int,
)
    requires
        0 <= k < a.len(),
        attached(replies, a, k),
    ensures
        attached(replies, a + b, k),
{
    let w = a + b;
    let j = choose|j: int|
        #![trigger a[j]]
        0 <= j < k && a[j].0 + 1 == a[k].0 && (forall|m: int| j < m < k ==> (#[trigger] a[m]).0 >= a[k].0)
            && kids(replies, a[j].1@).contains(a[k].1);
    assert(w[j] == a[j]);
    assert(w[k] == a[k]);
    assert forall|m: int| j < m < k implies (#[trigger] w[m]).0 >= w[k].0 by {
        assert(w[m] == a[m]);
    }
}

proof fn lemma_attached_shift(
    replies: Map<Seq<char>, Seq<String>>,
    a: Seq<(usize, String)>,
    b: Seq<(usize, String)>,
    k: int,
)
    requires
        0 <= k < b.len(),
        attached(replies, b, k),
    ensures
        attached(replies, a + b, k + a.len()),
{
    let w = a + b;
    let n = a.len() as int;
    let j = choose|j: int|
        #![trigger b[j]]
        0 <= j < k && b[j].0 + 1 == b[k].0 && (forall|m: int| j < m < k ==> (#[trigger] b[m]).0 >= b[k].0)
            && kids(replies, b[j].1@).contains(b[k].1);
    assert(w[j + n] == b[j]);
    assert(w[k + n] == b[k]);
    assert forall|m: int| j + n < m < k + n implies (#[trigger] w[m]).0 >= w[k + n].0 by {
        assert(w[m] == b[m - n]);
    }
}

/// In the walk of replies `ids` at nesting `depth`, every entry either is
/// one of `ids` at that nesting or sits right under the message it replies
/// to.
pub(crate) proof fn lemma_walk_list_attached(
    by_id: Map<Seq<char>, Message>,
    replies: Map<Seq<char>, Seq<String>>,
    ids: Seq<String>,
    depth: nat,
    fuel: nat,
)
    requires
        replies_known(by_id, replies),
        forall|k: int| 0 <= k < ids.len() ==> by_id.contains_key((#[trigger] ids[k])@),
        depth + fuel <= usize::MAX + 1,
    ensures
        forall|k: int|
            0 <= k < walk_list(by_id, replies, ids, depth, fuel).len() ==> ((#[trigger] walk_list(
                by_id,
                replies,
                ids,
                depth,
                fuel,
            )[k]).0 == depth && ids.contains(walk_list(by_id, replies, ids, depth, fuel)[k].1))
                || attached(replies, walk_list(by_id, replies, ids, depth, fuel), k),
    decreases fuel, 1nat, ids.len(),
{
    let l = walk_list(by_id, replies, ids, depth, fuel);
    if ids.len() > 0 {
        let w0 = walk(by_id, replies, ids[0], depth, fuel);
        let rest = walk_list(by_id, replies, ids.drop_first(), depth, fuel);
        assert(l == w0 + rest);
        if fuel > 0 {
            lemma_walk_attached(by_id, replies, ids[0], depth, fuel);
        } else {
            assert(w0 =~= Seq::<(usize, String)>::empty());
        }
        assert forall|k: int| 0 <= k < ids.drop_first().len() implies by_id.contains_key(
            (#[trigger] ids.drop_first()[k])@,
        ) by {
            assert(ids.drop_first()[k] == ids[k + 1]);
        }
        lemma_walk_list_attached(by_id, replies, ids.drop_first(), depth, fuel);
        assert forall|k: int| 0 <= k < l.len() implies ((#[trigger] l[k]).0 == depth && ids.contains(
            l[k].1,
        )) || attached(replies, l, k) by {
            if k < w0.len() {
                assert(l[k] == w0[k]);
                if k == 0 {
                    assert(ids[0] == l[0].1);
                } else {
                    lemma_attached_prefix(replies, w0, rest, k);
                }
            } else {
                let k2 = k - w0.len();
                assert(l[k] == rest[k2]);
                if rest[k2].0 == depth && ids.drop_first().contains(rest[k2].1) {
                    let t = choose|t: int|
                        0 <= t < ids.drop_first().len() && ids.drop_first()[t] == rest[k2].1;
                    assert(ids[t + 1] == rest[k2].1);
                } else {
                    lemma_attached_shift(replies, w0, rest, k2);
                }
            }
        }
    } else {
        assert(l =~= Seq::<(usize, String)>::empty());
    }
}

/// The walk from a known message starts with it, and every later entry
/// sits right under the message it replies to.
pub(crate) proof fn lemma_walk_attached(
    by_id: Map<Seq<char>, Message>,
    replies: Map<Seq<char>, Seq<String>>,
    id: String,
    depth: nat,
    fuel: nat,
)
    requires
        replies_known(by_id, replies),
        by_id.contains_key(id@),
        depth + fuel <= usize::MAX + 1,
        fuel > 0,
    ensures
        walk(by_id, replies, id, depth, fuel).len() > 0,
        walk(by_id, replies, id, depth, fuel)[0] == (depth as usize, id),
        forall|k: int|
            1 <= k < walk(by_id, replies, id, depth, fuel).len() ==> attached(
                replies,
                walk(by_id, replies, id, depth, fuel),
                k,
            ),
    decreases fuel, 0nat, 0nat,
{
    let ks = kids(replies, id@);
    let rk = ks.reverse();
    assert forall|k: int| 0 <= k < rk.len() implies by_id.contains_key((#[trigger] rk[k])@) by {
        assert(rk[k] == ks[ks.len() - 1 - k]);
    }
    let l = walk_list(by_id, replies, rk, depth + 1, (fuel - 1) as nat);
    lemma_walk_list_attached(by_id, replies, rk, depth + 1, (fuel - 1) as nat);
    lemma_walk_list_nested(by_id, replies, rk, depth + 1, (fuel - 1) as nat);
    let head = seq![(depth as usize, id)];
    let w = walk(by_id, replies, id, depth, fuel);
    assert(w == head + l);
    assert forall|k: int| 1 <= k < w.len() implies attached(replies, w, k) by {
        let m = k - 1;
        assert(w[k] == l[m]);
        if l[m].0 == depth + 1 && rk.contains(l[m].1) {
            let t = choose|t: int| 0 <= t < rk.len() && rk[t] == l[m].1;
            assert(ks[ks.len() - 1 - t] == l[m].1);
            assert(ks.contains(w[k].1));
            assert(w[0] == (depth as usize, id));
            assert forall|q: int| 0 < q < k implies (#[trigger] w[q]).0 >= w[k].0 by {
                assert(w[q] == l[q - 1]);
            }
            assert(w[0].0 + 1 == w[k].0);
        } else {
            lemma_attached_shift(replies, head, l, m);
        }
    }
}

/// Every reply of every entry of `w` is itself an entry of `w`, one level
/// deeper than the message it replies to.
pub open spec fn holds_replies(replies: Map<Seq<char>, Seq<String>>, w: Seq<(usize, String)>) -> bool {
    forall|k: int, t: int|
        0 <= k < w.len() && 0 <= t < kids(replies, w[k].1@).len() ==> w.contains(
            ((w[k].0 + 1) as usize, #[trigger] kids(replies, w[k].1@)[t]),
        )
}

proof fn lemma_holds_replies_concat(
    replies: Map<Seq<char>, Seq<String>>,
    a: Seq<(usize, String)>,
    b: Seq<(usize, String)>,
)
    requires
        holds_replies(replies, a),
        holds_replies(replies, b),
    ensures
        holds_replies(replies, a + b),
{
    let w = a + b;
    assert forall|k: int, t: int|
        0 <= k < w.len() && 0 <= t < kids(replies, w[k].1@).len() implies w.contains(
        ((w[k].0 + 1) as usize, #[trigger] kids(replies, w[k].1@)[t]),
    ) by {
        if k < a.len() {
            assert(w[k] == a[k]);
            let x = ((a[k].0 + 1) as usize, kids(replies, a[k].1@)[t]);
            assert(a.contains(x));
            let m = choose|m: int| 0 <= m < a.len() && a[m] == x;
            assert(w[m] == x);
        } else {
            assert(w[k] == b[k - a.len()]);
            let x = ((b[k - a.len()].0 + 1) as usize, kids(replies, b[k - a.len()].1@)[t]);
            assert(b.contains(x));
            let m = choose|m: int| 0 <= m < b.len() && b[m] == x;
            assert(w[m + a.len()] == x);
        }
    }
}

/// The walk of `ids` holds the entry of each known one of them.
proof fn lemma_walk_list_has(
    by_id: Map<Seq<char>, Message>,
    replies: Map<Seq<char>, Seq<String>>,
    ids: Seq<String>,
    depth: nat,
    fuel: nat,
    t: int,
)
    requires
        0 <= t < ids.len(),
        by_id.contains_key(ids[t]@),
        fuel > 0,
    ensures
        walk_list(by_id, replies, ids, depth, fuel).contains((depth as usize, ids[t])),
    decreases t,
{
    let w0 = walk(by_id, replies, ids[0], depth, fuel);
    let rest = walk_list(by_id, replies, ids.drop_first(), depth, fuel);
    let l = walk_list(by_id, replies, ids, depth, fuel);
    assert(l == w0 + rest);
    if t == 0 {
        assert(l[0] == (depth as usize, ids[0]));
    } else {
        assert(ids.drop_first()[t - 1] == ids[t]);
        lemma_walk_list_has(by_id, replies, ids.drop_first(), depth, fuel, t - 1);
        let m = choose|m: int| 0 <= m < rest.len() && rest[m] == (depth as usize, ids[t]);
        assert(l[m + w0.len()] == rest[m]);
    }
}

/// A walk with enough fuel leaves out no reply: each reply of an entry
/// follows it in the walk, one level deeper.
pub(crate) proof fn lemma_walk_holds_replies(
    by_id: Map<Seq<char>, Message>,
    replies: Map<Seq<char>, Seq<String>>,
    id: String,
    depth: nat,
    fuel: nat,
)
    requires
        replies_known(by_id, replies),
        finite(replies, id@, fuel),
        depth + fuel <= usize::MAX + 1,
    ensures
        holds_replies(replies, walk(by_id, replies, id, depth, fuel)),
    decreases fuel, 0nat, 0nat,
{
    let ks = kids(replies, id@);
    let rk = ks.reverse();
    let f1 = (fuel - 1) as nat;
    assert forall|k: int| 0 <= k < rk.len() implies finite(replies, (#[trigger] rk[k])@, f1) by {
        assert(rk[k] == ks[ks.len() - 1 - k]);
    }
    lemma_walk_list_holds_replies(by_id, replies, rk, depth + 1, f1);
    let l = walk_list(by_id, replies, rk, depth + 1, f1);
    let head = if by_id.contains_key(id@) {
        seq![(depth as usize, id)]
    } else {
        Seq::<(usize, String)>::empty()
    };
    let w = walk(by_id, replies, id, depth, fuel);
    assert(w == head + l);
    let h = head.len() as int;
    assert forall|k: int, t: int|
        0 <= k < w.len() && 0 <= t < kids(replies, w[k].1@).len() implies w.contains(
        ((w[k].0 + 1) as usize, #[trigger] kids(replies, w[k].1@)[t]),
    ) by {
        if k < h {
            assert(w[k] == (depth as usize, id));
            let c = ks[t];
            assert(rk[ks.len() - 1 - t] == c);
            assert(by_id.contains_key(c@));
            assert(finite(replies, c@, f1));
            lemma_walk_list_has(by_id, replies, rk, depth + 1, f1, ks.len() - 1 - t);
            let m = choose|m: int| 0 <= m < l.len() && l[m] == ((depth + 1) as usize, c);
            assert(w[m + h] == l[m]);
        } else {
            assert(w[k] == l[k - h]);
            let x = ((l[k - h].0 + 1) as usize, kids(replies, l[k - h].1@)[t]);
            assert(l.contains(x));
            let m = choose|m: int| 0 <= m < l.len() && l[m] == x;
            assert(w[m + h] == x);
        }
    }
}

/// `lemma_walk_holds_replies` for each of `ids`.
pub(crate) proof fn lemma_walk_list_holds_replies(
    by_id: Map<Seq<char>, Message>,
    replies: Map<Seq<char>, Seq<String>>,
    ids: Seq<String>,
    depth: nat,
    fuel: nat,
)
    requires
        replies_known(by_id, replies),
        forall|k: int| 0 <= k < ids.len() ==> finite(replies, (#[trigger] ids[k])@, fuel),
        depth + fuel <= usize::MAX + 1,
    ensures
        holds_replies(replies, walk_list(by_id, replies, ids, depth, fuel)),
    decreases fuel, 1nat, ids.len(),
{
    if ids.len() > 0 {
        assert(finite(replies, ids[0]@, fuel));
        lemma_walk_holds_replies(by_id, replies, ids[0], depth, fuel);
        assert forall|k: int| 0 <= k < ids.drop_first().len() implies finite(
            replies,
            (#[trigger] ids.drop_first()[k])@,
            fuel,
        ) by {
            assert(ids.drop_first()[k] == ids[k + 1]);
        }
        lemma_walk_list_holds_replies(by_id, replies, ids.drop_first(), depth, fuel);
        lemma_holds_replies_concat(
            replies,
            walk(by_id, replies, ids[0], depth, fuel),
            walk_list(by_id, replies, ids.drop_first(), depth, fuel),
        );
    } else {
        assert(walk_list(by_id, replies, ids, depth, fuel) =~= Seq::<(usize, String)>::empty());
    }
}

} // verus!

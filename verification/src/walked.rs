//! The visible files of a directory tree, and that the walker yields them.
//!
//! `visible_files` lists, for a whole tree, every visible file that is
//! reached through visible directories. The walker never sees a whole tree:
//! it asks and is answered. The laws at the end of this file connect the two.

use vstd::prelude::*;
use crate::filter::is_visible;
use crate::listing::shown;
use crate::listing::Node;
use crate::path::joined;
use crate::walker::set_out;
use crate::walker::turned;
use crate::walker::walk_step;
use crate::walker::PhaseView;
use crate::walker::WalkReplyView;
use crate::walker::WalkRequestView;
use crate::walker::WalkerView;

verus! {

/// The visible files below the first `upto` nodes of the directory at
/// `dir`, in the order of the listings: a visible file stands for itself,
/// a visible directory that can be listed for the visible files below it.
/// Hidden entries, what lies below them, and what cannot be read give
/// nothing.
pub open spec fn visible_upto(dir: Seq<char>, nodes: Seq<Node>, upto: nat) -> Seq<Seq<char>>
    decreases nodes, upto,
{
    if upto == 0 || upto > nodes.len() {
        Seq::empty()
    } else {
        visible_upto(dir, nodes, (upto - 1) as nat) + match nodes[upto - 1] {
            Node::Unreadable => Seq::empty(),
            Node::File { name, .. } => if is_visible(name) {
                seq![joined(dir, name)]
            } else {
                Seq::empty()
            },
            Node::Dir { name, entries } => if is_visible(name) {
                match entries {
                    Ok(inner) => visible_upto(joined(dir, name), inner, inner.len()),
                    Err(_) => Seq::empty(),
                }
            } else {
                Seq::empty()
            },
        }
    }
}

/// Every visible file of the tree below the directory at `dir`, each one
/// once.
pub open spec fn visible_files(dir: Seq<char>, nodes: Seq<Node>) -> Seq<Seq<char>> {
    visible_upto(dir, nodes, nodes.len())
}

/// What the walker asks when it is told of a node of the open directory: to
/// yield it, if it is a visible file, and else to read on.
pub open spec fn ask_at(dir: Seq<char>, node: Node) -> WalkRequestView {
    match node {
        Node::File { name, .. } => if is_visible(name) {
            WalkRequestView::Yield(joined(dir, name))
        } else {
            WalkRequestView::Read
        },
        _ => WalkRequestView::Read,
    }
}

/// What a caller that reads the tree answers while a directory is read,
/// one entry after the other.
pub open spec fn found_in(nodes: Seq<Node>) -> Seq<WalkReplyView> {
    Seq::new(nodes.len(), |i: int| WalkReplyView::Found(shown(nodes[i])))
}

/// What the walker asks while a directory is read, one request for each
/// entry.
pub open spec fn asks_in(dir: Seq<char>, nodes: Seq<Node>) -> Seq<WalkRequestView> {
    Seq::new(nodes.len(), |i: int| ask_at(dir, nodes[i]))
}

/// The visible directories among the first `upto` nodes of the directory
/// at `dir`, in the order of the listing.
pub open spec fn met_upto(dir: Seq<char>, nodes: Seq<Node>, upto: nat) -> Seq<Seq<char>>
    decreases upto,
{
    if upto == 0 || upto > nodes.len() {
        Seq::empty()
    } else {
        met_upto(dir, nodes, (upto - 1) as nat) + match nodes[upto - 1] {
            Node::Dir { name, .. } => if is_visible(name) {
                seq![joined(dir, name)]
            } else {
                Seq::empty()
            },
            _ => Seq::empty(),
        }
    }
}

/// What a caller answers while a directory is walked after it was opened:
/// its entries, the end, and the answers for the directories met in it.
pub open spec fn answers_within(dir: Seq<char>, nodes: Seq<Node>) -> Seq<WalkReplyView>
    decreases nodes, nodes.len() + 1,
{
    found_in(nodes).push(WalkReplyView::End) + answers_below(dir, nodes, nodes.len())
}

/// What a caller answers while the directories met among the first `upto`
/// nodes are walked, the one met last first: whether each could be opened,
/// and the answers within those that could.
pub open spec fn answers_below(dir: Seq<char>, nodes: Seq<Node>, upto: nat) -> Seq<WalkReplyView>
    decreases nodes, upto,
{
    if upto == 0 || upto > nodes.len() {
        Seq::empty()
    } else {
        (match nodes[upto - 1] {
            Node::Dir { name, entries } => if is_visible(name) {
                match entries {
                    Ok(inner) => seq![WalkReplyView::Opened(true)] + answers_within(
                        joined(dir, name),
                        inner,
                    ),
                    Err(_) => seq![WalkReplyView::Opened(false)],
                }
            } else {
                Seq::empty()
            },
            _ => Seq::empty(),
        }) + answers_below(dir, nodes, (upto - 1) as nat)
    }
}

/// What the walker asks while a directory is walked after it was opened,
/// up to the moment it turns away from what lies below it.
pub open spec fn asks_within(dir: Seq<char>, nodes: Seq<Node>) -> Seq<WalkRequestView>
    decreases nodes, nodes.len() + 1,
{
    asks_in(dir, nodes) + asks_below(dir, nodes, nodes.len())
}

/// What the walker asks while the directories met among the first `upto`
/// nodes are walked, the one met last first: to open each, to read those
/// that open, and what it asks within them. No hidden directory is ever
/// asked for.
pub open spec fn asks_below(dir: Seq<char>, nodes: Seq<Node>, upto: nat) -> Seq<WalkRequestView>
    decreases nodes, upto,
{
    if upto == 0 || upto > nodes.len() {
        Seq::empty()
    } else {
        (match nodes[upto - 1] {
            Node::Dir { name, entries } => if is_visible(name) {
                match entries {
                    Ok(inner) => seq![
                        WalkRequestView::Open(joined(dir, name)),
                        WalkRequestView::Read,
                    ] + asks_within(joined(dir, name), inner),
                    Err(_) => seq![WalkRequestView::Open(joined(dir, name))],
                }
            } else {
                Seq::empty()
            },
            _ => Seq::empty(),
        }) + asks_below(dir, nodes, (upto - 1) as nat)
    }
}

/// All that the walker asks during the walk of a tree, the last request
/// being that the walk is over.
pub open spec fn asks_of_walk(root: Seq<char>, nodes: Seq<Node>) -> Seq<WalkRequestView> {
    asks_within(root, nodes).push(WalkRequestView::Finished)
}

/// The files among a row of requests, in their order.
pub open spec fn yielded(requests: Seq<WalkRequestView>) -> Seq<Seq<char>>
    decreases requests.len(),
{
    if requests.len() == 0 {
        Seq::empty()
    } else {
        yielded(requests.drop_last()) + match requests.last() {
            WalkRequestView::Yield(path) => seq![path],
            _ => Seq::empty(),
        }
    }
}

/// The walker run on a row of replies: the state it ends in and the
/// requests it made, one for each reply.
pub open spec fn walk(state: WalkerView, replies: Seq<WalkReplyView>) -> (
    WalkerView,
    Seq<WalkRequestView>,
)
    decreases replies.len(),
{
    if replies.len() == 0 {
        (state, Seq::empty())
    } else {
        let (next, request) = walk_step(state, replies[0]);
        let (last, more) = walk(next, replies.skip(1));
        (last, seq![request] + more)
    }
}

/// The walker turning to the directories that wait and then run on a row
/// of replies.
pub open spec fn resume(pending: Seq<Seq<char>>, replies: Seq<WalkReplyView>) -> (
    WalkerView,
    Seq<WalkRequestView>,
) {
    let (state, request) = turned(pending);
    let (last, more) = walk(state, replies);
    (last, seq![request] + more)
}

/// An outcome with further requests in front of its own.
pub open spec fn preceded(
    asks: Seq<WalkRequestView>,
    outcome: (WalkerView, Seq<WalkRequestView>),
) -> (WalkerView, Seq<WalkRequestView>) {
    (outcome.0, asks + outcome.1)
}

/// The first reply is answered with one step, and the rest is left to the
/// state after it.
proof fn lemma_walk_first(state: WalkerView, reply: WalkReplyView, rest: Seq<WalkReplyView>)
    ensures
        walk(state, seq![reply] + rest) == preceded(
            seq![walk_step(state, reply).1],
            walk(walk_step(state, reply).0, rest),
        ),
{
    let replies = seq![reply] + rest;
    assert(replies[0] == reply);
    assert(replies.skip(1) == rest);
}

/// Reading a directory from a place on: each entry is asked about in its
/// turn, the visible directories are put with those that wait, and at the
/// end the walker turns to them.
proof fn lemma_entries_read(
    waiting: Seq<Seq<char>>,
    dir: Seq<char>,
    nodes: Seq<Node>,
    from: nat,
    tail: Seq<WalkReplyView>,
)
    requires
        from <= nodes.len(),
    ensures
        walk(
            WalkerView {
                pending: waiting + met_upto(dir, nodes, from),
                phase: PhaseView::Reading(dir),
            },
            found_in(nodes).skip(from as int).push(WalkReplyView::End) + tail,
        ) == preceded(
            asks_in(dir, nodes).skip(from as int),
            resume(waiting + met_upto(dir, nodes, nodes.len()), tail),
        ),
    decreases nodes.len() - from,
{
    let state = WalkerView {
        pending: waiting + met_upto(dir, nodes, from),
        phase: PhaseView::Reading(dir),
    };
    let found = found_in(nodes).skip(from as int);
    let asks = asks_in(dir, nodes).skip(from as int);
    let replies = found.push(WalkReplyView::End) + tail;
    let end = resume(waiting + met_upto(dir, nodes, nodes.len()), tail);
    if from == nodes.len() {
        assert(replies == seq![WalkReplyView::End] + tail);
        lemma_walk_first(state, WalkReplyView::End, tail);
        assert(asks + end.1 == end.1);
    } else {
        let node = nodes[from as int];
        let reply = WalkReplyView::Found(shown(node));
        let rest = found_in(nodes).skip(from as int + 1).push(WalkReplyView::End) + tail;
        assert(replies == seq![reply] + rest);
        lemma_walk_first(state, reply, rest);
        lemma_entries_read(waiting, dir, nodes, from + 1, tail);
        let next = walk_step(state, reply).0;
        assert(met_upto(dir, nodes, from + 1) == met_upto(dir, nodes, from) + match node {
            Node::Dir { name, .. } => if is_visible(name) {
                seq![joined(dir, name)]
            } else {
                Seq::empty()
            },
            _ => Seq::empty(),
        });
        assert(next.pending == waiting + met_upto(dir, nodes, from + 1));
        assert(walk_step(state, reply).1 == ask_at(dir, node));
        assert(asks == seq![ask_at(dir, node)] + asks_in(dir, nodes).skip(from as int + 1));
        assert(seq![ask_at(dir, node)] + (asks_in(dir, nodes).skip(from as int + 1) + end.1) == asks
            + end.1);
    }
}

/// Walking a directory that has just opened: it is read to its end, the
/// directories met in it are walked, and then the walker turns to what
/// waited before.
proof fn lemma_opened_walked(
    kept: Seq<Seq<char>>,
    child: Seq<char>,
    inner: Seq<Node>,
    rest: Seq<WalkReplyView>,
)
    ensures
        walk(
            WalkerView { pending: kept, phase: PhaseView::Opening(child) },
            seq![WalkReplyView::Opened(true)] + (answers_within(child, inner) + rest),
        ) == preceded(
            seq![WalkRequestView::Read] + asks_within(child, inner),
            resume(kept, rest),
        ),
    decreases inner, inner.len() + 1,
{
    let opening = WalkerView { pending: kept, phase: PhaseView::Opening(child) };
    let reading = WalkerView { pending: kept, phase: PhaseView::Reading(child) };
    let reply = WalkReplyView::Opened(true);
    let inside = answers_below(child, inner, inner.len()) + rest;
    let read = found_in(inner).push(WalkReplyView::End) + inside;
    let deep = asks_below(child, inner, inner.len());
    let end = resume(kept, rest);
    assert(answers_within(child, inner) + rest == read);
    lemma_walk_first(opening, reply, read);
    assert(walk_step(opening, reply) == (reading, WalkRequestView::Read));
    assert(kept + met_upto(child, inner, 0) == kept);
    assert(found_in(inner).skip(0) == found_in(inner));
    assert(asks_in(child, inner).skip(0) == asks_in(child, inner));
    lemma_entries_read(kept, child, inner, 0, inside);
    lemma_below_walked(kept, child, inner, inner.len(), rest);
    assert(seq![WalkRequestView::Read] + (asks_in(child, inner) + (deep + end.1)) == (seq![
        WalkRequestView::Read,
    ] + asks_within(child, inner)) + end.1);
}

/// Walking the directories that wait, those met in one directory on top:
/// each is opened, the one met last first, walked to its end if it opens,
/// and then the walker turns to what waited before.
proof fn lemma_below_walked(
    waiting: Seq<Seq<char>>,
    dir: Seq<char>,
    nodes: Seq<Node>,
    upto: nat,
    tail: Seq<WalkReplyView>,
)
    requires
        upto <= nodes.len(),
    ensures
        resume(waiting + met_upto(dir, nodes, upto), answers_below(dir, nodes, upto) + tail)
            == preceded(asks_below(dir, nodes, upto), resume(waiting, tail)),
    decreases nodes, upto,
{
    let end = resume(waiting, tail);
    if upto == 0 {
        assert(waiting + met_upto(dir, nodes, upto) == waiting);
        assert(answers_below(dir, nodes, upto) + tail == tail);
        assert(asks_below(dir, nodes, upto) + end.1 == end.1);
    } else {
        let node = nodes[upto - 1];
        let before = (upto - 1) as nat;
        let rest = answers_below(dir, nodes, before) + tail;
        lemma_below_walked(waiting, dir, nodes, before, tail);
        let kept = waiting + met_upto(dir, nodes, before);
        let later = asks_below(dir, nodes, before);
        match node {
            Node::Dir { name, entries } => {
                if is_visible(name) {
                    let child = joined(dir, name);
                    assert(waiting + met_upto(dir, nodes, upto) == kept.push(child));
                    assert(kept.push(child).drop_last() == kept);
                    let opening = WalkerView { pending: kept, phase: PhaseView::Opening(child) };
                    assert(turned(kept.push(child)) == (opening, WalkRequestView::Open(child)));
                    match entries {
                        Err(_) => {
                            let reply = WalkReplyView::Opened(false);
                            assert(answers_below(dir, nodes, upto) + tail == seq![reply] + rest);
                            lemma_walk_first(opening, reply, rest);
                            assert(asks_below(dir, nodes, upto) == seq![
                                WalkRequestView::Open(child),
                            ] + later);
                            assert(seq![WalkRequestView::Open(child)] + (seq![
                                turned(kept).1,
                            ] + walk(turned(kept).0, rest).1) == seq![
                                WalkRequestView::Open(child),
                            ] + resume(kept, rest).1);
                            assert(seq![WalkRequestView::Open(child)] + (later + end.1)
                                == asks_below(dir, nodes, upto) + end.1);
                        },
                        Ok(inner) => {
                            let within = answers_within(child, inner);
                            assert(answers_below(dir, nodes, upto) + tail == seq![
                                WalkReplyView::Opened(true),
                            ] + (within + rest));
                            lemma_opened_walked(kept, child, inner, rest);
                            let asked = seq![WalkRequestView::Read] + asks_within(child, inner);
                            assert(asks_below(dir, nodes, upto) == (seq![
                                WalkRequestView::Open(child),
                            ] + asked) + later);
                            assert(seq![WalkRequestView::Open(child)] + (asked + (later + end.1))
                                == asks_below(dir, nodes, upto) + end.1);
                        },
                    }
                } else {
                    assert(met_upto(dir, nodes, upto) == met_upto(dir, nodes, before));
                    assert(answers_below(dir, nodes, upto) == answers_below(dir, nodes, before));
                    assert(asks_below(dir, nodes, upto) == later);
                }
            },
            _ => {
                assert(met_upto(dir, nodes, upto) == met_upto(dir, nodes, before));
                assert(answers_below(dir, nodes, upto) == answers_below(dir, nodes, before));
                assert(asks_below(dir, nodes, upto) == later);
            },
        }
    }
}

/// The files among two rows of requests are those of the first and then
/// those of the second.
proof fn lemma_yielded_joined(first: Seq<WalkRequestView>, second: Seq<WalkRequestView>)
    ensures
        yielded(first + second) == yielded(first) + yielded(second),
    decreases second.len(),
{
    if second.len() == 0 {
        assert(first + second == first);
    } else {
        lemma_yielded_joined(first, second.drop_last());
        assert((first + second).drop_last() == first + second.drop_last());
        assert((first + second).last() == second.last());
    }
}

/// The visible files among the first `upto` nodes of a directory, without
/// what lies below its directories.
pub open spec fn files_upto(dir: Seq<char>, nodes: Seq<Node>, upto: nat) -> Seq<Seq<char>>
    decreases upto,
{
    if upto == 0 || upto > nodes.len() {
        Seq::empty()
    } else {
        files_upto(dir, nodes, (upto - 1) as nat) + match nodes[upto - 1] {
            Node::File { name, .. } => if is_visible(name) {
                seq![joined(dir, name)]
            } else {
                Seq::empty()
            },
            _ => Seq::empty(),
        }
    }
}

/// While a directory is read the walker yields its visible files, in the
/// order of the listing.
proof fn lemma_files_yielded(dir: Seq<char>, nodes: Seq<Node>, upto: nat)
    requires
        upto <= nodes.len(),
    ensures
        yielded(asks_in(dir, nodes).take(upto as int)) == files_upto(dir, nodes, upto),
    decreases upto,
{
    if upto > 0 {
        lemma_files_yielded(dir, nodes, (upto - 1) as nat);
        let asks = asks_in(dir, nodes).take(upto as int);
        assert(asks.drop_last() == asks_in(dir, nodes).take(upto - 1));
        assert(asks.last() == ask_at(dir, nodes[upto - 1]));
    }
}

/// What the walker yields of the first `upto` nodes of a directory, now or
/// later, is what the tree holds below them, each file as often.
proof fn lemma_yields_match(dir: Seq<char>, nodes: Seq<Node>, upto: nat)
    requires
        upto <= nodes.len(),
    ensures
        files_upto(dir, nodes, upto).to_multiset().add(
            yielded(asks_below(dir, nodes, upto)).to_multiset(),
        ) == visible_upto(dir, nodes, upto).to_multiset(),
    decreases nodes, upto,
{
    broadcast use vstd::seq_lib::group_to_multiset_ensures;

    reveal_with_fuel(yielded, 3);
    if upto == 0 {
        assert(yielded(asks_below(dir, nodes, upto)) == Seq::<Seq<char>>::empty());
    } else {
        let before = (upto - 1) as nat;
        lemma_yields_match(dir, nodes, before);
        let node = nodes[upto - 1];
        let later = asks_below(dir, nodes, before);
        let files = files_upto(dir, nodes, before);
        let seen = visible_upto(dir, nodes, before);
        match node {
            Node::Unreadable => {
                assert(asks_below(dir, nodes, upto) == later);
                assert(files_upto(dir, nodes, upto) == files);
                assert(visible_upto(dir, nodes, upto) == seen);
            },
            Node::File { name, .. } => {
                assert(asks_below(dir, nodes, upto) == later);
                if is_visible(name) {
                    let path = seq![joined(dir, name)];
                    vstd::seq_lib::lemma_multiset_commutative(files, path);
                    vstd::seq_lib::lemma_multiset_commutative(seen, path);
                    assert(files.to_multiset().add(path.to_multiset()).add(
                        yielded(later).to_multiset(),
                    ) == files.to_multiset().add(yielded(later).to_multiset()).add(
                        path.to_multiset(),
                    ));
                } else {
                    assert(files_upto(dir, nodes, upto) == files);
                    assert(visible_upto(dir, nodes, upto) == seen);
                }
            },
            Node::Dir { name, entries } => {
                assert(files_upto(dir, nodes, upto) == files);
                if is_visible(name) {
                    let child = joined(dir, name);
                    match entries {
                        Err(_) => {
                            let open = seq![WalkRequestView::Open(child)];
                            lemma_yielded_joined(open, later);
                            assert(open.drop_last() == Seq::<WalkRequestView>::empty());
                            assert(yielded(open) == Seq::<Seq<char>>::empty());
                            assert(yielded(asks_below(dir, nodes, upto)) == yielded(later));
                            assert(visible_upto(dir, nodes, upto) == seen);
                        },
                        Ok(inner) => {
                            let open = seq![
                                WalkRequestView::Open(child),
                                WalkRequestView::Read,
                            ];
                            let read = asks_in(child, inner);
                            let deep = asks_below(child, inner, inner.len());
                            lemma_yields_match(child, inner, inner.len());
                            lemma_files_yielded(child, inner, inner.len());
                            assert(read.take(inner.len() as int) == read);
                            lemma_yielded_joined(open + (read + deep), later);
                            lemma_yielded_joined(open, read + deep);
                            lemma_yielded_joined(read, deep);
                            assert(open.drop_last() == seq![WalkRequestView::Open(child)]);
                            assert(open.drop_last().drop_last() == Seq::<
                                WalkRequestView,
                            >::empty());
                            assert(yielded(open) == Seq::<Seq<char>>::empty());
                            assert(asks_within(child, inner) == read + deep);
                            let inside = visible_upto(child, inner, inner.len());
                            let mine = yielded(read) + yielded(deep);
                            assert(yielded(asks_below(dir, nodes, upto)) == mine + yielded(later));
                            vstd::seq_lib::lemma_multiset_commutative(yielded(read), yielded(deep));
                            vstd::seq_lib::lemma_multiset_commutative(mine, yielded(later));
                            vstd::seq_lib::lemma_multiset_commutative(seen, inside);
                            assert(mine.to_multiset() == inside.to_multiset());
                            assert(files.to_multiset().add(
                                mine.to_multiset().add(yielded(later).to_multiset()),
                            ) == files.to_multiset().add(yielded(later).to_multiset()).add(
                                mine.to_multiset(),
                            ));
                        },
                    }
                } else {
                    assert(asks_below(dir, nodes, upto) == later);
                    assert(visible_upto(dir, nodes, upto) == seen);
                }
            },
        }
    }
}

/// For every directory tree: a walker that is answered from the tree asks
/// to open each visible directory that is reached through visible
/// directories and no other, and ends when none is left.
pub proof fn lemma_walker_follows_tree(root: Seq<char>, nodes: Seq<Node>)
    ensures
        walk(set_out(root), answers_within(root, nodes)) == (
            WalkerView { pending: Seq::empty(), phase: PhaseView::Finished },
            asks_of_walk(root, nodes),
        ),
{
    let none = Seq::<WalkReplyView>::empty();
    let nothing = Seq::<Seq<char>>::empty();
    let below = answers_below(root, nodes, nodes.len());
    assert(nothing + met_upto(root, nodes, 0) == nothing);
    assert(found_in(nodes).skip(0) == found_in(nodes));
    assert(asks_in(root, nodes).skip(0) == asks_in(root, nodes));
    lemma_entries_read(nothing, root, nodes, 0, below);
    assert(below + none == below);
    lemma_below_walked(nothing, root, nodes, nodes.len(), none);
    let end = resume(nothing, none);
    assert(end.1 == seq![WalkRequestView::Finished]);
    assert(asks_in(root, nodes) + (asks_below(root, nodes, nodes.len()) + end.1)
        == asks_of_walk(root, nodes));
}

/// For every directory tree: the files that the walker yields are the
/// visible files that are reached through visible directories, each one
/// exactly once. No hidden file is yielded, and no file below a hidden
/// directory.
pub proof fn lemma_walker_yields_visible_files(root: Seq<char>, nodes: Seq<Node>)
    ensures
        yielded(walk(set_out(root), answers_within(root, nodes)).1).to_multiset()
            == visible_files(root, nodes).to_multiset(),
{
    broadcast use vstd::seq_lib::group_to_multiset_ensures;

    lemma_walker_follows_tree(root, nodes);
    let read = asks_in(root, nodes);
    let deep = asks_below(root, nodes, nodes.len());
    let asks = asks_of_walk(root, nodes);
    assert(asks.drop_last() == read + deep);
    lemma_yielded_joined(read, deep);
    lemma_files_yielded(root, nodes, nodes.len());
    assert(read.take(nodes.len() as int) == read);
    lemma_yields_match(root, nodes, nodes.len());
    assert(yielded(asks) == yielded(read) + yielded(deep));
    vstd::seq_lib::lemma_multiset_commutative(yielded(read), yielded(deep));
}

} // verus!

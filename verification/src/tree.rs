//! The album of a directory tree, and that the builder builds it.
//!
//! `album_of` says in one piece what the album of a directory is, given the
//! whole tree below it. The builder never sees a whole tree: it asks and is
//! answered. The laws at the end of this file connect the two.

use vstd::prelude::*;
use crate::error::open_error;
use crate::error::Error;
use crate::error::OpenFailure;
use crate::explorer::advanced;
use crate::explorer::begun;
use crate::explorer::examined;
use crate::explorer::finished;
use crate::explorer::first_wanted;
use crate::explorer::fresh;
use crate::explorer::idle;
use crate::explorer::received;
use crate::explorer::step_of;
use crate::explorer::AlbumView;
use crate::explorer::BuilderView;
use crate::explorer::FrameView;
use crate::explorer::Pending;
use crate::explorer::ReplyView;
use crate::explorer::RequestView;
use crate::filter::is_visible;
use crate::listing::is_wanted;
use crate::listing::listed;
use crate::listing::shown;
use crate::listing::Node;
use crate::media::image_size;
use crate::media::described;
use crate::media::MediaView;
use crate::path::base_name;
use crate::path::is_plain;
use crate::path::lemma_child_is_named;
use crate::path::joined;

verus! {

/// A row of one item, or of none.
pub open spec fn one_or_none<T>(item: Option<T>) -> Seq<T> {
    match item {
        Some(found) => seq![found],
        None => Seq::empty(),
    }
}

/// What an album lists of a node of the directory at `dir`: the image in
/// it, if the node is a visible file that can be read and decoded.
pub open spec fn media_at(dir: Seq<char>, node: Node) -> Option<MediaView> {
    match node {
        Node::File { name, content: Some(bytes) } => if is_visible(name) {
            described(joined(dir, name), bytes)
        } else {
            None
        },
        _ => None,
    }
}

/// The media of the nodes from place `from` on, in their order.
pub open spec fn medias_from(dir: Seq<char>, nodes: Seq<Node>, from: nat) -> Seq<MediaView>
    decreases nodes.len() - from,
{
    if from >= nodes.len() {
        Seq::empty()
    } else {
        one_or_none(media_at(dir, nodes[from as int])) + medias_from(dir, nodes, from + 1)
    }
}

/// The album of the directory at `dir` that holds `nodes`: named by the
/// final component of the path, with the albums of its visible
/// subdirectories and the images among its visible files, each in the order
/// of the listing. There is none where the path has no final component.
pub open spec fn album_of(dir: Seq<char>, nodes: Seq<Node>) -> Option<AlbumView>
    decreases nodes, nodes.len() + 1,
{
    match base_name(dir) {
        Some(name) => Some(
            AlbumView {
                name,
                albums: albums_from(dir, nodes, 0),
                medias: medias_from(dir, nodes, 0),
            },
        ),
        None => None,
    }
}

/// The albums of the nodes from place `from` on, in their order. A node
/// gives an album if it is a visible directory that can be listed and
/// named.
pub open spec fn albums_from(dir: Seq<char>, nodes: Seq<Node>, from: nat) -> Seq<AlbumView>
    decreases nodes, nodes.len() - from,
{
    if from >= nodes.len() {
        Seq::empty()
    } else {
        one_or_none(
            match nodes[from as int] {
                Node::Dir { name, entries: Ok(inner) } => if is_visible(name) {
                    album_of(joined(dir, name), inner)
                } else {
                    None
                },
                _ => None,
            },
        ) + albums_from(dir, nodes, from + 1)
    }
}

/// The album that a node of the directory at `dir` gives, if any.
pub open spec fn album_at(dir: Seq<char>, node: Node) -> Option<AlbumView> {
    match node {
        Node::Dir { name, entries: Ok(inner) } => if is_visible(name) {
            album_of(joined(dir, name), inner)
        } else {
            None
        },
        _ => None,
    }
}

/// How the build of the album of a directory ends: with the reason, if the
/// directory cannot be listed; with an internal error, if it cannot be
/// named; else with its album.
pub open spec fn built(root: Seq<char>, listing: Result<Seq<Node>, OpenFailure>) -> Result<
    AlbumView,
    Error,
> {
    match listing {
        Err(failure) => Err(open_error(failure)),
        Ok(nodes) => match album_of(root, nodes) {
            Some(album) => Ok(album),
            None => Err(Error::Internal),
        },
    }
}

/// What a caller that reads the tree answers, in order, while the nodes
/// from place `from` on are handled: the content of each visible file, and
/// for each visible directory its listing and then the answers for what it
/// holds.
pub open spec fn answers_from(dir: Seq<char>, nodes: Seq<Node>, from: nat) -> Seq<ReplyView>
    decreases nodes, nodes.len() - from,
{
    if from >= nodes.len() {
        Seq::empty()
    } else {
        (match nodes[from as int] {
            Node::Unreadable => Seq::empty(),
            Node::File { name, content } => if is_visible(name) {
                seq![ReplyView::Content(content)]
            } else {
                Seq::empty()
            },
            Node::Dir { name, entries } => if is_visible(name) {
                match entries {
                    Ok(inner) => seq![ReplyView::Listing(Ok(listed(inner)))] + answers_from(
                        joined(dir, name),
                        inner,
                        0,
                    ),
                    Err(failure) => seq![ReplyView::Listing(Err(failure))],
                }
            } else {
                Seq::empty()
            },
        }) + answers_from(dir, nodes, from + 1)
    }
}

/// What the tree makes the builder ask, in order, while the nodes from
/// place `from` on are handled: the content of each visible file, the
/// listing of each visible directory, and what is asked for inside each
/// directory that can be listed. Nothing is asked about a hidden entry or
/// about what lies below one.
pub open spec fn asks_from(dir: Seq<char>, nodes: Seq<Node>, from: nat) -> Seq<RequestView>
    decreases nodes, nodes.len() - from,
{
    if from >= nodes.len() {
        Seq::empty()
    } else {
        (match nodes[from as int] {
            Node::Unreadable => Seq::empty(),
            Node::File { name, .. } => if is_visible(name) {
                seq![RequestView::Read(joined(dir, name))]
            } else {
                Seq::empty()
            },
            Node::Dir { name, entries } => if is_visible(name) {
                match entries {
                    Ok(inner) => seq![RequestView::List(joined(dir, name))] + asks_from(
                        joined(dir, name),
                        inner,
                        0,
                    ),
                    Err(_) => seq![RequestView::List(joined(dir, name))],
                }
            } else {
                Seq::empty()
            },
        }) + asks_from(dir, nodes, from + 1)
    }
}

/// All that a caller answers during the build of the album of a tree.
pub open spec fn answers_of(root: Seq<char>, listing: Result<Seq<Node>, OpenFailure>) -> Seq<
    ReplyView,
> {
    match listing {
        Ok(nodes) => seq![ReplyView::Listing(Ok(listed(nodes)))] + answers_from(root, nodes, 0),
        Err(failure) => seq![ReplyView::Listing(Err(failure))],
    }
}

/// All that the builder asks after its first request, the last one being
/// that nothing is left to do.
pub open spec fn asks_of(root: Seq<char>, listing: Result<Seq<Node>, OpenFailure>) -> Seq<
    RequestView,
> {
    match listing {
        Ok(nodes) => asks_from(root, nodes, 0).push(RequestView::Done(built(root, listing))),
        Err(_) => seq![RequestView::Done(built(root, listing))],
    }
}

/// The builder run on a row of replies: the state it ends in and the
/// requests it made, one for each reply.
pub open spec fn run(state: BuilderView, replies: Seq<ReplyView>) -> (BuilderView, Seq<RequestView>)
    decreases replies.len(),
{
    if replies.len() == 0 {
        (state, Seq::empty())
    } else {
        let (next, request) = step_of(state, replies[0]);
        let (last, more) = run(next, replies.skip(1));
        (last, seq![request] + more)
    }
}

/// The builder going on from the directories that are open and then run on
/// a row of replies: the state it ends in and the requests it made.
pub open spec fn play(frames: Seq<FrameView>, replies: Seq<ReplyView>) -> (
    BuilderView,
    Seq<RequestView>,
) {
    let (state, request) = advanced(frames);
    let (last, more) = run(state, replies);
    (last, seq![request] + more)
}

/// An outcome with further requests in front of its own.
pub open spec fn after(asks: Seq<RequestView>, outcome: (BuilderView, Seq<RequestView>)) -> (
    BuilderView,
    Seq<RequestView>,
) {
    (outcome.0, asks + outcome.1)
}

/// A directory once the nodes from place `from` on have been handled.
pub open spec fn completed(top: FrameView, nodes: Seq<Node>, from: nat) -> FrameView {
    FrameView {
        next: nodes.len(),
        albums: top.albums + albums_from(top.path, nodes, from),
        medias: top.medias + medias_from(top.path, nodes, from),
        ..top
    }
}

/// A reply that is answered by going on from `frames` leaves the rest of
/// the replies to that.
proof fn lemma_step_then_play(
    state: BuilderView,
    reply: ReplyView,
    rest: Seq<ReplyView>,
    frames: Seq<FrameView>,
)
    requires
        step_of(state, reply) == advanced(frames),
    ensures
        run(state, seq![reply] + rest) == play(frames, rest),
{
    let replies = seq![reply] + rest;
    assert(replies[0] == reply);
    assert(replies.skip(1) == rest);
}

/// A place that is not followed up is passed over.
proof fn lemma_advanced_skip(below: Seq<FrameView>, top: FrameView)
    requires
        top.next < top.slots.len(),
        !is_wanted(top.slots[top.next as int]),
    ensures
        advanced(below.push(top)) == advanced(
            below.push(FrameView { next: top.next + 1, ..top }),
        ),
{
    let moved = FrameView { next: top.next + 1, ..top };
    assert(below.push(top).last() == top);
    assert(below.push(top).drop_last() == below);
    assert(below.push(moved).last() == moved);
    assert(below.push(moved).drop_last() == below);
    assert(first_wanted(top.slots, top.next) == first_wanted(moved.slots, moved.next));
}

/// At a place that is followed up the builder asks.
proof fn lemma_advanced_asks(below: Seq<FrameView>, top: FrameView)
    requires
        top.next < top.slots.len(),
        is_wanted(top.slots[top.next as int]),
    ensures
        ({
            let entry = top.slots[top.next as int]->0;
            let child = joined(top.path, entry.name);
            advanced(below.push(top)) == if entry.is_dir {
                (
                    BuilderView {
                        frames: below.push(top).push(fresh(child)),
                        pending: Pending::Listing,
                    },
                    RequestView::List(child),
                )
            } else {
                (
                    BuilderView { frames: below.push(top), pending: Pending::Content(child) },
                    RequestView::Read(child),
                )
            }
        }),
{
    assert(below.push(top).last() == top);
    assert(below.push(top).drop_last() == below);
    assert(first_wanted(top.slots, top.next) == top.next);
    assert((FrameView { next: top.next, ..top }) == top);
}

/// A directory with no place left hands its album to the one below.
proof fn lemma_advanced_hands_over(below: Seq<FrameView>, parent: FrameView, top: FrameView)
    requires
        top.next >= top.slots.len(),
    ensures
        advanced(below.push(parent).push(top)) == advanced(
            below.push(received(parent, finished(top))),
        ),
{
    let frames = below.push(parent).push(top);
    assert(frames.last() == top);
    assert(frames.drop_last() == below.push(parent));
    assert(below.push(parent).last() == parent);
    assert(below.push(parent).drop_last() == below);
    assert(first_wanted(top.slots, top.next) == top.slots.len());
}

/// Handling the nodes of a directory from a place on: the builder asks what
/// the tree makes it ask, and ends with the albums and media of those nodes
/// added to the directory.
proof fn lemma_entries_followed(
    below: Seq<FrameView>,
    top: FrameView,
    nodes: Seq<Node>,
    from: nat,
    tail: Seq<ReplyView>,
)
    requires
        top.slots == listed(nodes),
        top.next == from,
        from <= nodes.len(),
    ensures
        play(below.push(top), answers_from(top.path, nodes, from) + tail) == after(
            asks_from(top.path, nodes, from),
            play(below.push(completed(top, nodes, from)), tail),
        ),
    decreases nodes, nodes.len() - from,
{
    let dir = top.path;
    let frames = below.push(top);
    let replies = answers_from(dir, nodes, from) + tail;
    let done = completed(top, nodes, from);
    if from >= nodes.len() {
        assert(replies == tail);
        assert(done == top);
        assert(asks_from(dir, nodes, from) + play(frames, tail).1 == play(frames, tail).1);
    } else {
        let node = nodes[from as int];
        let rest = answers_from(dir, nodes, from + 1) + tail;
        assert(top.slots[from as int] == shown(node));
        if !is_wanted(shown(node)) {
            let moved = FrameView { next: from + 1, ..top };
            lemma_advanced_skip(below, top);
            lemma_entries_followed(below, moved, nodes, from + 1, tail);
            assert(answers_from(dir, nodes, from) == answers_from(dir, nodes, from + 1));
            assert(asks_from(dir, nodes, from) == asks_from(dir, nodes, from + 1));
            assert(albums_from(dir, nodes, from) == albums_from(dir, nodes, from + 1));
            assert(medias_from(dir, nodes, from) == medias_from(dir, nodes, from + 1));
            assert(completed(moved, nodes, from + 1) == done);
        } else {
            lemma_advanced_asks(below, top);
            match node {
                Node::Unreadable => {},
                Node::File { name, content } => {
                    let child = joined(dir, name);
                    let reply = ReplyView::Content(content);
                    let state = BuilderView { frames, pending: Pending::Content(child) };
                    let seen = examined(top, media_at(dir, node));
                    assert(frames.last() == top);
                    assert(frames.drop_last() == below);
                    assert(step_of(state, reply) == advanced(below.push(seen)));
                    lemma_step_then_play(state, reply, rest, below.push(seen));
                    assert(replies == seq![reply] + rest);
                    lemma_entries_followed(below, seen, nodes, from + 1, tail);
                    assert(albums_from(dir, nodes, from) == albums_from(dir, nodes, from + 1));
                    assert(completed(seen, nodes, from + 1) == done);
                    assert(asks_from(dir, nodes, from) == seq![RequestView::Read(child)]
                        + asks_from(dir, nodes, from + 1));
                    let end = play(below.push(done), tail);
                    assert(seq![RequestView::Read(child)] + (asks_from(dir, nodes, from + 1)
                        + end.1) == asks_from(dir, nodes, from) + end.1);
                },
                Node::Dir { name, entries } => {
                    let child = joined(dir, name);
                    let state = BuilderView {
                        frames: frames.push(fresh(child)),
                        pending: Pending::Listing,
                    };
                    assert(state.frames.last() == fresh(child));
                    assert(state.frames.drop_last() == frames);
                    assert(frames.last() == top);
                    assert(frames.drop_last() == below);
                    assert(medias_from(dir, nodes, from) == medias_from(dir, nodes, from + 1));
                    let heir = received(top, album_at(dir, node));
                    let end = play(below.push(done), tail);
                    match entries {
                        Err(failure) => {
                            let reply = ReplyView::Listing(Err(failure));
                            assert(step_of(state, reply) == advanced(below.push(heir)));
                            lemma_step_then_play(state, reply, rest, below.push(heir));
                            assert(replies == seq![reply] + rest);
                            lemma_entries_followed(below, heir, nodes, from + 1, tail);
                            assert(albums_from(dir, nodes, from) == albums_from(
                                dir,
                                nodes,
                                from + 1,
                            ));
                            assert(completed(heir, nodes, from + 1) == done);
                            assert(asks_from(dir, nodes, from) == seq![RequestView::List(child)]
                                + asks_from(dir, nodes, from + 1));
                            assert(seq![RequestView::List(child)] + (asks_from(
                                dir,
                                nodes,
                                from + 1,
                            ) + end.1) == asks_from(dir, nodes, from) + end.1);
                        },
                        Ok(inner) => {
                            let reply = ReplyView::Listing(Ok(listed(inner)));
                            let opened = FrameView {
                                slots: listed(inner),
                                next: 0,
                                ..fresh(child)
                            };
                            let inside = answers_from(child, inner, 0);
                            assert(step_of(state, reply) == advanced(frames.push(opened)));
                            lemma_step_then_play(
                                state,
                                reply,
                                inside + rest,
                                frames.push(opened),
                            );
                            assert(replies == seq![reply] + (inside + rest));
                            lemma_entries_followed(frames, opened, inner, 0, rest);
                            let closed = completed(opened, inner, 0);
                            assert(closed.albums == albums_from(child, inner, 0));
                            assert(closed.medias == medias_from(child, inner, 0));
                            assert(finished(closed) == album_of(child, inner));
                            lemma_advanced_hands_over(below, top, closed);
                            assert(play(frames.push(closed), rest) == play(
                                below.push(heir),
                                rest,
                            ));
                            lemma_entries_followed(below, heir, nodes, from + 1, tail);
                            assert(albums_from(dir, nodes, from) == one_or_none(
                                album_at(dir, node),
                            ) + albums_from(dir, nodes, from + 1));
                            assert(completed(heir, nodes, from + 1) == done);
                            let asked = asks_from(child, inner, 0);
                            assert(asks_from(dir, nodes, from) == (seq![
                                RequestView::List(child),
                            ] + asked) + asks_from(dir, nodes, from + 1));
                            assert(seq![RequestView::List(child)] + (asked + (asks_from(
                                dir,
                                nodes,
                                from + 1,
                            ) + end.1)) == asks_from(dir, nodes, from) + end.1);
                        },
                    }
                },
            }
        }
    }
}

/// For every directory tree: a builder that is answered from the tree asks
/// for the listing of each visible directory that is reached through
/// visible directories and for the content of each visible file in them,
/// for nothing else, and ends with the album of the tree.
///
/// What cannot be read is left out and the build goes on with the next
/// entry: a file that cannot be read or decoded and a directory that cannot
/// be listed change neither what is asked of the entries after them nor
/// what those entries add to the album.
pub proof fn lemma_builder_follows_tree(root: Seq<char>, listing: Result<Seq<Node>, OpenFailure>)
    ensures
        run(begun(root), answers_of(root, listing)) == (idle(), asks_of(root, listing)),
{
    let state = begun(root);
    assert(state.frames.last() == fresh(root));
    assert(state.frames.drop_last() == Seq::<FrameView>::empty());
    let none = Seq::<ReplyView>::empty();
    let below = Seq::<FrameView>::empty();
    match listing {
        Err(failure) => {
            let reply = ReplyView::Listing(Err(failure));
            let replies = answers_of(root, listing);
            assert(replies[0] == reply);
            assert(replies.skip(1) == none);
            assert(run(step_of(state, reply).0, none).1 == Seq::<RequestView>::empty());
            assert(seq![step_of(state, reply).1] + Seq::<RequestView>::empty() == asks_of(
                root,
                listing,
            ));
        },
        Ok(nodes) => {
            let reply = ReplyView::Listing(Ok(listed(nodes)));
            let opened = FrameView { slots: listed(nodes), next: 0, ..fresh(root) };
            let inside = answers_from(root, nodes, 0);
            assert(seq![opened] == below.push(opened));
            assert(step_of(state, reply) == advanced(below.push(opened)));
            lemma_step_then_play(state, reply, inside + none, below.push(opened));
            assert(inside + none == inside);
            lemma_entries_followed(below, opened, nodes, 0, none);
            let closed = completed(opened, nodes, 0);
            assert(closed.albums == albums_from(root, nodes, 0));
            assert(closed.medias == medias_from(root, nodes, 0));
            assert(finished(closed) == album_of(root, nodes));
            assert(below.push(closed).last() == closed);
            assert(below.push(closed).drop_last() == below);
            assert(first_wanted(closed.slots, closed.next) == closed.slots.len());
            let end = advanced(below.push(closed));
            assert(end == (idle(), RequestView::Done(built(root, listing))));
            assert(run(end.0, none).1 == Seq::<RequestView>::empty());
            assert(asks_from(root, nodes, 0) + (seq![end.1] + Seq::<RequestView>::empty())
                == asks_of(root, listing));
        },
    }
}

/// Whether a node of the directory at `dir` adds an image to its album.
pub open spec fn shows_media(dir: Seq<char>) -> spec_fn(Node) -> bool {
    |node: Node| media_at(dir, node) is Some
}

/// Whether a node of the directory at `dir` adds an album to its album.
pub open spec fn shows_album(dir: Seq<char>) -> spec_fn(Node) -> bool {
    |node: Node| album_at(dir, node) is Some
}

/// A node that fails: an entry that cannot be read, a file that cannot be
/// read or is no image, a directory that cannot be listed.
pub open spec fn fails(node: Node) -> bool {
    match node {
        Node::Unreadable => true,
        Node::File { content, .. } => content matches Some(bytes) ==> image_size(bytes) is None,
        Node::Dir { entries, .. } => entries is Err,
    }
}

/// Which nodes add to an album. A file adds an image exactly if it is
/// visible, can be read and decodes, a directory adds an album exactly if
/// it is visible and can be listed; both on condition that the path of the
/// entry has a final component to name it, which it has where the name is
/// one that names an entry.
pub proof fn lemma_what_is_shown(dir: Seq<char>, node: Node)
    ensures
        media_at(dir, node) is Some <==> (node matches Node::File { name, content: Some(bytes) }
            && is_visible(name) && image_size(bytes) is Some && base_name(joined(dir, name))
            is Some),
        album_at(dir, node) is Some <==> (node matches Node::Dir { name, entries: Ok(_) }
            && is_visible(name) && base_name(joined(dir, name)) is Some),
        fails(node) ==> media_at(dir, node) is None && album_at(dir, node) is None,
        node matches Node::File { name, .. } ==> (is_plain(name) ==> base_name(
            joined(dir, name),
        ) == Some(name)),
        node matches Node::Dir { name, .. } ==> (is_plain(name) ==> base_name(joined(dir, name))
            == Some(name)),
{
    match node {
        Node::Unreadable => {},
        Node::File { name, .. } => {
            if is_plain(name) {
                lemma_child_is_named(dir, name);
            }
        },
        Node::Dir { name, .. } => {
            if is_plain(name) {
                lemma_child_is_named(dir, name);
            }
        },
    }
}

/// The media and albums of a row of nodes from a place on are counted by
/// the nodes that show one.
proof fn lemma_counts_from(dir: Seq<char>, nodes: Seq<Node>, from: nat)
    requires
        from <= nodes.len(),
    ensures
        medias_from(dir, nodes, from).len() == nodes.skip(from as int).filter(
            shows_media(dir),
        ).len(),
        albums_from(dir, nodes, from).len() == nodes.skip(from as int).filter(
            shows_album(dir),
        ).len(),
    decreases nodes.len() - from,
{
    reveal_with_fuel(Seq::filter, 2);
    let rest = nodes.skip(from as int);
    if from < nodes.len() {
        lemma_counts_from(dir, nodes, from + 1);
        let node = nodes[from as int];
        let tail = nodes.skip(from as int + 1);
        assert(rest == seq![node] + tail);
        assert(seq![node].drop_last() == Seq::<Node>::empty());
        assert(seq![node].last() == node);
        Seq::filter_distributes_over_add(seq![node], tail, shows_media(dir));
        Seq::filter_distributes_over_add(seq![node], tail, shows_album(dir));
        assert(album_at(dir, node) is Some ==> seq![node].filter(shows_album(dir)).len() == 1);
        assert(album_at(dir, node) is None ==> seq![node].filter(shows_album(dir)).len() == 0);
        assert(media_at(dir, node) is Some ==> seq![node].filter(shows_media(dir)).len() == 1);
        assert(media_at(dir, node) is None ==> seq![node].filter(shows_media(dir)).len() == 0);
    } else {
        assert(rest.len() == 0);
    }
}

/// For every directory tree: the album of a directory lists as many images
/// as the directory holds visible files that are images, and as many albums
/// as it holds visible subdirectories that give an album.
pub proof fn lemma_album_counts(dir: Seq<char>, nodes: Seq<Node>)
    ensures
        album_of(dir, nodes) matches Some(album) ==> album.medias.len() == nodes.filter(
            shows_media(dir),
        ).len() && album.albums.len() == nodes.filter(shows_album(dir)).len(),
{
    lemma_counts_from(dir, nodes, 0);
    assert(nodes.skip(0) == nodes);
}

/// Nodes in front of a row change nothing of what the row gives.
proof fn lemma_from_shifted(dir: Seq<char>, front: Seq<Node>, nodes: Seq<Node>, from: nat)
    ensures
        medias_from(dir, front + nodes, front.len() + from) == medias_from(dir, nodes, from),
        albums_from(dir, front + nodes, front.len() + from) == albums_from(dir, nodes, from),
    decreases nodes.len() - from,
{
    if from < nodes.len() {
        lemma_from_shifted(dir, front, nodes, from + 1);
        assert((front + nodes)[front.len() as int + from as int] == nodes[from as int]);
    }
}

/// What two rows of nodes give, one after the other, is what they give
/// together.
proof fn lemma_from_joined(dir: Seq<char>, front: Seq<Node>, nodes: Seq<Node>, from: nat)
    requires
        from <= front.len(),
    ensures
        medias_from(dir, front + nodes, from) == medias_from(dir, front, from) + medias_from(
            dir,
            nodes,
            0,
        ),
        albums_from(dir, front + nodes, from) == albums_from(dir, front, from) + albums_from(
            dir,
            nodes,
            0,
        ),
    decreases front.len() - from,
{
    if from < front.len() {
        lemma_from_joined(dir, front, nodes, from + 1);
        assert((front + nodes)[from as int] == front[from as int]);
    } else {
        lemma_from_shifted(dir, front, nodes, 0);
    }
}

/// A failure is isolated: an entry that cannot be read, a file that cannot
/// be read or does not decode, a directory that cannot be listed is left
/// out, and the album is the one that the directory would have without that
/// entry. Every other entry is handled as if the failing one were not
/// there.
pub proof fn lemma_failure_is_isolated(dir: Seq<char>, nodes: Seq<Node>, at: int)
    requires
        0 <= at < nodes.len(),
        fails(nodes[at]),
    ensures
        album_of(dir, nodes) == album_of(dir, nodes.remove(at)),
{
    let front = nodes.take(at);
    let back = nodes.skip(at + 1);
    let one = seq![nodes[at]];
    assert(nodes == front + (one + back));
    assert(nodes.remove(at) == front + back);
    lemma_from_joined(dir, front, one + back, 0);
    lemma_from_joined(dir, front, back, 0);
    lemma_from_joined(dir, one, back, 0);
    lemma_what_is_shown(dir, nodes[at]);
    assert(medias_from(dir, one, 1) == Seq::<MediaView>::empty());
    assert(albums_from(dir, one, 1) == Seq::<AlbumView>::empty());
    assert(medias_from(dir, one, 0) == Seq::<MediaView>::empty());
    assert(albums_from(dir, one, 0) == Seq::<AlbumView>::empty());
    assert(medias_from(dir, nodes, 0) == medias_from(dir, nodes.remove(at), 0));
    assert(albums_from(dir, nodes, 0) == albums_from(dir, nodes.remove(at), 0));
}

} // verus!

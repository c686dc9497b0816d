//! Albums: a directory and what it holds, listed as a tree.
//!
//! The tree is built by an `AlbumBuilder`, which reads nothing itself. It
//! asks for the listing of a directory or for the content of a file, one
//! request at a time, and is told the answer with `step`. What it asks for and
//! what it makes of the answers is decided here.

use vstd::prelude::*;
use crate::error::open_error;
use crate::error::Error;
use crate::error::OpenFailure;
use crate::listing::is_wanted;
use crate::listing::slot_view;
use crate::listing::slots_view;
use crate::listing::Entry;
use crate::listing::EntryView;
use crate::media::described;
use crate::media::path_to_media;
use crate::media::Media;
use crate::media::MediaView;
use crate::filter::visible;
use crate::path::base_name;
use crate::path::file_name;
use crate::path::join;
use crate::path::joined;

verus! {

/// A directory as a collection: its name, the albums of its visible
/// subdirectories and the images among its visible files.
#[derive(Debug, PartialEq, Eq)]
pub struct Album {
    pub name: String,
    pub albums: Vec<Album>,
    pub medias: Vec<Media>,
}

/// An `Album` as plain values.
#[verifier::ext_equal]
pub struct AlbumView {
    pub name: Seq<char>,
    pub albums: Seq<AlbumView>,
    pub medias: Seq<MediaView>,
}

/// A row of media as plain values.
pub open spec fn media_views(medias: Seq<Media>) -> Seq<MediaView> {
    Seq::new(medias.len(), |i: int| medias[i]@)
}

/// An album as plain values, its nested albums included.
pub open spec fn album_view(album: Album) -> AlbumView
    decreases album,
{
    AlbumView {
        name: album.name@,
        albums: Seq::new(
            album.albums.len() as nat,
            |i: int|
                if 0 <= i < album.albums.len() {
                    album_view(album.albums[i])
                } else {
                    arbitrary()
                },
        ),
        medias: media_views(album.medias@),
    }
}

/// A row of albums as plain values.
pub open spec fn album_views(albums: Seq<Album>) -> Seq<AlbumView> {
    Seq::new(albums.len(), |i: int| album_view(albums[i]))
}

impl View for Album {
    type V = AlbumView;

    open spec fn view(&self) -> AlbumView {
        album_view(*self)
    }
}

/// What the builder asks of its caller.
#[derive(Debug)]
pub enum Request {
    /// List the directory at this path and answer with `Reply::Listing`.
    List(String),
    /// Read the file at this path and answer with `Reply::Content`.
    Read(String),
    /// Nothing more: the album is built, or the build has failed.
    Done(Result<Album, Error>),
}

/// A `Request` as plain values.
#[verifier::ext_equal]
pub enum RequestView {
    List(Seq<char>),
    Read(Seq<char>),
    Done(Result<AlbumView, Error>),
}

impl View for Request {
    type V = RequestView;

    open spec fn view(&self) -> RequestView {
        match *self {
            Request::List(path) => RequestView::List(path@),
            Request::Read(path) => RequestView::Read(path@),
            Request::Done(Ok(album)) => RequestView::Done(Ok(album@)),
            Request::Done(Err(error)) => RequestView::Done(Err(error)),
        }
    }
}

/// What the caller found.
#[derive(Debug)]
pub enum Reply {
    /// The entries of the directory, in the order of the listing, with
    /// nothing in the place of an entry that could not be read; or why the
    /// directory could not be listed.
    Listing(Result<Vec<Option<Entry>>, OpenFailure>),
    /// The bytes of the file, or nothing where it could not be read.
    Content(Option<Vec<u8>>),
}

/// A `Reply` as plain values.
#[verifier::ext_equal]
pub enum ReplyView {
    Listing(Result<Seq<Option<EntryView>>, OpenFailure>),
    Content(Option<Seq<u8>>),
}

impl View for Reply {
    type V = ReplyView;

    open spec fn view(&self) -> ReplyView {
        match *self {
            Reply::Listing(Ok(slots)) => ReplyView::Listing(Ok(slots_view(slots@))),
            Reply::Listing(Err(failure)) => ReplyView::Listing(Err(failure)),
            Reply::Content(Some(bytes)) => ReplyView::Content(Some(bytes@)),
            Reply::Content(None) => ReplyView::Content(None),
        }
    }
}

/// A directory whose album is under construction.
struct Frame {
    path: String,
    slots: Vec<Option<Entry>>,
    next: usize,
    albums: Vec<Album>,
    medias: Vec<Media>,
}

/// A directory whose album is under construction, as plain values.
#[verifier::ext_equal]
pub struct FrameView {
    /// The path of the directory.
    pub path: Seq<char>,
    /// Its listing, once it is known.
    pub slots: Seq<Option<EntryView>>,
    /// The place of the listing that is looked at next, or that the
    /// outstanding request is about.
    pub next: nat,
    /// The albums of the subdirectories handled so far.
    pub albums: Seq<AlbumView>,
    /// The media among the files handled so far.
    pub medias: Seq<MediaView>,
}

impl View for Frame {
    type V = FrameView;

    closed spec fn view(&self) -> FrameView {
        FrameView {
            path: self.path@,
            slots: slots_view(self.slots@),
            next: self.next as nat,
            albums: album_views(self.albums@),
            medias: media_views(self.medias@),
        }
    }
}

/// What the builder waits for.
enum Waiting {
    Listing,
    Content(String),
    Nothing,
}

/// What the builder waits for, as plain values.
#[verifier::ext_equal]
pub enum Pending {
    /// The listing of the directory on top.
    Listing,
    /// The content of the file at this path, an entry of the directory
    /// on top.
    Content(Seq<char>),
    /// Nothing: the build is over.
    Nothing,
}

/// Builds the album of a directory from what its caller reads for it.
pub struct AlbumBuilder {
    frames: Vec<Frame>,
    waiting: Waiting,
}

/// An `AlbumBuilder` as plain values: the directories that are open, the
/// root first, and what is waited for.
#[verifier::ext_equal]
pub struct BuilderView {
    pub frames: Seq<FrameView>,
    pub pending: Pending,
}

spec fn frame_views(frames: Seq<Frame>) -> Seq<FrameView> {
    Seq::new(frames.len(), |i: int| frames[i]@)
}

spec fn pending_view(waiting: Waiting) -> Pending {
    match waiting {
        Waiting::Listing => Pending::Listing,
        Waiting::Content(path) => Pending::Content(path@),
        Waiting::Nothing => Pending::Nothing,
    }
}

impl View for AlbumBuilder {
    type V = BuilderView;

    closed spec fn view(&self) -> BuilderView {
        BuilderView { frames: frame_views(self.frames@), pending: pending_view(self.waiting) }
    }
}

/// A directory that has just been met: nothing is known of it but its path.
pub open spec fn fresh(path: Seq<char>) -> FrameView {
    FrameView { path, slots: Seq::empty(), next: 0, albums: Seq::empty(), medias: Seq::empty() }
}

/// The builder at the start: the root is open and its listing is asked for.
pub open spec fn begun(root: Seq<char>) -> BuilderView {
    BuilderView { frames: seq![fresh(root)], pending: Pending::Listing }
}

/// The builder when the build is over.
pub open spec fn idle() -> BuilderView {
    BuilderView { frames: Seq::empty(), pending: Pending::Nothing }
}

/// The first place at or after `from` that is followed up, or the length
/// of the listing where there is none.
pub open spec fn first_wanted(slots: Seq<Option<EntryView>>, from: nat) -> nat
    decreases slots.len() - from,
{
    if from >= slots.len() {
        slots.len()
    } else if is_wanted(slots[from as int]) {
        from
    } else {
        first_wanted(slots, from + 1)
    }
}

/// The album of a directory whose entries have all been handled. There is
/// none where the path has no final component to name it.
pub open spec fn finished(frame: FrameView) -> Option<AlbumView> {
    match base_name(frame.path) {
        Some(name) => Some(AlbumView { name, albums: frame.albums, medias: frame.medias }),
        None => None,
    }
}

/// The place after the one that a frame is at.
pub open spec fn bumped(frame: FrameView) -> nat {
    if frame.next < frame.slots.len() {
        frame.next + 1
    } else {
        frame.next
    }
}

/// A directory after one of its subdirectories has been handled: the
/// album of the subdirectory, if it gave one, is added.
pub open spec fn received(frame: FrameView, album: Option<AlbumView>) -> FrameView {
    FrameView {
        albums: match album {
            Some(built) => frame.albums.push(built),
            None => frame.albums,
        },
        next: bumped(frame),
        ..frame
    }
}

/// A directory after one of its files has been handled: the file is
/// added if it is an image.
pub open spec fn examined(frame: FrameView, media: Option<MediaView>) -> FrameView {
    FrameView {
        medias: match media {
            Some(found) => frame.medias.push(found),
            None => frame.medias,
        },
        next: bumped(frame),
        ..frame
    }
}

/// What the builder does next, given the directories that are open.
///
/// In the directory on top it passes over the entries that could not be
/// read and the hidden ones. For the first other entry it asks: for a
/// listing, if the entry is a directory, which is then opened on top; for
/// the content, if it is a file. Where no entry is left the directory is
/// finished: its album goes to the directory below, which is looked at in
/// turn, or ends the build if it was the root.
pub open spec fn advanced(frames: Seq<FrameView>) -> (BuilderView, RequestView)
    decreases frames.len(),
{
    if frames.len() == 0 {
        (idle(), RequestView::Done(Err(Error::Internal)))
    } else {
        let top = frames.last();
        let below = frames.drop_last();
        let at = first_wanted(top.slots, top.next);
        if at < top.slots.len() {
            let entry = top.slots[at as int]->0;
            let child = joined(top.path, entry.name);
            let held = below.push(FrameView { next: at, ..top });
            if entry.is_dir {
                (
                    BuilderView { frames: held.push(fresh(child)), pending: Pending::Listing },
                    RequestView::List(child),
                )
            } else {
                (
                    BuilderView { frames: held, pending: Pending::Content(child) },
                    RequestView::Read(child),
                )
            }
        } else {
            let album = finished(top);
            if below.len() == 0 {
                (
                    idle(),
                    RequestView::Done(
                        match album {
                            Some(built) => Ok(built),
                            None => Err(Error::Internal),
                        },
                    ),
                )
            } else {
                advanced(below.drop_last().push(received(below.last(), album)))
            }
        }
    }
}

/// What the builder makes of a reply: its next state and its next request.
///
/// A listing fills the directory on top. A directory that cannot be listed
/// is left out of its parent, unless it is the root: then the build fails
/// with the reason. The content of a file is decoded, and the file is kept
/// if it is an image. A reply that does not answer the outstanding request
/// ends the build with an internal error.
pub open spec fn step_of(state: BuilderView, reply: ReplyView) -> (BuilderView, RequestView) {
    if state.frames.len() == 0 {
        (idle(), RequestView::Done(Err(Error::Internal)))
    } else {
        let top = state.frames.last();
        let below = state.frames.drop_last();
        match (state.pending, reply) {
            (Pending::Listing, ReplyView::Listing(Ok(slots))) => advanced(
                below.push(FrameView { slots, next: 0, ..top }),
            ),
            (Pending::Listing, ReplyView::Listing(Err(failure))) => if below.len() == 0 {
                (idle(), RequestView::Done(Err(open_error(failure))))
            } else {
                advanced(below.drop_last().push(received(below.last(), None)))
            },
            (Pending::Content(path), ReplyView::Content(content)) => advanced(
                below.push(
                    examined(
                        top,
                        match content {
                            Some(bytes) => described(path, bytes),
                            None => None,
                        },
                    ),
                ),
            ),
            _ => (idle(), RequestView::Done(Err(Error::Internal))),
        }
    }
}

/// Finds the first place at or after `from` that is followed up.
fn skip(slots: &Vec<Option<Entry>>, from: usize) -> (at: usize)
    ensures
        at == first_wanted(slots_view(slots@), from as nat),
        from <= at <= slots.len() || (from > slots.len() && at == slots.len()),
        at < slots.len() ==> is_wanted(slot_view(slots[at as int])),
{
    let mut at = from;
    while at < slots.len()
        invariant
            from <= at,
            first_wanted(slots_view(slots@), at as nat) == first_wanted(
                slots_view(slots@),
                from as nat,
            ),
        decreases slots.len() - at,
    {
        let wanted = match &slots[at] {
            Some(entry) => visible(entry.name.as_str()),
            None => false,
        };
        if wanted {
            return at;
        }
        at += 1;
    }
    slots.len()
}

/// Makes the album of a directory whose entries have all been handled.
fn finish(frame: Frame) -> (album: Option<Album>)
    ensures
        match album {
            Some(built) => finished(frame@) == Some(built@),
            None => finished(frame@) is None,
        },
{
    match file_name(frame.path.as_str()) {
        Some(name) => {
            let built = Album { name, albums: frame.albums, medias: frame.medias };
            assert(built@.albums == album_views(frame.albums@));
            Some(built)
        },
        None => None,
    }
}

/// Moves a frame to the place after the one it is at.
fn bump(frame: &mut Frame)
    ensures
        final(frame)@ == (FrameView { next: bumped(old(frame)@), ..old(frame)@ }),
        final(frame).albums == old(frame).albums,
        final(frame).medias == old(frame).medias,
{
    if frame.next < frame.slots.len() {
        frame.next = frame.next + 1;
    }
}

/// Adds the album of a subdirectory to its parent.
fn receive(frame: Frame, album: Option<Album>) -> (after: Frame)
    ensures
        after@ == received(
            frame@,
            match album {
                Some(built) => Some(built@),
                None => None,
            },
        ),
{
    let mut frame = frame;
    let ghost before = frame@;
    bump(&mut frame);
    match album {
        Some(built) => {
            frame.albums.push(built);
            assert(frame@.albums == before.albums.push(built@));
        },
        None => {},
    }
    frame
}

/// Adds a file to its directory if it is an image.
fn examine(frame: Frame, media: Option<Media>) -> (after: Frame)
    ensures
        after@ == examined(
            frame@,
            match media {
                Some(found) => Some(found@),
                None => None,
            },
        ),
{
    let mut frame = frame;
    let ghost before = frame@;
    bump(&mut frame);
    match media {
        Some(found) => {
            frame.medias.push(found);
            assert(frame@.medias == before.medias.push(found@));
        },
        None => {},
    }
    frame
}

/// The builder when the build is over.
fn at_rest() -> (builder: AlbumBuilder)
    ensures
        builder@ == idle(),
{
    let builder = AlbumBuilder { frames: Vec::new(), waiting: Waiting::Nothing };
    assert(builder@.frames == Seq::<FrameView>::empty());
    builder
}

/// Goes on with the directories that are open until something has to be
/// asked for.
#[verifier::loop_isolation(false)]
fn advance(frames: Vec<Frame>) -> (settled: (AlbumBuilder, Request))
    ensures
        settled.0@ == advanced(frame_views(frames@)).0,
        settled.1@ == advanced(frame_views(frames@)).1,
{
    let mut frames = frames;
    let ghost start = frame_views(frames@);
    loop
        invariant
            advanced(frame_views(frames@)) == advanced(start),
        decreases frames.len(),
    {
        let ghost open = frame_views(frames@);
        let mut top = match frames.pop() {
            Some(top) => top,
            None => {
                return (at_rest(), Request::Done(Err(Error::Internal)));
            },
        };
        assert(open.last() == top@);
        assert(open.drop_last() == frame_views(frames@));
        let at = skip(&top.slots, top.next);
        if at < top.slots.len() {
            let (child, is_dir) = match &top.slots[at] {
                Some(entry) => (join(top.path.as_str(), entry.name.as_str()), entry.is_dir),
                // Never taken: the place that `skip` found holds an entry.
                None => {
                    return (at_rest(), Request::Done(Err(Error::Internal)));
                },
            };
            let ghost held = frame_views(frames@).push(FrameView { next: at as nat, ..top@ });
            top.next = at;
            frames.push(top);
            assert(frame_views(frames@) == held);
            if is_dir {
                let frame = Frame {
                    path: child.clone(),
                    slots: Vec::new(),
                    next: 0,
                    albums: Vec::new(),
                    medias: Vec::new(),
                };
                assert(frame@ == fresh(child@));
                frames.push(frame);
                assert(frame_views(frames@) == held.push(fresh(child@)));
                return (AlbumBuilder { frames, waiting: Waiting::Listing }, Request::List(child));
            } else {
                return (
                    AlbumBuilder { frames, waiting: Waiting::Content(child.clone()) },
                    Request::Read(child),
                );
            }
        }
        let album = finish(top);
        let ghost below = frame_views(frames@);
        let parent = match frames.pop() {
            Some(parent) => parent,
            None => {
                return (
                    at_rest(),
                    Request::Done(
                        match album {
                            Some(built) => Ok(built),
                            None => Err(Error::Internal),
                        },
                    ),
                );
            },
        };
        let ghost rest = frame_views(frames@);
        assert(below.last() == parent@);
        assert(below.drop_last() == rest);
        let parent = receive(parent, album);
        frames.push(parent);
        assert(frame_views(frames@) == rest.push(parent@));
    }
}

impl AlbumBuilder {
    /// Starts the build of the album of the directory at `root`. The first
    /// request is for its listing.
    pub fn start(root: &str) -> (started: (AlbumBuilder, Request))
        ensures
            started.0@ == begun(root@),
            started.1@ == RequestView::List(root@),
    {
        let frame = Frame {
            path: root.to_owned(),
            slots: Vec::new(),
            next: 0,
            albums: Vec::new(),
            medias: Vec::new(),
        };
        assert(frame@ == fresh(root@));
        let mut frames: Vec<Frame> = Vec::new();
        frames.push(frame);
        let builder = AlbumBuilder { frames, waiting: Waiting::Listing };
        assert(builder@.frames == seq![fresh(root@)]);
        (builder, Request::List(root.to_owned()))
    }

    /// Whether the build is over.
    pub fn is_done(&self) -> (done: bool)
        ensures
            done == (self@.frames.len() == 0),
    {
        self.frames.len() == 0
    }

    /// Takes the answer to the outstanding request and says what is asked
    /// for next.
    pub fn step(&mut self, reply: Reply) -> (request: Request)
        ensures
            final(self)@ == step_of(old(self)@, reply@).0,
            request@ == step_of(old(self)@, reply@).1,
    {
        let mut state = at_rest();
        core::mem::swap(self, &mut state);
        let (next, request) = state.answer(reply);
        *self = next;
        request
    }

    /// The step, on a builder that is given up for the next one.
    fn answer(self, reply: Reply) -> (next: (AlbumBuilder, Request))
        ensures
            next.0@ == step_of(self@, reply@).0,
            next.1@ == step_of(self@, reply@).1,
    {
        let mut frames = self.frames;
        let ghost open = frame_views(frames@);
        let top = match frames.pop() {
            Some(top) => top,
            None => {
                return (at_rest(), Request::Done(Err(Error::Internal)));
            },
        };
        assert(open.last() == top@);
        assert(open.drop_last() == frame_views(frames@));
        let ghost below = frame_views(frames@);
        match (self.waiting, reply) {
            (Waiting::Listing, Reply::Listing(Ok(slots))) => {
                let mut top = top;
                top.slots = slots;
                top.next = 0;
                frames.push(top);
                assert(frame_views(frames@) == below.push(top@));
                advance(frames)
            },
            (Waiting::Listing, Reply::Listing(Err(failure))) => {
                let parent = match frames.pop() {
                    Some(parent) => parent,
                    None => {
                        return (at_rest(), Request::Done(Err(failure.into_error())));
                    },
                };
                let ghost rest = frame_views(frames@);
                assert(below.last() == parent@);
                assert(below.drop_last() == rest);
                let parent = receive(parent, None);
                frames.push(parent);
                assert(frame_views(frames@) == rest.push(parent@));
                advance(frames)
            },
            (Waiting::Content(path), Reply::Content(content)) => {
                let media = match content {
                    Some(bytes) => path_to_media(path.as_str(), bytes.as_slice()),
                    None => None,
                };
                let top = examine(top, media);
                frames.push(top);
                assert(frame_views(frames@) == below.push(top@));
                advance(frames)
            },
            _ => (at_rest(), Request::Done(Err(Error::Internal))),
        }
    }
}

} // verus!

//! A message body that is held in full: its bytes in one buffer, and the
//! trailers, if any, merged into one header set.
//!
//! A body is built frame by frame with `push_frame`, and read back with
//! `next_frame`: at most one frame of data, then at most one of trailers.

use bytes::BytesMut;
use hyper::header::HeaderValue;
use hyper::HeaderMap;
use vstd::prelude::*;

verus! {

/// `bytes::BytesMut`, a growable byte buffer. Its bytes are `buffer_bytes`.
#[verifier::external_type_specification]
#[verifier::external_body]
pub struct ExBytesMut(BytesMut);

/// `http::HeaderMap`, a set of headers in which a name may have several
/// values. With header values in it, its entries are `header_entries`.
#[verifier::external_type_specification]
#[verifier::external_body]
#[verifier::reject_recursive_types(T)]
pub struct ExHeaderMap<T>(HeaderMap<T>);

/// `http::HeaderValue`, the value of one header. It is only carried.
#[verifier::external_type_specification]
#[verifier::external_body]
pub struct ExHeaderValue(HeaderValue);

/// The bytes that a buffer holds.
pub uninterp spec fn buffer_bytes(buffer: BytesMut) -> Seq<u8>;

/// What a header set holds: for each name, as bytes, its values in order.
pub uninterp spec fn header_entries(headers: HeaderMap<HeaderValue>) -> Map<Seq<u8>, Seq<Seq<u8>>>;

/// The most names that two header sets may hold together when they are
/// merged.
///
/// A header set panics when its table would have to grow past 32,768 slots.
/// It doubles a table in two cases only: when the names fill three quarters
/// of the slots, and, while it defends itself against colliding names, when
/// they are a fifth of the slots or more. A table of 32,768 slots is
/// therefore doubled with 24,576 names or, in that defence, with 6,554. A
/// merge never holds more names than the two sets have together, so with
/// this many it asks for neither.
pub const MAX_MERGED_NAMES: usize = 6553;

/// `BytesMut::new`: an empty buffer.
#[verifier::external_body]
fn buffer_new() -> (buffer: BytesMut)
    ensures
        buffer_bytes(buffer) == Seq::<u8>::empty(),
{
    BytesMut::new()
}

/// `BytesMut::extend_from_slice`: appends `chunk` to the buffer.
#[verifier::external_body]
fn buffer_extend(buffer: &mut BytesMut, chunk: &[u8])
    ensures
        buffer_bytes(*final(buffer)) == buffer_bytes(*old(buffer)) + chunk@,
{
    buffer.extend_from_slice(chunk)
}

/// `BytesMut::len`: the number of bytes in the buffer.
#[verifier::external_body]
fn buffer_len(buffer: &BytesMut) -> (len: usize)
    ensures
        len == buffer_bytes(*buffer).len(),
{
    buffer.len()
}

/// `BytesMut::clear`: empties the buffer.
#[verifier::external_body]
fn buffer_clear(buffer: &mut BytesMut)
    ensures
        buffer_bytes(*final(buffer)) == Seq::<u8>::empty(),
{
    buffer.clear()
}

/// `BytesMut::clone`: a buffer of its own with the same bytes.
#[verifier::external_body]
fn buffer_clone(buffer: &BytesMut) -> (copy: BytesMut)
    ensures
        buffer_bytes(copy) == buffer_bytes(*buffer),
{
    buffer.clone()
}

/// `BytesMut::as_ref`: the buffer's bytes as a slice.
#[verifier::external_body]
fn buffer_slice(buffer: &BytesMut) -> (bytes: &[u8])
    ensures
        bytes@ == buffer_bytes(*buffer),
{
    buffer.as_ref()
}

/// `HeaderMap::keys_len`: the number of names in the header set.
#[verifier::external_body]
fn headers_names(headers: &HeaderMap<HeaderValue>) -> (names: usize)
    ensures
        names == header_entries(*headers).dom().len(),
{
    headers.keys_len()
}

/// `HeaderMap::extend` with another header set: each name of `more` gets the
/// values that `more` has for it, in place of any it had; the other names
/// keep theirs. It panics where the set's table would have to grow past its
/// limit, which the bound on the names of the two sets rules out (see
/// `MAX_MERGED_NAMES`).
#[verifier::external_body]
fn headers_extend(headers: &mut HeaderMap<HeaderValue>, more: HeaderMap<HeaderValue>)
    requires
        header_entries(*old(headers)).dom().len() + header_entries(more).dom().len()
            <= MAX_MERGED_NAMES,
    ensures
        header_entries(*final(headers)) == header_entries(*old(headers)).union_prefer_right(
            header_entries(more),
        ),
{
    headers.extend(more)
}

/// `HeaderMap::clone`: a header set of its own with the same entries.
#[verifier::external_body]
pub(crate) fn headers_clone(headers: &HeaderMap<HeaderValue>) -> (copy: HeaderMap<HeaderValue>)
    ensures
        header_entries(copy) == header_entries(*headers),
{
    headers.clone()
}

/// One frame of a body: a piece of its data, or trailers.
#[derive(Debug)]
pub enum BodyFrame {
    Data(BytesMut),
    Trailers(HeaderMap<HeaderValue>),
}

/// What a frame holds.
pub enum FrameView {
    Data(Seq<u8>),
    Trailers(Map<Seq<u8>, Seq<Seq<u8>>>),
}

impl View for BodyFrame {
    type V = FrameView;

    open spec fn view(&self) -> FrameView {
        match self {
            BodyFrame::Data(data) => FrameView::Data(buffer_bytes(*data)),
            BodyFrame::Trailers(trailers) => FrameView::Trailers(header_entries(*trailers)),
        }
    }
}

/// What a body holds: its bytes, and its trailers if it has any.
pub struct BodyView {
    pub bytes: Seq<u8>,
    pub trailers: Option<Map<Seq<u8>, Seq<Seq<u8>>>>,
}

impl BodyView {
    /// The body without bytes and without trailers.
    pub open spec fn empty() -> Self {
        BodyView { bytes: Seq::empty(), trailers: None }
    }

    /// The body after `frame`: data is appended, trailers are merged into
    /// those that the body has.
    pub open spec fn pushed(self, frame: FrameView) -> Self {
        match frame {
            FrameView::Data(data) => BodyView { bytes: self.bytes + data, trailers: self.trailers },
            FrameView::Trailers(more) => BodyView {
                bytes: self.bytes,
                trailers: Some(
                    match self.trailers {
                        Some(current) => current.union_prefer_right(more),
                        None => more,
                    },
                ),
            },
        }
    }

    /// The body can take `frame`: trailers that are merged into others stay,
    /// together with them, within `MAX_MERGED_NAMES`.
    pub open spec fn accepts(self, frame: FrameView) -> bool {
        match (self.trailers, frame) {
            (Some(current), FrameView::Trailers(more)) => current.dom().len() + more.dom().len()
                <= MAX_MERGED_NAMES,
            _ => true,
        }
    }

    /// Reading one frame: what is left of the body, and the frame. The data
    /// comes first, whole, if there is any; then the trailers; then nothing.
    pub open spec fn next(self) -> (Self, Option<FrameView>) {
        if self.bytes.len() > 0 {
            (
                BodyView { bytes: Seq::empty(), trailers: self.trailers },
                Some(FrameView::Data(self.bytes)),
            )
        } else if let Some(trailers) = self.trailers {
            (BodyView { bytes: self.bytes, trailers: None }, Some(FrameView::Trailers(trailers)))
        } else {
            (self, None)
        }
    }

    /// The body after `frame`, if there is one.
    pub open spec fn pushed_if_some(self, frame: Option<FrameView>) -> Self {
        match frame {
            Some(frame) => self.pushed(frame),
            None => self,
        }
    }

    /// A body gives at most two frames, data before trailers, and is then
    /// exhausted; collecting what it gave builds the same body again.
    pub proof fn lemma_read_then_collect(self)
        ensures
            ({
                let (after_first, first) = self.next();
                let (after_second, second) = after_first.next();
                let (after_third, third) = after_second.next();
                &&& third is None
                &&& after_second == Self::empty()
                &&& after_third == Self::empty()
                &&& first is Some && second is Some ==> first->0 is Data && second->0 is Trailers
                &&& second is Some ==> first is Some
                &&& Self::empty().pushed_if_some(first).pushed_if_some(second) == self
            }),
    {
        let (after_first, first) = self.next();
        let (after_second, second) = after_first.next();
        assert(after_second.bytes =~= Seq::<u8>::empty());
        let collected = Self::empty().pushed_if_some(first).pushed_if_some(second);
        assert(collected.bytes =~= self.bytes);
    }

    /// Data that comes in two frames makes the body that it makes in one.
    pub proof fn lemma_data_frames_concatenate(self, first: Seq<u8>, second: Seq<u8>)
        ensures
            self.pushed(FrameView::Data(first)).pushed(FrameView::Data(second)) == self.pushed(
                FrameView::Data(first + second),
            ),
    {
        assert((self.bytes + first) + second =~= self.bytes + (first + second));
    }

    /// The body that `frames` make, taken in turn by an empty body.
    pub open spec fn collected(frames: Seq<FrameView>) -> Self
        decreases frames.len(),
    {
        if frames.len() == 0 {
            Self::empty()
        } else {
            Self::collected(frames.drop_last()).pushed(frames.last())
        }
    }

    /// The data of `frames`, one piece after the other.
    pub open spec fn data_of(frames: Seq<FrameView>) -> Seq<u8>
        decreases frames.len(),
    {
        if frames.len() == 0 {
            Seq::empty()
        } else {
            match frames.last() {
                FrameView::Data(data) => Self::data_of(frames.drop_last()) + data,
                FrameView::Trailers(_) => Self::data_of(frames.drop_last()),
            }
        }
    }

    /// The trailers of `frames`, each set merged into those before it; none
    /// where no frame holds trailers.
    pub open spec fn trailers_of(frames: Seq<FrameView>) -> Option<Map<Seq<u8>, Seq<Seq<u8>>>>
        decreases frames.len(),
    {
        if frames.len() == 0 {
            None
        } else {
            match frames.last() {
                FrameView::Data(_) => Self::trailers_of(frames.drop_last()),
                FrameView::Trailers(more) => Some(
                    match Self::trailers_of(frames.drop_last()) {
                        Some(current) => current.union_prefer_right(more),
                        None => more,
                    },
                ),
            }
        }
    }

    /// The bytes of a collected body are the data of its frames, in order,
    /// whatever trailers came between or after; its trailers are the
    /// trailers of its frames, merged in order, whatever data came between.
    pub proof fn lemma_collected(frames: Seq<FrameView>)
        ensures
            Self::collected(frames).bytes == Self::data_of(frames),
            Self::collected(frames).trailers == Self::trailers_of(frames),
        decreases frames.len(),
    {
        if frames.len() > 0 {
            Self::lemma_collected(frames.drop_last());
        }
    }

    /// Trailers change nothing of a body's bytes.
    pub proof fn lemma_trailers_leave_bytes(self, trailers: Map<Seq<u8>, Seq<Seq<u8>>>)
        ensures
            self.pushed(FrameView::Trailers(trailers)).bytes == self.bytes,
    {
    }
}

/// A body held in full.
#[derive(Debug)]
pub struct BufferedBody {
    bufs: BytesMut,
    trailers: Option<HeaderMap<HeaderValue>>,
}

impl View for BufferedBody {
    type V = BodyView;

    closed spec fn view(&self) -> BodyView {
        BodyView {
            bytes: buffer_bytes(self.bufs),
            trailers: match self.trailers {
                Some(trailers) => Some(header_entries(trailers)),
                None => None,
            },
        }
    }
}

impl Default for BufferedBody {
    /// The empty body.
    fn default() -> (body: Self)
        ensures
            body@ == BodyView::empty(),
    {
        BufferedBody { bufs: buffer_new(), trailers: None }
    }
}

impl Clone for BufferedBody {
    /// A body of its own with the same bytes and the same trailers.
    fn clone(&self) -> (copy: Self)
        ensures
            copy@ == self@,
    {
        let trailers = match &self.trailers {
            Some(trailers) => Some(headers_clone(trailers)),
            None => None,
        };
        BufferedBody { bufs: buffer_clone(&self.bufs), trailers }
    }
}

impl BufferedBody {
    /// The trailers, if the body has any.
    pub fn trailers(&self) -> (trailers: Option<&HeaderMap<HeaderValue>>)
        ensures
            match trailers {
                Some(trailers) => self@.trailers == Some(header_entries(*trailers)),
                None => self@.trailers is None,
            },
    {
        self.trailers.as_ref()
    }

    /// A body of the bytes `b`, without trailers.
    pub fn from_bytes(b: &[u8]) -> (body: BufferedBody)
        ensures
            body@ == (BodyView { bytes: b@, trailers: None }),
    {
        let mut bufs = buffer_new();
        buffer_extend(&mut bufs, b);
        proof {
            assert(Seq::<u8>::empty() + b@ =~= b@);
        }
        BufferedBody { bufs, trailers: None }
    }

    /// The number of bytes in the body.
    pub fn len(&self) -> (len: usize)
        ensures
            len == self@.bytes.len(),
    {
        buffer_len(&self.bufs)
    }

    /// What of the body goes into a hash of it: its bytes, and nothing of its
    /// trailers.
    pub fn hashed_bytes(&self) -> (bytes: &[u8])
        ensures
            bytes@ == self@.bytes,
    {
        buffer_slice(&self.bufs)
    }

    /// Appends `chunk` to the body's bytes.
    pub fn push_data(&mut self, chunk: &[u8])
        ensures
            final(self)@ == old(self)@.pushed(FrameView::Data(chunk@)),
    {
        buffer_extend(&mut self.bufs, chunk);
    }

    /// Whether the body can take `frame`.
    pub fn accepts(&self, frame: &BodyFrame) -> (fits: bool)
        ensures
            fits == self@.accepts(frame@),
    {
        match (&self.trailers, frame) {
            (Some(current), BodyFrame::Trailers(more)) => {
                let held = headers_names(current);
                let coming = headers_names(more);
                held <= MAX_MERGED_NAMES && coming <= MAX_MERGED_NAMES - held
            },
            _ => true,
        }
    }

    /// Takes `frame` into the body.
    pub fn push_frame(&mut self, frame: BodyFrame)
        requires
            old(self)@.accepts(frame@),
        ensures
            final(self)@ == old(self)@.pushed(frame@),
    {
        match frame {
            BodyFrame::Data(data) => {
                buffer_extend(&mut self.bufs, buffer_slice(&data));
            },
            BodyFrame::Trailers(more) => {
                match self.trailers.take() {
                    Some(mut current) => {
                        headers_extend(&mut current, more);
                        self.trailers = Some(current);
                    },
                    None => {
                        self.trailers = Some(more);
                    },
                }
            },
        }
    }

    /// Takes `frame` into the body if the body can take it, and hands it back
    /// if not.
    pub fn try_push_frame(&mut self, frame: BodyFrame) -> (r: Result<(), BodyFrame>)
        ensures
            match r {
                Ok(_) => old(self)@.accepts(frame@) && final(self)@ == old(self)@.pushed(frame@),
                Err(refused) => !old(self)@.accepts(frame@) && refused == frame && final(self)@
                    == old(self)@,
            },
    {
        if self.accepts(&frame) {
            self.push_frame(frame);
            Ok(())
        } else {
            Err(frame)
        }
    }

    /// Reads one frame off the body: all of its data if it has any, else its
    /// trailers if it has any, else nothing.
    pub fn next_frame(&mut self) -> (frame: Option<BodyFrame>)
        ensures
            final(self)@ == old(self)@.next().0,
            match frame {
                Some(frame) => old(self)@.next().1 == Some(frame@),
                None => old(self)@.next().1 is None,
            },
    {
        if buffer_len(&self.bufs) > 0 {
            let data = buffer_clone(&self.bufs);
            buffer_clear(&mut self.bufs);
            Some(BodyFrame::Data(data))
        } else {
            match self.trailers.take() {
                Some(trailers) => Some(BodyFrame::Trailers(trailers)),
                None => None,
            }
        }
    }
}

} // verus!

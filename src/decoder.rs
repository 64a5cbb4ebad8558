use vstd::prelude::*;
use crate::frame::{DecodeError, Frame, FrameOption, MalformedFrame, Size};
use crate::pixel::{premultiplied_pixels, PremultiplyTable};
use crate::resample::resample_rgba;

verus! {

/// A lazy, finite stream of raw frames, in straight (not premultiplied) alpha.
pub trait FrameSource {
    /// The next frame, an error for a malformed one, or `None` once the stream is
    /// exhausted.
    fn next_frame(&mut self) -> Option<Result<Frame, MalformedFrame>>;
}

/// `b` begins with all of `a`: frames are only ever appended.
pub open spec fn cache_extends(a: Seq<Frame>, b: Seq<Frame>) -> bool {
    a.len() <= b.len() && forall|i: int| 0 <= i < a.len() ==> #[trigger] b[i] == a[i]
}

/// The frame that a raw frame becomes in the cache: its pixels (resampled or not)
/// premultiplied, with the raw frame's placement and delay.
pub open spec fn processed(raw: Frame, width: u32, height: u32, pixels: Seq<u8>, f: Frame) -> bool {
    &&& f.left == raw.left
    &&& f.top == raw.top
    &&& f.width == width
    &&& f.height == height
    &&& f.delay_numer == raw.delay_numer
    &&& f.delay_denom == raw.delay_denom
    &&& f.pixels@ == premultiplied_pixels(pixels)
}

/// Where a tick starts: the first frame on reset, else the playback position.
pub open spec fn start_index(index: int, option: FrameOption) -> int {
    if option == FrameOption::Reset {
        0
    } else {
        index
    }
}

/// The frame served from `start` once the cache holds `len` frames: `start` itself,
/// or the first frame where playback ran past the end.
pub open spec fn served_index(start: int, len: int) -> int {
    if start < len {
        start
    } else {
        0
    }
}

/// The playback position after serving `served`: one further on advance, wrapping
/// to the start once the whole animation is known; else unchanged.
pub open spec fn next_index(option: FrameOption, served: int, complete: bool, len: int) -> int {
    if option == FrameOption::Advance {
        if complete {
            (served + 1) % len
        } else {
            served + 1
        }
    } else {
        served
    }
}

/// Decodes frames from a source lazily, at most once each, keeps them premultiplied
/// (and resampled to a target size, where one is set), and serves them for playback.
pub struct AnimationDecoder<S: FrameSource> {
    source: S,
    size: Size,
    target_size: Option<Size>,
    current_frame: usize,
    decoding_complete: bool,
    failure: Option<DecodeError>,
    decoded_frames: Vec<Frame>,
    table: PremultiplyTable,
}

impl<S: FrameSource> AnimationDecoder<S> {
    /// The frames decoded so far, in source order.
    pub closed spec fn frames(&self) -> Seq<Frame> {
        self.decoded_frames@
    }

    /// The playback position.
    pub closed spec fn index(&self) -> nat {
        self.current_frame as nat
    }

    /// The source is exhausted: `frames()` is the whole animation.
    pub closed spec fn complete(&self) -> bool {
        self.decoding_complete
    }

    /// The error at which decoding stopped, for good.
    pub closed spec fn failure(&self) -> Option<DecodeError> {
        self.failure
    }

    /// The canvas size that the source declared.
    pub closed spec fn canvas(&self) -> Size {
        self.size
    }

    /// The size that frames decoded from now on are resampled to.
    pub closed spec fn target(&self) -> Option<Size> {
        self.target_size
    }

    /// The frame source, with its position.
    pub closed spec fn source(&self) -> S {
        self.source
    }

    pub closed spec fn wf(&self) -> bool {
        &&& self.table.wf()
        &&& self.size.is_positive()
        &&& self.current_frame <= self.decoded_frames@.len()
        &&& !(self.decoding_complete && self.failure is Some)
        &&& (self.failure matches Some(e) ==> (e == DecodeError::Decode || e
            == DecodeError::Resize))
    }

    /// The size a raw frame is resampled to: the target, where one is set and differs
    /// from the canvas.
    pub open spec fn resize_to(&self) -> Option<Size> {
        match self.target() {
            Some(t) => if t != self.canvas() {
                Some(t)
            } else {
                None
            },
            None => None,
        }
    }

    /// `new` differs from `old` in the frames appended and in nothing else.
    pub open spec fn only_appended(old: &Self, new: &Self) -> bool {
        &&& cache_extends(old.frames(), new.frames())
        &&& new.canvas() == old.canvas()
        &&& new.target() == old.target()
        &&& new.index() == old.index()
    }

    /// What `accept_frame(next)` does to `old`, giving `new` and `r`.
    pub open spec fn accept_outcome(
        old: &Self,
        next: Option<Result<Frame, MalformedFrame>>,
        new: &Self,
        r: Result<bool, DecodeError>,
    ) -> bool {
        &&& Self::only_appended(old, new)
        &&& new.source() == old.source()
        &&& match next {
            None => r == Ok::<bool, DecodeError>(false) && new.complete() && new.frames()
                == old.frames() && new.failure() == old.failure(),
            Some(Err(_)) => r == Err::<bool, DecodeError>(DecodeError::Decode) && new.failure()
                == Some(DecodeError::Decode) && new.frames() == old.frames() && new.complete()
                == old.complete(),
            Some(Ok(raw)) => if !raw.has_full_buffer() {
                r == Err::<bool, DecodeError>(DecodeError::Decode) && new.failure() == Some(
                    DecodeError::Decode,
                ) && new.frames() == old.frames() && new.complete() == old.complete()
            } else {
                match old.resize_to() {
                    None => r == Ok::<bool, DecodeError>(true) && new.frames().len()
                        == old.frames().len() + 1 && processed(
                        raw,
                        raw.width,
                        raw.height,
                        raw.pixels@,
                        new.frames().last(),
                    ) && new.failure() == old.failure() && new.complete() == old.complete(),
                    Some(t) => new.complete() == old.complete() && match r {
                        Ok(b) => b && new.frames().len() == old.frames().len() + 1
                            && new.failure() == old.failure() && exists|px: Seq<u8>|
                            px.len() == t.rgba_len() && #[trigger] processed(
                                raw,
                                t.width,
                                t.height,
                                px,
                                new.frames().last(),
                            ),
                        Err(e) => e == DecodeError::Resize && new.failure() == Some(
                            DecodeError::Resize,
                        ) && new.frames() == old.frames(),
                    },
                }
            },
        }
    }

    /// What `ensure(index)` does to `old`, giving `new` and `r`.
    pub open spec fn ensure_outcome(old: &Self, index: int, new: &Self, r: Result<
        bool,
        DecodeError,
    >) -> bool {
        &&& Self::only_appended(old, new)
        &&& (index < old.frames().len() ==> *new == *old && r == Ok::<bool, DecodeError>(true))
        &&& (index >= old.frames().len() ==> {
            &&& (old.failure() matches Some(e) ==> *new == *old && r == Err::<bool, DecodeError>(
                e,
            ))
            &&& (old.complete() ==> *new == *old && r == Ok::<bool, DecodeError>(false))
            &&& match r {
                Ok(true) => new.frames().len() == index + 1 && new.failure() is None
                    && !new.complete(),
                Ok(false) => new.complete() && new.frames().len() <= index && new.failure() is None,
                Err(e) => new.failure() == Some(e) && new.frames().len() <= index
                    && !new.complete(),
            }
        })
    }

    /// What `tick(out, option)` does to `old` and the surface `out`, giving `new`, the
    /// surface `new_out` and `r`.
    pub open spec fn tick_outcome(
        old: &Self,
        out: Seq<u8>,
        option: FrameOption,
        new: &Self,
        new_out: Seq<u8>,
        r: Result<u32, DecodeError>,
    ) -> bool {
        let start = start_index(old.index() as int, option);
        let len = new.frames().len() as int;
        let served = served_index(start, len);
        let frame = new.frames()[served];
        let available = served < len && (start < len || new.complete());
        &&& cache_extends(old.frames(), new.frames())
        &&& new.canvas() == old.canvas()
        &&& new.target() == old.target()
        &&& new_out.len() == out.len()
        &&& new.frames().len() <= old.frames().len() + 1
        &&& (old.complete() && old.frames().len() > 0 ==> old.index() < old.frames().len()) ==> (
        new.complete() && len > 0 ==> new.index() < len)
        &&& (start < old.frames().len() || old.complete() || old.failure() is Some
            ==> new.source() == old.source() && new.frames() == old.frames() && new.complete()
            == old.complete() && new.failure() == old.failure())
        &&& (r is Ok <==> available && frame.pixels@.len() <= out.len() && frame.delay_denom != 0)
        &&& match r {
            Ok(d) => {
                &&& new_out == frame.pixels@ + out.skip(frame.pixels@.len() as int)
                &&& d as int == frame.delay_ms()
                &&& new.index() == next_index(option, served, new.complete(), len)
            },
            Err(e) => {
                &&& new.index() == (if start >= len && new.complete() && len > 0 {
                    0
                } else {
                    old.index() as int
                })
                &&& match e {
                    DecodeError::BufferTooSmall { required, available: have } => available
                        && new_out == out && required == frame.pixels@.len() && have == out.len()
                        && have < required,
                    DecodeError::EmptyAnimation => len == 0 && new.complete() && new_out == out,
                    DecodeError::Decode => (new.failure() == Some(e) && !available && new_out
                        == out) || (available && frame.delay_denom == 0 && new_out
                        == frame.pixels@ + out.skip(frame.pixels@.len() as int)),
                    DecodeError::Resize => new.failure() == Some(e) && !available && new_out
                        == out,
                    DecodeError::Format => false,
                }
            },
        }
    }

    /// What `configure(target_size)` does to `old`, giving `new`.
    pub open spec fn configure_outcome(old: &Self, target_size: Option<Size>, new: &Self) -> bool {
        &&& new.target() == target_size
        &&& new.frames() == old.frames()
        &&& new.canvas() == old.canvas()
        &&& new.index() == old.index()
        &&& new.complete() == old.complete()
        &&& new.failure() == old.failure()
        &&& new.source() == old.source()
    }

    /// A decoder over `source`, whose canvas is `size`; nothing is decoded yet.
    pub fn new(source: S, size: Size) -> (r: Result<Self, DecodeError>)
        ensures
            match r {
                Ok(d) => {
                    &&& size.is_positive()
                    &&& d.wf()
                    &&& d.frames().len() == 0
                    &&& d.index() == 0
                    &&& !d.complete()
                    &&& d.failure() is None
                    &&& d.canvas() == size
                    &&& d.target() is None
                    &&& d.source() == source
                },
                Err(e) => !size.is_positive() && e == DecodeError::Format,
            },
    {
        if size.width == 0 || size.height == 0 {
            return Err(DecodeError::Format);
        }
        Ok(
            AnimationDecoder {
                source,
                size,
                target_size: None,
                current_frame: 0,
                decoding_complete: false,
                failure: None,
                decoded_frames: Vec::new(),
                table: PremultiplyTable::new(),
            },
        )
    }

    /// Sets or clears the size that frames decoded from now on are resampled to;
    /// frames already decoded stay as they are.
    pub fn configure(&mut self, target_size: Option<Size>)
        requires
            old(self).wf(),
        ensures
            final(self).wf(),
            Self::configure_outcome(old(self), target_size, final(self)),
    {
        self.target_size = target_size;
    }

    /// The canvas size that the source declared.
    pub fn size(&self) -> (r: Size)
        ensures
            r == self.canvas(),
    {
        self.size
    }

    /// The size that frames are currently resampled to, if any.
    pub fn target_size(&self) -> (r: Option<Size>)
        ensures
            r == self.target(),
    {
        self.target_size
    }

    /// The frame source, for what it can tell about itself.
    pub fn frame_source(&self) -> (r: &S)
        ensures
            *r == self.source(),
    {
        &self.source
    }

    /// The number of frames decoded so far.
    pub fn frame_count(&self) -> (r: usize)
        ensures
            r == self.frames().len(),
    {
        self.decoded_frames.len()
    }

    /// The playback position.
    pub fn current_index(&self) -> (r: usize)
        ensures
            r == self.index(),
    {
        self.current_frame
    }

    /// Whether the source is exhausted.
    pub fn is_complete(&self) -> (r: bool)
        ensures
            r == self.complete(),
    {
        self.decoding_complete
    }

    /// The decoded frame at `i`, if there is one.
    pub fn frame(&self, i: usize) -> (r: Option<&Frame>)
        ensures
            i < self.frames().len() ==> r == Some(&self.frames()[i as int]),
            i >= self.frames().len() ==> r is None,
    {
        if i < self.decoded_frames.len() {
            Some(&self.decoded_frames[i])
        } else {
            None
        }
    }

    /// Premultiplies `frame`'s pixels and appends it to the cache.
    fn push_processed(&mut self, frame: Frame)
        requires
            old(self).wf(),
        ensures
            final(self).wf(),
            final(self).frames() == old(self).frames().push(
                Frame { pixels: final(self).frames().last().pixels, ..frame },
            ),
            final(self).frames().last().pixels@ == premultiplied_pixels(frame.pixels@),
            final(self).canvas() == old(self).canvas(),
            final(self).target() == old(self).target(),
            final(self).index() == old(self).index(),
            final(self).complete() == old(self).complete(),
            final(self).failure() == old(self).failure(),
            final(self).source() == old(self).source(),
    {
        let mut frame = frame;
        self.table.premultiply_pixels(&mut frame.pixels);
        self.decoded_frames.push(frame);
    }

    /// Takes what the source handed out: `None` marks the animation complete, an
    /// error or a frame whose buffer is not `width * height` pixels stops decoding for
    /// good, and a frame is resampled where a target size calls for it, premultiplied
    /// and appended. `Ok(true)`: a frame was appended; `Ok(false)`: the source is
    /// exhausted.
    pub fn accept_frame(&mut self, next: Option<Result<Frame, MalformedFrame>>) -> (r: Result<
        bool,
        DecodeError,
    >)
        requires
            old(self).wf(),
            !old(self).complete(),
            old(self).failure() is None,
        ensures
            final(self).wf(),
            Self::accept_outcome(old(self), next, final(self), r),
    {
        match next {
            None => {
                self.decoding_complete = true;
                Ok(false)
            },
            Some(Err(_)) => {
                self.failure = Some(DecodeError::Decode);
                Err(DecodeError::Decode)
            },
            Some(Ok(raw)) => {
                proof {
                    let w = raw.width as int;
                    let h = raw.height as int;
                    assert(w * h <= 0xffff_ffff * 0xffff_ffff) by (nonlinear_arith)
                        requires
                            0 <= w <= 0xffff_ffff,
                            0 <= h <= 0xffff_ffff,
                    ;
                }
                let required: u128 = raw.width as u128 * raw.height as u128 * 4;
                if raw.pixels.len() as u128 != required {
                    self.failure = Some(DecodeError::Decode);
                    return Err(DecodeError::Decode);
                }
                let resize_to = match self.target_size {
                    Some(t) => if t != self.size {
                        Some(t)
                    } else {
                        None
                    },
                    None => None,
                };
                match resize_to {
                    None => {
                        self.push_processed(raw);
                        Ok(true)
                    },
                    Some(t) => {
                        match resample_rgba(&raw.pixels, raw.width, raw.height, t) {
                            Ok(px) => {
                                let ghost resampled = px@;
                                let frame = Frame {
                                    left: raw.left,
                                    top: raw.top,
                                    width: t.width,
                                    height: t.height,
                                    pixels: px,
                                    delay_numer: raw.delay_numer,
                                    delay_denom: raw.delay_denom,
                                };
                                self.push_processed(frame);
                                proof {
                                    assert(processed(
                                        raw,
                                        t.width,
                                        t.height,
                                        resampled,
                                        self.frames().last(),
                                    ));
                                }
                                Ok(true)
                            },
                            Err(_) => {
                                self.failure = Some(DecodeError::Resize);
                                Err(DecodeError::Resize)
                            },
                        }
                    },
                }
            },
        }
    }

    /// Makes sure that the frame at `index` is decoded, decoding forward from the
    /// source one frame at a time. `Ok(true)`: the frame is in the cache; `Ok(false)`:
    /// the animation ends before it; an error stops decoding for good, and every later
    /// call past the cache returns it again.
    pub fn ensure(&mut self, index: usize) -> (r: Result<bool, DecodeError>)
        requires
            old(self).wf(),
        ensures
            final(self).wf(),
            Self::ensure_outcome(old(self), index as int, final(self), r),
    {
        if index < self.decoded_frames.len() {
            return Ok(true);
        }
        if let Some(e) = self.failure {
            return Err(e);
        }
        if self.decoding_complete {
            return Ok(false);
        }
        let ghost start = *self;
        loop
            invariant
                self.wf(),
                !self.complete(),
                self.failure() is None,
                start == *old(self),
                start.failure() is None,
                !start.complete(),
                start.frames().len() <= index,
                Self::only_appended(&start, self),
                self.frames().len() <= index,
            decreases index - self.frames().len(),
        {
            let next = self.source.next_frame();
            let accepted = self.accept_frame(next);
            match accepted {
                Ok(true) => {
                    if self.decoded_frames.len() > index {
                        return Ok(true);
                    }
                },
                Ok(false) => {
                    return Ok(false);
                },
                Err(e) => {
                    return Err(e);
                },
            }
        }
    }

    /// Serves one frame for playback: applies `option`'s reset, decodes the frame at
    /// the playback position if needed (wrapping to the first frame where the
    /// animation has ended), copies its pixels to the front of `out`, moves the
    /// playback position as `option` says, and returns the frame's delay in whole
    /// milliseconds. On an error the playback position stays, except where playback
    /// wrapped: it is then at the first frame.
    pub fn tick(&mut self, out: &mut [u8], option: FrameOption) -> (r: Result<u32, DecodeError>)
        requires
            old(self).wf(),
        ensures
            final(self).wf(),
            Self::tick_outcome(old(self), old(out)@, option, final(self), final(out)@, r),
    {
        let start: usize = if option == FrameOption::Reset {
            0
        } else {
            self.current_frame
        };
        let served: usize = match self.ensure(start) {
            Ok(true) => start,
            Ok(false) => {
                if self.decoded_frames.len() == 0 {
                    return Err(DecodeError::EmptyAnimation);
                }
                self.current_frame = 0;
                0
            },
            Err(e) => {
                return Err(e);
            },
        };
        let frame = &self.decoded_frames[served];
        let required = frame.pixels.len();
        if out.len() < required {
            return Err(DecodeError::BufferTooSmall { required, available: out.len() });
        }
        copy_to_front(out, &frame.pixels);
        if frame.delay_denom == 0 {
            return Err(DecodeError::Decode);
        }
        let delay = frame.delay_numer / frame.delay_denom;
        let len = self.decoded_frames.len();
        self.current_frame = if option == FrameOption::Advance {
            if self.decoding_complete {
                (served + 1) % len
            } else {
                served + 1
            }
        } else {
            served
        };
        Ok(delay)
    }
}

/// Frames are only ever appended: a cache that extends one that extends `a` extends
/// `a`, so the cache grows monotonically over any sequence of operations.
pub proof fn lemma_cache_growth_composes(a: Seq<Frame>, b: Seq<Frame>, c: Seq<Frame>)
    requires
        cache_extends(a, b),
        cache_extends(b, c),
    ensures
        cache_extends(a, c),
{
    assert forall|i: int| 0 <= i < a.len() implies #[trigger] c[i] == a[i] by {
        assert(c[i] == b[i]);
    }
}

/// Ensuring the same frame twice in a row: once the first call has the frame, the
/// second finds it cached and changes nothing at all, so the frame is identical and
/// the source is not read again.
pub proof fn lemma_ensure_idempotent<S: FrameSource>(
    s0: AnimationDecoder<S>,
    s1: AnimationDecoder<S>,
    s2: AnimationDecoder<S>,
    index: int,
    r1: Result<bool, DecodeError>,
    r2: Result<bool, DecodeError>,
)
    requires
        0 <= index,
        AnimationDecoder::ensure_outcome(&s0, index, &s1, r1),
        AnimationDecoder::ensure_outcome(&s1, index, &s2, r2),
        r1 == Ok::<bool, DecodeError>(true),
    ensures
        r2 == Ok::<bool, DecodeError>(true),
        s2 == s1,
        s2.source() == s1.source(),
        index < s2.frames().len(),
        s2.frames()[index] == s1.frames()[index],
{
}

proof fn lemma_hold_keeps_state<S: FrameSource>(
    states: Seq<AnimationDecoder<S>>,
    ins: Seq<Seq<u8>>,
    outs: Seq<Seq<u8>>,
    rs: Seq<Result<u32, DecodeError>>,
    n: int,
)
    requires
        states.len() == rs.len() + 1,
        ins.len() == rs.len(),
        outs.len() == rs.len(),
        0 <= n <= rs.len(),
        states[0].index() < states[0].frames().len(),
        forall|k: int|
            0 <= k < rs.len() ==> AnimationDecoder::tick_outcome(
                #[trigger] &states[k],
                ins[k],
                FrameOption::Hold,
                &states[k + 1],
                outs[k],
                rs[k],
            ),
        forall|k: int| 0 <= k < rs.len() ==> #[trigger] rs[k] is Ok,
    ensures
        forall|k: int|
            0 <= k <= n ==> (#[trigger] states[k]).index() == states[0].index()
                && states[k].frames() == states[0].frames(),
    decreases n,
{
    if n > 0 {
        lemma_hold_keeps_state(states, ins, outs, rs, n - 1);
        assert(AnimationDecoder::tick_outcome(
            &states[n - 1],
            ins[n - 1],
            FrameOption::Hold,
            &states[n],
            outs[n - 1],
            rs[n - 1],
        ));
        assert(rs[n - 1] is Ok);
        assert forall|k: int| 0 <= k <= n implies (#[trigger] states[k]).index()
            == states[0].index() && states[k].frames() == states[0].frames() by {
            if k < n {
                assert(states[k].index() == states[0].index());
            }
        }
    }
}

/// Holding on a decoded frame any number of times in a row: every tick serves that
/// frame, returns the same delay, and leaves the playback position where it was.
pub proof fn lemma_hold_sequence<S: FrameSource>(
    states: Seq<AnimationDecoder<S>>,
    ins: Seq<Seq<u8>>,
    outs: Seq<Seq<u8>>,
    rs: Seq<Result<u32, DecodeError>>,
)
    requires
        states.len() == rs.len() + 1,
        ins.len() == rs.len(),
        outs.len() == rs.len(),
        states[0].index() < states[0].frames().len(),
        forall|k: int|
            0 <= k < rs.len() ==> AnimationDecoder::tick_outcome(
                #[trigger] &states[k],
                ins[k],
                FrameOption::Hold,
                &states[k + 1],
                outs[k],
                rs[k],
            ),
        forall|k: int| 0 <= k < rs.len() ==> #[trigger] rs[k] is Ok,
    ensures
        forall|k: int| 0 <= k < states.len() ==> (#[trigger] states[k]).index() == states[0].index(),
        forall|k: int| 0 <= k < rs.len() ==> #[trigger] rs[k] == rs[0],
        forall|k: int|
            0 <= k < rs.len() ==> (#[trigger] outs[k]).take(
                states[0].frames()[states[0].index() as int].pixels@.len() as int,
            ) == states[0].frames()[states[0].index() as int].pixels@,
{
    lemma_hold_keeps_state(states, ins, outs, rs, rs.len() as int);
    let f = states[0].frames()[states[0].index() as int];
    assert forall|k: int| 0 <= k < rs.len() implies #[trigger] rs[k] == rs[0] && outs[k].take(
        f.pixels@.len() as int,
    ) == f.pixels@ by {
        assert(AnimationDecoder::tick_outcome(
            &states[k],
            ins[k],
            FrameOption::Hold,
            &states[k + 1],
            outs[k],
            rs[k],
        ));
        assert(AnimationDecoder::tick_outcome(
            &states[0],
            ins[0],
            FrameOption::Hold,
            &states[1],
            outs[0],
            rs[0],
        ));
        assert(states[k].index() == states[0].index() && states[k].frames() == states[0].frames());
        assert(rs[k] is Ok && rs[0] is Ok);
        assert(outs[k].take(f.pixels@.len() as int) =~= f.pixels@);
    }
}

/// Resetting a fully decoded animation serves the first frame from the cache: the
/// source is not read and no frame is decoded again.
pub proof fn lemma_reset_reads_nothing<S: FrameSource>(
    s0: AnimationDecoder<S>,
    out0: Seq<u8>,
    s1: AnimationDecoder<S>,
    out1: Seq<u8>,
    r: Result<u32, DecodeError>,
)
    requires
        s0.complete(),
        s0.frames().len() > 0,
        AnimationDecoder::tick_outcome(&s0, out0, FrameOption::Reset, &s1, out1, r),
    ensures
        s1.source() == s0.source(),
        s1.frames() == s0.frames(),
        r is Ok ==> s1.index() == 0 && out1.take(s0.frames()[0].pixels@.len() as int)
            == s0.frames()[0].pixels@,
{
    let p = s0.frames()[0].pixels@;
    if r is Ok {
        assert(out1.take(p.len() as int) =~= p);
    }
}

/// A target size set once frames are cached applies only to frames decoded after it:
/// the cached frames stay as they were, and the next frame comes out at the target
/// size.
pub proof fn lemma_resize_applies_to_later_frames<S: FrameSource>(
    s0: AnimationDecoder<S>,
    target: Size,
    s1: AnimationDecoder<S>,
    next: Option<Result<Frame, MalformedFrame>>,
    s2: AnimationDecoder<S>,
    r: Result<bool, DecodeError>,
)
    requires
        target != s0.canvas(),
        AnimationDecoder::configure_outcome(&s0, Some(target), &s1),
        AnimationDecoder::accept_outcome(&s1, next, &s2, r),
        r == Ok::<bool, DecodeError>(true),
    ensures
        s2.frames().len() == s0.frames().len() + 1,
        forall|i: int| 0 <= i < s0.frames().len() ==> #[trigger] s2.frames()[i] == s0.frames()[i],
        s2.frames().last().width == target.width,
        s2.frames().last().height == target.height,
{
}

/// Advancing wraps back only once the animation is known to be complete: until the
/// source is exhausted, each successful advance moves one past the frame it served.
pub proof fn lemma_advance_wraps_only_when_complete<S: FrameSource>(
    s0: AnimationDecoder<S>,
    out0: Seq<u8>,
    s1: AnimationDecoder<S>,
    out1: Seq<u8>,
    r: Result<u32, DecodeError>,
)
    requires
        AnimationDecoder::tick_outcome(&s0, out0, FrameOption::Advance, &s1, out1, r),
        r is Ok,
    ensures
        !s1.complete() ==> s1.index() == served_index(s0.index() as int, s1.frames().len() as int) + 1,
        s1.index() <= served_index(s0.index() as int, s1.frames().len() as int) ==> s1.complete(),
{
}

/// Copies `src` over the first `src.len()` bytes of `out`; the rest of `out` stays.
fn copy_to_front(out: &mut [u8], src: &Vec<u8>)
    requires
        src@.len() <= old(out)@.len(),
    ensures
        final(out)@ == src@ + old(out)@.skip(src@.len() as int),
{
    let ghost orig = out@;
    let n = src.len();
    let mut i: usize = 0;
    while i < n
        invariant
            n == src@.len() <= orig.len(),
            out@.len() == orig.len(),
            i <= n,
            forall|j: int| 0 <= j < i ==> #[trigger] out@[j] == src@[j],
            forall|j: int| i <= j < orig.len() ==> #[trigger] out@[j] == orig[j],
        decreases n - i,
    {
        out[i] = src[i];
        i = i + 1;
    }
    assert(out@ =~= src@ + orig.skip(n as int));
}

} // verus!

//! Run configuration and the decisions of the acquisition and compute roles.
//! The roles' side effects (reading frames, Fourier work, channels) belong
//! to the caller; these types decide what happens next.
use crate::frame::Mat;
use crate::tiling::{
    candidates, get_allowed_dimension, is_fft_friendly, plan_positions, planned_sizes, smooth,
    tile_grid, TilingError,
};
use crate::window::SlidingWindowBuffer;
use vstd::arithmetic::power::lemma_pow_positive;
use vstd::prelude::*;

verus! {

/// Why a run cannot start.
#[derive(Clone, Copy, Debug, PartialEq, Eq)]
pub enum ConfigError {
    /// The stream's frames are not square.
    NonSquare,
    /// The tile-size range is empty or asks for zero sizes.
    InvalidTilingRange,
    /// A tile step of zero was given.
    ZeroTileStep,
    /// The stream reports a frame rate of zero, which leaves no window.
    ZeroFrameRate,
}

/// The validated parameters of one run.
#[derive(Clone, Copy, Debug, PartialEq, Eq)]
pub struct RunConfig {
    /// Side of the square frames.
    pub dimension: usize,
    /// Smallest tile size considered.
    pub tiling_min: usize,
    /// Largest tile size considered, at most `dimension`.
    pub tiling_max: usize,
    /// How many tile sizes to keep; all of them when absent.
    pub tiling_count: Option<usize>,
    /// Step between tile origins; the tile size itself when absent.
    pub tile_step: Option<usize>,
    /// Width of the frequency rings.
    pub annuli_spacing: usize,
    /// Frames per analysis window.
    pub window: usize,
    /// Most frames read from the stream.
    pub frame_cap: usize,
}

/// The largest `k` with `2^k <= n` (zero for `n <= 1`).
pub open spec fn floor_log2(n: nat) -> nat
    decreases n,
{
    if n <= 1 {
        0
    } else {
        1 + floor_log2(n / 2)
    }
}

/// The largest `k` with `2^k <= n` (zero for `n <= 1`).
pub fn log2_floor(n: usize) -> (r: usize)
    ensures
        r == floor_log2(n as nat),
{
    let mut m: usize = n;
    let mut k: usize = 0;
    while m > 1
        invariant
            k + floor_log2(m as nat) == floor_log2(n as nat),
            k + m <= n,
        decreases m,
    {
        m = m / 2;
        k = k + 1;
    }
    k
}

/// The tile range `(min, max, count)` a request resolves to on frames of
/// side `dimension`, or `None` when it is invalid. Each part has its own
/// default: the minimum is `log2(dimension)`, the maximum is `dimension`
/// (a given maximum is capped there), and no count keeps every size. The
/// request is invalid when the minimum exceeds the maximum or the count is
/// zero.
pub open spec fn resolved_tiling(dimension: usize, tiling_range: (Option<usize>, Option<usize>, Option<usize>)) -> Option<(usize, usize, Option<usize>)> {
    let min = match tiling_range.0 {
        Some(m) => m,
        None => floor_log2(dimension as nat) as usize,
    };
    let max = match tiling_range.1 {
        Some(m) => if m <= dimension { m } else { dimension },
        None => dimension,
    };
    if min > max || tiling_range.2 == Some(0usize) {
        None
    } else {
        Some((min, max, tiling_range.2))
    }
}

/// The outcome of resolving a run's parameters.
pub open spec fn resolved_config(
    width: usize,
    height: usize,
    fps: usize,
    frame_count: usize,
    capacity: Option<usize>,
    annuli_spacing: Option<usize>,
    tiling_range: (Option<usize>, Option<usize>, Option<usize>),
    tile_step: Option<usize>,
) -> Result<RunConfig, ConfigError> {
    if width != height {
        Err(ConfigError::NonSquare)
    } else if resolved_tiling(width, tiling_range) is None {
        Err(ConfigError::InvalidTilingRange)
    } else if tile_step == Some(0usize) {
        Err(ConfigError::ZeroTileStep)
    } else if fps == 0 {
        Err(ConfigError::ZeroFrameRate)
    } else {
        let (min, max, count) = resolved_tiling(width, tiling_range)->Some_0;
        Ok(RunConfig {
            dimension: width,
            tiling_min: min,
            tiling_max: max,
            tiling_count: count,
            tile_step,
            annuli_spacing: match annuli_spacing {
                Some(s) => s,
                None => 1,
            },
            window: fps,
            frame_cap: match capacity {
                Some(c) => if c < frame_count { c } else { frame_count },
                None => frame_count,
            },
        })
    }
}

/// Validates a run's parameters and fills in the defaults: the smallest
/// tile is `log2(dimension)` and the largest `dimension` when not given, a
/// given maximum is capped at `dimension`, the ring spacing is 1,
/// the window is one second of frames, and the frame cap is the stream's
/// length (or less, when a capacity is asked for).
pub fn resolve_config(
    width: usize,
    height: usize,
    fps: usize,
    frame_count: usize,
    capacity: Option<usize>,
    annuli_spacing: Option<usize>,
    tiling_range: (Option<usize>, Option<usize>, Option<usize>),
    tile_step: Option<usize>,
) -> (r: Result<RunConfig, ConfigError>)
    ensures
        r == resolved_config(width, height, fps, frame_count, capacity, annuli_spacing, tiling_range, tile_step),
        r is Ok ==> r->Ok_0.wf(),
{
    if width != height {
        return Err(ConfigError::NonSquare);
    }
    let dimension = width;
    let (min_given, max_given, count) = tiling_range;
    let min = match min_given {
        Some(m) => m,
        None => log2_floor(dimension),
    };
    let max = match max_given {
        Some(m) => if m <= dimension { m } else { dimension },
        None => dimension,
    };
    let tiling: Option<(usize, usize, Option<usize>)> = if min > max || count == Some(0usize) {
        None
    } else {
        Some((min, max, count))
    };
    let (tiling_min, tiling_max, tiling_count) = match tiling {
        Some(t) => t,
        None => {
            return Err(ConfigError::InvalidTilingRange);
        },
    };
    if tile_step == Some(0usize) {
        return Err(ConfigError::ZeroTileStep);
    }
    if fps == 0 {
        return Err(ConfigError::ZeroFrameRate);
    }
    let frame_cap = match capacity {
        Some(c) => if c < frame_count { c } else { frame_count },
        None => frame_count,
    };
    let spacing = match annuli_spacing {
        Some(s) => s,
        None => 1,
    };
    Ok(RunConfig {
        dimension,
        tiling_min,
        tiling_max,
        tiling_count,
        tile_step,
        annuli_spacing: spacing,
        window: fps,
        frame_cap,
    })
}

/// The tile sizes of a run and, for each, the origins of its tiles.
pub struct TilePlan {
    /// The tile sizes, ascending.
    pub sizes: Vec<usize>,
    /// `positions[i]` holds the tile origins for `sizes[i]`.
    pub positions: Vec<Vec<(usize, usize)>>,
}

impl RunConfig {
    /// The largest tile does not exceed the frame, a given step or count is
    /// positive and the window holds at least one frame.
    pub open spec fn wf(&self) -> bool {
        &&& self.tiling_max <= self.dimension
        &&& self.tile_step != Some(0usize)
        &&& self.tiling_count != Some(0usize)
        &&& self.window > 0
    }

    /// Plans the tile sizes and their positions; fails when the capped
    /// tile range is empty.
    pub fn plan_tiles(&self) -> (r: Result<TilePlan, ConfigError>)
        requires
            self.wf(),
        ensures
            self.tiling_min > self.tiling_max ==> r == Err::<TilePlan, ConfigError>(ConfigError::InvalidTilingRange),
            self.tiling_min <= self.tiling_max ==> r is Ok,
            r is Ok ==> {
                let p = r->Ok_0;
                &&& p.sizes@ == planned_sizes(self.tiling_min as int, self.tiling_max as int, self.tiling_count)
                &&& p.positions@.len() == p.sizes@.len()
                &&& forall|i: int| 0 <= i < p.sizes@.len() ==> (#[trigger] p.positions@[i])@ == tile_grid(
                    self.dimension as int,
                    p.sizes@[i] as int,
                    match self.tile_step {
                        Some(t) => t as int,
                        None => p.sizes@[i] as int,
                    },
                )
            },
    {
        match get_allowed_dimension(self.tiling_min, self.tiling_max, self.tiling_count) {
            Ok(sizes) => {
                proof {
                    assert forall|i: int| 0 <= i < sizes@.len() implies 0 < #[trigger] sizes@[i] <= self.dimension by {
                        assert(is_fft_friendly(sizes@[i] as int));
                        let (a, b, c) = choose|a: nat, b: nat, c: nat| sizes@[i] as int == #[trigger] smooth(a, b, c);
                        lemma_pow_positive(2, a);
                        lemma_pow_positive(3, b);
                        lemma_pow_positive(5, c);
                        let x = vstd::arithmetic::power::pow(2, a);
                        let y = vstd::arithmetic::power::pow(3, b);
                        let z = vstd::arithmetic::power::pow(5, c);
                        assert(x * y * z > 0) by (nonlinear_arith)
                            requires
                                x > 0,
                                y > 0,
                                z > 0,
                        ;
                    }
                }
                let positions = plan_positions(self.dimension, &sizes, self.tile_step);
                Ok(TilePlan { sizes, positions })
            },
            Err(_) => Err(ConfigError::InvalidTilingRange),
        }
    }
}

/// How many windows a stream of `pushed` frames yields with windows of
/// `window` frames sliding by one frame.
pub open spec fn windows_completed(pushed: nat, window: nat) -> nat {
    if pushed >= window && window > 0 {
        (pushed - window + 1) as nat
    } else {
        0
    }
}

/// What the compute role does after taking in a frame.
#[derive(Clone, Copy, Debug, PartialEq, Eq)]
pub enum ComputeAction {
    /// The window is not full yet: wait for the next frame.
    Wait,
    /// The window is full: run one window pass over its frames.
    RunWindow,
}

/// The compute role's state: the sliding window and the number of windows
/// (start times) processed.
pub struct ComputeState<T> {
    buffer: SlidingWindowBuffer<T>,
    start_times: usize,
}

impl<T> ComputeState<T> {
    /// The frames of the current window, oldest first.
    pub closed spec fn window_contents(&self) -> Seq<T> {
        self.buffer.contents()
    }

    /// Every frame taken in, oldest first.
    pub closed spec fn frames_seen(&self) -> Seq<T> {
        self.buffer.pushed()
    }

    /// Frames per window.
    pub closed spec fn window_len(&self) -> nat {
        self.buffer.cap()
    }

    /// The number of window passes run so far.
    pub closed spec fn start_count(&self) -> nat {
        self.start_times as nat
    }

    /// One window pass was run for each frame that arrived on a full window.
    pub closed spec fn wf(&self) -> bool {
        &&& self.buffer.wf()
        &&& self.start_times == windows_completed(self.buffer.pushed().len(), self.buffer.cap())
    }

    /// A compute role that has seen no frame, for windows of `window` frames.
    pub fn new(window: usize) -> (r: Self)
        requires
            window > 0,
        ensures
            r.wf(),
            r.window_len() == window,
            r.frames_seen() == Seq::<T>::empty(),
            r.start_count() == 0,
    {
        ComputeState { buffer: SlidingWindowBuffer::new(window), start_times: 0 }
    }

    /// Takes in a frame; once the window is full every frame asks for a
    /// window pass, which is counted as one more start time.
    pub fn on_frame(&mut self, frame: T) -> (r: ComputeAction)
        requires
            old(self).wf(),
            old(self).start_count() < usize::MAX,
        ensures
            final(self).wf(),
            final(self).window_len() == old(self).window_len(),
            final(self).frames_seen() == old(self).frames_seen().push(frame),
            final(self).window_contents() == crate::window::latest(final(self).frames_seen(), final(self).window_len()),
            r == (if final(self).frames_seen().len() >= final(self).window_len() {
                ComputeAction::RunWindow
            } else {
                ComputeAction::Wait
            }),
            final(self).start_count() == old(self).start_count() + (if r == ComputeAction::RunWindow { 1int } else { 0int }),
    {
        self.buffer.push(frame);
        proof {
            self.buffer.lemma_holds_latest();
        }
        if self.buffer.is_full() {
            self.start_times = self.start_times + 1;
            ComputeAction::RunWindow
        } else {
            ComputeAction::Wait
        }
    }

    /// The frames of the current window, oldest first.
    pub fn window(&self) -> (r: &Vec<T>)
        ensures
            r@ == self.window_contents(),
    {
        self.buffer.snapshot()
    }

    /// The number of window passes run so far.
    pub fn start_times(&self) -> (r: usize)
        ensures
            r == self.start_count(),
    {
        self.start_times
    }

    /// At the end of the stream: the divisor for the start-time average, or
    /// `None` when no window ever filled, in which case no tile size has an
    /// output table.
    pub fn finish(&self) -> (r: Option<usize>)
        requires
            self.wf(),
        ensures
            r == (if self.frames_seen().len() >= self.window_len() {
                Some((self.frames_seen().len() - self.window_len() + 1) as usize)
            } else {
                None::<usize>
            }),
            self.frames_seen().len() < self.window_len() ==> r is None,
    {
        proof {
            self.buffer.lemma_holds_latest();
        }
        if self.start_times > 0 {
            Some(self.start_times)
        } else {
            None
        }
    }
}

/// What the acquisition role does with the next event from the stream.
#[derive(Clone, Copy, Debug, PartialEq, Eq)]
pub enum AcquireAction {
    /// First frame: generate the annuli for frames of this side, then hand
    /// the frame on.
    AnnuliThenFrame(usize),
    /// Hand the frame on.
    Frame,
    /// Send the end-of-stream sentinel and stop.
    End,
}

/// The acquisition role's state.
#[derive(Clone, Copy, Debug, PartialEq, Eq)]
pub struct AcquireState {
    /// Side of the frames, once the first one arrived.
    pub dimension: Option<usize>,
    /// Frames handed on so far.
    pub sent: usize,
    /// Most frames to hand on.
    pub frame_cap: usize,
}

impl AcquireState {
    /// Nothing acquired yet; at most `frame_cap` frames will be handed on.
    pub fn new(frame_cap: usize) -> (r: Self)
        ensures
            r == (AcquireState { dimension: None, sent: 0, frame_cap }),
    {
        AcquireState { dimension: None, sent: 0, frame_cap }
    }

    /// Decides what to do with a frame read from the stream. The first frame
    /// fixes the dimension (its larger side) and asks for the annuli; once
    /// the cap is reached the stream ends.
    pub fn on_frame(&mut self, frame: &Mat) -> (r: AcquireAction)
        requires
            old(self).sent <= old(self).frame_cap,
        ensures
            final(self).sent <= final(self).frame_cap,
            final(self).frame_cap == old(self).frame_cap,
            old(self).sent == old(self).frame_cap ==> r == AcquireAction::End && *final(self) == *old(self),
            old(self).sent < old(self).frame_cap ==> final(self).sent == old(self).sent + 1,
            old(self).sent < old(self).frame_cap && old(self).dimension is None ==> {
                let d = (if frame.rows >= frame.cols { frame.rows } else { frame.cols }) as usize;
                &&& r == AcquireAction::AnnuliThenFrame(d)
                &&& final(self).dimension == Some(d)
            },
            old(self).sent < old(self).frame_cap && old(self).dimension is Some ==> r == AcquireAction::Frame
                && final(self).dimension == old(self).dimension,
    {
        if self.sent == self.frame_cap {
            return AcquireAction::End;
        }
        self.sent = self.sent + 1;
        match self.dimension {
            Some(_) => AcquireAction::Frame,
            None => {
                let n = if frame.rows >= frame.cols { frame.rows } else { frame.cols };
                let d = n as usize;
                self.dimension = Some(d);
                AcquireAction::AnnuliThenFrame(d)
            },
        }
    }

    /// The stream reported its end: send the sentinel.
    pub fn on_end(&self) -> (r: AcquireAction)
        ensures
            r == AcquireAction::End,
    {
        AcquireAction::End
    }
}

} // verus!

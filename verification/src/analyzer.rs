use vstd::prelude::*;

use crate::error::Error;

verus! {

// ---------------------------------------------------------------------------
// Greyscale frames
// ---------------------------------------------------------------------------

/// The largest pixel count a frame may have: it keeps the inter-frame
/// intensity difference within a signed 32-bit sum.
pub const MAX_PIXEL_COUNT: u32 = 2800000;

/// Model of a frame: its dimensions and its greyscale pixels.
#[verifier::ext_equal]
pub struct ImageModel {
    pub width: u32,
    pub height: u32,
    pub pixels: Seq<u8>,
}

impl ImageModel {
    /// The pixel vector fills the dimensions exactly, within the supported
    /// size.
    pub open spec fn wf(self) -> bool {
        &&& self.pixels.len() == self.width * self.height
        &&& self.width * self.height <= MAX_PIXEL_COUNT
    }
}

/// A single-channel 8-bit greyscale frame.
#[derive(Debug)]
pub struct Image {
    width: u32,
    height: u32,
    pixels: Vec<u8>,
}

impl View for Image {
    type V = ImageModel;

    closed spec fn view(&self) -> ImageModel {
        ImageModel { width: self.width, height: self.height, pixels: self.pixels@ }
    }
}

impl Image {
    /// Every frame in circulation fills its dimensions exactly, within the
    /// supported size.
    #[verifier::type_invariant]
    spec fn type_inv(self) -> bool {
        self@.wf()
    }

    /// Builds a frame; the pixel vector must fill the dimensions exactly
    /// and stay within the supported size.
    pub fn new(width: u32, height: u32, pixels: Vec<u8>) -> (r: Result<Image, Error>)
        ensures
            r is Ok <==> (pixels@.len() == width * height && width * height <= MAX_PIXEL_COUNT),
            r is Ok ==> r->Ok_0@ == (ImageModel { width, height, pixels: pixels@ }),
            r is Ok ==> r->Ok_0@.wf(),
            r is Err ==> r->Err_0 == Error::InvalidInput,
    {
        let w = width as u64;
        let h = height as u64;
        proof {
            assert(w * h <= 0xfffffffe00000001u64) by (nonlinear_arith)
                requires
                    w <= 0xffffffffu64,
                    h <= 0xffffffffu64,
            ;
        }
        let count = w * h;
        if count > MAX_PIXEL_COUNT as u64 {
            return Err(Error::InvalidInput);
        }
        if pixels.len() as u64 != count {
            return Err(Error::InvalidInput);
        }
        Ok(Image { width, height, pixels })
    }

    /// The width of the frame.
    pub fn width(&self) -> (r: u32)
        ensures
            r == self@.width,
    {
        self.width
    }

    /// The height of the frame.
    pub fn height(&self) -> (r: u32)
        ensures
            r == self@.height,
    {
        self.height
    }

    /// The pixels of the frame, row by row.
    pub fn pixels(&self) -> (r: &Vec<u8>)
        ensures
            r@ == self@.pixels,
    {
        &self.pixels
    }

    /// The number of pixels.
    pub fn pixel_count(&self) -> (r: u32)
        requires
            self@.wf(),
        ensures
            r == self@.width * self@.height,
    {
        self.width * self.height
    }
}

// ---------------------------------------------------------------------------
// The intensity statistic
// ---------------------------------------------------------------------------

/// Per-pixel lighting intensity: the sum of the three colour channels,
/// which for a greyscale pixel are three copies of its value.
pub open spec fn spec_intensities(pixels: Seq<u8>) -> Seq<u16> {
    pixels.map_values(|p: u8| (3 * p) as u16)
}

/// The scalar difference between two intensity vectors, summed from
/// position `i` on: the earlier frame minus the later one.
pub open spec fn spec_diff_from(a: Seq<u16>, b: Seq<u16>, i: int) -> int
    decreases a.len() - i,
{
    if i < 0 || i >= a.len() {
        0
    } else {
        (a[i] - b[i]) + spec_diff_from(a, b, i + 1)
    }
}

/// The scalar inter-frame intensity difference.
pub open spec fn spec_diff(a: Seq<u16>, b: Seq<u16>) -> int {
    spec_diff_from(a, b, 0)
}

/// The unsigned second-order variation between two consecutive scalar
/// differences.
pub open spec fn spec_variation(diff0: int, diff1: int) -> int {
    if diff1 >= diff0 {
        diff1 - diff0
    } else {
        diff0 - diff1
    }
}

/// The partial difference sums stay within 765 per remaining pixel.
pub proof fn lemma_diff_from_bound(a: Seq<u16>, b: Seq<u16>, i: int)
    requires
        a.len() == b.len(),
        forall|k: int| 0 <= k < a.len() ==> a[k] <= 765 && b[k] <= 765,
        0 <= i <= a.len(),
    ensures
        -765 * (a.len() - i) <= spec_diff_from(a, b, i) <= 765 * (a.len() - i),
    decreases a.len() - i,
{
    if i < a.len() {
        lemma_diff_from_bound(a, b, i + 1);
    }
}

/// Equal intensity vectors differ by nothing.
pub proof fn lemma_diff_self_zero(a: Seq<u16>, i: int)
    requires
        0 <= i <= a.len(),
    ensures
        spec_diff_from(a, a, i) == 0,
    decreases a.len() - i,
{
    if i < a.len() {
        lemma_diff_self_zero(a, i + 1);
    }
}

// ---------------------------------------------------------------------------
// The analyzer
// ---------------------------------------------------------------------------

/// Model of the analyzer state.
#[verifier::ext_equal]
pub struct StreamAnalyzerModel {
    /// Intensity vector of the last frame; absent until the first frame.
    pub image_intensity: Option<Seq<u16>>,
    /// Last scalar inter-frame difference; absent until the second frame.
    pub intensity_diff: Option<i32>,
    /// Variation accumulated since the last reset.
    pub intensity_var_sum: u64,
    /// Frames consumed since the last reset.
    pub nbr_images: u64,
    /// Baseline mean variation; written once.
    pub ref_intensity_var_mean: Option<u64>,
    /// Significance multiplier applied when the baseline is computed.
    pub ref_intensity_var_coef: u64,
    /// Expected pixel count; written once, by the first frame.
    pub size: Option<u32>,
}

impl StreamAnalyzerModel {
    /// The running invariant: the stored vector fills the expected size
    /// with per-pixel intensities, and the stored difference stays within
    /// the bound the size dictates.
    pub open spec fn wf(self) -> bool {
        &&& self.size is Some ==> self.size->0 <= MAX_PIXEL_COUNT
        &&& self.image_intensity is Some ==> self.size is Some
            && self.image_intensity->0.len() == self.size->0 && forall|k: int|
            0 <= k < self.image_intensity->0.len() ==> self.image_intensity->0[k] <= 765
        &&& self.intensity_diff is Some ==> self.size is Some && -765 * (self.size->0 as int)
            <= self.intensity_diff->0 <= 765 * (self.size->0 as int)
    }

    /// Enough room is left in the counters for one more frame.
    pub open spec fn headroom(self) -> bool {
        &&& self.nbr_images < u64::MAX
        &&& self.intensity_var_sum + 4284000000 <= u64::MAX
    }
}

/// What feeding a frame does: a frame of the wrong pixel count is refused
/// and changes nothing; otherwise the frame count grows, the new intensity
/// vector is stored, and from the third frame on the second-order variation
/// is accumulated.
pub open spec fn spec_feed(m: StreamAnalyzerModel, img: ImageModel) -> (StreamAnalyzerModel, bool) {
    let count = (img.width * img.height) as u32;
    if m.size is Some && m.size->0 != count {
        (m, false)
    } else {
        let intensity1 = spec_intensities(img.pixels);
        let with_size = StreamAnalyzerModel {
            size: Some(count),
            nbr_images: (m.nbr_images + 1) as u64,
            ..m
        };
        match m.image_intensity {
            None => (
                StreamAnalyzerModel { image_intensity: Some(intensity1), ..with_size },
                true,
            ),
            Some(intensity0) => {
                let diff1 = spec_diff(intensity0, intensity1);
                let var_sum = match m.intensity_diff {
                    Some(diff0) => (m.intensity_var_sum + spec_variation(
                        diff0 as int,
                        diff1,
                    )) as u64,
                    None => m.intensity_var_sum,
                };
                (
                    StreamAnalyzerModel {
                        image_intensity: Some(intensity1),
                        intensity_diff: Some(diff1 as i32),
                        intensity_var_sum: var_sum,
                        ..with_size
                    },
                    true,
                )
            },
        }
    }
}

/// What starting an analysis does: on the first call the baseline mean is
/// computed and stored for good; every call clears the running statistic.
/// With no frame consumed and no baseline yet there is nothing to compute.
pub open spec fn spec_start_analyzing(m: StreamAnalyzerModel) -> (StreamAnalyzerModel, bool) {
    if m.ref_intensity_var_mean is None && m.nbr_images == 0 {
        (m, false)
    } else {
        let reference = match m.ref_intensity_var_mean {
            Some(v) => v,
            None => ((m.intensity_var_sum * m.ref_intensity_var_coef) / (m.nbr_images as int))
                as u64,
        };
        (
            StreamAnalyzerModel {
                image_intensity: None,
                intensity_diff: None,
                intensity_var_sum: 0,
                nbr_images: 0,
                ref_intensity_var_mean: Some(reference),
                ..m
            },
            true,
        )
    }
}

/// Whether the accumulated variation signals a working emitter: the mean
/// variation since the last reset exceeds the baseline.  Undefined until a
/// frame was consumed and a baseline exists.
pub open spec fn spec_is_ir_working(m: StreamAnalyzerModel) -> Option<bool> {
    if m.nbr_images == 0 || m.ref_intensity_var_mean is None {
        None
    } else {
        Some(m.intensity_var_sum / m.nbr_images > m.ref_intensity_var_mean->0)
    }
}

/// One accepted frame grows the variation sum by at most 1530 counts per
/// pixel: the bound that one more feeding step can never overflow past.
pub proof fn lemma_feed_var_growth(m: StreamAnalyzerModel, img: ImageModel)
    requires
        m.wf(),
        img.wf(),
    ensures
        spec_feed(m, img).0.intensity_var_sum <= m.intensity_var_sum + 4284000000,
{
    let count = (img.width * img.height) as u32;
    if m.size is Some && m.size->0 != count {
    } else {
        match m.image_intensity {
            None => {},
            Some(i0) => {
                let i1 = spec_intensities(img.pixels);
                assert(i1.len() == img.pixels.len());
                assert forall|k: int| 0 <= k < i1.len() implies i1[k] <= 765 by {
                    assert(i1[k] == (3 * img.pixels[k]) as u16);
                }
                match m.intensity_diff {
                    None => {},
                    Some(d0) => {
                        lemma_diff_from_bound(i0, i1, 0);
                    },
                }
            },
        }
    }
}

/// Tool to analyze a stream of frames to determine if the IR emitter is
/// working.
#[derive(Debug)]
pub struct StreamAnalyzer {
    image_intensity: Option<Vec<u16>>,
    intensity_diff: Option<i32>,
    intensity_var_sum: u64,
    nbr_images: u64,
    ref_intensity_var_mean: Option<u64>,
    ref_intensity_var_coef: u64,
    size: Option<u32>,
}

impl View for StreamAnalyzer {
    type V = StreamAnalyzerModel;

    closed spec fn view(&self) -> StreamAnalyzerModel {
        StreamAnalyzerModel {
            image_intensity: match self.image_intensity {
                Some(v) => Some(v@),
                None => None,
            },
            intensity_diff: self.intensity_diff,
            intensity_var_sum: self.intensity_var_sum,
            nbr_images: self.nbr_images,
            ref_intensity_var_mean: self.ref_intensity_var_mean,
            ref_intensity_var_coef: self.ref_intensity_var_coef,
            size: self.size,
        }
    }
}

impl StreamAnalyzer {
    /// Creates a new analyzer with the given significance multiplier.
    pub fn new(ref_intensity_var_coef: u64) -> (r: StreamAnalyzer)
        ensures
            r@ == (StreamAnalyzerModel {
                image_intensity: None,
                intensity_diff: None,
                intensity_var_sum: 0,
                nbr_images: 0,
                ref_intensity_var_mean: None,
                ref_intensity_var_coef,
                size: None,
            }),
            r@.wf(),
    {
        StreamAnalyzer {
            image_intensity: None,
            intensity_diff: None,
            intensity_var_sum: 0,
            nbr_images: 0,
            ref_intensity_var_mean: None,
            ref_intensity_var_coef,
            size: None,
        }
    }

    /// Frames consumed since the last reset.
    pub fn nbr_images(&self) -> (r: u64)
        ensures
            r == self@.nbr_images,
    {
        self.nbr_images
    }

    /// The accumulated variation since the last reset.
    pub fn intensity_var_sum(&self) -> (r: u64)
        ensures
            r == self@.intensity_var_sum,
    {
        self.intensity_var_sum
    }

    /// The baseline mean variation, once computed.
    pub fn ref_intensity_var_mean(&self) -> (r: Option<u64>)
        ensures
            r == self@.ref_intensity_var_mean,
    {
        self.ref_intensity_var_mean
    }

    /// The significance multiplier the analyzer was created with.
    pub fn ref_intensity_var_coef(&self) -> (r: u64)
        ensures
            r == self@.ref_intensity_var_coef,
    {
        self.ref_intensity_var_coef
    }

    /// The stored intensity vector of the last frame, if any.
    pub fn image_intensity(&self) -> (r: Option<&Vec<u16>>)
        ensures
            r is Some <==> self@.image_intensity is Some,
            r is Some ==> r->0@ == self@.image_intensity->0,
    {
        self.image_intensity.as_ref()
    }

    /// The last scalar inter-frame difference, if any.
    pub fn intensity_diff(&self) -> (r: Option<i32>)
        ensures
            r == self@.intensity_diff,
    {
        self.intensity_diff
    }

    /// Computes the lighting intensity of each pixel of a frame.
    pub fn compute_intensity(image: &Image) -> (r: Vec<u16>)
        ensures
            r@ == spec_intensities(image@.pixels),
    {
        let pixels = image.pixels();
        let n = pixels.len();
        let mut r: Vec<u16> = Vec::new();
        let mut i: usize = 0;
        while i < n
            invariant
                n == pixels@.len(),
                i <= n,
                r@.len() == i,
                forall|k: int| 0 <= k < i ==> r@[k] == 3 * pixels@[k],
            decreases n - i,
        {
            r.push(3 * (pixels[i] as u16));
            i += 1;
        }
        assert(r@ =~= spec_intensities(image@.pixels));
        r
    }

    /// Computes the scalar difference between two intensity vectors: the
    /// earlier frame minus the later one, summed over the pixels.
    pub fn compute_intensities_diff(intensity0: &Vec<u16>, intensity1: &Vec<u16>) -> (r: i32)
        requires
            intensity0@.len() == intensity1@.len(),
            intensity0@.len() <= MAX_PIXEL_COUNT,
            forall|k: int|
                0 <= k < intensity0@.len() ==> intensity0@[k] <= 765 && intensity1@[k] <= 765,
        ensures
            r == spec_diff(intensity0@, intensity1@),
    {
        let n = intensity0.len();
        let mut acc: i32 = 0;
        let mut i: usize = 0;
        proof {
            lemma_diff_from_bound(intensity0@, intensity1@, 0);
        }
        while i < n
            invariant
                n == intensity0@.len() && n == intensity1@.len(),
                n <= MAX_PIXEL_COUNT,
                forall|k: int|
                    0 <= k < intensity0@.len() ==> intensity0@[k] <= 765 && intensity1@[k]
                        <= 765,
                i <= n,
                acc + spec_diff_from(intensity0@, intensity1@, i as int) == spec_diff(
                    intensity0@,
                    intensity1@,
                ),
                -765 * (i as int) <= acc <= 765 * (i as int),
            decreases n - i,
        {
            proof {
                lemma_diff_from_bound(intensity0@, intensity1@, i + 1);
            }
            acc = acc + (intensity0[i] as i32 - intensity1[i] as i32);
            i += 1;
        }
        acc
    }

    /// Computes the unsigned variation between two scalar differences.
    pub fn compute_intensities_variation(diff0: i32, diff1: i32) -> (r: u64)
        ensures
            r == spec_variation(diff0 as int, diff1 as int),
    {
        let d: i64 = diff1 as i64 - diff0 as i64;
        if d >= 0 {
            d as u64
        } else {
            (-d) as u64
        }
    }

    /// Feeds a frame to the analyzer.  The first frame sets the expected
    /// pixel count; a frame with a different count is refused and leaves
    /// the analyzer unchanged.
    pub fn feed(&mut self, image: &Image) -> (r: Result<(), Error>)
        requires
            old(self)@.wf(),
            old(self)@.headroom(),
            image@.wf(),
        ensures
            ({
                let (m2, accepted) = spec_feed(old(self)@, image@);
                &&& final(self)@ == m2
                &&& (r is Ok <==> accepted)
            }),
            r is Err ==> r->Err_0 == Error::AnalyzerSizeMismatch,
            final(self)@.wf(),
    {
        let count = image.pixel_count();
        match self.size {
            Some(s) => {
                if s != count {
                    return Err(Error::AnalyzerSizeMismatch);
                }
            },
            None => {
                self.size = Some(count);
            },
        }
        self.nbr_images = self.nbr_images + 1;

        let intensity1 = Self::compute_intensity(image);
        assert(intensity1@.len() == count) by {
            assert(spec_intensities(image@.pixels).len() == image@.pixels.len());
        }
        assert(forall|k: int| 0 <= k < intensity1@.len() ==> intensity1@[k] <= 765);

        let prev = self.image_intensity.take();
        match prev {
            Some(intensity0) => {
                let diff1 = Self::compute_intensities_diff(&intensity0, &intensity1);
                proof {
                    lemma_diff_from_bound(intensity0@, intensity1@, 0);
                }
                match self.intensity_diff {
                    Some(diff0) => {
                        let var = Self::compute_intensities_variation(diff0, diff1);
                        assert(var <= 4284000000);
                        self.intensity_var_sum = self.intensity_var_sum + var;
                    },
                    None => {},
                }
                self.intensity_diff = Some(diff1);
            },
            None => {},
        }
        self.image_intensity = Some(intensity1);
        Ok(())
    }

    /// On the first call, fixes the baseline mean variation from what was
    /// accumulated so far; on every call, clears the running statistic.
    /// Refused when no frame was ever fed and no baseline exists yet.
    pub fn start_analyzing(&mut self) -> (r: Result<(), Error>)
        requires
            old(self)@.ref_intensity_var_mean is None ==> old(self)@.intensity_var_sum * old(
                self,
            )@.ref_intensity_var_coef <= u64::MAX,
        ensures
            ({
                let (m2, ok) = spec_start_analyzing(old(self)@);
                &&& final(self)@ == m2
                &&& (r is Ok <==> ok)
            }),
            r is Err ==> r->Err_0 == Error::InvalidInput,
            old(self)@.wf() ==> final(self)@.wf(),
    {
        match self.ref_intensity_var_mean {
            Some(_) => {},
            None => {
                if self.nbr_images == 0 {
                    return Err(Error::InvalidInput);
                }
                let mean = (self.intensity_var_sum * self.ref_intensity_var_coef)
                    / self.nbr_images;
                self.ref_intensity_var_mean = Some(mean);
            },
        }
        self.image_intensity = None;
        self.intensity_diff = None;
        self.intensity_var_sum = 0;
        self.nbr_images = 0;
        Ok(())
    }

    /// Decides whether the emitter is working: the mean variation since the
    /// last reset must exceed the baseline.  Refused when no frame was fed
    /// since the last reset, or when no baseline exists yet.
    pub fn is_ir_working(&self) -> (r: Result<bool, Error>)
        ensures
            match spec_is_ir_working(self@) {
                Some(b) => r == Result::<bool, Error>::Ok(b),
                None => r is Err && r->Err_0 == Error::InvalidInput,
            },
    {
        if self.nbr_images == 0 {
            return Err(Error::InvalidInput);
        }
        let mean = self.intensity_var_sum / self.nbr_images;
        match self.ref_intensity_var_mean {
            Some(reference) => Ok(mean > reference),
            None => Err(Error::InvalidInput),
        }
    }
}

// ---------------------------------------------------------------------------
// The analyzer protocol
// ---------------------------------------------------------------------------

/// Requests sent to the analyzer.
#[derive(Debug)]
pub enum Message {
    /// A frame to analyze.  No response expected.
    Image(Image),
    /// Asks if the IR emitter is working.  A response of type
    /// [`IsIrWorking`] follows once enough frames were consumed.
    IsIrWorking,
}

/// Responses to a [`Message::IsIrWorking`] request.
#[derive(Debug, PartialEq, Eq, Structural, Clone, Copy)]
pub enum IsIrWorking {
    Yes,
    No,
    /// The statistic could not decide; the caller falls back to manual
    /// confirmation.
    Maybe,
}

/// Handles one message of the analyzer protocol.  Frames are discarded
/// unless a question is pending; once enough frames were consumed the
/// answer is returned for the caller to send, and the running statistic is
/// reset while the baseline is kept (or fixed, on the first round).
pub fn analyze_step(
    analyzer: &mut StreamAnalyzer,
    waiting_for_res: &mut bool,
    msg: Message,
    images_before_answer: u64,
) -> (r: Result<Option<IsIrWorking>, Error>)
    requires
        old(analyzer)@.wf(),
        old(analyzer)@.headroom(),
        old(analyzer)@.ref_intensity_var_mean is None ==> (old(analyzer)@.intensity_var_sum
            + 4284000000) * old(analyzer)@.ref_intensity_var_coef <= u64::MAX,
    ensures
        final(analyzer)@.wf(),
        match msg {
            Message::IsIrWorking => final(analyzer)@ == old(analyzer)@ && *final(waiting_for_res)
                && r == Result::<Option<IsIrWorking>, Error>::Ok(None),
            Message::Image(img) => {
                if !*old(waiting_for_res) {
                    final(analyzer)@ == old(analyzer)@ && *final(waiting_for_res) == *old(
                        waiting_for_res,
                    ) && r == Result::<Option<IsIrWorking>, Error>::Ok(None)
                } else {
                    let (m2, accepted) = spec_feed(old(analyzer)@, img@);
                    if !accepted {
                        r is Err && r->Err_0 == Error::AnalyzerSizeMismatch
                    } else if m2.nbr_images >= images_before_answer {
                        let answer = match spec_is_ir_working(m2) {
                            Some(true) => IsIrWorking::Yes,
                            Some(false) => IsIrWorking::No,
                            None => IsIrWorking::Maybe,
                        };
                        &&& r == Result::<Option<IsIrWorking>, Error>::Ok(Some(answer))
                        &&& !*final(waiting_for_res)
                        &&& final(analyzer)@ == spec_start_analyzing(m2).0
                    } else {
                        &&& r == Result::<Option<IsIrWorking>, Error>::Ok(None)
                        &&& *final(waiting_for_res)
                        &&& final(analyzer)@ == m2
                    }
                }
            },
        },
{
    match msg {
        Message::Image(image) => {
            if *waiting_for_res {
                proof {
                    use_type_invariant(&image);
                }
                let fed = analyzer.feed(&image);
                match fed {
                    Ok(_) => {},
                    Err(e) => {
                        return Err(e);
                    },
                }
                if analyzer.nbr_images() >= images_before_answer {
                    let res = match analyzer.is_ir_working() {
                        Ok(true) => IsIrWorking::Yes,
                        Ok(false) => IsIrWorking::No,
                        Err(_) => IsIrWorking::Maybe,
                    };
                    *waiting_for_res = false;
                    proof {
                        lemma_feed_var_growth(old(analyzer)@, image@);
                        if analyzer@.ref_intensity_var_mean is None {
                            let grown = (old(analyzer)@.intensity_var_sum + 4284000000) as u64;
                            assert(analyzer@.intensity_var_sum
                                * analyzer@.ref_intensity_var_coef <= grown
                                * analyzer@.ref_intensity_var_coef) by (nonlinear_arith)
                                requires
                                    analyzer@.intensity_var_sum <= grown,
                            ;
                        }
                    }
                    match analyzer.start_analyzing() {
                        Ok(_) => {},
                        Err(e) => {
                            return Err(e);
                        },
                    }
                    return Ok(Some(res));
                }
            }
            Ok(None)
        },
        Message::IsIrWorking => {
            *waiting_for_res = true;
            Ok(None)
        },
    }
}

// ---------------------------------------------------------------------------
// Laws of the analyzer
// ---------------------------------------------------------------------------

/// A flat stream accumulates no variation: feeding a frame whose intensity
/// vector equals the stored one keeps the variation sum and leaves a zero
/// difference behind.
pub proof fn lemma_flat_feed(m: StreamAnalyzerModel, img: ImageModel)
    requires
        m.wf(),
        img.wf(),
        m.size is Some ==> m.size->0 == img.width * img.height,
        m.image_intensity is Some ==> m.image_intensity->0 == spec_intensities(img.pixels),
        m.intensity_diff is Some ==> m.intensity_diff->0 == 0,
    ensures
        ({
            let (m2, accepted) = spec_feed(m, img);
            &&& accepted
            &&& m2.intensity_var_sum == m.intensity_var_sum
            &&& m2.image_intensity == Some(spec_intensities(img.pixels))
            &&& m.image_intensity is Some ==> m2.intensity_diff == Some(0i32)
        }),
{
    if m.image_intensity is Some {
        lemma_diff_self_zero(spec_intensities(img.pixels), 0);
    }
}

/// After a baseline taken over a flat stream, the reference mean is zero,
/// and the analyzer answers that the emitter works exactly when any
/// variation at all accumulates: the mean variation is positive.
pub proof fn lemma_flat_baseline(m: StreamAnalyzerModel)
    requires
        m.intensity_var_sum == 0,
        m.nbr_images > 0,
        m.ref_intensity_var_mean is None,
    ensures
        ({
            let (m2, ok) = spec_start_analyzing(m);
            &&& ok
            &&& m2.ref_intensity_var_mean == Some(0u64)
        }),
{
}

/// With a zero baseline, the decision is exactly "the mean variation is
/// positive": any stream whose accumulated variation reaches its frame
/// count is reported working.
pub proof fn lemma_zero_baseline_decision(m: StreamAnalyzerModel)
    requires
        m.ref_intensity_var_mean == Some(0u64),
        m.nbr_images > 0,
    ensures
        spec_is_ir_working(m) == Some(m.intensity_var_sum / m.nbr_images > 0),
        m.intensity_var_sum >= m.nbr_images ==> spec_is_ir_working(m) == Some(true),
        m.intensity_var_sum == 0 ==> spec_is_ir_working(m) == Some(false),
{
    if m.intensity_var_sum >= m.nbr_images {
        assert(m.intensity_var_sum / m.nbr_images >= 1) by (nonlinear_arith)
            requires
                m.nbr_images > 0,
                m.intensity_var_sum >= m.nbr_images,
        ;
    }
    if m.intensity_var_sum == 0 {
        assert(0u64 / m.nbr_images == 0);
    }
}

} // verus!

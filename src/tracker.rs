use vstd::prelude::*;

use crate::postprocess::{process_outputs, Peak, TrackingResult, ZERO_KEY};
use crate::image::{array_fits, fits, image_data, Image};
use crate::preprocess::{
    crop_and_preprocess, crop_fits, crop_fits_spec, crop_size_spec, preprocessed, BBox,
};

verus! {

/// Order key of the default score threshold, 0.25.
pub const DEFAULT_THRESHOLD_KEY: u32 = ZERO_KEY + 0x3e80_0000;

/// Sizes, scale factors and the score threshold of a tracker.
#[derive(Debug, Clone, Copy)]
pub struct VitTrackConfig {
    /// Side of the template input, in pixels.
    pub template_size: usize,
    /// Side of the search input, in pixels.
    pub search_size: usize,
    /// Side of the score grid.
    pub score_size: usize,
    /// Crop scale for the template.
    pub template_factor: u32,
    /// Crop scale for the search region.
    pub search_factor: u32,
    /// Order key of the least score that counts as tracking.
    pub score_threshold_key: u32,
}

impl VitTrackConfig {
    /// Both inputs have a positive side and fit in an array.
    pub open spec fn valid(&self) -> bool {
        &&& self.template_size > 0
        &&& self.search_size > 0
        &&& array_fits(self.template_size as int, self.template_size as int)
        &&& array_fits(self.search_size as int, self.search_size as int)
    }

    /// Whether `valid` holds.
    pub fn is_valid(&self) -> (r: bool)
        ensures
            r == self.valid(),
    {
        self.template_size > 0 && self.search_size > 0 && fits(
            self.template_size,
            self.template_size,
        ) && fits(self.search_size, self.search_size)
    }
}

impl Default for VitTrackConfig {
    fn default() -> (r: Self)
        ensures
            r.template_size == 128,
            r.search_size == 256,
            r.score_size == 16,
            r.template_factor == 2,
            r.search_factor == 4,
            r.score_threshold_key == DEFAULT_THRESHOLD_KEY,
            r.valid(),
    {
        VitTrackConfig {
            template_size: 128,
            search_size: 256,
            score_size: 16,
            template_factor: 2,
            search_factor: 4,
            score_threshold_key: DEFAULT_THRESHOLD_KEY,
        }
    }
}

/// The search input for one frame, and the side of the crop it was made from.
pub struct SearchRegion {
    pub search: Image,
    pub crop_size: i32,
}

/// What a call of `update` leaves to the caller.
pub enum UpdateStep {
    /// Nothing to infer: the tracker holds no template yet.
    Idle(TrackingResult),
    /// Run the model on the template and this search input, then hand the
    /// decoded peak to `complete_update`.
    Infer(SearchRegion),
}

/// A single-object tracker: the last known box and, once initialized, the
/// template input of the tracked object.
pub struct VitTrack {
    config: VitTrackConfig,
    template: Option<Image>,
    rect_last: [i32; 4],
}

impl VitTrack {
    pub closed spec fn spec_config(&self) -> VitTrackConfig {
        self.config
    }

    pub closed spec fn spec_template(&self) -> Option<Seq<u8>> {
        match self.template {
            Some(t) => Some(image_data(t)),
            None => None,
        }
    }

    pub closed spec fn spec_rect(&self) -> Seq<i32> {
        self.rect_last@
    }

    pub open spec fn spec_last_box(&self) -> BBox {
        BBox {
            x: self.spec_rect()[0],
            y: self.spec_rect()[1],
            width: self.spec_rect()[2],
            height: self.spec_rect()[3],
        }
    }

    pub closed spec fn wf(&self) -> bool {
        &&& self.config.valid()
        &&& self.rect_last@.len() == 4
        &&& self.template matches Some(t) ==> t.wf()
    }

    /// A tracker with no template and the empty box at the origin.
    pub fn new(config: VitTrackConfig) -> (r: Self)
        requires
            config.valid(),
        ensures
            r.wf(),
            r.spec_config() == config,
            r.spec_template().is_none(),
            r.spec_rect() == seq![0i32, 0, 0, 0],
    {
        let r = VitTrack { config, template: None, rect_last: [0, 0, 0, 0] };
        assert(r.rect_last@ =~= seq![0i32, 0, 0, 0]);
        r
    }

    /// Take the object in `bbox` on `image` as the one to track: the box
    /// becomes the last known one and the template is cut around it. Any
    /// earlier state is dropped.
    pub fn init(&mut self, image: &Image, bbox: BBox)
        requires
            old(self).wf(),
            image.wf(),
            crop_fits_spec(bbox, old(self).spec_config().template_factor as int),
        ensures
            final(self).wf(),
            final(self).spec_config() == old(self).spec_config(),
            final(self).spec_rect() == bbox.as_seq(),
            final(self).spec_template() == Some(
                preprocessed(
                    *image,
                    bbox,
                    crop_size_spec(bbox.area_spec(), old(self).spec_config().template_factor as int),
                    old(self).spec_config().template_size as int,
                ),
            ),
    {
        self.rect_last = bbox.to_array();
        let (template, _crop_size) = crop_and_preprocess(
            image,
            &bbox,
            self.config.template_factor,
            self.config.template_size,
        );
        self.template = Some(template);
    }

    /// `init` with the box given by its fields.
    pub fn init_with_rect(&mut self, image: &Image, x: i32, y: i32, w: i32, h: i32)
        requires
            old(self).wf(),
            image.wf(),
            crop_fits_spec(BBox { x, y, width: w, height: h }, old(self).spec_config().template_factor as int),
        ensures
            final(self).wf(),
            final(self).spec_config() == old(self).spec_config(),
            final(self).spec_rect() == seq![x, y, w, h],
            final(self).spec_template() == Some(
                preprocessed(
                    *image,
                    BBox { x, y, width: w, height: h },
                    crop_size_spec(w * h, old(self).spec_config().template_factor as int),
                    old(self).spec_config().template_size as int,
                ),
            ),
    {
        self.init(image, BBox::new(x, y, w, h));
    }

    /// The search crop around the last known box can be laid out in memory.
    pub open spec fn search_fits(&self) -> bool {
        crop_fits_spec(self.spec_last_box(), self.spec_config().search_factor as int)
    }

    /// Whether `search_fits` holds.
    pub fn can_search(&self) -> (r: bool)
        requires
            self.wf(),
        ensures
            r == self.search_fits(),
    {
        let bbox: BBox = BBox::from_array(&self.rect_last);
        crop_fits(&bbox, self.config.search_factor)
    }

    /// First half of tracking a frame. Without a template it reports that
    /// nothing is tracked. Otherwise it cuts the search input around the last
    /// known box, for the caller to run the model on. The tracker is left
    /// unchanged either way.
    pub fn update(&self, image: &Image) -> (r: UpdateStep)
        requires
            self.wf(),
            image.wf(),
            self.search_fits(),
        ensures
            self.spec_template().is_none() ==> (r matches UpdateStep::Idle(res) && res.is_idle()),
            self.spec_template().is_some() ==> (r matches UpdateStep::Infer(region) && region.crop_size
                == crop_size_spec(
                self.spec_last_box().area_spec(),
                self.spec_config().search_factor as int,
            ) && region.search.wf() && image_data(region.search) == preprocessed(
                *image,
                self.spec_last_box(),
                region.crop_size as int,
                self.spec_config().search_size as int,
            )),
    {
        match &self.template {
            None => UpdateStep::Idle(TrackingResult::default()),
            Some(_) => {
                let bbox: BBox = BBox::from_array(&self.rect_last);
                assert(bbox == self.spec_last_box());
                let (search, crop_size) = crop_and_preprocess(
                    image,
                    &bbox,
                    self.config.search_factor,
                    self.config.search_size,
                );
                UpdateStep::Infer(SearchRegion { search, crop_size })
            },
        }
    }

    /// Second half of tracking a frame: settle it from the peak of the
    /// windowed scores and the box decoded at that peak. The result's box
    /// becomes the last known one: the decoded box if the peak reaches the
    /// threshold, the previous box otherwise.
    pub fn complete_update(&mut self, peak: &Peak, candidate: [i32; 4]) -> (r: TrackingResult)
        requires
            old(self).wf(),
        ensures
            final(self).wf(),
            final(self).spec_config() == old(self).spec_config(),
            final(self).spec_template() == old(self).spec_template(),
            r.success == (peak.score_key >= old(self).spec_config().score_threshold_key),
            r.score_key == peak.score_key,
            r.bbox@ == if r.success {
                candidate@
            } else {
                old(self).spec_rect()
            },
            final(self).spec_rect() == r.bbox@,
    {
        let result: TrackingResult = process_outputs(
            peak,
            self.config.score_threshold_key,
            candidate,
            self.rect_last,
        );
        self.rect_last = result.bbox;
        result
    }

    /// The last known box, `[x, y, width, height]`.
    pub fn get_bbox(&self) -> (r: [i32; 4])
        ensures
            r@ == self.spec_rect(),
    {
        self.rect_last
    }

    /// Whether a template has been taken.
    pub fn is_initialized(&self) -> (r: bool)
        ensures
            r == self.spec_template().is_some(),
    {
        self.template.is_some()
    }

    /// The template input, once initialized.
    pub fn template(&self) -> (r: &Option<Image>)
        requires
            self.wf(),
        ensures
            self.spec_template().is_none() ==> r.is_none(),
            self.spec_template() matches Some(t) ==> (r matches Some(v) && v.wf() && image_data(*v)
                == t),
    {
        &self.template
    }

    /// The configuration.
    pub fn config(&self) -> (r: VitTrackConfig)
        ensures
            r == self.spec_config(),
    {
        self.config
    }
}

} // verus!

//! The picture grids of a request, as far as they are looked at.
use candle_core::Tensor;
use vstd::prelude::*;

use crate::error::ModelError;
use crate::grid::{read_wide_grid, Thw};
use crate::positions::split_frames;
use crate::tensor::{read_dims, read_element, read_matrix, read_room, Element};

verus! {

/// The grids of a request: one for each image, and one for each frame of its videos. A grid
/// tensor that cannot serve counts only once a picture asks for it.
pub struct PictureGrids {
    pub images: Vec<Thw>,
    pub frames: Vec<Thw>,
    /// Why the image grid cannot serve, if it cannot.
    pub image_fault: Option<ModelError>,
    /// Whether the rows of the video grid are too short to serve.
    pub short_videos: bool,
}

/// The image grids that can serve.
pub open spec fn image_list(t: Option<&Tensor>) -> Seq<Thw> {
    match t {
        None => Seq::empty(),
        Some(t) => if crate::grid::is_wide(*t) {
            crate::grid::grids_in(*t)
        } else {
            Seq::empty()
        },
    }
}

/// The frame grids that can serve.
pub open spec fn frame_list(t: Option<&Tensor>) -> Seq<Thw> {
    match t {
        None => Seq::empty(),
        Some(t) => if crate::grid::is_wide(*t) {
            crate::positions::frames(crate::grid::grids_in(*t))
        } else {
            Seq::empty()
        },
    }
}

/// A video grid can be taken apart frame by frame, where it is there: it tells the number of
/// frames of every video.
pub open spec fn videos_read(t: Option<&Tensor>) -> bool {
    t matches Some(t) ==> {
        &&& crate::tensor::holds_u32(*t, 2)
        &&& crate::tensor::tensor_dims(*t)[1] > 0
        &&& crate::positions::has_frames(crate::grid::grids_in(*t))
    }
}

/// A video grid cannot be taken apart frame by frame, for the given reason.
pub open spec fn videos_refused(t: Option<&Tensor>, e: ModelError) -> bool {
    t matches Some(t) && {
        ||| crate::tensor::refused(*t, 2, e)
        ||| {
            &&& crate::tensor::holds_u32(*t, 2)
            &&& if crate::tensor::tensor_dims(*t)[1] == 0 {
                e == ModelError::GridWidth
            } else {
                !crate::positions::has_frames(crate::grid::grids_in(*t)) && e
                    == ModelError::EmptyVideo
            }
        }
    }
}

/// An image grid in the memory of another device cannot be brought to the host, for the given
/// reason. It is brought there before anything is placed.
pub open spec fn images_refused(t: Option<&Tensor>, e: ModelError) -> bool {
    t matches Some(t) && {
        &&& crate::tensor::tensor_element(*t) == Element::U32
        &&& crate::tensor::tensor_room(*t) is None
        &&& crate::grid::refused_wide(*t, e)
    }
}

/// What a request is refused for, where placing its pictures was refused for `x`: a grid that
/// is missing because it cannot serve is refused for that.
pub open spec fn settled(
    x: ModelError,
    images: Option<&Tensor>,
    videos: Option<&Tensor>,
    e: ModelError,
) -> bool {
    if x == ModelError::MissingImageGrid && (images matches Some(t) && !crate::grid::is_wide(*t)) {
        crate::grid::refused_wide(*images->0, e)
    } else if x == ModelError::MissingVideoGrid && (videos matches Some(t)
        && crate::tensor::tensor_dims(*t)[1] < 3) {
        e == ModelError::GridWidth
    } else {
        e == x
    }
}

/// Whether there is a video, and every video has a frame.
fn tells_frames(rows: &Vec<Vec<u32>>) -> (r: bool)
    requires
        forall|i: int| 0 <= i < rows.deep_view().len() ==> (#[trigger] rows.deep_view()[i]).len()
            >= 1,
    ensures
        r == crate::positions::has_frames(crate::grid::grids_of(rows.deep_view())),
{
    let ghost grids = crate::grid::grids_of(rows.deep_view());
    if rows.len() == 0 {
        return false;
    }
    let mut i: usize = 0;
    while i < rows.len()
        invariant
            forall|i: int|
                0 <= i < rows.deep_view().len() ==> (#[trigger] rows.deep_view()[i]).len() >= 1,
            rows.deep_view().len() == rows@.len(),
            grids == crate::grid::grids_of(rows.deep_view()),
            i <= rows@.len(),
            forall|k: int| 0 <= k < i ==> (#[trigger] grids[k]).t > 0,
        decreases rows@.len() - i,
    {
        let row = &rows[i];
        assert(rows.deep_view()[i as int] =~= row@);
        assert(grids[i as int].t == row@[0]);
        if row[0] == 0 {
            return false;
        }
        i = i + 1;
    }
    true
}

impl PictureGrids {
    /// These are the grids of the given tensors.
    pub open spec fn read_from(self, images: Option<&Tensor>, videos: Option<&Tensor>) -> bool {
        &&& videos_read(videos)
        &&& self.images@ == image_list(images)
        &&& self.frames@ == frame_list(videos)
        &&& match self.image_fault {
            None => images matches Some(t) ==> crate::grid::is_wide(*t),
            Some(e) => images matches Some(t) && !crate::grid::is_wide(*t)
                && crate::grid::refused_wide(*t, e),
        }
        &&& self.short_videos == (videos matches Some(t) && crate::tensor::tensor_dims(*t)[1] < 3)
    }

    /// Reads the grid tensors of a request.
    pub fn read(images: Option<&Tensor>, videos: Option<&Tensor>) -> (r: Result<
        PictureGrids,
        ModelError,
    >)
        ensures
            match r {
                Ok(g) => g.read_from(images, videos),
                Err(e) => images_refused(images, e) || videos_refused(videos, e),
            },
    {
        let mut frames: Vec<Thw> = Vec::new();
        let mut short_videos = false;
        if let Some(t) = videos {
            let rows = match read_matrix(t) {
                Ok(rows) => rows,
                Err(e) => return Err(e),
            };
            let dims = read_dims(t);
            if dims[1] == 0 {
                return Err(ModelError::GridWidth);
            }
            if !tells_frames(&rows) {
                return Err(ModelError::EmptyVideo);
            }
            if dims[1] < 3 {
                short_videos = true;
            } else {
                match read_wide_grid(t) {
                    Ok(g) => match split_frames(&g) {
                        Ok(f) => {
                            frames = f;
                        },
                        Err(e) => return Err(e),
                    },
                    Err(e) => return Err(e),
                }
            }
        }
        let mut list: Vec<Thw> = Vec::new();
        let mut image_fault: Option<ModelError> = None;
        if let Some(t) = images {
            match read_wide_grid(t) {
                Ok(g) => {
                    list = g;
                },
                Err(e) => {
                    if read_element(t) == Element::U32 && read_room(t).is_none() {
                        return Err(e);
                    }
                    image_fault = Some(e);
                },
            }
        }
        Ok(PictureGrids { images: list, frames, image_fault, short_videos })
    }

    /// What a request is refused for, where placing its pictures was refused for `x`.
    pub fn settle(
        self,
        x: ModelError,
        images: Option<&Tensor>,
        videos: Option<&Tensor>,
    ) -> (e: ModelError)
        requires
            self.read_from(images, videos),
        ensures
            settled(x, images, videos, e),
    {
        match x {
            ModelError::MissingImageGrid => match self.image_fault {
                Some(e) => e,
                None => ModelError::MissingImageGrid,
            },
            ModelError::MissingVideoGrid => if self.short_videos {
                ModelError::GridWidth
            } else {
                ModelError::MissingVideoGrid
            },
            other => other,
        }
    }
}

/// Each row of an image grid is one image.
pub proof fn images_are_read_row_by_row(t: Tensor, i: int)
    requires
        crate::grid::is_wide(t),
        0 <= i < crate::tensor::tensor_dims(t)[0],
    ensures
        ({
            let e = crate::tensor::tensor_elements(t);
            let n = crate::tensor::tensor_dims(t)[1] as int;
            let list = image_list(Some(&t));
            &&& image_list(None).len() == 0
            &&& list.len() == crate::tensor::tensor_dims(t)[0]
            &&& list[i].t == e[i * n]
            &&& list[i].h == e[i * n + 1]
            &&& list[i].w == e[i * n + 2]
        }),
{
    crate::grid::a_row_is_time_height_width(t, i);
}

/// Each row of a video grid is as many pictures as the video has frames, each of a single frame
/// and of the video's height and width.
pub proof fn videos_are_read_frame_by_frame(t: Tensor, i: int, f: int)
    requires
        crate::grid::is_wide(t),
        0 <= i < crate::tensor::tensor_dims(t)[0],
        0 <= f < crate::tensor::tensor_elements(t)[i * crate::tensor::tensor_dims(t)[1]],
    ensures
        ({
            let e = crate::tensor::tensor_elements(t);
            let n = crate::tensor::tensor_dims(t)[1] as int;
            let list = frame_list(Some(&t));
            let at = crate::grid::frames_up_to(crate::grid::grids_in(t), i as nat) + f;
            &&& frame_list(None).len() == 0
            &&& 0 <= at < list.len()
            &&& list[at].t == 1
            &&& list[at].h == e[i * n + 1]
            &&& list[at].w == e[i * n + 2]
        }),
{
    crate::grid::a_row_is_time_height_width(t, i);
    crate::positions::frames_keep_their_sides(crate::grid::grids_in(t), i, f);
}

/// A fault of a prompt is reported as it is. Only a grid that is missing because its tensor
/// cannot serve is reported as the fault of that tensor.
pub proof fn faults_are_reported_as_they_are(
    x: ModelError,
    images: Option<&Tensor>,
    videos: Option<&Tensor>,
    e: ModelError,
)
    requires
        settled(x, images, videos, e),
    ensures
        x != ModelError::MissingImageGrid && x != ModelError::MissingVideoGrid ==> e == x,
        x == ModelError::MissingImageGrid && images is None ==> e == x,
        x == ModelError::MissingVideoGrid && videos is None ==> e == x,
        x == ModelError::MissingImageGrid && (images matches Some(t) && crate::grid::is_wide(*t))
            ==> e == x,
        x == ModelError::MissingVideoGrid && (videos matches Some(t)
            && crate::tensor::tensor_dims(*t)[1] >= 3) ==> e == x,
        x == ModelError::MissingVideoGrid && (videos matches Some(t)
            && crate::tensor::tensor_dims(*t)[1] < 3) ==> e == ModelError::GridWidth,
{
}

/// A video grid tells the number of frames of every video, and there is none without a frame.
pub proof fn every_video_has_a_frame(t: Tensor, i: int)
    requires
        crate::grid::is_wide(t),
    ensures
        videos_read(None),
        videos_read(Some(&t)) && 0 <= i < crate::tensor::tensor_dims(t)[0]
            ==> crate::tensor::tensor_elements(t)[i * crate::tensor::tensor_dims(t)[1]] > 0,
        !videos_read(Some(&t)) ==> crate::tensor::tensor_dims(t)[0] == 0 || exists|k: int|
            0 <= k < crate::tensor::tensor_dims(t)[0] && #[trigger] crate::grid::grids_in(t)[k].t
                == 0,
{
    let grids = crate::grid::grids_in(t);
    assert(grids.len() == crate::tensor::tensor_dims(t)[0]);
    if 0 <= i < crate::tensor::tensor_dims(t)[0] {
        crate::grid::a_row_is_time_height_width(t, i);
        if videos_read(Some(&t)) {
            assert(grids[i].t > 0);
        }
    }
}

/// Grids that can be read are not refused: an image grid whatever it holds, and a video grid
/// where every video has a frame.
pub proof fn readable_grids_are_not_refused(t: Tensor, e: ModelError)
    requires
        crate::tensor::readable(t),
        crate::tensor::tensor_dims(t).len() == 2,
    ensures
        !images_refused(Some(&t), e),
        !images_refused(None, e),
        !videos_refused(None, e),
        videos_read(Some(&t)) ==> !videos_refused(Some(&t), e),
        crate::tensor::tensor_dims(t)[1] >= 3 ==> !crate::grid::refused_wide(t, e),
{
}

} // verus!

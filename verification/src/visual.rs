//! Joining the image and the video tokens of a prompt.
use vstd::prelude::*;

use crate::error::ModelError;
use crate::marks::MarkRows;

verus! {

/// Where the deep visual features of the marked tokens come from.
#[derive(Debug)]
pub enum VisualSource {
    Image,
    Video,
    /// Both: image row `i` is row `image_rows[i]` of the joint features, and video row `i`
    /// is row `video_rows[i]`.
    Joint { rows: usize, image_rows: Vec<u32>, video_rows: Vec<u32> },
}

/// The visual tokens of a batch and the source of their features.
#[derive(Debug)]
pub struct VisualPlan {
    pub marks: MarkRows,
    pub source: VisualSource,
}

/// Where deep visual features come from, as a value.
pub enum SourceView {
    Image,
    Video,
    Joint { rows: nat, image_rows: Seq<nat>, video_rows: Seq<nat> },
}

/// The visual tokens of a batch and their features, as a value.
pub struct VisualView {
    pub marks: Seq<Seq<bool>>,
    pub source: SourceView,
}

/// Indices as natural numbers.
pub open spec fn nats(s: Seq<u32>) -> Seq<nat> {
    s.map_values(|x: u32| x as nat)
}

impl VisualPlan {
    /// The marks, row by row, and where the features come from.
    pub open spec fn summary(self) -> VisualView {
        VisualView {
            marks: self.marks.cells(),
            source: match self.source {
                VisualSource::Image => SourceView::Image,
                VisualSource::Video => SourceView::Video,
                VisualSource::Joint { rows, image_rows, video_rows } => SourceView::Joint {
                    rows: rows as nat,
                    image_rows: nats(image_rows@),
                    video_rows: nats(video_rows@),
                },
            },
        }
    }
}

/// The tokens that are marked in one row or the other.
pub open spec fn either(a: Seq<bool>, b: Seq<bool>) -> Seq<bool> {
    Seq::new(a.len(), |j: int| a[j] || b[j])
}

/// For each marked token, how many visual tokens stand before it.
pub open spec fn ranks(visual: Seq<bool>, marks: Seq<bool>) -> Seq<nat>
    decreases marks.len(),
{
    if marks.len() == 0 {
        Seq::empty()
    } else if marks.last() {
        ranks(visual.drop_last(), marks.drop_last()).push(
            crate::marks::count(visual.drop_last()),
        )
    } else {
        ranks(visual.drop_last(), marks.drop_last())
    }
}

/// The joint features of a single prompt that holds images and videos.
pub open spec fn joint(image: Seq<bool>, video: Seq<bool>) -> VisualView {
    let visual = either(image, video);
    VisualView {
        marks: seq![visual],
        source: SourceView::Joint {
            rows: crate::marks::count(visual),
            image_rows: ranks(visual, image),
            video_rows: ranks(visual, video),
        },
    }
}

/// The visual tokens of a batch. Images and videos are joined for a single prompt only.
pub open spec fn merged(image: Option<Seq<Seq<bool>>>, video: Option<Seq<Seq<bool>>>) -> Result<
    Option<VisualView>,
    ModelError,
> {
    match (image, video) {
        (Some(i), Some(v)) => if i.len() != 1 {
            Err(ModelError::ShapeMismatch)
        } else {
            Ok(Some(joint(i[0], v[0])))
        },
        (Some(i), None) => Ok(Some(VisualView { marks: i, source: SourceView::Image })),
        (None, Some(v)) => Ok(Some(VisualView { marks: v, source: SourceView::Video })),
        (None, None) => Ok(None),
    }
}

/// The marks of an optional mark matrix.
pub open spec fn owned_marks(marks: Option<MarkRows>) -> Option<Seq<Seq<bool>>> {
    match marks {
        None => None,
        Some(m) => Some(m.cells()),
    }
}

/// The plan of an optional visual plan.
pub open spec fn plan_view(plan: Option<VisualPlan>) -> Option<VisualView> {
    match plan {
        None => None,
        Some(p) => Some(p.summary()),
    }
}

fn join_rows(image: &Vec<bool>, video: &Vec<bool>) -> (r: VisualPlan)
    requires
        image@.len() == video@.len(),
        image@.len() <= u32::MAX,
    ensures
        r.summary() == joint(image@, video@),
        r.marks.wf(),
        r.marks.width == image@.len(),
{
    let ghost visual = either(image@, video@);
    let mut marks: Vec<bool> = Vec::new();
    let mut image_rows: Vec<u32> = Vec::new();
    let mut video_rows: Vec<u32> = Vec::new();
    let mut rows: u32 = 0;
    let mut j: usize = 0;
    assert(nats(image_rows@) =~= Seq::empty());
    assert(nats(video_rows@) =~= Seq::empty());
    while j < image.len()
        invariant
            image@.len() == video@.len(),
            image@.len() <= u32::MAX,
            visual == either(image@, video@),
            j <= image@.len(),
            rows <= j,
            marks@ == visual.take(j as int),
            rows == crate::marks::count(visual.take(j as int)),
            nats(image_rows@) == ranks(visual.take(j as int), image@.take(j as int)),
            nats(video_rows@) == ranks(visual.take(j as int), video@.take(j as int)),
        decreases image@.len() - j,
    {
        proof {
            assert(visual.take(j + 1).drop_last() =~= visual.take(j as int));
            assert(image@.take(j + 1).drop_last() =~= image@.take(j as int));
            assert(video@.take(j + 1).drop_last() =~= video@.take(j as int));
        }
        let ghost was_image = image_rows@;
        let ghost was_video = video_rows@;
        if image[j] {
            image_rows.push(rows);
            assert(nats(image_rows@) =~= nats(was_image).push(rows as nat));
        }
        if video[j] {
            video_rows.push(rows);
            assert(nats(video_rows@) =~= nats(was_video).push(rows as nat));
        }
        let seen = image[j] || video[j];
        marks.push(seen);
        assert(marks@ =~= visual.take(j + 1));
        if seen {
            rows = rows + 1;
        }
        j = j + 1;
    }
    assert(visual.take(j as int) =~= visual);
    assert(image@.take(j as int) =~= image@);
    assert(video@.take(j as int) =~= video@);
    let width: usize = marks.len();
    let mut all: Vec<Vec<bool>> = Vec::new();
    all.push(marks);
    let out = MarkRows { rows: all, width };
    assert(out.cells() =~= seq![visual]) by {
        assert(out.rows@[0].deep_view() =~= visual);
    }
    VisualPlan {
        marks: out,
        source: VisualSource::Joint { rows: rows as usize, image_rows, video_rows },
    }
}

/// Joins the image and the video tokens of a batch.
pub fn merge_visual(image: Option<MarkRows>, video: Option<MarkRows>) -> (r: Result<
    Option<VisualPlan>,
    ModelError,
>)
    requires
        image matches Some(m) ==> m.wf() && m.width <= u32::MAX,
        video matches Some(m) ==> m.wf() && m.width <= u32::MAX,
        (image is Some && video is Some) ==> image->0.width == video->0.width && image->0.cells().len()
            == video->0.cells().len(),
    ensures
        match r {
            Ok(p) => merged(owned_marks(image), owned_marks(video)) == Ok::<
                Option<VisualView>,
                ModelError,
            >(plan_view(p)),
            Err(e) => merged(owned_marks(image), owned_marks(video)) == Err::<
                Option<VisualView>,
                ModelError,
            >(e),
        },
        r matches Ok(Some(p)) ==> p.marks.wf() && (image matches Some(m) ==> p.marks.width
            == m.width) && (video matches Some(m) ==> p.marks.width == m.width),
{
    match (image, video) {
        (Some(i), Some(v)) => {
            if i.rows.len() != 1 {
                return Err(ModelError::ShapeMismatch);
            }
            assert(i.cells()[0] =~= i.rows@[0]@);
            assert(v.cells()[0] =~= v.rows@[0]@);
            Ok(Some(join_rows(&i.rows[0], &v.rows[0])))
        },
        (Some(i), None) => Ok(Some(VisualPlan { marks: i, source: VisualSource::Image })),
        (None, Some(v)) => Ok(Some(VisualPlan { marks: v, source: VisualSource::Video })),
        (None, None) => Ok(None),
    }
}

/// Every marked token has its own row among the visual ones: there are as many rows as
/// marks, they ascend, and they stay below the number of visual tokens.
pub proof fn ranks_ascend(visual: Seq<bool>, marks: Seq<bool>)
    requires
        visual.len() == marks.len(),
        forall|j: int| 0 <= j < marks.len() && #[trigger] marks[j] ==> visual[j],
    ensures
        ranks(visual, marks).len() == crate::marks::count(marks),
        forall|i: int|
            0 <= i < ranks(visual, marks).len() ==> #[trigger] ranks(visual, marks)[i]
                < crate::marks::count(visual),
        forall|i: int, j: int|
            0 <= i < j < ranks(visual, marks).len() ==> #[trigger] ranks(visual, marks)[i]
                < #[trigger] ranks(visual, marks)[j],
    decreases marks.len(),
{
    if marks.len() > 0 {
        let v = visual.drop_last();
        let m = marks.drop_last();
        assert forall|j: int| 0 <= j < m.len() && #[trigger] m[j] implies v[j] by {
            assert(marks[j]);
        }
        ranks_ascend(v, m);
        if marks.last() {
            assert(marks[marks.len() - 1]);
            assert(visual.last());
        }
    }
}

/// Every row of the joint features belongs to an image token or to a video token, and to
/// only one of them where no token is both.
pub proof fn joint_rows_partition(image: Seq<bool>, video: Seq<bool>, k: nat)
    requires
        image.len() == video.len(),
        k < crate::marks::count(either(image, video)),
    ensures
        ranks(either(image, video), image).contains(k) || ranks(
            either(image, video),
            video,
        ).contains(k),
        (forall|j: int| 0 <= j < image.len() ==> !(#[trigger] image[j] && video[j])) ==> !(ranks(
            either(image, video),
            image,
        ).contains(k) && ranks(either(image, video), video).contains(k)),
    decreases image.len(),
{
    let visual = either(image, video);
    if image.len() > 0 {
        let i = image.drop_last();
        let v = video.drop_last();
        let head = either(i, v);
        assert(visual.drop_last() =~= head);
        assert(visual.last() == (image.last() || video.last()));
        let n = crate::marks::count(head);
        let ri = ranks(head, i);
        let rv = ranks(head, v);
        ranks_ascend(head, i);
        ranks_ascend(head, v);
        let all_i = ranks(visual, image);
        let all_v = ranks(visual, video);
        assert(all_i == if image.last() {
            ri.push(n)
        } else {
            ri
        });
        assert(all_v == if video.last() {
            rv.push(n)
        } else {
            rv
        });
        let disjoint = forall|j: int| 0 <= j < image.len() ==> !(#[trigger] image[j] && video[j]);
        if k < n {
            joint_rows_partition(i, v, k);
            if ri.contains(k) {
                let p = ri.index_of(k);
                assert(all_i[p] == k);
            }
            if rv.contains(k) {
                let p = rv.index_of(k);
                assert(all_v[p] == k);
            }
            if disjoint {
                assert forall|j: int| 0 <= j < i.len() implies !(#[trigger] i[j] && v[j]) by {
                    assert(!(image[j] && video[j]));
                }
                if all_i.contains(k) {
                    let p = all_i.index_of(k);
                    assert(ri[p] == k);
                }
                if all_v.contains(k) {
                    let p = all_v.index_of(k);
                    assert(rv[p] == k);
                }
            }
        } else {
            assert(k == n);
            if image.last() {
                assert(all_i[ri.len() as int] == k);
            }
            if video.last() {
                assert(all_v[rv.len() as int] == k);
            }
            if disjoint {
                assert(!(image[image.len() - 1] && video[image.len() - 1]));
                if !image.last() && all_i.contains(k) {
                    let p = all_i.index_of(k);
                    assert(ri[p] < n);
                }
                if !video.last() && all_v.contains(k) {
                    let p = all_v.index_of(k);
                    assert(rv[p] < n);
                }
            }
        }
    }
}

/// Tokens of two different kinds never share a mark.
pub proof fn kinds_are_disjoint(ids: Seq<Seq<u32>>, a: u32, b: u32, i: int, j: int)
    requires
        a != b,
        0 <= i < ids.len(),
        0 <= j < ids[i].len(),
    ensures
        !(crate::marks::marks_of(ids, a)[i][j] && crate::marks::marks_of(ids, b)[i][j]),
{
}

/// The joint features have a row for every image token and every video token, where no token
/// is both.
pub proof fn joint_rows_add_up(image: Seq<bool>, video: Seq<bool>)
    requires
        image.len() == video.len(),
        forall|j: int| 0 <= j < image.len() ==> !(#[trigger] image[j] && video[j]),
    ensures
        crate::marks::count(either(image, video)) == crate::marks::count(image)
            + crate::marks::count(video),
    decreases image.len(),
{
    if image.len() > 0 {
        let i = image.drop_last();
        let v = video.drop_last();
        assert forall|j: int| 0 <= j < i.len() implies !(#[trigger] i[j] && v[j]) by {
            assert(!(image[j] && video[j]));
        }
        joint_rows_add_up(i, v);
        assert(either(image, video).drop_last() =~= either(i, v));
        assert(!(image[image.len() - 1] && video[image.len() - 1]));
    }
}

/// The row of a marked token among the joint features is the number of visual tokens before
/// it, so that image and video rows stand in the order of their tokens.
pub proof fn joint_rows_follow_the_tokens(visual: Seq<bool>, marks: Seq<bool>, j: int)
    requires
        visual.len() == marks.len(),
        0 <= j < marks.len(),
        marks[j],
    ensures
        ranks(visual, marks).len() == crate::marks::count(marks),
        crate::marks::count(marks.take(j)) < ranks(visual, marks).len(),
        ranks(visual, marks)[crate::marks::count(marks.take(j)) as int] == crate::marks::count(
            visual.take(j),
        ),
    decreases marks.len(),
{
    let v = visual.drop_last();
    let m = marks.drop_last();
    lemma_ranks_len(visual, marks);
    lemma_ranks_len(v, m);
    if j < m.len() {
        joint_rows_follow_the_tokens(v, m, j);
        assert(m.take(j) =~= marks.take(j));
        assert(v.take(j) =~= visual.take(j));
    } else {
        assert(marks.take(j) =~= m);
        assert(visual.take(j) =~= v);
    }
}

proof fn lemma_ranks_len(visual: Seq<bool>, marks: Seq<bool>)
    ensures
        ranks(visual, marks).len() == crate::marks::count(marks),
    decreases marks.len(),
{
    if marks.len() > 0 {
        lemma_ranks_len(visual.drop_last(), marks.drop_last());
    }
}

/// What visual tokens come from: a single kind keeps its marks and its features; both kinds
/// are joined for one prompt, where a token is visual just if it is of either kind, and there
/// is a row for each; both kinds in a batch of another size are refused.
pub proof fn kinds_are_joined(
    image: Option<Seq<Seq<bool>>>,
    video: Option<Seq<Seq<bool>>>,
    j: int,
)
    ensures
        match (image, video) {
            (None, None) => merged(image, video) == Ok::<Option<VisualView>, ModelError>(None),
            (Some(i), None) => merged(image, video) matches Ok(Some(v)) && v.marks == i && v.source
                == SourceView::Image,
            (None, Some(m)) => merged(image, video) matches Ok(Some(v)) && v.marks == m && v.source
                == SourceView::Video,
            (Some(i), Some(m)) => if i.len() == 1 {
                merged(image, video) matches Ok(Some(v)) && {
                    &&& v.marks.len() == 1
                    &&& v.marks[0].len() == i[0].len()
                    &&& 0 <= j < i[0].len() ==> v.marks[0][j] == (i[0][j] || m[0][j])
                    &&& v.source matches SourceView::Joint { rows, image_rows, video_rows } && rows
                        == crate::marks::count(v.marks[0]) && image_rows == ranks(
                        v.marks[0],
                        i[0],
                    ) && video_rows == ranks(v.marks[0], m[0])
                }
            } else {
                merged(image, video) == Err::<Option<VisualView>, ModelError>(
                    ModelError::ShapeMismatch,
                )
            },
        },
{
}

/// A plan shows its marks and, where images and videos are joined, the row of each feature as
/// it is stored.
pub proof fn plans_are_shown_as_they_are(p: VisualPlan, i: int)
    ensures
        plan_view(None) is None,
        owned_marks(None) is None,
        owned_marks(Some(p.marks)) == Some(p.marks.cells()),
        plan_view(Some(p)) matches Some(v) && {
            &&& v.marks == p.marks.cells()
            &&& p.source is Image <==> v.source is Image
            &&& p.source is Video <==> v.source is Video
            &&& p.source matches VisualSource::Joint { rows, image_rows, video_rows }
                ==> v.source matches SourceView::Joint { rows: n, image_rows: a, video_rows: b } && {
                &&& n == rows
                &&& a.len() == image_rows@.len()
                &&& b.len() == video_rows@.len()
                &&& 0 <= i < a.len() ==> a[i] == image_rows@[i]
                &&& 0 <= i < b.len() ==> b[i] == video_rows@[i]
            }
        },
{
}

} // verus!

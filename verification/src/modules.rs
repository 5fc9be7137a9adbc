//! Which layer is built under which path, and how large it is.
use vstd::prelude::*;

use crate::weights::glue;

verus! {

/// The kind and the size of a layer.
#[derive(Debug)]
pub enum ModuleShape {
    /// A bare tensor of the given dimensions.
    Tensor(Vec<usize>),
    /// A layer norm over so many features.
    LayerNorm(usize),
    /// A root-mean-square norm over so many features.
    RmsNorm(usize),
    /// A linear layer with a bias.
    Linear { inputs: usize, outputs: usize },
    /// A linear layer without a bias.
    LinearNoBias { inputs: usize, outputs: usize },
    /// A table of so many rows.
    Embedding { entries: usize, width: usize },
    /// A decoder layer of the language model.
    DecoderLayer,
}

/// Build a layer under a path.
#[derive(Debug)]
pub struct ModuleRequest {
    pub path: String,
    pub shape: ModuleShape,
}

/// The kind and the size of a layer, as a value.
pub enum ShapeView {
    Tensor(Seq<usize>),
    LayerNorm(usize),
    RmsNorm(usize),
    Linear { inputs: usize, outputs: usize },
    LinearNoBias { inputs: usize, outputs: usize },
    Embedding { entries: usize, width: usize },
    DecoderLayer,
}

/// A layer under a path, as a value.
pub struct ModuleView {
    pub path: Seq<char>,
    pub shape: ShapeView,
}

impl View for ModuleShape {
    type V = ShapeView;

    open spec fn view(&self) -> ShapeView {
        match *self {
            ModuleShape::Tensor(d) => ShapeView::Tensor(d@),
            ModuleShape::LayerNorm(n) => ShapeView::LayerNorm(n),
            ModuleShape::RmsNorm(n) => ShapeView::RmsNorm(n),
            ModuleShape::Linear { inputs, outputs } => ShapeView::Linear { inputs, outputs },
            ModuleShape::LinearNoBias { inputs, outputs } => ShapeView::LinearNoBias {
                inputs,
                outputs,
            },
            ModuleShape::Embedding { entries, width } => ShapeView::Embedding { entries, width },
            ModuleShape::DecoderLayer => ShapeView::DecoderLayer,
        }
    }
}

impl View for ModuleRequest {
    type V = ModuleView;

    open spec fn view(&self) -> ModuleView {
        ModuleView { path: self.path@, shape: self.shape@ }
    }
}

/// The requests of a list.
pub open spec fn requests(list: Seq<ModuleRequest>) -> Seq<ModuleView> {
    list.map_values(|m: ModuleRequest| m@)
}

/// Adds a request to a list.
pub(crate) fn push_module(list: &mut Vec<ModuleRequest>, path: String, shape: ModuleShape)
    ensures
        requests(final(list)@) == requests(old(list)@).push(
            ModuleView { path: path@, shape: shape@ },
        ),
{
    let ghost was = list@;
    let ghost added = ModuleView { path: path@, shape: shape@ };
    list.push(ModuleRequest { path, shape });
    assert(requests(list@) =~= requests(was).push(added));
}

/// Puts two lists of requests together.
pub(crate) fn extend_modules(list: &mut Vec<ModuleRequest>, more: Vec<ModuleRequest>)
    ensures
        requests(final(list)@) == requests(old(list)@) + requests(more@),
{
    let ghost was = list@;
    let ghost tail = more@;
    let mut rest = more;
    list.append(&mut rest);
    assert(requests(list@) =~= requests(was) + requests(tail));
}

/// The same layers under a longer path.
pub open spec fn nested(prefix: Seq<char>, list: Seq<ModuleView>) -> Seq<ModuleView> {
    list.map_values(|m: ModuleView| ModuleView { path: prefix + m.path, shape: m.shape })
}

/// Puts layers under a longer path.
pub(crate) fn nest_modules(prefix: &str, list: Vec<ModuleRequest>) -> (r: Vec<ModuleRequest>)
    ensures
        requests(r@) == nested(prefix@, requests(list@)),
{
    let ghost want = nested(prefix@, requests(list@));
    let n: usize = list.len();
    let mut list = list;
    let ghost all = list@;
    let mut out: Vec<ModuleRequest> = Vec::new();
    let mut i: usize = 0;
    assert(requests(out@) =~= want.take(0));
    while i < list.len()
        invariant
            n == list@.len(),
            all.len() == n,
            i <= n,
            forall|k: int| i <= k < n ==> list@[k] == all[k],
            want == nested(prefix@, requests(all)),
            requests(out@) == want.take(i as int),
        decreases n - i,
    {
        let mut item = ModuleRequest { path: String::new(), shape: ModuleShape::DecoderLayer };
        assert(list@[i as int] == all[i as int]);
        let ghost before = list@;
        list.set_and_swap(i, &mut item);
        assert(item == all[i as int]);
        push_module(&mut out, glue(prefix, item.path.as_str()), item.shape);
        assert(requests(out@) =~= want.take(i + 1));
        i = i + 1;
    }
    assert(want.take(i as int) =~= want);
    out
}

/// Layers are listed as they are: each with its path and its shape.
pub proof fn layers_are_listed_as_they_are(list: Seq<ModuleRequest>, i: int)
    requires
        0 <= i < list.len(),
    ensures
        ({
            let v = requests(list)[i];
            &&& requests(list).len() == list.len()
            &&& v.path == list[i].path@
            &&& match list[i].shape {
                ModuleShape::Tensor(d) => v.shape == ShapeView::Tensor(d@),
                ModuleShape::LayerNorm(n) => v.shape == ShapeView::LayerNorm(n),
                ModuleShape::RmsNorm(n) => v.shape == ShapeView::RmsNorm(n),
                ModuleShape::Linear { inputs: a, outputs: b } => v.shape == (ShapeView::Linear {
                    inputs: a,
                    outputs: b,
                }),
                ModuleShape::LinearNoBias { inputs: a, outputs: b } => v.shape == (
                ShapeView::LinearNoBias { inputs: a, outputs: b }),
                ModuleShape::Embedding { entries: a, width: b } => v.shape == (
                ShapeView::Embedding { entries: a, width: b }),
                ModuleShape::DecoderLayer => v.shape == ShapeView::DecoderLayer,
            }
        }),
{
}

} // verus!

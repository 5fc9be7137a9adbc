//! When the weights of the vision model are resident, and how they come back.
use candle_core::quantized::gguf_file::Content;
use vstd::prelude::*;

use crate::components::{Qwen3VLVisionBlock, Qwen3VLVisionPatchEmbed, Qwen3VLVisionPatchMerger};
use crate::error::ModelError;
use crate::header::read_header;
use crate::vision::Qwen3VLVisionModel;
use crate::weights::{decimal_text, extend_steps, glue, push_step, Component, LoadStep, LoadView, Slot};

verus! {

/// The blocks below `n`.
pub open spec fn block_parts(n: nat) -> Seq<Component> {
    Seq::new(n, |i: int| Component::Block(i as usize))
}

/// The deepstack mergers below `n`.
pub open spec fn deepstack_parts(n: nat) -> Seq<Component> {
    Seq::new(n, |k: int| Component::DeepstackMerger(k as usize))
}

/// All parts of a model, in the order in which they are dropped.
pub open spec fn all_parts(blocks: nat, deepstack: nat) -> Seq<Component> {
    seq![Component::PatchEmbed, Component::Positions] + block_parts(blocks) + seq![
        Component::Merger,
    ] + deepstack_parts(deepstack)
}

/// The weights that come back at a reload: all of them, or all but the blocks where these
/// are streamed.
pub open spec fn reload_steps(blocks: nat, indexes: Seq<usize>, streaming: bool) -> Seq<LoadView> {
    if streaming {
        crate::weights::shared_load(indexes)
    } else {
        crate::weights::shared_load(indexes) + crate::weights::all_block_steps(blocks)
    }
}

/// The header of a weight file, where its bytes are at hand and begin with one.
pub open spec fn mapped_header(bytes: Option<&[u8]>) -> Option<Content> {
    match bytes {
        None => None,
        Some(b) => crate::header::header_of(b@),
    }
}

impl Qwen3VLVisionModel {
    /// Names the weight file that dropped weights are read from again. `content` is its
    /// header, where the file could be opened, mapped and understood. Without a path there
    /// is no source, and weights stay resident.
    pub fn register_source(&mut self, path: Option<String>, content: Option<Content>) -> (r:
        Result<(), ModelError>)
        ensures
            final(self).wf(),
            final(self).same_build(*old(self)),
            final(self).is_weights_loaded == old(self).is_weights_loaded,
            final(self).stream_blocks == old(self).stream_blocks,
            final(self).mmproj_path == path,
            final(self).mmproj_ct == if path is Some {
                content
            } else {
                None
            },
            match r {
                Ok(_) => path is None || content is Some,
                Err(e) => path is Some && content is None && e == ModelError::Source,
            },
    {
        let named = path.is_some();
        self.mmproj_path = path;
        self.mmproj_mapped = false;
        self.mmproj_ct = None;
        if !named {
            return Ok(());
        }
        match content {
            Some(ct) => {
                self.mmproj_mapped = true;
                self.mmproj_ct = Some(ct);
                Ok(())
            },
            None => Err(ModelError::Source),
        }
    }

    /// Names the weight file that dropped weights are read from again. `bytes` are those of
    /// the file, where it could be opened and mapped; the file serves if they begin with a
    /// header. Without a path there is no source, and weights stay resident.
    pub fn set_mmproj_source(&mut self, path: Option<String>, bytes: Option<&[u8]>) -> (r: Result<
        (),
        ModelError,
    >)
        ensures
            final(self).wf(),
            final(self).same_build(*old(self)),
            final(self).is_weights_loaded == old(self).is_weights_loaded,
            final(self).stream_blocks == old(self).stream_blocks,
            final(self).mmproj_path == path,
            final(self).mmproj_ct == if path is Some {
                mapped_header(bytes)
            } else {
                None
            },
            match r {
                Ok(_) => path is None || mapped_header(bytes) is Some,
                Err(e) => path is Some && mapped_header(bytes) is None && e == ModelError::Source,
            },
    {
        let content = match (&path, bytes) {
            (Some(_), Some(b)) => match read_header(b) {
                Ok(ct) => Some(ct),
                Err(_) => None,
            },
            _ => None,
        };
        self.register_source(path, content)
    }

    /// Names the weight file like `set_mmproj_source`; where it cannot be used, weights
    /// merely stay resident.
    pub fn set_mmproj_path(&mut self, path: Option<String>, bytes: Option<&[u8]>)
        ensures
            final(self).wf(),
            final(self).same_build(*old(self)),
            final(self).is_weights_loaded == old(self).is_weights_loaded,
            final(self).stream_blocks == old(self).stream_blocks,
            final(self).mmproj_path == path,
            final(self).mmproj_ct == if path is Some {
                mapped_header(bytes)
            } else {
                None
            },
    {
        match self.set_mmproj_source(path, bytes) {
            Ok(_) => {},
            Err(_) => {
                self.mmproj_mapped = false;
                self.mmproj_ct = None;
            },
        }
    }

    /// Switches streaming of blocks. Without a weight file it cannot be switched on.
    pub fn set_block_streaming(&mut self, enabled: bool)
        ensures
            old(self).wf() ==> final(self).wf(),
            final(self).same_build(*old(self)),
            final(self).is_weights_loaded == old(self).is_weights_loaded,
            final(self).mmproj_path == old(self).mmproj_path,
            final(self).mmproj_mapped == old(self).mmproj_mapped,
            final(self).mmproj_ct == old(self).mmproj_ct,
            final(self).stream_blocks == if enabled && old(self).mmproj_ct is None {
                old(self).stream_blocks
            } else {
                enabled
            },
    {
        if enabled && self.mmproj_ct.is_none() {
            return;
        }
        self.stream_blocks = enabled;
    }

    /// Whether dropped weights can be read again.
    pub fn is_jit_capable(&self) -> (r: bool)
        ensures
            r == self.can_reload(),
    {
        self.mmproj_ct.is_some() && self.mmproj_mapped
    }

    /// Nothing changes but whether the weights are resident.
    pub open spec fn only_residency_changes(self, other: Qwen3VLVisionModel) -> bool {
        &&& self.same_build(other)
        &&& self.stream_blocks == other.stream_blocks
        &&& self.mmproj_path == other.mmproj_path
        &&& self.mmproj_mapped == other.mmproj_mapped
        &&& self.mmproj_ct == other.mmproj_ct
    }

    /// Marks the weights as gone and returns the parts whose weights are to be dropped, if
    /// they are resident and can be read again; else does nothing.
    pub fn unload_weights(&mut self) -> (r: Vec<Component>)
        ensures
            old(self).wf() ==> final(self).wf(),
            final(self).only_residency_changes(*old(self)),
            if old(self).is_weights_loaded && old(self).can_reload() {
                &&& !final(self).is_weights_loaded
                &&& r@ == all_parts(
                    old(self).num_blocks as nat,
                    old(self).deepstack_visual_indexes@.len(),
                )
            } else {
                &&& final(self).is_weights_loaded == old(self).is_weights_loaded
                &&& r@.len() == 0
            },
    {
        let mut out: Vec<Component> = Vec::new();
        if !self.is_weights_loaded || !self.is_jit_capable() {
            return out;
        }
        out.push(Component::PatchEmbed);
        out.push(Component::Positions);
        let ghost head = out@;
        let mut i: usize = 0;
        assert(out@ =~= head + block_parts(0));
        while i < self.num_blocks
            invariant
                i <= self.num_blocks,
                out@ == head + block_parts(i as nat),
            decreases self.num_blocks - i,
        {
            out.push(Component::Block(i));
            assert(out@ =~= head + block_parts((i + 1) as nat));
            i = i + 1;
        }
        out.push(Component::Merger);
        let ghost mergers = out@;
        let mut k: usize = 0;
        assert(out@ =~= mergers + deepstack_parts(0));
        while k < self.deepstack_visual_indexes.len()
            invariant
                k <= self.deepstack_visual_indexes@.len(),
                out@ == mergers + deepstack_parts(k as nat),
            decreases self.deepstack_visual_indexes@.len() - k,
        {
            out.push(Component::DeepstackMerger(k));
            assert(out@ =~= mergers + deepstack_parts((k + 1) as nat));
            k = k + 1;
        }
        self.is_weights_loaded = false;
        assert(out@ =~= all_parts(
            self.num_blocks as nat,
            self.deepstack_visual_indexes@.len(),
        ));
        out
    }

    /// The stored tensors of block `i`; none where there is no weight file.
    pub fn load_block(&self, i: usize) -> (r: Vec<LoadStep>)
        requires
            i < self.num_blocks,
        ensures
            crate::weights::views(r@) == if self.can_reload() {
                crate::weights::block_steps(i, crate::weights::block_name(i as nat))
            } else {
                Seq::empty()
            },
    {
        if !self.is_jit_capable() {
            let out: Vec<LoadStep> = Vec::new();
            assert(crate::weights::views(out@) =~= Seq::empty());
            return out;
        }
        let prefix = glue("v.blk.", decimal_text(i).as_str());
        Qwen3VLVisionBlock::load_weights_inplace(i, prefix.as_str())
    }

    /// The stored tensors outside the blocks; none where there is no weight file.
    pub fn load_shared_weights(&self) -> (r: Vec<LoadStep>)
        ensures
            crate::weights::views(r@) == if self.can_reload() {
                crate::weights::shared_load(self.deepstack_visual_indexes@)
            } else {
                Seq::empty()
            },
    {
        if !self.is_jit_capable() {
            let out: Vec<LoadStep> = Vec::new();
            assert(crate::weights::views(out@) =~= Seq::empty());
            return out;
        }
        let mut steps: Vec<LoadStep> = Qwen3VLVisionPatchEmbed::load_weights_inplace();
        push_step(&mut steps, Slot::Positions, String::from_str("v.position_embd.weight"));
        extend_steps(
            &mut steps,
            Qwen3VLVisionPatchMerger::load_weights_inplace(None, "v.post_ln", "mm.0", "mm.2"),
        );
        let ghost before = crate::weights::views(steps@);
        let mut k: usize = 0;
        assert(before =~= before + crate::weights::all_deepstack_steps(
            self.deepstack_visual_indexes@.take(0),
        ));
        while k < self.deepstack_visual_indexes.len()
            invariant
                k <= self.deepstack_visual_indexes@.len(),
                crate::weights::views(steps@) == before + crate::weights::all_deepstack_steps(
                    self.deepstack_visual_indexes@.take(k as int),
                ),
            decreases self.deepstack_visual_indexes@.len() - k,
        {
            let prefix = glue(
                "v.deepstack.",
                decimal_text(self.deepstack_visual_indexes[k]).as_str(),
            );
            let norm = glue(prefix.as_str(), ".norm");
            let fc1 = glue(prefix.as_str(), ".fc1");
            let fc2 = glue(prefix.as_str(), ".fc2");
            extend_steps(
                &mut steps,
                Qwen3VLVisionPatchMerger::load_weights_inplace(
                    Some(k),
                    norm.as_str(),
                    fc1.as_str(),
                    fc2.as_str(),
                ),
            );
            proof {
                let all = self.deepstack_visual_indexes@;
                assert(all.take(k + 1).drop_last() =~= all.take(k as int));
                assert(crate::weights::views(steps@) =~= before
                    + crate::weights::all_deepstack_steps(all.take(k + 1)));
            }
            k = k + 1;
        }
        proof {
            let all = self.deepstack_visual_indexes@;
            assert(all.take(k as int) =~= all);
            assert(crate::weights::views(steps@) =~= crate::weights::shared_load(all));
        }
        steps
    }

    /// The stored tensors that bring dropped weights back, or nothing where the weights are
    /// resident or there is no weight file. Once all have been read, `weights_reloaded`
    /// marks the weights as resident; where one cannot be read they stay marked as gone.
    pub fn reload_weights(&self) -> (r: Option<Vec<LoadStep>>)
        ensures
            match r {
                Some(steps) => {
                    &&& !self.is_weights_loaded
                    &&& self.can_reload()
                    &&& crate::weights::views(steps@) == reload_steps(
                        self.num_blocks as nat,
                        self.deepstack_visual_indexes@,
                        self.stream_blocks,
                    )
                },
                None => self.is_weights_loaded || !self.can_reload(),
            },
    {
        if self.is_weights_loaded || !self.is_jit_capable() {
            return None;
        }
        let mut steps = self.load_shared_weights();
        if !self.stream_blocks {
            let ghost before = crate::weights::views(steps@);
            let mut i: usize = 0;
            assert(before =~= before + crate::weights::all_block_steps(0));
            while i < self.num_blocks
                invariant
                    self.can_reload(),
                    i <= self.num_blocks,
                    crate::weights::views(steps@) == before + crate::weights::all_block_steps(
                        i as nat,
                    ),
                decreases self.num_blocks - i,
            {
                extend_steps(&mut steps, self.load_block(i));
                assert(crate::weights::views(steps@) =~= before + crate::weights::all_block_steps(
                    (i + 1) as nat,
                ));
                i = i + 1;
            }
        }
        Some(steps)
    }

    /// Marks the weights as resident, after all tensors of `reload_weights` were read.
    pub fn weights_reloaded(&mut self)
        ensures
            old(self).wf() ==> final(self).wf(),
            final(self).only_residency_changes(*old(self)),
            final(self).is_weights_loaded == (old(self).is_weights_loaded || old(
                self,
            ).can_reload()),
    {
        if self.is_jit_capable() {
            self.is_weights_loaded = true;
        }
    }
}

/// One of the steps fills a weight of the given part.
pub open spec fn fills(steps: Seq<LoadView>, part: Component) -> bool {
    exists|j: int| 0 <= j < steps.len() && (#[trigger] steps[j]).slot.part() == part
}

proof fn lemma_fills_add(a: Seq<LoadView>, b: Seq<LoadView>, part: Component)
    ensures
        fills(a + b, part) <==> fills(a, part) || fills(b, part),
{
    if fills(a, part) {
        let j = choose|j: int| 0 <= j < a.len() && (#[trigger] a[j]).slot.part() == part;
        assert((a + b)[j] == a[j]);
    }
    if fills(b, part) {
        let j = choose|j: int| 0 <= j < b.len() && (#[trigger] b[j]).slot.part() == part;
        assert((a + b)[a.len() + j] == b[j]);
    }
    if fills(a + b, part) {
        let j = choose|j: int| 0 <= j < (a + b).len() && (#[trigger] (a + b)[j]).slot.part() == part;
        if j < a.len() {
            assert(a[j].slot.part() == part);
        } else {
            assert(b[j - a.len()].slot.part() == part);
        }
    }
}

proof fn lemma_block_fills(n: nat, part: Component)
    requires
        n <= usize::MAX,
    ensures
        fills(crate::weights::all_block_steps(n), part) <==> (part matches Component::Block(i) && i
            < n),
    decreases n,
{
    if n > 0 {
        let i = (n - 1) as usize;
        let name = crate::weights::block_name((n - 1) as nat);
        let own = crate::weights::block_steps(i, name);
        lemma_block_fills((n - 1) as nat, part);
        lemma_fills_add(crate::weights::all_block_steps((n - 1) as nat), own, part);
        assert(own[0].slot.part() == Component::Block(i));
        assert(forall|j: int| 0 <= j < own.len() ==> (#[trigger] own[j]).slot.part()
            == Component::Block(i));
    }
}

proof fn lemma_deepstack_fills(indexes: Seq<usize>, part: Component)
    requires
        indexes.len() <= usize::MAX,
    ensures
        fills(crate::weights::all_deepstack_steps(indexes), part) <==> (
        part matches Component::DeepstackMerger(k) && k < indexes.len()),
    decreases indexes.len(),
{
    if indexes.len() > 0 {
        let k = (indexes.len() - 1) as usize;
        let own = crate::weights::deepstack_steps(k, indexes.last() as nat);
        lemma_deepstack_fills(indexes.drop_last(), part);
        lemma_fills_add(crate::weights::all_deepstack_steps(indexes.drop_last()), own, part);
        assert(own[0].slot.part() == Component::DeepstackMerger(k));
        assert(forall|j: int| 0 <= j < own.len() ==> (#[trigger] own[j]).slot.part()
            == Component::DeepstackMerger(k));
    }
}

/// A reload brings back exactly the parts that were dropped; where blocks are streamed, all
/// of them but the blocks.
pub proof fn reload_undoes_unload(blocks: nat, indexes: Seq<usize>, part: Component)
    requires
        blocks <= usize::MAX,
        indexes.len() <= usize::MAX,
    ensures
        fills(reload_steps(blocks, indexes, false), part) <==> all_parts(
            blocks,
            indexes.len(),
        ).contains(part),
        fills(reload_steps(blocks, indexes, true), part) <==> all_parts(
            blocks,
            indexes.len(),
        ).contains(part) && !(part is Block),
{
    let a = crate::weights::patch_steps();
    let b = crate::weights::position_steps();
    let c = crate::weights::last_merger_steps();
    let d = crate::weights::all_deepstack_steps(indexes);
    let e = crate::weights::all_block_steps(blocks);
    lemma_fills_add(a, b, part);
    lemma_fills_add(a + b, c, part);
    lemma_fills_add(a + b + c, d, part);
    lemma_fills_add(a + b + c + d, e, part);
    lemma_block_fills(blocks, part);
    lemma_deepstack_fills(indexes, part);
    assert(a[0].slot.part() == Component::PatchEmbed);
    assert(b[0].slot.part() == Component::Positions);
    assert(c[0].slot.part() == Component::Merger);
    let all = all_parts(blocks, indexes.len());
    let n = blocks as int;
    match part {
        Component::PatchEmbed => {
            assert(all[0] == part);
        },
        Component::Positions => {
            assert(all[1] == part);
        },
        Component::Block(i) => {
            if i < blocks {
                assert(all[2 + i as int] == part);
            }
        },
        Component::Merger => {
            assert(all[2 + n] == part);
        },
        Component::DeepstackMerger(k) => {
            if k < indexes.len() {
                assert(all[3 + n + k as int] == part);
            }
        },
    }
    if all.contains(part) {
        let j = choose|j: int| 0 <= j < all.len() && all[j] == part;
        assert(all[j] == part);
    }
}

/// No part is dropped twice.
pub proof fn parts_are_distinct(blocks: nat, deepstack: nat, i: int, j: int)
    requires
        blocks <= usize::MAX,
        deepstack <= usize::MAX,
        0 <= i < j < all_parts(blocks, deepstack).len(),
    ensures
        all_parts(blocks, deepstack)[i] != all_parts(blocks, deepstack)[j],
{
}

/// Dropping the weights and reading them again leaves the model as it was.
pub proof fn reload_restores_the_model(
    before: Qwen3VLVisionModel,
    between: Qwen3VLVisionModel,
    after: Qwen3VLVisionModel,
)
    requires
        before.is_weights_loaded,
        before.can_reload(),
        between.only_residency_changes(before),
        !between.is_weights_loaded,
        after.only_residency_changes(between),
        after.is_weights_loaded == (between.is_weights_loaded || between.can_reload()),
    ensures
        after == before,
{
}

/// Every part of the model is dropped, and nothing else: the patch embedding, the position
/// table, each block, the last merger and each deepstack merger.
pub proof fn every_part_is_dropped(blocks: nat, deepstack: nat, part: Component)
    requires
        blocks <= usize::MAX,
        deepstack <= usize::MAX,
    ensures
        all_parts(blocks, deepstack).len() == 3 + blocks + deepstack,
        all_parts(blocks, deepstack).contains(part) <==> match part {
            Component::PatchEmbed | Component::Positions | Component::Merger => true,
            Component::Block(i) => i < blocks,
            Component::DeepstackMerger(k) => k < deepstack,
        },
{
    let all = all_parts(blocks, deepstack);
    let n = blocks as int;
    match part {
        Component::PatchEmbed => {
            assert(all[0] == part);
        },
        Component::Positions => {
            assert(all[1] == part);
        },
        Component::Block(i) => {
            if i < blocks {
                assert(all[2 + i as int] == part);
            }
        },
        Component::Merger => {
            assert(all[2 + n] == part);
        },
        Component::DeepstackMerger(k) => {
            if k < deepstack {
                assert(all[3 + n + k as int] == part);
            }
        },
    }
    if all.contains(part) {
        let j = choose|j: int| 0 <= j < all.len() && all[j] == part;
        assert(all[j] == part);
    }
}

/// A reload reads all tensors that were read at first, each as often; where blocks are streamed
/// it leaves out those of the blocks.
pub proof fn a_reload_reads_what_was_read_first(blocks: nat, indexes: Seq<usize>)
    ensures
        reload_steps(blocks, indexes, false).to_multiset() == crate::weights::first_load(
            blocks,
            indexes,
        ).to_multiset(),
        reload_steps(blocks, indexes, false) == reload_steps(blocks, indexes, true)
            + crate::weights::all_block_steps(blocks),
{
    crate::weights::reload_matches_first_load(blocks, indexes);
}

/// A weight file serves just where its bytes are at hand, begin with a whole header, and the
/// header can be parsed.
pub proof fn files_serve_with_a_header(bytes: &[u8])
    ensures
        mapped_header(None) is None,
        mapped_header(Some(bytes)) is Some ==> crate::header::is_whole(bytes@),
        crate::header::is_whole(bytes@) ==> mapped_header(Some(bytes))
            == crate::gguf::parsed_header(bytes@),
{
}

} // verus!

//! Which stored tensor fills which weight.
use vstd::prelude::*;

verus! {

/// A part of the vision model whose weights come and go together.
#[derive(Clone, Copy, Debug, PartialEq, Eq, Structural)]
pub enum Component {
    PatchEmbed,
    Positions,
    Block(usize),
    Merger,
    DeepstackMerger(usize),
}

/// One weight of the vision model.
#[derive(Clone, Copy, Debug, PartialEq, Eq, Structural)]
pub enum Slot {
    /// The kernel of the patch embedding for the first frame of a pair.
    PatchFirst,
    /// The kernel of the patch embedding for the second frame of a pair.
    PatchSecond,
    PatchBias,
    Positions,
    Norm1(usize),
    Norm2(usize),
    Qkv(usize),
    Proj(usize),
    FfnUp(usize),
    FfnDown(usize),
    MergerNorm,
    MergerFc1,
    MergerFc2,
    DeepstackNorm(usize),
    DeepstackFc1(usize),
    DeepstackFc2(usize),
}

/// How a stored tensor becomes a weight.
#[derive(Clone, Copy, Debug, PartialEq, Eq, Structural)]
pub enum LoadKind {
    /// A single dense tensor of that very name.
    Dense,
    /// A layer norm: the tensor `<name>.weight`, and `<name>.bias` where there is one.
    Norm,
    /// A linear layer: the tensor `<name>.weight`, and `<name>.bias` where there is one.
    Linear,
}

impl Slot {
    /// The part that a weight belongs to.
    pub open spec fn part(self) -> Component {
        match self {
            Slot::PatchFirst => Component::PatchEmbed,
            Slot::PatchSecond => Component::PatchEmbed,
            Slot::PatchBias => Component::PatchEmbed,
            Slot::Positions => Component::Positions,
            Slot::Norm1(i) => Component::Block(i),
            Slot::Norm2(i) => Component::Block(i),
            Slot::Qkv(i) => Component::Block(i),
            Slot::Proj(i) => Component::Block(i),
            Slot::FfnUp(i) => Component::Block(i),
            Slot::FfnDown(i) => Component::Block(i),
            Slot::MergerNorm => Component::Merger,
            Slot::MergerFc1 => Component::Merger,
            Slot::MergerFc2 => Component::Merger,
            Slot::DeepstackNorm(k) => Component::DeepstackMerger(k),
            Slot::DeepstackFc1(k) => Component::DeepstackMerger(k),
            Slot::DeepstackFc2(k) => Component::DeepstackMerger(k),
        }
    }

    /// How a weight is loaded, as the kind of layer that it is.
    pub open spec fn loads_as(self) -> LoadKind {
        match self {
            Slot::PatchFirst | Slot::PatchSecond | Slot::PatchBias | Slot::Positions => {
                LoadKind::Dense
            },
            Slot::Norm1(_) | Slot::Norm2(_) | Slot::MergerNorm | Slot::DeepstackNorm(_) => {
                LoadKind::Norm
            },
            _ => LoadKind::Linear,
        }
    }

    /// How a weight is loaded.
    pub fn kind(&self) -> (r: LoadKind)
        ensures
            r == self.loads_as(),
    {
        match *self {
            Slot::PatchFirst | Slot::PatchSecond | Slot::PatchBias | Slot::Positions => {
                LoadKind::Dense
            },
            Slot::Norm1(_) | Slot::Norm2(_) | Slot::MergerNorm | Slot::DeepstackNorm(_) => {
                LoadKind::Norm
            },
            _ => LoadKind::Linear,
        }
    }
}

/// Fill `slot` from the tensor called `name`.
#[derive(Debug)]
pub struct LoadStep {
    pub slot: Slot,
    pub name: String,
}

/// A step of a load, as a value.
pub struct LoadView {
    pub slot: Slot,
    pub name: Seq<char>,
}

impl View for LoadStep {
    type V = LoadView;

    open spec fn view(&self) -> LoadView {
        LoadView { slot: self.slot, name: self.name@ }
    }
}

impl LoadView {
    /// The stored tensor that a step cannot do without.
    pub open spec fn weight_name(self) -> Seq<char> {
        if self.slot.loads_as() == LoadKind::Dense {
            self.name
        } else {
            self.name + ".weight"@
        }
    }

    /// The stored tensor that a step uses where it is there.
    pub open spec fn bias_name(self) -> Option<Seq<char>> {
        if self.slot.loads_as() == LoadKind::Dense {
            None
        } else {
            Some(self.name + ".bias"@)
        }
    }
}

impl LoadStep {
    /// The name of the stored tensor that this step cannot do without.
    pub fn weight_tensor(&self) -> (r: String)
        ensures
            r@ == self@.weight_name(),
    {
        match self.slot.kind() {
            LoadKind::Dense => String::from_str(self.name.as_str()),
            _ => glue(self.name.as_str(), ".weight"),
        }
    }

    /// The name of the stored tensor that this step uses where it is there.
    pub fn bias_tensor(&self) -> (r: Option<String>)
        ensures
            match r {
                Some(b) => self@.bias_name() == Some(b@),
                None => self@.bias_name() is None,
            },
    {
        match self.slot.kind() {
            LoadKind::Dense => None,
            _ => Some(glue(self.name.as_str(), ".bias")),
        }
    }
}

/// The steps of a list.
pub open spec fn views(steps: Seq<LoadStep>) -> Seq<LoadView> {
    steps.map_values(|s: LoadStep| s@)
}

/// A single decimal digit.
pub open spec fn digit(d: nat) -> Seq<char> {
    if d == 0 {
        "0"@
    } else if d == 1 {
        "1"@
    } else if d == 2 {
        "2"@
    } else if d == 3 {
        "3"@
    } else if d == 4 {
        "4"@
    } else if d == 5 {
        "5"@
    } else if d == 6 {
        "6"@
    } else if d == 7 {
        "7"@
    } else if d == 8 {
        "8"@
    } else {
        "9"@
    }
}

/// A number in decimal, without leading zeros.
pub open spec fn decimal(n: nat) -> Seq<char>
    decreases n,
{
    if n < 10 {
        digit(n)
    } else {
        decimal(n / 10) + digit(n % 10)
    }
}

fn digit_text(d: usize) -> (r: &'static str)
    requires
        d < 10,
    ensures
        r@ == digit(d as nat),
{
    if d == 0 {
        "0"
    } else if d == 1 {
        "1"
    } else if d == 2 {
        "2"
    } else if d == 3 {
        "3"
    } else if d == 4 {
        "4"
    } else if d == 5 {
        "5"
    } else if d == 6 {
        "6"
    } else if d == 7 {
        "7"
    } else if d == 8 {
        "8"
    } else {
        "9"
    }
}

/// Writes a number in decimal.
pub fn decimal_text(n: usize) -> (r: String)
    ensures
        r@ == decimal(n as nat),
    decreases n,
{
    if n < 10 {
        String::from_str(digit_text(n))
    } else {
        let mut s = decimal_text(n / 10);
        s.append(digit_text(n % 10));
        s
    }
}

/// Puts two names together.
pub(crate) fn glue(a: &str, b: &str) -> (r: String)
    ensures
        r@ == a@ + b@,
{
    let mut s = String::from_str(a);
    s.append(b);
    s
}

/// The name of block `i`.
pub open spec fn block_name(i: nat) -> Seq<char> {
    "v.blk."@ + decimal(i)
}

/// The name of the deepstack merger after block `i`.
pub open spec fn deepstack_name(i: nat) -> Seq<char> {
    "v.deepstack."@ + decimal(i)
}

/// The weights of the patch embedding.
pub open spec fn patch_steps() -> Seq<LoadView> {
    seq![
        LoadView { slot: Slot::PatchFirst, name: "v.patch_embd.weight"@ },
        LoadView { slot: Slot::PatchSecond, name: "v.patch_embd.weight.1"@ },
        LoadView { slot: Slot::PatchBias, name: "v.patch_embd.bias"@ },
    ]
}

/// The table of position embeddings.
pub open spec fn position_steps() -> Seq<LoadView> {
    seq![LoadView { slot: Slot::Positions, name: "v.position_embd.weight"@ }]
}

/// The attention weights of a block.
pub open spec fn attention_steps(i: usize, prefix: Seq<char>) -> Seq<LoadView> {
    seq![
        LoadView { slot: Slot::Qkv(i), name: prefix + ".attn_qkv"@ },
        LoadView { slot: Slot::Proj(i), name: prefix + ".attn_out"@ },
    ]
}

/// The weights of a block.
pub open spec fn block_steps(i: usize, prefix: Seq<char>) -> Seq<LoadView> {
    seq![
        LoadView { slot: Slot::Norm1(i), name: prefix + ".ln1"@ },
        LoadView { slot: Slot::Norm2(i), name: prefix + ".ln2"@ },
    ] + attention_steps(i, prefix) + seq![
        LoadView { slot: Slot::FfnUp(i), name: prefix + ".ffn_up"@ },
        LoadView { slot: Slot::FfnDown(i), name: prefix + ".ffn_down"@ },
    ]
}

/// The weights of a merger.
pub open spec fn merger_steps(
    deepstack: Option<usize>,
    norm: Seq<char>,
    fc1: Seq<char>,
    fc2: Seq<char>,
) -> Seq<LoadView> {
    match deepstack {
        None => seq![
            LoadView { slot: Slot::MergerNorm, name: norm },
            LoadView { slot: Slot::MergerFc1, name: fc1 },
            LoadView { slot: Slot::MergerFc2, name: fc2 },
        ],
        Some(k) => seq![
            LoadView { slot: Slot::DeepstackNorm(k), name: norm },
            LoadView { slot: Slot::DeepstackFc1(k), name: fc1 },
            LoadView { slot: Slot::DeepstackFc2(k), name: fc2 },
        ],
    }
}

/// The weights of the last merger.
pub open spec fn last_merger_steps() -> Seq<LoadView> {
    merger_steps(None, "v.post_ln"@, "mm.0"@, "mm.2"@)
}

/// The weights of deepstack merger `k`, which stands after block `i`.
pub open spec fn deepstack_steps(k: usize, i: nat) -> Seq<LoadView> {
    merger_steps(
        Some(k),
        deepstack_name(i) + ".norm"@,
        deepstack_name(i) + ".fc1"@,
        deepstack_name(i) + ".fc2"@,
    )
}

/// The weights of the first `n` blocks.
pub open spec fn all_block_steps(n: nat) -> Seq<LoadView>
    decreases n,
{
    if n == 0 {
        Seq::empty()
    } else {
        all_block_steps((n - 1) as nat) + block_steps(
            (n - 1) as usize,
            block_name((n - 1) as nat),
        )
    }
}

/// The weights of the deepstack mergers after the given blocks.
pub open spec fn all_deepstack_steps(indexes: Seq<usize>) -> Seq<LoadView>
    decreases indexes.len(),
{
    if indexes.len() == 0 {
        Seq::empty()
    } else {
        all_deepstack_steps(indexes.drop_last()) + deepstack_steps(
            (indexes.len() - 1) as usize,
            indexes.last() as nat,
        )
    }
}

/// The weights of a new model: patch embedding, positions, blocks, mergers.
pub open spec fn first_load(blocks: nat, indexes: Seq<usize>) -> Seq<LoadView> {
    patch_steps() + position_steps() + all_block_steps(blocks) + last_merger_steps()
        + all_deepstack_steps(indexes)
}

/// The weights outside the blocks.
pub open spec fn shared_load(indexes: Seq<usize>) -> Seq<LoadView> {
    patch_steps() + position_steps() + last_merger_steps() + all_deepstack_steps(indexes)
}

/// Adds a step to a list.
pub(crate) fn push_step(steps: &mut Vec<LoadStep>, slot: Slot, name: String)
    ensures
        views(final(steps)@) == views(old(steps)@).push(LoadView { slot, name: name@ }),
{
    let ghost was = steps@;
    let ghost added = LoadView { slot, name: name@ };
    steps.push(LoadStep { slot, name });
    assert(views(steps@) =~= views(was).push(added));
}

/// Puts two lists of steps together.
pub(crate) fn extend_steps(steps: &mut Vec<LoadStep>, more: Vec<LoadStep>)
    ensures
        views(final(steps)@) == views(old(steps)@) + views(more@),
{
    let ghost was = steps@;
    let ghost tail = more@;
    let mut rest = more;
    steps.append(&mut rest);
    assert(views(steps@) =~= views(was) + views(tail));
}

proof fn lemma_digit(d: nat)
    requires
        d < 10,
    ensures
        digit(d).len() == 1,
        d == 0 ==> digit(d)[0] == '0',
        d == 1 ==> digit(d)[0] == '1',
        d == 2 ==> digit(d)[0] == '2',
        d == 3 ==> digit(d)[0] == '3',
        d == 4 ==> digit(d)[0] == '4',
        d == 5 ==> digit(d)[0] == '5',
        d == 6 ==> digit(d)[0] == '6',
        d == 7 ==> digit(d)[0] == '7',
        d == 8 ==> digit(d)[0] == '8',
        d == 9 ==> digit(d)[0] == '9',
{
    reveal_strlit("0");
    reveal_strlit("1");
    reveal_strlit("2");
    reveal_strlit("3");
    reveal_strlit("4");
    reveal_strlit("5");
    reveal_strlit("6");
    reveal_strlit("7");
    reveal_strlit("8");
    reveal_strlit("9");
}

/// Different numbers have different decimals.
pub proof fn decimals_differ(a: nat, b: nat)
    ensures
        decimal(a) == decimal(b) ==> a == b,
    decreases a,
{
    lemma_decimal_len(a);
    lemma_decimal_len(b);
    lemma_digit(a % 10);
    lemma_digit(b % 10);
    if decimal(a) == decimal(b) {
        assert(decimal(a).last() == decimal(b).last());
        if a >= 10 && b >= 10 {
            assert(decimal(a).drop_last() =~= decimal(a / 10));
            assert(decimal(b).drop_last() =~= decimal(b / 10));
            decimals_differ(a / 10, b / 10);
        } else if a >= 10 {
            lemma_decimal_len(a / 10);
        } else if b >= 10 {
            lemma_decimal_len(b / 10);
        }
    }
}

proof fn lemma_decimal_len(n: nat)
    ensures
        decimal(n).len() >= 1,
        n < 10 ==> decimal(n).len() == 1,
        n >= 10 ==> decimal(n).len() == decimal(n / 10).len() + 1,
        decimal(n).last() == digit(n % 10)[0],
    decreases n,
{
    lemma_digit(n % 10);
    if n >= 10 {
        lemma_decimal_len(n / 10);
    }
}

/// No two blocks load from tensors of the same name prefix, and no two deepstack mergers do.
pub proof fn prefixes_differ(a: nat, b: nat)
    requires
        a != b,
    ensures
        block_name(a) != block_name(b),
        deepstack_name(a) != deepstack_name(b),
{
    decimals_differ(a, b);
    let p = "v.blk."@;
    let q = "v.deepstack."@;
    if block_name(a) == block_name(b) {
        assert(block_name(a).skip(p.len() as int) =~= decimal(a));
        assert(block_name(b).skip(p.len() as int) =~= decimal(b));
    }
    if deepstack_name(a) == deepstack_name(b) {
        assert(deepstack_name(a).skip(q.len() as int) =~= decimal(a));
        assert(deepstack_name(b).skip(q.len() as int) =~= decimal(b));
    }
}

/// A reload of everything fills the same weights from the same tensors as the first load:
/// the shared weights and the blocks together are the steps of a new model.
pub proof fn reload_matches_first_load(blocks: nat, indexes: Seq<usize>)
    ensures
        (shared_load(indexes) + all_block_steps(blocks)).to_multiset() == first_load(
            blocks,
            indexes,
        ).to_multiset(),
{
    broadcast use vstd::seq_lib::group_to_multiset_ensures;

    let a = patch_steps() + position_steps();
    let b = all_block_steps(blocks);
    let c = last_merger_steps();
    let d = all_deepstack_steps(indexes);
    vstd::seq_lib::lemma_multiset_commutative(a + c + d, b);
    vstd::seq_lib::lemma_multiset_commutative(a + c, d);
    vstd::seq_lib::lemma_multiset_commutative(a, c);
    vstd::seq_lib::lemma_multiset_commutative(a + b + c, d);
    vstd::seq_lib::lemma_multiset_commutative(a + b, c);
    vstd::seq_lib::lemma_multiset_commutative(a, b);
    assert((shared_load(indexes) + b).to_multiset() =~= first_load(blocks, indexes).to_multiset());
}

/// The number that decimal digits stand for.
pub open spec fn read_decimal(s: Seq<char>) -> int
    decreases s.len(),
{
    if s.len() == 0 {
        0
    } else {
        10 * read_decimal(s.drop_last()) + (s.last() as int - '0' as int)
    }
}

/// A number is written in decimal digits that stand for it, without a zero in front.
pub proof fn decimals_read_back(n: nat)
    ensures
        read_decimal(decimal(n)) == n,
        decimal(n).len() > 0,
        forall|i: int| 0 <= i < decimal(n).len() ==> '0' <= #[trigger] decimal(n)[i] <= '9',
        n > 0 ==> decimal(n)[0] != '0',
        n == 0 ==> decimal(n).len() == 1,
    decreases n,
{
    lemma_digit(n % 10);
    reveal_with_fuel(read_decimal, 2);
    if n >= 10 {
        decimals_read_back(n / 10);
        assert(decimal(n).drop_last() =~= decimal(n / 10));
        assert(decimal(n).last() == digit(n % 10)[0]);
        assert(decimal(n)[0] == decimal(n / 10)[0]);
    } else {
        assert(decimal(n).drop_last() =~= Seq::<char>::empty());
    }
}

/// Every block has its six weights read, under its own number: two norms, the attention, and
/// the two feed-forward layers.
pub proof fn blocks_are_read_by_name(blocks: nat, i: int)
    requires
        blocks <= usize::MAX,
        0 <= i < blocks,
    ensures
        ({
            let s = all_block_steps(blocks);
            let name = "v.blk."@ + decimal(i as nat);
            let b = i as usize;
            &&& s.len() == 6 * blocks
            &&& s[6 * i] == (LoadView { slot: Slot::Norm1(b), name: name + ".ln1"@ })
            &&& s[6 * i + 1] == (LoadView { slot: Slot::Norm2(b), name: name + ".ln2"@ })
            &&& s[6 * i + 2] == (LoadView { slot: Slot::Qkv(b), name: name + ".attn_qkv"@ })
            &&& s[6 * i + 3] == (LoadView { slot: Slot::Proj(b), name: name + ".attn_out"@ })
            &&& s[6 * i + 4] == (LoadView { slot: Slot::FfnUp(b), name: name + ".ffn_up"@ })
            &&& s[6 * i + 5] == (LoadView { slot: Slot::FfnDown(b), name: name + ".ffn_down"@ })
        }),
    decreases blocks,
{
    let n = (blocks - 1) as nat;
    lemma_block_step_count(n);
    if i < n {
        blocks_are_read_by_name(n, i);
    }
}

proof fn lemma_block_step_count(n: nat)
    ensures
        all_block_steps(n).len() == 6 * n,
    decreases n,
{
    if n > 0 {
        lemma_block_step_count((n - 1) as nat);
    }
}

/// Every deepstack merger has its three weights read, under the number of the block that it
/// follows.
pub proof fn deepstack_mergers_are_read_by_name(indexes: Seq<usize>, k: int)
    requires
        indexes.len() <= usize::MAX,
        0 <= k < indexes.len(),
    ensures
        ({
            let s = all_deepstack_steps(indexes);
            let name = "v.deepstack."@ + decimal(indexes[k] as nat);
            let d = k as usize;
            &&& s.len() == 3 * indexes.len()
            &&& s[3 * k] == (LoadView { slot: Slot::DeepstackNorm(d), name: name + ".norm"@ })
            &&& s[3 * k + 1] == (LoadView { slot: Slot::DeepstackFc1(d), name: name + ".fc1"@ })
            &&& s[3 * k + 2] == (LoadView { slot: Slot::DeepstackFc2(d), name: name + ".fc2"@ })
        }),
    decreases indexes.len(),
{
    let head = indexes.drop_last();
    lemma_deepstack_step_count(head);
    if k < head.len() {
        deepstack_mergers_are_read_by_name(head, k);
    }
}

proof fn lemma_deepstack_step_count(indexes: Seq<usize>)
    ensures
        all_deepstack_steps(indexes).len() == 3 * indexes.len(),
    decreases indexes.len(),
{
    if indexes.len() > 0 {
        lemma_deepstack_step_count(indexes.drop_last());
    }
}

/// A new model reads the patch embedding, the position table, all blocks, the last merger and
/// all deepstack mergers, in this order; the shared weights are the same without the blocks.
pub proof fn loads_run_from_end_to_end(blocks: nat, indexes: Seq<usize>, j: int)
    requires
        blocks <= usize::MAX,
        indexes.len() <= usize::MAX,
    ensures
        ({
            let first = first_load(blocks, indexes);
            let shared = shared_load(indexes);
            let n = 6 * blocks;
            let merger = |s: Seq<LoadView>, at: int|
                {
                    &&& s[at] == (LoadView { slot: Slot::MergerNorm, name: "v.post_ln"@ })
                    &&& s[at + 1] == (LoadView { slot: Slot::MergerFc1, name: "mm.0"@ })
                    &&& s[at + 2] == (LoadView { slot: Slot::MergerFc2, name: "mm.2"@ })
                };
            let patches = |s: Seq<LoadView>|
                {
                    &&& s[0] == (LoadView { slot: Slot::PatchFirst, name: "v.patch_embd.weight"@ })
                    &&& s[1] == (LoadView {
                        slot: Slot::PatchSecond,
                        name: "v.patch_embd.weight.1"@,
                    })
                    &&& s[2] == (LoadView { slot: Slot::PatchBias, name: "v.patch_embd.bias"@ })
                    &&& s[3] == (LoadView {
                        slot: Slot::Positions,
                        name: "v.position_embd.weight"@,
                    })
                };
            &&& first.len() == 4 + n + 3 + 3 * indexes.len()
            &&& shared.len() == 4 + 3 + 3 * indexes.len()
            &&& patches(first)
            &&& patches(shared)
            &&& 0 <= j < n ==> first[4 + j] == all_block_steps(blocks)[j]
            &&& merger(first, (4 + n) as int)
            &&& merger(shared, 4)
            &&& 0 <= j < 3 * indexes.len() ==> first[7 + n + j] == all_deepstack_steps(indexes)[j]
                && shared[7 + j] == all_deepstack_steps(indexes)[j]
        }),
{
    lemma_block_step_count(blocks);
    lemma_deepstack_step_count(indexes);
}

/// A dense weight is stored under its own name; a norm and a linear layer have a weight and may
/// have a bias, stored under that name with an ending.
pub proof fn layers_have_weight_and_bias(slot: Slot, name: Seq<char>)
    ensures
        ({
            let step = LoadView { slot, name };
            let whole = slot.part() == Component::PatchEmbed || slot.part() == Component::Positions;
            if whole {
                &&& step.weight_name() == name
                &&& step.bias_name() is None
                &&& slot.loads_as() == LoadKind::Dense
            } else {
                &&& step.weight_name() == name + ".weight"@
                &&& step.bias_name() == Some(name + ".bias"@)
                &&& slot.loads_as() != LoadKind::Dense
            }
        }),
        slot.loads_as() == LoadKind::Norm <==> slot is Norm1 || slot is Norm2 || slot is MergerNorm
            || slot is DeepstackNorm,
{
}

/// Steps are listed as they are: each with its weight and its name.
pub proof fn steps_are_listed_as_they_are(steps: Seq<LoadStep>, i: int)
    requires
        0 <= i < steps.len(),
    ensures
        views(steps).len() == steps.len(),
        views(steps)[i].slot == steps[i].slot,
        views(steps)[i].name == steps[i].name@,
{
}

} // verus!

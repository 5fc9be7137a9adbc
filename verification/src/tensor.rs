//! Integer tensors, as far as the planning code reads and writes them.
use candle_core::{DType, Device, DeviceLocation, Storage, Tensor};
use vstd::prelude::*;

use crate::error::ModelError;

verus! {

/// A tensor of candle, carried through as it is.
#[verifier::external_type_specification]
#[verifier::external_body]
pub struct ExTensor(candle_core::Tensor);

/// An error of candle, carried through as it is.
#[verifier::external_type_specification]
#[verifier::external_body]
pub struct ExError(candle_core::Error);

/// `Tensor::clone` shares the tensor: the result is the tensor itself.
pub assume_specification[ <candle_core::Tensor as Clone>::clone ](t: &candle_core::Tensor) -> (r:
    candle_core::Tensor)
    ensures
        r == *t,
;

/// The type of a tensor's elements, as far as it is told apart.
#[derive(Clone, Copy, Debug, PartialEq, Eq, Structural)]
pub enum Element {
    U8,
    U32,
    I16,
    I32,
    I64,
    BF16,
    F16,
    F32,
    F64,
    F8E4M3,
    /// Any that zeros cannot be made of.
    Other,
}

/// Where a tensor is kept.
#[derive(Clone, Copy, Debug, PartialEq, Eq, Structural)]
pub enum Place {
    Host,
    Cuda(usize),
    Metal(usize),
}

impl Element {
    /// Elements of this type can look rows of a table up.
    pub open spec fn is_index(self) -> bool {
        self == Element::U8 || self == Element::U32 || self == Element::I64
    }

    /// Whether elements of this type can look rows of a table up.
    pub fn looks_up(self) -> (r: bool)
        ensures
            r == self.is_index(),
    {
        self == Element::U8 || self == Element::U32 || self == Element::I64
    }
}

/// Where the elements of a tensor lie in its storage.
#[derive(Debug)]
pub struct Room {
    /// How many numbers the storage holds.
    pub len: usize,
    /// Where the first element lies.
    pub offset: usize,
    /// How far apart neighbours lie, for each dimension.
    pub strides: Vec<usize>,
}

/// The sizes of a tensor's dimensions, outermost first.
pub uninterp spec fn tensor_dims(t: candle_core::Tensor) -> Seq<usize>;

/// The type of a tensor's elements.
pub uninterp spec fn tensor_element(t: candle_core::Tensor) -> Element;

/// The values of a tensor of whole numbers, in row-major order. They stay the same as long as no
/// in-place operation of candle writes to the tensor; none is used here.
pub uninterp spec fn tensor_elements(t: candle_core::Tensor) -> Seq<int>;

/// Where a tensor is kept.
pub uninterp spec fn tensor_place(t: candle_core::Tensor) -> Place;

/// Where the elements of a tensor lie, if it holds unsigned 32-bit numbers in host memory: the
/// length of the storage, the first place, and the strides.
pub uninterp spec fn tensor_room(t: candle_core::Tensor) -> Option<(usize, usize, Seq<usize>)>;

/// The number of elements that a shape has room for.
pub open spec fn volume(dims: Seq<usize>) -> nat
    decreases dims.len(),
{
    if dims.len() == 0 {
        1
    } else {
        volume(dims.drop_last()) * dims.last() as nat
    }
}

/// The number of elements that a shape has room for, multiplied from the last dimension on.
pub open spec fn volume_from_last(dims: Seq<usize>) -> nat
    decreases dims.len(),
{
    if dims.len() == 0 {
        1
    } else {
        dims[0] as nat * volume_from_last(dims.drop_first())
    }
}

/// No product of the first dimensions is too large to count.
pub open spec fn prefixes_fit(dims: Seq<usize>) -> bool
    decreases dims.len(),
{
    dims.len() == 0 || (volume(dims) <= usize::MAX && prefixes_fit(dims.drop_last()))
}

/// No product of the last dimensions is too large to count.
pub open spec fn suffixes_fit(dims: Seq<usize>) -> bool
    decreases dims.len(),
{
    dims.len() == 0 || (volume_from_last(dims) <= usize::MAX && suffixes_fit(dims.drop_first()))
}

/// How far the last element lies behind the first.
pub open spec fn reach(dims: Seq<usize>, strides: Seq<usize>) -> int
    decreases dims.len(),
{
    if dims.len() == 0 {
        0
    } else {
        reach(dims.drop_last(), strides.drop_last()) + (dims.last() - 1) * strides.last()
    }
}

/// A storage holds every element that a shape asks for, and the shape can be counted and
/// copied out as 32-bit numbers.
pub open spec fn fits(dims: Seq<usize>, room: (usize, usize, Seq<usize>)) -> bool {
    &&& room.2.len() == dims.len()
    &&& prefixes_fit(dims)
    &&& suffixes_fit(dims)
    &&& volume(dims) <= usize::MAX / 8
    &&& room.1 <= room.0
    &&& volume(dims) > 0 ==> room.1 + reach(dims, room.2) < room.0
}

/// A tensor holds unsigned 32-bit numbers in host memory, and its storage fills its shape.
pub open spec fn readable(t: candle_core::Tensor) -> bool {
    tensor_room(t) matches Some(room) && fits(tensor_dims(t), room)
}

/// Where the elements lie, as plain values.
pub open spec fn room_values(room: Option<Room>) -> Option<(usize, usize, Seq<usize>)> {
    match room {
        None => None,
        Some(r) => Some((r.len, r.offset, r.strides@)),
    }
}

/// Calls `Tensor::dims`, which lists the sizes of the dimensions.
#[verifier::external_body]
pub(crate) fn read_dims(t: &Tensor) -> (r: Vec<usize>)
    ensures
        r@ == tensor_dims(*t),
{
    t.dims().to_vec()
}

/// Calls `Tensor::dtype`, which gives the type of the elements.
#[verifier::external_body]
pub(crate) fn read_element(t: &Tensor) -> (r: Element)
    ensures
        r == tensor_element(*t),
{
    match t.dtype() {
        DType::U8 => Element::U8,
        DType::U32 => Element::U32,
        DType::I16 => Element::I16,
        DType::I32 => Element::I32,
        DType::I64 => Element::I64,
        DType::BF16 => Element::BF16,
        DType::F16 => Element::F16,
        DType::F32 => Element::F32,
        DType::F64 => Element::F64,
        DType::F8E4M3 => Element::F8E4M3,
        _ => Element::Other,
    }
}

/// Calls `Tensor::device` and `Device::location`, which give the place of a tensor.
#[verifier::external_body]
pub(crate) fn read_place(t: &Tensor) -> (r: Place)
    ensures
        r == tensor_place(*t),
{
    match t.device().location() {
        DeviceLocation::Cpu => Place::Host,
        DeviceLocation::Cuda { gpu_id } => Place::Cuda(gpu_id),
        DeviceLocation::Metal { gpu_id } => Place::Metal(gpu_id),
    }
}

/// `m` is the tensor `t`, wherever either is kept: shape, type and elements are the same.
pub open spec fn same_values(m: candle_core::Tensor, t: candle_core::Tensor) -> bool {
    &&& tensor_dims(m) == tensor_dims(t)
    &&& tensor_element(m) == tensor_element(t)
    &&& tensor_elements(m) == tensor_elements(t)
}

/// Calls `Tensor::to_device` for the device of another tensor, which can refuse the copy.
#[verifier::external_body]
pub(crate) fn copy_beside(t: &Tensor, like: &Tensor) -> (r: Result<Tensor, candle_core::Error>)
    ensures
        r matches Ok(m) ==> same_values(m, *t) && tensor_place(m) == tensor_place(*like),
{
    t.to_device(like.device())
}

/// `m` holds what `t` holds and is kept where `like` is.
pub open spec fn kept_beside(
    m: candle_core::Tensor,
    t: candle_core::Tensor,
    like: candle_core::Tensor,
) -> bool {
    same_values(m, t) && tensor_place(m) == tensor_place(like)
}

/// A copy to the place of `like` failed, which is not in host memory.
pub open spec fn copy_refused(like: candle_core::Tensor, e: ModelError) -> bool {
    e is Tensor && tensor_place(like) != Place::Host
}

/// Brings a tensor from host memory to where another one is kept.
pub fn bring_beside(t: Tensor, like: &Tensor) -> (r: Result<Tensor, ModelError>)
    requires
        tensor_place(t) == Place::Host,
    ensures
        match r {
            Ok(m) => kept_beside(m, t, *like),
            Err(e) => copy_refused(*like, e),
        },
{
    if read_place(like) == Place::Host {
        return Ok(t);
    }
    match copy_beside(&t, like) {
        Ok(m) => Ok(m),
        Err(e) => Err(ModelError::Tensor(e)),
    }
}

/// `h` is the tensor `t` in host memory: shape, type and elements are the same, and 32-bit
/// unsigned numbers lie in a host storage.
pub open spec fn moved_to_host(h: candle_core::Tensor, t: candle_core::Tensor) -> bool {
    &&& same_values(h, t)
    &&& tensor_element(t) == Element::U32 ==> tensor_room(h) is Some
}

/// Calls `Tensor::to_device` for the host. A tensor that is there already comes back as it
/// is; another is copied with its layout, which its device can refuse.
#[verifier::external_body]
pub(crate) fn to_host(t: &Tensor) -> (r: Result<Tensor, candle_core::Error>)
    ensures
        tensor_room(*t) is Some ==> r is Ok && r->Ok_0 == *t,
        r matches Ok(h) ==> moved_to_host(h, *t),
{
    t.to_device(&Device::Cpu)
}

/// Calls `Tensor::storage_and_layout` and, for a host storage of `u32`, reports its length
/// with the layout's first place and strides.
#[verifier::external_body]
pub(crate) fn read_room(t: &Tensor) -> (r: Option<Room>)
    ensures
        room_values(r) == tensor_room(*t),
        r is Some ==> tensor_element(*t) == Element::U32 && tensor_place(*t) == Place::Host,
{
    let (storage, layout) = t.storage_and_layout();
    let data = match &*storage {
        Storage::Cpu(s) => s.as_slice::<u32>().ok()?,
        _ => return None,
    };
    let strides = layout.stride().to_vec();
    Some(Room { len: data.len(), offset: layout.start_offset(), strides })
}

/// `v` holds the elements of `t`, one for each place of its shape.
pub open spec fn all_elements(t: candle_core::Tensor, v: Seq<u32>) -> bool {
    &&& v.len() == volume(tensor_dims(t))
    &&& tensor_elements(t) == v.map_values(|x: u32| x as int)
}

/// Calls `Tensor::flatten_all` and `Tensor::to_vec1` for `u32`, which list the elements in
/// row-major order. They fail on another element type and panic where the storage is too
/// short for the shape or a product of sizes overflows, so the caller has tested both.
#[verifier::external_body]
pub(crate) fn copy_u32(t: &Tensor) -> (r: Result<Vec<u32>, candle_core::Error>)
    requires
        readable(*t),
    ensures
        r is Ok,
        all_elements(*t, r->Ok_0@),
{
    t.flatten_all()?.to_vec1::<u32>()
}

/// Multiplies the sizes from the first on, unless a product is too large to count.
fn count_from_first(dims: &Vec<usize>) -> (r: Option<usize>)
    ensures
        match r {
            Some(n) => prefixes_fit(dims@) && n == volume(dims@),
            None => !prefixes_fit(dims@),
        },
{
    let mut n: usize = 1;
    let mut i: usize = 0;
    while i < dims.len()
        invariant
            i <= dims@.len(),
            n == volume(dims@.take(i as int)),
            prefixes_fit(dims@.take(i as int)),
        decreases dims@.len() - i,
    {
        assert(dims@.take(i + 1).drop_last() =~= dims@.take(i as int));
        match n.checked_mul(dims[i]) {
            Some(m) => {
                n = m;
            },
            None => {
                proof {
                    lemma_prefix_fails(dims@, i + 1);
                }
                return None;
            },
        }
        i = i + 1;
    }
    assert(dims@.take(i as int) =~= dims@);
    Some(n)
}

proof fn lemma_prefix_fails(dims: Seq<usize>, n: int)
    requires
        0 <= n <= dims.len(),
        !prefixes_fit(dims.take(n)),
    ensures
        !prefixes_fit(dims),
    decreases dims.len(),
{
    if n == dims.len() {
        assert(dims.take(n) =~= dims);
    } else {
        assert(dims.drop_last().take(n) =~= dims.take(n));
        lemma_prefix_fails(dims.drop_last(), n);
    }
}

/// Whether no product of the last sizes is too large to count.
fn count_from_last(dims: &Vec<usize>) -> (r: bool)
    ensures
        r == suffixes_fit(dims@),
{
    let mut n: usize = 1;
    let mut i: usize = dims.len();
    assert(dims@.skip(i as int) =~= Seq::<usize>::empty());
    while i > 0
        invariant
            i <= dims@.len(),
            n == volume_from_last(dims@.skip(i as int)),
            suffixes_fit(dims@.skip(i as int)),
        decreases i,
    {
        assert(dims@.skip(i - 1).drop_first() =~= dims@.skip(i as int));
        match dims[i - 1].checked_mul(n) {
            Some(m) => {
                n = m;
            },
            None => {
                proof {
                    lemma_suffix_fails(dims@, i - 1);
                }
                return false;
            },
        }
        i = i - 1;
    }
    assert(dims@.skip(0) =~= dims@);
    true
}

proof fn lemma_suffix_fails(dims: Seq<usize>, n: int)
    requires
        0 <= n <= dims.len(),
        !suffixes_fit(dims.skip(n)),
    ensures
        !suffixes_fit(dims),
    decreases n,
{
    if n == 0 {
        assert(dims.skip(0) =~= dims);
    } else {
        assert(dims.drop_first().skip(n - 1) =~= dims.skip(n));
        lemma_suffix_fails(dims.drop_first(), n - 1);
    }
}

proof fn lemma_volume_positive(dims: Seq<usize>, i: int)
    requires
        volume(dims) > 0,
        0 <= i < dims.len(),
    ensures
        dims[i] > 0,
    decreases dims.len(),
{
    let head = volume(dims.drop_last());
    let last = dims.last() as nat;
    assert(head > 0 && last > 0) by (nonlinear_arith)
        requires
            head * last > 0,
            head >= 0,
            last >= 0,
    ;
    if i < dims.len() - 1 {
        lemma_volume_positive(dims.drop_last(), i);
    }
}

proof fn lemma_reach_grows(dims: Seq<usize>, strides: Seq<usize>, n: int)
    requires
        strides.len() == dims.len(),
        0 <= n <= dims.len(),
        forall|i: int| 0 <= i < dims.len() ==> #[trigger] dims[i] > 0,
    ensures
        0 <= reach(dims.take(n), strides.take(n)) <= reach(dims, strides),
    decreases dims.len(),
{
    if dims.len() == 0 {
        assert(dims.take(n) =~= dims);
    } else {
        let d = dims.drop_last();
        let s = strides.drop_last();
        let step = (dims.last() - 1) * strides.last();
        assert(step >= 0) by (nonlinear_arith)
            requires
                step == (dims.last() - 1) * strides.last(),
                dims.last() >= 1,
                strides.last() >= 0,
        ;
        if n == dims.len() {
            lemma_reach_grows(d, s, d.len() as int);
            assert(d.take(d.len() as int) =~= d);
            assert(s.take(s.len() as int) =~= s);
            assert(dims.take(n) =~= dims);
            assert(strides.take(n) =~= strides);
        } else {
            lemma_reach_grows(d, s, n);
            assert(d.take(n) =~= dims.take(n));
            assert(s.take(n) =~= strides.take(n));
        }
    }
}

/// Whether a storage holds every element that a shape asks for.
pub fn check_room(dims: &Vec<usize>, room: &Room) -> (r: bool)
    ensures
        r == fits(dims@, (room.len, room.offset, room.strides@)),
{
    if room.strides.len() != dims.len() || room.offset > room.len || !count_from_last(dims) {
        return false;
    }
    let n: usize = match count_from_first(dims) {
        Some(n) => n,
        None => return false,
    };
    if n > usize::MAX / 8 {
        return false;
    }
    if n == 0 {
        return true;
    }
    proof {
        assert forall|i: int| 0 <= i < dims@.len() implies #[trigger] dims@[i] > 0 by {
            lemma_volume_positive(dims@, i);
        }
    }
    let mut last: usize = room.offset;
    let mut i: usize = 0;
    while i < dims.len()
        invariant
            room.strides@.len() == dims@.len(),
            forall|i: int| 0 <= i < dims@.len() ==> #[trigger] dims@[i] > 0,
            i <= dims@.len(),
            n > 0,
            n == volume(dims@),
            last == room.offset + reach(dims@.take(i as int), room.strides@.take(i as int)),
        decreases dims@.len() - i,
    {
        let ghost s = room.strides@;
        proof {
            assert(dims@.take(i + 1).drop_last() =~= dims@.take(i as int));
            assert(s.take(i + 1).drop_last() =~= s.take(i as int));
            lemma_reach_grows(dims@, s, i + 1);
            assert(room.len <= usize::MAX);
        }
        let step: usize = match (dims[i] - 1).checked_mul(room.strides[i]) {
            Some(step) => step,
            None => return false,
        };
        last = match last.checked_add(step) {
            Some(x) => x,
            None => return false,
        };
        i = i + 1;
    }
    proof {
        assert(dims@.take(i as int) =~= dims@);
        assert(room.strides@.take(i as int) =~= room.strides@);
    }
    last < room.len
}

/// The storage of a tensor fills its shape, as far as it can be seen from the host.
pub open spec fn filled(t: candle_core::Tensor) -> bool {
    tensor_room(t) is Some ==> readable(t)
}

/// A tensor's elements cannot be read for the given reason: they are of another type, the
/// storage does not fill the shape, or they could not be brought to the host.
pub open spec fn unreadable(t: candle_core::Tensor, e: ModelError) -> bool {
    &&& !readable(t)
    &&& match e {
        ModelError::Tensor(_) => tensor_room(t) is None,
        ModelError::ElementType => tensor_element(t) != Element::U32,
        ModelError::Storage => tensor_element(t) == Element::U32,
        _ => false,
    }
}

/// Reads the elements of a tensor of unsigned 32-bit numbers.
pub fn read_elements(t: &Tensor) -> (r: Result<Vec<u32>, ModelError>)
    ensures
        match r {
            Ok(v) => {
                &&& tensor_element(*t) == Element::U32
                &&& suffixes_fit(tensor_dims(*t))
                &&& all_elements(*t, v@)
                &&& filled(*t)
            },
            Err(e) => unreadable(*t, e),
        },
{
    let host = match to_host(t) {
        Ok(h) => h,
        Err(e) => return Err(ModelError::Tensor(e)),
    };
    let room = match read_room(&host) {
        Some(room) => room,
        None => return Err(ModelError::ElementType),
    };
    let dims = read_dims(&host);
    if !check_room(&dims, &room) {
        return Err(ModelError::Storage);
    }
    match copy_u32(&host) {
        Ok(v) => Ok(v),
        Err(e) => Err(ModelError::Tensor(e)),
    }
}

/// The rows of a matrix, one after the other.
pub open spec fn row_major(rows: Seq<Seq<int>>) -> Seq<int>
    decreases rows.len(),
{
    if rows.len() == 0 {
        Seq::empty()
    } else {
        row_major(rows.drop_last()) + rows.last()
    }
}

/// The values of a two-dimensional tensor of unsigned 32-bit numbers, row by row.
pub open spec fn matrix_of(t: candle_core::Tensor) -> Seq<Seq<u32>> {
    Seq::new(
        tensor_dims(t)[0] as nat,
        |i: int|
            Seq::new(
                tensor_dims(t)[1] as nat,
                |j: int| tensor_elements(t)[i * tensor_dims(t)[1] + j] as u32,
            ),
    )
}

/// The values of a one-dimensional tensor of unsigned 32-bit numbers.
pub open spec fn vector_of(t: candle_core::Tensor) -> Seq<u32> {
    tensor_elements(t).map_values(|x: int| x as u32)
}

/// `t` has `rank` dimensions and an unsigned 32-bit number for each place.
pub open spec fn holds_u32(t: candle_core::Tensor, rank: nat) -> bool {
    &&& tensor_dims(t).len() == rank
    &&& tensor_element(t) == Element::U32
    &&& filled(t)
    &&& tensor_elements(t).len() == volume(tensor_dims(t))
    &&& forall|i: int|
        0 <= i < tensor_elements(t).len() ==> 0 <= #[trigger] tensor_elements(t)[i] <= u32::MAX
}

/// A tensor is refused where `rank` dimensions of unsigned 32-bit numbers are asked for.
pub open spec fn refused(t: candle_core::Tensor, rank: nat, e: ModelError) -> bool {
    if tensor_dims(t).len() != rank {
        e == ModelError::Rank
    } else {
        unreadable(t, e)
    }
}

/// Reads a one-dimensional tensor of unsigned 32-bit numbers.
pub fn read_vector(t: &Tensor) -> (r: Result<Vec<u32>, ModelError>)
    ensures
        match r {
            Ok(v) => holds_u32(*t, 1) && v@ == vector_of(*t),
            Err(e) => refused(*t, 1, e),
        },
{
    if read_dims(t).len() != 1 {
        return Err(ModelError::Rank);
    }
    let v = match read_elements(t) {
        Ok(v) => v,
        Err(e) => return Err(e),
    };
    assert(v@ =~= vector_of(*t));
    Ok(v)
}

/// Reads a two-dimensional tensor of unsigned 32-bit numbers, row by row.
pub fn read_matrix(t: &Tensor) -> (r: Result<Vec<Vec<u32>>, ModelError>)
    ensures
        match r {
            Ok(m) => holds_u32(*t, 2) && m.deep_view() == matrix_of(*t),
            Err(e) => refused(*t, 2, e),
        },
{
    let dims = read_dims(t);
    if dims.len() != 2 {
        return Err(ModelError::Rank);
    }
    let flat = match read_elements(t) {
        Ok(v) => v,
        Err(e) => return Err(e),
    };
    let n: usize = dims[0];
    let width: usize = dims[1];
    let ghost want = matrix_of(*t);
    proof {
        assert(dims@ =~= seq![n, width]);
        lemma_volume2(n, width);
        assert(0 * width == 0) by (nonlinear_arith);
    }
    let mut rows: Vec<Vec<u32>> = Vec::new();
    let mut at: usize = 0;
    let mut i: usize = 0;
    let total: usize = flat.len();
    assert(rows.deep_view() =~= want.take(0));
    while i < n
        invariant
            total == flat@.len(),
            want == matrix_of(*t),
            tensor_dims(*t) == seq![n, width],
            flat@.len() == n * width,
            tensor_elements(*t) == flat@.map_values(|x: u32| x as int),
            i <= n,
            at == i * width,
            rows.deep_view() == want.take(i as int),
        decreases n - i,
    {
        proof {
            assert((i + 1) * width == i * width + width && (i + 1) * width <= n * width)
                by (nonlinear_arith)
                requires
                    0 <= i < n,
                    width >= 0,
            ;
        }
        let end: usize = at + width;
        let mut row: Vec<u32> = Vec::new();
        let mut p: usize = at;
        assert(row@ =~= want[i as int].take(0));
        while p < end
            invariant
                want == matrix_of(*t),
                tensor_dims(*t) == seq![n, width],
                tensor_elements(*t) == flat@.map_values(|x: u32| x as int),
                i < n,
                at == i * width,
                at <= p <= end,
                end == at + width,
                end <= flat@.len(),
                row@ == want[i as int].take(p - at),
            decreases end - p,
        {
            row.push(flat[p]);
            assert(row@ =~= want[i as int].take(p - at + 1)) by {
                assert(want[i as int][p - at] == tensor_elements(*t)[p as int] as u32);
            }
            p = p + 1;
        }
        let ghost was = rows.deep_view();
        let ghost added = row@;
        rows.push(row);
        proof {
            assert(added =~= want[i as int]);
            assert(rows@.last().deep_view() =~= added);
            assert(rows.deep_view() =~= was.push(added));
            assert(rows.deep_view() =~= want.take(i + 1));
        }
        at = end;
        i = i + 1;
    }
    assert(want.take(i as int) =~= want);
    Ok(rows)
}

/// Rows of equal width have as many elements as a rectangle.
pub(crate) proof fn lemma_row_major_len(rows: Seq<Seq<int>>, width: nat)
    requires
        forall|i: int| 0 <= i < rows.len() ==> (#[trigger] rows[i]).len() == width,
    ensures
        row_major(rows).len() == rows.len() * width,
    decreases rows.len(),
{
    if rows.len() > 0 {
        let head = rows.drop_last();
        assert forall|i: int| 0 <= i < head.len() implies (#[trigger] head[i]).len() == width by {
            assert(head[i] == rows[i]);
        }
        lemma_row_major_len(head, width);
        assert(rows.last() == rows[rows.len() - 1]);
        assert(head.len() * width + width == rows.len() * width) by (nonlinear_arith)
            requires
                head.len() + 1 == rows.len(),
        ;
    }
}

/// The room of a vector.
pub(crate) proof fn lemma_volume1(a: usize)
    ensures
        volume(seq![a]) == a,
        suffixes_fit(seq![a]),
{
    reveal_with_fuel(volume, 2);
    reveal_with_fuel(volume_from_last, 2);
    reveal_with_fuel(suffixes_fit, 2);
    assert(seq![a].drop_last() =~= Seq::<usize>::empty());
    assert(seq![a].drop_first() =~= Seq::<usize>::empty());
    assert(1 * (a as nat) == a as nat);
    assert((a as nat) * 1 == a as nat);
}

/// The room of a matrix.
pub(crate) proof fn lemma_volume2(a: usize, b: usize)
    ensures
        volume(seq![a, b]) == a * b,
        a * b <= usize::MAX ==> suffixes_fit(seq![a, b]),
{
    lemma_volume1(a);
    lemma_volume1(b);
    assert(seq![a, b].drop_last() =~= seq![a]);
    assert(seq![a, b].drop_first() =~= seq![b]);
    reveal_with_fuel(volume_from_last, 3);
    assert(seq![b].drop_first() =~= Seq::<usize>::empty());
    assert((b as nat) * 1 == b as nat);
}

/// The room of a stack of matrices.
pub(crate) proof fn lemma_volume3(a: usize, b: usize, c: usize)
    ensures
        volume(seq![a, b, c]) == a * b * c,
        a > 0 && a * b * c <= usize::MAX ==> suffixes_fit(seq![a, b, c]),
{
    assert(seq![a, b, c].drop_last() =~= seq![a, b]);
    assert(seq![a, b, c].drop_first() =~= seq![b, c]);
    lemma_volume2(a, b);
    lemma_volume2(b, c);
    reveal_with_fuel(volume_from_last, 4);
    assert(seq![b, c].drop_first() =~= seq![c]);
    assert(seq![c].drop_first() =~= Seq::<usize>::empty());
    assert((c as nat) * 1 == c as nat);
    assert((a as nat) * ((b as nat) * (c as nat)) == a * b * c) by (nonlinear_arith);
    if a > 0 && a * b * c <= usize::MAX {
        assert(b * c <= a * b * c) by (nonlinear_arith)
            requires
                a > 0,
                b >= 0,
                c >= 0,
        ;
    }
}

/// Calls `Tensor::from_vec` for `u32` on the host. It does not compare the shape with the
/// number of elements, so the caller does; the tensor then has that shape, that element type
/// and those elements in row-major order, and its storage fills the shape.
#[verifier::external_body]
pub(crate) fn make_u32(data: Vec<u32>, dims: Vec<usize>) -> (r: Result<
    Tensor,
    candle_core::Error,
>)
    requires
        volume(dims@) == data@.len(),
        suffixes_fit(dims@),
    ensures
        r is Ok,
        tensor_dims(r->Ok_0) == dims@,
        tensor_element(r->Ok_0) == Element::U32,
        tensor_place(r->Ok_0) == Place::Host,
        tensor_elements(r->Ok_0) == data@.map_values(|x: u32| x as int),
        tensor_room(r->Ok_0) is Some,
        prefixes_fit(dims@) && volume(dims@) <= usize::MAX / 8 ==> readable(r->Ok_0),
{
    Tensor::from_vec(data, dims, &Device::Cpu)
}

/// Calls `Tensor::from_vec` for `u8` on the host. It does not compare the shape with the
/// number of elements, so the caller does; the tensor then has that shape, that element type
/// and those elements in row-major order.
#[verifier::external_body]
pub(crate) fn make_u8(data: Vec<u8>, dims: Vec<usize>) -> (r: Result<
    Tensor,
    candle_core::Error,
>)
    requires
        volume(dims@) == data@.len(),
        suffixes_fit(dims@),
    ensures
        r is Ok,
        tensor_dims(r->Ok_0) == dims@,
        tensor_element(r->Ok_0) == Element::U8,
        tensor_place(r->Ok_0) == Place::Host,
        tensor_elements(r->Ok_0) == data@.map_values(|x: u8| x as int),
{
    Tensor::from_vec(data, dims, &Device::Cpu)
}

/// Calls `Tensor::from_vec` for `i64` on the host. It does not compare the shape with the
/// number of elements, so the caller does; the tensor then has that shape, that element type
/// and those elements in row-major order.
#[verifier::external_body]
pub(crate) fn make_i64(data: Vec<i64>, dims: Vec<usize>) -> (r: Result<
    Tensor,
    candle_core::Error,
>)
    requires
        volume(dims@) == data@.len(),
        suffixes_fit(dims@),
    ensures
        r is Ok,
        tensor_dims(r->Ok_0) == dims@,
        tensor_element(r->Ok_0) == Element::I64,
        tensor_place(r->Ok_0) == Place::Host,
        tensor_elements(r->Ok_0) == data@.map_values(|x: i64| x as int),
{
    Tensor::from_vec(data, dims, &Device::Cpu)
}

/// Calls `Tensor::zeros` on the host for the element type of another tensor. It
/// multiplies the sizes and sets room aside for as many elements, of eight bytes at most; the
/// tensor then has that shape, that element type, and zeros alone.
#[verifier::external_body]
pub(crate) fn make_zeros(like: &Tensor, dims: Vec<usize>) -> (r: Result<
    Tensor,
    candle_core::Error,
>)
    requires
        tensor_element(*like) != Element::Other,
        prefixes_fit(dims@),
        suffixes_fit(dims@),
        volume(dims@) <= usize::MAX / 16,
    ensures
        r is Ok,
        tensor_dims(r->Ok_0) == dims@,
        tensor_element(r->Ok_0) == tensor_element(*like),
        tensor_place(r->Ok_0) == Place::Host,
        tensor_elements(r->Ok_0) == Seq::new(volume(dims@), |i: int| 0int),
{
    Tensor::zeros(dims, like.dtype(), &Device::Cpu)
}

/// Rows of equal width stand one behind the other: token `j` of row `i` is `i` widths and `j`
/// places from the start.
pub proof fn rows_stand_one_behind_the_other(rows: Seq<Seq<int>>, width: nat, i: int, j: int)
    requires
        forall|k: int| 0 <= k < rows.len() ==> (#[trigger] rows[k]).len() == width,
        0 <= i < rows.len(),
        0 <= j < width,
    ensures
        row_major(rows).len() == rows.len() * width,
        0 <= i * width + j < row_major(rows).len(),
        row_major(rows)[i * width + j] == rows[i][j],
    decreases rows.len(),
{
    let head = rows.drop_last();
    lemma_row_major_len(rows, width);
    assert forall|k: int| 0 <= k < head.len() implies (#[trigger] head[k]).len() == width by {
        assert(head[k] == rows[k]);
    }
    lemma_row_major_len(head, width);
    assert(rows[rows.len() - 1].len() == width);
    assert(0 <= i * width && i * width + width <= rows.len() * width) by (nonlinear_arith)
        requires
            0 <= i < rows.len(),
            width >= 0,
    ;
    if i < head.len() {
        rows_stand_one_behind_the_other(head, width, i, j);
        assert(head[i] == rows[i]);
    } else {
        assert(i == head.len());
    }
}

/// A matrix reads row by row.
pub proof fn matrices_read_row_by_row(t: candle_core::Tensor, i: int, j: int)
    requires
        holds_u32(t, 2),
        0 <= i < tensor_dims(t)[0],
        0 <= j < tensor_dims(t)[1],
    ensures
        matrix_of(t).len() == tensor_dims(t)[0],
        matrix_of(t)[i].len() == tensor_dims(t)[1],
        0 <= i * tensor_dims(t)[1] + j < tensor_elements(t).len(),
        matrix_of(t)[i][j] == tensor_elements(t)[i * tensor_dims(t)[1] + j],
{
    let dims = tensor_dims(t);
    let e = tensor_elements(t);
    assert(dims =~= seq![dims[0], dims[1]]);
    lemma_volume2(dims[0], dims[1]);
    let at = i * dims[1] + j;
    assert(0 <= at < dims[0] * dims[1]) by (nonlinear_arith)
        requires
            0 <= i < dims[0],
            0 <= j < dims[1],
            at == i * dims[1] + j,
    ;
    assert(0 <= e[at] <= u32::MAX);
}

/// A vector reads from its first number to its last.
pub proof fn vectors_read_in_order(t: candle_core::Tensor, i: int)
    requires
        holds_u32(t, 1),
        0 <= i < tensor_dims(t)[0],
    ensures
        vector_of(t).len() == tensor_dims(t)[0],
        vector_of(t)[i] == tensor_elements(t)[i],
{
    assert(tensor_dims(t) =~= seq![tensor_dims(t)[0]]);
    lemma_volume1(tensor_dims(t)[0]);
    assert(0 <= tensor_elements(t)[i] <= u32::MAX);
}

/// Shapes multiply: nothing has room for one element, and a further dimension takes as many
/// times the room as it is long.
pub proof fn rooms_multiply(dims: Seq<usize>, n: usize)
    ensures
        volume(Seq::<usize>::empty()) == 1,
        volume(dims.push(n)) == volume(dims) * n,
{
    assert(dims.push(n).drop_last() =~= dims);
}

/// Where a storage fills the shape of a matrix, each of its elements lies in it.
pub proof fn elements_lie_in_their_storage(
    a: usize,
    b: usize,
    room: (usize, usize, Seq<usize>),
    i: int,
    j: int,
)
    requires
        fits(seq![a, b], room),
        0 <= i < a,
        0 <= j < b,
    ensures
        room.2.len() == 2,
        0 <= room.1 + i * room.2[0] + j * room.2[1] < room.0,
{
    let dims = seq![a, b];
    let s = room.2;
    lemma_volume2(a, b);
    assert(a * b > 0) by (nonlinear_arith)
        requires
            a > 0,
            b > 0,
    ;
    reveal_with_fuel(reach, 3);
    assert(dims.drop_last() =~= seq![a]);
    assert(s.drop_last() =~= seq![s[0]]);
    assert(seq![a].drop_last() =~= Seq::<usize>::empty());
    assert(reach(dims, s) == (a - 1) * s[0] + (b - 1) * s[1]);
    assert(0 <= i * s[0] <= (a - 1) * s[0]) by (nonlinear_arith)
        requires
            0 <= i <= a - 1,
            s[0] >= 0,
    ;
    assert(0 <= j * s[1] <= (b - 1) * s[1]) by (nonlinear_arith)
        requires
            0 <= j <= b - 1,
            s[1] >= 0,
    ;
}

/// A matrix that lies row by row in a storage that is long enough can be read, as long as its
/// elements can be counted.
pub proof fn dense_matrices_are_readable(a: usize, b: usize, len: usize, offset: usize)
    requires
        offset + a * b <= len,
        a * b <= usize::MAX / 8,
    ensures
        fits(seq![a, b], (len, offset, seq![b, 1usize])),
{
    let dims = seq![a, b];
    let s = seq![b, 1usize];
    lemma_volume2(a, b);
    lemma_volume1(a);
    assert(0 <= a * b) by (nonlinear_arith)
        requires
            a >= 0,
            b >= 0,
    ;
    reveal_with_fuel(reach, 3);
    reveal_with_fuel(prefixes_fit, 3);
    assert(dims.drop_last() =~= seq![a]);
    assert(s.drop_last() =~= seq![b]);
    assert(seq![a].drop_last() =~= Seq::<usize>::empty());
    assert(seq![b].drop_last() =~= Seq::<usize>::empty());
    assert(reach(dims, s) == (a - 1) * b + (b - 1) * 1);
    assert((a - 1) * b + b == a * b) by (nonlinear_arith);
}

/// Rows of a table are looked up by bytes and by whole numbers of 32 unsigned or 64 signed bits,
/// and by no other type.
pub proof fn tables_are_looked_up_by_whole_numbers(e: Element)
    ensures
        e.is_index() <==> e is U8 || e is U32 || e is I64,
{
}

/// A tensor that can be read is not refused where its number of dimensions is asked for; one
/// with another number of dimensions is refused for that alone. Types and storages are named
/// only where they are at fault.
pub proof fn readable_tensors_are_not_refused(t: candle_core::Tensor, rank: nat, e: ModelError)
    ensures
        readable(t) && tensor_dims(t).len() == rank ==> !refused(t, rank, e),
        tensor_dims(t).len() != rank ==> (refused(t, rank, e) <==> e == ModelError::Rank),
        refused(t, rank, e) && e == ModelError::ElementType ==> tensor_element(t) != Element::U32,
        refused(t, rank, e) && e == ModelError::Storage ==> tensor_element(t) == Element::U32
            && !readable(t),
{
}

/// A tensor that is brought beside another holds what it held, and is kept where the other is;
/// to the host it is always brought.
pub proof fn tensors_move_unchanged(
    m: candle_core::Tensor,
    t: candle_core::Tensor,
    like: candle_core::Tensor,
    e: ModelError,
)
    ensures
        kept_beside(m, t, like) ==> {
            &&& tensor_dims(m) == tensor_dims(t)
            &&& tensor_element(m) == tensor_element(t)
            &&& tensor_elements(m) == tensor_elements(t)
            &&& tensor_place(m) == tensor_place(like)
        },
        tensor_place(like) == Place::Host ==> !copy_refused(like, e),
{
}

} // verus!

//! The header of a weight file, walked through before it is parsed.
//!
//! The parser divides by the alignment that a header names and sets room aside for as many
//! bytes as it names, so a header is walked through first: every length in it is within the
//! bytes at hand, and the alignment is not zero.
use candle_core::quantized::gguf_file::Content;
use vstd::prelude::*;

use crate::error::ModelError;
use crate::gguf::parse_header;

verus! {

/// How deep arrays within arrays may go. The parser calls itself for every level, and past a
/// depth that the machine's stack sets it does not return.
pub const MAX_NESTING: u32 = 256;

/// How many bytes the name of the alignment entry has.
pub const ALIGNMENT_KEY_LEN: usize = 17;

/// The number that `n` bytes from `at` on stand for, the least significant byte first.
pub open spec fn little(bytes: Seq<u8>, at: int, n: nat) -> nat
    decreases n,
{
    if n == 0 {
        0
    } else {
        bytes[at] as nat + 256 * little(bytes, at + 1, (n - 1) as nat)
    }
}

/// The place behind `n` bytes, if there are as many.
pub open spec fn behind(bytes: Seq<u8>, at: nat, n: nat) -> Option<nat> {
    if at + n <= bytes.len() {
        Some(at + n)
    } else {
        None
    }
}

/// How many bytes a length takes: four in headers of the first version, eight in later ones.
pub open spec fn length_size(first: bool) -> nat {
    if first {
        4
    } else {
        8
    }
}

/// The place behind a string: its length, then its bytes.
pub open spec fn text_end(bytes: Seq<u8>, at: nat, first: bool) -> Option<nat> {
    match behind(bytes, at, length_size(first)) {
        None => None,
        Some(p) => behind(bytes, p, little(bytes, at as int, length_size(first))),
    }
}

/// How many bytes a single number or truth value takes, by the number of its type.
pub open spec fn scalar_size(kind: nat) -> Option<nat> {
    if kind == 0 || kind == 1 || kind == 7 {
        Some(1)
    } else if kind == 2 || kind == 3 {
        Some(2)
    } else if 4 <= kind <= 6 {
        Some(4)
    } else if 10 <= kind <= 12 {
        Some(8)
    } else {
        None
    }
}

/// The place behind a value of the given type, if the value is all there and arrays do not go
/// deeper than `depth`.
pub open spec fn value_end(bytes: Seq<u8>, at: nat, kind: nat, first: bool, depth: nat) -> Option<
    nat,
>
    decreases depth, 0nat,
{
    if kind == 8 {
        text_end(bytes, at, first)
    } else if kind == 9 {
        match behind(bytes, at, 4 + length_size(first)) {
            None => None,
            Some(p) => {
                let n = little(bytes, (at + 4) as int, length_size(first));
                if depth == 0 || p + n > bytes.len() || n > isize::MAX / 64 {
                    None
                } else {
                    items_end(
                        bytes,
                        p,
                        little(bytes, at as int, 4),
                        n,
                        first,
                        (depth - 1) as nat,
                    )
                }
            },
        }
    } else {
        match scalar_size(kind) {
            None => None,
            Some(n) => behind(bytes, at, n),
        }
    }
}

/// The place behind `n` values of the given type.
pub open spec fn items_end(
    bytes: Seq<u8>,
    at: nat,
    kind: nat,
    n: nat,
    first: bool,
    depth: nat,
) -> Option<nat>
    decreases depth, n + 1,
{
    if n == 0 {
        Some(at)
    } else {
        match value_end(bytes, at, kind, first, depth) {
            None => None,
            Some(p) => items_end(bytes, p, kind, (n - 1) as nat, first, depth),
        }
    }
}

/// `general.alignment`, as bytes.
pub open spec fn alignment_key() -> Seq<u8> {
    seq![
        103u8,
        101,
        110,
        101,
        114,
        97,
        108,
        46,
        97,
        108,
        105,
        103,
        110,
        109,
        101,
        110,
        116,
    ]
}

/// The bytes from `at` to `end` name the alignment; zero bytes behind the name do not count.
pub open spec fn names_alignment(bytes: Seq<u8>, at: int, end: int) -> bool {
    &&& end - at >= ALIGNMENT_KEY_LEN
    &&& bytes.subrange(at, at + ALIGNMENT_KEY_LEN) == alignment_key()
    &&& forall|i: int| at + ALIGNMENT_KEY_LEN <= i < end ==> #[trigger] bytes[i] == 0
}

/// A value is the whole number zero.
pub open spec fn is_zero(bytes: Seq<u8>, at: nat, kind: nat) -> bool {
    kind <= 5 && little(bytes, at as int, scalar_size(kind)->0) == 0
}

/// The place behind `n` named values, and whether the last alignment among them is zero.
pub open spec fn entries_end(bytes: Seq<u8>, at: nat, n: nat, first: bool, zero: bool) -> Option<
    (nat, bool),
>
    decreases n,
{
    if n == 0 {
        Some((at, zero))
    } else {
        match text_end(bytes, at, first) {
            None => None,
            Some(k) => match behind(bytes, k, 4) {
                None => None,
                Some(v) => {
                    let kind = little(bytes, k as int, 4);
                    match value_end(bytes, v, kind, first, MAX_NESTING as nat) {
                        None => None,
                        Some(p) => entries_end(
                            bytes,
                            p,
                            (n - 1) as nat,
                            first,
                            if names_alignment(
                                bytes,
                                (at + length_size(first)) as int,
                                k as int,
                            ) {
                                is_zero(bytes, v, kind)
                            } else {
                                zero
                            },
                        ),
                    }
                },
            },
        }
    }
}

/// The place behind the description of a stored tensor: its name, the number of its
/// dimensions, their sizes, its type and where it lies.
pub open spec fn info_end(bytes: Seq<u8>, at: nat, first: bool) -> Option<nat> {
    match text_end(bytes, at, first) {
        None => None,
        Some(k) => match behind(bytes, k, 4) {
            None => None,
            Some(d) => behind(
                bytes,
                d,
                little(bytes, k as int, 4) * length_size(first) + 12,
            ),
        },
    }
}

/// The place behind the descriptions of `n` stored tensors.
pub open spec fn infos_end(bytes: Seq<u8>, at: nat, n: nat, first: bool) -> Option<nat>
    decreases n,
{
    if n == 0 {
        Some(at)
    } else {
        match info_end(bytes, at, first) {
            None => None,
            Some(p) => infos_end(bytes, p, (n - 1) as nat, first),
        }
    }
}

/// The version of a header, if the bytes begin like one.
pub open spec fn version_of(bytes: Seq<u8>) -> Option<nat> {
    let magic = little(bytes, 0, 4);
    let version = little(bytes, 4, 4);
    if bytes.len() >= 8 && (magic == 0x46554747 || magic == 0x47475546) && 1 <= version <= 3 {
        Some(version)
    } else {
        None
    }
}

/// The bytes begin with a whole header, and it does not ask for an alignment of zero.
pub open spec fn is_whole(bytes: Seq<u8>) -> bool {
    match version_of(bytes) {
        None => false,
        Some(version) => {
            let first = version == 1;
            let size = length_size(first);
            let tensors = little(bytes, 8, size);
            let values = little(bytes, (8 + size) as int, size);
            &&& 8 + 2 * size <= bytes.len()
            &&& tensors <= bytes.len()
            &&& values <= bytes.len()
            &&& entries_end(bytes, 8 + 2 * size, values, first, false) matches Some(e) && !e.1
                && infos_end(bytes, e.0, tensors, first) is Some
        },
    }
}

/// A place as a natural number.
pub open spec fn place(r: Option<usize>) -> Option<nat> {
    match r {
        None => None,
        Some(p) => Some(p as nat),
    }
}

/// One more than the largest number that `n` bytes stand for.
spec fn above(n: nat) -> nat
    decreases n,
{
    if n == 0 {
        1
    } else {
        256 * above((n - 1) as nat)
    }
}

proof fn lemma_little(bytes: Seq<u8>, at: int, n: nat)
    ensures
        little(bytes, at, n) < above(n),
    decreases n,
{
    if n > 0 {
        lemma_little(bytes, at + 1, (n - 1) as nat);
    }
}

proof fn lemma_above(n: nat)
    requires
        n <= 8,
    ensures
        above(n) <= 0x1_0000_0000_0000_0000,
        n <= 4 ==> above(n) <= 0x1_0000_0000,
{
    reveal_with_fuel(above, 9);
    assert(above(1) == 0x100);
    assert(above(2) == 0x1_0000);
    assert(above(3) == 0x100_0000);
    assert(above(4) == 0x1_0000_0000);
    assert(above(5) == 0x100_0000_0000);
    assert(above(6) == 0x1_0000_0000_0000);
    assert(above(7) == 0x100_0000_0000_0000);
    assert(above(8) == 0x1_0000_0000_0000_0000);
}

/// Reads the number that `n` bytes stand for.
fn read_little(bytes: &[u8], at: usize, n: usize) -> (r: u64)
    requires
        n <= 8,
        at + n <= bytes@.len(),
    ensures
        r == little(bytes@, at as int, n as nat),
        n <= 4 ==> r <= u32::MAX,
{
    let mut value: u64 = 0;
    let mut left: usize = n;
    let end: usize = bytes.len();
    while left > 0
        invariant
            n <= 8,
            at + n <= end,
            end == bytes@.len(),
            left <= n,
            value == little(bytes@, at + left, (n - left) as nat),
        decreases left,
    {
        let ghost m = (n - left + 1) as nat;
        proof {
            lemma_little(bytes@, at + left - 1, m);
            lemma_above(m);
            assert(at + left - 1 + 1 == at + left);
        }
        assert(little(bytes@, at + left - 1, m) == bytes@[at + left - 1] as nat + 256 * value);
        value = bytes[at + left - 1] as u64 + 256 * value;
        left = left - 1;
    }
    proof {
        lemma_little(bytes@, at as int, n as nat);
        lemma_above(n as nat);
    }
    value
}

/// The place behind `n` bytes, if there are as many.
fn pass(bytes: &[u8], at: usize, n: u64) -> (r: Option<usize>)
    requires
        at <= bytes@.len(),
    ensures
        place(r) == behind(bytes@, at as nat, n as nat),
        r matches Some(p) ==> p <= bytes@.len(),
{
    if n <= (bytes.len() - at) as u64 {
        Some(at + n as usize)
    } else {
        None
    }
}

fn size_of_length(first: bool) -> (r: usize)
    ensures
        r == length_size(first),
{
    if first {
        4
    } else {
        8
    }
}

fn pass_text(bytes: &[u8], at: usize, first: bool) -> (r: Option<usize>)
    requires
        at <= bytes@.len(),
    ensures
        place(r) == text_end(bytes@, at as nat, first),
        r matches Some(p) ==> p <= bytes@.len(),
{
    let size: usize = size_of_length(first);
    match pass(bytes, at, size as u64) {
        None => None,
        Some(p) => pass(bytes, p, read_little(bytes, at, size)),
    }
}

fn size_of_scalar(kind: u64) -> (r: Option<usize>)
    ensures
        place(r) == scalar_size(kind as nat),
{
    if kind == 0 || kind == 1 || kind == 7 {
        Some(1)
    } else if kind == 2 || kind == 3 {
        Some(2)
    } else if 4 <= kind && kind <= 6 {
        Some(4)
    } else if 10 <= kind && kind <= 12 {
        Some(8)
    } else {
        None
    }
}

fn pass_value(bytes: &[u8], at: usize, kind: u64, first: bool, depth: u32) -> (r: Option<usize>)
    requires
        at <= bytes@.len(),
    ensures
        place(r) == value_end(bytes@, at as nat, kind as nat, first, depth as nat),
        r matches Some(p) ==> p <= bytes@.len(),
    decreases depth, 0nat,
{
    if kind == 8 {
        return pass_text(bytes, at, first);
    }
    if kind == 9 {
        let size: usize = size_of_length(first);
        let p: usize = match pass(bytes, at, 4 + size as u64) {
            None => return None,
            Some(p) => p,
        };
        let n: u64 = read_little(bytes, at + 4, size);
        if depth == 0 || n > (bytes.len() - p) as u64 || n > (isize::MAX / 64) as u64 {
            return None;
        }
        return pass_items(bytes, p, read_little(bytes, at, 4), n as usize, first, depth - 1);
    }
    match size_of_scalar(kind) {
        None => None,
        Some(n) => pass(bytes, at, n as u64),
    }
}

fn pass_items(bytes: &[u8], at: usize, kind: u64, n: usize, first: bool, depth: u32) -> (r: Option<
    usize,
>)
    requires
        at <= bytes@.len(),
    ensures
        place(r) == items_end(bytes@, at as nat, kind as nat, n as nat, first, depth as nat),
        r matches Some(p) ==> p <= bytes@.len(),
    decreases depth, 1nat,
{
    let mut p: usize = at;
    let mut left: usize = n;
    while left > 0
        invariant
            p <= bytes@.len(),
            items_end(bytes@, at as nat, kind as nat, n as nat, first, depth as nat) == items_end(
                bytes@,
                p as nat,
                kind as nat,
                left as nat,
                first,
                depth as nat,
            ),
        decreases left,
    {
        match pass_value(bytes, p, kind, first, depth) {
            None => return None,
            Some(q) => {
                p = q;
            },
        }
        left = left - 1;
    }
    Some(p)
}

/// Whether the bytes from `at` to `end` name the alignment.
fn is_alignment(bytes: &[u8], at: usize, end: usize) -> (r: bool)
    requires
        at <= end <= bytes@.len(),
    ensures
        r == names_alignment(bytes@, at as int, end as int),
{
    let key: [u8; 17] = [
        103, 101, 110, 101, 114, 97, 108, 46, 97, 108, 105, 103, 110, 109, 101, 110, 116,
    ];
    assert(key@ =~= alignment_key());
    if end - at < ALIGNMENT_KEY_LEN {
        return false;
    }
    let ghost named = bytes@.subrange(at as int, at + ALIGNMENT_KEY_LEN);
    let mut i: usize = 0;
    while i < ALIGNMENT_KEY_LEN
        invariant
            at + ALIGNMENT_KEY_LEN <= end <= bytes@.len(),
            key@ == alignment_key(),
            named == bytes@.subrange(at as int, at + ALIGNMENT_KEY_LEN),
            i <= ALIGNMENT_KEY_LEN,
            forall|j: int| 0 <= j < i ==> named[j] == key@[j],
        decreases ALIGNMENT_KEY_LEN - i,
    {
        assert(named[i as int] == bytes@[at + i]);
        if bytes[at + i] != key[i] {
            return false;
        }
        i = i + 1;
    }
    assert(named =~= alignment_key());
    let mut j: usize = at + ALIGNMENT_KEY_LEN;
    while j < end
        invariant
            at + ALIGNMENT_KEY_LEN <= j <= end <= bytes@.len(),
            forall|i: int| at + ALIGNMENT_KEY_LEN <= i < j ==> #[trigger] bytes@[i] == 0,
        decreases end - j,
    {
        if bytes[j] != 0 {
            return false;
        }
        j = j + 1;
    }
    true
}

/// Passes `n` named values; tells also whether the last alignment among them is zero.
fn pass_entries(bytes: &[u8], at: usize, n: usize, first: bool) -> (r: Option<(usize, bool)>)
    requires
        at <= bytes@.len(),
    ensures
        ({
            let want = entries_end(bytes@, at as nat, n as nat, first, false);
            match r {
                None => want is None,
                Some(e) => e.0 <= bytes@.len() && want == Some((e.0 as nat, e.1)),
            }
        }),
{
    let size: usize = size_of_length(first);
    let mut p: usize = at;
    let mut zero = false;
    let mut left: usize = n;
    while left > 0
        invariant
            size == length_size(first),
            p <= bytes@.len(),
            entries_end(bytes@, at as nat, n as nat, first, false) == entries_end(
                bytes@,
                p as nat,
                left as nat,
                first,
                zero,
            ),
        decreases left,
    {
        let k: usize = match pass_text(bytes, p, first) {
            None => return None,
            Some(k) => k,
        };
        let v: usize = match pass(bytes, k, 4) {
            None => return None,
            Some(v) => v,
        };
        let kind: u64 = read_little(bytes, k, 4);
        let q: usize = match pass_value(bytes, v, kind, first, MAX_NESTING) {
            None => return None,
            Some(q) => q,
        };
        if is_alignment(bytes, p + size, k) {
            zero = false;
            if kind <= 5 {
                if let Some(m) = size_of_scalar(kind) {
                    zero = read_little(bytes, v, m) == 0;
                }
            }
        }
        p = q;
        left = left - 1;
    }
    Some((p, zero))
}

fn pass_infos(bytes: &[u8], at: usize, n: usize, first: bool) -> (r: Option<usize>)
    requires
        at <= bytes@.len(),
    ensures
        place(r) == infos_end(bytes@, at as nat, n as nat, first),
        r matches Some(p) ==> p <= bytes@.len(),
{
    let size: u64 = if first {
        4
    } else {
        8
    };
    let mut p: usize = at;
    let mut left: usize = n;
    while left > 0
        invariant
            size == length_size(first),
            p <= bytes@.len(),
            infos_end(bytes@, at as nat, n as nat, first) == infos_end(
                bytes@,
                p as nat,
                left as nat,
                first,
            ),
        decreases left,
    {
        let k: usize = match pass_text(bytes, p, first) {
            None => return None,
            Some(k) => k,
        };
        let d: usize = match pass(bytes, k, 4) {
            None => return None,
            Some(d) => d,
        };
        let dims: u64 = read_little(bytes, k, 4);
        assert(dims * size <= 0xffff_ffff * 8) by (nonlinear_arith)
            requires
                dims <= 0xffff_ffff,
                size <= 8,
        ;
        match pass(bytes, d, dims * size + 12) {
            None => return None,
            Some(q) => {
                p = q;
            },
        }
        left = left - 1;
    }
    Some(p)
}

/// Whether the bytes begin with a whole header that does not ask for an alignment of zero.
pub fn check_header(bytes: &[u8]) -> (r: bool)
    ensures
        r == is_whole(bytes@),
{
    if bytes.len() < 8 {
        return false;
    }
    let magic: u64 = read_little(bytes, 0, 4);
    let version: u64 = read_little(bytes, 4, 4);
    if (magic != 0x46554747 && magic != 0x47475546) || version < 1 || version > 3 {
        return false;
    }
    let first = version == 1;
    let size: usize = size_of_length(first);
    if bytes.len() < 8 + 2 * size {
        return false;
    }
    let tensors: u64 = read_little(bytes, 8, size);
    let values: u64 = read_little(bytes, 8 + size, size);
    if tensors > bytes.len() as u64 || values > bytes.len() as u64 {
        return false;
    }
    match pass_entries(bytes, 8 + 2 * size, values as usize, first) {
        None => false,
        Some((p, zero)) => !zero && pass_infos(bytes, p, tensors as usize, first).is_some(),
    }
}

/// The header that bytes begin with, if it is whole and can be parsed.
pub open spec fn header_of(bytes: Seq<u8>) -> Option<Content> {
    if is_whole(bytes) {
        crate::gguf::parsed_header(bytes)
    } else {
        None
    }
}

/// Reads the header that the bytes of a weight file begin with.
pub fn read_header(bytes: &[u8]) -> (r: Result<Content, ModelError>)
    ensures
        match header_of(bytes@) {
            Some(ct) => r == Ok::<Content, ModelError>(ct),
            None => r == Err::<Content, ModelError>(ModelError::Source),
        },
{
    if !check_header(bytes) {
        return Err(ModelError::Source);
    }
    match parse_header(bytes) {
        Some(ct) => Ok(ct),
        None => Err(ModelError::Source),
    }
}

/// A number written with its least significant byte first.
pub open spec fn bytes_of(n: nat, size: nat) -> Seq<u8>
    decreases size,
{
    if size == 0 {
        Seq::empty()
    } else {
        seq![(n % 256) as u8] + bytes_of(n / 256, (size - 1) as nat)
    }
}

/// A string as it is written: its length, then its bytes.
pub open spec fn written_text(s: Seq<u8>, first: bool) -> Seq<u8> {
    bytes_of(s.len(), length_size(first)) + s
}

/// A value of a header: a single string or number, or a list of them. Strings have type 8, and
/// lists are written with type 9.
pub enum HeaderValue {
    Single { kind: nat, bytes: Seq<u8> },
    List { kind: nat, items: Seq<Seq<u8>> },
}

/// A named value of a header.
pub struct HeaderEntry {
    pub key: Seq<u8>,
    pub value: HeaderValue,
}

/// The description of a stored tensor: its name, the number of its dimensions, and their sizes,
/// its type and its place as they are written.
pub struct HeaderTensor {
    pub name: Seq<u8>,
    pub dims: nat,
    pub rest: Seq<u8>,
}

/// A string or a number as it is written.
pub open spec fn written_item(kind: nat, bytes: Seq<u8>, first: bool) -> Seq<u8> {
    if kind == 8 {
        written_text(bytes, first)
    } else {
        bytes
    }
}

/// Some strings or numbers as they are written.
pub open spec fn written_items(kind: nat, items: Seq<Seq<u8>>, first: bool) -> Seq<u8>
    decreases items.len(),
{
    if items.len() == 0 {
        Seq::empty()
    } else {
        written_item(kind, items[0], first) + written_items(kind, items.drop_first(), first)
    }
}

/// A named value as it is written: name, type, value.
pub open spec fn written_entry(e: HeaderEntry, first: bool) -> Seq<u8> {
    written_text(e.key, first) + match e.value {
        HeaderValue::Single { kind, bytes } => bytes_of(kind, 4) + written_item(kind, bytes, first),
        HeaderValue::List { kind, items } => bytes_of(9, 4) + (bytes_of(kind, 4) + bytes_of(
            items.len(),
            length_size(first),
        ) + written_items(kind, items, first)),
    }
}

/// Named values as they are written, one behind the other.
pub open spec fn written_entries(entries: Seq<HeaderEntry>, first: bool) -> Seq<u8>
    decreases entries.len(),
{
    if entries.len() == 0 {
        Seq::empty()
    } else {
        written_entry(entries[0], first) + written_entries(entries.drop_first(), first)
    }
}

/// Descriptions of stored tensors as they are written, one behind the other.
pub open spec fn written_tensors(tensors: Seq<HeaderTensor>, first: bool) -> Seq<u8>
    decreases tensors.len(),
{
    if tensors.len() == 0 {
        Seq::empty()
    } else {
        written_text(tensors[0].name, first) + (bytes_of(tensors[0].dims, 4) + tensors[0].rest)
            + written_tensors(tensors.drop_first(), first)
    }
}

/// A whole header as it is written: the letters `GGUF`, the version, how many tensors and named
/// values there are, the values and the tensors.
pub open spec fn written_header(
    version: nat,
    entries: Seq<HeaderEntry>,
    tensors: Seq<HeaderTensor>,
) -> Seq<u8> {
    let first = version == 1;
    seq![71u8, 71u8, 85u8, 70u8] + bytes_of(version, 4) + bytes_of(
        tensors.len(),
        length_size(first),
    ) + bytes_of(entries.len(), length_size(first)) + written_entries(entries, first)
        + written_tensors(tensors, first)
}

/// A string or a number has the size that its type asks for: one byte for types 0, 1 and 7, two
/// for 2 and 3, four for 4 to 6, eight for 10 to 12.
pub open spec fn item_fits(kind: nat, bytes: Seq<u8>) -> bool {
    &&& bytes.len() <= u32::MAX
    &&& kind != 8 ==> {
        ||| bytes.len() == 1 && (kind == 0 || kind == 1 || kind == 7)
        ||| bytes.len() == 2 && (kind == 2 || kind == 3)
        ||| bytes.len() == 4 && (kind == 4 || kind == 5 || kind == 6)
        ||| bytes.len() == 8 && (kind == 10 || kind == 11 || kind == 12)
    }
}

/// A named value can be written.
pub open spec fn entry_fits(e: HeaderEntry) -> bool {
    &&& e.key.len() <= u32::MAX
    &&& match e.value {
        HeaderValue::Single { kind, bytes } => item_fits(kind, bytes),
        HeaderValue::List { kind, items } => {
            &&& items.len() <= 0x1ff_ffff
            &&& kind <= 12
            &&& forall|i: int| 0 <= i < items.len() ==> item_fits(kind, #[trigger] items[i])
        },
    }
}

/// The description of a tensor can be written.
pub open spec fn tensor_fits(t: HeaderTensor, first: bool) -> bool {
    &&& t.name.len() <= u32::MAX
    &&& t.dims <= u32::MAX
    &&& t.rest.len() == t.dims * (if first {
        4nat
    } else {
        8nat
    }) + 12
}

/// A named value is zero: a whole number of up to four bytes, all of them zero.
pub open spec fn asks_for_zero(e: HeaderEntry) -> bool {
    match e.value {
        HeaderValue::Single { kind, bytes } => kind <= 5 && all_zero(bytes),
        HeaderValue::List { kind, items } => false,
    }
}

/// All of some bytes are zero.
pub open spec fn all_zero(bytes: Seq<u8>) -> bool {
    forall|i: int| 0 <= i < bytes.len() ==> #[trigger] bytes[i] == 0
}

/// A named value is the alignment, where zero bytes behind the name do not count.
pub open spec fn is_alignment_entry(e: HeaderEntry) -> bool {
    &&& e.key.len() >= 17
    &&& e.key.take(17) == alignment_key()
    &&& forall|i: int| 17 <= i < e.key.len() ==> #[trigger] e.key[i] == 0
}

/// Whether the last alignment among named values is zero.
pub open spec fn last_is_zero(entries: Seq<HeaderEntry>, zero: bool) -> bool
    decreases entries.len(),
{
    if entries.len() == 0 {
        zero
    } else {
        last_is_zero(
            entries.drop_first(),
            if is_alignment_entry(entries[0]) {
                asks_for_zero(entries[0])
            } else {
                zero
            },
        )
    }
}

/// Some bytes stand at a place.
#[verifier::opaque]
spec fn stands(bytes: Seq<u8>, at: nat, part: Seq<u8>) -> bool {
    at + part.len() <= bytes.len() && bytes.subrange(at as int, (at + part.len()) as int) == part
}

proof fn lemma_stands_apart(bytes: Seq<u8>, at: nat, a: Seq<u8>, b: Seq<u8>)
    requires
        stands(bytes, at, a + b),
    ensures
        stands(bytes, at, a),
        stands(bytes, at + a.len(), b),
{
    reveal(stands);
    let all = bytes.subrange(at as int, (at + (a + b).len()) as int);
    assert forall|i: int| 0 <= i < a.len() implies bytes[at + i] == #[trigger] a[i] by {
        assert(all[i] == (a + b)[i]);
    }
    assert forall|i: int| 0 <= i < b.len() implies bytes[at + a.len() + i] == #[trigger] b[i] by {
        assert(all[a.len() + i] == (a + b)[a.len() + i]);
    }
    assert(bytes.subrange(at as int, (at + a.len()) as int) =~= a);
    assert(bytes.subrange((at + a.len()) as int, (at + a.len() + b.len()) as int) =~= b);
}

proof fn lemma_bytes_len(n: nat, size: nat)
    ensures
        bytes_of(n, size).len() == size,
    decreases size,
{
    if size > 0 {
        lemma_bytes_len(n / 256, (size - 1) as nat);
    }
}

proof fn lemma_written_number(bytes: Seq<u8>, at: nat, n: nat, size: nat)
    requires
        stands(bytes, at, bytes_of(n, size)),
        n < above(size),
    ensures
        little(bytes, at as int, size) == n,
    decreases size,
{
    reveal(stands);
    lemma_bytes_len(n, size);
    if size > 0 {
        let low = seq![(n % 256) as u8];
        lemma_stands_apart(bytes, at, low, bytes_of(n / 256, (size - 1) as nat));
        assert(bytes.subrange(at as int, (at + 1) as int)[0] == low[0]);
        lemma_written_number(bytes, at + 1, n / 256, (size - 1) as nat);
    }
}

proof fn lemma_lengths_fit(n: nat, first: bool)
    requires
        n <= u32::MAX,
    ensures
        n < above(length_size(first)),
        n < above(4),
{
    reveal_with_fuel(above, 9);
    assert(above(4) == 0x1_0000_0000);
    assert(above(8) == 0x1_0000_0000_0000_0000);
}

proof fn lemma_written_text(bytes: Seq<u8>, at: nat, s: Seq<u8>, first: bool)
    requires
        stands(bytes, at, written_text(s, first)),
        s.len() <= u32::MAX,
    ensures
        text_end(bytes, at, first) == Some(at + written_text(s, first).len()),
        stands(bytes, at + length_size(first), s),
        written_text(s, first).len() == length_size(first) + s.len(),
{
    reveal(stands);
    let n = length_size(first);
    lemma_bytes_len(s.len(), n);
    lemma_stands_apart(bytes, at, bytes_of(s.len(), n), s);
    lemma_lengths_fit(s.len(), first);
    lemma_written_number(bytes, at, s.len(), n);
}

proof fn lemma_written_item(
    bytes: Seq<u8>,
    at: nat,
    kind: nat,
    s: Seq<u8>,
    first: bool,
    depth: nat,
)
    requires
        stands(bytes, at, written_item(kind, s, first)),
        item_fits(kind, s),
    ensures
        value_end(bytes, at, kind, first, depth) == Some(at + written_item(kind, s, first).len()),
        written_item(kind, s, first).len() > 0,
{
    reveal(stands);
    if kind == 8 {
        lemma_written_text(bytes, at, s, first);
    }
}

proof fn lemma_written_items(
    bytes: Seq<u8>,
    at: nat,
    kind: nat,
    items: Seq<Seq<u8>>,
    first: bool,
    depth: nat,
)
    requires
        stands(bytes, at, written_items(kind, items, first)),
        forall|i: int| 0 <= i < items.len() ==> item_fits(kind, #[trigger] items[i]),
    ensures
        items_end(bytes, at, kind, items.len(), first, depth) == Some(
            at + written_items(kind, items, first).len(),
        ),
        written_items(kind, items, first).len() >= items.len(),
    decreases items.len(),
{
    if items.len() > 0 {
        let one = written_item(kind, items[0], first);
        let rest = items.drop_first();
        lemma_stands_apart(bytes, at, one, written_items(kind, rest, first));
        lemma_written_item(bytes, at, kind, items[0], first, depth);
        assert forall|i: int| 0 <= i < rest.len() implies item_fits(kind, #[trigger] rest[i]) by {
            assert(rest[i] == items[i + 1]);
        }
        lemma_written_items(bytes, at + one.len(), kind, rest, first, depth);
    }
}

proof fn lemma_zero_bytes(bytes: Seq<u8>, at: nat, s: Seq<u8>)
    requires
        stands(bytes, at, s),
    ensures
        little(bytes, at as int, s.len()) == 0 <==> all_zero(s),
    decreases s.len(),
{
    reveal(stands);
    if s.len() > 0 {
        let low = seq![s[0]];
        let rest = s.drop_first();
        assert(s =~= low + rest);
        lemma_stands_apart(bytes, at, low, rest);
        assert(bytes.subrange(at as int, (at + 1) as int)[0] == low[0]);
        lemma_zero_bytes(bytes, at + 1, rest);
        if all_zero(rest) {
            assert forall|i: int| 0 < i < s.len() implies #[trigger] s[i] == 0 by {
                assert(rest[i - 1] == 0);
            }
        } else {
            let i = choose|i: int| 0 <= i < rest.len() && #[trigger] rest[i] != 0;
            assert(s[i + 1] != 0);
        }
    }
}

proof fn lemma_written_name(bytes: Seq<u8>, at: nat, e: HeaderEntry)
    requires
        stands(bytes, at, e.key),
    ensures
        names_alignment(bytes, at as int, (at + e.key.len()) as int) <==> is_alignment_entry(e),
{
    reveal(stands);
    let key = e.key;
    let there = bytes.subrange(at as int, (at + key.len()) as int);
    assert(there == key);
    assert forall|i: int| 0 <= i < key.len() implies bytes[at + i] == #[trigger] key[i] by {
        assert(there[i] == key[i]);
    }
    if key.len() >= 17 {
        assert(bytes.subrange(at as int, (at + 17) as int) =~= key.take(17));
        if is_alignment_entry(e) {
            assert forall|i: int| at + 17 <= i < at + key.len() implies #[trigger] bytes[i] == 0 by {
                assert(key[i - at] == 0);
            }
        }
        if names_alignment(bytes, at as int, (at + key.len()) as int) {
            assert forall|i: int| 17 <= i < key.len() implies #[trigger] key[i] == 0 by {
                assert(bytes[at + i] == 0);
            }
        }
    }
}

/// What the walk finds where a named value is written.
spec fn entry_found(bytes: Seq<u8>, at: nat, e: HeaderEntry, first: bool) -> bool {
    let k = (at + length_size(first) + e.key.len()) as nat;
    let kind = little(bytes, k as int, 4);
    &&& text_end(bytes, at, first) == Some(k)
    &&& behind(bytes, k, 4) == Some(k + 4)
    &&& value_end(bytes, k + 4, kind, first, MAX_NESTING as nat) == Some(
        at + written_entry(e, first).len(),
    )
    &&& names_alignment(bytes, (at + length_size(first)) as int, k as int) <==> is_alignment_entry(e)
    &&& is_zero(bytes, k + 4, kind) <==> asks_for_zero(e)
}

proof fn lemma_written_single(
    bytes: Seq<u8>,
    at: nat,
    key: Seq<u8>,
    kind: nat,
    b: Seq<u8>,
    first: bool,
)
    requires
        item_fits(kind, b),
        key.len() <= u32::MAX,
        stands(
            bytes,
            at,
            written_text(key, first) + (bytes_of(kind, 4) + written_item(kind, b, first)),
        ),
    ensures
        entry_found(
            bytes,
            at,
            HeaderEntry { key, value: HeaderValue::Single { kind, bytes: b } },
            first,
        ),
{
    let e = HeaderEntry { key, value: HeaderValue::Single { kind, bytes: b } };
    let name = written_text(key, first);
    let own = written_item(kind, b, first);
    lemma_stands_apart(bytes, at, name, bytes_of(kind, 4) + own);
    lemma_written_text(bytes, at, key, first);
    lemma_written_name(bytes, at + length_size(first), e);
    let k = at + name.len();
    lemma_bytes_len(kind, 4);
    lemma_stands_apart(bytes, k, bytes_of(kind, 4), own);
    lemma_lengths_fit(kind, first);
    lemma_written_number(bytes, k, kind, 4);
    lemma_written_item(bytes, k + 4, kind, b, first, MAX_NESTING as nat);
    assert(behind(bytes, k, 4) == Some(k + 4)) by {
        reveal(stands);
    }
    assert(is_zero(bytes, k + 4, kind) <==> asks_for_zero(e)) by {
        if kind <= 5 {
            lemma_zero_bytes(bytes, k + 4, b);
            assert(scalar_size(kind) == Some(b.len()));
        }
    }
    assert(written_entry(e, first) == name + (bytes_of(kind, 4) + own));
    assert(value_end(bytes, k + 4, kind, first, MAX_NESTING as nat) == Some(
        at + written_entry(e, first).len(),
    ));
}

proof fn lemma_written_list(
    bytes: Seq<u8>,
    at: nat,
    key: Seq<u8>,
    kind: nat,
    items: Seq<Seq<u8>>,
    first: bool,
)
    requires
        key.len() <= u32::MAX,
        kind <= 12,
        items.len() <= 0x1ff_ffff,
        forall|i: int| 0 <= i < items.len() ==> item_fits(kind, #[trigger] items[i]),
        stands(
            bytes,
            at,
            written_text(key, first) + (bytes_of(9, 4) + (bytes_of(kind, 4) + bytes_of(
                items.len(),
                length_size(first),
            ) + written_items(kind, items, first))),
        ),
    ensures
        entry_found(
            bytes,
            at,
            HeaderEntry { key, value: HeaderValue::List { kind, items } },
            first,
        ),
{
    let e = HeaderEntry { key, value: HeaderValue::List { kind, items } };
    let size = length_size(first);
    let name = written_text(key, first);
    let own = written_items(kind, items, first);
    let front = bytes_of(kind, 4) + bytes_of(items.len(), size);
    let k = at + name.len();
    let v = k + 4;
    lemma_stands_apart(bytes, at, name, bytes_of(9, 4) + (front + own));
    lemma_written_text(bytes, at, key, first);
    lemma_written_name(bytes, at + size, e);
    lemma_bytes_len(9, 4);
    lemma_bytes_len(kind, 4);
    lemma_bytes_len(items.len(), size);
    lemma_stands_apart(bytes, k, bytes_of(9, 4), front + own);
    lemma_stands_apart(bytes, v, front, own);
    lemma_stands_apart(bytes, v, bytes_of(kind, 4), bytes_of(items.len(), size));
    lemma_lengths_fit(9, first);
    lemma_lengths_fit(kind, first);
    lemma_lengths_fit(items.len(), first);
    lemma_written_number(bytes, k, 9, 4);
    lemma_written_number(bytes, v, kind, 4);
    lemma_written_number(bytes, v + 4, items.len(), size);
    lemma_written_items(bytes, v + 4 + size, kind, items, first, (MAX_NESTING - 1) as nat);
    assert(isize::MAX / 64 >= 0x1ff_ffff);
    assert(v + 4 + size + own.len() <= bytes.len()) by {
        reveal(stands);
    }
}

proof fn lemma_written_entries(
    bytes: Seq<u8>,
    at: nat,
    entries: Seq<HeaderEntry>,
    first: bool,
    zero: bool,
)
    requires
        stands(bytes, at, written_entries(entries, first)),
        forall|i: int| 0 <= i < entries.len() ==> entry_fits(#[trigger] entries[i]),
    ensures
        entries_end(bytes, at, entries.len(), first, zero) == Some(
            (at + written_entries(entries, first).len(), last_is_zero(entries, zero)),
        ),
        written_entries(entries, first).len() >= entries.len(),
    decreases entries.len(),
{
    if entries.len() > 0 {
        let e = entries[0];
        let rest = entries.drop_first();
        let own = written_entry(e, first);
        lemma_stands_apart(bytes, at, own, written_entries(rest, first));
        assert(entry_fits(e));
        match e.value {
            HeaderValue::Single { kind, bytes: b } => {
                lemma_written_single(bytes, at, e.key, kind, b, first);
            },
            HeaderValue::List { kind, items } => {
                lemma_written_list(bytes, at, e.key, kind, items, first);
            },
        }
        assert(entry_found(bytes, at, e, first));
        lemma_bytes_len(e.key.len(), length_size(first));
        assert(own.len() > 0);
        assert forall|i: int| 0 <= i < rest.len() implies entry_fits(#[trigger] rest[i]) by {
            assert(rest[i] == entries[i + 1]);
        }
        let next = if is_alignment_entry(e) {
            asks_for_zero(e)
        } else {
            zero
        };
        lemma_written_entries(bytes, at + own.len(), rest, first, next);
    }
}

proof fn lemma_written_tensors(bytes: Seq<u8>, at: nat, tensors: Seq<HeaderTensor>, first: bool)
    requires
        stands(bytes, at, written_tensors(tensors, first)),
        forall|i: int| 0 <= i < tensors.len() ==> tensor_fits(#[trigger] tensors[i], first),
    ensures
        infos_end(bytes, at, tensors.len(), first) == Some(
            at + written_tensors(tensors, first).len(),
        ),
        written_tensors(tensors, first).len() >= tensors.len(),
    decreases tensors.len(),
{
    if tensors.len() > 0 {
        let t = tensors[0];
        let rest = tensors.drop_first();
        let name = written_text(t.name, first);
        let own = bytes_of(t.dims, 4) + t.rest;
        assert(tensor_fits(t, first));
        lemma_stands_apart(bytes, at, name + own, written_tensors(rest, first));
        lemma_stands_apart(bytes, at, name, own);
        lemma_written_text(bytes, at, t.name, first);
        lemma_bytes_len(t.dims, 4);
        lemma_stands_apart(bytes, at + name.len(), bytes_of(t.dims, 4), t.rest);
        lemma_lengths_fit(t.dims, first);
        lemma_written_number(bytes, at + name.len(), t.dims, 4);
        assert forall|i: int| 0 <= i < rest.len() implies tensor_fits(#[trigger] rest[i], first) by {
            assert(rest[i] == tensors[i + 1]);
        }
        assert(at + (name + own).len() <= bytes.len()) by {
            reveal(stands);
        }
        lemma_written_tensors(bytes, at + (name + own).len(), rest, first);
    }
}

proof fn lemma_written_magic(bytes: Seq<u8>)
    requires
        stands(bytes, 0, seq![71u8, 71u8, 85u8, 70u8]),
    ensures
        little(bytes, 0, 4) == 0x46554747,
{
    reveal(stands);
    let there = bytes.subrange(0, 4);
    assert(there[0] == 71 && there[1] == 71 && there[2] == 85 && there[3] == 70);
    assert(bytes[0] == 71 && bytes[1] == 71 && bytes[2] == 85 && bytes[3] == 70);
    reveal_with_fuel(little, 5);
}

proof fn lemma_header_ends(
    version: nat,
    entries: Seq<HeaderEntry>,
    tensors: Seq<HeaderTensor>,
    data: Seq<u8>,
)
    requires
        1 <= version <= 3,
        entries.len() <= u32::MAX,
        tensors.len() <= u32::MAX,
        forall|i: int| 0 <= i < entries.len() ==> entry_fits(#[trigger] entries[i]),
        forall|i: int| 0 <= i < tensors.len() ==> tensor_fits(#[trigger] tensors[i], version == 1),
    ensures
        ({
            let h = written_header(version, entries, tensors);
            let bytes = h + data;
            let first = version == 1;
            let size = length_size(first);
            let at = 8 + 2 * size + written_entries(entries, first).len();
            &&& version_of(bytes) == Some(version)
            &&& 8 + 2 * size + entries.len() + tensors.len() <= bytes.len()
            &&& little(bytes, 8, size) == tensors.len()
            &&& little(bytes, (8 + size) as int, size) == entries.len()
            &&& entries_end(bytes, 8 + 2 * size, entries.len(), first, false) == Some(
                (at, last_is_zero(entries, false)),
            )
            &&& infos_end(bytes, at, tensors.len(), first) == Some(h.len())
        }),
{
    let first = version == 1;
    let size = length_size(first);
    let h = written_header(version, entries, tensors);
    let bytes = h + data;
    let magic = seq![71u8, 71u8, 85u8, 70u8];
    let values = written_entries(entries, first);
    let infos = written_tensors(tensors, first);
    let a = magic + bytes_of(version, 4);
    let b = a + bytes_of(tensors.len(), size);
    let c = b + bytes_of(entries.len(), size);
    lemma_bytes_len(version, 4);
    lemma_bytes_len(tensors.len(), size);
    lemma_bytes_len(entries.len(), size);
    assert(stands(bytes, 0, h + data)) by {
        reveal(stands);
        assert(bytes.subrange(0, bytes.len() as int) =~= bytes);
    }
    lemma_stands_apart(bytes, 0, h, data);
    lemma_stands_apart(bytes, 0, c + values, infos);
    lemma_stands_apart(bytes, 0, c, values);
    lemma_stands_apart(bytes, 0, b, bytes_of(entries.len(), size));
    lemma_stands_apart(bytes, 0, a, bytes_of(tensors.len(), size));
    lemma_stands_apart(bytes, 0, magic, bytes_of(version, 4));
    lemma_lengths_fit(version, first);
    lemma_lengths_fit(tensors.len(), first);
    lemma_lengths_fit(entries.len(), first);
    lemma_written_number(bytes, 4, version, 4);
    lemma_written_number(bytes, 8, tensors.len(), size);
    lemma_written_number(bytes, 8 + size, entries.len(), size);
    assert(little(bytes, 0, 4) == 0x46554747 && bytes.len() >= 8 + 2 * size) by {
        lemma_written_magic(bytes);
        reveal(stands);
    }
    lemma_written_entries(bytes, 8 + 2 * size, entries, first, false);
    lemma_written_tensors(bytes, 8 + 2 * size + values.len(), tensors, first);
    assert(version_of(bytes) == Some(version));
}

/// A header that is written by the rules of the format is whole, whatever follows it, unless
/// its last alignment is zero.
pub proof fn written_headers_are_whole(
    version: nat,
    entries: Seq<HeaderEntry>,
    tensors: Seq<HeaderTensor>,
    data: Seq<u8>,
)
    requires
        1 <= version <= 3,
        entries.len() <= u32::MAX,
        tensors.len() <= u32::MAX,
        forall|i: int| 0 <= i < entries.len() ==> entry_fits(#[trigger] entries[i]),
        forall|i: int| 0 <= i < tensors.len() ==> tensor_fits(#[trigger] tensors[i], version == 1),
    ensures
        is_whole(written_header(version, entries, tensors) + data) <==> !last_is_zero(
            entries,
            false,
        ),
{
    lemma_header_ends(version, entries, tensors, data);
}

/// The name of the alignment is `general.alignment`.
pub proof fn the_alignment_has_its_name(i: int)
    requires
        0 <= i < 17,
    ensures
        alignment_key().len() == "general.alignment"@.len(),
        alignment_key()[i] as char == "general.alignment"@[i],
{
    reveal_strlit("general.alignment");
}

/// Bytes that do not begin like a header are not one: with other letters, with a version that is
/// not known, or too few.
pub proof fn other_files_are_not_whole(bytes: Seq<u8>)
    requires
        ({
            ||| bytes.len() < 16
            ||| bytes.take(4) != seq![71u8, 71u8, 85u8, 70u8] && bytes.take(4) != seq![
                70u8,
                85u8,
                71u8,
                71u8,
            ]
            ||| (bytes[4] == 0 || bytes[4] > 3) && bytes[5] == 0 && bytes[6] == 0 && bytes[7] == 0
        }),
    ensures
        !is_whole(bytes),
{
    reveal_with_fuel(little, 5);
    if bytes.len() >= 16 {
        if little(bytes, 0, 4) == 0x46554747 {
            assert(bytes.take(4) =~= seq![71u8, 71u8, 85u8, 70u8]);
        }
        if little(bytes, 0, 4) == 0x47475546 {
            assert(bytes.take(4) =~= seq![70u8, 85u8, 71u8, 71u8]);
        }
    }
}

proof fn lemma_little_goes_on(bytes: Seq<u8>, more: Seq<u8>, at: int, n: nat)
    requires
        0 <= at,
        at + n <= bytes.len(),
    ensures
        little(bytes + more, at, n) == little(bytes, at, n),
    decreases n,
{
    if n > 0 {
        lemma_little_goes_on(bytes, more, at + 1, (n - 1) as nat);
    }
}

proof fn lemma_text_goes_on(bytes: Seq<u8>, more: Seq<u8>, at: nat, first: bool)
    requires
        text_end(bytes, at, first) is Some,
    ensures
        text_end(bytes + more, at, first) == text_end(bytes, at, first),
        at + length_size(first) <= text_end(bytes, at, first)->0 <= bytes.len(),
{
    lemma_little_goes_on(bytes, more, at as int, length_size(first));
}

proof fn lemma_value_goes_on(
    bytes: Seq<u8>,
    more: Seq<u8>,
    at: nat,
    kind: nat,
    first: bool,
    depth: nat,
)
    requires
        value_end(bytes, at, kind, first, depth) is Some,
    ensures
        value_end(bytes + more, at, kind, first, depth) == value_end(
            bytes,
            at,
            kind,
            first,
            depth,
        ),
        value_end(bytes, at, kind, first, depth)->0 <= bytes.len(),
    decreases depth, 0nat,
{
    if kind == 8 {
        lemma_text_goes_on(bytes, more, at, first);
    } else if kind == 9 {
        let size = length_size(first);
        lemma_little_goes_on(bytes, more, at as int, 4);
        lemma_little_goes_on(bytes, more, (at + 4) as int, size);
        lemma_items_go_on(
            bytes,
            more,
            at + 4 + size,
            little(bytes, at as int, 4),
            little(bytes, (at + 4) as int, size),
            first,
            (depth - 1) as nat,
        );
    }
}

proof fn lemma_items_go_on(
    bytes: Seq<u8>,
    more: Seq<u8>,
    at: nat,
    kind: nat,
    n: nat,
    first: bool,
    depth: nat,
)
    requires
        at <= bytes.len(),
        items_end(bytes, at, kind, n, first, depth) is Some,
    ensures
        items_end(bytes + more, at, kind, n, first, depth) == items_end(
            bytes,
            at,
            kind,
            n,
            first,
            depth,
        ),
        items_end(bytes, at, kind, n, first, depth)->0 <= bytes.len(),
    decreases depth, n + 1,
{
    if n > 0 {
        lemma_value_goes_on(bytes, more, at, kind, first, depth);
        lemma_items_go_on(
            bytes,
            more,
            value_end(bytes, at, kind, first, depth)->0,
            kind,
            (n - 1) as nat,
            first,
            depth,
        );
    }
}

proof fn lemma_entries_go_on(
    bytes: Seq<u8>,
    more: Seq<u8>,
    at: nat,
    n: nat,
    first: bool,
    zero: bool,
)
    requires
        at <= bytes.len(),
        entries_end(bytes, at, n, first, zero) is Some,
    ensures
        entries_end(bytes + more, at, n, first, zero) == entries_end(bytes, at, n, first, zero),
        ({
            let e = entries_end(bytes, at, n, first, zero)->0;
            e.0 <= bytes.len()
        }),
    decreases n,
{
    if n > 0 {
        let all = bytes + more;
        let size = length_size(first);
        lemma_text_goes_on(bytes, more, at, first);
        let k = text_end(bytes, at, first)->0;
        lemma_little_goes_on(bytes, more, k as int, 4);
        let kind = little(bytes, k as int, 4);
        lemma_value_goes_on(bytes, more, k + 4, kind, first, MAX_NESTING as nat);
        let from = (at + size) as int;
        let named = names_alignment(bytes, from, k as int);
        assert(names_alignment(all, from, k as int) == named) by {
            if k - from >= ALIGNMENT_KEY_LEN {
                assert(all.subrange(from, from + ALIGNMENT_KEY_LEN) =~= bytes.subrange(
                    from,
                    from + ALIGNMENT_KEY_LEN,
                ));
                if named {
                    assert forall|i: int| from + ALIGNMENT_KEY_LEN <= i < k implies #[trigger] all[i]
                        == 0 by {
                        assert(bytes[i] == 0);
                    }
                }
                if names_alignment(all, from, k as int) {
                    assert forall|i: int|
                        from + ALIGNMENT_KEY_LEN <= i < k implies #[trigger] bytes[i] == 0 by {
                        assert(all[i] == 0);
                    }
                }
            }
        }
        if kind <= 5 {
            lemma_little_goes_on(bytes, more, (k + 4) as int, scalar_size(kind)->0);
        }
        let next = if named {
            is_zero(bytes, k + 4, kind)
        } else {
            zero
        };
        lemma_entries_go_on(
            bytes,
            more,
            value_end(bytes, k + 4, kind, first, MAX_NESTING as nat)->0,
            (n - 1) as nat,
            first,
            next,
        );
    }
}

proof fn lemma_infos_go_on(bytes: Seq<u8>, more: Seq<u8>, at: nat, n: nat, first: bool)
    requires
        at <= bytes.len(),
        infos_end(bytes, at, n, first) is Some,
    ensures
        infos_end(bytes + more, at, n, first) == infos_end(bytes, at, n, first),
        infos_end(bytes, at, n, first)->0 <= bytes.len(),
    decreases n,
{
    if n > 0 {
        lemma_text_goes_on(bytes, more, at, first);
        let k = text_end(bytes, at, first)->0;
        lemma_little_goes_on(bytes, more, k as int, 4);
        lemma_infos_go_on(bytes, more, info_end(bytes, at, first)->0, (n - 1) as nat, first);
    }
}

/// A header that is whole stays so, whatever follows it.
pub proof fn what_follows_does_not_matter(bytes: Seq<u8>, more: Seq<u8>)
    requires
        is_whole(bytes),
    ensures
        is_whole(bytes + more),
        version_of(bytes + more) == version_of(bytes),
{
    let first = version_of(bytes)->0 == 1;
    let size = length_size(first);
    lemma_little_goes_on(bytes, more, 0, 4);
    lemma_little_goes_on(bytes, more, 4, 4);
    lemma_little_goes_on(bytes, more, 8, size);
    lemma_little_goes_on(bytes, more, (8 + size) as int, size);
    let values = little(bytes, (8 + size) as int, size);
    let tensors = little(bytes, 8, size);
    lemma_entries_go_on(bytes, more, 8 + 2 * size, values, first, false);
    let e = entries_end(bytes, 8 + 2 * size, values, first, false)->0;
    lemma_infos_go_on(bytes, more, e.0, tensors, first);
}

/// A header that is cut short is not whole, wherever it is cut.
pub proof fn cut_headers_are_not_whole(
    version: nat,
    entries: Seq<HeaderEntry>,
    tensors: Seq<HeaderTensor>,
    n: nat,
)
    requires
        1 <= version <= 3,
        entries.len() <= u32::MAX,
        tensors.len() <= u32::MAX,
        forall|i: int| 0 <= i < entries.len() ==> entry_fits(#[trigger] entries[i]),
        forall|i: int| 0 <= i < tensors.len() ==> tensor_fits(#[trigger] tensors[i], version == 1),
        n < written_header(version, entries, tensors).len(),
    ensures
        !is_whole(written_header(version, entries, tensors).take(n as int)),
{
    let h = written_header(version, entries, tensors);
    let bytes = h.take(n as int);
    let more = h.skip(n as int);
    if is_whole(bytes) {
        assert(bytes + more =~= h);
        what_follows_does_not_matter(bytes, more);
        lemma_header_ends(version, entries, tensors, Seq::empty());
        assert(h + Seq::<u8>::empty() =~= h);
        let first = version == 1;
        let size = length_size(first);
        lemma_little_goes_on(bytes, more, 8, size);
        lemma_little_goes_on(bytes, more, (8 + size) as int, size);
        lemma_entries_go_on(bytes, more, 8 + 2 * size, entries.len(), first, false);
        let e = entries_end(bytes, 8 + 2 * size, entries.len(), first, false)->0;
        lemma_infos_go_on(bytes, more, e.0, tensors.len(), first);
    }
}

} // verus!

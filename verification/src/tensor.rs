//! The boundary to the tensor backend.
//!
//! Nothing in this file is proved. Each function makes one call into
//! `candle` and states what that crate's source shows of the result: its
//! shape, its element type, where it lives, and, where elements are only
//! moved and not computed, which elements it holds. Of what the backend
//! computes in floating point nothing is said.

use vstd::prelude::*;
use candle_core::{DType, Device, Error, Tensor};
use candle_nn::Linear;
use crate::shape::{elem_count, sized};

verus! {

/// `candle_core::Tensor`, carried through as an opaque value.
#[verifier::external_type_specification]
#[verifier::external_body]
pub struct ExTensor(Tensor);

/// `candle_core::Error`, carried through as an opaque value.
#[verifier::external_type_specification]
#[verifier::external_body]
pub struct ExError(Error);

/// `candle_core::Device`, carried through as an opaque value.
#[verifier::external_type_specification]
#[verifier::external_body]
pub struct ExDevice(Device);

/// `candle_core::DType`, carried through as an opaque value.
#[verifier::external_type_specification]
#[verifier::external_body]
pub struct ExDType(DType);

/// `candle_nn::Linear`, carried through as an opaque value.
#[verifier::external_type_specification]
#[verifier::external_body]
pub struct ExLinear(Linear);

/// The size of a tensor along each of its axes, outermost first: what
/// `Tensor::dims` reports.
pub uninterp spec fn tensor_dims(t: Tensor) -> Seq<usize>;

/// The elements of a tensor in row-major order, each as the bit pattern of
/// its value in IEEE 754 binary32.
pub uninterp spec fn tensor_bits(t: Tensor) -> Seq<u32>;

/// The element type of a tensor: what `Tensor::dtype` reports.
pub uninterp spec fn tensor_dtype(t: Tensor) -> DType;

/// The element type is a floating-point type: what `DType::is_float` says.
pub uninterp spec fn dtype_is_float(dtype: DType) -> bool;

/// The tensor lives on `device`: what `Device::same_device` says of the
/// tensor's device and `device`.
pub uninterp spec fn on_device(t: Tensor, device: Device) -> bool;

/// The tensor's elements are floating-point numbers.
pub open spec fn holds_floats(t: Tensor) -> bool {
    dtype_is_float(tensor_dtype(t))
}

/// The flat index of element `within` of block `block`, where blocks are
/// `stride` elements apart.
pub open spec fn flat(block: int, stride: int, within: int) -> int {
    block * stride + within
}

/// The number of elements of one index along axis `dim`: the product of the
/// dimensions after that axis.
pub open spec fn inner_count(dims: Seq<usize>, dim: int) -> nat {
    elem_count(dims.skip(dim + 1))
}

/// The number of index combinations before axis `dim`: the product of the
/// dimensions before that axis.
pub open spec fn outer_count(dims: Seq<usize>, dim: int) -> nat {
    elem_count(dims.take(dim))
}

/// Element `j` of block `o` of `part` is found in `whole` where the part
/// starts at `offset` along axis `dim`.
pub open spec fn found_at(whole: Tensor, part: Tensor, dim: int, offset: int, o: int, j: int) -> bool {
    let inner = inner_count(tensor_dims(part), dim) as int;
    let len = tensor_dims(part)[dim] as int;
    let total = tensor_dims(whole)[dim] as int;
    tensor_bits(whole)[flat(o, total * inner, offset * inner + j)] == tensor_bits(part)[flat(
        o,
        len * inner,
        j,
    )]
}

/// `whole` holds `part`, element for element, from `offset` on along axis
/// `dim`; on all other axes the two are indexed alike.
pub open spec fn lies_in(whole: Tensor, part: Tensor, dim: int, offset: int) -> bool {
    forall|o: int, j: int|
        0 <= o < outer_count(tensor_dims(part), dim) && 0 <= j < tensor_dims(part)[dim]
            * inner_count(tensor_dims(part), dim) ==> #[trigger] found_at(
            whole,
            part,
            dim,
            offset,
            o,
            j,
        )
}

/// `dims` with the entries at `a` and `b` exchanged.
pub open spec fn swapped(dims: Seq<usize>, a: int, b: int) -> Seq<usize> {
    dims.update(a, dims[b]).update(b, dims[a])
}

/// The shape of a matrix product: the left operand's shape with its last
/// dimension replaced by the right operand's last dimension.
pub open spec fn matmul_dims(lhs: Seq<usize>, rhs: Seq<usize>) -> Seq<usize> {
    lhs.drop_last().push(rhs.last())
}

/// `small`, aligned at the innermost axis, can be stretched to `big`: it has
/// no more axes, and each of its dimensions is one or agrees with `big`.
pub open spec fn broadcasts_into(small: Seq<usize>, big: Seq<usize>) -> bool {
    &&& small.len() <= big.len()
    &&& forall|i: int|
        0 <= i < small.len() ==> small[i] == 1 || small[i] == big[big.len() - small.len() + i]
}

/// The sum of the sizes of `parts` along axis `dim`.
pub open spec fn cat_len(parts: Seq<Tensor>, dim: int) -> nat
    decreases parts.len(),
{
    if parts.len() == 0 {
        0
    } else {
        cat_len(parts.drop_last(), dim) + tensor_dims(parts.last())[dim] as nat
    }
}

/// All of `parts` have the rank of the first and agree with it on every axis
/// but `dim`.
pub open spec fn cat_compatible(parts: Seq<Tensor>, dim: int) -> bool {
    forall|p: int, axis: int|
        #![trigger tensor_dims(parts[p])[axis]]
        0 <= p < parts.len() ==> tensor_dims(parts[p]).len() == tensor_dims(parts[0]).len() && (0
            <= axis < tensor_dims(parts[0]).len() && axis != dim ==> tensor_dims(parts[p])[axis]
            == tensor_dims(parts[0])[axis])
}

/// `Tensor::clone`: another handle on the same tensor.
pub assume_specification[ <Tensor as Clone>::clone ](t: &Tensor) -> (r: Tensor)
    ensures
        r == *t,
;

/// `Tensor::dims`: the tensor's shape, copied into a vector.
#[verifier::external_body]
pub(crate) fn dims(t: &Tensor) -> (r: Vec<usize>)
    ensures
        r@ == tensor_dims(*t),
{
    t.dims().to_vec()
}

/// `Tensor::device`: where the tensor lives. Nothing is claimed of it.
#[verifier::external_body]
pub(crate) fn device_of(t: &Tensor) -> (r: &Device) {
    t.device()
}

/// `Tensor::dtype`: the element type.
#[verifier::external_body]
pub(crate) fn dtype_of(t: &Tensor) -> (r: DType)
    ensures
        r == tensor_dtype(*t),
{
    t.dtype()
}

/// `DType::is_float`: whether the element type is a floating-point type.
#[verifier::external_body]
pub(crate) fn is_float(dtype: DType) -> (r: bool)
    ensures
        r == dtype_is_float(dtype),
{
    dtype.is_float()
}

/// `Tensor::transpose`: succeeds exactly when both axes exist, and the
/// result has the two dimensions exchanged.
#[verifier::external_body]
pub(crate) fn transpose(t: &Tensor, a: usize, b: usize) -> (r: Result<Tensor, Error>)
    ensures
        r is Ok <==> (a < tensor_dims(*t).len() && b < tensor_dims(*t).len()),
        r matches Ok(x) ==> tensor_dims(x) == swapped(tensor_dims(*t), a as int, b as int),
{
    t.transpose(a, b)
}

/// `Tensor::narrow`: succeeds exactly when the axis exists and the range
/// `start .. start + len` lies within it; the result has `len` in place of
/// that dimension and the element type of the input.
#[verifier::external_body]
pub(crate) fn narrow(t: &Tensor, dim: usize, start: usize, len: usize) -> (r: Result<Tensor, Error>)
    requires
        start + len <= usize::MAX,
    ensures
        r is Ok <==> (dim < tensor_dims(*t).len() && start + len <= tensor_dims(*t)[dim as int]),
        r matches Ok(x) ==> tensor_dims(x) == tensor_dims(*t).update(dim as int, len)
            && tensor_dtype(x) == tensor_dtype(*t),
{
    t.narrow(dim, start, len)
}

/// `Tensor::squeeze`: succeeds exactly when the axis exists; an axis of size
/// one is removed, any other is left as it is.
#[verifier::external_body]
pub(crate) fn squeeze(t: &Tensor, dim: usize) -> (r: Result<Tensor, Error>)
    ensures
        r is Ok <==> dim < tensor_dims(*t).len(),
        r matches Ok(x) ==> tensor_dims(x) == (if tensor_dims(*t)[dim as int] == 1 {
            tensor_dims(*t).remove(dim as int)
        } else {
            tensor_dims(*t)
        }),
{
    t.squeeze(dim)
}

/// `Tensor::reshape` to explicit dimensions: fails when the element counts
/// differ; a result has exactly the dimensions asked for.
#[verifier::external_body]
pub(crate) fn reshape(t: &Tensor, dims: &Vec<usize>) -> (r: Result<Tensor, Error>)
    requires
        sized(tensor_dims(*t)),
        sized(dims@),
    ensures
        crate::shape::elem_count(dims@) != crate::shape::elem_count(tensor_dims(*t)) ==> r is Err,
        r matches Ok(x) ==> tensor_dims(x) == dims@,
{
    t.reshape(dims.as_slice())
}

/// `Tensor::matmul`: fails unless both operands have the same rank of at
/// least two; a result has the shape of the left operand with the right
/// operand's last dimension, and the left operand's element type.
#[verifier::external_body]
pub(crate) fn matmul(lhs: &Tensor, rhs: &Tensor) -> (r: Result<Tensor, Error>)
    requires
        sized(tensor_dims(*lhs)),
        sized(tensor_dims(*rhs)),
        tensor_dims(*lhs).len() >= 2 && tensor_dims(*rhs).len() == tensor_dims(*lhs).len() ==> sized(
            matmul_dims(tensor_dims(*lhs), tensor_dims(*rhs)),
        ),
    ensures
        tensor_dims(*lhs).len() < 2 || tensor_dims(*rhs).len() != tensor_dims(*lhs).len() ==> r is Err,
        r matches Ok(x) ==> tensor_dims(x) == matmul_dims(tensor_dims(*lhs), tensor_dims(*rhs))
            && tensor_dtype(x) == tensor_dtype(*lhs),
{
    lhs.matmul(rhs)
}

/// `Tensor::broadcast_mul` with a right operand that stretches to the left
/// one: a result has the left operand's shape and element type.
#[verifier::external_body]
pub(crate) fn broadcast_mul(lhs: &Tensor, rhs: &Tensor) -> (r: Result<Tensor, Error>)
    requires
        sized(tensor_dims(*lhs)),
        broadcasts_into(tensor_dims(*rhs), tensor_dims(*lhs)),
    ensures
        r matches Ok(x) ==> tensor_dims(x) == tensor_dims(*lhs) && tensor_dtype(x) == tensor_dtype(
            *lhs,
        ),
{
    lhs.broadcast_mul(rhs)
}

/// `Tensor::broadcast_add` with a right operand that stretches to the left
/// one: a result has the left operand's shape and element type.
#[verifier::external_body]
pub(crate) fn broadcast_add(lhs: &Tensor, rhs: &Tensor) -> (r: Result<Tensor, Error>)
    requires
        sized(tensor_dims(*lhs)),
        broadcasts_into(tensor_dims(*rhs), tensor_dims(*lhs)),
    ensures
        r matches Ok(x) ==> tensor_dims(x) == tensor_dims(*lhs) && tensor_dtype(x) == tensor_dtype(
            *lhs,
        ),
{
    lhs.broadcast_add(rhs)
}

/// `candle_nn::ops::softmax` along the innermost axis, which subtracts the
/// row maximum before exponentiating: a result has the shape of the input.
/// It is not defined on integers.
#[verifier::external_body]
pub(crate) fn softmax_last_dim(t: &Tensor) -> (r: Result<Tensor, Error>)
    requires
        sized(tensor_dims(*t)),
        holds_floats(*t),
    ensures
        r matches Ok(x) ==> tensor_dims(x) == tensor_dims(*t),
{
    candle_nn::ops::softmax(t, candle_core::D::Minus1)
}

/// `Tensor::cat` along `dim`: a result has the first part's shape with the
/// parts' sizes along `dim` added up, and holds the parts one after the
/// other along that axis, each where the ones before it end.
#[verifier::external_body]
pub(crate) fn cat(parts: &Vec<Tensor>, dim: usize) -> (r: Result<Tensor, Error>)
    requires
        parts@.len() >= 1,
        dim < tensor_dims(parts@[0]).len(),
        cat_compatible(parts@, dim as int),
        cat_len(parts@, dim as int) <= usize::MAX,
        sized(tensor_dims(parts@[0]).update(dim as int, cat_len(parts@, dim as int) as usize)),
    ensures
        r matches Ok(x) ==> tensor_dims(x) == tensor_dims(parts@[0]).update(
            dim as int,
            cat_len(parts@, dim as int) as usize,
        ),
        r matches Ok(x) ==> forall|p: int|
            0 <= p < parts@.len() ==> #[trigger] lies_in(
                x,
                parts@[p],
                dim as int,
                cat_len(parts@.take(p), dim as int) as int,
            ),
{
    Tensor::cat(parts.as_slice(), dim)
}

/// `Tensor::from_raw_buffer` with single-precision elements: builds the
/// tensor of the given shape whose elements have exactly the given bit
/// patterns, in row-major order.
#[verifier::external_body]
pub(crate) fn from_bits(bits: &Vec<u32>, dims: &Vec<usize>, device: &Device) -> (r: Result<
    Tensor,
    Error,
>)
    requires
        bits@.len() == elem_count(dims@),
    ensures
        r matches Ok(x) ==> tensor_dims(x) == dims@ && tensor_bits(x) == bits@,
{
    let mut bytes: Vec<u8> = Vec::new();
    for word in bits.iter() {
        bytes.extend_from_slice(&word.to_ne_bytes());
    }
    Tensor::from_raw_buffer(&bytes, DType::F32, dims.as_slice(), device)
}

/// `Tensor::new` on one unsigned integer: a tensor without axes.
#[verifier::external_body]
pub(crate) fn scalar(value: u32, device: &Device) -> (r: Result<Tensor, Error>)
    ensures
        r matches Ok(x) ==> tensor_dims(x) == Seq::<usize>::empty(),
{
    Tensor::new(value, device)
}

/// `Tensor::to_dtype`: a result has the shape of the input and the element
/// type asked for.
#[verifier::external_body]
pub(crate) fn to_dtype(t: &Tensor, dtype: DType) -> (r: Result<Tensor, Error>)
    ensures
        r matches Ok(x) ==> tensor_dims(x) == tensor_dims(*t) && tensor_dtype(x) == dtype,
{
    t.to_dtype(dtype)
}

/// `Tensor::sqrt`, element by element: a result has the shape and the
/// element type of the input. It is not defined on integers.
#[verifier::external_body]
pub(crate) fn sqrt(t: &Tensor) -> (r: Result<Tensor, Error>)
    requires
        holds_floats(*t),
    ensures
        r matches Ok(x) ==> tensor_dims(x) == tensor_dims(*t) && tensor_dtype(x) == tensor_dtype(
            *t,
        ),
{
    t.sqrt()
}

/// `Tensor::recip`, element by element: a result has the shape and the
/// element type of the input. It is not defined on integers.
#[verifier::external_body]
pub(crate) fn recip(t: &Tensor) -> (r: Result<Tensor, Error>)
    requires
        holds_floats(*t),
    ensures
        r matches Ok(x) ==> tensor_dims(x) == tensor_dims(*t) && tensor_dtype(x) == tensor_dtype(
            *t,
        ),
{
    t.recip()
}

/// `Tensor::to_device`: a result lives on `device` and has the shape, the
/// element type and the elements of the input.
#[verifier::external_body]
pub(crate) fn to_device(t: &Tensor, device: &Device) -> (r: Result<Tensor, Error>)
    ensures
        r matches Ok(x) ==> tensor_dims(x) == tensor_dims(*t) && tensor_bits(x) == tensor_bits(*t)
            && tensor_dtype(x) == tensor_dtype(*t) && on_device(x, *device),
{
    t.to_device(device)
}

/// `Tensor::copy`: a tensor with storage of its own; a result has the
/// shape, the element type and the elements of the input and lives where
/// the input lives.
#[verifier::external_body]
pub(crate) fn copy(t: &Tensor) -> (r: Result<Tensor, Error>)
    ensures
        r matches Ok(x) ==> tensor_dims(x) == tensor_dims(*t) && tensor_bits(x) == tensor_bits(*t)
            && tensor_dtype(x) == tensor_dtype(*t) && (forall|device: Device|
            on_device(x, device) == on_device(*t, device)),
{
    t.copy()
}

/// `Tensor::contiguous`: the same tensor laid out row-major; a result has
/// the shape of the input.
#[verifier::external_body]
pub(crate) fn contiguous(t: &Tensor) -> (r: Result<Tensor, Error>)
    ensures
        r matches Ok(x) ==> tensor_dims(x) == tensor_dims(*t),
{
    t.contiguous()
}

/// `candle_nn::Linear::forward`, the layer's `Module` implementation.
/// Nothing is claimed of the result: callers inspect its shape.
#[verifier::external_body]
pub(crate) fn linear_forward(layer: &Linear, x: &Tensor) -> (r: Result<Tensor, Error>)
    requires
        sized(tensor_dims(*x)),
{
    candle_nn::Module::forward(layer, x)
}

} // verus!

//! The checks and data layout around an RKNN (Rockchip NPU) vision encoder:
//! what square image side the compiled model expects, whether an image
//! tensor fits its input, and the NCHW to NHWC reordering of the input.

use vstd::prelude::*;

use crate::text::{decimal, decimal_chars, extend_chars, chars_of, string_from_chars};

verus! {

/// Memory layout of an RKNN tensor.
#[derive(Debug, Clone, Copy, PartialEq, Eq, Structural)]
pub enum TensorFormat {
    /// Batch, channels, height, width.
    Nchw,
    /// Batch, height, width, channels.
    Nhwc,
    /// Any other layout (such as NC1HWC2 or undefined).
    Other,
}

/// Element type of an RKNN tensor.
#[derive(Debug, Clone, Copy, PartialEq, Eq, Structural)]
pub enum TensorDType {
    Float32,
    Float16,
    BFloat16,
    /// Any other element type (integers, quantized types).
    Other,
}

/// The attributes of an RKNN input or output tensor that the encoder reads.
#[derive(Debug, Clone)]
pub struct RknnTensorAttr {
    pub dims: Vec<u32>,
    pub format: TensorFormat,
    pub dtype: TensorDType,
    pub num_elements: u32,
}

/// The vision encoder compiled for the NPU, described by its (single)
/// input and output tensors.
#[derive(Debug, Clone)]
pub struct VisionRknn {
    pub input_attr: RknnTensorAttr,
    pub output_attr: RknnTensorAttr,
}

/// A four-dimensional shape.
#[derive(Debug, Clone, Copy, PartialEq, Eq, Structural)]
pub struct Dims4(pub usize, pub usize, pub usize, pub usize);

/// A shape as `(a, b, c, d)`, with `sep` between the sizes.
pub open spec fn dims4_text(d: Dims4, sep: Seq<char>) -> Seq<char> {
    seq!['('] + decimal(d.0 as nat) + sep + decimal(d.1 as nat) + sep + decimal(d.2 as nat) + sep
        + decimal(d.3 as nat) + seq![')']
}

fn push_dims4(v: &mut Vec<char>, d: Dims4, sep: &Vec<char>)
    ensures
        final(v)@ == old(v)@ + dims4_text(d, sep@),
{
    v.push('(');
    extend_chars(v, &decimal_chars(d.0 as u64));
    extend_chars(v, sep);
    extend_chars(v, &decimal_chars(d.1 as u64));
    extend_chars(v, sep);
    extend_chars(v, &decimal_chars(d.2 as u64));
    extend_chars(v, sep);
    extend_chars(v, &decimal_chars(d.3 as u64));
    v.push(')');
}

/// Why an image cannot be handed to the RKNN model.
#[derive(Debug, Clone, Copy, PartialEq, Eq, Structural)]
pub enum RknnError {
    /// The model's input does not have four dimensions.
    InputNotFourDims,
    /// The image tensor's shape differs from the model input's; both are
    /// given in the order of the input's layout.
    ShapeMismatch { expected: Dims4, got: Dims4 },
    /// The model's input layout is neither NCHW nor NHWC.
    UnsupportedFormat,
    /// The model's input element type is not a float type.
    UnsupportedDType,
    /// The model does not have exactly one input and one output.
    IoCount { inputs: u32, outputs: u32 },
}

/// Checks the numbers of inputs and outputs a loaded model reports: the
/// vision encoder takes one image and gives one tensor of embeddings.
pub fn check_io_count(inputs: u32, outputs: u32) -> (r: Result<(), RknnError>)
    ensures
        r == (if inputs == 1 && outputs == 1 {
            Ok::<(), RknnError>(())
        } else {
            Err(RknnError::IoCount { inputs, outputs })
        }),
{
    if inputs != 1 || outputs != 1 {
        return Err(RknnError::IoCount { inputs, outputs });
    }
    Ok(())
}

impl RknnError {
    /// The human-readable description of the error.
    pub fn message(&self) -> (r: String)
        ensures
            r@ == match *self {
                RknnError::InputNotFourDims => "rknn input dims not 4"@,
                RknnError::ShapeMismatch { expected, got } => "rknn input shape mismatch, expected "@
                    + dims4_text(expected, seq![',', ' ']) + " got "@ + dims4_text(got, seq![',']),
                RknnError::UnsupportedFormat => "unsupported rknn input format"@,
                RknnError::UnsupportedDType => "unsupported rknn input dtype"@,
                RknnError::IoCount { inputs, outputs } => "rknn model must have 1 input/1 output, got "@
                    + decimal(inputs as nat) + seq!['/'] + decimal(outputs as nat),
            },
    {
        match self {
            RknnError::InputNotFourDims => "rknn input dims not 4".to_owned(),
            RknnError::ShapeMismatch { expected, got } => {
                let mut v = chars_of("rknn input shape mismatch, expected ");
                let mut wide: Vec<char> = Vec::new();
                wide.push(',');
                wide.push(' ');
                assert(wide@ =~= seq![',', ' ']);
                push_dims4(&mut v, *expected, &wide);
                extend_chars(&mut v, &chars_of(" got "));
                let mut narrow: Vec<char> = Vec::new();
                narrow.push(',');
                assert(narrow@ =~= seq![',']);
                push_dims4(&mut v, *got, &narrow);
                string_from_chars(v.as_slice())
            },
            RknnError::UnsupportedFormat => "unsupported rknn input format".to_owned(),
            RknnError::UnsupportedDType => "unsupported rknn input dtype".to_owned(),
            RknnError::IoCount { inputs, outputs } => {
                let mut v = chars_of("rknn model must have 1 input/1 output, got ");
                extend_chars(&mut v, &decimal_chars(*inputs as u64));
                v.push('/');
                extend_chars(&mut v, &decimal_chars(*outputs as u64));
                string_from_chars(v.as_slice())
            },
        }
    }
}

/// How the image has to be prepared for the model's input.
#[derive(Debug, Clone, Copy, PartialEq, Eq, Structural)]
pub struct InputPlan {
    /// Reorder the NCHW image to NHWC.
    pub to_nhwc: bool,
    /// Element type to convert the values to.
    pub dtype: TensorDType,
}

/// The square side the model's input expects: the input must have four
/// dimensions, three channels and equal height and width.
pub open spec fn expected_side_spec(attr: RknnTensorAttr) -> Option<u32> {
    let d = attr.dims@;
    if d.len() != 4 {
        None
    } else {
        match attr.format {
            TensorFormat::Nchw => if d[1] != 3 || d[2] != d[3] {
                None
            } else {
                Some(d[2])
            },
            TensorFormat::Nhwc => if d[3] != 3 || d[1] != d[2] {
                None
            } else {
                Some(d[1])
            },
            TensorFormat::Other => None,
        }
    }
}

/// The outcome of checking an image tensor of shape `(b, c, h, w)` against
/// the model's input.
pub open spec fn input_shape_check(attr: RknnTensorAttr, b: usize, c: usize, h: usize, w: usize) -> Result<
    (),
    RknnError,
> {
    let d = attr.dims@;
    if d.len() != 4 {
        Err(RknnError::InputNotFourDims)
    } else {
        let expected = Dims4(d[0] as usize, d[1] as usize, d[2] as usize, d[3] as usize);
        match attr.format {
            TensorFormat::Nchw => if d[0] == b && d[1] == c && d[2] == h && d[3] == w {
                Ok(())
            } else {
                Err(RknnError::ShapeMismatch { expected, got: Dims4(b, c, h, w) })
            },
            TensorFormat::Nhwc => if d[0] == b && d[1] == h && d[2] == w && d[3] == c {
                Ok(())
            } else {
                Err(RknnError::ShapeMismatch { expected, got: Dims4(b, h, w, c) })
            },
            TensorFormat::Other => Err(RknnError::UnsupportedFormat),
        }
    }
}

impl VisionRknn {
    /// The square image side the model expects, if its input is a square
    /// three-channel NCHW or NHWC tensor.
    pub fn expected_side(&self) -> (r: Option<u32>)
        ensures
            r == expected_side_spec(self.input_attr),
    {
        let dims = &self.input_attr.dims;
        if dims.len() != 4 {
            return None;
        }
        match self.input_attr.format {
            TensorFormat::Nchw => {
                let (c, h, w) = (dims[1], dims[2], dims[3]);
                if c != 3 || h != w {
                    return None;
                }
                Some(h)
            },
            TensorFormat::Nhwc => {
                let (h, w, c) = (dims[1], dims[2], dims[3]);
                if c != 3 || h != w {
                    return None;
                }
                Some(h)
            },
            TensorFormat::Other => None,
        }
    }

    /// Checks that an image tensor of shape `(b, c, h, w)` matches the
    /// model's input, in the order of the input's layout.
    pub fn check_input_shape(&self, b: usize, c: usize, h: usize, w: usize) -> (r: Result<
        (),
        RknnError,
    >)
        ensures
            r == input_shape_check(self.input_attr, b, c, h, w),
    {
        let dims = &self.input_attr.dims;
        if dims.len() != 4 {
            return Err(RknnError::InputNotFourDims);
        }
        let (d0, d1, d2, d3) = (dims[0] as usize, dims[1] as usize, dims[2] as usize, dims[3] as usize);
        match self.input_attr.format {
            TensorFormat::Nchw => {
                if d0 == b && d1 == c && d2 == h && d3 == w {
                    Ok(())
                } else {
                    Err(RknnError::ShapeMismatch { expected: Dims4(d0, d1, d2, d3), got: Dims4(b, c, h, w) })
                }
            },
            TensorFormat::Nhwc => {
                if d0 == b && d1 == h && d2 == w && d3 == c {
                    Ok(())
                } else {
                    Err(RknnError::ShapeMismatch { expected: Dims4(d0, d1, d2, d3), got: Dims4(b, h, w, c) })
                }
            },
            TensorFormat::Other => Err(RknnError::UnsupportedFormat),
        }
    }

    /// How an image tensor of shape `(b, c, h, w)` is prepared for the
    /// model: its shape is checked first, then the input layout decides
    /// whether it is reordered to NHWC, then the input element type must be
    /// a float type.
    pub fn plan_input(&self, b: usize, c: usize, h: usize, w: usize) -> (r: Result<
        InputPlan,
        RknnError,
    >)
        ensures
            match input_shape_check(self.input_attr, b, c, h, w) {
                Err(e) => r == Err::<InputPlan, RknnError>(e),
                Ok(_) => if self.input_attr.dtype == TensorDType::Other {
                    r == Err::<InputPlan, RknnError>(RknnError::UnsupportedDType)
                } else {
                    r == Ok::<InputPlan, RknnError>(
                        InputPlan {
                            to_nhwc: self.input_attr.format == TensorFormat::Nhwc,
                            dtype: self.input_attr.dtype,
                        },
                    )
                },
            },
    {
        match self.check_input_shape(b, c, h, w) {
            Err(e) => return Err(e),
            Ok(()) => {},
        }
        let to_nhwc = match self.input_attr.format {
            TensorFormat::Nchw => false,
            TensorFormat::Nhwc => true,
            TensorFormat::Other => return Err(RknnError::UnsupportedFormat),
        };
        match self.input_attr.dtype {
            TensorDType::Other => Err(RknnError::UnsupportedDType),
            dtype => Ok(InputPlan { to_nhwc, dtype }),
        }
    }

    /// The output tensor's dimensions as sizes.
    pub fn output_dims(&self) -> (r: Vec<usize>)
        ensures
            r@.len() == self.output_attr.dims@.len(),
            forall|i: int| 0 <= i < r@.len() ==> r@[i] == self.output_attr.dims@[i],
    {
        let dims = &self.output_attr.dims;
        let mut r: Vec<usize> = Vec::new();
        let mut i: usize = 0;
        while i < dims.len()
            invariant
                0 <= i <= dims.len(),
                r@.len() == i,
                forall|j: int| 0 <= j < i ==> r@[j] == dims@[j],
            decreases dims.len() - i,
        {
            r.push(dims[i] as usize);
            i = i + 1;
        }
        r
    }
}

} // verus!

verus! {

/// The NCHW position of the element that lands at NHWC position `k`, for
/// channel count `c`, height `h` and width `w`.
pub open spec fn nhwc_source(k: int, c: int, h: int, w: int) -> int {
    let ci = k % c;
    let q1 = k / c;
    let xi = q1 % w;
    let q2 = q1 / w;
    let yi = q2 % h;
    let bi = q2 / h;
    ((bi * c + ci) * h + yi) * w + xi
}

proof fn lemma_nhwc_decompose(k: int, c: int, h: int, w: int)
    requires
        0 <= k,
        0 < c,
        0 < h,
        0 < w,
    ensures
        ({
            let ci = k % c;
            let q1 = k / c;
            let xi = q1 % w;
            let q2 = q1 / w;
            let yi = q2 % h;
            let bi = q2 / h;
            &&& 0 <= ci < c
            &&& 0 <= xi < w
            &&& 0 <= yi < h
            &&& 0 <= bi
            &&& k == ((bi * h + yi) * w + xi) * c + ci
        }),
{
    let ci = k % c;
    let q1 = k / c;
    let xi = q1 % w;
    let q2 = q1 / w;
    let yi = q2 % h;
    let bi = q2 / h;
    vstd::arithmetic::div_mod::lemma_fundamental_div_mod(k, c);
    vstd::arithmetic::div_mod::lemma_fundamental_div_mod(q1, w);
    vstd::arithmetic::div_mod::lemma_fundamental_div_mod(q2, h);
    vstd::arithmetic::div_mod::lemma_mod_bound(k, c);
    vstd::arithmetic::div_mod::lemma_mod_bound(q1, w);
    vstd::arithmetic::div_mod::lemma_mod_bound(q2, h);
    assert(q1 >= 0) by (nonlinear_arith)
        requires
            k == c * q1 + ci,
            0 <= ci < c,
            0 <= k,
    ;
    assert(q2 >= 0) by (nonlinear_arith)
        requires
            q1 == w * q2 + xi,
            0 <= xi < w,
            0 <= q1,
    ;
    assert(bi >= 0) by (nonlinear_arith)
        requires
            q2 == h * bi + yi,
            0 <= yi < h,
            0 <= q2,
    ;
    assert(k == ((bi * h + yi) * w + xi) * c + ci) by (nonlinear_arith)
        requires
            k == c * q1 + ci,
            q1 == w * q2 + xi,
            q2 == h * bi + yi,
    ;
}

/// Law of the NCHW to NHWC reordering: the element at batch `bi`, channel
/// `ci`, row `yi`, column `xi` moves from NCHW position
/// `((bi*c+ci)*h+yi)*w+xi` to NHWC position `((bi*h+yi)*w+xi)*c+ci`.
pub proof fn lemma_nhwc_position(bi: int, ci: int, yi: int, xi: int, c: int, h: int, w: int)
    requires
        0 <= bi,
        0 <= ci < c,
        0 <= yi < h,
        0 <= xi < w,
    ensures
        nhwc_source(((bi * h + yi) * w + xi) * c + ci, c, h, w) == ((bi * c + ci) * h + yi) * w
            + xi,
{
    let k = ((bi * h + yi) * w + xi) * c + ci;
    let q1 = (bi * h + yi) * w + xi;
    let q2 = bi * h + yi;
    assert(k == q1 * c + ci);
    vstd::arithmetic::div_mod::lemma_fundamental_div_mod_converse(k, c, q1, ci);
    assert(q1 == q2 * w + xi);
    vstd::arithmetic::div_mod::lemma_fundamental_div_mod_converse(q1, w, q2, xi);
    vstd::arithmetic::div_mod::lemma_fundamental_div_mod_converse(q2, h, bi, yi);
}

proof fn lemma_nhwc_source_bound(k: int, b: int, c: int, h: int, w: int)
    requires
        0 <= k < b * c * h * w,
        0 < c,
        0 < h,
        0 < w,
    ensures
        0 <= nhwc_source(k, c, h, w) < b * c * h * w,
{
    lemma_nhwc_decompose(k, c, h, w);
    let ci = k % c;
    let q1 = k / c;
    let xi = q1 % w;
    let q2 = q1 / w;
    let yi = q2 % h;
    let bi = q2 / h;
    assert(bi < b) by (nonlinear_arith)
        requires
            k == ((bi * h + yi) * w + xi) * c + ci,
            0 <= ci < c,
            0 <= xi < w,
            0 <= yi < h,
            0 <= bi,
            k < b * c * h * w,
    ;
    assert(0 <= ((bi * c + ci) * h + yi) * w + xi < b * c * h * w) by (nonlinear_arith)
        requires
            0 <= ci < c,
            0 <= xi < w,
            0 <= yi < h,
            0 <= bi < b,
    ;
}

/// `b * c * h * w`, for a product known to fit in `usize`.
fn count4(b: usize, c: usize, h: usize, w: usize) -> (r: usize)
    requires
        b * c * h * w <= usize::MAX,
    ensures
        r == b * c * h * w,
{
    if b == 0 || c == 0 || h == 0 || w == 0 {
        assert(b * c * h * w == 0) by (nonlinear_arith)
            requires
                b == 0 || c == 0 || h == 0 || w == 0,
        ;
        return 0;
    }
    assert(b * c <= b * c * h * w && b * c * h <= b * c * h * w) by (nonlinear_arith)
        requires
            b >= 1,
            c >= 1,
            h >= 1,
            w >= 1,
    ;
    b * c * h * w
}

/// Reorders an NCHW tensor of shape `(b, c, h, w)`, given as its elements in
/// row-major order, into NHWC order. A longer buffer keeps its length; its
/// elements past the tensor's are `fill`.
pub fn nchw_to_nhwc<T: Copy>(input: &[T], b: usize, c: usize, h: usize, w: usize, fill: T) -> (r: Vec<T>)
    requires
        input@.len() >= b * c * h * w,
    ensures
        r@.len() == input@.len(),
        forall|k: int|
            0 <= k < b * c * h * w ==> r@[k] == input@[nhwc_source(k, c as int, h as int, w as int)],
        forall|k: int| b * c * h * w <= k < r@.len() ==> r@[k] == fill,
{
    let n = input.len();
    let total = count4(b, c, h, w);
    let mut out: Vec<T> = Vec::new();
    let mut k: usize = 0;
    while k < n
        invariant
            n == input@.len(),
            total == b * c * h * w,
            total <= n,
            0 <= k <= n,
            out@.len() == k,
            forall|j: int|
                0 <= j < k && j < total ==> out@[j] == input@[nhwc_source(j, c as int, h as int, w as int)],
            forall|j: int| total <= j < k ==> out@[j] == fill,
        decreases n - k,
    {
        if k >= total {
            out.push(fill);
            k = k + 1;
            continue;
        }
        proof {
            assert(c > 0 && h > 0 && w > 0) by (nonlinear_arith)
                requires
                    0 <= k < b * c * h * w,
                    b >= 0,
                    c >= 0,
                    h >= 0,
                    w >= 0,
            ;
            lemma_nhwc_source_bound(k as int, b as int, c as int, h as int, w as int);
            lemma_nhwc_decompose(k as int, c as int, h as int, w as int);
        }
        let ci = k % c;
        let q1 = k / c;
        let xi = q1 % w;
        let q2 = q1 / w;
        let yi = q2 % h;
        let bi = q2 / h;
        let ghost src = nhwc_source(k as int, c as int, h as int, w as int);
        assert(bi * c <= ((bi * c + ci) * h + yi) * w + xi) by (nonlinear_arith)
            requires
                0 <= ci,
                0 <= yi,
                0 <= xi,
                0 <= bi,
                h >= 1,
                w >= 1,
        ;
        assert((bi * c + ci) * h <= ((bi * c + ci) * h + yi) * w + xi) by (nonlinear_arith)
            requires
                0 <= ci,
                0 <= yi,
                0 <= xi,
                0 <= bi,
                w >= 1,
        ;
        assert(bi * c + ci <= ((bi * c + ci) * h + yi) * w + xi) by (nonlinear_arith)
            requires
                0 <= ci,
                0 <= yi,
                0 <= xi,
                0 <= bi,
                h >= 1,
                w >= 1,
        ;
        assert((bi * c + ci) * h + yi <= ((bi * c + ci) * h + yi) * w + xi) by (nonlinear_arith)
            requires
                0 <= ci,
                0 <= yi,
                0 <= xi,
                0 <= bi,
                w >= 1,
        ;
        assert(((bi * c + ci) * h + yi) * w <= ((bi * c + ci) * h + yi) * w + xi);
        assert(src < total);
        let s = ((bi * c + ci) * h + yi) * w + xi;
        assert(s as int == src);
        out.push(input[s]);
        k = k + 1;
    }
    out
}

} // verus!

verus! {

pub open spec fn format_name(f: TensorFormat) -> Seq<char> {
    match f {
        TensorFormat::Nchw => seq!['N', 'C', 'H', 'W'],
        TensorFormat::Nhwc => seq!['N', 'H', 'W', 'C'],
        TensorFormat::Other => seq!['O', 'T', 'H', 'E', 'R'],
    }
}

pub open spec fn dtype_name(d: TensorDType) -> Seq<char> {
    match d {
        TensorDType::Float32 => seq!['F', 'L', 'O', 'A', 'T', '3', '2'],
        TensorDType::Float16 => seq!['F', 'L', 'O', 'A', 'T', '1', '6'],
        TensorDType::BFloat16 => seq!['B', 'F', 'L', 'O', 'A', 'T', '1', '6'],
        TensorDType::Other => seq!['O', 'T', 'H', 'E', 'R'],
    }
}

/// The dimensions separated by `, `.
pub open spec fn joined_dims(ds: Seq<u32>) -> Seq<char>
    decreases ds.len(),
{
    if ds.len() == 0 {
        Seq::empty()
    } else if ds.len() == 1 {
        decimal(ds[0] as nat)
    } else {
        joined_dims(ds.drop_last()) + seq![',', ' '] + decimal(ds.last() as nat)
    }
}

/// `dims=[d0, d1, ...] format=<layout> dtype=<type>`.
pub open spec fn attr_summary(attr: RknnTensorAttr) -> Seq<char> {
    seq!['d', 'i', 'm', 's', '=', '['] + joined_dims(attr.dims@) + seq![
        ']',
        ' ',
        'f',
        'o',
        'r',
        'm',
        'a',
        't',
        '=',
    ] + format_name(attr.format) + seq![' ', 'd', 't', 'y', 'p', 'e', '='] + dtype_name(
        attr.dtype,
    )
}

fn literal(s: &str) -> (r: Vec<char>)
    ensures
        r@ == s@,
{
    chars_of(s)
}

fn format_name_chars(f: TensorFormat) -> (r: Vec<char>)
    ensures
        r@ == format_name(f),
{
    proof {
        reveal_strlit("NCHW");
        reveal_strlit("NHWC");
        reveal_strlit("OTHER");
    }
    let r = match f {
        TensorFormat::Nchw => literal("NCHW"),
        TensorFormat::Nhwc => literal("NHWC"),
        TensorFormat::Other => literal("OTHER"),
    };
    assert(r@ =~= format_name(f));
    r
}

fn dtype_name_chars(d: TensorDType) -> (r: Vec<char>)
    ensures
        r@ == dtype_name(d),
{
    proof {
        reveal_strlit("FLOAT32");
        reveal_strlit("FLOAT16");
        reveal_strlit("BFLOAT16");
        reveal_strlit("OTHER");
    }
    let r = match d {
        TensorDType::Float32 => literal("FLOAT32"),
        TensorDType::Float16 => literal("FLOAT16"),
        TensorDType::BFloat16 => literal("BFLOAT16"),
        TensorDType::Other => literal("OTHER"),
    };
    assert(r@ =~= dtype_name(d));
    r
}

fn joined_dims_chars(ds: &Vec<u32>) -> (r: Vec<char>)
    ensures
        r@ == joined_dims(ds@),
{
    let mut out: Vec<char> = Vec::new();
    let mut i: usize = 0;
    while i < ds.len()
        invariant
            0 <= i <= ds.len(),
            out@ == joined_dims(ds@.take(i as int)),
        decreases ds.len() - i,
    {
        assert(ds@.take(i + 1).drop_last() == ds@.take(i as int));
        assert(ds@.take(i + 1).last() == ds@[i as int]);
        if i > 0 {
            out.push(',');
            out.push(' ');
        }
        let digits = decimal_chars(ds[i] as u64);
        let ghost before = out@;
        extend_chars(&mut out, &digits);
        if i == 0 {
            assert(out@ =~= joined_dims(ds@.take(1)));
        } else {
            assert(out@ =~= joined_dims(ds@.take(i + 1)));
        }
        i = i + 1;
    }
    assert(ds@.take(ds@.len() as int) == ds@);
    out
}

impl VisionRknn {
    /// A one-line description of the model's input (dimensions, layout,
    /// element type), for error messages.
    pub fn input_summary(&self) -> (r: String)
        ensures
            r@ == attr_summary(self.input_attr),
    {
        let attr = &self.input_attr;
        let mut out = literal("dims=[");
        let joined = joined_dims_chars(&attr.dims);
        extend_chars(&mut out, &joined);
        extend_chars(&mut out, &literal("] format="));
        extend_chars(&mut out, &format_name_chars(attr.format));
        extend_chars(&mut out, &literal(" dtype="));
        extend_chars(&mut out, &dtype_name_chars(attr.dtype));
        proof {
            reveal_strlit("dims=[");
            reveal_strlit("] format=");
            reveal_strlit(" dtype=");
            assert(out@ =~= attr_summary(*attr));
        }
        string_from_chars(out.as_slice())
    }
}

} // verus!

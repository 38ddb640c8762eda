use vstd::prelude::*;
use vstd::string::StringExecFns;
use crate::errors::LogError;
use crate::hexfmt::{hex_of, hex_prefixed_of, hex_encode, hex_encode_prefixed};
use crate::model::CtorValue;

verus! {

/// One constructor parameter: its declared name and, for tuple-typed
/// parameters, the ordered specifications of its components.
pub struct ParamSpec {
    pub name: String,
    pub components: Vec<ParamSpec>,
}

/// A decoded ABI constructor-argument value, covering the finite set
/// of value kinds the decoder can produce. Leaves that the serializer
/// emits verbatim (addresses, integers) carry the decoder's canonical
/// text; byte-like leaves carry the raw bytes.
pub enum AbiValue {
    /// Canonical (checksummed) hex text of a 20-byte address.
    Address(String),
    Bool(bool),
    /// The full 32-byte word backing a fixed-size byte value.
    FixedBytes(Vec<u8>),
    /// Decimal text of a signed integer of up to 256 bits.
    Int(String),
    /// Decimal text of an unsigned integer of up to 256 bits.
    Uint(String),
    Text(String),
    /// The 24-byte packed selector+address composite.
    Function(Vec<u8>),
    /// A variable-length byte sequence, kept raw.
    Bytes(Vec<u8>),
    Tuple(Vec<AbiValue>),
    Array(Vec<AbiValue>),
    FixedArray(Vec<AbiValue>),
}

/// The mathematical shape of a serialized constructor value: a text
/// leaf or an ordered mapping from component names to nested shapes.
pub enum CtorShape {
    Leaf(Seq<char>),
    Obj(Seq<(Seq<char>, CtorShape)>),
}

/// The shape of an exec constructor-value tree.
pub open spec fn cv_view(v: CtorValue) -> CtorShape
    decreases v,
{
    match v {
        CtorValue::Text(s) => CtorShape::Leaf(s@),
        CtorValue::Object(ps) => CtorShape::Obj(pairs_view(ps@)),
    }
}

pub open spec fn pairs_view(ps: Seq<(String, CtorValue)>) -> Seq<(Seq<char>, CtorShape)>
    decreases ps,
{
    if ps.len() == 0 {
        Seq::empty()
    } else {
        pairs_view(ps.drop_last()).push((ps.last().0@, cv_view(ps.last().1)))
    }
}

/// The zero byte repeated.
pub open spec fn zero_seq(n: int) -> Seq<u8> {
    Seq::new(if n < 0 { 0 } else { n as nat }, |i: int| 0u8)
}

/// Big-endian bytes of a 64-bit length.
pub open spec fn be_u64_bytes(n: u64) -> Seq<u8> {
    seq![
        (n >> 56) as u8,
        (n >> 48) as u8,
        (n >> 40) as u8,
        (n >> 32) as u8,
        (n >> 24) as u8,
        (n >> 16) as u8,
        (n >> 8) as u8,
        n as u8,
    ]
}

/// Zero padding that rounds a payload up to a whole 32-byte word.
pub open spec fn pad_len(n: int) -> int {
    if n % 32 == 0 {
        0
    } else {
        32 - n % 32
    }
}

/// The single-value ABI encoding of a byte sequence: one offset word
/// (the constant 32), one length word, then the bytes padded with
/// zeros to a multiple of 32.
pub open spec fn abi_bytes_enc(bs: Seq<u8>) -> Seq<u8> {
    zero_seq(31) + seq![32u8] + zero_seq(24) + be_u64_bytes(bs.len() as u64) + bs + zero_seq(
        pad_len(bs.len() as int),
    )
}

/// A decoded value agrees positionally with its parameter
/// specification: every tuple has exactly one component specification
/// per element, recursively.
pub open spec fn shape_ok(p: ParamSpec, v: AbiValue) -> bool
    decreases v,
{
    match v {
        AbiValue::Tuple(vs) => vs@.len() == p.components@.len() && (forall|i: int|
            0 <= i < vs@.len() ==> shape_ok(p.components@[i], #[trigger] vs@[i])),
        _ => true,
    }
}

pub open spec fn shapes_ok(ps: Seq<ParamSpec>, args: Seq<AbiValue>) -> bool {
    ps.len() == args.len() && (forall|i: int|
        0 <= i < args.len() ==> shape_ok(ps[i], #[trigger] args[i]))
}

/// What serializing one value against its parameter specification
/// yields: the JSON-safe shape, or the error for array-typed values.
pub open spec fn serialize_spec(p: ParamSpec, v: AbiValue) -> Result<CtorShape, LogError>
    decreases v,
{
    match v {
        AbiValue::Address(a) => Ok(CtorShape::Leaf(a@)),
        AbiValue::Bool(b) => Ok(CtorShape::Leaf(if b { "true"@ } else { "false"@ })),
        AbiValue::FixedBytes(bs) => Ok(CtorShape::Leaf(hex_prefixed_of(bs@))),
        AbiValue::Int(s) => Ok(CtorShape::Leaf(s@)),
        AbiValue::Uint(s) => Ok(CtorShape::Leaf(s@)),
        AbiValue::Text(s) => Ok(CtorShape::Leaf(s@)),
        AbiValue::Function(bs) => Ok(CtorShape::Leaf(hex_prefixed_of(bs@))),
        AbiValue::Bytes(bs) => Ok(CtorShape::Leaf(hex_of(abi_bytes_enc(bs@)))),
        AbiValue::Tuple(vs) => match extract_spec(p.components@, vs@) {
            Ok(m) => Ok(CtorShape::Obj(m)),
            Err(e) => Err(e),
        },
        AbiValue::Array(_) => Err(LogError::UnsupportedAbiType),
        AbiValue::FixedArray(_) => Err(LogError::UnsupportedAbiType),
    }
}

/// What serializing a whole parameter list yields: one pair per
/// parameter, keyed by the parameter name, in declaration order; or
/// the first serialization error.
pub open spec fn extract_spec(ps: Seq<ParamSpec>, args: Seq<AbiValue>) -> Result<
    Seq<(Seq<char>, CtorShape)>,
    LogError,
>
    decreases args,
{
    if args.len() == 0 {
        Ok(Seq::empty())
    } else {
        match extract_spec(ps.drop_last(), args.drop_last()) {
            Err(e) => Err(e),
            Ok(pre) => match serialize_spec(ps[args.len() - 1], args.last()) {
                Err(e) => Err(e),
                Ok(sh) => Ok(pre.push((ps[args.len() - 1].name@, sh))),
            },
        }
    }
}

/// Builds the single-value ABI encoding of a byte sequence.
#[verifier::loop_isolation(false)]
pub fn abi_encode_bytes(bs: &Vec<u8>) -> (r: Vec<u8>)
    ensures
        r@ == abi_bytes_enc(bs@),
{
    let mut out: Vec<u8> = Vec::new();
    let mut i: usize = 0;
    while i < 31
        invariant
            i <= 31,
            out@ =~= zero_seq(i as int),
        decreases 31 - i,
    {
        out.push(0u8);
        i = i + 1;
    }
    out.push(32u8);
    let mut j: usize = 0;
    while j < 24
        invariant
            j <= 24,
            out@ =~= zero_seq(31) + seq![32u8] + zero_seq(j as int),
        decreases 24 - j,
    {
        out.push(0u8);
        j = j + 1;
    }
    let n: u64 = bs.len() as u64;
    out.push((n >> 56) as u8);
    out.push((n >> 48) as u8);
    out.push((n >> 40) as u8);
    out.push((n >> 32) as u8);
    out.push((n >> 24) as u8);
    out.push((n >> 16) as u8);
    out.push((n >> 8) as u8);
    out.push(n as u8);
    proof {
        assert(out@ =~= zero_seq(31) + seq![32u8] + zero_seq(24) + be_u64_bytes(n));
    }
    let ghost head = out@;
    let mut k: usize = 0;
    while k < bs.len()
        invariant
            k <= bs@.len(),
            out@ =~= head + bs@.take(k as int),
        decreases bs@.len() - k,
    {
        out.push(bs[k]);
        k = k + 1;
    }
    proof {
        assert(bs@.take(bs@.len() as int) =~= bs@);
    }
    let rem: usize = bs.len() % 32;
    let pad: usize = if rem == 0 {
        0
    } else {
        32 - rem
    };
    let ghost body = out@;
    let mut t: usize = 0;
    while t < pad
        invariant
            t <= pad,
            out@ =~= body + zero_seq(t as int),
        decreases pad - t,
    {
        out.push(0u8);
        t = t + 1;
    }
    proof {
        assert(pad == pad_len(bs@.len() as int));
        assert(out@ =~= abi_bytes_enc(bs@));
    }
    out
}

/// Serializes one decoded constructor value against its parameter
/// specification into a JSON-safe value; recurses for tuples and
/// fails on array-typed values, which are a declared non-goal.
pub fn serialize_value(param: &ParamSpec, value: &AbiValue) -> (r: Result<CtorValue, LogError>)
    requires
        shape_ok(*param, *value),
    ensures
        match r {
            Ok(cv) => serialize_spec(*param, *value) matches Ok(sh) && cv_view(cv) == sh,
            Err(e) => serialize_spec(*param, *value) matches Err(e2) && e == e2,
        },
    decreases *value,
{
    match value {
        AbiValue::Address(a) => Ok(CtorValue::Text(a.clone())),
        AbiValue::Bool(b) => Ok(
            CtorValue::Text(String::from_str(if *b { "true" } else { "false" })),
        ),
        AbiValue::FixedBytes(bs) => Ok(CtorValue::Text(hex_encode_prefixed(bs.as_slice()))),
        AbiValue::Int(s) => Ok(CtorValue::Text(s.clone())),
        AbiValue::Uint(s) => Ok(CtorValue::Text(s.clone())),
        AbiValue::Text(s) => Ok(CtorValue::Text(s.clone())),
        AbiValue::Function(bs) => Ok(CtorValue::Text(hex_encode_prefixed(bs.as_slice()))),
        AbiValue::Bytes(bs) => {
            let enc = abi_encode_bytes(bs);
            Ok(CtorValue::Text(hex_encode(enc.as_slice())))
        },
        AbiValue::Tuple(vs) => {
            match extract_constructor_inputs(&param.components, vs) {
                Ok(m) => Ok(CtorValue::Object(m)),
                Err(e) => Err(e),
            }
        },
        AbiValue::Array(_) => Err(LogError::UnsupportedAbiType),
        AbiValue::FixedArray(_) => Err(LogError::UnsupportedAbiType),
    }
}

/// Serializes a full constructor argument list: one pair per
/// parameter, keyed by parameter name, in declaration order. The
/// specification list and the value list must correspond
/// positionally; the decoder guarantees this for values it produced.
#[verifier::loop_isolation(false)]
pub fn extract_constructor_inputs(params: &Vec<ParamSpec>, args: &Vec<AbiValue>) -> (r: Result<
    Vec<(String, CtorValue)>,
    LogError,
>)
    requires
        shapes_ok(params@, args@),
    ensures
        match r {
            Ok(m) => extract_spec(params@, args@) matches Ok(sh) && pairs_view(m@) == sh,
            Err(e) => extract_spec(params@, args@) matches Err(e2) && e == e2,
        },
    decreases args@,
{
    let mut out: Vec<(String, CtorValue)> = Vec::new();
    let mut i: usize = 0;
    while i < args.len()
        invariant
            shapes_ok(params@, args@),
            i <= args@.len(),
            extract_spec(params@.take(i as int), args@.take(i as int)) matches Ok(sh)
                && pairs_view(out@) == sh,
        decreases args@.len() - i,
    {
        let ghost pre_params = params@.take(i as int);
        let ghost pre_args = args@.take(i as int);
        match serialize_value(&params[i], &args[i]) {
            Ok(cv) => {
                let ghost old_out = out@;
                let ghost gcv = cv;
                let key = params[i].name.clone();
                out.push((key, cv));
                proof {
                    assert(out@.drop_last() =~= old_out);
                    let tp = params@.take(i + 1int);
                    let ta = args@.take(i + 1int);
                    assert(ta.drop_last() =~= pre_args);
                    assert(tp.drop_last() =~= pre_params);
                    assert(ta.last() == args@[i as int]);
                    assert(tp[ta.len() - 1] == params@[i as int]);
                    let sh_pre = extract_spec(pre_params, pre_args)->Ok_0;
                    assert(pairs_view(out@) == pairs_view(old_out).push(
                        (out@.last().0@, cv_view(out@.last().1)),
                    ));
                    assert(out@.last().1 == gcv);
                    assert(extract_spec(tp, ta) == Result::<
                        Seq<(Seq<char>, CtorShape)>,
                        LogError,
                    >::Ok(sh_pre.push((params@[i as int].name@, cv_view(gcv)))));
                }
            },
            Err(e) => {
                proof {
                    lemma_extract_err(params@, args@, i as int, e);
                }
                return Err(e);
            },
        }
        i = i + 1;
    }
    proof {
        assert(params@.take(args@.len() as int) =~= params@);
        assert(args@.take(args@.len() as int) =~= args@);
    }
    Ok(out)
}

/// If the first `i` parameters serialize cleanly and parameter `i`
/// fails with `e`, the whole extraction fails with `e`.
proof fn lemma_extract_err(ps: Seq<ParamSpec>, args: Seq<AbiValue>, i: int, e: LogError)
    requires
        ps.len() == args.len(),
        0 <= i < args.len(),
        extract_spec(ps.take(i), args.take(i)) is Ok,
        serialize_spec(ps[i], args[i]) == Result::<CtorShape, LogError>::Err(e),
    ensures
        extract_spec(ps, args) == Result::<Seq<(Seq<char>, CtorShape)>, LogError>::Err(e),
    decreases args.len() - i,
{
    if i == args.len() - 1 {
        assert(args.take(i) =~= args.drop_last());
        assert(ps.take(i) =~= ps.drop_last());
        assert(args.last() == args[i]);
    } else {
        let pp = ps.drop_last();
        let aa = args.drop_last();
        assert(aa.take(i) =~= args.take(i));
        assert(pp.take(i) =~= ps.take(i));
        assert(aa[i] == args[i]);
        assert(pp[i] == ps[i]);
        lemma_extract_err(pp, aa, i, e);
    }
}

/// How many text leaves a decoded value contributes.
pub open spec fn value_leaf_count(v: AbiValue) -> nat
    decreases v,
{
    match v {
        AbiValue::Tuple(vs) => values_leaf_count(vs@),
        _ => 1,
    }
}

pub open spec fn values_leaf_count(vs: Seq<AbiValue>) -> nat
    decreases vs,
{
    if vs.len() == 0 {
        0
    } else {
        values_leaf_count(vs.drop_last()) + value_leaf_count(vs.last())
    }
}

/// How many text leaves a serialized shape holds.
pub open spec fn shape_leaf_count(s: CtorShape) -> nat
    decreases s,
{
    match s {
        CtorShape::Leaf(_) => 1,
        CtorShape::Obj(ps) => shape_pairs_leaf_count(ps),
    }
}

pub open spec fn shape_pairs_leaf_count(ps: Seq<(Seq<char>, CtorShape)>) -> nat
    decreases ps,
{
    if ps.len() == 0 {
        0
    } else {
        shape_pairs_leaf_count(ps.drop_last()) + shape_leaf_count(ps.last().1)
    }
}

/// Serialization preserves the leaf count: a tuple value with N leaf
/// fields yields a nested mapping with exactly N leaves populated,
/// regardless of nesting depth.
pub proof fn lemma_serialize_leaf_count(p: ParamSpec, v: AbiValue)
    requires
        serialize_spec(p, v) is Ok,
    ensures
        shape_leaf_count(serialize_spec(p, v)->Ok_0) == value_leaf_count(v),
    decreases v,
{
    match v {
        AbiValue::Tuple(vs) => {
            lemma_extract_leaf_count(p.components@, vs@);
        },
        _ => {},
    }
}

/// Leaf-count preservation over a whole parameter list.
pub proof fn lemma_extract_leaf_count(ps: Seq<ParamSpec>, args: Seq<AbiValue>)
    requires
        extract_spec(ps, args) is Ok,
    ensures
        shape_pairs_leaf_count(extract_spec(ps, args)->Ok_0) == values_leaf_count(args),
    decreases args,
{
    if args.len() == 0 {
    } else {
        lemma_extract_leaf_count(ps.drop_last(), args.drop_last());
        lemma_serialize_leaf_count(ps[args.len() - 1], args.last());
        let pre = extract_spec(ps.drop_last(), args.drop_last())->Ok_0;
        let m = extract_spec(ps, args)->Ok_0;
        assert(m.drop_last() =~= pre);
    }
}

} // verus!

use vstd::prelude::*;
use alloy::dyn_abi::DynSolValue;
use alloy::json_abi::Constructor;
use crate::errors::LogError;
use crate::model::DeploymentLog;
use crate::abi::{ParamSpec, AbiValue};
use crate::builder::{register_deployment, registered_entry, is_recognized_factory};
use crate::dup::detect_duplicate;
use crate::reconcile::{stable_sort_desc, latest_fold};
use crate::model::hist_has_addr;

verus! {

#[verifier::external_type_specification]
#[verifier::external_body]
pub struct ExDynSolValue(DynSolValue);

#[verifier::external_type_specification]
#[verifier::external_body]
pub struct ExConstructor(Constructor);

#[verifier::external_type_specification]
#[verifier::external_body]
pub struct ExDynAbiError(alloy::dyn_abi::Error);

/// Relies on alloy's `Constructor::abi_decode_input` (`JsonAbiExt`):
/// decodes raw constructor argument bytes against the constructor's
/// declared input types, or reports a decoding error.
#[verifier::external_body]
fn decode_ctor_args(ctor: &Constructor, data: &[u8]) -> Result<
    Vec<DynSolValue>,
    alloy::dyn_abi::Error,
> {
    alloy::dyn_abi::JsonAbiExt::abi_decode_input(ctor, data)
}

/// Relies on `DynSolValue::as_bool`: the boolean for the `Bool`
/// variant, nothing otherwise.
#[verifier::external_body]
fn dyn_as_bool(v: &DynSolValue) -> Option<bool> {
    v.as_bool()
}

/// Relies on `DynSolValue::as_address` and the `Address` display
/// impl, which formats the canonical checksummed hex text.
#[verifier::external_body]
fn dyn_as_address_text(v: &DynSolValue) -> Option<String> {
    v.as_address().map(|a| a.to_string())
}

/// Relies on `DynSolValue::as_str`: the string of the `String`
/// variant.
#[verifier::external_body]
fn dyn_as_text(v: &DynSolValue) -> Option<String> {
    v.as_str().map(|s| s.to_owned())
}

/// Relies on `DynSolValue::as_fixed_bytes`: the backing 32-byte word
/// of the `FixedBytes` variant.
#[verifier::external_body]
fn dyn_as_fixed_bytes(v: &DynSolValue) -> (r: Option<Vec<u8>>)
    ensures
        r matches Some(b) ==> b@.len() == 32,
{
    v.as_fixed_bytes().map(|(b, _)| b.to_vec())
}

/// Relies on `DynSolValue::as_int` and the `I256` display impl,
/// which formats the signed decimal text.
#[verifier::external_body]
fn dyn_as_int_text(v: &DynSolValue) -> Option<String> {
    v.as_int().map(|(i, _)| i.to_string())
}

/// Relies on `DynSolValue::as_uint` and the `U256` display impl,
/// which formats the unsigned decimal text.
#[verifier::external_body]
fn dyn_as_uint_text(v: &DynSolValue) -> Option<String> {
    v.as_uint().map(|(u, _)| u.to_string())
}

/// Relies on the `Function` variant of `DynSolValue`: the 24-byte
/// packed selector+address composite.
#[verifier::external_body]
fn dyn_as_function_bytes(v: &DynSolValue) -> (r: Option<Vec<u8>>)
    ensures
        r matches Some(b) ==> b@.len() == 24,
{
    match v {
        DynSolValue::Function(f) => Some(f.0.as_slice().to_vec()),
        _ => None,
    }
}

/// Relies on `DynSolValue::as_bytes`: the raw bytes of the `Bytes`
/// variant.
#[verifier::external_body]
fn dyn_as_bytes(v: &DynSolValue) -> Option<Vec<u8>> {
    v.as_bytes().map(|b| b.to_vec())
}

/// Relies on `DynSolValue::as_tuple`: the component values of the
/// `Tuple` variant.
#[verifier::external_body]
fn dyn_as_tuple(v: &DynSolValue) -> Option<Vec<DynSolValue>> {
    v.as_tuple().map(|t| t.to_vec())
}

/// Relies on `DynSolValue::as_array`: `Some` exactly for the `Array`
/// variant.
#[verifier::external_body]
fn dyn_is_array(v: &DynSolValue) -> bool {
    v.as_array().is_some()
}

/// Relies on `DynSolValue::as_fixed_array`: `Some` exactly for the
/// `FixedArray` variant.
#[verifier::external_body]
fn dyn_is_fixed_array(v: &DynSolValue) -> bool {
    v.as_fixed_array().is_some()
}

/// How deep a decoded constructor value may nest before lifting
/// gives up; real constructor argument lists stay far below this.
pub const LIFT_DEPTH: u64 = 64;

/// Rebuilds one decoded value as the library's own value kind, leaf
/// by leaf. Returns `None` for a value kind outside the model or for
/// nesting beyond the depth budget. Array values are kept as (empty)
/// array markers: the serializer refuses arrays whatever they hold.
#[verifier::loop_isolation(false)]
pub fn lift_value(v: &DynSolValue, depth: u64) -> Option<AbiValue>
    decreases depth,
{
    if depth == 0 {
        return None;
    }
    if let Some(b) = dyn_as_bool(v) {
        return Some(AbiValue::Bool(b));
    }
    if let Some(s) = dyn_as_address_text(v) {
        return Some(AbiValue::Address(s));
    }
    if let Some(s) = dyn_as_text(v) {
        return Some(AbiValue::Text(s));
    }
    if let Some(bs) = dyn_as_fixed_bytes(v) {
        return Some(AbiValue::FixedBytes(bs));
    }
    if let Some(s) = dyn_as_int_text(v) {
        return Some(AbiValue::Int(s));
    }
    if let Some(s) = dyn_as_uint_text(v) {
        return Some(AbiValue::Uint(s));
    }
    if let Some(bs) = dyn_as_function_bytes(v) {
        return Some(AbiValue::Function(bs));
    }
    if let Some(bs) = dyn_as_bytes(v) {
        return Some(AbiValue::Bytes(bs));
    }
    if let Some(ts) = dyn_as_tuple(v) {
        let mut out: Vec<AbiValue> = Vec::new();
        let mut i: usize = 0;
        while i < ts.len()
            invariant
                i <= ts@.len(),
            decreases ts@.len() - i,
        {
            match lift_value(&ts[i], depth - 1) {
                Some(av) => out.push(av),
                None => {
                    return None;
                },
            }
            i = i + 1;
        }
        return Some(AbiValue::Tuple(out));
    }
    if dyn_is_array(v) {
        return Some(AbiValue::Array(Vec::new()));
    }
    if dyn_is_fixed_array(v) {
        return Some(AbiValue::FixedArray(Vec::new()));
    }
    None
}

/// Performs one registration from the raw explorer data: decodes the
/// raw constructor argument bytes against the constructor (when one
/// exists), lifts the decoded values into the library's model and
/// hands them to `register_deployment`. The artifact and duplicate
/// checks fail exactly as there, whatever the decoder returns; a
/// rejected decode fails with `DecodeFailed` and leaves the log
/// unchanged.
#[verifier::loop_isolation(false)]
pub fn register_from_raw(
    log: &mut DeploymentLog,
    contract_name: String,
    address: String,
    deployment_txn: String,
    timestamp: u64,
    artifact_found: bool,
    constructor: Option<&Constructor>,
    params: Vec<ParamSpec>,
    raw_args: &[u8],
    pool_init_code_hash: Option<String>,
) -> (r: Result<(), LogError>)
    requires
        is_recognized_factory(contract_name@) ==> pool_init_code_hash is Some,
    ensures
        r is Err ==> *final(log) == *old(log),
        !artifact_found <==> r == Result::<(), LogError>::Err(LogError::ArtifactNotFound),
        (artifact_found && hist_has_addr(old(log).history@, address@)) <==> (r matches Err(e)
            && e matches LogError::DuplicateContract(a) && a@ == address@),
        constructor is None && artifact_found && !hist_has_addr(old(log).history@, address@)
            ==> r is Ok,
        r is Ok ==> exists|e: crate::model::HistoryEntry, cv: Option<(Vec<ParamSpec>, Vec<AbiValue>)>|
            #[trigger] registered_entry(
                e,
                contract_name,
                address,
                deployment_txn,
                timestamp,
                pool_init_code_hash,
                cv,
            ) && final(log).history@ == stable_sort_desc(old(log).history@.push(e))
                && final(log).latest@ == latest_fold(final(log).history@)
                && final(log).chain_id == old(log).chain_id,
{
    if !artifact_found {
        return Err(LogError::ArtifactNotFound);
    }
    match detect_duplicate(&log.history, &address) {
        Ok(_) => (),
        Err(e) => {
            return Err(e);
        },
    }
    let ctor_vals: Option<(Vec<ParamSpec>, Vec<AbiValue>)> = match constructor {
        None => None,
        Some(c) => {
            let decoded = match decode_ctor_args(c, raw_args) {
                Ok(d) => d,
                Err(_) => {
                    return Err(LogError::DecodeFailed);
                },
            };
            let mut vals: Vec<AbiValue> = Vec::new();
            let mut i: usize = 0;
            while i < decoded.len()
                invariant
                    i <= decoded@.len(),
                decreases decoded@.len() - i,
            {
                match lift_value(&decoded[i], LIFT_DEPTH) {
                    Some(av) => vals.push(av),
                    None => {
                        return Err(LogError::DecodeFailed);
                    },
                }
                i = i + 1;
            }
            Some((params, vals))
        },
    };
    let r = register_deployment(
        log,
        contract_name,
        address,
        deployment_txn,
        timestamp,
        artifact_found,
        ctor_vals,
        pool_init_code_hash,
    );
    r
}

} // verus!

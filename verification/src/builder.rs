use vstd::prelude::*;
use vstd::string::StringExecFns;
use crate::errors::LogError;
use crate::model::{DeploymentLog, HistoryEntry, ContractRecord, hist_has_addr};
use crate::abi::{
    ParamSpec,
    AbiValue,
    shape_ok,
    shapes_ok,
    extract_spec,
    pairs_view,
    extract_constructor_inputs,
};
use crate::dup::detect_duplicate;
use crate::reconcile::{
    stable_sort_desc,
    latest_fold,
    reconcile,
    entries_with_addr,
    lemma_sort_count,
    lemma_count_push,
    lemma_count_zero,
    lemma_sort_props,
};

verus! {

/// The factory contract names for which a pool init-code hash is
/// recorded.
pub open spec fn is_recognized_factory(n: Seq<char>) -> bool {
    n == "UniswapV2Factory"@ || n == "UniswapV3Factory"@
}

/// True exactly when the name is one of the recognized factory types.
pub fn recognized_factory(name: &String) -> (b: bool)
    ensures
        b == is_recognized_factory(name@),
{
    let v2 = String::from_str("UniswapV2Factory");
    let v3 = String::from_str("UniswapV3Factory");
    name.eq(&v2) || name.eq(&v3)
}

/// Checks that a decoded value agrees positionally with its parameter
/// specification.
#[verifier::loop_isolation(false)]
pub fn shape_check(p: &ParamSpec, v: &AbiValue) -> (b: bool)
    ensures
        b == shape_ok(*p, *v),
    decreases *v,
{
    match v {
        AbiValue::Tuple(vs) => {
            if vs.len() != p.components.len() {
                return false;
            }
            let mut i: usize = 0;
            while i < vs.len()
                invariant
                    i <= vs@.len(),
                    forall|j: int| 0 <= j < i ==> shape_ok(p.components@[j], #[trigger] vs@[j]),
                decreases vs@.len() - i,
            {
                if !shape_check(&p.components[i], &vs[i]) {
                    return false;
                }
                i = i + 1;
            }
            true
        },
        _ => true,
    }
}

/// Checks a whole parameter list against a whole decoded value list.
#[verifier::loop_isolation(false)]
pub fn shapes_check(ps: &Vec<ParamSpec>, vs: &Vec<AbiValue>) -> (b: bool)
    ensures
        b == shapes_ok(ps@, vs@),
{
    if ps.len() != vs.len() {
        return false;
    }
    let mut i: usize = 0;
    while i < vs.len()
        invariant
            i <= vs@.len(),
            forall|j: int| 0 <= j < i ==> shape_ok(ps@[j], #[trigger] vs@[j]),
        decreases vs@.len() - i,
    {
        if !shape_check(&ps[i], &vs[i]) {
            return false;
        }
        i = i + 1;
    }
    true
}

/// The history entry a successful registration appends: one contract
/// under the given name, with the given address, creation
/// transaction, block timestamp, no commit hash, the proxy flag
/// unconditionally false, a pool init-code hash only for recognized
/// factory names, and the serialized constructor arguments (an empty
/// mapping when there is no constructor).
pub open spec fn registered_entry(
    e: HistoryEntry,
    name: String,
    address: String,
    txn: String,
    ts: u64,
    pool: Option<String>,
    ctor: Option<(Vec<ParamSpec>, Vec<AbiValue>)>,
) -> bool {
    &&& e.timestamp == ts
    &&& e.commit_hash is None
    &&& e.contracts@.len() == 1
    &&& e.contracts@[0].0 == name
    &&& e.contracts@[0].1.address == address
    &&& e.contracts@[0].1.proxy == false
    &&& e.contracts@[0].1.deployment_txn == txn
    &&& e.contracts@[0].1.pool_init_code_hash == (if is_recognized_factory(name@) {
        pool
    } else {
        None::<String>
    })
    &&& match ctor {
        None => e.contracts@[0].1.constructor@.len() == 0,
        Some(pv) => extract_spec(pv.0@, pv.1@) matches Ok(sh) && pairs_view(
            e.contracts@[0].1.constructor@,
        ) == sh,
    }
}

/// Performs one registration against an in-memory deployment log:
/// verifies the local artifact was found, refuses duplicate
/// addresses, serializes the decoded constructor arguments, appends
/// the new history entry and reconciles. On any failure the log is
/// left unchanged; the caller persists it only on success.
pub fn register_deployment(
    log: &mut DeploymentLog,
    contract_name: String,
    address: String,
    deployment_txn: String,
    timestamp: u64,
    artifact_found: bool,
    ctor: Option<(Vec<ParamSpec>, Vec<AbiValue>)>,
    pool_init_code_hash: Option<String>,
) -> (r: Result<(), LogError>)
    requires
        is_recognized_factory(contract_name@) ==> pool_init_code_hash is Some,
    ensures
        r is Err ==> *final(log) == *old(log),
        !artifact_found <==> r == Result::<(), LogError>::Err(LogError::ArtifactNotFound),
        (artifact_found && hist_has_addr(old(log).history@, address@)) <==> (r matches Err(e)
            && e matches LogError::DuplicateContract(a) && a@ == address@),
        (artifact_found && !hist_has_addr(old(log).history@, address@) && (match ctor {
            Some(pv) => !shapes_ok(pv.0@, pv.1@),
            None => false,
        })) <==> r == Result::<(), LogError>::Err(LogError::DecodeFailed),
        (artifact_found && !hist_has_addr(old(log).history@, address@) && (match ctor {
            Some(pv) => shapes_ok(pv.0@, pv.1@) && extract_spec(pv.0@, pv.1@) is Err,
            None => false,
        })) <==> r == Result::<(), LogError>::Err(LogError::UnsupportedAbiType),
        r is Ok <==> (artifact_found && !hist_has_addr(old(log).history@, address@) && match ctor {
            None => true,
            Some(pv) => shapes_ok(pv.0@, pv.1@) && extract_spec(pv.0@, pv.1@) is Ok,
        }),
        r is Ok ==> exists|e: HistoryEntry|
            #[trigger] registered_entry(
                e,
                contract_name,
                address,
                deployment_txn,
                timestamp,
                pool_init_code_hash,
                ctor,
            ) && final(log).history@ == stable_sort_desc(old(log).history@.push(e)) && final(log).latest@
                == latest_fold(final(log).history@) && final(log).chain_id == old(log).chain_id,
{
    if !artifact_found {
        return Err(LogError::ArtifactNotFound);
    }
    match detect_duplicate(&log.history, &address) {
        Ok(_) => (),
        Err(e) => {
            return Err(e);
        },
    }
    let constructor: Vec<(String, crate::model::CtorValue)> = match &ctor {
        None => Vec::new(),
        Some(pv) => {
            if !shapes_check(&pv.0, &pv.1) {
                return Err(LogError::DecodeFailed);
            }
            match extract_constructor_inputs(&pv.0, &pv.1) {
                Ok(m) => m,
                Err(e) => {
                    proof {
                        assert(e == LogError::UnsupportedAbiType) by {
                            lemma_extract_err_is_unsupported(
                                ctor->Some_0.0@,
                                ctor->Some_0.1@,
                            );
                        }
                    }
                    return Err(e);
                },
            }
        },
    };
    let pool = if recognized_factory(&contract_name) {
        pool_init_code_hash
    } else {
        None
    };
    let record = ContractRecord {
        address,
        proxy: false,
        deployment_txn,
        constructor,
        pool_init_code_hash: pool,
    };
    let mut contracts: Vec<(String, ContractRecord)> = Vec::new();
    contracts.push((contract_name, record));
    let entry = HistoryEntry { timestamp, commit_hash: None, contracts };
    let ghost ge = entry;
    let mut history: Vec<HistoryEntry> = Vec::new();
    core::mem::swap(&mut log.history, &mut history);
    history.push(entry);
    let (sorted, latest) = reconcile(history);
    log.history = sorted;
    log.latest = latest;
    proof {
        assert(registered_entry(
            ge,
            contract_name,
            address,
            deployment_txn,
            timestamp,
            pool_init_code_hash,
            ctor,
        ));
    }
    Ok(())
}

/// What a successful registration guarantees, reduced to the
/// appended entry's address: the address was not yet in history, and
/// the new history is the sorted old history plus one entry holding
/// exactly one contract at that address.
pub open spec fn successful_registration(
    pre: DeploymentLog,
    post: DeploymentLog,
    a: Seq<char>,
) -> bool {
    exists|e: HistoryEntry|
        (#[trigger] entry_registers(e, a)) && !hist_has_addr(pre.history@, a) && post.history@
            == stable_sort_desc(pre.history@.push(e))
}

/// The entry holds exactly one contract, registered at the address.
pub open spec fn entry_registers(e: HistoryEntry, a: Seq<char>) -> bool {
    e.contracts@.len() == 1 && e.contracts@[0].1.address@ == a
}

/// A registration that succeeded, per `register_deployment`'s
/// contract, is one step of a registration chain.
pub proof fn lemma_register_step(
    pre: DeploymentLog,
    post: DeploymentLog,
    name: String,
    address: String,
    txn: String,
    ts: u64,
    pool: Option<String>,
    ctor: Option<(Vec<ParamSpec>, Vec<AbiValue>)>,
)
    requires
        !hist_has_addr(pre.history@, address@),
        exists|e: HistoryEntry|
            #[trigger] registered_entry(e, name, address, txn, ts, pool, ctor) && post.history@
                == stable_sort_desc(pre.history@.push(e)),
    ensures
        successful_registration(pre, post, address@),
{
    let e = choose|e: HistoryEntry|
        #[trigger] registered_entry(e, name, address, txn, ts, pool, ctor) && post.history@
            == stable_sort_desc(pre.history@.push(e));
    assert(entry_registers(e, address@));
}

/// An entry with a single contract carries exactly that contract's
/// address.
proof fn lemma_entry_registers_addr(e: HistoryEntry, a: Seq<char>, b: Seq<char>)
    requires
        entry_registers(e, a),
    ensures
        crate::model::entry_has_addr(e, b) <==> a == b,
{
    if crate::model::entry_has_addr(e, b) {
        let w = choose|w: int|
            0 <= w < e.contracts@.len() && (#[trigger] e.contracts@[w]).1.address@ == b;
        assert(w == 0);
    } else {
        if a == b {
            assert(e.contracts@[0].1.address@ == b);
        }
    }
}

/// A run of registrations with pairwise distinct addresses, starting
/// from an empty history, leaves a history with exactly one entry per
/// successful registration, in which every registered address occurs
/// in exactly one entry.
pub proof fn lemma_registration_chain(logs: Seq<DeploymentLog>, addrs: Seq<Seq<char>>)
    requires
        logs.len() == addrs.len() + 1,
        logs[0].history@.len() == 0,
        forall|k: int|
            0 <= k < addrs.len() ==> successful_registration(
                #[trigger] logs[k],
                logs[k + 1],
                addrs[k],
            ),
        forall|k1: int, k2: int| 0 <= k1 < k2 < addrs.len() ==> addrs[k1] != addrs[k2],
    ensures
        logs.last().history@.len() == addrs.len(),
        forall|k: int|
            0 <= k < addrs.len() ==> crate::reconcile::entries_with_addr(
                logs.last().history@,
                #[trigger] addrs[k],
            ) == 1,
    decreases addrs.len(),
{
    if addrs.len() > 0 {
        let n = addrs.len() as int;
        let logs_p = logs.drop_last();
        let addrs_p = addrs.drop_last();
        assert(forall|k: int| 0 <= k < logs_p.len() ==> #[trigger] logs_p[k] == logs[k]);
        assert(forall|k: int| 0 <= k < addrs_p.len() ==> #[trigger] addrs_p[k] == addrs[k]);
        lemma_registration_chain(logs_p, addrs_p);
        assert(logs_p.last() == logs[n - 1]);
        let prelog = logs[n - 1];
        let postlog = logs[n];
        let a = addrs[n - 1];
        assert(successful_registration(prelog, postlog, a));
        let e = choose|e: HistoryEntry|
            (#[trigger] entry_registers(e, a)) && !hist_has_addr(prelog.history@, a)
                && postlog.history@ == stable_sort_desc(prelog.history@.push(e));
        let pushed = prelog.history@.push(e);
        lemma_sort_props(pushed);
        assert(postlog.history@.len() == pushed.len());
        assert(logs.last() == postlog);
        assert forall|k: int| 0 <= k < addrs.len() implies entries_with_addr(
            logs.last().history@,
            #[trigger] addrs[k],
        ) == 1 by {
            let b = addrs[k];
            lemma_sort_count(pushed, b);
            lemma_count_push(prelog.history@, e, b);
            lemma_entry_registers_addr(e, a, b);
            if k < n - 1 {
                assert(addrs_p[k] == b);
                assert(entries_with_addr(prelog.history@, b) == 1);
                assert(a != b);
            } else {
                lemma_count_zero(prelog.history@, a);
                assert(entries_with_addr(prelog.history@, a) == 0);
            }
        }
    }
}

/// The only error the serializer itself reports is the unsupported
/// array type.
proof fn lemma_extract_err_is_unsupported(ps: Seq<ParamSpec>, args: Seq<AbiValue>)
    ensures
        extract_spec(ps, args) matches Err(e) ==> e == LogError::UnsupportedAbiType,
    decreases args,
{
    if args.len() > 0 {
        lemma_extract_err_is_unsupported(ps.drop_last(), args.drop_last());
        lemma_serialize_err_is_unsupported(ps[args.len() - 1], args.last());
    }
}

proof fn lemma_serialize_err_is_unsupported(p: ParamSpec, v: AbiValue)
    ensures
        crate::abi::serialize_spec(p, v) matches Err(e) ==> e == LogError::UnsupportedAbiType,
    decreases v,
{
    match v {
        AbiValue::Tuple(vs) => {
            lemma_extract_err_is_unsupported(p.components@, vs@);
        },
        _ => {},
    }
}

} // verus!

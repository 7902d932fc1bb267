//! Argument usage validator: walks the ordered list of a transaction's
//! commands and their arguments once, before the opaque execution step
//! ever sees them.
//!
//! Input-level checks abort the transaction with no state change: every
//! object argument must resolve and authenticate, and a vector of
//! objects with neither an element type tag nor elements is refused
//! because its element type cannot be inferred.  Usage-level checks
//! surface as execution failures at a specific command and argument: a
//! malformed pure argument, an object consumed by value twice across
//! scalar and vector arguments, a vector element of the wrong runtime
//! type, or a shared object as a vector element.

use vstd::prelude::*;
use crate::encoding::{pure_ok, check_pure, PureLayout};
use crate::errors::{CommandArgumentError, ExecutionFailure, Rejection, UserInputError};
use crate::model::{lookup_seq, ObjectTable, Owner, StoredObject};
use crate::ownership::{authenticate, contains_id, spec_authenticate};

verus! {

/// One argument of a command: an encoded pure value, an object consumed
/// by the command, or a vector of objects with an optional element type
/// tag.
#[derive(Clone, Debug)]
pub enum CallArg {
    Pure { layout: PureLayout, bytes: Vec<u8> },
    Object(u64),
    ObjVec { type_tag: Option<u64>, ids: Vec<u64> },
}

/// One command with its ordered arguments.
#[derive(Clone, Debug)]
pub struct MoveCall {
    pub args: Vec<CallArg>,
}

/// A transaction's ordered command list.
#[derive(Clone, Debug)]
pub struct Transaction {
    pub commands: Vec<MoveCall>,
}

/// The object ids one argument mentions.
pub open spec fn arg_object_ids(arg: CallArg) -> Seq<u64> {
    match arg {
        CallArg::Pure { layout: _, bytes: _ } => Seq::empty(),
        CallArg::Object(id) => seq![id],
        CallArg::ObjVec { type_tag: _, ids } => ids@,
    }
}

/// The object ids mentioned by the first `j` arguments.
pub open spec fn cmd_object_ids_upto(args: Seq<CallArg>, j: int) -> Seq<u64>
    decreases j,
{
    if j <= 0 {
        Seq::empty()
    } else {
        cmd_object_ids_upto(args, j - 1) + arg_object_ids(args[j - 1])
    }
}

/// The object ids mentioned by the first `i` commands.
pub open spec fn tx_object_ids_upto(cmds: Seq<MoveCall>, i: int) -> Seq<u64>
    decreases i,
{
    if i <= 0 {
        Seq::empty()
    } else {
        tx_object_ids_upto(cmds, i - 1)
            + cmd_object_ids_upto(cmds[i - 1].args@, cmds[i - 1].args@.len() as int)
    }
}

/// Every object id a transaction passes as an argument, scalar or
/// vector; the set against which parent chains authenticate.
pub open spec fn tx_object_ids(cmds: Seq<MoveCall>) -> Seq<u64> {
    tx_object_ids_upto(cmds, cmds.len() as int)
}

/// The input-level error for one vector element, if any.  A shared
/// object here is not an input error: it surfaces later as an execution
/// failure of the owning command.
pub open spec fn elem_input_err(
    objects: Seq<StoredObject>,
    id: u64,
    inputs: Seq<u64>,
    signer: u64,
) -> Option<UserInputError> {
    match spec_authenticate(objects, inputs, id, signer, objects.len() as nat) {
        Ok(()) => None,
        Err(e) => match e {
            UserInputError::SharedObjectAsSingleOwnerInput { object_id: _ } => None,
            _ => Some(e),
        },
    }
}

/// The first input-level error among the vector elements from `k` on.
pub open spec fn input_check_elems(
    objects: Seq<StoredObject>,
    ids: Seq<u64>,
    inputs: Seq<u64>,
    signer: u64,
    k: int,
) -> Option<UserInputError>
    decreases ids.len() - k,
{
    if k < 0 || k >= ids.len() {
        None
    } else if elem_input_err(objects, ids[k], inputs, signer) is Some {
        elem_input_err(objects, ids[k], inputs, signer)
    } else {
        input_check_elems(objects, ids, inputs, signer, k + 1)
    }
}

/// The input-level error of one argument, if any: an empty untagged
/// vector of objects is refused outright, a scalar object must
/// authenticate, and each vector element must authenticate.
pub open spec fn input_check_arg(
    objects: Seq<StoredObject>,
    arg: CallArg,
    inputs: Seq<u64>,
    signer: u64,
) -> Option<UserInputError> {
    match arg {
        CallArg::Pure { layout: _, bytes: _ } => None,
        CallArg::Object(id) => match spec_authenticate(
            objects, inputs, id, signer, objects.len() as nat) {
            Ok(()) => None,
            Err(e) => Some(e),
        },
        CallArg::ObjVec { type_tag, ids } => if type_tag is None && ids@.len() == 0 {
            Some(UserInputError::EmptyCommandInput)
        } else {
            input_check_elems(objects, ids@, inputs, signer, 0)
        },
    }
}

/// The first input-level error among the arguments from `j` on.
pub open spec fn input_check_args(
    objects: Seq<StoredObject>,
    args: Seq<CallArg>,
    inputs: Seq<u64>,
    signer: u64,
    j: int,
) -> Option<UserInputError>
    decreases args.len() - j,
{
    if j < 0 || j >= args.len() {
        None
    } else if input_check_arg(objects, args[j], inputs, signer) is Some {
        input_check_arg(objects, args[j], inputs, signer)
    } else {
        input_check_args(objects, args, inputs, signer, j + 1)
    }
}

/// The first input-level error among the commands from `i` on.
pub open spec fn input_check_cmds(
    objects: Seq<StoredObject>,
    cmds: Seq<MoveCall>,
    inputs: Seq<u64>,
    signer: u64,
    i: int,
) -> Option<UserInputError>
    decreases cmds.len() - i,
{
    if i < 0 || i >= cmds.len() {
        None
    } else if input_check_args(objects, cmds[i].args@, inputs, signer, 0) is Some {
        input_check_args(objects, cmds[i].args@, inputs, signer, 0)
    } else {
        input_check_cmds(objects, cmds, inputs, signer, i + 1)
    }
}

/// The transaction's input-level outcome: the first error of the scan
/// over commands, arguments, and vector elements, in order.
pub open spec fn input_verdict(
    objects: Seq<StoredObject>,
    cmds: Seq<MoveCall>,
    signer: u64,
) -> Option<UserInputError> {
    input_check_cmds(objects, cmds, tx_object_ids(cmds), signer, 0)
}

/// The usage pass over one command's scalar arguments, threading the set
/// of object ids already consumed by value: a malformed pure argument or
/// a scalar reuse of a taken object fails at its argument index.
pub open spec fn scalar_args_usage(
    objects: Seq<StoredObject>,
    args: Seq<CallArg>,
    j: int,
    taken: Seq<u64>,
) -> Result<Seq<u64>, (u64, CommandArgumentError)>
    decreases args.len() - j,
{
    if j < 0 || j >= args.len() {
        Ok(taken)
    } else {
        match args[j] {
            CallArg::Pure { layout, bytes } => if !pure_ok(layout, bytes@) {
                Err((j as u64, CommandArgumentError::InvalidBCSBytes))
            } else {
                scalar_args_usage(objects, args, j + 1, taken)
            },
            CallArg::Object(id) => if taken.contains(id) {
                Err((j as u64, CommandArgumentError::InvalidUsageOfTakenValue))
            } else {
                scalar_args_usage(objects, args, j + 1, taken.push(id))
            },
            CallArg::ObjVec { type_tag: _, ids: _ } => scalar_args_usage(objects, args, j + 1, taken),
        }
    }
}

/// The element type a vector of objects carries: its explicit tag, or
/// the runtime type of its first element when the tag is inferred.
pub open spec fn vec_elem_type(
    objects: Seq<StoredObject>,
    type_tag: Option<u64>,
    ids: Seq<u64>,
) -> Option<u64> {
    match type_tag {
        Some(t) => Some(t),
        None => if ids.len() == 0 {
            None
        } else {
            match lookup_seq(objects, ids[0]) {
                Some(o) => Some(o.type_tag),
                None => None,
            }
        },
    }
}

/// The usage pass over one vector's elements from `k` on: every element
/// must resolve, must not be shared, must structurally match the
/// vector's element type, and must not already be taken; each element
/// then counts as taken.
pub open spec fn vec_elems_usage(
    objects: Seq<StoredObject>,
    elem_type: Option<u64>,
    ids: Seq<u64>,
    arg_idx: u64,
    k: int,
    taken: Seq<u64>,
) -> Result<Seq<u64>, ExecutionFailure>
    decreases ids.len() - k,
{
    if k < 0 || k >= ids.len() {
        Ok(taken)
    } else {
        match lookup_seq(objects, ids[k]) {
            None => Err(ExecutionFailure::VMVerificationOrDeserializationError),
            Some(o) => if o.owner is Shared {
                Err(ExecutionFailure::VMVerificationOrDeserializationError)
            } else if elem_type != Some(o.type_tag) {
                Err(ExecutionFailure::VMVerificationOrDeserializationError)
            } else if taken.contains(ids[k]) {
                Err(ExecutionFailure::CommandArgumentError {
                    arg_idx,
                    kind: CommandArgumentError::InvalidUsageOfTakenValue,
                })
            } else {
                vec_elems_usage(objects, elem_type, ids, arg_idx, k + 1, taken.push(ids[k]))
            },
        }
    }
}

/// The usage pass over one command's vector arguments from `j` on.
pub open spec fn vector_args_usage(
    objects: Seq<StoredObject>,
    args: Seq<CallArg>,
    j: int,
    taken: Seq<u64>,
) -> Result<Seq<u64>, ExecutionFailure>
    decreases args.len() - j,
{
    if j < 0 || j >= args.len() {
        Ok(taken)
    } else {
        match args[j] {
            CallArg::ObjVec { type_tag, ids } => match vec_elems_usage(
                objects, vec_elem_type(objects, type_tag, ids@), ids@, j as u64, 0, taken) {
                Err(f) => Err(f),
                Ok(t) => vector_args_usage(objects, args, j + 1, t),
            },
            _ => vector_args_usage(objects, args, j + 1, taken),
        }
    }
}

/// The usage pass over one command: scalar arguments first, then vector
/// arguments, so that a duplicate between a scalar and a vector of the
/// same command always surfaces at the vector.
pub open spec fn cmd_usage(
    objects: Seq<StoredObject>,
    cmd: MoveCall,
    taken: Seq<u64>,
) -> Result<Seq<u64>, ExecutionFailure> {
    match scalar_args_usage(objects, cmd.args@, 0, taken) {
        Err(p) => Err(ExecutionFailure::CommandArgumentError { arg_idx: p.0, kind: p.1 }),
        Ok(t) => vector_args_usage(objects, cmd.args@, 0, t),
    }
}

/// The usage pass over the commands from `i` on: the first failure with
/// the index of the command it surfaced at.
pub open spec fn tx_usage(
    objects: Seq<StoredObject>,
    cmds: Seq<MoveCall>,
    i: int,
    taken: Seq<u64>,
) -> Option<(u64, ExecutionFailure)>
    decreases cmds.len() - i,
{
    if i < 0 || i >= cmds.len() {
        None
    } else {
        match cmd_usage(objects, cmds[i], taken) {
            Err(f) => Some((i as u64, f)),
            Ok(t) => tx_usage(objects, cmds, i + 1, t),
        }
    }
}

/// The transaction's usage verdict, starting from an empty taken set.
pub open spec fn usage_verdict(
    objects: Seq<StoredObject>,
    cmds: Seq<MoveCall>,
) -> Option<(u64, ExecutionFailure)> {
    tx_usage(objects, cmds, 0, Seq::empty())
}

/// The validator's verdict on a whole transaction: input-level errors
/// first, then the usage pass.
pub open spec fn transaction_verdict(
    objects: Seq<StoredObject>,
    cmds: Seq<MoveCall>,
    signer: u64,
) -> Option<Rejection> {
    match input_verdict(objects, cmds, signer) {
        Some(e) => Some(Rejection::Input(e)),
        None => match usage_verdict(objects, cmds) {
            Some(p) => Some(Rejection::Exec { command: p.0, failure: p.1 }),
            None => None,
        },
    }
}

/// Collects every object id the transaction passes as an argument.
pub fn collect_tx_object_ids(tx: &Transaction) -> (r: Vec<u64>)
    ensures
        r@ == tx_object_ids(tx.commands@),
{
    let mut r: Vec<u64> = Vec::new();
    let mut i: usize = 0;
    while i < tx.commands.len()
        invariant
            i <= tx.commands@.len(),
            r@ == tx_object_ids_upto(tx.commands@, i as int),
        decreases tx.commands@.len() - i,
    {
        let args = &tx.commands[i].args;
        let mut j: usize = 0;
        while j < args.len()
            invariant
                i < tx.commands@.len(),
                j <= args@.len(),
                args == &tx.commands@[i as int].args,
                r@ == tx_object_ids_upto(tx.commands@, i as int)
                    + cmd_object_ids_upto(args@, j as int),
            decreases args@.len() - j,
        {
            match &args[j] {
                CallArg::Pure { layout: _, bytes: _ } => {
                    proof {
                        assert(r@ =~= tx_object_ids_upto(tx.commands@, i as int)
                            + cmd_object_ids_upto(args@, j + 1));
                    }
                },
                CallArg::Object(id) => {
                    r.push(*id);
                    proof {
                        assert(r@ =~= tx_object_ids_upto(tx.commands@, i as int)
                            + cmd_object_ids_upto(args@, j + 1));
                    }
                },
                CallArg::ObjVec { type_tag: _, ids } => {
                    let mut k: usize = 0;
                    while k < ids.len()
                        invariant
                            k <= ids@.len(),
                            r@ == tx_object_ids_upto(tx.commands@, i as int)
                                + cmd_object_ids_upto(args@, j as int) + ids@.take(k as int),
                        decreases ids@.len() - k,
                    {
                        r.push(ids[k]);
                        proof {
                            assert(ids@.take(k + 1) =~= ids@.take(k as int).push(ids@[k as int]));
                            assert(r@ =~= tx_object_ids_upto(tx.commands@, i as int)
                                + cmd_object_ids_upto(args@, j as int) + ids@.take(k + 1));
                        }
                        k = k + 1;
                    }
                    proof {
                        assert(ids@.take(ids@.len() as int) =~= ids@);
                        assert(r@ =~= tx_object_ids_upto(tx.commands@, i as int)
                            + cmd_object_ids_upto(args@, j + 1));
                    }
                },
            }
            j = j + 1;
        }
        i = i + 1;
    }
    r
}

/// Checks the vector elements of one argument for input-level errors.
fn run_input_check_elems(
    table: &ObjectTable,
    ids: &Vec<u64>,
    inputs: &Vec<u64>,
    signer: u64,
) -> (r: Option<UserInputError>)
    ensures
        r == input_check_elems(table.objects@, ids@, inputs@, signer, 0),
{
    let mut k: usize = 0;
    while k < ids.len()
        invariant
            k <= ids@.len(),
            input_check_elems(table.objects@, ids@, inputs@, signer, 0)
                == input_check_elems(table.objects@, ids@, inputs@, signer, k as int),
        decreases ids@.len() - k,
    {
        match authenticate(table, inputs, ids[k], signer) {
            Ok(()) => {},
            Err(e) => {
                match e {
                    UserInputError::SharedObjectAsSingleOwnerInput { object_id: _ } => {},
                    _ => {
                        return Some(e);
                    },
                }
            },
        }
        k = k + 1;
    }
    None
}

/// Checks one argument for input-level errors.
fn run_input_check_arg(
    table: &ObjectTable,
    arg: &CallArg,
    inputs: &Vec<u64>,
    signer: u64,
) -> (r: Option<UserInputError>)
    ensures
        r == input_check_arg(table.objects@, *arg, inputs@, signer),
{
    match arg {
        CallArg::Pure { layout: _, bytes: _ } => None,
        CallArg::Object(id) => match authenticate(table, inputs, *id, signer) {
            Ok(()) => None,
            Err(e) => Some(e),
        },
        CallArg::ObjVec { type_tag, ids } => {
            if type_tag.is_none() && ids.len() == 0 {
                Some(UserInputError::EmptyCommandInput)
            } else {
                run_input_check_elems(table, ids, inputs, signer)
            }
        },
    }
}

/// Checks one command's arguments for input-level errors.
fn run_input_check_args(
    table: &ObjectTable,
    args: &Vec<CallArg>,
    inputs: &Vec<u64>,
    signer: u64,
) -> (r: Option<UserInputError>)
    ensures
        r == input_check_args(table.objects@, args@, inputs@, signer, 0),
{
    let mut j: usize = 0;
    while j < args.len()
        invariant
            j <= args@.len(),
            input_check_args(table.objects@, args@, inputs@, signer, 0)
                == input_check_args(table.objects@, args@, inputs@, signer, j as int),
        decreases args@.len() - j,
    {
        match run_input_check_arg(table, &args[j], inputs, signer) {
            Some(e) => {
                return Some(e);
            },
            None => {},
        }
        j = j + 1;
    }
    None
}

/// Runs the scalar half of the usage pass over one command, extending
/// the taken set.
fn run_scalar_args(
    table: &ObjectTable,
    args: &Vec<CallArg>,
    taken: &mut Vec<u64>,
) -> (r: Result<(), (u64, CommandArgumentError)>)
    ensures
        scalar_args_usage(table.objects@, args@, 0, old(taken)@) matches Ok(t)
            ==> (r is Ok && final(taken)@ == t),
        scalar_args_usage(table.objects@, args@, 0, old(taken)@) matches Err(p)
            ==> r == Err::<(), (u64, CommandArgumentError)>(p),
{
    let mut j: usize = 0;
    while j < args.len()
        invariant
            j <= args@.len(),
            scalar_args_usage(table.objects@, args@, 0, old(taken)@)
                == scalar_args_usage(table.objects@, args@, j as int, taken@),
        decreases args@.len() - j,
    {
        match &args[j] {
            CallArg::Pure { layout, bytes } => {
                match check_pure(*layout, bytes) {
                    Ok(()) => {},
                    Err(kind) => {
                        return Err((j as u64, kind));
                    },
                }
            },
            CallArg::Object(id) => {
                if contains_id(taken, *id) {
                    return Err((j as u64, CommandArgumentError::InvalidUsageOfTakenValue));
                }
                taken.push(*id);
            },
            CallArg::ObjVec { type_tag: _, ids: _ } => {},
        }
        j = j + 1;
    }
    Ok(())
}

/// Runs the usage pass over one vector's elements, extending the taken
/// set.
fn run_vec_elems(
    table: &ObjectTable,
    elem_type: Option<u64>,
    ids: &Vec<u64>,
    arg_idx: u64,
    taken: &mut Vec<u64>,
) -> (r: Result<(), ExecutionFailure>)
    ensures
        vec_elems_usage(table.objects@, elem_type, ids@, arg_idx, 0, old(taken)@) matches Ok(t)
            ==> (r is Ok && final(taken)@ == t),
        vec_elems_usage(table.objects@, elem_type, ids@, arg_idx, 0, old(taken)@) matches Err(f)
            ==> r == Err::<(), ExecutionFailure>(f),
{
    let mut k: usize = 0;
    while k < ids.len()
        invariant
            k <= ids@.len(),
            vec_elems_usage(table.objects@, elem_type, ids@, arg_idx, 0, old(taken)@)
                == vec_elems_usage(table.objects@, elem_type, ids@, arg_idx, k as int, taken@),
        decreases ids@.len() - k,
    {
        let id = ids[k];
        match table.lookup(id) {
            None => {
                return Err(ExecutionFailure::VMVerificationOrDeserializationError);
            },
            Some(o) => {
                let shared: bool = match o.owner {
                    Owner::Shared { initial_shared_version: _ } => true,
                    _ => false,
                };
                if shared {
                    return Err(ExecutionFailure::VMVerificationOrDeserializationError);
                }
                let type_matches: bool = match elem_type {
                    Some(t) => t == o.type_tag,
                    None => false,
                };
                if !type_matches {
                    return Err(ExecutionFailure::VMVerificationOrDeserializationError);
                }
                if contains_id(taken, id) {
                    return Err(ExecutionFailure::CommandArgumentError {
                        arg_idx,
                        kind: CommandArgumentError::InvalidUsageOfTakenValue,
                    });
                }
                taken.push(id);
            },
        }
        k = k + 1;
    }
    Ok(())
}

/// Runs the vector half of the usage pass over one command.
fn run_vector_args(
    table: &ObjectTable,
    args: &Vec<CallArg>,
    taken: &mut Vec<u64>,
) -> (r: Result<(), ExecutionFailure>)
    ensures
        vector_args_usage(table.objects@, args@, 0, old(taken)@) matches Ok(t)
            ==> (r is Ok && final(taken)@ == t),
        vector_args_usage(table.objects@, args@, 0, old(taken)@) matches Err(f)
            ==> r == Err::<(), ExecutionFailure>(f),
{
    let mut j: usize = 0;
    while j < args.len()
        invariant
            j <= args@.len(),
            vector_args_usage(table.objects@, args@, 0, old(taken)@)
                == vector_args_usage(table.objects@, args@, j as int, taken@),
        decreases args@.len() - j,
    {
        match &args[j] {
            CallArg::ObjVec { type_tag, ids } => {
                let elem_type: Option<u64> = match type_tag {
                    Some(t) => Some(*t),
                    None => {
                        if ids.len() == 0 {
                            None
                        } else {
                            match table.lookup(ids[0]) {
                                Some(o) => Some(o.type_tag),
                                None => None,
                            }
                        }
                    },
                };
                match run_vec_elems(table, elem_type, ids, j as u64, taken) {
                    Ok(()) => {},
                    Err(f) => {
                        return Err(f);
                    },
                }
            },
            _ => {},
        }
        j = j + 1;
    }
    Ok(())
}

/// Validates a transaction's argument list against the object table:
/// input-level errors abort it with no state change; usage-level
/// failures surface at the offending command and argument.  Execution
/// never sees an invalid argument shape.
pub fn validate_transaction(
    table: &ObjectTable,
    tx: &Transaction,
    signer: u64,
) -> (r: Result<(), Rejection>)
    ensures
        transaction_verdict(table.objects@, tx.commands@, signer) matches Some(rej)
            ==> r == Err::<(), Rejection>(rej),
        transaction_verdict(table.objects@, tx.commands@, signer) is None
            ==> r == Ok::<(), Rejection>(()),
{
    let inputs = collect_tx_object_ids(tx);
    let mut i: usize = 0;
    while i < tx.commands.len()
        invariant
            i <= tx.commands@.len(),
            inputs@ == tx_object_ids(tx.commands@),
            input_check_cmds(table.objects@, tx.commands@, inputs@, signer, 0)
                == input_check_cmds(table.objects@, tx.commands@, inputs@, signer, i as int),
        decreases tx.commands@.len() - i,
    {
        match run_input_check_args(table, &tx.commands[i].args, &inputs, signer) {
            Some(e) => {
                return Err(Rejection::Input(e));
            },
            None => {},
        }
        i = i + 1;
    }
    let mut taken: Vec<u64> = Vec::new();
    let mut i: usize = 0;
    while i < tx.commands.len()
        invariant
            i <= tx.commands@.len(),
            input_verdict(table.objects@, tx.commands@, signer) is None,
            tx_usage(table.objects@, tx.commands@, 0, Seq::empty())
                == tx_usage(table.objects@, tx.commands@, i as int, taken@),
        decreases tx.commands@.len() - i,
    {
        let args = &tx.commands[i].args;
        match run_scalar_args(table, args, &mut taken) {
            Ok(()) => {},
            Err(p) => {
                return Err(Rejection::Exec {
                    command: i as u64,
                    failure: ExecutionFailure::CommandArgumentError { arg_idx: p.0, kind: p.1 },
                });
            },
        }
        match run_vector_args(table, args, &mut taken) {
            Ok(()) => {},
            Err(f) => {
                return Err(Rejection::Exec { command: i as u64, failure: f });
            },
        }
        i = i + 1;
    }
    Ok(())
}

/// Passing the same object id both as a scalar argument and inside a
/// vector argument of one command always fails with invalid usage of a
/// taken value at the vector's argument index, whichever order the two
/// arguments appear in: the command's scalar arguments are consumed
/// before its vector elements, so the duplicate always trips at the
/// vector.
pub proof fn lemma_same_object_scalar_and_vector(
    objects: Seq<StoredObject>,
    cmd: MoveCall,
    o: StoredObject,
    t: u64,
    scalar_pos: int,
    vec_pos: int,
)
    requires
        cmd.args@.len() == 2,
        0 <= scalar_pos < 2,
        0 <= vec_pos < 2,
        scalar_pos != vec_pos,
        cmd.args@[scalar_pos] == CallArg::Object(o.id),
        cmd.args@[vec_pos] matches CallArg::ObjVec { type_tag, ids }
            && type_tag == Some(t) && ids@ == seq![o.id],
        lookup_seq(objects, o.id) == Some(o),
        o.owner !is Shared,
        o.type_tag == t,
    ensures
        cmd_usage(objects, cmd, Seq::empty()) == Err::<Seq<u64>, ExecutionFailure>(
            ExecutionFailure::CommandArgumentError {
                arg_idx: vec_pos as u64,
                kind: CommandArgumentError::InvalidUsageOfTakenValue,
            }),
{
    let empty: Seq<u64> = Seq::empty();
    reveal_with_fuel(scalar_args_usage, 4);
    reveal_with_fuel(vector_args_usage, 4);
    reveal_with_fuel(vec_elems_usage, 3);
    assert(!empty.contains(o.id));
    let taken1 = empty.push(o.id);
    assert(taken1.contains(o.id));
    assert(scalar_args_usage(objects, cmd.args@, 0, empty)
        == Ok::<Seq<u64>, (u64, CommandArgumentError)>(taken1));
    assert(vector_args_usage(objects, cmd.args@, 0, taken1)
        == Err::<Seq<u64>, ExecutionFailure>(ExecutionFailure::CommandArgumentError {
            arg_idx: vec_pos as u64,
            kind: CommandArgumentError::InvalidUsageOfTakenValue,
        }));
}

/// Constructing a vector of objects with no element type tag and no
/// elements always fails as an empty command input: its element type
/// cannot be inferred.  The same construction with an explicit type tag
/// and no elements passes both the input check and the usage pass.
pub proof fn lemma_empty_vector_needs_type_tag(
    objects: Seq<StoredObject>,
    untagged: CallArg,
    tagged: CallArg,
    inputs: Seq<u64>,
    signer: u64,
    taken: Seq<u64>,
    arg_idx: u64,
)
    requires
        untagged matches CallArg::ObjVec { type_tag, ids } && type_tag is None && ids@.len() == 0,
        tagged matches CallArg::ObjVec { type_tag, ids } && type_tag is Some && ids@.len() == 0,
    ensures
        input_check_arg(objects, untagged, inputs, signer)
            == Some(UserInputError::EmptyCommandInput),
        input_check_arg(objects, tagged, inputs, signer) is None,
        tagged matches CallArg::ObjVec { type_tag, ids } ==> vec_elems_usage(
            objects, vec_elem_type(objects, type_tag, ids@), ids@, arg_idx, 0, taken)
            == Ok::<Seq<u64>, ExecutionFailure>(taken),
{
}

} // verus!

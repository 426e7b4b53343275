//! The deterministic interpreter: it executes a typed program under a
//! capability mapping and a tool registry, enforcing capability and timeout
//! preconditions, validating tool outputs against declared schemas, and
//! emitting a canonical replay log. The whole run is pinned to a
//! mathematical model, so two executions of equal inputs produce equal
//! logs.
//!
//! Arithmetic in programs wraps on 64-bit overflow (including the quotient
//! of `i64::MIN / -1`); division by zero is reported as an evaluation
//! error.

use vstd::prelude::*;
use vstd::string::StringExecFns;
use crate::ast::{Stmt, Expr, BinOp, Type, Effect, fields_view, assoc_get};
use crate::capability::{Capability, CapabilityModel, CapabilityKind, caps_view, default_capabilities};
use crate::error::{RuntimeError, RuntimeErrorModel};
use crate::replay::{Event, EventModel, ReplayLog, text_of_log, digest_of_log};
use crate::text::{
    dec_i64, bool_text, digest_of_text, i64_to_dec, bool_to_text, fnv_hex_of_str, str_to_chars,
};
use crate::tools::{ToolRegistry, ToolBehaviorModel, registry_call};
use crate::typecheck::{TypedProgram, SignatureModelSeq, sigs_view, lookup_sig};

verus! {

/// A runtime value.
#[derive(Debug, Clone)]
pub enum Value {
    Int(i64),
    Bool(bool),
    String(String),
}

pub enum ValueModel {
    Int(i64),
    Bool(bool),
    Text(Seq<char>),
}

impl View for Value {
    type V = ValueModel;

    open spec fn view(&self) -> ValueModel {
        match self {
            Value::Int(v) => ValueModel::Int(*v),
            Value::Bool(v) => ValueModel::Bool(*v),
            Value::String(s) => ValueModel::Text(s@),
        }
    }
}

pub open spec fn env_view(v: Seq<(String, Value)>) -> Seq<(Seq<char>, ValueModel)> {
    v.map_values(|p: (String, Value)| (p.0@, p.1@))
}

/// Interpreter options.
pub struct ExecOptions {
    pub deterministic_seed: u64,
}

impl Default for ExecOptions {
    /// The default seed is 42.
    fn default() -> (r: Self)
        ensures
            r.deterministic_seed == 42,
    {
        ExecOptions { deterministic_seed: 42 }
    }
}

// ---------------------------------------------------------------------------
// The model of evaluation
// ---------------------------------------------------------------------------

pub open spec fn mag_i64(x: i64) -> u64 {
    if x >= 0 {
        x as u64
    } else {
        (-(x as int)) as u64
    }
}

/// Truncating 64-bit signed division for a nonzero divisor; the one
/// overflowing quotient (`i64::MIN / -1`) wraps to `i64::MIN`.
pub open spec fn div_trunc(l: i64, r: i64) -> i64 {
    let q = mag_i64(l) / mag_i64(r);
    if (l >= 0) == (r >= 0) {
        if q <= i64::MAX as u64 {
            q as i64
        } else {
            i64::MIN
        }
    } else {
        (-(q as int)) as i64
    }
}

pub open spec fn apply_op(op: BinOp, l: i64, r: i64) -> Result<ValueModel, RuntimeErrorModel> {
    match op {
        BinOp::Add => Ok(ValueModel::Int(vstd::wrapping::i64_specs::wrapping_add(l, r))),
        BinOp::Sub => Ok(ValueModel::Int(vstd::wrapping::i64_specs::wrapping_sub(l, r))),
        BinOp::Mul => Ok(ValueModel::Int(vstd::wrapping::i64_specs::wrapping_mul(l, r))),
        BinOp::Div => if r == 0 {
            Err(RuntimeErrorModel::Eval("division by zero"@))
        } else {
            Ok(ValueModel::Int(div_trunc(l, r)))
        },
    }
}

/// What evaluating an expression under an environment yields.
pub open spec fn eval_spec(e: Expr, env: Seq<(Seq<char>, ValueModel)>) -> Result<
    ValueModel,
    RuntimeErrorModel,
>
    decreases e,
{
    match e {
        Expr::Int(v) => Ok(ValueModel::Int(v)),
        Expr::Bool(v) => Ok(ValueModel::Bool(v)),
        Expr::String(s) => Ok(ValueModel::Text(s@)),
        Expr::Var(v) => match assoc_get(env, v@) {
            Some(x) => Ok(x),
            None => Err(RuntimeErrorModel::Eval("unknown variable: "@ + v@)),
        },
        Expr::Binary { lhs, op, rhs } => match eval_spec(*lhs, env) {
            Err(e) => Err(e),
            Ok(lv) => match eval_spec(*rhs, env) {
                Err(e) => Err(e),
                Ok(rv) => match (lv, rv) {
                    (ValueModel::Int(l), ValueModel::Int(r)) => apply_op(op, l, r),
                    _ => Err(RuntimeErrorModel::Eval("binary ops require Int values"@)),
                },
            },
        },
    }
}

/// The canonical textual rendering of a value: integers and booleans in
/// their decimal and lowercase forms, text verbatim without quotes.
pub open spec fn format_value_spec(v: ValueModel) -> Seq<char> {
    match v {
        ValueModel::Int(x) => dec_i64(x),
        ValueModel::Bool(b) => bool_text(b),
        ValueModel::Text(s) => s,
    }
}

/// The JSON-like rendering of a value: integers and booleans bare, text in
/// double quotes (embedded quotes are not escaped).
pub open spec fn json_of(v: ValueModel) -> Seq<char> {
    match v {
        ValueModel::Int(x) => dec_i64(x),
        ValueModel::Bool(b) => bool_text(b),
        ValueModel::Text(s) => seq!['"'] + s + seq!['"'],
    }
}

/// The comma-joined `"field":value` renderings of the call-site arguments,
/// evaluated in source order; the first evaluation error wins.
pub open spec fn args_json(args: Seq<(String, Expr)>, env: Seq<(Seq<char>, ValueModel)>) -> Result<
    Seq<char>,
    RuntimeErrorModel,
>
    decreases args.len(),
{
    if args.len() == 0 {
        Ok(Seq::empty())
    } else {
        match eval_spec(args[0].1, env) {
            Err(e) => Err(e),
            Ok(v) => {
                let field = seq!['"'] + args[0].0@ + seq!['"', ':'] + json_of(v);
                match args_json(args.drop_first(), env) {
                    Err(e) => Err(e),
                    Ok(rest) => Ok(
                        if args.len() == 1 {
                            field
                        } else {
                            field + seq![','] + rest
                        },
                    ),
                }
            },
        }
    }
}

/// Whether `needle` occurs as a contiguous subsequence of `hay`.
pub open spec fn contains_sub(hay: Seq<char>, needle: Seq<char>) -> bool {
    exists|i: int|
        0 <= i <= hay.len() - needle.len() && #[trigger] hay.subrange(i, i + needle.len())
            == needle
}

/// The first declared output field whose `"name":` marker is missing from
/// the output text; the check is textual presence, not a parse.
pub open spec fn validate_spec(out: Seq<char>, schema: Seq<(Seq<char>, Type)>) -> Option<Seq<char>>
    decreases schema.len(),
{
    if schema.len() == 0 {
        None
    } else {
        let needle = seq!['"'] + schema[0].0 + seq!['"', ':'];
        if !contains_sub(out, needle) {
            Some(schema[0].0)
        } else {
            validate_spec(out, schema.drop_first())
        }
    }
}

/// The linear congruential step of the per-statement heartbeat.
pub open spec fn lcg_next(s: u64) -> u64 {
    vstd::wrapping::u64_specs::wrapping_add(
        vstd::wrapping::u64_specs::wrapping_mul(s, 6364136223846793005),
        1,
    )
}

/// What one statement does to the environment and the log.
pub open spec fn run_stmt(
    s: Stmt,
    sigs: SignatureModelSeq,
    caps: Seq<(Seq<char>, CapabilityModel)>,
    reg: Seq<(Seq<char>, ToolBehaviorModel)>,
    env: Seq<(Seq<char>, ValueModel)>,
    log: Seq<EventModel>,
) -> Result<(Seq<(Seq<char>, ValueModel)>, Seq<EventModel>), RuntimeErrorModel> {
    match s {
        Stmt::ToolDecl { .. } => Ok((env, log)),
        Stmt::Let { name, expr } => match eval_spec(expr, env) {
            Err(e) => Err(e),
            Ok(v) => Ok((env.push((name@, v)), log)),
        },
        Stmt::Print { expr } => match eval_spec(expr, env) {
            Err(e) => Err(e),
            Ok(v) => Ok((env, log.push(EventModel::Print { value: format_value_spec(v) }))),
        },
        Stmt::ToolCall { tool, input, cap, timeout_ms } => if timeout_ms == 0 {
            Err(RuntimeErrorModel::InvalidTimeout("tool call "@ + tool@ + " has zero timeout"@))
        } else {
            match assoc_get(caps, cap@) {
                None => Err(RuntimeErrorModel::MissingCapability(cap@)),
                Some(c) => if c.kind != CapabilityKind::Tool {
                    Err(
                        RuntimeErrorModel::InvalidCapability(
                            cap@ + " does not grant tool rights"@,
                        ),
                    )
                } else {
                    match assoc_get(sigs, tool@) {
                        None => Err(RuntimeErrorModel::MissingToolSignature(tool@)),
                        Some(sig) => match args_json(input@, env) {
                            Err(e) => Err(e),
                            Ok(inner) => {
                                let input_json = seq!['{'] + inner + seq!['}'];
                                match registry_call(reg, tool@, input_json) {
                                    Err(m) => Err(RuntimeErrorModel::ToolExecution(m)),
                                    Ok(out) => match validate_spec(out, sig.output) {
                                        Some(k) => Err(
                                            RuntimeErrorModel::ToolValidation(
                                                "tool output missing required field: "@ + k,
                                            ),
                                        ),
                                        None => Ok(
                                            (
                                                env,
                                                log.push(
                                                    EventModel::ToolCall {
                                                        tool: tool@,
                                                        input: input_json,
                                                        output: out,
                                                        source: "tool-registry"@,
                                                        timestamp_ms: 0,
                                                        output_hash: digest_of_text(out),
                                                        policy_tags: seq!["default"@],
                                                    },
                                                ).push(EventModel::Time { millis: timeout_ms }),
                                            ),
                                        ),
                                    },
                                }
                            },
                        },
                    }
                },
            }
        },
    }
}

/// Walk the statements in source order; after every statement (tool
/// declarations and lets included) the generator advances once and a
/// `Random` heartbeat event is appended.
pub open spec fn exec_stmts(
    stmts: Seq<Stmt>,
    sigs: SignatureModelSeq,
    caps: Seq<(Seq<char>, CapabilityModel)>,
    reg: Seq<(Seq<char>, ToolBehaviorModel)>,
    env: Seq<(Seq<char>, ValueModel)>,
    rng: u64,
    log: Seq<EventModel>,
) -> Result<Seq<EventModel>, RuntimeErrorModel>
    decreases stmts.len(),
{
    if stmts.len() == 0 {
        Ok(log)
    } else {
        match run_stmt(stmts[0], sigs, caps, reg, env, log) {
            Err(e) => Err(e),
            Ok(step) => {
                let rng2 = lcg_next(rng);
                exec_stmts(
                    stmts.drop_first(),
                    sigs,
                    caps,
                    reg,
                    step.0,
                    rng2,
                    step.1.push(EventModel::Random { value: rng2 }),
                )
            },
        }
    }
}

/// What executing a typed program yields: either the full replay log, or
/// the first runtime error (in which case no partial log is observable).
pub open spec fn execute_spec(
    typed: TypedProgram,
    caps: Seq<(Seq<char>, CapabilityModel)>,
    reg: Seq<(Seq<char>, ToolBehaviorModel)>,
    seed: u64,
) -> Result<Seq<EventModel>, RuntimeErrorModel> {
    if typed.effect == Effect::Tool && caps.len() == 0 {
        Err(
            RuntimeErrorModel::MissingCapability(
                "tool effect requested but no capabilities supplied"@,
            ),
        )
    } else {
        exec_stmts(
            typed.program@,
            sigs_view(typed.tools@),
            caps,
            reg,
            Seq::empty(),
            seed,
            Seq::empty(),
        )
    }
}

// ---------------------------------------------------------------------------
// Laws
// ---------------------------------------------------------------------------

// ---------------------------------------------------------------------------
// The executable interpreter
// ---------------------------------------------------------------------------

/// A structural copy of a value, pinned to the same model.
fn clone_value(v: &Value) -> (r: Value)
    ensures
        r@ == v@,
{
    match v {
        Value::Int(x) => Value::Int(*x),
        Value::Bool(b) => Value::Bool(*b),
        Value::String(s) => Value::String(s.clone()),
    }
}

/// Look a variable up in the value environment; the last binding wins.
fn lookup_value(env: &Vec<(String, Value)>, k: &String) -> (r: Option<Value>)
    ensures
        match r {
            Some(v) => assoc_get(env_view(env@), k@) == Some(v@),
            None => assoc_get(env_view(env@), k@) is None,
        },
{
    let mut i: usize = env.len();
    proof {
        assert(env_view(env@).take(env@.len() as int) =~= env_view(env@));
    }
    while i > 0
        invariant
            0 <= i <= env.len(),
            assoc_get(env_view(env@), k@) == assoc_get(env_view(env@).take(i as int), k@),
        decreases i,
    {
        i = i - 1;
        let ghost pre = env_view(env@).take(i + 1);
        proof {
            assert(pre.drop_last() =~= env_view(env@).take(i as int));
            assert(pre.last() == env_view(env@)[i as int]);
        }
        if env[i].0 == *k {
            return Some(clone_value(&env[i].1));
        }
    }
    proof {
        assert(env_view(env@).take(0) =~= Seq::<(Seq<char>, ValueModel)>::empty());
    }
    None
}

/// Look a capability up by name; the last binding wins.
fn lookup_cap<'a>(caps: &'a Vec<(String, Capability)>, k: &String) -> (r: Option<&'a Capability>)
    ensures
        match r {
            Some(c) => assoc_get(caps_view(caps@), k@) == Some(c@),
            None => assoc_get(caps_view(caps@), k@) is None,
        },
{
    let mut i: usize = caps.len();
    proof {
        assert(caps_view(caps@).take(caps@.len() as int) =~= caps_view(caps@));
    }
    while i > 0
        invariant
            0 <= i <= caps.len(),
            assoc_get(caps_view(caps@), k@) == assoc_get(caps_view(caps@).take(i as int), k@),
        decreases i,
    {
        i = i - 1;
        let ghost pre = caps_view(caps@).take(i + 1);
        proof {
            assert(pre.drop_last() =~= caps_view(caps@).take(i as int));
            assert(pre.last() == caps_view(caps@)[i as int]);
        }
        if caps[i].0 == *k {
            return Some(&caps[i].1);
        }
    }
    proof {
        assert(caps_view(caps@).take(0) =~= Seq::<(Seq<char>, CapabilityModel)>::empty());
    }
    None
}

/// The canonical textual rendering of a value.
fn format_value(v: &Value) -> (r: String)
    ensures
        r@ == format_value_spec(v@),
{
    match v {
        Value::Int(x) => i64_to_dec(*x),
        Value::Bool(b) => bool_to_text(*b),
        Value::String(s) => s.clone(),
    }
}

/// The JSON-like rendering of a value.
fn to_json(v: Value) -> (r: String)
    ensures
        r@ == json_of(v@),
{
    match v {
        Value::Int(x) => i64_to_dec(x),
        Value::Bool(b) => bool_to_text(b),
        Value::String(s) => {
            proof {
                reveal_strlit("\"");
            }
            let mut out = String::from_str("\"");
            out.append(s.as_str());
            out.append("\"");
            proof {
                assert("\""@ =~= seq!['"']);
                assert(out@ =~= seq!['"'] + s@ + seq!['"']);
            }
            out
        },
    }
}

/// Truncating division on magnitudes; the quotient of `i64::MIN / -1`
/// wraps.
fn div_exec(l: i64, r: i64) -> (q: i64)
    requires
        r != 0,
    ensures
        q == div_trunc(l, r),
{
    let lm: u64 = if l >= 0 {
        l as u64
    } else {
        ((-(l + 1)) as u64) + 1
    };
    let rm: u64 = if r >= 0 {
        r as u64
    } else {
        ((-(r + 1)) as u64) + 1
    };
    proof {
        assert(lm == mag_i64(l));
        assert(rm == mag_i64(r));
        assert(rm >= 1);
        assert(lm <= 9223372036854775808u64);
    }
    let q0 = lm / rm;
    proof {
        assert(q0 <= lm) by (nonlinear_arith)
            requires
                rm >= 1,
                q0 == lm / rm,
        ;
    }
    if (l >= 0) == (r >= 0) {
        if q0 <= 9223372036854775807u64 {
            q0 as i64
        } else {
            i64::MIN
        }
    } else {
        if q0 == 0 {
            0i64
        } else {
            (-((q0 - 1) as i64)) - 1
        }
    }
}

/// Evaluate an expression under the environment. Add, sub and mul wrap on
/// overflow; division by zero is an evaluation error.
fn eval_expr(expr: &Expr, env: &Vec<(String, Value)>) -> (r: Result<Value, RuntimeError>)
    ensures
        match r {
            Ok(v) => eval_spec(*expr, env_view(env@)) == Ok::<ValueModel, RuntimeErrorModel>(v@),
            Err(e) => eval_spec(*expr, env_view(env@)) == Err::<ValueModel, RuntimeErrorModel>(e@),
        },
    decreases *expr,
{
    match expr {
        Expr::Int(v) => Ok(Value::Int(*v)),
        Expr::Bool(v) => Ok(Value::Bool(*v)),
        Expr::String(s) => Ok(Value::String(s.clone())),
        Expr::Var(v) => match lookup_value(env, v) {
            Some(x) => Ok(x),
            None => {
                let mut m = String::from_str("unknown variable: ");
                m.append(v.as_str());
                Err(RuntimeError::Eval(m))
            },
        },
        Expr::Binary { lhs, op, rhs } => {
            let l = match eval_expr(lhs, env) {
                Err(e) => {
                    return Err(e);
                },
                Ok(x) => x,
            };
            let r0 = match eval_expr(rhs, env) {
                Err(e) => {
                    return Err(e);
                },
                Ok(x) => x,
            };
            match (l, r0) {
                (Value::Int(li), Value::Int(ri)) => match op {
                    BinOp::Add => Ok(Value::Int(li.wrapping_add(ri))),
                    BinOp::Sub => Ok(Value::Int(li.wrapping_sub(ri))),
                    BinOp::Mul => Ok(Value::Int(li.wrapping_mul(ri))),
                    BinOp::Div => {
                        if ri == 0 {
                            Err(RuntimeError::Eval(String::from_str("division by zero")))
                        } else {
                            Ok(Value::Int(div_exec(li, ri)))
                        }
                    },
                },
                _ => Err(RuntimeError::Eval(String::from_str("binary ops require Int values"))),
            }
        },
    }
}

/// Render the call-site arguments from `args[i]` on as comma-joined
/// `"field":value` text.
fn args_json_from(args: &Vec<(String, Expr)>, env: &Vec<(String, Value)>, i: usize) -> (r: Result<
    String,
    RuntimeError,
>)
    requires
        i <= args.len(),
    ensures
        match r {
            Ok(s) => args_json(args@.skip(i as int), env_view(env@)) == Ok::<
                Seq<char>,
                RuntimeErrorModel,
            >(s@),
            Err(e) => args_json(args@.skip(i as int), env_view(env@)) == Err::<
                Seq<char>,
                RuntimeErrorModel,
            >(e@),
        },
    decreases args.len() - i,
{
    if i == args.len() {
        proof {
            assert(args@.skip(i as int) =~= Seq::<(String, Expr)>::empty());
        }
        Ok(String::new())
    } else {
        let ghost rem = args@.skip(i as int);
        proof {
            assert(rem[0] == args@[i as int]);
            assert(rem.drop_first() =~= args@.skip(i + 1));
        }
        match eval_expr(&args[i].1, env) {
            Err(e) => Err(e),
            Ok(v) => {
                proof {
                    reveal_strlit("\"");
                    reveal_strlit("\":");
                    assert("\""@ =~= seq!['"']);
                    assert("\":"@ =~= seq!['"', ':']);
                }
                let mut fld = String::from_str("\"");
                fld.append(args[i].0.as_str());
                fld.append("\":");
                let jv = to_json(v);
                fld.append(jv.as_str());
                match args_json_from(args, env, i + 1) {
                    Err(e) => Err(e),
                    Ok(rest) => {
                        if i + 1 == args.len() {
                            proof {
                                assert(rem.len() == 1);
                            }
                            Ok(fld)
                        } else {
                            proof {
                                reveal_strlit(",");
                                assert(","@ =~= seq![',']);
                            }
                            fld.append(",");
                            fld.append(rest.as_str());
                            Ok(fld)
                        }
                    },
                }
            },
        }
    }
}

/// Whether `needle` occurs inside `hay`.
#[verifier::loop_isolation(false)]
fn contains_sub_exec(hay: &Vec<char>, needle: &Vec<char>) -> (r: bool)
    ensures
        r == contains_sub(hay@, needle@),
{
    if needle.len() > hay.len() {
        return false;
    }
    let bound = hay.len() - needle.len();
    let mut i: usize = 0;
    while i <= bound
        invariant
            needle@.len() <= hay@.len(),
            bound == hay@.len() - needle@.len(),
            0 <= i <= bound + 1,
            forall|ii: int|
                0 <= ii < i ==> #[trigger] hay@.subrange(ii, ii + needle@.len()) != needle@,
        decreases bound + 1 - i,
    {
        let mut j: usize = 0;
        let mut ok = true;
        while ok && j < needle.len()
            invariant
                needle@.len() <= hay@.len(),
                0 <= i <= hay@.len() - needle@.len(),
                0 <= j <= needle@.len(),
                ok ==> forall|jj: int| 0 <= jj < j ==> hay@[i + jj] == #[trigger] needle@[jj],
                !ok ==> hay@.subrange(i as int, i + needle@.len()) != needle@,
            decreases needle.len() - j, (if ok { 1int } else { 0int }),
        {
            if hay[i + j] != needle[j] {
                proof {
                    assert(hay@.subrange(i as int, i + needle@.len())[j as int] == hay@[i + j]);
                }
                ok = false;
            } else {
                j = j + 1;
            }
        }
        if ok {
            proof {
                assert(hay@.subrange(i as int, i + needle@.len()) =~= needle@);
                assert(contains_sub(hay@, needle@));
            }
            return true;
        }
        if i == bound {
            proof {
                assert(!contains_sub(hay@, needle@)) by {
                    if contains_sub(hay@, needle@) {
                        let w = choose|w: int|
                            0 <= w <= hay@.len() - needle@.len() && #[trigger] hay@.subrange(
                                w,
                                w + needle@.len(),
                            ) == needle@;
                        assert(hay@.subrange(w, w + needle@.len()) != needle@);
                    }
                }
            }
            return false;
        }
        i = i + 1;
    }
    proof {
        assert(!contains_sub(hay@, needle@)) by {
            if contains_sub(hay@, needle@) {
                let w = choose|w: int|
                    0 <= w <= hay@.len() - needle@.len() && #[trigger] hay@.subrange(
                        w,
                        w + needle@.len(),
                    ) == needle@;
                assert(hay@.subrange(w, w + needle@.len()) != needle@);
            }
        }
    }
    false
}

/// Check that every declared output field's `"name":` marker occurs in the
/// output text.
#[verifier::loop_isolation(false)]
fn validate_tool_output(raw: &str, schema: &Vec<(String, Type)>) -> (r: Result<(), RuntimeError>)
    ensures
        match r {
            Ok(_) => validate_spec(raw@, fields_view(schema@)) is None,
            Err(e) => validate_spec(raw@, fields_view(schema@)) matches Some(k) && e@
                == RuntimeErrorModel::ToolValidation("tool output missing required field: "@ + k),
        },
{
    let hay = str_to_chars(raw);
    let ghost fv = fields_view(schema@);
    let mut i: usize = 0;
    proof {
        assert(fv.skip(0) =~= fv);
    }
    while i < schema.len()
        invariant
            0 <= i <= schema.len(),
            hay@ == raw@,
            validate_spec(raw@, fv) == validate_spec(raw@, fv.skip(i as int)),
        decreases schema.len() - i,
    {
        proof {
            assert(fv.skip(i as int)[0] == fv[i as int]);
            assert(fv.skip(i as int).drop_first() =~= fv.skip(i + 1));
        }
        let mut needle: Vec<char> = Vec::new();
        needle.push('"');
        let fc = str_to_chars(schema[i].0.as_str());
        let mut k: usize = 0;
        while k < fc.len()
            invariant
                0 <= k <= fc.len(),
                fc@ == schema@[i as int].0@,
                i < schema@.len(),
                needle@ == seq!['"'] + fc@.take(k as int),
            decreases fc.len() - k,
        {
            needle.push(fc[k]);
            proof {
                assert(needle@ =~= seq!['"'] + fc@.take(k + 1));
            }
            k = k + 1;
        }
        needle.push('"');
        needle.push(':');
        proof {
            assert(fc@.take(fc@.len() as int) =~= fc@);
            assert(needle@ =~= seq!['"'] + fv[i as int].0 + seq!['"', ':']);
        }
        if !contains_sub_exec(&hay, &needle) {
            let mut m = String::from_str("tool output missing required field: ");
            m.append(schema[i].0.as_str());
            return Err(RuntimeError::ToolValidation(m));
        }
        i = i + 1;
    }
    proof {
        assert(fv.skip(fv.len() as int) =~= Seq::<(Seq<char>, Type)>::empty());
    }
    Ok(())
}

/// The per-statement pseudorandom heartbeat generator.
struct Lcg(u64);

impl View for Lcg {
    type V = u64;

    closed spec fn view(&self) -> u64 {
        self.0
    }
}

impl Lcg {
    fn new(seed: u64) -> (r: Self)
        ensures
            r@ == seed,
    {
        Lcg(seed)
    }

    fn next(&mut self) -> (r: u64)
        ensures
            final(self)@ == lcg_next(old(self)@),
            r == final(self)@,
    {
        self.0 = self.0.wrapping_mul(6364136223846793005).wrapping_add(1);
        self.0
    }
}

/// Execute a typed program under a capability mapping and a tool registry.
/// The returned log is the complete record of the run — its `Print` events
/// carry exactly the text a console front-end shows; on error no partial
/// log is observable.
#[verifier::loop_isolation(false)]
pub fn execute(
    typed: TypedProgram,
    capabilities: &Vec<(String, Capability)>,
    tools: &ToolRegistry,
    opts: ExecOptions,
) -> (r: Result<ReplayLog, RuntimeError>)
    ensures
        match r {
            Ok(log) => execute_spec(typed, caps_view(capabilities@), tools@, opts.deterministic_seed)
                == Ok::<Seq<EventModel>, RuntimeErrorModel>(log@),
            Err(e) => execute_spec(
                typed,
                caps_view(capabilities@),
                tools@,
                opts.deterministic_seed,
            ) == Err::<Seq<EventModel>, RuntimeErrorModel>(e@),
        },
{
    let ghost capsv = caps_view(capabilities@);
    let ghost regv = tools@;
    let ghost seed = opts.deterministic_seed;
    if typed.effect == Effect::Tool && capabilities.len() == 0 {
        return Err(
            RuntimeError::MissingCapability(
                String::from_str("tool effect requested but no capabilities supplied"),
            ),
        );
    }
    let ghost stmts = typed.program@;
    let ghost sigs_m = sigs_view(typed.tools@);
    let TypedProgram { program, effect: _, tools: tool_sigs, manifest: _ } = typed;
    let mut env: Vec<(String, Value)> = Vec::new();
    let mut log = ReplayLog::default();
    let mut rng = Lcg::new(opts.deterministic_seed);
    proof {
        assert(env_view(env@) =~= Seq::<(Seq<char>, ValueModel)>::empty());
        assert(stmts.skip(0) =~= stmts);
    }
    let mut i: usize = 0;
    while i < program.statements.len()
        invariant
            0 <= i <= program.statements.len(),
            program@ == stmts,
            sigs_view(tool_sigs@) == sigs_m,
            exec_stmts(stmts, sigs_m, capsv, regv, Seq::empty(), seed, Seq::empty()) == exec_stmts(
                stmts.skip(i as int),
                sigs_m,
                capsv,
                regv,
                env_view(env@),
                rng@,
                log@,
            ),
        decreases program.statements.len() - i,
    {
        let ghost rem = stmts.skip(i as int);
        proof {
            assert(rem[0] == stmts[i as int]);
            assert(rem.drop_first() =~= stmts.skip(i + 1));
        }
        match &program.statements[i] {
            Stmt::ToolDecl { .. } => {
                proof {
                    assert(run_stmt(rem[0], sigs_m, capsv, regv, env_view(env@), log@) == Ok::<
                        (Seq<(Seq<char>, ValueModel)>, Seq<EventModel>),
                        RuntimeErrorModel,
                    >((env_view(env@), log@)));
                }
            },
            Stmt::Let { name, expr } => {
                match eval_expr(expr, &env) {
                    Err(e) => {
                        return Err(e);
                    },
                    Ok(v) => {
                        let ghost ev0 = env_view(env@);
                        let ghost vm = v@;
                        env.push((name.clone(), v));
                        proof {
                            assert(env_view(env@) =~= ev0.push((name@, vm)));
                        }
                    },
                }
            },
            Stmt::Print { expr } => {
                match eval_expr(expr, &env) {
                    Err(e) => {
                        return Err(e);
                    },
                    Ok(v) => {
                        let msg = format_value(&v);
                        log.push(Event::Print { value: msg });
                    },
                }
            },
            Stmt::ToolCall { tool, input, cap, timeout_ms } => {
                if *timeout_ms == 0 {
                    let mut m = String::from_str("tool call ");
                    m.append(tool.as_str());
                    m.append(" has zero timeout");
                    return Err(RuntimeError::InvalidTimeout(m));
                }
                let c = match lookup_cap(capabilities, cap) {
                    None => {
                        return Err(RuntimeError::MissingCapability(cap.clone()));
                    },
                    Some(c) => c,
                };
                if !c.can_use_tool() {
                    let mut m = String::new();
                    m.append(cap.as_str());
                    m.append(" does not grant tool rights");
                    proof {
                        assert(m@ =~= cap@ + " does not grant tool rights"@);
                    }
                    return Err(RuntimeError::InvalidCapability(m));
                }
                let sig = match lookup_sig(&tool_sigs, tool) {
                    None => {
                        return Err(RuntimeError::MissingToolSignature(tool.clone()));
                    },
                    Some(sig) => sig,
                };
                let inner = match args_json_from(input, &env, 0) {
                    Err(e) => {
                        proof {
                            assert(input@.skip(0) =~= input@);
                        }
                        return Err(e);
                    },
                    Ok(s) => {
                        proof {
                            assert(input@.skip(0) =~= input@);
                        }
                        s
                    },
                };
                proof {
                    reveal_strlit("{");
                    reveal_strlit("}");
                    assert("{"@ =~= seq!['{']);
                    assert("}"@ =~= seq!['}']);
                }
                let mut input_json = String::from_str("{");
                input_json.append(inner.as_str());
                input_json.append("}");
                proof {
                    assert(input_json@ =~= seq!['{'] + inner@ + seq!['}']);
                }
                let out = match tools.call(tool.as_str(), input_json.clone()) {
                    Err(m) => {
                        return Err(RuntimeError::ToolExecution(m));
                    },
                    Ok(out) => out,
                };
                match validate_tool_output(out.as_str(), &sig.output) {
                    Err(e) => {
                        return Err(e);
                    },
                    Ok(_) => {},
                }
                let hash = fnv_hex_of_str(out.as_str());
                let mut tags: Vec<String> = Vec::new();
                tags.push(String::from_str("default"));
                proof {
                    assert(crate::text::seq_views(tags@) =~= seq!["default"@]);
                }
                let ghost outm = out@;
                let ghost ijm = input_json@;
                let ev = Event::ToolCall {
                    tool: tool.clone(),
                    input: input_json,
                    output: out,
                    source: String::from_str("tool-registry"),
                    timestamp_ms: 0,
                    output_hash: hash,
                    policy_tags: tags,
                };
                proof {
                    assert(ev@ == EventModel::ToolCall {
                        tool: tool@,
                        input: ijm,
                        output: outm,
                        source: "tool-registry"@,
                        timestamp_ms: 0,
                        output_hash: digest_of_text(outm),
                        policy_tags: seq!["default"@],
                    });
                }
                log.push(ev);
                log.push(Event::Time { millis: *timeout_ms });
            },
        }
        let rv = rng.next();
        log.push(Event::Random { value: rv });
        i = i + 1;
    }
    proof {
        assert(stmts.skip(stmts.len() as int) =~= Seq::<Stmt>::empty());
    }
    Ok(log)
}

/// Execute under the default capability mapping (a Tool-kind capability
/// named "toolCap").
pub fn execute_with_defaults(typed: TypedProgram, tools: &ToolRegistry, opts: ExecOptions) -> (r:
    Result<ReplayLog, RuntimeError>)
    ensures
        match r {
            Ok(log) => execute_spec(
                typed,
                seq![("toolCap"@, CapabilityModel { id: 1u64, kind: CapabilityKind::Tool })],
                tools@,
                opts.deterministic_seed,
            ) == Ok::<Seq<EventModel>, RuntimeErrorModel>(log@),
            Err(e) => execute_spec(
                typed,
                seq![("toolCap"@, CapabilityModel { id: 1u64, kind: CapabilityKind::Tool })],
                tools@,
                opts.deterministic_seed,
            ) == Err::<Seq<EventModel>, RuntimeErrorModel>(e@),
        },
{
    let caps = default_capabilities();
    execute(typed, &caps, tools, opts)
}

// ---------------------------------------------------------------------------
// Well-formed logs
// ---------------------------------------------------------------------------

/// A value whose textual content survives the replay line format: its text
/// holds no pipe and no carriage return.
pub open spec fn clean_val(v: ValueModel) -> bool {
    match v {
        ValueModel::Text(s) => crate::replay::field_ok(s),
        _ => true,
    }
}

pub open spec fn clean_env(env: Seq<(Seq<char>, ValueModel)>) -> bool {
    forall|i: int| 0 <= i < env.len() ==> clean_val(#[trigger] env[i].1)
}

/// Every text literal in the expression is free of pipes and carriage
/// returns.
pub open spec fn clean_expr(e: Expr) -> bool
    decreases e,
{
    match e {
        Expr::String(s) => crate::replay::field_ok(s@),
        Expr::Binary { lhs, rhs, .. } => clean_expr(*lhs) && clean_expr(*rhs),
        _ => true,
    }
}

pub open spec fn clean_stmt(s: Stmt) -> bool {
    match s {
        Stmt::ToolDecl { .. } => true,
        Stmt::Let { expr, .. } => clean_expr(expr),
        Stmt::Print { expr } => clean_expr(expr),
        Stmt::ToolCall { tool, input, .. } => crate::replay::field_ok(tool@) && forall|i: int|
            0 <= i < input@.len() ==> crate::replay::field_ok(#[trigger] input@[i].0@)
                && clean_expr(input@[i].1),
    }
}

/// Every tool name, argument name and text literal in the program is free
/// of pipes and carriage returns.
pub open spec fn clean_program(stmts: Seq<Stmt>) -> bool {
    forall|i: int| 0 <= i < stmts.len() ==> clean_stmt(#[trigger] stmts[i])
}

pub open spec fn clean_behavior(b: ToolBehaviorModel) -> bool {
    match b {
        ToolBehaviorModel::Fixed(s) => crate::replay::field_ok(s),
        _ => true,
    }
}

/// Every fixed response a registry can give is free of pipes and carriage
/// returns.
pub open spec fn clean_registry(reg: Seq<(Seq<char>, ToolBehaviorModel)>) -> bool {
    forall|i: int| 0 <= i < reg.len() ==> clean_behavior(#[trigger] reg[i].1)
}

proof fn lemma_dec_nat_field_ok(n: nat)
    ensures
        crate::replay::field_ok(crate::text::dec_nat(n)),
{
    crate::text::lemma_dec_nat(n);
    let s = crate::text::dec_nat(n);
    assert forall|i: int| 0 <= i < s.len() implies #[trigger] s[i] != '|' && s[i] != '\r' by {
        assert(crate::text::is_dec_digit(s[i]));
        if s[i] == '|' {
            assert(s[i] as u32 == 124);
        }
        if s[i] == '\r' {
            assert(s[i] as u32 == 13);
        }
    }
}

proof fn lemma_dec_i64_field_ok(v: i64)
    ensures
        crate::replay::field_ok(dec_i64(v)),
{
    if v >= 0 {
        lemma_dec_nat_field_ok(v as nat);
    } else {
        lemma_dec_nat_field_ok((-(v as int)) as nat);
        assert(crate::replay::field_ok(seq!['-'])) by {
            assert(seq!['-'][0] == '-');
        }
        crate::replay::lemma_concat_field_ok(seq!['-'], crate::text::dec_nat((-(v as int)) as nat));
    }
}

proof fn lemma_bool_text_field_ok(b: bool)
    ensures
        crate::replay::field_ok(bool_text(b)),
{
    reveal_strlit("true");
    reveal_strlit("false");
}

/// The canonical rendering of a clean value is a clean field.
proof fn lemma_format_value_clean(v: ValueModel)
    requires
        clean_val(v),
    ensures
        crate::replay::field_ok(format_value_spec(v)),
{
    match v {
        ValueModel::Int(x) => lemma_dec_i64_field_ok(x),
        ValueModel::Bool(b) => lemma_bool_text_field_ok(b),
        ValueModel::Text(_) => {},
    }
}

proof fn lemma_json_of_clean(v: ValueModel)
    requires
        clean_val(v),
    ensures
        crate::replay::field_ok(json_of(v)),
{
    match v {
        ValueModel::Int(x) => lemma_dec_i64_field_ok(x),
        ValueModel::Bool(b) => lemma_bool_text_field_ok(b),
        ValueModel::Text(s) => {
            assert(crate::replay::field_ok(seq!['"'])) by {
                assert(seq!['"'][0] == '"');
            }
            crate::replay::lemma_concat_field_ok(seq!['"'], s);
            crate::replay::lemma_concat_field_ok(seq!['"'] + s, seq!['"']);
        },
    }
}

proof fn lemma_assoc_get_clean_val(env: Seq<(Seq<char>, ValueModel)>, k: Seq<char>)
    requires
        clean_env(env),
    ensures
        match assoc_get(env, k) {
            Some(v) => clean_val(v),
            None => true,
        },
    decreases env.len(),
{
    if env.len() > 0 {
        if env.last().0 != k {
            assert(clean_env(env.drop_last())) by {
                assert(forall|i: int|
                    0 <= i < env.drop_last().len() ==> #[trigger] env.drop_last()[i] == env[i]);
            }
            lemma_assoc_get_clean_val(env.drop_last(), k);
        } else {
            assert(env.last() == env[env.len() - 1]);
        }
    }
}

proof fn lemma_assoc_get_clean_behavior(reg: Seq<(Seq<char>, ToolBehaviorModel)>, k: Seq<char>)
    requires
        clean_registry(reg),
    ensures
        match assoc_get(reg, k) {
            Some(b) => clean_behavior(b),
            None => true,
        },
    decreases reg.len(),
{
    if reg.len() > 0 {
        if reg.last().0 != k {
            assert(clean_registry(reg.drop_last())) by {
                assert(forall|i: int|
                    0 <= i < reg.drop_last().len() ==> #[trigger] reg.drop_last()[i] == reg[i]);
            }
            lemma_assoc_get_clean_behavior(reg.drop_last(), k);
        } else {
            assert(reg.last() == reg[reg.len() - 1]);
        }
    }
}

/// Evaluation of a clean expression under a clean environment yields a
/// clean value.
proof fn lemma_eval_clean(e: Expr, env: Seq<(Seq<char>, ValueModel)>)
    requires
        clean_expr(e),
        clean_env(env),
    ensures
        match eval_spec(e, env) {
            Ok(v) => clean_val(v),
            Err(_) => true,
        },
    decreases e,
{
    match e {
        Expr::Var(v) => {
            lemma_assoc_get_clean_val(env, v@);
        },
        Expr::Binary { lhs, rhs, .. } => {
            lemma_eval_clean(*lhs, env);
            lemma_eval_clean(*rhs, env);
        },
        _ => {},
    }
}

/// The rendered arguments of a clean tool call are a clean field.
proof fn lemma_args_json_clean(args: Seq<(String, Expr)>, env: Seq<(Seq<char>, ValueModel)>)
    requires
        forall|i: int|
            0 <= i < args.len() ==> crate::replay::field_ok(#[trigger] args[i].0@) && clean_expr(
                args[i].1,
            ),
        clean_env(env),
    ensures
        match args_json(args, env) {
            Ok(s) => crate::replay::field_ok(s),
            Err(_) => true,
        },
    decreases args.len(),
{
    if args.len() > 0 {
        lemma_eval_clean(args[0].1, env);
        assert(forall|i: int|
            0 <= i < args.drop_first().len() ==> #[trigger] args.drop_first()[i] == args[i + 1]);
        lemma_args_json_clean(args.drop_first(), env);
        match eval_spec(args[0].1, env) {
            Err(_) => {},
            Ok(v) => {
                lemma_json_of_clean(v);
                let quote = seq!['"'];
                let marker = seq!['"', ':'];
                assert(crate::replay::field_ok(quote)) by {
                    assert(quote[0] == '"');
                }
                assert(crate::replay::field_ok(marker)) by {
                    assert(marker[0] == '"');
                    assert(marker[1] == ':');
                }
                crate::replay::lemma_concat_field_ok(quote, args[0].0@);
                crate::replay::lemma_concat_field_ok(quote + args[0].0@, marker);
                crate::replay::lemma_concat_field_ok(quote + args[0].0@ + marker, json_of(v));
                let field = quote + args[0].0@ + marker + json_of(v);
                match args_json(args.drop_first(), env) {
                    Err(_) => {},
                    Ok(rest) => {
                        if args.len() > 1 {
                            assert(crate::replay::field_ok(seq![','])) by {
                                assert(seq![','][0] == ',');
                            }
                            crate::replay::lemma_concat_field_ok(field, seq![',']);
                            crate::replay::lemma_concat_field_ok(field + seq![','], rest);
                        }
                    },
                }
            },
        }
    }
}

proof fn lemma_hex16_field_ok(h: u64)
    ensures
        crate::replay::field_ok(crate::text::hex16(h)),
{
    lemma_hex_rec_field_ok(h as nat, 16);
}

proof fn lemma_hex_rec_field_ok(h: nat, k: nat)
    ensures
        crate::replay::field_ok(crate::text::hex_rec(h, k)),
    decreases k,
{
    if k > 0 {
        lemma_hex_rec_field_ok(h / 16, (k - 1) as nat);
        let s = crate::text::hex_rec(h, k);
        let c = crate::text::hex_digit(h % 16);
        assert(c != '|' && c != '\r');
        assert forall|i: int| 0 <= i < s.len() implies #[trigger] s[i] != '|' && s[i] != '\r' by {
            if i < s.len() - 1 {
                assert(s[i] == crate::text::hex_rec(h / 16, (k - 1) as nat)[i]);
            } else {
                assert(s[i] == c);
            }
        }
    }
}

/// A clean registry answers a clean input with a clean output.
proof fn lemma_registry_call_clean(
    reg: Seq<(Seq<char>, ToolBehaviorModel)>,
    name: Seq<char>,
    input: Seq<char>,
)
    requires
        clean_registry(reg),
        crate::replay::field_ok(input),
    ensures
        match registry_call(reg, name, input) {
            Ok(out) => crate::replay::field_ok(out),
            Err(_) => true,
        },
{
    lemma_assoc_get_clean_behavior(reg, name);
    match assoc_get(reg, name) {
        None => {},
        Some(b) => match b {
            ToolBehaviorModel::Echo => {
                assert(crate::replay::field_ok("{\"echo\":"@)) by {
                    reveal_strlit("{\"echo\":");
                }
                assert(crate::replay::field_ok("}"@)) by {
                    reveal_strlit("}");
                }
                crate::replay::lemma_concat_field_ok("{\"echo\":"@, input);
                crate::replay::lemma_concat_field_ok("{\"echo\":"@ + input, "}"@);
            },
            _ => {},
        },
    }
}

/// One step of a clean program under a clean registry keeps the
/// environment clean and the log well formed.
proof fn lemma_run_stmt_wf(
    s: Stmt,
    sigs: SignatureModelSeq,
    caps: Seq<(Seq<char>, CapabilityModel)>,
    reg: Seq<(Seq<char>, ToolBehaviorModel)>,
    env: Seq<(Seq<char>, ValueModel)>,
    log: Seq<EventModel>,
)
    requires
        clean_stmt(s),
        clean_env(env),
        clean_registry(reg),
        crate::replay::wf_log(log),
    ensures
        match run_stmt(s, sigs, caps, reg, env, log) {
            Ok(step) => clean_env(step.0) && crate::replay::wf_log(step.1),
            Err(_) => true,
        },
{
    match s {
        Stmt::ToolDecl { .. } => {},
        Stmt::Let { name, expr } => {
            lemma_eval_clean(expr, env);
            match eval_spec(expr, env) {
                Err(_) => {},
                Ok(v) => {
                    let env2 = env.push((name@, v));
                    assert forall|i: int| 0 <= i < env2.len() implies clean_val(
                        #[trigger] env2[i].1,
                    ) by {
                        if i < env.len() {
                            assert(env2[i] == env[i]);
                        }
                    }
                },
            }
        },
        Stmt::Print { expr } => {
            lemma_eval_clean(expr, env);
            match eval_spec(expr, env) {
                Err(_) => {},
                Ok(v) => {
                    lemma_format_value_clean(v);
                    let ev = EventModel::Print { value: format_value_spec(v) };
                    assert(crate::replay::wf_event(ev));
                    lemma_wf_log_push(log, ev);
                },
            }
        },
        Stmt::ToolCall { tool, input, cap, timeout_ms } => {
            if timeout_ms != 0 && assoc_get(caps, cap@) is Some && assoc_get(
                caps,
                cap@,
            )->Some_0.kind == CapabilityKind::Tool && assoc_get(sigs, tool@) is Some {
                let sig = assoc_get(sigs, tool@)->Some_0;
                lemma_args_json_clean(input@, env);
                match args_json(input@, env) {
                    Err(_) => {},
                    Ok(inner) => {
                        let ij = seq!['{'] + inner + seq!['}'];
                        assert(crate::replay::field_ok(seq!['{'])) by {
                            assert(seq!['{'][0] == '{');
                        }
                        assert(crate::replay::field_ok(seq!['}'])) by {
                            assert(seq!['}'][0] == '}');
                        }
                        crate::replay::lemma_concat_field_ok(seq!['{'], inner);
                        crate::replay::lemma_concat_field_ok(seq!['{'] + inner, seq!['}']);
                        lemma_registry_call_clean(reg, tool@, ij);
                        match registry_call(reg, tool@, ij) {
                            Err(_) => {},
                            Ok(out) => {
                                match validate_spec(out, sig.output) {
                                    Some(_) => {},
                                    None => {
                                        lemma_hex16_field_ok(
                                            crate::text::fnv1a(vstd::utf8::encode_utf8(out)),
                                        );
                                        assert(crate::replay::field_ok("tool-registry"@)) by {
                                            reveal_strlit("tool-registry");
                                        }
                                        assert(crate::replay::tag_ok("default"@)) by {
                                            reveal_strlit("default");
                                        }
                                        let ev = EventModel::ToolCall {
                                            tool: tool@,
                                            input: ij,
                                            output: out,
                                            source: "tool-registry"@,
                                            timestamp_ms: 0,
                                            output_hash: digest_of_text(out),
                                            policy_tags: seq!["default"@],
                                        };
                                        assert(crate::replay::wf_event(ev)) by {
                                            assert(seq!["default"@][0] == "default"@);
                                        }
                                        lemma_wf_log_push(log, ev);
                                        lemma_wf_log_push(
                                            log.push(ev),
                                            EventModel::Time { millis: timeout_ms },
                                        );
                                    },
                                }
                            },
                        }
                    },
                }
            }
        },
    }
}

proof fn lemma_wf_log_push(log: Seq<EventModel>, e: EventModel)
    requires
        crate::replay::wf_log(log),
        crate::replay::wf_event(e),
    ensures
        crate::replay::wf_log(log.push(e)),
{
    let log2 = log.push(e);
    assert forall|i: int| 0 <= i < log2.len() implies crate::replay::wf_event(
        #[trigger] log2[i],
    ) by {
        if i < log.len() {
            assert(log2[i] == log[i]);
        } else {
            assert(log2[i] == e);
        }
    }
}

proof fn lemma_exec_stmts_wf(
    stmts: Seq<Stmt>,
    sigs: SignatureModelSeq,
    caps: Seq<(Seq<char>, CapabilityModel)>,
    reg: Seq<(Seq<char>, ToolBehaviorModel)>,
    env: Seq<(Seq<char>, ValueModel)>,
    rng: u64,
    log: Seq<EventModel>,
)
    requires
        clean_program(stmts),
        clean_env(env),
        clean_registry(reg),
        crate::replay::wf_log(log),
    ensures
        match exec_stmts(stmts, sigs, caps, reg, env, rng, log) {
            Ok(out) => crate::replay::wf_log(out),
            Err(_) => true,
        },
    decreases stmts.len(),
{
    if stmts.len() > 0 {
        assert(clean_stmt(stmts[0]));
        lemma_run_stmt_wf(stmts[0], sigs, caps, reg, env, log);
        match run_stmt(stmts[0], sigs, caps, reg, env, log) {
            Err(_) => {},
            Ok(step) => {
                let rng2 = lcg_next(rng);
                lemma_wf_log_push(step.1, EventModel::Random { value: rng2 });
                assert(clean_program(stmts.drop_first())) by {
                    assert(forall|i: int|
                        0 <= i < stmts.drop_first().len() ==> #[trigger] stmts.drop_first()[i]
                            == stmts[i + 1]);
                }
                lemma_exec_stmts_wf(
                    stmts.drop_first(),
                    sigs,
                    caps,
                    reg,
                    step.0,
                    rng2,
                    step.1.push(EventModel::Random { value: rng2 }),
                );
            },
        }
    }
}

/// Every log the interpreter produces from a clean program under a clean
/// registry is well formed, so its text parses back to exactly the same
/// events and the digest of the reparsed log equals the digest of the
/// original.
pub proof fn lemma_interpreter_log_roundtrip(
    typed: TypedProgram,
    caps: Seq<(Seq<char>, CapabilityModel)>,
    reg: Seq<(Seq<char>, ToolBehaviorModel)>,
    seed: u64,
    log: Seq<EventModel>,
)
    requires
        clean_program(typed.program@),
        clean_registry(reg),
        execute_spec(typed, caps, reg, seed) == Ok::<Seq<EventModel>, RuntimeErrorModel>(log),
    ensures
        crate::replay::wf_log(log),
        crate::replay::parse_text_spec(text_of_log(log)) == Ok::<Seq<EventModel>, Seq<char>>(log),
        digest_of_log(log) == digest_of_log(
            crate::replay::parse_text_spec(text_of_log(log))->Ok_0,
        ),
{
    assert(clean_env(Seq::<(Seq<char>, ValueModel)>::empty()));
    assert(crate::replay::wf_log(Seq::<EventModel>::empty()));
    lemma_exec_stmts_wf(
        typed.program@,
        sigs_view(typed.tools@),
        caps,
        reg,
        Seq::empty(),
        seed,
        Seq::empty(),
    );
    crate::replay::lemma_replay_roundtrip(log);
}

// ---------------------------------------------------------------------------
// Laws
// ---------------------------------------------------------------------------

/// Determinism: the outcome of execution is a function of the typed
/// program, the capability mapping, the registry and the seed alone, so two
/// executions of equal inputs yield logs with equal text and equal digest.
pub proof fn lemma_execute_deterministic(
    typed: TypedProgram,
    caps: Seq<(Seq<char>, CapabilityModel)>,
    reg: Seq<(Seq<char>, ToolBehaviorModel)>,
    seed: u64,
    l1: Seq<EventModel>,
    l2: Seq<EventModel>,
)
    requires
        execute_spec(typed, caps, reg, seed) == Ok::<Seq<EventModel>, RuntimeErrorModel>(l1),
        execute_spec(typed, caps, reg, seed) == Ok::<Seq<EventModel>, RuntimeErrorModel>(l2),
    ensures
        l1 == l2,
        text_of_log(l1) == text_of_log(l2),
        digest_of_log(l1) == digest_of_log(l2),
{
}

/// Cap-kind enforcement: a tool call with a nonzero timeout under a
/// capability that resolves but is not Tool-kind always yields
/// `InvalidCapability`, whatever the registry answers.
pub proof fn lemma_non_tool_cap_rejected(
    tool: String,
    input: Vec<(String, Expr)>,
    cap: String,
    timeout_ms: u64,
    sigs: SignatureModelSeq,
    caps: Seq<(Seq<char>, CapabilityModel)>,
    reg: Seq<(Seq<char>, ToolBehaviorModel)>,
    env: Seq<(Seq<char>, ValueModel)>,
    log: Seq<EventModel>,
    c: CapabilityModel,
)
    requires
        timeout_ms != 0,
        assoc_get(caps, cap@) == Some(c),
        c.kind != CapabilityKind::Tool,
    ensures
        run_stmt(Stmt::ToolCall { tool, input, cap, timeout_ms }, sigs, caps, reg, env, log)
            == Err::<(Seq<(Seq<char>, ValueModel)>, Seq<EventModel>), RuntimeErrorModel>(
            RuntimeErrorModel::InvalidCapability(cap@ + " does not grant tool rights"@),
        ),
{
}

/// Timeout guard: a tool call with a zero timeout yields `InvalidTimeout`
/// whatever the capabilities and the registry hold — the outcome does not
/// depend on the registry, so no registry call happens first.
pub proof fn lemma_zero_timeout_rejected(
    tool: String,
    input: Vec<(String, Expr)>,
    cap: String,
    sigs: SignatureModelSeq,
    caps: Seq<(Seq<char>, CapabilityModel)>,
    reg: Seq<(Seq<char>, ToolBehaviorModel)>,
    env: Seq<(Seq<char>, ValueModel)>,
    log: Seq<EventModel>,
)
    ensures
        run_stmt(Stmt::ToolCall { tool, input, cap, timeout_ms: 0 }, sigs, caps, reg, env, log)
            == Err::<(Seq<(Seq<char>, ValueModel)>, Seq<EventModel>), RuntimeErrorModel>(
            RuntimeErrorModel::InvalidTimeout("tool call "@ + tool@ + " has zero timeout"@),
        ),
{
}

} // verus!

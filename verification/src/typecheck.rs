//! The type-and-effect checker: it collects tool signatures, infers
//! expression types in source order, validates tool calls against their
//! signatures, and lifts the program to a typed program carrying an effect
//! and a sorted, deduplicated capability manifest.

use vstd::prelude::*;
use vstd::string::StringExecFns;
use crate::ast::{
    Program, Stmt, Expr, Type, Effect, ToolSignature, CapabilityManifest, SignatureModel,
    fields_view, assoc_get,
};
use crate::error::{CompileError, CompileErrorModel};
use crate::text::{seq_views, seq_lt, str_lt_exec, lemma_seq_lt_trichotomy, lemma_seq_lt_trans};

verus! {

/// A program lifted by the checker: the original statements, the overall
/// effect, the collected tool signatures and the capability manifest.
#[derive(Debug)]
pub struct TypedProgram {
    pub program: Program,
    pub effect: Effect,
    pub tools: Vec<(String, ToolSignature)>,
    pub manifest: CapabilityManifest,
}

pub type SignatureModelSeq = Seq<(Seq<char>, SignatureModel)>;

pub open spec fn sigs_view(v: Seq<(String, ToolSignature)>) -> Seq<(Seq<char>, SignatureModel)> {
    v.map_values(|p: (String, ToolSignature)| (p.0@, p.1@))
}

// ---------------------------------------------------------------------------
// The model of signature collection
// ---------------------------------------------------------------------------

/// Insert or replace a field binding, keeping keys unique: the first
/// occurrence of the key is removed and the new binding goes to the end.
pub open spec fn field_set(s: Seq<(Seq<char>, Type)>, k: Seq<char>, t: Type) -> Seq<
    (Seq<char>, Type),
>
    decreases s.len(),
{
    if s.len() == 0 {
        seq![(k, t)]
    } else if s[0].0 == k {
        s.drop_first().push((k, t))
    } else {
        seq![s[0]] + field_set(s.drop_first(), k, t)
    }
}

/// The field mapping of a declaration's field list; a later field with the
/// same name overwrites an earlier one.
pub open spec fn fields_map(l: Seq<(String, Type)>) -> Seq<(Seq<char>, Type)>
    decreases l.len(),
{
    if l.len() == 0 {
        Seq::empty()
    } else {
        field_set(fields_map(l.drop_last()), l.last().0@, l.last().1)
    }
}

pub open spec fn sig_of_decl(
    input: Seq<(String, Type)>,
    output: Seq<(String, Type)>,
    cap: Seq<char>,
) -> SignatureModel {
    SignatureModel { input: fields_map(input), output: fields_map(output), cap }
}

/// First pass: every tool declaration registers its signature; a later
/// declaration with the same name overwrites an earlier one.
pub open spec fn collect_sigs(stmts: Seq<Stmt>) -> Seq<(Seq<char>, SignatureModel)>
    decreases stmts.len(),
{
    if stmts.len() == 0 {
        Seq::empty()
    } else {
        let rest = collect_sigs(stmts.drop_last());
        match stmts.last() {
            Stmt::ToolDecl { name, input, output, cap } => rest.push(
                (name@, sig_of_decl(input@, output@, cap@)),
            ),
            _ => rest,
        }
    }
}

// ---------------------------------------------------------------------------
// The model of expression type inference
// ---------------------------------------------------------------------------

pub open spec fn ty_text(t: Type) -> Seq<char> {
    match t {
        Type::Int => "Int"@,
        Type::Bool => "Bool"@,
        Type::String => "String"@,
    }
}

/// What the checker infers for an expression under an environment.
pub open spec fn infer_spec(e: Expr, env: Seq<(Seq<char>, Type)>) -> Result<
    Type,
    CompileErrorModel,
>
    decreases e,
{
    match e {
        Expr::Int(_) => Ok(Type::Int),
        Expr::Bool(_) => Ok(Type::Bool),
        Expr::String(_) => Ok(Type::String),
        Expr::Var(v) => match assoc_get(env, v@) {
            Some(t) => Ok(t),
            None => Err(CompileErrorModel::Type("unknown variable: "@ + v@)),
        },
        Expr::Binary { lhs, rhs, .. } => match infer_spec(*lhs, env) {
            Err(e) => Err(e),
            Ok(l) => match infer_spec(*rhs, env) {
                Err(e) => Err(e),
                Ok(r) => if l == Type::Int && r == Type::Int {
                    Ok(Type::Int)
                } else {
                    Err(
                        CompileErrorModel::Type(
                            "binary operations currently require Int operands"@,
                        ),
                    )
                },
            },
        },
    }
}

/// The first call-site argument with the given name.
pub open spec fn find_arg(args: Seq<(String, Expr)>, f: Seq<char>) -> Option<Expr>
    decreases args.len(),
{
    if args.len() == 0 {
        None
    } else if args[0].0@ == f {
        Some(args[0].1)
    } else {
        find_arg(args.drop_first(), f)
    }
}

/// Check every declared input field against the call-site arguments; extra
/// arguments at the call site are not rejected.
pub open spec fn check_fields(
    fields: Seq<(Seq<char>, Type)>,
    args: Seq<(String, Expr)>,
    env: Seq<(Seq<char>, Type)>,
) -> Option<CompileErrorModel>
    decreases fields.len(),
{
    if fields.len() == 0 {
        None
    } else {
        let f = fields[0].0;
        let expected = fields[0].1;
        match find_arg(args, f) {
            None => Some(CompileErrorModel::Type("missing required tool field: "@ + f)),
            Some(expr) => match infer_spec(expr, env) {
                Err(e) => Some(e),
                Ok(actual) => if actual != expected {
                    Some(
                        CompileErrorModel::Type(
                            "tool field "@ + f + " expected "@ + ty_text(expected) + ", got "@
                                + ty_text(actual),
                        ),
                    )
                } else {
                    check_fields(fields.drop_first(), args, env)
                },
            },
        }
    }
}

// ---------------------------------------------------------------------------
// The sorted capability set
// ---------------------------------------------------------------------------

pub open spec fn sorted_strict(s: Seq<Seq<char>>) -> bool {
    forall|i: int, j: int| 0 <= i < j < s.len() ==> seq_lt(s[i], s[j])
}

/// Insert a capability into an ascending list, keeping it sorted and
/// deduplicated.
pub open spec fn insert_sorted(caps: Seq<Seq<char>>, c: Seq<char>) -> Seq<Seq<char>>
    decreases caps.len(),
{
    if caps.len() == 0 {
        seq![c]
    } else if seq_lt(c, caps[0]) {
        seq![c] + caps
    } else if c == caps[0] {
        caps
    } else {
        seq![caps[0]] + insert_sorted(caps.drop_first(), c)
    }
}

/// Inserting into a strictly ascending list keeps it strictly ascending,
/// and adds exactly the new element to the members.
pub proof fn lemma_insert_sorted(s: Seq<Seq<char>>, c: Seq<char>)
    ensures
        sorted_strict(s) ==> sorted_strict(insert_sorted(s, c)),
        forall|x: Seq<char>|
            #[trigger] insert_sorted(s, c).contains(x) <==> s.contains(x) || x == c,
    decreases s.len(),
{
    let r = insert_sorted(s, c);
    if s.len() == 0 {
        assert(r == seq![c]);
        assert(r[0] == c);
        assert forall|x: Seq<char>| #[trigger] r.contains(x) <==> s.contains(x) || x == c by {
            if x == c {
                assert(r[0] == x);
                assert(r.contains(x));
            }
            if r.contains(x) {
                let i = choose|i: int| 0 <= i < r.len() && r[i] == x;
                assert(x == c);
            }
        }
    } else if seq_lt(c, s[0]) {
        assert(r == seq![c] + s);
        if sorted_strict(s) {
            assert forall|i: int, j: int| 0 <= i < j < r.len() implies seq_lt(r[i], r[j]) by {
                if i == 0 {
                    assert(r[0] == c);
                    assert(r[j] == s[j - 1]);
                    if j == 1 {
                        assert(seq_lt(c, s[0]));
                    } else {
                        lemma_seq_lt_trans(c, s[0], s[j - 1]);
                    }
                } else {
                    assert(r[i] == s[i - 1]);
                    assert(r[j] == s[j - 1]);
                }
            }
        }
        assert forall|x: Seq<char>| #[trigger] r.contains(x) <==> s.contains(x) || x == c by {
            if r.contains(x) {
                let i = choose|i: int| 0 <= i < r.len() && r[i] == x;
                if i == 0 {
                    assert(x == c);
                } else {
                    assert(s[i - 1] == x);
                    assert(s.contains(x));
                }
            }
            if x == c {
                assert(r[0] == x);
                assert(r.contains(x));
            }
            if s.contains(x) {
                let i = choose|i: int| 0 <= i < s.len() && s[i] == x;
                assert(r[i + 1] == x);
                assert(r.contains(x));
            }
        }
    } else if c == s[0] {
        assert(r == s);
        assert forall|x: Seq<char>| #[trigger] r.contains(x) <==> s.contains(x) || x == c by {
            if x == c {
                assert(s[0] == x);
                assert(s.contains(x));
            }
        }
    } else {
        lemma_seq_lt_trichotomy(c, s[0]);
        assert(seq_lt(s[0], c));
        lemma_insert_sorted(s.drop_first(), c);
        let rr = insert_sorted(s.drop_first(), c);
        assert(r == seq![s[0]] + rr);
        assert(forall|i: int| 0 <= i < s.drop_first().len() ==> #[trigger] s.drop_first()[i] == s[
            i + 1
        ]);
        if sorted_strict(s) {
            assert(sorted_strict(s.drop_first()));
            assert forall|i: int, j: int| 0 <= i < j < r.len() implies seq_lt(r[i], r[j]) by {
                if i == 0 {
                    assert(r[0] == s[0]);
                    assert(r[j] == rr[j - 1]);
                    assert(rr.contains(rr[j - 1]));
                    if rr[j - 1] == c {
                        assert(seq_lt(s[0], c));
                    } else {
                        assert(s.drop_first().contains(rr[j - 1]));
                        let k = choose|k: int|
                            0 <= k < s.drop_first().len() && s.drop_first()[k] == rr[j - 1];
                        assert(s[k + 1] == rr[j - 1]);
                        assert(seq_lt(s[0], s[k + 1]));
                    }
                } else {
                    assert(r[i] == rr[i - 1]);
                    assert(r[j] == rr[j - 1]);
                }
            }
        }
        assert forall|x: Seq<char>| #[trigger] r.contains(x) <==> s.contains(x) || x == c by {
            if r.contains(x) {
                let i = choose|i: int| 0 <= i < r.len() && r[i] == x;
                if i == 0 {
                    assert(s[0] == x);
                    assert(s.contains(x));
                } else {
                    assert(rr[i - 1] == x);
                    assert(rr.contains(x));
                    if x != c {
                        assert(s.drop_first().contains(x));
                        let k = choose|k: int|
                            0 <= k < s.drop_first().len() && s.drop_first()[k] == x;
                        assert(s[k + 1] == x);
                        assert(s.contains(x));
                    }
                }
            }
            if x == c {
                assert(rr.contains(x));
                let k = choose|k: int| 0 <= k < rr.len() && rr[k] == x;
                assert(r[k + 1] == x);
                assert(r.contains(x));
            }
            if s.contains(x) {
                let i = choose|i: int| 0 <= i < s.len() && s[i] == x;
                if i == 0 {
                    assert(r[0] == x);
                    assert(r.contains(x));
                } else {
                    assert(s.drop_first()[i - 1] == x);
                    assert(s.drop_first().contains(x));
                    assert(rr.contains(x));
                    let k = choose|k: int| 0 <= k < rr.len() && rr[k] == x;
                    assert(r[k + 1] == x);
                    assert(r.contains(x));
                }
            }
        }
    }
}

// ---------------------------------------------------------------------------
// The model of statement checking
// ---------------------------------------------------------------------------

/// Second pass: check statements in source order, threading the variable
/// environment, the overall effect and the sorted capability set.
pub open spec fn check_stmts(
    stmts: Seq<Stmt>,
    sigs: Seq<(Seq<char>, SignatureModel)>,
    env: Seq<(Seq<char>, Type)>,
    effect: Effect,
    caps: Seq<Seq<char>>,
) -> Result<(Effect, Seq<Seq<char>>), CompileErrorModel>
    decreases stmts.len(),
{
    if stmts.len() == 0 {
        Ok((effect, caps))
    } else {
        match stmts[0] {
            Stmt::ToolDecl { .. } => check_stmts(stmts.drop_first(), sigs, env, effect, caps),
            Stmt::Let { name, expr } => match infer_spec(expr, env) {
                Err(e) => Err(e),
                Ok(t) => check_stmts(stmts.drop_first(), sigs, env.push((name@, t)), effect, caps),
            },
            Stmt::Print { expr } => match infer_spec(expr, env) {
                Err(e) => Err(e),
                Ok(_) => check_stmts(stmts.drop_first(), sigs, env, effect, caps),
            },
            Stmt::ToolCall { tool, input, cap, .. } => match assoc_get(sigs, tool@) {
                None => Err(CompileErrorModel::Type("unknown tool declaration: "@ + tool@)),
                Some(sig) => if sig.cap != cap@ {
                    Err(
                        CompileErrorModel::Type(
                            "tool "@ + tool@ + " requires cap "@ + sig.cap + ", got "@ + cap@,
                        ),
                    )
                } else {
                    match check_fields(sig.input, input@, env) {
                        Some(e) => Err(e),
                        None => check_stmts(
                            stmts.drop_first(),
                            sigs,
                            env,
                            Effect::Tool,
                            insert_sorted(caps, cap@),
                        ),
                    }
                },
            },
        }
    }
}

/// What the whole checker yields: the effect, the signature table and the
/// sorted capability list, or the first error.
pub open spec fn typecheck_spec(stmts: Seq<Stmt>) -> Result<
    (Effect, Seq<(Seq<char>, SignatureModel)>, Seq<Seq<char>>),
    CompileErrorModel,
> {
    let sigs = collect_sigs(stmts);
    match check_stmts(stmts, sigs, Seq::empty(), Effect::Pure, Seq::empty()) {
        Ok((eff, caps)) => Ok((eff, sigs, caps)),
        Err(e) => Err(e),
    }
}

pub open spec fn has_tool_call(stmts: Seq<Stmt>) -> bool {
    exists|i: int| 0 <= i < stmts.len() && #[trigger] stmts[i] is ToolCall
}

pub open spec fn cap_required(stmts: Seq<Stmt>, x: Seq<char>) -> bool {
    exists|i: int|
        0 <= i < stmts.len() && (#[trigger] stmts[i] matches Stmt::ToolCall { cap, .. } && cap@
            == x)
}

/// On success the checker's effect is `Tool` exactly when a tool call
/// occurs, its capability list stays strictly ascending, and the list holds
/// exactly the capabilities of the program's tool calls.
pub proof fn lemma_check_stmts(
    stmts: Seq<Stmt>,
    sigs: Seq<(Seq<char>, SignatureModel)>,
    env: Seq<(Seq<char>, Type)>,
    effect: Effect,
    caps: Seq<Seq<char>>,
)
    ensures
        match check_stmts(stmts, sigs, env, effect, caps) {
            Ok(out) => {
                &&& (out.0 == Effect::Tool <==> effect == Effect::Tool || has_tool_call(stmts))
                &&& (sorted_strict(caps) ==> sorted_strict(out.1))
                &&& forall|x: Seq<char>|
                    #[trigger] out.1.contains(x) <==> caps.contains(x) || cap_required(stmts, x)
            },
            Err(_) => true,
        },
    decreases stmts.len(),
{
    if stmts.len() == 0 {
        if check_stmts(stmts, sigs, env, effect, caps) is Ok {
            assert(!has_tool_call(stmts));
            assert(forall|x: Seq<char>| !cap_required(stmts, x));
        }
    } else {
        let rest = stmts.drop_first();
        assert(forall|i: int| 0 <= i < rest.len() ==> #[trigger] rest[i] == stmts[i + 1]);
        assert(has_tool_call(stmts) <==> stmts[0] is ToolCall || has_tool_call(rest)) by {
            if has_tool_call(stmts) {
                let i = choose|i: int| 0 <= i < stmts.len() && #[trigger] stmts[i] is ToolCall;
                if i > 0 {
                    assert(rest[i - 1] is ToolCall);
                }
            }
            if has_tool_call(rest) {
                let i = choose|i: int| 0 <= i < rest.len() && #[trigger] rest[i] is ToolCall;
                assert(stmts[i + 1] is ToolCall);
            }
        }
        assert forall|x: Seq<char>|
            cap_required(stmts, x) <==> (stmts[0] matches Stmt::ToolCall { cap, .. } && cap@ == x)
                || cap_required(rest, x) by {
            if cap_required(stmts, x) {
                let i = choose|i: int|
                    0 <= i < stmts.len() && (#[trigger] stmts[i] matches Stmt::ToolCall {
                        cap,
                        ..
                    } && cap@ == x);
                if i > 0 {
                    assert(rest[i - 1] matches Stmt::ToolCall { cap, .. } && cap@ == x);
                }
            }
            if cap_required(rest, x) {
                let i = choose|i: int|
                    0 <= i < rest.len() && (#[trigger] rest[i] matches Stmt::ToolCall {
                        cap,
                        ..
                    } && cap@ == x);
                assert(stmts[i + 1] matches Stmt::ToolCall { cap, .. } && cap@ == x);
            }
        }
        match stmts[0] {
            Stmt::ToolDecl { .. } => {
                lemma_check_stmts(rest, sigs, env, effect, caps);
            },
            Stmt::Let { name, expr } => {
                match infer_spec(expr, env) {
                    Err(_) => {},
                    Ok(t) => {
                        lemma_check_stmts(rest, sigs, env.push((name@, t)), effect, caps);
                    },
                }
            },
            Stmt::Print { expr } => {
                match infer_spec(expr, env) {
                    Err(_) => {},
                    Ok(_) => {
                        lemma_check_stmts(rest, sigs, env, effect, caps);
                    },
                }
            },
            Stmt::ToolCall { tool, input, cap, .. } => {
                match assoc_get(sigs, tool@) {
                    None => {},
                    Some(sig) => {
                        if sig.cap == cap@ {
                            match check_fields(sig.input, input@, env) {
                                Some(_) => {},
                                None => {
                                    lemma_insert_sorted(caps, cap@);
                                    lemma_check_stmts(
                                        rest,
                                        sigs,
                                        env,
                                        Effect::Tool,
                                        insert_sorted(caps, cap@),
                                    );
                                },
                            }
                        }
                    },
                }
            },
        }
    }
}

// ---------------------------------------------------------------------------
// The executable checker
// ---------------------------------------------------------------------------

/// Insert or replace one field binding in an association list with unique
/// keys.
#[verifier::loop_isolation(false)]
fn set_field(v: &mut Vec<(String, Type)>, k: String, t: Type)
    ensures
        fields_view(final(v)@) == field_set(fields_view(old(v)@), k@, t),
{
    let ghost orig = fields_view(old(v)@);
    let mut j: usize = 0;
    proof {
        assert(orig.skip(0) =~= orig);
        assert(orig.take(0) + field_set(orig, k@, t) =~= field_set(orig, k@, t));
    }
    while j < v.len()
        invariant
            0 <= j <= v.len(),
            v@ == old(v)@,
            field_set(orig, k@, t) == fields_view(v@).take(j as int) + field_set(
                fields_view(v@).skip(j as int),
                k@,
                t,
            ),
        decreases v.len() - j,
    {
        let ghost svs = fields_view(v@);
        proof {
            assert(svs.skip(j as int)[0] == svs[j as int]);
            assert(svs.skip(j as int).drop_first() =~= svs.skip(j + 1));
        }
        if v[j].0 == k {
            proof {
                assert(svs[j as int].0 == k@);
                assert(field_set(svs.skip(j as int), k@, t) == svs.skip(j + 1).push((k@, t)));
            }
            v.remove(j);
            v.push((k, t));
            proof {
                assert(fields_view(v@) =~= svs.take(j as int) + svs.skip(j + 1).push((k@, t)));
            }
            return;
        }
        proof {
            assert(svs[j as int].0 != k@);
            assert(field_set(svs.skip(j as int), k@, t) == seq![svs[j as int]] + field_set(
                svs.skip(j + 1),
                k@,
                t,
            ));
            assert(svs.take(j as int) + (seq![svs[j as int]] + field_set(svs.skip(j + 1), k@, t))
                =~= svs.take(j + 1) + field_set(svs.skip(j + 1), k@, t));
        }
        j = j + 1;
    }
    proof {
        assert(fields_view(v@).skip(v@.len() as int) =~= Seq::<(Seq<char>, Type)>::empty());
        assert(field_set(Seq::<(Seq<char>, Type)>::empty(), k@, t) == seq![(k@, t)]);
    }
    let ghost svs2 = fields_view(v@);
    v.push((k, t));
    proof {
        assert(svs2.take(v@.len() - 1) =~= svs2);
        assert(fields_view(v@) =~= svs2 + seq![(k@, t)]);
    }
}


/// Project a declaration field list into a field mapping with unique keys;
/// the later of two same-named fields wins.
fn build_fields(l: &Vec<(String, Type)>) -> (r: Vec<(String, Type)>)
    ensures
        fields_view(r@) == fields_map(l@),
{
    let mut out: Vec<(String, Type)> = Vec::new();
    proof {
        assert(fields_view(out@) =~= Seq::<(Seq<char>, Type)>::empty());
        assert(l@.take(0) =~= Seq::<(String, Type)>::empty());
    }
    let mut i: usize = 0;
    while i < l.len()
        invariant
            0 <= i <= l.len(),
            fields_view(out@) == fields_map(l@.take(i as int)),
        decreases l.len() - i,
    {
        let k = l[i].0.clone();
        let t = l[i].1;
        proof {
            assert(l@.take(i + 1).drop_last() =~= l@.take(i as int));
            assert(l@.take(i + 1).last() == l@[i as int]);
        }
        set_field(&mut out, k, t);
        i = i + 1;
    }
    assert(l@.take(l@.len() as int) =~= l@);
    out
}

/// Look a variable up in the environment; the last binding wins.
fn lookup_type(env: &Vec<(String, Type)>, k: &String) -> (r: Option<Type>)
    ensures
        r == assoc_get(fields_view(env@), k@),
{
    let mut i: usize = env.len();
    proof {
        assert(fields_view(env@).take(env@.len() as int) =~= fields_view(env@));
    }
    while i > 0
        invariant
            0 <= i <= env.len(),
            assoc_get(fields_view(env@), k@) == assoc_get(fields_view(env@).take(i as int), k@),
        decreases i,
    {
        i = i - 1;
        let ghost pre = fields_view(env@).take(i + 1);
        proof {
            assert(pre.drop_last() =~= fields_view(env@).take(i as int));
            assert(pre.last() == fields_view(env@)[i as int]);
        }
        if env[i].0 == *k {
            return Some(env[i].1);
        }
    }
    proof {
        assert(fields_view(env@).take(0) =~= Seq::<(Seq<char>, Type)>::empty());
    }
    None
}

/// Look a tool signature up by name; the last declaration wins.
pub(crate) fn lookup_sig<'a>(tools: &'a Vec<(String, ToolSignature)>, k: &String) -> (r: Option<
    &'a ToolSignature,
>)
    ensures
        match r {
            Some(sig) => assoc_get(sigs_view(tools@), k@) == Some(sig@),
            None => assoc_get(sigs_view(tools@), k@) is None,
        },
{
    let mut i: usize = tools.len();
    proof {
        assert(sigs_view(tools@).take(tools@.len() as int) =~= sigs_view(tools@));
    }
    while i > 0
        invariant
            0 <= i <= tools.len(),
            assoc_get(sigs_view(tools@), k@) == assoc_get(sigs_view(tools@).take(i as int), k@),
        decreases i,
    {
        i = i - 1;
        let ghost pre = sigs_view(tools@).take(i + 1);
        proof {
            assert(pre.drop_last() =~= sigs_view(tools@).take(i as int));
            assert(pre.last() == sigs_view(tools@)[i as int]);
        }
        if tools[i].0 == *k {
            return Some(&tools[i].1);
        }
    }
    proof {
        assert(sigs_view(tools@).take(0) =~= Seq::<(Seq<char>, SignatureModel)>::empty());
    }
    None
}

/// The first call-site argument with the given name.
fn find_arg_exec<'a>(args: &'a Vec<(String, Expr)>, f: &String) -> (r: Option<&'a Expr>)
    ensures
        match r {
            Some(e) => find_arg(args@, f@) == Some(*e),
            None => find_arg(args@, f@) is None,
        },
{
    let mut i: usize = 0;
    proof {
        assert(args@.skip(0) =~= args@);
    }
    while i < args.len()
        invariant
            0 <= i <= args.len(),
            find_arg(args@, f@) == find_arg(args@.skip(i as int), f@),
        decreases args.len() - i,
    {
        proof {
            assert(args@.skip(i as int)[0] == args@[i as int]);
            assert(args@.skip(i as int).drop_first() =~= args@.skip(i + 1));
        }
        if args[i].0 == *f {
            return Some(&args[i].1);
        }
        i = i + 1;
    }
    proof {
        assert(args@.skip(args@.len() as int) =~= Seq::<(String, Expr)>::empty());
    }
    None
}

fn ty_text_exec(t: Type) -> (r: String)
    ensures
        r@ == ty_text(t),
{
    match t {
        Type::Int => String::from_str("Int"),
        Type::Bool => String::from_str("Bool"),
        Type::String => String::from_str("String"),
    }
}

/// Infer the type of an expression under the environment.
fn infer_expr(expr: &Expr, env: &Vec<(String, Type)>) -> (r: Result<Type, CompileError>)
    ensures
        match r {
            Ok(t) => infer_spec(*expr, fields_view(env@)) == Ok::<Type, CompileErrorModel>(t),
            Err(e) => infer_spec(*expr, fields_view(env@)) == Err::<Type, CompileErrorModel>(e@),
        },
    decreases *expr,
{
    match expr {
        Expr::Int(_) => Ok(Type::Int),
        Expr::Bool(_) => Ok(Type::Bool),
        Expr::String(_) => Ok(Type::String),
        Expr::Var(v) => match lookup_type(env, v) {
            Some(t) => Ok(t),
            None => {
                let mut m = String::from_str("unknown variable: ");
                m.append(v.as_str());
                Err(CompileError::Type(m))
            },
        },
        Expr::Binary { lhs, rhs, .. } => match infer_expr(lhs, env) {
            Err(e) => Err(e),
            Ok(l) => match infer_expr(rhs, env) {
                Err(e) => Err(e),
                Ok(rt) => {
                    if l == Type::Int && rt == Type::Int {
                        Ok(Type::Int)
                    } else {
                        Err(
                            CompileError::Type(
                                String::from_str(
                                    "binary operations currently require Int operands",
                                ),
                            ),
                        )
                    }
                },
            },
        },
    }
}

/// Check every declared input field of a signature against the call site.
fn check_fields_exec(
    fields: &Vec<(String, Type)>,
    args: &Vec<(String, Expr)>,
    env: &Vec<(String, Type)>,
) -> (r: Option<CompileError>)
    ensures
        match r {
            Some(e) => check_fields(fields_view(fields@), args@, fields_view(env@)) == Some(e@),
            None => check_fields(fields_view(fields@), args@, fields_view(env@)) is None,
        },
{
    let ghost fv = fields_view(fields@);
    let mut i: usize = 0;
    proof {
        assert(fv.skip(0) =~= fv);
    }
    while i < fields.len()
        invariant
            0 <= i <= fields.len(),
            fv == fields_view(fields@),
            check_fields(fv, args@, fields_view(env@)) == check_fields(
                fv.skip(i as int),
                args@,
                fields_view(env@),
            ),
        decreases fields.len() - i,
    {
        proof {
            assert(fv.skip(i as int)[0] == fv[i as int]);
            assert(fv.skip(i as int).drop_first() =~= fv.skip(i + 1));
        }
        let f = &fields[i].0;
        let expected = fields[i].1;
        match find_arg_exec(args, f) {
            None => {
                let mut m = String::from_str("missing required tool field: ");
                m.append(f.as_str());
                return Some(CompileError::Type(m));
            },
            Some(expr) => {
                match infer_expr(expr, env) {
                    Err(e) => {
                        return Some(e);
                    },
                    Ok(actual) => {
                        if !(actual == expected) {
                            let mut m = String::from_str("tool field ");
                            m.append(f.as_str());
                            m.append(" expected ");
                            let en = ty_text_exec(expected);
                            m.append(en.as_str());
                            m.append(", got ");
                            let an = ty_text_exec(actual);
                            m.append(an.as_str());
                            return Some(CompileError::Type(m));
                        }
                    },
                }
            },
        }
        i = i + 1;
    }
    proof {
        assert(fv.skip(fv.len() as int) =~= Seq::<(Seq<char>, Type)>::empty());
    }
    None
}

/// Insert a capability into the ascending capability list, skipping
/// duplicates.
#[verifier::loop_isolation(false)]
fn insert_cap(caps: &mut Vec<String>, c: String)
    ensures
        seq_views(final(caps)@) == insert_sorted(seq_views(old(caps)@), c@),
{
    let ghost orig = seq_views(old(caps)@);
    let mut j: usize = 0;
    proof {
        assert(orig.skip(0) =~= orig);
        assert(orig.take(0) + orig =~= orig);
    }
    while j < caps.len()
        invariant
            0 <= j <= caps.len(),
            caps@ == old(caps)@,
            insert_sorted(orig, c@) == seq_views(caps@).take(j as int) + insert_sorted(
                seq_views(caps@).skip(j as int),
                c@,
            ),
        decreases caps.len() - j,
    {
        let ghost svs = seq_views(caps@);
        proof {
            assert(svs.skip(j as int)[0] == svs[j as int]);
            assert(svs.skip(j as int).drop_first() =~= svs.skip(j + 1));
        }
        if str_lt_exec(&caps[j], &c) {
            proof {
                lemma_seq_lt_trichotomy(c@, svs[j as int]);
                assert(insert_sorted(svs.skip(j as int), c@) == seq![svs[j as int]]
                    + insert_sorted(svs.skip(j + 1), c@));
                assert(svs.take(j as int) + (seq![svs[j as int]] + insert_sorted(
                    svs.skip(j + 1),
                    c@,
                )) =~= svs.take(j + 1) + insert_sorted(svs.skip(j + 1), c@));
            }
            j = j + 1;
        } else if caps[j] == c {
            proof {
                lemma_seq_lt_trichotomy(c@, svs[j as int]);
                assert(insert_sorted(svs.skip(j as int), c@) == svs.skip(j as int));
                assert(svs.take(j as int) + svs.skip(j as int) =~= svs);
            }
            return;
        } else {
            proof {
                lemma_seq_lt_trichotomy(c@, svs[j as int]);
                assert(seq_lt(c@, svs[j as int]));
                assert(insert_sorted(svs.skip(j as int), c@) == seq![c@] + svs.skip(j as int));
            }
            caps.insert(j, c);
            proof {
                assert(seq_views(caps@) =~= svs.take(j as int) + (seq![c@] + svs.skip(j as int)));
            }
            return;
        }
    }
    proof {
        assert(seq_views(caps@).skip(caps@.len() as int) =~= Seq::<Seq<char>>::empty());
        assert(insert_sorted(Seq::<Seq<char>>::empty(), c@) == seq![c@]);
        assert(seq_views(caps@).take(caps@.len() as int) =~= seq_views(caps@));
    }
    let ghost svs2 = seq_views(caps@);
    caps.push(c);
    proof {
        assert(seq_views(caps@) =~= svs2 + seq![c@]);
    }
}

/// Lift a parsed program to a typed program: collect tool signatures, check
/// statements in source order, and derive the effect and the sorted,
/// deduplicated capability manifest.
#[verifier::loop_isolation(false)]
pub fn typecheck(program: Program) -> (r: Result<TypedProgram, CompileError>)
    ensures
        match r {
            Ok(tp) => {
                &&& typecheck_spec(program@) matches Ok(m) && m.0 == tp.effect && m.1 == sigs_view(
                    tp.tools@,
                ) && m.2 == tp.manifest@
                &&& tp.program == program
                &&& (tp.effect == Effect::Tool <==> has_tool_call(program@))
                &&& sorted_strict(tp.manifest@)
                &&& forall|x: Seq<char>|
                    #[trigger] tp.manifest@.contains(x) <==> cap_required(program@, x)
            },
            Err(e) => typecheck_spec(program@) matches Err(me) && me == e@,
        },
{
    let ghost p_seq = program@;
    let mut tools: Vec<(String, ToolSignature)> = Vec::new();
    proof {
        assert(sigs_view(tools@) =~= Seq::<(Seq<char>, SignatureModel)>::empty());
        assert(p_seq.take(0) =~= Seq::<Stmt>::empty());
    }
    let mut i: usize = 0;
    while i < program.statements.len()
        invariant
            0 <= i <= program.statements.len(),
            p_seq == program@,
            sigs_view(tools@) == collect_sigs(p_seq.take(i as int)),
        decreases program.statements.len() - i,
    {
        proof {
            assert(p_seq.take(i + 1).drop_last() =~= p_seq.take(i as int));
            assert(p_seq.take(i + 1).last() == p_seq[i as int]);
        }
        match &program.statements[i] {
            Stmt::ToolDecl { name, input, output, cap } => {
                let sig = ToolSignature {
                    input: build_fields(input),
                    output: build_fields(output),
                    cap: cap.clone(),
                };
                let ghost sv0 = sigs_view(tools@);
                let ghost sm = sig@;
                tools.push((name.clone(), sig));
                proof {
                    assert(sigs_view(tools@) =~= sv0.push((name@, sm)));
                }
            },
            _ => {},
        }
        i = i + 1;
    }
    proof {
        assert(p_seq.take(p_seq.len() as int) =~= p_seq);
    }
    let ghost sigs_m = collect_sigs(p_seq);
    let mut env: Vec<(String, Type)> = Vec::new();
    let mut caps: Vec<String> = Vec::new();
    let mut effect = Effect::Pure;
    proof {
        assert(fields_view(env@) =~= Seq::<(Seq<char>, Type)>::empty());
        assert(seq_views(caps@) =~= Seq::<Seq<char>>::empty());
        assert(p_seq.skip(0) =~= p_seq);
    }
    let mut j: usize = 0;
    while j < program.statements.len()
        invariant
            0 <= j <= program.statements.len(),
            p_seq == program@,
            sigs_view(tools@) == sigs_m,
            sigs_m == collect_sigs(p_seq),
            check_stmts(
                p_seq,
                sigs_m,
                Seq::<(Seq<char>, Type)>::empty(),
                Effect::Pure,
                Seq::<Seq<char>>::empty(),
            ) == check_stmts(
                p_seq.skip(j as int),
                sigs_m,
                fields_view(env@),
                effect,
                seq_views(caps@),
            ),
        decreases program.statements.len() - j,
    {
        let ghost rem = p_seq.skip(j as int);
        proof {
            assert(rem[0] == p_seq[j as int]);
            assert(rem.drop_first() =~= p_seq.skip(j + 1));
        }
        match &program.statements[j] {
            Stmt::ToolDecl { .. } => {},
            Stmt::Let { name, expr } => {
                match infer_expr(expr, &env) {
                    Err(e) => {
                        return Err(e);
                    },
                    Ok(t) => {
                        let ghost ev0 = fields_view(env@);
                        env.push((name.clone(), t));
                        proof {
                            assert(fields_view(env@) =~= ev0.push((name@, t)));
                        }
                    },
                }
            },
            Stmt::Print { expr } => {
                match infer_expr(expr, &env) {
                    Err(e) => {
                        return Err(e);
                    },
                    Ok(_) => {},
                }
            },
            Stmt::ToolCall { tool, input, cap, .. } => {
                match lookup_sig(&tools, tool) {
                    None => {
                        let mut m = String::from_str("unknown tool declaration: ");
                        m.append(tool.as_str());
                        return Err(CompileError::Type(m));
                    },
                    Some(sig) => {
                        if !(sig.cap == *cap) {
                            let mut m = String::from_str("tool ");
                            m.append(tool.as_str());
                            m.append(" requires cap ");
                            m.append(sig.cap.as_str());
                            m.append(", got ");
                            m.append(cap.as_str());
                            return Err(CompileError::Type(m));
                        }
                        match check_fields_exec(&sig.input, input, &env) {
                            Some(e) => {
                                return Err(e);
                            },
                            None => {
                                effect = Effect::Tool;
                                insert_cap(&mut caps, cap.clone());
                            },
                        }
                    },
                }
            },
        }
        j = j + 1;
    }
    proof {
        assert(p_seq.skip(p_seq.len() as int) =~= Seq::<Stmt>::empty());
        lemma_check_stmts(
            p_seq,
            sigs_m,
            Seq::<(Seq<char>, Type)>::empty(),
            Effect::Pure,
            Seq::<Seq<char>>::empty(),
        );
        assert forall|x: Seq<char>| !Seq::<Seq<char>>::empty().contains(x) by {}
        assert(sorted_strict(Seq::<Seq<char>>::empty()));
    }
    let manifest = CapabilityManifest { required_caps: caps };
    let tp = TypedProgram { program, effect, tools, manifest };
    Ok(tp)
}

} // verus!

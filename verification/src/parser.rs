//! The line-oriented recursive-descent parser for the surface syntax. The
//! core consumes its AST; the grammar itself is a front-end concern, so the
//! parser's contracts stop at totality and termination. Whitespace here is
//! the ASCII space, tab and carriage return.

use vstd::prelude::*;
use vstd::string::StringExecFns;
use crate::ast::{Program, Stmt, Expr, BinOp, Type};
use crate::error::CompileError;
use crate::replay::{split_chars, chars_eq_lit};
use crate::text::{str_to_chars, chars_to_string, u64_to_dec, parse_u64_chars};

verus! {

fn is_space_char(c: char) -> bool {
    c == ' ' || c == '\t' || c == '\r'
}

/// Copy with leading and trailing whitespace removed.
fn trim_chars(v: &Vec<char>) -> (r: Vec<char>)
    ensures
        r@.len() <= v@.len(),
{
    let mut lo: usize = 0;
    let mut hi: usize = v.len();
    while lo < hi && is_space_char(v[lo])
        invariant
            0 <= lo <= hi <= v.len(),
        decreases hi - lo,
    {
        lo = lo + 1;
    }
    while hi > lo && is_space_char(v[hi - 1])
        invariant
            0 <= lo <= hi <= v.len(),
        decreases hi,
    {
        hi = hi - 1;
    }
    let mut out: Vec<char> = Vec::new();
    let mut i: usize = lo;
    while i < hi
        invariant
            lo <= i <= hi <= v.len(),
            out@.len() == i - lo,
        decreases hi - i,
    {
        out.push(v[i]);
        i = i + 1;
    }
    out
}

/// Copy with every trailing semicolon removed.
fn trim_end_semis(v: &Vec<char>) -> (r: Vec<char>)
    ensures
        r@.len() <= v@.len(),
{
    let mut hi: usize = v.len();
    while hi > 0 && v[hi - 1] == ';'
        invariant
            0 <= hi <= v.len(),
        decreases hi,
    {
        hi = hi - 1;
    }
    let mut out: Vec<char> = Vec::new();
    let mut i: usize = 0;
    while i < hi
        invariant
            0 <= i <= hi <= v.len(),
            out@.len() == i,
        decreases hi - i,
    {
        out.push(v[i]);
        i = i + 1;
    }
    out
}

fn starts_with_lit(v: &Vec<char>, lit: &str) -> bool {
    let lv = str_to_chars(lit);
    if v.len() < lv.len() {
        return false;
    }
    let mut i: usize = 0;
    while i < lv.len()
        invariant
            0 <= i <= lv.len(),
            lv.len() <= v.len(),
        decreases lv.len() - i,
    {
        if v[i] != lv[i] {
            return false;
        }
        i = i + 1;
    }
    true
}

/// The rest of `v` after the literal prefix, when it is present.
fn strip_prefix_lit(v: &Vec<char>, lit: &str) -> (r: Option<Vec<char>>)
    ensures
        match r {
            Some(t) => t@.len() <= v@.len(),
            None => true,
        },
{
    let lv = str_to_chars(lit);
    if !starts_with_lit(v, lit) {
        return None;
    }
    if v.len() < lv.len() {
        return None;
    }
    let mut out: Vec<char> = Vec::new();
    let mut i: usize = lv.len();
    while i < v.len()
        invariant
            0 <= i <= v.len(),
            out@.len() <= i,
        decreases v.len() - i,
    {
        out.push(v[i]);
        i = i + 1;
    }
    Some(out)
}

/// Split at the first occurrence of one character; both halves are
/// strictly shorter than the input.
fn split_once_char(v: &Vec<char>, c: char) -> (r: Option<(Vec<char>, Vec<char>)>)
    ensures
        match r {
            Some(p) => p.0@.len() < v@.len() && p.1@.len() < v@.len(),
            None => true,
        },
{
    let mut i: usize = 0;
    while i < v.len()
        invariant
            0 <= i <= v.len(),
        decreases v.len() - i,
    {
        if v[i] == c {
            let mut before: Vec<char> = Vec::new();
            let mut j: usize = 0;
            while j < i
                invariant
                    0 <= j <= i < v@.len(),
                    before@.len() == j,
                decreases i - j,
            {
                before.push(v[j]);
                j = j + 1;
            }
            let mut after: Vec<char> = Vec::new();
            let mut k: usize = i + 1;
            while k < v.len()
                invariant
                    i < k <= v@.len() || k == i + 1,
                    i < v@.len(),
                    after@.len() == k - i - 1,
                decreases v.len() - k,
            {
                after.push(v[k]);
                k = k + 1;
            }
            return Some((before, after));
        }
        i = i + 1;
    }
    None
}

/// Split at the first occurrence of a literal; the literal is dropped.
#[verifier::loop_isolation(false)]
fn split_once_lit(v: &Vec<char>, lit: &str) -> (r: Option<(Vec<char>, Vec<char>)>) {
    let lv = str_to_chars(lit);
    if lv.len() == 0 || v.len() < lv.len() {
        return None;
    }
    let bound = v.len() - lv.len();
    let mut i: usize = 0;
    while i <= bound
        invariant
            lv@.len() >= 1,
            lv@.len() <= v@.len(),
            bound == v@.len() - lv@.len(),
            0 <= i <= bound + 1,
        decreases bound + 1 - i,
    {
        let mut j: usize = 0;
        let mut matched = true;
        while matched && j < lv.len()
            invariant
                0 <= j <= lv@.len(),
                0 <= i <= v@.len() - lv@.len(),
            decreases lv.len() - j, (if matched { 1int } else { 0int }),
        {
            if v[i + j] != lv[j] {
                matched = false;
            } else {
                j = j + 1;
            }
        }
        if matched {
            let mut before: Vec<char> = Vec::new();
            let mut a: usize = 0;
            while a < i
                invariant
                    0 <= a <= i <= v@.len(),
                    before@.len() == a,
                decreases i - a,
            {
                before.push(v[a]);
                a = a + 1;
            }
            let mut after: Vec<char> = Vec::new();
            let mut b: usize = i + lv.len();
            while b < v.len()
                invariant
                    0 <= b <= v@.len() || b == i + lv@.len(),
                decreases v.len() - b,
            {
                after.push(v[b]);
                b = b + 1;
            }
            return Some((before, after));
        }
        if i == bound {
            return None;
        }
        i = i + 1;
    }
    None
}

/// Parse a decimal `i64` with an optional leading minus.
fn parse_i64_chars(v: &Vec<char>) -> Option<i64> {
    if v.len() == 0 {
        return None;
    }
    if v[0] == '-' {
        let mut mag: Vec<char> = Vec::new();
        let mut i: usize = 1;
        while i < v.len()
            invariant
                1 <= i <= v@.len(),
            decreases v.len() - i,
        {
            mag.push(v[i]);
            i = i + 1;
        }
        match parse_u64_chars(&mag) {
            None => None,
            Some(m) => {
                if m == 9223372036854775808u64 {
                    Some(i64::MIN)
                } else if m <= 9223372036854775807u64 {
                    Some(-(m as i64))
                } else {
                    None
                }
            },
        }
    } else {
        match parse_u64_chars(v) {
            None => None,
            Some(m) => {
                if m <= 9223372036854775807u64 {
                    Some(m as i64)
                } else {
                    None
                }
            },
        }
    }
}

/// A "line N: <what>" parse error.
fn parse_err_at(line_no: u64, what: &str) -> CompileError {
    let mut m = String::from_str("line ");
    let n = u64_to_dec(line_no);
    m.append(n.as_str());
    m.append(": ");
    m.append(what);
    CompileError::Parse(m)
}

/// Split at the first top-level occurrence of `needle`: occurrences inside
/// double quotes do not count.
fn split_once_top_level(s: &Vec<char>, needle: char) -> (r: Option<(Vec<char>, Vec<char>)>)
    ensures
        match r {
            Some(p) => p.0@.len() < s@.len() && p.1@.len() < s@.len(),
            None => true,
        },
{
    let mut in_string = false;
    let mut i: usize = 0;
    while i < s.len()
        invariant
            0 <= i <= s.len(),
        decreases s.len() - i,
    {
        let ch = s[i];
        if ch == '"' {
            in_string = !in_string;
        } else if !in_string && ch == needle {
            let mut before: Vec<char> = Vec::new();
            let mut j: usize = 0;
            while j < i
                invariant
                    0 <= j <= i < s@.len(),
                    before@.len() == j,
                decreases i - j,
            {
                before.push(s[j]);
                j = j + 1;
            }
            let mut after: Vec<char> = Vec::new();
            let mut k: usize = i + 1;
            while k < s.len()
                invariant
                    i < k <= s@.len() || k == i + 1,
                    i < s@.len(),
                    after@.len() == k - i - 1,
                decreases s.len() - k,
            {
                after.push(s[k]);
                k = k + 1;
            }
            return Some((before, after));
        }
        i = i + 1;
    }
    None
}

/// Parse one expression: a quoted text literal, a boolean or integer
/// literal, a binary operation split at the first top-level operator, or a
/// variable reference.
fn parse_expr(raw: &Vec<char>) -> (r: Result<Expr, CompileError>)
    decreases raw@.len(),
{
    let t = trim_chars(raw);
    if t.len() >= 1 && t[0] == '"' && t[t.len() - 1] == '"' {
        let mut lo: usize = 0;
        let mut hi: usize = t.len();
        while lo < hi && t[lo] == '"'
            invariant
                0 <= lo <= hi <= t@.len(),
            decreases hi - lo,
        {
            lo = lo + 1;
        }
        while hi > lo && t[hi - 1] == '"'
            invariant
                0 <= lo <= hi <= t@.len(),
            decreases hi,
        {
            hi = hi - 1;
        }
        let mut inner: Vec<char> = Vec::new();
        let mut i: usize = lo;
        while i < hi
            invariant
                lo <= i <= hi <= t@.len(),
            decreases hi - i,
        {
            inner.push(t[i]);
            i = i + 1;
        }
        return Ok(Expr::String(chars_to_string(&inner)));
    }
    if chars_eq_lit(&t, "true") {
        return Ok(Expr::Bool(true));
    }
    if chars_eq_lit(&t, "false") {
        return Ok(Expr::Bool(false));
    }
    match parse_i64_chars(&t) {
        Some(v) => {
            return Ok(Expr::Int(v));
        },
        None => {},
    }
    let ops: [(char, BinOp); 4] = [
        ('+', BinOp::Add),
        ('-', BinOp::Sub),
        ('*', BinOp::Mul),
        ('/', BinOp::Div),
    ];
    let mut oi: usize = 0;
    while oi < 4
        invariant
            0 <= oi <= 4,
            t@.len() <= raw@.len(),
        decreases 4 - oi,
    {
        let (c, op) = ops[oi];
        match split_once_top_level(&t, c) {
            Some(p) => {
                let lhs = match parse_expr(&p.0) {
                    Err(e) => {
                        return Err(e);
                    },
                    Ok(x) => x,
                };
                let rhs = match parse_expr(&p.1) {
                    Err(e) => {
                        return Err(e);
                    },
                    Ok(x) => x,
                };
                return Ok(Expr::Binary { lhs: Box::new(lhs), op, rhs: Box::new(rhs) });
            },
            None => {},
        }
        oi = oi + 1;
    }
    Ok(Expr::Var(chars_to_string(&t)))
}

fn parse_type(raw: &Vec<char>) -> (r: Result<Type, CompileError>) {
    if chars_eq_lit(raw, "Int") {
        Ok(Type::Int)
    } else if chars_eq_lit(raw, "Bool") {
        Ok(Type::Bool)
    } else if chars_eq_lit(raw, "String") {
        Ok(Type::String)
    } else {
        let mut m = String::from_str("unknown type: ");
        let rs = chars_to_string(raw);
        m.append(rs.as_str());
        Err(CompileError::Parse(m))
    }
}

/// Parse `name: Type` pairs separated by commas; empty entries are skipped.
fn parse_typed_fields(raw: &Vec<char>, line_no: u64) -> (r: Result<Vec<(String, Type)>, CompileError>) {
    let mut out: Vec<(String, Type)> = Vec::new();
    let parts = split_chars(raw, ',');
    let mut i: usize = 0;
    while i < parts.len()
        invariant
            0 <= i <= parts@.len(),
        decreases parts.len() - i,
    {
        let part = trim_chars(&parts[i]);
        if part.len() > 0 {
            match split_once_char(&part, ':') {
                None => {
                    return Err(parse_err_at(line_no, "invalid typed field"));
                },
                Some(kv) => {
                    let k = trim_chars(&kv.0);
                    let tv = trim_chars(&kv.1);
                    let ty = match parse_type(&tv) {
                        Err(e) => {
                            return Err(e);
                        },
                        Ok(ty) => ty,
                    };
                    out.push((chars_to_string(&k), ty));
                },
            }
        }
        i = i + 1;
    }
    Ok(out)
}

/// Parse a `{ ... }` section and hand back its inside and the trimmed rest.
fn parse_braced_section(tail: &Vec<char>, line_no: u64) -> (r: Result<
    (Vec<char>, Vec<char>),
    CompileError,
>) {
    let t = trim_chars(tail);
    let t2 = match strip_prefix_lit(&t, "{") {
        None => {
            return Err(parse_err_at(line_no, "expected '{'"));
        },
        Some(x) => x,
    };
    match split_once_char(&t2, '}') {
        None => Err(parse_err_at(line_no, "missing '}'")),
        Some(p) => Ok((p.0, trim_chars(&p.1))),
    }
}

/// Parse a whole program, one statement per line; blank lines and `//`
/// comments are skipped.
pub fn parse_program(src: &str) -> (r: Result<Program, CompileError>) {
    let cs = str_to_chars(src);
    let lines = split_chars(&cs, '\n');
    let mut statements: Vec<Stmt> = Vec::new();
    let mut idx: usize = 0;
    while idx < lines.len()
        invariant
            0 <= idx <= lines@.len(),
        decreases lines.len() - idx,
    {
        let line_no: u64 = (idx as u64).wrapping_add(1);
        let line = trim_chars(&lines[idx]);
        idx = idx + 1;
        if line.len() == 0 || starts_with_lit(&line, "//") {
            continue;
        }
        if let Some(rest) = strip_prefix_lit(&line, "tool ") {
            // tool Name input {a: Int} output {b: String} cap toolCap;
            let (name, tail) = match split_once_lit(&rest, " input ") {
                None => {
                    return Err(parse_err_at(line_no, "invalid tool decl"));
                },
                Some(p) => p,
            };
            let (input_raw, tail) = match parse_braced_section(&tail, line_no) {
                Err(e) => {
                    return Err(e);
                },
                Ok(p) => p,
            };
            let tail = match strip_prefix_lit(&tail, "output ") {
                None => {
                    return Err(parse_err_at(line_no, "expected output"));
                },
                Some(t) => t,
            };
            let (output_raw, tail) = match parse_braced_section(&tail, line_no) {
                Err(e) => {
                    return Err(e);
                },
                Ok(p) => p,
            };
            let tail = match strip_prefix_lit(&trim_chars(&tail), "cap ") {
                None => {
                    return Err(parse_err_at(line_no, "expected cap"));
                },
                Some(t) => t,
            };
            let cap = trim_chars(&trim_end_semis(&tail));
            let input = match parse_typed_fields(&input_raw, line_no) {
                Err(e) => {
                    return Err(e);
                },
                Ok(f) => f,
            };
            let output = match parse_typed_fields(&output_raw, line_no) {
                Err(e) => {
                    return Err(e);
                },
                Ok(f) => f,
            };
            let nm = trim_chars(&name);
            statements.push(
                Stmt::ToolDecl {
                    name: chars_to_string(&nm),
                    input,
                    output,
                    cap: chars_to_string(&cap),
                },
            );
            continue;
        }
        if let Some(rest) = strip_prefix_lit(&line, "let ") {
            let (name, expr_part) = match split_once_char(&rest, '=') {
                None => {
                    return Err(parse_err_at(line_no, "invalid let"));
                },
                Some(p) => p,
            };
            let ep = trim_end_semis(&trim_chars(&expr_part));
            let expr = match parse_expr(&ep) {
                Err(e) => {
                    return Err(e);
                },
                Ok(e) => e,
            };
            let nm = trim_chars(&name);
            statements.push(Stmt::Let { name: chars_to_string(&nm), expr });
            continue;
        }
        if let Some(rest) = strip_prefix_lit(&line, "print ") {
            let ep = trim_end_semis(&trim_chars(&rest));
            let expr = match parse_expr(&ep) {
                Err(e) => {
                    return Err(e);
                },
                Ok(e) => e,
            };
            statements.push(Stmt::Print { expr });
            continue;
        }
        if let Some(rest) = strip_prefix_lit(&line, "call ") {
            let (tool, tail) = match split_once_char(&rest, '{') {
                None => {
                    return Err(parse_err_at(line_no, "missing '{'"));
                },
                Some(p) => p,
            };
            let (input_raw, tail) = match split_once_char(&tail, '}') {
                None => {
                    return Err(parse_err_at(line_no, "missing '}'"));
                },
                Some(p) => p,
            };
            let mut input: Vec<(String, Expr)> = Vec::new();
            let parts = split_chars(&input_raw, ',');
            let mut pi: usize = 0;
            while pi < parts.len()
                invariant
                    0 <= pi <= parts@.len(),
                decreases parts.len() - pi,
            {
                let part = trim_chars(&parts[pi]);
                if part.len() > 0 {
                    match split_once_char(&part, ':') {
                        None => {
                            return Err(parse_err_at(line_no, "invalid tool input"));
                        },
                        Some(kv) => {
                            let k = trim_chars(&kv.0);
                            let vv = trim_chars(&kv.1);
                            let expr = match parse_expr(&vv) {
                                Err(e) => {
                                    return Err(e);
                                },
                                Ok(e) => e,
                            };
                            input.push((chars_to_string(&k), expr));
                        },
                    }
                }
                pi = pi + 1;
            }
            let tail = trim_end_semis(&trim_chars(&tail));
            let tail = match strip_prefix_lit(&tail, "using ") {
                None => {
                    return Err(parse_err_at(line_no, "expected using"));
                },
                Some(t) => t,
            };
            let (cap, timeout_part) = match split_once_lit(&tail, " timeout ") {
                None => {
                    return Err(parse_err_at(line_no, "expected timeout"));
                },
                Some(p) => p,
            };
            let tp = trim_chars(&timeout_part);
            let timeout_ms = match parse_u64_chars(&tp) {
                None => {
                    return Err(parse_err_at(line_no, "invalid timeout value"));
                },
                Some(v) => v,
            };
            let capt = trim_chars(&cap);
            statements.push(
                Stmt::ToolCall {
                    tool: chars_to_string(&trim_chars(&tool)),
                    input,
                    cap: chars_to_string(&capt),
                    timeout_ms,
                },
            );
            continue;
        }
        return Err(parse_err_at(line_no, "unrecognized statement"));
    }
    Ok(Program { statements })
}

} // verus!

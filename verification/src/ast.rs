//! The abstract syntax of the language: programs, statements, expressions,
//! tool signatures and the capability manifest, together with the
//! association-list lookups that the checker and the interpreter share.

use vstd::prelude::*;
use crate::text::seq_views;

verus! {

/// An ordered sequence of statements, in source order.
#[derive(Debug)]
pub struct Program {
    pub statements: Vec<Stmt>,
}

impl View for Program {
    type V = Seq<Stmt>;

    open spec fn view(&self) -> Seq<Stmt> {
        self.statements@
    }
}

#[derive(Debug)]
pub enum Stmt {
    ToolDecl { name: String, input: Vec<(String, Type)>, output: Vec<(String, Type)>, cap: String },
    Let { name: String, expr: Expr },
    Print { expr: Expr },
    ToolCall { tool: String, input: Vec<(String, Expr)>, cap: String, timeout_ms: u64 },
}

#[derive(Debug)]
pub enum Expr {
    Int(i64),
    Bool(bool),
    String(String),
    Var(String),
    Binary { lhs: Box<Expr>, op: BinOp, rhs: Box<Expr> },
}

#[derive(Debug, Clone, Copy)]
pub enum BinOp {
    Add,
    Sub,
    Mul,
    Div,
}

#[derive(Debug, Clone, Copy, PartialEq, Eq, Structural)]
pub enum Type {
    Int,
    Bool,
    String,
}

#[derive(Debug, Clone, Copy, PartialEq, Eq, Structural)]
pub enum Effect {
    Pure,
    Tool,
}

/// The declared interface of a tool: its input and output field types and
/// the capability it demands. Field lists are association lists with unique
/// keys; the later of two same-named declaration fields wins.
#[derive(Debug, Clone)]
pub struct ToolSignature {
    pub input: Vec<(String, Type)>,
    pub output: Vec<(String, Type)>,
    pub cap: String,
}

/// The mathematical shape of a tool signature.
pub struct SignatureModel {
    pub input: Seq<(Seq<char>, Type)>,
    pub output: Seq<(Seq<char>, Type)>,
    pub cap: Seq<char>,
}

pub open spec fn fields_view(l: Seq<(String, Type)>) -> Seq<(Seq<char>, Type)> {
    l.map_values(|p: (String, Type)| (p.0@, p.1))
}

impl View for ToolSignature {
    type V = SignatureModel;

    open spec fn view(&self) -> SignatureModel {
        SignatureModel {
            input: fields_view(self.input@),
            output: fields_view(self.output@),
            cap: self.cap@,
        }
    }
}

/// The sorted, deduplicated capability identifiers a program requires.
#[derive(Debug, Clone)]
pub struct CapabilityManifest {
    pub required_caps: Vec<String>,
}

impl View for CapabilityManifest {
    type V = Seq<Seq<char>>;

    open spec fn view(&self) -> Seq<Seq<char>> {
        seq_views(self.required_caps@)
    }
}

/// Association-list lookup where the last binding for a key wins, mirroring
/// map insertion with overwrite.
pub open spec fn assoc_get<V>(s: Seq<(Seq<char>, V)>, k: Seq<char>) -> Option<V>
    decreases s.len(),
{
    if s.len() == 0 {
        None
    } else if s.last().0 == k {
        Some(s.last().1)
    } else {
        assoc_get(s.drop_last(), k)
    }
}

} // verus!

//! The error taxonomies of the toolchain: compile-time errors from the
//! parser and the checker, and runtime errors from the interpreter. Each
//! carries a single human-readable message.

use vstd::prelude::*;
use vstd::string::StringExecFns;

verus! {

#[derive(Debug, Clone, PartialEq, Eq)]
pub enum CompileError {
    Parse(String),
    Type(String),
}

pub enum CompileErrorModel {
    Parse(Seq<char>),
    Type(Seq<char>),
}

impl View for CompileError {
    type V = CompileErrorModel;

    open spec fn view(&self) -> CompileErrorModel {
        match self {
            CompileError::Parse(m) => CompileErrorModel::Parse(m@),
            CompileError::Type(m) => CompileErrorModel::Type(m@),
        }
    }
}

/// The rendering used when a compile error is shown to a person.
pub open spec fn compile_error_text(e: CompileErrorModel) -> Seq<char> {
    match e {
        CompileErrorModel::Parse(m) => "parse error: "@ + m,
        CompileErrorModel::Type(m) => "type error: "@ + m,
    }
}

impl CompileError {
    /// Human-readable rendering of the error.
    pub fn message(&self) -> (r: String)
        ensures
            r@ == compile_error_text(self@),
    {
        match self {
            CompileError::Parse(m) => {
                let mut s = String::from_str("parse error: ");
                s.append(m.as_str());
                s
            },
            CompileError::Type(m) => {
                let mut s = String::from_str("type error: ");
                s.append(m.as_str());
                s
            },
        }
    }
}

#[derive(Debug, Clone, PartialEq, Eq)]
pub enum RuntimeError {
    MissingCapability(String),
    InvalidCapability(String),
    InvalidTimeout(String),
    MissingToolSignature(String),
    ToolValidation(String),
    ToolExecution(String),
    Eval(String),
}

pub enum RuntimeErrorModel {
    MissingCapability(Seq<char>),
    InvalidCapability(Seq<char>),
    InvalidTimeout(Seq<char>),
    MissingToolSignature(Seq<char>),
    ToolValidation(Seq<char>),
    ToolExecution(Seq<char>),
    Eval(Seq<char>),
}

impl View for RuntimeError {
    type V = RuntimeErrorModel;

    open spec fn view(&self) -> RuntimeErrorModel {
        match self {
            RuntimeError::MissingCapability(m) => RuntimeErrorModel::MissingCapability(m@),
            RuntimeError::InvalidCapability(m) => RuntimeErrorModel::InvalidCapability(m@),
            RuntimeError::InvalidTimeout(m) => RuntimeErrorModel::InvalidTimeout(m@),
            RuntimeError::MissingToolSignature(m) => RuntimeErrorModel::MissingToolSignature(m@),
            RuntimeError::ToolValidation(m) => RuntimeErrorModel::ToolValidation(m@),
            RuntimeError::ToolExecution(m) => RuntimeErrorModel::ToolExecution(m@),
            RuntimeError::Eval(m) => RuntimeErrorModel::Eval(m@),
        }
    }
}

/// The rendering used when a runtime error is shown to a person.
pub open spec fn runtime_error_text(e: RuntimeErrorModel) -> Seq<char> {
    match e {
        RuntimeErrorModel::MissingCapability(m) => "missing capability: "@ + m,
        RuntimeErrorModel::InvalidCapability(m) => "invalid capability: "@ + m,
        RuntimeErrorModel::InvalidTimeout(m) => "invalid timeout: "@ + m,
        RuntimeErrorModel::MissingToolSignature(m) => "missing tool signature: "@ + m,
        RuntimeErrorModel::ToolValidation(m) => "tool validation failed: "@ + m,
        RuntimeErrorModel::ToolExecution(m) => "tool execution failed: "@ + m,
        RuntimeErrorModel::Eval(m) => "evaluation error: "@ + m,
    }
}

impl RuntimeError {
    /// Human-readable rendering of the error.
    pub fn message(&self) -> (r: String)
        ensures
            r@ == runtime_error_text(self@),
    {
        match self {
            RuntimeError::MissingCapability(m) => {
                let mut s = String::from_str("missing capability: ");
                s.append(m.as_str());
                s
            },
            RuntimeError::InvalidCapability(m) => {
                let mut s = String::from_str("invalid capability: ");
                s.append(m.as_str());
                s
            },
            RuntimeError::InvalidTimeout(m) => {
                let mut s = String::from_str("invalid timeout: ");
                s.append(m.as_str());
                s
            },
            RuntimeError::MissingToolSignature(m) => {
                let mut s = String::from_str("missing tool signature: ");
                s.append(m.as_str());
                s
            },
            RuntimeError::ToolValidation(m) => {
                let mut s = String::from_str("tool validation failed: ");
                s.append(m.as_str());
                s
            },
            RuntimeError::ToolExecution(m) => {
                let mut s = String::from_str("tool execution failed: ");
                s.append(m.as_str());
                s
            },
            RuntimeError::Eval(m) => {
                let mut s = String::from_str("evaluation error: ");
                s.append(m.as_str());
                s
            },
        }
    }
}

} // verus!

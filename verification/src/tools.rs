//! The tool registry: an opaque name-to-behavior map the runtime invokes.
//! Behaviors form a closed set of pure responses, so a registry's answers
//! depend only on the tool name and the input text — the precondition for a
//! replayable run. Capability enforcement is not here: the interpreter
//! gates every call before the registry is consulted.

use vstd::prelude::*;
use vstd::string::StringExecFns;
use crate::ast::assoc_get;

verus! {

/// What a registered tool does with its input text.
#[derive(Debug, Clone)]
pub enum ToolBehavior {
    /// Respond with `{"echo":<input>}`.
    Echo,
    /// Respond with a fixed text, whatever the input.
    Fixed(String),
    /// Fail with a fixed error text.
    Fail(String),
}

pub enum ToolBehaviorModel {
    Echo,
    Fixed(Seq<char>),
    Fail(Seq<char>),
}

impl View for ToolBehavior {
    type V = ToolBehaviorModel;

    open spec fn view(&self) -> ToolBehaviorModel {
        match self {
            ToolBehavior::Echo => ToolBehaviorModel::Echo,
            ToolBehavior::Fixed(s) => ToolBehaviorModel::Fixed(s@),
            ToolBehavior::Fail(m) => ToolBehaviorModel::Fail(m@),
        }
    }
}

pub open spec fn reg_view(v: Seq<(String, ToolBehavior)>) -> Seq<(Seq<char>, ToolBehaviorModel)> {
    v.map_values(|p: (String, ToolBehavior)| (p.0@, p.1@))
}

/// What one behavior answers for an input.
pub open spec fn behavior_result(b: ToolBehaviorModel, input: Seq<char>) -> Result<
    Seq<char>,
    Seq<char>,
> {
    match b {
        ToolBehaviorModel::Echo => Ok("{\"echo\":"@ + input + "}"@),
        ToolBehaviorModel::Fixed(s) => Ok(s),
        ToolBehaviorModel::Fail(m) => Err(m),
    }
}

/// What a registry call yields: the named behavior's answer, or an
/// unknown-tool error; the last registration of a name wins.
pub open spec fn registry_call(
    reg: Seq<(Seq<char>, ToolBehaviorModel)>,
    name: Seq<char>,
    input: Seq<char>,
) -> Result<Seq<char>, Seq<char>> {
    match assoc_get(reg, name) {
        None => Err("unknown tool: "@ + name),
        Some(b) => behavior_result(b, input),
    }
}

/// A name-to-behavior map; registering an existing name overrides it.
#[derive(Debug)]
pub struct ToolRegistry {
    tools: Vec<(String, ToolBehavior)>,
}

impl View for ToolRegistry {
    type V = Seq<(Seq<char>, ToolBehaviorModel)>;

    closed spec fn view(&self) -> Seq<(Seq<char>, ToolBehaviorModel)> {
        reg_view(self.tools@)
    }
}

impl Default for ToolRegistry {
    /// An empty registry.
    fn default() -> (r: Self)
        ensures
            r@ == Seq::<(Seq<char>, ToolBehaviorModel)>::empty(),
    {
        let r = ToolRegistry { tools: Vec::new() };
        proof {
            assert(r@ =~= Seq::<(Seq<char>, ToolBehaviorModel)>::empty());
        }
        r
    }
}

impl ToolRegistry {
    /// The registry holding the mock echo tool under the name "MockEcho".
    pub fn with_mock_tools() -> (r: Self)
        ensures
            r@ == seq![("MockEcho"@, ToolBehaviorModel::Echo)],
    {
        let mut reg = ToolRegistry::default();
        reg.register("MockEcho", ToolBehavior::Echo);
        proof {
            assert(reg@ =~= seq![("MockEcho"@, ToolBehaviorModel::Echo)]);
        }
        reg
    }

    /// Register a behavior under a name; a later registration of the same
    /// name wins on lookup.
    pub fn register(&mut self, name: &str, f: ToolBehavior)
        ensures
            final(self)@ == old(self)@.push((name@, f@)),
    {
        let ghost fm = f@;
        let ghost v0 = reg_view(self.tools@);
        self.tools.push((String::from_str(name), f));
        proof {
            assert(reg_view(self.tools@) =~= v0.push((name@, fm)));
        }
    }

    /// Call the named tool on the input text.
    pub fn call(&self, name: &str, input: String) -> (r: Result<String, String>)
        ensures
            match r {
                Ok(s) => registry_call(self@, name@, input@) == Ok::<Seq<char>, Seq<char>>(s@),
                Err(m) => registry_call(self@, name@, input@) == Err::<Seq<char>, Seq<char>>(m@),
            },
    {
        let key = String::from_str(name);
        let mut i: usize = self.tools.len();
        proof {
            assert(reg_view(self.tools@).take(self.tools@.len() as int) =~= reg_view(self.tools@));
        }
        while i > 0
            invariant
                0 <= i <= self.tools.len(),
                key@ == name@,
                assoc_get(reg_view(self.tools@), name@) == assoc_get(
                    reg_view(self.tools@).take(i as int),
                    name@,
                ),
            decreases i,
        {
            i = i - 1;
            let ghost pre = reg_view(self.tools@).take(i + 1);
            proof {
                assert(pre.drop_last() =~= reg_view(self.tools@).take(i as int));
                assert(pre.last() == reg_view(self.tools@)[i as int]);
            }
            if self.tools[i].0 == key {
                match &self.tools[i].1 {
                    ToolBehavior::Echo => {
                        let mut s = String::from_str("{\"echo\":");
                        s.append(input.as_str());
                        s.append("}");
                        return Ok(s);
                    },
                    ToolBehavior::Fixed(t) => {
                        return Ok(t.clone());
                    },
                    ToolBehavior::Fail(m) => {
                        return Err(m.clone());
                    },
                }
            }
        }
        proof {
            assert(reg_view(self.tools@).take(0) =~= Seq::<(Seq<char>, ToolBehaviorModel)>::empty());
        }
        let mut m = String::from_str("unknown tool: ");
        m.append(name);
        Err(m)
    }
}

} // verus!

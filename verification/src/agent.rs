//! Per-agent conversation context: remembered messages and the prompt
//! assembled from instructions, memory and the current input.

use vstd::prelude::*;
use vstd::string::StringExecFns;
use crate::outside::trim_str;
use crate::strutil::trim_seq;

verus! {

/// The standing system preamble every agent's instructions begin with.
pub open spec fn system_preamble() -> Seq<char> {
    "You are a helpful assistant.\nIf you want to use a tool, respond ONLY in JSON format:\n{ \"tool_call\": { \"name\": \"TOOL_NAME\", \"args\": \"ARGUMENT_STRING\" } }\nOtherwise, reply normally as a helpful assistant."@
}

/// The full instruction text for an agent: the standing preamble, a line
/// break, then the agent's own instructions.
pub fn full_instructions(user_instructions: &str) -> (r: String)
    ensures
        r@ == system_preamble() + "\n"@ + user_instructions@,
{
    let mut r =
        "You are a helpful assistant.\nIf you want to use a tool, respond ONLY in JSON format:\n{ \"tool_call\": { \"name\": \"TOOL_NAME\", \"args\": \"ARGUMENT_STRING\" } }\nOtherwise, reply normally as a helpful assistant.".to_owned();
    r.append("\n");
    r.append(user_instructions);
    r
}

/// The default per-agent memory store path: `"memory_<name>.db"`.
pub fn default_memory_path(agent_name: &str) -> (r: String)
    ensures
        r@ == "memory_"@ + agent_name@ + ".db"@,
{
    let mut r = "memory_".to_owned();
    r.append(agent_name);
    r.append(".db");
    r
}

/// Manages conversation memory and builds prompts for an agent.
#[derive(Debug)]
pub struct AgentContext {
    pub memory: Vec<String>,
}

impl AgentContext {
    /// An empty context.
    pub fn new() -> (r: AgentContext)
        ensures
            r.memory.deep_view().len() == 0,
    {
        let r = AgentContext { memory: Vec::new() };
        proof {
            assert(r.memory.deep_view() =~= Seq::<Seq<char>>::empty());
        }
        r
    }

    /// Remember one message.
    pub fn add_message(&mut self, message: &str)
        ensures
            final(self).memory.deep_view() == old(self).memory.deep_view().push(message@),
    {
        self.memory.push(message.to_owned());
        proof {
            assert(self.memory.deep_view() =~= old(self).memory.deep_view().push(message@));
        }
    }

    /// The full prompt: the trimmed instructions, every remembered message
    /// in order, then the trimmed current input.
    pub fn build_context_prompt(&self, instructions: &str, user_input: &str) -> (r: Vec<String>)
        ensures
            r.deep_view() == seq!["System: "@ + trim_seq(instructions@)] + self.memory.deep_view()
                + seq!["User: "@ + trim_seq(user_input@)],
    {
        let mut prompt: Vec<String> = Vec::new();
        let mut sys = "System: ".to_owned();
        let instr = trim_str(instructions);
        sys.append(instr.as_str());
        prompt.push(sys);
        proof {
            assert(prompt.deep_view() =~= seq!["System: "@ + trim_seq(instructions@)]);
        }
        let mut i: usize = 0;
        while i < self.memory.len()
            invariant
                i <= self.memory@.len(),
                self.memory.deep_view().len() == self.memory@.len(),
                prompt.deep_view() =~= seq!["System: "@ + trim_seq(instructions@)]
                    + self.memory.deep_view().take(i as int),
            decreases self.memory@.len() - i,
        {
            proof {
                assert(self.memory.deep_view()[i as int] == self.memory@[i as int]@);
            }
            let ghost pbefore = prompt.deep_view();
            prompt.push(self.memory[i].clone());
            proof {
                assert(prompt.deep_view() =~= pbefore.push(self.memory.deep_view()[i as int]));
                assert(prompt.deep_view() =~= seq!["System: "@ + trim_seq(instructions@)]
                    + self.memory.deep_view().take(i + 1));
            }
            i += 1;
        }
        proof {
            assert(self.memory.deep_view().take(self.memory.deep_view().len() as int)
                =~= self.memory.deep_view());
        }
        let mut user = "User: ".to_owned();
        let inp = trim_str(user_input);
        user.append(inp.as_str());
        let ghost pbefore = prompt.deep_view();
        prompt.push(user);
        proof {
            assert(prompt.deep_view() =~= pbefore.push("User: "@ + trim_seq(user_input@)));
            assert(prompt.deep_view() =~= seq!["System: "@ + trim_seq(instructions@)]
                + self.memory.deep_view() + seq!["User: "@ + trim_seq(user_input@)]);
        }
        prompt
    }
}

} // verus!

//! The mutable record of one in-flight workflow execution: current step and
//! agent, per-step results with timing, and free-form variable and metadata
//! bags. Created at the start of one execution and mutated only by that
//! execution.

use vstd::prelude::*;
use crate::outside::now_unix_secs;

verus! {

/// One recorded agent invocation: which agent ran as which step, what it
/// received and produced, and when.
#[derive(Debug)]
pub struct StepResult {
    pub step_index: usize,
    pub agent: String,
    pub input: String,
    pub output: String,
    pub timestamp: u64,
    pub duration_ms: u64,
}

pub struct StepResultModel {
    pub step_index: int,
    pub agent: Seq<char>,
    pub input: Seq<char>,
    pub output: Seq<char>,
    pub timestamp: int,
    pub duration_ms: int,
}

impl View for StepResult {
    type V = StepResultModel;

    open spec fn view(&self) -> StepResultModel {
        StepResultModel {
            step_index: self.step_index as int,
            agent: self.agent@,
            input: self.input@,
            output: self.output@,
            timestamp: self.timestamp as int,
            duration_ms: self.duration_ms as int,
        }
    }
}

impl DeepView for StepResult {
    type V = StepResultModel;

    open spec fn deep_view(&self) -> StepResultModel {
        self.view()
    }
}

/// Tracks the state of one workflow execution.
#[derive(Debug)]
pub struct WorkflowState {
    pub workflow_id: String,
    pub current_step: usize,
    pub current_agent: Option<String>,
    pub variables: Vec<(String, String)>,
    pub start_time: u64,
    pub step_results: Vec<StepResult>,
    pub metadata: Vec<(String, String)>,
}

pub struct WorkflowStateModel {
    pub workflow_id: Seq<char>,
    pub current_step: int,
    pub current_agent: Option<Seq<char>>,
    pub variables: Seq<(Seq<char>, Seq<char>)>,
    pub start_time: int,
    pub step_results: Seq<StepResultModel>,
    pub metadata: Seq<(Seq<char>, Seq<char>)>,
}

impl View for WorkflowState {
    type V = WorkflowStateModel;

    open spec fn view(&self) -> WorkflowStateModel {
        WorkflowStateModel {
            workflow_id: self.workflow_id@,
            current_step: self.current_step as int,
            current_agent: match self.current_agent {
                Some(ref a) => Some(a@),
                None => None,
            },
            variables: self.variables.deep_view(),
            start_time: self.start_time as int,
            step_results: self.step_results.deep_view(),
            metadata: self.metadata.deep_view(),
        }
    }
}

/// Lookup in an append-only association list: the most recently appended
/// binding of the key wins.
pub open spec fn assoc_get(s: Seq<(Seq<char>, Seq<char>)>, key: Seq<char>) -> Option<Seq<char>>
    decreases s.len(),
{
    if s.len() == 0 {
        None
    } else if s.last().0 == key {
        Some(s.last().1)
    } else {
        assoc_get(s.drop_last(), key)
    }
}

/// Appending a binding changes the lookup of exactly that key.
pub proof fn lemma_assoc_get_push(
    s: Seq<(Seq<char>, Seq<char>)>,
    key: Seq<char>,
    value: Seq<char>,
    probe: Seq<char>,
)
    ensures
        assoc_get(s.push((key, value)), probe) == if probe == key {
            Some(value)
        } else {
            assoc_get(s, probe)
        },
{
    assert(s.push((key, value)).drop_last() =~= s);
}

pub(crate) fn assoc_find<'a>(s: &'a Vec<(String, String)>, key: &str) -> (r: Option<&'a String>)
    ensures
        match r {
            Some(v) => assoc_get(s.deep_view(), key@) == Some(v@),
            None => assoc_get(s.deep_view(), key@) is None,
        },
{
    let ghost dv = s.deep_view();
    proof {
        assert(dv.len() == s@.len());
        assert(dv.take(dv.len() as int) =~= dv);
    }
    let mut i: usize = s.len();
    while i > 0
        invariant
            dv == s.deep_view(),
            dv.len() == s@.len(),
            i <= s@.len(),
            assoc_get(dv, key@) == assoc_get(dv.take(i as int), key@),
        decreases i,
    {
        i -= 1;
        proof {
            assert(dv[i as int] == (s@[i as int].0@, s@[i as int].1@));
            assert(dv.take(i + 1).drop_last() =~= dv.take(i as int));
            assert(dv.take(i + 1).last() == dv[i as int]);
        }
        if crate::strutil::str_eq(s[i].0.as_str(), key) {
            return Some(&s[i].1);
        }
    }
    proof {
        assert(dv.take(0) =~= Seq::<(Seq<char>, Seq<char>)>::empty());
    }
    None
}

fn assoc_push(s: &mut Vec<(String, String)>, key: &str, value: &str)
    ensures
        final(s).deep_view() == old(s).deep_view().push((key@, value@)),
{
    let ghost dv = old(s).deep_view();
    s.push((key.to_owned(), value.to_owned()));
    proof {
        assert(s.deep_view() =~= dv.push((key@, value@)));
    }
}

impl WorkflowState {
    /// A fresh record for one execution: step 0, no agent yet, empty bags,
    /// and the start time read from the wall clock.
    pub fn new(workflow_id: String) -> (r: WorkflowState)
        ensures
            r@.workflow_id == workflow_id@,
            r@.current_step == 0,
            r@.current_agent is None,
            r@.variables.len() == 0,
            r@.step_results.len() == 0,
            r@.metadata.len() == 0,
    {
        let start_time = now_unix_secs();
        let r = WorkflowState {
            workflow_id,
            current_step: 0,
            current_agent: None,
            variables: Vec::new(),
            start_time,
            step_results: Vec::new(),
            metadata: Vec::new(),
        };
        proof {
            assert(r.variables.deep_view() =~= Seq::<(Seq<char>, Seq<char>)>::empty());
            assert(r.step_results.deep_view() =~= Seq::<StepResultModel>::empty());
            assert(r.metadata.deep_view() =~= Seq::<(Seq<char>, Seq<char>)>::empty());
        }
        r
    }

    pub fn set_current_step(&mut self, step: usize)
        ensures
            final(self)@ == (WorkflowStateModel { current_step: step as int, ..old(self)@ }),
    {
        self.current_step = step;
    }

    pub fn set_current_agent(&mut self, agent: &str)
        ensures
            final(self)@ == (WorkflowStateModel { current_agent: Some(agent@), ..old(self)@ }),
    {
        self.current_agent = Some(agent.to_owned());
    }

    /// Append a variable binding; the newest binding of a key is the one
    /// that lookups see.
    pub fn set_variable(&mut self, key: &str, value: &str)
        ensures
            final(self)@ == (WorkflowStateModel {
                variables: old(self)@.variables.push((key@, value@)),
                ..old(self)@
            }),
            assoc_get(final(self)@.variables, key@) == Some(value@),
    {
        assoc_push(&mut self.variables, key, value);
        proof {
            lemma_assoc_get_push(old(self)@.variables, key@, value@, key@);
        }
    }

    /// The newest value bound to `key`, if any.
    pub fn get_variable(&self, key: &str) -> (r: Option<&String>)
        ensures
            match r {
                Some(v) => assoc_get(self@.variables, key@) == Some(v@),
                None => assoc_get(self@.variables, key@) is None,
            },
    {
        assoc_find(&self.variables, key)
    }

    /// Append one step record.
    pub fn add_step_result(&mut self, result: StepResult)
        ensures
            final(self)@ == (WorkflowStateModel {
                step_results: old(self)@.step_results.push(result@),
                ..old(self)@
            }),
    {
        let ghost rv = result@;
        self.step_results.push(result);
        proof {
            assert(self.step_results.deep_view() =~= old(self).step_results.deep_view().push(rv));
        }
    }

    /// Append a metadata binding; the newest binding of a key wins.
    pub fn set_metadata(&mut self, key: &str, value: &str)
        ensures
            final(self)@ == (WorkflowStateModel {
                metadata: old(self)@.metadata.push((key@, value@)),
                ..old(self)@
            }),
            assoc_get(final(self)@.metadata, key@) == Some(value@),
    {
        assoc_push(&mut self.metadata, key, value);
        proof {
            lemma_assoc_get_push(old(self)@.metadata, key@, value@, key@);
        }
    }

    /// The newest metadata value bound to `key`, if any.
    pub fn get_metadata(&self, key: &str) -> (r: Option<&String>)
        ensures
            match r {
                Some(v) => assoc_get(self@.metadata, key@) == Some(v@),
                None => assoc_get(self@.metadata, key@) is None,
            },
    {
        assoc_find(&self.metadata, key)
    }

    /// Completion is judged by the topology executor, not by this record:
    /// the snapshot value is always `false`.
    pub fn is_complete(&self) -> (r: bool)
        ensures
            r == false,
    {
        false
    }

    /// Seconds elapsed between `start` and `now`, zero when the clock ran
    /// backwards.
    pub fn execution_time_from(now: u64, start: u64) -> (r: u64)
        ensures
            r == if now >= start {
                now - start
            } else {
                0
            },
    {
        if now >= start {
            now - start
        } else {
            0
        }
    }

    /// Seconds this execution has been running, by the wall clock. The
    /// value depends on the clock; the arithmetic is
    /// [`Self::execution_time_from`].
    pub fn get_execution_time(&self) -> u64 {
        let now = now_unix_secs();
        Self::execution_time_from(now, self.start_time)
    }
}

} // verus!

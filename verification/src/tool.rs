//! The built-in tools an agent can call — echo, arithmetic evaluation and
//! web search — and the registry that hands them out by name. The search
//! tool's network transport lives with the embedding program; its query
//! construction and result selection are here.

use vstd::prelude::*;
use vstd::string::StringExecFns;
use crate::outside::{eval_math, math_err_of, math_eval_ok, trim_str, url_encoded, url_encode};
use crate::strutil::{str_eq, trim_seq};

verus! {

/// A callable tool: a unique name and the logic it runs on an input.
pub trait Tool {
    /// The tool's name, as contracts speak of it.
    spec fn spec_name(&self) -> Seq<char>;

    /// The unique tool name used in tool-call payloads.
    fn name(&self) -> (r: String)
        ensures
            r@ == self.spec_name(),
    ;

    /// Run the tool on the input.
    fn call(&self, input: &str) -> (r: String);
}

/// Repeats its input back.
#[derive(Debug)]
pub struct EchoTool;

impl EchoTool {
    pub fn new() -> (r: EchoTool) {
        EchoTool
    }
}

impl Tool for EchoTool {
    open spec fn spec_name(&self) -> Seq<char> {
        "echo"@
    }

    fn name(&self) -> (r: String)
        ensures
            r@ == self.spec_name(),
    {
        "echo".to_owned()
    }

    /// `"Echo: <input>"`.
    fn call(&self, input: &str) -> (r: String)
        ensures
            r@ == "Echo: "@ + input@,
    {
        let mut r = "Echo: ".to_owned();
        r.append(input);
        r
    }
}

/// Evaluates an arithmetic expression.
#[derive(Debug)]
pub struct MathTool;

impl MathTool {
    pub fn new() -> (r: MathTool) {
        MathTool
    }
}

impl Tool for MathTool {
    open spec fn spec_name(&self) -> Seq<char> {
        "math"@
    }

    fn name(&self) -> (r: String)
        ensures
            r@ == self.spec_name(),
    {
        "math".to_owned()
    }

    /// The evaluated value, or the evaluator's error, each labelled. An
    /// accepted expression's rendered value depends on the machine's float
    /// routines, so only its label is fixed here; how one evaluation
    /// outcome is reported is exactly [`math_report`].
    fn call(&self, input: &str) -> (r: String)
        ensures
            math_eval_ok(input@) ==> ("🧮 Result: "@).is_prefix_of(r@),
            !math_eval_ok(input@) ==> r@ == "❌ Math error: "@ + math_err_of(input@),
    {
        let outcome = eval_math(input);
        let r = math_report(&outcome);
        proof {
            if math_eval_ok(input@) {
                assert(r@.subrange(0, "🧮 Result: "@.len() as int) =~= "🧮 Result: "@);
            }
        }
        r
    }
}

/// The report for one evaluation outcome: the value or the error, each
/// labelled.
pub fn math_report(outcome: &Result<String, String>) -> (r: String)
    ensures
        r@ == match outcome {
            Ok(v) => "🧮 Result: "@ + v@,
            Err(e) => "❌ Math error: "@ + e@,
        },
{
    match outcome {
        Ok(v) => {
            let mut r = "🧮 Result: ".to_owned();
            r.append(v.as_str());
            r
        },
        Err(e) => {
            let mut r = "❌ Math error: ".to_owned();
            r.append(e.as_str());
            r
        },
    }
}

/// Queries a public search endpoint. Building the query URL and choosing
/// what to report from a response are verified here; sending the request
/// is the embedding program's work.
#[derive(Debug)]
pub struct SearchTool;

/// The first topic text present in a response's related topics.
pub open spec fn first_topic(topics: Seq<Option<Seq<char>>>) -> Option<Seq<char>>
    decreases topics.len(),
{
    if topics.len() == 0 {
        None
    } else {
        match first_topic(topics.drop_last()) {
            Some(t) => Some(t),
            None => topics.last(),
        }
    }
}

impl SearchTool {
    pub fn new() -> (r: SearchTool) {
        SearchTool
    }

    /// The query URL for an input: the trimmed input, percent-encoded,
    /// against the fixed endpoint.
    pub fn query_url(&self, input: &str) -> (r: String)
        ensures
            r@ == "https://api.duckduckgo.com/?q="@ + url_encoded(trim_seq(input@))
                + "&format=json&no_redirect=1&no_html=1"@,
    {
        let q = trim_str(input);
        let encoded = url_encode(q.as_str());
        let mut r = "https://api.duckduckgo.com/?q=".to_owned();
        r.append(encoded.as_str());
        r.append("&format=json&no_redirect=1&no_html=1");
        r
    }

    /// What to report from a parsed response: the abstract when present,
    /// else the first related topic, else a fixed notice.
    pub fn summarize(&self, abstract_text: &str, topics: &Vec<Option<String>>) -> (r: String)
        ensures
            r@ == if abstract_text@.len() > 0 {
                "🔎 "@ + abstract_text@
            } else {
                match first_topic(topics.deep_view()) {
                    Some(t) => "🔎 Related: "@ + t,
                    None => "🤷 No relevant result found."@,
                }
            },
    {
        if !abstract_text.is_empty() {
            let mut r = "🔎 ".to_owned();
            r.append(abstract_text);
            return r;
        }
        let ghost tv = topics.deep_view();
        proof {
            assert(tv.len() == topics@.len());
            assert(tv.take(0) =~= Seq::<Option<Seq<char>>>::empty());
        }
        let mut i: usize = 0;
        while i < topics.len()
            invariant
                abstract_text@.len() == 0,
                tv == topics.deep_view(),
                tv.len() == topics@.len(),
                i <= topics@.len(),
                first_topic(tv.take(i as int)) is None,
            decreases topics@.len() - i,
        {
            proof {
                assert(tv.take(i + 1).drop_last() =~= tv.take(i as int));
                assert(tv.take(i + 1).last() == tv[i as int]);
                assert(tv[i as int] == match topics@[i as int] {
                    Some(s) => Some(s@),
                    None => None::<Seq<char>>,
                });
            }
            match &topics[i] {
                Some(t) => {
                    proof {
                        lemma_first_topic_extends(tv, i as int);
                    }
                    let mut r = "🔎 Related: ".to_owned();
                    r.append(t.as_str());
                    return r;
                },
                None => {},
            }
            i += 1;
        }
        proof {
            assert(tv.take(tv.len() as int) =~= tv);
        }
        "🤷 No relevant result found.".to_owned()
    }
}

/// A found topic at position `i`, with none before it, is the first one.
proof fn lemma_first_topic_extends(tv: Seq<Option<Seq<char>>>, i: int)
    requires
        0 <= i < tv.len(),
        first_topic(tv.take(i)) is None,
        tv[i] is Some,
    ensures
        first_topic(tv) == tv[i],
    decreases tv.len(),
{
    if tv.len() - 1 > i {
        assert(tv.drop_last().take(i) =~= tv.take(i));
        assert(tv.drop_last()[i] == tv[i]);
        lemma_first_topic_extends(tv.drop_last(), i);
    } else {
        assert(tv.take(i) =~= tv.drop_last());
    }
}

impl Tool for SearchTool {
    open spec fn spec_name(&self) -> Seq<char> {
        "search"@
    }

    fn name(&self) -> (r: String)
        ensures
            r@ == self.spec_name(),
    {
        "search".to_owned()
    }

    /// Without a transport only the query construction can run here: the
    /// tool reports the URL it would fetch. The embedding program performs
    /// the request and summarizes the parsed response.
    fn call(&self, input: &str) -> (r: String)
        ensures
            r@ == "https://api.duckduckgo.com/?q="@ + url_encoded(trim_seq(input@))
                + "&format=json&no_redirect=1&no_html=1"@,
    {
        self.query_url(input)
    }
}

/// One of the built-in tools, as the registry stores them.
#[derive(Debug)]
pub enum BuiltinTool {
    Echo(EchoTool),
    Math(MathTool),
    Search(SearchTool),
}

/// Which built-in tool a configuration name denotes.
pub open spec fn builtin_for(name: Seq<char>) -> Option<BuiltinTool> {
    if name == "math"@ {
        Some(BuiltinTool::Math(MathTool))
    } else if name == "search"@ {
        Some(BuiltinTool::Search(SearchTool))
    } else if name == "echo"@ {
        Some(BuiltinTool::Echo(EchoTool))
    } else {
        None
    }
}

/// The tools a list of configuration names denotes, unknown names skipped.
pub open spec fn tools_for(names: Seq<Seq<char>>) -> Seq<BuiltinTool>
    decreases names.len(),
{
    if names.len() == 0 {
        Seq::empty()
    } else {
        let rest = tools_for(names.drop_last());
        match builtin_for(names.last()) {
            Some(t) => rest.push(t),
            None => rest,
        }
    }
}

/// Load the tools a configuration names, skipping unknown names.
pub fn load_tools(tool_names: &Vec<String>) -> (r: Vec<BuiltinTool>)
    ensures
        r@ == tools_for(tool_names.deep_view()),
{
    let ghost nv = tool_names.deep_view();
    proof {
        assert(nv.len() == tool_names@.len());
        assert(nv.take(0) =~= Seq::<Seq<char>>::empty());
    }
    let mut r: Vec<BuiltinTool> = Vec::new();
    let mut i: usize = 0;
    while i < tool_names.len()
        invariant
            nv == tool_names.deep_view(),
            nv.len() == tool_names@.len(),
            i <= tool_names@.len(),
            r@ == tools_for(nv.take(i as int)),
        decreases tool_names@.len() - i,
    {
        proof {
            assert(nv[i as int] == tool_names@[i as int]@);
            assert(nv.take(i + 1).drop_last() =~= nv.take(i as int));
            assert(nv.take(i + 1).last() == nv[i as int]);
        }
        let name = tool_names[i].as_str();
        if str_eq(name, "math") {
            r.push(BuiltinTool::Math(MathTool::new()));
        } else if str_eq(name, "search") {
            r.push(BuiltinTool::Search(SearchTool::new()));
        } else if str_eq(name, "echo") {
            r.push(BuiltinTool::Echo(EchoTool::new()));
        }
        i += 1;
    }
    proof {
        assert(nv.take(nv.len() as int) =~= nv);
    }
    r
}

/// The registry of available tools, filled with the built-ins.
pub struct ToolRegistry {
    tools: Vec<(String, BuiltinTool)>,
}

impl View for ToolRegistry {
    type V = Seq<(Seq<char>, BuiltinTool)>;

    closed spec fn view(&self) -> Seq<(Seq<char>, BuiltinTool)> {
        Seq::new(self.tools@.len(), |i: int| (self.tools@[i].0@, self.tools@[i].1))
    }
}

/// The tool registered under a name: the newest registration wins.
pub open spec fn registry_get(s: Seq<(Seq<char>, BuiltinTool)>, name: Seq<char>) -> Option<
    BuiltinTool,
>
    decreases s.len(),
{
    if s.len() == 0 {
        None
    } else if s.last().0 == name {
        Some(s.last().1)
    } else {
        registry_get(s.drop_last(), name)
    }
}

/// The position of the binding a name holds, if any.
pub open spec fn reg_index(s: Seq<(Seq<char>, BuiltinTool)>, name: Seq<char>) -> Option<int>
    decreases s.len(),
{
    if s.len() == 0 {
        None
    } else {
        match reg_index(s.drop_last(), name) {
            Some(i) => Some(i),
            None => if s.last().0 == name {
                Some(s.len() - 1)
            } else {
                None
            },
        }
    }
}

proof fn lemma_reg_index(s: Seq<(Seq<char>, BuiltinTool)>, name: Seq<char>)
    ensures
        match reg_index(s, name) {
            Some(i) => 0 <= i < s.len() && s[i].0 == name && forall|k: int|
                0 <= k < i ==> (#[trigger] s[k]).0 != name,
            None => forall|k: int| 0 <= k < s.len() ==> (#[trigger] s[k]).0 != name,
        },
    decreases s.len(),
{
    if s.len() > 0 {
        lemma_reg_index(s.drop_last(), name);
        assert(forall|k: int| 0 <= k < s.len() - 1 ==> s[k] == s.drop_last()[k]);
    }
}

/// No two bindings share a name: the registry behaves as a map.
pub open spec fn registry_keys_unique(s: Seq<(Seq<char>, BuiltinTool)>) -> bool {
    forall|i: int, j: int| 0 <= i < j < s.len() ==> (#[trigger] s[i]).0 != (#[trigger] s[j]).0
}

impl ToolRegistry {
    /// A registry holding the built-in tools under their names, each name
    /// bound once.
    pub fn new() -> (r: ToolRegistry)
        ensures
            r@.len() == 3,
            registry_keys_unique(r@),
            registry_get(r@, "math"@) == Some(BuiltinTool::Math(MathTool)),
            registry_get(r@, "search"@) == Some(BuiltinTool::Search(SearchTool)),
            registry_get(r@, "echo"@) == Some(BuiltinTool::Echo(EchoTool)),
    {
        let mut registry = ToolRegistry { tools: Vec::new() };
        proof {
            assert(registry@ =~= Seq::<(Seq<char>, BuiltinTool)>::empty());
        }
        let ghost r0 = registry@;
        registry.register("math", BuiltinTool::Math(MathTool::new()));
        let ghost r1 = registry@;
        registry.register("search", BuiltinTool::Search(SearchTool::new()));
        let ghost r2 = registry@;
        registry.register("echo", BuiltinTool::Echo(EchoTool::new()));
        proof {
            reveal_strlit("math");
            reveal_strlit("search");
            reveal_strlit("echo");
            assert("math"@[0] != "echo"@[0]);
            assert("math"@ != "echo"@);
            assert("search"@.len() != "math"@.len());
            assert("search"@ != "math"@);
            assert("search"@.len() != "echo"@.len());
            assert("search"@ != "echo"@);
            let m = ("math"@, BuiltinTool::Math(MathTool));
            let se = ("search"@, BuiltinTool::Search(SearchTool));
            let e = ("echo"@, BuiltinTool::Echo(EchoTool));
            assert(reg_index(r0, "math"@) is None);
            assert(reg_index(r0, "search"@) is None);
            assert(reg_index(r0, "echo"@) is None);
            assert(r1 == r0.push(m));
            assert(r1.drop_last() =~= r0);
            assert(reg_index(r1, "search"@) is None);
            assert(reg_index(r1, "echo"@) is None);
            assert(r2 == r1.push(se));
            assert(r2.drop_last() =~= r1);
            assert(reg_index(r2, "echo"@) is None);
            let rv = registry@;
            assert(rv == r2.push(e));
            assert(rv.last() == e);
            assert(rv.drop_last() =~= r2);
            assert(rv.drop_last().last() == se);
            assert(rv.drop_last().drop_last() =~= r1);
            assert(rv.drop_last().drop_last().last() == m);
            assert(registry_get(rv, "echo"@) == Some(BuiltinTool::Echo(EchoTool)));
            assert(registry_get(rv, "search"@) == registry_get(rv.drop_last(), "search"@));
            assert(registry_get(rv.drop_last(), "search"@) == Some(BuiltinTool::Search(SearchTool)));
            assert(registry_get(rv, "math"@) == registry_get(rv.drop_last(), "math"@));
            assert(registry_get(rv.drop_last(), "math"@) == registry_get(
                rv.drop_last().drop_last(),
                "math"@,
            ));
            assert(registry_get(rv.drop_last().drop_last(), "math"@) == Some(
                BuiltinTool::Math(MathTool),
            ));
            assert(rv[0] == m && rv[1] == se && rv[2] == e);
            assert forall|i: int, j: int| 0 <= i < j < rv.len() implies (#[trigger] rv[i]).0 != (
            #[trigger] rv[j]).0 by {
                if i == 0 && j == 1 {
                    assert(rv[i].0 == "math"@ && rv[j].0 == "search"@);
                } else if i == 0 && j == 2 {
                    assert(rv[i].0 == "math"@ && rv[j].0 == "echo"@);
                } else {
                    assert(rv[i].0 == "search"@ && rv[j].0 == "echo"@);
                }
            }
        }
        registry
    }

    /// Register a tool under a name: an existing binding of the name is
    /// replaced in place, a new name is appended. Distinct names stay
    /// distinct.
    pub fn register(&mut self, name: &str, tool: BuiltinTool)
        ensures
            reg_index(old(self)@, name@) is Some ==> final(self)@ == old(self)@.update(
                reg_index(old(self)@, name@)->0,
                (name@, tool),
            ),
            reg_index(old(self)@, name@) is None ==> final(self)@ == old(self)@.push(
                (name@, tool),
            ),
            registry_keys_unique(old(self)@) ==> registry_keys_unique(final(self)@),
    {
        let ghost rv = self@;
        let ghost t = tool;
        proof {
            lemma_reg_index(rv, name@);
            assert(rv.len() == self.tools@.len());
        }
        let mut i: usize = 0;
        while i < self.tools.len()
            invariant
                rv == old(self)@,
                rv == self@,
                rv.len() == self.tools@.len(),
                i <= self.tools@.len(),
                t == tool,
                forall|k: int| 0 <= k < i ==> (#[trigger] rv[k]).0 != name@,
                match reg_index(rv, name@) {
                    Some(j) => 0 <= j < rv.len() && rv[j].0 == name@ && forall|k: int|
                        0 <= k < j ==> (#[trigger] rv[k]).0 != name@,
                    None => forall|k: int| 0 <= k < rv.len() ==> (#[trigger] rv[k]).0 != name@,
                },
            decreases self.tools@.len() - i,
        {
            proof {
                assert(rv[i as int] == (self.tools@[i as int].0@, self.tools@[i as int].1));
            }
            if str_eq(self.tools[i].0.as_str(), name) {
                proof {
                    assert(reg_index(rv, name@) == Some(i as int));
                }
                self.tools.set(i, (name.to_owned(), tool));
                proof {
                    assert(self@ =~= rv.update(i as int, (name@, t)));
                    let u = rv.update(i as int, (name@, t));
                    assert(u[i as int].0 == rv[i as int].0);
                    assert forall|a: int, b: int|
                        registry_keys_unique(rv) && 0 <= a < b < u.len() implies (
                    #[trigger] u[a]).0 != (#[trigger] u[b]).0 by {
                        assert(u[a].0 == rv[a].0);
                        assert(u[b].0 == rv[b].0);
                    }
                }
                return;
            }
            i += 1;
        }
        proof {
            assert(reg_index(rv, name@) is None);
        }
        self.tools.push((name.to_owned(), tool));
        proof {
            assert(self@ =~= rv.push((name@, t)));
            let u = rv.push((name@, t));
            assert forall|a: int, b: int|
                registry_keys_unique(rv) && 0 <= a < b < u.len() implies (#[trigger] u[a]).0 != (
            #[trigger] u[b]).0 by {
                if b < rv.len() {
                    assert(u[a] == rv[a] && u[b] == rv[b]);
                } else {
                    assert(u[a] == rv[a] && u[b].0 == name@);
                }
            }
        }
    }

    /// The tool registered under this name, if any.
    pub fn get(&self, name: &str) -> (r: Option<&BuiltinTool>)
        ensures
            match r {
                Some(t) => registry_get(self@, name@) == Some(*t),
                None => registry_get(self@, name@) is None,
            },
    {
        let ghost rv = self@;
        proof {
            assert(rv.len() == self.tools@.len());
            assert(rv.take(rv.len() as int) =~= rv);
        }
        let mut i: usize = self.tools.len();
        while i > 0
            invariant
                rv == self@,
                rv.len() == self.tools@.len(),
                i <= self.tools@.len(),
                registry_get(rv, name@) == registry_get(rv.take(i as int), name@),
            decreases i,
        {
            i -= 1;
            proof {
                assert(rv[i as int] == (self.tools@[i as int].0@, self.tools@[i as int].1));
                assert(rv.take(i + 1).drop_last() =~= rv.take(i as int));
                assert(rv.take(i + 1).last() == rv[i as int]);
            }
            if str_eq(self.tools[i].0.as_str(), name) {
                return Some(&self.tools[i].1);
            }
        }
        proof {
            assert(rv.take(0) =~= Seq::<(Seq<char>, BuiltinTool)>::empty());
        }
        None
    }

    /// The registered names, in registration order: with the registry's
    /// unique-keys invariant, each name appears exactly once.
    pub fn list_available(&self) -> (r: Vec<String>)
        ensures
            r@.len() == self@.len(),
            forall|k: int| 0 <= k < r@.len() ==> (#[trigger] r@[k])@ == self@[k].0,
            registry_keys_unique(self@) ==> (forall|i: int, j: int|
                0 <= i < j < r@.len() ==> (#[trigger] r@[i])@ != (#[trigger] r@[j])@),
    {
        let mut r: Vec<String> = Vec::new();
        let mut i: usize = 0;
        while i < self.tools.len()
            invariant
                i <= self.tools@.len(),
                self@.len() == self.tools@.len(),
                r@.len() == i,
                forall|k: int| 0 <= k < i ==> (#[trigger] r@[k])@ == self@[k].0,
            decreases self.tools@.len() - i,
        {
            proof {
                assert(self@[i as int] == (self.tools@[i as int].0@, self.tools@[i as int].1));
            }
            r.push(self.tools[i].0.clone());
            i += 1;
        }
        proof {
            if registry_keys_unique(self@) {
                assert forall|a: int, b: int| 0 <= a < b < r@.len() implies (#[trigger] r@[a])@
                    != (#[trigger] r@[b])@ by {
                    assert(r@[a]@ == self@[a].0);
                    assert(r@[b]@ == self@[b].0);
                    assert(self@[a].0 != self@[b].0);
                }
            }
        }
        r
    }
}

} // verus!

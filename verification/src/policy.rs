//! Declaring and enforcing safety policies for tool execution.
//!
//! A policy names a tool (or `*` for every tool), a decision, and optionally
//! a condition on the call's arguments and a handler that asks the user.
//! Custom conditions and handlers are functions of the caller; the engine
//! asks for their answers through callbacks, in priority order, and only
//! as far as it needs them.

use vstd::prelude::*;
use crate::types::{BuiltinTools, ToolCall, tool_name, str_equal};
use crate::json::{JsonValue, JsonView, json_get, json_as_str};
use crate::conversation::strings_view;
use crate::path::{is_path_in_workspace, in_workspace};
use crate::hooks::HookResult;

verus! {

#[derive(Debug, Clone, Copy, PartialEq, Eq, Structural)]
pub enum Decision {
    Approve,
    Deny,
    AskUser,
}

/// When a policy applies beyond naming the tool.
#[derive(Debug)]
pub enum Condition {
    /// A predicate on the arguments that the caller holds; the engine asks
    /// for its answer through the `when` callback.
    Custom,
    /// The call names a path (see [`call_path`]) that is non-empty and lies
    /// in none of these directories.
    OutsideWorkspaces(Vec<String>),
}

#[derive(Debug)]
pub struct Policy {
    pub tool: String,
    pub decision: Decision,
    pub when: Option<Condition>,
    /// The caller holds a handler that asks the user (for `AskUser`).
    pub has_ask_user: bool,
    pub name: String,
}

impl Policy {
    pub fn new(tool: &str, decision: Decision, name: &str) -> (p: Self)
        ensures
            p.tool@ == tool@,
            p.decision == decision,
            p.when is None,
            !p.has_ask_user,
            p.name@ == name@,
    {
        Policy {
            tool: tool.to_owned(),
            decision,
            when: None,
            has_ask_user: false,
            name: name.to_owned(),
        }
    }

    /// The policy, applying only when the caller's predicate holds.
    pub fn when(self) -> (p: Self)
        ensures
            p.tool == self.tool,
            p.decision == self.decision,
            p.when == Some(Condition::Custom),
            p.has_ask_user == self.has_ask_user,
            p.name == self.name,
    {
        Policy { when: Some(Condition::Custom), ..self }
    }

    /// The policy under another name.
    pub fn name(self, name: &str) -> (p: Self)
        ensures
            p.tool == self.tool,
            p.decision == self.decision,
            p.when == self.when,
            p.has_ask_user == self.has_ask_user,
            p.name@ == name@,
    {
        Policy { name: name.to_owned(), ..self }
    }
}

// =============================================================================
// Priority order
// =============================================================================

/// Priority tier of a policy: specific deny, specific ask, specific allow,
/// then the same three for the wildcard `*`.
pub open spec fn rank(p: Policy) -> nat {
    let wildcard = p.tool@ == "*"@;
    match (wildcard, p.decision) {
        (false, Decision::Deny) => 0,
        (false, Decision::AskUser) => 1,
        (false, Decision::Approve) => 2,
        (true, Decision::Deny) => 3,
        (true, Decision::AskUser) => 4,
        (true, Decision::Approve) => 5,
    }
}

/// Indices below `k` of the policies in tier `r`, ascending.
pub open spec fn tier_indices(ps: Seq<Policy>, r: nat, k: nat) -> Seq<usize>
    decreases k,
{
    if k == 0 {
        Seq::empty()
    } else {
        let prev = tier_indices(ps, r, (k - 1) as nat);
        if rank(ps[k - 1]) == r {
            prev.push((k - 1) as usize)
        } else {
            prev
        }
    }
}

/// The indices of the tiers below `r`, tier after tier.
pub open spec fn tiers_below(ps: Seq<Policy>, r: nat) -> Seq<usize>
    decreases r,
{
    if r == 0 {
        Seq::empty()
    } else {
        tiers_below(ps, (r - 1) as nat) + tier_indices(ps, (r - 1) as nat, ps.len())
    }
}

/// The order in which the engine considers policies: by tier, and within a
/// tier in the order they were given.
pub open spec fn priority_order(ps: Seq<Policy>) -> Seq<usize> {
    tiers_below(ps, 6)
}

pub struct PolicyEngine {
    policies: Vec<Policy>,
    order: Vec<usize>,
}

fn is_wildcard(tool: &String) -> (b: bool)
    ensures
        b == (tool@ == "*"@),
{
    str_equal(tool.as_str(), "*")
}

fn rank_exec(p: &Policy) -> (r: u8)
    ensures
        r as nat == rank(*p),
{
    let wildcard = is_wildcard(&p.tool);
    match (wildcard, p.decision) {
        (false, Decision::Deny) => 0,
        (false, Decision::AskUser) => 1,
        (false, Decision::Approve) => 2,
        (true, Decision::Deny) => 3,
        (true, Decision::AskUser) => 4,
        (true, Decision::Approve) => 5,
    }
}

impl PolicyEngine {
    pub closed spec fn policies(&self) -> Seq<Policy> {
        self.policies@
    }

    pub closed spec fn order(&self) -> Seq<usize> {
        self.order@
    }

    pub open spec fn wf(&self) -> bool {
        &&& self.policies().len() <= usize::MAX
        &&& self.order() == priority_order(self.policies())
        &&& forall|p: int| 0 <= p < self.order().len() ==> #[trigger] self.order()[p] < self.policies().len()
    }

    /// The engine over `policies`, considered in priority order.
    pub fn new(policies: Vec<Policy>) -> (e: Self)
        ensures
            e.wf(),
            e.policies() == policies@,
    {
        let ghost ps = policies@;
        let n = policies.len();
        let mut order: Vec<usize> = Vec::new();
        let mut r: u8 = 0;
        while r < 6
            invariant
                r <= 6,
                n == ps.len(),
                policies@ == ps,
                order@ == tiers_below(ps, r as nat),
                forall|p: int| 0 <= p < order@.len() ==> #[trigger] order@[p] < n,
            decreases 6 - r,
        {
            let mut i: usize = 0;
            let ghost base = order@;
            while i < n
                invariant
                    i <= n,
                    r < 6,
                    n == ps.len(),
                    policies@ == ps,
                    order@ == base + tier_indices(ps, r as nat, i as nat),
                    forall|p: int| 0 <= p < order@.len() ==> #[trigger] order@[p] < n,
                decreases n - i,
            {
                if rank_exec(&policies[i]) == r {
                    order.push(i);
                }
                assert(order@ =~= base + tier_indices(ps, r as nat, (i + 1) as nat));
                i = i + 1;
            }
            r = r + 1;
        }
        PolicyEngine { policies, order }
    }
}

// =============================================================================
// Conditions on the call
// =============================================================================

/// The argument keys under which a call names its path, by preference.
pub open spec fn path_keys() -> Seq<Seq<char>> {
    seq!["canonical_path"@, "path"@, "file_path"@, "TargetFile"@, "directory_path"@]
}

/// The first of `keys` (from position `i`) whose argument is a string.
pub open spec fn first_string_arg(args: JsonView, keys: Seq<Seq<char>>, i: nat) -> Option<Seq<char>>
    decreases keys.len() - i,
{
    if i >= keys.len() {
        None
    } else {
        match json_get(args, keys[i as int]) {
            Some(v) => match json_as_str(v) {
                Some(s) => Some(s),
                None => first_string_arg(args, keys, i + 1),
            },
            None => first_string_arg(args, keys, i + 1),
        }
    }
}

/// The path that a call's arguments name, if any.
pub open spec fn call_path(args: JsonView) -> Option<Seq<char>> {
    first_string_arg(args, path_keys(), 0)
}

/// Where relative paths are resolved and how names compare.
pub struct PathEnv {
    pub current_dir: Option<String>,
    pub case_insensitive: bool,
}

pub open spec fn env_dir(env: PathEnv) -> Option<Seq<char>> {
    match env.current_dir {
        Some(c) => Some(c@),
        None => None,
    }
}

/// The condition of [`Condition::OutsideWorkspaces`].
pub open spec fn outside_workspaces(args: JsonView, workspaces: Seq<Seq<char>>, env: PathEnv) -> bool {
    match call_path(args) {
        Some(path) => path.len() > 0 && !(exists|i: int| 0 <= i < workspaces.len()
            && in_workspace(path, #[trigger] workspaces[i], env_dir(env), env.case_insensitive)),
        None => false,
    }
}

fn call_path_exec(args: &JsonValue) -> (r: Option<String>)
    ensures
        match call_path(args@) {
            Some(s) => r matches Some(t) && t@ == s,
            None => r is None,
        },
{
    let keys: [&str; 5] = ["canonical_path", "path", "file_path", "TargetFile", "directory_path"];
    proof {
        assert(keys@[0]@ == path_keys()[0] && keys@[1]@ == path_keys()[1] && keys@[2]@ == path_keys()[2]
            && keys@[3]@ == path_keys()[3] && keys@[4]@ == path_keys()[4]);
    }
    let mut i: usize = 0;
    while i < 5
        invariant
            i <= 5,
            forall|k: int| 0 <= k < 5 ==> (#[trigger] keys@[k])@ == path_keys()[k],
            call_path(args@) == first_string_arg(args@, path_keys(), i as nat),
        decreases 5 - i,
    {
        match args.get(keys[i]) {
            Some(v) => match v.as_str() {
                Some(s) => { return Some(s.clone()); },
                None => {},
            },
            None => {},
        }
        i = i + 1;
    }
    None
}

/// Decides the condition of [`Condition::OutsideWorkspaces`] for a call.
pub fn is_outside_workspaces(args: &JsonValue, workspaces: &Vec<String>, env: &PathEnv) -> (b: bool)
    ensures
        b == outside_workspaces(args@, strings_view(workspaces@), *env),
{
    let ghost ws = strings_view(workspaces@);
    match call_path_exec(args) {
        Some(path) => {
            if path.as_str().is_empty() {
                return false;
            }
            let mut i: usize = 0;
            while i < workspaces.len()
                invariant
                    i <= workspaces@.len(),
                    ws == strings_view(workspaces@),
                    call_path(args@) == Some(path@),
                    path@.len() > 0,
                    forall|k: int| 0 <= k < i ==> !in_workspace(path@, #[trigger] ws[k], env_dir(*env), env.case_insensitive),
                decreases workspaces@.len() - i,
            {
                assert(ws[i as int] == workspaces@[i as int]@);
                if is_path_in_workspace(path.as_str(), workspaces[i].as_str(), &env.current_dir, env.case_insensitive) {
                    assert(in_workspace(path@, ws[i as int], env_dir(*env), env.case_insensitive));
                    return false;
                }
                i = i + 1;
            }
            true
        },
        None => false,
    }
}

// =============================================================================
// Evaluation
// =============================================================================

/// `p` concerns a call of the tool named `name`.
pub open spec fn applies(p: Policy, name: Seq<char>) -> bool {
    p.tool@ == "*"@ || p.tool@ == name
}

/// The condition of `p` holds for a call with `args`, where `custom` is the
/// caller's answer for a custom predicate.
pub open spec fn condition_holds(p: Policy, args: JsonView, env: PathEnv, custom: bool) -> bool {
    match p.when {
        None => true,
        Some(Condition::Custom) => custom,
        Some(Condition::OutsideWorkspaces(ws)) => outside_workspaces(args, strings_view(ws@), env),
    }
}

pub open spec fn deny_message(policy_name: Seq<char>) -> Seq<char> {
    "Denied by policy '"@ + policy_name + "'"@
}

pub open spec fn user_denied_message(tool: Seq<char>, policy_name: Seq<char>) -> Seq<char> {
    "User denied tool '"@ + tool + "' (policy '"@ + policy_name + "')"@
}

pub open spec fn missing_handler_message(policy_name: Seq<char>) -> Seq<char> {
    "ASK_USER policy '"@ + policy_name + "' is missing a handler"@
}

/// The view of an evaluation result.
pub open spec fn verdict_view(r: Result<bool, String>) -> Result<bool, Seq<char>> {
    match r {
        Ok(b) => Ok(b),
        Err(m) => Err(m@),
    }
}

impl PolicyEngine {
    /// The policy at position `p` of the priority order.
    pub open spec fn at(&self, p: int) -> Policy {
        self.policies()[self.order()[p] as int]
    }

    /// The policy at position `p` applies to `call` and its condition holds,
    /// `w[p]` being the caller's answer for a custom predicate.
    pub open spec fn decides_at(&self, call: ToolCall, env: PathEnv, w: Seq<bool>, p: int) -> bool {
        applies(self.at(p), call.name@) && condition_holds(self.at(p), call.args@, env, w[p])
    }

    /// The first position from `from` on that decides.
    pub open spec fn first_decision(&self, call: ToolCall, env: PathEnv, w: Seq<bool>, from: nat) -> Option<nat>
        decreases self.order().len() - from,
    {
        if from >= self.order().len() {
            None
        } else if self.decides_at(call, env, w, from as int) {
            Some(from)
        } else {
            self.first_decision(call, env, w, from + 1)
        }
    }

    /// The outcome for `call`, given the answers `w` of the custom predicates
    /// (by position) and the answer `a` of the handler asked, if one is.
    pub open spec fn verdict(&self, call: ToolCall, env: PathEnv, w: Seq<bool>, a: bool) -> Result<bool, Seq<char>> {
        match self.first_decision(call, env, w, 0) {
            None => Ok(true),
            Some(p) => {
                let pol = self.at(p as int);
                match pol.decision {
                    Decision::Approve => Ok(true),
                    Decision::Deny => Err(deny_message(pol.name@)),
                    Decision::AskUser => if pol.has_ask_user {
                        if a { Ok(true) } else { Err(user_denied_message(call.name@, pol.name@)) }
                    } else {
                        Err(missing_handler_message(pol.name@))
                    },
                }
            },
        }
    }

    /// `w` and `a` are answers that the callbacks gave: for every custom
    /// predicate consulted up to the deciding position, and for the handler
    /// asked there.
    pub open spec fn answers_observed<F: Fn(usize) -> bool, G: Fn(usize) -> bool>(&self, call: ToolCall,
        env: PathEnv, when_fn: F, ask_fn: G, w: Seq<bool>, a: bool) -> bool
    {
        &&& w.len() == self.order().len()
        &&& forall|p: int| 0 <= p < self.order().len()
                && (match self.first_decision(call, env, w, 0) {
                    Some(d) => p <= d,
                    None => true,
                })
                && applies(self.at(p), call.name@)
                && self.at(p).when == Some(Condition::Custom)
                ==> call_ensures(when_fn, (self.order()[p],), #[trigger] w[p])
        &&& match self.first_decision(call, env, w, 0) {
                Some(d) => self.at(d as int).decision == Decision::AskUser && self.at(d as int).has_ask_user
                    ==> call_ensures(ask_fn, (self.order()[d as int],), a),
                None => true,
            }
    }

    /// Positions from `from` below `to` do not decide, so the search from
    /// `from` goes on from `to`.
    pub proof fn lemma_first_decision_skip(&self, call: ToolCall, env: PathEnv, w: Seq<bool>, from: nat, to: nat)
        requires
            from <= to <= self.order().len(),
            forall|q: int| from <= q < to ==> !self.decides_at(call, env, w, q),
        ensures
            self.first_decision(call, env, w, from) == self.first_decision(call, env, w, to),
        decreases to - from,
    {
        if from < to {
            self.lemma_first_decision_skip(call, env, w, from + 1, to);
        }
    }

    /// Whether `call` may proceed under the policies, as `PolicyEngine::evaluate`.
    ///
    /// Policies are considered by tier (specific deny, ask, allow, then the
    /// wildcard ones in the same order) and within a tier in the order given;
    /// the first that names the tool (or `*`) and whose condition holds
    /// decides. `when_fn(i)` answers the custom predicate of policy `i` and
    /// `ask_fn(i)` asks the user through the handler of policy `i`; both are
    /// called only for the policies the search reaches.
    pub fn evaluate<F: Fn(usize) -> bool, G: Fn(usize) -> bool>(&self, tool_call: &ToolCall, env: &PathEnv,
        when_fn: &F, ask_fn: &G) -> (r: Result<bool, String>)
        requires
            self.wf(),
            forall|i: usize| call_requires(*when_fn, (i,)),
            forall|i: usize| call_requires(*ask_fn, (i,)),
        ensures
            exists|w: Seq<bool>, a: bool| #[trigger] self.answers_observed(*tool_call, *env, *when_fn, *ask_fn, w, a)
                && verdict_view(r) == self.verdict(*tool_call, *env, w, a),
    {
        let n = self.order.len();
        let ghost mut w: Seq<bool> = Seq::new(n as nat, |i: int| false);
        let ghost mut a: bool = false;
        let mut p: usize = 0;
        while p < n
            invariant
                self.wf(),
                n == self.order().len(),
                p <= n,
                w.len() == n,
                forall|i: usize| call_requires(*when_fn, (i,)),
                forall|i: usize| call_requires(*ask_fn, (i,)),
                forall|q: int| 0 <= q < p ==> !self.decides_at(*tool_call, *env, w, q),
                forall|q: int| 0 <= q < p && applies(self.at(q), tool_call.name@)
                    && self.at(q).when == Some(Condition::Custom)
                    ==> call_ensures(*when_fn, (self.order()[q],), #[trigger] w[q]),
            decreases n - p,
        {
            let idx = self.order[p];
            let pol = &self.policies[idx];
            let applies_now = is_wildcard(&pol.tool) || pol.tool == tool_call.name;
            if applies_now {
                let holds = match &pol.when {
                    None => true,
                    Some(Condition::Custom) => {
                        let b = when_fn(idx);
                        proof {
                            let ghost w0 = w;
                            w = w.update(p as int, b);
                            assert forall|q: int| 0 <= q < p implies !self.decides_at(*tool_call, *env, w, q) by {
                                assert(w[q] == w0[q]);
                                assert(!self.decides_at(*tool_call, *env, w0, q));
                            }
                            assert forall|q: int| 0 <= q < p && applies(self.at(q), tool_call.name@)
                                && self.at(q).when == Some(Condition::Custom)
                                implies call_ensures(*when_fn, (self.order()[q],), #[trigger] w[q]) by {
                                assert(w[q] == w0[q]);
                            }
                        }
                        b
                    },
                    Some(Condition::OutsideWorkspaces(ws)) => is_outside_workspaces(&tool_call.args, ws, env),
                };
                assert(holds == condition_holds(self.at(p as int), tool_call.args@, *env, w[p as int]));
                if holds {
                    proof {
                        assert(self.decides_at(*tool_call, *env, w, p as int));
                        self.lemma_first_decision_skip(*tool_call, *env, w, 0, p as nat);
                        assert(self.first_decision(*tool_call, *env, w, 0) == Some(p as nat));
                    }
                    let r = match pol.decision {
                        Decision::Approve => Ok(true),
                        Decision::Deny => {
                            let mut m = "Denied by policy '".to_owned();
                            m.append(pol.name.as_str());
                            m.append("'");
                            Err(m)
                        },
                        Decision::AskUser => {
                            if pol.has_ask_user {
                                let approved = ask_fn(idx);
                                proof { a = approved; }
                                if approved {
                                    Ok(true)
                                } else {
                                    let mut m = "User denied tool '".to_owned();
                                    m.append(tool_call.name.as_str());
                                    m.append("' (policy '");
                                    m.append(pol.name.as_str());
                                    m.append("')");
                                    Err(m)
                                }
                            } else {
                                let mut m = "ASK_USER policy '".to_owned();
                                m.append(pol.name.as_str());
                                m.append("' is missing a handler");
                                Err(m)
                            }
                        },
                    };
                    proof {
                        assert(self.answers_observed(*tool_call, *env, *when_fn, *ask_fn, w, a));
                    }
                    return r;
                }
            }
            proof {
                assert(!self.decides_at(*tool_call, *env, w, p as int));
            }
            p = p + 1;
        }
        proof {
            self.lemma_first_decision_skip(*tool_call, *env, w, 0, n as nat);
            assert(self.answers_observed(*tool_call, *env, *when_fn, *ask_fn, w, false));
        }
        Ok(true)
    }
}

// =============================================================================
// Helper Creators
// =============================================================================

pub fn allow(tool: &str) -> (p: Policy)
    ensures
        p.tool@ == tool@,
        p.decision == Decision::Approve,
        p.when is None,
        !p.has_ask_user,
        p.name@ == "allow"@,
{
    Policy::new(tool, Decision::Approve, "allow")
}

pub fn deny(tool: &str) -> (p: Policy)
    ensures
        p.tool@ == tool@,
        p.decision == Decision::Deny,
        p.when is None,
        !p.has_ask_user,
        p.name@ == "deny"@,
{
    Policy::new(tool, Decision::Deny, "deny")
}

/// A policy that asks the user, through a handler the caller holds.
pub fn ask_user(tool: &str) -> (p: Policy)
    ensures
        p.tool@ == tool@,
        p.decision == Decision::AskUser,
        p.when is None,
        p.has_ask_user,
        p.name@ == "ask_user"@,
{
    let mut p = Policy::new(tool, Decision::AskUser, "ask_user");
    p.has_ask_user = true;
    p
}

pub fn allow_all() -> (p: Policy)
    ensures
        p.tool@ == "*"@,
        p.decision == Decision::Approve,
        p.when is None,
        !p.has_ask_user,
        p.name@ == "allow_all"@,
{
    Policy::new("*", Decision::Approve, "allow_all")
}

pub fn deny_all() -> (p: Policy)
    ensures
        p.tool@ == "*"@,
        p.decision == Decision::Deny,
        p.when is None,
        !p.has_ask_user,
        p.name@ == "deny_all"@,
{
    Policy::new("*", Decision::Deny, "deny_all")
}

/// Confirm each `run_command` with the user when the caller holds a handler
/// (`has_handler`), deny it otherwise; allow everything else.
pub fn confirm_run_command(has_handler: bool) -> (v: Vec<Policy>)
    ensures
        v@.len() == 2,
        v@[0].tool@ == tool_name(BuiltinTools::RunCommand),
        v@[0].when is None,
        has_handler ==> v@[0].decision == Decision::AskUser && v@[0].has_ask_user
            && v@[0].name@ == "confirm_run_command"@,
        !has_handler ==> v@[0].decision == Decision::Deny && !v@[0].has_ask_user
            && v@[0].name@ == "deny"@,
        v@[1].tool@ == "*"@,
        v@[1].decision == Decision::Approve,
        v@[1].when is None,
        !v@[1].has_ask_user,
        v@[1].name@ == "allow_all"@,
{
    let mut policies: Vec<Policy> = Vec::new();
    if has_handler {
        let mut p = Policy::new(BuiltinTools::RunCommand.as_str(), Decision::AskUser, "confirm_run_command");
        p.has_ask_user = true;
        policies.push(p);
    } else {
        policies.push(deny(BuiltinTools::RunCommand.as_str()));
    }
    policies.push(allow_all());
    policies
}

pub(crate) fn clone_strings(v: &Vec<String>) -> (r: Vec<String>)
    ensures
        strings_view(r@) == strings_view(v@),
{
    let mut r: Vec<String> = Vec::new();
    let mut i: usize = 0;
    while i < v.len()
        invariant
            i <= v@.len(),
            r@.len() == i,
            forall|k: int| 0 <= k < i ==> (#[trigger] r@[k])@ == v@[k]@,
        decreases v@.len() - i,
    {
        r.push(v[i].clone());
        i = i + 1;
    }
    assert(strings_view(r@) =~= strings_view(v@));
    r
}

/// Deny the file tools (view, create, edit) on any named path that lies
/// outside every one of `workspaces`.
pub fn workspace_only(workspaces: Vec<String>) -> (v: Vec<Policy>)
    ensures
        v@.len() == 3,
        v@[0].tool@ == tool_name(BuiltinTools::ViewFile),
        v@[1].tool@ == tool_name(BuiltinTools::CreateFile),
        v@[2].tool@ == tool_name(BuiltinTools::EditFile),
        forall|i: int| 0 <= i < 3 ==> ((#[trigger] v@[i]).decision == Decision::Deny
            && !v@[i].has_ask_user
            && v@[i].name@ == "workspace_only"@
            && (v@[i].when matches Some(Condition::OutsideWorkspaces(ws))
                && strings_view(ws@) == strings_view(workspaces@))),
{
    let mut policies: Vec<Policy> = Vec::new();
    let tools = BuiltinTools::file_tools();
    let mut i: usize = 0;
    while i < 3
        invariant
            i <= 3,
            tools@ == seq![BuiltinTools::ViewFile, BuiltinTools::CreateFile, BuiltinTools::EditFile],
            policies@.len() == i,
            forall|k: int| 0 <= k < i ==> (#[trigger] policies@[k]).tool@ == tool_name(tools@[k]),
            forall|k: int| 0 <= k < i ==> ((#[trigger] policies@[k]).decision == Decision::Deny
                && !policies@[k].has_ask_user
                && policies@[k].name@ == "workspace_only"@
                && (policies@[k].when matches Some(Condition::OutsideWorkspaces(ws))
                    && strings_view(ws@) == strings_view(workspaces@))),
        decreases 3 - i,
    {
        let mut policy = Policy::new(tools[i].as_str(), Decision::Deny, "workspace_only");
        policy.when = Some(Condition::OutsideWorkspaces(clone_strings(&workspaces)));
        policies.push(policy);
        i = i + 1;
    }
    policies
}

/// What the engine answers as a pre-tool-call hook: an approval allows the
/// call; a refusal denies it with the engine's reason.
pub fn policy_hook_result(verdict: Result<bool, String>) -> (h: HookResult)
    ensures
        match verdict {
            Ok(true) => h.allow && h.message@ == Seq::<char>::empty(),
            Ok(false) => !h.allow && h.message@ == Seq::<char>::empty(),
            Err(e) => !h.allow && h.message@ == e@,
        },
{
    match verdict {
        Ok(true) => HookResult::allow(),
        Ok(false) => HookResult { allow: false, message: String::new() },
        Err(e) => HookResult { allow: false, message: e },
    }
}

// =============================================================================
// Laws
// =============================================================================

proof fn lemma_tier_indices(ps: Seq<Policy>, r: nat, k: nat)
    requires
        k <= ps.len(),
        ps.len() <= usize::MAX,
    ensures
        forall|j: int| 0 <= j < tier_indices(ps, r, k).len() ==>
            #[trigger] tier_indices(ps, r, k)[j] < k && rank(ps[tier_indices(ps, r, k)[j] as int]) == r,
        forall|i: int, j: int| 0 <= i < j < tier_indices(ps, r, k).len() ==>
            tier_indices(ps, r, k)[i] < tier_indices(ps, r, k)[j],
        forall|x: int| 0 <= x < k && rank(ps[x]) == r ==> #[trigger] tier_indices(ps, r, k).contains(x as usize),
    decreases k,
{
    if k > 0 {
        let k1 = (k - 1) as nat;
        lemma_tier_indices(ps, r, k1);
        let prev = tier_indices(ps, r, k1);
        let cur = tier_indices(ps, r, k);
        if rank(ps[k1 as int]) == r {
            assert(cur == prev.push(k1 as usize));
            assert forall|j: int| 0 <= j < cur.len() implies
                #[trigger] cur[j] < k && rank(ps[cur[j] as int]) == r by {
                if j < prev.len() { assert(cur[j] == prev[j]); }
            }
            assert forall|i: int, j: int| 0 <= i < j < cur.len() implies cur[i] < cur[j] by {
                assert(cur[i] == prev[i]);
                if j < prev.len() { assert(cur[j] == prev[j]); }
            }
        } else {
            assert(cur == prev);
        }
        assert forall|x: int| 0 <= x < k && rank(ps[x]) == r implies #[trigger] cur.contains(x as usize) by {
            if x < k1 {
                assert(prev.contains(x as usize));
                let j = choose|j: int| 0 <= j < prev.len() && prev[j] == x as usize;
                if rank(ps[k1 as int]) == r {
                    assert(cur[j] == prev[j]);
                }
            } else {
                assert(cur[cur.len() - 1] == x as usize);
            }
        }
    }
}

proof fn lemma_tiers_below(ps: Seq<Policy>, r: nat)
    requires
        ps.len() <= usize::MAX,
    ensures
        forall|j: int| 0 <= j < tiers_below(ps, r).len() ==>
            #[trigger] tiers_below(ps, r)[j] < ps.len() && rank(ps[tiers_below(ps, r)[j] as int]) < r,
        forall|i: int, j: int| 0 <= i < j < tiers_below(ps, r).len() ==>
            rank(ps[tiers_below(ps, r)[i] as int]) < rank(ps[tiers_below(ps, r)[j] as int])
            || (rank(ps[tiers_below(ps, r)[i] as int]) == rank(ps[tiers_below(ps, r)[j] as int])
                && tiers_below(ps, r)[i] < tiers_below(ps, r)[j]),
        forall|x: int| 0 <= x < ps.len() && rank(ps[x]) < r ==> #[trigger] tiers_below(ps, r).contains(x as usize),
    decreases r,
{
    if r > 0 {
        let r1 = (r - 1) as nat;
        lemma_tiers_below(ps, r1);
        lemma_tier_indices(ps, r1, ps.len());
        let a = tiers_below(ps, r1);
        let b = tier_indices(ps, r1, ps.len());
        let c = tiers_below(ps, r);
        assert(c == a + b);
        assert forall|j: int| 0 <= j < c.len() implies
            #[trigger] c[j] < ps.len() && rank(ps[c[j] as int]) < r by {
            if j < a.len() { assert(c[j] == a[j]); } else { assert(c[j] == b[j - a.len()]); }
        }
        assert forall|i: int, j: int| 0 <= i < j < c.len() implies
            rank(ps[c[i] as int]) < rank(ps[c[j] as int])
            || (rank(ps[c[i] as int]) == rank(ps[c[j] as int]) && c[i] < c[j]) by {
            if j < a.len() {
                assert(c[i] == a[i] && c[j] == a[j]);
            } else if i < a.len() {
                assert(c[i] == a[i] && c[j] == b[j - a.len()]);
            } else {
                assert(c[i] == b[i - a.len()] && c[j] == b[j - a.len()]);
            }
        }
        assert forall|x: int| 0 <= x < ps.len() && rank(ps[x]) < r implies #[trigger] c.contains(x as usize) by {
            if rank(ps[x]) < r1 {
                assert(a.contains(x as usize));
                let j = choose|j: int| 0 <= j < a.len() && a[j] == x as usize;
                assert(c[j] == a[j]);
            } else {
                assert(b.contains(x as usize));
                let j = choose|j: int| 0 <= j < b.len() && b[j] == x as usize;
                assert(c[a.len() + j] == b[j]);
            }
        }
    }
}

/// Law: the priority order lists every policy, and orders them by tier and,
/// within a tier, in the order they were given.
pub proof fn lemma_priority_order(ps: Seq<Policy>)
    requires
        ps.len() <= usize::MAX,
    ensures
        forall|x: int| 0 <= x < ps.len() ==> #[trigger] priority_order(ps).contains(x as usize),
        forall|j: int| 0 <= j < priority_order(ps).len() ==> #[trigger] priority_order(ps)[j] < ps.len(),
        forall|i: int, j: int| 0 <= i < j < priority_order(ps).len() ==>
            rank(ps[priority_order(ps)[i] as int]) < rank(ps[priority_order(ps)[j] as int])
            || (rank(ps[priority_order(ps)[i] as int]) == rank(ps[priority_order(ps)[j] as int])
                && priority_order(ps)[i] < priority_order(ps)[j]),
{
    lemma_tiers_below(ps, 6);
    assert forall|x: int| 0 <= x < ps.len() implies #[trigger] priority_order(ps).contains(x as usize) by {
        assert(rank(ps[x]) < 6);
    }
}

impl PolicyEngine {
    proof fn lemma_first_decision_bounded(&self, call: ToolCall, env: PathEnv, w: Seq<bool>, from: nat, q: int)
        requires
            from <= q < self.order().len(),
            self.decides_at(call, env, w, q),
        ensures
            self.first_decision(call, env, w, from) matches Some(m)
                && from <= m <= q && self.decides_at(call, env, w, m as int),
        decreases q - from,
    {
        if !self.decides_at(call, env, w, from as int) {
            self.lemma_first_decision_bounded(call, env, w, from + 1, q);
        }
    }
}

/// Law: the policy that decides is, among all policies that apply to the
/// call and whose condition holds, one of the lowest tier (specific deny,
/// specific ask, specific allow, wildcard deny, wildcard ask, wildcard
/// allow), and within that tier the one given first.
pub proof fn lemma_decision_priority(e: &PolicyEngine, call: ToolCall, env: PathEnv, w: Seq<bool>, q: int)
    requires
        e.wf(),
        0 <= q < e.order().len(),
        e.decides_at(call, env, w, q),
    ensures
        e.first_decision(call, env, w, 0) matches Some(m)
            && m <= q
            && e.decides_at(call, env, w, m as int)
            && (rank(e.at(m as int)) < rank(e.at(q))
                || (rank(e.at(m as int)) == rank(e.at(q)) && e.order()[m as int] <= e.order()[q])),
{
    e.lemma_first_decision_bounded(call, env, w, 0, q);
    lemma_priority_order(e.policies());
}

/// Law: with no policy that applies to the tool, the call is allowed.
pub proof fn lemma_default_allow(e: &PolicyEngine, call: ToolCall, env: PathEnv, w: Seq<bool>, a: bool)
    requires
        e.wf(),
        forall|i: int| 0 <= i < e.policies().len() ==> !applies(#[trigger] e.policies()[i], call.name@),
    ensures
        e.verdict(call, env, w, a) == Ok::<bool, Seq<char>>(true),
{
    assert forall|q: int| 0 <= q < e.order().len() implies !e.decides_at(call, env, w, q) by {
        assert(e.order()[q] < e.policies().len());
    }
    e.lemma_first_decision_skip(call, env, w, 0, e.order().len());
}

/// Position in the priority order of policy `i`.
proof fn lemma_position_of(e: &PolicyEngine, i: int) -> (q: int)
    requires
        e.wf(),
        0 <= i < e.policies().len(),
    ensures
        0 <= q < e.order().len(),
        e.order()[q] == i,
{
    lemma_priority_order(e.policies());
    assert(priority_order(e.policies()).contains(i as usize));
    choose|q: int| 0 <= q < e.order().len() && e.order()[q] == i as usize
}

/// Law: a policy that denies the tool by name, unconditionally, cannot be
/// overridden: whatever else is configured and whatever the predicates and
/// handlers answer, the call is denied by a specific deny policy.
pub proof fn lemma_specific_deny_wins(e: &PolicyEngine, call: ToolCall, env: PathEnv, w: Seq<bool>, a: bool, i: int)
    requires
        e.wf(),
        0 <= i < e.policies().len(),
        e.policies()[i].tool@ == call.name@,
        e.policies()[i].tool@ != "*"@,
        e.policies()[i].decision == Decision::Deny,
        e.policies()[i].when is None,
    ensures
        e.first_decision(call, env, w, 0) matches Some(m)
            && e.at(m as int).decision == Decision::Deny
            && e.at(m as int).tool@ == call.name@
            && e.verdict(call, env, w, a) == Err::<bool, Seq<char>>(deny_message(e.at(m as int).name@)),
{
    let q = lemma_position_of(e, i);
    assert(e.at(q) == e.policies()[i]);
    assert(e.decides_at(call, env, w, q));
    lemma_decision_priority(e, call, env, w, q);
}

/// Law: an unconditional allow for the tool by name wins over every
/// wildcard policy, unless some specific deny or ask policy for the tool
/// applies.
pub proof fn lemma_specific_allow_beats_wildcard(e: &PolicyEngine, call: ToolCall, env: PathEnv, w: Seq<bool>,
    a: bool, i: int)
    requires
        e.wf(),
        0 <= i < e.policies().len(),
        e.policies()[i].tool@ == call.name@,
        e.policies()[i].tool@ != "*"@,
        e.policies()[i].decision == Decision::Approve,
        e.policies()[i].when is None,
        forall|j: int| 0 <= j < e.policies().len() && (#[trigger] e.policies()[j]).tool@ == call.name@
            ==> e.policies()[j].decision == Decision::Approve,
    ensures
        e.verdict(call, env, w, a) == Ok::<bool, Seq<char>>(true),
{
    let q = lemma_position_of(e, i);
    assert(e.at(q) == e.policies()[i]);
    assert(e.decides_at(call, env, w, q));
    lemma_decision_priority(e, call, env, w, q);
    let m = e.first_decision(call, env, w, 0)->0;
    assert(e.order()[m as int] < e.policies().len());
    if e.at(m as int).tool@ != "*"@ {
        assert(e.at(m as int).tool@ == call.name@);
    }
}

/// Law: a policy that names the tool, whatever its decision, is considered
/// before every wildcard policy; within the named policies and within the
/// wildcard ones, deny comes before ask and ask before allow.
pub proof fn lemma_specific_before_wildcard(p: Policy, q: Policy)
    ensures
        p.tool@ != "*"@ && q.tool@ == "*"@ ==> rank(p) < rank(q),
        (p.tool@ == "*"@) == (q.tool@ == "*"@) && p.decision == Decision::Deny
            && q.decision != Decision::Deny ==> rank(p) < rank(q),
        (p.tool@ == "*"@) == (q.tool@ == "*"@) && p.decision == Decision::AskUser
            && q.decision == Decision::Approve ==> rank(p) < rank(q),
{
}

/// Law: where an unconditional ask policy names the tool and no policy that
/// names the tool denies it, a policy that names the tool and asks the user
/// decides, before any wildcard policy: the user is asked, and a refusal
/// denies the call (or, with no handler, the missing handler is reported).
pub proof fn lemma_specific_ask_asks_user(e: &PolicyEngine, call: ToolCall, env: PathEnv, w: Seq<bool>,
    a: bool, i: int)
    requires
        e.wf(),
        0 <= i < e.policies().len(),
        e.policies()[i].tool@ == call.name@,
        e.policies()[i].tool@ != "*"@,
        e.policies()[i].decision == Decision::AskUser,
        e.policies()[i].when is None,
        forall|j: int| 0 <= j < e.policies().len() && (#[trigger] e.policies()[j]).tool@ == call.name@
            ==> e.policies()[j].decision != Decision::Deny,
    ensures
        e.first_decision(call, env, w, 0) matches Some(m)
            && e.at(m as int).tool@ == call.name@
            && e.at(m as int).tool@ != "*"@
            && e.at(m as int).decision == Decision::AskUser
            && e.verdict(call, env, w, a) == if e.at(m as int).has_ask_user {
                if a {
                    Ok::<bool, Seq<char>>(true)
                } else {
                    Err::<bool, Seq<char>>(user_denied_message(call.name@, e.at(m as int).name@))
                }
            } else {
                Err::<bool, Seq<char>>(missing_handler_message(e.at(m as int).name@))
            },
{
    let q = lemma_position_of(e, i);
    assert(e.at(q) == e.policies()[i]);
    assert(e.decides_at(call, env, w, q));
    lemma_decision_priority(e, call, env, w, q);
    let m = e.first_decision(call, env, w, 0)->0;
    let k = e.order()[m as int] as int;
    assert(0 <= k < e.policies().len());
    assert(e.at(m as int) == e.policies()[k]);
    assert(rank(e.at(m as int)) <= 1);
    assert(e.at(m as int).tool@ != "*"@);
    assert(e.at(m as int).tool@ == call.name@);
    assert(e.policies()[k].decision != Decision::Deny);
}

/// Law: a call is outside the workspaces exactly when it names a non-empty
/// path (under the first of `canonical_path`, `path`, `file_path`,
/// `TargetFile`, `directory_path` that holds a string) and that path lies in
/// none of them; a call that names no path, or an empty one, is not.
pub proof fn lemma_outside_workspaces_cases(args: JsonView, workspaces: Seq<Seq<char>>, env: PathEnv)
    ensures
        call_path(args) is None ==> !outside_workspaces(args, workspaces, env),
        call_path(args) == Some(Seq::<char>::empty()) ==> !outside_workspaces(args, workspaces, env),
        forall|i: int| 0 <= i < workspaces.len() && call_path(args) is Some
            && in_workspace(call_path(args)->0, #[trigger] workspaces[i], env_dir(env), env.case_insensitive)
            ==> !outside_workspaces(args, workspaces, env),
        call_path(args) is Some && call_path(args)->0.len() > 0
            && (forall|i: int| 0 <= i < workspaces.len() ==> !in_workspace(call_path(args)->0,
                #[trigger] workspaces[i], env_dir(env), env.case_insensitive))
            ==> outside_workspaces(args, workspaces, env),
        json_get(args, "canonical_path"@) is Some && json_as_str(json_get(args, "canonical_path"@)->0) is Some
            ==> call_path(args) == json_as_str(json_get(args, "canonical_path"@)->0),
{
    assert(path_keys()[0] == "canonical_path"@);
    if let Some(path) = call_path(args) {
        if forall|i: int| 0 <= i < workspaces.len() ==> !in_workspace(path, #[trigger] workspaces[i],
            env_dir(env), env.case_insensitive) {
            assert(!(exists|i: int| 0 <= i < workspaces.len()
                && in_workspace(path, #[trigger] workspaces[i], env_dir(env), env.case_insensitive)));
        }
    }
}

/// Law: a deny policy that names the tool and is conditioned on the call
/// being outside the workspaces denies every call whose path lies outside
/// them, whatever else is configured: a policy that names the tool denies it.
pub proof fn lemma_outside_workspace_denied(e: &PolicyEngine, call: ToolCall, env: PathEnv, w: Seq<bool>, a: bool,
    i: int, ws: Vec<String>)
    requires
        e.wf(),
        0 <= i < e.policies().len(),
        e.policies()[i].tool@ == call.name@,
        e.policies()[i].tool@ != "*"@,
        e.policies()[i].decision == Decision::Deny,
        e.policies()[i].when == Some(Condition::OutsideWorkspaces(ws)),
        outside_workspaces(call.args@, strings_view(ws@), env),
    ensures
        e.first_decision(call, env, w, 0) matches Some(m)
            && e.at(m as int).decision == Decision::Deny
            && e.at(m as int).tool@ == call.name@
            && e.verdict(call, env, w, a) == Err::<bool, Seq<char>>(deny_message(e.at(m as int).name@)),
{
    let q = lemma_position_of(e, i);
    assert(e.at(q) == e.policies()[i]);
    assert(e.decides_at(call, env, w, q));
    lemma_decision_priority(e, call, env, w, q);
}

/// Law: where every policy that concerns the tool is conditioned on the call
/// being outside the workspaces (as those of `workspace_only` are), a call
/// whose path lies inside them is allowed.
pub proof fn lemma_inside_workspace_allowed(e: &PolicyEngine, call: ToolCall, env: PathEnv, w: Seq<bool>, a: bool)
    requires
        e.wf(),
        forall|j: int| 0 <= j < e.policies().len() && applies(#[trigger] e.policies()[j], call.name@)
            ==> (e.policies()[j].when matches Some(Condition::OutsideWorkspaces(ws))
                && !outside_workspaces(call.args@, strings_view(ws@), env)),
    ensures
        e.verdict(call, env, w, a) == Ok::<bool, Seq<char>>(true),
{
    assert forall|q: int| 0 <= q < e.order().len() implies !e.decides_at(call, env, w, q) by {
        assert(e.order()[q] < e.policies().len());
        assert(e.at(q) == e.policies()[e.order()[q] as int]);
    }
    e.lemma_first_decision_skip(call, env, w, 0, e.order().len());
}

/// Law: an engine over the policies of `confirm_run_command` asks the user
/// before every `run_command` (a refusal denies it, naming the tool and the
/// policy), or denies it outright where the caller holds no handler; every
/// other tool is allowed. This holds whatever the call's arguments.
pub proof fn lemma_confirm_run_command_engine(e: &PolicyEngine, call: ToolCall, env: PathEnv, w: Seq<bool>,
    a: bool, has_handler: bool)
    requires
        e.wf(),
        e.policies().len() == 2,
        e.policies()[0].tool@ == tool_name(BuiltinTools::RunCommand),
        e.policies()[0].when is None,
        has_handler ==> e.policies()[0].decision == Decision::AskUser && e.policies()[0].has_ask_user
            && e.policies()[0].name@ == "confirm_run_command"@,
        !has_handler ==> e.policies()[0].decision == Decision::Deny && e.policies()[0].name@ == "deny"@,
        e.policies()[1].tool@ == "*"@,
        e.policies()[1].decision == Decision::Approve,
        e.policies()[1].when is None,
    ensures
        call.name@ == tool_name(BuiltinTools::RunCommand) && has_handler && !a ==> e.verdict(call, env, w, a)
            == Err::<bool, Seq<char>>(user_denied_message(call.name@, "confirm_run_command"@)),
        call.name@ == tool_name(BuiltinTools::RunCommand) && has_handler && a ==> e.verdict(call, env, w, a)
            == Ok::<bool, Seq<char>>(true),
        call.name@ == tool_name(BuiltinTools::RunCommand) && !has_handler ==> e.verdict(call, env, w, a)
            == Err::<bool, Seq<char>>(deny_message("deny"@)),
        call.name@ != tool_name(BuiltinTools::RunCommand) ==> e.verdict(call, env, w, a)
            == Ok::<bool, Seq<char>>(true),
{
    reveal_strlit("run_command");
    reveal_strlit("*");
    assert(tool_name(BuiltinTools::RunCommand).len() == 11 && "*"@.len() == 1);
    assert(e.policies()[0].tool@ != "*"@);
    lemma_priority_order(e.policies());
    if call.name@ == tool_name(BuiltinTools::RunCommand) {
        if has_handler {
            lemma_specific_ask_asks_user(e, call, env, w, a, 0);
        } else {
            lemma_specific_deny_wins(e, call, env, w, a, 0);
        }
        let m = e.first_decision(call, env, w, 0)->0;
        assert(e.order()[m as int] < 2);
        assert(e.at(m as int).tool@ != "*"@);
        assert(e.order()[m as int] == 0);
    } else {
        let q = lemma_position_of(e, 1);
        assert(e.at(q) == e.policies()[1]);
        assert(e.decides_at(call, env, w, q));
        lemma_decision_priority(e, call, env, w, q);
        let m = e.first_decision(call, env, w, 0)->0;
        assert(e.order()[m as int] < 2);
        assert(e.order()[m as int] != 0) by {
            if e.order()[m as int] == 0 {
                assert(e.at(m as int) == e.policies()[0]);
            }
        }
    }
}

/// Whether a policy is in tier `r`.
pub open spec fn in_tier(r: nat) -> spec_fn(Policy) -> bool {
    |p: Policy| rank(p) == r
}

/// The policies of tier `r`, in the order given.
pub open spec fn tier_of(ps: Seq<Policy>, r: nat) -> Seq<Policy> {
    ps.filter(in_tier(r))
}

/// The policy at each index.
pub open spec fn pick(ps: Seq<Policy>) -> spec_fn(usize) -> Policy {
    |i: usize| ps[i as int]
}

/// The policies of the tiers below `r`, tier after tier.
pub open spec fn tiers_of(ps: Seq<Policy>, r: nat) -> Seq<Policy>
    decreases r,
{
    if r == 0 {
        Seq::empty()
    } else {
        tiers_of(ps, (r - 1) as nat) + tier_of(ps, (r - 1) as nat)
    }
}

proof fn lemma_tier_indices_pick(ps: Seq<Policy>, r: nat, k: nat)
    requires
        k <= ps.len(),
        ps.len() <= usize::MAX,
    ensures
        tier_indices(ps, r, k).map_values(pick(ps)) == ps.take(k as int).filter(in_tier(r)),
    decreases k,
{
    reveal(Seq::filter);
    let cur = tier_indices(ps, r, k);
    if k == 0 {
        assert(ps.take(0) =~= Seq::<Policy>::empty());
        assert(cur.map_values(pick(ps)) =~= Seq::<Policy>::empty());
    } else {
        let k1 = (k - 1) as nat;
        lemma_tier_indices_pick(ps, r, k1);
        let prev = tier_indices(ps, r, k1);
        let t = ps.take(k as int);
        assert(t.drop_last() =~= ps.take(k1 as int));
        assert(t.last() == ps[k1 as int]);
        assert(pick(ps)(k1 as usize) == ps[k1 as int]);
        assert(in_tier(r)(ps[k1 as int]) == (rank(ps[k1 as int]) == r));
        if rank(ps[k1 as int]) == r {
            assert(cur == prev.push(k1 as usize));
            assert(cur.map_values(pick(ps)) =~= prev.map_values(pick(ps)).push(ps[k1 as int]));
            assert(t.filter(in_tier(r)) == t.drop_last().filter(in_tier(r)).push(t.last()));
        } else {
            assert(cur == prev);
            assert(t.filter(in_tier(r)) == t.drop_last().filter(in_tier(r)));
        }
    }
}

proof fn lemma_tiers_below_pick(ps: Seq<Policy>, r: nat)
    requires
        ps.len() <= usize::MAX,
    ensures
        tiers_below(ps, r).map_values(pick(ps)) == tiers_of(ps, r),
    decreases r,
{
    if r == 0 {
        assert(tiers_below(ps, 0).map_values(pick(ps)) =~= Seq::<Policy>::empty());
    } else {
        let r1 = (r - 1) as nat;
        lemma_tiers_below_pick(ps, r1);
        lemma_tier_indices_pick(ps, r1, ps.len());
        assert(ps.take(ps.len() as int) =~= ps);
        let a = tiers_below(ps, r1);
        let b = tier_indices(ps, r1, ps.len());
        assert((a + b).map_values(pick(ps)) =~= a.map_values(pick(ps)) + b.map_values(pick(ps)));
    }
}

proof fn lemma_same_tiers_of(ps: Seq<Policy>, qs: Seq<Policy>, r: nat)
    requires
        r <= 6,
        forall|t: nat| t < 6 ==> #[trigger] tier_of(ps, t) == tier_of(qs, t),
    ensures
        tiers_of(ps, r) == tiers_of(qs, r),
    decreases r,
{
    if r > 0 {
        lemma_same_tiers_of(ps, qs, (r - 1) as nat);
        assert(tier_of(ps, (r - 1) as nat) == tier_of(qs, (r - 1) as nat));
    }
}

impl PolicyEngine {
    proof fn lemma_first_decision_same(&self, other: &PolicyEngine, call: ToolCall, env: PathEnv, w: Seq<bool>,
        from: nat)
        requires
            self.order().len() == other.order().len(),
            forall|p: int| 0 <= p < self.order().len() ==> #[trigger] self.at(p) == other.at(p),
        ensures
            self.first_decision(call, env, w, from) == other.first_decision(call, env, w, from),
            self.first_decision(call, env, w, from) matches Some(m) ==> m < self.order().len(),
        decreases self.order().len() - from,
    {
        if from < self.order().len() {
            assert(self.at(from as int) == other.at(from as int));
            self.lemma_first_decision_same(other, call, env, w, from + 1);
        }
    }
}

/// Law: the order in which policies are given matters only within a tier.
/// Two engines whose policies list the same policies tier by tier, each
/// tier in the same order, consider the same policies in the same order, so
/// they decide every call alike, whatever the predicates and handlers answer.
pub proof fn lemma_order_matters_only_within_tiers(e1: &PolicyEngine, e2: &PolicyEngine, call: ToolCall,
    env: PathEnv, w: Seq<bool>, a: bool)
    requires
        e1.wf(),
        e2.wf(),
        forall|t: nat| t < 6 ==> #[trigger] tier_of(e1.policies(), t) == tier_of(e2.policies(), t),
    ensures
        e1.order().len() == e2.order().len(),
        forall|p: int| 0 <= p < e1.order().len() ==> #[trigger] e1.at(p) == e2.at(p),
        e1.verdict(call, env, w, a) == e2.verdict(call, env, w, a),
{
    let ps = e1.policies();
    let qs = e2.policies();
    lemma_tiers_below_pick(ps, 6);
    lemma_tiers_below_pick(qs, 6);
    lemma_same_tiers_of(ps, qs, 6);
    let m1 = e1.order().map_values(pick(ps));
    let m2 = e2.order().map_values(pick(qs));
    assert(m1 == m2);
    assert(e1.order().len() == m1.len() && e2.order().len() == m2.len());
    assert forall|p: int| 0 <= p < e1.order().len() implies #[trigger] e1.at(p) == e2.at(p) by {
        assert(m1[p] == e1.at(p));
        assert(m2[p] == e2.at(p));
    }
    e1.lemma_first_decision_same(e2, call, env, w, 0);
    if let Some(m) = e1.first_decision(call, env, w, 0) {
        assert(e1.at(m as int) == e2.at(m as int));
    }
}

} // verus!

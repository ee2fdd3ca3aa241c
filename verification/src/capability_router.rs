use vstd::prelude::*;
use vstd::string::*;

use crate::json::{json_text, Json, JsonValue};
use crate::text::str_eq;

verus! {

/// The kind of operation an agent can perform.
#[derive(Debug, Clone, Copy, PartialEq, Eq, Structural)]
pub enum ActionType {
    /// Locate an existing resource.
    Find,
    /// Perform analysis on a resource.
    Analyze,
    /// Generate a new resource.
    Create,
}

/// The kind of domain resource an action operates on.
#[derive(Debug, Clone, Copy, PartialEq, Eq, Structural)]
pub enum ResourceType {
    /// A sales report containing transactional data.
    SalesReport,
    /// A server log with operational events.
    ServerLog,
    /// A general-purpose document.
    Document,
    /// A loan application for approval workflow.
    LoanApplication,
}

impl ActionType {
    /// The snake_case name of the action, as it is written in JSON.
    pub open spec fn name(self) -> Seq<char> {
        match self {
            ActionType::Find => "find"@,
            ActionType::Analyze => "analyze"@,
            ActionType::Create => "create"@,
        }
    }

    /// The action named `s`, if any.
    pub open spec fn named(s: Seq<char>) -> Option<ActionType> {
        if s == "find"@ {
            Some(ActionType::Find)
        } else if s == "analyze"@ {
            Some(ActionType::Analyze)
        } else if s == "create"@ {
            Some(ActionType::Create)
        } else {
            None
        }
    }

    /// The snake_case name of the action.
    pub fn as_str(&self) -> (r: &'static str)
        ensures
            r@ == self.name(),
    {
        match self {
            ActionType::Find => "find",
            ActionType::Analyze => "analyze",
            ActionType::Create => "create",
        }
    }

    /// The action with the snake_case name `s`, if any.
    pub fn from_name(s: &str) -> (r: Option<ActionType>)
        ensures
            r == Self::named(s@),
    {
        if str_eq(s, "find") {
            Some(ActionType::Find)
        } else if str_eq(s, "analyze") {
            Some(ActionType::Analyze)
        } else if str_eq(s, "create") {
            Some(ActionType::Create)
        } else {
            None
        }
    }
}

impl ResourceType {
    /// The snake_case name of the resource, as it is written in JSON.
    pub open spec fn name(self) -> Seq<char> {
        match self {
            ResourceType::SalesReport => "sales_report"@,
            ResourceType::ServerLog => "server_log"@,
            ResourceType::Document => "document"@,
            ResourceType::LoanApplication => "loan_application"@,
        }
    }

    /// The resource named `s`, if any.
    pub open spec fn named(s: Seq<char>) -> Option<ResourceType> {
        if s == "sales_report"@ {
            Some(ResourceType::SalesReport)
        } else if s == "server_log"@ {
            Some(ResourceType::ServerLog)
        } else if s == "document"@ {
            Some(ResourceType::Document)
        } else if s == "loan_application"@ {
            Some(ResourceType::LoanApplication)
        } else {
            None
        }
    }

    /// The snake_case name of the resource.
    pub fn as_str(&self) -> (r: &'static str)
        ensures
            r@ == self.name(),
    {
        match self {
            ResourceType::SalesReport => "sales_report",
            ResourceType::ServerLog => "server_log",
            ResourceType::Document => "document",
            ResourceType::LoanApplication => "loan_application",
        }
    }

    /// The resource with the snake_case name `s`, if any.
    pub fn from_name(s: &str) -> (r: Option<ResourceType>)
        ensures
            r == Self::named(s@),
    {
        if str_eq(s, "sales_report") {
            Some(ResourceType::SalesReport)
        } else if str_eq(s, "server_log") {
            Some(ResourceType::ServerLog)
        } else if str_eq(s, "document") {
            Some(ResourceType::Document)
        } else if str_eq(s, "loan_application") {
            Some(ResourceType::LoanApplication)
        } else {
            None
        }
    }
}

/// Law: each action and each resource is read back from its name.
pub proof fn law_names_read_back(a: ActionType, r: ResourceType)
    ensures
        ActionType::named(a.name()) == Some(a),
        ResourceType::named(r.name()) == Some(r),
{
    reveal_strlit("find");
    reveal_strlit("analyze");
    reveal_strlit("create");
    reveal_strlit("sales_report");
    reveal_strlit("server_log");
    reveal_strlit("document");
    reveal_strlit("loan_application");
    assert("find"@.len() == 4 && "analyze"@.len() == 7 && "create"@.len() == 6);
    assert("sales_report"@.len() == 12 && "server_log"@.len() == 10);
    assert("document"@.len() == 8 && "loan_application"@.len() == 16);
}

/// A structured intent extracted from natural language, used to route to the correct agent.
#[derive(Debug)]
pub struct RoutingIntent {
    /// The action to perform.
    pub action: ActionType,
    /// The resource type the action targets.
    pub resource: ResourceType,
    /// Arbitrary key-value parameters extracted from the request.
    pub parameters: JsonValue,
}

/// Result of routing an intent to an agent.
#[derive(Debug, PartialEq)]
pub enum RouteResult {
    /// The intent was matched to a registered agent.
    Routed {
        /// The name of the matched agent.
        agent_name: String,
        /// The parameters to pass to the agent.
        parameters: JsonValue,
    },
    /// No registered agent can handle the given action/resource pair.
    NotFound {
        /// The action that was requested.
        action: String,
        /// The resource that was requested.
        resource: String,
    },
}

/// The line that announces a request routed to `agent` with `parameters`.
pub open spec fn routing_line_text(agent: Seq<char>, parameters: Json) -> Seq<char> {
    "Routing to "@ + agent + " with params: "@ + json_text(parameters)
}

impl RouteResult {
    /// Returns true if the intent was successfully routed to an agent.
    pub fn is_routed(&self) -> (r: bool)
        ensures
            r == (self is Routed),
    {
        match self {
            RouteResult::Routed { .. } => true,
            RouteResult::NotFound { .. } => false,
        }
    }

    /// Returns the agent name if routed, or None if not found.
    pub fn agent_name(&self) -> (r: Option<&str>)
        ensures
            match self {
                RouteResult::Routed { agent_name, .. } => r is Some && r->Some_0@ == agent_name@,
                RouteResult::NotFound { .. } => r is None,
            },
    {
        match self {
            RouteResult::Routed { agent_name, .. } => Some(agent_name.as_str()),
            RouteResult::NotFound { .. } => None,
        }
    }

    /// The line that announces a routed request: the agent and its parameters as compact JSON;
    /// none for a request that no agent serves.
    pub fn routing_line(&self) -> (r: Option<String>)
        ensures
            match self {
                RouteResult::Routed { agent_name, parameters } => r is Some && r->Some_0@ == routing_line_text(
                    agent_name@,
                    parameters.view(),
                ),
                RouteResult::NotFound { .. } => r is None,
            },
    {
        match self {
            RouteResult::Routed { agent_name, parameters } => Some(
                String::from_str("Routing to ").concat(agent_name.as_str()).concat(" with params: ").concat(
                    parameters.to_text().as_str(),
                ),
            ),
            RouteResult::NotFound { .. } => None,
        }
    }

    /// Returns a human-readable description of the routing result.
    pub fn display(&self) -> (r: String)
        ensures
            r@ == match self {
                RouteResult::Routed { agent_name, .. } => "Routed to "@ + agent_name@,
                RouteResult::NotFound { action, resource } => "No agent exists that can '"@ + action@ + "' a '"@
                    + resource@ + "'"@,
            },
    {
        match self {
            RouteResult::Routed { agent_name, .. } => String::from_str("Routed to ").concat(agent_name.as_str()),
            RouteResult::NotFound { action, resource } => String::from_str("No agent exists that can '").concat(
                action.as_str(),
            ).concat("' a '").concat(resource.as_str()).concat("'"),
        }
    }
}

/// One entry of the capability graph: the agent that handles an action on a resource.
struct Capability {
    action: ActionType,
    resource: ResourceType,
    agent: String,
}

/// The agent that the first entry for `(a, r)` in `table` names, if any.
pub open spec fn lookup(table: Seq<(ActionType, ResourceType, Seq<char>)>, a: ActionType, r: ResourceType) -> Option<Seq<char>>
    decreases table.len(),
{
    if table.len() == 0 {
        None
    } else if table[0].0 == a && table[0].1 == r {
        Some(table[0].2)
    } else {
        lookup(table.drop_first(), a, r)
    }
}

/// The agents the router knows from the start.
pub open spec fn default_route(a: ActionType, r: ResourceType) -> Option<Seq<char>> {
    match (a, r) {
        (ActionType::Find, ResourceType::SalesReport) => Some("SalesAgent"@),
        (ActionType::Analyze, ResourceType::SalesReport) => Some("SalesAgent"@),
        (ActionType::Find, ResourceType::Document) => Some("ComplianceAgent"@),
        (ActionType::Create, ResourceType::ServerLog) => Some("DevOpsAgent"@),
        (ActionType::Create, ResourceType::LoanApplication) => Some("LoanOrchestratorAgent"@),
        _ => None,
    }
}

/// Maps (action, resource) pairs to agent names and dispatches requests.
pub struct AgentRouter {
    capability_graph: Vec<Capability>,
}

impl AgentRouter {
    /// The capability graph as (action, resource, agent) entries, in order.
    pub closed spec fn table(self) -> Seq<(ActionType, ResourceType, Seq<char>)> {
        self.capability_graph@.map_values(|c: Capability| (c.action, c.resource, c.agent@))
    }

    /// The agent the router sends `(a, r)` to, if any.
    pub open spec fn route(self, a: ActionType, r: ResourceType) -> Option<Seq<char>> {
        lookup(self.table(), a, r)
    }

    fn entry(action: ActionType, resource: ResourceType, agent: &str) -> (r: Capability)
        ensures
            r.action == action,
            r.resource == resource,
            r.agent@ == agent@,
    {
        Capability { action, resource, agent: String::from_str(agent) }
    }

    /// A router that knows the built-in agents.
    pub fn new() -> (r: Self)
        ensures
            forall|a: ActionType, res: ResourceType| #[trigger] r.route(a, res) == default_route(a, res),
    {
        let mut capability_graph: Vec<Capability> = Vec::new();
        capability_graph.push(Self::entry(ActionType::Find, ResourceType::SalesReport, "SalesAgent"));
        capability_graph.push(Self::entry(ActionType::Analyze, ResourceType::SalesReport, "SalesAgent"));
        capability_graph.push(Self::entry(ActionType::Find, ResourceType::Document, "ComplianceAgent"));
        capability_graph.push(Self::entry(ActionType::Create, ResourceType::ServerLog, "DevOpsAgent"));
        capability_graph.push(Self::entry(ActionType::Create, ResourceType::LoanApplication, "LoanOrchestratorAgent"));
        let r = AgentRouter { capability_graph };
        proof {
            let t = r.table();
            assert forall|a: ActionType, res: ResourceType| #[trigger] r.route(a, res) == default_route(a, res) by {
                assert(t.drop_first().drop_first().drop_first().drop_first().drop_first().len() == 0);
                reveal_with_fuel(lookup, 6);
            }
        }
        r
    }

    /// Routes an intent: to the agent that the capability graph names for its action and
    /// resource, with its parameters, or to `NotFound` with the names of both.
    pub fn route_request(&self, intent: &RoutingIntent) -> (r: RouteResult)
        ensures
            match self.route(intent.action, intent.resource) {
                Some(agent) => r matches RouteResult::Routed { agent_name, parameters } && agent_name@ == agent
                    && parameters.view() == intent.parameters.view(),
                None => r matches RouteResult::NotFound { action, resource } && action@ == intent.action.name()
                    && resource@ == intent.resource.name(),
            },
    {
        let n = self.capability_graph.len();
        let mut i: usize = 0;
        assert(self.table().skip(0) =~= self.table());
        while i < n
            invariant
                n == self.capability_graph@.len(),
                0 <= i <= n,
                self.route(intent.action, intent.resource) == lookup(self.table().skip(i as int), intent.action, intent.resource),
            decreases n - i,
        {
            let c = &self.capability_graph[i];
            let ghost rest = self.table().skip(i as int);
            assert(rest.drop_first() =~= self.table().skip(i + 1));
            if c.action == intent.action && c.resource == intent.resource {
                return RouteResult::Routed { agent_name: c.agent.clone(), parameters: intent.parameters.duplicate() };
            }
            i = i + 1;
        }
        assert(self.table().skip(n as int).len() == 0);
        RouteResult::NotFound {
            action: String::from_str(intent.action.as_str()),
            resource: String::from_str(intent.resource.as_str()),
        }
    }
}

impl Default for AgentRouter {
    fn default() -> (r: Self)
        ensures
            forall|a: ActionType, res: ResourceType| #[trigger] r.route(a, res) == default_route(a, res),
    {
        Self::new()
    }
}

} // verus!

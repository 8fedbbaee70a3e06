//! The router builder: which endpoints the server exposes, and where.

use vstd::prelude::*;
use crate::server::error::BuildError;
use crate::text::concat_str;

verus! {

/// HTTP method of a route.
#[derive(Debug, Clone, Copy, PartialEq, Eq, Structural)]
pub enum Method {
    Get,
    Post,
}

/// The handler a route leads to.
#[derive(Debug, Clone, Copy, PartialEq, Eq, Structural)]
pub enum Endpoint {
    /// The AG-UI streaming run endpoint.
    Agui,
    /// The AG-UI interrupt (permission decision) endpoint.
    Interrupt,
    /// The AgentCore health check.
    Ping,
    /// The AgentCore invocation endpoint.
    Invocations,
}

/// One route: a method and a path leading to an endpoint.
pub struct Route {
    pub method: Method,
    pub path: String,
    pub endpoint: Endpoint,
}

impl View for Route {
    type V = (Method, Seq<char>, Endpoint);

    open spec fn view(&self) -> (Method, Seq<char>, Endpoint) {
        (self.method, self.path@, self.endpoint)
    }
}

/// The routes of a built router, the state they share, and the prefix they
/// are nested under, if any.
pub struct RoutePlan<A> {
    pub agent: A,
    pub routes: Vec<Route>,
    pub prefix: Option<String>,
}

/// Builder for the server's endpoints, holding the shared agent handle.
pub struct MixtapeRouter<A> {
    agent: A,
    agui_path: Option<String>,
    interrupt_path: Option<String>,
    agentcore_enabled: bool,
}

/// The routes that a configuration yields, in order.
pub open spec fn planned_routes(
    agui_path: Option<Seq<char>>,
    interrupt_path: Option<Seq<char>>,
    agentcore: bool,
) -> Seq<(Method, Seq<char>, Endpoint)> {
    let agui = match agui_path {
        Some(p) => {
            let main = seq![(Method::Post, p, Endpoint::Agui)];
            match interrupt_path {
                Some(q) => main.push((Method::Post, q, Endpoint::Interrupt)),
                None => main,
            }
        },
        None => seq![],
    };
    if agentcore {
        agui + seq![(Method::Get, "/ping"@, Endpoint::Ping), (Method::Post, "/invocations"@, Endpoint::Invocations)]
    } else {
        agui
    }
}

/// The view of an optional `String`.
pub open spec fn opt_view(o: Option<String>) -> Option<Seq<char>> {
    match o {
        Some(s) => Some(s@),
        None => None,
    }
}

impl<A> MixtapeRouter<A> {
    /// The AG-UI path, in specifications.
    pub closed spec fn spec_agui_path(&self) -> Option<Seq<char>> {
        opt_view(self.agui_path)
    }

    /// The interrupt path, in specifications.
    pub closed spec fn spec_interrupt_path(&self) -> Option<Seq<char>> {
        opt_view(self.interrupt_path)
    }

    /// Whether the AgentCore endpoints are on, in specifications.
    pub closed spec fn spec_agentcore(&self) -> bool {
        self.agentcore_enabled
    }

    /// The agent handle, in specifications.
    pub closed spec fn spec_agent(&self) -> A {
        self.agent
    }

    /// A builder with no endpoints for the given agent handle.
    pub fn new(agent: A) -> (r: Self)
        ensures
            r.spec_agent() == agent,
            r.spec_agui_path() is None,
            r.spec_interrupt_path() is None,
            !r.spec_agentcore(),
    {
        MixtapeRouter { agent, agui_path: None, interrupt_path: None, agentcore_enabled: false }
    }

    /// A builder with no endpoints for an agent handle that is already shared.
    pub fn from_arc(agent: A) -> (r: Self)
        ensures
            r.spec_agent() == agent,
            r.spec_agui_path() is None,
            r.spec_interrupt_path() is None,
            !r.spec_agentcore(),
    {
        Self::new(agent)
    }

    /// Enable the AG-UI endpoint at `path`, with the interrupt endpoint at
    /// `{path}/interrupt`.
    pub fn with_agui(self, path: &str) -> (r: Self)
        ensures
            r.spec_agent() == self.spec_agent(),
            r.spec_agui_path() == Some(path@),
            r.spec_interrupt_path() == Some(path@ + "/interrupt"@),
            r.spec_agentcore() == self.spec_agentcore(),
    {
        MixtapeRouter {
            agent: self.agent,
            agui_path: Some(path.to_string()),
            interrupt_path: Some(concat_str(path, "/interrupt")),
            agentcore_enabled: self.agentcore_enabled,
        }
    }

    /// Set a custom path for the interrupt endpoint.
    pub fn interrupt_path(self, path: &str) -> (r: Self)
        ensures
            r.spec_agent() == self.spec_agent(),
            r.spec_agui_path() == self.spec_agui_path(),
            r.spec_interrupt_path() == Some(path@),
            r.spec_agentcore() == self.spec_agentcore(),
    {
        MixtapeRouter {
            agent: self.agent,
            agui_path: self.agui_path,
            interrupt_path: Some(path.to_string()),
            agentcore_enabled: self.agentcore_enabled,
        }
    }

    /// Enable the AgentCore `/ping` and `/invocations` endpoints.
    pub fn with_agentcore(self) -> (r: Self)
        ensures
            r.spec_agent() == self.spec_agent(),
            r.spec_agui_path() == self.spec_agui_path(),
            r.spec_interrupt_path() == self.spec_interrupt_path(),
            r.spec_agentcore(),
    {
        MixtapeRouter {
            agent: self.agent,
            agui_path: self.agui_path,
            interrupt_path: self.interrupt_path,
            agentcore_enabled: true,
        }
    }

    /// The routes of all configured endpoints; an error if there are none.
    /// The interrupt endpoint is routed only along with the AG-UI endpoint.
    pub fn build(self) -> (r: Result<RoutePlan<A>, BuildError>)
        ensures
            r is Err <==> (self.spec_agui_path() is None && !self.spec_agentcore()),
            r matches Ok(plan) ==> {
                &&& plan.agent == self.spec_agent()
                &&& plan.prefix is None
                &&& plan.routes@.map_values(|x: Route| x@) == planned_routes(
                    self.spec_agui_path(),
                    self.spec_interrupt_path(),
                    self.spec_agentcore(),
                )
            },
    {
        if self.agui_path.is_none() && !self.agentcore_enabled {
            return Err(BuildError::NoEndpoints);
        }
        let ghost agui = self.spec_agui_path();
        let ghost interrupt = self.spec_interrupt_path();
        let ghost core = self.spec_agentcore();
        let mut routes: Vec<Route> = Vec::new();
        if let Some(agui_path) = self.agui_path {
            routes.push(Route { method: Method::Post, path: agui_path, endpoint: Endpoint::Agui });
            if let Some(interrupt_path) = self.interrupt_path {
                routes.push(Route { method: Method::Post, path: interrupt_path, endpoint: Endpoint::Interrupt });
            }
        }
        let ghost agui_part = routes@.map_values(|x: Route| x@);
        assert(agui_part =~= planned_routes(agui, interrupt, false));
        if self.agentcore_enabled {
            routes.push(Route { method: Method::Get, path: "/ping".to_string(), endpoint: Endpoint::Ping });
            routes.push(Route { method: Method::Post, path: "/invocations".to_string(), endpoint: Endpoint::Invocations });
            assert(routes@.map_values(|x: Route| x@) =~= agui_part + seq![
                (Method::Get, "/ping"@, Endpoint::Ping),
                (Method::Post, "/invocations"@, Endpoint::Invocations),
            ]);
        }
        Ok(RoutePlan { agent: self.agent, routes, prefix: None })
    }

    /// Build the routes and nest them under `prefix`.
    pub fn build_nested(self, prefix: &str) -> (r: Result<RoutePlan<A>, BuildError>)
        ensures
            r is Err <==> (self.spec_agui_path() is None && !self.spec_agentcore()),
            r matches Ok(plan) ==> {
                &&& plan.agent == self.spec_agent()
                &&& plan.prefix matches Some(p) && p@ == prefix@
                &&& plan.routes@.map_values(|x: Route| x@) == planned_routes(
                    self.spec_agui_path(),
                    self.spec_interrupt_path(),
                    self.spec_agentcore(),
                )
            },
    {
        match self.build() {
            Ok(plan) => Ok(RoutePlan { agent: plan.agent, routes: plan.routes, prefix: Some(prefix.to_string()) }),
            Err(e) => Err(e),
        }
    }
}

/// Enabling AG-UI at a path and building serves the stream at that path and
/// the interrupt endpoint at `{path}/interrupt`.
pub proof fn law_agui_routes(path: Seq<char>, agentcore: bool)
    ensures
        planned_routes(Some(path), Some(path + "/interrupt"@), agentcore).take(2) == seq![
            (Method::Post, path, Endpoint::Agui),
            (Method::Post, path + "/interrupt"@, Endpoint::Interrupt),
        ],
{
    let r = planned_routes(Some(path), Some(path + "/interrupt"@), agentcore);
    assert(r.take(2) =~= seq![
        (Method::Post, path, Endpoint::Agui),
        (Method::Post, path + "/interrupt"@, Endpoint::Interrupt),
    ]);
}

/// What a built router serves: with AgentCore on, the health check
/// `GET /ping` and `POST /invocations`, and with it off neither endpoint;
/// the AG-UI stream by `POST` at its path exactly when a path is set, and
/// the interrupt endpoint by `POST` at its path exactly when both are set.
/// The health check is the one route answered to `GET`, and no endpoint
/// is routed twice.
pub proof fn law_routes_served(agui_path: Option<Seq<char>>, interrupt_path: Option<Seq<char>>, agentcore: bool)
    ensures
        ({
            let r = planned_routes(agui_path, interrupt_path, agentcore);
            &&& agentcore ==> r.contains((Method::Get, "/ping"@, Endpoint::Ping))
            &&& agentcore ==> r.contains((Method::Post, "/invocations"@, Endpoint::Invocations))
            &&& (exists|k: int| 0 <= k < r.len() && #[trigger] r[k].2 == Endpoint::Ping) <==> agentcore
            &&& (exists|k: int| 0 <= k < r.len() && #[trigger] r[k].2 == Endpoint::Invocations) <==> agentcore
            &&& (exists|k: int| 0 <= k < r.len() && #[trigger] r[k].2 == Endpoint::Agui) <==> agui_path is Some
            &&& (exists|k: int| 0 <= k < r.len() && #[trigger] r[k].2 == Endpoint::Interrupt) <==> (agui_path is Some
                && interrupt_path is Some)
            &&& agui_path matches Some(p) ==> r.contains((Method::Post, p, Endpoint::Agui))
            &&& (agui_path is Some && interrupt_path is Some) ==> r.contains(
                (Method::Post, interrupt_path->0, Endpoint::Interrupt),
            )
            &&& forall|k: int| 0 <= k < r.len() ==> ((#[trigger] r[k]).0 == Method::Get <==> r[k].2 == Endpoint::Ping)
            &&& forall|k: int, l: int| 0 <= k < l < r.len() ==> (#[trigger] r[k]).2 != (#[trigger] r[l]).2
        }),
{
    let r = planned_routes(agui_path, interrupt_path, agentcore);
    let agui = planned_routes(agui_path, interrupt_path, false);
    let core = seq![(Method::Get, "/ping"@, Endpoint::Ping), (Method::Post, "/invocations"@, Endpoint::Invocations)];
    assert(forall|k: int| 0 <= k < agui.len() ==> (#[trigger] agui[k]).2 == Endpoint::Agui || agui[k].2
        == Endpoint::Interrupt);
    if agentcore {
        assert(r =~= agui + core);
        assert(r[agui.len() as int] == core[0]);
        assert(r[agui.len() as int + 1] == core[1]);
        assert forall|k: int| 0 <= k < r.len() implies ((#[trigger] r[k]).0 == Method::Get <==> r[k].2 == Endpoint::Ping) by {
            if k < agui.len() {
                assert(r[k] == agui[k]);
            }
        }
        assert forall|k: int, l: int| 0 <= k < l < r.len() implies (#[trigger] r[k]).2 != (#[trigger] r[l]).2 by {
            if l < agui.len() {
                assert(r[k] == agui[k] && r[l] == agui[l]);
            } else if k < agui.len() {
                assert(r[k] == agui[k]);
            }
        }
        if agui_path is Some {
            assert(r[0] == agui[0]);
            if interrupt_path is Some {
                assert(r[1] == agui[1]);
            }
        }
        assert forall|k: int| 0 <= k < r.len() && #[trigger] r[k].2 == Endpoint::Agui implies agui_path is Some by {
            if k < agui.len() {
                assert(r[k] == agui[k]);
            }
        }
        assert forall|k: int| 0 <= k < r.len() && #[trigger] r[k].2 == Endpoint::Interrupt implies (agui_path is Some
            && interrupt_path is Some) by {
            if k < agui.len() {
                assert(r[k] == agui[k]);
            }
        }
    } else {
        assert(r == agui);
        if agui_path is Some {
            assert(r[0].2 == Endpoint::Agui);
            if interrupt_path is Some {
                assert(r[1].2 == Endpoint::Interrupt);
            }
        }
    }
}

} // verus!

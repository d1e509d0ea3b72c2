//! The health reports of the daemon: the standard health check and the
//! detailed report over the daemon's components.
use vstd::prelude::*;

use crate::text::{decimal, decimal_string, same_text};
use crate::timestamp::Timestamp;

verus! {

/// Whether a service is serving.
#[derive(Clone, Copy, Debug, PartialEq, Eq, Structural)]
pub enum ServingStatus {
    Unknown,
    Serving,
    NotServing,
    ServiceUnknown,
}

/// The name under which the daemon's agent service is checked.
pub open spec fn agent_service_name() -> Seq<char> {
    "betcode.v1.AgentService"@
}

/// The answer to a health check of `service`, given whether a probe of the
/// database succeeded: the empty name and the agent service are the
/// daemon itself; any other name is unknown.
pub open spec fn check_answer(service: Seq<char>, db_ok: bool) -> ServingStatus {
    if service.len() == 0 || service == agent_service_name() {
        if db_ok {
            ServingStatus::Serving
        } else {
            ServingStatus::NotServing
        }
    } else {
        ServingStatus::ServiceUnknown
    }
}

/// Answers a health check of `service`; `db_ok` says whether a probe of
/// the database succeeded.
pub fn check_status(service: &str, db_ok: bool) -> (r: ServingStatus)
    ensures
        r == check_answer(service@, db_ok),
{
    if service.is_empty() || same_text(service, "betcode.v1.AgentService") {
        if db_ok {
            ServingStatus::Serving
        } else {
            ServingStatus::NotServing
        }
    } else {
        ServingStatus::ServiceUnknown
    }
}

/// Whether a health check names a service that is probed at all.
pub fn probes_database(service: &str) -> (r: bool)
    ensures
        r == (service@.len() == 0 || service@ == agent_service_name()),
{
    service.is_empty() || same_text(service, "betcode.v1.AgentService")
}

/// The health of one component.
#[derive(Debug)]
pub struct ComponentHealth {
    pub name: String,
    pub status: ServingStatus,
    pub message: String,
    pub last_check: Timestamp,
}

/// The database component, given whether a probe of it succeeded, checked
/// at `now`.
pub fn database_health(db_ok: bool, now: Timestamp) -> (r: ComponentHealth)
    ensures
        r.name@ == "database"@,
        r.status == (if db_ok {
            ServingStatus::Serving
        } else {
            ServingStatus::NotServing
        }),
        r.message@ == (if db_ok {
            "SQLite database operational"@
        } else {
            "Database query failed"@
        }),
        r.last_check == now,
{
    if db_ok {
        ComponentHealth {
            name: "database".to_owned(),
            status: ServingStatus::Serving,
            message: "SQLite database operational".to_owned(),
            last_check: now,
        }
    } else {
        ComponentHealth {
            name: "database".to_owned(),
            status: ServingStatus::NotServing,
            message: "Database query failed".to_owned(),
            last_check: now,
        }
    }
}

/// The subprocess pool component: always serving, reporting how many of
/// its slots are in use.
pub fn subprocess_health(active: u64, capacity: u64, now: Timestamp) -> (r: ComponentHealth)
    ensures
        r.name@ == "subprocess_pool"@,
        r.status == ServingStatus::Serving,
        r.message@ == decimal(active as nat) + "/"@ + decimal(capacity as nat) + " subprocess slots in use"@,
        r.last_check == now,
{
    let mut message = decimal_string(active);
    message.append("/");
    let c = decimal_string(capacity);
    message.append(c.as_str());
    message.append(" subprocess slots in use");
    ComponentHealth { name: "subprocess_pool".to_owned(), status: ServingStatus::Serving, message, last_check: now }
}

/// The detailed health report.
#[derive(Debug)]
pub struct HealthDetails {
    pub overall_status: ServingStatus,
    pub components: Vec<ComponentHealth>,
    /// Key and value pairs; the daemon's version among them.
    pub metadata: Vec<(String, String)>,
    pub degraded: bool,
    pub degraded_reason: String,
}

/// Whether every component is serving.
pub open spec fn all_serving(cs: Seq<ComponentHealth>) -> bool {
    forall|i: int| 0 <= i < cs.len() ==> (#[trigger] cs[i]).status == ServingStatus::Serving
}

/// `<name>: <message>` for each component that is not serving, joined by
/// `; `.
pub open spec fn degraded_text(cs: Seq<ComponentHealth>) -> Seq<char>
    decreases cs.len(),
{
    if cs.len() == 0 {
        Seq::empty()
    } else {
        let rest = degraded_text(cs.drop_last());
        let c = cs.last();
        if c.status == ServingStatus::Serving {
            rest
        } else {
            let item = c.name@ + ": "@ + c.message@;
            if rest.len() == 0 {
                item
            } else {
                rest + "; "@ + item
            }
        }
    }
}

/// The detailed report over `components`: serving when all of them are,
/// else not serving and degraded, with the reasons of the components that
/// are not serving; `version` is reported in the metadata.
pub fn health_details(components: Vec<ComponentHealth>, version: String) -> (r: HealthDetails)
    ensures
        r.components@ == components@,
        r.overall_status == (if all_serving(components@) {
            ServingStatus::Serving
        } else {
            ServingStatus::NotServing
        }),
        r.degraded == !all_serving(components@),
        r.degraded_reason@ == (if all_serving(components@) {
            Seq::empty()
        } else {
            degraded_text(components@)
        }),
        r.metadata@.len() == 1,
        r.metadata@[0].0@ == "version"@,
        r.metadata@[0].1@ == version@,
{
    let mut serving = true;
    let mut reason = String::new();
    let mut i: usize = 0;
    while i < components.len()
        invariant
            i <= components.len(),
            serving == all_serving(components@.take(i as int)),
            reason@ == degraded_text(components@.take(i as int)),
        decreases components.len() - i,
    {
        assert(components@.take(i as int + 1).drop_last() =~= components@.take(i as int));
        let c = &components[i];
        if c.status != ServingStatus::Serving {
            if reason.as_str().is_empty() {
                proof {
                    assert(reason@.len() == 0);
                }
                reason = c.name.clone();
                reason.append(": ");
                reason.append(c.message.as_str());
            } else {
                reason.append("; ");
                reason.append(c.name.as_str());
                reason.append(": ");
                reason.append(c.message.as_str());
            }
            serving = false;
        }
        assert(serving == all_serving(components@.take(i as int + 1))) by {
            if !serving && c.status == ServingStatus::Serving {
                let j = choose|j: int| 0 <= j < i && (#[trigger] components@.take(i as int)[j]).status
                    != ServingStatus::Serving;
                assert(components@.take(i as int + 1)[j] == components@.take(i as int)[j]);
            }
        }
        i = i + 1;
    }
    assert(components@.take(i as int) =~= components@);
    let degraded = !serving;
    let degraded_reason = if serving {
        String::new()
    } else {
        reason
    };
    let mut metadata: Vec<(String, String)> = Vec::new();
    metadata.push(("version".to_owned(), version));
    HealthDetails {
        overall_status: if serving {
            ServingStatus::Serving
        } else {
            ServingStatus::NotServing
        },
        components,
        metadata,
        degraded,
        degraded_reason,
    }
}

} // verus!

use vstd::prelude::*;

use crate::text::text_equals;

verus! {

/// An upstream endpoint, identified by its host URL (scheme and authority).
#[derive(Debug, Clone, PartialEq, Eq, Hash)]
pub struct Worker {
    pub host: String,
}

/// The endpoints of the stub worker service.
#[derive(Debug, Clone, Copy, PartialEq, Eq, Structural)]
pub enum WorkerRoute {
    /// `GET /health`.
    Health,
    /// `GET /work`: answers after one second.
    Work,
    /// `GET /heavy_work`: answers after ten seconds.
    HeavyWork,
    /// Anything else: a bad request.
    Unknown,
}

/// The endpoint that a request with method GET (or not) and path `path`
/// reaches.
pub open spec fn route_of(is_get: bool, path: Seq<char>) -> WorkerRoute {
    if is_get && path == "/health"@ {
        WorkerRoute::Health
    } else if is_get && path == "/work"@ {
        WorkerRoute::Work
    } else if is_get && path == "/heavy_work"@ {
        WorkerRoute::HeavyWork
    } else {
        WorkerRoute::Unknown
    }
}

/// The endpoint that a request reaches, from whether its method is GET and
/// its path.
pub fn worker_route(is_get: bool, path: &str) -> (r: WorkerRoute)
    ensures
        r == route_of(is_get, path@),
{
    if !is_get {
        WorkerRoute::Unknown
    } else if text_equals(path, "/health") {
        WorkerRoute::Health
    } else if text_equals(path, "/work") {
        WorkerRoute::Work
    } else if text_equals(path, "/heavy_work") {
        WorkerRoute::HeavyWork
    } else {
        WorkerRoute::Unknown
    }
}

impl WorkerRoute {
    /// The HTTP status of the answer.
    pub fn status_code(&self) -> (r: u16)
        ensures
            r == (if *self == WorkerRoute::Unknown { 400u16 } else { 200u16 }),
    {
        match self {
            WorkerRoute::Unknown => 400,
            _ => 200,
        }
    }

    /// How many seconds the endpoint waits before it answers.
    pub fn delay_secs(&self) -> (r: u64)
        ensures
            r == match *self {
                WorkerRoute::Work => 1u64,
                WorkerRoute::HeavyWork => 10u64,
                _ => 0u64,
            },
    {
        match self {
            WorkerRoute::Work => 1,
            WorkerRoute::HeavyWork => 10,
            _ => 0,
        }
    }

    /// The fixed body of the answer; `None` for a bad request, whose body
    /// echoes the request.
    pub fn body(&self) -> (r: Option<&'static str>)
        ensures
            *self == WorkerRoute::Health ==> (r matches Some(b) && b@ == "Health Status - OK\r\n"@),
            *self == WorkerRoute::Work ==> (r matches Some(b) && b@ == "Work complete!\r\n"@),
            *self == WorkerRoute::HeavyWork ==> (r matches Some(b) && b@
                == "Heavy Work complete!\r\n"@),
            *self == WorkerRoute::Unknown ==> r is None,
    {
        match self {
            WorkerRoute::Health => Some("Health Status - OK\r\n"),
            WorkerRoute::Work => Some("Work complete!\r\n"),
            WorkerRoute::HeavyWork => Some("Heavy Work complete!\r\n"),
            WorkerRoute::Unknown => None,
        }
    }
}

} // verus!

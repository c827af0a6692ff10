use vstd::prelude::*;
use vstd::string::StringExecFns;

verus! {

pub const HOST_IP_ADDRESS: &'static str = "127.0.0.1";

pub const HOST_DEFAULT_PORT: &'static str = "7000";

pub const TOTAL_ACTIVE_THREADS: usize = 10;

/// The address that the listener binds: host, a colon, and port.
pub fn construct_app_url() -> (url: String)
    ensures
        url@ == HOST_IP_ADDRESS@ + ":"@ + HOST_DEFAULT_PORT@,
{
    let mut url = String::from_str(HOST_IP_ADDRESS);
    url.append(":");
    url.append(HOST_DEFAULT_PORT);
    url
}

/// The paths that are answered without a worker.
pub fn is_async_route(path: &str) -> (b: bool)
    ensures
        b == (path@ == "/notification"@),
{
    crate::text::str_eq(path, "/notification")
}

} // verus!

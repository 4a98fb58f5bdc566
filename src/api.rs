use vstd::prelude::*;

verus! {

/// A request that is refused before it is sent.
#[derive(Debug, PartialEq, Eq, Structural)]
pub enum RequestError {
    EmptyBaseUrl,
    EmptyGroupName,
    EmptyProxyName,
    EmptyMode,
}

/// The `Authorization` header value for a secret: none for a missing or
/// empty secret.
pub fn bearer_header(secret: &Option<String>) -> (r: Option<String>)
    ensures
        match secret {
            Some(s) => if s@.len() > 0 {
                r matches Some(h) && h@ == "Bearer "@ + s@
            } else {
                r is None
            },
            None => r is None,
        },
{
    match secret {
        Some(s) => {
            if s.as_str().is_empty() {
                None
            } else {
                let mut h = "Bearer ".to_owned();
                h.append(s.as_str());
                Some(h)
            }
        },
        None => None,
    }
}

/// The URL of `path` under the controller at `base`.
pub fn endpoint(base: &str, path: &str) -> (r: Result<String, RequestError>)
    ensures
        base@.len() == 0 ==> r == Err::<String, RequestError>(RequestError::EmptyBaseUrl),
        base@.len() > 0 ==> (r matches Ok(u) && u@ == base@ + path@),
{
    if base.is_empty() {
        return Err(RequestError::EmptyBaseUrl);
    }
    let mut u = base.to_owned();
    u.append(path);
    Ok(u)
}

/// The URL of one proxy or group, `base/proxies/name`.
pub fn proxy_url(base: &str, name: &str) -> (r: Result<String, RequestError>)
    ensures
        base@.len() == 0 ==> r == Err::<String, RequestError>(RequestError::EmptyBaseUrl),
        base@.len() > 0 && name@.len() == 0 ==> r == Err::<String, RequestError>(
            RequestError::EmptyProxyName,
        ),
        base@.len() > 0 && name@.len() > 0 ==> (r matches Ok(u) && u@ == base@
            + "/proxies/"@ + name@),
{
    if base.is_empty() {
        return Err(RequestError::EmptyBaseUrl);
    }
    if name.is_empty() {
        return Err(RequestError::EmptyProxyName);
    }
    let mut u = base.to_owned();
    u.append("/proxies/");
    u.append(name);
    Ok(u)
}

/// The URL to which the switch of `group` to `proxy` is sent.
pub fn switch_url(base: &str, group: &str, proxy: &str) -> (r: Result<String, RequestError>)
    ensures
        base@.len() == 0 ==> r == Err::<String, RequestError>(RequestError::EmptyBaseUrl),
        base@.len() > 0 && group@.len() == 0 ==> r == Err::<String, RequestError>(
            RequestError::EmptyGroupName,
        ),
        base@.len() > 0 && group@.len() > 0 && proxy@.len() == 0 ==> r == Err::<
            String,
            RequestError,
        >(RequestError::EmptyProxyName),
        base@.len() > 0 && group@.len() > 0 && proxy@.len() > 0 ==> (r matches Ok(u)
            && u@ == base@ + "/proxies/"@ + group@),
{
    if base.is_empty() {
        return Err(RequestError::EmptyBaseUrl);
    }
    if group.is_empty() {
        return Err(RequestError::EmptyGroupName);
    }
    if proxy.is_empty() {
        return Err(RequestError::EmptyProxyName);
    }
    proxy_url(base, group)
}

/// The URL to which a change of mode to `mode` is sent.
pub fn mode_url(base: &str, mode: &str) -> (r: Result<String, RequestError>)
    ensures
        base@.len() == 0 ==> r == Err::<String, RequestError>(RequestError::EmptyBaseUrl),
        base@.len() > 0 && mode@.len() == 0 ==> r == Err::<String, RequestError>(
            RequestError::EmptyMode,
        ),
        base@.len() > 0 && mode@.len() > 0 ==> (r matches Ok(u) && u@ == base@
            + "/configs"@),
{
    if base.is_empty() {
        return Err(RequestError::EmptyBaseUrl);
    }
    if mode.is_empty() {
        return Err(RequestError::EmptyMode);
    }
    endpoint(base, "/configs")
}

} // verus!

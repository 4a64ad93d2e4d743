//! herdr's socket API: the session snapshot it reports, the requests this
//! program sends, and how a response envelope is read. The connection
//! itself (one newline-delimited JSON request per connection) is the
//! caller's.

use vstd::prelude::*;

verus! {

/// An error reported by the API.
pub struct ApiError {
    pub code: String,
    pub message: String,
}

/// The session as the API reports it.
pub struct Snapshot {
    pub focused_workspace_id: Option<String>,
    pub tabs: Vec<TabInfo>,
    pub panes: Vec<PaneInfo>,
    pub layouts: Vec<LayoutInfo>,
}

/// The layout state of a tab.
pub struct LayoutInfo {
    pub tab_id: String,
    pub zoomed: bool,
}

/// A tab of a workspace.
pub struct TabInfo {
    pub tab_id: String,
    pub workspace_id: String,
    pub number: usize,
    pub label: String,
    pub focused: bool,
}

/// A pane of a tab.
pub struct PaneInfo {
    pub pane_id: String,
    pub tab_id: String,
    pub focused: bool,
    pub title: Option<String>,
    pub terminal_title_stripped: Option<String>,
    pub agent: Option<String>,
    pub display_agent: Option<String>,
    pub agent_status: String,
}

/// A request to the API: its id, its method and its string parameters, in
/// order.
pub struct Request {
    pub id: String,
    pub method: String,
    pub params: Vec<(String, String)>,
}

/// The value of a request.
pub open spec fn request_view(r: Request) -> (Seq<char>, Seq<char>, Seq<(Seq<char>, Seq<char>)>) {
    (r.id@, r.method@, r.params@.map_values(|p: (String, String)| (p.0@, p.1@)))
}

/// A client of the API at a socket path.
pub struct HerdrClient {
    socket: String,
}

pub open spec fn not_launched_message() -> Seq<char> {
    "HERDR_SOCKET_PATH not set (not launched by herdr?)"@
}

impl HerdrClient {
    /// The socket path.
    pub closed spec fn socket_path(&self) -> Seq<char> {
        self.socket@
    }

    /// A client for the socket at `socket`.
    pub fn new(socket: String) -> (c: HerdrClient)
        ensures
            c.socket_path() == socket@,
    {
        HerdrClient { socket }
    }

    /// The client for the socket path found in the environment (the value
    /// of `HERDR_SOCKET_PATH`, if it is set).
    pub fn from_socket_var(var: Option<String>) -> (r: Result<HerdrClient, String>)
        ensures
            var is Some <==> r is Ok,
            r matches Ok(c) ==> c.socket_path() == var->0@,
            r matches Err(e) ==> e@ == not_launched_message(),
    {
        match var {
            Some(socket) => Ok(HerdrClient { socket }),
            None => {
                let e = String::from_str("HERDR_SOCKET_PATH not set (not launched by herdr?)");
                proof {
                    reveal_strlit("HERDR_SOCKET_PATH not set (not launched by herdr?)");
                }
                Err(e)
            },
        }
    }

    /// The socket path.
    pub fn socket(&self) -> (s: &str)
        ensures
            s@ == self.socket_path(),
    {
        self.socket.as_str()
    }
}

fn param(key: &str, value: &str) -> (p: (String, String))
    ensures
        p.0@ == key@,
        p.1@ == value@,
{
    (String::from_str(key), String::from_str(value))
}

/// The request for the session snapshot.
pub fn snapshot_request() -> (r: Request)
    ensures
        request_view(r) == ("expose:snapshot"@, "session.snapshot"@, Seq::<(Seq<char>, Seq<char>)>::empty()),
{
    let r = Request {
        id: String::from_str("expose:snapshot"),
        method: String::from_str("session.snapshot"),
        params: Vec::new(),
    };
    proof {
        assert(request_view(r).2 =~= Seq::<(Seq<char>, Seq<char>)>::empty());
    }
    r
}

/// The request for the visible contents of a pane, as ANSI text, with no
/// line limit.
pub fn pane_read_request(pane_id: &str) -> (r: Request)
    ensures
        request_view(r) == (
            "expose:read"@,
            "pane.read"@,
            seq![("pane_id"@, pane_id@), ("source"@, "visible"@), ("format"@, "ansi"@)],
        ),
{
    let mut params: Vec<(String, String)> = Vec::new();
    params.push(param("pane_id", pane_id));
    params.push(param("source", "visible"));
    params.push(param("format", "ansi"));
    let r = Request { id: String::from_str("expose:read"), method: String::from_str("pane.read"), params };
    proof {
        assert(request_view(r).2 =~= seq![("pane_id"@, pane_id@), ("source"@, "visible"@), ("format"@, "ansi"@)]);
    }
    r
}

/// The request that closes a pane.
pub fn pane_close_request(pane_id: &str) -> (r: Request)
    ensures
        request_view(r) == ("expose:close"@, "pane.close"@, seq![("pane_id"@, pane_id@)]),
{
    let mut params: Vec<(String, String)> = Vec::new();
    params.push(param("pane_id", pane_id));
    let r = Request { id: String::from_str("expose:close"), method: String::from_str("pane.close"), params };
    proof {
        assert(request_view(r).2 =~= seq![("pane_id"@, pane_id@)]);
    }
    r
}

/// The request that focuses a pane. There is no "focus by id" request; a
/// zoom request in the tab's current zoom mode changes no zoom and still
/// moves the focus to the pane.
pub fn focus_pane_request(pane_id: &str, tab_zoomed: bool) -> (r: Request)
    ensures
        request_view(r) == (
            "expose:focus"@,
            "pane.zoom"@,
            seq![("pane_id"@, pane_id@), ("mode"@, if tab_zoomed { "on"@ } else { "off"@ })],
        ),
{
    let mut params: Vec<(String, String)> = Vec::new();
    params.push(param("pane_id", pane_id));
    if tab_zoomed {
        params.push(param("mode", "on"));
    } else {
        params.push(param("mode", "off"));
    }
    let r = Request { id: String::from_str("expose:focus"), method: String::from_str("pane.zoom"), params };
    proof {
        assert(request_view(r).2 =~= seq![
            ("pane_id"@, pane_id@),
            ("mode"@, if tab_zoomed { "on"@ } else { "off"@ }),
        ]);
    }
    r
}

/// The message for an API error: `message (code)`.
pub open spec fn api_error_message(e: ApiError) -> Seq<char> {
    e.message@ + " ("@ + e.code@ + ")"@
}

/// Reads a response envelope: an error wins; else the result, which must
/// be there.
pub fn interpret_response<T>(result: Option<T>, error: Option<ApiError>) -> (r: Result<T, String>)
    ensures
        error is Some ==> (r matches Err(m) && m@ == api_error_message(error->0)),
        error is None && result is Some ==> r == Ok::<T, String>(result->0),
        error is None && result is None ==> (r matches Err(m) && m@ == "empty response"@),
{
    match error {
        Some(e) => {
            let mut m = e.message;
            m.append(" (");
            m.append(e.code.as_str());
            m.append(")");
            Err(m)
        },
        None => match result {
            Some(v) => Ok(v),
            None => Err(String::from_str("empty response")),
        },
    }
}

} // verus!

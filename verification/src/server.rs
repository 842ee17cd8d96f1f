//! The built-in web server: its status and address, the redirects and
//! addresses it hands out, and how a socket message is dispatched.
use vstd::prelude::*;
use crate::text::{decimal, has_char, to_chars, trim, trim_str, u64_to_decimal};

verus! {

broadcast use vstd::string::group_string_axioms;

/// The port the server listens on.
pub const DEFAULT_PORT: u16 = 17860;

/// The state of the built-in web server.
#[derive(Debug, Clone, Copy, PartialEq, Eq, Structural)]
pub enum ServiceStatus {
    Stopped,
    Starting,
    Running,
    Error,
}

/// The server state that the desktop console shows.
#[derive(Debug)]
pub struct ServerInfo {
    pub status: ServiceStatus,
    pub ip: String,
    pub url: String,
    pub error: Option<String>,
}

/// The server's status, address and last error.
#[derive(Debug)]
pub struct ServerControl {
    pub status: ServiceStatus,
    pub ip: String,
    pub url: String,
    pub error: Option<String>,
    pub port: u16,
}

/// What kind of client a socket serves.
#[derive(Debug, Clone, Copy, PartialEq, Eq, Structural)]
pub enum ConnectionRole {
    Teacher,
    Console,
    Student,
}

/// What the server does with a socket message.
#[derive(Debug, Clone, Copy, PartialEq, Eq, Structural)]
pub enum SocketCommand {
    /// Force out every student of the current classroom.
    ForceLogoutAll,
    /// Admit the student to a seat.
    Join,
    /// Pass a WebRTC signal on to its target.
    ForwardSignal,
    /// Drop the message.
    Ignore,
    /// Close the socket.
    Disconnect,
    /// Send the message back with its source filled in.
    Echo,
}

/// The address at which the server is reached.
pub open spec fn server_url(ip: Seq<char>, port: u16) -> Seq<char> {
    "http://"@ + ip + ":"@ + decimal(port as nat)
}

/// The server's address is its url.
pub open spec fn consistent(c: ServerControl) -> bool {
    c.url@ == server_url(c.ip@, c.port)
}

/// `info` shows the state of `c`.
pub open spec fn shows(info: ServerInfo, c: ServerControl) -> bool {
    &&& info.status == c.status
    &&& info.ip@ == c.ip@
    &&& info.url@ == c.url@
    &&& info.error == c.error
}

/// The host part of a `Host` header, for addressing the development server:
/// a bracketed IPv6 host up to its `]`, or the text before a single `:`.
pub open spec fn vite_host(header: Seq<char>, r: Seq<char>) -> bool {
    let t = trim(header);
    if t.len() == 0 {
        r == "127.0.0.1"@
    } else if t[0] == '[' {
        if has_char(t, ']') {
            exists|k: int|
                0 <= k < t.len() && t[k] == ']' && (forall|j: int| 0 <= j < k ==> t[j] != ']') && r
                    == t.take(k + 1)
        } else {
            r == t
        }
    } else if has_char(t, ':') {
        exists|k: int|
            0 <= k < t.len() && t[k] == ':' && (forall|j: int| k < j < t.len() ==> t[j] != ':') && (
            !has_char(t.take(k), ':') && k > 0 ==> r == t.take(k)) && (has_char(t.take(k), ':')
                || k == 0 ==> r == t)
    } else {
        r == t
    }
}

/// A host as it appears in a url: an IPv6 address gets brackets.
pub open spec fn host_for_url(host: Seq<char>) -> Seq<char> {
    if has_char(host, ':') && !(host.len() > 0 && host[0] == '[') {
        "["@ + host + "]"@
    } else {
        host
    }
}

/// The mode of the development app page: student unless one is given.
pub open spec fn dev_mode(mode: Option<&str>) -> Seq<char> {
    match mode {
        Some(x) => x@,
        None => "student"@,
    }
}

/// The host the development redirect names: the `Host` header unless it is
/// missing or empty.
pub open spec fn dev_host(host: Option<&str>) -> Seq<char> {
    match host {
        Some(x) => if x@.len() > 0 {
            x@
        } else {
            "127.0.0.1:17860"@
        },
        None => "127.0.0.1:17860"@,
    }
}

/// The command for a message with event `event` on a socket of `role`.
pub open spec fn socket_command(event: Seq<char>, role: ConnectionRole) -> SocketCommand {
    if event == "force-logout-all-students"@ && role == ConnectionRole::Teacher {
        SocketCommand::ForceLogoutAll
    } else if event == "join"@ && role == ConnectionRole::Student {
        SocketCommand::Join
    } else if event == "offer"@ || event == "answer"@ || event == "ice-candidate"@ {
        if role == ConnectionRole::Console {
            SocketCommand::Ignore
        } else {
            SocketCommand::ForwardSignal
        }
    } else if event == "disconnect"@ {
        SocketCommand::Disconnect
    } else {
        SocketCommand::Echo
    }
}

/// A WebRTC signal (`offer`, `answer` or `ice-candidate`) from a teacher
/// or a student is forwarded to its target, and one from a console is
/// dropped; only a message that is neither a signal nor a disconnect is
/// echoed back.
pub proof fn law_signals_are_forwarded(event: Seq<char>, role: ConnectionRole)
    ensures
        (event == "offer"@ || event == "answer"@ || event == "ice-candidate"@) ==> socket_command(
            event,
            role,
        ) == (if role == ConnectionRole::Console {
            SocketCommand::Ignore
        } else {
            SocketCommand::ForwardSignal
        }),
        socket_command(event, role) == SocketCommand::Echo ==> event != "offer"@ && event != "answer"@
            && event != "ice-candidate"@ && event != "disconnect"@,
        socket_command(event, role) == SocketCommand::ForwardSignal ==> role != ConnectionRole::Console
            && (event == "offer"@ || event == "answer"@ || event == "ice-candidate"@),
{
    reveal_strlit("offer");
    reveal_strlit("answer");
    reveal_strlit("ice-candidate");
    reveal_strlit("disconnect");
    reveal_strlit("join");
    reveal_strlit("force-logout-all-students");
    assert("offer"@.len() == 5 && "answer"@.len() == 6 && "ice-candidate"@.len() == 13);
    assert("join"@.len() == 4 && "force-logout-all-students"@.len() == 25);
    assert("disconnect"@.len() == 10);
    if event == "offer"@ || event == "answer"@ || event == "ice-candidate"@ {
        assert(event != "join"@ && event != "force-logout-all-students"@);
    }
}

/// The view of an optional text.
pub open spec fn text_view(o: Option<String>) -> Option<Seq<char>> {
    match o {
        Some(s) => Some(s@),
        None => None,
    }
}

/// Asks local_ip_address's `local_ip()` for this machine's address and
/// renders it with `to_string`; `None` when the crate finds none. Which
/// address comes back depends on the machine and is left unsaid; stated is
/// only that the text form of an `IpAddr` (dotted decimal, or the IPv6
/// notation) is never empty.
#[verifier::external_body]
fn machine_ip() -> (ip: Option<String>)
    ensures
        ip matches Some(a) ==> a@.len() > 0,
{
    match local_ip_address::local_ip() {
        Ok(ip) => Some(ip.to_string()),
        Err(_) => None,
    }
}

/// The address to serve on, given what the address lookup found: the found
/// address, or `127.0.0.1` when the lookup failed.
pub fn local_ip_or_loopback(found: Option<String>) -> (ip: String)
    ensures
        ip@ == (match found {
            Some(a) => a@,
            None => "127.0.0.1"@,
        }),
{
    match found {
        Some(a) => a,
        None => String::from_str("127.0.0.1"),
    }
}

/// This machine's address, or `127.0.0.1` when none is found; either way
/// a non-empty host text.
pub fn resolve_local_ip() -> (ip: String)
    ensures
        ip@.len() > 0,
{
    proof {
        reveal_strlit("127.0.0.1");
    }
    local_ip_or_loopback(machine_ip())
}

/// The address at which the server is reached.
pub fn format_server_url(ip: &str, port: u16) -> (url: String)
    ensures
        url@ == server_url(ip@, port),
{
    let mut url = String::from_str("http://");
    url.append(ip);
    url.append(":");
    let digits = u64_to_decimal(port as u64);
    url.append(digits.as_str());
    url
}

/// A copy of an optional error text.
fn clone_error(e: &Option<String>) -> (r: Option<String>)
    ensures
        r == *e,
{
    match e {
        Some(text) => Some(text.clone()),
        None => None,
    }
}

impl ServerControl {
    /// A stopped server on `port` at the address `ip`.
    pub fn with_ip(port: u16, ip: String) -> (c: ServerControl)
        ensures
            c.status == ServiceStatus::Stopped,
            c.ip == ip,
            c.error is None,
            c.port == port,
            consistent(c),
    {
        let url = format_server_url(ip.as_str(), port);
        ServerControl { status: ServiceStatus::Stopped, ip, url, error: None, port }
    }

    /// A stopped server on `port` at this machine's address.
    pub fn new(port: u16) -> (c: ServerControl)
        ensures
            c.status == ServiceStatus::Stopped,
            c.error is None,
            c.port == port,
            c.ip@.len() > 0,
            consistent(c),
    {
        let ip = resolve_local_ip();
        ServerControl::with_ip(port, ip)
    }

    /// What the console shows of the server.
    pub fn to_info(&self) -> (info: ServerInfo)
        ensures
            shows(info, *self),
    {
        ServerInfo {
            status: self.status,
            ip: self.ip.clone(),
            url: self.url.clone(),
            error: clone_error(&self.error),
        }
    }

    /// Moves the server to the address `ip`.
    pub fn set_ip(&mut self, ip: String)
        ensures
            final(self).ip == ip,
            final(self).status == old(self).status,
            final(self).error == old(self).error,
            final(self).port == old(self).port,
            consistent(*final(self)),
    {
        self.url = format_server_url(ip.as_str(), self.port);
        self.ip = ip;
    }

    /// Looks up this machine's address again.
    pub fn refresh_ip_url(&mut self)
        ensures
            final(self).status == old(self).status,
            final(self).error == old(self).error,
            final(self).port == old(self).port,
            final(self).ip@.len() > 0,
            consistent(*final(self)),
    {
        let ip = resolve_local_ip();
        self.set_ip(ip);
    }

    /// The start of a start request: a running server is shown as it is;
    /// otherwise the server is starting, with no error, at a fresh address.
    pub fn begin_start(&mut self, already_running: bool) -> (r: Option<ServerInfo>)
        ensures
            already_running ==> (r matches Some(info) && shows(info, *old(self)) && *final(self)
                == *old(self)),
            !already_running ==> (r is None && final(self).status == ServiceStatus::Starting
                && final(self).error is None && final(self).port == old(self).port
                && final(self).ip@.len() > 0 && consistent(*final(self))),
    {
        if already_running {
            return Some(self.to_info());
        }
        self.status = ServiceStatus::Starting;
        self.error = None;
        self.refresh_ip_url();
        None
    }

    /// Records that the server could not listen; returns the message the
    /// start request is refused with.
    pub fn record_start_failure(&mut self, error: String) -> (message: String)
        ensures
            final(self).status == ServiceStatus::Error,
            text_view(final(self).error) == Some(error@),
            final(self).ip == old(self).ip,
            final(self).url == old(self).url,
            final(self).port == old(self).port,
            message@ == "伺服器啟動失敗: "@ + error@,
    {
        let mut message = String::from_str("伺服器啟動失敗: ");
        message.append(error.as_str());
        self.status = ServiceStatus::Error;
        self.error = Some(error);
        message
    }

    /// Records that the server listens; returns what the console shows.
    pub fn record_started(&mut self) -> (info: ServerInfo)
        ensures
            final(self).status == ServiceStatus::Running,
            final(self).error is None,
            final(self).ip == old(self).ip,
            final(self).url == old(self).url,
            final(self).port == old(self).port,
            shows(info, *final(self)),
    {
        self.status = ServiceStatus::Running;
        self.error = None;
        self.to_info()
    }

    /// Records that the server stopped; returns what the console shows.
    pub fn record_stopped(&mut self) -> (info: ServerInfo)
        ensures
            final(self).status == ServiceStatus::Stopped,
            final(self).error is None,
            final(self).ip == old(self).ip,
            final(self).url == old(self).url,
            final(self).port == old(self).port,
            shows(info, *final(self)),
    {
        self.status = ServiceStatus::Stopped;
        self.error = None;
        self.to_info()
    }
}

/// The host of a `Host` header, to address the development server on.
pub fn resolve_vite_host_from_header(host_header: &str) -> (r: String)
    ensures
        vite_host(host_header@, r@),
{
    let trimmed = trim_str(host_header);
    let t = to_chars(trimmed);
    let n = t.len();
    if n == 0 {
        proof {
            reveal_strlit("127.0.0.1");
        }
        return String::from_str("127.0.0.1");
    }
    if t[0] == '[' {
        let mut k: usize = 0;
        while k < n && t[k] != ']'
            invariant
                t@ == trim(host_header@),
                n == t@.len(),
                k <= n,
                forall|j: int| 0 <= j < k ==> t@[j] != ']',
            decreases n - k,
        {
            k = k + 1;
        }
        if k < n {
            proof {
                assert(trimmed@.subrange(0, k + 1) =~= t@.take(k + 1));
            }
            return String::from_str(trimmed.substring_char(0, k + 1));
        }
        return String::from_str(trimmed);
    }
    let mut k: usize = n;
    while k > 0 && t[k - 1] != ':'
        invariant
            t@ == trim(host_header@),
            n == t@.len(),
            k <= n,
            forall|j: int| k <= j < n ==> t@[j] != ':',
        decreases k,
    {
        k = k - 1;
    }
    if k == 0 {
        return String::from_str(trimmed);
    }
    let colon = k - 1;
    let mut q: usize = 0;
    while q < colon && t[q] != ':'
        invariant
            t@ == trim(host_header@),
            n == t@.len(),
            colon < n,
            q <= colon,
            forall|j: int| 0 <= j < q ==> t@[j] != ':',
        decreases colon - q,
    {
        q = q + 1;
    }
    proof {
        assert(t@.take(colon as int).len() == colon);
        assert forall|j: int| 0 <= j < q implies t@.take(colon as int)[j] != ':' by {
            assert(t@.take(colon as int)[j] == t@[j]);
        }
        if q < colon {
            assert(t@.take(colon as int)[q as int] == ':');
        }
    }
    if q == colon && colon > 0 {
        proof {
            assert(trimmed@.subrange(0, colon as int) =~= t@.take(colon as int));
        }
        return String::from_str(trimmed.substring_char(0, colon));
    }
    String::from_str(trimmed)
}

/// A host as it appears in a url: bracketed when it holds a `:` and is not
/// bracketed yet.
pub fn format_host_for_url(host: &str) -> (r: String)
    ensures
        r@ == host_for_url(host@),
{
    let chars = to_chars(host);
    let has_colon = crate::text::chars_have(&chars, ':');
    let bracketed = chars.len() > 0 && chars[0] == '[';
    if has_colon && !bracketed {
        let mut out = String::from_str("[");
        out.append(host);
        out.append("]");
        out
    } else {
        String::from_str(host)
    }
}

/// The target of the `/student` and `/teacher` redirects: the app page in
/// `mode`, with the `base` address when one that is not blank was given.
pub fn app_mode_redirect_target(mode: &str, base: Option<&str>) -> (r: String)
    ensures
        r@ == (match base {
            Some(b) => if trim(b@).len() > 0 {
                "/app?mode="@ + mode@ + "&base="@ + b@
            } else {
                "/app?mode="@ + mode@
            },
            None => "/app?mode="@ + mode@,
        }),
{
    let mut target = String::from_str("/app?mode=");
    target.append(mode);
    match base {
        Some(b) => {
            if !trim_str(b).is_empty() {
                target.append("&base=");
                target.append(b);
            }
        },
        None => {},
    }
    target
}

/// The target of the `/app` redirect in development: the development server
/// on the host of the `Host` header, in `mode` (student by default), with
/// this server as base.
pub fn dev_app_redirect_target(mode: Option<&str>, host: Option<&str>) -> (r: String)
    ensures
        exists|v: Seq<char>|
            vite_host(dev_host(host), v) && r@ == "http://"@ + v + ":1420/?mode="@ + dev_mode(mode)
                + "&base=http://"@ + dev_host(host),
{
    let m = match mode {
        Some(x) => x,
        None => "student",
    };
    let h = match host {
        Some(x) => if !x.is_empty() {
            x
        } else {
            "127.0.0.1:17860"
        },
        None => "127.0.0.1:17860",
    };
    let v = resolve_vite_host_from_header(h);
    let mut target = String::from_str("http://");
    target.append(v.as_str());
    target.append(":1420/?mode=");
    target.append(m);
    target.append("&base=http://");
    target.append(h);
    proof {
        assert(h@ == dev_host(host));
        assert(m@ == dev_mode(mode));
        assert(vite_host(dev_host(host), v@));
        assert(target@ =~= "http://"@ + v@ + ":1420/?mode="@ + dev_mode(mode) + "&base=http://"@
            + dev_host(host));
    }
    target
}

/// The kind of client that asked for a socket with `role`.
pub fn connection_role(role: &str) -> (r: ConnectionRole)
    ensures
        r == (if role@ == "teacher"@ {
            ConnectionRole::Teacher
        } else if role@ == "console"@ {
            ConnectionRole::Console
        } else {
            ConnectionRole::Student
        }),
{
    let given = String::from_str(role);
    if given == String::from_str("teacher") {
        ConnectionRole::Teacher
    } else if given == String::from_str("console") {
        ConnectionRole::Console
    } else {
        ConnectionRole::Student
    }
}

/// What the server does with a message with event `event` on a socket of
/// `role`.
pub fn classify_socket_event(event: &str, role: ConnectionRole) -> (r: SocketCommand)
    ensures
        r == socket_command(event@, role),
{
    let e = String::from_str(event);
    if e == String::from_str("force-logout-all-students") && role == ConnectionRole::Teacher {
        SocketCommand::ForceLogoutAll
    } else if e == String::from_str("join") && role == ConnectionRole::Student {
        SocketCommand::Join
    } else if e == String::from_str("offer") || e == String::from_str("answer") || e
        == String::from_str("ice-candidate") {
        if role == ConnectionRole::Console {
            SocketCommand::Ignore
        } else {
            SocketCommand::ForwardSignal
        }
    } else if e == String::from_str("disconnect") {
        SocketCommand::Disconnect
    } else {
        SocketCommand::Echo
    }
}

/// The connection a signal goes to: its own target, else the first teacher;
/// none when that is missing or empty.
pub fn signal_target(target: Option<String>, fallback_teacher: Option<String>) -> (r: Option<String>)
    ensures
        text_view(r) == (match target {
            Some(t) => if t@.len() > 0 {
                Some(t@)
            } else {
                None
            },
            None => match fallback_teacher {
                Some(f) => if f@.len() > 0 {
                    Some(f@)
                } else {
                    None
                },
                None => None,
            },
        }),
{
    let chosen = match target {
        Some(t) => Some(t),
        None => fallback_teacher,
    };
    match chosen {
        Some(t) => if t.as_str().is_empty() {
            None
        } else {
            Some(t)
        },
        None => None,
    }
}

/// The source a message of this socket is marked with: the teacher's own
/// connection, or the connection a student joined on.
pub fn signal_source(role: ConnectionRole, connection_id: &String, student_connection: &Option<String>) -> (r: Option<String>)
    ensures
        role == ConnectionRole::Teacher ==> r == Some(*connection_id),
        role != ConnectionRole::Teacher ==> r == *student_connection,
{
    if role == ConnectionRole::Teacher {
        Some(connection_id.clone())
    } else {
        clone_error(student_connection)
    }
}

/// Checks a join request: the trimmed seat must not be blank and the
/// classroom must still be the current one; gives the trimmed seat.
pub fn validate_join_request(seat_no_text: &str, requested_classroom: i64, current_classroom: i64) -> (r: Result<String, String>)
    ensures
        trim(seat_no_text@).len() == 0 ==> (r matches Err(m) && m@ == "請選擇有效座號"@),
        trim(seat_no_text@).len() > 0 && requested_classroom != current_classroom ==> (r matches Err(
            m,
        ) && m@ == "班級已變更，請重新選擇名單"@),
        trim(seat_no_text@).len() > 0 && requested_classroom == current_classroom ==> (r matches Ok(
            s,
        ) && s@ == trim(seat_no_text@)),
{
    let seat = trim_str(seat_no_text);
    if seat.is_empty() {
        return Err(String::from_str("請選擇有效座號"));
    }
    if requested_classroom != current_classroom {
        return Err(String::from_str("班級已變更，請重新選擇名單"));
    }
    Ok(String::from_str(seat))
}

/// The teacher entry address shown in the debug panel.
pub fn teacher_entry_url(base_url: &str) -> (r: String)
    ensures
        r@ == "http://localhost:17860/teacher?base="@ + base_url@,
{
    let mut out = String::from_str("http://localhost:17860/teacher?base=");
    out.append(base_url);
    out
}

/// The student entry address shown in the debug panel.
pub fn student_entry_url(base_url: &str) -> (r: String)
    ensures
        r@ == base_url@ + "/student"@,
{
    let mut out = String::from_str(base_url);
    out.append("/student");
    out
}

/// The origins the server accepts requests from: the development and
/// desktop web views, and this machine's address on both ports.
pub fn allowed_origins(local_ip_host: &str) -> (r: Vec<String>)
    ensures
        r@.len() == 9,
        r@[0]@ == "http://localhost:1420"@,
        r@[1]@ == "http://127.0.0.1:1420"@,
        r@[2]@ == "http://localhost:17860"@,
        r@[3]@ == "http://127.0.0.1:17860"@,
        r@[4]@ == "tauri://localhost"@,
        r@[5]@ == "http://tauri.localhost"@,
        r@[6]@ == "https://tauri.localhost"@,
        r@[7]@ == "http://"@ + local_ip_host@ + ":1420"@,
        r@[8]@ == "http://"@ + local_ip_host@ + ":17860"@,
{
    let mut r: Vec<String> = Vec::new();
    r.push(String::from_str("http://localhost:1420"));
    r.push(String::from_str("http://127.0.0.1:1420"));
    r.push(String::from_str("http://localhost:17860"));
    r.push(String::from_str("http://127.0.0.1:17860"));
    r.push(String::from_str("tauri://localhost"));
    r.push(String::from_str("http://tauri.localhost"));
    r.push(String::from_str("https://tauri.localhost"));
    let mut dev = String::from_str("http://");
    dev.append(local_ip_host);
    dev.append(":1420");
    r.push(dev);
    let mut app = String::from_str("http://");
    app.append(local_ip_host);
    app.append(":17860");
    r.push(app);
    r
}

/// The folder the front end is served from: the first candidate that holds
/// an `index.html`, else the first candidate, else `../dist`.
pub fn resolve_frontend_assets_root(candidates: &Vec<String>, has_index: &Vec<bool>) -> (r: String)
    requires
        has_index@.len() == candidates@.len(),
    ensures
        (exists|k: int|
            0 <= k < candidates@.len() && has_index@[k] && (forall|j: int|
                0 <= j < k ==> !has_index@[j]) && r@ == candidates@[k]@) || ((forall|j: int|
            0 <= j < candidates@.len() ==> !has_index@[j]) && if candidates@.len() > 0 {
            r@ == candidates@[0]@
        } else {
            r@ == "../dist"@
        }),
{
    let mut k: usize = 0;
    while k < candidates.len()
        invariant
            has_index@.len() == candidates@.len(),
            k <= candidates@.len(),
            forall|j: int| 0 <= j < k ==> !has_index@[j],
        decreases candidates@.len() - k,
    {
        if has_index[k] {
            return candidates[k].clone();
        }
        k = k + 1;
    }
    if candidates.len() > 0 {
        return candidates[0].clone();
    }
    String::from_str("../dist")
}

/// The file name of a database backup taken at `timestamp`.
pub fn backup_file_name(timestamp: &str) -> (r: String)
    ensures
        r@ == "song-class-backup-"@ + timestamp@ + ".sqlite3"@,
{
    let mut out = String::from_str("song-class-backup-");
    out.append(timestamp);
    out.append(".sqlite3");
    out
}

/// Refuses a backup when there is no database file.
pub fn check_backup_source(database_exists: bool) -> (r: Result<(), String>)
    ensures
        database_exists ==> r is Ok,
        !database_exists ==> (r matches Err(m) && m@ == "目前資料庫檔案不存在，無法備份。"@),
{
    if !database_exists {
        return Err(String::from_str("目前資料庫檔案不存在，無法備份。"));
    }
    Ok(())
}

/// Refuses a restore from a missing file or from the database in use.
pub fn check_restore_source(source_exists: bool, is_current_database: bool) -> (r: Result<(), String>)
    ensures
        !source_exists ==> (r matches Err(m) && m@ == "選擇的資料庫檔案不存在。"@),
        source_exists && is_current_database ==> (r matches Err(m) && m@
            == "不能回存到目前正在使用的資料庫檔案。"@),
        source_exists && !is_current_database ==> r is Ok,
{
    if !source_exists {
        return Err(String::from_str("選擇的資料庫檔案不存在。"));
    }
    if is_current_database {
        return Err(String::from_str("不能回存到目前正在使用的資料庫檔案。"));
    }
    Ok(())
}

/// Refuses to update a reminder board without an id.
pub fn require_board_id(id: Option<i64>) -> (r: Result<i64, String>)
    ensures
        id matches Some(v) ==> r == Ok::<i64, String>(v),
        id is None ==> (r matches Err(m) && m@ == "缺少 ID"@),
{
    match id {
        Some(v) => Ok(v),
        None => Err(String::from_str("缺少 ID")),
    }
}

/// Putting a host into url form twice changes nothing more than once.
pub proof fn law_host_bracketing_is_idempotent(host: Seq<char>)
    ensures
        host_for_url(host_for_url(host)) == host_for_url(host),
{
    if has_char(host, ':') && !(host.len() > 0 && host[0] == '[') {
        reveal_strlit("[");
        let b = "["@ + host + "]"@;
        assert(b[0] == '[');
    }
}

} // verus!

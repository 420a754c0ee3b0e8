//! The decisions of the web front end: which requests it forwards to the CLI
//! and with which arguments, which requests it accepts at all, how request
//! fields are checked, and when the server may listen.

use vstd::prelude::*;
use vstd::utf8::encode_utf8;

use crate::commands::{
    delete_bundle, delete_bundle_arguments, deploy_bundle, deploy_bundle_arguments, list_bundles,
    list_bundles_arguments, push_text, supported_agent,
    UnsupportedAgent,
};
use crate::json::{json_string_field, parse_json, spec_is_json, spec_json_string_field};
use crate::text::{decimal, decimal_text, is_white_space, is_white_space_char, join_text, str_equal, texts};

verus! {

// ---------------------------------------------------------------------------
// Routing
// ---------------------------------------------------------------------------

/// What the web server does with a named request.
pub enum WebRoute {
    ListBundles,
    SaveBundle,
    DeleteBundle,
    DeployBundle,
    CreatePreset,
    DeletePreset,
    ApplyPreset,
    AddSkillToPreset,
    RemoveSkillFromPreset,
    DeploySkill,
    UndeploySkill,
    GitInit,
    GitPush,
    GitPull,
    GitCommit,
    /// Accepted and answered with nothing.
    Ignored,
    /// Served by the skill store, or not supported in web mode.
    Other,
}

/// The route of the request called `name`.
pub open spec fn route_of(name: Seq<char>) -> WebRoute {
    if name == "list_bundles"@ {
        WebRoute::ListBundles
    } else if name == "save_bundle"@ {
        WebRoute::SaveBundle
    } else if name == "delete_bundle"@ {
        WebRoute::DeleteBundle
    } else if name == "deploy_bundle"@ {
        WebRoute::DeployBundle
    } else if name == "create_preset"@ {
        WebRoute::CreatePreset
    } else if name == "delete_preset"@ {
        WebRoute::DeletePreset
    } else if name == "switch_preset"@ || name == "apply_preset_to_default"@ {
        WebRoute::ApplyPreset
    } else if name == "add_skill_to_preset"@ {
        WebRoute::AddSkillToPreset
    } else if name == "remove_skill_from_preset"@ {
        WebRoute::RemoveSkillFromPreset
    } else if name == "sync_skill_to_tool"@ {
        WebRoute::DeploySkill
    } else if name == "unsync_skill_from_tool"@ {
        WebRoute::UndeploySkill
    } else if name == "git_backup_init"@ {
        WebRoute::GitInit
    } else if name == "git_backup_push"@ {
        WebRoute::GitPush
    } else if name == "git_backup_pull"@ {
        WebRoute::GitPull
    } else if name == "git_backup_commit"@ {
        WebRoute::GitCommit
    } else if name == "log_startup_event"@ || name == "check_last_panic"@ {
        WebRoute::Ignored
    } else {
        WebRoute::Other
    }
}

/// The route of the request called `name`.
pub fn web_route(name: &str) -> (r: WebRoute)
    ensures
        r == route_of(name@),
{
    if str_equal(name, "list_bundles") {
        WebRoute::ListBundles
    } else if str_equal(name, "save_bundle") {
        WebRoute::SaveBundle
    } else if str_equal(name, "delete_bundle") {
        WebRoute::DeleteBundle
    } else if str_equal(name, "deploy_bundle") {
        WebRoute::DeployBundle
    } else if str_equal(name, "create_preset") {
        WebRoute::CreatePreset
    } else if str_equal(name, "delete_preset") {
        WebRoute::DeletePreset
    } else if str_equal(name, "switch_preset") || str_equal(name, "apply_preset_to_default") {
        WebRoute::ApplyPreset
    } else if str_equal(name, "add_skill_to_preset") {
        WebRoute::AddSkillToPreset
    } else if str_equal(name, "remove_skill_from_preset") {
        WebRoute::RemoveSkillFromPreset
    } else if str_equal(name, "sync_skill_to_tool") {
        WebRoute::DeploySkill
    } else if str_equal(name, "unsync_skill_from_tool") {
        WebRoute::UndeploySkill
    } else if str_equal(name, "git_backup_init") {
        WebRoute::GitInit
    } else if str_equal(name, "git_backup_push") {
        WebRoute::GitPush
    } else if str_equal(name, "git_backup_pull") {
        WebRoute::GitPull
    } else if str_equal(name, "git_backup_commit") {
        WebRoute::GitCommit
    } else if str_equal(name, "log_startup_event") || str_equal(name, "check_last_panic") {
        WebRoute::Ignored
    } else {
        WebRoute::Other
    }
}

// ---------------------------------------------------------------------------
// CLI requests
// ---------------------------------------------------------------------------

impl UnsupportedAgent {
    /// The text with which the web server refuses the deployment.
    pub fn web_message(&self) -> (r: String)
        ensures
            r@ == "bundle deployment supports codex and hermes"@,
    {
        "bundle deployment supports codex and hermes".to_owned()
    }
}

/// A request that the web server forwards to the CLI, with its fields; a
/// manifest to save goes through `commands::save_bundle` instead, which
/// validates it.
pub enum CliRequest {
    ListBundles,
    DeleteBundle { slug: String },
    DeployBundle { slug: String, agent: String, undeploy: bool, dry_run: bool },
    CreatePreset { name: String, description: Option<String>, icon: Option<String> },
    DeletePreset { id: String },
    ApplyPreset { id: String },
    AddSkillToPreset { preset_id: String, skill_id: String },
    RemoveSkillFromPreset { preset_id: String, skill_id: String },
    DeploySkill { skill_id: String, tool: String },
    UndeploySkill { skill_id: String, tool: String },
    GitInit,
    GitPush,
    GitPull,
    GitCommit { message: String },
}

/// The arguments of each CLI request; `None` for a bundle deployment to an
/// agent other than Codex or Hermes.
pub open spec fn cli_request_arguments(req: CliRequest) -> Option<Seq<Seq<char>>> {
    match req {
        CliRequest::ListBundles => Some(list_bundles_arguments()),
        CliRequest::DeleteBundle { slug } => Some(delete_bundle_arguments(slug@)),
        CliRequest::DeployBundle { slug, agent, undeploy, dry_run } => if supported_agent(agent@) {
            Some(deploy_bundle_arguments(slug@, agent@, dry_run, undeploy))
        } else {
            None
        },
        CliRequest::CreatePreset { name, description, icon } => Some(
            seq!["presets"@, "create"@, name@] + match description {
                Some(d) => seq!["--description"@, d@],
                None => Seq::<Seq<char>>::empty(),
            } + match icon {
                Some(i) => seq!["--icon"@, i@],
                None => Seq::<Seq<char>>::empty(),
            },
        ),
        CliRequest::DeletePreset { id } => Some(seq!["presets"@, "delete"@, id@, "--yes"@]),
        CliRequest::ApplyPreset { id } => Some(seq!["presets"@, "apply"@, id@]),
        CliRequest::AddSkillToPreset { preset_id, skill_id } => Some(
            seq!["presets"@, "add-skill"@, preset_id@, skill_id@],
        ),
        CliRequest::RemoveSkillFromPreset { preset_id, skill_id } => Some(
            seq!["presets"@, "remove-skill"@, preset_id@, skill_id@],
        ),
        CliRequest::DeploySkill { skill_id, tool } => Some(
            seq!["skills"@, "deploy"@, skill_id@, "--agent"@, tool@],
        ),
        CliRequest::UndeploySkill { skill_id, tool } => Some(
            seq!["skills"@, "undeploy"@, skill_id@, "--agent"@, tool@],
        ),
        CliRequest::GitInit => Some(seq!["git"@, "init"@]),
        CliRequest::GitPush => Some(seq!["git"@, "push"@]),
        CliRequest::GitPull => Some(seq!["git"@, "pull"@]),
        CliRequest::GitCommit { message } => Some(
            seq!["git"@, "commit"@, "--message"@, message@],
        ),
    }
}

/// The CLI arguments that carry out `req`.
pub fn cli_arguments(req: &CliRequest) -> (r: Result<Vec<String>, UnsupportedAgent>)
    ensures
        match cli_request_arguments(*req) {
            Some(args) => r matches Ok(v) && texts(v@) == args,
            None => r is Err,
        },
{
    let mut v: Vec<String> = Vec::new();
    match req {
        CliRequest::ListBundles => {
            return Ok(list_bundles());
        },
        CliRequest::DeleteBundle { slug } => {
            return Ok(delete_bundle(slug.as_str()));
        },
        CliRequest::DeployBundle { slug, agent, undeploy, dry_run } => {
            return deploy_bundle(slug.as_str(), agent.as_str(), *dry_run, *undeploy);
        },
        CliRequest::CreatePreset { name, description, icon } => {
            push_text(&mut v, "presets");
            push_text(&mut v, "create");
            push_text(&mut v, name.as_str());
            match description {
                Some(d) => {
                    push_text(&mut v, "--description");
                    push_text(&mut v, d.as_str());
                },
                None => {},
            }
            match icon {
                Some(i) => {
                    push_text(&mut v, "--icon");
                    push_text(&mut v, i.as_str());
                },
                None => {},
            }
            assert(texts(v@) =~= cli_request_arguments(*req)->0);
        },
        CliRequest::DeletePreset { id } => {
            push_text(&mut v, "presets");
            push_text(&mut v, "delete");
            push_text(&mut v, id.as_str());
            push_text(&mut v, "--yes");
            assert(texts(v@) =~= cli_request_arguments(*req)->0);
        },
        CliRequest::ApplyPreset { id } => {
            push_text(&mut v, "presets");
            push_text(&mut v, "apply");
            push_text(&mut v, id.as_str());
            assert(texts(v@) =~= cli_request_arguments(*req)->0);
        },
        CliRequest::AddSkillToPreset { preset_id, skill_id } => {
            push_text(&mut v, "presets");
            push_text(&mut v, "add-skill");
            push_text(&mut v, preset_id.as_str());
            push_text(&mut v, skill_id.as_str());
            assert(texts(v@) =~= cli_request_arguments(*req)->0);
        },
        CliRequest::RemoveSkillFromPreset { preset_id, skill_id } => {
            push_text(&mut v, "presets");
            push_text(&mut v, "remove-skill");
            push_text(&mut v, preset_id.as_str());
            push_text(&mut v, skill_id.as_str());
            assert(texts(v@) =~= cli_request_arguments(*req)->0);
        },
        CliRequest::DeploySkill { skill_id, tool } => {
            push_text(&mut v, "skills");
            push_text(&mut v, "deploy");
            push_text(&mut v, skill_id.as_str());
            push_text(&mut v, "--agent");
            push_text(&mut v, tool.as_str());
            assert(texts(v@) =~= cli_request_arguments(*req)->0);
        },
        CliRequest::UndeploySkill { skill_id, tool } => {
            push_text(&mut v, "skills");
            push_text(&mut v, "undeploy");
            push_text(&mut v, skill_id.as_str());
            push_text(&mut v, "--agent");
            push_text(&mut v, tool.as_str());
            assert(texts(v@) =~= cli_request_arguments(*req)->0);
        },
        CliRequest::GitInit => {
            push_text(&mut v, "git");
            push_text(&mut v, "init");
            assert(texts(v@) =~= cli_request_arguments(*req)->0);
        },
        CliRequest::GitPush => {
            push_text(&mut v, "git");
            push_text(&mut v, "push");
            assert(texts(v@) =~= cli_request_arguments(*req)->0);
        },
        CliRequest::GitPull => {
            push_text(&mut v, "git");
            push_text(&mut v, "pull");
            assert(texts(v@) =~= cli_request_arguments(*req)->0);
        },
        CliRequest::GitCommit { message } => {
            push_text(&mut v, "git");
            push_text(&mut v, "commit");
            push_text(&mut v, "--message");
            push_text(&mut v, message.as_str());
            assert(texts(v@) =~= cli_request_arguments(*req)->0);
        },
    }
    Ok(v)
}

// ---------------------------------------------------------------------------
// Request fields
// ---------------------------------------------------------------------------

/// Longest request field accepted, in bytes.
pub const MAX_FIELD_BYTES: usize = 4096;

/// A required field: present, not empty and at most `MAX_FIELD_BYTES` bytes.
pub fn required_field(value: Option<&str>) -> (r: Option<&str>)
    ensures
        r == match value {
            Some(v) => if v@.len() > 0 && v.len() <= MAX_FIELD_BYTES {
                Some(v)
            } else {
                None
            },
            None => None,
        },
{
    match value {
        Some(v) => if !v.is_empty() && v.len() <= MAX_FIELD_BYTES {
            Some(v)
        } else {
            None
        },
        None => None,
    }
}

/// A text field that may be empty: present and at most `MAX_FIELD_BYTES` bytes.
pub fn text_field(value: Option<&str>) -> (r: Option<&str>)
    ensures
        r == match value {
            Some(v) => if v.len() <= MAX_FIELD_BYTES {
                Some(v)
            } else {
                None
            },
            None => None,
        },
{
    match value {
        Some(v) => if v.len() <= MAX_FIELD_BYTES {
            Some(v)
        } else {
            None
        },
        None => None,
    }
}

/// The text that reports a missing or invalid field `key`.
pub fn missing_field_message(key: &str) -> (r: String)
    ensures
        r@ == "missing or invalid "@ + key@,
{
    join_text("missing or invalid ", key)
}

/// The text that reports a request name the web server does not serve.
pub fn unsupported_request_message(name: &str) -> (r: String)
    ensures
        r@ == "Web mode does not support "@ + name@ + " yet"@,
{
    let mut r = join_text("Web mode does not support ", name);
    r.append(" yet");
    r
}

// ---------------------------------------------------------------------------
// Access
// ---------------------------------------------------------------------------

/// Why a request is refused before it is dispatched.
#[derive(Debug)]
pub enum AccessDenied {
    InvalidHost,
    InvalidOrigin,
    AuthenticationRequired,
}

impl AccessDenied {
    /// The HTTP status of the refusal.
    pub fn status(&self) -> (r: u16)
        ensures
            r == match self {
                AccessDenied::InvalidHost => 403u16,
                AccessDenied::InvalidOrigin => 403u16,
                AccessDenied::AuthenticationRequired => 401u16,
            },
    {
        match self {
            AccessDenied::InvalidHost => 403,
            AccessDenied::InvalidOrigin => 403,
            AccessDenied::AuthenticationRequired => 401,
        }
    }

    /// The text of the refusal.
    pub fn message(&self) -> (r: String)
        ensures
            r@ == match self {
                AccessDenied::InvalidHost => "invalid host"@,
                AccessDenied::InvalidOrigin => "invalid origin"@,
                AccessDenied::AuthenticationRequired => "Authentication required"@,
            },
    {
        match self {
            AccessDenied::InvalidHost => "invalid host".to_owned(),
            AccessDenied::InvalidOrigin => "invalid origin".to_owned(),
            AccessDenied::AuthenticationRequired => "Authentication required".to_owned(),
        }
    }
}

/// `Some` text as its characters.
pub open spec fn optional_chars(o: Option<&str>) -> Option<Seq<char>> {
    match o {
        Some(s) => Some(s@),
        None => None,
    }
}

/// The refusal, if any, of a request whose `Host` header is `host`: the host
/// must be the bound `expected_host` (or `localhost` with the bound port when
/// the server listens on loopback), an `Origin` header, whatever bytes it
/// holds, must be exactly the UTF-8 bytes of `http://{host}`, and when a token
/// is configured the `Authorization` header must be `Bearer {token}`.
pub open spec fn access_decision(
    expected_host: Seq<char>,
    is_loopback: bool,
    port: u16,
    host: Seq<char>,
    origin: Option<Seq<u8>>,
    token: Option<Seq<char>>,
    authorization: Option<Seq<char>>,
) -> Option<AccessDenied> {
    if host != expected_host && !(is_loopback && host == "localhost:"@ + decimal(port as nat)) {
        Some(AccessDenied::InvalidHost)
    } else if origin is Some && origin->0 != encode_utf8("http://"@ + host) {
        Some(AccessDenied::InvalidOrigin)
    } else if token is Some && authorization != Some("Bearer "@ + token->0) {
        Some(AccessDenied::AuthenticationRequired)
    } else {
        None
    }
}

/// Whether two byte strings are equal.
fn bytes_equal(a: &[u8], b: &[u8]) -> (r: bool)
    ensures
        r == (a@ == b@),
{
    if a.len() != b.len() {
        return false;
    }
    let mut i: usize = 0;
    while i < a.len()
        invariant
            a@.len() == b@.len(),
            i <= a@.len(),
            forall|j: int| 0 <= j < i ==> a@[j] == b@[j],
        decreases a.len() - i,
    {
        if a[i] != b[i] {
            return false;
        }
        i = i + 1;
    }
    assert(a@ =~= b@);
    true
}

/// Checks the headers of a request against the bound address and the token.
pub fn check_access(
    expected_host: &str,
    is_loopback: bool,
    port: u16,
    host: &str,
    origin: Option<&[u8]>,
    token: Option<&str>,
    authorization: Option<&str>,
) -> (r: Result<(), AccessDenied>)
    ensures
        match access_decision(
            expected_host@,
            is_loopback,
            port,
            host@,
            match origin {
                Some(o) => Some(o@),
                None => None,
            },
            optional_chars(token),
            optional_chars(authorization),
        ) {
            Some(d) => r == Err::<(), AccessDenied>(d),
            None => r is Ok,
        },
{
    let port_text = decimal_text(port as u32);
    let loopback_host = join_text("localhost:", port_text.as_str());
    if !str_equal(host, expected_host) && !(is_loopback && str_equal(host, loopback_host.as_str())) {
        return Err(AccessDenied::InvalidHost);
    }
    match origin {
        Some(o) => {
            let expected_origin = join_text("http://", host);
            if !bytes_equal(o, expected_origin.as_str().as_bytes()) {
                return Err(AccessDenied::InvalidOrigin);
            }
        },
        None => {},
    }
    match token {
        Some(t) => {
            let expected = join_text("Bearer ", t);
            let accepted = match authorization {
                Some(a) => str_equal(a, expected.as_str()),
                None => false,
            };
            if !accepted {
                return Err(AccessDenied::AuthenticationRequired);
            }
        },
        None => {},
    }
    Ok(())
}

// ---------------------------------------------------------------------------
// Binding
// ---------------------------------------------------------------------------

/// Shortest token accepted for a listener off loopback, in bytes.
pub const MIN_TOKEN_BYTES: usize = 24;

/// The configured token: an empty one counts as none.
pub fn configured_token(raw: Option<String>) -> (r: Option<String>)
    ensures
        r == match raw {
            Some(t) => if t@.len() > 0 {
                Some(t)
            } else {
                None
            },
            None => None,
        },
{
    match raw {
        Some(t) => if t.as_str().is_empty() {
            None
        } else {
            Some(t)
        },
        None => None,
    }
}

/// A listener off loopback is refused unless a token of at least
/// `MIN_TOKEN_BYTES` bytes is configured.
#[derive(Debug)]
pub struct WeakToken;

/// Whether the server may listen: always on loopback, elsewhere only with a
/// token of at least `MIN_TOKEN_BYTES` bytes.
pub fn check_binding(is_loopback: bool, token: Option<&str>) -> (r: Result<(), WeakToken>)
    ensures
        r is Ok <==> (is_loopback || (token matches Some(t) && t.len()
            >= MIN_TOKEN_BYTES)),
{
    if is_loopback {
        return Ok(());
    }
    match token {
        Some(t) => if t.len() < MIN_TOKEN_BYTES {
            Err(WeakToken)
        } else {
            Ok(())
        },
        None => Err(WeakToken),
    }
}

// ---------------------------------------------------------------------------
// CLI failures
// ---------------------------------------------------------------------------

/// `i` is the position of the first character of `s` that is not white space.
pub open spec fn is_trim_start(s: Seq<char>, i: int) -> bool {
    0 <= i < s.len() && !is_white_space(s[i]) && forall|j: int|
        0 <= j < i ==> is_white_space(#[trigger] s[j])
}

/// `i` is one past the last character of `s` that is not white space.
pub open spec fn is_trim_end(s: Seq<char>, i: int) -> bool {
    0 < i <= s.len() && !is_white_space(s[i - 1]) && forall|j: int|
        i <= j < s.len() ==> is_white_space(#[trigger] s[j])
}

/// `s` without white space at either end.
pub open spec fn trimmed(s: Seq<char>) -> Seq<char> {
    if exists|i: int| 0 <= i < s.len() && !is_white_space(#[trigger] s[i]) {
        s.subrange(choose|i: int| is_trim_start(s, i), choose|i: int| is_trim_end(s, i))
    } else {
        Seq::empty()
    }
}

/// `s` without white space at either end, as `str::trim` gives it.
pub fn trim_text(s: &str) -> (r: String)
    ensures
        r@ == trimmed(s@),
{
    let n = s.unicode_len();
    let mut start: usize = 0;
    while start < n && is_white_space_char(s.get_char(start))
        invariant
            n == s@.len(),
            start <= n,
            forall|j: int| 0 <= j < start ==> is_white_space(#[trigger] s@[j]),
        decreases n - start,
    {
        start = start + 1;
    }
    if start == n {
        proof {
            assert(!exists|i: int| 0 <= i < s@.len() && !is_white_space(#[trigger] s@[i]));
        }
        return String::new();
    }
    let mut end: usize = n;
    while end > start && is_white_space_char(s.get_char(end - 1))
        invariant
            n == s@.len(),
            start < n,
            !is_white_space(s@[start as int]),
            start < end <= n,
            forall|j: int| end <= j < n ==> is_white_space(#[trigger] s@[j]),
        decreases end,
    {
        end = end - 1;
    }
    proof {
        assert(!is_white_space(s@[start as int]));
        assert(is_trim_start(s@, start as int));
        let a = choose|i: int| is_trim_start(s@, i);
        assert(a == start) by {
            if a < start {
                assert(is_white_space(s@[a]));
            } else if a > start {
                assert(is_white_space(s@[start as int]));
            }
        }
        assert(is_trim_end(s@, end as int));
        let b = choose|i: int| is_trim_end(s@, i);
        assert(b == end) by {
            if b < end {
                assert(is_white_space(s@[end - 1]));
            } else if b > end {
                assert(is_white_space(s@[b - 1]));
            }
        }
    }
    s.substring_char(start, end).to_owned()
}

/// The text that reports a failed CLI run: the `message` string of the JSON
/// object the CLI wrote on its error stream, else that stream trimmed.
pub fn cli_failure_message(stderr: &str) -> (r: String)
    ensures
        r@ == match spec_json_string_field(stderr@, "message"@) {
            Some(m) => m,
            None => trimmed(stderr@),
        },
{
    match json_string_field(stderr, "message") {
        Some(m) => m,
        None => trim_text(stderr),
    }
}

/// The JSON value the CLI printed on success: its output, trimmed, parsed as
/// JSON; none when that is not JSON.
pub fn cli_output(stdout: &str) -> (r: Option<serde_json::Value>)
    ensures
        r is Some <==> spec_is_json(trimmed(stdout@)),
{
    let text = trim_text(stdout);
    parse_json(text.as_str())
}

} // verus!

use vstd::prelude::*;

verus! {

use crate::ledger::{Ledger, LedgerModel, first_index_of, spec_get};

/// A request to relay to a node's management API: either a plain read or a
/// write with a body.
#[derive(Debug)]
pub enum RequestType {
    Get { path: String },
    Post { path: String, body: String },
}

/// The envelope of one forwarded call.
#[derive(Debug)]
pub struct Request {
    pub xnode_id: String,
    pub request_type: RequestType,
}

/// The raw result of a forwarded call: the remote status line and body,
/// relayed verbatim.
#[derive(Debug)]
pub struct Response {
    pub status: u16,
    pub body: String,
}

/// A forwarded call together with the caller's proof of ownership.
pub struct ForwardRequest {
    pub secret: String,
    pub request: Request,
}

/// The body of a reserve call: which node is asked for.
pub struct Reserve {
    pub xnode_id: String,
}

/// The body of a deploy call: which node, the owner's proof, and the desired
/// workload descriptor.
pub struct SetApp {
    pub xnode_id: String,
    pub secret: String,
    pub flake: String,
}

/// The error payload handed back to the caller: a safe message, nothing of
/// the internals.
pub struct ResponseError {
    pub message: String,
}

impl ResponseError {
    pub fn new(message: &str) -> (r: ResponseError)
        ensures
            r.message@ == message@,
    {
        ResponseError { message: message.to_owned() }
    }
}

/// A fresh opaque owner secret, as the secret ownership scheme hands to a
/// successful reserver: 64 hexadecimal characters from 32 random bytes.
pub fn generate_owner_secret() -> (s: String)
    ensures
        s@.len() == 64,
        forall|i: int| 0 <= i < s@.len() ==> crate::crypto::is_hex_digit(#[trigger] s@[i]),
{
    let bytes = crate::crypto::random_bytes();
    proof {
        crate::crypto::lemma_hex_of_digits(bytes@);
    }
    crate::crypto::hex_encode(&bytes)
}

/// The workload-configuration mutation sent right after a successful
/// reservation: one container named after the owner's token (made safe as a
/// path component), carrying the workload descriptor as body.
pub fn build_set_app_request(set: &SetApp) -> (r: Request)
    ensures
        r.xnode_id@ == set.xnode_id@,
        r.request_type matches RequestType::Post { path, body } && path@ == "/config/container:"@
            + set.secret@.filter(|c: char| c != '/') && body@ == set.flake@,
{
    let container = crate::path_safe_id(set.secret.as_str());
    let mut path = String::new();
    path.append("/config/container:");
    path.append(container.as_str());
    Request {
        xnode_id: set.xnode_id.clone(),
        request_type: RequestType::Post { path, body: set.flake.clone() },
    }
}

pub open spec fn req_path(rt: RequestType) -> Seq<char> {
    match rt {
        RequestType::Get { path } => path@,
        RequestType::Post { path, body } => path@,
    }
}

impl Request {
    /// The path being requested, the same for either verb.
    pub fn path(&self) -> (r: &String)
        ensures
            r@ == req_path(self.request_type),
    {
        match &self.request_type {
            RequestType::Get { path } => path,
            RequestType::Post { path, body: _ } => path,
        }
    }

    /// Where the forwarded call goes: the node, then the path.
    pub fn url(&self) -> (r: String)
        ensures
            r@ == self.xnode_id@ + "/"@ + req_path(self.request_type),
    {
        let mut out = self.xnode_id.clone();
        out.append("/");
        out.append(self.path().as_str());
        out
    }
}

/// One entry of the forwarding allow-list: a path prefix, and whether calls
/// under it additionally demand reservation ownership.
pub struct PathRule {
    pub prefix: String,
    pub requires_owner: bool,
}

#[verifier::ext_equal]
pub struct RuleData {
    pub prefix: Seq<char>,
    pub requires_owner: bool,
}

impl View for PathRule {
    type V = RuleData;

    open spec fn view(&self) -> RuleData {
        RuleData { prefix: self.prefix@, requires_owner: self.requires_owner }
    }
}

pub open spec fn is_prefix_of(p: Seq<char>, s: Seq<char>) -> bool {
    p.len() <= s.len() && s.take(p.len() as int) == p
}

/// The first allow-list entry covering the path decides: `Some(gate)` with
/// its ownership demand, or `None` when no entry covers the path.
pub open spec fn rule_first_match(rules: Seq<RuleData>, path: Seq<char>) -> Option<bool>
    decreases rules.len(),
{
    if rules.len() == 0 {
        None
    } else if is_prefix_of(rules[0].prefix, path) {
        Some(rules[0].requires_owner)
    } else {
        rule_first_match(rules.skip(1), path)
    }
}

pub proof fn lemma_rule_match_from_prefix(rules: Seq<RuleData>, path: Seq<char>, i: int)
    requires
        0 <= i <= rules.len(),
        forall|k: int| 0 <= k < i ==> !is_prefix_of((#[trigger] rules[k]).prefix, path),
        i < rules.len() ==> is_prefix_of(rules[i].prefix, path),
    ensures
        rule_first_match(rules, path) == if i == rules.len() {
            None
        } else {
            Some(rules[i].requires_owner)
        },
    decreases rules.len(),
{
    if rules.len() == 0 {
    } else if is_prefix_of(rules[0].prefix, path) {
        assert(i == 0);
    } else {
        let tail = rules.skip(1);
        assert(forall|k: int|
            0 <= k < i - 1 ==> tail[k] == rules[k + 1] && !is_prefix_of(
                (#[trigger] rules[k + 1]).prefix,
                path,
            ));
        if i < rules.len() {
            assert(tail[i - 1] == rules[i]);
        }
        lemma_rule_match_from_prefix(tail, path, i - 1);
    }
}

/// The configuration write that installs a node's controller (with the
/// access grant for the new owner) or, with `None`, removes it again (an
/// empty grant), as reclamation does.
pub fn set_controller_request(xnode_id: &String, controller: Option<String>) -> (r: Request)
    ensures
        r.xnode_id@ == xnode_id@,
        r.request_type matches RequestType::Post { path, body } && path@ == "/config/controller"@
            && body@ == match controller {
                Some(c) => crate::config::controller_config_of(
                    "https://manager."@ + xnode_id@,
                    c@,
                ),
                None => Seq::<char>::empty(),
            },
{
    let grant = match controller {
        Some(c) => {
            let mut base = String::new();
            base.append("https://manager.");
            base.append(xnode_id.as_str());
            crate::config::controller_config(&base, &c)
        },
        None => String::new(),
    };
    Request {
        xnode_id: xnode_id.clone(),
        request_type: RequestType::Post {
            path: String::from_str("/config/controller"),
            body: grant,
        },
    }
}

/// The teardown of one deployed container, as issued during reclamation of
/// an expired reservation.
pub fn build_remove_container_request(xnode_id: &String, container: &String) -> (r: Request)
    ensures
        r.xnode_id@ == xnode_id@,
        r.request_type matches RequestType::Post { path, body } && path@ == "/config/container:"@
            + container@.filter(|c: char| c != '/') + "/remove"@ && body@ == Seq::<char>::empty(),
{
    let safe = crate::path_safe_id(container.as_str());
    let mut path = String::new();
    path.append("/config/container:");
    path.append(safe.as_str());
    path.append("/remove");
    Request { xnode_id: xnode_id.clone(), request_type: RequestType::Post { path, body: String::new() } }
}

/// The whole reclamation round for one node: tear down every container that
/// was found deployed on it, in the order they were reported.
pub fn reclaim_requests(xnode_id: &String, containers: &Vec<String>) -> (r: Vec<Request>)
    ensures
        r@.len() == containers@.len(),
        forall|i: int|
            0 <= i < r@.len() ==> ({
                &&& (#[trigger] r@[i]).xnode_id@ == xnode_id@
                &&& r@[i].request_type matches RequestType::Post { path, body } && path@
                    == "/config/container:"@ + containers@[i]@.filter(|c: char| c != '/')
                    + "/remove"@ && body@ == Seq::<char>::empty()
            }),
{
    let mut out: Vec<Request> = Vec::new();
    let mut k: usize = 0;
    while k < containers.len()
        invariant
            k <= containers@.len(),
            out@.len() == k,
            forall|i: int|
                0 <= i < k ==> ({
                    &&& (#[trigger] out@[i]).xnode_id@ == xnode_id@
                    &&& out@[i].request_type matches RequestType::Post { path, body } && path@
                        == "/config/container:"@ + containers@[i]@.filter(|c: char| c != '/')
                        + "/remove"@ && body@ == Seq::<char>::empty()
                }),
        decreases containers@.len() - k,
    {
        let req = build_remove_container_request(xnode_id, &containers[k]);
        out.push(req);
        k = k + 1;
    }
    out
}

/// Why a forwarded call was refused.
#[derive(Clone, Copy, PartialEq, Eq, Structural, Debug)]
pub enum ForwardError {
    /// The identifier is not one of the configured nodes.
    InvalidNode,
    /// The requested path is outside the configured allow-list.
    PathNotAllowed,
    /// The path demands ownership but the node has no live reservation.
    NotReserved,
    /// The presented proof does not match the reservation's owner.
    OwnershipMismatch,
    /// The remote answer carried a status outside the valid protocol range.
    InvalidUpstreamStatus,
}

/// The status class a refusal maps to at the HTTP surface.
#[derive(Clone, Copy, PartialEq, Eq, Structural, Debug)]
pub enum StatusClass {
    BadRequest,
    InternalError,
}

/// What authorizing a forwarded call does to the ledger and returns: unknown
/// nodes and uncovered paths are refused outright; a path whose rule demands
/// ownership is refused without a live reservation or with the wrong proof
/// (reading the reservation reclaims it if it has expired); everything else
/// may proceed to the network.
pub open spec fn spec_authorize(
    rules: Seq<RuleData>,
    m: LedgerModel,
    id: Seq<char>,
    path: Seq<char>,
    owner_proof: Seq<char>,
    now: u64,
) -> (LedgerModel, Result<(), ForwardError>) {
    if first_index_of(m.ids, id) < 0 {
        (m, Err(ForwardError::InvalidNode))
    } else {
        match rule_first_match(rules, path) {
            None => (m, Err(ForwardError::PathNotAllowed)),
            Some(false) => (m, Ok(())),
            Some(true) => {
                let (m1, cur) = spec_get(m, id, now);
                match cur {
                    None => (m1, Err(ForwardError::NotReserved)),
                    Some(r) => if r.owner == owner_proof {
                        (m1, Ok(()))
                    } else {
                        (m1, Err(ForwardError::OwnershipMismatch))
                    },
                }
            },
        }
    }
}

/// The forwarding gateway's configuration: the path allow-list.
pub struct Gateway {
    pub rules: Vec<PathRule>,
}

impl Gateway {
    pub open spec fn rules_view(&self) -> Seq<RuleData> {
        self.rules@.map_values(|r: PathRule| r@)
    }

    pub fn new(rules: Vec<PathRule>) -> (g: Gateway)
        ensures
            g.rules_view() == rules@.map_values(|r: PathRule| r@),
    {
        Gateway { rules }
    }

    /// Checks whether the rule covering `path` demands ownership: the first
    /// covering rule decides; `None` when no rule covers it.
    fn classify(&self, path: &String) -> (r: Option<bool>)
        ensures
            r == rule_first_match(self.rules_view(), path@),
    {
        let mut k: usize = 0;
        while k < self.rules.len()
            invariant
                k <= self.rules@.len(),
                self.rules_view().len() == self.rules@.len(),
                forall|j: int|
                    0 <= j < k ==> !is_prefix_of(
                        (#[trigger] self.rules_view()[j]).prefix,
                        path@,
                    ),
            decreases self.rules@.len() - k,
        {
            let rule = &self.rules[k];
            if is_prefix(&rule.prefix, path) {
                proof {
                    lemma_rule_match_from_prefix(self.rules_view(), path@, k as int);
                }
                return Some(rule.requires_owner);
            }
            k = k + 1;
        }
        proof {
            lemma_rule_match_from_prefix(self.rules_view(), path@, self.rules@.len() as int);
        }
        None
    }

    /// Validates a forwarded call before anything goes to the network: the
    /// node must be configured, the path covered by the allow-list, and an
    /// ownership-gated path demands the stored owner's proof. On any refusal
    /// the call must not be sent.
    pub fn authorize(
        &self,
        ledger: &mut Ledger,
        req: &Request,
        owner_proof: &String,
        now: u64,
    ) -> (r: Result<(), ForwardError>)
        requires
            old(ledger)@.slots.len() == old(ledger)@.ids.len(),
        ensures
            final(ledger)@ == spec_authorize(
                self.rules_view(),
                old(ledger)@,
                req.xnode_id@,
                req_path(req.request_type),
                owner_proof@,
                now,
            ).0,
            r == spec_authorize(
                self.rules_view(),
                old(ledger)@,
                req.xnode_id@,
                req_path(req.request_type),
                owner_proof@,
                now,
            ).1,
    {
        if !ledger.knows_node(&req.xnode_id) {
            return Err(ForwardError::InvalidNode);
        }
        match self.classify(req.path()) {
            None => Err(ForwardError::PathNotAllowed),
            Some(false) => Ok(()),
            Some(true) => {
                let x = ledger.get_xnode(&req.xnode_id, now);
                match x.reservation {
                    None => Err(ForwardError::NotReserved),
                    Some(res) => {
                        if res.reserved_by == *owner_proof {
                            Ok(())
                        } else {
                            Err(ForwardError::OwnershipMismatch)
                        }
                    },
                }
            },
        }
    }
}

impl Gateway {
    /// Validates one whole forward envelope: the wrapped call, under the
    /// proof it carries.
    pub fn authorize_forward(&self, ledger: &mut Ledger, fwd: &ForwardRequest, now: u64) -> (r:
        Result<(), ForwardError>)
        requires
            old(ledger)@.slots.len() == old(ledger)@.ids.len(),
        ensures
            final(ledger)@ == spec_authorize(
                self.rules_view(),
                old(ledger)@,
                fwd.request.xnode_id@,
                req_path(fwd.request.request_type),
                fwd.secret@,
                now,
            ).0,
            r == spec_authorize(
                self.rules_view(),
                old(ledger)@,
                fwd.request.xnode_id@,
                req_path(fwd.request.request_type),
                fwd.secret@,
                now,
            ).1,
    {
        self.authorize(ledger, &fwd.request, &fwd.secret, now)
    }
}

/// The allow-list matching the access grant `controller_config` writes onto
/// a node: configuration mutation demands ownership; introspection and
/// request relaying do not. This is deployment configuration, a deliberate
/// default, not policy: a deployment that wants every forwarded call tied to
/// the current reservation — so that even a usage read of a lapsed
/// reservation is refused as not reserved — marks each rule
/// `requires_owner` instead.
pub fn default_rules() -> (r: Vec<PathRule>)
    ensures
        r@.len() == 6,
        r@[0]@ == (RuleData { prefix: "/config"@, requires_owner: true }),
        r@[1]@ == (RuleData { prefix: "/file/container:"@, requires_owner: false }),
        r@[2]@ == (RuleData { prefix: "/info"@, requires_owner: false }),
        r@[3]@ == (RuleData { prefix: "/process/container:"@, requires_owner: false }),
        r@[4]@ == (RuleData { prefix: "/usage"@, requires_owner: false }),
        r@[5]@ == (RuleData { prefix: "/request"@, requires_owner: false }),
{
    let mut out: Vec<PathRule> = Vec::new();
    out.push(PathRule { prefix: String::from_str("/config"), requires_owner: true });
    out.push(PathRule { prefix: String::from_str("/file/container:"), requires_owner: false });
    out.push(PathRule { prefix: String::from_str("/info"), requires_owner: false });
    out.push(PathRule { prefix: String::from_str("/process/container:"), requires_owner: false });
    out.push(PathRule { prefix: String::from_str("/usage"), requires_owner: false });
    out.push(PathRule { prefix: String::from_str("/request"), requires_owner: false });
    out
}

/// Whether `p` begins `s`.
fn is_prefix(p: &String, s: &String) -> (r: bool)
    ensures
        r == is_prefix_of(p@, s@),
{
    let plen = p.as_str().unicode_len();
    let slen = s.as_str().unicode_len();
    if plen > slen {
        return false;
    }
    let mut k: usize = 0;
    while k < plen
        invariant
            k <= plen,
            plen == p@.len(),
            plen <= slen == s@.len(),
            forall|j: int| 0 <= j < k ==> p@[j] == s@[j],
        decreases plen - k,
    {
        if p.as_str().get_char(k) != s.as_str().get_char(k) {
            proof {
                assert(s@.take(plen as int)[k as int] != p@[k as int]);
            }
            return false;
        }
        k = k + 1;
    }
    proof {
        assert(s@.take(plen as int) =~= p@);
    }
    true
}

/// Translates the remote status line: relayed verbatim inside the valid
/// protocol range, refused as an internal fault outside it.
pub fn translate_status(status: u16, body: String) -> (r: Result<Response, ForwardError>)
    ensures
        100 <= status <= 599 ==> (r matches Ok(resp) && resp.status == status && resp.body@
            == body@),
        !(100 <= status <= 599) ==> r == Err::<Response, ForwardError>(
            ForwardError::InvalidUpstreamStatus,
        ),
{
    if 100 <= status && status <= 599 {
        Ok(Response { status, body })
    } else {
        Err(ForwardError::InvalidUpstreamStatus)
    }
}

/// Path allow-list: a forwarded call to a path that no configured rule
/// covers is refused as a validation failure — whatever the reservation
/// state, whatever proof is presented — and the ledger is left untouched, so
/// nothing reaches the network.
pub proof fn lemma_path_allow_list(
    rules: Seq<RuleData>,
    m: LedgerModel,
    id: Seq<char>,
    path: Seq<char>,
    owner_proof: Seq<char>,
    now: u64,
)
    requires
        rule_first_match(rules, path) is None,
    ensures
        spec_authorize(rules, m, id, path, owner_proof, now).0 == m,
        spec_authorize(rules, m, id, path, owner_proof, now).1 is Err,
        spec_authorize(rules, m, id, path, owner_proof, now).1.unwrap_err().status_class_spec()
            == StatusClass::BadRequest,
{
}

/// Ownership gate: when the rule covering the path demands ownership and the
/// node's reservation is live under some other owner, the call is refused
/// with `OwnershipMismatch`; authorization fails, so the call never reaches
/// the network.
pub proof fn lemma_ownership_gate(
    rules: Seq<RuleData>,
    m: LedgerModel,
    id: Seq<char>,
    path: Seq<char>,
    owner_proof: Seq<char>,
    now: u64,
)
    requires
        first_index_of(m.ids, id) >= 0,
        rule_first_match(rules, path) == Some(true),
        spec_get(m, id, now).1 matches Some(r) && r.owner != owner_proof,
    ensures
        spec_authorize(rules, m, id, path, owner_proof, now).1 == Err::<(), ForwardError>(
            ForwardError::OwnershipMismatch,
        ),
{
}

impl ForwardError {
    /// Validation and authorization failures face the client; everything
    /// else is an internal fault.
    pub open spec fn status_class_spec(&self) -> StatusClass {
        match self {
            ForwardError::InvalidUpstreamStatus => StatusClass::InternalError,
            _ => StatusClass::BadRequest,
        }
    }

    pub fn status_class(&self) -> (r: StatusClass)
        ensures
            r == self.status_class_spec(),
    {
        match self {
            ForwardError::InvalidUpstreamStatus => StatusClass::InternalError,
            _ => StatusClass::BadRequest,
        }
    }

    /// The safe, caller-facing words for each refusal: descriptive for
    /// validation and ownership failures, deliberately opaque for internal
    /// faults.
    pub fn message(&self) -> (r: String)
        ensures
            r@ == match self {
                ForwardError::InvalidNode => "Invalid Xnode id."@,
                ForwardError::PathNotAllowed => "Invalid request path."@,
                ForwardError::NotReserved => "Xnode is not reserved."@,
                ForwardError::OwnershipMismatch => "Xnode is reserved by someone else."@,
                ForwardError::InvalidUpstreamStatus => "Request could not be completed."@,
            },
    {
        match self {
            ForwardError::InvalidNode => String::from_str("Invalid Xnode id."),
            ForwardError::PathNotAllowed => String::from_str("Invalid request path."),
            ForwardError::NotReserved => String::from_str("Xnode is not reserved."),
            ForwardError::OwnershipMismatch => String::from_str("Xnode is reserved by someone else."),
            ForwardError::InvalidUpstreamStatus => String::from_str("Request could not be completed."),
        }
    }
}

} // verus!

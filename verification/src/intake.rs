//! Validation of posted client scan results, removal of the matching
//! outstanding job, and the persistence plan handed to the result sink.

use vstd::prelude::*;
use vstd::utf8::encode_utf8;
use crate::dispatcher::{lemma_remove_first_absent, lemma_remove_first_at, spec_remove_first,
    DispatcherState};
use crate::ip::{parse_ipv4, spec_parse_ip};

verus! {

/// One entry of the status reply's player sample, as posted: either field
/// may be missing from the JSON.
pub struct StatusSample {
    pub name: Option<String>,
    pub id: Option<String>,
}

/// The fields the dispatcher reads from a status reply. Absent JSON fields
/// are `None`; the description is carried as its serialized JSON text.
pub struct StatusPayload {
    pub version_name: Option<String>,
    pub online_count: Option<u64>,
    pub max_count: Option<u64>,
    pub description_json: Option<String>,
    pub favicon: Option<String>,
    pub sample: Option<Vec<StatusSample>>,
}

/// A posted scan result: status word, probed address, and the status reply
/// when the service was up.
pub struct ClientReport {
    pub status: Option<String>,
    pub ip: Option<String>,
    pub response: Option<StatusPayload>,
}

/// The request body as the transport hands it over.
pub enum ClientReportBody {
    /// The body was empty.
    Empty,
    /// The body was not a JSON object.
    Malformed,
    /// The fields read from the JSON object.
    Parsed(ClientReport),
}

/// Why a posted scan result was refused.
#[derive(Clone, Copy, PartialEq, Eq, Structural, Debug)]
pub enum ValidationFault {
    EmptyBody,
    MalformedJson,
    MissingStatus,
    MissingIp,
    InvalidIp,
    MissingResponse,
}

impl ValidationFault {
    /// The response text for this fault.
    pub fn message(&self) -> (r: String)
        ensures
            r@ == (match self {
                ValidationFault::EmptyBody => "Invalid JSON data received (empty)"@,
                ValidationFault::MalformedJson => "Invalid JSON data received"@,
                ValidationFault::MissingStatus => "Missing 'status' field"@,
                ValidationFault::MissingIp => "Missing `ip` field"@,
                ValidationFault::InvalidIp => "Invalid `ip` field"@,
                ValidationFault::MissingResponse => "No response provided while status is 'up'"@,
            }),
    {
        match self {
            ValidationFault::EmptyBody => "Invalid JSON data received (empty)".to_owned(),
            ValidationFault::MalformedJson => "Invalid JSON data received".to_owned(),
            ValidationFault::MissingStatus => "Missing 'status' field".to_owned(),
            ValidationFault::MissingIp => "Missing `ip` field".to_owned(),
            ValidationFault::InvalidIp => "Invalid `ip` field".to_owned(),
            ValidationFault::MissingResponse => "No response provided while status is 'up'".to_owned(),
        }
    }
}

/// The row the result sink is asked to write, together with the raw player
/// sample to resolve and link.
pub struct ScanPlan {
    pub ip: u32,
    pub version: Option<String>,
    pub online_count: Option<i32>,
    pub max_count: Option<i32>,
    pub description: Option<String>,
    pub favicon: Option<String>,
    pub players: Vec<StatusSample>,
}

/// What a posted scan result leads to.
pub enum ClientReportOutcome {
    /// Refuse the request.
    BadRequest(ValidationFault),
    /// The service was down: the outstanding job is gone, nothing to save.
    Removed,
    /// The service was up: save this plan. The outstanding job stays in
    /// place until `confirm_persisted` acknowledges the sink's success, so
    /// a persistence failure leaves it for the reclaim pass.
    Persist(ScanPlan),
}

pub uninterp spec fn lower_of(s: Seq<char>) -> Seq<char>;

/// Relies on `str::to_lowercase`: the result depends on the characters
/// alone.
#[verifier::external_body]
fn lowercase(s: &str) -> (r: String)
    ensures
        r@ == lower_of(s@),
{
    s.to_lowercase()
}

pub uninterp spec fn uuid_of(s: Seq<char>) -> Option<u128>;

/// Relies on `uuid::Uuid::parse_str` and `Uuid::as_u128`: whether a string
/// is a well-formed UUID, and its 128-bit value, depend on the string
/// alone.
#[verifier::external_body]
pub(crate) fn parse_uuid(s: &str) -> (r: Option<u128>)
    ensures
        r == uuid_of(s@),
{
    match uuid::Uuid::parse_str(s) {
        Ok(u) => Some(u.as_u128()),
        Err(_) => None,
    }
}

/// The first fault a posted report runs into, checked in request order, or
/// nothing when it is acceptable.
pub open spec fn spec_report_fault(body: ClientReportBody) -> Option<ValidationFault> {
    match body {
        ClientReportBody::Empty => Some(ValidationFault::EmptyBody),
        ClientReportBody::Malformed => Some(ValidationFault::MalformedJson),
        ClientReportBody::Parsed(rep) => {
            if rep.status is None {
                Some(ValidationFault::MissingStatus)
            } else if rep.ip is None {
                Some(ValidationFault::MissingIp)
            } else if spec_parse_ip(encode_utf8(rep.ip.unwrap()@)) is None {
                Some(ValidationFault::InvalidIp)
            } else if lower_of(rep.status.unwrap()@) == "up"@ && rep.response is None {
                Some(ValidationFault::MissingResponse)
            } else {
                None
            }
        },
    }
}

/// The row a payload asks the sink to write for address `ip`: counts are
/// truncated to the database's integer width, the description keeps its
/// JSON text, and the raw sample rides along.
pub open spec fn spec_plan_matches(plan: ScanPlan, ip: u32, payload: StatusPayload) -> bool {
    &&& plan.ip == ip
    &&& plan.version == payload.version_name
    &&& plan.online_count == (match payload.online_count {
        None => None,
        Some(x) => Some(x as i32),
    })
    &&& plan.max_count == (match payload.max_count {
        None => None,
        Some(x) => Some(x as i32),
    })
    &&& plan.description == payload.description_json
    &&& plan.favicon == payload.favicon
    &&& (match payload.sample {
        None => plan.players@ == Seq::<StatusSample>::empty(),
        Some(v) => plan.players == v,
    })
}

/// Removes the first outstanding job with this id and address, if present.
fn remove_outstanding(jobs: &mut Vec<crate::dispatcher::ClientJob>, id: u32, ip: u32)
    ensures
        final(jobs)@ == spec_remove_first(old(jobs)@, id, ip),
{
    let n = jobs.len();
    let mut i: usize = 0;
    while i < n
        invariant
            n == jobs@.len(),
            i <= n,
            jobs@ == old(jobs)@,
            forall|m: int| 0 <= m < i ==> !(jobs@[m].id == id && jobs@[m].ip == ip),
        decreases n - i,
    {
        if jobs[i].id == id && jobs[i].ip == ip {
            proof {
                lemma_remove_first_at(jobs@, id, ip, i as int);
            }
            jobs.remove(i);
            return ;
        }
        i = i + 1;
    }
    proof {
        lemma_remove_first_absent(jobs@, id, ip);
    }
}

impl DispatcherState {
    /// Takes a posted scan result for job `path_id`. Empty or malformed
    /// bodies and missing fields are refused in request order. A status
    /// other than `up` (compared lowercased) removes the matching
    /// outstanding job — removal is idempotent — and asks for nothing else.
    /// An `up` status must carry a reply; its fields come back as a
    /// persistence plan for the result sink, and the matching job stays
    /// outstanding until `confirm_persisted` reports the sink's success —
    /// a failed write leaves it in place for the reclaim pass.
    pub fn handle_client_report(&mut self, path_id: u32, body: ClientReportBody) -> (r:
        ClientReportOutcome)
        ensures
            final(self).ip_range == old(self).ip_range,
            final(self).valid_ips == old(self).valid_ips,
            final(self).client_job_counter == old(self).client_job_counter,
            final(self).scout_job_counter == old(self).scout_job_counter,
            match r {
                ClientReportOutcome::BadRequest(f) => {
                    &&& spec_report_fault(body) == Some(f)
                    &&& final(self).outstanding_client_jobs == old(self).outstanding_client_jobs
                },
                ClientReportOutcome::Removed => {
                    &&& spec_report_fault(body) is None
                    &&& body matches ClientReportBody::Parsed(rep) && (lower_of(
                        rep.status.unwrap()@,
                    ) != "up"@ && final(self).outstanding_client_jobs@ == spec_remove_first(
                        old(self).outstanding_client_jobs@,
                        path_id,
                        spec_parse_ip(encode_utf8(rep.ip.unwrap()@)).unwrap(),
                    ))
                },
                ClientReportOutcome::Persist(plan) => {
                    &&& spec_report_fault(body) is None
                    &&& body matches ClientReportBody::Parsed(rep) && (lower_of(
                        rep.status.unwrap()@,
                    ) == "up"@ && (rep.response matches Some(payload) && (spec_plan_matches(
                        plan,
                        spec_parse_ip(encode_utf8(rep.ip.unwrap()@)).unwrap(),
                        payload,
                    ) && final(self).outstanding_client_jobs == old(
                        self,
                    ).outstanding_client_jobs)))
                },
            },
    {
        let rep = match body {
            ClientReportBody::Empty => {
                return ClientReportOutcome::BadRequest(ValidationFault::EmptyBody);
            },
            ClientReportBody::Malformed => {
                return ClientReportOutcome::BadRequest(ValidationFault::MalformedJson);
            },
            ClientReportBody::Parsed(rep) => rep,
        };
        let status = match rep.status {
            Some(s) => s,
            None => {
                return ClientReportOutcome::BadRequest(ValidationFault::MissingStatus);
            },
        };
        let ip_text = match rep.ip {
            Some(s) => s,
            None => {
                return ClientReportOutcome::BadRequest(ValidationFault::MissingIp);
            },
        };
        let ip = match parse_ipv4(ip_text.as_str()) {
            Some(v) => v,
            None => {
                return ClientReportOutcome::BadRequest(ValidationFault::InvalidIp);
            },
        };
        let low = lowercase(status.as_str());
        let up = "up".to_owned();
        if !(low == up) {
            remove_outstanding(&mut self.outstanding_client_jobs, path_id, ip);
            return ClientReportOutcome::Removed;
        }
        let payload = match rep.response {
            Some(p) => p,
            None => {
                return ClientReportOutcome::BadRequest(ValidationFault::MissingResponse);
            },
        };
        let online_count = match payload.online_count {
            None => None,
            Some(x) => Some(#[verifier::truncate] (x as i32)),
        };
        let max_count = match payload.max_count {
            None => None,
            Some(x) => Some(#[verifier::truncate] (x as i32)),
        };
        let players = match payload.sample {
            None => Vec::new(),
            Some(v) => v,
        };
        ClientReportOutcome::Persist(
            ScanPlan {
                ip,
                version: payload.version_name,
                online_count,
                max_count,
                description: payload.description_json,
                favicon: payload.favicon,
                players,
            },
        )
    }

    /// Acknowledges that the result sink persisted the scan for this job:
    /// only now is the matching outstanding entry removed. When the sink
    /// fails, this is never called and the entry stays for the reclaim
    /// pass.
    pub fn confirm_persisted(&mut self, path_id: u32, ip: u32)
        ensures
            final(self).ip_range == old(self).ip_range,
            final(self).valid_ips == old(self).valid_ips,
            final(self).client_job_counter == old(self).client_job_counter,
            final(self).scout_job_counter == old(self).scout_job_counter,
            final(self).outstanding_client_jobs@ == spec_remove_first(
                old(self).outstanding_client_jobs@,
                path_id,
                ip,
            ),
    {
        remove_outstanding(&mut self.outstanding_client_jobs, path_id, ip);
    }
}

/// Why a player sample entry cannot be resolved.
#[derive(Clone, Copy, PartialEq, Eq, Structural, Debug)]
pub enum SampleError {
    /// The entry has no `name` field.
    MissingName,
    /// The entry has no `id` field.
    MissingId,
    /// The `id` field is not a well-formed UUID.
    BadUuid,
}

/// A resolved sample entry: the reported player name and the UUID the
/// entry itself claimed.
pub struct PlayerPlan {
    pub name: String,
    pub uuid: u128,
}

/// Resolves one sample entry: both fields must be present and the id must
/// be a well-formed UUID, in that order.
pub fn parse_sample(sample: &StatusSample) -> (r: Result<PlayerPlan, SampleError>)
    ensures
        match r {
            Ok(p) => {
                &&& sample.name matches Some(n) && (p.name == n)
                &&& sample.id matches Some(i) && (uuid_of(i@) == Some(p.uuid))
            },
            Err(SampleError::MissingName) => sample.name is None,
            Err(SampleError::MissingId) => sample.name is Some && sample.id is None,
            Err(SampleError::BadUuid) => {
                &&& sample.name is Some
                &&& sample.id matches Some(i) && (uuid_of(i@) is None)
            },
        },
{
    let name = match &sample.name {
        Some(n) => n.clone(),
        None => {
            return Err(SampleError::MissingName);
        },
    };
    let id_text = match &sample.id {
        Some(i) => i,
        None => {
            return Err(SampleError::MissingId);
        },
    };
    match parse_uuid(id_text.as_str()) {
        Some(uuid) => Ok(PlayerPlan { name, uuid }),
        None => Err(SampleError::BadUuid),
    }
}

/// A player row as the database holds it.
#[derive(Clone)]
pub struct PlayerRow {
    pub id: i32,
    pub username: String,
    pub player_uuid: Option<u128>,
}

/// What to do with the database for one resolved player.
pub enum PlayerAction {
    /// The row already holds this name: use it as is.
    Keep(PlayerRow),
    /// The row exists under another name: rename it.
    Rename { row: PlayerRow, new_name: String },
    /// No row yet: insert one with this name and authoritative UUID.
    Insert { username: String, player_uuid: Option<u128> },
}

/// Decides how a player reaches the database: an existing row is kept or
/// renamed to the reported name; a missing one is inserted, keyed by the
/// authoritative UUID when the lookup supplied one.
pub fn plan_player_action(existing: Option<PlayerRow>, name: String, uuid: Option<u128>) -> (r:
    PlayerAction)
    ensures
        match existing {
            Some(p) => {
                if p.username@ == name@ {
                    r == PlayerAction::Keep(p)
                } else {
                    r == (PlayerAction::Rename { row: p, new_name: name })
                }
            },
            None => r == (PlayerAction::Insert { username: name, player_uuid: uuid }),
        },
{
    match existing {
        Some(p) => {
            if !(p.username == name) {
                PlayerAction::Rename { row: p, new_name: name }
            } else {
                PlayerAction::Keep(p)
            }
        },
        None => PlayerAction::Insert { username: name, player_uuid: uuid },
    }
}

/// Why a username lookup reply is unusable.
#[derive(Clone, Copy, PartialEq, Eq, Structural, Debug)]
pub enum LookupReplyError {
    /// The lookup reports that the queried name or UUID no longer exists.
    Gone,
    /// The reply lacks the field the caller needs or it is malformed.
    MalformedReply,
}

/// Reads a username-lookup reply queried by name: no success means the
/// name is unknown; a success must carry a well-formed UUID.
pub fn resolve_playerdb_reply(success: bool, id: Option<String>) -> (r: Result<
    Option<u128>,
    LookupReplyError,
>)
    ensures
        match r {
            Ok(None) => !success,
            Ok(Some(v)) => {
                &&& success
                &&& id matches Some(s) && (uuid_of(s@) == Some(v))
            },
            Err(_) => success && (id is None || uuid_of(id.unwrap()@) is None),
        },
{
    if !success {
        return Ok(None);
    }
    let text = match id {
        Some(s) => s,
        None => {
            return Err(LookupReplyError::MalformedReply);
        },
    };
    match parse_uuid(text.as_str()) {
        Some(v) => Ok(Some(v)),
        None => Err(LookupReplyError::MalformedReply),
    }
}

/// Reads a username-lookup reply queried by UUID: a failed lookup means
/// the UUID is gone; a success must carry the current username.
pub fn resolve_updated_username(success: bool, username: Option<String>) -> (r: Result<
    String,
    LookupReplyError,
>)
    ensures
        match r {
            Ok(n) => success && (username matches Some(u) && n == u),
            Err(LookupReplyError::Gone) => !success,
            Err(LookupReplyError::MalformedReply) => success && username is None,
        },
{
    if !success {
        return Err(LookupReplyError::Gone);
    }
    match username {
        Some(n) => Ok(n),
        None => Err(LookupReplyError::MalformedReply),
    }
}

} // verus!

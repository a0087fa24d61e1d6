//! The dispatcher's job state: the address sweep, the queue of candidate
//! addresses awaiting a deep scan, and the outstanding client jobs with
//! their issue times.

use vstd::prelude::*;
use crate::ip::{parse_ipv4, spec_is_reserved, spec_parse_ip};
use vstd::utf8::encode_utf8;
use crate::ip_iter::{lemma_permute_injective, spec_next_valid, spec_permute, IpChunkIterator};

verus! {

/// Seconds an outstanding client job may stay unanswered before the reclaim
/// pass returns its address to the queue.
pub const RECLAIM_AGE_SECS: u64 = 60;

/// A deep-scan assignment: one candidate address, tracked with its issue
/// time so it can be reclaimed.
#[derive(Clone, Copy, PartialEq, Eq, Structural, Debug)]
pub struct ClientJob {
    pub id: u32,
    pub ip: u32,
    pub creation_time: u64,
}

/// A batch of addresses for the scout to probe.
pub struct ScoutJob {
    pub id: u32,
    pub ips: Vec<u32>,
}

/// Fresh sweeps a single draw may start before giving up.
pub const SWEEP_RESTARTS_PER_DRAW: usize = 8;

/// The sweep ran out of addresses even after every allowed restart.
#[derive(Debug)]
pub struct ExhaustionError;

/// Why a posted list of scout results was refused.
#[derive(Clone, Copy, PartialEq, Eq, Structural, Debug)]
pub enum ScoutIpsError {
    /// The body is not a JSON array of strings.
    InvalidJson,
    /// An entry is not a dotted-quad IPv4 address.
    InvalidIp,
}

/// The addresses drawn by `k` successive draws of the sweep starting at
/// cursor `x`, with the cursor position after them; nothing if the sweep
/// runs dry first.
pub open spec fn spec_take_ips(offset: u32, x: u32, k: nat) -> Option<(Seq<u32>, u32)>
    decreases k,
{
    if k == 0 {
        Some((Seq::empty(), x))
    } else {
        match spec_next_valid(offset, x) {
            None => None,
            Some(idx) => match spec_take_ips(offset, (idx + 1) as u32, (k - 1) as nat) {
                None => None,
                Some((rest, xf)) => Some((seq![spec_permute(offset, idx)] + rest, xf)),
            },
        }
    }
}

/// A successful draw lies between the cursor and the end of the sweep, and
/// its image is never reserved.
proof fn lemma_next_valid_bounds(offset: u32, x: u32)
    ensures
        spec_next_valid(offset, x) matches Some(idx) ==> x <= idx < u32::MAX && !spec_is_reserved(
            spec_permute(offset, idx),
        ),
    decreases u32::MAX - x,
{
    if x != u32::MAX && spec_is_reserved(spec_permute(offset, x)) {
        lemma_next_valid_bounds(offset, (x + 1) as u32);
    }
}

/// Taking one more draw extends the sequence by the next valid image.
proof fn lemma_take_ips_snoc(offset: u32, x: u32, k: nat)
    requires
        spec_take_ips(offset, x, k) is Some,
        spec_next_valid(offset, spec_take_ips(offset, x, k).unwrap().1) is Some,
    ensures
        ({
            let (s, x1) = spec_take_ips(offset, x, k).unwrap();
            let idx = spec_next_valid(offset, x1).unwrap();
            spec_take_ips(offset, x, (k + 1) as nat) == Some(
                (s.push(spec_permute(offset, idx)), (idx + 1) as u32),
            )
        }),
    decreases k,
{
    reveal_with_fuel(spec_take_ips, 3);
    let (s, x1) = spec_take_ips(offset, x, k).unwrap();
    let idx = spec_next_valid(offset, x1).unwrap();
    lemma_next_valid_bounds(offset, x1);
    if k == 0 {
        assert(seq![spec_permute(offset, idx)] + Seq::<u32>::empty() =~= s.push(
            spec_permute(offset, idx),
        ));
    } else {
        let first = spec_next_valid(offset, x).unwrap();
        lemma_next_valid_bounds(offset, x);
        lemma_take_ips_snoc(offset, (first + 1) as u32, (k - 1) as nat);
        let (rest, _) = spec_take_ips(offset, (first + 1) as u32, (k - 1) as nat).unwrap();
        assert(seq![spec_permute(offset, first)] + rest.push(spec_permute(offset, idx)) =~= (seq![
            spec_permute(offset, first),
        ] + rest).push(spec_permute(offset, idx)));
    }
}

/// Once the sweep runs dry, no larger draw count succeeds either.
proof fn lemma_take_ips_dry(offset: u32, x: u32, k: nat, k2: nat)
    requires
        spec_take_ips(offset, x, k) is Some,
        spec_next_valid(offset, spec_take_ips(offset, x, k).unwrap().1) is None,
        k2 > k,
    ensures
        spec_take_ips(offset, x, k2) is None,
    decreases k,
{
    reveal_with_fuel(spec_take_ips, 3);
    if k == 0 {
    } else {
        let first = spec_next_valid(offset, x).unwrap();
        lemma_next_valid_bounds(offset, x);
        lemma_take_ips_dry(offset, (first + 1) as u32, (k - 1) as nat, (k2 - 1) as nat);
    }
}

/// A batch drawn with an odd offset repeats no address: every element is
/// the image of a distinct cursor position, and the mixing function is
/// injective for odd offsets.
pub proof fn lemma_take_ips_distinct(offset: u32, x: u32, k: nat)
    requires
        offset % 2 == 1,
        spec_take_ips(offset, x, k) is Some,
    ensures
        ({
            let (s, xf) = spec_take_ips(offset, x, k).unwrap();
            &&& x <= xf
            &&& (forall|i: int|
                0 <= i < s.len() ==> exists|m: u32|
                    x <= m < xf && #[trigger] s[i] == spec_permute(offset, m))
            &&& (forall|i: int, j: int| 0 <= i < j < s.len() ==> s[i] != s[j])
        }),
    decreases k,
{
    let (s, xf) = spec_take_ips(offset, x, k).unwrap();
    if k > 0 {
        let idx = spec_next_valid(offset, x).unwrap();
        lemma_next_valid_bounds(offset, x);
        lemma_take_ips_distinct(offset, (idx + 1) as u32, (k - 1) as nat);
        let (rest, xf2) = spec_take_ips(offset, (idx + 1) as u32, (k - 1) as nat).unwrap();
        assert(s == seq![spec_permute(offset, idx)] + rest);
        assert(s[0] == spec_permute(offset, idx));
        assert(x <= idx < xf2);
        assert forall|i: int| 0 <= i < s.len() implies exists|m: u32|
            x <= m < xf && #[trigger] s[i] == spec_permute(offset, m) by {
            if i == 0 {
                assert(x <= idx < xf && s[0] == spec_permute(offset, idx));
            } else {
                let m0 = choose|m: u32|
                    idx + 1 <= m < xf2 && #[trigger] rest[i - 1] == spec_permute(offset, m);
                assert(x <= m0 < xf && s[i] == spec_permute(offset, m0));
            }
        }
        assert forall|i: int, j: int| 0 <= i < j < s.len() implies s[i] != s[j] by {
            if i == 0 {
                let m0 = choose|m: u32|
                    idx + 1 <= m < xf2 && #[trigger] rest[j - 1] == spec_permute(offset, m);
                if s[0] == s[j] {
                    lemma_permute_injective(offset, idx, m0);
                }
            }
        }
    }
}

/// Appends each address in turn to the queue unless it is already present:
/// first-seen order is kept and duplicates are dropped.
pub open spec fn spec_push_unique(q: Seq<u32>, ips: Seq<u32>) -> Seq<u32>
    decreases ips.len(),
{
    if ips.len() == 0 {
        q
    } else {
        let q2 = if q.contains(ips[0]) {
            q
        } else {
            q.push(ips[0])
        };
        spec_push_unique(q2, ips.drop_first())
    }
}

/// Folding one more address appends it exactly when it is still absent.
proof fn lemma_push_unique_snoc(q: Seq<u32>, ips: Seq<u32>, v: u32)
    ensures
        spec_push_unique(q, ips.push(v)) == ({
            let q2 = spec_push_unique(q, ips);
            if q2.contains(v) {
                q2
            } else {
                q2.push(v)
            }
        }),
    decreases ips.len(),
{
    reveal_with_fuel(spec_push_unique, 3);
    if ips.len() == 0 {
        assert(ips.push(v).drop_first() =~= Seq::<u32>::empty());
        assert(ips.push(v)[0] == v);
    } else {
        let q2 = if q.contains(ips[0]) {
            q
        } else {
            q.push(ips[0])
        };
        assert(ips.push(v)[0] == ips[0]);
        assert(ips.push(v).drop_first() =~= ips.drop_first().push(v));
        lemma_push_unique_snoc(q2, ips.drop_first(), v);
        assert(spec_push_unique(q, ips.push(v)) == spec_push_unique(q2, ips.drop_first().push(v)));
        assert(spec_push_unique(q, ips) == spec_push_unique(q2, ips.drop_first()));
    }
}

/// Intake never disturbs what is already queued: the old queue stays as a
/// prefix, in order, and a queue without duplicates still has none after
/// any list of addresses is folded in.
pub proof fn lemma_push_unique_preserves(q: Seq<u32>, ips: Seq<u32>)
    ensures
        ({
            let r = spec_push_unique(q, ips);
            &&& q.len() <= r.len()
            &&& (forall|i: int| 0 <= i < q.len() ==> r[i] == q[i])
            &&& ((forall|i: int, j: int| 0 <= i < j < q.len() ==> q[i] != q[j]) ==> (forall|
                i: int,
                j: int,
            | 0 <= i < j < r.len() ==> r[i] != r[j]))
        }),
    decreases ips.len(),
{
    if ips.len() > 0 {
        let v = ips[0];
        let q2 = if q.contains(v) {
            q
        } else {
            q.push(v)
        };
        lemma_push_unique_preserves(q2, ips.drop_first());
        if !q.contains(v) {
            if forall|i: int, j: int| 0 <= i < j < q.len() ==> q[i] != q[j] {
                assert forall|i: int, j: int| 0 <= i < j < q2.len() implies q2[i] != q2[j] by {
                    if j == q.len() {
                        assert(q2[j] == v);
                        assert(q[i] == q2[i]);
                        if q[i] == v {
                            assert(q.contains(v));
                        }
                    }
                }
            }
        }
    }
}

/// Removes the first job carrying this id and address, if one is present.
pub open spec fn spec_remove_first(jobs: Seq<ClientJob>, id: u32, ip: u32) -> Seq<ClientJob>
    decreases jobs.len(),
{
    if jobs.len() == 0 {
        jobs
    } else if jobs[0].id == id && jobs[0].ip == ip {
        jobs.drop_first()
    } else {
        seq![jobs[0]] + spec_remove_first(jobs.drop_first(), id, ip)
    }
}

/// When no job matches, removal changes nothing.
pub proof fn lemma_remove_first_absent(jobs: Seq<ClientJob>, id: u32, ip: u32)
    requires
        forall|m: int| 0 <= m < jobs.len() ==> !(jobs[m].id == id && jobs[m].ip == ip),
    ensures
        spec_remove_first(jobs, id, ip) == jobs,
    decreases jobs.len(),
{
    if jobs.len() > 0 {
        lemma_remove_first_absent(jobs.drop_first(), id, ip);
        assert(seq![jobs[0]] + jobs.drop_first() =~= jobs);
    }
}

/// Removal takes out exactly the first matching index.
pub proof fn lemma_remove_first_at(jobs: Seq<ClientJob>, id: u32, ip: u32, idx: int)
    requires
        0 <= idx < jobs.len(),
        jobs[idx].id == id && jobs[idx].ip == ip,
        forall|m: int| 0 <= m < idx ==> !(jobs[m].id == id && jobs[m].ip == ip),
    ensures
        spec_remove_first(jobs, id, ip) == jobs.remove(idx),
    decreases idx,
{
    if idx == 0 {
        assert(jobs.remove(0) =~= jobs.drop_first());
    } else {
        lemma_remove_first_at(jobs.drop_first(), id, ip, idx - 1);
        assert(seq![jobs[0]] + jobs.drop_first().remove(idx - 1) =~= jobs.remove(idx));
    }
}

/// A job has waited past the reclaim age; issue times in the future (clock
/// skew) never count as expired.
pub open spec fn spec_expired(job: ClientJob, now: u64) -> bool {
    now >= job.creation_time && now - job.creation_time > RECLAIM_AGE_SECS
}

/// One reclaim pass over the outstanding jobs, front to back: each expired
/// job is dropped and its address pushed to the front of the queue; the
/// rest keep their order.
pub open spec fn spec_reclaim(jobs: Seq<ClientJob>, valid: Seq<u32>, now: u64) -> (
    Seq<ClientJob>,
    Seq<u32>,
)
    decreases jobs.len(),
{
    if jobs.len() == 0 {
        (jobs, valid)
    } else if spec_expired(jobs[0], now) {
        spec_reclaim(jobs.drop_first(), seq![jobs[0].ip] + valid, now)
    } else {
        let (kept, v) = spec_reclaim(jobs.drop_first(), valid, now);
        (seq![jobs[0]] + kept, v)
    }
}

/// Draining for shutdown pushes every outstanding address to the front of
/// the queue, front job pushed first.
pub open spec fn spec_drain(jobs: Seq<ClientJob>, valid: Seq<u32>) -> Seq<u32>
    decreases jobs.len(),
{
    if jobs.len() == 0 {
        valid
    } else {
        spec_drain(jobs.drop_first(), seq![jobs[0].ip] + valid)
    }
}

/// Relies on `serde_json::from_str::<Vec<String>>`: whether a text parses
/// as a JSON array of strings, and which strings it holds, depend on the
/// text alone.
#[verifier::external_body]
fn parse_ip_string_list(body: &str) -> (r: Option<Vec<String>>)
    ensures
        (r is Some) == (json_string_list(body@) is Some),
        r matches Some(v) ==> Some(v.deep_view()) == json_string_list(body@),
{
    match serde_json::from_str::<Vec<String>>(body) {
        Ok(v) => Some(v),
        Err(_) => None,
    }
}

pub uninterp spec fn json_string_list(s: Seq<char>) -> Option<Seq<Seq<char>>>;

/// The parsed addresses of a list of strings, where every string parses.
pub open spec fn spec_parsed_ips(strs: Seq<Seq<char>>) -> Seq<u32> {
    Seq::new(strs.len(), |i: int| spec_parse_ip(encode_utf8(strs[i])).unwrap())
}

/// Decides membership in the queue.
fn contains_ip(v: &Vec<u32>, ip: u32) -> (r: bool)
    ensures
        r == v@.contains(ip),
{
    let mut i: usize = 0;
    while i < v.len()
        invariant
            0 <= i <= v@.len(),
            forall|j: int| 0 <= j < i ==> v@[j] != ip,
        decreases v@.len() - i,
    {
        if v[i] == ip {
            return true;
        }
        i = i + 1;
    }
    proof {
        assert(!v@.contains(ip));
    }
    false
}

/// Everything the dispatcher tracks between requests.
pub struct DispatcherState {
    /// The address sweep feeding scout jobs.
    pub ip_range: IpChunkIterator,
    /// Candidate addresses awaiting a deep scan; index zero is the front.
    pub valid_ips: Vec<u32>,
    /// Issued client jobs awaiting their report.
    pub outstanding_client_jobs: Vec<ClientJob>,
    /// The id the next client job will carry.
    pub client_job_counter: u32,
    /// The id the next scout job will carry.
    pub scout_job_counter: u32,
}

impl DispatcherState {
    /// The address sweep stays within its parameter range.
    pub open spec fn wf(&self) -> bool {
        self.ip_range.wf()
    }

    /// A fresh dispatcher: random sweep, empty queues, counters at zero.
    pub fn new() -> (r: Self)
        ensures
            r.wf(),
            r.ip_range.spec_x() == 0,
            r.valid_ips@ == Seq::<u32>::empty(),
            r.outstanding_client_jobs@ == Seq::<ClientJob>::empty(),
            r.client_job_counter == 0,
            r.scout_job_counter == 0,
    {
        DispatcherState {
            ip_range: IpChunkIterator::new(),
            valid_ips: Vec::new(),
            outstanding_client_jobs: Vec::new(),
            client_job_counter: 0,
            scout_job_counter: 0,
        }
    }

    /// Draws one address, restarting the sweep when it runs dry, up to
    /// `SWEEP_RESTARTS_PER_DRAW` fresh sweeps. Fails only when every one of
    /// those sweeps yields nothing. The flag reports whether any restart
    /// happened, so a caller knows when the draw left the deterministic
    /// sweep.
    fn pull_one(&mut self) -> (r: Result<(u32, bool), ExhaustionError>)
        requires
            old(self).wf(),
        ensures
            final(self).wf(),
            final(self).valid_ips == old(self).valid_ips,
            final(self).outstanding_client_jobs == old(self).outstanding_client_jobs,
            final(self).client_job_counter == old(self).client_job_counter,
            final(self).scout_job_counter == old(self).scout_job_counter,
            r matches Ok(p) ==> !spec_is_reserved(p.0),
            r is Err ==> spec_next_valid(
                old(self).ip_range.spec_offset(),
                old(self).ip_range.spec_x(),
            ) is None,
            match spec_next_valid(old(self).ip_range.spec_offset(), old(self).ip_range.spec_x()) {
                Some(idx) => {
                    &&& r == Ok::<(u32, bool), ExhaustionError>(
                        (spec_permute(old(self).ip_range.spec_offset(), idx), false),
                    )
                    &&& final(self).ip_range.spec_offset() == old(self).ip_range.spec_offset()
                    &&& final(self).ip_range.spec_x() == idx + 1
                },
                None => r matches Ok(p) ==> p.1 == true,
            },
    {
        match self.ip_range.next() {
            Some(ip) => Ok((ip, false)),
            None => {
                let mut attempts: usize = 0;
                while attempts < SWEEP_RESTARTS_PER_DRAW
                    invariant
                        spec_next_valid(
                            old(self).ip_range.spec_offset(),
                            old(self).ip_range.spec_x(),
                        ) is None,
                        self.wf(),
                        self.valid_ips == old(self).valid_ips,
                        self.outstanding_client_jobs == old(self).outstanding_client_jobs,
                        self.client_job_counter == old(self).client_job_counter,
                        self.scout_job_counter == old(self).scout_job_counter,
                    decreases SWEEP_RESTARTS_PER_DRAW - attempts,
                {
                    self.ip_range.regenerate();
                    match self.ip_range.next() {
                        Some(ip) => {
                            return Ok((ip, true));
                        },
                        None => {},
                    }
                    attempts = attempts + 1;
                }
                Err(ExhaustionError)
            },
        }
    }

    /// Issues a scout job of `size` addresses, pulling from the sweep and
    /// restarting it whenever it runs dry, several times per draw if need
    /// be. Succeeds whenever the current sweep itself can still supply
    /// `size` addresses, and pins the batch in that case; after a restart
    /// the batch depends on the fresh random offsets, and only a draw whose
    /// every allowed sweep comes up empty fails.
    pub fn scout_job(&mut self, size: usize) -> (r: Result<ScoutJob, ExhaustionError>)
        requires
            old(self).wf(),
        ensures
            final(self).wf(),
            final(self).valid_ips == old(self).valid_ips,
            final(self).outstanding_client_jobs == old(self).outstanding_client_jobs,
            final(self).client_job_counter == old(self).client_job_counter,
            match r {
                Ok(job) => {
                    &&& job.id == old(self).scout_job_counter
                    &&& final(self).scout_job_counter == spec_wrap_inc(old(self).scout_job_counter)
                    &&& job.ips@.len() == size
                    &&& (forall|m: int|
                        0 <= m < job.ips@.len() ==> !spec_is_reserved(#[trigger] job.ips@[m]))
                    &&& (spec_take_ips(
                        old(self).ip_range.spec_offset(),
                        old(self).ip_range.spec_x(),
                        size as nat,
                    ) matches Some((ips0, xf)) ==> job.ips@ == ips0 && final(self).ip_range.spec_offset() == old(self).ip_range.spec_offset() && final(self).ip_range.spec_x() == xf)
                },
                Err(_) => spec_take_ips(
                    old(self).ip_range.spec_offset(),
                    old(self).ip_range.spec_x(),
                    size as nat,
                ) is None,
            },
            spec_take_ips(
                old(self).ip_range.spec_offset(),
                old(self).ip_range.spec_x(),
                size as nat,
            ) is Some ==> r is Ok,
    {
        let ghost off0 = self.ip_range.spec_offset();
        let ghost x0 = self.ip_range.spec_x();
        let mut ips: Vec<u32> = Vec::new();
        let mut clean: bool = true;
        let mut i: usize = 0;
        while i < size
            invariant
                self.wf(),
                self.valid_ips == old(self).valid_ips,
                self.outstanding_client_jobs == old(self).outstanding_client_jobs,
                self.client_job_counter == old(self).client_job_counter,
                self.scout_job_counter == old(self).scout_job_counter,
                off0 == old(self).ip_range.spec_offset(),
                x0 == old(self).ip_range.spec_x(),
                ips@.len() == i,
                i <= size,
                forall|m: int| 0 <= m < ips@.len() ==> !spec_is_reserved(#[trigger] ips@[m]),
                clean ==> self.ip_range.spec_offset() == off0 && spec_take_ips(
                    off0,
                    x0,
                    i as nat,
                ) == Some((ips@, self.ip_range.spec_x())),
                !clean ==> spec_take_ips(off0, x0, size as nat) is None,
            decreases size - i,
        {
            let ghost x_before = self.ip_range.spec_x();
            match self.pull_one() {
                Ok((ip, restarted)) => {
                    proof {
                        if clean {
                            if spec_next_valid(off0, x_before) is Some {
                                lemma_take_ips_snoc(off0, x0, i as nat);
                            } else {
                                lemma_take_ips_dry(off0, x0, i as nat, size as nat);
                            }
                        }
                    }
                    if restarted {
                        clean = false;
                    }
                    ips.push(ip);
                },
                Err(e) => {
                    proof {
                        if clean {
                            lemma_take_ips_dry(off0, x0, i as nat, size as nat);
                        }
                    }
                    return Err(e);
                },
            }
            i = i + 1;
        }
        let id = self.scout_job_counter;
        self.scout_job_counter = wrap_inc(self.scout_job_counter);
        Ok(ScoutJob { id, ips })
    }

    /// Takes a posted list of scout results: the body must be a JSON array
    /// of dotted-quad strings; its addresses are appended to the queue in
    /// first-seen order, skipping any already present.
    pub fn post_ips(&mut self, body: &str) -> (r: Result<(), ScoutIpsError>)
        ensures
            final(self).ip_range == old(self).ip_range,
            final(self).outstanding_client_jobs == old(self).outstanding_client_jobs,
            final(self).client_job_counter == old(self).client_job_counter,
            final(self).scout_job_counter == old(self).scout_job_counter,
            match r {
                Ok(_) => {
                    &&& json_string_list(body@) matches Some(strs)
                    &&& forall|i: int|
                        0 <= i < json_string_list(body@).unwrap().len() ==> spec_parse_ip(
                            encode_utf8(#[trigger] json_string_list(body@).unwrap()[i]),
                        ) is Some
                    &&& final(self).valid_ips@ == spec_push_unique(
                        old(self).valid_ips@,
                        spec_parsed_ips(json_string_list(body@).unwrap()),
                    )
                },
                Err(ScoutIpsError::InvalidJson) => json_string_list(body@) is None && final(self).valid_ips == old(self).valid_ips,
                Err(ScoutIpsError::InvalidIp) => {
                    &&& json_string_list(body@) matches Some(strs)
                    &&& exists|i: int|
                        0 <= i < strs.len() && spec_parse_ip(
                            encode_utf8(#[trigger] strs[i]),
                        ) is None
                    &&& final(self).valid_ips == old(self).valid_ips
                },
            },
    {
        let strings = match parse_ip_string_list(body) {
            Some(v) => v,
            None => {
                return Err(ScoutIpsError::InvalidJson);
            },
        };
        let ghost strs = json_string_list(body@).unwrap();
        proof {
            assert(strings.deep_view().len() == strings@.len());
        }
        let mut parsed: Vec<u32> = Vec::new();
        let mut i: usize = 0;
        while i < strings.len()
            invariant
                json_string_list(body@) == Some(strs),
                strings.deep_view() == strs,
                strs.len() == strings@.len(),
                parsed@.len() == i,
                i <= strs.len(),
                forall|j: int|
                    0 <= j < i ==> spec_parse_ip(encode_utf8(#[trigger] strs[j])) == Some(
                        parsed@[j],
                    ),
            decreases strings@.len() - i,
        {
            proof {
                assert(strings@[i as int]@ == strings.deep_view()[i as int]);
            }
            match parse_ipv4((&strings[i]).as_str()) {
                Some(ip) => {
                    parsed.push(ip);
                },
                None => {
                    proof {
                        assert(spec_parse_ip(encode_utf8(strs[i as int])) is None);
                    }
                    return Err(ScoutIpsError::InvalidIp);
                },
            }
            i = i + 1;
        }
        proof {
            assert(parsed@ =~= spec_parsed_ips(strs));
        }
        let mut k: usize = 0;
        while k < parsed.len()
            invariant
                json_string_list(body@) == Some(strs),
                parsed@ == spec_parsed_ips(strs),
                forall|j: int|
                    0 <= j < strs.len() ==> spec_parse_ip(encode_utf8(#[trigger] strs[j])) == Some(
                        parsed@[j],
                    ),
                k <= parsed@.len(),
                self.ip_range == old(self).ip_range,
                self.outstanding_client_jobs == old(self).outstanding_client_jobs,
                self.client_job_counter == old(self).client_job_counter,
                self.scout_job_counter == old(self).scout_job_counter,
                self.valid_ips@ == spec_push_unique(old(self).valid_ips@, parsed@.take(k as int)),
            decreases parsed@.len() - k,
        {
            let ip = parsed[k];
            proof {
                lemma_push_unique_snoc(old(self).valid_ips@, parsed@.take(k as int), ip);
                assert(parsed@.take(k as int).push(ip) =~= parsed@.take(k as int + 1));
            }
            if !contains_ip(&self.valid_ips, ip) {
                self.valid_ips.push(ip);
            }
            k = k + 1;
        }
        proof {
            assert(parsed@.take(parsed@.len() as int) =~= parsed@);
        }
        Ok(())
    }

    /// Issues the next client job: pops the front candidate, stamps it with
    /// the next id and the current time, and tracks it as outstanding.
    /// Returns nothing exactly when the queue is empty.
    pub fn client_job(&mut self, now: u64) -> (r: Option<ClientJob>)
        ensures
            final(self).ip_range == old(self).ip_range,
            final(self).scout_job_counter == old(self).scout_job_counter,
            match r {
                Some(job) => {
                    &&& old(self).valid_ips@.len() > 0
                    &&& job.id == old(self).client_job_counter
                    &&& job.ip == old(self).valid_ips@[0]
                    &&& job.creation_time == now
                    &&& final(self).valid_ips@ == old(self).valid_ips@.drop_first()
                    &&& final(self).outstanding_client_jobs@ == old(self).outstanding_client_jobs@.push(job)
                    &&& final(self).client_job_counter == spec_wrap_inc(
                        old(self).client_job_counter,
                    )
                },
                None => {
                    &&& old(self).valid_ips@.len() == 0
                    &&& *final(self) == *old(self)
                },
            },
    {
        if self.valid_ips.len() == 0 {
            return None;
        }
        let ip = self.valid_ips.remove(0);
        proof {
            assert(old(self).valid_ips@.remove(0) =~= old(self).valid_ips@.drop_first());
        }
        let job = ClientJob { id: self.client_job_counter, ip, creation_time: now };
        self.client_job_counter = wrap_inc(self.client_job_counter);
        self.outstanding_client_jobs.push(job);
        Some(job)
    }

    /// One reclaim pass at time `now`: every outstanding job older than the
    /// reclaim age is dropped and its address pushed to the front of the
    /// queue; jobs with future issue times are left in place.
    pub fn reclaim(&mut self, now: u64)
        ensures
            final(self).ip_range == old(self).ip_range,
            final(self).client_job_counter == old(self).client_job_counter,
            final(self).scout_job_counter == old(self).scout_job_counter,
            (final(self).outstanding_client_jobs@, final(self).valid_ips@) == spec_reclaim(
                old(self).outstanding_client_jobs@,
                old(self).valid_ips@,
                now,
            ),
    {
        let ghost jobs0 = self.outstanding_client_jobs@;
        let ghost valid0 = self.valid_ips@;
        let mut kept: Vec<ClientJob> = Vec::new();
        let n = self.outstanding_client_jobs.len();
        let mut i: usize = 0;
        proof {
            assert(jobs0.skip(0) =~= jobs0);
            let (k2, v2) = spec_reclaim(jobs0, valid0, now);
            assert(Seq::<ClientJob>::empty() + k2 =~= k2);
        }
        while i < n
            invariant
                n == jobs0.len(),
                i <= n,
                self.outstanding_client_jobs@ == jobs0,
                self.ip_range == old(self).ip_range,
                self.client_job_counter == old(self).client_job_counter,
                self.scout_job_counter == old(self).scout_job_counter,
                spec_reclaim(jobs0, valid0, now) == ({
                    let (k2, v2) = spec_reclaim(jobs0.skip(i as int), self.valid_ips@, now);
                    (kept@ + k2, v2)
                }),
            decreases n - i,
        {
            let job = self.outstanding_client_jobs[i];
            let ghost rem = jobs0.skip(i as int);
            let ghost kept_pre = kept@;
            let ghost valid_pre = self.valid_ips@;
            proof {
                assert(rem[0] == jobs0[i as int]);
                assert(rem.drop_first() =~= jobs0.skip(i as int + 1));
            }
            let expired = now >= job.creation_time && now - job.creation_time > RECLAIM_AGE_SECS;
            if expired {
                self.valid_ips.insert(0, job.ip);
                proof {
                    assert(self.valid_ips@ =~= seq![job.ip] + valid_pre);
                }
            } else {
                kept.push(job);
                proof {
                    let (k2, v2) = spec_reclaim(jobs0.skip(i as int + 1), self.valid_ips@, now);
                    assert(kept_pre + (seq![job] + k2) =~= kept@ + k2);
                }
            }
            i = i + 1;
        }
        proof {
            assert(jobs0.skip(n as int) =~= Seq::<ClientJob>::empty());
            let (k2, v2) = spec_reclaim(jobs0.skip(n as int), self.valid_ips@, now);
            assert(kept@ + k2 =~= kept@);
        }
        self.outstanding_client_jobs = kept;
    }

    /// The queued candidate addresses as dotted-quad strings, front first:
    /// the body of the queue listing resource.
    pub fn valid_ips_strings(&self) -> (r: Vec<String>)
        ensures
            r@.len() == self.valid_ips@.len(),
            forall|i: int|
                0 <= i < r@.len() ==> encode_utf8(#[trigger] r@[i]@) == crate::ip::spec_format_ip(
                    self.valid_ips@[i],
                ),
    {
        crate::ip::ips_as_strings(&self.valid_ips)
    }

    /// Drains every outstanding job back to the front of the queue, for a
    /// clean shutdown: no issued work is lost.
    pub fn drain_outstanding(&mut self)
        ensures
            final(self).ip_range == old(self).ip_range,
            final(self).client_job_counter == old(self).client_job_counter,
            final(self).scout_job_counter == old(self).scout_job_counter,
            final(self).outstanding_client_jobs@ == Seq::<ClientJob>::empty(),
            final(self).valid_ips@ == spec_drain(
                old(self).outstanding_client_jobs@,
                old(self).valid_ips@,
            ),
    {
        let ghost jobs0 = self.outstanding_client_jobs@;
        let ghost valid0 = self.valid_ips@;
        let n = self.outstanding_client_jobs.len();
        let mut i: usize = 0;
        proof {
            assert(jobs0.skip(0) =~= jobs0);
        }
        while i < n
            invariant
                n == jobs0.len(),
                i <= n,
                self.outstanding_client_jobs@ == jobs0,
                self.ip_range == old(self).ip_range,
                self.client_job_counter == old(self).client_job_counter,
                self.scout_job_counter == old(self).scout_job_counter,
                spec_drain(jobs0, valid0) == spec_drain(jobs0.skip(i as int), self.valid_ips@),
            decreases n - i,
        {
            let job = self.outstanding_client_jobs[i];
            let ghost valid_pre = self.valid_ips@;
            proof {
                let rem = jobs0.skip(i as int);
                assert(rem[0] == jobs0[i as int]);
                assert(rem.drop_first() =~= jobs0.skip(i as int + 1));
            }
            self.valid_ips.insert(0, job.ip);
            proof {
                assert(self.valid_ips@ =~= seq![job.ip] + valid_pre);
            }
            i = i + 1;
        }
        proof {
            assert(jobs0.skip(n as int) =~= Seq::<ClientJob>::empty());
        }
        self.outstanding_client_jobs = Vec::new();
    }
}

/// The successor of a job counter, wrapping at the type's limit as the
/// process-wide atomic counters do.
pub open spec fn spec_wrap_inc(v: u32) -> u32 {
    if v == u32::MAX {
        0
    } else {
        (v + 1) as u32
    }
}

/// Computes the wrapping successor.
fn wrap_inc(v: u32) -> (r: u32)
    ensures
        r == spec_wrap_inc(v),
{
    if v == u32::MAX {
        0
    } else {
        v + 1
    }
}

} // verus!

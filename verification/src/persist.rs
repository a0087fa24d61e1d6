//! On-disk form of the dispatcher state: a fixed binary layout whose
//! round trip is exact, so no sweep position or queued address is lost
//! across a restart.

use vstd::prelude::*;
use crate::dispatcher::{ClientJob, DispatcherState};
use crate::mc_packet::spec_be64;
use crate::ip::{ip_from_octets, octets, spec_ip_from_octets, spec_octets};
use crate::ip_iter::{IpChunkIterator, OFFSET_MAX, OFFSET_MIN};

verus! {

/// The four big-endian bytes of `v`.
pub open spec fn spec_be32(v: u32) -> Seq<u8> {
    let (a, b, c, d) = spec_octets(v);
    seq![a, b, c, d]
}

/// The value of four big-endian bytes.
pub open spec fn spec_u32_of(b: Seq<u8>) -> u32
    recommends
        b.len() == 4,
{
    spec_ip_from_octets(b[0], b[1], b[2], b[3])
}

/// The value of eight big-endian bytes.
pub open spec fn spec_u64_of(b: Seq<u8>) -> u64
    recommends
        b.len() == 8,
{
    ((b[0] as u64) * 0x100000000000000 + (b[1] as u64) * 0x1000000000000 + (b[2] as u64)
        * 0x10000000000 + (b[3] as u64) * 0x100000000 + (b[4] as u64) * 0x1000000 + (b[5] as u64)
        * 0x10000 + (b[6] as u64) * 0x100 + (b[7] as u64)) as u64
}

/// Reading back the four bytes of a 32-bit value yields the value.
proof fn lemma_u32_round(v: u32)
    ensures
        spec_u32_of(spec_be32(v)) == v,
{
    let (a, b, c, d) = spec_octets(v);
    assert(spec_ip_from_octets(
        (v / 0x1000000) as u8,
        ((v / 0x10000) % 0x100) as u8,
        ((v / 0x100) % 0x100) as u8,
        (v % 0x100) as u8,
    ) == v) by (bit_vector);
}

/// Reading back the eight bytes of a 64-bit value yields the value.
proof fn lemma_u64_round(v: u64)
    ensures
        spec_u64_of(spec_be64(v)) == v,
{
    assert(((v / 0x100000000000000) as u8 as u64) * 0x100000000000000 + (((v / 0x1000000000000)
        % 0x100) as u8 as u64) * 0x1000000000000 + (((v / 0x10000000000) % 0x100) as u8 as u64)
        * 0x10000000000 + (((v / 0x100000000) % 0x100) as u8 as u64) * 0x100000000 + (((v
        / 0x1000000) % 0x100) as u8 as u64) * 0x1000000 + (((v / 0x10000) % 0x100) as u8 as u64)
        * 0x10000 + (((v / 0x100) % 0x100) as u8 as u64) * 0x100 + ((v % 0x100) as u8 as u64) == v)
        by (bit_vector);
}

/// The sixteen bytes of one outstanding job: id, address, issue time.
pub open spec fn spec_job_enc(j: ClientJob) -> Seq<u8> {
    spec_be32(j.id) + spec_be32(j.ip) + spec_be64(j.creation_time)
}

/// The serialized state: sweep offset and cursor, then the queued
/// addresses behind their count, then the outstanding jobs behind theirs.
pub open spec fn spec_state_enc(
    offset: u32,
    x: u32,
    valid: Seq<u32>,
    jobs: Seq<ClientJob>,
) -> Seq<u8> {
    spec_be32(offset) + spec_be32(x) + spec_be64(valid.len() as u64) + Seq::new(
        valid.len() * 4,
        |i: int| spec_be32(valid[i / 4])[i % 4],
    ) + spec_be64(jobs.len() as u64) + Seq::new(
        jobs.len() * 16,
        |i: int| spec_job_enc(jobs[i / 16])[i % 16],
    )
}

/// Appends the four big-endian bytes of `v`.
fn push_be32(out: &mut Vec<u8>, v: u32)
    ensures
        final(out)@ == old(out)@ + spec_be32(v),
{
    let (a, b, c, d) = octets(v);
    out.push(a);
    out.push(b);
    out.push(c);
    out.push(d);
    assert(out@ =~= old(out)@ + spec_be32(v));
}

/// Appends the eight big-endian bytes of `v`.
fn push_be64(out: &mut Vec<u8>, v: u64)
    ensures
        final(out)@ == old(out)@ + spec_be64(v),
{
    out.push((v / 0x100000000000000) as u8);
    out.push(((v / 0x1000000000000) % 0x100) as u8);
    out.push(((v / 0x10000000000) % 0x100) as u8);
    out.push(((v / 0x100000000) % 0x100) as u8);
    out.push(((v / 0x1000000) % 0x100) as u8);
    out.push(((v / 0x10000) % 0x100) as u8);
    out.push(((v / 0x100) % 0x100) as u8);
    out.push((v % 0x100) as u8);
    assert(out@ =~= old(out)@ + spec_be64(v));
}

/// Reads four big-endian bytes at `pos`.
fn read_u32_at(b: &[u8], pos: usize) -> (r: u32)
    requires
        pos + 4 <= b@.len(),
    ensures
        r == spec_u32_of(b@.subrange(pos as int, pos as int + 4)),
{
    let r = ip_from_octets(b[pos], b[pos + 1], b[pos + 2], b[pos + 3]);
    proof {
        let s = b@.subrange(pos as int, pos as int + 4);
        assert(s[0] == b@[pos as int] && s[1] == b@[pos as int + 1] && s[2] == b@[pos as int + 2]
            && s[3] == b@[pos as int + 3]);
    }
    r
}

/// Reads eight big-endian bytes at `pos`.
fn read_u64_at(b: &[u8], pos: usize) -> (r: u64)
    requires
        pos + 8 <= b@.len(),
    ensures
        r == spec_u64_of(b@.subrange(pos as int, pos as int + 8)),
{
    let r: u64 = (b[pos] as u64) * 0x100000000000000 + (b[pos + 1] as u64) * 0x1000000000000 + (b[
        pos + 2] as u64) * 0x10000000000 + (b[pos + 3] as u64) * 0x100000000 + (b[pos
        + 4] as u64) * 0x1000000 + (b[pos + 5] as u64) * 0x10000 + (b[pos + 6] as u64) * 0x100 + (
    b[pos + 7] as u64);
    proof {
        let s = b@.subrange(pos as int, pos as int + 8);
        assert(s[0] == b@[pos as int] && s[1] == b@[pos as int + 1] && s[2] == b@[pos as int + 2]
            && s[3] == b@[pos as int + 3] && s[4] == b@[pos as int + 4] && s[5] == b@[pos as int
            + 5] && s[6] == b@[pos as int + 6] && s[7] == b@[pos as int + 7]);
    }
    r
}

/// Serializes the persisted share of the dispatcher state: the sweep and
/// the two queues. Job counters are process-local and start afresh.
pub fn encode_state(st: &DispatcherState) -> (r: Vec<u8>)
    requires
        st.valid_ips@.len() * 4 <= usize::MAX,
        st.outstanding_client_jobs@.len() * 16 <= usize::MAX,
    ensures
        r@ == spec_state_enc(
            st.ip_range.spec_offset(),
            st.ip_range.spec_x(),
            st.valid_ips@,
            st.outstanding_client_jobs@,
        ),
{
    let ghost valid = st.valid_ips@;
    let ghost jobs = st.outstanding_client_jobs@;
    let mut out: Vec<u8> = Vec::new();
    push_be32(&mut out, st.ip_range.offset());
    push_be32(&mut out, st.ip_range.cursor());
    push_be64(&mut out, st.valid_ips.len() as u64);
    let ghost head = out@;
    let ghost ips_block = Seq::new(valid.len() * 4, |i: int| spec_be32(valid[i / 4])[i % 4]);
    let mut i: usize = 0;
    while i < st.valid_ips.len()
        invariant
            st.valid_ips@ == valid,
            i <= valid.len(),
            valid.len() * 4 <= usize::MAX,
            ips_block == Seq::new(valid.len() * 4, |m: int| spec_be32(valid[m / 4])[m % 4]),
            out@ == head + ips_block.take(i as int * 4),
        decreases valid.len() - i,
    {
        push_be32(&mut out, st.valid_ips[i]);
        proof {
            assert forall|m: int| 0 <= m < 4 implies ips_block[i as int * 4 + m] == spec_be32(
                valid[i as int],
            )[m] by {
                assert((i as int * 4 + m) / 4 == i as int && (i as int * 4 + m) % 4 == m);
            }
            assert(out@ =~= head + ips_block.take((i + 1) as int * 4));
        }
        i = i + 1;
    }
    proof {
        assert(ips_block.take(valid.len() as int * 4) =~= ips_block);
    }
    push_be64(&mut out, st.outstanding_client_jobs.len() as u64);
    let ghost head2 = out@;
    let ghost jobs_block = Seq::new(jobs.len() * 16, |i: int| spec_job_enc(jobs[i / 16])[i % 16]);
    let mut k: usize = 0;
    while k < st.outstanding_client_jobs.len()
        invariant
            st.outstanding_client_jobs@ == jobs,
            k <= jobs.len(),
            jobs.len() * 16 <= usize::MAX,
            jobs_block == Seq::new(jobs.len() * 16, |m: int| spec_job_enc(jobs[m / 16])[m % 16]),
            out@ == head2 + jobs_block.take(k as int * 16),
        decreases jobs.len() - k,
    {
        let job = st.outstanding_client_jobs[k];
        let ghost pre = out@;
        push_be32(&mut out, job.id);
        push_be32(&mut out, job.ip);
        push_be64(&mut out, job.creation_time);
        proof {
            assert(out@ =~= pre + spec_job_enc(jobs[k as int]));
            assert forall|m: int| 0 <= m < 16 implies jobs_block[k as int * 16 + m] == spec_job_enc(
                jobs[k as int],
            )[m] by {
                assert((k as int * 16 + m) / 16 == k as int && (k as int * 16 + m) % 16 == m);
            }
            assert(out@ =~= head2 + jobs_block.take((k + 1) as int * 16));
        }
        k = k + 1;
    }
    proof {
        assert(jobs_block.take(jobs.len() as int * 16) =~= jobs_block);
        assert(out@ =~= spec_state_enc(
            st.ip_range.spec_offset(),
            st.ip_range.spec_x(),
            valid,
            jobs,
        ));
    }
    out
}

/// Parses serialized state: the sweep fields, then each length-prefixed
/// block, requiring the bytes to end exactly at the last job. The offset
/// must lie in the range the random draw allows.
pub open spec fn spec_parse_state(b: Seq<u8>) -> Option<(u32, u32, Seq<u32>, Seq<ClientJob>)> {
    if b.len() < 16 {
        None
    } else {
        let offset = spec_u32_of(b.subrange(0, 4));
        let x = spec_u32_of(b.subrange(4, 8));
        let nv = spec_u64_of(b.subrange(8, 16));
        if b.len() < 16 + nv * 4 + 8 || !(OFFSET_MIN <= offset < OFFSET_MAX) {
            None
        } else {
            let base = 16 + nv * 4;
            let nj = spec_u64_of(b.subrange(base as int, base as int + 8));
            if b.len() != base + 8 + nj * 16 {
                None
            } else {
                let valid = Seq::new(nv as nat, |i: int| spec_u32_of(b.subrange(16 + 4 * i, 20 + 4 * i)));
                let jobs = Seq::new(
                    nj as nat,
                    |i: int|
                        ClientJob {
                            id: spec_u32_of(
                                b.subrange(base as int + 8 + 16 * i, base as int + 12 + 16 * i),
                            ),
                            ip: spec_u32_of(
                                b.subrange(base as int + 12 + 16 * i, base as int + 16 + 16 * i),
                            ),
                            creation_time: spec_u64_of(
                                b.subrange(base as int + 16 + 16 * i, base as int + 24 + 16 * i),
                            ),
                        },
                );
                Some((offset, x, valid, jobs))
            }
        }
    }
}

/// Restores a dispatcher from serialized state. Succeeds exactly when the
/// bytes parse, and then restores the parsed sweep and queues; the job
/// counters start at zero, as they do in a fresh process.
pub fn decode_state(b: &[u8]) -> (r: Option<DispatcherState>)
    ensures
        (r is Some) == (spec_parse_state(b@) is Some),
        r matches Some(st) ==> {
            &&& spec_parse_state(b@) matches Some((offset, x, valid, jobs)) && (st.ip_range.spec_offset()
                == offset && st.ip_range.spec_x() == x && st.valid_ips@ == valid
                && st.outstanding_client_jobs@ == jobs)
            &&& st.wf()
            &&& st.client_job_counter == 0
            &&& st.scout_job_counter == 0
        },
{
    let n = b.len();
    if n < 16 {
        return None;
    }
    let offset = read_u32_at(b, 0);
    let x = read_u32_at(b, 4);
    let nv = read_u64_at(b, 8);
    if !(OFFSET_MIN <= offset && offset < OFFSET_MAX) {
        return None;
    }
    if nv > (usize::MAX as u64 - 24) / 4 || n < 16 + (nv as usize) * 4 + 8 {
        proof {
            assert(b@.len() < 16 + nv * 4 + 8);
        }
        return None;
    }
    let nvu = nv as usize;
    let base = 16 + nvu * 4;
    let nj = read_u64_at(b, base);
    let remaining = n - base - 8;
    if remaining % 16 != 0 || nj != (remaining / 16) as u64 {
        proof {
            assert(b@.len() == base + 8 + remaining);
            assert(remaining == 16 * (remaining as int / 16) + remaining as int % 16);
            assert(b@.len() != 16 + nv * 4 + 8 + nj * 16);
        }
        return None;
    }
    let nju = remaining / 16;
    let ghost valid_spec = Seq::new(
        nv as nat,
        |i: int| spec_u32_of(b@.subrange(16 + 4 * i, 20 + 4 * i)),
    );
    let mut valid: Vec<u32> = Vec::new();
    let mut i: usize = 0;
    while i < nvu
        invariant
            b@.len() <= usize::MAX,
            16 + nvu * 4 + 8 <= b@.len(),
            i <= nvu,
            valid@.len() == i,
            valid_spec == Seq::new(
                nvu as nat,
                |m: int| spec_u32_of(b@.subrange(16 + 4 * m, 20 + 4 * m)),
            ),
            forall|m: int| 0 <= m < i ==> valid@[m] == valid_spec[m],
        decreases nvu - i,
    {
        let v = read_u32_at(b, 16 + 4 * i);
        valid.push(v);
        i = i + 1;
    }
    proof {
        assert(valid@ =~= valid_spec);
    }
    let ghost jobs_spec = Seq::new(
        nj as nat,
        |i: int|
            ClientJob {
                id: spec_u32_of(b@.subrange(base as int + 8 + 16 * i, base as int + 12 + 16 * i)),
                ip: spec_u32_of(b@.subrange(base as int + 12 + 16 * i, base as int + 16 + 16 * i)),
                creation_time: spec_u64_of(
                    b@.subrange(base as int + 16 + 16 * i, base as int + 24 + 16 * i),
                ),
            },
    );
    let mut jobs: Vec<ClientJob> = Vec::new();
    let mut k: usize = 0;
    while k < nju
        invariant
            b@.len() <= usize::MAX,
            base == 16 + nvu * 4,
            base + 8 + nju * 16 <= b@.len(),
            k <= nju,
            jobs@.len() == k,
            jobs_spec == Seq::new(
                nju as nat,
                |m: int|
                    ClientJob {
                        id: spec_u32_of(
                            b@.subrange(base as int + 8 + 16 * m, base as int + 12 + 16 * m),
                        ),
                        ip: spec_u32_of(
                            b@.subrange(base as int + 12 + 16 * m, base as int + 16 + 16 * m),
                        ),
                        creation_time: spec_u64_of(
                            b@.subrange(base as int + 16 + 16 * m, base as int + 24 + 16 * m),
                        ),
                    },
            ),
            forall|m: int| 0 <= m < k ==> jobs@[m] == jobs_spec[m],
        decreases nju - k,
    {
        let id = read_u32_at(b, base + 8 + 16 * k);
        let ip = read_u32_at(b, base + 12 + 16 * k);
        let creation_time = read_u64_at(b, base + 16 + 16 * k);
        jobs.push(ClientJob { id, ip, creation_time });
        k = k + 1;
    }
    proof {
        assert(jobs@ =~= jobs_spec);
    }
    Some(
        DispatcherState {
            ip_range: IpChunkIterator::from_parts(offset, x),
            valid_ips: valid,
            outstanding_client_jobs: jobs,
            client_job_counter: 0,
            scout_job_counter: 0,
        },
    )
}

/// Round trip: parsing the serialized form of any in-range state restores
/// exactly the sweep fields and both queues — no address and no
/// outstanding job is lost across a restart.
#[verifier::rlimit(100)]
#[verifier::spinoff_prover]
pub proof fn lemma_state_round_trip(offset: u32, x: u32, valid: Seq<u32>, jobs: Seq<ClientJob>)
    requires
        OFFSET_MIN <= offset < OFFSET_MAX,
        valid.len() < 0x1000_0000,
        jobs.len() < 0x1000_0000,
    ensures
        spec_parse_state(spec_state_enc(offset, x, valid, jobs)) == Some(
            (offset, x, valid, jobs),
        ),
{
    let b = spec_state_enc(offset, x, valid, jobs);
    let ips_block = Seq::new(valid.len() * 4, |i: int| spec_be32(valid[i / 4])[i % 4]);
    let jobs_block = Seq::new(jobs.len() * 16, |i: int| spec_job_enc(jobs[i / 16])[i % 16]);
    let nv = valid.len() as int;
    let nj = jobs.len() as int;
    assert(b.len() == 16 + nv * 4 + 8 + nj * 16);
    lemma_u32_round(offset);
    lemma_u32_round(x);
    lemma_u64_round(valid.len() as u64);
    lemma_u64_round(jobs.len() as u64);
    assert(b.subrange(0, 4) =~= spec_be32(offset));
    assert(b.subrange(4, 8) =~= spec_be32(x));
    assert(b.subrange(8, 16) =~= spec_be64(valid.len() as u64));
    let base = 16 + nv * 4;
    assert(b.subrange(base, base + 8) =~= spec_be64(jobs.len() as u64));
    let valid2 = Seq::new(nv as nat, |i: int| spec_u32_of(b.subrange(16 + 4 * i, 20 + 4 * i)));
    assert forall|i: int| 0 <= i < nv implies valid2[i] == valid[i] by {
        assert(b.subrange(16 + 4 * i, 20 + 4 * i) =~= spec_be32(valid[i])) by {
            assert forall|m: int| 0 <= m < 4 implies ips_block[4 * i + m] == spec_be32(
                valid[i],
            )[m] by {
                assert((4 * i + m) / 4 == i && (4 * i + m) % 4 == m);
            }
        }
        lemma_u32_round(valid[i]);
    }
    assert(valid2 =~= valid);
    let jobs2 = Seq::new(
        nj as nat,
        |i: int|
            ClientJob {
                id: spec_u32_of(b.subrange(base + 8 + 16 * i, base + 12 + 16 * i)),
                ip: spec_u32_of(b.subrange(base + 12 + 16 * i, base + 16 + 16 * i)),
                creation_time: spec_u64_of(b.subrange(base + 16 + 16 * i, base + 24 + 16 * i)),
            },
    );
    assert forall|i: int| 0 <= i < nj implies jobs2[i] == jobs[i] by {
        assert forall|m: int| 0 <= m < 16 implies jobs_block[16 * i + m] == spec_job_enc(
            jobs[i],
        )[m] by {
            assert((16 * i + m) / 16 == i && (16 * i + m) % 16 == m);
        }
        assert(b.subrange(base + 8 + 16 * i, base + 12 + 16 * i) =~= spec_be32(jobs[i].id));
        assert(b.subrange(base + 12 + 16 * i, base + 16 + 16 * i) =~= spec_be32(jobs[i].ip));
        assert(b.subrange(base + 16 + 16 * i, base + 24 + 16 * i) =~= spec_be64(
            jobs[i].creation_time,
        ));
        lemma_u32_round(jobs[i].id);
        lemma_u32_round(jobs[i].ip);
        lemma_u64_round(jobs[i].creation_time);
    }
    assert(jobs2 =~= jobs);
}

} // verus!

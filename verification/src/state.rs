//! Authorization of executors and cluster peers, and routing of process keys to log shards.
use crate::auth::{spec_strip_prefix, strip_prefix};
use crate::keyspace::{key_group_for, spec_key_group_for};
use crate::text::str_eq;
use vstd::prelude::*;

verus! {

/// Compares two byte strings in time that depends only on the longer length.
pub fn constant_time_equal(left: &[u8], right: &[u8]) -> (eq: bool)
    ensures
        eq == (left@ == right@),
{
    let left_len = left.len();
    let right_len = right.len();
    let mut difference: usize = left_len ^ right_len;
    assert((difference == 0) == (left_len == right_len)) by (bit_vector)
        requires
            difference == left_len ^ right_len,
    ;
    let longest = if left.len() > right.len() { left.len() } else { right.len() };
    let mut index: usize = 0;
    while index < longest
        invariant
            longest == if left@.len() > right@.len() { left@.len() } else { right@.len() },
            index <= longest,
            (difference == 0) == (left@.len() == right@.len() && forall|k: int|
                0 <= k < index ==> left@[k] == right@[k]),
        decreases longest - index,
    {
        let l: u8 = if index < left.len() { left[index] } else { 0 };
        let r: u8 = if index < right.len() { right[index] } else { 0 };
        let x: u8 = l ^ r;
        let next = difference | (x as usize);
        assert((next == 0) == (difference == 0 && x == 0)) by (bit_vector)
            requires
                next == difference | (x as usize),
        ;
        assert((x == 0) == (l == r)) by (bit_vector)
            requires
                x == l ^ r,
        ;
        difference = next;
        index = index + 1;
    }
    proof {
        if difference == 0 {
            assert(left@ =~= right@);
        }
    }
    difference == 0
}

/// An executor deployment: its secret token, its task queue and the builds it may run.
pub struct ExecutionIdentity {
    pub token: String,
    pub task_queue: String,
    pub build_ids: Vec<String>,
}

/// Why a caller was not authorized.
#[derive(Debug, Clone, Copy, PartialEq, Eq, Structural)]
pub enum AuthorizationError {
    /// Executors must present an identity and none was given.
    IdentityRequired,
    /// No configured identity has the presented token.
    InvalidIdentity,
    /// The identity does not cover the task queue or one of the builds.
    NotAuthorized,
    /// Cluster transport has no token configured.
    ClusterDisabled,
    /// No bearer token was presented to the cluster transport.
    ClusterIdentityRequired,
    /// The presented cluster token is wrong.
    InvalidClusterIdentity,
}

/// The first identity whose token is `token`.
pub open spec fn first_identity_with(identities: Seq<ExecutionIdentity>, token: Seq<char>) -> Option<int> {
    if exists|i: int| 0 <= i < identities.len() && identities[i].token@ == token {
        Some(choose|i: int| 0 <= i < identities.len() && identities[i].token@ == token && forall|k: int| 0 <= k < i ==> identities[k].token@ != token)
    } else {
        None
    }
}

/// The identity lists `build_id` among its builds.
pub open spec fn build_allowed(identity: ExecutionIdentity, build_id: Seq<char>) -> bool {
    exists|j: int| 0 <= j < identity.build_ids@.len() && identity.build_ids@[j]@ == build_id
}

pub open spec fn identity_covers(identity: ExecutionIdentity, task_queue: Option<Seq<char>>, build_ids: Seq<Seq<char>>) -> bool {
    task_queue == Some(identity.task_queue@) && forall|x: int| 0 <= x < build_ids.len() ==> build_allowed(identity, #[trigger] build_ids[x])
}

pub open spec fn opt_view(s: Option<&str>) -> Option<Seq<char>> {
    match s {
        Some(x) => Some(x@),
        None => None,
    }
}

/// The authorization rule for a poll: with no identities configured every executor may poll;
/// otherwise the token must name an identity, and that identity must cover the requested task
/// queue and every requested build.
pub open spec fn spec_authorize_poll(
    identities: Seq<ExecutionIdentity>,
    token: Option<Seq<char>>,
    task_queue: Option<Seq<char>>,
    build_ids: Seq<Seq<char>>,
) -> Result<(), AuthorizationError> {
    if identities.len() == 0 {
        Ok(())
    } else {
        match token {
            None => Err(AuthorizationError::IdentityRequired),
            Some(t) => match first_identity_with(identities, t) {
                None => Err(AuthorizationError::InvalidIdentity),
                Some(i) => if identity_covers(identities[i], task_queue, build_ids) {
                    Ok(())
                } else {
                    Err(AuthorizationError::NotAuthorized)
                },
            },
        }
    }
}

fn contains_string(values: &Vec<String>, wanted: &String) -> (found: bool)
    ensures
        found == exists|j: int| 0 <= j < values@.len() && values@[j]@ == wanted@,
{
    let mut j: usize = 0;
    while j < values.len()
        invariant
            j <= values@.len(),
            forall|k: int| 0 <= k < j ==> values@[k]@ != wanted@,
        decreases values.len() - j,
    {
        if values[j] == *wanted {
            return true;
        }
        j = j + 1;
    }
    false
}

/// Authorizes an executor's poll against the configured execution identities.
pub fn authorize_poll(
    identities: &Vec<ExecutionIdentity>,
    token: Option<&str>,
    task_queue: Option<&str>,
    build_ids: &Vec<String>,
) -> (r: Result<(), AuthorizationError>)
    ensures
        r == spec_authorize_poll(identities@, opt_view(token), opt_view(task_queue), build_ids@.map_values(|b: String| b@)),
{
    if identities.len() == 0 {
        return Ok(());
    }
    let presented = match token {
        Some(t) => t,
        None => return Err(AuthorizationError::IdentityRequired),
    };
    let mut i: usize = 0;
    while i < identities.len()
        invariant
            i <= identities@.len(),
            identities@.len() > 0,
            opt_view(token) == Some(presented@),
            forall|k: int| 0 <= k < i ==> identities@[k].token@ != presented@,
        decreases identities.len() - i,
    {
        let matched = constant_time_equal(identities[i].token.as_str().as_bytes(), presented.as_bytes());
        proof {
            vstd::utf8::encode_utf8_decode_utf8(identities@[i as int].token@);
            vstd::utf8::encode_utf8_decode_utf8(presented@);
        }
        if matched {
            let identity = &identities[i];
            proof {
                let c = choose|c: int| 0 <= c < identities@.len() && identities@[c].token@ == presented@ && forall|k: int| 0 <= k < c ==> identities@[k].token@ != presented@;
                assert(0 <= i < identities@.len() && identities@[i as int].token@ == presented@ && forall|k: int| 0 <= k < i ==> identities@[k].token@ != presented@);
                if c < i {
                    assert(identities@[c].token@ != presented@);
                } else if c > i {
                    assert(identities@[i as int].token@ != presented@);
                }
                assert(first_identity_with(identities@, presented@) == Some(i as int));
            }
            let queue_ok = match task_queue {
                Some(q) => str_eq(q, identity.task_queue.as_str()),
                None => false,
            };
            if !queue_ok {
                return Err(AuthorizationError::NotAuthorized);
            }
            let ghost wanted = build_ids@.map_values(|b: String| b@);
            let mut b: usize = 0;
            while b < build_ids.len()
                invariant
                    b <= build_ids@.len(),
                    i < identities@.len(),
                    *identity == identities@[i as int],
                    first_identity_with(identities@, presented@) == Some(i as int),
                    opt_view(task_queue) == Some(identity.task_queue@),
                    identities@.len() > 0,
                    opt_view(token) == Some(presented@),
                    wanted == build_ids@.map_values(|b: String| b@),
                    forall|x: int| 0 <= x < b ==> build_allowed(*identity, #[trigger] wanted[x]),
                decreases build_ids.len() - b,
            {
                if !contains_string(&identity.build_ids, &build_ids[b]) {
                    assert(!identity_covers(*identity, opt_view(task_queue), wanted)) by {
                        assert(wanted[b as int] == build_ids@[b as int]@);
                    }
                    return Err(AuthorizationError::NotAuthorized);
                }
                b = b + 1;
            }
            assert(wanted.len() == build_ids@.len());
            assert(b == build_ids@.len());
            assert(opt_view(task_queue) == Some(identities@[i as int].task_queue@));
            assert(identity_covers(identities@[i as int], opt_view(task_queue), wanted));
            return Ok(());
        }
        i = i + 1;
    }
    Err(AuthorizationError::InvalidIdentity)
}

/// Authorizes a cluster peer by its bearer token.
pub fn authorize_cluster(expected: Option<&str>, authorization: Option<&str>) -> (r: Result<
    (),
    AuthorizationError,
>)
    ensures
        r == match expected {
            None => Err(AuthorizationError::ClusterDisabled),
            Some(e) => match authorization {
                None => Err(AuthorizationError::ClusterIdentityRequired),
                Some(a) => match spec_strip_prefix(a@, "Bearer "@) {
                    None => Err(AuthorizationError::ClusterIdentityRequired),
                    Some(t) => if t == e@ {
                        Ok(())
                    } else {
                        Err(AuthorizationError::InvalidClusterIdentity)
                    },
                },
            },
        },
{
    let expected = match expected {
        Some(e) => e,
        None => return Err(AuthorizationError::ClusterDisabled),
    };
    let header = match authorization {
        Some(a) => a,
        None => return Err(AuthorizationError::ClusterIdentityRequired),
    };
    let supplied = match strip_prefix(header, "Bearer ") {
        Some(t) => t,
        None => return Err(AuthorizationError::ClusterIdentityRequired),
    };
    let ok = constant_time_equal(expected.as_bytes(), supplied.as_bytes());
    proof {
        vstd::utf8::encode_utf8_decode_utf8(expected@);
        vstd::utf8::encode_utf8_decode_utf8(supplied@);
    }
    if ok {
        Ok(())
    } else {
        Err(AuthorizationError::InvalidClusterIdentity)
    }
}

/// The log shard a process key is routed to: shard zero when the store is unsharded, else
/// one plus the key's group among the data shards.
pub fn process_shard(key: &str, shard_count: usize) -> (shard: usize)
    requires
        shard_count <= u32::MAX + 1,
    ensures
        shard_count <= 1 ==> shard == 0,
        shard_count > 1 ==> shard == 1 + spec_key_group_for(Some(key@), (shard_count - 1) as u32),
        shard_count > 1 ==> 1 <= shard < shard_count,
{
    if shard_count <= 1 {
        return 0;
    }
    let group = key_group_for(Some(key), 0, (shard_count - 1) as u32);
    1 + group as usize
}

/// A replayable output transaction is retried after a fenced conditional append, at most
/// eight attempts in all.
pub fn retry_output_commit(attempt: u32, fenced: bool) -> (retry: bool)
    ensures
        retry == (attempt < 7 && fenced),
{
    attempt < 7 && fenced
}

} // verus!

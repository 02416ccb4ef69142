//! Reading the values behind references from the trie store.

use crate::column::Column;
use crate::hash::ValueHash;
use crate::migration_stats::{lemma_sat_add_twice, log_skipped, MigrationStats};
use crate::shard_uid::ShardUid;
use crate::store::{Store, StoreRows};
use vstd::prelude::*;

verus! {

/// Asks for the value with digest `value_hash` in shard `shard_uid`.
#[derive(Clone, Copy, Debug, PartialEq, Eq)]
pub struct ReadValueRequest {
    pub shard_uid: ShardUid,
    pub value_hash: ValueHash,
}

/// What a `ReadValueRequest` stands for.
pub struct RequestView {
    pub shard_uid: ShardUid,
    pub value_hash: Seq<u8>,
}

impl View for ReadValueRequest {
    type V = RequestView;

    open spec fn view(&self) -> RequestView {
        RequestView { shard_uid: self.shard_uid, value_hash: self.value_hash@ }
    }
}

/// The answer to a request: the digest asked for, and the value if it could
/// be read.
#[derive(Clone, Debug, PartialEq, Eq)]
pub struct ReadValueResponse {
    pub value_hash: ValueHash,
    pub value_bytes: Option<Vec<u8>>,
}

/// The values that `requests` find in the trie store of `store`, by digest.
/// A request whose value cannot be read adds nothing; of two requests for
/// one digest the later decides.
pub open spec fn resolve_all(store: StoreRows, requests: Seq<RequestView>) -> Map<
    Seq<u8>,
    Seq<u8>,
>
    decreases requests.len(),
{
    if requests.len() == 0 {
        Map::empty()
    } else {
        let earlier = resolve_all(store, requests.drop_last());
        let request = requests.last();
        match store.trie_value(request.shard_uid, request.value_hash) {
            Some(bytes) => earlier.insert(request.value_hash, bytes),
            None => earlier,
        }
    }
}

/// What a `ReadValueResponse` stands for.
pub struct ResponseView {
    pub value_hash: Seq<u8>,
    pub value_bytes: Option<Seq<u8>>,
}

impl View for ReadValueResponse {
    type V = ResponseView;

    open spec fn view(&self) -> ResponseView {
        ResponseView {
            value_hash: self.value_hash@,
            value_bytes: match self.value_bytes {
                Some(bytes) => Some(bytes@),
                None => None,
            },
        }
    }
}

/// The answer that a request gets from the trie store of `store`.
pub open spec fn answer(store: StoreRows, request: RequestView) -> ResponseView {
    ResponseView {
        value_hash: request.value_hash,
        value_bytes: store.trie_value(request.shard_uid, request.value_hash),
    }
}

/// The values that `responses` bring, by digest. A response without a value
/// adds nothing; of two responses for one digest the later decides.
pub open spec fn collected(responses: Seq<ResponseView>) -> Map<Seq<u8>, Seq<u8>>
    decreases responses.len(),
{
    if responses.len() == 0 {
        Map::empty()
    } else {
        let earlier = collected(responses.drop_last());
        match responses.last().value_bytes {
            Some(bytes) => earlier.insert(responses.last().value_hash, bytes),
            None => earlier,
        }
    }
}

/// Collecting the answers to the requests, in the order of the requests,
/// gives what the requests find.
pub proof fn lemma_collected_answers(store: StoreRows, requests: Seq<RequestView>)
    ensures
        collected(requests.map_values(|request: RequestView| answer(store, request)))
            == resolve_all(store, requests),
    decreases requests.len(),
{
    let answers = requests.map_values(|request: RequestView| answer(store, request));
    if requests.len() > 0 {
        lemma_collected_answers(store, requests.drop_last());
        assert(answers.drop_last() =~= requests.drop_last().map_values(
            |request: RequestView| answer(store, request),
        ));
    }
}

/// How many of `requests` find no value in the trie store of `store`.
pub open spec fn count_unresolved(store: StoreRows, requests: Seq<RequestView>) -> nat
    decreases requests.len(),
{
    if requests.len() == 0 {
        0
    } else {
        let request = requests.last();
        count_unresolved(store, requests.drop_last()) + if store.trie_value(
            request.shard_uid,
            request.value_hash,
        ) is None {
            1nat
        } else {
            0nat
        }
    }
}

/// Answers one request from the trie store of `store`. A value that cannot
/// be read is counted as skipped and answered as absent.
pub fn read_value(store: &Store, request: &ReadValueRequest, stats: &mut MigrationStats) -> (response:
    ReadValueResponse)
    ensures
        response.value_hash == request.value_hash,
        match response.value_bytes {
            Some(bytes) => store@.trie_value(request.shard_uid, request.value_hash@) == Some(
                bytes@,
            ),
            None => store@.trie_value(request.shard_uid, request.value_hash@) is None,
        },
        *final(stats) == old(stats).raised(
            0,
            0,
            0,
            0,
            if response.value_bytes is None {
                1
            } else {
                0
            },
        ),
{
    let value_bytes = match store.retrieve_raw_bytes(request.shard_uid, &request.value_hash) {
        Ok(bytes) => Some(bytes),
        Err(_) => {
            log_skipped(stats);
            None
        },
    };
    ReadValueResponse { value_hash: request.value_hash, value_bytes }
}

/// Gathers the values that `responses` bring, by digest. Responses may come
/// in any order; of two responses for one digest the later decides.
pub fn collect_values(responses: &Vec<ReadValueResponse>) -> (values: Column)
    ensures
        values.wf(),
        values.map() == collected(responses@.map_values(|response: ReadValueResponse| response@)),
{
    let ghost views = responses@.map_values(|response: ReadValueResponse| response@);
    let mut values = Column::new();
    let mut i: usize = 0;
    while i < responses.len()
        invariant
            i <= responses@.len(),
            views == responses@.map_values(|response: ReadValueResponse| response@),
            values.wf(),
            values.map() == collected(views.subrange(0, i as int)),
        decreases responses@.len() - i,
    {
        proof {
            let done = views.subrange(0, i + 1);
            assert(done.drop_last() =~= views.subrange(0, i as int));
        }
        if let Some(bytes) = &responses[i].value_bytes {
            values.set(responses[i].value_hash.as_bytes(), bytes.as_slice());
        }
        i += 1;
    }
    assert(views.subrange(0, i as int) =~= views);
    values
}

/// Collects requests for values and answers them all at once.
pub struct StateValueReader {
    num_threads: usize,
    pending: Vec<ReadValueRequest>,
}

impl View for StateValueReader {
    type V = Seq<RequestView>;

    /// The requests that were submitted and not yet answered, oldest first.
    closed spec fn view(&self) -> Seq<RequestView> {
        self.pending@.map_values(|request: ReadValueRequest| request@)
    }
}

impl StateValueReader {
    /// The number of workers that the reader was made for.
    pub closed spec fn threads(&self) -> usize {
        self.num_threads
    }

    /// A reader for `num_threads` workers, with nothing submitted.
    pub fn new(num_threads: usize) -> (reader: StateValueReader)
        ensures
            reader@ == Seq::<RequestView>::empty(),
            reader.threads() == num_threads,
    {
        let reader = StateValueReader { num_threads, pending: Vec::new() };
        reader
    }

    /// The number of workers that the reader was made for.
    pub fn num_threads(&self) -> (n: usize)
        ensures
            n == self.threads(),
    {
        self.num_threads
    }

    /// The number of requests that wait for an answer.
    pub fn pending_requests(&self) -> (n: usize)
        ensures
            n == self@.len(),
    {
        self.pending.len()
    }

    /// Adds a request for the value with digest `value_hash` in shard
    /// `shard_uid`. Asking twice for one digest is allowed.
    pub fn submit(&mut self, shard_uid: ShardUid, value_hash: ValueHash)
        ensures
            final(self)@ == old(self)@.push(RequestView { shard_uid, value_hash: value_hash@ }),
            final(self).threads() == old(self).threads(),
    {
        self.pending.push(ReadValueRequest { shard_uid, value_hash });
    }

    /// Answers every waiting request from the trie store of `store` and
    /// returns the values that were read, by digest. Requests whose value
    /// cannot be read are counted as skipped and left out. No request waits
    /// afterwards.
    pub fn receive_all(&mut self, store: &Store, stats: &mut MigrationStats) -> (values: Column)
        ensures
            final(self)@ == Seq::<RequestView>::empty(),
            final(self).threads() == old(self).threads(),
            values.wf(),
            values.map() == resolve_all(store@, old(self)@),
            *final(stats) == old(stats).raised(
                0,
                0,
                0,
                0,
                count_unresolved(store@, old(self)@) as int,
            ),
    {
        let mut pending: Vec<ReadValueRequest> = Vec::new();
        core::mem::swap(&mut self.pending, &mut pending);
        let ghost requests = old(self)@;
        let mut values = Column::new();
        let mut i: usize = 0;
        while i < pending.len()
            invariant
                i <= pending@.len(),
                requests == pending@.map_values(|request: ReadValueRequest| request@),
                values.wf(),
                values.map() == resolve_all(store@, requests.subrange(0, i as int)),
                *stats == old(stats).raised(
                    0,
                    0,
                    0,
                    0,
                    count_unresolved(store@, requests.subrange(0, i as int)) as int,
                ),
            decreases pending@.len() - i,
        {
            proof {
                let done = requests.subrange(0, i + 1);
                assert(done.drop_last() =~= requests.subrange(0, i as int));
                lemma_sat_add_twice(
                    old(stats).skipped_count,
                    count_unresolved(store@, requests.subrange(0, i as int)) as int,
                    1,
                );
            }
            let response = read_value(store, &pending[i], stats);
            if let Some(bytes) = response.value_bytes {
                values.set(response.value_hash.as_bytes(), bytes.as_slice());
            }
            i += 1;
        }
        assert(requests.subrange(0, i as int) =~= requests);
        values
    }

    /// Hands out the waiting requests, oldest first, to a caller that
    /// answers them on threads of its own. No request waits afterwards.
    pub fn take_requests(&mut self) -> (requests: Vec<ReadValueRequest>)
        ensures
            requests@.map_values(|request: ReadValueRequest| request@) == old(self)@,
            final(self)@ == Seq::<RequestView>::empty(),
            final(self).threads() == old(self).threads(),
    {
        let mut pending: Vec<ReadValueRequest> = Vec::new();
        core::mem::swap(&mut self.pending, &mut pending);
        pending
    }

    /// Ends the reader. Requests that still wait are dropped.
    pub fn close(self) {
    }
}

} // verus!

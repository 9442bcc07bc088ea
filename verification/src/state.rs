//! The challenge state: which commitments are tracked, which are challenged, and when
//! each of them expires.

use vstd::prelude::*;
use crate::commitment::{spec_encode, CommitmentData, CommitmentView};
use crate::primitives::{
    hex_encode, spec_decimal, spec_hex_lower, spec_hex_padded, u64_to_decimal, u64_to_hex16,
};
use crate::types::{AltDaError, BlockInfo, BlockNumHash, InputFetcherConfig};

verus! {

/// The status of a challenge.
#[derive(Debug, Clone, Copy, PartialEq, Eq, Structural)]
pub enum ChallengeStatus {
    /// No challenge is known.
    Uninitialized,
    /// The commitment is challenged and the challenge is open.
    Active,
    /// The challenge was answered with the input.
    Resolved,
    /// The challenge was not answered in time.
    Expired,
}

/// A commitment that the derivation has read, with the block that included it.
#[derive(Debug)]
pub struct Commitment {
    /// The commitment.
    pub data: CommitmentData,
    /// The L1 block that included the commitment.
    pub inclusion_block: BlockInfo,
    /// The last L1 block number at which the commitment can be challenged.
    pub challenge_window_end: u64,
}

impl View for Commitment {
    type V = (CommitmentView, BlockInfo, u64);

    open spec fn view(&self) -> (CommitmentView, BlockInfo, u64) {
        (self.data@, self.inclusion_block, self.challenge_window_end)
    }
}

impl Clone for Commitment {
    fn clone(&self) -> (res: Self)
        ensures
            res@ == self@,
    {
        Commitment {
            data: self.data.clone(),
            inclusion_block: self.inclusion_block,
            challenge_window_end: self.challenge_window_end,
        }
    }
}

/// A challenge of a commitment.
#[derive(Debug)]
pub struct Challenge {
    /// The challenged commitment.
    pub commitment_data: CommitmentData,
    /// The L1 block number that included the commitment.
    pub commitment_inclusion_block_number: u64,
    /// The last L1 block number at which the challenge can be resolved.
    pub resolve_window_end: u64,
    /// The input that resolved the challenge, where one did.
    pub input: Option<Vec<u8>>,
    /// The status of the challenge.
    pub challenge_status: ChallengeStatus,
}

/// The content of a challenge, with its byte strings as sequences.
pub struct ChallengeRecord {
    /// The challenged commitment.
    pub commitment: CommitmentView,
    /// The L1 block number that included the commitment.
    pub inclusion_block_number: u64,
    /// The last L1 block number at which the challenge can be resolved.
    pub resolve_window_end: u64,
    /// The input that resolved the challenge, where one did.
    pub input: Option<Seq<u8>>,
    /// The status of the challenge.
    pub status: ChallengeStatus,
}

/// The content of an optional input.
pub open spec fn input_view(input: Option<Vec<u8>>) -> Option<Seq<u8>> {
    match input {
        Some(v) => Some(v@),
        None => None,
    }
}

impl View for Challenge {
    type V = ChallengeRecord;

    open spec fn view(&self) -> ChallengeRecord {
        ChallengeRecord {
            commitment: self.commitment_data@,
            inclusion_block_number: self.commitment_inclusion_block_number,
            resolve_window_end: self.resolve_window_end,
            input: input_view(self.input),
            status: self.challenge_status,
        }
    }
}

fn copy_input(input: &Option<Vec<u8>>) -> (res: Option<Vec<u8>>)
    ensures
        input_view(res) == input_view(*input),
{
    match input {
        Some(v) => Some(vstd::slice::slice_to_vec(v.as_slice())),
        None => None,
    }
}

impl Clone for Challenge {
    fn clone(&self) -> (res: Self)
        ensures
            res@ == self@,
    {
        Challenge {
            commitment_data: self.commitment_data.clone(),
            commitment_inclusion_block_number: self.commitment_inclusion_block_number,
            resolve_window_end: self.resolve_window_end,
            input: copy_input(&self.input),
            challenge_status: self.challenge_status,
        }
    }
}

/// The key under which the map stores a challenge: the decimal block number followed by
/// the hex encoding of the commitment.
pub open spec fn spec_challenge_entry_key(commitment: CommitmentView, block_number: u64) -> Seq<
    char,
> {
    spec_decimal(block_number as nat) + spec_hex_lower(spec_encode(commitment))
}

/// The key under which challenges are looked up: the block number as sixteen hex digits
/// followed by the hex encoding of the commitment.
pub open spec fn spec_challenge_key(commitment: CommitmentView, block_number: u64) -> Seq<char> {
    spec_hex_padded(block_number as nat, 16) + spec_hex_lower(spec_encode(commitment))
}

impl Challenge {
    /// The key under which the map stores this challenge.
    pub fn key(&self) -> (res: String)
        ensures
            res@ == spec_challenge_entry_key(
                self.commitment_data@,
                self.commitment_inclusion_block_number,
            ),
    {
        let number = u64_to_decimal(self.commitment_inclusion_block_number);
        let encoded = self.commitment_data.encode();
        let hex = hex_encode(encoded.as_slice());
        number.concat(hex.as_str())
    }
}

/// The key under which challenges of `comm` committed at `inclusion_block_number` are
/// looked up.
pub fn challenge_key(comm: &CommitmentData, inclusion_block_number: u64) -> (res: String)
    ensures
        res@ == spec_challenge_key(comm@, inclusion_block_number),
{
    let number = u64_to_hex16(inclusion_block_number);
    let encoded = comm.encode();
    let hex = hex_encode(encoded.as_slice());
    number.concat(hex.as_str())
}

/// Whether no two entries share a key.
pub open spec fn keys_distinct(s: Seq<(String, Challenge)>) -> bool {
    forall|i: int, j: int| 0 <= i < s.len() && 0 <= j < s.len() && i != j ==> s[i].0@ != s[j].0@
}

/// The map that a list of entries stands for.
pub open spec fn entries_map(s: Seq<(String, Challenge)>) -> Map<Seq<char>, ChallengeRecord>
    decreases s.len(),
{
    if s.len() == 0 {
        Map::empty()
    } else {
        entries_map(s.drop_last()).insert(s.last().0@, s.last().1@)
    }
}

proof fn lemma_entries_map_dom(s: Seq<(String, Challenge)>, k: Seq<char>)
    ensures
        entries_map(s).dom().contains(k) <==> exists|i: int| 0 <= i < s.len() && s[i].0@ == k,
    decreases s.len(),
{
    if s.len() > 0 {
        lemma_entries_map_dom(s.drop_last(), k);
        if entries_map(s).dom().contains(k) && k != s.last().0@ {
            let i = choose|i: int| 0 <= i < s.drop_last().len() && s.drop_last()[i].0@ == k;
            assert(s[i].0@ == k);
        }
        if exists|i: int| 0 <= i < s.len() && s[i].0@ == k {
            let i = choose|i: int| 0 <= i < s.len() && s[i].0@ == k;
            if i < s.len() - 1 {
                assert(s.drop_last()[i].0@ == k);
            }
        }
    }
}

proof fn lemma_entries_map_get(s: Seq<(String, Challenge)>, i: int)
    requires
        keys_distinct(s),
        0 <= i < s.len(),
    ensures
        entries_map(s).dom().contains(s[i].0@),
        entries_map(s)[s[i].0@] == s[i].1@,
    decreases s.len(),
{
    if i < s.len() - 1 {
        assert(s.drop_last()[i] == s[i]);
        lemma_entries_map_get(s.drop_last(), i);
    }
}

proof fn lemma_entries_map_remove(s: Seq<(String, Challenge)>, i: int)
    requires
        keys_distinct(s),
        0 <= i < s.len(),
    ensures
        entries_map(s.remove(i)) == entries_map(s).remove(s[i].0@),
        keys_distinct(s.remove(i)),
    decreases s.len(),
{
    let r = s.remove(i);
    assert forall|k: Seq<char>| #[trigger] entries_map(r).dom().contains(k) <==> entries_map(
        s,
    ).remove(s[i].0@).dom().contains(k) by {
        lemma_entries_map_dom(r, k);
        lemma_entries_map_dom(s, k);
        if exists|j: int| 0 <= j < s.len() && s[j].0@ == k && k != s[i].0@ {
            let j = choose|j: int| 0 <= j < s.len() && s[j].0@ == k && k != s[i].0@;
            if j < i {
                assert(r[j] == s[j]);
            } else {
                assert(r[j - 1] == s[j]);
            }
        }
    }
    assert forall|k: Seq<char>| #[trigger] entries_map(r).dom().contains(k) implies entries_map(
        r,
    )[k] == entries_map(s).remove(s[i].0@)[k] by {
        lemma_entries_map_dom(r, k);
        let j = choose|j: int| 0 <= j < r.len() && r[j].0@ == k;
        lemma_entries_map_get(r, j);
        if j < i {
            assert(r[j] == s[j]);
            lemma_entries_map_get(s, j);
        } else {
            assert(r[j] == s[j + 1]);
            lemma_entries_map_get(s, j + 1);
        }
    }
    assert(entries_map(r) =~= entries_map(s).remove(s[i].0@));
}

proof fn lemma_entries_map_push(s: Seq<(String, Challenge)>, e: (String, Challenge))
    ensures
        entries_map(s.push(e)) == entries_map(s).insert(e.0@, e.1@),
{
    assert(s.push(e).drop_last() =~= s);
}

proof fn lemma_entries_map_congruent(a: Seq<(String, Challenge)>, b: Seq<(String, Challenge)>)
    requires
        a.len() == b.len(),
        forall|i: int| 0 <= i < a.len() ==> a[i].0@ == b[i].0@ && a[i].1@ == b[i].1@,
    ensures
        entries_map(a) == entries_map(b),
        keys_distinct(a) ==> keys_distinct(b),
    decreases a.len(),
{
    if a.len() > 0 {
        lemma_entries_map_congruent(a.drop_last(), b.drop_last());
    }
}

/// A map from text keys to challenges.
#[derive(Debug)]
pub struct ChallengeMap {
    entries: Vec<(String, Challenge)>,
}

impl View for ChallengeMap {
    type V = Map<Seq<char>, ChallengeRecord>;

    closed spec fn view(&self) -> Map<Seq<char>, ChallengeRecord> {
        entries_map(self.entries@)
    }
}

impl ChallengeMap {
    #[verifier::type_invariant]
    spec fn inv(&self) -> bool {
        keys_distinct(self.entries@)
    }

    /// The empty map.
    pub fn new() -> (res: Self)
        ensures
            res@ == Map::<Seq<char>, ChallengeRecord>::empty(),
    {
        ChallengeMap { entries: Vec::new() }
    }

    /// A copy of the map.
    pub fn copy(&self) -> (res: Self)
        ensures
            res@ == self@,
    {
        proof {
            use_type_invariant(self);
        }
        let mut entries: Vec<(String, Challenge)> = Vec::new();
        let mut i: usize = 0;
        while i < self.entries.len()
            invariant
                i <= self.entries@.len(),
                entries@.len() == i,
                keys_distinct(self.entries@),
                forall|j: int|
                    0 <= j < i ==> entries@[j].0@ == self.entries@[j].0@ && entries@[j].1@
                        == self.entries@[j].1@,
            decreases self.entries@.len() - i,
        {
            let key = self.entries[i].0.clone();
            let challenge = self.entries[i].1.clone();
            entries.push((key, challenge));
            i = i + 1;
        }
        proof {
            lemma_entries_map_congruent(self.entries@, entries@);
        }
        ChallengeMap { entries }
    }

    /// The number of entries.
    pub fn len(&self) -> (res: usize)
        ensures
            res == self@.len(),
    {
        proof {
            use_type_invariant(self);
            self.lemma_len();
        }
        self.entries.len()
    }

    proof fn lemma_len(&self)
        requires
            keys_distinct(self.entries@),
        ensures
            self@.len() == self.entries@.len(),
            self@.dom().finite(),
    {
        lemma_entries_map_len(self.entries@);
    }

    fn find(&self, key: &String) -> (res: Option<usize>)
        ensures
            match res {
                Some(i) => i < self.entries@.len() && self.entries@[i as int].0@ == key@,
                None => !self@.dom().contains(key@),
            },
    {
        let mut i: usize = 0;
        while i < self.entries.len()
            invariant
                i <= self.entries@.len(),
                forall|j: int| 0 <= j < i ==> self.entries@[j].0@ != key@,
            decreases self.entries@.len() - i,
        {
            if self.entries[i].0 == *key {
                return Some(i);
            }
            i = i + 1;
        }
        proof {
            lemma_entries_map_dom(self.entries@, key@);
        }
        None
    }

    /// The challenge stored under `key`.
    pub fn get(&self, key: &String) -> (res: Option<&Challenge>)
        ensures
            match res {
                Some(c) => self@.dom().contains(key@) && c@ == self@[key@],
                None => !self@.dom().contains(key@),
            },
    {
        proof {
            use_type_invariant(self);
        }
        match self.find(key) {
            Some(i) => {
                proof {
                    lemma_entries_map_get(self.entries@, i as int);
                }
                Some(&self.entries[i].1)
            },
            None => None,
        }
    }

    /// Stores `challenge` under `key`, in place of what was stored there.
    pub fn insert(&mut self, key: String, challenge: Challenge)
        ensures
            final(self)@ == old(self)@.insert(key@, challenge@),
    {
        proof {
            use_type_invariant(&*self);
        }
        match self.find(&key) {
            Some(i) => {
                let ghost s = self.entries@;
                let mut entries = Vec::new();
                std::mem::swap(&mut entries, &mut self.entries);
                let _ = entries.remove(i);
                proof {
                    lemma_entries_map_remove(s, i as int);
                    lemma_entries_map_dom(s.remove(i as int), key@);
                    if exists|j: int|
                        0 <= j < s.remove(i as int).len() && s.remove(i as int)[j].0@ == key@ {
                        let j = choose|j: int|
                            0 <= j < s.remove(i as int).len() && s.remove(i as int)[j].0@
                                == key@;
                        if j < i {
                            assert(s.remove(i as int)[j] == s[j]);
                        } else {
                            assert(s.remove(i as int)[j] == s[j + 1]);
                        }
                    }
                    lemma_entries_map_push(s.remove(i as int), (key, challenge));
                    assert(entries_map(s).remove(key@).insert(key@, challenge@) =~= entries_map(
                        s,
                    ).insert(key@, challenge@));
                }
                entries.push((key, challenge));
                self.entries = entries;
            },
            None => {
                let ghost s = self.entries@;
                proof {
                    lemma_entries_map_dom(s, key@);
                    lemma_entries_map_push(s, (key, challenge));
                }
                let mut entries = Vec::new();
                std::mem::swap(&mut entries, &mut self.entries);
                entries.push((key, challenge));
                self.entries = entries;
            },
        }
    }

    /// Records that the challenge under `key` was resolved with `input`; `false` where no
    /// challenge is stored under `key`.
    pub fn resolve(&mut self, key: &String, input: Vec<u8>) -> (res: bool)
        ensures
            res == old(self)@.dom().contains(key@),
            res ==> final(self)@ == old(self)@.insert(
                key@,
                ChallengeRecord {
                    input: Some(input@),
                    status: ChallengeStatus::Resolved,
                    ..old(self)@[key@]
                },
            ),
            !res ==> final(self)@ == old(self)@,
    {
        proof {
            use_type_invariant(&*self);
        }
        match self.find(key) {
            Some(i) => {
                let ghost s = self.entries@;
                proof {
                    lemma_entries_map_get(s, i as int);
                    lemma_entries_map_dom(s, key@);
                }
                let mut entries = Vec::new();
                std::mem::swap(&mut entries, &mut self.entries);
                let (k, mut c) = entries.remove(i);
                c.input = Some(input);
                c.challenge_status = ChallengeStatus::Resolved;
                proof {
                    lemma_entries_map_remove(s, i as int);
                    lemma_entries_map_dom(s.remove(i as int), key@);
                    if exists|j: int|
                        0 <= j < s.remove(i as int).len() && s.remove(i as int)[j].0@ == key@ {
                        let j = choose|j: int|
                            0 <= j < s.remove(i as int).len() && s.remove(i as int)[j].0@
                                == key@;
                        if j < i {
                            assert(s.remove(i as int)[j] == s[j]);
                        } else {
                            assert(s.remove(i as int)[j] == s[j + 1]);
                        }
                    }
                    lemma_entries_map_push(s.remove(i as int), (k, c));
                    assert(entries_map(s).remove(key@).insert(key@, c@) =~= entries_map(s).insert(
                        key@,
                        c@,
                    ));
                }
                entries.push((k, c));
                self.entries = entries;
                true
            },
            None => false,
        }
    }

    /// Removes what is stored under `key`.
    pub fn remove(&mut self, key: &String)
        ensures
            final(self)@ == old(self)@.remove(key@),
    {
        proof {
            use_type_invariant(&*self);
        }
        match self.find(key) {
            Some(i) => {
                let ghost s = self.entries@;
                let mut entries = Vec::new();
                std::mem::swap(&mut entries, &mut self.entries);
                let _ = entries.remove(i);
                proof {
                    lemma_entries_map_remove(s, i as int);
                }
                self.entries = entries;
            },
            None => {
                assert(old(self)@.remove(key@) =~= old(self)@);
            },
        }
    }

    /// Removes every entry.
    pub fn clear(&mut self)
        ensures
            final(self)@ == Map::<Seq<char>, ChallengeRecord>::empty(),
    {
        self.entries = Vec::new();
        assert(entries_map(self.entries@) =~= Map::<Seq<char>, ChallengeRecord>::empty());
    }
}

proof fn lemma_entries_map_len(s: Seq<(String, Challenge)>)
    requires
        keys_distinct(s),
    ensures
        entries_map(s).len() == s.len(),
        entries_map(s).dom().finite(),
    decreases s.len(),
{
    if s.len() > 0 {
        let t = s.drop_last();
        assert(keys_distinct(t)) by {
            assert forall|i: int, j: int| 0 <= i < t.len() && 0 <= j < t.len() && i != j implies t[i].0@
                != t[j].0@ by {
                assert(t[i] == s[i] && t[j] == s[j]);
            }
        }
        lemma_entries_map_len(t);
        lemma_entries_map_dom(t, s.last().0@);
        if entries_map(t).dom().contains(s.last().0@) {
            let i = choose|i: int| 0 <= i < t.len() && t[i].0@ == s.last().0@;
            assert(t[i] == s[i]);
        }
    }
}

/// The number of leading elements of `s` that satisfy `p`.
pub open spec fn leading_count<A>(s: Seq<A>, p: spec_fn(A) -> bool) -> nat
    decreases s.len(),
{
    if s.len() == 0 {
        0
    } else if p(s[0]) {
        1 + leading_count(s.drop_first(), p)
    } else {
        0
    }
}

/// The leading count is the length of the longest prefix whose elements satisfy `p`.
pub proof fn lemma_leading_count<A>(s: Seq<A>, p: spec_fn(A) -> bool)
    ensures
        leading_count(s, p) <= s.len(),
        forall|i: int| 0 <= i < leading_count(s, p) ==> p(#[trigger] s[i]),
        leading_count(s, p) < s.len() ==> !p(s[leading_count(s, p) as int]),
    decreases s.len(),
{
    if s.len() > 0 && p(s[0]) {
        lemma_leading_count(s.drop_first(), p);
        assert forall|i: int| 0 <= i < leading_count(s, p) implies p(#[trigger] s[i]) by {
            if i > 0 {
                assert(s[i] == s.drop_first()[i - 1]);
            }
        }
    }
}

/// A prefix whose elements satisfy `p`, followed by an element that does not or by the
/// end, has the leading count as its length.
pub proof fn lemma_leading_count_is<A>(s: Seq<A>, p: spec_fn(A) -> bool, k: int)
    requires
        0 <= k <= s.len(),
        forall|i: int| 0 <= i < k ==> p(#[trigger] s[i]),
        k < s.len() ==> !p(s[k]),
    ensures
        leading_count(s, p) == k,
    decreases k,
{
    lemma_leading_count(s, p);
    if k > 0 {
        assert(p(s[0]));
        assert forall|i: int| 0 <= i < k - 1 implies p(#[trigger] s.drop_first()[i]) by {
            assert(s.drop_first()[i] == s[i + 1]);
        }
        if k - 1 < s.drop_first().len() {
            assert(s.drop_first()[k - 1] == s[k]);
        }
        lemma_leading_count_is(s.drop_first(), p, k - 1);
    }
}

/// A sequence in reverse order.
pub open spec fn reversed<A>(s: Seq<A>) -> Seq<A> {
    Seq::new(s.len(), |i: int| s[s.len() - 1 - i])
}

/// The block number after which a tracked commitment expires: the end of its challenge's
/// resolve window where a challenge is found under its lookup key, else the end of its
/// challenge window.
pub open spec fn commitment_expires_at(map: Map<Seq<char>, ChallengeRecord>, c: Commitment) -> u64 {
    let key = spec_challenge_key(c.data@, c.inclusion_block.number);
    if map.dom().contains(key) {
        map[key].resolve_window_end
    } else {
        c.challenge_window_end
    }
}

/// Whether a tracked commitment has expired at `origin`.
pub open spec fn commitment_expired_by(map: Map<Seq<char>, ChallengeRecord>, origin: u64) -> spec_fn(
    Commitment,
) -> bool {
    |c: Commitment| commitment_expires_at(map, c) <= origin
}

/// Whether a challenge has expired at `origin`.
pub open spec fn challenge_expired_by(origin: u64) -> spec_fn(Challenge) -> bool {
    |c: Challenge| c.resolve_window_end <= origin
}

/// Whether one of `expired` has an unresolved challenge under its lookup key.
pub open spec fn reorg_needed(expired: Seq<Commitment>, map: Map<Seq<char>, ChallengeRecord>) -> bool {
    exists|i: int| 0 <= i < expired.len() && has_unresolved_challenge(map, #[trigger] expired[i])
}

/// Whether a challenge that is not resolved is found under the lookup key of `c`.
pub open spec fn has_unresolved_challenge(map: Map<Seq<char>, ChallengeRecord>, c: Commitment) -> bool {
    let key = spec_challenge_key(c.data@, c.inclusion_block.number);
    map.dom().contains(key) && map[key].status != ChallengeStatus::Resolved
}

/// A challenge as it is once its resolve window has passed: an open one becomes expired.
pub open spec fn expire_status(c: Challenge) -> Challenge {
    Challenge {
        commitment_data: c.commitment_data,
        commitment_inclusion_block_number: c.commitment_inclusion_block_number,
        resolve_window_end: c.resolve_window_end,
        input: c.input,
        challenge_status: if c.challenge_status == ChallengeStatus::Active {
            ChallengeStatus::Expired
        } else {
            c.challenge_status
        },
    }
}

/// The map with the storage keys of `challenges` removed, one after the other.
pub open spec fn remove_entry_keys(
    map: Map<Seq<char>, ChallengeRecord>,
    challenges: Seq<Challenge>,
) -> Map<Seq<char>, ChallengeRecord>
    decreases challenges.len(),
{
    if challenges.len() == 0 {
        map
    } else {
        let c = challenges.last();
        remove_entry_keys(map, challenges.drop_last()).remove(
            spec_challenge_entry_key(c.commitment_data@, c.commitment_inclusion_block_number),
        )
    }
}

/// Expiring challenges twice at the same origin moves nothing the second time: after the
/// first call no leading challenge expires at that origin.
pub proof fn law_expire_challenges_idempotent(challenges: Seq<Challenge>, origin: u64)
    ensures
        ({
            let p = challenge_expired_by(origin);
            let k = leading_count(challenges, p) as int;
            &&& leading_count(challenges.skip(k), p) == 0
            &&& challenges.skip(k).take(0).map_values(|c: Challenge| expire_status(c)) =~= Seq::<
                Challenge,
            >::empty()
        }),
{
    let p = challenge_expired_by(origin);
    lemma_leading_count(challenges, p);
    let k = leading_count(challenges, p) as int;
    if k < challenges.len() {
        assert(challenges.skip(k)[0] == challenges[k]);
    }
    lemma_leading_count_is(challenges.skip(k), p, 0);
}

/// Expiring commitments twice at the same origin with the same challenges moves nothing
/// the second time.
pub proof fn law_expire_commitments_idempotent(
    commitments: Seq<Commitment>,
    map: Map<Seq<char>, ChallengeRecord>,
    origin: u64,
)
    ensures
        ({
            let p = commitment_expired_by(map, origin);
            let k = leading_count(commitments, p) as int;
            &&& leading_count(commitments.skip(k), p) == 0
            &&& !reorg_needed(commitments.skip(k).take(0), map)
        }),
{
    let p = commitment_expired_by(map, origin);
    lemma_leading_count(commitments, p);
    let k = leading_count(commitments, p) as int;
    if k < commitments.len() {
        assert(commitments.skip(k)[0] == commitments[k]);
    }
    lemma_leading_count_is(commitments.skip(k), p, 0);
}

/// Pruning twice at the same origin prunes no challenge the second time.
pub proof fn law_prune_challenges_idempotent(old: State, new: State, origin: u64)
    requires
        prune_post(old, new, origin),
    ensures
        new.prunable_challenges(origin) == 0,
{
    let ph = challenge_expired_by(origin);
    lemma_leading_count(old.expired_challenges@, ph);
    let kh = leading_count(old.expired_challenges@, ph) as int;
    if kh < old.expired_challenges@.len() {
        assert(new.expired_challenges@[0] == old.expired_challenges@[kh]);
    }
    lemma_leading_count_is(new.expired_challenges@, ph, 0);
}

/// Expiring commitments loses none and adds none: the tracked and the expired list
/// together hold the same commitments, as many as before.
pub proof fn law_expire_commitments_keeps_every_commitment(
    commitments: Seq<Commitment>,
    expired: Seq<Commitment>,
    k: int,
)
    requires
        0 <= k <= commitments.len(),
    ensures
        ({
            let new_commitments = commitments.skip(k);
            let new_expired = expired + reversed(commitments.take(k));
            &&& new_commitments.len() + new_expired.len() == commitments.len() + expired.len()
            &&& forall|c: Commitment|
                (commitments.contains(c) || expired.contains(c)) <==> (new_commitments.contains(c)
                    || new_expired.contains(c))
        }),
{
    let new_commitments = commitments.skip(k);
    let r = reversed(commitments.take(k));
    let new_expired = expired + r;
    assert forall|c: Commitment|
        (commitments.contains(c) || expired.contains(c)) implies (new_commitments.contains(c)
        || new_expired.contains(c)) by {
        if expired.contains(c) {
            let i = choose|i: int| 0 <= i < expired.len() && expired[i] == c;
            assert(new_expired[i] == c);
        } else {
            let i = choose|i: int| 0 <= i < commitments.len() && commitments[i] == c;
            if i < k {
                assert(r[k - 1 - i] == c);
                assert(new_expired[expired.len() + k - 1 - i] == c);
            } else {
                assert(new_commitments[i - k] == c);
            }
        }
    }
    assert forall|c: Commitment|
        (new_commitments.contains(c) || new_expired.contains(c)) implies (commitments.contains(c)
        || expired.contains(c)) by {
        if new_commitments.contains(c) {
            let i = choose|i: int| 0 <= i < new_commitments.len() && new_commitments[i] == c;
            assert(commitments[i + k] == c);
        } else {
            let i = choose|i: int| 0 <= i < new_expired.len() && new_expired[i] == c;
            if i < expired.len() {
                assert(expired[i] == c);
            } else {
                let j = i - expired.len();
                assert(commitments[k - 1 - j] == c);
            }
        }
    }
}

/// Once a challenge is resolved, its status reads `Resolved`.
pub proof fn law_resolved_challenge_reads_resolved(
    map: Map<Seq<char>, ChallengeRecord>,
    commitment: CommitmentView,
    block_number: u64,
    input: Seq<u8>,
)
    requires
        map.dom().contains(spec_challenge_key(commitment, block_number)),
    ensures
        ({
            let key = spec_challenge_key(commitment, block_number);
            let resolved = map.insert(
                key,
                ChallengeRecord { input: Some(input), status: ChallengeStatus::Resolved, ..map[key] },
            );
            &&& spec_challenge_status(resolved, commitment, block_number)
                == ChallengeStatus::Resolved
            &&& resolved[key].input == Some(input)
        }),
{
}

/// The status of the challenge of `commitment` committed at `block_number`, as found under
/// its lookup key.
pub open spec fn spec_challenge_status(
    map: Map<Seq<char>, ChallengeRecord>,
    commitment: CommitmentView,
    block_number: u64,
) -> ChallengeStatus {
    let key = spec_challenge_key(commitment, block_number);
    if map.dom().contains(key) {
        map[key].status
    } else {
        ChallengeStatus::Uninitialized
    }
}

/// What pruning at `origin` does: the leading expired commitments whose expiry is not
/// later than `origin` are dropped and the inclusion block of the last of them is kept;
/// the leading expired challenges whose resolve window has ended are dropped, and removed
/// from the map under their storage keys.
pub open spec fn prune_post(old: State, new: State, origin: u64) -> bool {
    let kc = old.prunable_commitments(origin) as int;
    let kh = old.prunable_challenges(origin) as int;
    &&& new.expired_commitments@ == old.expired_commitments@.skip(kc)
    &&& new.last_pruned_commitment == if kc > 0 {
        Some(old.expired_commitments@[kc - 1].inclusion_block)
    } else {
        old.last_pruned_commitment
    }
    &&& new.expired_challenges@ == old.expired_challenges@.skip(kh)
    &&& new.challenges_map@ == remove_entry_keys(
        old.challenges_map@,
        old.expired_challenges@.take(kh),
    )
    &&& new.commitments == old.commitments
    &&& new.challenges == old.challenges
    &&& new.cfg == old.cfg
}

/// What expiring commitments at `origin` does: the leading tracked commitments whose
/// expiry is not later than `origin` move to the expired list in reverse order, and the
/// result is `ReorgRequired` exactly where one of them has an unresolved challenge.
pub open spec fn expire_commitments_post(
    old: State,
    new: State,
    origin: u64,
    res: Result<(), AltDaError>,
) -> bool {
    let k = old.expiring_commitments(origin) as int;
    &&& new.commitments@ == old.commitments@.skip(k)
    &&& new.expired_commitments@ == old.expired_commitments@ + reversed(old.commitments@.take(k))
    &&& (res is Err <==> reorg_needed(old.commitments@.take(k), old.challenges_map@))
    &&& (res matches Err(e) ==> e == AltDaError::ReorgRequired)
    &&& new.challenges == old.challenges
    &&& new.expired_challenges == old.expired_challenges
    &&& new.challenges_map == old.challenges_map
    &&& new.last_pruned_commitment == old.last_pruned_commitment
    &&& new.cfg == old.cfg
}

/// Copies a list of commitments.
fn copy_commitments(v: &Vec<Commitment>) -> (res: Vec<Commitment>)
    ensures
        res@.map_values(|c: Commitment| c@) == v@.map_values(|c: Commitment| c@),
{
    let mut out: Vec<Commitment> = Vec::new();
    let mut i: usize = 0;
    while i < v.len()
        invariant
            i <= v@.len(),
            out@.len() == i,
            forall|j: int| 0 <= j < i ==> out@[j]@ == v@[j]@,
        decreases v@.len() - i,
    {
        out.push(v[i].clone());
        i = i + 1;
    }
    assert(out@.map_values(|c: Commitment| c@) =~= v@.map_values(|c: Commitment| c@));
    out
}

/// Copies a list of challenges.
fn copy_challenges(v: &Vec<Challenge>) -> (res: Vec<Challenge>)
    ensures
        res@.map_values(|c: Challenge| c@) == v@.map_values(|c: Challenge| c@),
{
    let mut out: Vec<Challenge> = Vec::new();
    let mut i: usize = 0;
    while i < v.len()
        invariant
            i <= v@.len(),
            out@.len() == i,
            forall|j: int| 0 <= j < i ==> out@[j]@ == v@[j]@,
        decreases v@.len() - i,
    {
        out.push(v[i].clone());
        i = i + 1;
    }
    assert(out@.map_values(|c: Challenge| c@) =~= v@.map_values(|c: Challenge| c@));
    out
}

/// Whether two states hold the same content.
pub open spec fn same_state(a: State, b: State) -> bool {
    &&& a.commitments@.map_values(|c: Commitment| c@) == b.commitments@.map_values(
        |c: Commitment| c@,
    )
    &&& a.expired_commitments@.map_values(|c: Commitment| c@)
        == b.expired_commitments@.map_values(|c: Commitment| c@)
    &&& a.challenges@.map_values(|c: Challenge| c@) == b.challenges@.map_values(|c: Challenge| c@)
    &&& a.expired_challenges@.map_values(|c: Challenge| c@)
        == b.expired_challenges@.map_values(|c: Challenge| c@)
    &&& a.challenges_map@ == b.challenges_map@
    &&& a.last_pruned_commitment == b.last_pruned_commitment
    &&& a.cfg == b.cfg
}

/// The challenge state of the alt-DA input fetcher.
#[derive(Debug)]
pub struct State {
    /// Commitments whose challenge or resolve window is open, oldest first.
    pub commitments: Vec<Commitment>,
    /// Commitments whose window has passed and that wait for finalization.
    pub expired_commitments: Vec<Commitment>,
    /// Challenges whose resolve window is open, oldest first.
    pub challenges: Vec<Challenge>,
    /// Challenges whose resolve window has passed.
    pub expired_challenges: Vec<Challenge>,
    /// Challenges by key.
    pub challenges_map: ChallengeMap,
    /// The inclusion block of the last commitment pruned.
    pub last_pruned_commitment: Option<BlockInfo>,
    /// The settings.
    pub cfg: InputFetcherConfig,
}

impl Clone for State {
    fn clone(&self) -> (res: Self)
        ensures
            same_state(res, *self),
    {
        State {
            commitments: copy_commitments(&self.commitments),
            expired_commitments: copy_commitments(&self.expired_commitments),
            challenges: copy_challenges(&self.challenges),
            expired_challenges: copy_challenges(&self.expired_challenges),
            challenges_map: self.challenges_map.copy(),
            last_pruned_commitment: self.last_pruned_commitment,
            cfg: self.cfg,
        }
    }
}

impl State {
    /// The number of tracked commitments that expire at `origin`.
    pub open spec fn expiring_commitments(&self, origin: u64) -> nat {
        leading_count(self.commitments@, commitment_expired_by(self.challenges_map@, origin))
    }

    /// The number of challenges that expire at `origin`.
    pub open spec fn expiring_challenges(&self, origin: u64) -> nat {
        leading_count(self.challenges@, challenge_expired_by(origin))
    }

    /// The number of expired commitments that can be pruned at `origin`.
    pub open spec fn prunable_commitments(&self, origin: u64) -> nat {
        leading_count(
            self.expired_commitments@,
            commitment_expired_by(self.challenges_map@, origin),
        )
    }

    /// The number of expired challenges that can be pruned at `origin`.
    pub open spec fn prunable_challenges(&self, origin: u64) -> nat {
        leading_count(self.expired_challenges@, challenge_expired_by(origin))
    }

    /// Whether nothing is tracked, challenged or waiting for finalization.
    pub open spec fn spec_no_commitments(&self) -> bool {
        &&& self.challenges@.len() == 0
        &&& self.expired_challenges@.len() == 0
        &&& self.commitments@.len() == 0
        &&& self.expired_commitments@.len() == 0
    }

    /// An empty state with the given settings.
    pub fn new(cfg: InputFetcherConfig) -> (res: Self)
        ensures
            res.commitments@.len() == 0,
            res.expired_commitments@.len() == 0,
            res.challenges@.len() == 0,
            res.expired_challenges@.len() == 0,
            res.challenges_map@ == Map::<Seq<char>, ChallengeRecord>::empty(),
            res.last_pruned_commitment is None,
            res.cfg == cfg,
    {
        State {
            commitments: Vec::new(),
            expired_commitments: Vec::new(),
            challenges: Vec::new(),
            expired_challenges: Vec::new(),
            challenges_map: ChallengeMap::new(),
            last_pruned_commitment: None,
            cfg,
        }
    }

    /// Forgets every tracked and expired commitment.
    pub fn clear_commitments(&mut self)
        ensures
            final(self).commitments@.len() == 0,
            final(self).expired_commitments@.len() == 0,
            final(self).challenges == old(self).challenges,
            final(self).expired_challenges == old(self).expired_challenges,
            final(self).challenges_map == old(self).challenges_map,
            final(self).last_pruned_commitment == old(self).last_pruned_commitment,
            final(self).cfg == old(self).cfg,
    {
        self.commitments.clear();
        self.expired_commitments.clear();
    }

    /// Forgets every commitment and challenge.
    pub fn reset(&mut self)
        ensures
            final(self).commitments@.len() == 0,
            final(self).expired_commitments@.len() == 0,
            final(self).challenges@.len() == 0,
            final(self).expired_challenges@.len() == 0,
            final(self).challenges_map@ == Map::<Seq<char>, ChallengeRecord>::empty(),
            final(self).last_pruned_commitment == old(self).last_pruned_commitment,
            final(self).cfg == old(self).cfg,
            final(self).spec_no_commitments(),
    {
        self.commitments.clear();
        self.expired_commitments.clear();
        self.challenges.clear();
        self.expired_challenges.clear();
        self.challenges_map.clear();
    }

    /// Records a new open challenge of `comm`, committed at `comm_block_number` and
    /// challenged in `inclusion_block`, both in the list and in the map (under its storage
    /// key).
    pub fn create_challenge(
        &mut self,
        comm: CommitmentData,
        inclusion_block: BlockNumHash,
        comm_block_number: u64,
    )
        requires
            inclusion_block.number + old(self).cfg.resolve_window <= u64::MAX,
        ensures
            ({
                let rec = ChallengeRecord {
                    commitment: comm@,
                    inclusion_block_number: comm_block_number,
                    resolve_window_end: (inclusion_block.number + old(
                        self,
                    ).cfg.resolve_window) as u64,
                    input: None,
                    status: ChallengeStatus::Active,
                };
                &&& final(self).challenges@.len() == old(self).challenges@.len() + 1
                &&& final(self).challenges@.drop_last() == old(self).challenges@
                &&& final(self).challenges@.last()@ == rec
                &&& final(self).challenges_map@ == old(self).challenges_map@.insert(
                    spec_challenge_entry_key(comm@, comm_block_number),
                    rec,
                )
            }),
            final(self).commitments == old(self).commitments,
            final(self).expired_commitments == old(self).expired_commitments,
            final(self).expired_challenges == old(self).expired_challenges,
            final(self).last_pruned_commitment == old(self).last_pruned_commitment,
            final(self).cfg == old(self).cfg,
    {
        let challenge = Challenge {
            commitment_data: comm,
            commitment_inclusion_block_number: comm_block_number,
            resolve_window_end: inclusion_block.number + self.cfg.resolve_window,
            input: None,
            challenge_status: ChallengeStatus::Active,
        };
        let key = challenge.key();
        self.challenges.push(challenge.clone());
        assert(self.challenges@.drop_last() =~= old(self).challenges@);
        self.challenges_map.insert(key, challenge);
    }

    /// Records that the challenge of `comm` committed at `comm_block_number`, found under
    /// its lookup key, was resolved with `input`; `NotFound` where no challenge is there.
    pub fn resolve_challenge(
        &mut self,
        comm: &CommitmentData,
        comm_block_number: u64,
        input: Vec<u8>,
    ) -> (res: Result<(), AltDaError>)
        ensures
            ({
                let key = spec_challenge_key(comm@, comm_block_number);
                &&& res is Ok <==> old(self).challenges_map@.dom().contains(key)
                &&& res is Ok ==> final(self).challenges_map@ == old(self).challenges_map@.insert(
                    key,
                    ChallengeRecord {
                        input: Some(input@),
                        status: ChallengeStatus::Resolved,
                        ..old(self).challenges_map@[key]
                    },
                )
                &&& res is Err ==> final(self).challenges_map@ == old(self).challenges_map@
            }),
            res matches Err(e) ==> e == AltDaError::NotFound,
            final(self).commitments == old(self).commitments,
            final(self).expired_commitments == old(self).expired_commitments,
            final(self).challenges == old(self).challenges,
            final(self).expired_challenges == old(self).expired_challenges,
            final(self).last_pruned_commitment == old(self).last_pruned_commitment,
            final(self).cfg == old(self).cfg,
    {
        let key = challenge_key(comm, comm_block_number);
        if self.challenges_map.resolve(&key, input) {
            Ok(())
        } else {
            Err(AltDaError::NotFound)
        }
    }

    /// Starts tracking `comm`, included in `inclusion_block`; its challenge window ends
    /// `cfg.challenge_window` blocks later.
    pub fn track_commitment(&mut self, comm: CommitmentData, inclusion_block: BlockInfo)
        requires
            inclusion_block.number + old(self).cfg.challenge_window <= u64::MAX,
        ensures
            final(self).commitments@ == old(self).commitments@.push(
                Commitment {
                    data: comm,
                    inclusion_block,
                    challenge_window_end: (inclusion_block.number + old(
                        self,
                    ).cfg.challenge_window) as u64,
                },
            ),
            final(self).expired_commitments == old(self).expired_commitments,
            final(self).challenges == old(self).challenges,
            final(self).expired_challenges == old(self).expired_challenges,
            final(self).challenges_map == old(self).challenges_map,
            final(self).last_pruned_commitment == old(self).last_pruned_commitment,
            final(self).cfg == old(self).cfg,
    {
        let commitment = Commitment {
            data: comm,
            inclusion_block,
            challenge_window_end: inclusion_block.number + self.cfg.challenge_window,
        };
        self.commitments.push(commitment);
    }

    /// The challenge of `comm` committed at `comm_block_number`, found under its lookup key.
    pub fn get_challenge(&self, comm: &CommitmentData, comm_block_number: u64) -> (res: Option<
        &Challenge,
    >)
        ensures
            ({
                let key = spec_challenge_key(comm@, comm_block_number);
                match res {
                    Some(c) => self.challenges_map@.dom().contains(key) && c@
                        == self.challenges_map@[key],
                    None => !self.challenges_map@.dom().contains(key),
                }
            }),
    {
        let key = challenge_key(comm, comm_block_number);
        self.challenges_map.get(&key)
    }

    /// The status of the challenge of `comm` committed at `comm_block_number`;
    /// `Uninitialized` where none is found.
    pub fn get_challenge_status(&self, comm: &CommitmentData, comm_block_number: u64) -> (res:
        ChallengeStatus)
        ensures
            res == spec_challenge_status(self.challenges_map@, comm@, comm_block_number),
    {
        match self.get_challenge(comm, comm_block_number) {
            Some(c) => c.challenge_status,
            None => ChallengeStatus::Uninitialized,
        }
    }

    /// Moves the tracked commitments that expire at `origin.number` (the leading ones whose
    /// expiry is not later) to the expired list, in reverse order; `ReorgRequired` where one
    /// of them has a challenge that is not resolved. The move happens either way.
    pub fn expire_commitments(&mut self, origin: BlockNumHash) -> (res: Result<(), AltDaError>)
        ensures
            expire_commitments_post(*old(self), *final(self), origin.number, res),
    {
        let ghost map = self.challenges_map@;
        let ghost p = commitment_expired_by(map, origin.number);
        let ghost old_commitments = self.commitments@;
        let ghost old_expired = self.expired_commitments@;
        let mut reorg_required = false;
        let mut k: usize = 0;
        let mut scanning = true;
        while scanning && k < self.commitments.len()
            invariant
                self.commitments@ == old_commitments,
                self.challenges_map@ == map,
                map == old(self).challenges_map@,
                p == commitment_expired_by(map, origin.number),
                k <= old_commitments.len(),
                forall|j: int| 0 <= j < k ==> p(#[trigger] old_commitments[j]),
                !scanning ==> k < old_commitments.len() && !p(old_commitments[k as int]),
                reorg_required == reorg_needed(old_commitments.take(k as int), map),
            decreases old_commitments.len() - k, if scanning { 1int } else { 0int },
        {
            let c = &self.commitments[k];
            let challenge = self.get_challenge(&c.data, c.inclusion_block.number);
            let expires_at = match challenge {
                Some(ch) => ch.resolve_window_end,
                None => c.challenge_window_end,
            };
            if expires_at > origin.number {
                scanning = false;
            } else {
                if let Some(ch) = challenge {
                    if ch.challenge_status != ChallengeStatus::Resolved {
                        reorg_required = true;
                    }
                }
                proof {
                    let t = old_commitments.take(k + 1);
                    assert(t.take(k as int) =~= old_commitments.take(k as int));
                    assert(t[k as int] == old_commitments[k as int]);
                    if reorg_needed(old_commitments.take(k as int), map) {
                        let i = choose|i: int|
                            0 <= i < k && has_unresolved_challenge(
                                map,
                                #[trigger] old_commitments.take(k as int)[i],
                            );
                        assert(t[i] == old_commitments.take(k as int)[i]);
                    }
                    if reorg_needed(t, map) {
                        let i = choose|i: int|
                            0 <= i < k + 1 && has_unresolved_challenge(map, #[trigger] t[i]);
                        if i < k {
                            assert(old_commitments.take(k as int)[i] == t[i]);
                        }
                    }
                    if has_unresolved_challenge(map, old_commitments[k as int]) {
                        assert(has_unresolved_challenge(map, t[k as int]));
                    }
                }
                k = k + 1;
            }
        }
        proof {
            lemma_leading_count_is(old_commitments, p, k as int);
        }
        let mut j = k;
        while j > 0
            invariant
                j <= k <= old_commitments.len(),
                self.commitments@ == old_commitments.take(j as int) + old_commitments.skip(
                    k as int,
                ),
                self.expired_commitments@ == old_expired + reversed(
                    old_commitments.subrange(j as int, k as int),
                ),
                self.challenges == old(self).challenges,
                self.expired_challenges == old(self).expired_challenges,
                self.challenges_map == old(self).challenges_map,
                self.last_pruned_commitment == old(self).last_pruned_commitment,
                self.cfg == old(self).cfg,
            decreases j,
        {
            j = j - 1;
            let c = self.commitments.remove(j);
            self.expired_commitments.push(c);
            proof {
                assert(self.commitments@ =~= old_commitments.take(j as int)
                    + old_commitments.skip(k as int));
                assert(reversed(old_commitments.subrange(j as int, k as int)) =~= reversed(
                    old_commitments.subrange(j + 1, k as int),
                ).push(old_commitments[j as int]));
            }
        }
        proof {
            assert(self.commitments@ =~= old_commitments.skip(k as int));
            assert(old_commitments.subrange(0, k as int) =~= old_commitments.take(k as int));
        }
        if reorg_required {
            Err(AltDaError::ReorgRequired)
        } else {
            Ok(())
        }
    }

    /// Moves the challenges whose resolve window ends at or before `origin.number` (the
    /// leading ones) to the expired list; an open one becomes expired on the way.
    pub fn expire_challenges(&mut self, origin: BlockNumHash)
        ensures
            ({
                let k = old(self).expiring_challenges(origin.number) as int;
                &&& final(self).challenges@ == old(self).challenges@.skip(k)
                &&& final(self).expired_challenges@ == old(self).expired_challenges@ + old(
                    self,
                ).challenges@.take(k).map_values(|c: Challenge| expire_status(c))
            }),
            final(self).commitments == old(self).commitments,
            final(self).expired_commitments == old(self).expired_commitments,
            final(self).challenges_map == old(self).challenges_map,
            final(self).last_pruned_commitment == old(self).last_pruned_commitment,
            final(self).cfg == old(self).cfg,
    {
        let ghost old_challenges = self.challenges@;
        let ghost old_expired = self.expired_challenges@;
        let ghost p = challenge_expired_by(origin.number);
        let ghost mut i: int = 0;
        while self.challenges.len() > 0 && self.challenges[0].resolve_window_end <= origin.number
            invariant
                0 <= i <= old_challenges.len(),
                self.challenges@ == old_challenges.skip(i),
                self.expired_challenges@ == old_expired + old_challenges.take(i).map_values(
                    |c: Challenge| expire_status(c),
                ),
                p == challenge_expired_by(origin.number),
                forall|j: int| 0 <= j < i ==> p(#[trigger] old_challenges[j]),
                self.commitments == old(self).commitments,
                self.expired_commitments == old(self).expired_commitments,
                self.challenges_map == old(self).challenges_map,
                self.last_pruned_commitment == old(self).last_pruned_commitment,
                self.cfg == old(self).cfg,
            decreases self.challenges@.len(),
        {
            let mut c = self.challenges.remove(0);
            if c.challenge_status == ChallengeStatus::Active {
                c.challenge_status = ChallengeStatus::Expired;
            }
            self.expired_challenges.push(c);
            proof {
                assert(old_challenges.skip(i)[0] == old_challenges[i]);
                assert(self.challenges@ =~= old_challenges.skip(i + 1));
                assert(old_challenges.take(i + 1).map_values(|c: Challenge| expire_status(c))
                    =~= old_challenges.take(i).map_values(|c: Challenge| expire_status(c)).push(
                    expire_status(old_challenges[i]),
                ));
                i = i + 1;
            }
        }
        proof {
            if i < old_challenges.len() {
                assert(self.challenges@[0] == old_challenges[i]);
            }
            lemma_leading_count_is(old_challenges, p, i);
        }
    }

    /// Prunes what is final at `origin`: expired commitments, then expired challenges.
    pub fn prune(&mut self, origin: BlockNumHash)
        ensures
            prune_post(*old(self), *final(self), origin.number),
    {
        self.prune_commitments(origin);
        self.prune_challenges(origin);
    }

    fn prune_commitments(&mut self, origin: BlockNumHash)
        ensures
            ({
                let k = old(self).prunable_commitments(origin.number) as int;
                &&& final(self).expired_commitments@ == old(self).expired_commitments@.skip(k)
                &&& final(self).last_pruned_commitment == if k > 0 {
                    Some(old(self).expired_commitments@[k - 1].inclusion_block)
                } else {
                    old(self).last_pruned_commitment
                }
            }),
            final(self).commitments == old(self).commitments,
            final(self).challenges == old(self).challenges,
            final(self).expired_challenges == old(self).expired_challenges,
            final(self).challenges_map == old(self).challenges_map,
            final(self).cfg == old(self).cfg,
    {
        let ghost old_expired = self.expired_commitments@;
        let ghost map = self.challenges_map@;
        let ghost p = commitment_expired_by(map, origin.number);
        let ghost mut i: int = 0;
        let mut scanning = true;
        while scanning && self.expired_commitments.len() > 0
            invariant
                0 <= i <= old_expired.len(),
                self.expired_commitments@ == old_expired.skip(i),
                self.challenges_map@ == map,
                map == old(self).challenges_map@,
                p == commitment_expired_by(map, origin.number),
                forall|j: int| 0 <= j < i ==> p(#[trigger] old_expired[j]),
                !scanning ==> i < old_expired.len() && !p(old_expired[i]),
                self.last_pruned_commitment == if i > 0 {
                    Some(old_expired[i - 1].inclusion_block)
                } else {
                    old(self).last_pruned_commitment
                },
                self.commitments == old(self).commitments,
                self.challenges == old(self).challenges,
                self.expired_challenges == old(self).expired_challenges,
                self.challenges_map == old(self).challenges_map,
                self.cfg == old(self).cfg,
            decreases self.expired_commitments@.len(), if scanning { 1int } else { 0int },
        {
            let first = &self.expired_commitments[0];
            let challenge = self.get_challenge(&first.data, first.inclusion_block.number);
            let expires_at = match challenge {
                Some(ch) => ch.resolve_window_end,
                None => first.challenge_window_end,
            };
            proof {
                assert(old_expired.skip(i)[0] == old_expired[i]);
            }
            if expires_at > origin.number {
                scanning = false;
            } else {
                let commitment = self.expired_commitments.remove(0);
                self.last_pruned_commitment = Some(commitment.inclusion_block);
                proof {
                    assert(self.expired_commitments@ =~= old_expired.skip(i + 1));
                    i = i + 1;
                }
            }
        }
        proof {
            lemma_leading_count_is(old_expired, p, i);
        }
    }

    fn prune_challenges(&mut self, origin: BlockNumHash)
        ensures
            ({
                let k = old(self).prunable_challenges(origin.number) as int;
                &&& final(self).expired_challenges@ == old(self).expired_challenges@.skip(k)
                &&& final(self).challenges_map@ == remove_entry_keys(
                    old(self).challenges_map@,
                    old(self).expired_challenges@.take(k),
                )
            }),
            final(self).commitments == old(self).commitments,
            final(self).expired_commitments == old(self).expired_commitments,
            final(self).challenges == old(self).challenges,
            final(self).last_pruned_commitment == old(self).last_pruned_commitment,
            final(self).cfg == old(self).cfg,
    {
        let ghost old_expired = self.expired_challenges@;
        let ghost old_map = self.challenges_map@;
        let ghost p = challenge_expired_by(origin.number);
        let ghost mut i: int = 0;
        while self.expired_challenges.len() > 0
            && self.expired_challenges[0].resolve_window_end <= origin.number
            invariant
                0 <= i <= old_expired.len(),
                self.expired_challenges@ == old_expired.skip(i),
                self.challenges_map@ == remove_entry_keys(old_map, old_expired.take(i)),
                p == challenge_expired_by(origin.number),
                forall|j: int| 0 <= j < i ==> p(#[trigger] old_expired[j]),
                self.commitments == old(self).commitments,
                self.expired_commitments == old(self).expired_commitments,
                self.challenges == old(self).challenges,
                self.last_pruned_commitment == old(self).last_pruned_commitment,
                self.cfg == old(self).cfg,
            decreases self.expired_challenges@.len(),
        {
            let challenge = self.expired_challenges.remove(0);
            let key = challenge.key();
            self.challenges_map.remove(&key);
            proof {
                assert(old_expired.skip(i)[0] == old_expired[i]);
                assert(self.expired_challenges@ =~= old_expired.skip(i + 1));
                assert(old_expired.take(i + 1).drop_last() =~= old_expired.take(i));
                i = i + 1;
            }
        }
        proof {
            if i < old_expired.len() {
                assert(self.expired_challenges@[0] == old_expired[i]);
            }
            lemma_leading_count_is(old_expired, p, i);
        }
    }

    /// Whether nothing is tracked, challenged or waiting for finalization.
    pub fn no_commitments(&self) -> (res: bool)
        ensures
            res == self.spec_no_commitments(),
    {
        self.challenges.is_empty() && self.expired_challenges.is_empty()
            && self.commitments.is_empty() && self.expired_commitments.is_empty()
    }
}

} // verus!

use vstd::bytes::*;
use vstd::prelude::*;
use vstd::slice::slice_subrange;

use crate::codec::{record_bytes, CT_READING_SIZE};
use crate::reading::CT;
use crate::time_store::{
    last_time_record, time_file_after, time_store_truncates, TimeRecordWrite, MAX_TIME_STORAGE_SIZE,
    TIME_RECORD_SIZE,
};

verus! {

/// Capacity in bytes of one reading shard.
pub const MAX_SHARD_SIZE: u64 = 256;

/// Size in bytes of the access token.
pub const ACCESS_TOKEN_SIZE: usize = 20;

/// Why a storage operation was refused.
#[derive(Clone, Copy, Debug, PartialEq, Eq, Structural)]
pub enum StorageError {
    /// A name in the readings directory is not a positive decimal shard id.
    InvalidShardName,
    /// Rotating would need a shard id past `i32::MAX`.
    ShardIdsExhausted,
    /// The shard reported as drained is not the one due next.
    NotNextShard,
}

/// The abstract state of the shard bookkeeping: the undrained shard ids in
/// ascending order, and the counter naming the shard that appends go to.
pub struct ShardSet {
    pub ids: Seq<int>,
    pub counter: int,
}

impl ShardSet {
    /// Ids are positive, fit an `i32`, ascend strictly, and the counter names
    /// the newest shard (1 when there is none).
    pub open spec fn wf(self) -> bool {
        &&& forall|i: int, j: int| 0 <= i < j < self.ids.len() ==> self.ids[i] < self.ids[j]
        &&& forall|i: int| 0 <= i < self.ids.len() ==> 1 <= #[trigger] self.ids[i] <= i32::MAX
        &&& self.counter == if self.ids.len() == 0 {
            1
        } else {
            self.ids.last()
        }
    }

    /// The shard that a batch of `batch_len` bytes goes to, when the shard
    /// named by the counter already holds `shard_len` bytes: that shard while
    /// the batch fits, else the next id.
    pub open spec fn append_target(self, shard_len: u64, batch_len: int) -> int {
        if shard_len + batch_len <= MAX_SHARD_SIZE {
            self.counter
        } else {
            self.counter + 1
        }
    }

    /// The state after an append to shard `id` (never below the counter).
    pub open spec fn register(self, id: int) -> ShardSet {
        ShardSet {
            ids: if self.ids.len() > 0 && self.ids.last() == id {
                self.ids
            } else {
                self.ids.push(id)
            },
            counter: id,
        }
    }

    /// The state after the oldest shard has been sent and deleted: it leaves
    /// the set, and the counter falls back to 1 if it named that shard.
    pub open spec fn drain_next(self) -> ShardSet {
        if self.ids.len() == 0 {
            self
        } else {
            ShardSet {
                ids: self.ids.drop_first(),
                counter: if self.ids[0] == self.counter {
                    1
                } else {
                    self.counter
                },
            }
        }
    }

    /// The state after `k` shards have been drained.
    pub open spec fn drained(self, k: nat) -> ShardSet
        decreases k,
    {
        if k == 0 {
            self
        } else {
            self.drained((k - 1) as nat).drain_next()
        }
    }
}

/// The bytes a drain of the first `k` shards streams, given what each shard
/// file holds: the shard due next each time, one after the other.
pub open spec fn drained_bytes(s: ShardSet, contents: Map<int, Seq<u8>>, k: nat) -> Seq<u8>
    decreases k,
{
    if k == 0 {
        Seq::empty()
    } else {
        drained_bytes(s, contents, (k - 1) as nat) + contents[s.drained((k - 1) as nat).ids[0]]
    }
}

/// The contents of the first `k` shards of `ids`, concatenated in that order.
pub open spec fn concat_in_order(ids: Seq<int>, contents: Map<int, Seq<u8>>, k: nat) -> Seq<u8>
    decreases k,
{
    if k == 0 {
        Seq::empty()
    } else {
        concat_in_order(ids, contents, (k - 1) as nat) + contents[ids[k - 1]]
    }
}

/// The set of ids determines the bookkeeping: there are as many ids as
/// listed, none when the set is empty, and the counter is the largest id, or
/// 1 when there is none.
pub proof fn lemma_counter_is_newest(s: ShardSet)
    requires
        s.wf(),
    ensures
        s.ids.to_set().len() == s.ids.len(),
        s.ids.to_set() == Set::<int>::empty() <==> s.ids.len() == 0,
        s.ids.len() == 0 ==> s.counter == 1,
        s.ids.len() > 0 ==> s.ids.to_set().contains(s.counter),
        forall|x: int| #[trigger] s.ids.to_set().contains(x) ==> 1 <= x <= s.counter,
{
    assert forall|i: int, j: int| 0 <= i < j < s.ids.len() implies s.ids[i] != s.ids[j] by {}
    s.ids.unique_seq_to_set();
    if s.ids.len() == 0 {
        assert(s.ids.to_set() =~= Set::<int>::empty());
    } else {
        assert(s.ids.to_set().contains(s.ids[0]));
        assert(s.ids[s.ids.len() - 1] == s.counter);
    }
    assert forall|x: int| #[trigger] s.ids.to_set().contains(x) implies 1 <= x <= s.counter by {
        let i = choose|i: int| 0 <= i < s.ids.len() && s.ids[i] == x;
        if i < s.ids.len() - 1 {
            assert(s.ids[i] < s.ids[s.ids.len() - 1]);
        }
    }
}

/// When a batch does not fit the shard named by the counter, it goes to the
/// next id: every earlier shard stays in the set, in its place, and none of
/// them is the one written.
pub proof fn lemma_rotation(s: ShardSet, shard_len: u64, batch_len: int)
    requires
        s.wf(),
        shard_len + batch_len > MAX_SHARD_SIZE,
        s.counter < i32::MAX,
    ensures
        s.append_target(shard_len, batch_len) == s.counter + 1,
        s.register(s.counter + 1).ids == s.ids.push(s.counter + 1),
        s.register(s.counter + 1).counter == s.counter + 1,
        s.register(s.counter + 1).wf(),
        forall|i: int| 0 <= i < s.ids.len() ==> s.ids[i] != s.counter + 1,
{
    let t = s.register(s.counter + 1);
    assert forall|i: int| 0 <= i < s.ids.len() implies s.ids[i] <= s.counter by {
        if i < s.ids.len() - 1 {
            assert(s.ids[i] < s.ids[s.ids.len() - 1]);
        }
    }
    assert forall|i: int, j: int| 0 <= i < j < t.ids.len() implies t.ids[i] < t.ids[j] by {
        if j == t.ids.len() - 1 {
            assert(s.ids[i] <= s.counter);
        }
    }
}

/// Draining `k` shards removes the `k` oldest ids; the counter falls back
/// to 1 exactly when no shard is left.
pub proof fn lemma_drained_prefix(s: ShardSet, k: nat)
    requires
        s.wf(),
        k <= s.ids.len(),
    ensures
        s.drained(k).wf(),
        s.drained(k).ids == s.ids.subrange(k as int, s.ids.len() as int),
        s.drained(k).counter == if k == s.ids.len() {
            1
        } else {
            s.counter
        },
    decreases k,
{
    if k > 0 {
        lemma_drained_prefix(s, (k - 1) as nat);
        let p = s.drained((k - 1) as nat);
        if k < s.ids.len() {
            assert(p.ids[0] < p.ids[p.ids.len() - 1]);
        }
        assert(s.drained(k).ids =~= s.ids.subrange(k as int, s.ids.len() as int));
    }
}

/// A full drain visits every shard once, oldest first: the `k`-th shard sent
/// is the `k`-th smallest id, the streamed bytes are the shard contents
/// concatenated in id order, and afterwards the set is empty and the counter
/// is 1.
pub proof fn lemma_drain_complete(s: ShardSet, contents: Map<int, Seq<u8>>)
    requires
        s.wf(),
    ensures
        forall|k: nat| k < s.ids.len() ==> (#[trigger] s.drained(k)).ids[0] == s.ids[k as int],
        drained_bytes(s, contents, s.ids.len()) == concat_in_order(s.ids, contents, s.ids.len()),
        s.drained(s.ids.len()).ids.len() == 0,
        s.drained(s.ids.len()).counter == 1,
{
    assert forall|k: nat| k < s.ids.len() implies (#[trigger] s.drained(k)).ids[0] == s.ids[k as int] by {
        lemma_drained_prefix(s, k);
    }
    lemma_drained_bytes_in_order(s, contents, s.ids.len());
    lemma_drained_prefix(s, s.ids.len());
}

proof fn lemma_drained_bytes_in_order(s: ShardSet, contents: Map<int, Seq<u8>>, k: nat)
    requires
        s.wf(),
        k <= s.ids.len(),
    ensures
        drained_bytes(s, contents, k) == concat_in_order(s.ids, contents, k),
    decreases k,
{
    if k > 0 {
        lemma_drained_bytes_in_order(s, contents, (k - 1) as nat);
        lemma_drained_prefix(s, (k - 1) as nat);
    }
}

/// Draining the shard that the counter names, the last one left, resets the
/// counter to 1, and the next batch that fits an empty shard is appended to
/// shard 1.
pub proof fn lemma_counter_reset(s: ShardSet, batch_len: int)
    requires
        s.wf(),
        s.ids.len() > 0,
        s.ids[0] == s.counter,
        0 <= batch_len <= MAX_SHARD_SIZE,
    ensures
        s.drain_next().counter == 1,
        s.drain_next().ids.len() == 0,
        s.drain_next().append_target(0, batch_len) == 1,
        s.drain_next().register(1).ids == seq![1int],
{
    assert(s.ids.len() > 1 ==> s.ids[0] < s.ids[s.ids.len() - 1]);
    assert(s.drain_next().ids.push(1) =~= seq![1int]);
}

/// Whether `c` is an ASCII decimal digit.
pub open spec fn is_digit(c: char) -> bool {
    '0' <= c && c <= '9'
}

/// The value of a string of decimal digits.
pub open spec fn digits_value(d: Seq<char>) -> int
    decreases d.len(),
{
    if d.len() == 0 {
        0
    } else {
        digits_value(d.drop_last()) * 10 + (d.last() as int - '0' as int)
    }
}

/// The integer that `s` writes as an optional `+` or `-` followed by one or
/// more decimal digits, if it has that form.
pub open spec fn signed_decimal(s: Seq<char>) -> Option<int> {
    let neg = s.len() > 0 && s[0] == '-';
    let d = if s.len() > 0 && (s[0] == '-' || s[0] == '+') {
        s.drop_first()
    } else {
        s
    };
    if d.len() > 0 && forall|i: int| 0 <= i < d.len() ==> is_digit(#[trigger] d[i]) {
        Some(
            if neg {
                -digits_value(d)
            } else {
                digits_value(d)
            },
        )
    } else {
        None
    }
}

/// The shard id that a file name in the readings directory stands for.
pub open spec fn shard_id_of(name: Seq<char>) -> Option<int> {
    match signed_decimal(name) {
        Some(v) => if 1 <= v <= i32::MAX {
            Some(v)
        } else {
            None
        },
        None => None,
    }
}

/// Relies on `str::parse::<i32>`: an optional sign followed by decimal digits,
/// whose value fits an `i32`, is accepted; anything else is an error.
#[verifier::external_body]
fn parse_i32(s: &str) -> (r: Option<i32>)
    ensures
        r == match signed_decimal(s@) {
            Some(v) => if i32::MIN <= v <= i32::MAX {
                Some(v as i32)
            } else {
                None
            },
            None => None,
        },
{
    s.parse::<i32>().ok()
}

/// The ids named by the first `k` entries of `names`.
pub open spec fn scanned_ids(names: Seq<String>, k: int) -> Set<int> {
    Set::new(|x: int| exists|j: int| 0 <= j < k && #[trigger] shard_id_of(names[j]@) == Some(x))
}

/// The bytes that a batch of channels appends to a shard: their records, in
/// order.
pub open spec fn batch_bytes(cts: Seq<CT>) -> Seq<u8>
    decreases cts.len(),
{
    if cts.len() == 0 {
        Seq::empty()
    } else {
        batch_bytes(cts.drop_last()) + record_bytes(cts.last())
    }
}

/// Where a batch of readings goes: the shard id and the bytes to append.
pub struct ShardAppend {
    pub shard_id: i32,
    pub bytes: Vec<u8>,
}

impl View for CTStorage {
    type V = ShardSet;

    closed spec fn view(&self) -> ShardSet {
        ShardSet {
            ids: self.readings_shards@.map_values(|x: i32| x as int),
            counter: self.readings_shard_counter as int,
        }
    }
}

/// Bookkeeping of the reading shards: the ids of the shards that hold
/// undrained data, and the id of the shard that appends go to.
pub struct CTStorage {
    readings_shard_counter: i32,
    readings_shards: Vec<i32>,
}

impl CTStorage {
    /// No shards, and appends go to shard 1.
    pub fn new() -> (r: CTStorage)
        ensures
            r@.wf(),
            r@.ids.len() == 0,
            r@.counter == 1,
    {
        let r = CTStorage { readings_shard_counter: 1, readings_shards: Vec::new() };
        assert(r@.ids =~= Seq::<int>::empty());
        r
    }

    /// The id of the shard that appends go to.
    pub fn readings_shard_counter(&self) -> (r: i32)
        ensures
            r as int == self@.counter,
    {
        self.readings_shard_counter
    }

    /// The undrained shard ids, in ascending order.
    pub fn readings_shards(&self) -> (r: Vec<i32>)
        ensures
            r@.map_values(|x: i32| x as int) == self@.ids,
    {
        self.readings_shards.clone()
    }

    /// Plans the recording of `time` in a time store that holds
    /// `current_len` bytes: one little-endian record, appended, or written
    /// over a truncated store when appending would pass its maximum size.
    pub fn store_time(current_len: u64, time: u64) -> (r: TimeRecordWrite)
        ensures
            r.truncate == time_store_truncates(current_len as int),
            r.bytes@ == spec_u64_to_le_bytes(time),
            forall|c: Seq<u8>|
                c.len() == current_len ==> #[trigger] time_file_after(c, time) == if r.truncate {
                    r.bytes@
                } else {
                    c + r.bytes@
                },
    {
        let truncate = current_len > MAX_TIME_STORAGE_SIZE || MAX_TIME_STORAGE_SIZE - current_len
            < TIME_RECORD_SIZE as u64;
        TimeRecordWrite { truncate, bytes: u64_to_le_bytes(time) }
    }

    /// The most recent time in a time store that holds `contents`; none when
    /// it holds less than one record.
    pub fn latest_stored_time(contents: &[u8]) -> (r: Option<u64>)
        ensures
            r == last_time_record(contents@),
    {
        let n = contents.len();
        if n < TIME_RECORD_SIZE {
            return None;
        }
        Some(u64_from_le_bytes(slice_subrange(contents, n - TIME_RECORD_SIZE, n)))
    }

    /// The access token that a token file holding `contents` stores: its
    /// first `ACCESS_TOKEN_SIZE` bytes; none when the file is shorter.
    pub fn retrieve_token(contents: &[u8]) -> (r: Option<[u8; ACCESS_TOKEN_SIZE]>)
        ensures
            contents@.len() >= ACCESS_TOKEN_SIZE ==> r is Some && r->0@ == contents@.subrange(
                0,
                ACCESS_TOKEN_SIZE as int,
            ),
            contents@.len() < ACCESS_TOKEN_SIZE ==> r is None,
    {
        if contents.len() < ACCESS_TOKEN_SIZE {
            return None;
        }
        let mut token = [0u8; ACCESS_TOKEN_SIZE];
        let mut i: usize = 0;
        while i < ACCESS_TOKEN_SIZE
            invariant
                0 <= i <= ACCESS_TOKEN_SIZE,
                contents@.len() >= ACCESS_TOKEN_SIZE,
                token@.len() == ACCESS_TOKEN_SIZE,
                forall|j: int| 0 <= j < i ==> token@[j] == contents@[j],
            decreases ACCESS_TOKEN_SIZE - i,
        {
            token[i] = contents[i];
            i = i + 1;
        }
        assert(token@ =~= contents@.subrange(0, ACCESS_TOKEN_SIZE as int));
        Some(token)
    }

    /// Registers shard `id`, keeping the ids ascending and the counter on the
    /// newest shard.
    fn insert_shard(&mut self, id: i32)
        requires
            old(self)@.wf(),
            id >= 1,
        ensures
            final(self)@.wf(),
            final(self)@.ids.to_set() == old(self)@.ids.to_set().insert(id as int),
    {
        let ghost old_ids = self@.ids;
        let n = self.readings_shards.len();
        let mut pos: usize = 0;
        while pos < n && self.readings_shards[pos] < id
            invariant
                n == self.readings_shards@.len(),
                self@.ids == old_ids,
                pos <= n,
                forall|j: int| 0 <= j < pos ==> old_ids[j] < id,
            decreases n - pos,
        {
            pos = pos + 1;
        }
        if pos < n && self.readings_shards[pos] == id {
            assert(old_ids[pos as int] == id as int);
            assert(old_ids.to_set() =~= old_ids.to_set().insert(id as int));
            return;
        }
        self.readings_shards.insert(pos, id);
        if id > self.readings_shard_counter {
            self.readings_shard_counter = id;
        }
        let ghost new_ids = self@.ids;
        assert(new_ids =~= old_ids.insert(pos as int, id as int));
        assert forall|i: int, j: int| 0 <= i < j < new_ids.len() implies new_ids[i] < new_ids[j] by {
            if i < pos && j > pos {
                assert(old_ids[i] < id);
            }
        }
        assert(old_ids.len() > 0 && pos < old_ids.len() ==> new_ids.last() == old_ids.last());
        assert forall|x: int| #[trigger]
            new_ids.contains(x) <==> (old_ids.contains(x) || x == id as int) by {
            if new_ids.contains(x) {
                let i = choose|i: int| 0 <= i < new_ids.len() && new_ids[i] == x;
                if i > pos {
                    assert(old_ids[i - 1] == x);
                } else if i < pos {
                    assert(old_ids[i] == x);
                }
            }
            if old_ids.contains(x) {
                let i = choose|i: int| 0 <= i < old_ids.len() && old_ids[i] == x;
                if i < pos {
                    assert(new_ids[i] == x);
                } else {
                    assert(new_ids[i + 1] == x);
                }
            }
            if x == id as int {
                assert(new_ids[pos as int] == x);
            }
        }
        assert(new_ids.to_set() =~= old_ids.to_set().insert(id as int));
    }

    /// Registers the shards found in the readings directory, given the names
    /// of its entries (none when the directory had to be created). Every name
    /// must be a positive decimal shard id; the counter then names the newest
    /// shard, or 1 when there is none.
    pub fn find_newest_readings_shard_num(&mut self, names: &Vec<String>) -> (r: Result<
        (),
        StorageError,
    >)
        requires
            old(self)@.wf(),
        ensures
            final(self)@.wf(),
            r is Ok <==> forall|i: int|
                0 <= i < names@.len() ==> #[trigger] shard_id_of(names@[i]@) is Some,
            r is Ok ==> final(self)@.ids.to_set() == old(self)@.ids.to_set().union(
                scanned_ids(names@, names@.len() as int),
            ),
            r is Err ==> r == Err::<(), StorageError>(StorageError::InvalidShardName),
    {
        let ghost start = self@.ids.to_set();
        let mut i: usize = 0;
        while i < names.len()
            invariant
                0 <= i <= names@.len(),
                self@.wf(),
                forall|j: int| 0 <= j < i ==> #[trigger] shard_id_of(names@[j]@) is Some,
                self@.ids.to_set() == start.union(scanned_ids(names@, i as int)),
            decreases names@.len() - i,
        {
            let name = names[i].as_str();
            assert(name@ == names@[i as int]@);
            let parsed = parse_i32(name);
            let id = match parsed {
                Some(id) => id,
                None => {
                    return Err(StorageError::InvalidShardName);
                },
            };
            if id < 1 {
                return Err(StorageError::InvalidShardName);
            }
            assert(shard_id_of(names@[i as int]@) == Some(id as int));
            self.insert_shard(id);
            assert forall|x: int| #[trigger]
                scanned_ids(names@, i + 1).contains(x) <==> scanned_ids(
                    names@,
                    i as int,
                ).insert(id as int).contains(x) by {
                if scanned_ids(names@, i + 1).contains(x) {
                    let j = choose|j: int|
                        0 <= j < i + 1 && #[trigger] shard_id_of(names@[j]@) == Some(x);
                    if j < i {
                        assert(scanned_ids(names@, i as int).contains(x));
                    }
                }
                if scanned_ids(names@, i as int).contains(x) {
                    let j = choose|j: int|
                        0 <= j < i && #[trigger] shard_id_of(names@[j]@) == Some(x);
                    assert(0 <= j < i + 1 && shard_id_of(names@[j]@) == Some(x));
                }
                if x == id as int {
                    assert(shard_id_of(names@[i as int]@) == Some(x));
                }
            }
            assert(scanned_ids(names@, i + 1) =~= scanned_ids(names@, i as int).insert(id as int));
            assert(self@.ids.to_set() =~= start.union(scanned_ids(names@, i + 1)));
            i = i + 1;
        }
        Ok(())
    }

    /// Plans the append of one batch, the records of `cts` in order, given
    /// that the shard named by the counter holds `shard_len` bytes (0 when
    /// its file does not exist yet). When the batch does not fit, the counter
    /// moves to the next id; the target shard is registered either way.
    pub fn save_to_storage(&mut self, cts: &[CT], shard_len: u64) -> (r: Result<
        ShardAppend,
        StorageError,
    >)
        requires
            old(self)@.wf(),
            cts@.len() * CT_READING_SIZE <= usize::MAX,
        ensures
            final(self)@.wf(),
            r is Ok <==> old(self)@.append_target(shard_len, cts@.len() * CT_READING_SIZE)
                <= i32::MAX,
            r is Ok ==> r->Ok_0.shard_id as int == old(self)@.append_target(
                shard_len,
                cts@.len() * CT_READING_SIZE,
            ),
            r is Ok ==> r->Ok_0.bytes@ == batch_bytes(cts@),
            r is Ok ==> final(self)@ == old(self)@.register(r->Ok_0.shard_id as int),
            r is Err ==> r == Err::<ShardAppend, StorageError>(StorageError::ShardIdsExhausted),
            r is Err ==> final(self)@ == old(self)@,
    {
        let batch_len = cts.len() * CT_READING_SIZE;
        let fits = shard_len <= MAX_SHARD_SIZE && batch_len <= 256 && (batch_len as u64)
            <= MAX_SHARD_SIZE - shard_len;
        let target = if fits {
            self.readings_shard_counter
        } else if self.readings_shard_counter == i32::MAX {
            return Err(StorageError::ShardIdsExhausted);
        } else {
            self.readings_shard_counter + 1
        };
        let mut bytes: Vec<u8> = Vec::new();
        let mut k: usize = 0;
        while k < cts.len()
            invariant
                0 <= k <= cts@.len(),
                bytes@ == batch_bytes(cts@.take(k as int)),
            decreases cts@.len() - k,
        {
            let rec = Self::ct_reading_to_le_bytes(&cts[k]);
            let ghost before = bytes@;
            let mut j: usize = 0;
            while j < CT_READING_SIZE
                invariant
                    0 <= j <= CT_READING_SIZE,
                    rec@.len() == CT_READING_SIZE,
                    bytes@ == before + rec@.take(j as int),
                decreases CT_READING_SIZE - j,
            {
                bytes.push(rec[j]);
                j = j + 1;
                assert(bytes@ =~= before + rec@.take(j as int));
            }
            assert(cts@.take(k + 1).drop_last() =~= cts@.take(k as int));
            assert(rec@.take(CT_READING_SIZE as int) =~= rec@);
            k = k + 1;
        }
        assert(cts@.take(cts@.len() as int) =~= cts@);
        let n = self.readings_shards.len();
        if n == 0 || self.readings_shards[n - 1] != target {
            self.readings_shards.push(target);
            assert(self@.ids =~= old(self)@.ids.push(target as int));
        }
        self.readings_shard_counter = target;
        Ok(ShardAppend { shard_id: target, bytes })
    }

    /// The shard that the drain sends next: the oldest, if any remains.
    pub fn next_shard_to_drain(&self) -> (r: Option<i32>)
        requires
            self@.wf(),
        ensures
            r is None <==> self@.ids.len() == 0,
            r is Some ==> r->0 as int == self@.ids[0],
    {
        if self.readings_shards.len() == 0 {
            None
        } else {
            Some(self.readings_shards[0])
        }
    }

    /// Records that shard `shard_id` has been sent, flushed and deleted. It
    /// must be the shard that `next_shard_to_drain` names; the counter falls
    /// back to 1 when it named that shard.
    pub fn shard_drained(&mut self, shard_id: i32) -> (r: Result<(), StorageError>)
        requires
            old(self)@.wf(),
        ensures
            final(self)@.wf(),
            r is Ok <==> old(self)@.ids.len() > 0 && old(self)@.ids[0] == shard_id as int,
            r is Ok ==> final(self)@ == old(self)@.drain_next(),
            r is Err ==> r == Err::<(), StorageError>(StorageError::NotNextShard),
            r is Err ==> final(self)@ == old(self)@,
    {
        if self.readings_shards.len() == 0 || self.readings_shards[0] != shard_id {
            return Err(StorageError::NotNextShard);
        }
        let ghost ids = old(self)@.ids;
        assert(ids.len() > 1 ==> ids[0] < ids[ids.len() - 1]);
        self.readings_shards.remove(0);
        if shard_id == self.readings_shard_counter {
            self.readings_shard_counter = 1;
        }
        assert(self@.ids =~= old(self)@.ids.drop_first());
        Ok(())
    }
}

} // verus!

//! A bounded crawl queue in four priority classes. Within a class items
//! leave in the order they came; an item enters at most once per
//! deduplication key; a worker claims an item by a lease that runs out by
//! itself.

use crate::files::file_name::FileName;
use crate::helpers::text::{
    decimal, find, find_from, has_prefix, lemma_decimal_denotes, lemma_find_from_is_leftmost,
    lemma_parse_signed_decimal, occurs_at, parse_i64, parse_i64_spec, push_signed_decimal,
    push_text, same_text, signed_decimal, string_of, to_chars,
};
use vstd::prelude::*;

verus! {

/// The class of a queue item. A smaller score leaves the queue earlier.
#[derive(Clone, Copy, Debug, PartialEq, Eq, Structural)]
pub enum Priority {
    Express,
    High,
    Standard,
    Low,
}

/// Why a queue operation was refused.
#[derive(Clone, Copy, Debug, PartialEq, Eq, Structural)]
pub enum QueueError {
    /// The queue holds as many items as it may.
    QueueFull,
    /// The number is the score of no priority.
    InvalidPriority,
    /// The text is not the written form of an item key.
    InvalidItemKey,
    /// A lease of no seconds cannot be taken.
    InvalidLeaseTime,
}

impl Priority {
    /// The sort score of the class: 0 for express up to 3 for low.
    pub open spec fn score_spec(self) -> nat {
        match self {
            Priority::Express => 0,
            Priority::High => 1,
            Priority::Standard => 2,
            Priority::Low => 3,
        }
    }

    /// The name of the class in small letters.
    pub open spec fn name_spec(self) -> Seq<char> {
        match self {
            Priority::Express => "express"@,
            Priority::High => "high"@,
            Priority::Standard => "standard"@,
            Priority::Low => "low"@,
        }
    }

    /// The class with the given score, if there is one.
    pub open spec fn from_score(value: nat) -> Option<Priority> {
        if value == 0 {
            Some(Priority::Express)
        } else if value == 1 {
            Some(Priority::High)
        } else if value == 2 {
            Some(Priority::Standard)
        } else if value == 3 {
            Some(Priority::Low)
        } else {
            None
        }
    }

    /// The sort score of the class.
    pub fn score(&self) -> (score: u32)
        ensures
            score == self.score_spec(),
    {
        match self {
            Priority::Express => 0,
            Priority::High => 1,
            Priority::Standard => 2,
            Priority::Low => 3,
        }
    }

    /// The class with the given score; scores above 3 are refused.
    pub fn try_from(value: u32) -> (priority: Result<Priority, QueueError>)
        ensures
            match priority {
                Ok(p) => Priority::from_score(value as nat) == Some(p),
                Err(e) => Priority::from_score(value as nat) is None && e
                    == QueueError::InvalidPriority,
            },
    {
        if value == 0 {
            Ok(Priority::Express)
        } else if value == 1 {
            Ok(Priority::High)
        } else if value == 2 {
            Ok(Priority::Standard)
        } else if value == 3 {
            Ok(Priority::Low)
        } else {
            Err(QueueError::InvalidPriority)
        }
    }

    /// The name of the class in small letters.
    pub fn to_string(&self) -> (name: String)
        ensures
            name@ == self.name_spec(),
    {
        let mut name = String::new();
        match self {
            Priority::Express => push_text(&mut name, "express"),
            Priority::High => push_text(&mut name, "high"),
            Priority::Standard => push_text(&mut name, "standard"),
            Priority::Low => push_text(&mut name, "low"),
        }
        assert(name@ =~= self.name_spec());
        name
    }
}

/// The class that has the score of a class is that class.
pub proof fn lemma_priority_score_round_trip(p: Priority)
    ensures
        Priority::from_score(p.score_spec()) == Some(p),
{
}

/// Free-form key and value pairs that travel with an item.
pub type Metadata = Vec<(String, String)>;

/// A deep copy of optional text.
pub fn clone_text(text: &Option<String>) -> (copy: Option<String>)
    ensures
        copy == *text,
{
    match text {
        Some(s) => Some(s.clone()),
        None => None,
    }
}

/// A deep copy of optional metadata.
pub fn clone_metadata(metadata: &Option<Metadata>) -> (copy: Option<Metadata>)
    ensures
        copy.deep_view() == metadata.deep_view(),
{
    match metadata {
        None => None,
        Some(pairs) => {
            let mut copy: Metadata = Vec::new();
            let mut i: usize = 0;
            while i < pairs.len()
                invariant
                    i <= pairs.len(),
                    copy.len() == i,
                    forall|j: int| 0 <= j < i ==> copy@[j] == pairs@[j],
                decreases pairs.len() - i,
            {
                copy.push((pairs[i].0.clone(), pairs[i].1.clone()));
                i += 1;
            }
            assert(copy.deep_view() =~= pairs.deep_view());
            Some(copy)
        },
    }
}

/// What a caller hands to `push`.
#[derive(Debug)]
pub struct QueuePushParameters {
    pub file_name: FileName,
    pub priority: Option<Priority>,
    pub deduplication_key: Option<String>,
    pub correlation_id: Option<String>,
    pub metadata: Option<Metadata>,
}

/// How `QueuePushParameters` look in contracts.
pub struct QueuePushParametersView {
    pub file_name: Seq<char>,
    pub priority: Option<Priority>,
    pub deduplication_key: Option<Seq<char>>,
    pub correlation_id: Option<Seq<char>>,
    pub metadata: Option<Seq<(Seq<char>, Seq<char>)>>,
}

impl View for QueuePushParameters {
    type V = QueuePushParametersView;

    open spec fn view(&self) -> QueuePushParametersView {
        QueuePushParametersView {
            file_name: self.file_name@,
            priority: self.priority,
            deduplication_key: self.deduplication_key.deep_view(),
            correlation_id: self.correlation_id.deep_view(),
            metadata: self.metadata.deep_view(),
        }
    }
}

impl QueuePushParametersView {
    /// The key under which the item is deduplicated: the one given, else
    /// the file name.
    pub open spec fn effective_key(self) -> Seq<char> {
        match self.deduplication_key {
            Some(key) => key,
            None => self.file_name,
        }
    }

    /// The class in which the item queues: the one given, else standard.
    pub open spec fn effective_priority(self) -> Priority {
        match self.priority {
            Some(priority) => priority,
            None => Priority::Standard,
        }
    }

    /// The record kept for the item.
    pub open spec fn record(self) -> QueueItemSetRecordView {
        QueueItemSetRecordView {
            file_name: self.file_name,
            correlation_id: self.correlation_id,
            metadata: self.metadata,
        }
    }
}

impl QueuePushParameters {
    /// Parameters for a file with everything else left open.
    pub fn for_file(file_name: FileName) -> (params: Self)
        ensures
            params@ == (QueuePushParametersView {
                file_name: file_name@,
                priority: None,
                deduplication_key: None,
                correlation_id: None,
                metadata: None,
            }),
    {
        QueuePushParameters {
            file_name,
            priority: None,
            deduplication_key: None,
            correlation_id: None,
            metadata: None,
        }
    }

    /// The key under which the item is deduplicated.
    pub fn effective_deduplication_key(&self) -> (key: String)
        ensures
            key@ == self@.effective_key(),
    {
        match &self.deduplication_key {
            Some(key) => key.clone(),
            None => self.file_name.to_string(),
        }
    }

    /// The class in which the item queues.
    pub fn effective_priority(&self) -> (priority: Priority)
        ensures
            priority == self@.effective_priority(),
    {
        match self.priority {
            Some(priority) => priority,
            None => Priority::Standard,
        }
    }
}

/// What the queue remembers of an item besides its key and class.
#[derive(Debug)]
pub struct QueueItemSetRecord {
    pub file_name: FileName,
    pub correlation_id: Option<String>,
    pub metadata: Option<Metadata>,
}

/// How a `QueueItemSetRecord` looks in contracts.
pub struct QueueItemSetRecordView {
    pub file_name: Seq<char>,
    pub correlation_id: Option<Seq<char>>,
    pub metadata: Option<Seq<(Seq<char>, Seq<char>)>>,
}

impl View for QueueItemSetRecord {
    type V = QueueItemSetRecordView;

    open spec fn view(&self) -> QueueItemSetRecordView {
        QueueItemSetRecordView {
            file_name: self.file_name@,
            correlation_id: self.correlation_id.deep_view(),
            metadata: self.metadata.deep_view(),
        }
    }
}

impl Clone for QueueItemSetRecord {
    fn clone(&self) -> (copy: Self)
        ensures
            copy@ == self@,
    {
        QueueItemSetRecord {
            file_name: self.file_name.clone(),
            correlation_id: clone_text(&self.correlation_id),
            metadata: clone_metadata(&self.metadata),
        }
    }
}

/// The first second that chrono's calendar reaches: the beginning of its
/// earliest date, January 1 of the year -262143.
pub open spec fn first_timestamp() -> int {
    -8334601228800
}

/// The last second that chrono's calendar reaches: the end of its latest
/// date, December 31 of the year 262142.
pub open spec fn last_timestamp() -> int {
    8210266876799
}

/// Whether chrono can represent the moment `secs` seconds from the Unix
/// epoch as a calendar date and time.
pub open spec fn timestamp_in_range(secs: int) -> bool {
    first_timestamp() <= secs <= last_timestamp()
}

/// Asks chrono whether a Unix timestamp denotes a date it can represent.
/// Wraps `NaiveDateTime::from_timestamp_opt` with zero nanoseconds. It
/// counts the days of the timestamp from the Unix epoch and gives `None`
/// unless the day lies within its calendar, which runs from the year
/// -262143 to the year 262142; otherwise it gives a value whose timestamp
/// is the seconds it was made from.
#[allow(deprecated)]
#[verifier::external_body]
fn checked_timestamp(secs: i64) -> (checked: Option<i64>)
    ensures
        checked == if timestamp_in_range(secs as int) {
            Some(secs)
        } else {
            None::<i64>
        },
{
    match chrono::NaiveDateTime::from_timestamp_opt(secs, 0) {
        Some(moment) => Some(moment.and_utc().timestamp()),
        None => None,
    }
}

/// The identity of a queue item: when it was enqueued, in seconds from the
/// Unix epoch, and the key under which it is deduplicated.
#[derive(Debug)]
pub struct ItemKey {
    pub enqueue_time: i64,
    pub deduplication_key: String,
}

/// How an `ItemKey` looks in contracts.
pub struct ItemKeyView {
    pub enqueue_time: int,
    pub deduplication_key: Seq<char>,
}

impl View for ItemKey {
    type V = ItemKeyView;

    open spec fn view(&self) -> ItemKeyView {
        ItemKeyView {
            enqueue_time: self.enqueue_time as int,
            deduplication_key: self.deduplication_key@,
        }
    }
}

impl Clone for ItemKey {
    fn clone(&self) -> (copy: Self)
        ensures
            copy == *self,
    {
        ItemKey {
            enqueue_time: self.enqueue_time,
            deduplication_key: self.deduplication_key.clone(),
        }
    }
}

/// What stands between the time and the key in a written item key.
pub open spec fn delimiter() -> Seq<char> {
    ":DELIMETER:"@
}

impl ItemKeyView {
    /// The written form: the time in decimal, the delimiter, the key.
    pub open spec fn text(self) -> Seq<char> {
        signed_decimal(self.enqueue_time) + delimiter() + self.deduplication_key
    }
}

/// The time and the key of a written item key, before the time is held
/// against the calendar: the text is split at the first delimiter; what
/// stands before it is a decimal timestamp, what follows is the key, which
/// may hold the delimiter itself.
pub open spec fn split_item_key(s: Seq<char>) -> Option<ItemKeyView> {
    match find_from(s, delimiter(), 0) {
        None => None,
        Some(at) => match parse_i64_spec(s.subrange(0, at)) {
            None => None,
            Some(secs) => Some(
                ItemKeyView {
                    enqueue_time: secs,
                    deduplication_key: s.subrange(at + delimiter().len(), s.len() as int),
                },
            ),
        },
    }
}

/// Reads a written item key: the text split at the first delimiter, with
/// a time that denotes a representable date.
pub open spec fn parse_item_key(s: Seq<char>) -> Option<ItemKeyView> {
    match split_item_key(s) {
        Some(key) => if timestamp_in_range(key.enqueue_time) {
            Some(key)
        } else {
            None
        },
        None => None,
    }
}

impl ItemKey {
    /// Whether two keys name the same item.
    pub fn same_as(&self, other: &ItemKey) -> (same: bool)
        ensures
            same == (self@ == other@),
    {
        self.enqueue_time == other.enqueue_time && self.deduplication_key
            == other.deduplication_key
    }

    /// The written form of the key.
    pub fn to_string(&self) -> (text: String)
        ensures
            text@ == self@.text(),
    {
        let mut text = String::new();
        push_signed_decimal(&mut text, self.enqueue_time);
        push_text(&mut text, ":DELIMETER:");
        push_text(&mut text, self.deduplication_key.as_str());
        assert(text@ =~= self@.text());
        text
    }

    /// Splits a written key at its first delimiter into time and key; text
    /// without a delimiter, or without a decimal timestamp before it, is
    /// refused.
    pub fn split(s: &str) -> (key: Result<ItemKey, QueueError>)
        ensures
            match key {
                Ok(k) => split_item_key(s@) == Some(k@),
                Err(e) => split_item_key(s@) is None && e == QueueError::InvalidItemKey,
            },
    {
        let chars = to_chars(s);
        let mark = to_chars(":DELIMETER:");
        let at = match find(&chars, &mark, 0) {
            Some(at) => at,
            None => {
                return Err(QueueError::InvalidItemKey);
            },
        };
        proof {
            lemma_find_from_is_leftmost(chars@, mark@, 0);
        }
        let after: usize = at + mark.len();
        match parse_i64(&chars, 0, at) {
            Some(enqueue_time) => Ok(
                ItemKey { enqueue_time, deduplication_key: string_of(&chars, after, chars.len()) },
            ),
            None => Err(QueueError::InvalidItemKey),
        }
    }

    /// Reads a written key; text that `parse_item_key` does not accept is
    /// refused.
    pub fn from_str(s: &str) -> (key: Result<ItemKey, QueueError>)
        ensures
            match key {
                Ok(k) => parse_item_key(s@) == Some(k@),
                Err(e) => parse_item_key(s@) is None && e == QueueError::InvalidItemKey,
            },
    {
        match ItemKey::split(s) {
            Ok(key) => match checked_timestamp(key.enqueue_time) {
                Some(_) => Ok(key),
                None => Err(QueueError::InvalidItemKey),
            },
            Err(e) => Err(e),
        }
    }
}

/// An item as the queue hands it out.
#[derive(Debug)]
pub struct QueueItem {
    pub item_key: ItemKey,
    pub enqueue_time: i64,
    pub deduplication_key: String,
    pub file_name: FileName,
    pub priority: Priority,
    pub correlation_id: Option<String>,
    pub metadata: Option<Metadata>,
}

/// How a `QueueItem` looks in contracts.
pub struct QueueItemView {
    pub item_key: ItemKeyView,
    pub enqueue_time: int,
    pub deduplication_key: Seq<char>,
    pub file_name: Seq<char>,
    pub priority: Priority,
    pub correlation_id: Option<Seq<char>>,
    pub metadata: Option<Seq<(Seq<char>, Seq<char>)>>,
}

impl View for QueueItem {
    type V = QueueItemView;

    open spec fn view(&self) -> QueueItemView {
        QueueItemView {
            item_key: self.item_key@,
            enqueue_time: self.enqueue_time as int,
            deduplication_key: self.deduplication_key@,
            file_name: self.file_name@,
            priority: self.priority,
            correlation_id: self.correlation_id.deep_view(),
            metadata: self.metadata.deep_view(),
        }
    }
}

/// The item made of a key, the record kept under its deduplication key,
/// and a class.
pub open spec fn assemble_item(
    key: ItemKeyView,
    record: QueueItemSetRecordView,
    priority: Priority,
) -> QueueItemView {
    QueueItemView {
        item_key: key,
        enqueue_time: key.enqueue_time,
        deduplication_key: key.deduplication_key,
        file_name: record.file_name,
        priority,
        correlation_id: record.correlation_id,
        metadata: record.metadata,
    }
}

impl QueueItem {
    /// Puts an item together from its key, its record and its class.
    pub fn assemble(key: &ItemKey, record: &QueueItemSetRecord, priority: Priority) -> (item: Self)
        ensures
            item@ == assemble_item(key@, record@, priority),
    {
        let kept = record.clone();
        QueueItem {
            item_key: key.clone(),
            enqueue_time: key.enqueue_time,
            deduplication_key: key.deduplication_key.clone(),
            file_name: kept.file_name,
            priority,
            correlation_id: kept.correlation_id,
            metadata: kept.metadata,
        }
    }
}

/// A claimed item with the seconds its lease has left.
#[derive(Debug)]
pub struct ClaimedQueueItem {
    pub item: QueueItem,
    pub claim_ttl_seconds: u32,
}

/// How a `ClaimedQueueItem` looks in contracts.
pub struct ClaimedQueueItemView {
    pub item: QueueItemView,
    pub claim_ttl_seconds: nat,
}

impl View for ClaimedQueueItem {
    type V = ClaimedQueueItemView;

    open spec fn view(&self) -> ClaimedQueueItemView {
        ClaimedQueueItemView {
            item: self.item@,
            claim_ttl_seconds: self.claim_ttl_seconds as nat,
        }
    }
}

/// An entry of the sorted set: a key, its class, and when it was last
/// claimed.
pub struct QueueMember {
    pub key: ItemKey,
    pub priority: Priority,
    pub claimed_at: Option<i64>,
}

/// How a `QueueMember` looks in contracts.
pub struct QueueMemberView {
    pub key: ItemKeyView,
    pub priority: Priority,
    pub claimed_at: Option<int>,
}

impl View for QueueMember {
    type V = QueueMemberView;

    open spec fn view(&self) -> QueueMemberView {
        QueueMemberView {
            key: self.key@,
            priority: self.priority,
            claimed_at: match self.claimed_at {
                Some(t) => Some(t as int),
                None => None,
            },
        }
    }
}

/// An entry of the item table: a deduplication key and the record kept
/// under it.
pub struct StoredRecord {
    pub field: String,
    pub record: QueueItemSetRecord,
}

/// How a `StoredRecord` looks in contracts.
pub struct StoredRecordView {
    pub field: Seq<char>,
    pub record: QueueItemSetRecordView,
}

impl View for StoredRecord {
    type V = StoredRecordView;

    open spec fn view(&self) -> StoredRecordView {
        StoredRecordView { field: self.field@, record: self.record@ }
    }
}

/// The seconds that a lease taken at `claimed_at` for `ttl` seconds has
/// left at `time`; zero when there is no lease or it has run out.
pub open spec fn lease_left(claimed_at: Option<int>, ttl: nat, time: int) -> nat {
    match claimed_at {
        Some(t) => if t <= time && time - t < ttl {
            (ttl - (time - t)) as nat
        } else {
            0
        },
        None => 0,
    }
}

/// Where a new member of the given score enters: behind the last member
/// whose score is not higher.
pub open spec fn enqueue_position(members: Seq<QueueMemberView>, score: nat) -> int
    decreases members.len(),
{
    if members.len() == 0 {
        0
    } else if members.last().priority.score_spec() <= score {
        members.len() as int
    } else {
        enqueue_position(members.drop_last(), score)
    }
}

/// The place of the member with the given key, or -1 if there is none.
pub open spec fn member_position(members: Seq<QueueMemberView>, key: ItemKeyView) -> int {
    if exists|i: int| 0 <= i < members.len() && members[i].key == key {
        choose|i: int| 0 <= i < members.len() && members[i].key == key
    } else {
        -1
    }
}

/// The place of the record under the given field, or -1 if there is none.
pub open spec fn record_position(records: Seq<StoredRecordView>, field: Seq<char>) -> int {
    if exists|i: int| 0 <= i < records.len() && records[i].field == field {
        choose|i: int| 0 <= i < records.len() && records[i].field == field
    } else {
        -1
    }
}

/// The members but the one with the given key.
pub open spec fn members_without(members: Seq<QueueMemberView>, key: ItemKeyView) -> Seq<
    QueueMemberView,
> {
    if member_position(members, key) >= 0 {
        members.remove(member_position(members, key))
    } else {
        members
    }
}

/// The records but the one kept under the given field.
pub open spec fn records_without(records: Seq<StoredRecordView>, field: Seq<char>) -> Seq<
    StoredRecordView,
> {
    if record_position(records, field) >= 0 {
        records.remove(record_position(records, field))
    } else {
        records
    }
}

/// The state of a queue as contracts see it.
pub struct PriorityQueueView {
    pub max_size: nat,
    pub claim_ttl_seconds: nat,
    /// The latest time the queue has acted at.
    pub clock: int,
    /// The sorted set, first to leave first.
    pub members: Seq<QueueMemberView>,
    /// The item table.
    pub records: Seq<StoredRecordView>,
}

impl PriorityQueueView {
    /// The time at which an operation stamped `now` happens: the queue's
    /// clock does not run backwards.
    pub open spec fn time_at(self, now: int) -> int {
        if now > self.clock {
            now
        } else {
            self.clock
        }
    }

    /// Whether a record is kept under the field.
    pub open spec fn holds_field(self, field: Seq<char>) -> bool {
        record_position(self.records, field) >= 0
    }

    /// The record kept under the field, where there is one.
    pub open spec fn record_of(self, field: Seq<char>) -> QueueItemSetRecordView {
        self.records[record_position(self.records, field)].record
    }

    /// Whether the sorted set holds the key.
    pub open spec fn holds_member(self, key: ItemKeyView) -> bool {
        member_position(self.members, key) >= 0
    }

    /// The member with the key, where there is one.
    pub open spec fn member_of(self, key: ItemKeyView) -> QueueMemberView {
        self.members[member_position(self.members, key)]
    }

    /// Whether some member goes by the deduplication key.
    pub open spec fn holds_key_of(self, field: Seq<char>) -> bool {
        exists|j: int|
            0 <= j < self.members.len() && (#[trigger] self.members[j]).key.deduplication_key
                == field
    }

    /// The item for a key: none without a record under its deduplication
    /// key; else the record joined with the class of the member, or with
    /// standard where the sorted set does not hold the key.
    pub open spec fn item_of(self, key: ItemKeyView) -> Option<QueueItemView> {
        if self.holds_field(key.deduplication_key) {
            Some(
                assemble_item(
                    key,
                    self.record_of(key.deduplication_key),
                    if self.holds_member(key) {
                        self.member_of(key).priority
                    } else {
                        Priority::Standard
                    },
                ),
            )
        } else {
            None
        }
    }

    /// The index that a rank denotes: ranks from zero count from the
    /// front, negative ranks from the back.
    pub open spec fn index_of_rank(self, rank: int) -> int {
        if rank < 0 {
            self.members.len() + rank
        } else {
            rank
        }
    }

    /// The item at a rank, if the rank is within the queue and the item
    /// has a record.
    pub open spec fn item_at(self, rank: int) -> Option<QueueItemView> {
        let index = self.index_of_rank(rank);
        if 0 <= index < self.members.len() {
            self.item_of(self.members[index].key)
        } else {
            None
        }
    }

    /// The seconds that the lease on the member at `index` has left.
    pub open spec fn lease_left_at(self, index: int, time: int) -> nat {
        lease_left(self.members[index].claimed_at, self.claim_ttl_seconds, time)
    }

    /// Whether the key is under a lease at `time`.
    pub open spec fn is_claimed(self, key: ItemKeyView, time: int) -> bool {
        self.holds_member(key) && lease_left(
            self.member_of(key).claimed_at,
            self.claim_ttl_seconds,
            time,
        ) > 0
    }

    /// Where a scan for work from `from` on stops: at the first rank that
    /// has no item to show or whose member is under no lease, or at the
    /// end of the queue.
    pub open spec fn scan_stop(self, from: int, time: int) -> int
        decreases self.members.len() - from,
    {
        if from < 0 || from >= self.members.len() {
            from
        } else if self.item_at(from) is None || self.lease_left_at(from, time) == 0 {
            from
        } else {
            self.scan_stop(from + 1, time)
        }
    }

    /// The claimed items among the first `n` members, in queue order, each
    /// with the seconds its lease has left. A member without a record
    /// shows no item.
    pub open spec fn claimed_among(self, n: int, time: int) -> Seq<ClaimedQueueItemView>
        decreases n,
    {
        if n <= 0 || n > self.members.len() {
            Seq::empty()
        } else {
            let before = self.claimed_among(n - 1, time);
            let left = self.lease_left_at(n - 1, time);
            match self.item_of(self.members[n - 1].key) {
                Some(item) => if left > 0 {
                    before.push(ClaimedQueueItemView { item, claim_ttl_seconds: left })
                } else {
                    before
                },
                None => before,
            }
        }
    }

    /// How many of the first `n` members are under a lease.
    pub open spec fn leases_among(self, n: int, time: int) -> nat
        decreases n,
    {
        if n <= 0 || n > self.members.len() {
            0
        } else if self.lease_left_at(n - 1, time) > 0 {
            self.leases_among(n - 1, time) + 1
        } else {
            self.leases_among(n - 1, time)
        }
    }

    /// The queue is within its bound and in order, holds no key and no
    /// field twice, and nothing in it is dated after its clock.
    pub open spec fn wf(self) -> bool {
        &&& self.members.len() <= self.max_size
        &&& forall|i: int, j: int|
            #![trigger self.members[i], self.members[j]]
            0 <= i < j < self.members.len() ==> {
                &&& self.members[i].priority.score_spec() <= self.members[j].priority.score_spec()
                &&& self.members[i].key != self.members[j].key
                &&& self.members[i].priority == self.members[j].priority
                    ==> self.members[i].key.enqueue_time <= self.members[j].key.enqueue_time
            }
        &&& forall|i: int, j: int|
            #![trigger self.records[i], self.records[j]]
            0 <= i < j < self.records.len() ==> self.records[i].field != self.records[j].field
        &&& forall|i: int|
            0 <= i < self.members.len() ==> {
                &&& (#[trigger] self.members[i]).key.enqueue_time <= self.clock
                &&& match self.members[i].claimed_at {
                    Some(t) => t <= self.clock,
                    None => true,
                }
            }
    }

    /// Sorted set and item table agree: every member has its record, every
    /// record its member, and no two members share a deduplication key.
    pub open spec fn consistent(self) -> bool {
        &&& forall|i: int|
            0 <= i < self.members.len() ==> #[trigger] self.holds_field(
                self.members[i].key.deduplication_key,
            )
        &&& forall|i: int|
            0 <= i < self.records.len() ==> #[trigger] self.holds_key_of(self.records[i].field)
        &&& forall|i: int, j: int|
            #![trigger self.members[i], self.members[j]]
            0 <= i < j < self.members.len() ==> self.members[i].key.deduplication_key
                != self.members[j].key.deduplication_key
    }
}


impl PriorityQueueView {
    /// What `push` answers: an item whose key is already kept is skipped in
    /// silence; else a queue at its bound refuses; else the item enters.
    pub open spec fn push_result(self, params: QueuePushParametersView) -> Result<(), QueueError> {
        if self.holds_field(params.effective_key()) {
            Ok(())
        } else if self.members.len() >= self.max_size {
            Err(QueueError::QueueFull)
        } else {
            Ok(())
        }
    }

    /// Whether `push` lets the item enter.
    pub open spec fn admits(self, params: QueuePushParametersView) -> bool {
        !self.holds_field(params.effective_key()) && self.members.len() < self.max_size
    }

    /// The member that `push` makes at `time`. Should the sorted set hold
    /// the very key already, a lease on it stays.
    pub open spec fn new_member(self, params: QueuePushParametersView, time: int) -> QueueMemberView {
        let key = ItemKeyView { enqueue_time: time, deduplication_key: params.effective_key() };
        QueueMemberView {
            key,
            priority: params.effective_priority(),
            claimed_at: if self.holds_member(key) {
                self.member_of(key).claimed_at
            } else {
                None
            },
        }
    }

    /// The queue after `push`: unchanged unless the item enters; then the
    /// clock moves to the time of the push, the item's record is kept under
    /// its deduplication key, and its member stands behind all members of
    /// its class and of the classes before.
    pub open spec fn after_push(self, params: QueuePushParametersView, now: int) -> PriorityQueueView {
        if self.admits(params) {
            let time = self.time_at(now);
            let member = self.new_member(params, time);
            let rest = members_without(self.members, member.key);
            PriorityQueueView {
                clock: time,
                members: rest.insert(
                    enqueue_position(rest, member.priority.score_spec()),
                    member,
                ),
                records: self.records.push(
                    StoredRecordView { field: params.effective_key(), record: params.record() },
                ),
                ..self
            }
        } else {
            self
        }
    }

    /// The queue after `delete_item`: the key has left the sorted set, and
    /// its lease with it; the record under its deduplication key has left
    /// the item table.
    pub open spec fn after_delete(self, key: ItemKeyView) -> PriorityQueueView {
        PriorityQueueView {
            members: members_without(self.members, key),
            records: records_without(self.records, key.deduplication_key),
            ..self
        }
    }

    /// The rank that `claim_item` takes at `time`, if there is work.
    pub open spec fn claimable_rank(self, time: int) -> Option<int> {
        let stop = self.scan_stop(0, time);
        if self.item_at(stop) is Some {
            Some(stop)
        } else {
            None
        }
    }

    /// What `claim_item` answers at `now`: the rank it claims, none when
    /// there is no work, and a refusal when there is work but the queue's
    /// lease time is zero, for a lease of no seconds cannot be taken.
    pub open spec fn claim_result(self, now: int) -> Result<Option<int>, QueueError> {
        match self.claimable_rank(self.time_at(now)) {
            Some(rank) => if self.claim_ttl_seconds == 0 {
                Err(QueueError::InvalidLeaseTime)
            } else {
                Ok(Some(rank))
            },
            None => Ok(None),
        }
    }

    /// The queue after `claim_item`: the clock moves to the time of the
    /// claim, and the member claimed, if any, is under a lease from then.
    /// A refused claim changes nothing but the clock.
    pub open spec fn after_claim(self, now: int) -> PriorityQueueView {
        let time = self.time_at(now);
        match self.claim_result(now) {
            Ok(Some(rank)) => PriorityQueueView {
                clock: time,
                members: self.members.update(
                    rank,
                    QueueMemberView { claimed_at: Some(time), ..self.members[rank] },
                ),
                ..self
            },
            _ => PriorityQueueView { clock: time, ..self },
        }
    }
}

/// In an ordered queue the place where a member enters parts the scores
/// that are not higher from those that are.
pub proof fn lemma_enqueue_position(members: Seq<QueueMemberView>, score: nat)
    requires
        forall|i: int, j: int|
            0 <= i < j < members.len() ==> members[i].priority.score_spec()
                <= members[j].priority.score_spec(),
    ensures
        0 <= enqueue_position(members, score) <= members.len(),
        forall|i: int|
            0 <= i < enqueue_position(members, score) ==> members[i].priority.score_spec()
                <= score,
        forall|i: int|
            enqueue_position(members, score) <= i < members.len()
                ==> members[i].priority.score_spec() > score,
    decreases members.len(),
{
    let at = enqueue_position(members, score);
    if members.len() == 0 {
    } else if members.last().priority.score_spec() > score {
        let front = members.drop_last();
        lemma_enqueue_position(front, score);
        assert forall|i: int| 0 <= i < at implies members[i].priority.score_spec() <= score by {
            assert(front[i] == members[i]);
        }
        assert forall|i: int| at <= i < members.len() implies members[i].priority.score_spec()
            > score by {
            if i < front.len() {
                assert(front[i] == members[i]);
            }
        }
    } else {
        assert forall|i: int| 0 <= i < at implies members[i].priority.score_spec() <= score by {
            if i < members.len() - 1 {
                assert(members[i].priority.score_spec() <= members[members.len()
                    - 1].priority.score_spec());
            }
        }
    }
}

spec fn members_view(members: Seq<QueueMember>) -> Seq<QueueMemberView> {
    members.map_values(|m: QueueMember| m@)
}

spec fn records_view(records: Seq<StoredRecord>) -> Seq<StoredRecordView> {
    records.map_values(|r: StoredRecord| r@)
}

fn seconds_left(claimed_at: Option<i64>, ttl: u32, time: i64) -> (left: u32)
    ensures
        left == lease_left(
            match claimed_at {
                Some(t) => Some(t as int),
                None => None,
            },
            ttl as nat,
            time as int,
        ),
{
    match claimed_at {
        None => 0,
        Some(t) => {
            let elapsed: i128 = time as i128 - t as i128;
            if elapsed >= 0 && elapsed < ttl as i128 {
                (ttl as i128 - elapsed) as u32
            } else {
                0
            }
        },
    }
}

/// The crawl queue.
pub struct PriorityQueue {
    max_size: u32,
    claim_ttl_seconds: u32,
    clock: i64,
    members: Vec<QueueMember>,
    records: Vec<StoredRecord>,
}

impl View for PriorityQueue {
    type V = PriorityQueueView;

    closed spec fn view(&self) -> PriorityQueueView {
        PriorityQueueView {
            max_size: self.max_size as nat,
            claim_ttl_seconds: self.claim_ttl_seconds as nat,
            clock: self.clock as int,
            members: members_view(self.members@),
            records: records_view(self.records@),
        }
    }
}

impl PriorityQueue {
    /// An empty queue that holds up to `max_size` items and leases each
    /// claimed item for `claim_ttl_seconds`. Its clock stands before every
    /// time it can be told.
    pub fn new(max_size: u32, claim_ttl_seconds: u32) -> (queue: Self)
        ensures
            queue@.wf(),
            queue@.consistent(),
            queue@.max_size == max_size,
            queue@.claim_ttl_seconds == claim_ttl_seconds,
            queue@.clock == i64::MIN,
            queue@.members.len() == 0,
            queue@.records.len() == 0,
    {
        PriorityQueue {
            max_size,
            claim_ttl_seconds,
            clock: i64::MIN,
            members: Vec::new(),
            records: Vec::new(),
        }
    }

    /// The most items the queue will hold.
    pub fn max_size(&self) -> (n: u32)
        ensures
            n == self@.max_size,
    {
        self.max_size
    }

    /// The seconds for which a claimed item is leased.
    pub fn claim_ttl_seconds(&self) -> (n: u32)
        ensures
            n == self@.claim_ttl_seconds,
    {
        self.claim_ttl_seconds
    }

    /// The store key of the sorted set.
    pub fn redis_key(&self) -> (key: &'static str)
        ensures
            key@ == "crawler:queue"@,
    {
        "crawler:queue"
    }

    /// The store key of the item table.
    pub fn item_set_key(&self) -> (key: String)
        ensures
            key@ == "crawler:queue"@ + ":items"@,
    {
        let mut key = String::new();
        push_text(&mut key, self.redis_key());
        push_text(&mut key, ":items");
        assert(key@ =~= "crawler:queue"@ + ":items"@);
        key
    }

    /// The store key of the lease on a written item key.
    pub fn claimed_item_key_str(&self, key: &str) -> (lease_key: String)
        ensures
            lease_key@ == "crawler:queue"@ + ":claimed:"@ + key@,
    {
        let mut lease_key = String::new();
        push_text(&mut lease_key, self.redis_key());
        push_text(&mut lease_key, ":claimed:");
        push_text(&mut lease_key, key);
        assert(lease_key@ =~= "crawler:queue"@ + ":claimed:"@ + key@);
        lease_key
    }

    /// The store key of the lease on an item.
    pub fn claimed_item_key(&self, key: &ItemKey) -> (lease_key: String)
        ensures
            lease_key@ == "crawler:queue"@ + ":claimed:"@ + key@.text(),
    {
        let text = key.to_string();
        self.claimed_item_key_str(text.as_str())
    }

    fn time_at(&self, now: i64) -> (time: i64)
        ensures
            time == self@.time_at(now as int),
    {
        if now > self.clock {
            now
        } else {
            self.clock
        }
    }

    fn member_index(&self, key: &ItemKey) -> (found: Option<usize>)
        ensures
            match found {
                Some(i) => i < self@.members.len() && self@.members[i as int].key == key@,
                None => !self@.holds_member(key@),
            },
    {
        let mut i: usize = 0;
        while i < self.members.len()
            invariant
                i <= self.members.len(),
                forall|j: int| 0 <= j < i ==> self@.members[j].key != key@,
            decreases self.members.len() - i,
        {
            if self.members[i].key.same_as(key) {
                return Some(i);
            }
            i += 1;
        }
        None
    }

    fn record_index(&self, field: &str) -> (found: Option<usize>)
        ensures
            match found {
                Some(i) => i < self@.records.len() && self@.records[i as int].field == field@,
                None => !self@.holds_field(field@),
            },
    {
        let mut i: usize = 0;
        while i < self.records.len()
            invariant
                i <= self.records.len(),
                forall|j: int| 0 <= j < i ==> self@.records[j].field != field@,
            decreases self.records.len() - i,
        {
            if same_text(self.records[i].field.as_str(), field) {
                return Some(i);
            }
            i += 1;
        }
        None
    }

    /// Whether an item is kept under the deduplication key.
    pub fn contains(&self, key: &str) -> (kept: bool)
        ensures
            kept == self@.holds_field(key@),
    {
        self.record_index(key).is_some()
    }

    /// The number of items in the queue.
    pub fn get_size(&self) -> (size: u32)
        requires
            self@.wf(),
        ensures
            size == self@.members.len(),
            size <= self@.max_size,
    {
        self.members.len() as u32
    }

    /// Whether the queue holds as many items as it may.
    pub fn is_full(&self) -> (full: bool)
        requires
            self@.wf(),
        ensures
            full == (self@.members.len() >= self@.max_size),
    {
        self.get_size() >= self.max_size
    }
}


/// In a well-formed queue a key names one member only.
pub proof fn lemma_member_position(q: PriorityQueueView, i: int)
    requires
        q.wf(),
        0 <= i < q.members.len(),
    ensures
        member_position(q.members, q.members[i].key) == i,
{
    let j = member_position(q.members, q.members[i].key);
    if j < i {
        assert(q.members[j].key != q.members[i].key);
    }
    if i < j {
        assert(q.members[i].key != q.members[j].key);
    }
}

/// In a well-formed queue a field names one record only.
pub proof fn lemma_record_position(q: PriorityQueueView, i: int)
    requires
        q.wf(),
        0 <= i < q.records.len(),
    ensures
        record_position(q.records, q.records[i].field) == i,
{
    let j = record_position(q.records, q.records[i].field);
    if j < i {
        assert(q.records[j].field != q.records[i].field);
    }
    if i < j {
        assert(q.records[i].field != q.records[j].field);
    }
}

/// Taking a member out leaves a well-formed queue well-formed.
proof fn lemma_remove_member_wf(q: PriorityQueueView, i: int)
    requires
        q.wf(),
        0 <= i < q.members.len(),
    ensures
        (PriorityQueueView { members: q.members.remove(i), ..q }).wf(),
{
    let rest = q.members.remove(i);
    assert forall|a: int, b: int|
        #![trigger rest[a], rest[b]]
        0 <= a < b < rest.len() implies {
        &&& rest[a].priority.score_spec() <= rest[b].priority.score_spec()
        &&& rest[a].key != rest[b].key
        &&& rest[a].priority == rest[b].priority ==> rest[a].key.enqueue_time
            <= rest[b].key.enqueue_time
    } by {
        let x = if a < i { a } else { a + 1 };
        let y = if b < i { b } else { b + 1 };
        assert(rest[a] == q.members[x]);
        assert(rest[b] == q.members[y]);
    }
    assert forall|a: int| 0 <= a < rest.len() implies {
        &&& (#[trigger] rest[a]).key.enqueue_time <= q.clock
        &&& match rest[a].claimed_at {
            Some(t) => t <= q.clock,
            None => true,
        }
    } by {
        let x = if a < i { a } else { a + 1 };
        assert(rest[a] == q.members[x]);
    }
}

/// Taking a record out leaves a well-formed queue well-formed.
proof fn lemma_remove_record_wf(q: PriorityQueueView, r: int)
    requires
        q.wf(),
        0 <= r < q.records.len(),
    ensures
        (PriorityQueueView { records: q.records.remove(r), ..q }).wf(),
        record_position(q.records.remove(r), q.records[r].field) == -1,
{
    let kept = q.records.remove(r);
    assert forall|a: int, b: int|
        #![trigger kept[a], kept[b]]
        0 <= a < b < kept.len() implies kept[a].field != kept[b].field by {
        let x = if a < r { a } else { a + 1 };
        let y = if b < r { b } else { b + 1 };
        assert(kept[a] == q.records[x]);
        assert(kept[b] == q.records[y]);
    }
    assert forall|a: int| 0 <= a < kept.len() implies kept[a].field != q.records[r].field by {
        let x = if a < r { a } else { a + 1 };
        assert(kept[a] == q.records[x]);
        if x < r {
            assert(q.records[x].field != q.records[r].field);
        } else {
            assert(q.records[r].field != q.records[x].field);
        }
    }
}

/// A member dated at the new clock, whose key the queue does not hold,
/// may enter behind the last member of its class or of an earlier one.
proof fn lemma_insert_member_wf(q: PriorityQueueView, member: QueueMemberView, time: int)
    requires
        q.wf(),
        q.members.len() < q.max_size,
        member_position(q.members, member.key) == -1,
        q.clock <= time,
        member.key.enqueue_time == time,
        match member.claimed_at {
            Some(t) => t <= time,
            None => true,
        },
    ensures
        (PriorityQueueView {
            clock: time,
            members: q.members.insert(
                enqueue_position(q.members, member.priority.score_spec()),
                member,
            ),
            ..q
        }).wf(),
{
    let score = member.priority.score_spec();
    let at = enqueue_position(q.members, score);
    assert forall|i: int, j: int| 0 <= i < j < q.members.len() implies q.members[i].priority.score_spec()
        <= q.members[j].priority.score_spec() by {}
    lemma_enqueue_position(q.members, score);
    let all = q.members.insert(at, member);
    assert forall|a: int, b: int|
        #![trigger all[a], all[b]]
        0 <= a < b < all.len() implies {
        &&& all[a].priority.score_spec() <= all[b].priority.score_spec()
        &&& all[a].key != all[b].key
        &&& all[a].priority == all[b].priority ==> all[a].key.enqueue_time
            <= all[b].key.enqueue_time
    } by {
        if a != at && b != at {
            let x = if a < at { a } else { a - 1 };
            let y = if b < at { b } else { b - 1 };
            assert(all[a] == q.members[x]);
            assert(all[b] == q.members[y]);
        } else if b == at {
            assert(all[a] == q.members[a]);
            assert(q.members[a].key != member.key);
        } else {
            assert(all[b] == q.members[b - 1]);
            assert(q.members[b - 1].key != member.key);
        }
    }
    assert forall|a: int| 0 <= a < all.len() implies {
        &&& (#[trigger] all[a]).key.enqueue_time <= time
        &&& match all[a].claimed_at {
            Some(t) => t <= time,
            None => true,
        }
    } by {
        if a != at {
            let x = if a < at { a } else { a - 1 };
            assert(all[a] == q.members[x]);
        }
    }
}

/// A push leaves a well-formed queue well-formed and within its bound; a
/// refused push leaves the queue as it was.
pub proof fn lemma_push_keeps_bound(q: PriorityQueueView, params: QueuePushParametersView, now: int)
    requires
        q.wf(),
    ensures
        q.after_push(params, now).wf(),
        q.after_push(params, now).members.len() <= q.max_size,
        q.push_result(params) is Err ==> q.after_push(params, now) == q,
        q.members.len() >= q.max_size && !q.holds_field(params.effective_key())
            ==> q.push_result(params) == Err::<(), QueueError>(QueueError::QueueFull),
{
    if q.admits(params) {
        let time = q.time_at(now);
        let field = params.effective_key();
        let member = q.new_member(params, time);
        let at = member_position(q.members, member.key);
        let rest = members_without(q.members, member.key);
        let mid = PriorityQueueView { members: rest, ..q };
        if at >= 0 {
            lemma_remove_member_wf(q, at);
            assert(member_position(rest, member.key) == -1) by {
                assert forall|a: int| 0 <= a < rest.len() implies rest[a].key != member.key by {
                    let x = if a < at { a } else { a + 1 };
                    assert(rest[a] == q.members[x]);
                    if x < at {
                        assert(q.members[x].key != q.members[at].key);
                    } else {
                        assert(q.members[at].key != q.members[x].key);
                    }
                }
            }
            assert(match q.members[at].claimed_at {
                Some(t) => t <= q.clock,
                None => true,
            });
        }
        lemma_insert_member_wf(mid, member, time);
        let inserted = PriorityQueueView {
            clock: time,
            members: rest.insert(enqueue_position(rest, member.priority.score_spec()), member),
            ..mid
        };
        let after = q.after_push(params, now);
        assert(after.members == inserted.members);
        assert forall|a: int, b: int|
            #![trigger after.records[a], after.records[b]]
            0 <= a < b < after.records.len() implies after.records[a].field
            != after.records[b].field by {
            if b < q.records.len() {
                assert(after.records[a] == q.records[a]);
                assert(after.records[b] == q.records[b]);
            } else {
                assert(after.records[a] == q.records[a]);
            }
        }
    }
}

/// No deduplication key comes to stand twice: a push leaves a consistent
/// queue consistent.
pub proof fn lemma_push_keeps_keys_apart(
    q: PriorityQueueView,
    params: QueuePushParametersView,
    now: int,
)
    requires
        q.wf(),
        q.consistent(),
    ensures
        q.after_push(params, now).consistent(),
{
    if q.admits(params) {
        let after = q.after_push(params, now);
        let time = q.time_at(now);
        let field = params.effective_key();
        let member = q.new_member(params, time);
        assert forall|x: int| 0 <= x < q.members.len() implies (
        #[trigger] q.members[x]).key.deduplication_key != field by {
            assert(q.holds_field(q.members[x].key.deduplication_key));
        }
        assert(member_position(q.members, member.key) == -1);
        let at = enqueue_position(q.members, member.priority.score_spec());
        assert forall|i: int, j: int| 0 <= i < j < q.members.len() implies q.members[i].priority.score_spec()
            <= q.members[j].priority.score_spec() by {}
        lemma_enqueue_position(q.members, member.priority.score_spec());
        let all = after.members;
        assert(all == q.members.insert(at, member));
        let last = q.records.len() as int;
        assert(after.records[last].field == field);
        assert forall|a: int| 0 <= a < all.len() implies #[trigger] after.holds_field(
            all[a].key.deduplication_key,
        ) by {
            if a == at {
                assert(after.records[last].field == all[a].key.deduplication_key);
            } else {
                let x = if a < at { a } else { a - 1 };
                assert(all[a] == q.members[x]);
                assert(q.holds_field(q.members[x].key.deduplication_key));
                let r = record_position(q.records, q.members[x].key.deduplication_key);
                assert(after.records[r] == q.records[r]);
            }
        }
        assert forall|r: int| 0 <= r < after.records.len() implies #[trigger] after.holds_key_of(
            after.records[r].field,
        ) by {
            if r == last {
                assert(all[at].key.deduplication_key == field);
            } else {
                assert(after.records[r] == q.records[r]);
                assert(q.holds_key_of(q.records[r].field));
                let x = choose|x: int|
                    0 <= x < q.members.len() && (#[trigger] q.members[x]).key.deduplication_key
                        == q.records[r].field;
                let j = if x < at { x } else { x + 1 };
                assert(all[j] == q.members[x]);
            }
        }
        assert forall|a: int, b: int|
            #![trigger all[a], all[b]]
            0 <= a < b < all.len() implies all[a].key.deduplication_key
            != all[b].key.deduplication_key by {
            if a != at && b != at {
                let x = if a < at { a } else { a - 1 };
                let y = if b < at { b } else { b - 1 };
                assert(all[a] == q.members[x]);
                assert(all[b] == q.members[y]);
            } else if b == at {
                assert(all[a] == q.members[a]);
            } else {
                assert(all[b] == q.members[b - 1]);
            }
        }
    }
}

/// Deleting an item takes its member, its record and its lease away and
/// leaves a well-formed queue well-formed.
pub proof fn lemma_delete_removes(q: PriorityQueueView, key: ItemKeyView)
    requires
        q.wf(),
    ensures
        q.after_delete(key).wf(),
        !q.after_delete(key).holds_member(key),
        !q.after_delete(key).holds_field(key.deduplication_key),
        !q.after_delete(key).is_claimed(key, q.clock),
{
    let at = member_position(q.members, key);
    let r = record_position(q.records, key.deduplication_key);
    let rest = members_without(q.members, key);
    let mid = PriorityQueueView { members: rest, ..q };
    if at >= 0 {
        lemma_remove_member_wf(q, at);
        assert forall|a: int| 0 <= a < rest.len() implies rest[a].key != key by {
            let x = if a < at { a } else { a + 1 };
            assert(rest[a] == q.members[x]);
            if x < at {
                assert(q.members[x].key != q.members[at].key);
            } else {
                assert(q.members[at].key != q.members[x].key);
            }
        }
    }
    assert(mid.wf());
    if r >= 0 {
        lemma_remove_record_wf(mid, r);
    }
}

/// Deleting a member of a consistent queue leaves it consistent, and so
/// does deleting a key under whose deduplication key nothing is kept.
pub proof fn lemma_delete_keeps_keys_apart(q: PriorityQueueView, key: ItemKeyView)
    requires
        q.wf(),
        q.consistent(),
        q.holds_member(key) || !q.holds_field(key.deduplication_key),
    ensures
        q.after_delete(key).consistent(),
{
    let after = q.after_delete(key);
    let field = key.deduplication_key;
    let i = member_position(q.members, key);
    let r = record_position(q.records, field);
    if i < 0 {
        assert(after.members == q.members);
        assert(after.records == q.records);
        assert(after == q);
    } else {
        assert(q.holds_field(q.members[i].key.deduplication_key));
        let rest = after.members;
        let kept = after.records;
        assert(rest == q.members.remove(i));
        assert(kept == q.records.remove(r));
        assert forall|a: int| 0 <= a < rest.len() implies #[trigger] after.holds_field(
            rest[a].key.deduplication_key,
        ) by {
            let x = if a < i { a } else { a + 1 };
            assert(rest[a] == q.members[x]);
            assert(q.holds_field(q.members[x].key.deduplication_key));
            let s = record_position(q.records, q.members[x].key.deduplication_key);
            if x < i {
                assert(q.members[x].key.deduplication_key != q.members[i].key.deduplication_key);
            } else {
                assert(q.members[i].key.deduplication_key != q.members[x].key.deduplication_key);
            }
            let t = if s < r { s } else { s - 1 };
            assert(kept[t] == q.records[s]);
        }
        assert forall|a: int| 0 <= a < kept.len() implies #[trigger] after.holds_key_of(
            kept[a].field,
        ) by {
            let s = if a < r { a } else { a + 1 };
            assert(kept[a] == q.records[s]);
            assert(q.holds_key_of(q.records[s].field));
            let x = choose|x: int|
                0 <= x < q.members.len() && (#[trigger] q.members[x]).key.deduplication_key
                    == q.records[s].field;
            if s < r {
                assert(q.records[s].field != q.records[r].field);
            } else {
                assert(q.records[r].field != q.records[s].field);
            }
            let j = if x < i { x } else { x - 1 };
            assert(rest[j] == q.members[x]);
        }
        assert forall|a: int, b: int|
            #![trigger rest[a], rest[b]]
            0 <= a < b < rest.len() implies rest[a].key.deduplication_key
            != rest[b].key.deduplication_key by {
            let x = if a < i { a } else { a + 1 };
            let y = if b < i { b } else { b + 1 };
            assert(rest[a] == q.members[x]);
            assert(rest[b] == q.members[y]);
        }
    }
}


/// Where a scan stops, nothing before it is free to claim, and what
/// stands there is, unless the queue has ended.
pub proof fn lemma_scan_stop(q: PriorityQueueView, from: int, time: int)
    requires
        0 <= from <= q.members.len(),
    ensures
        from <= q.scan_stop(from, time) <= q.members.len(),
        forall|i: int|
            from <= i < q.scan_stop(from, time) ==> q.item_at(i) is Some && q.lease_left_at(
                i,
                time,
            ) > 0,
        q.scan_stop(from, time) < q.members.len() ==> q.item_at(q.scan_stop(from, time)) is None
            || q.lease_left_at(q.scan_stop(from, time), time) == 0,
    decreases q.members.len() - from,
{
    if from < q.members.len() && !(q.item_at(from) is None || q.lease_left_at(from, time) == 0) {
        lemma_scan_stop(q, from + 1, time);
    }
}

/// A claim leaves a well-formed queue well-formed and a consistent one
/// consistent, and changes neither its members' keys nor its records.
pub proof fn lemma_claim_preserves(q: PriorityQueueView, now: int)
    requires
        q.wf(),
    ensures
        q.after_claim(now).wf(),
        q.after_claim(now).members.len() == q.members.len(),
        q.after_claim(now).records == q.records,
        forall|i: int|
            0 <= i < q.members.len() ==> (#[trigger] q.after_claim(now).members[i]).key
                == q.members[i].key && q.after_claim(now).members[i].priority
                == q.members[i].priority,
        q.consistent() ==> q.after_claim(now).consistent(),
{
    let time = q.time_at(now);
    let after = q.after_claim(now);
    lemma_scan_stop(q, 0, time);
    assert forall|i: int| 0 <= i < q.members.len() implies (#[trigger] after.members[i]).key
        == q.members[i].key && after.members[i].priority == q.members[i].priority by {}
    assert(after.wf()) by {
        assert forall|a: int, b: int|
            #![trigger after.members[a], after.members[b]]
            0 <= a < b < after.members.len() implies {
            &&& after.members[a].priority.score_spec() <= after.members[b].priority.score_spec()
            &&& after.members[a].key != after.members[b].key
            &&& after.members[a].priority == after.members[b].priority
                ==> after.members[a].key.enqueue_time <= after.members[b].key.enqueue_time
        } by {
            assert(after.members[a].key == q.members[a].key);
            assert(after.members[b].key == q.members[b].key);
        }
        assert forall|a: int| 0 <= a < after.members.len() implies {
            &&& (#[trigger] after.members[a]).key.enqueue_time <= after.clock
            &&& match after.members[a].claimed_at {
                Some(t) => t <= after.clock,
                None => true,
            }
        } by {
            assert(after.members[a].key == q.members[a].key);
            assert(q.members[a].key.enqueue_time <= q.clock);
        }
    }
    if q.consistent() {
        assert forall|i: int| 0 <= i < after.members.len() implies #[trigger] after.holds_field(
            after.members[i].key.deduplication_key,
        ) by {
            assert(after.members[i].key == q.members[i].key);
            assert(q.holds_field(q.members[i].key.deduplication_key));
        }
        assert forall|r: int| 0 <= r < after.records.len() implies #[trigger] after.holds_key_of(
            after.records[r].field,
        ) by {
            assert(q.holds_key_of(q.records[r].field));
            let x = choose|x: int|
                0 <= x < q.members.len() && (#[trigger] q.members[x]).key.deduplication_key
                    == q.records[r].field;
            assert(after.members[x].key == q.members[x].key);
        }
        assert forall|a: int, b: int|
            #![trigger after.members[a], after.members[b]]
            0 <= a < b < after.members.len() implies after.members[a].key.deduplication_key
            != after.members[b].key.deduplication_key by {
            assert(after.members[a].key == q.members[a].key);
            assert(after.members[b].key == q.members[b].key);
        }
    }
}

/// A claimed item is under a lease from the moment of the claim: right
/// after it the lease has the queue's full lease time left, which is more
/// than nothing; the lease shrinks by the second and never exceeds the
/// lease time; and once it has run out the item is under no lease and a
/// scan for work no longer passes it by.
pub proof fn lemma_claim_lease_runs_out(q: PriorityQueueView, now: int, later: int)
    requires
        q.wf(),
        q.claim_result(now) matches Ok(Some(_)),
        later >= q.time_at(now),
    ensures
        ({
            let time = q.time_at(now);
            let rank = q.claimable_rank(time)->0;
            let key = q.members[rank].key;
            let after = q.after_claim(now);
            &&& 0 <= rank < q.members.len()
            &&& q.claim_ttl_seconds > 0
            &&& after.lease_left_at(rank, time) == q.claim_ttl_seconds
            &&& after.lease_left_at(rank, later) <= q.claim_ttl_seconds
            &&& later - time < q.claim_ttl_seconds ==> after.lease_left_at(rank, later)
                == q.claim_ttl_seconds - (later - time) && after.is_claimed(key, later)
            &&& later - time >= q.claim_ttl_seconds ==> after.lease_left_at(rank, later) == 0
                && !after.is_claimed(key, later) && after.scan_stop(0, later) <= rank
        }),
{
    let time = q.time_at(now);
    let rank = q.claimable_rank(time)->0;
    let after = q.after_claim(now);
    lemma_scan_stop(q, 0, time);
    lemma_claim_preserves(q, now);
    lemma_scan_stop(after, 0, later);
    lemma_member_position(after, rank);
    if later - time >= q.claim_ttl_seconds {
        if after.scan_stop(0, later) > rank {
            assert(after.lease_left_at(rank, later) > 0);
        }
    }
}

impl PriorityQueue {
    /// Takes the member with the given key out of the sorted set, if it
    /// is there, and says when it was last claimed.
    fn take_member(&mut self, key: &ItemKey) -> (claimed_at: Option<i64>)
        requires
            old(self)@.wf(),
        ensures
            final(self)@ == (PriorityQueueView {
                members: members_without(old(self)@.members, key@),
                ..old(self)@
            }),
            match claimed_at {
                Some(t) => old(self)@.holds_member(key@) && old(self)@.member_of(key@).claimed_at
                    == Some(t as int),
                None => !old(self)@.holds_member(key@) || old(self)@.member_of(key@).claimed_at
                    is None,
            },
    {
        match self.member_index(key) {
            Some(i) => {
                proof {
                    lemma_member_position(self@, i as int);
                }
                let replaced = self.members.remove(i);
                assert(members_view(self.members@) =~= members_without(old(self)@.members, key@));
                replaced.claimed_at
            },
            None => {
                assert(members_view(self.members@) =~= members_without(old(self)@.members, key@));
                None
            },
        }
    }

    /// Where a member of the given score enters the sorted set.
    fn enqueue_index(&self, score: u32) -> (at: usize)
        ensures
            at == enqueue_position(self@.members, score as nat),
            at <= self.members.len(),
    {
        let ghost all = members_view(self.members@);
        let mut at: usize = self.members.len();
        assert(all.subrange(0, at as int) =~= all);
        while at > 0 && self.members[at - 1].priority.score() > score
            invariant
                at <= self.members.len(),
                all == members_view(self.members@),
                enqueue_position(all, score as nat) == enqueue_position(
                    all.subrange(0, at as int),
                    score as nat,
                ),
            decreases at,
        {
            assert(all.subrange(0, at as int).drop_last() =~= all.subrange(0, at - 1));
            assert(all.subrange(0, at as int).last() == self.members@[at - 1]@);
            at -= 1;
        }
        proof {
            if at > 0 {
                assert(all.subrange(0, at as int).last() == self.members@[at - 1]@);
            }
        }
        at
    }

    /// Puts a member and its record in.
    fn put_in(&mut self, at: usize, member: QueueMember, record: StoredRecord, time: i64)
        requires
            at <= old(self).members.len(),
        ensures
            final(self)@ == (PriorityQueueView {
                clock: time as int,
                members: old(self)@.members.insert(at as int, member@),
                records: old(self)@.records.push(record@),
                ..old(self)@
            }),
    {
        self.members.insert(at, member);
        self.records.push(record);
        self.clock = time;
        assert(self@.members =~= old(self)@.members.insert(at as int, member@));
        assert(self@.records =~= old(self)@.records.push(record@));
    }

    /// Offers an item to the queue at time `now`. An item whose
    /// deduplication key is already kept is skipped and the call succeeds;
    /// else a full queue refuses with `QueueFull`; else the item enters.
    /// See [`PriorityQueueView::after_push`].
    pub fn push(&mut self, params: QueuePushParameters, now: i64) -> (result: Result<
        (),
        QueueError,
    >)
        requires
            old(self)@.wf(),
        ensures
            final(self)@.wf(),
            final(self)@ == old(self)@.after_push(params@, now as int),
            result == old(self)@.push_result(params@),
            old(self)@.consistent() ==> final(self)@.consistent(),
    {
        proof {
            lemma_push_keeps_bound(self@, params@, now as int);
            if self@.consistent() {
                lemma_push_keeps_keys_apart(self@, params@, now as int);
            }
        }
        let field = params.effective_deduplication_key();
        match decide_push(self.contains(field.as_str()), self.get_size(), self.max_size) {
            PushDecision::Skip => {
                return Ok(());
            },
            PushDecision::Refuse => {
                return Err(QueueError::QueueFull);
            },
            PushDecision::Enter => {},
        }
        let time = self.time_at(now);
        let priority = params.effective_priority();
        let key = ItemKey { enqueue_time: time, deduplication_key: field.clone() };
        let claimed_at = self.take_member(&key);
        let at = self.enqueue_index(priority.score());
        let member = QueueMember { key, priority, claimed_at };
        assert(member@ == old(self)@.new_member(params@, time as int));
        let record = StoredRecord {
            field,
            record: QueueItemSetRecord {
                file_name: params.file_name,
                correlation_id: params.correlation_id,
                metadata: params.metadata,
            },
        };
        self.put_in(at, member, record, time);
        Ok(())
    }

    /// The item for a key, put together from the record under its
    /// deduplication key and the class of its member.
    pub fn get_item(&self, key: &ItemKey) -> (item: Option<QueueItem>)
        requires
            self@.wf(),
        ensures
            match item {
                Some(it) => self@.item_of(key@) == Some(it@),
                None => self@.item_of(key@) is None,
            },
    {
        match self.record_index(key.deduplication_key.as_str()) {
            None => None,
            Some(r) => {
                proof {
                    lemma_record_position(self@, r as int);
                }
                let priority = match self.member_index(key) {
                    Some(i) => {
                        proof {
                            lemma_member_position(self@, i as int);
                        }
                        self.members[i].priority
                    },
                    None => Priority::Standard,
                };
                Some(QueueItem::assemble(key, &self.records[r].record, priority))
            },
        }
    }

    /// Whether the key is under a lease at time `now`.
    pub fn is_claimed(&self, key: &ItemKey, now: i64) -> (claimed: bool)
        requires
            self@.wf(),
        ensures
            claimed == self@.is_claimed(key@, self@.time_at(now as int)),
    {
        let time = self.time_at(now);
        match self.member_index(key) {
            Some(i) => {
                proof {
                    lemma_member_position(self@, i as int);
                }
                seconds_left(self.members[i].claimed_at, self.claim_ttl_seconds, time) > 0
            },
            None => false,
        }
    }

    fn item_at_index(&self, index: usize) -> (item: Option<QueueItem>)
        requires
            self@.wf(),
        ensures
            match item {
                Some(it) => self@.item_at(index as int) == Some(it@),
                None => self@.item_at(index as int) is None,
            },
    {
        if index < self.members.len() {
            self.get_item(&self.members[index].key)
        } else {
            None
        }
    }

    /// The item at a rank. Ranks from zero count from the front of the
    /// queue, negative ranks from its back.
    pub fn at(&self, position: isize) -> (item: Option<QueueItem>)
        requires
            self@.wf(),
        ensures
            match item {
                Some(it) => self@.item_at(position as int) == Some(it@),
                None => self@.item_at(position as int) is None,
            },
    {
        if position >= 0 {
            self.item_at_index(position as usize)
        } else {
            let back: usize = (-(position + 1)) as usize;
            if back < self.members.len() {
                let index: usize = self.members.len() - 1 - back;
                self.get_item(&self.members[index].key)
            } else {
                None
            }
        }
    }

    /// The item that leaves the queue first.
    pub fn peek(&self) -> (item: Option<QueueItem>)
        requires
            self@.wf(),
        ensures
            match item {
                Some(it) => self@.item_at(0) == Some(it@),
                None => self@.item_at(0) is None,
            },
    {
        self.at(0)
    }

    /// Drops everything the queue holds: members, records and leases.
    pub fn empty(&mut self)
        ensures
            final(self)@ == (PriorityQueueView {
                members: Seq::empty(),
                records: Seq::empty(),
                ..old(self)@
            }),
            final(self)@.wf(),
            final(self)@.consistent(),
    {
        self.members = Vec::new();
        self.records = Vec::new();
        assert(self@.members =~= Seq::empty());
        assert(self@.records =~= Seq::empty());
    }

    fn scan(&self, time: i64) -> (stop: usize)
        requires
            self@.wf(),
        ensures
            stop == self@.scan_stop(0, time as int),
            stop <= self.members.len(),
    {
        let mut index: usize = 0;
        while index < self.members.len()
            invariant
                self@.wf(),
                index <= self.members.len(),
                self@.scan_stop(0, time as int) == self@.scan_stop(index as int, time as int),
            decreases self.members.len() - index,
        {
            let item = self.item_at_index(index);
            if item.is_none() {
                return index;
            }
            if seconds_left(self.members[index].claimed_at, self.claim_ttl_seconds, time) == 0 {
                return index;
            }
            index += 1;
        }
        index
    }

    /// The first item, in queue order, that is under no lease at time
    /// `now`. The scan ends without an item at a member that has no
    /// record.
    pub fn get_next_unclaimed_item(&self, now: i64) -> (item: Option<QueueItem>)
        requires
            self@.wf(),
        ensures
            match item {
                Some(it) => self@.item_at(
                    self@.scan_stop(0, self@.time_at(now as int)),
                ) == Some(it@),
                None => self@.claimable_rank(self@.time_at(now as int)) is None,
            },
    {
        let time = self.time_at(now);
        let stop = self.scan(time);
        self.item_at_index(stop)
    }

    /// Claims the next item for a worker at time `now`: the first item
    /// under no lease is put under one for `claim_ttl_seconds` and handed
    /// out; it stays in the queue. `None` when every item is under a lease
    /// or the queue is empty. Where there is work but the lease time is
    /// zero the claim is refused with `InvalidLeaseTime`, and no item is
    /// handed out.
    pub fn claim_item(&mut self, now: i64) -> (item: Result<Option<QueueItem>, QueueError>)
        requires
            old(self)@.wf(),
        ensures
            final(self)@.wf(),
            final(self)@ == old(self)@.after_claim(now as int),
            old(self)@.consistent() ==> final(self)@.consistent(),
            match item {
                Ok(Some(it)) => {
                    &&& old(self)@.claim_result(now as int) matches Ok(Some(rank))
                    &&& old(self)@.item_at(
                        old(self)@.claimable_rank(old(self)@.time_at(now as int))->0,
                    ) == Some(it@)
                    &&& final(self)@.is_claimed(it@.item_key, final(self)@.clock)
                },
                Ok(None) => old(self)@.claim_result(now as int) == Ok::<Option<int>, QueueError>(
                    None,
                ),
                Err(e) => old(self)@.claim_result(now as int) == Err::<Option<int>, QueueError>(e),
            },
    {
        proof {
            lemma_claim_preserves(self@, now as int);
        }
        let time = self.time_at(now);
        let stop = self.scan(time);
        let item = self.item_at_index(stop);
        let claimed = match item {
            None => Ok(None),
            Some(found) => if self.claim_ttl_seconds == 0 {
                Err(QueueError::InvalidLeaseTime)
            } else {
                proof {
                    lemma_claim_lease_runs_out(self@, now as int, time as int);
                }
                let member = self.members.remove(stop);
                self.members.insert(
                    stop,
                    QueueMember {
                        key: member.key,
                        priority: member.priority,
                        claimed_at: Some(time),
                    },
                );
                Ok(Some(found))
            },
        };
        self.clock = time;
        proof {
            let after = old(self)@.after_claim(now as int);
            assert(self@.members =~= after.members);
            assert(self@.records =~= after.records);
        }
        claimed
    }

    /// Deletes an item: its member leaves the sorted set, the record under
    /// its deduplication key leaves the item table, and its lease ends.
    pub fn delete_item(&mut self, key: ItemKey)
        requires
            old(self)@.wf(),
        ensures
            final(self)@.wf(),
            final(self)@ == old(self)@.after_delete(key@),
            old(self)@.consistent() && (old(self)@.holds_member(key@) || !old(self)@.holds_field(
                key@.deduplication_key,
            )) ==> final(self)@.consistent(),
    {
        proof {
            lemma_delete_removes(self@, key@);
            if self@.consistent() && (self@.holds_member(key@) || !self@.holds_field(
                key@.deduplication_key,
            )) {
                lemma_delete_keeps_keys_apart(self@, key@);
            }
        }
        match self.member_index(&key) {
            Some(i) => {
                proof {
                    lemma_member_position(self@, i as int);
                }
                let _member = self.members.remove(i);
            },
            None => {},
        }
        assert(members_view(self.members@) =~= members_without(old(self)@.members, key@));
        match self.record_index(key.deduplication_key.as_str()) {
            Some(r) => {
                proof {
                    lemma_record_position(old(self)@, r as int);
                }
                let _record = self.records.remove(r);
            },
            None => {},
        }
        assert(records_view(self.records@) =~= records_without(
            old(self)@.records,
            key@.deduplication_key,
        ));
    }

    /// The items under a lease at time `now`, in queue order, each with
    /// the seconds its lease has left.
    pub fn get_claimed_items(&self, now: i64) -> (claimed: Vec<ClaimedQueueItem>)
        requires
            self@.wf(),
        ensures
            claimed@.map_values(|c: ClaimedQueueItem| c@) == self@.claimed_among(
                self@.members.len() as int,
                self@.time_at(now as int),
            ),
    {
        let time = self.time_at(now);
        let mut claimed: Vec<ClaimedQueueItem> = Vec::new();
        let mut index: usize = 0;
        assert(claimed@.map_values(|c: ClaimedQueueItem| c@) =~= self@.claimed_among(
            0,
            time as int,
        ));
        while index < self.members.len()
            invariant
                self@.wf(),
                index <= self.members.len(),
                time == self@.time_at(now as int),
                claimed@.map_values(|c: ClaimedQueueItem| c@) == self@.claimed_among(
                    index as int,
                    time as int,
                ),
            decreases self.members.len() - index,
        {
            let left = seconds_left(self.members[index].claimed_at, self.claim_ttl_seconds, time);
            let ghost before = claimed@.map_values(|c: ClaimedQueueItem| c@);
            if left > 0 {
                match self.get_item(&self.members[index].key) {
                    Some(item) => {
                        claimed.push(ClaimedQueueItem { item, claim_ttl_seconds: left });
                        assert(claimed@.map_values(|c: ClaimedQueueItem| c@) =~= before.push(
                            ClaimedQueueItemView { item: item@, claim_ttl_seconds: left as nat },
                        ));
                    },
                    None => {},
                }
            }
            index += 1;
        }
        claimed
    }

    /// The number of members under a lease at time `now`.
    pub fn get_claimed_item_count(&self, now: i64) -> (count: u32)
        requires
            self@.wf(),
        ensures
            count == self@.leases_among(self@.members.len() as int, self@.time_at(now as int)),
    {
        let time = self.time_at(now);
        let mut count: u32 = 0;
        let mut index: usize = 0;
        while index < self.members.len()
            invariant
                self@.wf(),
                index <= self.members.len(),
                count <= index,
                count == self@.leases_among(index as int, time as int),
            decreases self.members.len() - index,
        {
            if seconds_left(self.members[index].claimed_at, self.claim_ttl_seconds, time) > 0 {
                count += 1;
            }
            index += 1;
        }
        count
    }
}


/// A number's decimal form holds no colon.
proof fn lemma_decimal_has_no_colon(n: int, j: int)
    requires
        0 <= j < signed_decimal(n).len(),
    ensures
        signed_decimal(n)[j] != ':',
{
    if n < 0 {
        lemma_decimal_denotes((-n) as nat);
        if j > 0 {
            assert(signed_decimal(n)[j] == decimal((-n) as nat)[j - 1]);
        }
    } else {
        lemma_decimal_denotes(n as nat);
    }
}

/// The delimiter begins with a colon.
proof fn lemma_delimiter_begins_with_colon()
    ensures
        delimiter().len() > 0,
        delimiter()[0] == ':',
{
    reveal_strlit(":DELIMETER:");
}

/// A needle that begins with a character that `time` does not hold first
/// stands in `time + needle + rest` right behind `time`.
proof fn lemma_needle_follows(time: Seq<char>, needle: Seq<char>, rest: Seq<char>)
    requires
        needle.len() > 0,
        forall|j: int| 0 <= j < time.len() ==> time[j] != needle[0],
    ensures
        find_from(time + needle + rest, needle, 0) == Some(time.len() as int),
{
    let text = time + needle + rest;
    assert forall|j: int| 0 <= j < time.len() implies !occurs_at(text, needle, j) by {
        assert(text[j] == time[j]);
        if occurs_at(text, needle, j) {
            assert(text.subrange(j, j + needle.len())[0] == needle[0]);
        }
    }
    assert(occurs_at(text, needle, time.len() as int)) by {
        assert(text.subrange(time.len() as int, (time.len() + needle.len()) as int) =~= needle);
    }
    lemma_find_from_is_leftmost(text, needle, 0);
}

/// In a written key the delimiter first stands right behind the time.
proof fn lemma_delimiter_follows_time(key: ItemKeyView)
    ensures
        find_from(key.text(), delimiter(), 0) == Some(
            signed_decimal(key.enqueue_time).len() as int,
        ),
{
    let time = signed_decimal(key.enqueue_time);
    lemma_delimiter_begins_with_colon();
    assert forall|j: int| 0 <= j < time.len() implies time[j] != delimiter()[0] by {
        lemma_decimal_has_no_colon(key.enqueue_time, j);
    }
    lemma_needle_follows(time, delimiter(), key.deduplication_key);
}

/// Reading what was written gives the key back: the written form of a key
/// is read as that key, whatever its deduplication key holds, provided
/// chrono can represent its time; the written form of any other key is
/// refused.
pub proof fn lemma_item_key_round_trip(key: ItemKeyView)
    requires
        i64::MIN <= key.enqueue_time <= i64::MAX,
    ensures
        split_item_key(key.text()) == Some(key),
        parse_item_key(key.text()) == if timestamp_in_range(key.enqueue_time) {
            Some(key)
        } else {
            None
        },
{
    let time = signed_decimal(key.enqueue_time);
    let mark = delimiter();
    let rest = key.deduplication_key;
    let text = key.text();
    let after: int = (time.len() + mark.len()) as int;
    lemma_delimiter_follows_time(key);
    lemma_parse_signed_decimal(key.enqueue_time);
    assert(text.subrange(0, time.len() as int) =~= time);
    assert(text.subrange(after, text.len() as int) =~= rest);
}

/// What to do with an item offered to the queue.
#[derive(Clone, Copy, Debug, PartialEq, Eq, Structural)]
pub enum PushDecision {
    /// Its deduplication key is kept already: nothing is done.
    Skip,
    /// The queue is full: the push is refused.
    Refuse,
    /// The item enters.
    Enter,
}

/// Decides a push from whether the deduplication key is kept, how many
/// items the queue holds, and how many it may hold.
pub fn decide_push(already_kept: bool, size: u32, max_size: u32) -> (decision: PushDecision)
    ensures
        decision == if already_kept {
            PushDecision::Skip
        } else if size >= max_size {
            PushDecision::Refuse
        } else {
            PushDecision::Enter
        },
{
    if already_kept {
        PushDecision::Skip
    } else if size >= max_size {
        PushDecision::Refuse
    } else {
        PushDecision::Enter
    }
}

/// What a scan for work does at a rank.
#[derive(Debug)]
pub enum ScanStep {
    /// There is no item to show at the rank: the scan ends without work.
    Stop,
    /// The item is under no lease: it is the work.
    Take(QueueItem),
    /// The item is under a lease: the scan goes on at the next rank.
    Next,
}

/// Decides a step of a scan for work from what stands at the rank and
/// whether it is under a lease.
pub fn scan_step(item: Option<QueueItem>, claimed: bool) -> (step: ScanStep)
    ensures
        match step {
            ScanStep::Stop => item is None,
            ScanStep::Take(taken) => item == Some(taken) && !claimed,
            ScanStep::Next => item is Some && claimed,
        },
{
    match item {
        None => ScanStep::Stop,
        Some(found) => if claimed {
            ScanStep::Next
        } else {
            ScanStep::Take(found)
        },
    }
}

/// Puts an item together from what the store holds of it: its key, its
/// record, and the score of its member, if the sorted set holds the key.
/// Without a score the class is standard; a score that is the score of no
/// class is refused.
pub fn item_from_parts(key: &ItemKey, record: &QueueItemSetRecord, score: Option<u32>) -> (item:
    Result<QueueItem, QueueError>)
    ensures
        match item {
            Ok(it) => it@ == assemble_item(
                key@,
                record@,
                match score {
                    Some(s) => Priority::from_score(s as nat)->0,
                    None => Priority::Standard,
                },
            ) && (score is Some ==> Priority::from_score(score->0 as nat) is Some),
            Err(e) => score is Some && Priority::from_score(score->0 as nat) is None && e
                == QueueError::InvalidPriority,
        },
{
    let priority = match score {
        Some(s) => match Priority::try_from(s) {
            Ok(p) => p,
            Err(e) => {
                return Err(e);
            },
        },
        None => Priority::Standard,
    };
    Ok(QueueItem::assemble(key, record, priority))
}

/// The item key that a lease key stands for: what follows the lease
/// prefix, read as a written item key.
pub open spec fn lease_target(lease_key: Seq<char>) -> Option<ItemKeyView> {
    let prefix = "crawler:queue"@ + ":claimed:"@;
    if prefix.is_prefix_of(lease_key) {
        parse_item_key(lease_key.subrange(prefix.len() as int, lease_key.len() as int))
    } else {
        None
    }
}

/// Reads the item key out of the store key of a lease. A key that does
/// not begin with the lease prefix, or does not go on with a written item
/// key, is refused.
pub fn item_key_of_lease(lease_key: &str) -> (key: Result<ItemKey, QueueError>)
    ensures
        match key {
            Ok(k) => lease_target(lease_key@) == Some(k@),
            Err(e) => lease_target(lease_key@) is None && e == QueueError::InvalidItemKey,
        },
{
    let mut prefix = String::new();
    push_text(&mut prefix, "crawler:queue");
    push_text(&mut prefix, ":claimed:");
    assert(prefix@ =~= "crawler:queue"@ + ":claimed:"@);
    if !has_prefix(lease_key, prefix.as_str()) {
        return Err(QueueError::InvalidItemKey);
    }
    let chars = to_chars(lease_key);
    let from = to_chars(prefix.as_str()).len();
    let rest = string_of(&chars, from, chars.len());
    ItemKey::from_str(rest.as_str())
}

} // verus!

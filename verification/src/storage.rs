//! Message records and an in-memory, append-only record log.
use vstd::prelude::*;

verus! {

/// A stored chat message. `content` holds the message body as JSON text.
pub struct MessageRecord {
    pub message_id: String,
    pub from_client_id: String,
    pub to_client_id: String,
    pub content: String,
    pub timestamp: i64,
    pub msg_type: String,
    pub room_id: Option<String>,
}

/// A message record as plain values.
pub type MessageRecordView = (Seq<char>, Seq<char>, Seq<char>, Seq<char>, i64, Seq<char>, Option<Seq<char>>);

/// An optional string as plain values.
pub open spec fn opt_view(o: Option<String>) -> Option<Seq<char>> {
    match o {
        Some(s) => Some(s@),
        None => None,
    }
}

impl View for MessageRecord {
    type V = MessageRecordView;

    open spec fn view(&self) -> MessageRecordView {
        (
            self.message_id@,
            self.from_client_id@,
            self.to_client_id@,
            self.content@,
            self.timestamp,
            self.msg_type@,
            opt_view(self.room_id),
        )
    }
}

impl MessageRecord {
    /// A copy of this record.
    pub fn duplicate(&self) -> (r: Self)
        ensures
            r@ == self@,
    {
        MessageRecord {
            message_id: self.message_id.clone(),
            from_client_id: self.from_client_id.clone(),
            to_client_id: self.to_client_id.clone(),
            content: self.content.clone(),
            timestamp: self.timestamp,
            msg_type: self.msg_type.clone(),
            room_id: match &self.room_id {
                Some(r) => Some(r.clone()),
                None => None,
            },
        }
    }
}

/// Records as plain values.
pub open spec fn records_view(v: Seq<MessageRecord>) -> Seq<MessageRecordView> {
    v.map_values(|r: MessageRecord| r@)
}

/// Copies of a list of records.
pub fn copy_records(v: &Vec<MessageRecord>) -> (r: Vec<MessageRecord>)
    ensures
        records_view(r@) == records_view(v@),
{
    let mut r: Vec<MessageRecord> = Vec::new();
    let mut k: usize = 0;
    while k < v.len()
        invariant
            k <= v@.len(),
            r@.len() == k,
            forall|j: int| 0 <= j < k ==> #[trigger] r@[j]@ == v@[j]@,
        decreases v.len() - k,
    {
        r.push(v[k].duplicate());
        k += 1;
    }
    assert(records_view(r@) =~= records_view(v@));
    r
}

/// An append-only log of message records kept in memory.
pub struct RecordLog {
    records: Vec<MessageRecord>,
}

impl RecordLog {
    /// The records, oldest first.
    pub closed spec fn view(&self) -> Seq<MessageRecordView> {
        records_view(self.records@)
    }

    /// An empty log.
    pub fn new() -> (l: Self)
        ensures
            l@ == Seq::<MessageRecordView>::empty(),
    {
        let l = RecordLog { records: Vec::new() };
        assert(l@ =~= Seq::<MessageRecordView>::empty());
        l
    }

    /// Number of records.
    pub fn len(&self) -> (n: usize)
        ensures
            n == self@.len(),
    {
        self.records.len()
    }

    /// Appends a copy of `rec`.
    pub fn append(&mut self, rec: &MessageRecord)
        ensures
            final(self)@ == old(self)@.push(rec@),
    {
        self.records.push(rec.duplicate());
        assert(self@ =~= old(self)@.push(rec@));
    }

    /// A copy of every record, oldest first.
    pub fn snapshot(&self) -> (r: Vec<MessageRecord>)
        ensures
            records_view(r@) == self@,
    {
        copy_records(&self.records)
    }

    /// Replaces the log's contents with `records`.
    pub fn restore(&mut self, records: Vec<MessageRecord>)
        ensures
            final(self)@ == records_view(records@),
    {
        self.records = records;
    }

    /// Empties the log.
    pub fn clear(&mut self)
        ensures
            final(self)@ == Seq::<MessageRecordView>::empty(),
    {
        self.records.clear();
        assert(self@ =~= Seq::<MessageRecordView>::empty());
    }
}

} // verus!

verus! {

/// A message kept for a uid that was offline. `content` holds the message
/// body as JSON text.
pub struct OfflineRecord {
    pub message_id: String,
    pub from_uid: Option<String>,
    pub to_uid: String,
    pub room_id: Option<String>,
    pub content: String,
    pub timestamp: i64,
    pub msg_type: String,
}

} // verus!

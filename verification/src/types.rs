//! Public data types of the notes registry: payload records, request and
//! response shapes, and the error taxonomy.

use vstd::prelude::*;

verus! {

/// Content-interpretation hint carried by a note; never validated against the
/// note body.
#[derive(Clone, Copy, Debug, PartialEq, Eq, Structural)]
pub enum NoteType {
    Json,
    String,
    Ipfs,
}

impl NoteType {
    /// Display label of the note type.
    pub fn to_string(&self) -> (r: String)
        ensures
            *self == NoteType::Json ==> r@ == "Json"@,
            *self == NoteType::String ==> r@ == "String"@,
            *self == NoteType::Ipfs ==> r@ == "IPFS"@,
    {
        match self {
            NoteType::Json => String::from_str("Json"),
            NoteType::String => String::from_str("String"),
            NoteType::Ipfs => String::from_str("IPFS"),
        }
    }

    /// Parse a display label; accepts exactly the three recognised labels.
    pub fn parse(s: &str) -> (r: Option<NoteType>)
        ensures
            r == (if s@ == "IPFS"@ {
                Some(NoteType::Ipfs)
            } else if s@ == "JSON"@ {
                Some(NoteType::Json)
            } else if s@ == "String"@ {
                Some(NoteType::String)
            } else {
                None::<NoteType>
            }),
    {
        if crate::order::str_eq(s, "IPFS") {
            Some(NoteType::Ipfs)
        } else if crate::order::str_eq(s, "JSON") {
            Some(NoteType::Json)
        } else if crate::order::str_eq(s, "String") {
            Some(NoteType::String)
        } else {
            None
        }
    }
}

impl core::str::FromStr for NoteType {
    type Err = ();

    fn from_str(s: &str) -> Result<Self, Self::Err> {
        match NoteType::parse(s) {
            Some(t) => Ok(t),
            None => Err(()),
        }
    }
}

/// Identifies a note: the full three-component path.
#[derive(Debug)]
pub struct NoteKey {
    pub topic: String,
    pub sub_topic: String,
    pub name: String,
}

impl NoteKey {
    /// Display form of the key, `topic/sub_topic:name`.
    pub fn to_string(&self) -> (r: String)
        ensures
            r@ == self.topic@ + seq!['/'] + self.sub_topic@ + seq![':'] + self.name@,
    {
        let mut r = self.topic.clone();
        r.append("/");
        r.append(self.sub_topic.as_str());
        r.append(":");
        r.append(self.name.as_str());
        proof {
            reveal_strlit("/");
            reveal_strlit(":");
            assert(r@ =~= self.topic@ + seq!['/'] + self.sub_topic@ + seq![':'] + self.name@);
        }
        r
    }
}

/// Identifies a subtopic scope under a topic.
#[derive(Debug)]
pub struct SubTopicKey {
    pub topic: String,
    pub sub_topic: String,
}

impl SubTopicKey {
    /// Display form of the key, `topic_sub_topic`.
    pub fn to_string(&self) -> (r: String)
        ensures
            r@ == self.topic@ + seq!['_'] + self.sub_topic@,
    {
        let mut r = self.topic.clone();
        r.append("_");
        r.append(self.sub_topic.as_str());
        proof {
            reveal_strlit("_");
            assert(r@ =~= self.topic@ + seq!['_'] + self.sub_topic@);
        }
        r
    }
}

impl Clone for SubTopicKey {
    fn clone(&self) -> (r: Self)
        ensures
            r == *self,
    {
        SubTopicKey { topic: self.topic.clone(), sub_topic: self.sub_topic.clone() }
    }
}

/// The payload record stored for a note.
#[derive(Debug)]
pub struct NoteEntry {
    pub writer: String,
    pub topic: String,
    pub sub_topic: String,
    pub name: String,
    pub note_type: NoteType,
    pub note: String,
}

impl Clone for NoteEntry {
    fn clone(&self) -> (r: Self)
        ensures
            r == *self,
    {
        NoteEntry {
            writer: self.writer.clone(),
            topic: self.topic.clone(),
            sub_topic: self.sub_topic.clone(),
            name: self.name.clone(),
            note_type: self.note_type,
            note: self.note.clone(),
        }
    }
}

impl PartialEq for NoteEntry {
    fn eq(&self, o: &NoteEntry) -> (r: bool) {
        self.writer == o.writer && self.topic == o.topic && self.sub_topic == o.sub_topic
            && self.name == o.name && self.note_type == o.note_type && self.note == o.note
    }
}

impl vstd::std_specs::cmp::PartialEqSpecImpl for NoteEntry {
    open spec fn obeys_eq_spec() -> bool {
        true
    }

    open spec fn eq_spec(&self, o: &NoteEntry) -> bool {
        self.writer@ == o.writer@ && self.topic@ == o.topic@ && self.sub_topic@ == o.sub_topic@
            && self.name@ == o.name@ && self.note_type == o.note_type && self.note@ == o.note@
    }
}

/// Specification-level shape of a `NoteEntry`.
pub struct NoteEntryV {
    pub writer: Seq<char>,
    pub topic: Seq<char>,
    pub sub_topic: Seq<char>,
    pub name: Seq<char>,
    pub note_type: NoteType,
    pub note: Seq<char>,
}

impl View for NoteEntry {
    type V = NoteEntryV;

    open spec fn view(&self) -> NoteEntryV {
        NoteEntryV {
            writer: self.writer@,
            topic: self.topic@,
            sub_topic: self.sub_topic@,
            name: self.name@,
            note_type: self.note_type,
            note: self.note@,
        }
    }
}

/// Specification-level shape of a `SubTopicKey`.
pub struct SubTopicKeyV {
    pub topic: Seq<char>,
    pub sub_topic: Seq<char>,
}

impl View for SubTopicKey {
    type V = SubTopicKeyV;

    open spec fn view(&self) -> SubTopicKeyV {
        SubTopicKeyV { topic: self.topic@, sub_topic: self.sub_topic@ }
    }
}

/// An allowlisted identity permitted to add and remove notes.
#[derive(Debug)]
pub struct NoteWriter {
    pub address: String,
    pub name: String,
}

impl Clone for NoteWriter {
    fn clone(&self) -> (r: Self)
        ensures
            r == *self,
    {
        NoteWriter { address: self.address.clone(), name: self.name.clone() }
    }
}

impl PartialEq for NoteWriter {
    fn eq(&self, o: &NoteWriter) -> (r: bool) {
        self.address == o.address && self.name == o.name
    }
}

impl vstd::std_specs::cmp::PartialEqSpecImpl for NoteWriter {
    open spec fn obeys_eq_spec() -> bool {
        true
    }

    open spec fn eq_spec(&self, o: &NoteWriter) -> bool {
        self.address@ == o.address@ && self.name@ == o.name@
    }
}

/// Specification-level shape of a `NoteWriter`.
pub struct NoteWriterV {
    pub address: Seq<char>,
    pub name: Seq<char>,
}

impl View for NoteWriter {
    type V = NoteWriterV;

    open spec fn view(&self) -> NoteWriterV {
        NoteWriterV { address: self.address@, name: self.name@ }
    }
}

/// A subtopic scope as the query schema names it; the subtopic listing
/// carries [`SubTopicKey`] records of the same shape.
#[derive(Debug)]
pub struct Subtopic {
    pub topic: String,
    pub sub_topic: String,
}

/// Everything that can go wrong in an invocation.
#[derive(Debug)]
pub enum ContractError {
    /// The caller is not permitted to perform the operation.
    Unauthorized,
    /// A lookup or removal addressed a key that is not present.
    NotFound,
    /// A writer removal addressed an address that is not allowlisted.
    AddressDoesNotExist(String),
    /// A malformed identity string was handed in.
    InvalidAddress,
}

/// Seeds the admin identity and the initial writer allowlist.
#[derive(Debug)]
pub struct InstantiateMsg {
    pub owner: String,
    pub writers: Vec<NoteWriter>,
}

/// Deadline attached to a pending ownership transfer.
#[derive(Clone, Copy, Debug)]
pub enum Expiration {
    /// Expired once the chain height reaches the given height.
    AtHeight(u64),
    /// Expired once the block time reaches the given timestamp, in nanoseconds.
    AtTime(u64),
    /// Never expires.
    Never,
}

/// Two-phase ownership transfer actions.
#[derive(Debug)]
pub enum OwnershipAction {
    /// Propose a new owner; takes effect when the proposed owner accepts.
    TransferOwnership { new_owner: String, expiry: Option<Expiration> },
    /// Accept a pending transfer, becoming the owner.
    AcceptOwnership,
    /// Give the owner role up for good; the registry keeps no owner.
    RenounceOwnership,
}

/// Current owner, plus any pending transfer.
#[derive(Debug)]
pub struct Ownership {
    pub owner: Option<String>,
    pub pending_owner: Option<String>,
    pub pending_expiry: Option<Expiration>,
}

/// A mutating request.
#[derive(Debug)]
pub enum ExecuteMsg {
    UpdateOwnership(OwnershipAction),
    AddWriter { address: String, name: String },
    RemoveWriter { address: String },
    AddNote { topic: String, sub_topic: String, name: String, note_type: NoteType, note: String },
    RemoveNote { topic: String, sub_topic: String, name: String },
    RemoveSubTopic { topic: String, sub_topic: String },
    RemoveTopic { topic: String },
}

/// A read request.
#[derive(Debug)]
pub enum QueryMsg {
    Ownership {},
    Writers { start_after: Option<String>, limit: Option<u32> },
    Topics { start_after: Option<String>, limit: Option<u32> },
    SubTopics { topic: String, start_after: Option<String>, limit: Option<u32> },
    Entries { topic: String, sub_topic: String, start_after: Option<String>, limit: Option<u32> },
    Note { topic: String, sub_topic: String, name: String },
}

/// A page of listing results.
#[derive(Debug)]
pub struct NoteResponse<T> {
    pub entries: Vec<T>,
}

/// The answer to a read request, one variant per query.
#[derive(Debug)]
pub enum QueryAnswer {
    Ownership(Ownership),
    Writers(NoteResponse<NoteWriter>),
    Topics(NoteResponse<String>),
    SubTopics(NoteResponse<SubTopicKey>),
    Entries(NoteResponse<NoteEntry>),
    Note(NoteEntry),
}

} // verus!

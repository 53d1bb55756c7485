use vstd::prelude::*;
use vstd::string::StringExecFns;
use crate::record::{RecordView, User};

verus! {

/// Directory under which each node keeps its storage location.
pub open spec fn storage_root() -> Seq<char> {
    seq!['/', 't', 'm', 'p', '/']
}

/// Name of the store file inside a node's storage location.
pub open spec fn store_file_name() -> Seq<char> {
    seq!['/', 's', 'h', 'a', 'r', 'd', 's', '.', 'j', 's', 'o', 'n']
}

/// The storage location of the node with the given address text.
pub fn storage_dir(node_address: &str) -> (r: String)
    ensures
        r@ == storage_root() + node_address@,
{
    proof {
        reveal_strlit("/tmp/");
    }
    String::from_str("/tmp/").concat(node_address)
}

/// The store file of the node with the given address text.
pub fn store_file(node_address: &str) -> (r: String)
    ensures
        r@ == storage_root() + node_address@ + store_file_name(),
{
    proof {
        reveal_strlit("/shards.json");
    }
    storage_dir(node_address).concat("/shards.json")
}

/// What a fresh store holds when persisted: an empty array.
pub fn initial_store_text() -> (r: &'static str)
    ensures
        r@ == seq!['[', ']'],
{
    proof {
        reveal_strlit("[]");
    }
    "[]"
}

/// The records of a list, as mathematical values.
pub open spec fn records_view(rs: Seq<User>) -> Seq<RecordView> {
    rs.map_values(|u: User| u@)
}

/// The node's ordered list of records, in local application order. It is
/// the in-memory image of the persisted array: it is loaded whole and, after
/// each append, written back whole.
pub struct RecordStore {
    records: Vec<User>,
}

impl View for RecordStore {
    type V = Seq<RecordView>;

    closed spec fn view(&self) -> Seq<RecordView> {
        records_view(self.records@)
    }
}

impl RecordStore {
    /// An empty store, as bootstrap creates it.
    pub fn new() -> (r: RecordStore)
        ensures
            r@ == Seq::<RecordView>::empty(),
    {
        let r = RecordStore { records: Vec::new() };
        assert(r@ =~= Seq::<RecordView>::empty());
        r
    }

    /// A store holding the records that were read back, in their order.
    pub fn from_records(records: Vec<User>) -> (r: RecordStore)
        ensures
            r@ == records_view(records@),
    {
        RecordStore { records }
    }

    /// Every record, in the order they were appended.
    pub fn read_all(&self) -> (r: &Vec<User>)
        ensures
            records_view(r@) == self@,
    {
        &self.records
    }

    /// Number of records held.
    pub fn len(&self) -> (r: usize)
        ensures
            r == self@.len(),
    {
        self.records.len()
    }

    /// Adds a record at the end.
    pub fn append(&mut self, record: User)
        ensures
            final(self)@ == old(self)@.push(record@),
    {
        let ghost rv = record@;
        self.records.push(record);
        assert(self@ =~= old(self)@.push(rv));
    }
}

} // verus!

use vstd::prelude::*;

verus! {

/// The ordered secret-share blocks of a record, each one opaque bytes.
pub type Shares = Vec<Vec<u8>>;

/// One share-bearing record: the domain it belongs to and its share blocks.
pub struct User {
    pub domain: String,
    pub shares: Shares,
}

/// Whether a set of shares is the full set or only part of it.
pub enum SharesType {
    Complete,
    Partial,
}

/// The mathematical value of a record.
pub ghost struct RecordView {
    pub domain: Seq<char>,
    pub shares: Seq<Seq<u8>>,
}

/// The share blocks as byte sequences.
pub open spec fn shares_view(shares: Seq<Vec<u8>>) -> Seq<Seq<u8>> {
    shares.map_values(|b: Vec<u8>| b@)
}

impl View for User {
    type V = RecordView;

    open spec fn view(&self) -> RecordView {
        RecordView { domain: self.domain@, shares: shares_view(self.shares@) }
    }
}

impl User {
    /// A record with the given domain and share blocks.
    pub fn new(domain: String, shares: Shares) -> (r: User)
        ensures
            r.domain@ == domain@,
            r.shares@ == shares@,
            r@ == (RecordView { domain: domain@, shares: shares_view(shares@) }),
    {
        User { domain, shares }
    }

    /// Number of share blocks in the record.
    pub fn share_count(&self) -> (r: usize)
        ensures
            r == self@.shares.len(),
    {
        self.shares.len()
    }
}

} // verus!

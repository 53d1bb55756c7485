use vstd::prelude::*;

verus! {

/// What std's default hasher (built by `DefaultHasher::new`, fixed keys)
/// yields for a byte vector: a function of the bytes alone.
pub uninterp spec fn content_hash_of(data: Seq<u8>) -> u64;

/// The character of a decimal digit.
pub open spec fn digit_char(d: nat) -> char {
    if d == 0 { '0' }
    else if d == 1 { '1' }
    else if d == 2 { '2' }
    else if d == 3 { '3' }
    else if d == 4 { '4' }
    else if d == 5 { '5' }
    else if d == 6 { '6' }
    else if d == 7 { '7' }
    else if d == 8 { '8' }
    else { '9' }
}

/// Decimal notation of a natural number, without sign or leading zeros.
pub open spec fn decimal_of(n: nat) -> Seq<char>
    decreases n,
{
    if n < 10 {
        seq![digit_char(n)]
    } else {
        decimal_of(n / 10).push(digit_char(n % 10))
    }
}

/// The message id of a payload: the decimal text of its content hash.
pub open spec fn message_id_of(data: Seq<u8>) -> Seq<char> {
    decimal_of(content_hash_of(data) as nat)
}

/// Relies on `BuildHasher::hash_one` over `BuildHasherDefault<DefaultHasher>`,
/// the same as hashing the vector into `DefaultHasher::new()` and calling
/// `finish`: a deterministic 64-bit hash of the bytes.
#[verifier::external_body]
fn content_hash(data: &Vec<u8>) -> (r: u64)
    ensures
        r == content_hash_of(data@),
{
    std::hash::BuildHasher::hash_one(
        &std::hash::BuildHasherDefault::<std::collections::hash_map::DefaultHasher>::default(),
        data,
    )
}

/// Relies on `u64`'s `to_string` (its `Display`): plain decimal digits.
#[verifier::external_body]
fn decimal_text(n: u64) -> (r: String)
    ensures
        r@ == decimal_of(n as nat),
{
    n.to_string()
}

/// The content hash of a payload.
pub fn payload_hash(data: &Vec<u8>) -> (r: u64)
    ensures
        r == content_hash_of(data@),
{
    content_hash(data)
}

/// The content-addressed id of a gossip payload: it depends on the payload
/// bytes only, never on the sender.
pub fn message_id(data: &Vec<u8>) -> (r: String)
    ensures
        r@ == message_id_of(data@),
{
    let h = content_hash(data);
    decimal_text(h)
}

/// The id text of a given content hash.
pub fn message_id_from_hash(hash: u64) -> (r: String)
    ensures
        r@ == decimal_of(hash as nat),
{
    decimal_text(hash)
}

/// Byte-identical payloads get the same message id, whoever sends them.
pub proof fn lemma_identical_payloads_same_id(a: Seq<u8>, b: Seq<u8>)
    requires
        a == b,
    ensures
        message_id_of(a) == message_id_of(b),
{
}

proof fn lemma_decimal_len(n: nat)
    ensures
        decimal_of(n).len() >= 1,
        n >= 10 ==> decimal_of(n).len() >= 2,
    decreases n,
{
    if n >= 10 {
        lemma_decimal_len(n / 10);
    }
}

/// Distinct numbers have distinct decimal notations.
pub proof fn lemma_decimal_injective(a: nat, b: nat)
    requires
        decimal_of(a) == decimal_of(b),
    ensures
        a == b,
    decreases a,
{
    lemma_decimal_len(a);
    lemma_decimal_len(b);
    if a < 10 && b < 10 {
        assert(decimal_of(a)[0] == digit_char(a));
        assert(decimal_of(b)[0] == digit_char(b));
    } else if a < 10 {
        assert(decimal_of(a).len() == 1);
    } else if b < 10 {
        assert(decimal_of(b).len() == 1);
    } else {
        let da = decimal_of(a);
        let db = decimal_of(b);
        assert(da.last() == digit_char(a % 10));
        assert(db.last() == digit_char(b % 10));
        assert(da.drop_last() =~= decimal_of(a / 10));
        assert(db.drop_last() =~= decimal_of(b / 10));
        lemma_decimal_injective(a / 10, b / 10);
        assert(a % 10 == b % 10);
    }
}

/// Two payloads get the same message id exactly when their content hashes
/// agree: the id keeps all of the hash, so payloads that differ collide only
/// where the hash itself collides.
pub proof fn lemma_id_matches_hash(a: Seq<u8>, b: Seq<u8>)
    ensures
        (message_id_of(a) == message_id_of(b)) <==> (content_hash_of(a) == content_hash_of(b)),
{
    if message_id_of(a) == message_id_of(b) {
        lemma_decimal_injective(content_hash_of(a) as nat, content_hash_of(b) as nat);
    }
}

} // verus!

//! Thirty-two byte identities of users, instruments, authorities and
//! accounts.

use vstd::prelude::*;
use crate::wire::lemma_word_at_written;
use crate::wire::read_u64;
use crate::wire::word_at;
use crate::wire::word_bytes;
use crate::wire::write_u64;
use solana_sdk::pubkey::Pubkey;
use vstd::bytes::lemma_auto_spec_u64_to_from_le_bytes;

verus! {

/// An identity, compared by its thirty-two bytes.
#[derive(Clone, Copy, Debug, PartialEq, Eq, Structural)]
pub struct Identity {
    w0: u64,
    w1: u64,
    w2: u64,
    w3: u64,
}

/// Length of an identity in a byte record.
pub const IDENTITY_LEN: usize = 32;

/// The identity held in the thirty-two bytes of `s` that start at `off`.
pub closed spec fn identity_at(s: Seq<u8>, off: int) -> Identity {
    Identity {
        w0: word_at(s, off),
        w1: word_at(s, off + 8),
        w2: word_at(s, off + 16),
        w3: word_at(s, off + 24),
    }
}

/// The base58 text of thirty-two bytes, as the ledger's tools write an
/// address.
pub uninterp spec fn base58_text(bytes: Seq<u8>) -> Seq<char>;

/// The thirty-two bytes that a text stands for in base58, if it stands for
/// any.
pub uninterp spec fn base58_bytes(text: Seq<char>) -> Option<Seq<u8>>;

/// Formats thirty-two bytes with `Display` of `solana_sdk::pubkey::Pubkey`,
/// which writes the base58 encoding of the bytes and nothing else.  The
/// contract claims only that the text depends on the bytes alone.
#[verifier::external_body]
fn encode_base58(bytes: [u8; 32]) -> (text: String)
    ensures
        text@ == base58_text(bytes@),
{
    Pubkey::new_from_array(bytes).to_string()
}

/// Parses a text with `FromStr` of `solana_sdk::pubkey::Pubkey`, which
/// accepts exactly the base58 encodings of thirty-two bytes and fails on
/// every other text.  The contract claims only that the outcome depends on
/// the text alone.
#[verifier::external_body]
fn decode_base58(text: &str) -> (bytes: Option<[u8; 32]>)
    ensures
        match bytes {
            Some(b) => base58_bytes(text@) == Some(b@),
            None => base58_bytes(text@) is None,
        },
{
    match text.parse::<Pubkey>() {
        Ok(key) => Some(key.to_bytes()),
        Err(_) => None,
    }
}

impl Identity {
    /// The identity as an address in base58.
    pub fn to_base58(&self) -> (text: String)
        ensures
            text@ == base58_text(self.bytes()),
    {
        encode_base58(self.to_bytes())
    }

    /// The identity that an address in base58 names, or nothing if the
    /// text is no such address.
    pub fn from_base58(text: &str) -> (r: Option<Identity>)
        ensures
            r == match base58_bytes(text@) {
                Some(bytes) => Some(identity_at(bytes, 0)),
                None => None,
            },
            r matches Some(id) ==> base58_bytes(text@) == Some(id.bytes()),
    {
        match decode_base58(text) {
            Some(bytes) => Some(Identity::from_bytes(&bytes)),
            None => None,
        }
    }

    /// The thirty-two bytes of the identity.
    pub closed spec fn bytes(self) -> Seq<u8> {
        word_bytes(self.w0) + word_bytes(self.w1) + word_bytes(self.w2) + word_bytes(self.w3)
    }

    /// The identity made of `bytes`.
    pub fn from_bytes(bytes: &[u8; 32]) -> (id: Identity)
        ensures
            id == identity_at(bytes@, 0),
            id.bytes() == bytes@,
    {
        proof {
            lemma_identity_of_bytes(bytes@, 0);
            assert(bytes@.subrange(0, 32) =~= bytes@);
        }
        Identity::read(bytes.as_slice(), 0)
    }

    /// The bytes of the identity.
    pub fn to_bytes(&self) -> (out: [u8; 32])
        ensures
            out@ == self.bytes(),
    {
        let mut buf: Vec<u8> = Vec::new();
        self.write(&mut buf);
        proof {
            lemma_identity_bytes_len(*self);
            assert(buf@ =~= self.bytes());
        }
        let mut out: [u8; 32] = [0u8; 32];
        let mut i: usize = 0;
        while i < 32
            invariant
                i <= 32,
                buf@.len() == 32,
                forall|k: int| 0 <= k < i ==> out@[k] == buf@[k],
            decreases 32 - i,
        {
            out[i] = buf[i];
            i += 1;
        }
        assert(out@ =~= buf@);
        out
    }

    pub(crate) fn read(data: &[u8], off: usize) -> (id: Identity)
        requires
            off + 32 <= data@.len(),
        ensures
            id == identity_at(data@, off as int),
    {
        let len = data.len();
        assert(off + 32 <= len);
        Identity {
            w0: read_u64(data, off),
            w1: read_u64(data, off + 8),
            w2: read_u64(data, off + 16),
            w3: read_u64(data, off + 24),
        }
    }

    pub(crate) fn write(&self, out: &mut Vec<u8>)
        ensures
            final(out)@ == old(out)@ + self.bytes(),
    {
        write_u64(out, self.w0);
        write_u64(out, self.w1);
        write_u64(out, self.w2);
        write_u64(out, self.w3);
        assert(out@ =~= old(out)@ + self.bytes());
    }
}

/// An identity takes thirty-two bytes.
pub proof fn lemma_identity_bytes_len(id: Identity)
    ensures
        id.bytes().len() == 32,
{
    lemma_auto_spec_u64_to_from_le_bytes();
}

/// An identity written between a prefix and a suffix is read back at the
/// prefix's length.
pub proof fn lemma_identity_at_written(prefix: Seq<u8>, id: Identity, suffix: Seq<u8>)
    ensures
        identity_at(prefix + id.bytes() + suffix, prefix.len() as int) == id,
{
    let whole = prefix + id.bytes() + suffix;
    let b0 = word_bytes(id.w0);
    let b1 = word_bytes(id.w1);
    let b2 = word_bytes(id.w2);
    let b3 = word_bytes(id.w3);
    lemma_word_at_written(prefix, id.w0, b1 + b2 + b3 + suffix);
    lemma_word_at_written(prefix + b0, id.w1, b2 + b3 + suffix);
    lemma_word_at_written(prefix + b0 + b1, id.w2, b3 + suffix);
    lemma_word_at_written(prefix + b0 + b1 + b2, id.w3, suffix);
    assert(whole =~= prefix + b0 + (b1 + b2 + b3 + suffix));
    assert(whole =~= prefix + b0 + b1 + (b2 + b3 + suffix));
    assert(whole =~= prefix + b0 + b1 + b2 + (b3 + suffix));
    assert(whole =~= prefix + b0 + b1 + b2 + b3 + suffix);
}

/// The identity read from a record has the record's bytes, so two
/// identities are equal exactly when their bytes are.
pub proof fn lemma_identity_of_bytes(s: Seq<u8>, off: int)
    requires
        0 <= off,
        off + 32 <= s.len(),
    ensures
        identity_at(s, off).bytes() == s.subrange(off, off + 32),
{
    lemma_auto_spec_u64_to_from_le_bytes();
    let id = identity_at(s, off);
    assert(word_bytes(id.w0) == s.subrange(off, off + 8));
    assert(word_bytes(id.w1) == s.subrange(off + 8, off + 16));
    assert(word_bytes(id.w2) == s.subrange(off + 16, off + 24));
    assert(word_bytes(id.w3) == s.subrange(off + 24, off + 32));
    assert(id.bytes() =~= s.subrange(off, off + 32));
}

} // verus!

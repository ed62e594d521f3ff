use vstd::prelude::*;
use vstd::slice::{slice_subrange, slice_to_vec};
use rand::RngCore;
use sha3::Digest;

verus! {

/// The SHA3-256 digest of a byte string. The digest of given bytes is the
/// same in every process and on every machine, so it can be named without
/// spelling out the algorithm.
pub uninterp spec fn sha3_256_of(data: Seq<u8>) -> Seq<u8>;

/// The Ed25519 public key determined by 32 bytes of private-key material;
/// a function of those bytes alone.
pub uninterp spec fn ed25519_public_key_of(sk: Seq<u8>) -> Seq<u8>;

/// Relies on sha3::Sha3_256 through the sha3::Digest trait: the digest is
/// 32 bytes and depends on the input bytes alone.
#[verifier::external_body]
fn sha3_256(data: &Vec<u8>) -> (r: Vec<u8>)
    ensures
        r@ == sha3_256_of(data@),
        r@.len() == 32,
{
    let mut hasher = sha3::Sha3_256::new();
    hasher.update(data.as_slice());
    hasher.finalize().to_vec()
}

/// Relies on rand::rngs::OsRng and rand::RngCore::fill_bytes: 32 bytes
/// from the operating system's cryptographically secure source. Nothing is
/// promised of their values; fill_bytes aborts the process if the system
/// cannot supply entropy at all.
#[verifier::external_body]
pub(crate) fn fresh_key_bytes() -> (r: Vec<u8>)
    ensures
        r@.len() == 32,
{
    let mut buf = [0u8; 32];
    rand::rngs::OsRng.fill_bytes(&mut buf);
    buf.to_vec()
}

/// Relies on ed25519_dalek::SigningKey::from_bytes and
/// ed25519_dalek::SigningKey::verifying_key: the public key is 32 bytes
/// and a function of the private-key bytes alone.
#[verifier::external_body]
pub fn ed25519_public_key(sk: &Vec<u8>) -> (r: Vec<u8>)
    requires
        sk@.len() == 32,
    ensures
        r@ == ed25519_public_key_of(sk@),
        r@.len() == 32,
{
    let mut arr = [0u8; 32];
    arr.copy_from_slice(sk.as_slice());
    let signing = ed25519_dalek::SigningKey::from_bytes(&arr);
    signing.verifying_key().to_bytes().to_vec()
}

/// The ASCII code of the lowercase hex digit for a value below 16.
pub open spec fn hex_digit(d: int) -> u8 {
    if d < 10 {
        (48 + d) as u8
    } else {
        (87 + d) as u8
    }
}

/// The lowercase hex rendering of a byte string as ASCII text bytes: two
/// digits per byte, high nibble first.
pub open spec fn spec_hex(s: Seq<u8>) -> Seq<u8>
    decreases s.len(),
{
    if s.len() == 0 {
        Seq::empty()
    } else {
        seq![hex_digit(s[0] as int / 16), hex_digit(s[0] as int % 16)] + spec_hex(s.skip(1))
    }
}

proof fn lemma_spec_hex_push(s: Seq<u8>, x: u8)
    ensures
        spec_hex(s.push(x)) == spec_hex(s) + seq![hex_digit(x as int / 16), hex_digit(x as int % 16)],
    decreases s.len(),
{
    if s.len() == 0 {
        assert(s.push(x)[0] == x);
        assert(s.push(x).skip(1) =~= Seq::<u8>::empty());
        assert(spec_hex(Seq::<u8>::empty()) == Seq::<u8>::empty());
        assert(spec_hex(s.push(x)) =~= spec_hex(s) + seq![
            hex_digit(x as int / 16),
            hex_digit(x as int % 16),
        ]);
    } else {
        assert(s.push(x)[0] == s[0]);
        assert(s.push(x).skip(1) =~= s.skip(1).push(x));
        lemma_spec_hex_push(s.skip(1), x);
        assert(spec_hex(s.push(x)) == seq![
            hex_digit(s[0] as int / 16),
            hex_digit(s[0] as int % 16),
        ] + spec_hex(s.skip(1).push(x)));
        assert(spec_hex(s.push(x)) =~= spec_hex(s) + seq![
            hex_digit(x as int / 16),
            hex_digit(x as int % 16),
        ]);
    }
}

proof fn lemma_spec_hex_len(s: Seq<u8>)
    ensures
        spec_hex(s).len() == 2 * s.len(),
    decreases s.len(),
{
    if s.len() > 0 {
        lemma_spec_hex_len(s.skip(1));
    }
}

fn hex_digit_of(d: u8) -> (r: u8)
    requires
        d < 16,
    ensures
        r == hex_digit(d as int),
{
    if d < 10 {
        48 + d
    } else {
        87 + d
    }
}

/// Renders bytes as lowercase hex text bytes, two digits per byte.
pub fn to_hex(data: &Vec<u8>) -> (r: Vec<u8>)
    ensures
        r@ == spec_hex(data@),
        r@.len() == 2 * data@.len(),
{
    let mut out: Vec<u8> = Vec::new();
    let mut i: usize = 0;
    while i < data.len()
        invariant
            i <= data.len(),
            out@ == spec_hex(data@.take(i as int)),
        decreases data.len() - i,
    {
        let b = data[i];
        out.push(hex_digit_of(b / 16));
        out.push(hex_digit_of(b % 16));
        proof {
            assert(data@.take(i + 1) =~= data@.take(i as int).push(data@[i as int]));
            lemma_spec_hex_push(data@.take(i as int), data@[i as int]);
            assert(out@ =~= spec_hex(data@.take(i as int)) + seq![
                hex_digit(data@[i as int] as int / 16),
                hex_digit(data@[i as int] as int % 16),
            ]);
        }
        i = i + 1;
    }
    proof {
        assert(data@.take(data@.len() as int) =~= data@);
        lemma_spec_hex_len(data@);
    }
    out
}

/// The on-network account address an Ed25519 public key determines: the
/// last 16 bytes of the SHA3-256 digest of the public key followed by the
/// single-byte Ed25519 scheme tag.
pub open spec fn spec_derive_address(pk: Seq<u8>) -> Seq<u8> {
    sha3_256_of(pk.push(0u8)).subrange(16, 32)
}

/// Derives the network address from a public key: a pure, total function
/// of the key bytes, with no failure path.
pub fn derive_address(public_key: &Vec<u8>) -> (r: Vec<u8>)
    ensures
        r@ == spec_derive_address(public_key@),
        r@.len() == 16,
{
    let mut input = slice_to_vec(public_key.as_slice());
    input.push(0u8);
    proof {
        assert(input@ =~= public_key@.push(0u8));
    }
    let digest = sha3_256(&input);
    slice_to_vec(slice_subrange(digest.as_slice(), 16, 32))
}

/// A private signing key, its public key, and the network address derived
/// from the public key.
pub struct Credential {
    pub private_key: Vec<u8>,
    pub public_key: Vec<u8>,
    pub address: Vec<u8>,
}

impl Credential {
    /// The fields cohere: the public key is the one the private key
    /// determines, and the address is the one derived from the public key.
    pub open spec fn wf(&self) -> bool {
        &&& self.private_key@.len() == 32
        &&& self.public_key@ == ed25519_public_key_of(self.private_key@)
        &&& self.public_key@.len() == 32
        &&& self.address@ == spec_derive_address(self.public_key@)
        &&& self.address@.len() == 16
    }

    /// Rebuilds the public key and address that `private_key` determines;
    /// persisting the private key alone therefore suffices to reconstruct
    /// the whole credential.
    pub fn from_private_key(private_key: Vec<u8>) -> (c: Credential)
        requires
            private_key@.len() == 32,
        ensures
            c.wf(),
            c.private_key@ == private_key@,
    {
        let public_key = ed25519_public_key(&private_key);
        let address = derive_address(&public_key);
        Credential { private_key, public_key, address }
    }

    /// Produces fresh key material from the system's secure randomness and
    /// derives its public key and address. Persistence is the caller's
    /// responsibility.
    pub fn generate() -> (c: Credential)
        ensures
            c.wf(),
    {
        Credential::from_private_key(fresh_key_bytes())
    }

    /// The address rendered as lowercase hex text bytes, exactly as the
    /// address file persists it.
    pub fn address_text(&self) -> (r: Vec<u8>)
        ensures
            r@ == spec_hex(self.address@),
            r@.len() == 2 * self.address@.len(),
    {
        to_hex(&self.address)
    }
}

/// Deriving an address is pure and deterministic: equal public keys yield
/// equal addresses, however many times the derivation runs.
pub proof fn lemma_derive_address_deterministic(pk1: Seq<u8>, pk2: Seq<u8>)
    requires
        pk1 == pk2,
    ensures
        spec_derive_address(pk1) == spec_derive_address(pk2),
{
}

} // verus!

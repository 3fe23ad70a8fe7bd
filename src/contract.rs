//! Self-certifying contract identity: a contract's key is derived from its
//! code and parameters, so a peer can check that what it received is what it
//! asked for.
use blake2::Digest;
use vstd::prelude::*;
use crate::bytes::{
    copy_range, le_bytes, le_value, lemma_le_bytes_len, lemma_le_round_trip,
    lemma_le_value_bound, lemma_radix_pow_values, read_le, write_le,
};
use crate::interface::Parameters;

verus! {

/// Size in bytes of every key and code hash.
pub const CONTRACT_KEY_SIZE: usize = 64;

/// The 64-byte BLAKE2b digest of a byte string.
pub uninterp spec fn blake2b512_of(data: Seq<u8>) -> Seq<u8>;

/// Relies on blake2::Blake2b512 (through digest::Digest::digest): the
/// BLAKE2b-512 digest of the input, which depends on the input alone.
#[verifier::external_body]
fn blake2b512(data: &[u8]) -> (r: [u8; 64])
    ensures
        r@ == blake2b512_of(data@),
{
    let digest = blake2::Blake2b512::digest(data);
    let mut out = [0u8; 64];
    out.copy_from_slice(&digest);
    out
}

/// The lowercase hexadecimal digit for a value below sixteen.
pub open spec fn hex_digit(n: int) -> char {
    if n < 10 {
        (n + 48) as char
    } else {
        (n + 87) as char
    }
}

/// Two lowercase hexadecimal digits per byte, high nibble first.
pub open spec fn hex_text(b: Seq<u8>) -> Seq<char> {
    Seq::new(
        2 * b.len(),
        |i: int|
            if i % 2 == 0 {
                hex_digit(b[i / 2] as int / 16)
            } else {
                hex_digit(b[i / 2] as int % 16)
            },
    )
}

/// Value of an ASCII hexadecimal digit of either case.
pub open spec fn hex_value(c: u8) -> Option<u8> {
    if 48 <= c <= 57 {
        Some((c - 48) as u8)
    } else if 65 <= c <= 70 {
        Some((c - 55) as u8)
    } else if 97 <= c <= 102 {
        Some((c - 87) as u8)
    } else {
        None
    }
}

/// The bytes that an even-length run of hexadecimal digits spells.
pub open spec fn hex_bytes(s: Seq<u8>) -> Seq<u8> {
    Seq::new(
        s.len() / 2,
        |i: int| (hex_value(s[2 * i])->0 * 16 + hex_value(s[2 * i + 1])->0) as u8,
    )
}

/// Why a hexadecimal key text was refused.
#[derive(Debug, Clone, Copy, PartialEq, Eq, Structural)]
pub enum HexError {
    InvalidHexCharacter { c: char, index: usize },
    OddLength,
    InvalidStringLength,
}

/// What decoding `s` into `n` bytes gives.
pub open spec fn hex_decode_result(s: Seq<u8>, n: int) -> Result<Seq<u8>, HexError> {
    if s.len() % 2 != 0 {
        Err(HexError::OddLength)
    } else if s.len() / 2 != n {
        Err(HexError::InvalidStringLength)
    } else if exists|i: int| 0 <= i < s.len() && hex_value(s[i]) is None {
        let i = choose|i: int|
            0 <= i < s.len() && hex_value(s[i]) is None && forall|j: int|
                0 <= j < i ==> hex_value(#[trigger] s[j]) is Some;
        Err(HexError::InvalidHexCharacter { c: s[i] as char, index: i as usize })
    } else {
        Ok(hex_bytes(s))
    }
}

/// Relies on hex::encode: two lowercase digits for each byte, high nibble first.
#[verifier::external_body]
fn hex_encode_bytes(b: &[u8]) -> (r: String)
    ensures
        r@ == hex_text(b@),
{
    hex::encode(b)
}

/// Relies on hex::decode_to_slice into 64 bytes: odd length first, then a
/// length other than 128 digits, then the first character that is no digit.
#[verifier::external_body]
fn hex_decode_64(s: &[u8]) -> (r: Result<[u8; 64], HexError>)
    ensures
        match hex_decode_result(s@, 64) {
            Ok(b) => r matches Ok(out) && out@ == b,
            Err(e) => r == Err::<[u8; 64], HexError>(e),
        },
{
    let mut out = [0u8; 64];
    match hex::decode_to_slice(s, &mut out) {
        Ok(()) => Ok(out),
        Err(hex::FromHexError::InvalidHexCharacter { c, index }) => Err(
            HexError::InvalidHexCharacter { c, index },
        ),
        Err(hex::FromHexError::OddLength) => Err(HexError::OddLength),
        Err(hex::FromHexError::InvalidStringLength) => Err(HexError::InvalidStringLength),
    }
}

/// Key of a contract instance: the digest of the code hash followed by the
/// parameters.
pub open spec fn spec_key_of(code_hash: Seq<u8>, params: Seq<u8>) -> Seq<u8> {
    blake2b512_of(code_hash + params)
}

/// Keys are derived from code and parameters alone: the same bytes give the
/// same key, on any peer.
pub proof fn lemma_key_derivation_deterministic(
    code1: Seq<u8>,
    params1: Seq<u8>,
    code2: Seq<u8>,
    params2: Seq<u8>,
)
    requires
        code1 == code2,
        params1 == params2,
    ensures
        blake2b512_of(code1) == blake2b512_of(code2),
        spec_key_of(blake2b512_of(code1), params1) == spec_key_of(blake2b512_of(code2), params2),
{
}

/// The executable part of a contract, with the hash of its code.
#[derive(Debug, Clone)]
pub struct ContractData {
    data: Vec<u8>,
    key: [u8; 64],
}

impl ContractData {
    /// The contract's code.
    pub closed spec fn code(&self) -> Seq<u8> {
        self.data@
    }

    /// The stored hash of the code.
    pub closed spec fn code_hash(&self) -> Seq<u8> {
        self.key@
    }

    /// The stored hash is the digest of the code.
    pub closed spec fn wf(&self) -> bool {
        self.key@ == blake2b512_of(self.data@)
    }

    pub fn key(&self) -> (r: &[u8; 64])
        ensures
            r@ == self.code_hash(),
    {
        &self.key
    }

    pub fn data(&self) -> (r: &[u8])
        ensures
            r@ == self.code(),
    {
        self.data.as_slice()
    }

    pub fn into_data(self) -> (r: Vec<u8>)
        ensures
            r@ == self.code(),
    {
        self.data
    }

    fn gen_key(data: &[u8]) -> (r: [u8; 64])
        ensures
            r@ == blake2b512_of(data@),
    {
        blake2b512(data)
    }

    pub fn from(data: Vec<u8>) -> (r: ContractData)
        ensures
            r.wf(),
            r.code() == data@,
            r.code_hash() == blake2b512_of(data@),
    {
        let key = ContractData::gen_key(data.as_slice());
        ContractData { data, key }
    }

    /// Two contracts are the same when their code hashes are.
    pub fn eq(&self, other: &ContractData) -> (r: bool)
        ensures
            r == (self.code_hash() == other.code_hash()),
    {
        arrays_equal(&self.key, &other.key)
    }
}

/// Byte-wise comparison of two keys.
pub fn arrays_equal(a: &[u8; 64], b: &[u8; 64]) -> (r: bool)
    ensures
        r == (a@ == b@),
{
    let mut i: usize = 0;
    while i < 64
        invariant
            i <= 64,
            a@.len() == 64,
            b@.len() == 64,
            forall|j: int| 0 <= j < i ==> a@[j] == b@[j],
        decreases 64 - i,
    {
        if a[i] != b[i] {
            return false;
        }
        i = i + 1;
    }
    assert(a@ =~= b@);
    true
}


/// Copies `src` onto the end of `dst`.
pub fn append_bytes(dst: &mut Vec<u8>, src: &[u8])
    ensures
        final(dst)@ == old(dst)@ + src@,
{
    let mut i: usize = 0;
    while i < src.len()
        invariant
            i <= src@.len(),
            dst@ == old(dst)@ + src@.subrange(0, i as int),
        decreases src@.len() - i,
    {
        dst.push(src[i]);
        i = i + 1;
        assert(src@.subrange(0, i as int) =~= src@.subrange(0, i - 1) + seq![src@[i - 1]]);
    }
    assert(src@.subrange(0, i as int) =~= src@);
}

/// Digest of a code hash followed by parameters.
fn key_digest(code_hash: &[u8; 64], params: &[u8]) -> (r: [u8; 64])
    ensures
        r@ == spec_key_of(code_hash@, params@),
{
    let mut buf: Vec<u8> = Vec::new();
    append_bytes(&mut buf, code_hash.as_slice());
    append_bytes(&mut buf, params);
    blake2b512(buf.as_slice())
}

/// The key of a contract instance: the digest that names the instance, and
/// the hash of its code alone.
#[derive(Debug, Clone, Copy, PartialEq, Eq, Hash)]
pub struct ContractKey {
    spec: [u8; 64],
    contract: [u8; 64],
}

impl ContractKey {
    /// The digest that names the instance.
    pub closed spec fn spec_bytes(&self) -> Seq<u8> {
        self.spec@
    }

    /// The hash of the code alone.
    pub closed spec fn contract_bytes(&self) -> Seq<u8> {
        self.contract@
    }

    /// Derives the key of `contract` instantiated with `parameters`.
    pub fn from_parts(parameters: &Parameters, contract: &ContractData) -> (r: ContractKey)
        requires
            contract.wf(),
        ensures
            r.contract_bytes() == blake2b512_of(contract.code()),
            r.spec_bytes() == spec_key_of(blake2b512_of(contract.code()), parameters@),
    {
        let contract_hash = contract.key();
        let spec = key_digest(contract_hash, parameters.as_ref());
        ContractKey { spec, contract: *contract_hash }
    }

    /// Derives the key straight from code and parameter bytes.
    pub fn derive(code: &[u8], parameters: &[u8]) -> (r: ContractKey)
        ensures
            r.contract_bytes() == blake2b512_of(code@),
            r.spec_bytes() == spec_key_of(blake2b512_of(code@), parameters@),
    {
        let contract = blake2b512(code);
        let spec = key_digest(&contract, parameters);
        ContractKey { spec, contract }
    }

    /// The whole key digest.
    pub fn bytes(&self) -> (r: &[u8])
        ensures
            r@ == self.spec_bytes(),
            r@.len() == CONTRACT_KEY_SIZE,
    {
        self.spec.as_slice()
    }

    /// The hash of the code alone.
    pub fn contract_part(&self) -> (r: &[u8; 64])
        ensures
            r@ == self.contract_bytes(),
    {
        &self.contract
    }

    /// Rebuilds a key from the hexadecimal code hash and the parameters.
    pub fn hex_decode(encoded_contract: &[u8], parameters: &Parameters) -> (r: Result<
        ContractKey,
        HexError,
    >)
        ensures
            match hex_decode_result(encoded_contract@, 64) {
                Ok(hash) => r matches Ok(k) && k.contract_bytes() == hash && k.spec_bytes()
                    == spec_key_of(hash, parameters@),
                Err(e) => r == Err::<ContractKey, HexError>(e),
            },
    {
        let contract = hex_decode_64(encoded_contract)?;
        let spec = key_digest(&contract, parameters.as_ref());
        Ok(ContractKey { spec, contract })
    }

    /// The key digest as lowercase hexadecimal.
    pub fn hex_encode(&self) -> (r: String)
        ensures
            r@ == hex_text(self.spec_bytes()),
    {
        hex_encode_bytes(self.spec.as_slice())
    }

    /// Equality of both parts.
    pub fn same_as(&self, other: &ContractKey) -> (r: bool)
        ensures
            r == (self.spec_bytes() == other.spec_bytes() && self.contract_bytes()
                == other.contract_bytes()),
    {
        arrays_equal(&self.spec, &other.spec) && arrays_equal(&self.contract, &other.contract)
    }
}


/// Parameters and code read from a specification blob: a 64-bit length,
/// the parameters, a 64-bit length, the code. Bytes after the code are not
/// read.
pub open spec fn parse_envelope(s: Seq<u8>) -> Option<(Seq<u8>, Seq<u8>)> {
    if s.len() < 8 {
        None
    } else {
        let pl = le_value(s.subrange(0, 8)) as int;
        if s.len() < 16 + pl {
            None
        } else {
            let cl = le_value(s.subrange(8 + pl, 16 + pl)) as int;
            if s.len() < 16 + pl + cl {
                None
            } else {
                Some((s.subrange(8, 8 + pl), s.subrange(16 + pl, 16 + pl + cl)))
            }
        }
    }
}

/// The blob that carries `params` and `code`.
pub open spec fn envelope(params: Seq<u8>, code: Seq<u8>) -> Seq<u8> {
    le_bytes(params.len(), 8) + params + le_bytes(code.len(), 8) + code
}

/// Reading back a written blob gives its parameters and code.
pub proof fn lemma_envelope_round_trip(params: Seq<u8>, code: Seq<u8>)
    requires
        params.len() < 0x1_0000_0000_0000_0000,
        code.len() < 0x1_0000_0000_0000_0000,
    ensures
        parse_envelope(envelope(params, code)) == Some((params, code)),
{
    lemma_radix_pow_values();
    lemma_le_round_trip(params.len(), 8);
    lemma_le_round_trip(code.len(), 8);
    let s = envelope(params, code);
    let pl = params.len() as int;
    assert(s.subrange(0, 8) =~= le_bytes(params.len(), 8));
    assert(s.subrange(8, 8 + pl) =~= params);
    assert(s.subrange(8 + pl, 16 + pl) =~= le_bytes(code.len(), 8));
    assert(s.subrange(16 + pl, 16 + pl + code.len()) =~= code);
}

/// Why a specification blob was refused.
#[derive(Debug, Clone, Copy, PartialEq, Eq, Structural)]
pub enum EnvelopeError {
    /// The blob ends before a length or the bytes it announces.
    UnexpectedEof,
    /// The blob's code and parameters derive another key than the one
    /// asked for.
    KeyMismatch,
}

/// A contract with its parameters and the key they derive.
#[derive(Debug, Clone)]
pub struct ContractSpecification {
    parameters: Parameters,
    contract: ContractData,
    key: ContractKey,
}

impl ContractSpecification {
    pub closed spec fn params(&self) -> Seq<u8> {
        self.parameters@
    }

    pub closed spec fn code(&self) -> Seq<u8> {
        self.contract.code()
    }

    pub closed spec fn key_spec_bytes(&self) -> Seq<u8> {
        self.key.spec_bytes()
    }

    pub closed spec fn key_contract_bytes(&self) -> Seq<u8> {
        self.key.contract_bytes()
    }

    /// The stored hashes and key are those derived from code and parameters.
    pub closed spec fn wf(&self) -> bool {
        &&& self.contract.wf()
        &&& self.key.contract_bytes() == blake2b512_of(self.contract.code())
        &&& self.key.spec_bytes() == spec_key_of(
            blake2b512_of(self.contract.code()),
            self.parameters@,
        )
    }

    pub fn new(contract: ContractData, parameters: Parameters) -> (r: ContractSpecification)
        requires
            contract.wf(),
        ensures
            r.wf(),
            r.code() == contract.code(),
            r.params() == parameters@,
    {
        let key = ContractKey::from_parts(&parameters, &contract);
        ContractSpecification { parameters, contract, key }
    }

    pub fn key(&self) -> (r: &ContractKey)
        requires
            self.wf(),
        ensures
            r.contract_bytes() == blake2b512_of(self.code()),
            r.spec_bytes() == spec_key_of(blake2b512_of(self.code()), self.params()),
    {
        &self.key
    }

    /// Data portion of the specification.
    pub fn data(&self) -> (r: &ContractData)
        requires
            self.wf(),
        ensures
            r.wf(),
            r.code() == self.code(),
    {
        &self.contract
    }

    /// Parameters portion of the specification.
    pub fn parameters(&self) -> (r: &Parameters)
        ensures
            r@ == self.params(),
    {
        &self.parameters
    }

    /// Reads a specification blob and derives its key.
    pub fn try_from(data: Vec<u8>) -> (r: Result<ContractSpecification, EnvelopeError>)
        ensures
            match parse_envelope(data@) {
                Some((p, c)) => r matches Ok(spec) && spec.wf() && spec.params() == p
                    && spec.code() == c,
                None => r == Err::<ContractSpecification, EnvelopeError>(
                    EnvelopeError::UnexpectedEof,
                ),
            },
    {
        let buf = data.as_slice();
        let len = buf.len();
        if len < 8 {
            return Err(EnvelopeError::UnexpectedEof);
        }
        let params_len = read_le(buf, 0, 8);
        if len < 16 || ((len - 16) as u64) < params_len {
            return Err(EnvelopeError::UnexpectedEof);
        }
        let params_end = 8 + params_len as usize;
        let parameters = Parameters(copy_range(buf, 8, params_end));
        let code_len = read_le(buf, params_end, 8);
        let code_start = params_end + 8;
        if ((len - code_start) as u64) < code_len {
            return Err(EnvelopeError::UnexpectedEof);
        }
        let code_end = code_start + code_len as usize;
        let contract = ContractData::from(copy_range(buf, code_start, code_end));
        Ok(ContractSpecification::new(contract, parameters))
    }

    /// Reads a specification blob and accepts it only if it derives `expected`.
    pub fn try_from_checked(data: Vec<u8>, expected: &ContractKey) -> (r: Result<
        ContractSpecification,
        EnvelopeError,
    >)
        ensures
            match parse_envelope(data@) {
                Some((p, c)) => {
                    if expected.contract_bytes() == blake2b512_of(c) && expected.spec_bytes()
                        == spec_key_of(blake2b512_of(c), p) {
                        r matches Ok(spec) && spec.wf() && spec.params() == p && spec.code() == c
                    } else {
                        r == Err::<ContractSpecification, EnvelopeError>(
                            EnvelopeError::KeyMismatch,
                        )
                    }
                },
                None => r == Err::<ContractSpecification, EnvelopeError>(
                    EnvelopeError::UnexpectedEof,
                ),
            },
    {
        let spec = ContractSpecification::try_from(data)?;
        if spec.key.same_as(expected) {
            Ok(spec)
        } else {
            Err(EnvelopeError::KeyMismatch)
        }
    }

    /// The blob that carries this specification.
    pub fn to_envelope(&self) -> (r: Vec<u8>)
        ensures
            r@ == envelope(self.params(), self.code()),
    {
        let mut out: Vec<u8> = Vec::new();
        let p = self.parameters.as_ref();
        let c = self.contract.data();
        write_le(&mut out, p.len() as u64, 8);
        crate::contract::append_bytes(&mut out, p);
        write_le(&mut out, c.len() as u64, 8);
        crate::contract::append_bytes(&mut out, c);
        out
    }
}

impl PartialEq for ContractSpecification {
    /// Specifications are equal when their keys are.
    fn eq(&self, other: &ContractSpecification) -> (r: bool) {
        self.key.same_as(&other.key)
    }
}

impl vstd::std_specs::cmp::PartialEqSpecImpl for ContractSpecification {
    open spec fn obeys_eq_spec() -> bool {
        true
    }

    open spec fn eq_spec(&self, other: &ContractSpecification) -> bool {
        self.key_spec_bytes() == other.key_spec_bytes() && self.key_contract_bytes()
            == other.key_contract_bytes()
    }
}

} // verus!

use vstd::prelude::*;

verus! {

use vstd::arithmetic::power2::{lemma2_to64, lemma_pow2_strictly_increases, pow2};
use vstd::bits::lemma_u64_shl_is_mul;
use vstd::bytes::{lemma_auto_spec_u32_to_from_le_bytes, spec_u32_from_le_bytes,
    spec_u32_to_le_bytes, u32_from_le_bytes, u32_to_le_bytes};
use vstd::slice::{slice_subrange, slice_to_vec};

use crate::error::InnerEZKLError;
use crate::graph::{CompiledCircuit, GraphSettings};
use crate::json::push_bytes;
use crate::scheme::CommitmentScheme;
use vstd::string::*;

// ---------------------------------------------------------------------------
// Structured reference string parameters
// ---------------------------------------------------------------------------
/// Scheme-specific structured-reference-string material, deserialized from a
/// raw byte buffer: the capacity exponent `k`, two point sections of
/// `32 * 2^k` bytes each, and a scheme-fixed trailer.
#[derive(Clone, Debug)]
pub struct ProverParams {
    pub scheme: CommitmentScheme,
    pub k: u32,
    pub g: Vec<u8>,
    pub g_aux: Vec<u8>,
    pub tail: Vec<u8>,
}

/// The row count `2^k`.
pub open spec fn rows(k: u32) -> nat {
    pow2(k as nat)
}

/// Byte length of one point section at capacity `k`.
pub open spec fn point_section(k: u32) -> nat {
    32 * rows(k)
}

/// Byte length of the scheme-fixed trailer: a pair of second-group points for
/// KZG, a pair of extra first-group points for IPA.
pub open spec fn tail_len(s: CommitmentScheme) -> nat {
    match s {
        CommitmentScheme::KZG => 128,
        CommitmentScheme::IPA => 64,
    }
}

pub open spec fn wf_params(p: ProverParams) -> bool {
    &&& p.k < 32
    &&& p.g@.len() == point_section(p.k)
    &&& p.g_aux@.len() == point_section(p.k)
    &&& p.tail@.len() == tail_len(p.scheme)
}

/// The raw byte layout of parameters: a 4-byte little-endian `k`, the two
/// point sections, the trailer.
pub open spec fn params_bytes(p: ProverParams) -> Seq<u8> {
    spec_u32_to_le_bytes(p.k) + p.g@ + p.g_aux@ + p.tail@
}

/// The capacity exponent recorded in an SRS buffer.
pub open spec fn srs_k(b: Seq<u8>) -> u32
    recommends
        b.len() >= 4,
{
    spec_u32_from_le_bytes(b.subrange(0, 4))
}

/// A recognizable SRS buffer for the given scheme: the recorded capacity is
/// in range and the buffer holds exactly the two sections and the trailer.
pub open spec fn wf_srs(s: CommitmentScheme, b: Seq<u8>) -> bool {
    &&& b.len() >= 4
    &&& srs_k(b) < 32
    &&& b.len() == 4 + 2 * point_section(srs_k(b)) + tail_len(s)
}

/// Exact result of decoding a well-formed SRS at `logrows`: the first
/// `2^logrows` points of each section, the trailer unchanged.
pub open spec fn is_downsized(p: ProverParams, s: CommitmentScheme, b: Seq<u8>, logrows: u32) -> bool
    recommends
        wf_srs(s, b),
        logrows <= srs_k(b),
{
    let k = srs_k(b);
    &&& p.scheme == s
    &&& p.k == logrows
    &&& p.g@ == b.subrange(4, 4 + point_section(logrows) as int)
    &&& p.g_aux@ == b.subrange(
        4 + point_section(k) as int,
        4 + point_section(k) + point_section(logrows) as int,
    )
    &&& p.tail@ == b.subrange(4 + 2 * point_section(k) as int, b.len() as int)
}

/// `2^k` rows fit comfortably below `u64` bounds for every in-range `k`.
proof fn lemma_rows_bounds(k: u32)
    requires
        k < 32,
    ensures
        rows(k) == 1u64 << k,
        rows(k) <= 0x8000_0000,
        32 * rows(k) <= 0x10_0000_0000,
{
    lemma2_to64();
    if k < 31 {
        lemma_pow2_strictly_increases(k as nat, 31);
    }
    lemma_u64_shl_is_mul(1u64, k as u64);
}

/// Deserializes prover parameters from an optional SRS buffer, downsizing to
/// `logrows` rows. Absent or empty input is refused as missing; an
/// unrecognizable layout is refused as a decode failure; a capacity below
/// `logrows` is refused as insufficient, never reinterpreted upward.
pub fn deserialize_params_prover(
    scheme: CommitmentScheme,
    serialized_srs: Option<&Vec<u8>>,
    logrows: u32,
) -> (r: Result<ProverParams, InnerEZKLError>)
    ensures
        match serialized_srs {
            Option::None => r matches Err(e) && e matches InnerEZKLError::MissingInput(_),
            Option::Some(b) => {
                if b@.len() == 0 {
                    r matches Err(e) && e matches InnerEZKLError::MissingInput(_)
                } else if !wf_srs(scheme, b@) {
                    r matches Err(e) && e matches InnerEZKLError::DecodeError(_)
                } else if srs_k(b@) < logrows {
                    r == Err::<ProverParams, InnerEZKLError>(
                        InnerEZKLError::InsufficientCapacity { k: srs_k(b@), logrows },
                    )
                } else {
                    r matches Ok(p) && is_downsized(p, scheme, b@, logrows) && wf_params(p)
                }
            },
        },
{
    let b = match serialized_srs {
        Option::Some(b) => b,
        Option::None => {
            return Err(InnerEZKLError::MissingInput(String::from_str("SRS must be provided")));
        },
    };
    if b.len() == 0 {
        return Err(InnerEZKLError::MissingInput(String::from_str("SRS must be provided")));
    }
    if b.len() < 4 {
        return Err(
            InnerEZKLError::DecodeError(String::from_str("unrecognized SRS byte layout")),
        );
    }
    let header = slice_subrange(b.as_slice(), 0, 4);
    let k = u32_from_le_bytes(header);
    if k >= 32 {
        return Err(
            InnerEZKLError::DecodeError(String::from_str("unrecognized SRS byte layout")),
        );
    }
    proof {
        lemma_rows_bounds(k);
    }
    let rows64: u64 = 1u64 << k;
    let section64: u64 = 32 * rows64;
    let trailer: u64 = match scheme {
        CommitmentScheme::KZG => 128,
        CommitmentScheme::IPA => 64,
    };
    let expected: u64 = 4 + 2 * section64 + trailer;
    if (b.len() as u64) != expected {
        return Err(
            InnerEZKLError::DecodeError(String::from_str("unrecognized SRS byte layout")),
        );
    }
    if k < logrows {
        return Err(InnerEZKLError::InsufficientCapacity { k, logrows });
    }
    proof {
        lemma_rows_bounds(logrows);
        if logrows < k {
            lemma_pow2_strictly_increases(logrows as nat, k as nat);
        }
    }
    let keep64: u64 = 32 * (1u64 << logrows);
    let keep = keep64 as usize;
    let section = section64 as usize;
    let g = slice_to_vec(slice_subrange(b.as_slice(), 4, 4 + keep));
    let g_aux = slice_to_vec(slice_subrange(b.as_slice(), 4 + section, 4 + section + keep));
    let tail = slice_to_vec(slice_subrange(b.as_slice(), 4 + 2 * section, b.len()));
    Ok(ProverParams { scheme, k: logrows, g, g_aux, tail })
}

/// Deserializes verifier parameters: the verifier side reads the same raw
/// byte format and applies the same truncation rule as the prover side.
pub fn deserialize_params_verifier(
    scheme: CommitmentScheme,
    serialized_srs: Option<&Vec<u8>>,
    logrows: u32,
) -> (r: Result<ProverParams, InnerEZKLError>)
    ensures
        match serialized_srs {
            Option::None => r matches Err(e) && e matches InnerEZKLError::MissingInput(_),
            Option::Some(b) => {
                if b@.len() == 0 {
                    r matches Err(e) && e matches InnerEZKLError::MissingInput(_)
                } else if !wf_srs(scheme, b@) {
                    r matches Err(e) && e matches InnerEZKLError::DecodeError(_)
                } else if srs_k(b@) < logrows {
                    r == Err::<ProverParams, InnerEZKLError>(
                        InnerEZKLError::InsufficientCapacity { k: srs_k(b@), logrows },
                    )
                } else {
                    r matches Ok(p) && is_downsized(p, scheme, b@, logrows) && wf_params(p)
                }
            },
        },
{
    deserialize_params_prover(scheme, serialized_srs, logrows)
}

/// Serializes parameters back to the raw byte layout.
pub fn serialize_params(p: &ProverParams) -> (r: Vec<u8>)
    ensures
        r@ == params_bytes(*p),
{
    let mut out: Vec<u8> = u32_to_le_bytes(p.k);
    push_bytes(&mut out, &p.g);
    push_bytes(&mut out, &p.g_aux);
    push_bytes(&mut out, &p.tail);
    proof {
        assert(out@ =~= params_bytes(*p));
    }
    out
}

/// Encoding parameters and decoding them at their own capacity is the
/// identity, and decoding at a smaller capacity truncates each section.
pub proof fn lemma_params_round_trip(p: ProverParams)
    requires
        wf_params(p),
    ensures
        wf_srs(p.scheme, params_bytes(p)),
        srs_k(params_bytes(p)) == p.k,
        is_downsized(p, p.scheme, params_bytes(p), p.k),
{
    let b = params_bytes(p);
    lemma_auto_spec_u32_to_from_le_bytes();
    assert(b.subrange(0, 4) =~= spec_u32_to_le_bytes(p.k));
    assert(srs_k(b) == p.k);
    assert(b.subrange(4, 4 + point_section(p.k) as int) =~= p.g@);
    assert(b.subrange(
        4 + point_section(p.k) as int,
        4 + point_section(p.k) + point_section(p.k) as int,
    ) =~= p.g_aux@);
    assert(b.subrange(4 + 2 * point_section(p.k) as int, b.len() as int) =~= p.tail@);
}

// ---------------------------------------------------------------------------
// Verifying and proving keys
// ---------------------------------------------------------------------------
/// A deserialized verifying key: the shape it was produced for and its
/// opaque cryptographic payload.
#[derive(Clone, Debug)]
pub struct VerifyingKey {
    pub k: u32,
    pub scheme: CommitmentScheme,
    pub body: Vec<u8>,
}

/// A deserialized proving key: same recorded shape, prover-side payload.
#[derive(Clone, Debug)]
pub struct ProvingKey {
    pub k: u32,
    pub scheme: CommitmentScheme,
    pub body: Vec<u8>,
}

pub open spec fn scheme_tag(s: CommitmentScheme) -> u8 {
    match s {
        CommitmentScheme::KZG => 0,
        CommitmentScheme::IPA => 1,
    }
}

/// The raw key layout: recorded capacity, scheme tag, payload length,
/// payload.
pub open spec fn key_bytes_of(k: u32, s: CommitmentScheme, body: Seq<u8>) -> Seq<u8> {
    spec_u32_to_le_bytes(k) + seq![scheme_tag(s)] + spec_u32_to_le_bytes(body.len() as u32)
        + body
}

pub open spec fn key_k(b: Seq<u8>) -> u32
    recommends
        b.len() >= 9,
{
    spec_u32_from_le_bytes(b.subrange(0, 4))
}

pub open spec fn key_scheme_ok(b: Seq<u8>) -> bool
    recommends
        b.len() >= 9,
{
    b[4] == 0 || b[4] == 1
}

pub open spec fn key_scheme(b: Seq<u8>) -> CommitmentScheme
    recommends
        b.len() >= 9,
{
    if b[4] == 0 {
        CommitmentScheme::KZG
    } else {
        CommitmentScheme::IPA
    }
}

pub open spec fn key_body(b: Seq<u8>) -> Seq<u8>
    recommends
        b.len() >= 9,
{
    b.subrange(9, b.len() as int)
}

/// A recognizable key buffer: a known scheme tag and a payload of exactly
/// the recorded length.
pub open spec fn wf_key(b: Seq<u8>) -> bool {
    &&& b.len() >= 9
    &&& key_scheme_ok(b)
    &&& b.len() == 9 + spec_u32_from_le_bytes(b.subrange(5, 9))
}

/// Shared scan of the raw key layout against the circuit shape it must have
/// been produced for: a corrupt layout is a decode failure, recorded
/// dimensions that disagree with the shape are a shape mismatch.
fn scan_key(serialised: &Vec<u8>, shape: &GraphSettings) -> (r: Result<
    (u32, CommitmentScheme, Vec<u8>),
    InnerEZKLError,
>)
    ensures
        match r {
            Ok((k, s, body)) => wf_key(serialised@) && k == key_k(serialised@) && s == key_scheme(
                serialised@,
            ) && body@ == key_body(serialised@) && k == shape.logrows && s == shape.commitment,
            Err(e) => {
                if !wf_key(serialised@) {
                    e matches InnerEZKLError::DecodeError(_)
                } else if key_k(serialised@) != shape.logrows || key_scheme(serialised@)
                    != shape.commitment {
                    e matches InnerEZKLError::ShapeMismatch(_)
                } else {
                    false
                }
            },
        },
{
    let b = serialised;
    if b.len() < 9 {
        return Err(InnerEZKLError::DecodeError(String::from_str("truncated key")));
    }
    let header = slice_subrange(b.as_slice(), 0, 4);
    let k = u32_from_le_bytes(header);
    let tag = b[4];
    if !(tag == 0 || tag == 1) {
        return Err(InnerEZKLError::DecodeError(String::from_str("unrecognized key layout")));
    }
    let s = if tag == 0 {
        CommitmentScheme::KZG
    } else {
        CommitmentScheme::IPA
    };
    let lenfield = slice_subrange(b.as_slice(), 5, 9);
    let body_len = u32_from_le_bytes(lenfield);
    if (b.len() as u64) != 9 + (body_len as u64) {
        return Err(InnerEZKLError::DecodeError(String::from_str("unrecognized key layout")));
    }
    if k != shape.logrows || !scheme_eq(s, shape.commitment) {
        return Err(
            InnerEZKLError::ShapeMismatch(
                String::from_str("key dimensions disagree with circuit shape"),
            ),
        );
    }
    let body = slice_to_vec(slice_subrange(b.as_slice(), 9, b.len()));
    Ok((k, s, body))
}

fn scheme_eq(a: CommitmentScheme, b: CommitmentScheme) -> (r: bool)
    ensures
        r == (a == b),
{
    match (a, b) {
        (CommitmentScheme::KZG, CommitmentScheme::KZG) => true,
        (CommitmentScheme::IPA, CommitmentScheme::IPA) => true,
        _ => false,
    }
}

/// Deserializes a verifying key against the circuit shape it must match.
pub fn deserialize_vk(serialised_vk: &Vec<u8>, shape: &GraphSettings) -> (r: Result<
    VerifyingKey,
    InnerEZKLError,
>)
    ensures
        match r {
            Ok(vk) => wf_key(serialised_vk@) && vk.k == shape.logrows && vk.scheme
                == shape.commitment && vk.body@ == key_body(serialised_vk@) && serialised_vk@
                == key_bytes_of(vk.k, vk.scheme, vk.body@),
            Err(e) => {
                if !wf_key(serialised_vk@) {
                    e matches InnerEZKLError::DecodeError(_)
                } else if key_k(serialised_vk@) != shape.logrows || key_scheme(serialised_vk@)
                    != shape.commitment {
                    e matches InnerEZKLError::ShapeMismatch(_)
                } else {
                    false
                }
            },
        },
{
    match scan_key(serialised_vk, shape) {
        Ok((k, s, body)) => {
            proof {
                lemma_key_bytes_id(serialised_vk@);
            }
            Ok(VerifyingKey { k, scheme: s, body })
        },
        Err(e) => Err(e),
    }
}

/// Deserializes a proving key against the circuit shape it must match.
pub fn deserialize_pk(serialised_pk: &Vec<u8>, shape: &GraphSettings) -> (r: Result<
    ProvingKey,
    InnerEZKLError,
>)
    ensures
        match r {
            Ok(pk) => wf_key(serialised_pk@) && pk.k == shape.logrows && pk.scheme
                == shape.commitment && pk.body@ == key_body(serialised_pk@) && serialised_pk@
                == key_bytes_of(pk.k, pk.scheme, pk.body@),
            Err(e) => {
                if !wf_key(serialised_pk@) {
                    e matches InnerEZKLError::DecodeError(_)
                } else if key_k(serialised_pk@) != shape.logrows || key_scheme(serialised_pk@)
                    != shape.commitment {
                    e matches InnerEZKLError::ShapeMismatch(_)
                } else {
                    false
                }
            },
        },
{
    match scan_key(serialised_pk, shape) {
        Ok((k, s, body)) => {
            proof {
                lemma_key_bytes_id(serialised_pk@);
            }
            Ok(ProvingKey { k, scheme: s, body })
        },
        Err(e) => Err(e),
    }
}

/// A well-formed key buffer is exactly the layout rebuilt from what it
/// records.
pub proof fn lemma_key_bytes_id(b: Seq<u8>)
    requires
        wf_key(b),
    ensures
        b == key_bytes_of(key_k(b), key_scheme(b), key_body(b)),
{
    lemma_auto_spec_u32_to_from_le_bytes();
    let rebuilt = key_bytes_of(key_k(b), key_scheme(b), key_body(b));
    assert(spec_u32_to_le_bytes(key_k(b)) == b.subrange(0, 4));
    assert(spec_u32_to_le_bytes(spec_u32_from_le_bytes(b.subrange(5, 9))) == b.subrange(5, 9));
    assert(key_body(b).len() as u32 == spec_u32_from_le_bytes(b.subrange(5, 9))) by {
        assert(key_body(b).len() == b.len() - 9);
    }
    assert(b =~= rebuilt) by {
        assert forall|i: int| 0 <= i < b.len() implies b[i] == #[trigger] rebuilt[i] by {
            if i < 4 {
                assert(b[i] == b.subrange(0, 4)[i]);
            } else if i == 4 {
                assert(seq![scheme_tag(key_scheme(b))][0] == b[4]);
            } else if i < 9 {
                assert(b[i] == b.subrange(5, 9)[i - 5]);
            } else {
                assert(key_body(b)[i - 9] == b[i]);
            }
        }
    }
}

/// Serializes a key layout; used to produce key artifacts whose decoding is
/// fully specified.
pub fn serialize_key(k: u32, scheme: CommitmentScheme, body: &Vec<u8>) -> (r: Result<
    Vec<u8>,
    InnerEZKLError,
>)
    ensures
        match r {
            Ok(out) => body@.len() <= u32::MAX && out@ == key_bytes_of(k, scheme, body@),
            Err(e) => body@.len() > u32::MAX && e matches InnerEZKLError::SerializationError(_),
        },
{
    if body.len() > 0xffff_ffff {
        return Err(InnerEZKLError::SerializationError(String::from_str("key payload too large")));
    }
    let mut out: Vec<u8> = u32_to_le_bytes(k);
    let tag: u8 = match scheme {
        CommitmentScheme::KZG => 0,
        CommitmentScheme::IPA => 1,
    };
    out.push(tag);
    let mut lenb = u32_to_le_bytes(body.len() as u32);
    push_bytes(&mut out, &lenb);
    push_bytes(&mut out, body);
    proof {
        assert(out@ =~= key_bytes_of(k, scheme, body@));
    }
    Ok(out)
}

// ---------------------------------------------------------------------------
// Compiled circuits
// ---------------------------------------------------------------------------
/// The raw layout of a compiled circuit: its embedded settings as fixed
/// fields, then the opaque constraint-system payload.
pub open spec fn circuit_bytes(c: CompiledCircuit) -> Seq<u8> {
    spec_u32_to_le_bytes(c.settings.logrows) + seq![scheme_tag(c.settings.commitment)] + seq![
        (if c.settings.module_requires_polycommit {
            1u8
        } else {
            0u8
        }),
    ] + spec_u32_to_le_bytes(c.settings.num_inputs) + spec_u32_to_le_bytes(c.settings.num_outputs)
        + spec_u32_to_le_bytes(c.body@.len() as u32) + c.body@
}

pub open spec fn wf_circuit_blob(b: Seq<u8>) -> bool {
    &&& b.len() >= 18
    &&& (b[4] == 0 || b[4] == 1)
    &&& (b[5] == 0 || b[5] == 1)
    &&& b.len() == 18 + spec_u32_from_le_bytes(b.subrange(14, 18))
}

/// The settings a well-formed circuit blob records.
pub open spec fn blob_settings(b: Seq<u8>) -> GraphSettings
    recommends
        wf_circuit_blob(b),
{
    GraphSettings {
        logrows: spec_u32_from_le_bytes(b.subrange(0, 4)),
        commitment: if b[4] == 0 {
            CommitmentScheme::KZG
        } else {
            CommitmentScheme::IPA
        },
        module_requires_polycommit: b[5] == 1,
        num_inputs: spec_u32_from_le_bytes(b.subrange(6, 10)),
        num_outputs: spec_u32_from_le_bytes(b.subrange(10, 14)),
    }
}

/// Deserializes a compiled circuit from a byte buffer.
pub fn deserialize_circuit(compiled_circuit: &Vec<u8>) -> (r: Result<
    CompiledCircuit,
    InnerEZKLError,
>)
    ensures
        match r {
            Ok(c) => wf_circuit_blob(compiled_circuit@) && c.settings == blob_settings(
                compiled_circuit@,
            ) && c.body@ == compiled_circuit@.subrange(18, compiled_circuit@.len() as int)
                && compiled_circuit@ == circuit_bytes(c),
            Err(e) => !wf_circuit_blob(compiled_circuit@) && e matches
                InnerEZKLError::DecodeError(_),
        },
{
    let b = compiled_circuit;
    if b.len() < 18 {
        return Err(InnerEZKLError::DecodeError(String::from_str("truncated circuit")));
    }
    let logrows = u32_from_le_bytes(slice_subrange(b.as_slice(), 0, 4));
    let ctag = b[4];
    let mtag = b[5];
    if !(ctag == 0 || ctag == 1) || !(mtag == 0 || mtag == 1) {
        return Err(
            InnerEZKLError::DecodeError(String::from_str("unrecognized circuit layout")),
        );
    }
    let commitment = if ctag == 0 {
        CommitmentScheme::KZG
    } else {
        CommitmentScheme::IPA
    };
    let num_inputs = u32_from_le_bytes(slice_subrange(b.as_slice(), 6, 10));
    let num_outputs = u32_from_le_bytes(slice_subrange(b.as_slice(), 10, 14));
    let body_len = u32_from_le_bytes(slice_subrange(b.as_slice(), 14, 18));
    if (b.len() as u64) != 18 + (body_len as u64) {
        return Err(
            InnerEZKLError::DecodeError(String::from_str("unrecognized circuit layout")),
        );
    }
    let body = slice_to_vec(slice_subrange(b.as_slice(), 18, b.len()));
    let c = CompiledCircuit {
        settings: GraphSettings {
            logrows,
            commitment,
            module_requires_polycommit: mtag == 1,
            num_inputs,
            num_outputs,
        },
        body,
    };
    proof {
        lemma_auto_spec_u32_to_from_le_bytes();
        assert(compiled_circuit@ =~= circuit_bytes(c)) by {
            let bb = compiled_circuit@;
            let rebuilt = circuit_bytes(c);
            assert(spec_u32_to_le_bytes(logrows) == bb.subrange(0, 4));
            assert(spec_u32_to_le_bytes(num_inputs) == bb.subrange(6, 10));
            assert(spec_u32_to_le_bytes(num_outputs) == bb.subrange(10, 14));
            assert(c.body@.len() as u32 == spec_u32_from_le_bytes(bb.subrange(14, 18)));
            assert(spec_u32_to_le_bytes(c.body@.len() as u32) == bb.subrange(14, 18));
            assert forall|i: int| 0 <= i < bb.len() implies bb[i] == #[trigger] rebuilt[i] by {
                if i < 4 {
                    assert(bb[i] == bb.subrange(0, 4)[i]);
                } else if 6 <= i < 10 {
                    assert(bb[i] == bb.subrange(6, 10)[i - 6]);
                } else if 10 <= i < 14 {
                    assert(bb[i] == bb.subrange(10, 14)[i - 10]);
                } else if 14 <= i < 18 {
                    assert(bb[i] == bb.subrange(14, 18)[i - 14]);
                } else if i >= 18 {
                    assert(c.body@[i - 18] == bb[i]);
                }
            }
        }
    }
    Ok(c)
}

/// Serializes a compiled circuit to the raw layout.
pub fn serialize_circuit(c: &CompiledCircuit) -> (r: Result<Vec<u8>, InnerEZKLError>)
    ensures
        match r {
            Ok(out) => c.body@.len() <= u32::MAX && out@ == circuit_bytes(*c),
            Err(e) => c.body@.len() > u32::MAX && e matches InnerEZKLError::SerializationError(
                _,
            ),
        },
{
    if c.body.len() > 0xffff_ffff {
        return Err(
            InnerEZKLError::SerializationError(String::from_str("circuit payload too large")),
        );
    }
    let mut out: Vec<u8> = u32_to_le_bytes(c.settings.logrows);
    let ctag: u8 = match c.settings.commitment {
        CommitmentScheme::KZG => 0,
        CommitmentScheme::IPA => 1,
    };
    out.push(ctag);
    let mtag: u8 = if c.settings.module_requires_polycommit {
        1
    } else {
        0
    };
    out.push(mtag);
    let ni = u32_to_le_bytes(c.settings.num_inputs);
    push_bytes(&mut out, &ni);
    let no = u32_to_le_bytes(c.settings.num_outputs);
    push_bytes(&mut out, &no);
    let bl = u32_to_le_bytes(c.body.len() as u32);
    push_bytes(&mut out, &bl);
    push_bytes(&mut out, &c.body);
    proof {
        assert(out@ =~= circuit_bytes(*c));
    }
    Ok(out)
}

/// Round trip: a serialized circuit decodes to itself.
pub proof fn lemma_circuit_round_trip(c: CompiledCircuit)
    requires
        c.body@.len() <= u32::MAX,
    ensures
        wf_circuit_blob(circuit_bytes(c)),
        blob_settings(circuit_bytes(c)) == c.settings,
        circuit_bytes(c).subrange(18, circuit_bytes(c).len() as int) == c.body@,
{
    let b = circuit_bytes(c);
    lemma_auto_spec_u32_to_from_le_bytes();
    assert(b.subrange(0, 4) =~= spec_u32_to_le_bytes(c.settings.logrows));
    assert(b.subrange(6, 10) =~= spec_u32_to_le_bytes(c.settings.num_inputs));
    assert(b.subrange(10, 14) =~= spec_u32_to_le_bytes(c.settings.num_outputs));
    assert(b.subrange(14, 18) =~= spec_u32_to_le_bytes(c.body@.len() as u32));
    assert(b.subrange(18, b.len() as int) =~= c.body@);
    assert(b[4] == scheme_tag(c.settings.commitment));
    assert(b[5] == (if c.settings.module_requires_polycommit { 1u8 } else { 0u8 }));
}

/// Deserializes a verification key from a byte buffer: the mobile-facing
/// spelling of `deserialize_vk`, kept for that boundary.
pub fn deserialise_vk(serialised_vk: &Vec<u8>, shape: &GraphSettings) -> (r: Result<
    VerifyingKey,
    InnerEZKLError,
>)
    ensures
        match r {
            Ok(vk) => wf_key(serialised_vk@) && vk.k == shape.logrows && vk.scheme
                == shape.commitment && vk.body@ == key_body(serialised_vk@) && serialised_vk@
                == key_bytes_of(vk.k, vk.scheme, vk.body@),
            Err(e) => {
                if !wf_key(serialised_vk@) {
                    e matches InnerEZKLError::DecodeError(_)
                } else if key_k(serialised_vk@) != shape.logrows || key_scheme(serialised_vk@)
                    != shape.commitment {
                    e matches InnerEZKLError::ShapeMismatch(_)
                } else {
                    false
                }
            },
        },
{
    deserialize_vk(serialised_vk, shape)
}

} // verus!

use vstd::prelude::*;

verus! {

use vstd::utf8::*;

use crate::dispatch::{spec_proof_pipeline, spec_transcript_for, spec_verify_pipeline};
use crate::gen_witness::combined_pairs;
use crate::graph::{lemma_jpairs_clean, wf_var, wf_witness, witness_pairs, GraphWitness};
use crate::json::{all_names_wf, is_name_seq, jpairs, lemma_ascii_valid_utf8,
    lemma_sp_pairs_doc_of, lemma_strip_id, sp_pairs_doc, strip};
use crate::scheme::{CommitmentScheme, ProofType, TranscriptType};
use crate::serialization::{key_body, key_bytes_of, key_k, key_scheme, scheme_tag, wf_key};
use crate::snark::{lemma_sp_snark_complete, proof_words, snark_bytes, sp_snark, wf_snark, Snark};

/// Round trip across the proving/verification boundary, at this layer's level
/// of abstraction: the proof document that proof creation emits decodes back
/// to exactly the same instances, proof bytes, transcript and rendering, and
/// the pipeline verification then selects uses the same verifier algorithm
/// and the same transcript as the pipeline the proof was created under. The
/// cryptographic acceptance of the proof itself is the backend's to
/// establish.
pub proof fn law_round_trip(sn: Snark, scheme: CommitmentScheme, pt: ProofType)
    requires
        wf_snark(sn),
        sn.transcript_type == spec_transcript_for(pt),
    ensures
        sp_snark(snark_bytes(sn)) == Some(
            (
                sn.instances@,
                proof_words(sn.proof@),
                sn.transcript_type,
                encode_utf8(sn.pretty_public_inputs@),
            ),
        ),
        spec_verify_pipeline(scheme, sn.transcript_type).verifier == spec_proof_pipeline(
            scheme,
            pt,
        ).verifier,
        spec_verify_pipeline(scheme, sn.transcript_type).transcript == spec_proof_pipeline(
            scheme,
            pt,
        ).transcript,
{
    lemma_sp_snark_complete(sn);
    crate::dispatch::lemma_verify_matches_prove(scheme, pt);
}

/// Scheme consistency: a key buffer records the scheme it was produced for,
/// and a buffer recorded for one scheme is never a well-formed key of the
/// other shape. Together with the verifying-key decoder's contract this means
/// a KZG-settings verification can never accept an IPA-produced key.
pub proof fn law_scheme_consistency(k: u32, s: CommitmentScheme, body: Seq<u8>)
    requires
        body.len() <= u32::MAX,
    ensures
        wf_key(key_bytes_of(k, s, body)),
        key_scheme(key_bytes_of(k, s, body)) == s,
        key_k(key_bytes_of(k, s, body)) == k,
        key_body(key_bytes_of(k, s, body)) == body,
{
    let b = key_bytes_of(k, s, body);
    vstd::bytes::lemma_auto_spec_u32_to_from_le_bytes();
    assert(b.subrange(0, 4) =~= vstd::bytes::spec_u32_to_le_bytes(k));
    assert(b.subrange(5, 9) =~= vstd::bytes::spec_u32_to_le_bytes(body.len() as u32));
    assert(b[4] == scheme_tag(s));
    assert(key_body(b) =~= body);
}

/// Transcript binding, first half: the transcript tag is part of the proof
/// document, so two proof documents that agree byte for byte carry the same
/// tag — altering the tag necessarily alters the document.
pub proof fn law_transcript_tag_determined(sn1: Snark, sn2: Snark)
    requires
        wf_snark(sn1),
        wf_snark(sn2),
        snark_bytes(sn1) == snark_bytes(sn2),
    ensures
        sn1.transcript_type == sn2.transcript_type,
        sn1.instances@ == sn2.instances@,
        sn1.proof@ == sn2.proof@,
        sn1.pretty_public_inputs@ == sn2.pretty_public_inputs@,
{
    lemma_sp_snark_complete(sn1);
    lemma_sp_snark_complete(sn2);
    crate::json::lemma_encode_utf8_injective(
        sn1.pretty_public_inputs@,
        sn2.pretty_public_inputs@,
    );
    assert(sn1.proof@ =~= sn2.proof@) by {
        assert forall|x: int| 0 <= x < sn1.proof@.len() implies sn1.proof@[x]
            == sn2.proof@[x] by {
            assert(proof_words(sn1.proof@)[x] == proof_words(sn2.proof@)[x]);
        }
    }
}

/// Transport across the boundary: whatever proof bundle the proving side
/// emitted, the bundle that verification decodes from the same document
/// carries the same instances, the same proof bytes, the same transcript tag
/// and the same rendering. Proof creation's contract supplies the first
/// bundle, verification's contract supplies the second.
pub proof fn law_proof_transport(sn1: Snark, sn2: Snark, doc: Seq<char>)
    requires
        wf_snark(sn1),
        wf_snark(sn2),
        encode_utf8(doc) == snark_bytes(sn1),
        encode_utf8(doc) == snark_bytes(sn2),
    ensures
        sn1.instances@ == sn2.instances@,
        sn1.proof@ == sn2.proof@,
        sn1.transcript_type == sn2.transcript_type,
        sn1.pretty_public_inputs@ == sn2.pretty_public_inputs@,
{
    law_transcript_tag_determined(sn1, sn2);
}

/// Transcript binding, second half: a proof created under the Poseidon
/// transcript whose tag is altered to EVM deterministically routes
/// verification to a different transcript reader than the one the proof was
/// created under; the backend's reader therefore cannot parse the stream by
/// accident.
pub proof fn law_transcript_binding(scheme: CommitmentScheme, pt: ProofType, tag: TranscriptType)
    requires
        tag != spec_transcript_for(pt),
    ensures
        spec_verify_pipeline(scheme, tag).transcript != spec_proof_pipeline(
            scheme,
            pt,
        ).transcript,
{
    crate::dispatch::lemma_transcript_binding(scheme, pt, tag);
}

/// Idempotence of witness generation: the witness document is a function of
/// the bound input and the forward result alone, so two runs over identical
/// inputs render byte-identical JSON, and that document scans back to
/// exactly the combined variable list. The assembly function's contract pins
/// its output to exactly this rendering.
pub proof fn law_witness_idempotent(
    input: GraphWitness,
    outputs: GraphWitness,
    s1: Seq<char>,
    s2: Seq<char>,
)
    requires
        wf_witness(input),
        wf_witness(outputs),
        s1 == decode_utf8(jpairs(combined_pairs(input, outputs))),
        s2 == decode_utf8(jpairs(combined_pairs(input, outputs))),
    ensures
        s1 == s2,
        sp_pairs_doc(strip(encode_utf8(s1))) == Some(combined_pairs(input, outputs)),
{
    let ps = combined_pairs(input, outputs);
    assert(all_names_wf(ps)) by {
        assert forall|x: int| 0 <= x < ps.len() implies is_name_seq((#[trigger] ps[x]).0) by {
            if x < witness_pairs(input).len() {
                assert(ps[x] == witness_pairs(input)[x]);
                assert(witness_pairs(input)[x] == (
                    encode_utf8(input.vars@[x].name@),
                    input.vars@[x].value,
                ));
                assert(wf_var(input.vars@[x]));
            } else {
                let y = x - witness_pairs(input).len();
                assert(ps[x] == witness_pairs(outputs)[y]);
                assert(witness_pairs(outputs)[y] == (
                    encode_utf8(outputs.vars@[y].name@),
                    outputs.vars@[y].value,
                ));
                assert(wf_var(outputs.vars@[y]));
            }
        }
    }
    lemma_jpairs_clean(ps);
    lemma_ascii_valid_utf8(jpairs(ps));
    decode_utf8_encode_utf8(jpairs(ps));
    assert(encode_utf8(s1) == jpairs(ps));
    lemma_strip_id(jpairs(ps));
    lemma_sp_pairs_doc_of(jpairs(ps), ps);
}

} // verus!

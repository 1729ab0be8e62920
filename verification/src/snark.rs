use vstd::prelude::*;

verus! {

use vstd::string::*;
use vstd::utf8::*;

use crate::error::InnerEZKLError;
use crate::graph::{lemma_encode_ascii, lemma_jname_ascii, wf_name};
use crate::json::{ascii_to_string, bytes_eq, dec, dec_list, expect_byte, follows, is_ascii_bytes,
    is_name_byte, is_name_seq, jarr, jname, lemma_extend_cover, lemma_follows_index, lemma_jarr_clean,
    lemma_sp_name_chunk, lemma_sp_name_of_jname, lemma_sp_num_list_of, num_list_scan, parse_name,
    push_byte, push_name, push_num_list, sp_name, sp_num_list, str_bytes};
use crate::scheme::TranscriptType;

/// The proof bundle crossing the proving/verification boundary: the raw proof
/// bytes, the public inputs, their human-readable rendering, and the
/// transcript flavour the proof was created under. The transcript tag is
/// recorded here so that verification needs no side channel.
#[derive(Clone, Debug)]
pub struct Snark {
    pub instances: Vec<u64>,
    pub proof: Vec<u8>,
    pub transcript_type: TranscriptType,
    pub pretty_public_inputs: String,
}

pub open spec fn wf_snark(sn: Snark) -> bool {
    wf_name(sn.pretty_public_inputs@)
}

/// Proof bytes as the numbers their array rendering holds.
pub open spec fn proof_words(bs: Seq<u8>) -> Seq<u64> {
    bs.map_values(|b: u8| b as u64)
}

pub open spec fn words_in_range(xs: Seq<u64>) -> bool {
    forall|i: int| 0 <= i < xs.len() ==> (#[trigger] xs[i]) < 256
}

/// The transcript flavour's token in the proof document.
pub open spec fn transcript_token(t: TranscriptType) -> Seq<u8> {
    match t {
        TranscriptType::EVM => encode_utf8("EVM"@),
        TranscriptType::Poseidon => encode_utf8("Poseidon"@),
    }
}

/// The canonical proof document over its component views.
pub open spec fn snark_bytes_view(
    inst: Seq<u64>,
    pws: Seq<u64>,
    tt: TranscriptType,
    pb: Seq<u8>,
) -> Seq<u8> {
    seq![123u8] + jname(encode_utf8("instances"@)) + seq![58u8] + jarr(inst) + seq![44u8] + jname(
        encode_utf8("proof"@),
    ) + seq![58u8] + jarr(pws) + seq![44u8] + jname(encode_utf8("transcript_type"@)) + seq![58u8]
        + jname(transcript_token(tt)) + seq![44u8] + jname(encode_utf8("pretty_public_inputs"@))
        + seq![58u8] + jname(pb) + seq![125u8]
}

/// The canonical proof document of a snark.
pub open spec fn snark_bytes(sn: Snark) -> Seq<u8> {
    snark_bytes_view(
        sn.instances@,
        proof_words(sn.proof@),
        sn.transcript_type,
        encode_utf8(sn.pretty_public_inputs@),
    )
}

/// Concrete bytes and shape facts for the proof document's fixed tokens.
pub proof fn lemma_snark_tokens()
    ensures
        encode_utf8("EVM"@) == seq![69u8, 86u8, 77u8],
        encode_utf8("Poseidon"@) == seq![80u8, 111u8, 115u8, 101u8, 105u8, 100u8, 111u8, 110u8],
        is_name_seq(encode_utf8("EVM"@)),
        is_name_seq(encode_utf8("Poseidon"@)),
        is_name_seq(transcript_token(TranscriptType::EVM)),
        is_name_seq(transcript_token(TranscriptType::Poseidon)),
        is_ascii_bytes(encode_utf8("instances"@)),
        is_ascii_bytes(encode_utf8("proof"@)),
        is_ascii_bytes(encode_utf8("transcript_type"@)),
        is_ascii_bytes(encode_utf8("pretty_public_inputs"@)),
{
    reveal_strlit("EVM");
    assert(is_ascii_chars("EVM"@));
    is_ascii_chars_encode_utf8("EVM"@);
    assert(encode_utf8("EVM"@) =~= seq![69u8, 86u8, 77u8]);
    reveal_strlit("Poseidon");
    assert(is_ascii_chars("Poseidon"@));
    is_ascii_chars_encode_utf8("Poseidon"@);
    assert(encode_utf8("Poseidon"@) =~= seq![
        80u8,
        111u8,
        115u8,
        101u8,
        105u8,
        100u8,
        111u8,
        110u8,
    ]);
    assert(is_name_seq(seq![69u8, 86u8, 77u8]));
    assert(is_name_seq(seq![80u8, 111u8, 115u8, 101u8, 105u8, 100u8, 111u8, 110u8]));
    reveal_strlit("instances");
    assert(is_ascii_chars("instances"@));
    lemma_encode_ascii("instances"@);
    reveal_strlit("proof");
    assert(is_ascii_chars("proof"@));
    lemma_encode_ascii("proof"@);
    reveal_strlit("transcript_type");
    assert(is_ascii_chars("transcript_type"@));
    lemma_encode_ascii("transcript_type"@);
    reveal_strlit("pretty_public_inputs");
    assert(is_ascii_chars("pretty_public_inputs"@));
    lemma_encode_ascii("pretty_public_inputs"@);
}

// ---------------------------------------------------------------------------
// Spec-level scan of the proof document
// ---------------------------------------------------------------------------
pub open spec fn sp_snark(t: Seq<u8>) -> Option<(Seq<u64>, Seq<u64>, TranscriptType, Seq<u8>)> {
    if !follows(t, 0, seq![123u8]) {
        Option::None
    } else {
        match sp_name(t, 1) {
            Option::None => Option::None,
            Option::Some((k1, i1)) => {
                if !(k1 == encode_utf8("instances"@) && follows(t, i1, seq![58u8])) {
                    Option::None
                } else {
                    match sp_num_list(t, i1 + 1) {
                        Option::None => Option::None,
                        Option::Some((inst, i2)) => sp_snark_proof(t, i2, inst),
                    }
                }
            },
        }
    }
}

pub open spec fn sp_snark_proof(t: Seq<u8>, i2: int, inst: Seq<u64>) -> Option<
    (Seq<u64>, Seq<u64>, TranscriptType, Seq<u8>),
> {
    if !follows(t, i2, seq![44u8]) {
        Option::None
    } else {
        match sp_name(t, i2 + 1) {
            Option::None => Option::None,
            Option::Some((k2, i3)) => {
                if !(k2 == encode_utf8("proof"@) && follows(t, i3, seq![58u8])) {
                    Option::None
                } else {
                    match sp_num_list(t, i3 + 1) {
                        Option::None => Option::None,
                        Option::Some((pws, i4)) => {
                            if !words_in_range(pws) {
                                Option::None
                            } else {
                                sp_snark_tail(t, i4, inst, pws)
                            }
                        },
                    }
                }
            },
        }
    }
}

pub open spec fn sp_snark_tail(t: Seq<u8>, i4: int, inst: Seq<u64>, pws: Seq<u64>) -> Option<
    (Seq<u64>, Seq<u64>, TranscriptType, Seq<u8>),
> {
    if !follows(t, i4, seq![44u8]) {
        Option::None
    } else {
        match sp_name(t, i4 + 1) {
            Option::None => Option::None,
            Option::Some((k3, i5)) => {
                if !(k3 == encode_utf8("transcript_type"@) && follows(t, i5, seq![58u8])) {
                    Option::None
                } else {
                    match sp_name(t, i5 + 1) {
                        Option::None => Option::None,
                        Option::Some((tv, i6)) => {
                            if !(tv == encode_utf8("EVM"@) || tv == encode_utf8("Poseidon"@)) {
                                Option::None
                            } else {
                                let tt = if tv == encode_utf8("EVM"@) {
                                    TranscriptType::EVM
                                } else {
                                    TranscriptType::Poseidon
                                };
                                if !follows(t, i6, seq![44u8]) {
                                    Option::None
                                } else {
                                    match sp_name(t, i6 + 1) {
                                        Option::None => Option::None,
                                        Option::Some((k4, i7)) => {
                                            if !(k4 == encode_utf8("pretty_public_inputs"@)
                                                && follows(t, i7, seq![58u8])) {
                                                Option::None
                                            } else {
                                                match sp_name(t, i7 + 1) {
                                                    Option::None => Option::None,
                                                    Option::Some((pb, i8)) => {
                                                        if follows(t, i8, seq![125u8]) && i8 + 1
                                                            == t.len() {
                                                            Option::Some((inst, pws, tt, pb))
                                                        } else {
                                                            Option::None
                                                        }
                                                    },
                                                }
                                            }
                                        },
                                    }
                                }
                            }
                        },
                    }
                }
            },
        }
    }
}

/// A canonical proof document scans back to exactly its views.
#[verifier::rlimit(100)]
pub proof fn lemma_sp_snark_complete(sn: Snark)
    requires
        wf_snark(sn),
    ensures
        sp_snark(snark_bytes(sn)) == Some(
            (
                sn.instances@,
                proof_words(sn.proof@),
                sn.transcript_type,
                encode_utf8(sn.pretty_public_inputs@),
            ),
        ),
{
    let t = snark_bytes(sn);
    let inst = sn.instances@;
    let pws = proof_words(sn.proof@);
    let pb = encode_utf8(sn.pretty_public_inputs@);
    lemma_snark_tokens();
    lemma_keys_name_seq();
    lemma_snark_follows(t, sn);
    lemma_sp_name_of_jname(t, 1, encode_utf8("instances"@));
    let i1 = 1 + jname(encode_utf8("instances"@)).len() as int;
    lemma_sp_num_list_of(t, i1 + 1, inst);
    let i2 = i1 + 1 + jarr(inst).len() as int;
    lemma_sp_name_of_jname(t, i2 + 1, encode_utf8("proof"@));
    let i3 = i2 + 1 + jname(encode_utf8("proof"@)).len() as int;
    lemma_sp_num_list_of(t, i3 + 1, pws);
    assert(words_in_range(pws)) by {
        assert forall|i: int| 0 <= i < pws.len() implies (#[trigger] pws[i]) < 256 by {
            assert(pws[i] == sn.proof@[i] as u64);
        }
    }
    let i4 = i3 + 1 + jarr(pws).len() as int;
    lemma_sp_name_of_jname(t, i4 + 1, encode_utf8("transcript_type"@));
    let i5 = i4 + 1 + jname(encode_utf8("transcript_type"@)).len() as int;
    lemma_sp_name_of_jname(t, i5 + 1, transcript_token(sn.transcript_type));
    let i6 = i5 + 1 + jname(transcript_token(sn.transcript_type)).len() as int;
    lemma_sp_name_of_jname(t, i6 + 1, encode_utf8("pretty_public_inputs"@));
    let i7 = i6 + 1 + jname(encode_utf8("pretty_public_inputs"@)).len() as int;
    lemma_sp_name_of_jname(t, i7 + 1, pb);
}

/// Name-shape facts for the proof document's keys.
pub proof fn lemma_keys_name_seq()
    ensures
        is_name_seq(encode_utf8("instances"@)),
        is_name_seq(encode_utf8("proof"@)),
        is_name_seq(encode_utf8("transcript_type"@)),
        is_name_seq(encode_utf8("pretty_public_inputs"@)),
{
    reveal_strlit("instances");
    assert(is_ascii_chars("instances"@));
    is_ascii_chars_encode_utf8("instances"@);
    assert forall|x: int| 0 <= x < encode_utf8("instances"@).len() implies is_name_byte(
        #[trigger] encode_utf8("instances"@)[x],
    ) by {
        assert(encode_utf8("instances"@)[x] == "instances"@[x] as u8);
    }
    reveal_strlit("proof");
    assert(is_ascii_chars("proof"@));
    is_ascii_chars_encode_utf8("proof"@);
    assert forall|x: int| 0 <= x < encode_utf8("proof"@).len() implies is_name_byte(
        #[trigger] encode_utf8("proof"@)[x],
    ) by {
        assert(encode_utf8("proof"@)[x] == "proof"@[x] as u8);
    }
    reveal_strlit("transcript_type");
    assert(is_ascii_chars("transcript_type"@));
    is_ascii_chars_encode_utf8("transcript_type"@);
    assert forall|x: int| 0 <= x < encode_utf8("transcript_type"@).len() implies is_name_byte(
        #[trigger] encode_utf8("transcript_type"@)[x],
    ) by {
        assert(encode_utf8("transcript_type"@)[x] == "transcript_type"@[x] as u8);
    }
    reveal_strlit("pretty_public_inputs");
    assert(is_ascii_chars("pretty_public_inputs"@));
    is_ascii_chars_encode_utf8("pretty_public_inputs"@);
    assert forall|x: int|
        0 <= x < encode_utf8("pretty_public_inputs"@).len() implies is_name_byte(
        #[trigger] encode_utf8("pretty_public_inputs"@)[x],
    ) by {
        assert(encode_utf8("pretty_public_inputs"@)[x] == "pretty_public_inputs"@[x] as u8);
    }
}


/// Where each token of the canonical proof document sits.
pub proof fn lemma_snark_follows(t: Seq<u8>, sn: Snark)
    requires
        t == snark_bytes(sn),
    ensures
        follows(t, 0, seq![123u8]),
        follows(t, 1, jname(encode_utf8("instances"@))),
        follows(t, 1int + jname(encode_utf8("instances"@)).len(), seq![58u8]),
        follows(t, 2int + jname(encode_utf8("instances"@)).len(), jarr(sn.instances@)),
        follows(
            t,
            2int + jname(encode_utf8("instances"@)).len() + jarr(sn.instances@).len(),
            seq![44u8],
        ),
        follows(
            t,
            3int + jname(encode_utf8("instances"@)).len() + jarr(sn.instances@).len(),
            jname(encode_utf8("proof"@)),
        ),
        follows(
            t,
            3int + jname(encode_utf8("instances"@)).len() + jarr(sn.instances@).len() + jname(
                encode_utf8("proof"@),
            ).len(),
            seq![58u8],
        ),
        follows(
            t,
            4int + jname(encode_utf8("instances"@)).len() + jarr(sn.instances@).len() + jname(
                encode_utf8("proof"@),
            ).len(),
            jarr(proof_words(sn.proof@)),
        ),
        follows(
            t,
            4int + jname(encode_utf8("instances"@)).len() + jarr(sn.instances@).len() + jname(
                encode_utf8("proof"@),
            ).len() + jarr(proof_words(sn.proof@)).len(),
            seq![44u8],
        ),
        follows(
            t,
            5int + jname(encode_utf8("instances"@)).len() + jarr(sn.instances@).len() + jname(
                encode_utf8("proof"@),
            ).len() + jarr(proof_words(sn.proof@)).len(),
            jname(encode_utf8("transcript_type"@)),
        ),
        follows(
            t,
            5int + jname(encode_utf8("instances"@)).len() + jarr(sn.instances@).len() + jname(
                encode_utf8("proof"@),
            ).len() + jarr(proof_words(sn.proof@)).len() + jname(
                encode_utf8("transcript_type"@),
            ).len(),
            seq![58u8],
        ),
        follows(
            t,
            6int + jname(encode_utf8("instances"@)).len() + jarr(sn.instances@).len() + jname(
                encode_utf8("proof"@),
            ).len() + jarr(proof_words(sn.proof@)).len() + jname(
                encode_utf8("transcript_type"@),
            ).len(),
            jname(transcript_token(sn.transcript_type)),
        ),
        follows(
            t,
            6int + jname(encode_utf8("instances"@)).len() + jarr(sn.instances@).len() + jname(
                encode_utf8("proof"@),
            ).len() + jarr(proof_words(sn.proof@)).len() + jname(
                encode_utf8("transcript_type"@),
            ).len() + jname(transcript_token(sn.transcript_type)).len(),
            seq![44u8],
        ),
        follows(
            t,
            7int + jname(encode_utf8("instances"@)).len() + jarr(sn.instances@).len() + jname(
                encode_utf8("proof"@),
            ).len() + jarr(proof_words(sn.proof@)).len() + jname(
                encode_utf8("transcript_type"@),
            ).len() + jname(transcript_token(sn.transcript_type)).len(),
            jname(encode_utf8("pretty_public_inputs"@)),
        ),
        follows(
            t,
            7int + jname(encode_utf8("instances"@)).len() + jarr(sn.instances@).len() + jname(
                encode_utf8("proof"@),
            ).len() + jarr(proof_words(sn.proof@)).len() + jname(
                encode_utf8("transcript_type"@),
            ).len() + jname(transcript_token(sn.transcript_type)).len() + jname(
                encode_utf8("pretty_public_inputs"@),
            ).len(),
            seq![58u8],
        ),
        follows(
            t,
            8int + jname(encode_utf8("instances"@)).len() + jarr(sn.instances@).len() + jname(
                encode_utf8("proof"@),
            ).len() + jarr(proof_words(sn.proof@)).len() + jname(
                encode_utf8("transcript_type"@),
            ).len() + jname(transcript_token(sn.transcript_type)).len() + jname(
                encode_utf8("pretty_public_inputs"@),
            ).len(),
            jname(encode_utf8(sn.pretty_public_inputs@)),
        ),
        follows(
            t,
            8int + jname(encode_utf8("instances"@)).len() + jarr(sn.instances@).len() + jname(
                encode_utf8("proof"@),
            ).len() + jarr(proof_words(sn.proof@)).len() + jname(
                encode_utf8("transcript_type"@),
            ).len() + jname(transcript_token(sn.transcript_type)).len() + jname(
                encode_utf8("pretty_public_inputs"@),
            ).len() + jname(encode_utf8(sn.pretty_public_inputs@)).len(),
            seq![125u8],
        ),
        t.len() == 9int + jname(encode_utf8("instances"@)).len() + jarr(sn.instances@).len() + jname(
            encode_utf8("proof"@),
        ).len() + jarr(proof_words(sn.proof@)).len() + jname(
            encode_utf8("transcript_type"@),
        ).len() + jname(transcript_token(sn.transcript_type)).len() + jname(
            encode_utf8("pretty_public_inputs"@),
        ).len() + jname(encode_utf8(sn.pretty_public_inputs@)).len(),
{
    assert(follows(t, 0, snark_bytes(sn))) by {
        assert(t.subrange(0, t.len() as int) =~= t);
    }
    let a1 = seq![123u8];
    let a2 = jname(encode_utf8("instances"@));
    let a3 = seq![58u8];
    let a4 = jarr(sn.instances@);
    let a5 = seq![44u8];
    let a6 = jname(encode_utf8("proof"@));
    let a7 = seq![58u8];
    let a8 = jarr(proof_words(sn.proof@));
    let a9 = seq![44u8];
    let a10 = jname(encode_utf8("transcript_type"@));
    let a11 = seq![58u8];
    let a12 = jname(transcript_token(sn.transcript_type));
    let a13 = seq![44u8];
    let a14 = jname(encode_utf8("pretty_public_inputs"@));
    let a15 = seq![58u8];
    let a16 = jname(encode_utf8(sn.pretty_public_inputs@));
    let a17 = seq![125u8];
    crate::json::lemma_follows_concat(
        t,
        0,
        a1 + a2 + a3 + a4 + a5 + a6 + a7 + a8 + a9 + a10 + a11 + a12 + a13 + a14 + a15 + a16,
        a17,
    );
    crate::json::lemma_follows_concat(
        t,
        0,
        a1 + a2 + a3 + a4 + a5 + a6 + a7 + a8 + a9 + a10 + a11 + a12 + a13 + a14 + a15,
        a16,
    );
    crate::json::lemma_follows_concat(
        t,
        0,
        a1 + a2 + a3 + a4 + a5 + a6 + a7 + a8 + a9 + a10 + a11 + a12 + a13 + a14,
        a15,
    );
    crate::json::lemma_follows_concat(
        t,
        0,
        a1 + a2 + a3 + a4 + a5 + a6 + a7 + a8 + a9 + a10 + a11 + a12 + a13,
        a14,
    );
    crate::json::lemma_follows_concat(
        t,
        0,
        a1 + a2 + a3 + a4 + a5 + a6 + a7 + a8 + a9 + a10 + a11 + a12,
        a13,
    );
    crate::json::lemma_follows_concat(
        t,
        0,
        a1 + a2 + a3 + a4 + a5 + a6 + a7 + a8 + a9 + a10 + a11,
        a12,
    );
    crate::json::lemma_follows_concat(t, 0, a1 + a2 + a3 + a4 + a5 + a6 + a7 + a8 + a9 + a10, a11);
    crate::json::lemma_follows_concat(t, 0, a1 + a2 + a3 + a4 + a5 + a6 + a7 + a8 + a9, a10);
    crate::json::lemma_follows_concat(t, 0, a1 + a2 + a3 + a4 + a5 + a6 + a7 + a8, a9);
    crate::json::lemma_follows_concat(t, 0, a1 + a2 + a3 + a4 + a5 + a6 + a7, a8);
    crate::json::lemma_follows_concat(t, 0, a1 + a2 + a3 + a4 + a5 + a6, a7);
    crate::json::lemma_follows_concat(t, 0, a1 + a2 + a3 + a4 + a5, a6);
    crate::json::lemma_follows_concat(t, 0, a1 + a2 + a3 + a4, a5);
    crate::json::lemma_follows_concat(t, 0, a1 + a2 + a3, a4);
    crate::json::lemma_follows_concat(t, 0, a1 + a2, a3);
    crate::json::lemma_follows_concat(t, 0, a1, a2);
}

/// A scan that succeeds only ever accepts the canonical document of its
/// result views.
#[verifier::rlimit(100)]
pub proof fn lemma_sp_snark_sound(
    t: Seq<u8>,
    inst: Seq<u64>,
    pws: Seq<u64>,
    tt: TranscriptType,
    pb: Seq<u8>,
)
    requires
        sp_snark(t) == Some((inst, pws, tt, pb)),
    ensures
        t == snark_bytes_view(inst, pws, tt, pb),
        is_name_seq(pb),
{
    lemma_snark_tokens();
    assert(t.subrange(0, 0) =~= Seq::<u8>::empty());
    let r1 = sp_name(t, 1);
    let (k1, i1) = r1->Some_0;
    let r2 = sp_num_list(t, i1 + 1);
    let (inst2, i2) = r2->Some_0;
    let r3 = sp_name(t, i2 + 1);
    let (k2, i3) = r3->Some_0;
    let r4 = sp_num_list(t, i3 + 1);
    let (pws2, i4) = r4->Some_0;
    let r5 = sp_name(t, i4 + 1);
    let (k3, i5) = r5->Some_0;
    let r6 = sp_name(t, i5 + 1);
    let (tv, i6) = r6->Some_0;
    let r7 = sp_name(t, i6 + 1);
    let (k4, i7) = r7->Some_0;
    let r8 = sp_name(t, i7 + 1);
    let (pb2, i8) = r8->Some_0;
    lemma_sp_name_chunk(t, 1, k1, i1);
    lemma_sp_num_list_chunk(t, i1 + 1, inst2, i2);
    lemma_sp_name_chunk(t, i2 + 1, k2, i3);
    lemma_sp_num_list_chunk(t, i3 + 1, pws2, i4);
    lemma_sp_name_chunk(t, i4 + 1, k3, i5);
    lemma_sp_name_chunk(t, i5 + 1, tv, i6);
    lemma_sp_name_chunk(t, i6 + 1, k4, i7);
    lemma_sp_name_chunk(t, i7 + 1, pb2, i8);
    lemma_extend_cover(t, 0, seq![123u8]);
    assert(Seq::<u8>::empty() + seq![123u8] =~= seq![123u8]);
    lemma_extend_cover(t, 1, jname(k1));
    lemma_extend_cover(t, i1, seq![58u8]);
    lemma_extend_cover(t, i1 + 1, jarr(inst2));
    lemma_extend_cover(t, i2, seq![44u8]);
    lemma_extend_cover(t, i2 + 1, jname(k2));
    lemma_extend_cover(t, i3, seq![58u8]);
    lemma_extend_cover(t, i3 + 1, jarr(pws2));
    lemma_extend_cover(t, i4, seq![44u8]);
    lemma_extend_cover(t, i4 + 1, jname(k3));
    lemma_extend_cover(t, i5, seq![58u8]);
    lemma_extend_cover(t, i5 + 1, jname(tv));
    lemma_extend_cover(t, i6, seq![44u8]);
    lemma_extend_cover(t, i6 + 1, jname(k4));
    lemma_extend_cover(t, i7, seq![58u8]);
    lemma_extend_cover(t, i7 + 1, jname(pb2));
    lemma_extend_cover(t, i8, seq![125u8]);
    assert(t.subrange(0, t.len() as int) =~= t);
    assert(transcript_token(tt) == tv);
    assert(t == snark_bytes_view(inst, pws, tt, pb));
    lemma_sp_name_is_names(t, i7 + 1, pb2, i8);
}

/// What a successful array scan covers: the rendering of its values.
pub proof fn lemma_sp_num_list_chunk(t: Seq<u8>, i: int, xs: Seq<u64>, j: int)
    requires
        sp_num_list(t, i) == Some((xs, j)),
    ensures
        follows(t, i, jarr(xs)),
        j == i + jarr(xs).len(),
{
    crate::json::lemma_follows_index(t, i, seq![91u8], 0);
    if follows(t, i + 1, seq![93u8]) {
        crate::json::lemma_follows_index(t, i + 1, seq![93u8], 0);
        assert(t.subrange(i, i + 2) =~= jarr(xs));
    } else {
        let r = crate::json::sp_num_items(t, i + 1);
        let (ys, e) = r->Some_0;
        lemma_sp_num_items_chunk(t, i + 1, ys, e);
        assert(t.subrange(i, e + 1) =~= jarr(xs)) by {
            assert(follows(t, i + 1, dec_list(xs)));
            assert forall|x: int| 0 <= x < e + 1 - i implies #[trigger] t.subrange(i, e + 1)[x]
                == jarr(xs)[x] by {
                if 1 <= x < e + 1 - i - 1 {
                    assert(t[i + x] == t.subrange(i + 1, i + 1 + dec_list(xs).len() as int)[x
                        - 1]);
                }
            }
        }
    }
}

/// What a successful item scan covers: the rendering of its values.
pub proof fn lemma_sp_num_items_chunk(t: Seq<u8>, i: int, xs: Seq<u64>, e: int)
    requires
        crate::json::sp_num_items(t, i) == Some((xs, e)),
        0 <= i <= t.len(),
    ensures
        follows(t, i, dec_list(xs)),
        e == i + dec_list(xs).len(),
        xs.len() >= 1,
    decreases t.len() - i,
{
    let r0 = crate::json::sp_num(t, i);
    let (n, j) = r0->Some_0;
    crate::json::lemma_sp_num_chunk(t, i, n, j);
    if j < t.len() && t[j] == 44 && i < j + 1 <= t.len() {
        let r1 = crate::json::sp_num_items(t, j + 1);
        match r1 {
            Option::Some((rest, e2)) => {
                lemma_sp_num_items_chunk(t, j + 1, rest, e2);
                assert(xs == seq![n] + rest);
                assert(xs[0] == n);
                assert(xs.drop_first() =~= rest);
                assert(dec_list(xs) == dec(xs[0]) + seq![44u8] + dec_list(xs.drop_first()));
                assert(follows(t, i, dec_list(xs))) by {
                    assert(t.subrange(j, j + 1) =~= seq![44u8]);
                    crate::json::lemma_follows_join(t, i, dec(n), seq![44u8]);
                    crate::json::lemma_follows_join(t, i, dec(n) + seq![44u8], dec_list(rest));
                    assert(dec(n) + seq![44u8] + dec_list(rest) =~= (dec(n) + seq![44u8])
                        + dec_list(rest));
                }
            },
            Option::None => {
                assert(false);
            },
        }
    } else {
        assert(xs == seq![n]);
        assert(dec_list(xs) == dec(n));
    }
}

/// A scanned quoted string holds only name bytes.
pub proof fn lemma_sp_name_is_names(t: Seq<u8>, i: int, b: Seq<u8>, j: int)
    requires
        sp_name(t, i) == Some((b, j)),
    ensures
        is_name_seq(b),
        is_ascii_bytes(b),
{
    crate::json::lemma_name_end_bounds(t, i + 1);
    assert(is_name_seq(b));
    assert forall|x: int| 0 <= x < b.len() implies (#[trigger] b[x]) < 128 by {
        assert(is_name_byte(b[x]));
    }
}

/// The scanner, step for step the executable form of `sp_snark`.
#[verifier::loop_isolation(false)]
fn snark_scan(t: &Vec<u8>) -> (r: Option<Snark>)
    ensures
        match r {
            Option::Some(sn) => sp_snark(t@) == Some(
                (
                    sn.instances@,
                    proof_words(sn.proof@),
                    sn.transcript_type,
                    encode_utf8(sn.pretty_public_inputs@),
                ),
            ) && wf_snark(sn),
            Option::None => sp_snark(t@) is None,
        },
{
    let k_instances = "instances".as_bytes_vec();
    let k_proof = "proof".as_bytes_vec();
    let k_tt = "transcript_type".as_bytes_vec();
    let k_pretty = "pretty_public_inputs".as_bytes_vec();
    let evm = "EVM".as_bytes_vec();
    let poseidon = "Poseidon".as_bytes_vec();
    let p0 = match expect_byte(t, 0, 123) {
        Option::Some(j) => j,
        Option::None => {
            return None;
        },
    };
    let (k1, i1) = match parse_name(t, p0) {
        Option::Some(x) => x,
        Option::None => {
            return None;
        },
    };
    if !bytes_eq(&k1, &k_instances) {
        return None;
    }
    let i1c = match expect_byte(t, i1, 58) {
        Option::Some(j) => j,
        Option::None => {
            return None;
        },
    };
    let (instances, i2) = match num_list_scan(t, i1c) {
        Option::Some(x) => x,
        Option::None => {
            return None;
        },
    };
    let i2c = match expect_byte(t, i2, 44) {
        Option::Some(j) => j,
        Option::None => {
            return None;
        },
    };
    let (k2, i3) = match parse_name(t, i2c) {
        Option::Some(x) => x,
        Option::None => {
            return None;
        },
    };
    if !bytes_eq(&k2, &k_proof) {
        return None;
    }
    let i3c = match expect_byte(t, i3, 58) {
        Option::Some(j) => j,
        Option::None => {
            return None;
        },
    };
    let (pwords, i4) = match num_list_scan(t, i3c) {
        Option::Some(x) => x,
        Option::None => {
            return None;
        },
    };
    let mut proof_bytes: Vec<u8> = Vec::new();
    let mut pk: usize = 0;
    while pk < pwords.len()
        invariant
            0 <= pk <= pwords@.len(),
            forall|x: int| 0 <= x < pk ==> (#[trigger] pwords@[x]) < 256,
            proof_bytes@.len() == pk,
            forall|x: int| 0 <= x < pk ==> (#[trigger] proof_bytes@[x]) as u64 == pwords@[x],
        decreases pwords@.len() - pk,
    {
        let w = pwords[pk];
        if w > 255 {
            proof {
                assert(!words_in_range(pwords@));
                assert(sp_snark(t@) is None);
            }
            return None;
        }
        proof_bytes.push(w as u8);
        pk += 1;
    }
    proof {
        assert(words_in_range(pwords@));
        assert(proof_words(proof_bytes@) =~= pwords@);
    }
    let i4c = match expect_byte(t, i4, 44) {
        Option::Some(j) => j,
        Option::None => {
            return None;
        },
    };
    let (k3, i5) = match parse_name(t, i4c) {
        Option::Some(x) => x,
        Option::None => {
            return None;
        },
    };
    if !bytes_eq(&k3, &k_tt) {
        return None;
    }
    let i5c = match expect_byte(t, i5, 58) {
        Option::Some(j) => j,
        Option::None => {
            return None;
        },
    };
    let (tv, i6) = match parse_name(t, i5c) {
        Option::Some(x) => x,
        Option::None => {
            return None;
        },
    };
    let is_evm = bytes_eq(&tv, &evm);
    let is_poseidon = bytes_eq(&tv, &poseidon);
    if !(is_evm || is_poseidon) {
        return None;
    }
    let tt = if is_evm {
        TranscriptType::EVM
    } else {
        TranscriptType::Poseidon
    };
    let i6c = match expect_byte(t, i6, 44) {
        Option::Some(j) => j,
        Option::None => {
            return None;
        },
    };
    let (k4, i7) = match parse_name(t, i6c) {
        Option::Some(x) => x,
        Option::None => {
            return None;
        },
    };
    if !bytes_eq(&k4, &k_pretty) {
        return None;
    }
    let i7c = match expect_byte(t, i7, 58) {
        Option::Some(j) => j,
        Option::None => {
            return None;
        },
    };
    let (pb, i8) = match parse_name(t, i7c) {
        Option::Some(x) => x,
        Option::None => {
            return None;
        },
    };
    let i8c = match expect_byte(t, i8, 125) {
        Option::Some(j) => j,
        Option::None => {
            return None;
        },
    };
    if i8c != t.len() {
        return None;
    }
    let pretty = ascii_to_string(pb);
    Some(Snark { instances, proof: proof_bytes, transcript_type: tt, pretty_public_inputs: pretty })
}

/// The whole proof document is ASCII when well formed.
pub proof fn lemma_snark_bytes_ascii(sn: Snark)
    requires
        wf_snark(sn),
    ensures
        is_ascii_bytes(snark_bytes(sn)),
{
    lemma_snark_tokens();
    lemma_jarr_clean(sn.instances@);
    lemma_jarr_clean(proof_words(sn.proof@));
    lemma_jname_ascii(encode_utf8("instances"@));
    lemma_jname_ascii(encode_utf8("proof"@));
    lemma_jname_ascii(encode_utf8("transcript_type"@));
    lemma_jname_ascii(encode_utf8("pretty_public_inputs"@));
    assert(is_ascii_bytes(transcript_token(sn.transcript_type))) by {
        assert forall|x: int|
            0 <= x < transcript_token(sn.transcript_type).len() implies (
        #[trigger] transcript_token(sn.transcript_type)[x]) < 128 by {
            assert(is_name_byte(transcript_token(sn.transcript_type)[x]));
        }
    }
    lemma_jname_ascii(transcript_token(sn.transcript_type));
    assert(is_ascii_bytes(encode_utf8(sn.pretty_public_inputs@))) by {
        assert forall|x: int|
            0 <= x < encode_utf8(sn.pretty_public_inputs@).len() implies (
        #[trigger] encode_utf8(sn.pretty_public_inputs@)[x]) < 128 by {
            assert(is_name_byte(encode_utf8(sn.pretty_public_inputs@)[x]));
        }
    }
    lemma_jname_ascii(encode_utf8(sn.pretty_public_inputs@));
    assert forall|i: int| 0 <= i < snark_bytes(sn).len() implies (#[trigger] snark_bytes(sn)[i])
        < 128 by {
        let b = snark_bytes(sn)[i];
    }
}

/// Renders a snark as its canonical JSON document.
pub fn snark_to_json(sn: &Snark) -> (r: Result<String, InnerEZKLError>)
    ensures
        r matches Ok(s) ==> wf_snark(*sn) && encode_utf8(s@) == snark_bytes(*sn) && s@
            == decode_utf8(snark_bytes(*sn)),
        r matches Err(e) ==> !wf_snark(*sn) && e matches InnerEZKLError::SerializationError(_),
{
    let pb = sn.pretty_public_inputs.as_str().as_bytes_vec();
    if !crate::json::check_name_bytes(&pb) {
        return Err(
            InnerEZKLError::SerializationError(
                String::from_str("public input rendering is not plain"),
            ),
        );
    }
    let mut out: Vec<u8> = Vec::new();
    push_byte(&mut out, 123);
    let k_instances = "instances".as_bytes_vec();
    push_name(&mut out, &k_instances);
    push_byte(&mut out, 58);
    push_num_list(&mut out, &sn.instances);
    push_byte(&mut out, 44);
    let k_proof = "proof".as_bytes_vec();
    push_name(&mut out, &k_proof);
    push_byte(&mut out, 58);
    let mut pwords: Vec<u64> = Vec::new();
    let mut pk: usize = 0;
    while pk < sn.proof.len()
        invariant
            0 <= pk <= sn.proof@.len(),
            pwords@ == proof_words(sn.proof@).take(pk as int),
        decreases sn.proof@.len() - pk,
    {
        pwords.push(sn.proof[pk] as u64);
        proof {
            assert(pwords@ =~= proof_words(sn.proof@).take(pk + 1));
        }
        pk += 1;
    }
    proof {
        assert(pwords@ =~= proof_words(sn.proof@));
    }
    push_num_list(&mut out, &pwords);
    push_byte(&mut out, 44);
    let k_tt = "transcript_type".as_bytes_vec();
    push_name(&mut out, &k_tt);
    push_byte(&mut out, 58);
    match sn.transcript_type {
        TranscriptType::EVM => {
            let tv = "EVM".as_bytes_vec();
            push_name(&mut out, &tv);
        },
        TranscriptType::Poseidon => {
            let tv = "Poseidon".as_bytes_vec();
            push_name(&mut out, &tv);
        },
    }
    push_byte(&mut out, 44);
    let k_pretty = "pretty_public_inputs".as_bytes_vec();
    push_name(&mut out, &k_pretty);
    push_byte(&mut out, 58);
    push_name(&mut out, &pb);
    push_byte(&mut out, 125);
    proof {
        assert(Seq::<u8>::empty() + seq![123u8] =~= seq![123u8]);
        assert(out@ =~= snark_bytes(*sn));
        lemma_snark_bytes_ascii(*sn);
    }
    Ok(ascii_to_string(out))
}

/// Parses the canonical proof document: the exact inverse of `snark_to_json`
/// at the level of the views, accepting nothing else.
pub fn snark_from_json(s: &str) -> (r: Result<Snark, InnerEZKLError>)
    ensures
        r matches Ok(sn) ==> wf_snark(sn) && encode_utf8(s@) == snark_bytes(sn),
        forall|sn2: Snark|
            wf_snark(sn2) && encode_utf8(s@) == #[trigger] snark_bytes(sn2) ==> (r matches Ok(
                sn,
            ) && sn.instances@ == sn2.instances@ && sn.proof@ == sn2.proof@ && sn.transcript_type
                == sn2.transcript_type && sn.pretty_public_inputs@
                == sn2.pretty_public_inputs@),
        r matches Err(e) ==> e matches InnerEZKLError::InvalidInput(_),
{
    let t = str_bytes(s);
    let scan = snark_scan(&t);
    match scan {
        Option::Some(sn) => {
            proof {
                lemma_sp_snark_sound(
                    t@,
                    sn.instances@,
                    proof_words(sn.proof@),
                    sn.transcript_type,
                    encode_utf8(sn.pretty_public_inputs@),
                );
                assert forall|sn2: Snark|
                    wf_snark(sn2) && encode_utf8(s@) == #[trigger] snark_bytes(sn2)
                    implies sn.instances@ == sn2.instances@ && sn.proof@ == sn2.proof@
                    && sn.transcript_type == sn2.transcript_type && sn.pretty_public_inputs@
                    == sn2.pretty_public_inputs@ by {
                    lemma_sp_snark_complete(sn2);
                    assert(proof_words(sn.proof@) == proof_words(sn2.proof@));
                    assert(sn.proof@ =~= sn2.proof@) by {
                        assert forall|x: int| 0 <= x < sn.proof@.len() implies sn.proof@[x]
                            == sn2.proof@[x] by {
                            assert(proof_words(sn.proof@)[x] == proof_words(sn2.proof@)[x]);
                        }
                    }
                    crate::json::lemma_encode_utf8_injective(
                        sn.pretty_public_inputs@,
                        sn2.pretty_public_inputs@,
                    );
                }
            }
            Ok(sn)
        },
        Option::None => {
            proof {
                assert forall|sn2: Snark|
                    !(wf_snark(sn2) && encode_utf8(s@) == #[trigger] snark_bytes(sn2)) by {
                    if wf_snark(sn2) && encode_utf8(s@) == snark_bytes(sn2) {
                        lemma_sp_snark_complete(sn2);
                    }
                }
            }
            Err(InnerEZKLError::InvalidInput(String::from_str("malformed proof JSON")))
        },
    }
}

} // verus!

use vstd::prelude::*;

verus! {

use vstd::string::*;
use vstd::utf8::*;

use crate::error::InnerEZKLError;
use crate::json::{all_names_wf, ascii_to_string, bytes_eq, check_name_bytes, dec, expect_byte,
    follows, is_ascii_bytes, is_digit_byte, is_name_byte, is_name_seq, is_ws_byte, jname, jpairs,
    lemma_dec_props, lemma_extend_cover, lemma_follows_concat, lemma_follows_index,
    lemma_sp_name_chunk, lemma_sp_name_of_jname, lemma_sp_num_chunk, lemma_sp_num_of_dec,
    lemma_sp_pairs_doc_of, lemma_sp_pairs_doc_sound, lemma_strip_id, match_lit, pair_bytes, pairs_items, parse_name,
    parse_num, push_byte, push_dec, push_lit, push_name, sp_name, sp_num, sp_pairs_doc,
    sp_pairs_items, str_bytes, strip, strip_ws};
use crate::scheme::CommitmentScheme;

/// The settings record embedded in a compiled circuit: the power-of-two row
/// count, the commitment scheme, whether any sub-module needs a polynomial
/// commitment, and the circuit's input/output arity.
#[derive(Clone, Copy, Debug, PartialEq, Eq, Structural)]
pub struct GraphSettings {
    pub logrows: u32,
    pub commitment: CommitmentScheme,
    pub module_requires_polycommit: bool,
    pub num_inputs: u32,
    pub num_outputs: u32,
}

/// An opaque compiled constraint-system descriptor together with its embedded
/// settings. The body is the backend's business; this layer reads only the
/// settings.
#[derive(Clone, Debug)]
pub struct CompiledCircuit {
    pub settings: GraphSettings,
    pub body: Vec<u8>,
}

/// One named circuit variable and its assigned value.
#[derive(Clone, Debug)]
pub struct WitnessVar {
    pub name: String,
    pub value: u64,
}

/// The per-input assignment to the circuit's variables: the bound inputs
/// followed by the computed outputs.
#[derive(Clone, Debug)]
pub struct GraphWitness {
    pub vars: Vec<WitnessVar>,
}

/// A variable name must spell only printable, unescaped, non-blank ASCII.
pub open spec fn wf_name(s: Seq<char>) -> bool {
    is_name_seq(encode_utf8(s))
}

pub open spec fn wf_var(v: WitnessVar) -> bool {
    wf_name(v.name@)
}

pub open spec fn wf_witness(w: GraphWitness) -> bool {
    forall|i: int| 0 <= i < w.vars@.len() ==> wf_var(#[trigger] w.vars@[i])
}

/// The name/value view of a witness, over the names' bytes.
pub open spec fn witness_pairs(w: GraphWitness) -> Seq<(Seq<u8>, u64)> {
    w.vars@.map_values(|v: WitnessVar| (encode_utf8(v.name@), v.value))
}

// ---------------------------------------------------------------------------
// The canonical settings document
// ---------------------------------------------------------------------------
/// The commitment scheme's token in the settings document.
pub open spec fn commit_token(c: CommitmentScheme) -> Seq<u8> {
    match c {
        CommitmentScheme::KZG => encode_utf8("KZG"@),
        CommitmentScheme::IPA => encode_utf8("IPA"@),
    }
}

pub open spec fn bool_token(b: bool) -> Seq<u8> {
    if b {
        encode_utf8("true"@)
    } else {
        encode_utf8("false"@)
    }
}

/// The canonical settings document: fixed keys in fixed order, no whitespace.
pub open spec fn settings_bytes(g: GraphSettings) -> Seq<u8> {
    seq![123u8] + jname(encode_utf8("commitment"@)) + seq![58u8] + jname(
        commit_token(g.commitment),
    ) + seq![44u8] + jname(encode_utf8("logrows"@)) + seq![58u8] + dec(g.logrows as u64)
        + seq![44u8] + jname(encode_utf8("module_requires_polycommit"@)) + seq![58u8] + bool_token(
        g.module_requires_polycommit,
    ) + seq![44u8] + jname(encode_utf8("num_inputs"@)) + seq![58u8] + dec(g.num_inputs as u64)
        + seq![44u8] + jname(encode_utf8("num_outputs"@)) + seq![58u8] + dec(g.num_outputs as u64)
        + seq![125u8]
}

/// Concrete byte values of the fixed value tokens.
pub proof fn lemma_value_tokens()
    ensures
        encode_utf8("KZG"@) == seq![75u8, 90u8, 71u8],
        encode_utf8("IPA"@) == seq![73u8, 80u8, 65u8],
        encode_utf8("true"@) == seq![116u8, 114u8, 117u8, 101u8],
        encode_utf8("false"@) == seq![102u8, 97u8, 108u8, 115u8, 101u8],
{
    reveal_strlit("KZG");
    assert(is_ascii_chars("KZG"@));
    is_ascii_chars_encode_utf8("KZG"@);
    assert(encode_utf8("KZG"@) =~= seq![75u8, 90u8, 71u8]);
    reveal_strlit("IPA");
    assert(is_ascii_chars("IPA"@));
    is_ascii_chars_encode_utf8("IPA"@);
    assert(encode_utf8("IPA"@) =~= seq![73u8, 80u8, 65u8]);
    reveal_strlit("true");
    assert(is_ascii_chars("true"@));
    is_ascii_chars_encode_utf8("true"@);
    assert(encode_utf8("true"@) =~= seq![116u8, 114u8, 117u8, 101u8]);
    reveal_strlit("false");
    assert(is_ascii_chars("false"@));
    is_ascii_chars_encode_utf8("false"@);
    assert(encode_utf8("false"@) =~= seq![102u8, 97u8, 108u8, 115u8, 101u8]);
}

/// ASCII character sequences encode to ASCII bytes.
pub proof fn lemma_encode_ascii(s: Seq<char>)
    requires
        is_ascii_chars(s),
    ensures
        is_ascii_bytes(encode_utf8(s)),
{
    is_ascii_chars_encode_utf8(s);
    assert forall|i: int| 0 <= i < encode_utf8(s).len() implies (#[trigger] encode_utf8(s)[i])
        < 128 by {
        assert(encode_utf8(s)[i] == s[i] as u8);
        assert(s[i] as nat <= 127);
    }
}

/// Quoting keeps bytes ASCII.
pub proof fn lemma_jname_ascii(x: Seq<u8>)
    requires
        is_ascii_bytes(x),
    ensures
        is_ascii_bytes(jname(x)),
{
    assert forall|i: int| 0 <= i < jname(x).len() implies (#[trigger] jname(x)[i]) < 128 by {
        if 1 <= i < jname(x).len() - 1 {
            assert(jname(x)[i] == x[i - 1]);
        }
    }
}

/// ASCII facts for the fixed keys of the artifacts.
pub proof fn lemma_keys_ascii()
    ensures
        is_ascii_bytes(encode_utf8("commitment"@)),
        is_ascii_bytes(encode_utf8("logrows"@)),
        is_ascii_bytes(encode_utf8("module_requires_polycommit"@)),
        is_ascii_bytes(encode_utf8("num_inputs"@)),
        is_ascii_bytes(encode_utf8("num_outputs"@)),
{
    reveal_strlit("commitment");
    assert(is_ascii_chars("commitment"@));
    lemma_encode_ascii("commitment"@);
    reveal_strlit("logrows");
    assert(is_ascii_chars("logrows"@));
    lemma_encode_ascii("logrows"@);
    reveal_strlit("module_requires_polycommit");
    assert(is_ascii_chars("module_requires_polycommit"@));
    lemma_encode_ascii("module_requires_polycommit"@);
    reveal_strlit("num_inputs");
    assert(is_ascii_chars("num_inputs"@));
    lemma_encode_ascii("num_inputs"@);
    reveal_strlit("num_outputs");
    assert(is_ascii_chars("num_outputs"@));
    lemma_encode_ascii("num_outputs"@);
}

/// The whole settings document is ASCII.
pub proof fn lemma_settings_bytes_ascii(g: GraphSettings)
    ensures
        is_ascii_bytes(settings_bytes(g)),
{
    lemma_value_tokens();
    lemma_keys_ascii();
    lemma_dec_props(g.logrows as u64);
    lemma_dec_props(g.num_inputs as u64);
    lemma_dec_props(g.num_outputs as u64);
    lemma_jname_ascii(encode_utf8("commitment"@));
    lemma_jname_ascii(encode_utf8("logrows"@));
    lemma_jname_ascii(encode_utf8("module_requires_polycommit"@));
    lemma_jname_ascii(encode_utf8("num_inputs"@));
    lemma_jname_ascii(encode_utf8("num_outputs"@));
    lemma_jname_ascii(commit_token(g.commitment));
    assert(is_ascii_bytes(bool_token(g.module_requires_polycommit)));
    assert(is_ascii_bytes(dec(g.logrows as u64))) by {
        assert forall|x: int| 0 <= x < dec(g.logrows as u64).len() implies (#[trigger] dec(
            g.logrows as u64,
        )[x]) < 128 by {
            assert(is_digit_byte(dec(g.logrows as u64)[x]));
        }
    }
    assert(is_ascii_bytes(dec(g.num_inputs as u64))) by {
        assert forall|x: int| 0 <= x < dec(g.num_inputs as u64).len() implies (#[trigger] dec(
            g.num_inputs as u64,
        )[x]) < 128 by {
            assert(is_digit_byte(dec(g.num_inputs as u64)[x]));
        }
    }
    assert(is_ascii_bytes(dec(g.num_outputs as u64))) by {
        assert forall|x: int| 0 <= x < dec(g.num_outputs as u64).len() implies (#[trigger] dec(
            g.num_outputs as u64,
        )[x]) < 128 by {
            assert(is_digit_byte(dec(g.num_outputs as u64)[x]));
        }
    }
    assert forall|i: int| 0 <= i < settings_bytes(g).len() implies (#[trigger] settings_bytes(
        g,
    )[i]) < 128 by {
        let b = settings_bytes(g)[i];
    }
}

/// Where each token of the canonical settings document sits.
pub proof fn lemma_settings_follows(t: Seq<u8>, g: GraphSettings)
    requires
        t == settings_bytes(g),
    ensures
        follows(t, 0, seq![123u8]),
        follows(t, 0int + 1, jname(encode_utf8("commitment"@))),
        follows(t, 0int + 1int + jname(encode_utf8("commitment"@)).len(), seq![58u8]),
        follows(t, 0int + 1int + jname(encode_utf8("commitment"@)).len() + 1, jname(commit_token(g.commitment))),
        follows(t, 0int + 1int + jname(encode_utf8("commitment"@)).len() + 1
            + jname(commit_token(g.commitment)).len(), seq![44u8]),
        follows(t, 0int + 1int + jname(encode_utf8("commitment"@)).len() + 1
            + jname(commit_token(g.commitment)).len() + 1, jname(encode_utf8("logrows"@))),
        follows(t, 0int + 1int + jname(encode_utf8("commitment"@)).len() + 1
            + jname(commit_token(g.commitment)).len() + 1
            + jname(encode_utf8("logrows"@)).len(), seq![58u8]),
        follows(t, 0int + 1int + jname(encode_utf8("commitment"@)).len() + 1
            + jname(commit_token(g.commitment)).len() + 1 + jname(encode_utf8("logrows"@)).len()
            + 1, dec(g.logrows as u64)),
        follows(t, 0int + 1int + jname(encode_utf8("commitment"@)).len() + 1
            + jname(commit_token(g.commitment)).len() + 1 + jname(encode_utf8("logrows"@)).len() + 1
            + dec(g.logrows as u64).len(), seq![44u8]),
        follows(t, 0int + 1int + jname(encode_utf8("commitment"@)).len() + 1
            + jname(commit_token(g.commitment)).len() + 1 + jname(encode_utf8("logrows"@)).len() + 1
            + dec(g.logrows as u64).len() + 1, jname(encode_utf8("module_requires_polycommit"@))),
        follows(t, 0int + 1int + jname(encode_utf8("commitment"@)).len() + 1
            + jname(commit_token(g.commitment)).len() + 1 + jname(encode_utf8("logrows"@)).len() + 1
            + dec(g.logrows as u64).len() + 1
            + jname(encode_utf8("module_requires_polycommit"@)).len(), seq![58u8]),
        follows(t, 0int + 1int + jname(encode_utf8("commitment"@)).len() + 1
            + jname(commit_token(g.commitment)).len() + 1 + jname(encode_utf8("logrows"@)).len() + 1
            + dec(g.logrows as u64).len() + 1
            + jname(encode_utf8("module_requires_polycommit"@)).len()
            + 1, bool_token(g.module_requires_polycommit)),
        follows(t, 0int + 1int + jname(encode_utf8("commitment"@)).len() + 1
            + jname(commit_token(g.commitment)).len() + 1 + jname(encode_utf8("logrows"@)).len() + 1
            + dec(g.logrows as u64).len() + 1
            + jname(encode_utf8("module_requires_polycommit"@)).len() + 1
            + bool_token(g.module_requires_polycommit).len(), seq![44u8]),
        follows(t, 0int + 1int + jname(encode_utf8("commitment"@)).len() + 1
            + jname(commit_token(g.commitment)).len() + 1 + jname(encode_utf8("logrows"@)).len() + 1
            + dec(g.logrows as u64).len() + 1
            + jname(encode_utf8("module_requires_polycommit"@)).len() + 1
            + bool_token(g.module_requires_polycommit).len()
            + 1, jname(encode_utf8("num_inputs"@))),
        follows(t, 0int + 1int + jname(encode_utf8("commitment"@)).len() + 1
            + jname(commit_token(g.commitment)).len() + 1 + jname(encode_utf8("logrows"@)).len() + 1
            + dec(g.logrows as u64).len() + 1
            + jname(encode_utf8("module_requires_polycommit"@)).len() + 1
            + bool_token(g.module_requires_polycommit).len() + 1
            + jname(encode_utf8("num_inputs"@)).len(), seq![58u8]),
        follows(t, 0int + 1int + jname(encode_utf8("commitment"@)).len() + 1
            + jname(commit_token(g.commitment)).len() + 1 + jname(encode_utf8("logrows"@)).len() + 1
            + dec(g.logrows as u64).len() + 1
            + jname(encode_utf8("module_requires_polycommit"@)).len() + 1
            + bool_token(g.module_requires_polycommit).len() + 1
            + jname(encode_utf8("num_inputs"@)).len() + 1, dec(g.num_inputs as u64)),
        follows(t, 0int + 1int + jname(encode_utf8("commitment"@)).len() + 1
            + jname(commit_token(g.commitment)).len() + 1 + jname(encode_utf8("logrows"@)).len() + 1
            + dec(g.logrows as u64).len() + 1
            + jname(encode_utf8("module_requires_polycommit"@)).len() + 1
            + bool_token(g.module_requires_polycommit).len() + 1
            + jname(encode_utf8("num_inputs"@)).len() + 1
            + dec(g.num_inputs as u64).len(), seq![44u8]),
        follows(t, 0int + 1int + jname(encode_utf8("commitment"@)).len() + 1
            + jname(commit_token(g.commitment)).len() + 1 + jname(encode_utf8("logrows"@)).len() + 1
            + dec(g.logrows as u64).len() + 1
            + jname(encode_utf8("module_requires_polycommit"@)).len() + 1
            + bool_token(g.module_requires_polycommit).len() + 1
            + jname(encode_utf8("num_inputs"@)).len() + 1 + dec(g.num_inputs as u64).len()
            + 1, jname(encode_utf8("num_outputs"@))),
        follows(t, 0int + 1int + jname(encode_utf8("commitment"@)).len() + 1
            + jname(commit_token(g.commitment)).len() + 1 + jname(encode_utf8("logrows"@)).len() + 1
            + dec(g.logrows as u64).len() + 1
            + jname(encode_utf8("module_requires_polycommit"@)).len() + 1
            + bool_token(g.module_requires_polycommit).len() + 1
            + jname(encode_utf8("num_inputs"@)).len() + 1 + dec(g.num_inputs as u64).len() + 1
            + jname(encode_utf8("num_outputs"@)).len(), seq![58u8]),
        follows(t, 0int + 1int + jname(encode_utf8("commitment"@)).len() + 1
            + jname(commit_token(g.commitment)).len() + 1 + jname(encode_utf8("logrows"@)).len() + 1
            + dec(g.logrows as u64).len() + 1
            + jname(encode_utf8("module_requires_polycommit"@)).len() + 1
            + bool_token(g.module_requires_polycommit).len() + 1
            + jname(encode_utf8("num_inputs"@)).len() + 1 + dec(g.num_inputs as u64).len() + 1
            + jname(encode_utf8("num_outputs"@)).len() + 1, dec(g.num_outputs as u64)),
        follows(t, 0int + 1int + jname(encode_utf8("commitment"@)).len() + 1
            + jname(commit_token(g.commitment)).len() + 1 + jname(encode_utf8("logrows"@)).len() + 1
            + dec(g.logrows as u64).len() + 1
            + jname(encode_utf8("module_requires_polycommit"@)).len() + 1
            + bool_token(g.module_requires_polycommit).len() + 1
            + jname(encode_utf8("num_inputs"@)).len() + 1 + dec(g.num_inputs as u64).len() + 1
            + jname(encode_utf8("num_outputs"@)).len() + 1
            + dec(g.num_outputs as u64).len(), seq![125u8]),
        t.len() == 0 + 1int + jname(encode_utf8("commitment"@)).len() + 1
            + jname(commit_token(g.commitment)).len() + 1 + jname(encode_utf8("logrows"@)).len() + 1
            + dec(g.logrows as u64).len() + 1
            + jname(encode_utf8("module_requires_polycommit"@)).len() + 1
            + bool_token(g.module_requires_polycommit).len() + 1
            + jname(encode_utf8("num_inputs"@)).len() + 1 + dec(g.num_inputs as u64).len() + 1
            + jname(encode_utf8("num_outputs"@)).len() + 1 + dec(g.num_outputs as u64).len() + 1,
{
    assert(follows(t, 0, settings_bytes(g))) by {
        assert(t.subrange(0, t.len() as int) =~= t);
    }
    lemma_follows_concat(t, 0, seq![123u8] + jname(encode_utf8("commitment"@)) + seq![58u8]
        + jname(commit_token(g.commitment)) + seq![44u8] + jname(encode_utf8("logrows"@))
        + seq![58u8] + dec(g.logrows as u64) + seq![44u8]
        + jname(encode_utf8("module_requires_polycommit"@)) + seq![58u8]
        + bool_token(g.module_requires_polycommit) + seq![44u8] + jname(encode_utf8("num_inputs"@))
        + seq![58u8] + dec(g.num_inputs as u64) + seq![44u8] + jname(encode_utf8("num_outputs"@))
        + seq![58u8] + dec(g.num_outputs as u64), seq![125u8]);
    lemma_follows_concat(t, 0, seq![123u8] + jname(encode_utf8("commitment"@)) + seq![58u8]
        + jname(commit_token(g.commitment)) + seq![44u8] + jname(encode_utf8("logrows"@))
        + seq![58u8] + dec(g.logrows as u64) + seq![44u8]
        + jname(encode_utf8("module_requires_polycommit"@)) + seq![58u8]
        + bool_token(g.module_requires_polycommit) + seq![44u8] + jname(encode_utf8("num_inputs"@))
        + seq![58u8] + dec(g.num_inputs as u64) + seq![44u8] + jname(encode_utf8("num_outputs"@))
        + seq![58u8], dec(g.num_outputs as u64));
    lemma_follows_concat(t, 0, seq![123u8] + jname(encode_utf8("commitment"@)) + seq![58u8]
        + jname(commit_token(g.commitment)) + seq![44u8] + jname(encode_utf8("logrows"@))
        + seq![58u8] + dec(g.logrows as u64) + seq![44u8]
        + jname(encode_utf8("module_requires_polycommit"@)) + seq![58u8]
        + bool_token(g.module_requires_polycommit) + seq![44u8] + jname(encode_utf8("num_inputs"@))
        + seq![58u8] + dec(g.num_inputs as u64) + seq![44u8]
        + jname(encode_utf8("num_outputs"@)), seq![58u8]);
    lemma_follows_concat(t, 0, seq![123u8] + jname(encode_utf8("commitment"@)) + seq![58u8]
        + jname(commit_token(g.commitment)) + seq![44u8] + jname(encode_utf8("logrows"@))
        + seq![58u8] + dec(g.logrows as u64) + seq![44u8]
        + jname(encode_utf8("module_requires_polycommit"@)) + seq![58u8]
        + bool_token(g.module_requires_polycommit) + seq![44u8] + jname(encode_utf8("num_inputs"@))
        + seq![58u8] + dec(g.num_inputs as u64) + seq![44u8], jname(encode_utf8("num_outputs"@)));
    lemma_follows_concat(t, 0, seq![123u8] + jname(encode_utf8("commitment"@)) + seq![58u8]
        + jname(commit_token(g.commitment)) + seq![44u8] + jname(encode_utf8("logrows"@))
        + seq![58u8] + dec(g.logrows as u64) + seq![44u8]
        + jname(encode_utf8("module_requires_polycommit"@)) + seq![58u8]
        + bool_token(g.module_requires_polycommit) + seq![44u8] + jname(encode_utf8("num_inputs"@))
        + seq![58u8] + dec(g.num_inputs as u64), seq![44u8]);
    lemma_follows_concat(t, 0, seq![123u8] + jname(encode_utf8("commitment"@)) + seq![58u8]
        + jname(commit_token(g.commitment)) + seq![44u8] + jname(encode_utf8("logrows"@))
        + seq![58u8] + dec(g.logrows as u64) + seq![44u8]
        + jname(encode_utf8("module_requires_polycommit"@)) + seq![58u8]
        + bool_token(g.module_requires_polycommit) + seq![44u8] + jname(encode_utf8("num_inputs"@))
        + seq![58u8], dec(g.num_inputs as u64));
    lemma_follows_concat(t, 0, seq![123u8] + jname(encode_utf8("commitment"@)) + seq![58u8]
        + jname(commit_token(g.commitment)) + seq![44u8] + jname(encode_utf8("logrows"@))
        + seq![58u8] + dec(g.logrows as u64) + seq![44u8]
        + jname(encode_utf8("module_requires_polycommit"@)) + seq![58u8]
        + bool_token(g.module_requires_polycommit) + seq![44u8]
        + jname(encode_utf8("num_inputs"@)), seq![58u8]);
    lemma_follows_concat(t, 0, seq![123u8] + jname(encode_utf8("commitment"@)) + seq![58u8]
        + jname(commit_token(g.commitment)) + seq![44u8] + jname(encode_utf8("logrows"@))
        + seq![58u8] + dec(g.logrows as u64) + seq![44u8]
        + jname(encode_utf8("module_requires_polycommit"@)) + seq![58u8]
        + bool_token(g.module_requires_polycommit) + seq![44u8], jname(encode_utf8("num_inputs"@)));
    lemma_follows_concat(t, 0, seq![123u8] + jname(encode_utf8("commitment"@)) + seq![58u8]
        + jname(commit_token(g.commitment)) + seq![44u8] + jname(encode_utf8("logrows"@))
        + seq![58u8] + dec(g.logrows as u64) + seq![44u8]
        + jname(encode_utf8("module_requires_polycommit"@)) + seq![58u8]
        + bool_token(g.module_requires_polycommit), seq![44u8]);
    lemma_follows_concat(t, 0, seq![123u8] + jname(encode_utf8("commitment"@)) + seq![58u8]
        + jname(commit_token(g.commitment)) + seq![44u8] + jname(encode_utf8("logrows"@))
        + seq![58u8] + dec(g.logrows as u64) + seq![44u8]
        + jname(encode_utf8("module_requires_polycommit"@))
        + seq![58u8], bool_token(g.module_requires_polycommit));
    lemma_follows_concat(t, 0, seq![123u8] + jname(encode_utf8("commitment"@)) + seq![58u8]
        + jname(commit_token(g.commitment)) + seq![44u8] + jname(encode_utf8("logrows"@))
        + seq![58u8] + dec(g.logrows as u64) + seq![44u8]
        + jname(encode_utf8("module_requires_polycommit"@)), seq![58u8]);
    lemma_follows_concat(t, 0, seq![123u8] + jname(encode_utf8("commitment"@)) + seq![58u8]
        + jname(commit_token(g.commitment)) + seq![44u8] + jname(encode_utf8("logrows"@))
        + seq![58u8] + dec(g.logrows as u64)
        + seq![44u8], jname(encode_utf8("module_requires_polycommit"@)));
    lemma_follows_concat(t, 0, seq![123u8] + jname(encode_utf8("commitment"@)) + seq![58u8]
        + jname(commit_token(g.commitment)) + seq![44u8] + jname(encode_utf8("logrows"@))
        + seq![58u8] + dec(g.logrows as u64), seq![44u8]);
    lemma_follows_concat(t, 0, seq![123u8] + jname(encode_utf8("commitment"@)) + seq![58u8]
        + jname(commit_token(g.commitment)) + seq![44u8] + jname(encode_utf8("logrows"@))
        + seq![58u8], dec(g.logrows as u64));
    lemma_follows_concat(t, 0, seq![123u8] + jname(encode_utf8("commitment"@)) + seq![58u8]
        + jname(commit_token(g.commitment)) + seq![44u8]
        + jname(encode_utf8("logrows"@)), seq![58u8]);
    lemma_follows_concat(t, 0, seq![123u8] + jname(encode_utf8("commitment"@)) + seq![58u8]
        + jname(commit_token(g.commitment)) + seq![44u8], jname(encode_utf8("logrows"@)));
    lemma_follows_concat(t, 0, seq![123u8] + jname(encode_utf8("commitment"@)) + seq![58u8]
        + jname(commit_token(g.commitment)), seq![44u8]);
    lemma_follows_concat(t, 0, seq![123u8] + jname(encode_utf8("commitment"@))
        + seq![58u8], jname(commit_token(g.commitment)));
    lemma_follows_concat(t, 0, seq![123u8] + jname(encode_utf8("commitment"@)), seq![58u8]);
    lemma_follows_concat(t, 0, seq![123u8], jname(encode_utf8("commitment"@)));
}

/// Renders settings as their canonical JSON document.
pub fn settings_to_json(g: &GraphSettings) -> (r: String)
    ensures
        encode_utf8(r@) == settings_bytes(*g),
        r@ == decode_utf8(settings_bytes(*g)),
{
    let mut out: Vec<u8> = Vec::new();
    push_byte(&mut out, 123);
    let kv_commitment = "commitment".as_bytes_vec();
    push_name(&mut out, &kv_commitment);
    push_byte(&mut out, 58);
    match g.commitment {
        CommitmentScheme::KZG => {
            let cv = "KZG".as_bytes_vec();
            push_name(&mut out, &cv);
        },
        CommitmentScheme::IPA => {
            let cv = "IPA".as_bytes_vec();
            push_name(&mut out, &cv);
        },
    }
    push_byte(&mut out, 44);
    let kv_logrows = "logrows".as_bytes_vec();
    push_name(&mut out, &kv_logrows);
    push_byte(&mut out, 58);
    push_dec(&mut out, g.logrows as u64);
    push_byte(&mut out, 44);
    let kv_module_requires_polycommit = "module_requires_polycommit".as_bytes_vec();
    push_name(&mut out, &kv_module_requires_polycommit);
    push_byte(&mut out, 58);
    if g.module_requires_polycommit {
        push_lit(&mut out, "true");
    } else {
        push_lit(&mut out, "false");
    }
    push_byte(&mut out, 44);
    let kv_num_inputs = "num_inputs".as_bytes_vec();
    push_name(&mut out, &kv_num_inputs);
    push_byte(&mut out, 58);
    push_dec(&mut out, g.num_inputs as u64);
    push_byte(&mut out, 44);
    let kv_num_outputs = "num_outputs".as_bytes_vec();
    push_name(&mut out, &kv_num_outputs);
    push_byte(&mut out, 58);
    push_dec(&mut out, g.num_outputs as u64);
    push_byte(&mut out, 125);
    proof {
        assert(Seq::<u8>::empty() + seq![123u8] =~= seq![123u8]);
        assert(out@ =~= settings_bytes(*g));
        lemma_settings_bytes_ascii(*g);
    }
    ascii_to_string(out)
}

/// Name-shape facts for the fixed keys and value tokens.
pub proof fn lemma_keys_wf()
    ensures
        is_name_seq(encode_utf8("commitment"@)),
        is_name_seq(encode_utf8("logrows"@)),
        is_name_seq(encode_utf8("module_requires_polycommit"@)),
        is_name_seq(encode_utf8("num_inputs"@)),
        is_name_seq(encode_utf8("num_outputs"@)),
        is_name_seq(commit_token(CommitmentScheme::KZG)),
        is_name_seq(commit_token(CommitmentScheme::IPA)),
{
    lemma_value_tokens();
    assert(is_name_seq(seq![75u8, 90u8, 71u8]));
    assert(is_name_seq(seq![73u8, 80u8, 65u8]));
    reveal_strlit("commitment");
    assert(is_ascii_chars("commitment"@));
    is_ascii_chars_encode_utf8("commitment"@);
    assert forall|x: int| 0 <= x < encode_utf8("commitment"@).len() implies is_name_byte(
        #[trigger] encode_utf8("commitment"@)[x],
    ) by {
        assert(encode_utf8("commitment"@)[x] == "commitment"@[x] as u8);
    }
    reveal_strlit("logrows");
    assert(is_ascii_chars("logrows"@));
    is_ascii_chars_encode_utf8("logrows"@);
    assert forall|x: int| 0 <= x < encode_utf8("logrows"@).len() implies is_name_byte(
        #[trigger] encode_utf8("logrows"@)[x],
    ) by {
        assert(encode_utf8("logrows"@)[x] == "logrows"@[x] as u8);
    }
    reveal_strlit("module_requires_polycommit");
    assert(is_ascii_chars("module_requires_polycommit"@));
    is_ascii_chars_encode_utf8("module_requires_polycommit"@);
    assert forall|x: int| 0 <= x < encode_utf8("module_requires_polycommit"@).len()
        implies is_name_byte(#[trigger] encode_utf8("module_requires_polycommit"@)[x]) by {
        assert(encode_utf8("module_requires_polycommit"@)[x] == "module_requires_polycommit"@[x]
            as u8);
    }
    reveal_strlit("num_inputs");
    assert(is_ascii_chars("num_inputs"@));
    is_ascii_chars_encode_utf8("num_inputs"@);
    assert forall|x: int| 0 <= x < encode_utf8("num_inputs"@).len() implies is_name_byte(
        #[trigger] encode_utf8("num_inputs"@)[x],
    ) by {
        assert(encode_utf8("num_inputs"@)[x] == "num_inputs"@[x] as u8);
    }
    reveal_strlit("num_outputs");
    assert(is_ascii_chars("num_outputs"@));
    is_ascii_chars_encode_utf8("num_outputs"@);
    assert forall|x: int| 0 <= x < encode_utf8("num_outputs"@).len() implies is_name_byte(
        #[trigger] encode_utf8("num_outputs"@)[x],
    ) by {
        assert(encode_utf8("num_outputs"@)[x] == "num_outputs"@[x] as u8);
    }
}


// ---------------------------------------------------------------------------
// Spec-level scan of the settings document, mirrored exactly by the parser
// ---------------------------------------------------------------------------
/// Spec-level scan of the canonical settings document: the fixed keys in
/// order, each value token, the closing brace, nothing after it.
pub open spec fn sp_settings(t: Seq<u8>) -> Option<GraphSettings> {
    if !follows(t, 0, seq![123u8]) {
        Option::None
    } else {
        match sp_name(t, 1) {
            Option::None => Option::None,
            Option::Some((k1, i1)) => {
                if !(k1 == encode_utf8("commitment"@) && follows(t, i1, seq![58u8])) {
                    Option::None
                } else {
                    match sp_name(t, i1 + 1) {
                        Option::None => Option::None,
                        Option::Some((cv, i2)) => {
                            if !(cv == encode_utf8("KZG"@) || cv == encode_utf8("IPA"@)) {
                                Option::None
                            } else {
                                let cm = if cv == encode_utf8("KZG"@) {
                                    CommitmentScheme::KZG
                                } else {
                                    CommitmentScheme::IPA
                                };
                                sp_settings_logrows(t, i2, cm)
                            }
                        },
                    }
                }
            },
        }
    }
}

pub open spec fn sp_settings_logrows(t: Seq<u8>, i2: int, cm: CommitmentScheme) -> Option<
    GraphSettings,
> {
    if !follows(t, i2, seq![44u8]) {
        Option::None
    } else {
        match sp_name(t, i2 + 1) {
            Option::None => Option::None,
            Option::Some((k2, i3)) => {
                if !(k2 == encode_utf8("logrows"@) && follows(t, i3, seq![58u8])) {
                    Option::None
                } else {
                    match sp_num(t, i3 + 1) {
                        Option::None => Option::None,
                        Option::Some((lr, i4)) => {
                            if !(lr <= u32::MAX) {
                                Option::None
                            } else {
                                sp_settings_module(t, i4, cm, lr as u32)
                            }
                        },
                    }
                }
            },
        }
    }
}

pub open spec fn sp_settings_module(t: Seq<u8>, i4: int, cm: CommitmentScheme, lr: u32) -> Option<
    GraphSettings,
> {
    if !follows(t, i4, seq![44u8]) {
        Option::None
    } else {
        match sp_name(t, i4 + 1) {
            Option::None => Option::None,
            Option::Some((k3, i5)) => {
                if !(k3 == encode_utf8("module_requires_polycommit"@) && follows(
                    t,
                    i5,
                    seq![58u8],
                )) {
                    Option::None
                } else {
                    if follows(t, i5 + 1, encode_utf8("true"@)) {
                        sp_settings_arity(t, i5 + 1 + encode_utf8("true"@).len(), cm, lr, true)
                    } else if follows(t, i5 + 1, encode_utf8("false"@)) {
                        sp_settings_arity(t, i5 + 1 + encode_utf8("false"@).len(), cm, lr, false)
                    } else {
                        Option::None
                    }
                }
            },
        }
    }
}

pub open spec fn sp_settings_arity(
    t: Seq<u8>,
    i6: int,
    cm: CommitmentScheme,
    lr: u32,
    m: bool,
) -> Option<GraphSettings> {
    if !follows(t, i6, seq![44u8]) {
        Option::None
    } else {
        match sp_name(t, i6 + 1) {
            Option::None => Option::None,
            Option::Some((k4, i7)) => {
                if !(k4 == encode_utf8("num_inputs"@) && follows(t, i7, seq![58u8])) {
                    Option::None
                } else {
                    match sp_num(t, i7 + 1) {
                        Option::None => Option::None,
                        Option::Some((ni, i8)) => {
                            if !(ni <= u32::MAX && follows(t, i8, seq![44u8])) {
                                Option::None
                            } else {
                                match sp_name(t, i8 + 1) {
                                    Option::None => Option::None,
                                    Option::Some((k5, i9)) => {
                                        if !(k5 == encode_utf8("num_outputs"@) && follows(
                                            t,
                                            i9,
                                            seq![58u8],
                                        )) {
                                            Option::None
                                        } else {
                                            match sp_num(t, i9 + 1) {
                                                Option::None => Option::None,
                                                Option::Some((no, i10)) => {
                                                    if no <= u32::MAX && follows(
                                                        t,
                                                        i10,
                                                        seq![125u8],
                                                    ) && i10 + 1 == t.len() {
                                                        Option::Some(
                                                            GraphSettings {
                                                                logrows: lr,
                                                                commitment: cm,
                                                                module_requires_polycommit: m,
                                                                num_inputs: ni as u32,
                                                                num_outputs: no as u32,
                                                            },
                                                        )
                                                    } else {
                                                        Option::None
                                                    }
                                                },
                                            }
                                        }
                                    },
                                }
                            }
                        },
                    }
                }
            },
        }
    }
}

/// The scanner, step for step the executable form of `sp_settings`.
fn settings_scan(t: &Vec<u8>) -> (r: Option<GraphSettings>)
    ensures
        r == sp_settings(t@),
{
    let kzg = "KZG".as_bytes_vec();
    let ipa = "IPA".as_bytes_vec();
    let k_commitment = "commitment".as_bytes_vec();
    let k_logrows = "logrows".as_bytes_vec();
    let k_module = "module_requires_polycommit".as_bytes_vec();
    let k_ni = "num_inputs".as_bytes_vec();
    let k_no = "num_outputs".as_bytes_vec();
    let p0 = match expect_byte(t, 0, 123) {
        Option::Some(j) => j,
        Option::None => {
            return None;
        },
    };
    let (k1, i1) = match parse_name(t, p0) {
        Option::Some(x) => x,
        Option::None => {
            return None;
        },
    };
    if !bytes_eq(&k1, &k_commitment) {
        return None;
    }
    let i1c = match expect_byte(t, i1, 58) {
        Option::Some(j) => j,
        Option::None => {
            return None;
        },
    };
    let (cv, i2) = match parse_name(t, i1c) {
        Option::Some(x) => x,
        Option::None => {
            return None;
        },
    };
    let is_kzg = bytes_eq(&cv, &kzg);
    let is_ipa = bytes_eq(&cv, &ipa);
    if !(is_kzg || is_ipa) {
        return None;
    }
    let cm = if is_kzg {
        CommitmentScheme::KZG
    } else {
        CommitmentScheme::IPA
    };
    let i2c = match expect_byte(t, i2, 44) {
        Option::Some(j) => j,
        Option::None => {
            return None;
        },
    };
    let (k2, i3) = match parse_name(t, i2c) {
        Option::Some(x) => x,
        Option::None => {
            return None;
        },
    };
    if !bytes_eq(&k2, &k_logrows) {
        return None;
    }
    let i3c = match expect_byte(t, i3, 58) {
        Option::Some(j) => j,
        Option::None => {
            return None;
        },
    };
    let (lr64, i4) = match parse_num(t, i3c) {
        Option::Some(x) => x,
        Option::None => {
            return None;
        },
    };
    if lr64 > 0xffff_ffff {
        return None;
    }
    let i4c = match expect_byte(t, i4, 44) {
        Option::Some(j) => j,
        Option::None => {
            return None;
        },
    };
    let (k3, i5) = match parse_name(t, i4c) {
        Option::Some(x) => x,
        Option::None => {
            return None;
        },
    };
    if !bytes_eq(&k3, &k_module) {
        return None;
    }
    let i5c = match expect_byte(t, i5, 58) {
        Option::Some(j) => j,
        Option::None => {
            return None;
        },
    };
    let (m, i6) = match match_lit(t, i5c, "true") {
        Option::Some(j) => (true, j),
        Option::None => {
            match match_lit(t, i5c, "false") {
                Option::Some(j) => (false, j),
                Option::None => {
                    return None;
                },
            }
        },
    };
    let i6c = match expect_byte(t, i6, 44) {
        Option::Some(j) => j,
        Option::None => {
            return None;
        },
    };
    let (k4, i7) = match parse_name(t, i6c) {
        Option::Some(x) => x,
        Option::None => {
            return None;
        },
    };
    if !bytes_eq(&k4, &k_ni) {
        return None;
    }
    let i7c = match expect_byte(t, i7, 58) {
        Option::Some(j) => j,
        Option::None => {
            return None;
        },
    };
    let (ni64, i8) = match parse_num(t, i7c) {
        Option::Some(x) => x,
        Option::None => {
            return None;
        },
    };
    if ni64 > 0xffff_ffff {
        return None;
    }
    let i8c = match expect_byte(t, i8, 44) {
        Option::Some(j) => j,
        Option::None => {
            return None;
        },
    };
    let (k5, i9) = match parse_name(t, i8c) {
        Option::Some(x) => x,
        Option::None => {
            return None;
        },
    };
    if !bytes_eq(&k5, &k_no) {
        return None;
    }
    let i9c = match expect_byte(t, i9, 58) {
        Option::Some(j) => j,
        Option::None => {
            return None;
        },
    };
    let (no64, i10) = match parse_num(t, i9c) {
        Option::Some(x) => x,
        Option::None => {
            return None;
        },
    };
    if no64 > 0xffff_ffff {
        return None;
    }
    let i10c = match expect_byte(t, i10, 125) {
        Option::Some(j) => j,
        Option::None => {
            return None;
        },
    };
    if i10c != t.len() {
        return None;
    }
    Some(
        GraphSettings {
            logrows: lr64 as u32,
            commitment: cm,
            module_requires_polycommit: m,
            num_inputs: ni64 as u32,
            num_outputs: no64 as u32,
        },
    )
}

/// A canonical settings document scans back to exactly its settings.
#[verifier::rlimit(100)]
pub proof fn lemma_sp_settings_complete(g: GraphSettings)
    ensures
        sp_settings(settings_bytes(g)) == Some(g),
{
    let t = settings_bytes(g);
    lemma_settings_follows(t, g);
    lemma_keys_wf();
    lemma_value_tokens();
    lemma_sp_name_of_jname(t, 1, encode_utf8("commitment"@));
    let i1 = 1int + jname(encode_utf8("commitment"@)).len() as int;
    let i2 = i1 + 1 + jname(commit_token(g.commitment)).len() as int;
    lemma_sp_name_of_jname(t, i1 + 1, commit_token(g.commitment));
    let i3 = i2 + 1 + jname(encode_utf8("logrows"@)).len() as int;
    lemma_sp_name_of_jname(t, i2 + 1, encode_utf8("logrows"@));
    let i4 = i3 + 1 + dec(g.logrows as u64).len() as int;
    lemma_follows_index(t, i4, seq![44u8], 0);
    lemma_sp_num_of_dec(t, i3 + 1, g.logrows as u64);
    let i5 = i4 + 1 + jname(encode_utf8("module_requires_polycommit"@)).len() as int;
    lemma_sp_name_of_jname(t, i4 + 1, encode_utf8("module_requires_polycommit"@));
    let i6 = i5 + 1 + bool_token(g.module_requires_polycommit).len() as int;
    if !g.module_requires_polycommit {
        assert(!follows(t, i5 + 1, encode_utf8("true"@))) by {
            if follows(t, i5 + 1, encode_utf8("true"@)) {
                lemma_follows_index(t, i5 + 1, encode_utf8("true"@), 0);
                lemma_follows_index(t, i5 + 1, encode_utf8("false"@), 0);
            }
        }
    }
    let i7 = i6 + 1 + jname(encode_utf8("num_inputs"@)).len() as int;
    lemma_sp_name_of_jname(t, i6 + 1, encode_utf8("num_inputs"@));
    let i8 = i7 + 1 + dec(g.num_inputs as u64).len() as int;
    lemma_follows_index(t, i8, seq![44u8], 0);
    lemma_sp_num_of_dec(t, i7 + 1, g.num_inputs as u64);
    let i9 = i8 + 1 + jname(encode_utf8("num_outputs"@)).len() as int;
    lemma_sp_name_of_jname(t, i8 + 1, encode_utf8("num_outputs"@));
    let i10 = i9 + 1 + dec(g.num_outputs as u64).len() as int;
    lemma_follows_index(t, i10, seq![125u8], 0);
    lemma_sp_num_of_dec(t, i9 + 1, g.num_outputs as u64);
    assert(cm_of_token(commit_token(g.commitment)) == g.commitment) by {
        lemma_value_tokens();
    }
}

/// Which scheme a commitment token names.
pub open spec fn cm_of_token(cv: Seq<u8>) -> CommitmentScheme {
    if cv == encode_utf8("KZG"@) {
        CommitmentScheme::KZG
    } else {
        CommitmentScheme::IPA
    }
}

/// A scan that succeeds only ever accepts the canonical document of its
/// result.
#[verifier::rlimit(60)]
pub proof fn lemma_sp_settings_sound(t: Seq<u8>, g: GraphSettings)
    requires
        sp_settings(t) == Some(g),
    ensures
        t == settings_bytes(g),
{
    lemma_value_tokens();
    assert(t.subrange(0, 0) =~= Seq::<u8>::empty());
    let r1 = sp_name(t, 1);
    let (k1, i1) = r1->Some_0;
    let r2 = sp_name(t, i1 + 1);
    let (cv, i2) = r2->Some_0;
    let cm = if cv == encode_utf8("KZG"@) {
        CommitmentScheme::KZG
    } else {
        CommitmentScheme::IPA
    };
    let r3 = sp_name(t, i2 + 1);
    let (k2, i3) = r3->Some_0;
    let r4 = sp_num(t, i3 + 1);
    let (lr, i4) = r4->Some_0;
    let r5 = sp_name(t, i4 + 1);
    let (k3, i5) = r5->Some_0;
    let m = follows(t, i5 + 1, encode_utf8("true"@));
    let i6 = if m {
        i5 + 1 + encode_utf8("true"@).len() as int
    } else {
        i5 + 1 + encode_utf8("false"@).len() as int
    };
    let r6 = sp_name(t, i6 + 1);
    let (k4, i7) = r6->Some_0;
    let r7 = sp_num(t, i7 + 1);
    let (ni, i8) = r7->Some_0;
    let r8 = sp_name(t, i8 + 1);
    let (k5, i9) = r8->Some_0;
    let r9 = sp_num(t, i9 + 1);
    let (no, i10) = r9->Some_0;
    lemma_sp_name_chunk(t, 1, k1, i1);
    lemma_sp_name_chunk(t, i1 + 1, cv, i2);
    lemma_sp_name_chunk(t, i2 + 1, k2, i3);
    lemma_sp_num_chunk(t, i3 + 1, lr, i4);
    lemma_sp_name_chunk(t, i4 + 1, k3, i5);
    lemma_sp_name_chunk(t, i6 + 1, k4, i7);
    lemma_sp_num_chunk(t, i7 + 1, ni, i8);
    lemma_sp_name_chunk(t, i8 + 1, k5, i9);
    lemma_sp_num_chunk(t, i9 + 1, no, i10);
    lemma_extend_cover(t, 0, seq![123u8]);
    assert(Seq::<u8>::empty() + seq![123u8] =~= seq![123u8]);
    lemma_extend_cover(t, 1, jname(k1));
    lemma_extend_cover(t, i1, seq![58u8]);
    lemma_extend_cover(t, i1 + 1, jname(cv));
    lemma_extend_cover(t, i2, seq![44u8]);
    lemma_extend_cover(t, i2 + 1, jname(k2));
    lemma_extend_cover(t, i3, seq![58u8]);
    lemma_extend_cover(t, i3 + 1, dec(lr));
    lemma_extend_cover(t, i4, seq![44u8]);
    lemma_extend_cover(t, i4 + 1, jname(k3));
    lemma_extend_cover(t, i5, seq![58u8]);
    lemma_extend_cover(t, i5 + 1, bool_token(m));
    lemma_extend_cover(t, i6, seq![44u8]);
    lemma_extend_cover(t, i6 + 1, jname(k4));
    lemma_extend_cover(t, i7, seq![58u8]);
    lemma_extend_cover(t, i7 + 1, dec(ni));
    lemma_extend_cover(t, i8, seq![44u8]);
    lemma_extend_cover(t, i8 + 1, jname(k5));
    lemma_extend_cover(t, i9, seq![58u8]);
    lemma_extend_cover(t, i9 + 1, dec(no));
    lemma_extend_cover(t, i10, seq![125u8]);
    assert(t.subrange(0, t.len() as int) =~= t);
    assert(commit_token(g.commitment) == cv);
    assert(dec(g.logrows as u64) == dec(lr));
    assert(dec(g.num_inputs as u64) == dec(ni));
    assert(dec(g.num_outputs as u64) == dec(no));
    assert(bool_token(g.module_requires_polycommit) == bool_token(m));
    assert(t == settings_bytes(g));
}

/// Parses the canonical settings document: the exact inverse of
/// `settings_to_json`, accepting nothing else.
pub fn settings_from_json(s: &str) -> (r: Result<GraphSettings, InnerEZKLError>)
    ensures
        forall|g: GraphSettings|
            encode_utf8(s@) == #[trigger] settings_bytes(g) ==> r == Ok::<
                GraphSettings,
                InnerEZKLError,
            >(g),
        r matches Ok(g) ==> encode_utf8(s@) == settings_bytes(g),
        r matches Err(e) ==> e matches InnerEZKLError::InvalidInput(_),
{
    let t = str_bytes(s);
    let scan = settings_scan(&t);
    match scan {
        Option::Some(g) => {
            proof {
                lemma_sp_settings_sound(t@, g);
                assert forall|g2: GraphSettings|
                    encode_utf8(s@) == #[trigger] settings_bytes(g2) implies Ok::<
                    GraphSettings,
                    InnerEZKLError,
                >(g) == Ok::<GraphSettings, InnerEZKLError>(g2) by {
                    lemma_sp_settings_complete(g2);
                }
            }
            Ok(g)
        },
        Option::None => {
            proof {
                assert forall|g2: GraphSettings|
                    encode_utf8(s@) != #[trigger] settings_bytes(g2) by {
                    if encode_utf8(s@) == settings_bytes(g2) {
                        lemma_sp_settings_complete(g2);
                    }
                }
            }
            Err(InnerEZKLError::InvalidInput(String::from_str("malformed settings JSON")))
        },
    }
}

// ---------------------------------------------------------------------------
// Witness and input documents: objects of named values
// ---------------------------------------------------------------------------
/// Appending one member to a member list appends its rendering.
pub proof fn lemma_pairs_items_snoc(ps: Seq<(Seq<u8>, u64)>, p: (Seq<u8>, u64))
    ensures
        pairs_items(ps.push(p)) == if ps.len() == 0 {
            pair_bytes(p.0, p.1)
        } else {
            pairs_items(ps) + seq![44u8] + pairs_items(seq![p])
        },
    decreases ps.len(),
{
    let whole = ps.push(p);
    if ps.len() == 0 {
        assert(whole.len() == 1);
        assert(whole[0] == p);
    } else {
        assert(whole[0] == ps[0]);
        lemma_pairs_items_snoc(ps.drop_first(), p);
        assert(whole.drop_first() =~= ps.drop_first().push(p));
        if ps.len() == 1 {
            assert(pairs_items(whole) == pair_bytes(whole[0].0, whole[0].1) + seq![44u8]
                + pairs_items(whole.drop_first()));
            assert(pairs_items(ps.drop_first().push(p)) == pair_bytes(p.0, p.1));
            assert(pairs_items(seq![p]) == pair_bytes(p.0, p.1));
            assert(pairs_items(ps) == pair_bytes(ps[0].0, ps[0].1));
            assert(pairs_items(whole) =~= pairs_items(ps) + seq![44u8] + pairs_items(seq![p]));
        } else {
            assert(pairs_items(whole) == pair_bytes(whole[0].0, whole[0].1) + seq![44u8]
                + pairs_items(whole.drop_first()));
            assert(pairs_items(ps) == pair_bytes(ps[0].0, ps[0].1) + seq![44u8] + pairs_items(
                ps.drop_first(),
            ));
            assert(pairs_items(whole) =~= pairs_items(ps) + seq![44u8] + pairs_items(seq![p]));
        }
    }
}

/// Scans the members of an object document; the executable form of
/// `sp_pairs_doc`.
fn pairs_scan(t: &Vec<u8>) -> (r: Option<Vec<(Vec<u8>, u64)>>)
    ensures
        match r {
            Option::Some(ps) => sp_pairs_doc(t@) == Some(
                ps@.map_values(|pr: (Vec<u8>, u64)| (pr.0@, pr.1)),
            ) && (forall|x: int|
                0 <= x < ps@.len() ==> is_name_seq((#[trigger] ps@[x]).0@) && is_ascii_bytes(
                    ps@[x].0@,
                )),
            Option::None => sp_pairs_doc(t@) is None,
        },
{
    if t.len() < 2 {
        return None;
    }
    if t[0] != 123 {
        return None;
    }
    if t[1] == 125 {
        if t.len() == 2 {
            let ps: Vec<(Vec<u8>, u64)> = Vec::new();
            proof {
                assert(ps@.map_values(|pr: (Vec<u8>, u64)| (pr.0@, pr.1)) =~= Seq::<
                    (Seq<u8>, u64),
                >::empty());
            }
            return Some(ps);
        } else {
            return None;
        }
    }
    let mut acc: Vec<(Vec<u8>, u64)> = Vec::new();
    let mut i: usize = 1;
    loop
        invariant_except_break
            1 <= i <= t@.len(),
            sp_pairs_items(t@, 1) == (match sp_pairs_items(t@, i as int) {
                Option::Some((rest, e)) => Option::Some(
                    (acc@.map_values(|pr: (Vec<u8>, u64)| (pr.0@, pr.1)) + rest, e),
                ),
                Option::None => Option::None::<(Seq<(Seq<u8>, u64)>, int)>,
            }),
        invariant
            t@.len() >= 2,
            t@[0] == 123,
            t@[1] != 125,
            forall|x: int|
                0 <= x < acc@.len() ==> is_name_seq((#[trigger] acc@[x]).0@) && is_ascii_bytes(
                    acc@[x].0@,
                ),
        ensures
            1 <= i <= t@.len(),
            sp_pairs_items(t@, 1) == Option::Some(
                (acc@.map_values(|pr: (Vec<u8>, u64)| (pr.0@, pr.1)), i as int),
            ),
        decreases t@.len() - i,
    {
        let ghost acc0 = acc@;
        let r1 = parse_name(t, i);
        let (name, i1) = match r1 {
            Option::Some(x) => x,
            Option::None => {
                proof {
                    assert(sp_pairs_items(t@, i as int) is None);
                    assert(sp_pairs_doc(t@) is None);
                }
                return None;
            },
        };
        let r2 = expect_byte(t, i1, 58);
        let i1c = match r2 {
            Option::Some(j) => j,
            Option::None => {
                proof {
                    if i1 < t@.len() && t@[i1 as int] == 58 {
                        assert(t@.subrange(i1 as int, i1 as int + 1) =~= seq![58u8]);
                    }
                    assert(sp_pairs_items(t@, i as int) is None);
                    assert(sp_pairs_doc(t@) is None);
                }
                return None;
            },
        };
        proof {
            lemma_follows_index(t@, i1 as int, seq![58u8], 0);
        }
        let r3 = parse_num(t, i1c);
        let (v, i2) = match r3 {
            Option::Some(x) => x,
            Option::None => {
                proof {
                    assert(sp_pairs_items(t@, i as int) is None);
                    assert(sp_pairs_doc(t@) is None);
                }
                return None;
            },
        };
        let ghost nv = (name@, v);
        acc.push((name, v));
        proof {
            assert(acc@ =~= acc0.push((name, v)));
            assert(acc@.map_values(|pr: (Vec<u8>, u64)| (pr.0@, pr.1)) =~= acc0.map_values(
                |pr: (Vec<u8>, u64)| (pr.0@, pr.1),
            ).push(nv));
        }
        if i2 < t.len() && t[i2] == 44 {
            proof {
                let rest0 = sp_pairs_items(t@, i2 + 1);
                match rest0 {
                    Option::Some((rest, e)) => {
                        assert(sp_pairs_items(t@, i as int) == Option::Some(
                            (seq![nv] + rest, e),
                        ));
                        assert(acc0.map_values(|pr: (Vec<u8>, u64)| (pr.0@, pr.1)) + (seq![nv]
                            + rest) =~= acc@.map_values(|pr: (Vec<u8>, u64)| (pr.0@, pr.1))
                            + rest);
                    },
                    Option::None => {
                        assert(sp_pairs_items(t@, i as int) is None);
                    },
                }
            }
            i = i2 + 1;
        } else {
            proof {
                assert(sp_pairs_items(t@, i as int) == Option::Some((seq![nv], i2 as int)));
                assert(acc0.map_values(|pr: (Vec<u8>, u64)| (pr.0@, pr.1)) + seq![nv]
                    =~= acc@.map_values(|pr: (Vec<u8>, u64)| (pr.0@, pr.1)));
            }
            i = i2;
            break;
        }
    }
    if i < t.len() && t[i] == 125 && i + 1 == t.len() {
        Some(acc)
    } else {
        proof {
            assert(sp_pairs_doc(t@) is None);
        }
        None
    }
}

/// The whole object document is ASCII and free of whitespace when its names
/// are well formed.
pub proof fn lemma_jpairs_clean(ps: Seq<(Seq<u8>, u64)>)
    requires
        all_names_wf(ps),
    ensures
        is_ascii_bytes(jpairs(ps)),
        forall|i: int| 0 <= i < jpairs(ps).len() ==> !is_ws_byte(#[trigger] jpairs(ps)[i]),
    decreases ps.len(),
{
    if ps.len() == 0 {
        assert forall|i: int| 0 <= i < jpairs(ps).len() implies (#[trigger] jpairs(ps)[i]) < 128
            && !is_ws_byte(jpairs(ps)[i]) by {
            assert(pairs_items(ps).len() == 0);
            assert(jpairs(ps).len() == 2);
        }
    } else {
        let head = pair_bytes(ps[0].0, ps[0].1);
        lemma_dec_props(ps[0].1);
        assert(is_name_seq(ps[0].0));
        assert forall|i: int| 0 <= i < head.len() implies (#[trigger] head[i]) < 128
            && !is_ws_byte(head[i]) by {
            assert(head == jname(ps[0].0) + seq![58u8] + dec(ps[0].1));
            if i < jname(ps[0].0).len() {
                assert(head[i] == jname(ps[0].0)[i]);
                if 1 <= i < jname(ps[0].0).len() - 1 {
                    assert(jname(ps[0].0)[i] == ps[0].0[i - 1]);
                    assert(is_name_byte(ps[0].0[i - 1]));
                }
            } else if i == jname(ps[0].0).len() {
            } else {
                assert(head[i] == dec(ps[0].1)[i - jname(ps[0].0).len() - 1]);
                assert(is_digit_byte(dec(ps[0].1)[i - jname(ps[0].0).len() - 1]));
            }
        }
        if ps.len() == 1 {
            assert forall|i: int| 0 <= i < jpairs(ps).len() implies (#[trigger] jpairs(ps)[i])
                < 128 && !is_ws_byte(jpairs(ps)[i]) by {
                assert(jpairs(ps) == seq![123u8] + head + seq![125u8]);
                if 1 <= i < jpairs(ps).len() - 1 {
                    assert(jpairs(ps)[i] == head[i - 1]);
                }
            }
        } else {
            let rest = ps.drop_first();
            assert forall|x: int| 0 <= x < rest.len() implies is_name_seq(
                (#[trigger] rest[x]).0,
            ) by {
                assert(rest[x] == ps[x + 1]);
                assert(is_name_seq(ps[x + 1].0));
            }
            lemma_jpairs_clean(rest);
            assert forall|i: int| 0 <= i < jpairs(ps).len() implies (#[trigger] jpairs(ps)[i])
                < 128 && !is_ws_byte(jpairs(ps)[i]) by {
                assert(jpairs(ps) == seq![123u8] + (head + seq![44u8] + pairs_items(rest))
                    + seq![125u8]);
                if 1 <= i < jpairs(ps).len() - 1 {
                    assert(jpairs(ps)[i] == (head + seq![44u8] + pairs_items(rest))[i - 1]);
                    if i - 1 >= head.len() + 1 {
                        assert((head + seq![44u8] + pairs_items(rest))[i - 1] == pairs_items(
                            rest,
                        )[i - 1 - head.len() - 1]);
                        assert(jpairs(rest)[i - 1 - head.len()] == pairs_items(rest)[i - 1
                            - head.len() - 1]);
                    }
                }
            }
        }
    }
}

/// Renders a witness as its canonical JSON object, inputs then outputs, each
/// variable as one member.
pub fn witness_to_json(w: &GraphWitness) -> (r: Result<String, InnerEZKLError>)
    ensures
        r matches Ok(s) ==> wf_witness(*w) && encode_utf8(s@) == jpairs(witness_pairs(*w)) && s@
            == decode_utf8(jpairs(witness_pairs(*w))),
        r matches Err(e) ==> !wf_witness(*w) && e matches InnerEZKLError::SerializationError(_),
{
    let mut out: Vec<u8> = Vec::new();
    push_byte(&mut out, 123);
    let ghost whole = witness_pairs(*w);
    let mut idx: usize = 0;
    proof {
        assert(whole.take(0) =~= Seq::<(Seq<u8>, u64)>::empty());
        assert(Seq::<u8>::empty() + seq![123u8] =~= seq![123u8]);
        assert(out@ == seq![123u8] + pairs_items(whole.take(0)));
    }
    while idx < w.vars.len()
        invariant
            0 <= idx <= w.vars@.len(),
            whole == witness_pairs(*w),
            whole.len() == w.vars@.len(),
            forall|x: int| 0 <= x < idx ==> wf_var(#[trigger] w.vars@[x]),
            out@ == seq![123u8] + pairs_items(whole.take(idx as int)),
        decreases w.vars@.len() - idx,
    {
        let ghost out0 = out@;
        let nb = w.vars[idx].name.as_str().as_bytes_vec();
        if !check_name_bytes(&nb) {
            return Err(
                InnerEZKLError::SerializationError(
                    String::from_str("witness variable name is not plain"),
                ),
            );
        }
        if idx > 0 {
            push_byte(&mut out, 44);
        }
        push_name(&mut out, &nb);
        push_byte(&mut out, 58);
        push_dec(&mut out, w.vars[idx].value);
        proof {
            assert(whole[idx as int] == (encode_utf8(w.vars@[idx as int].name@), w.vars@[idx
                as int].value));
            assert(nb@ == whole[idx as int].0);
            lemma_pairs_items_snoc(whole.take(idx as int), whole[idx as int]);
            assert(whole.take(idx + 1) =~= whole.take(idx as int).push(whole[idx as int]));
            if idx == 0 {
                assert(out@ =~= seq![123u8] + pairs_items(whole.take(idx + 1)));
            } else {
                assert(pairs_items(seq![whole[idx as int]]) == pair_bytes(
                    whole[idx as int].0,
                    whole[idx as int].1,
                ));
                assert(out@ =~= seq![123u8] + pairs_items(whole.take(idx + 1)));
            }
        }
        idx += 1;
    }
    push_byte(&mut out, 125);
    proof {
        assert(whole.take(whole.len() as int) =~= whole);
        assert(out@ =~= jpairs(whole));
        assert(wf_witness(*w));
        assert(all_names_wf(whole)) by {
            assert forall|x: int| 0 <= x < whole.len() implies is_name_seq(
                (#[trigger] whole[x]).0,
            ) by {
                assert(whole[x] == (encode_utf8(w.vars@[x].name@), w.vars@[x].value));
                assert(wf_var(w.vars@[x]));
            }
        }
        lemma_jpairs_clean(whole);
    }
    Ok(ascii_to_string(out))
}


/// Parses an object of named values: the witness document, and equally the
/// caller-supplied input document, tolerating JSON whitespace between tokens.
pub fn witness_from_json(s: &str) -> (r: Result<GraphWitness, InnerEZKLError>)
    ensures
        r matches Ok(w) ==> wf_witness(w) && sp_pairs_doc(strip(encode_utf8(s@))) == Some(
            witness_pairs(w),
        ) && strip(encode_utf8(s@)) == jpairs(witness_pairs(w)),
        r matches Err(e) ==> sp_pairs_doc(strip(encode_utf8(s@))) is None && e matches
            InnerEZKLError::InvalidInput(_),
        forall|ps: Seq<(Seq<u8>, u64)>|
            all_names_wf(ps) && strip(encode_utf8(s@)) == #[trigger] jpairs(ps) ==> r is Ok,
{
    let raw = str_bytes(s);
    let t = strip_ws(&raw);
    let scan = pairs_scan(&t);
    match scan {
        Option::Some(ps) => {
            let mut vars: Vec<WitnessVar> = Vec::new();
            let mut k: usize = 0;
            let ghost psv = ps@.map_values(|pr: (Vec<u8>, u64)| (pr.0@, pr.1));
            while k < ps.len()
                invariant
                    0 <= k <= ps@.len(),
                    psv == ps@.map_values(|pr: (Vec<u8>, u64)| (pr.0@, pr.1)),
                    psv.len() == ps@.len(),
                    forall|x: int|
                        0 <= x < ps@.len() ==> is_name_seq((#[trigger] ps@[x]).0@)
                            && is_ascii_bytes(ps@[x].0@),
                    vars@.len() == k,
                    forall|x: int|
                        0 <= x < k ==> wf_var(#[trigger] vars@[x]) && (
                        encode_utf8(vars@[x].name@), vars@[x].value) == psv[x],
                decreases ps@.len() - k,
            {
                let name = ascii_to_string(clone_bytes(&ps[k].0));
                let value = ps[k].1;
                vars.push(WitnessVar { name, value });
                k += 1;
            }
            let w = GraphWitness { vars };
            proof {
                assert(witness_pairs(w) =~= psv);
                lemma_sp_pairs_doc_sound(t@, psv);
            }
            Ok(w)
        },
        Option::None => {
            proof {
                assert forall|ps: Seq<(Seq<u8>, u64)>|
                    !(all_names_wf(ps) && strip(encode_utf8(s@)) == #[trigger] jpairs(ps)) by {
                    if all_names_wf(ps) && strip(encode_utf8(s@)) == jpairs(ps) {
                        lemma_sp_pairs_doc_of(jpairs(ps), ps);
                    }
                }
            }
            Err(InnerEZKLError::InvalidInput(String::from_str("malformed input JSON")))
        },
    }
}

/// A byte-for-byte copy.
fn clone_bytes(v: &Vec<u8>) -> (r: Vec<u8>)
    ensures
        r@ == v@,
{
    let mut out: Vec<u8> = Vec::new();
    let mut k: usize = 0;
    while k < v.len()
        invariant
            0 <= k <= v@.len(),
            out@ == v@.subrange(0, k as int),
        decreases v@.len() - k,
    {
        out.push(v[k]);
        proof {
            assert(v@.subrange(0, k + 1) =~= v@.subrange(0, k as int).push(v@[k as int]));
        }
        k += 1;
    }
    proof {
        assert(v@.subrange(0, v@.len() as int) =~= v@);
    }
    out
}

/// Round trip: a rendered witness document scans back to exactly its
/// members.
pub proof fn lemma_witness_round_trip(w: GraphWitness)
    requires
        wf_witness(w),
    ensures
        sp_pairs_doc(strip(jpairs(witness_pairs(w)))) == Some(witness_pairs(w)),
{
    let ps = witness_pairs(w);
    assert(all_names_wf(ps)) by {
        assert forall|x: int| 0 <= x < ps.len() implies is_name_seq((#[trigger] ps[x]).0) by {
            assert(ps[x] == (encode_utf8(w.vars@[x].name@), w.vars@[x].value));
            assert(wf_var(w.vars@[x]));
        }
    }
    lemma_jpairs_clean(ps);
    lemma_strip_id(jpairs(ps));
    lemma_sp_pairs_doc_of(jpairs(ps), ps);
}

} // verus!

use vstd::prelude::*;

verus! {

use vstd::seq_lib::*;
use vstd::string::*;
use vstd::utf8::*;

// ---------------------------------------------------------------------------
// Byte classes of the canonical JSON grammar
// ---------------------------------------------------------------------------
/// JSON insignificant whitespace.
pub open spec fn is_ws_byte(b: u8) -> bool {
    b == 32 || b == 9 || b == 10 || b == 13
}

/// ASCII decimal digit.
pub open spec fn is_digit_byte(b: u8) -> bool {
    48 <= b <= 57
}

/// Bytes allowed inside a JSON string of this library's artifacts: printable
/// ASCII without space, quote and backslash, so strings never need escaping
/// and never contain whitespace.
pub open spec fn is_name_byte(b: u8) -> bool {
    33 <= b <= 126 && b != 34 && b != 92
}

pub open spec fn is_name_seq(s: Seq<u8>) -> bool {
    forall|i: int| 0 <= i < s.len() ==> is_name_byte(#[trigger] s[i])
}

/// All bytes of `s` are ASCII.
pub open spec fn is_ascii_bytes(s: Seq<u8>) -> bool {
    forall|i: int| 0 <= i < s.len() ==> (#[trigger] s[i]) < 128
}

/// `p` occurs in `t` at position `i`.
pub open spec fn follows(t: Seq<u8>, i: int, p: Seq<u8>) -> bool {
    &&& 0 <= i
    &&& i + p.len() <= t.len()
    &&& t.subrange(i, i + p.len() as int) == p
}

/// The whitespace-stripped form of a byte sequence.
pub open spec fn strip(s: Seq<u8>) -> Seq<u8>
    decreases s.len(),
{
    if s.len() == 0 {
        Seq::empty()
    } else if is_ws_byte(s.last()) {
        strip(s.drop_last())
    } else {
        strip(s.drop_last()).push(s.last())
    }
}

/// `t[i..j]` is a run of digits inside bounds.
pub open spec fn digit_run(t: Seq<u8>, i: int, j: int) -> bool {
    &&& 0 <= i <= j <= t.len()
    &&& forall|m: int| i <= m < j ==> is_digit_byte(#[trigger] t[m])
}

// ---------------------------------------------------------------------------
// Canonical decimal rendering of u64 values
// ---------------------------------------------------------------------------
/// Decimal digits of `n`, most significant first, no leading zeros.
pub open spec fn dec(n: u64) -> Seq<u8>
    decreases n,
{
    if n < 10 {
        seq![(48 + n) as u8]
    } else {
        dec((n / 10) as u64).push((48 + n % 10) as u8)
    }
}

/// Numeric value of the digit run `t[i..j]`, most significant first.
pub open spec fn val_of(t: Seq<u8>, i: int, j: int) -> int
    decreases j - i,
{
    if i >= j {
        0
    } else {
        val_of(t, i, j - 1) * 10 + (t[j - 1] - 48)
    }
}

/// End of the digit run starting at `i`: the first position at or after `i`
/// holding a non-digit, or the end of the sequence.
pub open spec fn run_end(t: Seq<u8>, i: int) -> int
    decreases t.len() - i when 0 <= i <= t.len()
{
    if i == t.len() || !is_digit_byte(t[i]) {
        i
    } else {
        run_end(t, i + 1)
    }
}

pub proof fn lemma_run_end_bounds(t: Seq<u8>, i: int)
    requires
        0 <= i <= t.len(),
    ensures
        i <= run_end(t, i) <= t.len(),
        digit_run(t, i, run_end(t, i)),
        run_end(t, i) < t.len() ==> !is_digit_byte(t[run_end(t, i)]),
    decreases t.len() - i,
{
    if i == t.len() || !is_digit_byte(t[i]) {
    } else {
        lemma_run_end_bounds(t, i + 1);
    }
}

/// A digit run keeps its end when scanning starts anywhere inside it.
pub proof fn lemma_run_end_step(t: Seq<u8>, i: int, m: int)
    requires
        0 <= i <= m <= t.len(),
        digit_run(t, i, m),
    ensures
        run_end(t, i) == run_end(t, m),
    decreases m - i,
{
    if i < m {
        lemma_run_end_step(t, i + 1, m);
    }
}

pub proof fn lemma_dec_props(n: u64)
    ensures
        dec(n).len() >= 1,
        forall|i: int| 0 <= i < dec(n).len() ==> is_digit_byte(#[trigger] dec(n)[i]),
        dec(n)[0] == 48 ==> n == 0,
        n < 10 ==> dec(n).len() == 1,
    decreases n,
{
    if n >= 10 {
        lemma_dec_props(n / 10);
    }
}

/// Parsing back the decimal rendering of `n` yields `n`.
pub proof fn lemma_val_of_dec(t: Seq<u8>, i: int, n: u64)
    requires
        follows(t, i, dec(n)),
    ensures
        val_of(t, i, i + dec(n).len()) == n,
    decreases n,
{
    let j = i + dec(n).len() as int;
    if n < 10 {
        assert(t[j - 1] == dec(n)[dec(n).len() - 1]);
        assert(val_of(t, i, j) == val_of(t, i, j - 1) * 10 + (t[j - 1] - 48));
        assert(val_of(t, i, i) == 0);
        assert(dec(n)[0] == (48 + n) as u8);
    } else {
        lemma_dec_props(n / 10);
        assert(t.subrange(i, j - 1) =~= dec((n / 10) as u64)) by {
            assert forall|x: int| 0 <= x < dec(n).len() - 1 implies #[trigger] t.subrange(
                i,
                j - 1,
            )[x] == dec((n / 10) as u64)[x] by {
                assert(t.subrange(i, j)[x] == dec(n)[x]);
            }
        }
        lemma_val_of_dec(t, i, (n / 10) as u64);
        assert(t[j - 1] == dec(n)[dec(n).len() - 1]);
        assert(val_of(t, i, j) == val_of(t, i, j - 1) * 10 + (t[j - 1] - 48));
        vstd::arithmetic::div_mod::lemma_fundamental_div_mod(n as int, 10);
    }
}

/// The value of a digit run is never negative.
pub proof fn lemma_val_of_nonneg(t: Seq<u8>, i: int, j: int)
    requires
        digit_run(t, i, j),
    ensures
        val_of(t, i, j) >= 0,
    decreases j - i,
{
    if i < j {
        lemma_val_of_nonneg(t, i, j - 1);
        assert(val_of(t, i, j) == val_of(t, i, j - 1) * 10 + (t[j - 1] - 48));
        assert(val_of(t, i, j - 1) * 10 >= 0) by (nonlinear_arith)
            requires
                val_of(t, i, j - 1) >= 0,
        ;
    }
}

/// The value of a digit run grows (weakly) with its length.
pub proof fn lemma_val_of_monotone(t: Seq<u8>, i: int, j: int, k: int)
    requires
        i <= j <= k,
        digit_run(t, i, k),
    ensures
        val_of(t, i, j) <= val_of(t, i, k),
    decreases k - j,
{
    if j < k {
        lemma_val_of_monotone(t, i, j, k - 1);
        lemma_val_of_nonneg(t, i, k - 1);
        assert(val_of(t, i, k) == val_of(t, i, k - 1) * 10 + (t[k - 1] - 48));
        assert(val_of(t, i, k - 1) * 10 >= val_of(t, i, k - 1)) by (nonlinear_arith)
            requires
                val_of(t, i, k - 1) >= 0,
        ;
    }
}

// ---------------------------------------------------------------------------
// Spec-level parsers of the canonical grammar
// ---------------------------------------------------------------------------
/// Canonical u64 number at position `i`: a maximal digit run with no leading
/// zero whose value fits in a u64. Yields the value and the position after.
pub open spec fn sp_num(t: Seq<u8>, i: int) -> Option<(u64, int)> {
    if 0 <= i < t.len() {
        let j = run_end(t, i);
        if j > i && (t[i] == 48 ==> j == i + 1) && val_of(t, i, j) <= u64::MAX {
            Some((val_of(t, i, j) as u64, j))
        } else {
            None
        }
    } else {
        None
    }
}

/// End of the run of name bytes starting at `i`.
pub open spec fn name_end(t: Seq<u8>, i: int) -> int
    decreases t.len() - i when 0 <= i <= t.len()
{
    if i == t.len() || !is_name_byte(t[i]) {
        i
    } else {
        name_end(t, i + 1)
    }
}

/// Quoted string at position `i`: a quote, a run of name bytes, a quote.
/// Yields the name bytes and the position after the closing quote.
pub open spec fn sp_name(t: Seq<u8>, i: int) -> Option<(Seq<u8>, int)> {
    if 0 <= i < t.len() && t[i] == 34 {
        let e = name_end(t, i + 1);
        if e < t.len() && t[e] == 34 {
            Some((t.subrange(i + 1, e), e + 1))
        } else {
            None
        }
    } else {
        None
    }
}

/// The quoted rendering of a name.
pub open spec fn jname(b: Seq<u8>) -> Seq<u8> {
    seq![34u8] + b + seq![34u8]
}

pub proof fn lemma_name_end_bounds(t: Seq<u8>, i: int)
    requires
        0 <= i <= t.len(),
    ensures
        i <= name_end(t, i) <= t.len(),
        is_name_seq(t.subrange(i, name_end(t, i))),
        name_end(t, i) < t.len() ==> !is_name_byte(t[name_end(t, i)]),
    decreases t.len() - i,
{
    if i == t.len() || !is_name_byte(t[i]) {
    } else {
        lemma_name_end_bounds(t, i + 1);
        let e = name_end(t, i);
        assert forall|m: int| 0 <= m < e - i implies is_name_byte(
            #[trigger] t.subrange(i, e)[m],
        ) by {
            if m > 0 {
                assert(t.subrange(i, e)[m] == t.subrange(i + 1, e)[m - 1]);
            }
        }
    }
}

pub proof fn lemma_name_end_step(t: Seq<u8>, i: int, m: int)
    requires
        0 <= i <= m <= t.len(),
        forall|x: int| i <= x < m ==> is_name_byte(#[trigger] t[x]),
    ensures
        name_end(t, i) == name_end(t, m),
    decreases m - i,
{
    if i < m {
        lemma_name_end_step(t, i + 1, m);
    }
}

/// A quoted well-formed name parses back to itself.
pub proof fn lemma_sp_name_of_jname(t: Seq<u8>, i: int, b: Seq<u8>)
    requires
        follows(t, i, jname(b)),
        is_name_seq(b),
    ensures
        sp_name(t, i) == Some((b, i + jname(b).len())),
{
    let e = i + 1 + b.len() as int;
    assert(t[i] == t.subrange(i, i + jname(b).len() as int)[0]);
    assert(t[e] == t.subrange(i, i + jname(b).len() as int)[jname(b).len() - 1]);
    assert forall|x: int| i + 1 <= x < e implies is_name_byte(#[trigger] t[x]) by {
        assert(t[x] == t.subrange(i, i + jname(b).len() as int)[x - i]);
        assert(t.subrange(i, i + jname(b).len() as int)[x - i] == jname(b)[x - i]);
        assert(jname(b)[x - i] == b[x - i - 1]);
    }
    lemma_name_end_step(t, i + 1, e);
    assert(name_end(t, e) == e) by {
        assert(!is_name_byte(t[e]));
    }
    assert(t.subrange(i + 1, e) =~= b) by {
        assert forall|x: int| 0 <= x < b.len() implies #[trigger] t.subrange(i + 1, e)[x]
            == b[x] by {
            assert(t.subrange(i, i + jname(b).len() as int)[x + 1] == jname(b)[x + 1]);
        }
    }
}

/// A decimal rendering followed by a non-digit parses back to its value.
pub proof fn lemma_sp_num_of_dec(t: Seq<u8>, i: int, n: u64)
    requires
        follows(t, i, dec(n)),
        i + dec(n).len() < t.len(),
        !is_digit_byte(t[i + dec(n).len()]),
    ensures
        sp_num(t, i) == Some((n, i + dec(n).len())),
{
    let j = i + dec(n).len() as int;
    lemma_dec_props(n);
    assert forall|m: int| i <= m < j implies is_digit_byte(#[trigger] t[m]) by {
        assert(t[m] == t.subrange(i, j)[m - i]);
        assert(t.subrange(i, j)[m - i] == dec(n)[m - i]);
    }
    assert(run_end(t, i) == j) by {
        lemma_run_end_step(t, i, j);
    }
    lemma_val_of_dec(t, i, n);
    assert(t[i] == dec(n)[0]);
    if t[i] == 48 {
        assert(n == 0);
    }
}

// ---------------------------------------------------------------------------
// Objects of name/number pairs
// ---------------------------------------------------------------------------
/// One `"name":value` member.
pub open spec fn pair_bytes(name: Seq<u8>, v: u64) -> Seq<u8> {
    jname(name) + seq![58u8] + dec(v)
}

/// Comma-separated members, in order.
pub open spec fn pairs_items(ps: Seq<(Seq<u8>, u64)>) -> Seq<u8>
    decreases ps.len(),
{
    if ps.len() == 0 {
        Seq::empty()
    } else if ps.len() == 1 {
        pair_bytes(ps[0].0, ps[0].1)
    } else {
        pair_bytes(ps[0].0, ps[0].1) + seq![44u8] + pairs_items(ps.drop_first())
    }
}

/// The canonical object rendering of a sequence of name/number pairs.
pub open spec fn jpairs(ps: Seq<(Seq<u8>, u64)>) -> Seq<u8> {
    seq![123u8] + pairs_items(ps) + seq![125u8]
}

pub open spec fn all_names_wf(ps: Seq<(Seq<u8>, u64)>) -> bool {
    forall|x: int| 0 <= x < ps.len() ==> is_name_seq((#[trigger] ps[x]).0)
}

/// Members of an object, starting at the first member's opening quote.
/// Yields the members and the position of the closing brace.
pub open spec fn sp_pairs_items(t: Seq<u8>, i: int) -> Option<(Seq<(Seq<u8>, u64)>, int)>
    decreases t.len() - i when 0 <= i <= t.len()
{
    match sp_name(t, i) {
        Option::None => Option::None,
        Option::Some((name, i1)) => if i1 < t.len() && t[i1] == 58 {
            match sp_num(t, i1 + 1) {
                Option::None => Option::None,
                Option::Some((v, i2)) => if i2 < t.len() && t[i2] == 44 && i < i2 + 1 <= t.len() {
                    match sp_pairs_items(t, i2 + 1) {
                        Option::None => Option::None,
                        Option::Some((rest, e)) => Option::Some(
                            (seq![(name, v)] + rest, e),
                        ),
                    }
                } else {
                    Option::Some((seq![(name, v)], i2))
                },
            }
        } else {
            Option::None
        },
    }
}

/// A whole object document: braces around members, nothing after the
/// closing brace.
pub open spec fn sp_pairs_doc(t: Seq<u8>) -> Option<Seq<(Seq<u8>, u64)>> {
    if t.len() >= 2 && t[0] == 123 {
        if t[1] == 125 {
            if t.len() == 2 {
                Option::Some(Seq::empty())
            } else {
                Option::None
            }
        } else {
            match sp_pairs_items(t, 1) {
                Option::None => Option::None,
                Option::Some((ps, e)) => if e == t.len() - 1 && t[e] == 125 {
                    Option::Some(ps)
                } else {
                    Option::None
                },
            }
        }
    } else {
        Option::None
    }
}

// ---------------------------------------------------------------------------
// Decomposition helpers
// ---------------------------------------------------------------------------
pub proof fn lemma_follows_concat(t: Seq<u8>, i: int, a: Seq<u8>, b: Seq<u8>)
    requires
        follows(t, i, a + b),
    ensures
        follows(t, i, a),
        follows(t, i + a.len(), b),
{
    let ab = a + b;
    assert(t.subrange(i, i + a.len() as int) =~= a) by {
        assert forall|x: int| 0 <= x < a.len() implies #[trigger] t.subrange(
            i,
            i + a.len() as int,
        )[x] == a[x] by {
            assert(t[i + x] == t.subrange(i, i + ab.len() as int)[x]);
            assert(t.subrange(i, i + ab.len() as int)[x] == ab[x]);
        }
    }
    assert(t.subrange(i + a.len(), i + a.len() + b.len() as int) =~= b) by {
        assert forall|x: int| 0 <= x < b.len() implies #[trigger] t.subrange(
            i + a.len(),
            i + a.len() + b.len() as int,
        )[x] == b[x] by {
            assert(t[i + a.len() + x] == t.subrange(i, i + ab.len() as int)[a.len() + x]);
            assert(t.subrange(i, i + ab.len() as int)[a.len() + x] == ab[a.len() + x]);
        }
    }
}

pub proof fn lemma_follows_index(t: Seq<u8>, i: int, p: Seq<u8>, x: int)
    requires
        follows(t, i, p),
        0 <= x < p.len(),
    ensures
        t[i + x] == p[x],
{
    assert(t[i + x] == t.subrange(i, i + p.len() as int)[x]);
}

/// Stripping is the identity on sequences without whitespace.
pub proof fn lemma_strip_id(s: Seq<u8>)
    requires
        forall|i: int| 0 <= i < s.len() ==> !is_ws_byte(#[trigger] s[i]),
    ensures
        strip(s) == s,
    decreases s.len(),
{
    if s.len() == 0 {
        assert(strip(s) =~= s);
    } else {
        let pre = s.drop_last();
        assert forall|i: int| 0 <= i < pre.len() implies !is_ws_byte(#[trigger] pre[i]) by {
            assert(pre[i] == s[i]);
        }
        lemma_strip_id(pre);
        assert(!is_ws_byte(s.last()));
        assert(strip(s) == strip(pre).push(s.last()));
        assert(pre.push(s.last()) =~= s);
    }
}

/// A whole well-formed members region followed by a closing brace parses back
/// to exactly its members.
pub proof fn lemma_sp_pairs_items_of(t: Seq<u8>, i: int, ps: Seq<(Seq<u8>, u64)>)
    requires
        follows(t, i, pairs_items(ps)),
        ps.len() >= 1,
        all_names_wf(ps),
        i + pairs_items(ps).len() < t.len(),
        t[i + pairs_items(ps).len()] == 125,
    ensures
        sp_pairs_items(t, i) == Some((ps, i + pairs_items(ps).len() as int)),
    decreases ps.len(),
{
    let name = ps[0].0;
    let v = ps[0].1;
    let head = pair_bytes(name, v);
    if ps.len() == 1 {
        assert(pairs_items(ps) == head);
        assert(head =~= (jname(name) + seq![58u8]) + dec(v));
        lemma_follows_concat(t, i, jname(name) + seq![58u8], dec(v));
        lemma_follows_concat(t, i, jname(name), seq![58u8]);
        lemma_sp_name_of_jname(t, i, name);
        let i1 = i + jname(name).len() as int;
        lemma_follows_index(t, i1, seq![58u8], 0);
        let i2 = i1 + 1;
        let e = i + pairs_items(ps).len() as int;
        assert(i2 + dec(v).len() == e);
        assert(!is_digit_byte(t[e]));
        lemma_sp_num_of_dec(t, i2, v);
        assert(t[e] != 44);
        assert(seq![(name, v)] =~= ps);
    } else {
        let rest = ps.drop_first();
        assert(pairs_items(ps) == head + seq![44u8] + pairs_items(rest));
        assert(pairs_items(ps) =~= ((jname(name) + seq![58u8]) + dec(v)) + (seq![44u8]
            + pairs_items(rest)));
        lemma_follows_concat(
            t,
            i,
            (jname(name) + seq![58u8]) + dec(v),
            seq![44u8] + pairs_items(rest),
        );
        lemma_follows_concat(t, i, jname(name) + seq![58u8], dec(v));
        lemma_follows_concat(t, i, jname(name), seq![58u8]);
        assert(all_names_wf(ps));
        assert(is_name_seq(ps[0].0));
        lemma_sp_name_of_jname(t, i, name);
        let i1 = i + jname(name).len() as int;
        lemma_follows_index(t, i1, seq![58u8], 0);
        let i2 = i1 + 1;
        let comma_at = i2 + dec(v).len() as int;
        lemma_follows_concat(
            t,
            i + ((jname(name) + seq![58u8]) + dec(v)).len(),
            seq![44u8],
            pairs_items(rest),
        );
        lemma_follows_index(t, comma_at, seq![44u8], 0);
        assert(t[comma_at] == 44);
        assert(!is_digit_byte(t[comma_at]));
        lemma_sp_num_of_dec(t, i2, v);
        let e = i + pairs_items(ps).len() as int;
        assert forall|x: int| 0 <= x < rest.len() implies is_name_seq(
            (#[trigger] rest[x]).0,
        ) by {
            assert(rest[x] == ps[x + 1]);
            assert(is_name_seq(ps[x + 1].0));
        }
        assert(comma_at + 1 + pairs_items(rest).len() == e);
        lemma_sp_pairs_items_of(t, comma_at + 1, rest);
        assert(sp_pairs_items(t, comma_at + 1) == Some((rest, e)));
        assert(seq![(name, v)] + rest =~= ps);
    }
}

/// A canonical object document parses back to exactly its members.
pub proof fn lemma_sp_pairs_doc_of(t: Seq<u8>, ps: Seq<(Seq<u8>, u64)>)
    requires
        t == jpairs(ps),
        all_names_wf(ps),
    ensures
        sp_pairs_doc(t) == Some(ps),
{
    assert(t.len() == 2 + pairs_items(ps).len());
    assert(t[0] == 123) by {
        assert(t[0] == (seq![123u8] + pairs_items(ps) + seq![125u8])[0]);
    }
    assert(t[t.len() - 1] == 125) by {
        assert(t[t.len() - 1] == (seq![123u8] + pairs_items(ps) + seq![125u8])[t.len() - 1]);
    }
    if ps.len() == 0 {
        assert(pairs_items(ps).len() == 0);
        assert(t.len() == 2);
        assert(t[1] == 125);
    } else {
        assert(follows(t, 1, pairs_items(ps))) by {
            assert(t =~= (seq![123u8] + pairs_items(ps)) + seq![125u8]);
            assert(follows(t, 0, (seq![123u8] + pairs_items(ps)) + seq![125u8])) by {
                assert(t.subrange(0, t.len() as int) =~= t);
            }
            lemma_follows_concat(t, 0, seq![123u8] + pairs_items(ps), seq![125u8]);
            lemma_follows_concat(t, 0, seq![123u8], pairs_items(ps));
        }
        lemma_dec_props(ps[0].1);
        assert(t[1] != 125) by {
            assert(pairs_items(ps)[0] == 34) by {
                if ps.len() == 1 {
                    assert(pairs_items(ps)[0] == pair_bytes(ps[0].0, ps[0].1)[0]);
                } else {
                    assert(pairs_items(ps)[0] == (pair_bytes(ps[0].0, ps[0].1) + seq![44u8]
                        + pairs_items(ps.drop_first()))[0]);
                }
                assert(pair_bytes(ps[0].0, ps[0].1)[0] == (jname(ps[0].0) + seq![58u8] + dec(
                    ps[0].1,
                ))[0]);
                assert(jname(ps[0].0)[0] == 34);
            }
            lemma_follows_index(t, 1, pairs_items(ps), 0);
        }
        lemma_sp_pairs_items_of(t, 1, ps);
    }
}

// ---------------------------------------------------------------------------
// Bridging between strings and their UTF-8 bytes
// ---------------------------------------------------------------------------
/// Relies on `String::from_utf8` of std: it succeeds exactly on valid UTF-8
/// and returns the string those bytes encode.
#[verifier::external_body]
fn string_from_utf8(v: Vec<u8>) -> (r: Option<String>)
    ensures
        match r {
            Option::Some(s) => valid_utf8(v@) && s@ == decode_utf8(v@),
            Option::None => !valid_utf8(v@),
        },
{
    match String::from_utf8(v) {
        Ok(s) => Some(s),
        Err(_) => None,
    }
}

/// ASCII byte sequences are valid UTF-8.
pub proof fn lemma_ascii_valid_utf8(s: Seq<u8>)
    requires
        is_ascii_bytes(s),
    ensures
        valid_utf8(s),
{
    assert(valid_utf8(s.subrange(0, 0)));
    assert(partial_valid_utf8(s, 0));
    partial_valid_utf8_extend_ascii_block(s, 0, s.len() as int);
    assert(s.subrange(0, s.len() as int) =~= s);
}

/// Turns ASCII bytes into the string they spell. The resulting string's UTF-8
/// bytes are exactly the input.
pub fn ascii_to_string(v: Vec<u8>) -> (r: String)
    requires
        is_ascii_bytes(v@),
    ensures
        r@ == decode_utf8(v@),
        encode_utf8(r@) == v@,
{
    let ghost vv = v@;
    proof {
        lemma_ascii_valid_utf8(vv);
    }
    let r = string_from_utf8(v);
    match r {
        Some(s) => {
            proof {
                decode_utf8_encode_utf8(vv);
            }
            s
        },
        None => {
            proof {
                assert(false);
            }
            vstd::pervasive::unreached()
        },
    }
}

/// The UTF-8 bytes of a string, as an owned vector.
pub fn str_bytes(s: &str) -> (r: Vec<u8>)
    ensures
        r@ == encode_utf8(s@),
{
    s.as_bytes_vec()
}

// ---------------------------------------------------------------------------
// Executable scanners, each exactly implementing its spec-level parser
// ---------------------------------------------------------------------------
/// Removes JSON whitespace.
pub fn strip_ws(v: &Vec<u8>) -> (r: Vec<u8>)
    ensures
        r@ == strip(v@),
{
    let mut out: Vec<u8> = Vec::new();
    let mut i: usize = 0;
    proof {
        assert(v@.subrange(0, 0) =~= Seq::<u8>::empty());
    }
    while i < v.len()
        invariant
            i <= v@.len(),
            out@ == strip(v@.subrange(0, i as int)),
        decreases v@.len() - i,
    {
        let b = v[i];
        proof {
            let pre = v@.subrange(0, i as int);
            let cur = v@.subrange(0, i + 1);
            assert(cur =~= pre.push(v@[i as int]));
            assert(cur.drop_last() =~= pre);
            assert(cur.last() == v@[i as int]);
        }
        if !(b == 32 || b == 9 || b == 10 || b == 13) {
            out.push(b);
        }
        i += 1;
    }
    proof {
        assert(v@.subrange(0, v@.len() as int) =~= v@);
    }
    out
}

/// Matches the literal `lit` at position `i`.
pub fn match_lit(t: &Vec<u8>, i: usize, lit: &str) -> (r: Option<usize>)
    ensures
        match r {
            Option::Some(j) => follows(t@, i as int, encode_utf8(lit@)) && j as int == i
                + encode_utf8(lit@).len(),
            Option::None => !follows(t@, i as int, encode_utf8(lit@)),
        },
{
    let lb = lit.as_bytes_vec();
    let tl = t.len();
    if i > tl || lb.len() > tl - i {
        return None;
    }
    let mut k: usize = 0;
    while k < lb.len()
        invariant
            0 <= k <= lb@.len(),
            tl == t@.len(),
            i + lb@.len() <= tl,
            lb@ == encode_utf8(lit@),
            forall|x: int| 0 <= x < k ==> t@[i + x] == lb@[x],
        decreases lb@.len() - k,
    {
        if t[i + k] != lb[k] {
            proof {
                if follows(t@, i as int, lb@) {
                    lemma_follows_index(t@, i as int, lb@, k as int);
                }
            }
            return None;
        }
        k += 1;
    }
    proof {
        assert(t@.subrange(i as int, i + lb@.len() as int) =~= lb@);
    }
    Some(i + lb.len())
}

/// Scans a canonical u64 number.
pub fn parse_num(t: &Vec<u8>, i: usize) -> (r: Option<(u64, usize)>)
    ensures
        match r {
            Option::Some((n, j)) => sp_num(t@, i as int) == Some((n, j as int)) && i < j
                <= t@.len(),
            Option::None => sp_num(t@, i as int) is None,
        },
{
    if i >= t.len() {
        return None;
    }
    if !(48 <= t[i] && t[i] <= 57) {
        return None;
    }
    let mut j: usize = i;
    let mut acc: u64 = 0;
    while j < t.len() && 48 <= t[j] && t[j] <= 57
        invariant
            i <= j <= t@.len(),
            i < t@.len(),
            digit_run(t@, i as int, j as int),
            acc == val_of(t@, i as int, j as int),
            is_digit_byte(t@[i as int]),
        decreases t@.len() - j,
    {
        let b = t[j];
        let d = (b - 48) as u64;
        if acc > (u64::MAX - d) / 10 {
            proof {
                let ti = t@;
                let q = ((u64::MAX - d) / 10) as int;
                vstd::arithmetic::div_mod::lemma_fundamental_div_mod(u64::MAX - d, 10);
                assert(acc * 10 >= (q + 1) * 10) by (nonlinear_arith)
                    requires
                        acc as int >= q + 1,
                ;
                assert(val_of(ti, i as int, j + 1) == acc * 10 + d);
                lemma_run_end_bounds(ti, i as int);
                lemma_run_end_step(ti, i as int, j as int);
                assert(run_end(ti, i as int) >= j + 1);
                lemma_val_of_monotone(ti, i as int, j + 1, run_end(ti, i as int));
            }
            return None;
        }
        proof {
            let q = ((u64::MAX - d) / 10) as int;
            vstd::arithmetic::div_mod::lemma_fundamental_div_mod(u64::MAX - d, 10);
            assert(acc * 10 <= q * 10) by (nonlinear_arith)
                requires
                    acc as int <= q,
            ;
            assert(val_of(t@, i as int, j + 1) == acc * 10 + d);
        }
        acc = acc * 10 + d;
        j += 1;
    }
    proof {
        lemma_run_end_step(t@, i as int, j as int);
        assert(run_end(t@, i as int) == j);
        lemma_val_of_nonneg(t@, i as int, j as int);
    }
    if t[i] == 48 && j > i + 1 {
        return None;
    }
    Some((acc, j))
}

/// Scans a quoted name.
pub fn parse_name(t: &Vec<u8>, i: usize) -> (r: Option<(Vec<u8>, usize)>)
    ensures
        match r {
            Option::Some((b, j)) => sp_name(t@, i as int) == Some((b@, j as int)) && i < j
                <= t@.len() && is_name_seq(b@) && is_ascii_bytes(b@),
            Option::None => sp_name(t@, i as int) is None,
        },
{
    if i >= t.len() {
        return None;
    }
    if t[i] != 34 {
        return None;
    }
    let mut j: usize = i + 1;
    let mut out: Vec<u8> = Vec::new();
    proof {
        assert(t@.subrange(i + 1, i + 1) =~= Seq::<u8>::empty());
    }
    while j < t.len() && 33 <= t[j] && t[j] <= 126 && t[j] != 34 && t[j] != 92
        invariant
            i + 1 <= j <= t@.len(),
            out@ == t@.subrange(i + 1, j as int),
            forall|x: int| i + 1 <= x < j ==> is_name_byte(#[trigger] t@[x]),
        decreases t@.len() - j,
    {
        let b = t[j];
        out.push(b);
        proof {
            assert(t@.subrange(i + 1, j + 1) =~= t@.subrange(i + 1, j as int).push(t@[j as int]));
        }
        j += 1;
    }
    proof {
        lemma_name_end_step(t@, i + 1, j as int);
        assert(name_end(t@, i + 1) == j);
    }
    if j < t.len() && t[j] == 34 {
        proof {
            assert(is_name_seq(out@)) by {
                assert forall|x: int| 0 <= x < out@.len() implies is_name_byte(
                    #[trigger] out@[x],
                ) by {
                    assert(out@[x] == t@[i + 1 + x]);
                }
            }
            assert(is_ascii_bytes(out@)) by {
                assert forall|x: int| 0 <= x < out@.len() implies (#[trigger] out@[x]) < 128 by {
                    assert(is_name_byte(out@[x]));
                }
            }
        }
        Some((out, j + 1))
    } else {
        None
    }
}

// ---------------------------------------------------------------------------
// Executable writers, each exactly producing the canonical rendering
// ---------------------------------------------------------------------------
/// Appends the UTF-8 bytes of `lit`.
pub fn push_lit(out: &mut Vec<u8>, lit: &str)
    ensures
        final(out)@ == old(out)@ + encode_utf8(lit@),
{
    let lb = lit.as_bytes_vec();
    let mut k: usize = 0;
    while k < lb.len()
        invariant
            0 <= k <= lb@.len(),
            lb@ == encode_utf8(lit@),
            out@ == old(out)@ + lb@.subrange(0, k as int),
        decreases lb@.len() - k,
    {
        out.push(lb[k]);
        proof {
            assert(lb@.subrange(0, k + 1) =~= lb@.subrange(0, k as int).push(lb@[k as int]));
            assert(old(out)@ + lb@.subrange(0, k + 1) =~= (old(out)@ + lb@.subrange(0, k as int)).push(
                lb@[k as int],
            ));
        }
        k += 1;
    }
    proof {
        assert(lb@.subrange(0, lb@.len() as int) =~= lb@);
    }
}

/// Appends the bytes of `v`.
pub fn push_bytes(out: &mut Vec<u8>, v: &Vec<u8>)
    ensures
        final(out)@ == old(out)@ + v@,
{
    let mut k: usize = 0;
    while k < v.len()
        invariant
            0 <= k <= v@.len(),
            out@ == old(out)@ + v@.subrange(0, k as int),
        decreases v@.len() - k,
    {
        out.push(v[k]);
        proof {
            assert(v@.subrange(0, k + 1) =~= v@.subrange(0, k as int).push(v@[k as int]));
            assert(old(out)@ + v@.subrange(0, k + 1) =~= (old(out)@ + v@.subrange(0, k as int)).push(
                v@[k as int],
            ));
        }
        k += 1;
    }
    proof {
        assert(v@.subrange(0, v@.len() as int) =~= v@);
    }
}

/// Appends one byte.
pub fn push_byte(out: &mut Vec<u8>, b: u8)
    ensures
        final(out)@ == old(out)@ + seq![b],
{
    out.push(b);
    proof {
        assert(old(out)@ + seq![b] =~= old(out)@.push(b));
    }
}

/// Appends the canonical decimal rendering of `n`.
pub fn push_dec(out: &mut Vec<u8>, n: u64)
    ensures
        final(out)@ == old(out)@ + dec(n),
    decreases n,
{
    if n < 10 {
        out.push(48 + (n as u8));
        proof {
            assert(old(out)@ + dec(n) =~= old(out)@.push((48 + n) as u8));
        }
    } else {
        push_dec(out, n / 10);
        out.push(48 + ((n % 10) as u8));
        proof {
            assert(old(out)@ + dec(n) =~= (old(out)@ + dec((n / 10) as u64)).push(
                (48 + n % 10) as u8,
            ));
        }
    }
}

/// Appends the quoted rendering of a name.
pub fn push_name(out: &mut Vec<u8>, name: &Vec<u8>)
    ensures
        final(out)@ == old(out)@ + jname(name@),
{
    push_byte(out, 34);
    push_bytes(out, name);
    push_byte(out, 34);
    proof {
        assert(old(out)@ + jname(name@) =~= ((old(out)@ + seq![34u8]) + name@) + seq![34u8]);
    }
}

/// The canonical rendering of the value of a canonical digit run is that very
/// run: the inverse direction of `lemma_val_of_dec`.
pub proof fn lemma_dec_of_val(t: Seq<u8>, i: int, j: int)
    requires
        digit_run(t, i, j),
        i < j,
        t[i] == 48 ==> j == i + 1,
        val_of(t, i, j) <= u64::MAX,
    ensures
        dec(val_of(t, i, j) as u64) == t.subrange(i, j),
    decreases j - i,
{
    let v = val_of(t, i, j);
    lemma_val_of_nonneg(t, i, j);
    if j == i + 1 {
        assert(val_of(t, i, i) == 0);
        assert(v == t[i] - 48);
        assert(dec(v as u64) =~= t.subrange(i, j));
    } else {
        let pre = val_of(t, i, j - 1);
        assert(v == pre * 10 + (t[j - 1] - 48));
        lemma_val_of_nonneg(t, i, j - 1);
        assert(val_of(t, i, i) == 0);
        assert(val_of(t, i, i + 1) == t[i] - 48);
        assert(t[i] != 48);
        assert(val_of(t, i, i + 1) >= 1);
        lemma_val_of_monotone(t, i, i + 1, j - 1);
        assert(pre >= 1);
        assert(v >= 10) by (nonlinear_arith)
            requires
                pre >= 1,
                v == pre * 10 + (t[j - 1] - 48),
                t[j - 1] - 48 >= 0,
        ;
        lemma_val_of_monotone(t, i, j - 1, j);
        vstd::arithmetic::div_mod::lemma_fundamental_div_mod_converse(
            v,
            10,
            pre,
            t[j - 1] - 48,
        );
        assert(v / 10 == pre);
        assert(v % 10 == t[j - 1] - 48);
        lemma_dec_of_val(t, i, j - 1);
        assert(dec(v as u64) == dec((v as u64 / 10) as u64).push((48 + v as u64 % 10) as u8));
        assert(dec(v as u64) =~= t.subrange(i, j)) by {
            assert(dec(pre as u64) == t.subrange(i, j - 1));
            assert forall|x: int| 0 <= x < j - i implies #[trigger] dec(v as u64)[x]
                == t.subrange(i, j)[x] by {
                if x < j - i - 1 {
                    assert(dec(v as u64)[x] == dec(pre as u64)[x]);
                    assert(dec(pre as u64)[x] == t.subrange(i, j - 1)[x]);
                } else {
                    assert(dec(v as u64)[x] == (48 + v as u64 % 10) as u8);
                }
            }
        }
    }
}

/// A single expected byte at position `i`.
pub fn expect_byte(t: &Vec<u8>, i: usize, b: u8) -> (r: Option<usize>)
    ensures
        match r {
            Option::Some(j) => j as int == i + 1 && follows(t@, i as int, seq![b]),
            Option::None => !follows(t@, i as int, seq![b]),
        },
{
    if i < t.len() && t[i] == b {
        proof {
            assert(t@.subrange(i as int, i + 1) =~= seq![b]);
        }
        Some(i + 1)
    } else {
        proof {
            if follows(t@, i as int, seq![b]) {
                lemma_follows_index(t@, i as int, seq![b], 0);
            }
        }
        None
    }
}

/// Extending a covered prefix by a chunk that follows it.
pub proof fn lemma_extend_cover(t: Seq<u8>, pos: int, chunk: Seq<u8>)
    requires
        follows(t, pos, chunk),
    ensures
        t.subrange(0, pos + chunk.len()) == t.subrange(0, pos) + chunk,
{
    assert(t.subrange(0, pos + chunk.len() as int) =~= t.subrange(0, pos) + chunk) by {
        assert forall|x: int| 0 <= x < pos + chunk.len() implies #[trigger] t.subrange(
            0,
            pos + chunk.len() as int,
        )[x] == (t.subrange(0, pos) + chunk)[x] by {
            if x >= pos {
                assert(t[x] == t.subrange(pos, pos + chunk.len() as int)[x - pos]);
            }
        }
    }
}

/// Byte-sequence equality.
pub fn bytes_eq(a: &Vec<u8>, b: &Vec<u8>) -> (r: bool)
    ensures
        r == (a@ == b@),
{
    if a.len() != b.len() {
        assert(a@ != b@) by {
            assert(a@.len() != b@.len());
        }
        return false;
    }
    let mut k: usize = 0;
    while k < a.len()
        invariant
            0 <= k <= a@.len(),
            a@.len() == b@.len(),
            forall|x: int| 0 <= x < k ==> a@[x] == b@[x],
        decreases a@.len() - k,
    {
        if a[k] != b[k] {
            return false;
        }
        k += 1;
    }
    proof {
        assert(a@ =~= b@);
    }
    true
}

/// What a successful name scan covers: the quoted rendering of the name.
pub proof fn lemma_sp_name_chunk(t: Seq<u8>, i: int, b: Seq<u8>, j: int)
    requires
        sp_name(t, i) == Some((b, j)),
    ensures
        follows(t, i, jname(b)),
        j == i + jname(b).len(),
{
    let e = name_end(t, i + 1);
    lemma_name_end_bounds(t, i + 1);
    assert(b == t.subrange(i + 1, e));
    assert(t.subrange(i, j) =~= jname(b)) by {
        assert forall|x: int| 0 <= x < j - i implies #[trigger] t.subrange(i, j)[x] == jname(
            b,
        )[x] by {
            if 1 <= x < j - i - 1 {
                assert(t.subrange(i + 1, e)[x - 1] == t[i + x]);
            }
        }
    }
}

/// What a successful number scan covers: the decimal rendering of the value.
pub proof fn lemma_sp_num_chunk(t: Seq<u8>, i: int, n: u64, j: int)
    requires
        sp_num(t, i) == Some((n, j)),
    ensures
        follows(t, i, dec(n)),
        j == i + dec(n).len(),
{
    lemma_run_end_bounds(t, i);
    assert(j == run_end(t, i));
    lemma_dec_of_val(t, i, j);
    assert(dec(n) == t.subrange(i, j));
}

/// Two adjacent chunks combine.
pub proof fn lemma_follows_join(t: Seq<u8>, i: int, a: Seq<u8>, b: Seq<u8>)
    requires
        follows(t, i, a),
        follows(t, i + a.len(), b),
    ensures
        follows(t, i, a + b),
{
    assert(t.subrange(i, i + (a + b).len() as int) =~= a + b) by {
        assert forall|x: int| 0 <= x < (a + b).len() implies #[trigger] t.subrange(
            i,
            i + (a + b).len() as int,
        )[x] == (a + b)[x] by {
            if x < a.len() {
                assert(t[i + x] == t.subrange(i, i + a.len() as int)[x]);
            } else {
                assert(t[i + x] == t.subrange(i + a.len(), i + a.len() + b.len() as int)[x
                    - a.len()]);
            }
        }
    }
}

// ---------------------------------------------------------------------------
// Arrays of numbers
// ---------------------------------------------------------------------------
/// Comma-separated decimal renderings, in order.
pub open spec fn dec_list(xs: Seq<u64>) -> Seq<u8>
    decreases xs.len(),
{
    if xs.len() == 0 {
        Seq::empty()
    } else if xs.len() == 1 {
        dec(xs[0])
    } else {
        dec(xs[0]) + seq![44u8] + dec_list(xs.drop_first())
    }
}

/// The canonical array rendering of a number sequence.
pub open spec fn jarr(xs: Seq<u64>) -> Seq<u8> {
    seq![91u8] + dec_list(xs) + seq![93u8]
}

/// Items of an array, starting at the first digit. Yields the values and the
/// position of the closing bracket.
pub open spec fn sp_num_items(t: Seq<u8>, i: int) -> Option<(Seq<u64>, int)>
    decreases t.len() - i when 0 <= i <= t.len()
{
    match sp_num(t, i) {
        Option::None => Option::None,
        Option::Some((n, j)) => {
            if j < t.len() && t[j] == 44 && i < j + 1 <= t.len() {
                match sp_num_items(t, j + 1) {
                    Option::None => Option::None,
                    Option::Some((rest, e)) => Option::Some((seq![n] + rest, e)),
                }
            } else {
                Option::Some((seq![n], j))
            }
        },
    }
}

/// A whole array at position `i`. Yields the values and the position after
/// the closing bracket.
pub open spec fn sp_num_list(t: Seq<u8>, i: int) -> Option<(Seq<u64>, int)> {
    if 0 <= i && follows(t, i, seq![91u8]) {
        if follows(t, i + 1, seq![93u8]) {
            Option::Some((Seq::empty(), i + 2))
        } else {
            match sp_num_items(t, i + 1) {
                Option::None => Option::None,
                Option::Some((xs, e)) => {
                    if e < t.len() && t[e] == 93 {
                        Option::Some((xs, e + 1))
                    } else {
                        Option::None
                    }
                },
            }
        }
    } else {
        Option::None
    }
}

/// A rendered item list followed by the closing bracket parses back to its
/// values.
pub proof fn lemma_sp_num_items_of(t: Seq<u8>, i: int, xs: Seq<u64>)
    requires
        follows(t, i, dec_list(xs)),
        xs.len() >= 1,
        i + dec_list(xs).len() < t.len(),
        t[i + dec_list(xs).len()] == 93,
    ensures
        sp_num_items(t, i) == Some((xs, i + dec_list(xs).len() as int)),
    decreases xs.len(),
{
    let n = xs[0];
    if xs.len() == 1 {
        assert(dec_list(xs) == dec(n));
        let e = i + dec_list(xs).len() as int;
        assert(!is_digit_byte(t[e]));
        lemma_sp_num_of_dec(t, i, n);
        assert(t[e] != 44);
        assert(seq![n] =~= xs);
    } else {
        let rest = xs.drop_first();
        assert(dec_list(xs) == dec(n) + seq![44u8] + dec_list(rest));
        assert(dec_list(xs) =~= dec(n) + (seq![44u8] + dec_list(rest)));
        lemma_follows_concat(t, i, dec(n), seq![44u8] + dec_list(rest));
        lemma_follows_concat(t, i + dec(n).len(), seq![44u8], dec_list(rest));
        let comma_at = i + dec(n).len() as int;
        lemma_follows_index(t, comma_at, seq![44u8], 0);
        assert(t[comma_at] == 44);
        assert(!is_digit_byte(t[comma_at]));
        lemma_sp_num_of_dec(t, i, n);
        let e = i + dec_list(xs).len() as int;
        assert(comma_at + 1 + dec_list(rest).len() == e);
        lemma_sp_num_items_of(t, comma_at + 1, rest);
        assert(seq![n] + rest =~= xs);
    }
}

/// A rendered array parses back to its values.
pub proof fn lemma_sp_num_list_of(t: Seq<u8>, i: int, xs: Seq<u64>)
    requires
        follows(t, i, jarr(xs)),
    ensures
        sp_num_list(t, i) == Some((xs, i + jarr(xs).len() as int)),
{
    assert(jarr(xs) =~= seq![91u8] + (dec_list(xs) + seq![93u8]));
    lemma_follows_concat(t, i, seq![91u8], dec_list(xs) + seq![93u8]);
    lemma_follows_concat(t, i + 1, dec_list(xs), seq![93u8]);
    let e = i + 1 + dec_list(xs).len() as int;
    lemma_follows_index(t, e, seq![93u8], 0);
    if xs.len() == 0 {
        assert(follows(t, i + 1, seq![93u8]));
        assert(Seq::<u64>::empty() =~= xs);
    } else {
        assert(!follows(t, i + 1, seq![93u8])) by {
            if follows(t, i + 1, seq![93u8]) {
                lemma_follows_index(t, i + 1, seq![93u8], 0);
                lemma_dec_props(xs[0]);
                assert(dec_list(xs)[0] == dec(xs[0])[0]) by {
                    if xs.len() > 1 {
                        assert(dec_list(xs) == dec(xs[0]) + seq![44u8] + dec_list(
                            xs.drop_first(),
                        ));
                    }
                }
                lemma_follows_index(t, i + 1, dec_list(xs), 0);
                assert(is_digit_byte(t[i + 1]));
            }
        }
        lemma_sp_num_items_of(t, i + 1, xs);
    }
}

/// Appending one value to an item list appends its rendering.
pub proof fn lemma_dec_list_snoc(xs: Seq<u64>, n: u64)
    ensures
        dec_list(xs.push(n)) == if xs.len() == 0 {
            dec(n)
        } else {
            dec_list(xs) + seq![44u8] + dec(n)
        },
    decreases xs.len(),
{
    let whole = xs.push(n);
    if xs.len() == 0 {
        assert(whole.len() == 1);
        assert(whole[0] == n);
    } else {
        assert(whole[0] == xs[0]);
        lemma_dec_list_snoc(xs.drop_first(), n);
        assert(whole.drop_first() =~= xs.drop_first().push(n));
        if xs.len() == 1 {
            assert(dec_list(whole) =~= dec_list(xs) + seq![44u8] + dec(n));
        } else {
            assert(dec_list(whole) =~= dec_list(xs) + seq![44u8] + dec(n));
        }
    }
}

/// Renders an array of numbers.
pub fn push_num_list(out: &mut Vec<u8>, xs: &Vec<u64>)
    ensures
        final(out)@ == old(out)@ + jarr(xs@),
{
    push_byte(out, 91);
    let mut k: usize = 0;
    proof {
        assert(xs@.take(0) =~= Seq::<u64>::empty());
        assert(out@ == old(out)@ + seq![91u8] + dec_list(xs@.take(0)));
    }
    while k < xs.len()
        invariant
            0 <= k <= xs@.len(),
            out@ == old(out)@ + seq![91u8] + dec_list(xs@.take(k as int)),
        decreases xs@.len() - k,
    {
        if k > 0 {
            push_byte(out, 44);
        }
        push_dec(out, xs[k]);
        proof {
            lemma_dec_list_snoc(xs@.take(k as int), xs@[k as int]);
            assert(xs@.take(k + 1) =~= xs@.take(k as int).push(xs@[k as int]));
            assert(out@ =~= old(out)@ + seq![91u8] + dec_list(xs@.take(k + 1)));
        }
        k += 1;
    }
    push_byte(out, 93);
    proof {
        assert(xs@.take(xs@.len() as int) =~= xs@);
        assert(out@ =~= old(out)@ + jarr(xs@));
    }
}

/// Scans an array of numbers; the executable form of `sp_num_list`.
pub fn num_list_scan(t: &Vec<u8>, i: usize) -> (r: Option<(Vec<u64>, usize)>)
    ensures
        match r {
            Option::Some((xs, j)) => sp_num_list(t@, i as int) == Some((xs@, j as int)) && i < j
                <= t@.len(),
            Option::None => sp_num_list(t@, i as int) is None,
        },
{
    let r0 = expect_byte(t, i, 91);
    let i0 = match r0 {
        Option::Some(j) => j,
        Option::None => {
            return None;
        },
    };
    let r1 = expect_byte(t, i0, 93);
    match r1 {
        Option::Some(j) => {
            let xs: Vec<u64> = Vec::new();
            proof {
                assert(xs@ =~= Seq::<u64>::empty());
            }
            return Some((xs, j));
        },
        Option::None => {},
    }
    proof {
        if i0 < t@.len() && t@[i0 as int] == 93 {
            assert(t@.subrange(i0 as int, i0 as int + 1) =~= seq![93u8]);
        }
    }
    let mut acc: Vec<u64> = Vec::new();
    let mut p: usize = i0;
    loop
        invariant_except_break
            i as int + 1 == i0,
            i0 <= p <= t@.len(),
            follows(t@, i as int, seq![91u8]),
            !follows(t@, i0 as int, seq![93u8]),
            sp_num_items(t@, i0 as int) == (match sp_num_items(t@, p as int) {
                Option::Some((rest, e)) => Option::Some((acc@ + rest, e)),
                Option::None => Option::None::<(Seq<u64>, int)>,
            }),
        invariant
            i as int + 1 == i0,
            follows(t@, i as int, seq![91u8]),
            !follows(t@, i0 as int, seq![93u8]),
        ensures
            i0 <= p <= t@.len(),
            sp_num_items(t@, i0 as int) == Option::Some((acc@, p as int)),
        decreases t@.len() - p,
    {
        let ghost acc0 = acc@;
        let rn = parse_num(t, p);
        let (n, j) = match rn {
            Option::Some(x) => x,
            Option::None => {
                proof {
                    assert(sp_num_items(t@, p as int) is None);
                    assert(sp_num_list(t@, i as int) is None);
                }
                return None;
            },
        };
        acc.push(n);
        proof {
            assert(acc@ =~= acc0.push(n));
        }
        if j < t.len() && t[j] == 44 {
            proof {
                match sp_num_items(t@, j + 1) {
                    Option::Some((rest, e)) => {
                        assert(sp_num_items(t@, p as int) == Option::Some((seq![n] + rest, e)));
                        assert(acc0 + (seq![n] + rest) =~= acc@ + rest);
                    },
                    Option::None => {
                        assert(sp_num_items(t@, p as int) is None);
                    },
                }
            }
            p = j + 1;
        } else {
            proof {
                assert(sp_num_items(t@, p as int) == Option::Some((seq![n], j as int)));
                assert(acc0 + seq![n] =~= acc@);
            }
            p = j;
            break;
        }
    }
    let r2 = expect_byte(t, p, 93);
    match r2 {
        Option::Some(j) => {
            proof {
                lemma_follows_index(t@, p as int, seq![93u8], 0);
            }
            Some((acc, j))
        },
        Option::None => {
            proof {
                if p < t@.len() && t@[p as int] == 93 {
                    assert(t@.subrange(p as int, p as int + 1) =~= seq![93u8]);
                }
                assert(sp_num_list(t@, i as int) is None);
            }
            None
        },
    }
}

/// Every byte of a rendered array is ASCII and not whitespace.
pub proof fn lemma_jarr_clean(xs: Seq<u64>)
    ensures
        is_ascii_bytes(jarr(xs)),
        forall|i: int| 0 <= i < jarr(xs).len() ==> !is_ws_byte(#[trigger] jarr(xs)[i]),
    decreases xs.len(),
{
    if xs.len() == 0 {
        assert forall|i: int| 0 <= i < jarr(xs).len() implies (#[trigger] jarr(xs)[i]) < 128
            && !is_ws_byte(jarr(xs)[i]) by {
            assert(dec_list(xs).len() == 0);
            assert(jarr(xs).len() == 2);
        }
    } else if xs.len() == 1 {
        lemma_dec_props(xs[0]);
        assert forall|i: int| 0 <= i < jarr(xs).len() implies (#[trigger] jarr(xs)[i]) < 128
            && !is_ws_byte(jarr(xs)[i]) by {
            assert(jarr(xs) == seq![91u8] + dec(xs[0]) + seq![93u8]);
            if 1 <= i < jarr(xs).len() - 1 {
                assert(jarr(xs)[i] == dec(xs[0])[i - 1]);
                assert(is_digit_byte(dec(xs[0])[i - 1]));
            }
        }
    } else {
        let rest = xs.drop_first();
        lemma_jarr_clean(rest);
        lemma_dec_props(xs[0]);
        assert forall|i: int| 0 <= i < jarr(xs).len() implies (#[trigger] jarr(xs)[i]) < 128
            && !is_ws_byte(jarr(xs)[i]) by {
            assert(jarr(xs) == seq![91u8] + (dec(xs[0]) + seq![44u8] + dec_list(rest))
                + seq![93u8]);
            if 1 <= i < jarr(xs).len() - 1 {
                assert(jarr(xs)[i] == (dec(xs[0]) + seq![44u8] + dec_list(rest))[i - 1]);
                if i - 1 < dec(xs[0]).len() {
                    assert(is_digit_byte(dec(xs[0])[i - 1]));
                } else if i - 1 >= dec(xs[0]).len() + 1 {
                    assert((dec(xs[0]) + seq![44u8] + dec_list(rest))[i - 1] == dec_list(
                        rest,
                    )[i - 1 - dec(xs[0]).len() - 1]);
                    assert(jarr(rest)[i - 1 - dec(xs[0]).len()] == dec_list(rest)[i - 1 - dec(
                        xs[0],
                    ).len() - 1]);
                }
            }
        }
    }
}

/// Whether every byte is allowed inside a JSON string of this library.
pub fn check_name_bytes(v: &Vec<u8>) -> (r: bool)
    ensures
        r == is_name_seq(v@),
{
    let mut k: usize = 0;
    while k < v.len()
        invariant
            0 <= k <= v@.len(),
            forall|x: int| 0 <= x < k ==> is_name_byte(#[trigger] v@[x]),
        decreases v@.len() - k,
    {
        let b = v[k];
        if !(33 <= b && b <= 126 && b != 34 && b != 92) {
            return false;
        }
        k += 1;
    }
    true
}

/// UTF-8 encoding is injective.
pub proof fn lemma_encode_utf8_injective(a: Seq<char>, b: Seq<char>)
    requires
        encode_utf8(a) == encode_utf8(b),
    ensures
        a == b,
{
    encode_utf8_decode_utf8(a);
    encode_utf8_decode_utf8(b);
}

/// What a successful member scan covers: the rendering of its members.
pub proof fn lemma_sp_pairs_items_chunk(t: Seq<u8>, i: int, ps: Seq<(Seq<u8>, u64)>, e: int)
    requires
        sp_pairs_items(t, i) == Some((ps, e)),
        0 <= i <= t.len(),
    ensures
        follows(t, i, pairs_items(ps)),
        e == i + pairs_items(ps).len(),
        ps.len() >= 1,
        all_names_wf(ps),
    decreases t.len() - i,
{
    let r0 = sp_name(t, i);
    let (name, i1) = r0->Some_0;
    lemma_sp_name_chunk(t, i, name, i1);
    lemma_name_end_bounds(t, i + 1);
    let r1 = sp_num(t, i1 + 1);
    let (v, j) = r1->Some_0;
    lemma_sp_num_chunk(t, i1 + 1, v, j);
    assert(t.subrange(i1, i1 + 1) =~= seq![58u8]);
    lemma_follows_join(t, i, jname(name), seq![58u8]);
    lemma_follows_join(t, i, jname(name) + seq![58u8], dec(v));
    assert(pair_bytes(name, v) =~= (jname(name) + seq![58u8]) + dec(v));
    if j < t.len() && t[j] == 44 && i < j + 1 <= t.len() {
        let r2 = sp_pairs_items(t, j + 1);
        match r2 {
            Option::Some((rest, e2)) => {
                lemma_sp_pairs_items_chunk(t, j + 1, rest, e2);
                assert(ps == seq![(name, v)] + rest);
                assert(ps[0] == (name, v));
                assert(ps.drop_first() =~= rest);
                assert(pairs_items(ps) == pair_bytes(name, v) + seq![44u8] + pairs_items(rest));
                assert(t.subrange(j, j + 1) =~= seq![44u8]);
                lemma_follows_join(t, i, pair_bytes(name, v), seq![44u8]);
                lemma_follows_join(t, i, pair_bytes(name, v) + seq![44u8], pairs_items(rest));
                assert(all_names_wf(ps)) by {
                    assert forall|x: int| 0 <= x < ps.len() implies is_name_seq(
                        (#[trigger] ps[x]).0,
                    ) by {
                        if x > 0 {
                            assert(ps[x] == rest[x - 1]);
                            assert(is_name_seq(rest[x - 1].0));
                        }
                    }
                }
            },
            Option::None => {
                assert(false);
            },
        }
    } else {
        assert(ps == seq![(name, v)]);
        assert(pairs_items(ps) == pair_bytes(name, v));
        assert(all_names_wf(ps)) by {
            assert forall|x: int| 0 <= x < ps.len() implies is_name_seq(
                (#[trigger] ps[x]).0,
            ) by {
                assert(ps[x] == (name, v));
            }
        }
    }
}

/// A document scan that succeeds only ever accepts the canonical rendering
/// of its members.
pub proof fn lemma_sp_pairs_doc_sound(t: Seq<u8>, ps: Seq<(Seq<u8>, u64)>)
    requires
        sp_pairs_doc(t) == Some(ps),
    ensures
        t == jpairs(ps),
        all_names_wf(ps),
{
    if ps.len() == 0 {
        assert(t.len() == 2 && t[0] == 123 && t[1] == 125);
        assert(t =~= jpairs(ps)) by {
            assert(pairs_items(ps).len() == 0);
            assert(jpairs(ps).len() == 2);
            assert(jpairs(ps)[0] == 123);
            assert(jpairs(ps)[1] == 125);
        }
    } else {
        let r = sp_pairs_items(t, 1);
        let (ps2, e) = r->Some_0;
        lemma_sp_pairs_items_chunk(t, 1, ps2, e);
        assert(t =~= jpairs(ps)) by {
            assert(follows(t, 1, pairs_items(ps)));
            assert forall|x: int| 0 <= x < t.len() implies t[x] == #[trigger] jpairs(ps)[x] by {
                if 1 <= x < t.len() - 1 {
                    assert(t[x] == t.subrange(1, 1 + pairs_items(ps).len() as int)[x - 1]);
                }
            }
        }
    }
}

} // verus!

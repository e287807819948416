//! The report renderer: interpolates the collected form values into a
//! report endpoint's template, and serializes the accumulated tag trail
//! into a machine-decodable trailer.
//!
//! The trailer is the history's tags flattened in order (duplicates across
//! sections kept: they are independent classification events), joined with
//! commas, and carried through a reversible binary-to-text encoding.

use vstd::prelude::*;
use vstd::utf8::encode_utf8;
use crate::form::{fv_view, vlookup};
use crate::session::{HistoryEntry, history_images};
use crate::strutil::{push_char, str_to_chars};

verus! {

/// The interpolation of `id`: the stored value, or empty when none is
/// stored.
pub open spec fn interp_lookup(m: Seq<(Seq<char>, Seq<char>)>, id: Seq<char>) -> Seq<char> {
    match vlookup(m, id) {
        Some(v) => v,
        None => Seq::empty(),
    }
}

/// The position of the first closing brace at or after `i`, or a negative
/// number when there is none.
pub open spec fn find_close(s: Seq<char>, i: int) -> int
    decreases s.len() - i,
{
    if i < 0 || i >= s.len() {
        -1
    } else if s[i] == '}' {
        i
    } else {
        find_close(s, i + 1)
    }
}

/// The template from position `i` on, with every placeholder replaced by
/// the stored value of the id between its braces (empty when none is
/// stored); a placeholder with no closing brace stays literal text.
pub open spec fn interp_from(s: Seq<char>, m: Seq<(Seq<char>, Seq<char>)>, i: int) -> Seq<char>
    decreases s.len() - i,
{
    if i < 0 || i >= s.len() {
        Seq::empty()
    } else if s[i] == '$' && i + 1 < s.len() && s[i + 1] == '{' && i + 2 <= find_close(s, i + 2)
        && find_close(s, i + 2) < s.len() {
        let j = find_close(s, i + 2);
        interp_lookup(m, s.subrange(i + 2, j)) + interp_from(s, m, j + 1)
    } else {
        seq![s[i]] + interp_from(s, m, i + 1)
    }
}

/// The template with every placeholder replaced by its stored value.
pub open spec fn interp(s: Seq<char>, m: Seq<(Seq<char>, Seq<char>)>) -> Seq<char> {
    interp_from(s, m, 0)
}

/// Replaces every placeholder of the template with the value the form
/// store holds for the id between its braces, empty when it holds none.
pub fn interpolate(text: &str, form: &Vec<(String, String)>) -> (r: String)
    ensures
        r@ == interp(text@, fv_view(form@)),
{
    let ghost s = text@;
    let ghost m = fv_view(form@);
    let cs = str_to_chars(text);
    let n = cs.len();
    let mut out = String::new();
    let mut i: usize = 0;
    proof {
        assert(Seq::<char>::empty() + interp_from(s, m, 0) =~= interp_from(s, m, 0));
    }
    while i < n
        invariant
            s == text@,
            cs@ == s,
            n == s.len(),
            i <= n,
            m == fv_view(form@),
            interp(s, m) == out@ + interp_from(s, m, i as int),
        decreases n - i,
    {
        if cs[i] == '$' && i + 1 < n && cs[i + 1] == '{' {
            // Scan for the closing brace.
            let mut j: usize = i + 2;
            while j < n && cs[j] != '}'
                invariant
                    s == text@,
                    cs@ == s,
                    n == s.len(),
                    i + 2 <= j <= n,
                    find_close(s, i + 2) == find_close(s, j as int),
                decreases n - j,
            {
                j += 1;
            }
            if j < n {
                proof {
                    assert(find_close(s, i + 2) == j);
                }
                let token = text.substring_char(i + 2, j);
                let value = crate::form::form_get(form, token);
                match value {
                    Some(v) => {
                        out.append(v.as_str());
                    },
                    None => {},
                }
                proof {
                    assert(token@ == s.subrange(i + 2, j as int));
                    assert(interp_from(s, m, i as int) == interp_lookup(m, s.subrange(i + 2, j as int))
                        + interp_from(s, m, j + 1));
                }
                i = j + 1;
            } else {
                proof {
                    assert(find_close(s, i + 2) == -1);
                    assert(interp_from(s, m, i as int) == seq![s[i as int]] + interp_from(
                        s,
                        m,
                        i + 1,
                    ));
                }
                push_char(&mut out, cs[i]);
                i += 1;
            }
        } else {
            proof {
                assert(interp_from(s, m, i as int) == seq![s[i as int]] + interp_from(s, m, i + 1));
            }
            push_char(&mut out, cs[i]);
            i += 1;
        }
        proof {
            assert(out@ + interp_from(s, m, i as int) =~= interp(s, m));
        }
    }
    proof {
        assert(out@ =~= interp(s, m));
    }
    out
}

/// The history's tags flattened in order from position `i` on.
pub open spec fn flat_from(h: Seq<(Seq<char>, Seq<Seq<char>>)>, i: int) -> Seq<Seq<char>>
    decreases h.len() - i,
{
    if i < 0 || i >= h.len() {
        Seq::empty()
    } else {
        h[i].1 + flat_from(h, i + 1)
    }
}

/// The history's tags flattened in order: concatenation, not deduplicated
/// across entries.
pub open spec fn flat_tags(h: Seq<(Seq<char>, Seq<Seq<char>>)>) -> Seq<Seq<char>> {
    flat_from(h, 0)
}

/// How many entries of `ss` are the text `x`.
pub open spec fn count_of(ss: Seq<Seq<char>>, x: Seq<char>) -> int
    decreases ss.len(),
{
    if ss.len() == 0 {
        0
    } else {
        (if ss[0] == x {
            1int
        } else {
            0int
        }) + count_of(ss.drop_first(), x)
    }
}

/// Counting distributes over concatenation.
pub proof fn lemma_count_concat(a: Seq<Seq<char>>, b: Seq<Seq<char>>, x: Seq<char>)
    ensures
        count_of(a + b, x) == count_of(a, x) + count_of(b, x),
    decreases a.len(),
{
    if a.len() == 0 {
        assert(a + b =~= b);
    } else {
        assert((a + b)[0] == a[0]);
        assert((a + b).drop_first() =~= a.drop_first() + b);
        lemma_count_concat(a.drop_first(), b, x);
    }
}

/// A held text counts at least once.
pub proof fn lemma_count_contains(ss: Seq<Seq<char>>, x: Seq<char>)
    ensures
        count_of(ss, x) >= 0,
        ss.contains(x) ==> count_of(ss, x) >= 1,
    decreases ss.len(),
{
    if ss.len() > 0 {
        lemma_count_contains(ss.drop_first(), x);
        if ss.contains(x) && ss[0] != x {
            let i = choose|i: int| 0 <= i < ss.len() && ss[i] == x;
            assert(ss.drop_first()[i - 1] == x);
        }
    }
}

/// Flattening from position `k` counts a tag at least as often as any one
/// later entry holds it.
proof fn lemma_flat_from_ge_entry(h: Seq<(Seq<char>, Seq<Seq<char>>)>, k: int, i: int, x: Seq<char>)
    requires
        0 <= k <= i < h.len(),
    ensures
        count_of(flat_from(h, k), x) >= count_of(h[i].1, x),
        count_of(flat_from(h, k), x) >= 0,
    decreases i - k,
{
    lemma_count_concat(h[k].1, flat_from(h, k + 1), x);
    lemma_count_contains(h[k].1, x);
    if k < i {
        lemma_flat_from_ge_entry(h, k + 1, i, x);
    } else {
        lemma_count_nonneg(flat_from(h, k + 1), x);
    }
}

/// Counts are never negative.
proof fn lemma_count_nonneg(ss: Seq<Seq<char>>, x: Seq<char>)
    ensures
        count_of(ss, x) >= 0,
    decreases ss.len(),
{
    if ss.len() > 0 {
        lemma_count_nonneg(ss.drop_first(), x);
    }
}

/// A tag granted by two different history entries appears at least twice
/// in the flattened trailer: duplicates across sections are independent
/// classification events and are kept.
pub proof fn lemma_flat_tags_keeps_duplicates(
    h: Seq<(Seq<char>, Seq<Seq<char>>)>,
    i: int,
    j: int,
    x: Seq<char>,
)
    requires
        0 <= i < j < h.len(),
        h[i].1.contains(x),
        h[j].1.contains(x),
    ensures
        count_of(flat_tags(h), x) >= 2,
{
    lemma_flat_from_split(h, 0, i, j, x);
}

/// The inductive core of [`lemma_flat_tags_keeps_duplicates`].
proof fn lemma_flat_from_split(
    h: Seq<(Seq<char>, Seq<Seq<char>>)>,
    k: int,
    i: int,
    j: int,
    x: Seq<char>,
)
    requires
        0 <= k <= i < j < h.len(),
        h[i].1.contains(x),
        h[j].1.contains(x),
    ensures
        count_of(flat_from(h, k), x) >= 2,
    decreases i - k,
{
    lemma_count_concat(h[k].1, flat_from(h, k + 1), x);
    if k < i {
        lemma_count_contains(h[k].1, x);
        lemma_flat_from_split(h, k + 1, i, j, x);
    } else {
        lemma_count_contains(h[k].1, x);
        lemma_flat_from_ge_entry(h, k + 1, j, x);
        lemma_count_contains(h[j].1, x);
    }
}

/// The texts joined with a comma between neighbours, from position `i` on.
pub open spec fn join_from(ts: Seq<Seq<char>>, i: int) -> Seq<char>
    decreases ts.len() - i,
{
    if i < 0 || i >= ts.len() {
        Seq::empty()
    } else if i == ts.len() - 1 {
        ts[i]
    } else {
        ts[i] + seq![','] + join_from(ts, i + 1)
    }
}

/// The texts joined with a comma between neighbours.
pub open spec fn join_commas(ts: Seq<Seq<char>>) -> Seq<char> {
    join_from(ts, 0)
}

/// Joins a list of tags with commas.
pub fn join_tags(ts: &Vec<String>) -> (r: String)
    ensures
        r@ == join_commas(ts.deep_view()),
{
    let ghost tv = ts.deep_view();
    let n = ts.len();
    let mut out = String::new();
    let mut i: usize = 0;
    proof {
        assert(Seq::<char>::empty() + join_from(tv, 0) =~= join_from(tv, 0));
    }
    while i < n
        invariant
            n == ts@.len(),
            tv == ts.deep_view(),
            i <= n,
            join_commas(tv) == out@ + join_from(tv, i as int),
        decreases n - i,
    {
        out.append(ts[i].as_str());
        if i + 1 < n {
            push_char(&mut out, ',');
            proof {
                assert(join_from(tv, i as int) == tv[i as int] + seq![','] + join_from(tv, i + 1));
                assert(out@ + join_from(tv, i + 1) =~= join_commas(tv));
            }
        } else {
            proof {
                assert(join_from(tv, i as int) == tv[i as int]);
                assert(out@ + join_from(tv, i + 1) =~= join_commas(tv));
            }
        }
        i += 1;
    }
    proof {
        assert(out@ =~= join_commas(tv));
    }
    out
}

/// Flattens the history's tags into one list, in order, duplicates kept.
pub fn flatten_history(entries: &Vec<HistoryEntry>) -> (r: Vec<String>)
    ensures
        r.deep_view() == flat_tags(history_images(entries@)),
{
    let ghost hm = history_images(entries@);
    let n = entries.len();
    let mut out: Vec<String> = Vec::new();
    let mut i: usize = 0;
    proof {
        assert(out.deep_view() =~= Seq::<Seq<char>>::empty());
        assert(Seq::<Seq<char>>::empty() + flat_from(hm, 0) =~= flat_from(hm, 0));
    }
    while i < n
        invariant
            n == entries@.len(),
            i <= n,
            hm == history_images(entries@),
            flat_tags(hm) == out.deep_view() + flat_from(hm, i as int),
        decreases n - i,
    {
        let ts = &entries[i].tags;
        let ghost tdv = ts.deep_view();
        proof {
            assert(hm[i as int].1 == tdv);
            assert(tdv.subrange(0, tdv.len() as int) =~= tdv);
        }
        let m = ts.len();
        let mut k: usize = 0;
        while k < m
            invariant
                n == entries@.len(),
                i < n,
                m == ts@.len(),
                k <= m,
                tdv == ts.deep_view(),
                hm == history_images(entries@),
                flat_tags(hm) == out.deep_view() + (tdv.subrange(k as int, m as int) + flat_from(
                    hm,
                    i + 1,
                )),
            decreases m - k,
        {
            let ghost odv = out.deep_view();
            out.push(ts[k].clone());
            proof {
                assert(out.deep_view() =~= odv.push(tdv[k as int]));
                assert(tdv.subrange(k as int, m as int) =~= seq![tdv[k as int]] + tdv.subrange(
                    k + 1,
                    m as int,
                ));
                assert(odv.push(tdv[k as int]) + (tdv.subrange(k + 1, m as int) + flat_from(hm, i + 1))
                    =~= odv + (tdv.subrange(k as int, m as int) + flat_from(hm, i + 1)));
            }
            k += 1;
        }
        proof {
            assert(tdv.subrange(m as int, m as int) =~= Seq::<Seq<char>>::empty());
            assert(out.deep_view() + (Seq::<Seq<char>>::empty() + flat_from(hm, i + 1))
                =~= out.deep_view() + flat_from(hm, i + 1));
        }
        i += 1;
    }
    proof {
        assert(out.deep_view() + flat_from(hm, n as int) =~= out.deep_view());
    }
    out
}

/// The base64 rendering (standard alphabet, padded) of a byte sequence.
pub uninterp spec fn b64_of(bytes: Seq<u8>) -> Seq<char>;

/// The encoded tag trailer of a flattened tag list: the tags joined with
/// commas, UTF-8 encoded, carried through the binary-to-text encoding.
pub open spec fn trailer_of(ts: Seq<Seq<char>>) -> Seq<char> {
    b64_of(encode_utf8(join_commas(ts)))
}

#[verifier::external_type_specification]
#[verifier::external_body]
pub struct ExDecodeError(base64::DecodeError);

/// Relies on base64::encode: the standard-alphabet, padded base64 rendering
/// of the input bytes, a function of them alone. The crate panics only when
/// the output length overflows usize, which the bound on the input rules
/// out.
#[verifier::external_body]
fn b64_encode(bytes: &Vec<u8>) -> (r: String)
    requires
        bytes@.len() <= usize::MAX / 4,
    ensures
        r@ == b64_of(bytes@),
{
    base64::encode(bytes)
}

/// Relies on base64::decode: decoding inverts base64::encode, so an input
/// that is the encoding of some bytes decodes to exactly those bytes.
#[verifier::external_body]
fn b64_decode(s: &str) -> (r: Result<Vec<u8>, base64::DecodeError>)
    ensures
        forall|b: Seq<u8>| s@ == b64_of(b) ==> r is Ok && r->Ok_0@ == b,
{
    base64::decode(s)
}

/// Relies on std's String::from_utf8: bytes that UTF-8-encode a character
/// sequence come back as exactly that sequence.
#[verifier::external_body]
fn string_from_utf8(bytes: Vec<u8>) -> (r: Option<String>)
    ensures
        forall|c: Seq<char>| bytes@ == encode_utf8(c) ==> r is Some && r->Some_0@ == c,
{
    match String::from_utf8(bytes) {
        Ok(t) => Some(t),
        Err(_) => None,
    }
}

/// The rendered report: the interpolated template, a blank line, and the
/// delimited block holding the encoded tag trailer.
pub open spec fn report_text(
    text: Seq<char>,
    m: Seq<(Seq<char>, Seq<char>)>,
    h: Seq<(Seq<char>, Seq<Seq<char>>)>,
) -> Seq<char> {
    interp(text, m) + "\n\n<section>\n<details>Tribble internal data</details>\n\n"@ + trailer_of(
        flat_tags(h),
    ) + "\n\n</section>"@
}

/// Renders a report endpoint's template against the form store and the
/// history. The result is withheld only when the joined tag trail is too
/// large for the encoder on this machine.
pub fn render_report(text: &str, form: &Vec<(String, String)>, entries: &Vec<HistoryEntry>) -> (r:
    Option<String>)
    ensures
        match r {
            Some(t) => t@ == report_text(text@, fv_view(form@), history_images(entries@)),
            None => encode_utf8(join_commas(flat_tags(history_images(entries@)))).len() > usize::MAX
                / 4,
        },
{
    let interpolated = interpolate(text, form);
    let flat = flatten_history(entries);
    let joined = join_tags(&flat);
    let bytes = joined.as_str().as_bytes_vec();
    if bytes.len() > usize::MAX / 4 {
        return None;
    }
    let encoded = b64_encode(&bytes);
    let mut out = interpolated;
    out.append("\n\n<section>\n<details>Tribble internal data</details>\n\n");
    out.append(encoded.as_str());
    out.append("\n\n</section>");
    proof {
        assert(out@ =~= report_text(text@, fv_view(form@), history_images(entries@)));
    }
    Some(out)
}

/// Decodes a tag trailer: decoding inverts encoding, so the trailer of any
/// comma-joined tag text decodes back to exactly that text.
pub fn decode_trailer(s: &str) -> (r: Option<String>)
    ensures
        forall|c: Seq<char>| s@ == b64_of(encode_utf8(c)) ==> (r matches Some(t) && t@ == c),
{
    let decoded = b64_decode(s);
    match decoded {
        Ok(bytes) => {
            let ghost bv = bytes@;
            let parsed = string_from_utf8(bytes);
            match parsed {
                Some(t) => Some(t),
                None => None,
            }
        },
        Err(_) => None,
    }
}

} // verus!

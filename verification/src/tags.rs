//! The tag accumulator: the tags a section's choices contribute at the
//! moment the user advances past it.
//!
//! A select input stores a multiple selection as the option texts joined by
//! `", "`; splitting on that delimiter recovers the selected texts, and each
//! text is looked up in the input's own option table. A boolean input whose
//! stored value is the literal `true` contributes its attached tags. Tags
//! are accumulated with set semantics: a tag contributed twice within one
//! section is recorded once.

use vstd::prelude::*;
use crate::parser::{Input, InputType, SelectOption, no_comma, opt_text};
use crate::strutil::{str_eq, str_to_chars, chars_to_string};

verus! {

/// The pieces of `s` split on the literal delimiter `", "`, leftmost first.
/// Splitting never yields an empty sequence of pieces.
pub open spec fn split_multi(s: Seq<char>) -> Seq<Seq<char>>
    decreases s.len(),
{
    if s.len() >= 2 && s[0] == ',' && s[1] == ' ' {
        seq![Seq::<char>::empty()] + split_multi(s.subrange(2, s.len() as int))
    } else if s.len() >= 1 {
        let rest = split_multi(s.subrange(1, s.len() as int));
        seq![seq![s[0]] + rest[0]] + rest.subrange(1, rest.len() as int)
    } else {
        seq![Seq::<char>::empty()]
    }
}

/// `ss` with its first piece extended by `c` at the front.
pub open spec fn prepend_first(c: Seq<char>, ss: Seq<Seq<char>>) -> Seq<Seq<char>> {
    seq![c + ss[0]] + ss.subrange(1, ss.len() as int)
}

/// The tag texts an option accumulates when selected.
pub open spec fn option_tag_views(o: SelectOption) -> Seq<Seq<char>> {
    match o {
        SelectOption::Simple(_) => Seq::empty(),
        SelectOption::WithTags { tags, .. } => tags.deep_view(),
    }
}

/// The option table of a select input, read at text level: each option's
/// display text beside the tags it accumulates.
pub open spec fn options_table(options: Seq<SelectOption>) -> Seq<(Seq<char>, Seq<Seq<char>>)> {
    options.map(|i: int, o: SelectOption| (opt_text(o), option_tag_views(o)))
}

/// What an input contributes to tag accumulation, read at text level. Two
/// inputs with the same image behave the same, whatever strings carry them.
pub struct InputImage {
    /// Whether the input is a select over options.
    pub is_select: bool,
    /// Whether the input is a boolean toggle.
    pub is_bool: bool,
    /// A select's option table; empty otherwise.
    pub table: Seq<(Seq<char>, Seq<Seq<char>>)>,
    /// A boolean's attached tags; empty otherwise or when none are attached.
    pub bool_tags: Seq<Seq<char>>,
}

/// The tag-relevant image of an input.
pub open spec fn input_image(inp: Input) -> InputImage {
    match inp {
        Input::Select { options, .. } => InputImage {
            is_select: true,
            is_bool: false,
            table: options_table(options@),
            bool_tags: Seq::empty(),
        },
        Input::Text { input_type: InputType::Boolean { tags } } => InputImage {
            is_select: false,
            is_bool: true,
            table: Seq::empty(),
            bool_tags: match tags {
                Some(ts) => ts.deep_view(),
                None => Seq::empty(),
            },
        },
        Input::Text { .. } => InputImage {
            is_select: false,
            is_bool: false,
            table: Seq::empty(),
            bool_tags: Seq::empty(),
        },
    }
}

/// The tags of the first table row whose display text is `text`; none when
/// no row carries that text.
pub open spec fn table_lookup_from(
    table: Seq<(Seq<char>, Seq<Seq<char>>)>,
    text: Seq<char>,
    i: int,
) -> Seq<Seq<char>>
    decreases table.len() - i,
{
    if i < 0 || i >= table.len() {
        Seq::empty()
    } else if table[i].0 == text {
        table[i].1
    } else {
        table_lookup_from(table, text, i + 1)
    }
}

/// The tags of the table row with display text `text`, if any.
pub open spec fn table_lookup(table: Seq<(Seq<char>, Seq<Seq<char>>)>, text: Seq<char>) -> Seq<
    Seq<char>,
> {
    table_lookup_from(table, text, 0)
}

/// The tag texts an input with stored value `value` contributes: the union
/// over a select's selected options, a boolean's attached tags when the
/// value reads `true`, nothing for any other kind.
pub open spec fn value_tags(img: InputImage, value: Seq<char>) -> Seq<Seq<char>> {
    if img.is_select {
        selected_tags(img.table, split_multi(value))
    } else if img.is_bool && value == "true"@ {
        img.bool_tags
    } else {
        Seq::empty()
    }
}

/// The tags of all selected texts, concatenated in selection order.
pub open spec fn selected_tags(
    table: Seq<(Seq<char>, Seq<Seq<char>>)>,
    pieces: Seq<Seq<char>>,
) -> Seq<Seq<char>>
    decreases pieces.len(),
{
    if pieces.len() == 0 {
        Seq::empty()
    } else {
        table_lookup(table, pieces[0]) + selected_tags(table, pieces.subrange(1, pieces.len() as int))
    }
}

/// The texts joined with the literal delimiter `", "` between neighbours,
/// from position `i` on.
pub open spec fn join_multi_from(ts: Seq<Seq<char>>, i: int) -> Seq<char>
    decreases ts.len() - i,
{
    if i < 0 || i >= ts.len() {
        Seq::empty()
    } else if i == ts.len() - 1 {
        ts[i]
    } else {
        ts[i] + seq![',', ' '] + join_multi_from(ts, i + 1)
    }
}

/// The texts joined with the literal delimiter `", "` between neighbours:
/// how a multiple selection is stored, the inverse reading of
/// [`split_multi`].
pub open spec fn join_multi(ts: Seq<Seq<char>>) -> Seq<char> {
    join_multi_from(ts, 0)
}

/// Joins selected option texts into the stored select value.
pub fn join_selected(texts: &Vec<String>) -> (r: String)
    ensures
        r@ == join_multi(texts.deep_view()),
{
    let ghost tv = texts.deep_view();
    let n = texts.len();
    let mut out = String::new();
    let mut i: usize = 0;
    proof {
        assert(Seq::<char>::empty() + join_multi_from(tv, 0) =~= join_multi_from(tv, 0));
    }
    while i < n
        invariant
            n == texts@.len(),
            tv == texts.deep_view(),
            i <= n,
            join_multi(tv) == out@ + join_multi_from(tv, i as int),
        decreases n - i,
    {
        out.append(texts[i].as_str());
        if i + 1 < n {
            out.append(", ");
            proof {
                reveal_strlit(", ");
                assert(", "@ =~= seq![',', ' ']);
                assert(join_multi_from(tv, i as int) == tv[i as int] + seq![',', ' ']
                    + join_multi_from(tv, i + 1));
                assert(out@ + join_multi_from(tv, i + 1) =~= join_multi(tv));
            }
        } else {
            proof {
                assert(join_multi_from(tv, i as int) == tv[i as int]);
                assert(out@ + join_multi_from(tv, i + 1) =~= join_multi(tv));
            }
        }
        i += 1;
    }
    proof {
        assert(out@ =~= join_multi(tv));
    }
    out
}

/// Splitting steps over a comma-free prefix: the prefix lands at the front
/// of the first piece.
proof fn lemma_split_skips_comma_free(p: Seq<char>, q: Seq<char>)
    requires
        no_comma(p),
    ensures
        split_multi(p + q) == prepend_first(p, split_multi(q)),
    decreases p.len(),
{
    let x = split_multi(q);
    lemma_split_multi_nonempty(q);
    if p.len() == 0 {
        assert(p + q =~= q);
        assert(prepend_first(p, x) =~= x) by {
            assert(p + x[0] =~= x[0]);
            assert(seq![x[0]] + x.subrange(1, x.len() as int) =~= x);
        }
    } else {
        let s = p + q;
        let p1 = p.drop_first();
        assert(s[0] == p[0] && p[0] != ',');
        assert(s.subrange(1, s.len() as int) =~= p1 + q);
        assert(forall|k: int| 0 <= k < p1.len() ==> p1[k] == p[k + 1] && #[trigger] p1[k] != ',');
        lemma_split_skips_comma_free(p1, q);
        let rest = split_multi(p1 + q);
        assert(split_multi(s) == seq![seq![s[0]] + rest[0]] + rest.subrange(1, rest.len() as int));
        assert(rest == seq![p1 + x[0]] + x.subrange(1, x.len() as int));
        assert(rest[0] == p1 + x[0]);
        assert(rest.subrange(1, rest.len() as int) =~= x.subrange(1, x.len() as int));
        assert(seq![s[0]] + (p1 + x[0]) =~= p + x[0]);
        assert(split_multi(s) =~= prepend_first(p, x));
    }
}

/// Splitting a value that starts with the delimiter yields an empty first
/// piece.
proof fn lemma_split_at_delimiter(q: Seq<char>)
    ensures
        split_multi(seq![',', ' '] + q) == seq![Seq::<char>::empty()] + split_multi(q),
{
    let s = seq![',', ' '] + q;
    assert(s.len() >= 2 && s[0] == ',' && s[1] == ' ');
    assert(s.subrange(2, s.len() as int) =~= q);
}

/// Joining past the first text joins the remaining texts.
proof fn lemma_join_multi_shift(ts: Seq<Seq<char>>, i: int)
    requires
        ts.len() >= 1,
        0 <= i,
    ensures
        join_multi_from(ts, i + 1) == join_multi_from(ts.drop_first(), i),
    decreases ts.len() - i,
{
    let t = ts.drop_first();
    if i + 1 < ts.len() - 1 {
        assert(ts[i + 1] == t[i]);
        lemma_join_multi_shift(ts, i + 1);
    } else if i + 1 == ts.len() - 1 {
        assert(ts[i + 1] == t[i]);
    }
}

/// Splitting inverts joining: for comma-free texts — the validated shape
/// of option texts — splitting the stored multiple selection gives back
/// exactly the selected texts.
pub proof fn lemma_split_inverts_join(ts: Seq<Seq<char>>)
    requires
        ts.len() >= 1,
        forall|i: int| 0 <= i < ts.len() ==> no_comma(#[trigger] ts[i]),
    ensures
        split_multi(join_multi(ts)) == ts,
    decreases ts.len(),
{
    if ts.len() == 1 {
        assert(join_multi(ts) == ts[0]);
        lemma_split_skips_comma_free(ts[0], Seq::empty());
        assert(ts[0] + Seq::<char>::empty() =~= ts[0]);
        assert(split_multi(Seq::<char>::empty()) == seq![Seq::<char>::empty()]);
        assert(prepend_first(ts[0], seq![Seq::<char>::empty()]) =~= ts) by {
            assert(ts[0] + Seq::<char>::empty() =~= ts[0]);
            assert(seq![Seq::<char>::empty()].subrange(1, 1) =~= Seq::<Seq<char>>::empty());
            assert(seq![ts[0]] =~= ts);
        }
    } else {
        let t = ts.drop_first();
        let jr = join_multi(t);
        lemma_join_multi_shift(ts, 0);
        assert(join_multi(ts) == ts[0] + seq![',', ' '] + jr);
        assert(ts[0] + seq![',', ' '] + jr =~= ts[0] + (seq![',', ' '] + jr));
        lemma_split_skips_comma_free(ts[0], seq![',', ' '] + jr);
        lemma_split_at_delimiter(jr);
        assert(forall|i: int| 0 <= i < t.len() ==> t[i] == ts[i + 1] && no_comma(#[trigger] t[i]));
        lemma_split_inverts_join(t);
        let x = seq![Seq::<char>::empty()] + t;
        assert(split_multi(join_multi(ts)) == prepend_first(ts[0], x));
        assert(prepend_first(ts[0], x) =~= ts) by {
            assert(x[0] =~= Seq::<char>::empty());
            assert(ts[0] + x[0] =~= ts[0]);
            assert(x.subrange(1, x.len() as int) =~= t);
            assert(seq![ts[0]] + t =~= ts);
        }
    }
}

/// `acc` with `t` appended unless already present.
pub open spec fn push_new(acc: Seq<Seq<char>>, t: Seq<char>) -> Seq<Seq<char>> {
    if acc.contains(t) {
        acc
    } else {
        acc.push(t)
    }
}

/// `acc` extended by every tag of `ts` in order, each appended only when not
/// yet present.
pub open spec fn add_all(acc: Seq<Seq<char>>, ts: Seq<Seq<char>>) -> Seq<Seq<char>>
    decreases ts.len(),
{
    if ts.len() == 0 {
        acc
    } else {
        add_all(push_new(acc, ts[0]), ts.subrange(1, ts.len() as int))
    }
}

/// No two entries of `ss` are the same text.
pub open spec fn no_dup(ss: Seq<Seq<char>>) -> bool {
    forall|i: int, j: int| 0 <= i < j < ss.len() ==> ss[i] != ss[j]
}

/// Accumulation preserves distinctness: a tag contributed twice is recorded
/// once.
pub proof fn lemma_add_all_no_dup(acc: Seq<Seq<char>>, ts: Seq<Seq<char>>)
    requires
        no_dup(acc),
    ensures
        no_dup(add_all(acc, ts)),
    decreases ts.len(),
{
    if ts.len() > 0 {
        let acc2 = push_new(acc, ts[0]);
        assert(no_dup(acc2)) by {
            if !acc.contains(ts[0]) {
                assert forall|i: int, j: int| 0 <= i < j < acc2.len() implies acc2[i] != acc2[j] by {
                    if j == acc.len() {
                        assert(acc2[j] == ts[0]);
                        assert(acc.contains(ts[0]) || acc2[i] != acc2[j]);
                    }
                }
            }
        }
        lemma_add_all_no_dup(acc2, ts.subrange(1, ts.len() as int));
    }
}

/// Accumulation adds exactly the contributed tags: the result holds a text
/// precisely when it was already held or is among the contributions.
pub proof fn lemma_add_all_membership(acc: Seq<Seq<char>>, ts: Seq<Seq<char>>, x: Seq<char>)
    ensures
        add_all(acc, ts).contains(x) <==> acc.contains(x) || ts.contains(x),
    decreases ts.len(),
{
    if ts.len() > 0 {
        let acc2 = push_new(acc, ts[0]);
        let rest = ts.subrange(1, ts.len() as int);
        lemma_add_all_membership(acc2, rest, x);
        assert(acc2.contains(x) <==> acc.contains(x) || ts[0] == x) by {
            if !acc.contains(ts[0]) {
                if x == ts[0] {
                    assert(acc2[acc.len() as int] == x);
                }
                if acc.contains(x) {
                    let i = choose|i: int| 0 <= i < acc.len() && acc[i] == x;
                    assert(acc2[i] == x);
                }
                if acc2.contains(x) {
                    let i = choose|i: int| 0 <= i < acc2.len() && acc2[i] == x;
                    if i < acc.len() {
                        assert(acc[i] == x);
                    }
                }
            }
        }
        assert(ts.contains(x) <==> ts[0] == x || rest.contains(x)) by {
            if rest.contains(x) {
                let i = choose|i: int| 0 <= i < rest.len() && rest[i] == x;
                assert(ts[i + 1] == x);
            }
            if ts.contains(x) {
                let i = choose|i: int| 0 <= i < ts.len() && ts[i] == x;
                if i > 0 {
                    assert(rest[i - 1] == x);
                }
            }
        }
    }
}

/// Splits a stored select value on the literal delimiter `", "`.
pub fn split_value(s: &str) -> (r: Vec<String>)
    ensures
        r.deep_view() == split_multi(s@),
{
    let cs = str_to_chars(s);
    let n = cs.len();
    let mut pieces: Vec<String> = Vec::new();
    let mut cur: Vec<char> = Vec::new();
    let mut i: usize = 0;
    proof {
        assert(s@.subrange(0, n as int) =~= s@);
        let x = split_multi(s@);
        lemma_split_multi_nonempty(s@);
        assert(prepend_first(Seq::<char>::empty(), x) =~= x) by {
            assert(Seq::<char>::empty() + x[0] =~= x[0]);
            assert(seq![x[0]] + x.subrange(1, x.len() as int) =~= x);
        }
        assert(pieces.deep_view() =~= Seq::<Seq<char>>::empty());
        assert(Seq::<Seq<char>>::empty() + x =~= x);
    }
    while i < n
        invariant
            cs@ == s@,
            n == cs@.len(),
            i <= n,
            split_multi(s@) == pieces.deep_view() + prepend_first(
                cur@,
                split_multi(s@.subrange(i as int, n as int)),
            ),
        decreases n - i,
    {
        let ghost t = s@.subrange(i as int, n as int);
        if cs[i] == ',' && i + 1 < n && cs[i + 1] == ' ' {
            proof {
                assert(t.len() >= 2 && t[0] == ',' && t[1] == ' ');
                let x = split_multi(s@.subrange(i + 2, n as int));
                assert(t.subrange(2, t.len() as int) =~= s@.subrange(i + 2, n as int));
                assert(split_multi(t) == seq![Seq::<char>::empty()] + x);
                assert(x.len() >= 1);
                assert(prepend_first(cur@, seq![Seq::<char>::empty()] + x) =~= seq![cur@] + x) by {
                    assert((seq![Seq::<char>::empty()] + x)[0] =~= Seq::<char>::empty());
                    assert(cur@ + Seq::<char>::empty() =~= cur@);
                    assert((seq![Seq::<char>::empty()] + x).subrange(
                        1,
                        (seq![Seq::<char>::empty()] + x).len() as int,
                    ) =~= x);
                }
                assert(prepend_first(Seq::<char>::empty(), x) =~= x) by {
                    assert(Seq::<char>::empty() + x[0] =~= x[0]);
                    assert(x.subrange(1, x.len() as int) =~= x.drop_first());
                    assert(seq![x[0]] + x.drop_first() =~= x);
                }
            }
            let ghost pieces_dv = pieces.deep_view();
            let piece = chars_to_string(&cur);
            pieces.push(piece);
            proof {
                assert(pieces.deep_view() =~= pieces_dv.push(cur@));
                assert(pieces_dv.push(cur@) =~= pieces_dv + seq![cur@]);
            }
            cur = Vec::new();
            i = i + 2;
        } else {
            proof {
                assert(t.len() >= 1 && t[0] == s@[i as int]);
                assert(!(t.len() >= 2 && t[0] == ',' && t[1] == ' ')) by {
                    if t.len() >= 2 {
                        assert(t[1] == s@[i + 1]);
                    }
                }
                let r1 = split_multi(s@.subrange(i + 1, n as int));
                assert(t.subrange(1, t.len() as int) =~= s@.subrange(i + 1, n as int));
                assert(split_multi(t) == seq![seq![t[0]] + r1[0]] + r1.subrange(1, r1.len() as int));
                assert(r1.len() >= 1);
                assert(prepend_first(cur@, split_multi(t)) =~= prepend_first(cur@.push(s@[i as int]), r1))
                    by {
                    assert((seq![seq![t[0]] + r1[0]] + r1.subrange(1, r1.len() as int))[0] == seq![t[0]]
                        + r1[0]);
                    assert(cur@ + (seq![t[0]] + r1[0]) =~= (cur@.push(s@[i as int])) + r1[0]);
                    assert((seq![seq![t[0]] + r1[0]] + r1.subrange(1, r1.len() as int)).subrange(
                        1,
                        (seq![seq![t[0]] + r1[0]] + r1.subrange(1, r1.len() as int)).len() as int,
                    ) =~= r1.subrange(1, r1.len() as int));
                }
            }
            cur.push(cs[i]);
            i = i + 1;
        }
    }
    proof {
        let t = s@.subrange(i as int, n as int);
        assert(t.len() == 0);
        assert(split_multi(t) == seq![Seq::<char>::empty()]);
        assert(prepend_first(cur@, seq![Seq::<char>::empty()]) =~= seq![cur@]) by {
            assert(cur@ + Seq::<char>::empty() =~= cur@);
        }
    }
    let ghost pieces_dv = pieces.deep_view();
    let last = chars_to_string(&cur);
    pieces.push(last);
    proof {
        assert(pieces.deep_view() =~= pieces_dv.push(cur@));
        assert(pieces_dv.push(cur@) =~= pieces_dv + seq![cur@]);
        assert(pieces.deep_view() =~= split_multi(s@));
    }
    pieces
}

/// Splitting yields at least one piece.
pub proof fn lemma_split_multi_nonempty(s: Seq<char>)
    ensures
        split_multi(s).len() >= 1,
{
}

/// Appending one tag to the contributions folds as one more `push_new`.
pub proof fn lemma_add_all_snoc(acc: Seq<Seq<char>>, ts: Seq<Seq<char>>, t: Seq<char>)
    ensures
        add_all(acc, ts.push(t)) == push_new(add_all(acc, ts), t),
    decreases ts.len(),
{
    let one = ts.push(t);
    if ts.len() == 0 {
        assert(one[0] == t);
        assert(one.subrange(1, one.len() as int) =~= Seq::<Seq<char>>::empty());
        assert(add_all(acc, one) == add_all(push_new(acc, t), one.subrange(1, one.len() as int)));
        assert(add_all(push_new(acc, t), Seq::<Seq<char>>::empty()) == push_new(acc, t));
    } else {
        let rest = ts.subrange(1, ts.len() as int);
        assert(one[0] == ts[0]);
        assert(one.subrange(1, one.len() as int) =~= rest.push(t));
        lemma_add_all_snoc(push_new(acc, ts[0]), rest, t);
        assert(add_all(acc, one) == add_all(push_new(acc, ts[0]), one.subrange(1, one.len() as int)));
        assert(add_all(acc, ts) == add_all(push_new(acc, ts[0]), rest));
    }
}

/// Accumulating a concatenation accumulates its parts in order.
pub proof fn lemma_add_all_concat(acc: Seq<Seq<char>>, x: Seq<Seq<char>>, y: Seq<Seq<char>>)
    ensures
        add_all(acc, x + y) == add_all(add_all(acc, x), y),
    decreases x.len(),
{
    if x.len() == 0 {
        assert(x + y =~= y);
    } else {
        assert((x + y)[0] == x[0]);
        assert((x + y).subrange(1, (x + y).len() as int) =~= x.subrange(1, x.len() as int) + y);
        lemma_add_all_concat(push_new(acc, x[0]), x.subrange(1, x.len() as int), y);
    }
}

/// One more selected text contributes its row's tags at the end.
pub proof fn lemma_selected_tags_snoc(
    table: Seq<(Seq<char>, Seq<Seq<char>>)>,
    ps: Seq<Seq<char>>,
    p: Seq<char>,
)
    ensures
        selected_tags(table, ps.push(p)) == selected_tags(table, ps) + table_lookup(table, p),
    decreases ps.len(),
{
    if ps.len() == 0 {
        assert(ps.push(p)[0] == p);
        assert(ps.push(p).subrange(1, 1) =~= Seq::<Seq<char>>::empty());
        assert(selected_tags(table, Seq::<Seq<char>>::empty()) == Seq::<Seq<char>>::empty());
        assert(table_lookup(table, p) + Seq::<Seq<char>>::empty() =~= table_lookup(table, p));
        assert(Seq::<Seq<char>>::empty() + table_lookup(table, p) =~= table_lookup(table, p));
    } else {
        assert(ps.push(p)[0] == ps[0]);
        assert(ps.push(p).subrange(1, ps.len() as int + 1) =~= ps.subrange(1, ps.len() as int).push(p));
        lemma_selected_tags_snoc(table, ps.subrange(1, ps.len() as int), p);
        assert(table_lookup(table, ps[0]) + (selected_tags(table, ps.subrange(1, ps.len() as int))
            + table_lookup(table, p)) =~= (table_lookup(table, ps[0]) + selected_tags(
            table,
            ps.subrange(1, ps.len() as int),
        )) + table_lookup(table, p));
    }
}

/// Decides whether the accumulator already holds the tag text `t`.
fn contains_text(acc: &Vec<String>, t: &str) -> (r: bool)
    ensures
        r == acc.deep_view().contains(t@),
{
    let n = acc.len();
    let mut i: usize = 0;
    while i < n
        invariant
            n == acc@.len(),
            i <= n,
            forall|j: int| 0 <= j < i ==> acc.deep_view()[j] != t@,
        decreases n - i,
    {
        if str_eq(acc[i].as_str(), t) {
            proof {
                assert(acc.deep_view()[i as int] == t@);
            }
            return true;
        }
        i += 1;
    }
    false
}

/// Records one tag, skipping it when it is already recorded.
fn push_new_tag(acc: &mut Vec<String>, t: &String)
    ensures
        final(acc).deep_view() == push_new(old(acc).deep_view(), t@),
{
    let ghost dv = acc.deep_view();
    if !contains_text(acc, t.as_str()) {
        let copy = t.clone();
        acc.push(copy);
        proof {
            assert(acc.deep_view() =~= dv.push(t@));
        }
    }
}

/// Records every tag of `ts` in order, each only when not yet recorded.
pub(crate) fn add_tag_list(acc: &mut Vec<String>, ts: &Vec<String>)
    ensures
        final(acc).deep_view() == add_all(old(acc).deep_view(), ts.deep_view()),
{
    let ghost dv = acc.deep_view();
    let n = ts.len();
    let mut i: usize = 0;
    proof {
        assert(ts.deep_view().subrange(0, 0) =~= Seq::<Seq<char>>::empty());
    }
    while i < n
        invariant
            n == ts@.len(),
            i <= n,
            acc.deep_view() == add_all(dv, ts.deep_view().subrange(0, i as int)),
        decreases n - i,
    {
        push_new_tag(acc, &ts[i]);
        proof {
            let pre = ts.deep_view().subrange(0, i as int);
            assert(ts.deep_view().subrange(0, i + 1) =~= pre.push(ts.deep_view()[i as int]));
            lemma_add_all_snoc(dv, pre, ts.deep_view()[i as int]);
        }
        i += 1;
    }
    proof {
        assert(ts.deep_view().subrange(0, n as int) =~= ts.deep_view());
    }
}

/// Records the tags of the option whose display text is `text`, if any.
fn add_option_tags(acc: &mut Vec<String>, options: &Vec<SelectOption>, text: &str)
    ensures
        final(acc).deep_view() == add_all(
            old(acc).deep_view(),
            table_lookup(options_table(options@), text@),
        ),
{
    let ghost table = options_table(options@);
    let n = options.len();
    let mut i: usize = 0;
    while i < n
        invariant
            n == options@.len(),
            i <= n,
            acc == old(acc),
            table == options_table(options@),
            table_lookup(table, text@) == table_lookup_from(table, text@, i as int),
        decreases n - i,
    {
        proof {
            assert(table[i as int] == (opt_text(options@[i as int]), option_tag_views(
                options@[i as int],
            )));
        }
        match &options[i] {
            SelectOption::Simple(t) => {
                if str_eq(t.as_str(), text) {
                    proof {
                        assert(table_lookup(table, text@) =~= Seq::<Seq<char>>::empty());
                    }
                    return ;
                }
            },
            SelectOption::WithTags { text: t, tags } => {
                if str_eq(t.as_str(), text) {
                    add_tag_list(acc, tags);
                    return ;
                }
            },
        }
        i += 1;
    }
    proof {
        assert(table_lookup(table, text@) =~= Seq::<Seq<char>>::empty());
    }
}

/// Records the tags an input with stored value `value` contributes, with set
/// semantics against what is already recorded.
pub fn accumulate_input_tags(acc: &mut Vec<String>, inp: &Input, value: &str)
    ensures
        final(acc).deep_view() == add_all(
            old(acc).deep_view(),
            value_tags(input_image(*inp), value@),
        ),
{
    let ghost dv = acc.deep_view();
    match inp {
        Input::Select { options, .. } => {
            let ghost table = options_table(options@);
            let pieces = split_value(value);
            let ghost pdv = pieces.deep_view();
            let m = pieces.len();
            let mut j: usize = 0;
            proof {
                assert(pdv.subrange(0, 0) =~= Seq::<Seq<char>>::empty());
            }
            while j < m
                invariant
                    m == pieces@.len(),
                    j <= m,
                    pdv == pieces.deep_view(),
                    table == options_table(options@),
                    acc.deep_view() == add_all(dv, selected_tags(table, pdv.subrange(0, j as int))),
                decreases m - j,
            {
                add_option_tags(acc, options, pieces[j].as_str());
                proof {
                    let pre = pdv.subrange(0, j as int);
                    assert(pdv.subrange(0, j + 1) =~= pre.push(pdv[j as int]));
                    lemma_selected_tags_snoc(table, pre, pdv[j as int]);
                    lemma_add_all_concat(dv, selected_tags(table, pre), table_lookup(table, pdv[j as int]));
                    assert(pdv[j as int] == pieces@[j as int]@);
                }
                j += 1;
            }
            proof {
                assert(pdv.subrange(0, m as int) =~= pdv);
            }
        },
        Input::Text { input_type: InputType::Boolean { tags: Some(ts) } } => {
            if str_eq(value, "true") {
                add_tag_list(acc, ts);
            }
        },
        _ => {},
    }
}

} // verus!

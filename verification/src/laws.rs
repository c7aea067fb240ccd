//! Laws of the scanner and the resolver, stated and proved over the
//! specification functions.

use vstd::prelude::*;

use crate::scanner::block_output;
use crate::scanner::find_from;
use crate::scanner::lemma_find_from_bounds;
use crate::scanner::lemma_find_from_found;
use crate::scanner::scan_from;
use crate::scanner::scan_spec;
use crate::styles::codes_from;
use crate::styles::escape_intro;
use crate::styles::intros_from;
use crate::styles::reset_seq;
use crate::styles::resolve_spec;
use crate::styles::token_code;
use crate::styles::tokens_of;

verus! {

proof fn lemma_scan_from_literal(s: Seq<char>, i: int)
    requires
        0 <= i <= s.len(),
        forall|k: int| i <= k < s.len() ==> s[k] != '{',
    ensures
        scan_from(s, i) == s.subrange(i, s.len() as int),
    decreases s.len() - i,
{
    if i == s.len() {
        assert(s.subrange(i, s.len() as int) =~= Seq::<char>::empty());
    } else {
        lemma_scan_from_literal(s, i + 1);
        assert(seq![s[i]] + s.subrange(i + 1, s.len() as int) =~= s.subrange(i, s.len() as int));
    }
}

/// Text without an opening brace scans to itself.
pub proof fn lemma_no_markup_identity(s: Seq<char>)
    requires
        forall|k: int| 0 <= k < s.len() ==> s[k] != '{',
    ensures
        scan_spec(s) == s,
{
    lemma_scan_from_literal(s, 0);
    assert(s.subrange(0, s.len() as int) =~= s);
}

proof fn lemma_codes_from_all_unknown(toks: Seq<Seq<char>>, i: int)
    requires
        forall|k: int| i <= k < toks.len() ==> token_code(#[trigger] toks[k]) is None,
    ensures
        codes_from(toks, i) == Seq::<Seq<char>>::empty(),
    decreases toks.len() - i,
{
    if 0 <= i < toks.len() {
        lemma_codes_from_all_unknown(toks, i + 1);
    }
}

/// A style list whose tokens are all unknown leaves the body unchanged,
/// whatever the tokens are and in whatever order they stand.
pub proof fn lemma_unknown_tokens_no_op(style_list: Seq<char>, body: Seq<char>)
    requires
        forall|k: int|
            0 <= k < tokens_of(style_list).len() ==> token_code(
                #[trigger] tokens_of(style_list)[k],
            ) is None,
    ensures
        resolve_spec(style_list, body) == body,
{
    lemma_codes_from_all_unknown(tokens_of(style_list), 0);
}

/// A style list of exactly two recognized tokens emits the first token's
/// introducer, then the second token's introducer, then the body, then
/// exactly one reset: the introducers keep the token order.
pub proof fn lemma_two_token_order(style_list: Seq<char>, body: Seq<char>, c1: Seq<char>, c2: Seq<char>)
    requires
        tokens_of(style_list).len() == 2,
        token_code(tokens_of(style_list)[0]) == Some(c1),
        token_code(tokens_of(style_list)[1]) == Some(c2),
    ensures
        resolve_spec(style_list, body) == escape_intro(c1) + escape_intro(c2) + body + reset_seq(),
{
    let toks = tokens_of(style_list);
    assert(codes_from(toks, 2) =~= Seq::<Seq<char>>::empty());
    assert(codes_from(toks, 1) =~= seq![c2]);
    assert(codes_from(toks, 0) =~= seq![c1, c2]);
    let codes = codes_from(toks, 0);
    assert(intros_from(codes, 2) =~= Seq::<char>::empty());
    assert(escape_intro(c2) + Seq::<char>::empty() =~= escape_intro(c2));
    assert(intros_from(codes, 1) =~= escape_intro(c2));
    assert(intros_from(codes, 0) =~= escape_intro(c1) + escape_intro(c2));
    assert((escape_intro(c1) + escape_intro(c2)) + body + reset_seq() =~= escape_intro(c1)
        + escape_intro(c2) + body + reset_seq());
}

/// A style list of exactly one recognized token wraps the body in that
/// token's introducer and one reset.
pub proof fn lemma_one_token_wrap(style_list: Seq<char>, body: Seq<char>, c: Seq<char>)
    requires
        tokens_of(style_list).len() == 1,
        token_code(tokens_of(style_list)[0]) == Some(c),
    ensures
        resolve_spec(style_list, body) == escape_intro(c) + body + reset_seq(),
{
    let toks = tokens_of(style_list);
    assert(codes_from(toks, 1) =~= Seq::<Seq<char>>::empty());
    assert(codes_from(toks, 0) =~= seq![c]);
    let codes = codes_from(toks, 0);
    assert(intros_from(codes, 1) =~= Seq::<char>::empty());
    assert(intros_from(codes, 0) =~= escape_intro(c));
}

/// An input that opens a block and never closes it is preserved verbatim.
pub proof fn lemma_unclosed_preserved(s: Seq<char>)
    requires
        s.len() > 0,
        s[0] == '{',
        forall|k: int| 1 <= k < s.len() ==> s[k] != '}',
    ensures
        scan_spec(s) == s,
{
    lemma_find_from_found(s, 1, s.len() as int, '}');
    assert(s.subrange(0, s.len() as int) =~= s);
}

/// A closed block whose payload has no colon is no markup: it comes out as
/// the literal `{payload}`, braces restored.
pub proof fn lemma_no_colon_block_literal(payload: Seq<char>)
    requires
        forall|k: int| 0 <= k < payload.len() ==> payload[k] != ':',
    ensures
        block_output(payload) == seq!['{'] + payload + seq!['}'],
{
    lemma_find_from_found(payload, 0, payload.len() as int, ':');
}

proof fn lemma_find_shift(p: Seq<char>, s: Seq<char>, k: int, target: char)
    requires
        0 <= k,
    ensures
        find_from(p + s, p.len() + k, target) == p.len() + find_from(s, k, target),
    decreases s.len() - k,
{
    let t = p + s;
    if k >= s.len() {
        assert(find_from(t, p.len() + k, target) == t.len());
    } else {
        assert(t[p.len() + k] == s[k]);
        if s[k] != target {
            lemma_find_shift(p, s, k + 1, target);
        }
    }
}

/// Scanning a concatenation behaves like scanning the suffix once the
/// prefix is consumed: position `p.len() + i` in `p + s` scans as position
/// `i` in `s`.
proof fn lemma_scan_shift(p: Seq<char>, s: Seq<char>, i: int)
    requires
        0 <= i,
    ensures
        scan_from(p + s, p.len() + i) == scan_from(s, i),
    decreases s.len() - i,
{
    let t = p + s;
    if i >= s.len() {
        assert(scan_from(t, p.len() + i) == Seq::<char>::empty());
    } else {
        assert(t[p.len() + i] == s[i]);
        if s[i] != '{' {
            lemma_scan_shift(p, s, i + 1);
        } else {
            let js = find_from(s, i + 1, '}');
            lemma_find_shift(p, s, i + 1, '}');
            lemma_find_from_bounds(s, i + 1, '}');
            if js == s.len() {
                assert(t.subrange(p.len() + i, t.len() as int) =~= s.subrange(i, s.len() as int));
            } else {
                assert(t.subrange(p.len() + i + 1, p.len() + js) =~= s.subrange(i + 1, js));
                lemma_scan_shift(p, s, js + 1);
            }
        }
    }
}

/// A prefix without markup passes through and does not disturb the
/// scanning of what follows it.
pub proof fn lemma_literal_prefix_scan(p: Seq<char>, s: Seq<char>)
    requires
        forall|k: int| 0 <= k < p.len() ==> p[k] != '{',
    ensures
        scan_spec(p + s) == p + scan_spec(s),
{
    lemma_literal_prefix_scan_from(p, s, 0);
    lemma_scan_shift(p, s, 0);
    assert(p.subrange(0, p.len() as int) =~= p);
}

proof fn lemma_literal_prefix_scan_from(p: Seq<char>, s: Seq<char>, i: int)
    requires
        0 <= i <= p.len(),
        forall|k: int| 0 <= k < p.len() ==> p[k] != '{',
    ensures
        scan_from(p + s, i) == p.subrange(i, p.len() as int) + scan_from(p + s, p.len() as int),
    decreases p.len() - i,
{
    let t = p + s;
    if i == p.len() {
        assert(p.subrange(i, p.len() as int) =~= Seq::<char>::empty());
        assert(Seq::<char>::empty() + scan_from(t, p.len() as int) =~= scan_from(
            t,
            p.len() as int,
        ));
    } else {
        assert(t[i] == p[i]);
        lemma_literal_prefix_scan_from(p, s, i + 1);
        assert(seq![p[i]] + p.subrange(i + 1, p.len() as int) =~= p.subrange(i, p.len() as int));
        assert((seq![p[i]] + p.subrange(i + 1, p.len() as int)) + scan_from(t, p.len() as int)
            =~= seq![p[i]] + (p.subrange(i + 1, p.len() as int) + scan_from(t, p.len() as int)));
    }
}

/// Blocks are independent: a closed block at the front of the input
/// formats on its own, and the rest of the input scans as if it stood
/// alone.  The block's payload is everything up to the first `}`, so a
/// later `{` inside the payload stays inert.
pub proof fn lemma_block_prefix_scan(payload: Seq<char>, s: Seq<char>)
    requires
        forall|k: int| 0 <= k < payload.len() ==> payload[k] != '}',
    ensures
        scan_spec(seq!['{'] + payload + seq!['}'] + s) == block_output(payload) + scan_spec(s),
{
    let p = seq!['{'] + payload + seq!['}'];
    let t = seq!['{'] + payload + seq!['}'] + s;
    assert(t =~= p + s);
    assert(t[0] == '{');
    assert(forall|k: int| 1 <= k < payload.len() + 1 ==> t[k] == payload[k - 1]);
    assert(t[payload.len() as int + 1] == '}');
    lemma_find_from_found(t, 1, payload.len() as int + 1, '}');
    let j = find_from(t, 1, '}');
    assert(j == payload.len() + 1);
    assert(t.subrange(1, j) =~= payload);
    lemma_scan_shift(p, s, 0);
    assert(scan_from(t, j + 1) == scan_from(s, 0));
}

} // verus!

//! The spec resolver: tokenizing a style list, mapping each keyword to its
//! terminal attribute code, and wrapping a body text in escape sequences.

use vstd::prelude::*;

use crate::text::eq_ci;
use crate::text::eq_ci_x;
use crate::text::is_space;
use crate::text::is_space_x;

verus! {

/// The attribute code of one style token, or `None` for an unknown token.
/// Keywords are matched up to ASCII case.
pub open spec fn token_code(tok: Seq<char>) -> Option<Seq<char>> {
    if eq_ci(tok, "red"@) {
        Some("31"@)
    } else if eq_ci(tok, "green"@) {
        Some("32"@)
    } else if eq_ci(tok, "yellow"@) {
        Some("33"@)
    } else if eq_ci(tok, "blue"@) {
        Some("34"@)
    } else if eq_ci(tok, "magenta"@) {
        Some("35"@)
    } else if eq_ci(tok, "cyan"@) {
        Some("36"@)
    } else if eq_ci(tok, "white"@) {
        Some("37"@)
    } else if eq_ci(tok, "black"@) {
        Some("30"@)
    } else if eq_ci(tok, "bold"@) {
        Some("1"@)
    } else if eq_ci(tok, "dim"@) {
        Some("2"@)
    } else if eq_ci(tok, "italic"@) {
        Some("3"@)
    } else if eq_ci(tok, "underline"@) {
        Some("4"@)
    } else if eq_ci(tok, "blink"@) {
        Some("5"@)
    } else if eq_ci(tok, "reverse"@) {
        Some("7"@)
    } else if eq_ci(tok, "strikethrough"@) {
        Some("9"@)
    } else {
        None
    }
}

/// The tokens of `s` from position `i` on, splitting on runs of whitespace,
/// with `cur` the partial token read so far.
pub open spec fn tokens_acc(s: Seq<char>, i: int, cur: Seq<char>) -> Seq<Seq<char>>
    decreases s.len() - i,
{
    if i < 0 || i > s.len() {
        Seq::empty()
    } else if i == s.len() {
        if cur.len() == 0 {
            Seq::empty()
        } else {
            seq![cur]
        }
    } else if is_space(s[i]) {
        if cur.len() == 0 {
            tokens_acc(s, i + 1, Seq::empty())
        } else {
            seq![cur] + tokens_acc(s, i + 1, Seq::empty())
        }
    } else {
        tokens_acc(s, i + 1, cur.push(s[i]))
    }
}

/// The whitespace-separated tokens of `s`, in order.
pub open spec fn tokens_of(s: Seq<char>) -> Seq<Seq<char>> {
    tokens_acc(s, 0, Seq::empty())
}

/// The attribute codes of the recognized tokens among `toks[i..]`, in token
/// order; unknown tokens contribute nothing.
pub open spec fn codes_from(toks: Seq<Seq<char>>, i: int) -> Seq<Seq<char>>
    decreases toks.len() - i,
{
    if i < 0 || i >= toks.len() {
        Seq::empty()
    } else {
        match token_code(toks[i]) {
            Some(c) => seq![c] + codes_from(toks, i + 1),
            None => codes_from(toks, i + 1),
        }
    }
}

/// All attribute codes resolved from a style list.
pub open spec fn codes_of(style_list: Seq<char>) -> Seq<Seq<char>> {
    codes_from(tokens_of(style_list), 0)
}

/// The escape introducer carrying one attribute code.
pub open spec fn escape_intro(code: Seq<char>) -> Seq<char> {
    seq!['\u{1b}', '['] + code + seq!['m']
}

/// The reset sequence that closes every formatted block.
pub open spec fn reset_seq() -> Seq<char> {
    seq!['\u{1b}', '[', '0', 'm']
}

/// The concatenated escape introducers of `codes[i..]`, in order.
pub open spec fn intros_from(codes: Seq<Seq<char>>, i: int) -> Seq<char>
    decreases codes.len() - i,
{
    if i < 0 || i >= codes.len() {
        Seq::empty()
    } else {
        escape_intro(codes[i]) + intros_from(codes, i + 1)
    }
}

/// The formatted output of one block: the body wrapped in one introducer per
/// resolved code and exactly one reset, or the body unchanged when no token
/// resolves.
pub open spec fn resolve_spec(style_list: Seq<char>, body: Seq<char>) -> Seq<char> {
    let codes = codes_of(style_list);
    if codes.len() == 0 {
        body
    } else {
        intros_from(codes, 0) + body + reset_seq()
    }
}

/// Splits `s` into its whitespace-separated tokens.
pub fn tokenize(s: &str) -> (toks: Vec<&str>)
    ensures
        toks.deep_view() == tokens_of(s@),
{
    let n = s.unicode_len();
    let mut toks: Vec<&str> = Vec::new();
    proof {
        assert(toks.deep_view() =~= Seq::<Seq<char>>::empty());
        assert(s@.subrange(0, 0) =~= Seq::<char>::empty());
        assert(Seq::<Seq<char>>::empty() + tokens_of(s@) =~= tokens_of(s@));
    }
    let mut ws: usize = 0;
    let mut i: usize = 0;
    while i < n
        invariant
            ws <= i <= n,
            n == s@.len(),
            tokens_of(s@) == toks.deep_view() + tokens_acc(
                s@,
                i as int,
                s@.subrange(ws as int, i as int),
            ),
        decreases n - i,
    {
        let ghost cur = s@.subrange(ws as int, i as int);
        let c = s.get_char(i);
        if is_space_x(c) {
            if ws < i {
                let ghost pre = toks.deep_view();
                let tok = s.substring_char(ws, i);
                toks.push(tok);
                proof {
                    assert(toks.deep_view() =~= pre.push(cur));
                    assert(pre.push(cur) =~= pre + seq![cur]);
                    assert((pre + seq![cur]) + tokens_acc(s@, i as int + 1, Seq::empty()) =~= pre
                        + (seq![cur] + tokens_acc(s@, i as int + 1, Seq::empty())));
                }
            }
            ws = i + 1;
            proof {
                assert(s@.subrange(ws as int, i as int + 1) =~= Seq::<char>::empty());
            }
        } else {
            proof {
                assert(s@.subrange(ws as int, i as int + 1) =~= cur.push(s@[i as int]));
            }
        }
        i += 1;
    }
    let ghost cur = s@.subrange(ws as int, n as int);
    if ws < n {
        let ghost pre = toks.deep_view();
        let tok = s.substring_char(ws, n);
        toks.push(tok);
        proof {
            assert(toks.deep_view() =~= pre.push(cur));
            assert(pre.push(cur) =~= pre + seq![cur]);
        }
    } else {
        proof {
            assert(toks.deep_view() + Seq::<Seq<char>>::empty() =~= toks.deep_view());
        }
    }
    toks
}

/// Maps one style token to its attribute code, or `None` when unknown.
pub fn token_code_x(tok: &str) -> (r: Option<&'static str>)
    ensures
        match r {
            Some(c) => token_code(tok@) == Some(c@),
            None => token_code(tok@) is None,
        },
{
    if eq_ci_x(tok, "red") {
        Some("31")
    } else if eq_ci_x(tok, "green") {
        Some("32")
    } else if eq_ci_x(tok, "yellow") {
        Some("33")
    } else if eq_ci_x(tok, "blue") {
        Some("34")
    } else if eq_ci_x(tok, "magenta") {
        Some("35")
    } else if eq_ci_x(tok, "cyan") {
        Some("36")
    } else if eq_ci_x(tok, "white") {
        Some("37")
    } else if eq_ci_x(tok, "black") {
        Some("30")
    } else if eq_ci_x(tok, "bold") {
        Some("1")
    } else if eq_ci_x(tok, "dim") {
        Some("2")
    } else if eq_ci_x(tok, "italic") {
        Some("3")
    } else if eq_ci_x(tok, "underline") {
        Some("4")
    } else if eq_ci_x(tok, "blink") {
        Some("5")
    } else if eq_ci_x(tok, "reverse") {
        Some("7")
    } else if eq_ci_x(tok, "strikethrough") {
        Some("9")
    } else {
        None
    }
}

/// Resolves a whitespace-separated style list and wraps `text` accordingly:
/// one escape introducer per recognized keyword, in list order, then the
/// text, then one reset; the text passes through unchanged when no keyword
/// is recognized.
pub fn apply_formatting(format_spec: &str, text: &str) -> (r: String)
    ensures
        r@ == resolve_spec(format_spec@, text@),
{
    let toks = tokenize(format_spec);
    let ghost toks_dv = toks.deep_view();
    let mut codes: Vec<&'static str> = Vec::new();
    proof {
        assert(codes.deep_view() =~= Seq::<Seq<char>>::empty());
        assert(Seq::<Seq<char>>::empty() + codes_of(format_spec@) =~= codes_of(format_spec@));
    }
    let mut t: usize = 0;
    while t < toks.len()
        invariant
            t <= toks.len(),
            toks.deep_view() == toks_dv,
            toks_dv == tokens_of(format_spec@),
            codes_of(format_spec@) == codes.deep_view() + codes_from(toks_dv, t as int),
        decreases toks.len() - t,
    {
        proof {
            assert(toks_dv[t as int] == toks@[t as int]@);
        }
        match token_code_x(toks[t]) {
            Some(c) => {
                let ghost pre = codes.deep_view();
                let ghost rest = codes_from(toks_dv, t as int + 1);
                codes.push(c);
                proof {
                    assert(codes.deep_view() =~= pre.push(c@));
                    assert(pre.push(c@) =~= pre + seq![c@]);
                    assert((pre + seq![c@]) + rest =~= pre + (seq![c@] + rest));
                }
            },
            None => {},
        }
        t += 1;
    }
    let ghost all_codes = codes_of(format_spec@);
    proof {
        assert(codes.deep_view() + Seq::<Seq<char>>::empty() =~= codes.deep_view());
        assert(all_codes == codes.deep_view());
        assert(all_codes.len() == codes@.len());
    }
    if codes.len() == 0 {
        return String::from_str(text);
    }
    let mut out = String::new();
    proof {
        assert(out@ + intros_from(all_codes, 0) =~= intros_from(all_codes, 0));
    }
    let mut k: usize = 0;
    while k < codes.len()
        invariant
            k <= codes.len(),
            codes.deep_view() == all_codes,
            all_codes.len() == codes@.len(),
            all_codes.len() > 0,
            out@ + intros_from(all_codes, k as int) == intros_from(all_codes, 0),
        decreases codes.len() - k,
    {
        let ghost pre = out@;
        proof {
            reveal_strlit("\u{1b}[");
            reveal_strlit("m");
            assert("\u{1b}["@ =~= seq!['\u{1b}', '[']);
            assert("m"@ =~= seq!['m']);
            assert(all_codes[k as int] == codes@[k as int]@);
        }
        out.append("\u{1b}[");
        out.append(codes[k]);
        out.append("m");
        proof {
            let code = all_codes[k as int];
            assert(out@ =~= pre + escape_intro(code));
            assert((pre + escape_intro(code)) + intros_from(all_codes, k as int + 1) =~= pre + (
            escape_intro(code) + intros_from(all_codes, k as int + 1)));
        }
        k += 1;
    }
    proof {
        assert(out@ + Seq::<char>::empty() =~= out@);
        assert(out@ == intros_from(all_codes, 0));
    }
    out.append(text);
    proof {
        reveal_strlit("\u{1b}[0m");
        assert("\u{1b}[0m"@ =~= reset_seq());
    }
    out.append("\u{1b}[0m");
    proof {
        assert(out@ =~= resolve_spec(format_spec@, text@));
    }
    out
}

} // verus!

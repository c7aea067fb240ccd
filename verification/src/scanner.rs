//! The scanner: one left-to-right pass over the input, rewriting each
//! markup block `{spec: text}` into its formatted run and copying all other
//! characters verbatim.

use vstd::prelude::*;

use crate::styles::apply_formatting;
use crate::styles::resolve_spec;
use crate::text::is_space;
use crate::text::is_space_x;

verus! {

/// The first position at or after `i` where `target` occurs in `s`, or
/// `s.len()` when it does not occur.
pub open spec fn find_from(s: Seq<char>, i: int, target: char) -> int
    decreases s.len() - i,
{
    if i < 0 || i >= s.len() {
        s.len() as int
    } else if s[i] == target {
        i
    } else {
        find_from(s, i + 1, target)
    }
}

/// `find_from` never answers before `i` nor past the end of `s`.
pub proof fn lemma_find_from_bounds(s: Seq<char>, i: int, target: char)
    requires
        0 <= i <= s.len(),
    ensures
        i <= find_from(s, i, target) <= s.len(),
    decreases s.len() - i,
{
    if i < s.len() && s[i] != target {
        lemma_find_from_bounds(s, i + 1, target);
    }
}

/// A position `j` such that `target` occurs nowhere in `s[lo..j]`, and
/// either stands on a `target` or at the end of `s`, is what `find_from`
/// returns (clamped to `s.len()`).
pub proof fn lemma_find_from_found(s: Seq<char>, lo: int, j: int, target: char)
    requires
        0 <= lo <= j <= s.len(),
        forall|k: int| lo <= k < j ==> s[k] != target,
        j < s.len() ==> s[j] == target,
    ensures
        find_from(s, lo, target) == if j < s.len() {
            j
        } else {
            s.len() as int
        },
    decreases j - lo,
{
    if lo < j {
        lemma_find_from_found(s, lo + 1, j, target);
    }
}

/// `s` with its leading whitespace removed.
pub open spec fn trim_start(s: Seq<char>) -> Seq<char>
    decreases s.len(),
{
    if s.len() > 0 && is_space(s[0]) {
        trim_start(s.drop_first())
    } else {
        s
    }
}

/// `s` with its trailing whitespace removed.
pub open spec fn trim_end(s: Seq<char>) -> Seq<char>
    decreases s.len(),
{
    if s.len() > 0 && is_space(s[s.len() - 1]) {
        trim_end(s.drop_last())
    } else {
        s
    }
}

/// `s` with leading and trailing whitespace removed.
pub open spec fn trim_spec(s: Seq<char>) -> Seq<char> {
    trim_end(trim_start(s))
}

pub proof fn lemma_trim_start_skip(s: Seq<char>, k: int)
    requires
        0 <= k <= s.len(),
        forall|j: int| 0 <= j < k ==> is_space(s[j]),
        k < s.len() ==> !is_space(s[k]),
    ensures
        trim_start(s) == s.subrange(k, s.len() as int),
    decreases k,
{
    if k == 0 {
        assert(s.subrange(0, s.len() as int) =~= s);
    } else {
        let d = s.drop_first();
        lemma_trim_start_skip(d, k - 1);
        assert(d.subrange(k - 1, d.len() as int) =~= s.subrange(k, s.len() as int));
    }
}

pub proof fn lemma_trim_end_take(s: Seq<char>, k: int)
    requires
        0 <= k <= s.len(),
        forall|j: int| k <= j < s.len() ==> is_space(s[j]),
        k > 0 ==> !is_space(s[k - 1]),
    ensures
        trim_end(s) == s.subrange(0, k),
    decreases s.len() - k,
{
    if k == s.len() {
        assert(s.subrange(0, k) =~= s);
    } else {
        let d = s.drop_last();
        lemma_trim_end_take(d, k);
        assert(d.subrange(0, k) =~= s.subrange(0, k));
    }
}

/// Removes leading and trailing whitespace.
pub fn trim_x(s: &str) -> (r: &str)
    ensures
        r@ == trim_spec(s@),
{
    let n = s.unicode_len();
    let mut a: usize = 0;
    while a < n && is_space_x(s.get_char(a))
        invariant
            a <= n,
            n == s@.len(),
            forall|j: int| 0 <= j < a ==> is_space(s@[j]),
        decreases n - a,
    {
        a += 1;
    }
    let mut b: usize = n;
    while b > a && is_space_x(s.get_char(b - 1))
        invariant
            a <= b <= n,
            n == s@.len(),
            forall|j: int| b <= j < n ==> is_space(s@[j]),
        decreases b,
    {
        b -= 1;
    }
    proof {
        lemma_trim_start_skip(s@, a as int);
        let ts = s@.subrange(a as int, n as int);
        lemma_trim_end_take(ts, b - a);
        assert(ts.subrange(0, b - a) =~= s@.subrange(a as int, b as int));
    }
    s.substring_char(a, b)
}

/// The output of one closed markup block whose raw payload (the text
/// between the braces) is `payload`: either the literal `{payload}` when no
/// colon splits it, or the resolver's output for the trimmed spec and body
/// segments.
pub open spec fn block_output(payload: Seq<char>) -> Seq<char> {
    let k = find_from(payload, 0, ':');
    if k == payload.len() {
        seq!['{'] + payload + seq!['}']
    } else {
        resolve_spec(
            trim_spec(payload.subrange(0, k)),
            trim_spec(payload.subrange(k + 1, payload.len() as int)),
        )
    }
}

/// The scanned output of `s` from position `i` on: characters other than
/// `{` pass through verbatim; a `{` opens a block that the first following
/// `}` closes (no nesting); an unclosed `{` and everything after it pass
/// through verbatim.
pub open spec fn scan_from(s: Seq<char>, i: int) -> Seq<char>
    decreases s.len() - i,
        via scan_from_decreases
{
    if i < 0 || i >= s.len() {
        Seq::empty()
    } else if s[i] != '{' {
        seq![s[i]] + scan_from(s, i + 1)
    } else {
        let j = find_from(s, i + 1, '}');
        if j == s.len() {
            s.subrange(i, s.len() as int)
        } else {
            block_output(s.subrange(i + 1, j)) + scan_from(s, j + 1)
        }
    }
}

#[via_fn]
proof fn scan_from_decreases(s: Seq<char>, i: int) {
    if 0 <= i < s.len() && s[i] == '{' {
        lemma_find_from_bounds(s, i + 1, '}');
    }
}

/// The scanned output of the whole input.
pub open spec fn scan_spec(s: Seq<char>) -> Seq<char> {
    scan_from(s, 0)
}

/// The output of one closed block, from its raw payload string.
fn render_block(payload: &str) -> (r: String)
    ensures
        r@ == block_output(payload@),
{
    let m = payload.unicode_len();
    let mut k: usize = 0;
    while k < m && payload.get_char(k) != ':'
        invariant
            k <= m,
            m == payload@.len(),
            forall|j: int| 0 <= j < k ==> payload@[j] != ':',
        decreases m - k,
    {
        k += 1;
    }
    proof {
        lemma_find_from_found(payload@, 0, k as int, ':');
    }
    if k == m {
        let mut out = String::new();
        proof {
            reveal_strlit("{");
            reveal_strlit("}");
        }
        out.append("{");
        out.append(payload);
        out.append("}");
        proof {
            assert(out@ =~= block_output(payload@));
        }
        out
    } else {
        let head = payload.substring_char(0, k);
        let tail = payload.substring_char(k + 1, m);
        let fmt = trim_x(head);
        let body = trim_x(tail);
        apply_formatting(fmt, body)
    }
}

/// Scans `input` once, left to right, replacing each well-formed markup
/// block `{spec: text}` by its formatted run and preserving every other
/// character, including malformed markup, verbatim.
pub fn format_text(input: &str) -> (r: String)
    ensures
        r@ == scan_spec(input@),
{
    let n = input.unicode_len();
    let mut out = String::new();
    proof {
        assert(out@ + scan_from(input@, 0) =~= scan_from(input@, 0));
    }
    let mut i: usize = 0;
    while i < n
        invariant
            i <= n,
            n == input@.len(),
            out@ + scan_from(input@, i as int) == scan_spec(input@),
        decreases n - i,
    {
        let ghost pre = out@;
        let c = input.get_char(i);
        if c != '{' {
            out.append(input.substring_char(i, i + 1));
            proof {
                let rest = scan_from(input@, i as int + 1);
                assert(input@.subrange(i as int, i as int + 1) =~= seq![input@[i as int]]);
                assert((pre + seq![input@[i as int]]) + rest =~= pre + (seq![
                    input@[i as int],
                ] + rest));
            }
            i += 1;
        } else {
            let mut j = i + 1;
            while j < n && input.get_char(j) != '}'
                invariant
                    i + 1 <= j <= n,
                    n == input@.len(),
                    forall|k: int| i + 1 <= k < j ==> input@[k] != '}',
                decreases n - j,
            {
                j += 1;
            }
            proof {
                lemma_find_from_found(input@, i as int + 1, j as int, '}');
            }
            if j == n {
                out.append(input.substring_char(i, n));
                i = n;
            } else {
                let payload = input.substring_char(i + 1, j);
                let piece = render_block(payload);
                out.append(piece.as_str());
                proof {
                    let rest = scan_from(input@, j as int + 1);
                    assert((pre + piece@) + rest =~= pre + (piece@ + rest));
                }
                i = j + 1;
            }
        }
    }
    proof {
        assert(out@ + Seq::<char>::empty() =~= out@);
    }
    out
}

} // verus!

//! Rewriting of a version literal embedded in a workflow file.
//!
//! Workflow files carry text-substitution rules whose right-hand side embeds
//! a package version between pipe delimiters, in the shape
//! `|name = "VERSION"|` with the version beginning with a digit. The
//! rewriter replaces the version in every occurrence of that shape for the
//! given package and leaves every other character of the file untouched; a
//! file with no occurrence passes through unchanged.

use vstd::prelude::*;

use crate::text::{chars_to_string, str_to_chars};
use crate::versions::is_digit_char;

verus! {

/// The opening part of the pattern: a pipe, the package name, ` = ` and the
/// opening double quote.
pub open spec fn pat_prefix(name: Seq<char>) -> Seq<char> {
    seq!['|'] + name + seq![' ', '=', ' ', '"']
}

/// What one matched occurrence is replaced with: the same opening part, the
/// new version, and the closing double quote.
pub open spec fn rep_chunk(name: Seq<char>, v: Seq<char>) -> Seq<char> {
    pat_prefix(name) + v + seq!['"']
}

/// Index of the first double quote in `s`, or `s.len()` if there is none.
pub open spec fn quote_index(s: Seq<char>) -> int
    decreases s.len(),
{
    if s.len() == 0 {
        0
    } else if s[0] == '"' {
        0
    } else {
        1 + quote_index(s.skip(1))
    }
}

/// Whether an occurrence of the pattern for `name` begins at the head of
/// `t`: the opening part, then a digit, then a run of non-quote characters
/// closed by a double quote.
pub open spec fn match_head(t: Seq<char>, name: Seq<char>) -> bool {
    let l = pat_prefix(name).len() as int;
    &&& l < t.len()
    &&& t.take(l) == pat_prefix(name)
    &&& is_digit_char(t[l])
    &&& quote_index(t.skip(l)) < t.len() - l
}

/// Length of the occurrence at the head of `t`, closing quote included.
pub open spec fn match_len(t: Seq<char>, name: Seq<char>) -> int {
    let l = pat_prefix(name).len() as int;
    l + quote_index(t.skip(l)) + 1
}

proof fn lemma_quote_index_bounds(s: Seq<char>)
    ensures
        0 <= quote_index(s) <= s.len(),
        quote_index(s) < s.len() ==> s[quote_index(s)] == '"',
        forall|i: int| 0 <= i < quote_index(s) ==> s[i] != '"',
    decreases s.len(),
{
    if s.len() > 0 && s[0] != '"' {
        lemma_quote_index_bounds(s.skip(1));
        assert forall|i: int| 0 <= i < quote_index(s) implies s[i] != '"' by {
            if i >= 1 {
                assert(s.skip(1)[i - 1] == s[i]);
                assert(s.skip(1)[i - 1] != '"');
            }
        }
    }
}

/// A position with no double quote before it and a double quote (or the end)
/// at it is exactly `quote_index`.
proof fn lemma_quote_index_at(s: Seq<char>, k: int)
    requires
        0 <= k <= s.len(),
        forall|i: int| 0 <= i < k ==> s[i] != '"',
        k < s.len() ==> s[k] == '"',
    ensures
        quote_index(s) == k,
    decreases s.len(),
{
    if k == 0 {
        if s.len() > 0 && s[0] != '"' {
            lemma_quote_index_bounds(s.skip(1));
        }
    } else {
        assert(s[0] != '"');
        assert(forall|i: int| 0 <= i < k - 1 ==> s.skip(1)[i] != '"');
        assert(k - 1 < s.skip(1).len() ==> s.skip(1)[k - 1] == '"');
        lemma_quote_index_at(s.skip(1), k - 1);
    }
}

/// The text after rewriting every occurrence of the pattern for `name`,
/// scanned left to right without overlap: each occurrence is replaced by
/// `rep_chunk(name, v)` and every other character is copied through.
pub open spec fn rewrite_spec(t: Seq<char>, name: Seq<char>, v: Seq<char>) -> Seq<char>
    decreases t.len(),
    via rewrite_spec_dec
{
    if t.len() == 0 {
        t
    } else if match_head(t, name) {
        rep_chunk(name, v) + rewrite_spec(t.skip(match_len(t, name)), name, v)
    } else {
        t.take(1) + rewrite_spec(t.skip(1), name, v)
    }
}

#[via_fn]
proof fn rewrite_spec_dec(t: Seq<char>, name: Seq<char>, v: Seq<char>) {
    if t.len() != 0 && match_head(t, name) {
        lemma_quote_index_bounds(t.skip(pat_prefix(name).len() as int));
    }
}

/// Whether the pattern for `name` occurs anywhere in `t`.
pub open spec fn has_match(t: Seq<char>, name: Seq<char>) -> bool
    decreases t.len(),
{
    if t.len() == 0 {
        false
    } else {
        match_head(t, name) || has_match(t.skip(1), name)
    }
}

/// A text without any occurrence of the pattern for `name` is rewritten to
/// itself, byte for byte.
pub proof fn lemma_rewrite_no_match(t: Seq<char>, name: Seq<char>, v: Seq<char>)
    requires
        !has_match(t, name),
    ensures
        rewrite_spec(t, name, v) == t,
    decreases t.len(),
{
    if t.len() > 0 {
        lemma_rewrite_no_match(t.skip(1), name, v);
        assert(rewrite_spec(t, name, v) =~= t);
    }
}

/// Whether `s` contains neither a pipe nor a double quote — the two
/// characters that delimit the pattern.
pub open spec fn pipe_quote_free(s: Seq<char>) -> bool {
    forall|i: int| 0 <= i < s.len() ==> #[trigger] s[i] != '|' && s[i] != '"'
}

/// Position of the first occurrence of the pattern in `s`, or `s.len()` if
/// there is none.
pub open spec fn first_match(s: Seq<char>, name: Seq<char>) -> int
    decreases s.len(),
{
    if s.len() == 0 {
        0
    } else if match_head(s, name) {
        0
    } else {
        1 + first_match(s.skip(1), name)
    }
}

proof fn lemma_first_match_bounds(s: Seq<char>, name: Seq<char>)
    ensures
        0 <= first_match(s, name) <= s.len(),
        first_match(s, name) < s.len() ==> match_head(s.skip(first_match(s, name)), name),
        forall|i: int| 0 <= i < first_match(s, name) ==> !match_head(s.skip(i), name),
        (first_match(s, name) == s.len()) == !has_match(s, name),
    decreases s.len(),
{
    if s.len() == 0 {
    } else if match_head(s, name) {
        assert(s.skip(0) =~= s);
    } else {
        lemma_first_match_bounds(s.skip(1), name);
        assert forall|i: int| 0 <= i < first_match(s, name) implies !match_head(
            s.skip(i),
            name,
        ) by {
            if i == 0 {
                assert(s.skip(0) =~= s);
            } else {
                assert(s.skip(1).skip(i - 1) =~= s.skip(i));
                assert(!match_head(s.skip(1).skip(i - 1), name));
            }
        }
        if first_match(s, name) < s.len() {
            assert(s.skip(1).skip(first_match(s.skip(1), name)) =~= s.skip(
                first_match(s, name),
            ));
        }
    }
}

/// A text with no more characters than the opening part of the pattern is
/// too short to contain an occurrence.
proof fn lemma_short_no_match(s: Seq<char>, name: Seq<char>)
    requires
        s.len() <= pat_prefix(name).len(),
    ensures
        !has_match(s, name),
    decreases s.len(),
{
    if s.len() > 0 {
        lemma_short_no_match(s.skip(1), name);
    }
}

proof fn lemma_quote_index_concat(a: Seq<char>, b: Seq<char>)
    requires
        forall|i: int| 0 <= i < a.len() ==> #[trigger] a[i] != '"',
    ensures
        quote_index(a + b) == a.len() + quote_index(b),
    decreases a.len(),
{
    if a.len() == 0 {
        assert(a + b =~= b);
    } else {
        assert((a + b)[0] == a[0]);
        assert((a + b).skip(1) =~= a.skip(1) + b);
        lemma_quote_index_concat(a.skip(1), b);
    }
}

/// Characters that are not a pipe can never open an occurrence, so a run of
/// them is copied through unchanged.
proof fn lemma_rw_no_pipe(a: Seq<char>, rest: Seq<char>, name: Seq<char>, v: Seq<char>)
    requires
        forall|i: int| 0 <= i < a.len() ==> #[trigger] a[i] != '|',
    ensures
        rewrite_spec(a + rest, name, v) == a + rewrite_spec(rest, name, v),
    decreases a.len(),
{
    let t = a + rest;
    let pre = pat_prefix(name);
    let l = pre.len() as int;
    if a.len() == 0 {
        assert(t =~= rest);
        assert(a + rewrite_spec(rest, name, v) =~= rewrite_spec(rest, name, v));
    } else {
        assert(t[0] == a[0]);
        assert(pre[0] == '|');
        if l < t.len() {
            assert(t.take(l)[0] == t[0]);
        }
        assert(!match_head(t, name));
        assert(t.skip(1) =~= a.skip(1) + rest);
        lemma_rw_no_pipe(a.skip(1), rest, name, v);
        assert(rewrite_spec(t, name, v) =~= a + rewrite_spec(rest, name, v));
    }
}

proof fn lemma_chunk_tail_no_pipe(name: Seq<char>, v: Seq<char>)
    requires
        pipe_quote_free(name),
        pipe_quote_free(v),
    ensures
        forall|i: int|
            0 <= i < rep_chunk(name, v).skip(1).len() ==> #[trigger] rep_chunk(name, v).skip(1)[i]
                != '|',
{
    let chunk = rep_chunk(name, v);
    let n = name.len() as int;
    let l = n + 5;
    assert(pat_prefix(name).len() == l);
    assert forall|i: int| 0 <= i < chunk.skip(1).len() implies #[trigger] chunk.skip(1)[i]
        != '|' by {
        let k = i + 1;
        assert(chunk.skip(1)[i] == chunk[k]);
        if k < 1 + n {
            assert(chunk[k] == pat_prefix(name)[k]);
            assert(pat_prefix(name)[k] == name[k - 1]);
        } else if k == 1 + n {
            assert(chunk[k] == pat_prefix(name)[k]);
            assert(pat_prefix(name)[k] == ' ');
        } else if k == 2 + n {
            assert(chunk[k] == pat_prefix(name)[k]);
            assert(pat_prefix(name)[k] == '=');
        } else if k == 3 + n {
            assert(chunk[k] == pat_prefix(name)[k]);
            assert(pat_prefix(name)[k] == ' ');
        } else if k == 4 + n {
            assert(chunk[k] == pat_prefix(name)[k]);
            assert(pat_prefix(name)[k] == '"');
        } else if k < l + v.len() {
            assert(chunk[k] == v[k - l]);
        } else {
            assert(chunk[k] == '"');
        }
    }
}

/// A freshly written replacement chunk is either matched again as a whole —
/// and replaced by itself — or not matched at all, so rewriting distributes
/// over it.
proof fn lemma_rw_chunk(rest: Seq<char>, name: Seq<char>, v: Seq<char>)
    requires
        pipe_quote_free(name),
        pipe_quote_free(v),
    ensures
        rewrite_spec(rep_chunk(name, v) + rest, name, v) == rep_chunk(name, v) + rewrite_spec(
            rest,
            name,
            v,
        ),
{
    let pre = pat_prefix(name);
    let l = pre.len() as int;
    let chunk = rep_chunk(name, v);
    let t = chunk + rest;
    assert(chunk.len() == l + v.len() + 1);
    assert(t.len() > l);
    if v.len() > 0 && is_digit_char(v[0]) {
        assert(t.take(l) =~= pre);
        assert(t[l] == v[0]);
        assert(t.skip(l) =~= v + (seq!['"'] + rest));
        lemma_quote_index_concat(v, seq!['"'] + rest);
        assert((seq!['"'] + rest)[0] == '"');
        assert(quote_index(seq!['"'] + rest) == 0);
        assert(quote_index(t.skip(l)) == v.len());
        assert(match_head(t, name));
        assert(match_len(t, name) == l + v.len() + 1);
        assert(t.skip(match_len(t, name)) =~= rest);
    } else {
        assert(t[l] == chunk[l]);
        if v.len() > 0 {
            assert(chunk[l] == v[0]);
        } else {
            assert(chunk[l] == '"');
        }
        assert(!is_digit_char(t[l]));
        assert(!match_head(t, name));
        assert(t[0] == pre[0]);
        assert(t.take(1) =~= seq!['|']);
        assert(t.skip(1) =~= chunk.skip(1) + rest);
        lemma_chunk_tail_no_pipe(name, v);
        lemma_rw_no_pipe(chunk.skip(1), rest, name, v);
        assert(rewrite_spec(t, name, v) =~= chunk + rewrite_spec(rest, name, v));
    }
}

/// Everything before the first occurrence is copied through unchanged.
proof fn lemma_rw_decompose(s: Seq<char>, name: Seq<char>, v: Seq<char>, k: int)
    requires
        0 <= k <= s.len(),
        forall|i: int| 0 <= i < k ==> !match_head(#[trigger] s.skip(i), name),
    ensures
        rewrite_spec(s, name, v) == s.take(k) + rewrite_spec(s.skip(k), name, v),
    decreases k,
{
    if k == 0 {
        assert(s.skip(0) =~= s);
        assert(s.take(0) + rewrite_spec(s, name, v) =~= rewrite_spec(s, name, v));
    } else {
        assert(s.skip(0) =~= s);
        assert(!match_head(s, name));
        assert forall|i: int| 0 <= i < k - 1 implies !match_head(
            #[trigger] s.skip(1).skip(i),
            name,
        ) by {
            assert(s.skip(1).skip(i) =~= s.skip(1 + i));
            assert(!match_head(s.skip(1 + i), name));
        }
        lemma_rw_decompose(s.skip(1), name, v, k - 1);
        assert(s.skip(1).skip(k - 1) =~= s.skip(k));
        assert(rewrite_spec(s, name, v) =~= s.take(k) + rewrite_spec(s.skip(k), name, v));
    }
}

/// The rewritten text agrees with the original on every position up to the
/// end of the opening part of the first occurrence.
proof fn lemma_rw_head_agree(s: Seq<char>, name: Seq<char>, v: Seq<char>)
    ensures
        first_match(s, name) == s.len() ==> rewrite_spec(s, name, v) == s,
        first_match(s, name) < s.len() ==> rewrite_spec(s, name, v).len() > first_match(s, name)
            + pat_prefix(name).len(),
        first_match(s, name) < s.len() ==> forall|k: int|
            0 <= k < first_match(s, name) + pat_prefix(name).len()
                ==> #[trigger] rewrite_spec(s, name, v)[k] == s[k],
{
    let l = pat_prefix(name).len() as int;
    let m = first_match(s, name);
    lemma_first_match_bounds(s, name);
    lemma_rw_decompose(s, name, v, m);
    if m == s.len() {
        assert(s.skip(m).len() == 0);
        assert(rewrite_spec(s, name, v) =~= s);
    } else {
        let tail = s.skip(m);
        assert(match_head(tail, name));
        lemma_quote_index_bounds(tail.skip(l));
        let chunk = rep_chunk(name, v);
        assert(rewrite_spec(tail, name, v) == chunk + rewrite_spec(
            tail.skip(match_len(tail, name)),
            name,
            v,
        ));
        assert(chunk.len() == l + v.len() + 1);
        assert(rewrite_spec(s, name, v).len() > m + l);
        assert forall|k: int| 0 <= k < m + l implies #[trigger] rewrite_spec(s, name, v)[k]
            == s[k] by {
            if k < m {
                assert(rewrite_spec(s, name, v)[k] == s.take(m)[k]);
            } else {
                assert(rewrite_spec(s, name, v)[k] == rewrite_spec(tail, name, v)[k - m]);
                assert(rewrite_spec(tail, name, v)[k - m] == chunk[k - m]);
                assert(chunk[k - m] == pat_prefix(name)[k - m]);
                assert(tail.take(l)[k - m] == pat_prefix(name)[k - m]);
                assert(tail.take(l)[k - m] == tail[k - m]);
                assert(tail[k - m] == s[k]);
            }
        }
    }
}

/// The double quotes of the opening part sit only at its last position.
proof fn lemma_pre_quotes(name: Seq<char>)
    requires
        pipe_quote_free(name),
    ensures
        pat_prefix(name)[pat_prefix(name).len() - 1] == '"',
        forall|k: int|
            0 <= k < pat_prefix(name).len() - 1 ==> #[trigger] pat_prefix(name)[k] != '"',
{
    let pre = pat_prefix(name);
    let n = name.len() as int;
    assert(pre.len() == n + 5);
    assert(pre[n + 4] == '"');
    assert forall|k: int| 0 <= k < pre.len() - 1 implies #[trigger] pre[k] != '"' by {
        if k == 0 {
            assert(pre[k] == '|');
        } else if k < 1 + n {
            assert(pre[k] == name[k - 1]);
        } else if k == 1 + n {
            assert(pre[k] == ' ');
        } else if k == 2 + n {
            assert(pre[k] == '=');
        } else {
            assert(pre[k] == ' ');
        }
    }
}

/// Rewriting is idempotent: applying it twice with the same name and
/// replacement yields the same text as applying it once, provided neither
/// the package name nor the new version contains a pipe or a double quote.
pub proof fn lemma_rewrite_idempotent(t: Seq<char>, name: Seq<char>, v: Seq<char>)
    requires
        pipe_quote_free(name),
        pipe_quote_free(v),
    ensures
        rewrite_spec(rewrite_spec(t, name, v), name, v) == rewrite_spec(t, name, v),
    decreases t.len(),
{
    let pre = pat_prefix(name);
    let l = pre.len() as int;
    if t.len() == 0 {
    } else if match_head(t, name) {
        lemma_quote_index_bounds(t.skip(l));
        let ml = match_len(t, name);
        let rest = t.skip(ml);
        lemma_rewrite_idempotent(rest, name, v);
        lemma_rw_chunk(rewrite_spec(rest, name, v), name, v);
    } else if t[0] != '|' {
        let s1 = t.skip(1);
        let w = rewrite_spec(s1, name, v);
        lemma_rewrite_idempotent(s1, name, v);
        assert(t.take(1) =~= seq![t[0]]);
        assert(forall|i: int| 0 <= i < seq![t[0]].len() ==> #[trigger] seq![t[0]][i] != '|');
        lemma_rw_no_pipe(seq![t[0]], w, name, v);
        assert(rewrite_spec(t, name, v) =~= seq![t[0]] + w);
    } else {
        let s1 = t.skip(1);
        let w = rewrite_spec(s1, name, v);
        let tp = rewrite_spec(t, name, v);
        lemma_rewrite_idempotent(s1, name, v);
        lemma_first_match_bounds(s1, name);
        lemma_rw_head_agree(s1, name, v);
        let m = first_match(s1, name);
        assert(tp == t.take(1) + w);
        assert(t.take(1) =~= seq!['|']);
        assert(tp.len() == 1 + w.len());
        assert(forall|i: int| 0 <= i < w.len() ==> #[trigger] tp[i + 1] == w[i]);
        assert(tp[0] == '|');
        if t.len() <= l {
            lemma_short_no_match(s1, name);
            assert(m == s1.len());
            assert(w == s1);
            assert(tp =~= t);
            assert(!match_head(tp, name));
        } else if t.take(l) != pre {
            if forall|k: int| 0 <= k < l ==> #[trigger] t.take(l)[k] == pre[k] {
                assert(t.take(l) =~= pre);
                assert(false);
            }
            assert(exists|k: int| 0 <= k < l && #[trigger] t.take(l)[k] != pre[k]);
            let k = choose|k: int| 0 <= k < l && #[trigger] t.take(l)[k] != pre[k];
            assert(t.take(l)[k] == t[k]);
            assert(pre[0] == '|');
            assert(k >= 1);
            if m == s1.len() {
                assert(w == s1);
            }
            assert(w[k - 1] == s1[k - 1]);
            assert(s1[k - 1] == t[k]);
            assert(tp[k] == w[k - 1]);
            assert(l < tp.len() ==> tp.take(l)[k] == tp[k]);
            assert(!match_head(tp, name));
        } else if !is_digit_char(t[l]) {
            assert(s1[l - 1] == t[l]);
            if m == s1.len() {
                assert(w == s1);
            }
            assert(w[l - 1] == s1[l - 1]);
            assert(tp[l] == w[l - 1]);
            assert(!is_digit_char(tp[l]));
            assert(!match_head(tp, name));
        } else {
            lemma_quote_index_bounds(t.skip(l));
            assert(quote_index(t.skip(l)) == t.len() - l);
            assert forall|i: int| l <= i < t.len() implies #[trigger] t[i] != '"' by {
                assert(t.skip(l)[i - l] == t[i]);
                assert(t.skip(l)[i - l] != '"');
            }
            lemma_pre_quotes(name);
            assert(forall|kk: int| 0 <= kk < l ==> #[trigger] t[kk] == t.take(l)[kk]);
            if m < s1.len() {
                assert(match_head(s1.skip(m), name));
                assert(s1.skip(m).take(l) == pre);
                assert(s1.skip(m).take(l)[l - 1] == s1.skip(m)[l - 1]);
                assert(s1.skip(m)[l - 1] == s1[m + l - 1]);
                assert(s1[m + l - 1] == '"');
                assert(s1[m + l - 1] == t[m + l]);
                assert(m + l < t.len());
                assert(t[m + l] != '"');
                assert(false);
            }
            assert(w == s1);
            assert(tp =~= t);
            assert(!match_head(tp, name));
        }
        assert(tp.skip(1) =~= w);
        assert(tp.take(1) =~= seq!['|']);
        assert(rewrite_spec(tp, name, v) == tp.take(1) + rewrite_spec(tp.skip(1), name, v));
        assert(rewrite_spec(tp, name, v) =~= tp);
    }
}

/// Position of the first double quote at or after `from`, or the end of
/// `cs` when none occurs.
fn find_quote(cs: &Vec<char>, from: usize) -> (k: usize)
    requires
        from <= cs@.len(),
    ensures
        from <= k <= cs@.len(),
        quote_index(cs@.skip(from as int)) == k - from,
        k < cs@.len() ==> cs@[k as int] == '"',
{
    let n = cs.len();
    let mut k: usize = from;
    while k < n && cs[k] != '"'
        invariant
            from <= k <= n == cs@.len(),
            forall|i: int| from <= i < k ==> cs@[i] != '"',
        decreases n - k,
    {
        k = k + 1;
    }
    proof {
        let s = cs@.skip(from as int);
        assert(forall|i: int| 0 <= i < k - from ==> s[i] != '"');
        assert(k - from < s.len() ==> s[k - from] == '"');
        lemma_quote_index_at(s, k - from);
    }
    k
}

/// Looks for an occurrence of the pattern at position `i`, returning its
/// length when one begins there.
fn check_match(t: &Vec<char>, i: usize, name: &Vec<char>) -> (r: Option<usize>)
    requires
        i <= t@.len(),
    ensures
        match r {
            Some(ml) => {
                &&& match_head(t@.skip(i as int), name@)
                &&& ml == match_len(t@.skip(i as int), name@)
                &&& 1 <= ml
                &&& i + ml <= t@.len()
            },
            None => !match_head(t@.skip(i as int), name@),
        },
{
    let ghost s = t@.skip(i as int);
    let ghost pre = pat_prefix(name@);
    let n = name.len();
    let tlen = t.len();
    // The opening part and the digit after it alone need name.len() + 6
    // characters, so a shorter tail cannot hold an occurrence.
    if tlen - i < 6 || n > tlen - i - 6 {
        proof {
            assert(pre.len() == n + 5);
            assert(s.len() <= pre.len());
        }
        return None;
    }
    let l = n + 5;
    assert(l < s.len());
    if t[i] != '|' {
        proof {
            assert(pre[0] == '|');
            assert(s.take(l as int)[0] == s[0]);
        }
        return None;
    }
    let mut j: usize = 0;
    while j < n
        invariant
            j <= n == name@.len(),
            i + n + 5 < tlen == t@.len(),
            l == n + 5,
            s == t@.skip(i as int),
            pre == pat_prefix(name@),
            pre.len() == l,
            forall|jj: int| 0 <= jj < j ==> t@[i + 1 + jj] == name@[jj],
        decreases n - j,
    {
        if t[i + 1 + j] != name[j] {
            proof {
                assert(pre[1 + j] == name@[j as int]);
                assert(s.take(l as int)[1 + j] == s[1 + j]);
                assert(s[1 + j] == t@[i + 1 + j]);
            }
            return None;
        }
        j = j + 1;
    }
    if t[i + 1 + n] != ' ' {
        proof {
            assert(pre[1 + n] == ' ');
            assert(s.take(l as int)[1 + n] == s[1 + n]);
        }
        return None;
    }
    if t[i + 2 + n] != '=' {
        proof {
            assert(pre[2 + n] == '=');
            assert(s.take(l as int)[2 + n] == s[2 + n]);
        }
        return None;
    }
    if t[i + 3 + n] != ' ' {
        proof {
            assert(pre[3 + n] == ' ');
            assert(s.take(l as int)[3 + n] == s[3 + n]);
        }
        return None;
    }
    if t[i + 4 + n] != '"' {
        proof {
            assert(pre[4 + n] == '"');
            assert(s.take(l as int)[4 + n] == s[4 + n]);
        }
        return None;
    }
    proof {
        assert forall|k: int| 0 <= k < l implies s.take(l as int)[k] == pre[k] by {
            assert(s[k] == t@[i + k]);
            if k == 0 {
                assert(pre[0] == '|');
            } else if k < 1 + n {
                assert(pre[k] == name@[k - 1]);
                assert(t@[i + 1 + (k - 1)] == name@[k - 1]);
            } else if k == 1 + n {
                assert(pre[k] == ' ');
            } else if k == 2 + n {
                assert(pre[k] == '=');
            } else if k == 3 + n {
                assert(pre[k] == ' ');
            } else {
                assert(pre[k] == '"');
            }
        }
        assert(s.take(l as int) =~= pre);
    }
    let c = t[i + l];
    if !(c >= '0' && c <= '9') {
        proof {
            assert(s[l as int] == t@[i + l]);
            assert(!is_digit_char(s[l as int]));
        }
        return None;
    }
    let q = find_quote(t, i + l);
    proof {
        assert(t@.skip((i + l) as int) =~= s.skip(l as int));
    }
    if q >= t.len() {
        proof {
            assert(quote_index(s.skip(l as int)) == s.len() - l);
        }
        return None;
    }
    proof {
        assert(quote_index(s.skip(l as int)) == q - (i + l));
        assert(quote_index(s.skip(l as int)) < s.len() - l);
        assert(match_head(s, name@));
        assert(match_len(s, name@) == l + (q - (i + l)) + 1);
    }
    Some(q + 1 - i)
}

/// Appends every character of `s` to `out`.
fn push_all(out: &mut Vec<char>, s: &Vec<char>)
    ensures
        final(out)@ == old(out)@ + s@,
{
    let n = s.len();
    let mut j: usize = 0;
    while j < n
        invariant
            j <= n == s@.len(),
            out@ == old(out)@ + s@.take(j as int),
        decreases n - j,
    {
        out.push(s[j]);
        proof {
            assert(s@.take(j + 1) =~= s@.take(j as int) + seq![s@[j as int]]);
            assert(old(out)@ + s@.take(j as int) + seq![s@[j as int]] =~= old(out)@ + s@.take(
                j + 1,
            ));
        }
        j = j + 1;
    }
    proof {
        assert(s@.take(n as int) =~= s@);
    }
}

/// Rewrites every occurrence of the pattern `|dep_name = "VERSION"|` in a
/// workflow text so that the embedded version becomes `new_version`, leaving
/// all other content unchanged. Never fails: a text without a matching
/// occurrence comes back byte-identical.
pub fn patch_workflow_sed(content: &str, dep_name: &str, new_version: &str) -> (r: String)
    ensures
        r@ == rewrite_spec(content@, dep_name@, new_version@),
{
    let t = str_to_chars(content);
    let name = str_to_chars(dep_name);
    let v = str_to_chars(new_version);
    let mut out: Vec<char> = Vec::new();
    let mut i: usize = 0;
    proof {
        assert(t@.skip(0) =~= t@);
        assert(Seq::<char>::empty() + rewrite_spec(t@, name@, v@) =~= rewrite_spec(
            t@,
            name@,
            v@,
        ));
    }
    while i < t.len()
        invariant
            i <= t@.len(),
            t@ == content@,
            name@ == dep_name@,
            v@ == new_version@,
            rewrite_spec(content@, dep_name@, new_version@) == out@ + rewrite_spec(
                t@.skip(i as int),
                name@,
                v@,
            ),
        decreases t@.len() - i,
    {
        let ghost s = t@.skip(i as int);
        match check_match(&t, i, &name) {
            Some(ml) => {
                let ghost out0 = out@;
                out.push('|');
                push_all(&mut out, &name);
                out.push(' ');
                out.push('=');
                out.push(' ');
                out.push('"');
                push_all(&mut out, &v);
                out.push('"');
                proof {
                    assert(out@ =~= out0 + rep_chunk(name@, v@));
                    assert(s.skip(match_len(s, name@)) =~= t@.skip(i + ml));
                    assert(rewrite_spec(s, name@, v@) == rep_chunk(name@, v@) + rewrite_spec(
                        t@.skip(i + ml),
                        name@,
                        v@,
                    ));
                }
                i = i + ml;
            },
            None => {
                let ghost out0 = out@;
                let c = t[i];
                out.push(c);
                proof {
                    assert(s.take(1) =~= seq![t@[i as int]]);
                    assert(s.skip(1) =~= t@.skip(i + 1));
                    assert(out@ =~= out0 + s.take(1));
                    assert(rewrite_spec(s, name@, v@) == s.take(1) + rewrite_spec(
                        t@.skip(i + 1),
                        name@,
                        v@,
                    ));
                }
                i = i + 1;
            },
        }
    }
    proof {
        assert(t@.skip(i as int) =~= Seq::<char>::empty());
        assert(rewrite_spec(t@.skip(i as int), name@, v@) =~= Seq::<char>::empty());
        assert(out@ =~= rewrite_spec(content@, dep_name@, new_version@));
    }
    chars_to_string(&out)
}

} // verus!

//! The span renderer: a pure textual substitution pass that replaces every
//! begin marker with a highlighting wrapper carrying the span index and hit
//! count as attributes, and every end marker with the closing wrapper. The
//! digit runs inside a begin marker are spliced into the wrapper as text,
//! exactly as they stand.

use vstd::prelude::*;
use crate::annotate::end_marker_text;

verus! {

/// An ASCII decimal digit.
pub open spec fn is_digit(c: char) -> bool {
    ('0' as u32) <= c as u32 <= ('9' as u32)
}

/// `pat` occurs in `s` starting at position `i`.
pub open spec fn matches_at(s: Seq<char>, i: int, pat: Seq<char>) -> bool {
    0 <= i && i + pat.len() <= s.len() && s.subrange(i, i + pat.len()) == pat
}

/// The first position at or after `i` that does not carry a digit.
pub open spec fn digit_run_end(s: Seq<char>, i: int) -> int
    decreases s.len() - i,
{
    if 0 <= i < s.len() && is_digit(s[i]) {
        digit_run_end(s, i + 1)
    } else {
        i
    }
}

/// The opening text of a begin marker, up to the first digit run.
pub open spec fn start_prefix() -> Seq<char> {
    "{{ start_segment "@
}

/// Recognizes a begin marker at position `i`: the prefix, a nonempty digit
/// run (the span index), a space, a nonempty digit run (the hit count), and
/// the closing ` }}`. Returns the two digit runs and the position after
/// the marker.
pub open spec fn start_match_at(s: Seq<char>, i: int) -> Option<(Seq<char>, Seq<char>, int)> {
    if matches_at(s, i, start_prefix()) {
        let d1s = i + start_prefix().len();
        let d1e = digit_run_end(s, d1s);
        if d1s < d1e && d1e < s.len() && s[d1e] == ' ' {
            let d2s = d1e + 1;
            let d2e = digit_run_end(s, d2s);
            if d2s < d2e && matches_at(s, d2e, " }}"@) {
                Some((s.subrange(d1s, d1e), s.subrange(d2s, d2e), d2e + 3))
            } else {
                None
            }
        } else {
            None
        }
    } else {
        None
    }
}

/// The closing wrapper an end marker becomes.
pub open spec fn end_markup() -> Seq<char> {
    "</span>"@
}

/// The opening wrapper a begin marker becomes, with the span index digits
/// `d1` and the hit count digits `d2` spliced in.
pub open spec fn start_markup(d1: Seq<char>, d2: Seq<char>) -> Seq<char> {
    "<span class='hit' title=\""@ + d2 + " hits\" data-count="@ + d2 + " data-segment-index="@
        + d1 + ">"@
}

proof fn lemma_digit_run_end_ge(s: Seq<char>, i: int)
    ensures
        digit_run_end(s, i) >= i,
        digit_run_end(s, i) <= s.len() || digit_run_end(s, i) == i,
    decreases s.len() - i,
{
    if 0 <= i < s.len() && is_digit(s[i]) {
        lemma_digit_run_end_ge(s, i + 1);
    }
}

proof fn lemma_digit_run_end_is(s: Seq<char>, from: int, k: int)
    requires
        0 <= from <= k <= s.len(),
        forall|t: int| from <= t < k ==> is_digit(s[t]),
        k == s.len() || !is_digit(s[k]),
    ensures
        digit_run_end(s, from) == k,
    decreases k - from,
{
    if from < k {
        lemma_digit_run_end_is(s, from + 1, k);
    }
}

#[via_fn]
proof fn render_spec_decreases(s: Seq<char>, i: int) {
    if 0 <= i < s.len() {
        if matches_at(s, i, end_marker_text()) {
            vstd::prelude::reveal_strlit("{{ end_segment }}");
        } else if start_match_at(s, i) is Some {
            vstd::prelude::reveal_strlit("{{ start_segment ");
            vstd::prelude::reveal_strlit(" }}");
            let d1s = i + start_prefix().len();
            lemma_digit_run_end_ge(s, d1s);
            let d1e = digit_run_end(s, d1s);
            lemma_digit_run_end_ge(s, d1e + 1);
        }
    }
}

/// The rendered form of `s[i..]`: scanning left to right, an end marker
/// becomes the closing wrapper, a begin marker becomes the opening wrapper
/// with its digit runs spliced in, and every other character is kept.
pub open spec fn render_spec(s: Seq<char>, i: int) -> Seq<char>
    decreases s.len() - i,
        when 0 <= i
        via render_spec_decreases
{
    if i >= s.len() {
        Seq::empty()
    } else if matches_at(s, i, end_marker_text()) {
        end_markup() + render_spec(s, i + end_marker_text().len())
    } else if start_match_at(s, i) is Some {
        let m = start_match_at(s, i)->Some_0;
        start_markup(m.0, m.1) + render_spec(s, m.2)
    } else {
        seq![s[i]] + render_spec(s, i + 1)
    }
}

/// `pat` stands in `text` at character position `i`.
fn matches_lit(text: &str, i: usize, pat: &str) -> (r: bool)
    requires
        i <= text@.len(),
    ensures
        r == matches_at(text@, i as int, pat@),
{
    let n = text.unicode_len();
    let plen = pat.unicode_len();
    if plen > n - i {
        proof {
            if matches_at(text@, i as int, pat@) {
                assert(false);
            }
        }
        return false;
    }
    let mut k: usize = 0;
    while k < plen
        invariant
            n == text@.len(),
            plen == pat@.len(),
            i + plen <= n,
            k <= plen,
            forall|t: int| 0 <= t < k ==> text@[i + t] == pat@[t],
        decreases plen - k,
    {
        if text.get_char(i + k) != pat.get_char(k) {
            proof {
                if matches_at(text@, i as int, pat@) {
                    assert(text@.subrange(i as int, i + plen as int)[k as int] == pat@[k as int]);
                    assert(false);
                }
            }
            return false;
        }
        k = k + 1;
    }
    proof {
        assert(text@.subrange(i as int, i + plen as int) =~= pat@);
    }
    true
}

/// The first character position at or after `from` that carries no digit.
fn find_digit_run_end(text: &str, from: usize) -> (r: usize)
    requires
        from <= text@.len(),
    ensures
        r as int == digit_run_end(text@, from as int),
        from <= r <= text@.len(),
{
    let n = text.unicode_len();
    let mut k = from;
    let mut done = false;
    while !done
        invariant
            n == text@.len(),
            from <= k <= n,
            forall|t: int| from <= t < k ==> is_digit(text@[t]),
            done ==> (k == n || !is_digit(text@[k as int])),
        decreases n - k + (if done {
            0int
        } else {
            1int
        }),
    {
        if k >= n {
            done = true;
        } else {
            let c = text.get_char(k);
            let cu = c as u32;
            if 48 <= cu && cu <= 57 {
                k = k + 1;
            } else {
                done = true;
            }
        }
    }
    proof {
        lemma_digit_run_end_is(text@, from as int, k as int);
    }
    k
}

/// Recognizes a begin marker at position `i`, returning the ends of the
/// two digit runs and the position after the marker.
fn try_match_start(text: &str, i: usize) -> (r: Option<(usize, usize, usize)>)
    requires
        i <= text@.len(),
    ensures
        r is Some <==> start_match_at(text@, i as int) is Some,
        r matches Some(t) ==> start_match_at(text@, i as int) == Some(
            (
                text@.subrange(i + start_prefix().len(), t.0 as int),
                text@.subrange(t.0 + 1 as int, t.1 as int),
                t.2 as int,
            ),
        ) && i + start_prefix().len() <= t.0 as int && t.0 + 1 <= t.1 <= text@.len() && t.2 == t.1
            + 3 && t.2 <= text@.len(),
{
    let pat = "{{ start_segment ";
    let n = text.unicode_len();
    if !matches_lit(text, i, pat) {
        return None;
    }
    let plen = pat.unicode_len();
    let d1s = i + plen;
    let d1e = find_digit_run_end(text, d1s);
    if d1e == d1s {
        return None;
    }
    if d1e >= n {
        return None;
    }
    if text.get_char(d1e) != ' ' {
        return None;
    }
    let d2s = d1e + 1;
    let d2e = find_digit_run_end(text, d2s);
    if d2e == d2s {
        return None;
    }
    if !matches_lit(text, d2e, " }}") {
        return None;
    }
    proof {
        reveal_strlit(" }}");
    }
    Some((d1e, d2e, d2e + 3))
}

/// Replaces every marker in the annotated text with its final markup: the
/// pure substitution pass `render_spec` states, applied to the whole text.
#[verifier::rlimit(50)]
pub fn render_markup(text: &str) -> (r: String)
    ensures
        r@ == render_spec(text@, 0),
{
    let ghost s = text@;
    let n = text.unicode_len();
    let em = "{{ end_segment }}";
    let em_len = em.unicode_len();
    let mut out = String::new();
    let mut i: usize = 0;
    proof {
        reveal_strlit("{{ end_segment }}");
    }
    while i < n
        invariant
            s == text@,
            n == s.len(),
            em@ == end_marker_text(),
            em_len == end_marker_text().len(),
            em_len == 17,
            i <= n,
            render_spec(s, 0) == out@ + render_spec(s, i as int),
        decreases n - i,
    {
        let ghost out0 = out@;
        let ghost i0 = i as int;
        if matches_lit(text, i, em) {
            out.append("</span>");
            i = i + em_len;
            proof {
                assert(render_spec(s, i0) == end_markup() + render_spec(s, i as int));
                assert(out@ =~= out0 + end_markup());
                assert(out0 + (end_markup() + render_spec(s, i as int)) =~= (out0 + end_markup())
                    + render_spec(s, i as int));
            }
        } else {
            let matched = try_match_start(text, i);
            match matched {
                Some((d1e, d2e, next)) => {
                    let plen = "{{ start_segment ".unicode_len();
                    let d1 = text.substring_char(i + plen, d1e);
                    let d2 = text.substring_char(d1e + 1, d2e);
                    out.append("<span class='hit' title=\"");
                    out.append(d2);
                    out.append(" hits\" data-count=");
                    out.append(d2);
                    out.append(" data-segment-index=");
                    out.append(d1);
                    out.append(">");
                    i = next;
                    proof {
                        assert(render_spec(s, i0) == start_markup(d1@, d2@) + render_spec(
                            s,
                            i as int,
                        ));
                        assert(out@ =~= out0 + start_markup(d1@, d2@));
                        assert(out0 + (start_markup(d1@, d2@) + render_spec(s, i as int)) =~= (out0
                            + start_markup(d1@, d2@)) + render_spec(s, i as int));
                    }
                },
                None => {
                    out.append(text.substring_char(i, i + 1));
                    i = i + 1;
                    proof {
                        assert(render_spec(s, i0) == seq![s[i0]] + render_spec(s, i as int));
                        assert(out@ =~= out0 + seq![s[i0]]);
                        assert(out0 + (seq![s[i0]] + render_spec(s, i as int)) =~= (out0 + seq![
                            s[i0],
                        ]) + render_spec(s, i as int));
                    }
                },
            }
        }
    }
    proof {
        assert(render_spec(s, n as int) =~= Seq::<char>::empty());
        assert(out@ + Seq::<char>::empty() =~= out@);
    }
    out
}

} // verus!

//! Small text utilities: filename flattening for output paths and the
//! percent-to-color classification used by the report index.

use vstd::prelude::*;

verus! {

/// How a hit rate is displayed: below 75% is `Red`, from 75% up to but not
/// including 90% is `Yellow`, and 90% or above is `Green`.
#[derive(Clone, Copy, Debug, PartialEq, Eq, Structural)]
pub enum HitColor {
    Red,
    Yellow,
    Green,
}

/// A percentage handed to the classifier must not be negative; a negative
/// value is a caller bug and is reported as this error.
#[derive(Clone, Copy, Debug, PartialEq, Eq, Structural)]
pub enum PercentError {
    Negative,
}

/// Thresholds over a percentage expressed in thousandths of a percent,
/// so that values such as 74.999% are exact.
pub open spec fn color_class(percent_milli: int) -> HitColor {
    if percent_milli < 75000 {
        HitColor::Red
    } else if percent_milli < 90000 {
        HitColor::Yellow
    } else {
        HitColor::Green
    }
}

/// Classifies a hit percentage, given in thousandths of a percent
/// (75.0% is written 75000). Negative input is rejected.
pub fn color_for_percent(percent_milli: i64) -> (r: Result<HitColor, PercentError>)
    ensures
        r is Ok <==> percent_milli >= 0,
        percent_milli >= 0 ==> r == Ok::<HitColor, PercentError>(color_class(percent_milli as int)),
        percent_milli < 0 ==> r == Err::<HitColor, PercentError>(PercentError::Negative),
{
    if percent_milli < 0 {
        Err(PercentError::Negative)
    } else if percent_milli < 75000 {
        Ok(HitColor::Red)
    } else if percent_milli < 90000 {
        Ok(HitColor::Yellow)
    } else {
        Ok(HitColor::Green)
    }
}

impl HitColor {
    /// The CSS class name the report pages use for this color.
    pub fn as_str(&self) -> (r: &'static str)
        ensures
            *self == HitColor::Red ==> r@ == "red"@,
            *self == HitColor::Yellow ==> r@ == "yellow"@,
            *self == HitColor::Green ==> r@ == "green"@,
    {
        match self {
            HitColor::Red => "red",
            HitColor::Yellow => "yellow",
            HitColor::Green => "green",
        }
    }
}

/// The character for one decimal digit value.
pub open spec fn digit_char(d: int) -> char {
    if d == 0 {
        '0'
    } else if d == 1 {
        '1'
    } else if d == 2 {
        '2'
    } else if d == 3 {
        '3'
    } else if d == 4 {
        '4'
    } else if d == 5 {
        '5'
    } else if d == 6 {
        '6'
    } else if d == 7 {
        '7'
    } else if d == 8 {
        '8'
    } else {
        '9'
    }
}

/// The usual decimal notation of a number: no sign, no leading zero except
/// on zero itself.
pub open spec fn dec_rep(n: nat) -> Seq<char>
    decreases n,
{
    if n < 10 {
        seq![digit_char(n as int)]
    } else {
        dec_rep(n / 10) + seq![digit_char((n % 10) as int)]
    }
}

proof fn lemma_digit_table()
    ensures
        "0123456789"@.len() == 10,
        forall|d: int| 0 <= d < 10 ==> "0123456789"@[d] == digit_char(d),
{
    reveal_strlit("0123456789");
    assert forall|d: int| 0 <= d < 10 implies "0123456789"@[d] == digit_char(d) by {
        if d == 0 {
            assert("0123456789"@[0] == '0');
        } else if d == 1 {
            assert("0123456789"@[1] == '1');
        } else if d == 2 {
            assert("0123456789"@[2] == '2');
        } else if d == 3 {
            assert("0123456789"@[3] == '3');
        } else if d == 4 {
            assert("0123456789"@[4] == '4');
        } else if d == 5 {
            assert("0123456789"@[5] == '5');
        } else if d == 6 {
            assert("0123456789"@[6] == '6');
        } else if d == 7 {
            assert("0123456789"@[7] == '7');
        } else if d == 8 {
            assert("0123456789"@[8] == '8');
        } else {
            assert("0123456789"@[9] == '9');
        }
    }
}

/// Writes a number in decimal, as `dec_rep` states it.
pub fn u64_to_dec(n: u64) -> (r: String)
    ensures
        r@ == dec_rep(n as nat),
    decreases n,
{
    proof {
        lemma_digit_table();
    }
    let digits = "0123456789";
    if n < 10 {
        let d = digits.substring_char(n as usize, n as usize + 1);
        let r = d.to_owned();
        proof {
            assert(r@ =~= seq![digit_char(n as int)]);
        }
        r
    } else {
        let q = n / 10;
        let m = n % 10;
        let mut r = u64_to_dec(q);
        r.append(digits.substring_char(m as usize, m as usize + 1));
        proof {
            assert(r@ =~= dec_rep((n / 10) as nat) + seq![digit_char((n % 10) as int)]);
        }
        r
    }
}

/// A path separator becomes an underscore; every other character is kept.
pub open spec fn flatten_char(c: char) -> char {
    if c == '/' {
        '_'
    } else {
        c
    }
}

/// The flattened output name for a covered source file: separators replaced
/// by underscores, with the page suffix appended.
pub open spec fn sanitized_name(s: Seq<char>) -> Seq<char> {
    s.map_values(|c: char| flatten_char(c)) + ".html"@
}

/// Flattens a source path into a single output file name, so that the
/// report directory needs no hierarchy: `/` becomes `_` and `.html` is
/// appended.
pub fn sanitize_filename(input: &str) -> (r: String)
    ensures
        r@ == sanitized_name(input@),
{
    let n = input.unicode_len();
    let mut out = String::new();
    let mut i: usize = 0;
    while i < n
        invariant
            n == input@.len(),
            i <= n,
            out@ == input@.subrange(0, i as int).map_values(|c: char| flatten_char(c)),
        decreases n - i,
    {
        let c = input.get_char(i);
        if c == '/' {
            out.append("_");
        } else {
            out.append(input.substring_char(i, i + 1));
        }
        proof {
            assert(input@.subrange(0, i + 1 as int).map_values(|ch: char| flatten_char(ch))
                =~= input@.subrange(0, i as int).map_values(|ch: char| flatten_char(ch))
                    + input@.subrange(i as int, i + 1 as int).map_values(
                |ch: char| flatten_char(ch),
            ));
            assert(input@.subrange(i as int, i + 1 as int) =~= seq![input@[i as int]]);
            reveal_strlit("_");
            assert(seq![input@[i as int]].map_values(|ch: char| flatten_char(ch)) =~= seq![
                flatten_char(input@[i as int]),
            ]);
            assert("_"@ =~= seq!['_']);
        }
        i = i + 1;
    }
    out.append(".html");
    proof {
        assert(input@.subrange(0, n as int) =~= input@);
    }
    out
}

/// The byte length of a line's text in its original encoding.
pub open spec fn byte_len(s: Seq<char>) -> nat {
    vstd::utf8::encode_utf8(s).len()
}

/// The longest line's byte length, used to size the annotated page.
pub fn max_line_len(lines: &Vec<String>) -> (r: usize)
    requires
        lines@.len() > 0,
    ensures
        forall|j: int| 0 <= j < lines@.len() ==> byte_len(lines@[j]@) as usize <= r,
        exists|j: int| 0 <= j < lines@.len() && byte_len(lines@[j]@) as usize == r,
{
    let mut best: usize = lines[0].as_str().len();
    let mut k: usize = 1;
    while k < lines.len()
        invariant
            1 <= k <= lines@.len(),
            forall|j: int| 0 <= j < k ==> byte_len(lines@[j]@) as usize <= best,
            exists|j: int| 0 <= j < k && byte_len(lines@[j]@) as usize == best,
        decreases lines@.len() - k,
    {
        let cand = lines[k].as_str().len();
        if cand > best {
            best = cand;
        }
        k = k + 1;
    }
    best
}

proof fn lemma_dec_rep_step(n: nat)
    requires
        n >= 10,
    ensures
        dec_rep(n).len() == dec_rep(n / 10).len() + 1,
{
}

proof fn lemma_dec_rep_len_ge1(n: nat)
    ensures
        dec_rep(n).len() >= 1,
    decreases n,
{
    if n >= 10 {
        lemma_dec_rep_len_ge1(n / 10);
    }
}

proof fn lemma_dec_rep_len_le(n: nat)
    requires
        n >= 1,
    ensures
        dec_rep(n).len() <= n,
    decreases n,
{
    if n >= 10 {
        lemma_dec_rep_len_le(n / 10);
    }
}

/// How many columns the line numbers of a file of `n` lines need: the
/// number of decimal digits of `n`.
pub fn line_count_width(n: usize) -> (r: usize)
    requires
        n >= 1,
    ensures
        r == dec_rep(n as nat).len(),
{
    let mut m = n;
    let mut w: usize = 1;
    proof {
        lemma_dec_rep_len_le(n as nat);
        lemma_dec_rep_len_ge1(n as nat);
    }
    while m >= 10
        invariant
            m >= 1,
            n >= 1,
            w >= 1,
            dec_rep(n as nat).len() <= n,
            dec_rep(n as nat).len() + 1 == dec_rep(m as nat).len() + w,
        decreases m,
    {
        proof {
            lemma_dec_rep_step(m as nat);
            lemma_dec_rep_len_ge1((m / 10) as nat);
        }
        m = m / 10;
        w = w + 1;
    }
    proof {
        assert(dec_rep(m as nat).len() == 1);
    }
    w
}

/// `s` begins with `p`.
pub open spec fn starts_with_spec(s: Seq<char>, p: Seq<char>) -> bool {
    p.len() <= s.len() && s.subrange(0, p.len() as int) == p
}

/// Whether the text begins with the given prefix, by characters.
pub fn starts_with(s: &str, p: &str) -> (r: bool)
    ensures
        r == starts_with_spec(s@, p@),
{
    let sn = s.unicode_len();
    let pn = p.unicode_len();
    if pn > sn {
        proof {
            if starts_with_spec(s@, p@) {
                assert(false);
            }
        }
        return false;
    }
    let mut k: usize = 0;
    while k < pn
        invariant
            sn == s@.len(),
            pn == p@.len(),
            pn <= sn,
            k <= pn,
            forall|t: int| 0 <= t < k ==> s@[t] == p@[t],
        decreases pn - k,
    {
        if s.get_char(k) != p.get_char(k) {
            proof {
                if starts_with_spec(s@, p@) {
                    assert(s@.subrange(0, pn as int)[k as int] == p@[k as int]);
                    assert(false);
                }
            }
            return false;
        }
        k = k + 1;
    }
    proof {
        assert(s@.subrange(0, pn as int) =~= p@);
    }
    true
}

/// A percentage in thousandths, rounded to tenths (half away from zero).
pub open spec fn rounded_tenths(milli: int) -> int {
    (milli + 50) / 100
}

/// The one-decimal display of a percentage given in thousandths: the text
/// before the decimal point and the single digit after it.
pub fn percent_display(milli: i64) -> (r: (String, String))
    requires
        0 <= milli,
        milli <= 100_000,
    ensures
        r.0@ == dec_rep((rounded_tenths(milli as int) / 10) as nat),
        r.1@ == dec_rep((rounded_tenths(milli as int) % 10) as nat),
{
    let t = (milli + 50) / 100;
    let whole = u64_to_dec((t / 10) as u64);
    let tenth = u64_to_dec((t % 10) as u64);
    (whole, tenth)
}

} // verus!

//! The function listing: demangles every covered function's name and sorts
//! the entries by name, as the report's function page shows them.

use vstd::prelude::*;
use crate::model::{demangled_of, FunctionCoverage};

verus! {

broadcast use vstd::seq_lib::group_to_multiset_ensures;

/// One row of the function page: a demangled name and its hit count.
#[derive(Debug)]
pub struct FunctionListEntry {
    pub name: String,
    pub count: i64,
}

/// Lexicographic order on text, by code point; the empty text comes first.
pub open spec fn lex_le(a: Seq<char>, b: Seq<char>) -> bool
    decreases a.len(),
{
    if a.len() == 0 {
        true
    } else if b.len() == 0 {
        false
    } else if (a[0] as u32) < (b[0] as u32) {
        true
    } else if (a[0] as u32) > (b[0] as u32) {
        false
    } else {
        lex_le(a.skip(1), b.skip(1))
    }
}

proof fn lemma_lex_total(a: Seq<char>, b: Seq<char>)
    ensures
        lex_le(a, b) || lex_le(b, a),
    decreases a.len(),
{
    if a.len() > 0 && b.len() > 0 && a[0] as u32 == b[0] as u32 {
        lemma_lex_total(a.skip(1), b.skip(1));
    }
}

proof fn lemma_lex_trans(a: Seq<char>, b: Seq<char>, c: Seq<char>)
    requires
        lex_le(a, b),
        lex_le(b, c),
    ensures
        lex_le(a, c),
    decreases a.len(),
{
    if a.len() > 0 && b.len() > 0 && c.len() > 0 && a[0] as u32 == b[0] as u32 && b[0] as u32
        == c[0] as u32 {
        lemma_lex_trans(a.skip(1), b.skip(1), c.skip(1));
    }
}

fn str_le_from(a: &str, b: &str, k: usize) -> (r: bool)
    requires
        k <= a@.len(),
        k <= b@.len(),
    ensures
        r == lex_le(a@.skip(k as int), b@.skip(k as int)),
    decreases a@.len() - k,
{
    let an = a.unicode_len();
    let bn = b.unicode_len();
    if k >= an {
        proof {
            assert(a@.skip(k as int).len() == 0);
        }
        true
    } else if k >= bn {
        proof {
            assert(b@.skip(k as int).len() == 0);
            assert(a@.skip(k as int).len() > 0);
        }
        false
    } else {
        let ca = a.get_char(k);
        let cb = b.get_char(k);
        proof {
            assert(a@.skip(k as int)[0] == a@[k as int]);
            assert(b@.skip(k as int)[0] == b@[k as int]);
        }
        if (ca as u32) < (cb as u32) {
            true
        } else if (ca as u32) > (cb as u32) {
            false
        } else {
            let r = str_le_from(a, b, k + 1);
            proof {
                assert(a@.skip(k as int).skip(1) =~= a@.skip(k as int + 1));
                assert(b@.skip(k as int).skip(1) =~= b@.skip(k as int + 1));
            }
            r
        }
    }
}

/// Compares two names in the listing's order.
pub fn str_le(a: &str, b: &str) -> (r: bool)
    ensures
        r == lex_le(a@, b@),
{
    let r = str_le_from(a, b, 0);
    proof {
        assert(a@.skip(0) =~= a@);
        assert(b@.skip(0) =~= b@);
    }
    r
}

/// The rows stand in name order.
pub open spec fn entries_sorted(s: Seq<FunctionListEntry>) -> bool {
    forall|i: int, j: int|
        0 <= i < j < s.len() ==> lex_le(#[trigger] s[i].name@, #[trigger] s[j].name@)
}

/// Sorts the listing's rows by name. The result holds exactly the rows
/// handed in (as a multiset) and stands in name order.
pub fn sort_functions(v: Vec<FunctionListEntry>) -> (r: Vec<FunctionListEntry>)
    ensures
        entries_sorted(r@),
        r@.to_multiset() == v@.to_multiset(),
        r@.len() == v@.len(),
{
    let ghost orig = v@;
    let mut input = v;
    let mut out: Vec<FunctionListEntry> = Vec::new();
    proof {
        assert(out@.to_multiset().add(input@.to_multiset()) =~= orig.to_multiset());
    }
    while input.len() > 0
        invariant
            out@.to_multiset().add(input@.to_multiset()) == orig.to_multiset(),
            out@.len() + input@.len() == orig.len(),
            entries_sorted(out@),
            forall|i: int, j: int|
                0 <= i < out@.len() && 0 <= j < input@.len() ==> lex_le(
                    #[trigger] out@[i].name@,
                    #[trigger] input@[j].name@,
                ),
        decreases input@.len(),
    {
        let mut mi: usize = 0;
        let mut k: usize = 1;
        proof {
            lemma_lex_total(input@[0].name@, input@[0].name@);
        }
        while k < input.len()
            invariant
                input@.len() > 0,
                mi < k <= input@.len(),
                forall|t: int| 0 <= t < k ==> lex_le(input@[mi as int].name@, #[trigger] input@[t].name@),
            decreases input@.len() - k,
        {
            if !str_le(input[mi].name.as_str(), input[k].name.as_str()) {
                proof {
                    lemma_lex_total(input@[mi as int].name@, input@[k as int].name@);
                    assert forall|t: int| 0 <= t < k + 1 implies lex_le(
                        input@[k as int].name@,
                        input@[t].name@,
                    ) by {
                        if t < k {
                            lemma_lex_trans(
                                input@[k as int].name@,
                                input@[mi as int].name@,
                                input@[t].name@,
                            );
                        } else {
                            lemma_lex_total(input@[k as int].name@, input@[k as int].name@);
                        }
                    }
                }
                mi = k;
            } else {
                proof {
                    lemma_lex_total(input@[k as int].name@, input@[k as int].name@);
                }
            }
            k = k + 1;
        }
        let ghost input0 = input@;
        let e = input.remove(mi);
        let ghost out0 = out@;
        out.push(e);
        proof {
            assert(input0.to_multiset() =~= input@.to_multiset().insert(e));
            assert(out@.to_multiset() =~= out0.to_multiset().insert(e));
            assert(out@.to_multiset().add(input@.to_multiset()) =~= orig.to_multiset());
            assert forall|i: int, j: int|
                0 <= i < out@.len() && 0 <= j < input@.len() implies lex_le(
                out@[i].name@,
                input@[j].name@,
            ) by {
                if i < out0.len() {
                } else {
                    if j < mi {
                        assert(input@[j] == input0[j]);
                    } else {
                        assert(input@[j] == input0[j + 1]);
                    }
                }
            }
        }
    }
    out
}

/// Builds the listing's rows: each covered function's demangled name with
/// its hit count, in the order given.
pub fn prepare_function_entries(funcs: &Vec<FunctionCoverage>) -> (r: Vec<FunctionListEntry>)
    ensures
        r@.len() == funcs@.len(),
        forall|k: int|
            0 <= k < funcs@.len() ==> (#[trigger] r@[k]).name@ == demangled_of(funcs@[k].name@)
                && r@[k].count == funcs@[k].count,
{
    let mut out: Vec<FunctionListEntry> = Vec::new();
    let mut k: usize = 0;
    while k < funcs.len()
        invariant
            k <= funcs@.len(),
            out@.len() == k,
            forall|t: int|
                0 <= t < k ==> (#[trigger] out@[t]).name@ == demangled_of(funcs@[t].name@)
                    && out@[t].count == funcs@[t].count,
        decreases funcs@.len() - k,
    {
        let name = funcs[k].demangle();
        let count = funcs[k].count;
        out.push(FunctionListEntry { name, count });
        k = k + 1;
    }
    out
}

} // verus!

//! Rewriting of the compiler's own driver source to announce its security
//! hardening.
use vstd::prelude::*;
use vstd::string::*;
use crate::text::push_char;

verus! {

/// `s[i..]` with every occurrence of `pat` replaced by `rep`, occurrences
/// taken from left to right without overlap.
pub open spec fn replaced_from(s: Seq<char>, pat: Seq<char>, rep: Seq<char>, i: int) -> Seq<char>
    decreases s.len() - i,
{
    if i < 0 || i >= s.len() {
        Seq::empty()
    } else if pat.len() > 0 && i + pat.len() <= s.len() && s.subrange(i, i + pat.len()) == pat {
        rep + replaced_from(s, pat, rep, i + pat.len())
    } else {
        seq![s[i]] + replaced_from(s, pat, rep, i + 1)
    }
}

/// The line of the driver that reports a successful compilation.
pub open spec fn report_line() -> Seq<char> {
    "println!(\"Successfully compiled to {}\", output_file);"@
}

/// The same report, announcing the enhanced security.
pub open spec fn secure_report_line() -> Seq<char> {
    "println!(\"Successfully compiled to {} with enhanced security!\", output_file);"@
}

/// The characters of `s`.
fn chars_of(s: &str) -> (r: Vec<char>)
    ensures
        r@ == s@,
{
    let mut v: Vec<char> = Vec::new();
    for c in it: s.chars()
        invariant
            v@ == it.seq().take(it.index() as int),
    {
        v.push(c);
        assert(v@ =~= it.seq().take(it.index() + 1));
    }
    assert(v@ =~= s@);
    v
}

/// Whether `pat` occurs in `s` at position `i`.
fn occurs_at(s: &Vec<char>, pat: &Vec<char>, i: usize) -> (r: bool)
    requires
        i + pat@.len() <= s@.len(),
    ensures
        r == (s@.subrange(i as int, i + pat@.len()) == pat@),
{
    let n = s.len();
    let mut k: usize = 0;
    while k < pat.len()
        invariant
            n == s@.len(),
            k <= pat@.len(),
            i + pat@.len() <= s@.len(),
            s@.subrange(i as int, i + k) == pat@.take(k as int),
        decreases pat@.len() - k,
    {
        if s[i + k] != pat[k] {
            assert(s@.subrange(i as int, i + pat@.len())[k as int] != pat@[k as int]);
            return false;
        }
        k = k + 1;
        assert(s@.subrange(i as int, i + k) =~= pat@.take(k as int));
    }
    assert(pat@.take(k as int) =~= pat@);
    true
}

/// Replaces every occurrence of `pat` in `s` by `rep`.
fn replace_all(s: &str, pat: &str, rep: &str) -> (r: String)
    ensures
        r@ == replaced_from(s@, pat@, rep@, 0),
{
    let src = chars_of(s);
    let p = chars_of(pat);
    let n = src.len();
    let plen = p.len();
    let mut out = String::new();
    let mut i: usize = 0;
    assert(out@ + replaced_from(s@, pat@, rep@, 0) =~= replaced_from(s@, pat@, rep@, 0));
    while i < n
        invariant
            src@ == s@,
            p@ == pat@,
            n == s@.len(),
            plen == pat@.len(),
            i <= n,
            out@ + replaced_from(s@, pat@, rep@, i as int) == replaced_from(s@, pat@, rep@, 0),
        decreases n - i,
    {
        let ghost before = out@;
        if plen > 0 && plen <= n - i && occurs_at(&src, &p, i) {
            out.append(rep);
            i = i + plen;
            assert(before + replaced_from(s@, pat@, rep@, i - plen) =~= out@ + replaced_from(s@, pat@, rep@, i as int));
        } else {
            push_char(&mut out, src[i]);
            i = i + 1;
            assert(before + replaced_from(s@, pat@, rep@, i - 1) =~= out@ + replaced_from(s@, pat@, rep@, i as int));
        }
    }
    assert(out@ + replaced_from(s@, pat@, rep@, i as int) =~= out@);
    out
}

/// Rewrites the driver's source to announce its enhanced security.
pub struct SelfModifier {}

impl SelfModifier {
    /// A source rewriter.
    pub fn new() -> (m: SelfModifier) {
        SelfModifier {}
    }

    /// The driver source `source` with each report of a successful
    /// compilation replaced by one that announces the enhanced security.
    pub fn secured_source(&self, source: &str) -> (r: String)
        ensures
            r@ == replaced_from(source@, report_line(), secure_report_line(), 0),
    {
        replace_all(
            source,
            "println!(\"Successfully compiled to {}\", output_file);",
            "println!(\"Successfully compiled to {} with enhanced security!\", output_file);",
        )
    }
}

/// Text in which the pattern does not occur is left as it is.
pub proof fn law_replace_without_occurrence(s: Seq<char>, pat: Seq<char>, rep: Seq<char>)
    requires
        forall|i: int| 0 <= i && i + pat.len() <= s.len() ==> #[trigger] s.subrange(i, i + pat.len()) != pat,
    ensures
        replaced_from(s, pat, rep, 0) == s,
{
    lemma_replace_suffix(s, pat, rep, 0);
    assert(s.subrange(0, s.len() as int) =~= s);
}

proof fn lemma_replace_suffix(s: Seq<char>, pat: Seq<char>, rep: Seq<char>, i: int)
    requires
        0 <= i <= s.len(),
        forall|j: int| 0 <= j && j + pat.len() <= s.len() ==> #[trigger] s.subrange(j, j + pat.len()) != pat,
    ensures
        replaced_from(s, pat, rep, i) == s.subrange(i, s.len() as int),
    decreases s.len() - i,
{
    if i < s.len() {
        lemma_replace_suffix(s, pat, rep, i + 1);
        if pat.len() > 0 && i + pat.len() <= s.len() {
            assert(s.subrange(i, i + pat.len()) != pat);
        }
        assert(seq![s[i]] + s.subrange(i + 1, s.len() as int) =~= s.subrange(i, s.len() as int));
    } else {
        assert(s.subrange(i, s.len() as int) =~= Seq::<char>::empty());
    }
}

} // verus!

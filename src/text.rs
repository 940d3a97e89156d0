//! Character-level string helpers with exact contracts.
use vstd::prelude::*;

verus! {

broadcast use vstd::string::group_string_axioms;

/// Relies on `String::push`: appends one character at the end.
#[verifier::external_body]
pub(crate) fn push_char(s: &mut String, c: char)
    ensures
        final(s)@ == old(s)@.push(c),
{
    s.push(c)
}

/// The characters of `s`, in order.
pub fn chars_of(s: &str) -> (r: Vec<char>)
    ensures
        r@ == s@,
{
    let mut out: Vec<char> = Vec::new();
    for c in it: s.chars()
        invariant
            it.seq() == s@,
            out@ == it.seq().take(it.index() as int),
    {
        out.push(c);
    }
    assert(out@ =~= s@);
    out
}

/// The string made of `cs[from..to]`.
pub fn string_of_range(cs: &Vec<char>, from: usize, to: usize) -> (r: String)
    requires
        from <= to <= cs@.len(),
    ensures
        r@ == cs@.subrange(from as int, to as int),
{
    let mut out = String::new();
    let mut k: usize = from;
    while k < to
        invariant
            from <= k <= to <= cs@.len(),
            out@ == cs@.subrange(from as int, k as int),
        decreases to - k,
    {
        push_char(&mut out, cs[k]);
        assert(cs@.subrange(from as int, k + 1) =~= cs@.subrange(from as int, k as int).push(cs@[k as int]));
        k = k + 1;
    }
    out
}

/// The string made of all of `cs`.
pub fn string_of(cs: &Vec<char>) -> (r: String)
    ensures
        r@ == cs@,
{
    let r = string_of_range(cs, 0, cs.len());
    assert(cs@.subrange(0, cs@.len() as int) =~= cs@);
    r
}

/// Appends the characters of `t` to `s`.
pub fn push_all(s: &mut String, t: &str)
    ensures
        final(s)@ == old(s)@ + t@,
{
    let cs = chars_of(t);
    let mut k: usize = 0;
    while k < cs.len()
        invariant
            cs@ == t@,
            k <= cs@.len(),
            s@ == old(s)@ + cs@.take(k as int),
        decreases cs.len() - k,
    {
        push_char(s, cs[k]);
        assert(cs@.take(k + 1) =~= cs@.take(k as int).push(cs@[k as int]));
        k = k + 1;
    }
    assert(cs@.take(k as int) =~= cs@);
}

/// Whether `pat` occurs in `s` at position `at`.
pub open spec fn occurs_at(s: Seq<char>, pat: Seq<char>, at: int) -> bool {
    0 <= at && at + pat.len() <= s.len() && s.subrange(at, at + pat.len()) == pat
}

/// Whether `pat` occurs anywhere in `s`.
pub open spec fn contains(s: Seq<char>, pat: Seq<char>) -> bool {
    exists|at: int| occurs_at(s, pat, at)
}

/// Every non-overlapping occurrence of a non-empty `pat` in `s`, taken from the
/// left, replaced by `with`.
pub open spec fn replace(s: Seq<char>, pat: Seq<char>, with: Seq<char>) -> Seq<char>
    decreases s.len(),
{
    if s.len() == 0 || pat.len() == 0 {
        s
    } else if occurs_at(s, pat, 0) {
        with + replace(s.subrange(pat.len() as int, s.len() as int), pat, with)
    } else {
        seq![s[0]] + replace(s.subrange(1, s.len() as int), pat, with)
    }
}

fn occurs_at_exec(s: &Vec<char>, pat: &Vec<char>, at: usize) -> (r: bool)
    requires
        at <= s@.len(),
    ensures
        r == occurs_at(s@, pat@, at as int),
{
    if pat.len() > s.len() - at {
        return false;
    }
    let mut k: usize = 0;
    while k < pat.len()
        invariant
            at + pat@.len() <= s.len(),
            k <= pat@.len(),
            forall|j: int| 0 <= j < k ==> s@[at + j] == pat@[j],
        decreases pat.len() - k,
    {
        if s[at + k] != pat[k] {
            assert(s@.subrange(at as int, at + pat@.len())[k as int] != pat@[k as int]);
            return false;
        }
        k = k + 1;
    }
    assert(s@.subrange(at as int, at + pat@.len()) =~= pat@);
    true
}

/// Whether `pat` occurs in `s`.
pub fn text_contains(s: &str, pat: &str) -> (r: bool)
    ensures
        r == contains(s@, pat@),
{
    let cs = chars_of(s);
    let ps = chars_of(pat);
    let mut at: usize = 0;
    while at < cs.len()
        invariant
            cs@ == s@,
            ps@ == pat@,
            at <= cs@.len(),
            forall|j: int| 0 <= j < at ==> !occurs_at(s@, pat@, j),
        decreases cs.len() - at,
    {
        if occurs_at_exec(&cs, &ps, at) {
            return true;
        }
        at = at + 1;
    }
    occurs_at_exec(&cs, &ps, at)
}

/// `s` with every occurrence of a non-empty `pat` replaced by `with`.
pub fn text_replace(s: &str, pat: &str, with: &str) -> (r: String)
    requires
        pat@.len() > 0,
    ensures
        r@ == replace(s@, pat@, with@),
{
    let cs = chars_of(s);
    let ps = chars_of(pat);
    let mut out = String::new();
    let mut at: usize = 0;
    assert(s@.subrange(0, s@.len() as int) =~= s@);
    assert(Seq::<char>::empty() + replace(s@, pat@, with@) =~= replace(s@, pat@, with@));
    while at < cs.len()
        invariant
            cs@ == s@,
            ps@ == pat@,
            ps@.len() > 0,
            at <= cs@.len(),
            replace(s@, pat@, with@) == out@ + replace(s@.subrange(at as int, s@.len() as int), pat@, with@),
        decreases cs.len() - at,
    {
        let ghost rest = s@.subrange(at as int, s@.len() as int);
        if occurs_at_exec(&cs, &ps, at) {
            assert(occurs_at(rest, pat@, 0)) by {
                assert(rest.subrange(0, pat@.len() as int) =~= s@.subrange(at as int, at + pat@.len()));
            }
            assert(rest.subrange(pat@.len() as int, rest.len() as int) =~= s@.subrange(at + pat@.len(), s@.len() as int));
            let ghost prev = out@;
            push_all(&mut out, with);
            assert(prev + replace(rest, pat@, with@) =~= out@ + replace(
                rest.subrange(pat@.len() as int, rest.len() as int),
                pat@,
                with@,
            ));
            at = at + ps.len();
        } else {
            assert(!occurs_at(rest, pat@, 0)) by {
                if rest.len() >= pat@.len() {
                    assert(rest.subrange(0, pat@.len() as int) =~= s@.subrange(at as int, at + pat@.len()));
                }
            }
            assert(rest.subrange(1, rest.len() as int) =~= s@.subrange(at + 1, s@.len() as int));
            let ghost prev = out@;
            push_char(&mut out, cs[at]);
            assert(prev + replace(rest, pat@, with@) =~= out@ + replace(
                rest.subrange(1, rest.len() as int),
                pat@,
                with@,
            ));
            at = at + 1;
        }
    }
    assert(s@.subrange(at as int, s@.len() as int) =~= Seq::<char>::empty());
    assert(out@ + Seq::<char>::empty() =~= out@);
    out
}

} // verus!

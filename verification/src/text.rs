//! Character-level helpers: building strings, decimal rendering and
//! substring search, each with a specification over `Seq<char>`.

use vstd::prelude::*;

verus! {

/// Appends one character to a string.
///
/// Calls `String::push`, which its documentation describes as appending the
/// given `char` to the end of the string.
#[verifier::external_body]
pub(crate) fn string_push(s: &mut String, c: char)
    ensures
        final(s)@ == old(s)@.push(c),
{
    s.push(c);
}

/// Removes the last character of a string, if any, and returns it.
///
/// Calls `String::pop`, which its documentation describes as removing the
/// last character and returning it, or `None` for an empty string.
#[verifier::external_body]
pub(crate) fn string_pop(s: &mut String) -> (r: Option<char>)
    ensures
        old(s)@.len() == 0 ==> r is None && final(s)@ == old(s)@,
        old(s)@.len() > 0 ==> r == Some(old(s)@.last()) && final(s)@ == old(s)@.drop_last(),
{
    s.pop()
}

/// The lower-case form of `s` that `str::to_lowercase` gives.
pub uninterp spec fn spec_lowercase(s: Seq<char>) -> Seq<char>;

/// The lower-case form of a string.
///
/// Calls `str::to_lowercase`, which maps every character by the Unicode
/// lower-case mapping (with the special case for a final sigma). The
/// contract names its result and claims only that it is a function of the
/// string.
#[verifier::external_body]
pub(crate) fn to_lowercase(s: &str) -> (r: String)
    ensures
        r@ == spec_lowercase(s@),
{
    s.to_lowercase()
}

/// Appends every character of `tail` to `s`, in order.
pub fn push_str(s: &mut String, tail: &str)
    ensures
        final(s)@ == old(s)@ + tail@,
{
    broadcast use vstd::string::group_string_axioms;
    let ghost start = s@;
    for c in it: tail.chars()
        invariant
            s@ == start + it.seq().take(it.index() as int),
            it.seq() == tail@,
    {
        string_push(s, c);
        proof {
            assert(it.seq().take(it.index() + 1) =~= it.seq().take(it.index() as int).push(c));
        }
    }
    assert(tail@.take(tail@.len() as int) =~= tail@);
}

/// The character of a decimal digit `d` (for `0 <= d < 10`).
pub open spec fn digit_char(d: int) -> char {
    if d == 0 { '0' } else if d == 1 { '1' } else if d == 2 { '2' } else if d == 3 { '3' }
    else if d == 4 { '4' } else if d == 5 { '5' } else if d == 6 { '6' } else if d == 7 { '7' }
    else if d == 8 { '8' } else { '9' }
}

/// The decimal rendering of `n`, without sign or leading zeros.
pub open spec fn decimal(n: nat) -> Seq<char>
    decreases n,
{
    if n < 10 {
        seq![digit_char(n as int)]
    } else {
        decimal(n / 10).push(digit_char((n % 10) as int))
    }
}

fn digit(d: u64) -> (c: char)
    requires
        d < 10,
    ensures
        c == digit_char(d as int),
{
    if d == 0 { '0' } else if d == 1 { '1' } else if d == 2 { '2' } else if d == 3 { '3' }
    else if d == 4 { '4' } else if d == 5 { '5' } else if d == 6 { '6' } else if d == 7 { '7' }
    else if d == 8 { '8' } else { '9' }
}

/// Appends the decimal rendering of `n` to `s`.
pub fn push_decimal(s: &mut String, n: u64)
    ensures
        final(s)@ == old(s)@ + decimal(n as nat),
{
    let mut v: u64 = n;
    let mut acc: Vec<char> = Vec::new();
    while v >= 10
        invariant
            decimal(n as nat) == decimal(v as nat) + acc@,
        decreases v,
    {
        let d = digit(v % 10);
        let ghost prev = acc@;
        acc.insert(0, d);
        proof {
            assert(decimal(v as nat) == decimal((v / 10) as nat).push(digit_char((v % 10) as int)));
            assert(decimal((v / 10) as nat).push(d) + prev =~= decimal((v / 10) as nat) + acc@);
        }
        v = v / 10;
    }
    acc.insert(0, digit(v));
    let ghost start = s@;
    let mut i: usize = 0;
    while i < acc.len()
        invariant
            0 <= i <= acc.len(),
            s@ == start + acc@.take(i as int),
            acc@ == decimal(n as nat),
        decreases acc.len() - i,
    {
        string_push(s, acc[i]);
        assert(acc@.take(i + 1) =~= acc@.take(i as int).push(acc@[i as int]));
        i = i + 1;
    }
    assert(acc@.take(acc@.len() as int) =~= acc@);
}

/// Whether `pat` occurs in `s` starting at position `i`.
pub open spec fn occurs_at(s: Seq<char>, pat: Seq<char>, i: int) -> bool {
    0 <= i && i + pat.len() <= s.len() && s.subrange(i, i + pat.len()) == pat
}

/// Whether `pat` occurs anywhere in `s` (the empty pattern occurs in every string).
pub open spec fn occurs_in(s: Seq<char>, pat: Seq<char>) -> bool {
    exists|i: int| occurs_at(s, pat, i)
}

fn matches_at(s: &Vec<char>, pat: &Vec<char>, i: usize) -> (r: bool)
    requires
        i + pat.len() <= s.len(),
    ensures
        r == occurs_at(s@, pat@, i as int),
{
    let mut j: usize = 0;
    while j < pat.len()
        invariant
            i + pat.len() <= s.len(),
            0 <= j <= pat.len(),
            forall|k: int| 0 <= k < j ==> s@[i + k] == pat@[k],
        decreases pat.len() - j,
    {
        if s[i + j] != pat[j] {
            assert(s@.subrange(i as int, i + pat.len())[j as int] != pat@[j as int]);
            return false;
        }
        j = j + 1;
    }
    assert(s@.subrange(i as int, i + pat.len()) =~= pat@);
    true
}

/// Whether `pat` occurs in `s` (the search `str::contains` performs for a
/// string pattern).
pub fn contains_chars(s: &Vec<char>, pat: &Vec<char>) -> (r: bool)
    ensures
        r == occurs_in(s@, pat@),
{
    if pat.len() > s.len() {
        return false;
    }
    let last = s.len() - pat.len();
    let mut i: usize = 0;
    loop
        invariant
            pat.len() <= s.len(),
            last == s.len() - pat.len(),
            i <= last,
            forall|k: int| 0 <= k < i ==> !occurs_at(s@, pat@, k),
        ensures
            forall|k: int| 0 <= k <= last ==> !occurs_at(s@, pat@, k),
        decreases last - i,
    {
        if matches_at(s, pat, i) {
            return true;
        }
        if i == last {
            break;
        }
        i = i + 1;
    }
    proof {
        true_if_none(s@, pat@, last + 1);
    }
    false
}

proof fn true_if_none(s: Seq<char>, pat: Seq<char>, i: int)
    requires
        i + pat.len() > s.len(),
        forall|k: int| 0 <= k < i ==> !occurs_at(s, pat, k),
    ensures
        !occurs_in(s, pat),
{
    assert forall|k: int| !occurs_at(s, pat, k) by {
        if 0 <= k < i {
        } else {
        }
    }
}

/// The characters of a string, in order.
pub fn chars_of(s: &str) -> (r: Vec<char>)
    ensures
        r@ == s@,
{
    broadcast use vstd::string::group_string_axioms;
    let mut r: Vec<char> = Vec::new();
    for c in it: s.chars()
        invariant
            r@ == it.seq().take(it.index() as int),
            it.seq() == s@,
    {
        r.push(c);
        proof {
            assert(it.seq().take(it.index() + 1) =~= it.seq().take(it.index() as int).push(c));
        }
    }
    assert(s@.take(s@.len() as int) =~= s@);
    r
}

/// `s` with every line feed replaced by the two characters `\` and `n`.
pub open spec fn escape_newlines(s: Seq<char>) -> Seq<char>
    decreases s.len(),
{
    if s.len() == 0 {
        seq![]
    } else {
        escape_newlines(s.drop_last()) + (if s.last() == '\n' {
            seq!['\\', 'n']
        } else {
            seq![s.last()]
        })
    }
}

/// Builds `escape_newlines(s@)`.
pub fn escape_newlines_string(s: &str) -> (r: String)
    ensures
        r@ == escape_newlines(s@),
{
    broadcast use vstd::string::group_string_axioms;
    let mut r = String::new();
    for c in it: s.chars()
        invariant
            r@ == escape_newlines(it.seq().take(it.index() as int)),
            it.seq() == s@,
    {
        let ghost before = it.seq().take(it.index() as int);
        if c == '\n' {
            string_push(&mut r, '\\');
            string_push(&mut r, 'n');
        } else {
            string_push(&mut r, c);
        }
        proof {
            let after = it.seq().take(it.index() + 1);
            assert(after.drop_last() =~= before);
            assert(after.last() == c);
            if c == '\n' {
                assert(r@ =~= escape_newlines(before) + seq!['\\', 'n']);
            } else {
                assert(r@ =~= escape_newlines(before) + seq![c]);
            }
        }
    }
    assert(s@.take(s@.len() as int) =~= s@);
    r
}

} // verus!
